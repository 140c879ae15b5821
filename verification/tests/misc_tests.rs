use std::collections::HashMap;

use risingwave::func_dep::FunctionalDependencySet;
use risingwave::project::{ExecutorParams, ProjectExecutorBuilder};
use risingwave::version_stats::{HummockVersionStats, TableStats};

#[test]
fn version_stats_live_in_one_row() {
    assert_eq!(HummockVersionStats::cf_name(), "cf/hummock_version_stats");
    let mut table_stats = HashMap::new();
    table_stats.insert(3u32, TableStats { total_key_size: 10, total_value_size: 20, total_key_count: 2 });
    let stats = HummockVersionStats { hummock_version_id: 42, table_stats };
    assert_eq!(stats.key().unwrap(), 0);
    let message = stats.to_protobuf();
    assert_eq!(message.hummock_version_id, 42);
    assert_eq!(message.table_stats.get(&3).unwrap().total_value_size, 20);
    let back = HummockVersionStats::from_protobuf(message);
    assert_eq!(back.table_stats.len(), 1);
}

#[test]
fn key_dependency_covers_all_columns() {
    let fds = FunctionalDependencySet::with_key(3, &vec![0, 2]);
    assert_eq!(fds.strict.len(), 1);
    assert_eq!(fds.strict[0].from, vec![true, false, true]);
    assert_eq!(fds.strict[0].to, vec![true, true, true]);
    assert!(FunctionalDependencySet::with_key(0, &vec![]).strict.is_empty());
    assert!(FunctionalDependencySet::new(4).strict.is_empty());
}

#[test]
fn projection_takes_the_single_input_and_all_expressions() {
    let params = ExecutorParams { actor_context: "ctx", input: vec![7u8], pk_indices: vec![0, 1], executor_id: 9 };
    let built: Vec<Result<&str, String>> = vec![Ok("a + 1"), Ok("b")];
    let exec = ProjectExecutorBuilder::from_built_exprs(params, built).unwrap();
    assert_eq!(exec.input, 7);
    assert_eq!(exec.exprs, vec!["a + 1", "b"]);
    assert_eq!(exec.pk_indices, vec![0, 1]);
    assert_eq!(exec.executor_id, 9);
    assert_eq!(exec.actor_context, "ctx");
}

#[test]
fn projection_fails_with_the_first_bad_expression() {
    let params = ExecutorParams { actor_context: (), input: vec![1u8], pk_indices: vec![], executor_id: 1 };
    let built: Vec<Result<u8, String>> = vec![Ok(1), Err("bad 1".to_string()), Err("bad 2".to_string())];
    match ProjectExecutorBuilder::from_built_exprs(params, built) {
        Err(e) => assert_eq!(e, "bad 1"),
        Ok(_) => panic!("expected a failure"),
    }
}

#[test]
fn projection_builds_each_expression_of_the_select_list() {
    let params = ExecutorParams { actor_context: (), input: vec![3u8], pk_indices: vec![1], executor_id: 4 };
    let select_list = vec![2u32, 5, 9];
    let exec = ProjectExecutorBuilder::new_boxed_executor(params, &select_list, |p: &u32| Ok::<u32, String>(p * 10))
        .unwrap();
    assert_eq!(exec.exprs, vec![20, 50, 90]);
    assert_eq!(exec.input, 3);
    assert_eq!(exec.pk_indices, vec![1]);
    assert_eq!(exec.executor_id, 4);
}

#[test]
fn projection_stops_building_at_the_first_failure() {
    let params = ExecutorParams { actor_context: (), input: vec![3u8], pk_indices: vec![], executor_id: 4 };
    let select_list = vec![1u32, 20, 3, 40];
    let calls = std::cell::Cell::new(0);
    let build = |p: &u32| {
        calls.set(calls.get() + 1);
        if *p < 10 { Ok(*p) } else { Err(format!("bad {}", p)) }
    };
    match ProjectExecutorBuilder::new_boxed_executor(params, &select_list, build) {
        Err(e) => assert_eq!(e, "bad 20"),
        Ok(_) => panic!("expected a failure"),
    }
    assert_eq!(calls.get(), 2);
}
