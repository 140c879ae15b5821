//! Building the executor of a projection from its plan node.
use vstd::prelude::*;

verus! {

/// Builds projection executors.
pub struct ProjectExecutorBuilder;

/// What every executor is built from: the actor's context, the executors
/// of its inputs, the positions of the key columns, and its identifier.
#[derive(Debug)]
pub struct ExecutorParams<A, I> {
    pub actor_context: A,
    pub input: Vec<I>,
    pub pk_indices: Vec<usize>,
    pub executor_id: u64,
}

/// An executor that computes one expression per output column over each
/// row of its input.
#[derive(Debug)]
pub struct ProjectExecutor<A, I, E> {
    pub actor_context: A,
    pub input: I,
    pub pk_indices: Vec<usize>,
    pub exprs: Vec<E>,
    pub executor_id: u64,
}

/// Whether building `node` with `build` can give an expression.
pub open spec fn built_ok<P, E, Er, F: Fn(&P) -> Result<E, Er>>(build: F, node: &P) -> bool {
    exists|x: E| call_ensures(build, (node,), Ok::<E, Er>(x))
}

/// The position of the first failed build among `built`, if any.
pub open spec fn first_failure<E, Er>(built: Seq<Result<E, Er>>) -> Option<int>
    decreases built.len(),
{
    if built.len() == 0 {
        None
    } else {
        match first_failure(built.drop_last()) {
            Some(k) => Some(k),
            None => if built.last() is Err {
                Some(built.len() - 1)
            } else {
                None
            },
        }
    }
}

/// The first failure is a failed build, and without one every build
/// succeeded.
pub proof fn lemma_first_failure_in_range<E, Er>(built: Seq<Result<E, Er>>)
    ensures
        first_failure(built) matches Some(k) ==> 0 <= k < built.len() && built[k] is Err,
        first_failure(built) is None ==> forall|i: int| 0 <= i < built.len() ==> (#[trigger] built[i]) is Ok,
    decreases built.len(),
{
    if built.len() > 0 {
        lemma_first_failure_in_range(built.drop_last());
        assert forall|i: int| 0 <= i < built.len() - 1 implies built.drop_last()[i] == #[trigger] built[i] by {}
    }
}

impl ProjectExecutorBuilder {
    /// Builds a projection over the single input of `params`, building its
    /// expressions from the node's select list with `build_from_prost`, one
    /// after the other. The first expression that fails to build stops the
    /// build, which fails with its error; the expressions after it are not
    /// built.
    pub fn new_boxed_executor<A, I, P, E, Er, F: Fn(&P) -> Result<E, Er>>(
        params: ExecutorParams<A, I>,
        select_list: &Vec<P>,
        build_from_prost: F,
    ) -> (executor: Result<ProjectExecutor<A, I, E>, Er>)
        requires
            params.input@.len() == 1,
            forall|i: int| 0 <= i < select_list@.len() ==> call_requires(build_from_prost, (&select_list@[i],)),
        ensures
            match executor {
                Ok(p) => {
                    &&& p.actor_context == params.actor_context
                    &&& p.input == params.input@[0]
                    &&& p.pk_indices@ == params.pk_indices@
                    &&& p.executor_id == params.executor_id
                    &&& p.exprs@.len() == select_list@.len()
                    &&& forall|i: int|
                        0 <= i < select_list@.len() ==> call_ensures(
                            build_from_prost,
                            (&select_list@[i],),
                            Ok::<E, Er>(#[trigger] p.exprs@[i]),
                        )
                },
                Err(e) => exists|k: int|
                    0 <= k < select_list@.len() && call_ensures(build_from_prost, (&select_list@[k],), Err::<E, Er>(e))
                        && forall|j: int| 0 <= j < k ==> built_ok(build_from_prost, #[trigger] &select_list@[j]),
            },
    {
        let mut built: Vec<Result<E, Er>> = Vec::new();
        let mut failed = false;
        let mut i: usize = 0;
        while i < select_list.len() && !failed
            invariant
                i <= select_list@.len(),
                built@.len() == i,
                forall|j: int| 0 <= j < select_list@.len() ==> call_requires(build_from_prost, (&select_list@[j],)),
                forall|j: int| 0 <= j < i ==> call_ensures(build_from_prost, (&select_list@[j],), #[trigger] built@[j]),
                !failed ==> first_failure(built@) is None,
                failed ==> i > 0 && first_failure(built@) == Some(i - 1),
            decreases select_list@.len() - i,
        {
            let result = build_from_prost(&select_list[i]);
            proof {
                assert(built@.push(result).drop_last() == built@);
            }
            failed = result.is_err();
            built.push(result);
            i = i + 1;
        }
        let ghost results = built@;
        let executor = Self::from_built_exprs(params, built);
        proof {
            lemma_first_failure_in_range(results);
            if executor is Ok {
                let p = executor->Ok_0;
                assert forall|j: int| 0 <= j < select_list@.len() implies call_ensures(
                    build_from_prost,
                    (&select_list@[j],),
                    Ok::<E, Er>(#[trigger] p.exprs@[j]),
                ) by {
                    assert(results[j] == Ok::<E, Er>(p.exprs@[j]));
                }
            } else {
                let e = executor->Err_0;
                let k = i - 1;
                assert(results[k] == Err::<E, Er>(e));
                assert forall|j: int| 0 <= j < k implies built_ok(build_from_prost, #[trigger] &select_list@[j]) by {
                    assert(results.take(k) == results.take(k + 1).drop_last());
                    lemma_first_failure_prefix_none(results, k);
                    lemma_first_failure_in_range(results.take(k));
                    assert(results.take(k)[j] == results[j]);
                    assert(results[j] == Ok::<E, Er>(results[j]->Ok_0));
                    assert(call_ensures(build_from_prost, (&select_list@[j],), Ok::<E, Er>(results[j]->Ok_0)));
                }
                assert(call_ensures(build_from_prost, (&select_list@[k],), Err::<E, Er>(e)));
            }
        }
        executor
    }

    /// Builds a projection over the single input of `params`, with the
    /// expressions of the node's select list as they were built, in order.
    /// The first expression that failed to build fails the whole build with
    /// its error.
    pub fn from_built_exprs<A, I, E, Er>(
        params: ExecutorParams<A, I>,
        select_list: Vec<Result<E, Er>>,
    ) -> (executor: Result<ProjectExecutor<A, I, E>, Er>)
        requires
            params.input@.len() == 1,
        ensures
            match first_failure(select_list@) {
                Some(k) => executor matches Err(e) && select_list@[k] == Result::<E, Er>::Err(e),
                None => executor matches Ok(p) && {
                    &&& p.actor_context == params.actor_context
                    &&& p.input == params.input@[0]
                    &&& p.pk_indices@ == params.pk_indices@
                    &&& p.executor_id == params.executor_id
                    &&& p.exprs@.len() == select_list@.len()
                    &&& forall|i: int| 0 <= i < select_list@.len() ==> select_list@[i] == Result::<E, Er>::Ok(#[trigger] p.exprs@[i])
                },
            },
    {
        let ExecutorParams { actor_context, input, pk_indices, executor_id } = params;
        let mut inputs = input;
        let input = inputs.pop().unwrap();
        let mut project_exprs: Vec<E> = Vec::new();
        let ghost built = select_list@;
        proof {
            assert(built.take(0) =~= Seq::<Result<E, Er>>::empty());
        }
        for expr in it: select_list
            invariant
                it.seq() == built,
                first_failure(built.take(it.index() as int)) is None,
                project_exprs@.len() == it.index(),
                forall|i: int| 0 <= i < it.index() ==> built[i] == Result::<E, Er>::Ok(#[trigger] project_exprs@[i]),
        {
            let ghost i = it.index() as int;
            proof {
                assert(built.take(i + 1).drop_last() == built.take(i));
                assert(built.take(i + 1).last() == built[i]);
            }
            match expr {
                Ok(e) => {
                    project_exprs.push(e);
                },
                Err(err) => {
                    proof {
                        assert(first_failure(built.take(i + 1)) == Some(i));
                        lemma_first_failure_prefix(built, i + 1);
                    }
                    return Err(err);
                },
            }
        }
        proof {
            assert(built.take(built.len() as int) == built);
        }
        Ok(ProjectExecutor { actor_context, input, pk_indices, exprs: project_exprs, executor_id })
    }
}

/// Before the first failure of a list, its prefix has no failure.
proof fn lemma_first_failure_prefix_none<E, Er>(built: Seq<Result<E, Er>>, k: int)
    requires
        first_failure(built) == Some(k),
    ensures
        first_failure(built.take(k)) is None,
    decreases built.len(),
{
    lemma_first_failure_in_range(built);
    let init = built.drop_last();
    if first_failure(init) is Some {
        lemma_first_failure_in_range(init);
        assert(init.take(k) == built.take(k));
        lemma_first_failure_prefix_none(init, k);
    } else {
        assert(init == built.take(k));
    }
}

/// A failure in a prefix is the first failure of the whole list.
proof fn lemma_first_failure_prefix<E, Er>(built: Seq<Result<E, Er>>, k: int)
    requires
        0 <= k <= built.len(),
        first_failure(built.take(k)) is Some,
    ensures
        first_failure(built) == first_failure(built.take(k)),
    decreases built.len() - k,
{
    if k == built.len() {
        assert(built.take(k) == built);
    } else {
        assert(built.drop_last().take(k) == built.take(k));
        lemma_first_failure_prefix(built.drop_last(), k);
    }
}

} // verus!
