//! The logical plan node of a source scan, with the push-down of timestamp
//! predicates on Kafka sources into the node.
use std::rc::Rc;
use vstd::prelude::*;
use vstd::string::*;
use crate::bound::{Bound, TimestampRange, in_range};
use crate::catalog::{
    ColumnDesc, ColumnId, ColumnOrder, DataType, Field, OrderType, Schema, SourceCatalog, TableCatalog,
    copy_fields,
};
use crate::expr::{Condition, ExprImpl, InputRef};
use crate::func_dep::{DependencyView, FunctionalDependencySet, key_dependencies};
use crate::kafka_range::{
    expr_to_kafka_timestamp_range, lemma_narrow_range_is_intersection, lemma_pushed_range_recognized, pushed_range,
    max_millis, recognized_comparison, satisfies_if_consumed, timestamp_comparison_defined,
};
use crate::vec_copy::copy_vec;

verus! {

/// Hands out another pointer to the same allocation, as `Rc::clone` does;
/// the value behind the pointer is therefore the same.
#[verifier::external_body]
fn clone_rc<T>(rc: &Rc<T>) -> (copy: Rc<T>)
    ensures
        copy == *rc,
{
    Rc::clone(rc)
}

/// The field that describes a source column.
pub open spec fn field_of(desc: ColumnDesc) -> Field {
    Field { data_type: desc.data_type, name: desc.name }
}

/// The output columns of a source: one per column description, in order.
pub open spec fn schema_of(descs: Seq<ColumnDesc>) -> Seq<Field> {
    descs.map_values(|d: ColumnDesc| field_of(d))
}

/// The position of the last column of `descs` with identifier `id`.
pub open spec fn last_position(descs: Seq<ColumnDesc>, id: ColumnId) -> Option<usize>
    decreases descs.len(),
{
    if descs.len() == 0 {
        None
    } else if descs.last().column_id == id {
        Some((descs.len() - 1) as usize)
    } else {
        last_position(descs.drop_last(), id)
    }
}

/// The positions of the primary-key columns `ids` among `descs`, or `None`
/// when one of them is not a column of `descs`.
pub open spec fn pk_positions(descs: Seq<ColumnDesc>, ids: Seq<ColumnId>) -> Option<Seq<usize>>
    decreases ids.len(),
{
    if ids.len() == 0 {
        Some(Seq::empty())
    } else {
        match (pk_positions(descs, ids.drop_last()), last_position(descs, ids.last())) {
            (Some(p), Some(i)) => Some(p.push(i)),
            _ => None,
        }
    }
}

/// The description of a source scan that the plan node wraps.
#[derive(Debug)]
pub struct Source {
    pub catalog: Option<Rc<SourceCatalog>>,
    pub column_descs: Vec<ColumnDesc>,
    pub pk_col_ids: Vec<ColumnId>,
    pub row_id_index: Option<usize>,
    pub gen_row_id: bool,
}

/// What a `Source` is, with its lists as sequences.
pub struct SourceView {
    pub catalog: Option<Rc<SourceCatalog>>,
    pub column_descs: Seq<ColumnDesc>,
    pub pk_col_ids: Seq<ColumnId>,
    pub row_id_index: Option<usize>,
    pub gen_row_id: bool,
}

impl View for Source {
    type V = SourceView;

    open spec fn view(&self) -> SourceView {
        SourceView {
            catalog: self.catalog,
            column_descs: self.column_descs@,
            pk_col_ids: self.pk_col_ids@,
            row_id_index: self.row_id_index,
            gen_row_id: self.gen_row_id,
        }
    }
}

fn copy_descs(descs: &Vec<ColumnDesc>) -> (copy: Vec<ColumnDesc>)
    ensures
        copy@ == descs@,
{
    let mut copy: Vec<ColumnDesc> = Vec::new();
    let mut i: usize = 0;
    while i < descs.len()
        invariant
            i <= descs@.len(),
            copy@ == descs@.take(i as int),
        decreases descs@.len() - i,
    {
        let d = &descs[i];
        copy.push(ColumnDesc { data_type: d.data_type, column_id: d.column_id, name: d.name.clone() });
        proof {
            assert(descs@.take(i + 1) == descs@.take(i as int).push(descs@[i as int]));
        }
        i = i + 1;
    }
    proof {
        assert(descs@.take(descs@.len() as int) == descs@);
    }
    copy
}

/// The position of the last column of `descs` with identifier `id`.
fn find_column(descs: &Vec<ColumnDesc>, id: ColumnId) -> (pos: Option<usize>)
    ensures
        pos == last_position(descs@, id),
{
    let mut pos: Option<usize> = None;
    let mut j: usize = 0;
    while j < descs.len()
        invariant
            j <= descs@.len(),
            pos == last_position(descs@.take(j as int), id),
        decreases descs@.len() - j,
    {
        proof {
            assert(descs@.take(j + 1).drop_last() == descs@.take(j as int));
        }
        if descs[j].column_id == id {
            pos = Some(j);
        }
        j = j + 1;
    }
    proof {
        assert(descs@.take(descs@.len() as int) == descs@);
    }
    pos
}

/// Once a prefix of the key has a missing column, so has the whole key.
proof fn lemma_pk_positions_missing(descs: Seq<ColumnDesc>, ids: Seq<ColumnId>, k: int)
    requires
        0 <= k <= ids.len(),
        pk_positions(descs, ids.take(k)) is None,
    ensures
        pk_positions(descs, ids) is None,
    decreases ids.len() - k,
{
    if k == ids.len() {
        assert(ids.take(k) == ids);
    } else {
        assert(ids.drop_last().take(k) == ids.take(k));
        lemma_pk_positions_missing(descs, ids.drop_last(), k);
    }
}

impl Source {
    /// The output columns: one field per column description.
    pub fn schema(&self) -> (schema: Schema)
        ensures
            schema.fields@ == schema_of(self.column_descs@),
    {
        let mut fields: Vec<Field> = Vec::new();
        let mut i: usize = 0;
        while i < self.column_descs.len()
            invariant
                i <= self.column_descs@.len(),
                fields@ == schema_of(self.column_descs@.take(i as int)),
            decreases self.column_descs@.len() - i,
        {
            let d = &self.column_descs[i];
            fields.push(Field { data_type: d.data_type, name: d.name.clone() });
            proof {
                assert(self.column_descs@.take(i + 1) == self.column_descs@.take(i as int).push(
                    self.column_descs@[i as int],
                ));
                assert(fields@ =~= schema_of(self.column_descs@.take(i + 1)));
            }
            i = i + 1;
        }
        proof {
            assert(self.column_descs@.take(self.column_descs@.len() as int) == self.column_descs@);
        }
        Schema { fields }
    }

    /// The positions of the primary-key columns among the output columns, or
    /// `None` when a key column is not among them.
    pub fn logical_pk(&self) -> (pk: Option<Vec<usize>>)
        ensures
            match pk {
                Some(v) => pk_positions(self.column_descs@, self.pk_col_ids@) == Some(v@),
                None => pk_positions(self.column_descs@, self.pk_col_ids@) is None,
            },
    {
        let mut pk: Vec<usize> = Vec::new();
        let mut i: usize = 0;
        while i < self.pk_col_ids.len()
            invariant
                i <= self.pk_col_ids@.len(),
                pk_positions(self.column_descs@, self.pk_col_ids@.take(i as int)) == Some(pk@),
            decreases self.pk_col_ids@.len() - i,
        {
            proof {
                assert(self.pk_col_ids@.take(i + 1).drop_last() == self.pk_col_ids@.take(i as int));
                assert(self.pk_col_ids@.take(i + 1).last() == self.pk_col_ids@[i as int]);
            }
            match find_column(&self.column_descs, self.pk_col_ids[i]) {
                Some(p) => {
                    pk.push(p);
                },
                None => {
                    proof {
                        lemma_pk_positions_missing(self.column_descs@, self.pk_col_ids@, i + 1);
                    }
                    return None;
                },
            }
            i = i + 1;
        }
        proof {
            assert(self.pk_col_ids@.take(self.pk_col_ids@.len() as int) == self.pk_col_ids@);
        }
        Some(pk)
    }

    /// A copy of the description.
    pub fn duplicate(&self) -> (copy: Source)
        ensures
            copy@ == self@,
    {
        Source {
            catalog: match &self.catalog {
                Some(c) => Some(clone_rc(c)),
                None => None,
            },
            column_descs: copy_descs(&self.column_descs),
            pk_col_ids: copy_vec(&self.pk_col_ids),
            row_id_index: self.row_id_index,
            gen_row_id: self.gen_row_id,
        }
    }
}

/// What the optimisation of one query shares among its plan nodes: the
/// options of the statement's `WITH` clause, as key-value pairs.
#[derive(Debug)]
pub struct OptimizerContext {
    pub with_options: Vec<(String, String)>,
}

/// The properties that every logical plan node has: the context of the
/// optimisation it belongs to, its output columns, their key and the
/// dependencies among them.
#[derive(Debug)]
pub struct PlanBase {
    pub ctx: Rc<OptimizerContext>,
    pub schema: Schema,
    pub logical_pk: Vec<usize>,
    pub functional_dependency: FunctionalDependencySet,
}

/// What a `PlanBase` is, with its lists as sequences.
pub struct PlanBaseView {
    pub ctx: Rc<OptimizerContext>,
    pub schema: Seq<Field>,
    pub logical_pk: Seq<usize>,
    pub functional_dependency: (nat, Seq<DependencyView>),
}

impl View for PlanBase {
    type V = PlanBaseView;

    open spec fn view(&self) -> PlanBaseView {
        PlanBaseView {
            ctx: self.ctx,
            schema: self.schema.fields@,
            logical_pk: self.logical_pk@,
            functional_dependency: self.functional_dependency.view(),
        }
    }
}

impl PlanBase {
    /// A copy of the properties.
    pub fn duplicate(&self) -> (copy: PlanBase)
        ensures
            copy@ == self@,
    {
        PlanBase {
            ctx: clone_rc(&self.ctx),
            schema: self.schema.duplicate(),
            logical_pk: copy_vec(&self.logical_pk),
            functional_dependency: self.functional_dependency.duplicate(),
        }
    }
}

/// A scan of a source, with the range of Kafka message timestamps (in
/// milliseconds) that the scan is limited to.
#[derive(Debug)]
pub struct LogicalSource {
    pub base: PlanBase,
    pub core: Source,
    pub kafka_timestamp_range: TimestampRange,
}

/// What a `LogicalSource` is.
pub struct LogicalSourceView {
    pub base: PlanBaseView,
    pub core: SourceView,
    pub kafka_timestamp_range: TimestampRange,
}

/// The options that carry over to the internal tables of a plan: those
/// with the key `retention_seconds`, in their order.
pub open spec fn internal_table_subset(options: Seq<(String, String)>) -> Seq<(String, String)> {
    options.filter(|o: (String, String)| o.0@ == "retention_seconds"@)
}

/// The options of `options` that carry over to internal tables.
fn internal_table_options(options: &Vec<(String, String)>) -> (subset: Vec<(String, String)>)
    ensures
        subset@ == internal_table_subset(options@),
{
    let key = String::from_str("retention_seconds");
    let mut subset: Vec<(String, String)> = Vec::new();
    let mut i: usize = 0;
    while i < options.len()
        invariant
            i <= options@.len(),
            key@ == "retention_seconds"@,
            subset@ == internal_table_subset(options@.take(i as int)),
        decreases options@.len() - i,
    {
        proof {
            reveal(Seq::filter);
            assert(options@.take(i + 1).drop_last() == options@.take(i as int));
        }
        let option = &options[i];
        if option.0 == key {
            subset.push((option.0.clone(), option.1.clone()));
        }
        i = i + 1;
    }
    proof {
        assert(options@.take(options@.len() as int) == options@);
    }
    subset
}

/// The base properties of a scan of `core` within the optimisation `ctx`:
/// its columns, its key positions (none when a key column is missing) and
/// the dependency of all columns on that key.
pub open spec fn base_of(core: SourceView, ctx: Rc<OptimizerContext>) -> PlanBaseView {
    let schema = schema_of(core.column_descs);
    match pk_positions(core.column_descs, core.pk_col_ids) {
        Some(pk) => PlanBaseView {
            ctx,
            schema,
            logical_pk: pk,
            functional_dependency: (schema.len(), key_dependencies(schema.len(), pk)),
        },
        None => PlanBaseView {
            ctx,
            schema,
            logical_pk: Seq::empty(),
            functional_dependency: (schema.len(), Seq::empty()),
        },
    }
}

/// The inclusive lower end of a range's lower bound, widened by one for an
/// exclusive bound.
pub open spec fn lower_value(b: Bound<i64>) -> Option<i64> {
    match b {
        Bound::Included(t) => Some(t),
        Bound::Excluded(t) => Some((t - 1) as i64),
        Bound::Unbounded => None,
    }
}

/// The inclusive upper end of a range's upper bound, widened by one for an
/// exclusive bound.
pub open spec fn upper_value(b: Bound<i64>) -> Option<i64> {
    match b {
        Bound::Included(t) => Some(t),
        Bound::Excluded(t) => Some((t + 1) as i64),
        Bound::Unbounded => None,
    }
}

/// Widening the range's exclusive ends by one stays within `i64`.
pub open spec fn range_value_defined(r: TimestampRange) -> bool {
    &&& (r.0 matches Bound::Excluded(t) ==> t > i64::MIN)
    &&& (r.1 matches Bound::Excluded(t) ==> t < i64::MAX)
}

/// Every endpoint of the range is a millisecond count converted from `i64`
/// microseconds: it lies within `i64::MIN / 1000` and `i64::MAX / 1000`.
pub open spec fn range_in_millis(r: TimestampRange) -> bool {
    &&& (r.0 matches Bound::Included(t) ==> -max_millis() <= t <= max_millis())
    &&& (r.0 matches Bound::Excluded(t) ==> -max_millis() <= t <= max_millis())
    &&& (r.1 matches Bound::Included(t) ==> -max_millis() <= t <= max_millis())
    &&& (r.1 matches Bound::Excluded(t) ==> -max_millis() <= t <= max_millis())
}

/// `x` lies within the inclusive ends `v`, where `None` is no limit.
pub open spec fn within_values(v: (Option<i64>, Option<i64>), x: int) -> bool {
    &&& (v.0 matches Some(l) ==> l <= x)
    &&& (v.1 matches Some(u) ==> x <= u)
}

/// The range and the unconsumed predicates after pushing each conjunct of
/// `conjs`, in order, into `range`.
pub open spec fn fold_pushdown(conjs: Seq<ExprImpl>, range: TimestampRange, schema: Schema) -> (
    TimestampRange,
    Seq<ExprImpl>,
)
    decreases conjs.len(),
{
    if conjs.len() == 0 {
        (range, Seq::empty())
    } else {
        let (r, rest) = fold_pushdown(conjs.drop_last(), range, schema);
        match pushed_range(conjs.last(), r, schema) {
            Some(narrowed) => (narrowed, rest),
            None => (r, rest.push(conjs.last())),
        }
    }
}

/// A filter over a source scan.
#[derive(Debug)]
pub struct LogicalFilter {
    pub input: LogicalSource,
    pub predicate: Condition,
}

/// A projection of a source scan onto some of its columns.
#[derive(Debug)]
pub struct LogicalProject {
    pub input: LogicalSource,
    pub exprs: Vec<ExprImpl>,
}

/// The plan that predicate push-down into a source scan gives: the scan
/// itself, or a filter over it for the predicates that were not consumed.
#[derive(Debug)]
pub enum PlanRef {
    Source(LogicalSource),
    Filter(LogicalFilter),
}

/// The batch plan of a source scan.
#[derive(Debug)]
pub struct BatchSource {
    pub logical: LogicalSource,
}

/// The streaming plan of a source scan: the scan, and, when the source
/// generates row ids, a node that fills the row-id column.
#[derive(Debug)]
pub enum StreamPlan {
    Source(LogicalSource),
    RowIdGen { input: LogicalSource, row_id_index: usize },
}

/// A mapping from the columns of a node's input to those of its output;
/// `map[i]` is where input column `i` goes, if anywhere.
#[derive(Debug)]
pub struct ColIndexMapping {
    pub map: Vec<Option<usize>>,
    pub target_size: usize,
}

impl ColIndexMapping {
    /// The mapping that keeps each of `n` columns in place.
    pub fn identity(n: usize) -> (m: ColIndexMapping)
        ensures
            m.target_size == n,
            m.map@ == Seq::new(n as nat, |i: int| Some(i as usize)),
    {
        let mut map: Vec<Option<usize>> = Vec::new();
        let mut i: usize = 0;
        while i < n
            invariant
                i <= n,
                map@ == Seq::new(i as nat, |k: int| Some(k as usize)),
            decreases n - i,
        {
            map.push(Some(i));
            proof {
                assert(map@ =~= Seq::new((i + 1) as nat, |k: int| Some(k as usize)));
            }
            i = i + 1;
        }
        ColIndexMapping { map, target_size: n }
    }
}

impl View for LogicalSource {
    type V = LogicalSourceView;

    open spec fn view(&self) -> LogicalSourceView {
        LogicalSourceView {
            base: self.base@,
            core: self.core@,
            kafka_timestamp_range: self.kafka_timestamp_range,
        }
    }
}

impl LogicalSource {
    /// The scan's base properties are those of its source, and the ends of
    /// its timestamp range are millisecond counts converted from `i64`
    /// microseconds.
    pub open spec fn wf(&self) -> bool {
        &&& self@.base == base_of(self@.core, self@.base.ctx)
        &&& range_in_millis(self@.kafka_timestamp_range)
    }

    /// A scan of a source with the given columns and primary key, within the
    /// optimisation `ctx`. The scan is not limited in time.
    pub fn new(
        source_catalog: Option<Rc<SourceCatalog>>,
        column_descs: Vec<ColumnDesc>,
        pk_col_ids: Vec<ColumnId>,
        row_id_index: Option<usize>,
        gen_row_id: bool,
        ctx: Rc<OptimizerContext>,
    ) -> (node: LogicalSource)
        ensures
            node@.core == (SourceView {
                catalog: source_catalog,
                column_descs: column_descs@,
                pk_col_ids: pk_col_ids@,
                row_id_index,
                gen_row_id,
            }),
            node@.base == base_of(node@.core, ctx),
            node@.base.ctx == ctx,
            node@.kafka_timestamp_range == (Bound::<i64>::Unbounded, Bound::<i64>::Unbounded),
            node.wf(),
    {
        let core = Source { catalog: source_catalog, column_descs, pk_col_ids, row_id_index, gen_row_id };
        let schema = core.schema();
        let pk_indices = core.logical_pk();
        let (functional_dependency, pk_indices) = match pk_indices {
            Some(pk_indices) => {
                proof {
                    lemma_pk_positions_in_range(core.column_descs@, core.pk_col_ids@);
                }
                (FunctionalDependencySet::with_key(schema.len(), &pk_indices), pk_indices)
            },
            None => (FunctionalDependencySet::new(schema.len()), Vec::new()),
        };
        let base = PlanBase { ctx, schema, logical_pk: pk_indices, functional_dependency };
        let kafka_timestamp_range = (Bound::Unbounded, Bound::Unbounded);
        let node = LogicalSource { base, core, kafka_timestamp_range };
        proof {
            assert(node@.base == base_of(node@.core, node@.base.ctx));
        }
        node
    }

    /// The names of the output columns, in order.
    pub fn column_names(&self) -> (names: Vec<String>)
        ensures
            names@.len() == self.base.schema.fields@.len(),
            forall|i: int| 0 <= i < names@.len() ==> #[trigger] names@[i] == self.base.schema.fields@[i].name,
    {
        let mut names: Vec<String> = Vec::new();
        let mut i: usize = 0;
        while i < self.base.schema.fields.len()
            invariant
                i <= self.base.schema.fields@.len(),
                names@.len() == i,
                forall|k: int| 0 <= k < i ==> #[trigger] names@[k] == self.base.schema.fields@[k].name,
            decreases self.base.schema.fields@.len() - i,
        {
            names.push(self.base.schema.fields[i].name.clone());
            i = i + 1;
        }
        names
    }

    /// The catalog entry of the scanned source, if any.
    pub fn source_catalog(&self) -> (catalog: Option<Rc<SourceCatalog>>)
        ensures
            catalog == self.core.catalog,
    {
        match &self.core.catalog {
            Some(c) => Some(clone_rc(c)),
            None => None,
        }
    }

    /// The catalog of the table in which a source scan keeps its state: the
    /// offset reached in each partition, keyed by the partition. Of the
    /// options of the scan's optimisation, the table keeps those that apply
    /// to internal tables.
    pub fn infer_internal_table_catalog(&self) -> (table: TableCatalog)
        ensures
            table.properties@ == internal_table_subset(self.base.ctx.with_options@),
            table.columns@.len() == 2,
            table.columns@[0].name@ == "partition_id"@,
            table.columns@[0].data_type == DataType::Varchar,
            table.columns@[1].name@ == "offset"@,
            table.columns@[1].data_type == DataType::Varchar,
            table.pk@ == seq![ColumnOrder { column_index: 0, order_type: OrderType::Ascending }],
            table.distribution_key@.len() == 0,
    {
        let mut columns: Vec<Field> = Vec::new();
        columns.push(Field { data_type: DataType::Varchar, name: String::from_str("partition_id") });
        columns.push(Field { data_type: DataType::Varchar, name: String::from_str("offset") });
        let mut pk: Vec<ColumnOrder> = Vec::new();
        pk.push(ColumnOrder { column_index: 0, order_type: OrderType::Ascending });
        let properties = internal_table_options(&self.base.ctx.with_options);
        TableCatalog { columns, pk, distribution_key: Vec::new(), properties }
    }

    /// The Kafka timestamp range that the scan is limited to.
    pub fn kafka_timestamp_range(&self) -> (range: &TimestampRange)
        ensures
            *range == self@.kafka_timestamp_range,
    {
        &self.kafka_timestamp_range
    }

    /// The range as inclusive ends, `None` where it is unbounded. An
    /// exclusive end is widened by one, away from the range, so that every
    /// timestamp of the range lies within the ends.
    pub fn kafka_timestamp_range_value(&self) -> (value: (Option<i64>, Option<i64>))
        requires
            range_value_defined(self@.kafka_timestamp_range),
        ensures
            value == (lower_value(self@.kafka_timestamp_range.0), upper_value(self@.kafka_timestamp_range.1)),
    {
        let lower_bound = match &self.kafka_timestamp_range.0 {
            Bound::Included(t) => Some(*t),
            Bound::Excluded(t) => Some(*t - 1),
            Bound::Unbounded => None,
        };
        let upper_bound = match &self.kafka_timestamp_range.1 {
            Bound::Included(t) => Some(*t),
            Bound::Excluded(t) => Some(*t + 1),
            Bound::Unbounded => None,
        };
        (lower_bound, upper_bound)
    }

    /// The same scan, limited to `range` instead.
    pub fn clone_with_kafka_timestamp_range(&self, range: TimestampRange) -> (node: LogicalSource)
        ensures
            node@ == (LogicalSourceView { kafka_timestamp_range: range, ..self@ }),
    {
        LogicalSource { base: self.base.duplicate(), core: self.core.duplicate(), kafka_timestamp_range: range }
    }

    /// A copy of the scan.
    pub fn duplicate(&self) -> (node: LogicalSource)
        ensures
            node@ == self@,
    {
        self.clone_with_kafka_timestamp_range(self.kafka_timestamp_range)
    }

    /// Pushes a predicate into the scan. Each conjunct that compares the
    /// Kafka timestamp column with a constant narrows the scan's timestamp
    /// range and is consumed; the others, in their order, stay in a filter
    /// over the narrowed scan, and without them the narrowed scan is the plan.
    pub fn predicate_pushdown(&self, predicate: Condition) -> (plan: PlanRef)
        requires
            forall|i: int|
                0 <= i < predicate.conjunctions@.len() ==> timestamp_comparison_defined(
                    #[trigger] predicate.conjunctions@[i],
                    self.base.schema,
                ),
        ensures
            ({
                let (range, rest) = fold_pushdown(
                    predicate.conjunctions@,
                    self@.kafka_timestamp_range,
                    self.base.schema,
                );
                let narrowed = LogicalSourceView { kafka_timestamp_range: range, ..self@ };
                if rest.len() == 0 {
                    plan matches PlanRef::Source(s) && s@ == narrowed
                } else {
                    plan matches PlanRef::Filter(f) && f.input@ == narrowed && f.predicate.conjunctions@ == rest
                }
            }),
            range_in_millis(self@.kafka_timestamp_range) ==> range_in_millis(
                fold_pushdown(predicate.conjunctions@, self@.kafka_timestamp_range, self.base.schema).0,
            ),
            self.wf() ==> match plan {
                PlanRef::Source(s) => s.wf(),
                PlanRef::Filter(f) => f.input.wf(),
            },
    {
        let mut range = self.kafka_timestamp_range;
        let ghost conjs = predicate.conjunctions@;
        let mut new_conjunctions: Vec<ExprImpl> = Vec::new();
        proof {
            assert(conjs.take(0) =~= Seq::<ExprImpl>::empty());
        }
        for expr in it: predicate.conjunctions
            invariant
                it.seq() == conjs,
                (range, new_conjunctions@) == fold_pushdown(
                    conjs.take(it.index() as int),
                    self.kafka_timestamp_range,
                    self.base.schema,
                ),
                forall|i: int|
                    0 <= i < conjs.len() ==> timestamp_comparison_defined(
                        #[trigger] conjs[i],
                        self.base.schema,
                    ),
        {
            let ghost done = it.index() as int;
            proof {
                assert(expr == conjs[done]);
                assert(conjs.take(done + 1).drop_last() == conjs.take(done));
                assert(conjs.take(done + 1).last() == conjs[done]);
            }
            if let Some(e) = expr_to_kafka_timestamp_range(expr, &mut range, &self.base.schema) {
                new_conjunctions.push(e);
            }
        }
        proof {
            assert(conjs.take(conjs.len() as int) == conjs);
            if range_in_millis(self.kafka_timestamp_range) {
                lemma_pushdown_keeps_millis(conjs, self.kafka_timestamp_range, self.base.schema);
            }
        }
        let new_source = self.clone_with_kafka_timestamp_range(range);
        if new_conjunctions.len() == 0 {
            PlanRef::Source(new_source)
        } else {
            PlanRef::Filter(LogicalFilter { input: new_source, predicate: Condition { conjunctions: new_conjunctions } })
        }
    }

    /// The batch plan: a batch scan of the same source.
    pub fn to_batch(&self) -> (plan: BatchSource)
        ensures
            plan.logical@ == self@,
    {
        BatchSource { logical: self.duplicate() }
    }

    /// The streaming plan: a streaming scan, under a row-id generator when
    /// the source has a row-id column whose values it generates.
    pub fn to_stream(&self) -> (plan: StreamPlan)
        ensures
            match (self.core.row_id_index, self.core.gen_row_id) {
                (Some(idx), true) => plan matches StreamPlan::RowIdGen { input, row_id_index }
                    && input@ == self@ && row_id_index == idx,
                _ => plan matches StreamPlan::Source(s) && s@ == self@,
            },
    {
        let plan = self.duplicate();
        if let Some(row_id_index) = self.core.row_id_index {
            if self.core.gen_row_id {
                return StreamPlan::RowIdGen { input: plan, row_id_index };
            }
        }
        StreamPlan::Source(plan)
    }

    /// Prunes the scan to the columns `required_cols`, in that order: a
    /// projection over the scan that refers to each of them.
    pub fn prune_col(&self, required_cols: &Vec<usize>) -> (plan: LogicalProject)
        requires
            forall|i: int| 0 <= i < required_cols@.len() ==> required_cols@[i] < self.base.schema.fields@.len(),
            required_cols@.no_duplicates(),
        ensures
            plan.input@ == self@,
            plan.exprs@.len() == required_cols@.len(),
            forall|i: int|
                0 <= i < required_cols@.len() ==> ((#[trigger] plan.exprs@[i]) matches ExprImpl::InputRef(r) && r.index
                    == required_cols@[i] && r.data_type == self.base.schema.fields@[required_cols@[i] as int].data_type),
    {
        let mut exprs: Vec<ExprImpl> = Vec::new();
        let mut i: usize = 0;
        while i < required_cols.len()
            invariant
                i <= required_cols@.len(),
                exprs@.len() == i,
                forall|k: int| 0 <= k < required_cols@.len() ==> required_cols@[k] < self.base.schema.fields@.len(),
                forall|k: int|
                    0 <= k < i ==> ((#[trigger] exprs@[k]) matches ExprImpl::InputRef(r) && r.index == required_cols@[k]
                        && r.data_type == self.base.schema.fields@[required_cols@[k] as int].data_type),
            decreases required_cols@.len() - i,
        {
            let col = required_cols[i];
            exprs.push(
                ExprImpl::InputRef(InputRef { index: col, data_type: self.base.schema.fields[col].data_type }),
            );
            i = i + 1;
        }
        LogicalProject { input: self.duplicate(), exprs }
    }

    /// Rewriting for streaming keeps the scan and each of its columns.
    pub fn logical_rewrite_for_stream(&self) -> (rewritten: (LogicalSource, ColIndexMapping))
        ensures
            rewritten.0@ == self@,
            rewritten.1.target_size == self.base.schema.fields@.len(),
            rewritten.1.map@ == Seq::new(self.base.schema.fields@.len(), |i: int| Some(i as usize)),
    {
        (self.duplicate(), ColIndexMapping::identity(self.base.schema.len()))
    }
}

/// Every key position found lies within the columns.
proof fn lemma_pk_positions_in_range(descs: Seq<ColumnDesc>, ids: Seq<ColumnId>)
    requires
        pk_positions(descs, ids) is Some,
    ensures
        forall|i: int|
            0 <= i < pk_positions(descs, ids).unwrap().len() ==> #[trigger] pk_positions(descs, ids).unwrap()[i]
                < descs.len(),
        pk_positions(descs, ids).unwrap().len() == ids.len(),
    decreases ids.len(),
{
    if ids.len() > 0 {
        lemma_pk_positions_in_range(descs, ids.drop_last());
        lemma_last_position_in_range(descs, ids.last());
    }
}

proof fn lemma_last_position_in_range(descs: Seq<ColumnDesc>, id: ColumnId)
    ensures
        last_position(descs, id) matches Some(p) ==> p < descs.len(),
    decreases descs.len(),
{
    if descs.len() > 0 {
        lemma_last_position_in_range(descs.drop_last(), id);
    }
}

/// The widened ends of a range hold every timestamp of the range, and are
/// exactly its ends where these are inclusive.
pub proof fn lemma_range_value_covers(r: TimestampRange, x: int)
    requires
        range_value_defined(r),
    ensures
        in_range(r, x) ==> within_values((lower_value(r.0), upper_value(r.1)), x),
{
}

/// Whether push-down leaves `e` in place.
pub open spec fn not_consumed(schema: Schema) -> spec_fn(ExprImpl) -> bool {
    |e: ExprImpl| recognized_comparison(e, schema) is None
}

/// Pushing a predicate into a scan loses and invents nothing: a timestamp
/// lies in the narrowed range exactly when it lies in the old range and
/// satisfies every consumed comparison, and the predicates left over are
/// exactly the ones not consumed, in their order.
pub proof fn lemma_pushdown_exact(conjs: Seq<ExprImpl>, range: TimestampRange, schema: Schema, x: int)
    ensures
        in_range(fold_pushdown(conjs, range, schema).0, x) <==> (in_range(range, x) && forall|i: int|
            0 <= i < conjs.len() ==> satisfies_if_consumed(#[trigger] conjs[i], schema, x)),
        fold_pushdown(conjs, range, schema).1 == conjs.filter(not_consumed(schema)),
    decreases conjs.len(),
{
    reveal(Seq::filter);
    if conjs.len() > 0 {
        let init = conjs.drop_last();
        let e = conjs.last();
        lemma_pushdown_exact(init, range, schema, x);
        let r = fold_pushdown(init, range, schema).0;
        lemma_pushed_range_recognized(e, r, schema);
        if let Some((op, t, reverse)) = recognized_comparison(e, schema) {
            lemma_narrow_range_is_intersection(r, op, t, reverse, x);
        }
        assert forall|i: int| 0 <= i < init.len() implies #[trigger] init[i] == conjs[i] by {}
        assert((forall|i: int| 0 <= i < conjs.len() ==> satisfies_if_consumed(#[trigger] conjs[i], schema, x)) <==> (
        (forall|i: int| 0 <= i < init.len() ==> satisfies_if_consumed(#[trigger] init[i], schema, x))
            && satisfies_if_consumed(e, schema, x))) by {
            if (forall|i: int| 0 <= i < init.len() ==> satisfies_if_consumed(#[trigger] init[i], schema, x))
                && satisfies_if_consumed(e, schema, x) {
                assert forall|i: int| 0 <= i < conjs.len() implies satisfies_if_consumed(#[trigger] conjs[i], schema, x) by {
                    if i < init.len() {
                        assert(init[i] == conjs[i]);
                    }
                }
            }
        }
    }
}

/// The key positions that a scan finds point at columns with the key's
/// identifiers, one for each key column.
pub proof fn lemma_pk_positions_match(descs: Seq<ColumnDesc>, ids: Seq<ColumnId>)
    requires
        descs.len() <= usize::MAX,
        pk_positions(descs, ids) is Some,
    ensures
        pk_positions(descs, ids).unwrap().len() == ids.len(),
        forall|i: int|
            0 <= i < ids.len() ==> {
                let p = (#[trigger] pk_positions(descs, ids).unwrap()[i]) as int;
                0 <= p < descs.len() && descs[p].column_id == ids[i]
            },
    decreases ids.len(),
{
    if ids.len() > 0 {
        lemma_pk_positions_match(descs, ids.drop_last());
        lemma_last_position_match(descs, ids.last());
        let prev = pk_positions(descs, ids.drop_last()).unwrap();
        let p = last_position(descs, ids.last()).unwrap();
        assert forall|i: int| 0 <= i < ids.len() implies {
            let q = (#[trigger] pk_positions(descs, ids).unwrap()[i]) as int;
            0 <= q < descs.len() && descs[q].column_id == ids[i]
        } by {
            if i < ids.len() - 1 {
                assert(pk_positions(descs, ids).unwrap()[i] == prev[i]);
                assert(ids.drop_last()[i] == ids[i]);
            }
        }
    }
}

proof fn lemma_last_position_match(descs: Seq<ColumnDesc>, id: ColumnId)
    requires
        descs.len() <= usize::MAX,
    ensures
        last_position(descs, id) matches Some(p) ==> p < descs.len() && descs[p as int].column_id == id,
        last_position(descs, id) is None ==> forall|i: int| 0 <= i < descs.len() ==> (#[trigger] descs[i]).column_id != id,
    decreases descs.len(),
{
    if descs.len() > 0 {
        lemma_last_position_match(descs.drop_last(), id);
        if last_position(descs, id) is None {
            assert forall|i: int| 0 <= i < descs.len() implies (#[trigger] descs[i]).column_id != id by {
                if i < descs.len() - 1 {
                    assert(descs.drop_last()[i] == descs[i]);
                }
            }
        }
    }
}

/// The endpoints that push-down adds are constants in milliseconds: a range
/// whose endpoints lie within `i64::MIN / 1000` and `i64::MAX / 1000` keeps
/// them there whatever predicate is pushed into it. A new scan is unbounded,
/// so this holds of every scan built by `new` and push-down.
pub proof fn lemma_pushdown_keeps_millis(conjs: Seq<ExprImpl>, range: TimestampRange, schema: Schema)
    requires
        range_in_millis(range),
    ensures
        range_in_millis(fold_pushdown(conjs, range, schema).0),
    decreases conjs.len(),
{
    if conjs.len() > 0 {
        lemma_pushdown_keeps_millis(conjs.drop_last(), range, schema);
        let r = fold_pushdown(conjs.drop_last(), range, schema).0;
        let e = conjs.last();
        lemma_pushed_range_recognized(e, r, schema);
        if let Some((op, t, reverse)) = recognized_comparison(e, schema) {
            crate::kafka_range::lemma_recognized_millis_bounded(e, schema);
        }
    }
}

/// Ends in milliseconds can be widened by one within `i64`.
pub proof fn lemma_millis_value_defined(r: TimestampRange)
    requires
        range_in_millis(r),
    ensures
        range_value_defined(r),
{
}

} // verus!
