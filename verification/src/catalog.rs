//! Column, schema and catalog descriptions used by plan nodes.
use vstd::prelude::*;

verus! {

/// The SQL type of a column or an expression.
#[derive(Clone, Copy, Debug, PartialEq, Eq, Structural)]
pub enum DataType {
    Boolean,
    Int16,
    Int32,
    Int64,
    Decimal,
    Date,
    Varchar,
    Time,
    Timestamp,
    Timestamptz,
    Interval,
    Bytea,
    Jsonb,
}

/// A named, typed column of a plan node's output.
#[derive(Clone, Debug)]
pub struct Field {
    pub data_type: DataType,
    pub name: String,
}

impl Field {
    /// A copy of the field with the same name and type.
    pub fn duplicate(&self) -> (copy: Field)
        ensures
            copy == *self,
    {
        Field { data_type: self.data_type, name: self.name.clone() }
    }
}

/// The ordered output columns of a plan node.
#[derive(Clone, Debug)]
pub struct Schema {
    pub fields: Vec<Field>,
}

impl Schema {
    /// The number of columns.
    pub fn len(&self) -> (n: usize)
        ensures
            n == self.fields@.len(),
    {
        self.fields.len()
    }

    /// A copy of the schema, field by field.
    pub fn duplicate(&self) -> (copy: Schema)
        ensures
            copy.fields@ == self.fields@,
    {
        Schema { fields: copy_fields(&self.fields) }
    }
}

/// Copies a list of fields, keeping their order.
pub fn copy_fields(fields: &Vec<Field>) -> (copy: Vec<Field>)
    ensures
        copy@ == fields@,
{
    let mut copy: Vec<Field> = Vec::new();
    let mut i: usize = 0;
    while i < fields.len()
        invariant
            i <= fields.len(),
            copy@ == fields@.take(i as int),
        decreases fields.len() - i,
    {
        copy.push(fields[i].duplicate());
        proof {
            assert(fields@.take(i + 1) == fields@.take(i as int).push(fields@[i as int]));
        }
        i = i + 1;
    }
    proof {
        assert(fields@.take(fields@.len() as int) == fields@);
    }
    copy
}

/// The identifier of a column within a table or source.
#[derive(Clone, Copy, Debug, PartialEq, Eq, Structural)]
pub struct ColumnId {
    pub id: i32,
}

/// The description of one column of a source or table.
#[derive(Clone, Debug)]
pub struct ColumnDesc {
    pub data_type: DataType,
    pub column_id: ColumnId,
    pub name: String,
}

/// The catalog entry of a source.
#[derive(Clone, Debug)]
pub struct SourceCatalog {
    pub id: u32,
    pub name: String,
}

/// The order of a sort column.
#[derive(Clone, Copy, Debug, PartialEq, Eq, Structural)]
pub enum OrderType {
    Ascending,
    Descending,
}

/// One column of a sort key: its position in the row and its order.
#[derive(Clone, Copy, Debug, PartialEq, Eq, Structural)]
pub struct ColumnOrder {
    pub column_index: usize,
    pub order_type: OrderType,
}

/// The catalog of a table that a plan node keeps its state in, with the
/// table's options as key-value pairs.
#[derive(Clone, Debug)]
pub struct TableCatalog {
    pub columns: Vec<Field>,
    pub pk: Vec<ColumnOrder>,
    pub distribution_key: Vec<usize>,
    pub properties: Vec<(String, String)>,
}

} // verus!
