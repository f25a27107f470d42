//! The shapes of what comes in: table definitions and the types of their
//! columns.
use vstd::prelude::*;

verus! {

/// The type of the values of a column.
#[derive(Debug, Clone, Copy, PartialEq, Eq)]
pub enum ColumnTypes {
    I64,
    F64,
    String,
    Bool,
    DateTime,
    UUID,
    Bytes,
    BinaryVector,
}

/// A column of a table.
pub struct Column {
    pub name: String,
    pub data_type: ColumnTypes,
}

/// The column by which a table's rows are known.
pub struct PrimaryKey {
    pub name: String,
    pub data_type: ColumnTypes,
}

/// A column that a table is indexed by.
pub struct Index {
    pub name: String,
    pub data_type: ColumnTypes,
    pub is_partition_key: bool,
}

/// The request to create a table.
pub struct CreateTable {
    pub name: String,
    pub primary_key: Column,
    pub indexes: Vec<Index>,
}

/// The request to drop a table.
pub struct DropTable {
    pub name: String,
}

} // verus!
