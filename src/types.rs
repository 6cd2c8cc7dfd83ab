use vstd::prelude::*;

verus! {

/// Type tag of a column or a cast target.
#[derive(Clone, Copy, Debug, PartialEq, Eq, Hash, Structural)]
pub enum DataType {
    Boolean,
    UInt8,
    UInt16,
    UInt32,
    UInt64,
    Int8,
    Int16,
    Int32,
    Int64,
    Utf8,
    Date32,
    Date64,
    List,
    Null,
}

/// Binary operator of a `BinaryExpr`.
#[derive(Clone, Copy, Debug, PartialEq, Eq, Hash, Structural)]
pub enum Operator {
    Eq,
    NotEq,
    Lt,
    LtEq,
    Gt,
    GtEq,
    Plus,
    Minus,
    Multiply,
    Divide,
    Modulus,
    And,
    Or,
    Like,
    NotLike,
}

/// Kind of a join.
#[derive(Clone, Copy, Debug, PartialEq, Eq, Hash, Structural)]
pub enum JoinType {
    Left,
    Inner,
    Outer,
}

/// Handle of a user-supplied function registered with the host engine.
/// The conversions carry it through unchanged and never call it.
#[derive(Clone, Copy, Debug, PartialEq, Eq, Hash, Structural)]
pub struct FunctionRef(pub u64);

/// A literal value.
#[derive(Clone, Debug, PartialEq, Eq)]
pub enum ScalarValue {
    Null,
    Boolean(bool),
    UInt32(u32),
    UInt64(u64),
    Int32(i32),
    Int64(i64),
    Utf8(String),
}

impl ScalarValue {
    pub fn duplicate(&self) -> (r: Self)
        ensures
            r == *self,
    {
        match self {
            ScalarValue::Null => ScalarValue::Null,
            ScalarValue::Boolean(b) => ScalarValue::Boolean(*b),
            ScalarValue::UInt32(v) => ScalarValue::UInt32(*v),
            ScalarValue::UInt64(v) => ScalarValue::UInt64(*v),
            ScalarValue::Int32(v) => ScalarValue::Int32(*v),
            ScalarValue::Int64(v) => ScalarValue::Int64(*v),
            ScalarValue::Utf8(s) => ScalarValue::Utf8(s.clone()),
        }
    }
}

/// A named, typed column slot.
#[derive(Clone, Debug, PartialEq, Eq)]
pub struct Field {
    pub name: String,
    pub data_type: DataType,
}

impl Field {
    pub fn new(name: String, data_type: DataType) -> (r: Self)
        ensures
            r.name == name,
            r.data_type == data_type,
    {
        Field { name, data_type }
    }

    pub fn duplicate(&self) -> (r: Self)
        ensures
            r == *self,
    {
        Field { name: self.name.clone(), data_type: self.data_type }
    }
}

/// Ordered list of the fields of a table.
#[derive(Clone, Debug, PartialEq, Eq)]
pub struct Schema {
    pub fields: Vec<Field>,
}

impl Schema {
    pub fn new(fields: Vec<Field>) -> (r: Self)
        ensures
            r.fields == fields,
    {
        Schema { fields }
    }

    pub fn empty() -> (r: Self)
        ensures
            r.fields@.len() == 0,
    {
        Schema { fields: Vec::new() }
    }
}

/// One named column of values.
#[derive(Clone, Debug, PartialEq, Eq)]
pub struct Series {
    pub name: String,
    pub values: Vec<ScalarValue>,
}

/// An in-memory table: the payload of a frame scan. It is moved, never copied,
/// by the conversions.
#[derive(Clone, Debug, PartialEq, Eq)]
pub struct DataFrame {
    pub columns: Vec<Series>,
}

impl DataFrame {
    pub fn new(columns: Vec<Series>) -> (r: Self)
        ensures
            r.columns == columns,
    {
        DataFrame { columns }
    }

    pub fn empty() -> (r: Self)
        ensures
            r.columns@.len() == 0,
    {
        DataFrame { columns: Vec::new() }
    }
}

} // verus!
