//! The canonical vocabulary shared by every backend and every sink.

use vstd::prelude::*;

verus! {

/// The semantic type of a result-set column.
#[derive(Clone, Copy, Debug, PartialEq, Eq, Structural)]
pub enum ColumnType {
    U8,
    U16,
    U32,
    U64,
    I8,
    I16,
    I32,
    I64,
    F32,
    F64,
    String,
    Bytes,
    Decimal,
    JSON,
    Date,
    Time,
    DateTime,
    Timestamp,
}

/// A calendar date, held as its three fields.
#[derive(Clone, Copy, Debug, PartialEq, Eq, Structural)]
pub struct Date {
    pub year: i32,
    pub month: u32,
    pub day: u32,
}

/// A time of day, held as its three fields.
#[derive(Clone, Copy, Debug, PartialEq, Eq, Structural)]
pub struct Time {
    pub hour: u32,
    pub minute: u32,
    pub second: u32,
}

/// A date together with a time of day.
#[derive(Clone, Copy, Debug, PartialEq, Eq, Structural)]
pub struct DateTime {
    pub date: Date,
    pub time: Time,
}

/// One cell of a result set.
///
/// Floating-point cells are carried as their IEEE 754 bit patterns, so that
/// a cell is copied through the pipeline bit for bit.
#[derive(Clone, Debug, PartialEq, Eq)]
pub enum Value {
    Null,
    U8(u8),
    U16(u16),
    U32(u32),
    U64(u64),
    I8(i8),
    I16(i16),
    I32(i32),
    I64(i64),
    F32(u32),
    F64(u64),
    String(String),
    Bytes(Vec<u8>),
    Date(Date),
    Time(Time),
    DateTime(DateTime),
    Timestamp(DateTime),
}

/// The mathematical value of a cell.
pub enum ValueView {
    Null,
    U8(u8),
    U16(u16),
    U32(u32),
    U64(u64),
    I8(i8),
    I16(i16),
    I32(i32),
    I64(i64),
    F32(u32),
    F64(u64),
    String(Seq<char>),
    Bytes(Seq<u8>),
    Date(Date),
    Time(Time),
    DateTime(DateTime),
    Timestamp(DateTime),
}

impl View for Value {
    type V = ValueView;

    open spec fn view(&self) -> ValueView {
        match *self {
            Value::Null => ValueView::Null,
            Value::U8(v) => ValueView::U8(v),
            Value::U16(v) => ValueView::U16(v),
            Value::U32(v) => ValueView::U32(v),
            Value::U64(v) => ValueView::U64(v),
            Value::I8(v) => ValueView::I8(v),
            Value::I16(v) => ValueView::I16(v),
            Value::I32(v) => ValueView::I32(v),
            Value::I64(v) => ValueView::I64(v),
            Value::F32(v) => ValueView::F32(v),
            Value::F64(v) => ValueView::F64(v),
            Value::String(v) => ValueView::String(v@),
            Value::Bytes(v) => ValueView::Bytes(v@),
            Value::Date(v) => ValueView::Date(v),
            Value::Time(v) => ValueView::Time(v),
            Value::DateTime(v) => ValueView::DateTime(v),
            Value::Timestamp(v) => ValueView::Timestamp(v),
        }
    }
}

/// One row of a result set: one cell per column, in column order.
pub type Row = Vec<Value>;

/// The cells of a row as mathematical values.
pub open spec fn row_view(row: Seq<Value>) -> Seq<ValueView> {
    Seq::new(row.len(), |i: int| row[i]@)
}

/// The name and semantic type of one result-set column.
#[derive(Clone, Debug, PartialEq, Eq)]
pub struct ColumnInfo {
    pub name: String,
    pub data_type: ColumnType,
}

/// The mathematical value of a column description.
pub struct ColumnInfoView {
    pub name: Seq<char>,
    pub data_type: ColumnType,
}

impl View for ColumnInfo {
    type V = ColumnInfoView;

    open spec fn view(&self) -> ColumnInfoView {
        ColumnInfoView { name: self.name@, data_type: self.data_type }
    }
}

impl ColumnInfo {
    /// A column description with the given name and type.
    pub fn new(name: String, data_type: ColumnType) -> (r: ColumnInfo)
        ensures
            r@ == (ColumnInfoView { name: name@, data_type }),
    {
        ColumnInfo { name, data_type }
    }
}

/// The column descriptions of a result set as mathematical values.
pub open spec fn columns_view(columns: Seq<ColumnInfo>) -> Seq<ColumnInfoView> {
    Seq::new(columns.len(), |i: int| columns[i]@)
}

/// The rows of a batch as mathematical values.
pub open spec fn batch_view(rows: Seq<Row>) -> Seq<Seq<ValueView>> {
    Seq::new(rows.len(), |i: int| row_view(rows[i]@))
}

/// Why a native column or cell has no canonical form.
#[derive(Clone, Copy, Debug, PartialEq, Eq, Structural)]
pub enum ConversionError {
    /// The column with this index has a native type without a canonical
    /// one.
    UnsupportedColumnType { column: usize },
    /// The row has another number of cells than the result set has
    /// columns.
    ColumnCountMismatch,
    /// The cell of this column holds bytes that are no valid UTF-8.
    InvalidText { column: usize },
    /// The cell of this column holds a native value that the type of the
    /// column does not admit.
    UnsupportedConversion { column: usize },
    /// The cell of this column holds a date that does not exist.
    InvalidDate { column: usize },
    /// The cell of this column holds a time of day that does not exist.
    InvalidTime { column: usize },
    /// The cell of this column holds a negative time.
    NegativeTime { column: usize },
    /// The cell of this column holds no value.
    NullValue { column: usize },
    /// More rows were handed over than a batch may hold.
    TooManyRows,
}

} // verus!
