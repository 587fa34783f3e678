//! The table model: columns, values, rows and tables, each with the
//! mathematical value that the contracts of this crate speak of.

use vstd::prelude::*;
use vstd::string::*;

verus! {

/// Why a table could not be decoded or encoded.
#[derive(Debug, Clone, Copy, PartialEq, Eq, Structural)]
pub enum DntError {
    /// The bytes ended before a field was complete.
    UnexpectedEof,
    /// A column header carries a type tag that denotes no type.
    UnknownTypeTag(u8),
    /// The table handed to the encoder does not have the shape that the
    /// layout can carry.
    ContractViolation,
}

/// The type of the values of a column.
#[derive(Debug, Clone, Copy, PartialEq, Eq, Structural)]
pub enum DntDataType {
    String,
    Int32,
    Float32,
}

impl DntDataType {
    /// The type that a tag denotes: 1 is text, 2 and 3 are integers, 4 and 5
    /// are floats, and no other tag denotes anything.
    pub open spec fn of_tag(tag: u8) -> Option<DntDataType> {
        if tag == 1 {
            Some(DntDataType::String)
        } else if tag == 2 || tag == 3 {
            Some(DntDataType::Int32)
        } else if tag == 4 || tag == 5 {
            Some(DntDataType::Float32)
        } else {
            None
        }
    }

    /// Resolves a tag, and reports the tag itself where it denotes no type.
    pub fn from_u8(value: u8) -> (r: Result<DntDataType, DntError>)
        ensures
            r == (match DntDataType::of_tag(value) {
                Some(t) => Ok::<DntDataType, DntError>(t),
                None => Err(DntError::UnknownTypeTag(value)),
            }),
    {
        match value {
            1 => Ok(DntDataType::String),
            2 | 3 => Ok(DntDataType::Int32),
            4 | 5 => Ok(DntDataType::Float32),
            other => Err(DntError::UnknownTypeTag(other)),
        }
    }
}

/// One cell of a table. A float is held as the 32 bits of its IEEE-754
/// encoding, which is what the layout stores.
#[derive(Debug, Clone, PartialEq, Eq)]
pub enum DntValue {
    String(String),
    Int32(i32),
    Float32(u32),
}

/// The mathematical value of a cell.
pub enum ValueView {
    String(Seq<char>),
    Int32(i32),
    Float32(u32),
}

impl ValueView {
    /// The type of column that this value belongs in.
    pub open spec fn data_type(self) -> DntDataType {
        match self {
            ValueView::String(_) => DntDataType::String,
            ValueView::Int32(_) => DntDataType::Int32,
            ValueView::Float32(_) => DntDataType::Float32,
        }
    }
}

impl View for DntValue {
    type V = ValueView;

    open spec fn view(&self) -> ValueView {
        match *self {
            DntValue::String(s) => ValueView::String(s@),
            DntValue::Int32(n) => ValueView::Int32(n),
            DntValue::Float32(bits) => ValueView::Float32(bits),
        }
    }
}

/// A column of the header: its name, the type of its values, and the tag
/// that stood for that type on the wire. Several tags denote one type, so
/// the tag is kept beside the type.
#[derive(Debug, Clone, PartialEq, Eq)]
pub struct DntColumn {
    pub text: String,
    pub data_type: DntDataType,
    pub raw_data_type: u8,
}

/// The mathematical value of a column.
pub struct ColumnView {
    pub text: Seq<char>,
    pub data_type: DntDataType,
    pub raw_data_type: u8,
}

impl ColumnView {
    /// The type of the column is the one that its tag denotes.
    pub open spec fn wf(self) -> bool {
        DntDataType::of_tag(self.raw_data_type) == Some(self.data_type)
    }
}

/// The column that every table starts with and that the wire never
/// carries: `id`, an integer, with tag 3.
pub open spec fn id_column() -> ColumnView {
    ColumnView { text: seq!['i', 'd'], data_type: DntDataType::Int32, raw_data_type: 3 }
}

impl View for DntColumn {
    type V = ColumnView;

    open spec fn view(&self) -> ColumnView {
        ColumnView {
            text: self.text@,
            data_type: self.data_type,
            raw_data_type: self.raw_data_type,
        }
    }
}

impl DntColumn {
    /// A column with the given name and tag, of the type that the tag
    /// denotes.
    pub fn new(text: String, raw_data_type: u8) -> (r: Result<DntColumn, DntError>)
        ensures
            r == (match DntDataType::of_tag(raw_data_type) {
                Some(t) => Ok::<DntColumn, DntError>(
                    DntColumn { text, data_type: t, raw_data_type },
                ),
                None => Err(DntError::UnknownTypeTag(raw_data_type)),
            }),
            r is Ok ==> r->Ok_0@.wf(),
    {
        match DntDataType::from_u8(raw_data_type) {
            Ok(data_type) => Ok(DntColumn { text, data_type, raw_data_type }),
            Err(e) => Err(e),
        }
    }

    /// The leading `id` column.
    pub fn id() -> (r: DntColumn)
        ensures
            r@ == id_column(),
    {
        proof {
            reveal_strlit("id");
        }
        let text = String::from_str("id");
        assert(text@ =~= seq!['i', 'd']);
        DntColumn { text, data_type: DntDataType::Int32, raw_data_type: 3 }
    }
}

/// A row: one value for each column, in the order of the header.
#[derive(Debug, Clone, PartialEq, Eq)]
pub struct DntRow {
    pub values: Vec<DntValue>,
}

impl View for DntRow {
    type V = Seq<ValueView>;

    open spec fn view(&self) -> Seq<ValueView> {
        values_view(self.values@)
    }
}

/// The mathematical values of a run of cells.
pub open spec fn values_view(values: Seq<DntValue>) -> Seq<ValueView> {
    values.map_values(|v: DntValue| v@)
}

/// The mathematical values of a run of columns.
pub open spec fn head_view(head: Seq<DntColumn>) -> Seq<ColumnView> {
    head.map_values(|c: DntColumn| c@)
}

/// The mathematical values of a run of rows.
pub open spec fn body_view(body: Seq<DntRow>) -> Seq<Seq<ValueView>> {
    body.map_values(|r: DntRow| r@)
}

/// A table: the header and the body.
#[derive(Debug, Clone, PartialEq, Eq)]
pub struct DntTable {
    pub head: Vec<DntColumn>,
    pub body: Vec<DntRow>,
}

/// The mathematical value of a table.
pub struct TableView {
    pub head: Seq<ColumnView>,
    pub body: Seq<Seq<ValueView>>,
}

impl TableView {
    /// The row has one value for each column, each of its column's type.
    pub open spec fn row_fits(self, row: Seq<ValueView>) -> bool {
        &&& row.len() == self.head.len()
        &&& forall|j: int| 0 <= j < row.len() ==> (#[trigger] row[j]).data_type() == self.head[j].data_type
    }

    /// The header is not empty and every row fits it.
    pub open spec fn shaped(self) -> bool {
        &&& self.head.len() >= 1
        &&& forall|i: int| 0 <= i < self.body.len() ==> self.row_fits(#[trigger] self.body[i])
    }

    /// Every column has the type that its tag denotes.
    pub open spec fn typed(self) -> bool {
        forall|j: int| 0 <= j < self.head.len() ==> (#[trigger] self.head[j]).wf()
    }
}

impl View for DntTable {
    type V = TableView;

    open spec fn view(&self) -> TableView {
        TableView { head: head_view(self.head@), body: body_view(self.body@) }
    }
}

impl DntTable {
    /// The table with no column and no row.
    pub fn new() -> (r: DntTable)
        ensures
            r.head@.len() == 0,
            r.body@.len() == 0,
    {
        DntTable { head: Vec::new(), body: Vec::new() }
    }
}

} // verus!
