//! The byte layout of a table, as functions on sequences of bytes: what is
//! written for each part, and what is read back from a position.
//!
//! A parser takes the bytes and a position and gives the value that stands
//! there together with the position behind it, or the reason why no value
//! stands there.

use crate::endian::{bits_i32, i32_bits, u16_at, u16_le, u32_at, u32_le};
use crate::model::{id_column, ColumnView, DntDataType, DntError, TableView, ValueView};
use crate::text::{bytes_of, single_byte_text, text_of};
use vstd::prelude::*;

verus! {

/// The length of the text fits the 16 bits of its length field.
pub open spec fn text_fits(text: Seq<char>) -> bool {
    text.len() <= 0xffff
}

/// The value can be written: a text must fit its length field.
pub open spec fn value_fits(v: ValueView) -> bool {
    match v {
        ValueView::String(s) => text_fits(s),
        ValueView::Int32(_) => true,
        ValueView::Float32(_) => true,
    }
}

/// The value is read back as it was written: each character of a text must
/// fit in one byte.
pub open spec fn value_single_byte(v: ValueView) -> bool {
    match v {
        ValueView::String(s) => single_byte_text(s),
        ValueView::Int32(_) => true,
        ValueView::Float32(_) => true,
    }
}

/// Each value of the row is read back as it was written.
pub open spec fn row_single_byte(row: Seq<ValueView>) -> bool {
    forall|j: int| 0 <= j < row.len() ==> value_single_byte(#[trigger] row[j])
}

impl TableView {
    /// Every text that is written, the names of the columns behind the
    /// leading one and the text values, has characters of one byte each.
    pub open spec fn single_byte(self) -> bool {
        &&& forall|j: int|
            1 <= j < self.head.len() ==> single_byte_text((#[trigger] self.head[j]).text)
        &&& forall|i: int| 0 <= i < self.body.len() ==> row_single_byte(#[trigger] self.body[i])
    }

    /// The table is one that the layout stores without loss: it can be
    /// written, its leading column is `id`, its columns have the types that
    /// their tags denote, and its texts have characters of one byte each.
    pub open spec fn storable(self) -> bool {
        &&& self.encodable()
        &&& self.head[0] == id_column()
        &&& self.typed()
        &&& self.single_byte()
    }

    /// The header can be written: it has its leading column, the number of
    /// the others fits 16 bits, and so does the length of each of their
    /// names.
    pub open spec fn head_encodable(self) -> bool {
        &&& 1 <= self.head.len() <= 0x1_0000
        &&& forall|j: int| 1 <= j < self.head.len() ==> text_fits((#[trigger] self.head[j]).text)
    }

    /// The row can be written: it fits the header and each value fits its
    /// field.
    pub open spec fn row_encodable(self, row: Seq<ValueView>) -> bool {
        &&& self.row_fits(row)
        &&& forall|j: int| 0 <= j < row.len() ==> value_fits(#[trigger] row[j])
    }

    /// The table can be written: the header can, the number of rows fits 32
    /// bits, and each row can.
    pub open spec fn encodable(self) -> bool {
        &&& self.head_encodable()
        &&& self.body.len() <= 0xffff_ffff
        &&& forall|i: int| 0 <= i < self.body.len() ==> self.row_encodable(#[trigger] self.body[i])
    }
}

/// A text on the wire: its length in 16 bits, then one byte for each
/// character.
pub open spec fn text_bytes(text: Seq<char>) -> Seq<u8> {
    u16_le(text.len() as u16) + bytes_of(text)
}

/// A column on the wire: its name, then its tag.
pub open spec fn column_bytes(c: ColumnView) -> Seq<u8> {
    text_bytes(c.text).push(c.raw_data_type)
}

/// Columns on the wire, one after the other.
pub open spec fn columns_bytes(cols: Seq<ColumnView>) -> Seq<u8>
    decreases cols.len(),
{
    if cols.len() == 0 {
        Seq::empty()
    } else {
        columns_bytes(cols.drop_last()) + column_bytes(cols.last())
    }
}

/// A value on the wire: a text as a text, a number in four bytes, a float
/// as its 32 bits in four bytes.
pub open spec fn value_bytes(v: ValueView) -> Seq<u8> {
    match v {
        ValueView::String(s) => text_bytes(s),
        ValueView::Int32(n) => u32_le(i32_bits(n)),
        ValueView::Float32(bits) => u32_le(bits),
    }
}

/// A row on the wire: its values, one after the other.
pub open spec fn row_bytes(row: Seq<ValueView>) -> Seq<u8>
    decreases row.len(),
{
    if row.len() == 0 {
        Seq::empty()
    } else {
        row_bytes(row.drop_last()) + value_bytes(row.last())
    }
}

/// Rows on the wire, one after the other.
pub open spec fn rows_bytes(rows: Seq<Seq<ValueView>>) -> Seq<u8>
    decreases rows.len(),
{
    if rows.len() == 0 {
        Seq::empty()
    } else {
        rows_bytes(rows.drop_last()) + row_bytes(rows.last())
    }
}

/// The four reserved bytes that a table starts with.
pub open spec fn prefix() -> Seq<u8> {
    seq![0u8, 0u8, 0u8, 0u8]
}

/// What closes a table: the length 5 in one byte, then the letters `THEND`.
pub open spec fn sentinel() -> Seq<u8> {
    seq![5u8, 0x54u8, 0x48u8, 0x45u8, 0x4eu8, 0x44u8]
}

/// A table on the wire: the reserved bytes, the number of columns behind
/// the leading one, the number of rows, those columns, the rows, and the
/// closing mark. The leading column is not written.
pub open spec fn table_bytes(t: TableView) -> Seq<u8> {
    prefix() + u16_le((t.head.len() - 1) as u16) + u32_le(t.body.len() as u32) + columns_bytes(
        t.head.skip(1),
    ) + rows_bytes(t.body) + sentinel()
}

/// The bytes `enc` stand in `b` from `pos` on.
pub open spec fn holds_at(b: Seq<u8>, pos: int, enc: Seq<u8>) -> bool {
    &&& 0 <= pos
    &&& pos + enc.len() <= b.len()
    &&& b.subrange(pos, pos + enc.len()) == enc
}

/// One byte at `pos`.
pub open spec fn parse_byte(b: Seq<u8>, pos: int) -> Result<(u8, int), DntError> {
    if 0 <= pos && pos + 1 <= b.len() {
        Ok((b[pos], pos + 1))
    } else {
        Err(DntError::UnexpectedEof)
    }
}

/// A 16-bit number at `pos`.
pub open spec fn parse_u16(b: Seq<u8>, pos: int) -> Result<(u16, int), DntError> {
    if 0 <= pos && pos + 2 <= b.len() {
        Ok((u16_at(b, pos), pos + 2))
    } else {
        Err(DntError::UnexpectedEof)
    }
}

/// A 32-bit number at `pos`.
pub open spec fn parse_u32(b: Seq<u8>, pos: int) -> Result<(u32, int), DntError> {
    if 0 <= pos && pos + 4 <= b.len() {
        Ok((u32_at(b, pos), pos + 4))
    } else {
        Err(DntError::UnexpectedEof)
    }
}

/// A signed 32-bit number at `pos`.
pub open spec fn parse_i32(b: Seq<u8>, pos: int) -> Result<(i32, int), DntError> {
    match parse_u32(b, pos) {
        Ok((bits, p)) => Ok((bits_i32(bits), p)),
        Err(e) => Err(e),
    }
}

/// A text at `pos`: its length, then as many bytes, each one character.
pub open spec fn parse_text(b: Seq<u8>, pos: int) -> Result<(Seq<char>, int), DntError> {
    match parse_u16(b, pos) {
        Err(e) => Err(e),
        Ok((n, p)) => if p + n <= b.len() {
            Ok((text_of(b.subrange(p, p + n)), p + n))
        } else {
            Err(DntError::UnexpectedEof)
        },
    }
}

/// A column at `pos`: its name, then its tag, which must denote a type.
pub open spec fn parse_column(b: Seq<u8>, pos: int) -> Result<(ColumnView, int), DntError> {
    match parse_text(b, pos) {
        Err(e) => Err(e),
        Ok((text, p)) => match parse_byte(b, p) {
            Err(e) => Err(e),
            Ok((raw, q)) => match DntDataType::of_tag(raw) {
                None => Err(DntError::UnknownTypeTag(raw)),
                Some(data_type) => Ok((ColumnView { text, data_type, raw_data_type: raw }, q)),
            },
        },
    }
}

/// `n` columns from `pos` on.
pub open spec fn parse_columns(b: Seq<u8>, pos: int, n: nat) -> Result<
    (Seq<ColumnView>, int),
    DntError,
>
    decreases n,
{
    if n == 0 {
        Ok((Seq::empty(), pos))
    } else {
        match parse_columns(b, pos, (n - 1) as nat) {
            Err(e) => Err(e),
            Ok((cols, p)) => match parse_column(b, p) {
                Err(e) => Err(e),
                Ok((c, q)) => Ok((cols.push(c), q)),
            },
        }
    }
}

/// A value of the given type at `pos`.
pub open spec fn parse_value(b: Seq<u8>, pos: int, data_type: DntDataType) -> Result<
    (ValueView, int),
    DntError,
> {
    match data_type {
        DntDataType::String => match parse_text(b, pos) {
            Ok((s, p)) => Ok((ValueView::String(s), p)),
            Err(e) => Err(e),
        },
        DntDataType::Int32 => match parse_i32(b, pos) {
            Ok((n, p)) => Ok((ValueView::Int32(n), p)),
            Err(e) => Err(e),
        },
        DntDataType::Float32 => match parse_u32(b, pos) {
            Ok((bits, p)) => Ok((ValueView::Float32(bits), p)),
            Err(e) => Err(e),
        },
    }
}

/// The values of the first `k` columns of a row from `pos` on.
pub open spec fn parse_row(b: Seq<u8>, pos: int, head: Seq<ColumnView>, k: nat) -> Result<
    (Seq<ValueView>, int),
    DntError,
>
    recommends
        k <= head.len(),
    decreases k,
{
    if k == 0 {
        Ok((Seq::empty(), pos))
    } else {
        match parse_row(b, pos, head, (k - 1) as nat) {
            Err(e) => Err(e),
            Ok((values, p)) => match parse_value(b, p, head[k - 1].data_type) {
                Err(e) => Err(e),
                Ok((v, q)) => Ok((values.push(v), q)),
            },
        }
    }
}

/// `n` rows from `pos` on, each with one value for each column.
pub open spec fn parse_rows(b: Seq<u8>, pos: int, head: Seq<ColumnView>, n: nat) -> Result<
    (Seq<Seq<ValueView>>, int),
    DntError,
>
    decreases n,
{
    if n == 0 {
        Ok((Seq::empty(), pos))
    } else {
        match parse_rows(b, pos, head, (n - 1) as nat) {
            Err(e) => Err(e),
            Ok((rows, p)) => match parse_row(b, p, head, head.len()) {
                Err(e) => Err(e),
                Ok((row, q)) => Ok((rows.push(row), q)),
            },
        }
    }
}

/// A table: behind the four reserved bytes the number of wire columns and
/// the number of rows, then those columns, then the rows. The header of the
/// table is the leading `id` column followed by the wire columns. What
/// stands behind the last row is not read.
pub open spec fn parse_table(b: Seq<u8>) -> Result<(TableView, int), DntError> {
    match parse_u16(b, 4) {
        Err(e) => Err(e),
        Ok((columns, p1)) => match parse_u32(b, p1) {
            Err(e) => Err(e),
            Ok((rows, p2)) => match parse_columns(b, p2, columns as nat) {
                Err(e) => Err(e),
                Ok((cols, p3)) => {
                    let head = seq![id_column()] + cols;
                    match parse_rows(b, p3, head, rows as nat) {
                        Err(e) => Err(e),
                        Ok((body, p4)) => Ok((TableView { head, body }, p4)),
                    }
                },
            },
        },
    }
}

/// Once a column fails to parse, so does every longer run of columns, for
/// the same reason.
pub proof fn lemma_parse_columns_err(b: Seq<u8>, pos: int, k: nat, n: nat)
    requires
        k <= n,
        parse_columns(b, pos, k) is Err,
    ensures
        parse_columns(b, pos, n) == parse_columns(b, pos, k),
    decreases n - k,
{
    if k < n {
        lemma_parse_columns_err(b, pos, k, (n - 1) as nat);
    }
}

/// Once a value fails to parse, so does every longer part of the row, for
/// the same reason.
pub proof fn lemma_parse_row_err(b: Seq<u8>, pos: int, head: Seq<ColumnView>, k: nat, n: nat)
    requires
        k <= n,
        parse_row(b, pos, head, k) is Err,
    ensures
        parse_row(b, pos, head, n) == parse_row(b, pos, head, k),
    decreases n - k,
{
    if k < n {
        lemma_parse_row_err(b, pos, head, k, (n - 1) as nat);
    }
}

/// Once a row fails to parse, so does every longer run of rows, for the
/// same reason.
pub proof fn lemma_parse_rows_err(b: Seq<u8>, pos: int, head: Seq<ColumnView>, k: nat, n: nat)
    requires
        k <= n,
        parse_rows(b, pos, head, k) is Err,
    ensures
        parse_rows(b, pos, head, n) == parse_rows(b, pos, head, k),
    decreases n - k,
{
    if k < n {
        lemma_parse_rows_err(b, pos, head, k, (n - 1) as nat);
    }
}

} // verus!
