//! What holds between the encoder and the decoder.

use crate::endian::{
    i32_bits, lemma_u16_bytes_round_trip, lemma_u32_bytes_round_trip, u16_at, u16_le, u32_le,
};
use crate::model::{id_column, ColumnView, DntDataType, DntError, TableView, ValueView};
use crate::text::{bytes_of, lemma_bytes_round_trip, lemma_text_round_trip, single_byte_text};
use crate::wire::{
    column_bytes, columns_bytes, holds_at, parse_column, parse_columns, parse_row, parse_rows,
    parse_table, parse_text, parse_u16, parse_u32, parse_value, prefix, row_bytes,
    row_single_byte, rows_bytes, sentinel, table_bytes, text_bytes, text_fits, value_bytes,
    value_fits, value_single_byte,
};
use vstd::prelude::*;

verus! {

/// Where two runs of bytes stand one behind the other, each stands at its
/// place.
pub proof fn lemma_holds_split(b: Seq<u8>, pos: int, x: Seq<u8>, y: Seq<u8>)
    requires
        holds_at(b, pos, x + y),
    ensures
        holds_at(b, pos, x),
        holds_at(b, pos + x.len(), y),
{
    let whole = b.subrange(pos, pos + (x + y).len());
    assert(b.subrange(pos, pos + x.len()) =~= whole.subrange(0, x.len() as int));
    assert((x + y).subrange(0, x.len() as int) =~= x);
    assert(b.subrange(pos + x.len(), pos + x.len() + y.len()) =~= whole.subrange(
        x.len() as int,
        (x + y).len() as int,
    ));
    assert((x + y).subrange(x.len() as int, (x + y).len() as int) =~= y);
}

/// A 16-bit number is read back where it was written.
pub proof fn lemma_parse_written_u16(b: Seq<u8>, pos: int, n: u16)
    requires
        holds_at(b, pos, u16_le(n)),
    ensures
        parse_u16(b, pos) == Ok::<(u16, int), DntError>((n, pos + 2)),
{
    let e = b.subrange(pos, pos + 2);
    assert(b[pos] == e[0] && b[pos + 1] == e[1]);
}

/// A 32-bit number is read back where it was written.
pub proof fn lemma_parse_written_u32(b: Seq<u8>, pos: int, n: u32)
    requires
        holds_at(b, pos, u32_le(n)),
    ensures
        parse_u32(b, pos) == Ok::<(u32, int), DntError>((n, pos + 4)),
{
    let e = b.subrange(pos, pos + 4);
    assert(b[pos] == e[0] && b[pos + 1] == e[1] && b[pos + 2] == e[2] && b[pos + 3] == e[3]);
}

/// A text that fits its length field, of characters of one byte each, is
/// read back where it was written.
pub proof fn lemma_parse_written_text(b: Seq<u8>, pos: int, s: Seq<char>)
    requires
        holds_at(b, pos, text_bytes(s)),
        text_fits(s),
        single_byte_text(s),
    ensures
        parse_text(b, pos) == Ok::<(Seq<char>, int), DntError>((s, pos + text_bytes(s).len())),
        text_bytes(s).len() == 2 + s.len(),
{
    let n = s.len() as u16;
    lemma_holds_split(b, pos, u16_le(n), bytes_of(s));
    lemma_parse_written_u16(b, pos, n);
    lemma_text_round_trip(s);
}

/// A column whose type is the one that its tag denotes is read back where
/// it was written.
pub proof fn lemma_parse_written_column(b: Seq<u8>, pos: int, c: ColumnView)
    requires
        holds_at(b, pos, column_bytes(c)),
        c.wf(),
        text_fits(c.text),
        single_byte_text(c.text),
    ensures
        parse_column(b, pos) == Ok::<(ColumnView, int), DntError>(
            (c, pos + column_bytes(c).len()),
        ),
{
    assert(column_bytes(c) =~= text_bytes(c.text) + seq![c.raw_data_type]);
    lemma_holds_split(b, pos, text_bytes(c.text), seq![c.raw_data_type]);
    lemma_parse_written_text(b, pos, c.text);
    let p = pos + text_bytes(c.text).len();
    assert(b[p] == b.subrange(p, p + 1)[0]);
}

/// Columns are read back where they were written.
pub proof fn lemma_parse_written_columns(b: Seq<u8>, pos: int, cols: Seq<ColumnView>)
    requires
        holds_at(b, pos, columns_bytes(cols)),
        forall|j: int| 0 <= j < cols.len() ==> (#[trigger] cols[j]).wf(),
        forall|j: int| 0 <= j < cols.len() ==> text_fits((#[trigger] cols[j]).text),
        forall|j: int| 0 <= j < cols.len() ==> single_byte_text((#[trigger] cols[j]).text),
    ensures
        parse_columns(b, pos, cols.len()) == Ok::<(Seq<ColumnView>, int), DntError>(
            (cols, pos + columns_bytes(cols).len()),
        ),
    decreases cols.len(),
{
    if cols.len() == 0 {
        assert(cols =~= Seq::<ColumnView>::empty());
    } else {
        let front = cols.drop_last();
        let last = cols.last();
        lemma_holds_split(b, pos, columns_bytes(front), column_bytes(last));
        lemma_parse_written_columns(b, pos, front);
        lemma_parse_written_column(b, pos + columns_bytes(front).len(), last);
        assert(front.push(last) =~= cols);
    }
}

/// A value is read back where it was written, as a value of its own type.
pub proof fn lemma_parse_written_value(b: Seq<u8>, pos: int, v: ValueView)
    requires
        holds_at(b, pos, value_bytes(v)),
        value_fits(v),
        value_single_byte(v),
    ensures
        parse_value(b, pos, v.data_type()) == Ok::<(ValueView, int), DntError>(
            (v, pos + value_bytes(v).len()),
        ),
{
    match v {
        ValueView::String(s) => {
            lemma_parse_written_text(b, pos, s);
        },
        ValueView::Int32(n) => {
            lemma_parse_written_u32(b, pos, i32_bits(n));
        },
        ValueView::Float32(bits) => {
            lemma_parse_written_u32(b, pos, bits);
        },
    }
}

/// A row is read back where it was written, under a header whose first
/// columns have the types of its values.
pub proof fn lemma_parse_written_row(
    b: Seq<u8>,
    pos: int,
    head: Seq<ColumnView>,
    row: Seq<ValueView>,
)
    requires
        holds_at(b, pos, row_bytes(row)),
        row.len() <= head.len(),
        forall|j: int| 0 <= j < row.len() ==> (#[trigger] row[j]).data_type() == head[j].data_type,
        forall|j: int| 0 <= j < row.len() ==> value_fits(#[trigger] row[j]),
        row_single_byte(row),
    ensures
        parse_row(b, pos, head, row.len()) == Ok::<(Seq<ValueView>, int), DntError>(
            (row, pos + row_bytes(row).len()),
        ),
    decreases row.len(),
{
    if row.len() == 0 {
        assert(row =~= Seq::<ValueView>::empty());
    } else {
        let front = row.drop_last();
        let last = row.last();
        lemma_holds_split(b, pos, row_bytes(front), value_bytes(last));
        assert forall|j: int| 0 <= j < front.len() implies (#[trigger] front[j]).data_type()
            == head[j].data_type && value_fits(front[j]) && value_single_byte(front[j]) by {
            assert(front[j] == row[j]);
        }
        lemma_parse_written_row(b, pos, head, front);
        lemma_parse_written_value(b, pos + row_bytes(front).len(), last);
        assert(front.push(last) =~= row);
    }
}

/// Rows that fit the header are read back where they were written.
pub proof fn lemma_parse_written_rows(b: Seq<u8>, pos: int, t: TableView, rows: Seq<Seq<ValueView>>)
    requires
        holds_at(b, pos, rows_bytes(rows)),
        forall|i: int| 0 <= i < rows.len() ==> t.row_encodable(#[trigger] rows[i]),
        forall|i: int| 0 <= i < rows.len() ==> row_single_byte(#[trigger] rows[i]),
    ensures
        parse_rows(b, pos, t.head, rows.len()) == Ok::<(Seq<Seq<ValueView>>, int), DntError>(
            (rows, pos + rows_bytes(rows).len()),
        ),
    decreases rows.len(),
{
    if rows.len() == 0 {
        assert(rows =~= Seq::<Seq<ValueView>>::empty());
    } else {
        let front = rows.drop_last();
        let last = rows.last();
        lemma_holds_split(b, pos, rows_bytes(front), row_bytes(last));
        assert forall|i: int| 0 <= i < front.len() implies t.row_encodable(#[trigger] front[i])
            && row_single_byte(front[i]) by {
            assert(front[i] == rows[i]);
        }
        lemma_parse_written_rows(b, pos, t, front);
        assert(t.row_encodable(last));
        lemma_parse_written_row(b, pos + rows_bytes(front).len(), t.head, last);
        assert(front.push(last) =~= rows);
    }
}

/// Where the parts of a written table stand in its bytes.
pub proof fn lemma_table_layout(t: TableView)
    ensures
        holds_at(table_bytes(t), 4, u16_le((t.head.len() - 1) as u16)),
        holds_at(table_bytes(t), 6, u32_le(t.body.len() as u32)),
        holds_at(table_bytes(t), 10, columns_bytes(t.head.skip(1))),
        holds_at(
            table_bytes(t),
            10 + columns_bytes(t.head.skip(1)).len() as int,
            rows_bytes(t.body),
        ),
        table_bytes(t).len() == 10 + columns_bytes(t.head.skip(1)).len() + rows_bytes(
            t.body,
        ).len() + sentinel().len(),
{
    let b = table_bytes(t);
    let s1 = prefix();
    let s2 = s1 + u16_le((t.head.len() - 1) as u16);
    let s3 = s2 + u32_le(t.body.len() as u32);
    let s4 = s3 + columns_bytes(t.head.skip(1));
    let s5 = s4 + rows_bytes(t.body);
    assert(b == s5 + sentinel());
    assert(b.subrange(0, b.len() as int) =~= b);
    lemma_holds_split(b, 0, s5, sentinel());
    lemma_holds_split(b, 0, s4, rows_bytes(t.body));
    lemma_holds_split(b, 0, s3, columns_bytes(t.head.skip(1)));
    lemma_holds_split(b, 0, s2, u32_le(t.body.len() as u32));
    lemma_holds_split(b, 0, s1, u16_le((t.head.len() - 1) as u16));
}

/// The wire columns of a storable table are read back from its bytes.
pub proof fn lemma_round_trip_columns(t: TableView)
    requires
        t.storable(),
    ensures
        parse_columns(table_bytes(t), 10, (t.head.len() - 1) as nat) == Ok::<
            (Seq<ColumnView>, int),
            DntError,
        >((t.head.skip(1), 10 + columns_bytes(t.head.skip(1)).len() as int)),
{
    let cols = t.head.skip(1);
    lemma_table_layout(t);
    assert forall|j: int| 0 <= j < cols.len() implies (#[trigger] cols[j]).wf() && text_fits(
        cols[j].text,
    ) && single_byte_text(cols[j].text) by {
        assert(cols[j] == t.head[j + 1]);
    }
    lemma_parse_written_columns(table_bytes(t), 10, cols);
}

/// The rows of a storable table are read back from its bytes, up to the
/// closing mark.
pub proof fn lemma_round_trip_rows(t: TableView)
    requires
        t.storable(),
    ensures
        parse_rows(
            table_bytes(t),
            10 + columns_bytes(t.head.skip(1)).len() as int,
            t.head,
            t.body.len(),
        ) == Ok::<(Seq<Seq<ValueView>>, int), DntError>(
            (t.body, table_bytes(t).len() - sentinel().len()),
        ),
{
    lemma_table_layout(t);
    lemma_parse_written_rows(
        table_bytes(t),
        10 + columns_bytes(t.head.skip(1)).len() as int,
        t,
        t.body,
    );
}

/// Decoding what the encoder writes for a storable table gives the table
/// again: the header with its names, types and tags, and every value. The
/// decoder stops in front of the closing mark.
pub proof fn lemma_round_trip(t: TableView)
    requires
        t.storable(),
    ensures
        parse_table(table_bytes(t)) == Ok::<(TableView, int), DntError>(
            (t, table_bytes(t).len() - sentinel().len()),
        ),
{
    let b = table_bytes(t);
    let columns = (t.head.len() - 1) as u16;
    let rows = t.body.len() as u32;
    lemma_table_layout(t);
    lemma_parse_written_u16(b, 4, columns);
    lemma_parse_written_u32(b, 6, rows);
    lemma_round_trip_columns(t);
    lemma_round_trip_rows(t);
    assert(seq![id_column()] + t.head.skip(1) =~= t.head);
}

/// Where two runs of bytes each stand at their place, one behind the other,
/// the two stand there as one.
pub proof fn lemma_holds_join(b: Seq<u8>, pos: int, x: Seq<u8>, y: Seq<u8>)
    requires
        holds_at(b, pos, x),
        holds_at(b, pos + x.len(), y),
    ensures
        holds_at(b, pos, x + y),
{
    assert(b.subrange(pos, pos + (x + y).len()) =~= b.subrange(pos, pos + x.len()) + b.subrange(
        pos + x.len(),
        pos + x.len() + y.len(),
    ));
}

/// The bytes that a 16-bit number was read from are those that are written
/// for it.
pub proof fn lemma_written_parsed_u16(b: Seq<u8>, pos: int, n: u16, p: int)
    requires
        parse_u16(b, pos) == Ok::<(u16, int), DntError>((n, p)),
    ensures
        holds_at(b, pos, u16_le(n)),
        p == pos + 2,
{
    lemma_u16_bytes_round_trip(b, pos);
}

/// The bytes that a 32-bit number was read from are those that are written
/// for it.
pub proof fn lemma_written_parsed_u32(b: Seq<u8>, pos: int, n: u32, p: int)
    requires
        parse_u32(b, pos) == Ok::<(u32, int), DntError>((n, p)),
    ensures
        holds_at(b, pos, u32_le(n)),
        p == pos + 4,
{
    lemma_u32_bytes_round_trip(b, pos);
}

/// A text that was read fits its length field, has characters of one byte
/// each, and the bytes that it was read from are those that are written for
/// it.
pub proof fn lemma_written_parsed_text(b: Seq<u8>, pos: int, s: Seq<char>, p: int)
    requires
        parse_text(b, pos) == Ok::<(Seq<char>, int), DntError>((s, p)),
    ensures
        text_fits(s),
        single_byte_text(s),
        holds_at(b, pos, text_bytes(s)),
        p == pos + text_bytes(s).len(),
{
    let n = u16_at(b, pos);
    lemma_written_parsed_u16(b, pos, n, pos + 2);
    let raw = b.subrange(pos + 2, pos + 2 + n);
    lemma_bytes_round_trip(raw);
    assert(s.len() as u16 == n);
    lemma_holds_join(b, pos, u16_le(n), bytes_of(s));
}

/// A column that was read has the type that its tag denotes, and the bytes
/// that it was read from are those that are written for it.
pub proof fn lemma_written_parsed_column(b: Seq<u8>, pos: int, c: ColumnView, p: int)
    requires
        parse_column(b, pos) == Ok::<(ColumnView, int), DntError>((c, p)),
    ensures
        c.wf(),
        text_fits(c.text),
        single_byte_text(c.text),
        holds_at(b, pos, column_bytes(c)),
        p == pos + column_bytes(c).len(),
{
    let (text, p1) = parse_text(b, pos)->Ok_0;
    lemma_written_parsed_text(b, pos, text, p1);
    assert(b.subrange(p1, p1 + 1) =~= seq![c.raw_data_type]);
    lemma_holds_join(b, pos, text_bytes(text), seq![c.raw_data_type]);
    assert(column_bytes(c) =~= text_bytes(c.text) + seq![c.raw_data_type]);
}

/// Columns that were read are as many as were asked for, each is as a
/// column that was read, and the bytes that they were read from are those
/// that are written for them.
pub proof fn lemma_written_parsed_columns(
    b: Seq<u8>,
    pos: int,
    n: nat,
    cols: Seq<ColumnView>,
    p: int,
)
    requires
        0 <= pos <= b.len(),
        parse_columns(b, pos, n) == Ok::<(Seq<ColumnView>, int), DntError>((cols, p)),
    ensures
        cols.len() == n,
        forall|j: int| 0 <= j < cols.len() ==> (#[trigger] cols[j]).wf(),
        forall|j: int| 0 <= j < cols.len() ==> text_fits((#[trigger] cols[j]).text),
        forall|j: int| 0 <= j < cols.len() ==> single_byte_text((#[trigger] cols[j]).text),
        holds_at(b, pos, columns_bytes(cols)),
        p == pos + columns_bytes(cols).len(),
    decreases n,
{
    if n == 0 {
        assert(b.subrange(pos, pos) =~= Seq::<u8>::empty());
    } else {
        let (front, p1) = parse_columns(b, pos, (n - 1) as nat)->Ok_0;
        let (last, p2) = parse_column(b, p1)->Ok_0;
        lemma_written_parsed_columns(b, pos, (n - 1) as nat, front, p1);
        lemma_written_parsed_column(b, p1, last, p2);
        assert(cols.drop_last() =~= front);
        lemma_holds_join(b, pos, columns_bytes(front), column_bytes(last));
    }
}

/// A value that was read is of the type that was asked for, and the bytes
/// that it was read from are those that are written for it.
pub proof fn lemma_written_parsed_value(
    b: Seq<u8>,
    pos: int,
    data_type: DntDataType,
    v: ValueView,
    p: int,
)
    requires
        parse_value(b, pos, data_type) == Ok::<(ValueView, int), DntError>((v, p)),
    ensures
        v.data_type() == data_type,
        value_fits(v),
        value_single_byte(v),
        holds_at(b, pos, value_bytes(v)),
        p == pos + value_bytes(v).len(),
{
    match data_type {
        DntDataType::String => {
            let (s, p1) = parse_text(b, pos)->Ok_0;
            lemma_written_parsed_text(b, pos, s, p1);
        },
        DntDataType::Int32 => {
            let (bits, p1) = parse_u32(b, pos)->Ok_0;
            lemma_written_parsed_u32(b, pos, bits, p1);
        },
        DntDataType::Float32 => {
            let (bits, p1) = parse_u32(b, pos)->Ok_0;
            lemma_written_parsed_u32(b, pos, bits, p1);
        },
    }
}

/// The values of a row that were read are as many as were asked for, each
/// of its column's type, and the bytes that they were read from are those
/// that are written for them.
pub proof fn lemma_written_parsed_row(
    b: Seq<u8>,
    pos: int,
    head: Seq<ColumnView>,
    k: nat,
    row: Seq<ValueView>,
    p: int,
)
    requires
        0 <= pos <= b.len(),
        k <= head.len(),
        parse_row(b, pos, head, k) == Ok::<(Seq<ValueView>, int), DntError>((row, p)),
    ensures
        row.len() == k,
        forall|j: int| 0 <= j < row.len() ==> (#[trigger] row[j]).data_type() == head[j].data_type,
        forall|j: int| 0 <= j < row.len() ==> value_fits(#[trigger] row[j]),
        row_single_byte(row),
        holds_at(b, pos, row_bytes(row)),
        p == pos + row_bytes(row).len(),
    decreases k,
{
    if k == 0 {
        assert(b.subrange(pos, pos) =~= Seq::<u8>::empty());
    } else {
        let (front, p1) = parse_row(b, pos, head, (k - 1) as nat)->Ok_0;
        let (last, p2) = parse_value(b, p1, head[k - 1].data_type)->Ok_0;
        lemma_written_parsed_row(b, pos, head, (k - 1) as nat, front, p1);
        lemma_written_parsed_value(b, p1, head[k - 1].data_type, last, p2);
        assert(row.drop_last() =~= front);
        lemma_holds_join(b, pos, row_bytes(front), value_bytes(last));
    }
}

/// Rows that were read are as many as were asked for, each can be written
/// under the header, and the bytes that they were read from are those that
/// are written for them.
pub proof fn lemma_written_parsed_rows(
    b: Seq<u8>,
    pos: int,
    t: TableView,
    n: nat,
    rows: Seq<Seq<ValueView>>,
    p: int,
)
    requires
        0 <= pos <= b.len(),
        parse_rows(b, pos, t.head, n) == Ok::<(Seq<Seq<ValueView>>, int), DntError>((rows, p)),
    ensures
        rows.len() == n,
        forall|i: int| 0 <= i < rows.len() ==> t.row_encodable(#[trigger] rows[i]),
        forall|i: int| 0 <= i < rows.len() ==> row_single_byte(#[trigger] rows[i]),
        holds_at(b, pos, rows_bytes(rows)),
        p == pos + rows_bytes(rows).len(),
    decreases n,
{
    if n == 0 {
        assert(b.subrange(pos, pos) =~= Seq::<u8>::empty());
    } else {
        let (front, p1) = parse_rows(b, pos, t.head, (n - 1) as nat)->Ok_0;
        let (last, p2) = parse_row(b, p1, t.head, t.head.len())->Ok_0;
        lemma_written_parsed_rows(b, pos, t, (n - 1) as nat, front, p1);
        lemma_written_parsed_row(b, p1, t.head, t.head.len(), last, p2);
        assert(rows.drop_last() =~= front);
        assert(t.row_encodable(last));
        lemma_holds_join(b, pos, rows_bytes(front), row_bytes(last));
    }
}

/// A table that was decoded is storable, and encoding it gives back the
/// bytes that it was decoded from: behind four zero bytes every byte from
/// the fifth up to where the decoder stopped, tags and all, and then the
/// closing mark.
pub proof fn lemma_decoded_is_rewritten(b: Seq<u8>, t: TableView, end: int)
    requires
        parse_table(b) == Ok::<(TableView, int), DntError>((t, end)),
    ensures
        t.storable(),
        10 <= end <= b.len(),
        table_bytes(t) == prefix() + b.subrange(4, end) + sentinel(),
{
    let (columns, p1) = parse_u16(b, 4)->Ok_0;
    let (rows, p2) = parse_u32(b, 6)->Ok_0;
    let (cols, p3) = parse_columns(b, 10, columns as nat)->Ok_0;
    let head = seq![id_column()] + cols;
    let (body, p4) = parse_rows(b, p3, head, rows as nat)->Ok_0;
    lemma_written_parsed_u16(b, 4, columns, p1);
    lemma_written_parsed_u32(b, 6, rows, p2);
    lemma_written_parsed_columns(b, 10, columns as nat, cols, p3);
    assert(t.head == head && t.body == body && end == p4);
    lemma_written_parsed_rows(b, p3, t, rows as nat, body, p4);
    assert(t.head.skip(1) =~= cols);
    assert forall|j: int| 0 <= j < t.head.len() implies (#[trigger] t.head[j]).wf() by {
        if j > 0 {
            assert(t.head[j] == cols[j - 1]);
        }
    }
    assert forall|j: int| 1 <= j < t.head.len() implies text_fits((#[trigger] t.head[j]).text)
        && single_byte_text(t.head[j].text) by {
        assert(t.head[j] == cols[j - 1]);
    }
    let e1 = u16_le(columns);
    let e2 = e1 + u32_le(rows);
    let e3 = e2 + columns_bytes(cols);
    let e4 = e3 + rows_bytes(body);
    lemma_holds_join(b, 4, e1, u32_le(rows));
    lemma_holds_join(b, 4, e2, columns_bytes(cols));
    lemma_holds_join(b, 4, e3, rows_bytes(body));
    assert(b.subrange(4, end) == e4);
    assert(table_bytes(t) =~= prefix() + e4 + sentinel());
}

} // verus!
