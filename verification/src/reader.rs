//! The decoder: it holds the bytes of a stored table and a cursor into
//! them, and builds the table that they stand for.

use crate::endian::{le_read_i32, le_read_u16, le_read_u32};
use crate::model::{
    body_view, head_view, id_column, values_view, ColumnView, DntColumn, DntDataType, DntError,
    DntRow, DntTable, DntValue, ValueView,
};
use crate::laws::lemma_decoded_is_rewritten;
use crate::text::{push_char, text_of, to_char};
use crate::wire::{
    holds_at, lemma_parse_columns_err, lemma_parse_row_err, lemma_parse_rows_err, parse_byte,
    parse_column, parse_columns, parse_i32, parse_row, parse_rows, parse_table, parse_text,
    parse_u16, parse_u32, parse_value, sentinel,
};
use vstd::prelude::*;
use vstd::slice::slice_subrange;

verus! {

/// The decoder, with the bytes that it reads from and the table that it
/// read last.
pub struct DntFileReader {
    bytes: Vec<u8>,
    pos: usize,
    data: DntTable,
}

impl DntFileReader {
    /// The bytes that the decoder reads from.
    pub closed spec fn source(&self) -> Seq<u8> {
        self.bytes@
    }

    /// The table that the decoder holds.
    pub closed spec fn table(&self) -> DntTable {
        self.data
    }

    /// Where the cursor stands, in bytes from the start.
    pub closed spec fn position(&self) -> int {
        self.pos as int
    }

    /// The bytes and the table are those of `before`: only the cursor may
    /// have moved.
    spec fn keeps(&self, before: &DntFileReader) -> bool {
        self.bytes == before.bytes && self.data == before.data
    }

    /// A decoder over the given bytes, holding a table with no column and
    /// no row.
    pub fn new(bytes: Vec<u8>) -> (r: DntFileReader)
        ensures
            r.source() == bytes@,
            r.position() == 0,
            r.table().head@.len() == 0,
            r.table().body@.len() == 0,
    {
        DntFileReader { bytes, pos: 0, data: DntTable::new() }
    }

    /// Decodes the bytes from their start, whatever was read before. Where
    /// they hold a table, the decoder then holds it and its cursor stands
    /// behind the last row; where they do not, it reports why and keeps the
    /// table it held.
    pub fn read(&mut self) -> (r: Result<(), DntError>)
        ensures
            final(self).source() == old(self).source(),
            match parse_table(old(self).source()) {
                Ok((t, end)) => r is Ok && final(self).table()@ == t && final(self).position()
                    == end,
                Err(e) => r == Err::<(), DntError>(e) && final(self).table() == old(self).table(),
            },
            r is Ok ==> final(self).table()@.storable(),
    {
        let ghost b = self.bytes@;
        self.seek(4);
        let columns = match self.read_u16() {
            Ok(n) => n,
            Err(e) => {
                return Err(e);
            },
        };
        let rows = match self.read_u32() {
            Ok(n) => n,
            Err(e) => {
                return Err(e);
            },
        };
        let ghost p2 = self.pos as int;
        assert(parse_u16(b, 4) == Ok::<(u16, int), DntError>((columns, 6)));
        assert(parse_u32(b, 6) == Ok::<(u32, int), DntError>((rows, p2)));

        let mut head: Vec<DntColumn> = Vec::new();
        head.push(DntColumn::id());
        assert(head_view(head@).skip(1) =~= Seq::<ColumnView>::empty());
        let mut i: u16 = 0;
        while i < columns
            invariant
                self.keeps(old(self)),
                b == self.bytes@,
                parse_u16(b, 4) == Ok::<(u16, int), DntError>((columns, 6)),
                parse_u32(b, 6) == Ok::<(u32, int), DntError>((rows, p2)),
                i <= columns,
                head@.len() == i + 1,
                head@[0]@ == id_column(),
                parse_columns(b, p2, i as nat) == Ok::<(Seq<ColumnView>, int), DntError>(
                    (head_view(head@).skip(1), self.pos as int),
                ),
            decreases columns - i,
        {
            let ghost cols = head_view(head@).skip(1);
            let column = match self.read_column() {
                Ok(c) => c,
                Err(e) => {
                    proof {
                        lemma_parse_columns_err(b, p2, (i + 1) as nat, columns as nat);
                    }
                    return Err(e);
                },
            };
            head.push(column);
            assert(head_view(head@).skip(1) =~= cols.push(column@));
            i += 1;
        }
        let ghost hv = head_view(head@);
        let ghost p3 = self.pos as int;
        assert(hv =~= seq![id_column()] + hv.skip(1));

        let mut body: Vec<DntRow> = Vec::new();
        assert(body_view(body@) =~= Seq::<Seq<ValueView>>::empty());
        let mut k: u32 = 0;
        while k < rows
            invariant
                self.keeps(old(self)),
                b == self.bytes@,
                parse_u16(b, 4) == Ok::<(u16, int), DntError>((columns, 6)),
                parse_u32(b, 6) == Ok::<(u32, int), DntError>((rows, p2)),
                parse_columns(b, p2, columns as nat) == Ok::<(Seq<ColumnView>, int), DntError>(
                    (hv.skip(1), p3),
                ),
                hv =~= seq![id_column()] + hv.skip(1),
                k <= rows,
                hv == head_view(head@),
                parse_rows(b, p3, hv, k as nat) == Ok::<(Seq<Seq<ValueView>>, int), DntError>(
                    (body_view(body@), self.pos as int),
                ),
            decreases rows - k,
        {
            let ghost done = body_view(body@);
            let row = match self.read_row(&head) {
                Ok(row) => row,
                Err(e) => {
                    proof {
                        lemma_parse_rows_err(b, p3, hv, (k + 1) as nat, rows as nat);
                    }
                    return Err(e);
                },
            };
            body.push(row);
            assert(body_view(body@) =~= done.push(row@));
            k += 1;
        }

        self.data = DntTable { head, body };
        proof {
            lemma_decoded_is_rewritten(b, self.data@, self.pos as int);
        }
        Ok(())
    }

    /// The table that the decoder holds, for the caller to read or change.
    pub fn data(&mut self) -> (r: &mut DntTable)
        ensures
            *r == old(self).table(),
            final(self).table() == *final(r),
            final(self).source() == old(self).source(),
            final(self).position() == old(self).position(),
    {
        &mut self.data
    }

    /// Whether the closing mark stands at the cursor. After a table was
    /// read, this tells whether the mark follows its last row.
    pub fn at_sentinel(&self) -> (r: bool)
        ensures
            r == holds_at(self.source(), self.position(), sentinel()),
    {
        if !self.has(6) {
            return false;
        }
        let p = self.pos;
        let found = self.bytes[p] == 5 && self.bytes[p + 1] == 0x54 && self.bytes[p + 2] == 0x48
            && self.bytes[p + 3] == 0x45 && self.bytes[p + 4] == 0x4e && self.bytes[p + 5]
            == 0x44;
        proof {
            let at = self.bytes@.subrange(p as int, p + 6);
            if found {
                assert(at =~= sentinel());
            } else {
                assert(at[0] == self.bytes@[p as int]);
                assert(at[1] == self.bytes@[p + 1]);
                assert(at[2] == self.bytes@[p + 2]);
                assert(at[3] == self.bytes@[p + 3]);
                assert(at[4] == self.bytes@[p + 4]);
                assert(at[5] == self.bytes@[p + 5]);
            }
        }
        found
    }

    /// Puts the cursor at `amount` bytes from the start.
    fn seek(&mut self, amount: usize)
        ensures
            final(self).keeps(old(self)),
            final(self).pos == amount,
    {
        self.pos = amount;
    }

    /// Whether `count` more bytes stand at the cursor.
    fn has(&self, count: usize) -> (r: bool)
        ensures
            r == (self.pos + count <= self.bytes@.len()),
            r ==> self.pos + count <= usize::MAX,
    {
        self.pos <= self.bytes.len() && self.bytes.len() - self.pos >= count
    }

    /// Reads a 16-bit number at the cursor.
    fn read_u16(&mut self) -> (r: Result<u16, DntError>)
        ensures
            final(self).keeps(old(self)),
            match parse_u16(old(self).bytes@, old(self).pos as int) {
                Ok((v, p)) => r == Ok::<u16, DntError>(v) && final(self).pos == p,
                Err(e) => r == Err::<u16, DntError>(e),
            },
    {
        if !self.has(2) {
            return Err(DntError::UnexpectedEof);
        }
        let value = le_read_u16(slice_subrange(self.bytes.as_slice(), self.pos, self.pos + 2));
        self.pos += 2;
        Ok(value)
    }

    /// Reads a 32-bit number at the cursor.
    fn read_u32(&mut self) -> (r: Result<u32, DntError>)
        ensures
            final(self).keeps(old(self)),
            match parse_u32(old(self).bytes@, old(self).pos as int) {
                Ok((v, p)) => r == Ok::<u32, DntError>(v) && final(self).pos == p,
                Err(e) => r == Err::<u32, DntError>(e),
            },
    {
        if !self.has(4) {
            return Err(DntError::UnexpectedEof);
        }
        let value = le_read_u32(slice_subrange(self.bytes.as_slice(), self.pos, self.pos + 4));
        self.pos += 4;
        Ok(value)
    }

    /// Reads a signed 32-bit number at the cursor.
    fn read_i32(&mut self) -> (r: Result<i32, DntError>)
        ensures
            final(self).keeps(old(self)),
            match parse_i32(old(self).bytes@, old(self).pos as int) {
                Ok((v, p)) => r == Ok::<i32, DntError>(v) && final(self).pos == p,
                Err(e) => r == Err::<i32, DntError>(e),
            },
    {
        if !self.has(4) {
            return Err(DntError::UnexpectedEof);
        }
        let value = le_read_i32(slice_subrange(self.bytes.as_slice(), self.pos, self.pos + 4));
        self.pos += 4;
        Ok(value)
    }

    /// Reads the 32 bits of a float at the cursor.
    fn read_f32(&mut self) -> (r: Result<u32, DntError>)
        ensures
            final(self).keeps(old(self)),
            match parse_u32(old(self).bytes@, old(self).pos as int) {
                Ok((v, p)) => r == Ok::<u32, DntError>(v) && final(self).pos == p,
                Err(e) => r == Err::<u32, DntError>(e),
            },
    {
        self.read_u32()
    }

    /// Reads one byte at the cursor.
    fn read_byte(&mut self) -> (r: Result<u8, DntError>)
        ensures
            final(self).keeps(old(self)),
            match parse_byte(old(self).bytes@, old(self).pos as int) {
                Ok((v, p)) => r == Ok::<u8, DntError>(v) && final(self).pos == p,
                Err(e) => r == Err::<u8, DntError>(e),
            },
    {
        if !self.has(1) {
            return Err(DntError::UnexpectedEof);
        }
        let value = self.bytes[self.pos];
        self.pos += 1;
        Ok(value)
    }

    /// Reads a text at the cursor: its length, then one character for each
    /// byte.
    fn read_string(&mut self) -> (r: Result<String, DntError>)
        ensures
            final(self).keeps(old(self)),
            match parse_text(old(self).bytes@, old(self).pos as int) {
                Ok((text, p)) => r is Ok && r->Ok_0@ == text && final(self).pos == p,
                Err(e) => r == Err::<String, DntError>(e),
            },
    {
        let length = match self.read_u16() {
            Ok(n) => n,
            Err(e) => {
                return Err(e);
            },
        };
        let ghost start = self.pos as int;
        let ghost b = self.bytes@;
        let mut result = String::new();
        assert(result@ =~= text_of(b.subrange(start, start)));
        let mut index: u16 = 0;
        while index < length
            invariant
                self.keeps(old(self)),
                b == self.bytes@,
                parse_u16(b, old(self).pos as int) == Ok::<(u16, int), DntError>((length, start)),
                index <= length,
                self.pos == start + index,
                start + index <= b.len(),
                result@ == text_of(b.subrange(start, start + index)),
            decreases length - index,
        {
            let byte = match self.read_byte() {
                Ok(byte) => byte,
                Err(e) => {
                    return Err(e);
                },
            };
            push_char(&mut result, to_char(byte));
            assert(result@ =~= text_of(b.subrange(start, start + index + 1)));
            index += 1;
        }
        Ok(result)
    }

    /// Reads a column at the cursor: its name, then its tag.
    fn read_column(&mut self) -> (r: Result<DntColumn, DntError>)
        ensures
            final(self).keeps(old(self)),
            match parse_column(old(self).bytes@, old(self).pos as int) {
                Ok((c, p)) => r is Ok && r->Ok_0@ == c && final(self).pos == p,
                Err(e) => r == Err::<DntColumn, DntError>(e),
            },
    {
        let text = match self.read_string() {
            Ok(text) => text,
            Err(e) => {
                return Err(e);
            },
        };
        let raw_data_type = match self.read_byte() {
            Ok(byte) => byte,
            Err(e) => {
                return Err(e);
            },
        };
        let data_type = match DntDataType::from_u8(raw_data_type) {
            Ok(data_type) => data_type,
            Err(e) => {
                return Err(e);
            },
        };
        Ok(DntColumn { text, data_type, raw_data_type })
    }

    /// Reads a value of the given type at the cursor.
    fn read_value(&mut self, data_type: DntDataType) -> (r: Result<DntValue, DntError>)
        ensures
            final(self).keeps(old(self)),
            match parse_value(old(self).bytes@, old(self).pos as int, data_type) {
                Ok((v, p)) => r is Ok && r->Ok_0@ == v && final(self).pos == p,
                Err(e) => r == Err::<DntValue, DntError>(e),
            },
    {
        match data_type {
            DntDataType::String => match self.read_string() {
                Ok(s) => Ok(DntValue::String(s)),
                Err(e) => Err(e),
            },
            DntDataType::Int32 => match self.read_i32() {
                Ok(n) => Ok(DntValue::Int32(n)),
                Err(e) => Err(e),
            },
            DntDataType::Float32 => match self.read_f32() {
                Ok(bits) => Ok(DntValue::Float32(bits)),
                Err(e) => Err(e),
            },
        }
    }

    /// Reads a row at the cursor: one value for each column of the header.
    fn read_row(&mut self, head: &Vec<DntColumn>) -> (r: Result<DntRow, DntError>)
        ensures
            final(self).keeps(old(self)),
            match parse_row(
                old(self).bytes@,
                old(self).pos as int,
                head_view(head@),
                head@.len(),
            ) {
                Ok((row, p)) => r is Ok && r->Ok_0@ == row && final(self).pos == p,
                Err(e) => r == Err::<DntRow, DntError>(e),
            },
    {
        let ghost b = self.bytes@;
        let ghost start = self.pos as int;
        let ghost hv = head_view(head@);
        let n = head.len();
        let mut values: Vec<DntValue> = Vec::new();
        assert(values_view(values@) =~= Seq::<ValueView>::empty());
        let mut j: usize = 0;
        while j < n
            invariant
                self.keeps(old(self)),
                b == self.bytes@,
                start == old(self).pos,
                hv == head_view(head@),
                n == head@.len(),
                j <= n,
                parse_row(b, start, hv, j as nat) == Ok::<(Seq<ValueView>, int), DntError>(
                    (values_view(values@), self.pos as int),
                ),
            decreases n - j,
        {
            let ghost done = values_view(values@);
            assert(hv[j as int].data_type == head@[j as int].data_type);
            let value = match self.read_value(head[j].data_type) {
                Ok(value) => value,
                Err(e) => {
                    proof {
                        lemma_parse_row_err(b, start, hv, (j + 1) as nat, n as nat);
                    }
                    return Err(e);
                },
            };
            values.push(value);
            assert(values_view(values@) =~= done.push(value@));
            j += 1;
        }
        Ok(DntRow { values })
    }
}

} // verus!
