//! The encoder: it checks that a table can be written and appends its
//! bytes to what it has written so far.

use crate::endian::{i32_bits, le_write_i32, le_write_u16, le_write_u32, u16_le, u32_le};
use crate::model::{DntDataType, DntError, DntRow, DntTable, DntValue};
use crate::text::{bytes_of, to_byte};
use crate::wire::{
    column_bytes, columns_bytes, prefix, row_bytes, rows_bytes, sentinel, table_bytes, text_bytes,
    text_fits, value_bytes, value_fits,
};
use vstd::prelude::*;
use vstd::string::*;

verus! {

impl DntValue {
    /// The type of column that this value belongs in.
    pub fn data_type(&self) -> (r: DntDataType)
        ensures
            r == self@.data_type(),
    {
        match self {
            DntValue::String(_) => DntDataType::String,
            DntValue::Int32(_) => DntDataType::Int32,
            DntValue::Float32(_) => DntDataType::Float32,
        }
    }

    /// Whether the value can be written.
    pub fn fits(&self) -> (r: bool)
        ensures
            r == value_fits(self@),
    {
        match self {
            DntValue::String(s) => s.as_str().unicode_len() <= 0xffff,
            DntValue::Int32(_) => true,
            DntValue::Float32(_) => true,
        }
    }
}

impl DntTable {
    /// Whether the header can be written.
    pub fn head_encodable(&self) -> (r: bool)
        ensures
            r == self@.head_encodable(),
    {
        let n = self.head.len();
        if n < 1 || n > 0x1_0000 {
            return false;
        }
        let mut j: usize = 1;
        while j < n
            invariant
                1 <= j <= n,
                n == self.head@.len(),
                forall|k: int| 1 <= k < j ==> text_fits((#[trigger] self@.head[k]).text),
            decreases n - j,
        {
            if self.head[j].text.as_str().unicode_len() > 0xffff {
                assert(!text_fits(self@.head[j as int].text));
                return false;
            }
            j += 1;
        }
        true
    }

    /// Whether the row fits the header and can be written.
    pub fn row_encodable(&self, row: &DntRow) -> (r: bool)
        ensures
            r == self@.row_encodable(row@),
    {
        let n = row.values.len();
        if n != self.head.len() {
            return false;
        }
        let mut j: usize = 0;
        while j < n
            invariant
                0 <= j <= n,
                n == row.values@.len(),
                n == self.head@.len(),
                forall|k: int|
                    0 <= k < j ==> (#[trigger] row@[k]).data_type() == self@.head[k].data_type,
                forall|k: int| 0 <= k < j ==> value_fits(#[trigger] row@[k]),
            decreases n - j,
        {
            let value = &row.values[j];
            assert(row@[j as int] == value@);
            if value.data_type() != self.head[j].data_type || !value.fits() {
                return false;
            }
            j += 1;
        }
        true
    }

    /// Checks that the table can be written: a header with its leading
    /// column, rows that fit the header, and counts and lengths that fit
    /// their fields.
    pub fn check(&self) -> (r: Result<(), DntError>)
        ensures
            self@.encodable() ==> r is Ok,
            !self@.encodable() ==> r == Err::<(), DntError>(DntError::ContractViolation),
    {
        if !self.head_encodable() || self.body.len() > 0xffff_ffff {
            return Err(DntError::ContractViolation);
        }
        let n = self.body.len();
        let mut i: usize = 0;
        while i < n
            invariant
                0 <= i <= n,
                n == self.body@.len(),
                forall|k: int| 0 <= k < i ==> self@.row_encodable(#[trigger] self@.body[k]),
            decreases n - i,
        {
            if !self.row_encodable(&self.body[i]) {
                assert(self@.body[i as int] == self.body@[i as int]@);
                return Err(DntError::ContractViolation);
            }
            assert(self@.body[i as int] == self.body@[i as int]@);
            i += 1;
        }
        Ok(())
    }
}

/// The encoder, with the bytes that it has written.
pub struct DntFileWriter {
    out: Vec<u8>,
}

impl DntFileWriter {
    /// The bytes written so far.
    pub closed spec fn written(&self) -> Seq<u8> {
        self.out@
    }

    /// An encoder that has written nothing.
    pub fn new() -> (r: DntFileWriter)
        ensures
            r.written() == Seq::<u8>::empty(),
    {
        DntFileWriter { out: Vec::new() }
    }

    /// The bytes written so far.
    pub fn bytes(&self) -> (r: &Vec<u8>)
        ensures
            r@ == self.written(),
    {
        &self.out
    }

    /// Appends the bytes of the table, closing mark included, if the table
    /// can be written; writes nothing and reports the violation if not.
    pub fn write(&mut self, table: &DntTable) -> (r: Result<(), DntError>)
        ensures
            table@.encodable() ==> r is Ok,
            table@.encodable() ==> final(self).written() == old(self).written() + table_bytes(
                table@,
            ),
            !table@.encodable() ==> r == Err::<(), DntError>(DntError::ContractViolation),
            !table@.encodable() ==> final(self).written() == old(self).written(),
    {
        match table.check() {
            Ok(()) => {},
            Err(e) => {
                return Err(e);
            },
        }
        let ghost start = self.out@;
        let ghost t = table@;
        self.write_byte(0);
        self.write_byte(0);
        self.write_byte(0);
        self.write_byte(0);
        assert(self.out@ =~= start + prefix());

        let columns = table.head.len();
        let rows = table.body.len();
        self.write_u16((columns - 1) as u16);
        self.write_u32(rows as u32);
        let ghost fixed = start + prefix() + u16_le((t.head.len() - 1) as u16) + u32_le(
            t.body.len() as u32,
        );
        assert(self.out@ == fixed);

        let mut j: usize = 1;
        assert(t.head.subrange(1, 1) =~= Seq::<crate::model::ColumnView>::empty());
        while j < columns
            invariant
                1 <= j <= columns,
                columns == table.head@.len(),
                t == table@,
                t.encodable(),
                self.out@ == fixed + columns_bytes(t.head.subrange(1, j as int)),
            decreases columns - j,
        {
            let column = &table.head[j];
            assert(t.head[j as int] == column@);
            self.write_string(&column.text);
            self.write_byte(column.raw_data_type);
            proof {
                let next = t.head.subrange(1, j + 1);
                assert(next.drop_last() =~= t.head.subrange(1, j as int));
                assert(next.last() == column@);
                assert(self.out@ =~= fixed + columns_bytes(next.drop_last()) + column_bytes(
                    column@,
                ));
                assert(self.out@ =~= fixed + columns_bytes(next));
            }
            j += 1;
        }
        assert(t.head.subrange(1, columns as int) =~= t.head.skip(1));
        let ghost headed = fixed + columns_bytes(t.head.skip(1));

        let mut i: usize = 0;
        assert(t.body.take(0) =~= Seq::<Seq<crate::model::ValueView>>::empty());
        while i < rows
            invariant
                0 <= i <= rows,
                rows == table.body@.len(),
                t == table@,
                t.encodable(),
                self.out@ == headed + rows_bytes(t.body.take(i as int)),
            decreases rows - i,
        {
            let row = &table.body[i];
            assert(t.body[i as int] == row@);
            assert(t.row_encodable(t.body[i as int]));
            self.write_row(row);
            proof {
                let next = t.body.take(i + 1);
                assert(next.drop_last() =~= t.body.take(i as int));
                assert(next.last() == row@);
                assert(self.out@ =~= headed + rows_bytes(next));
            }
            i += 1;
        }
        assert(t.body.take(rows as int) =~= t.body);

        proof {
            reveal_strlit("THEND");
        }
        let closing_text = String::from_str("THEND");
        let closing_len = closing_text.as_str().unicode_len();
        self.write_byte(closing_len as u8);
        self.write_string_bytes(&closing_text);
        assert(seq![closing_len as u8] + bytes_of(closing_text@) =~= sentinel());
        assert(self.out@ =~= headed + rows_bytes(t.body) + sentinel());
        Ok(())
    }

    /// Appends the values of a row, one after the other.
    fn write_row(&mut self, row: &DntRow)
        requires
            forall|j: int| 0 <= j < row@.len() ==> value_fits(#[trigger] row@[j]),
        ensures
            final(self).out@ == old(self).out@ + row_bytes(row@),
    {
        let ghost start = self.out@;
        let n = row.values.len();
        let mut j: usize = 0;
        assert(row@.take(0) =~= Seq::<crate::model::ValueView>::empty());
        while j < n
            invariant
                0 <= j <= n,
                n == row.values@.len(),
                forall|k: int| 0 <= k < row@.len() ==> value_fits(#[trigger] row@[k]),
                self.out@ == start + row_bytes(row@.take(j as int)),
            decreases n - j,
        {
            let value = &row.values[j];
            assert(row@[j as int] == value@);
            self.write_value(value);
            proof {
                let next = row@.take(j + 1);
                assert(next.drop_last() =~= row@.take(j as int));
                assert(next.last() == value@);
                assert(self.out@ =~= start + row_bytes(next));
            }
            j += 1;
        }
        assert(row@.take(n as int) =~= row@);
    }

    /// Appends one value.
    fn write_value(&mut self, value: &DntValue)
        requires
            value_fits(value@),
        ensures
            final(self).out@ == old(self).out@ + value_bytes(value@),
    {
        match value {
            DntValue::String(s) => self.write_string(s),
            DntValue::Int32(n) => self.write_i32(*n),
            DntValue::Float32(bits) => self.write_f32(*bits),
        }
    }

    /// Appends a 16-bit number, low byte first.
    fn write_u16(&mut self, value: u16)
        ensures
            final(self).out@ == old(self).out@ + u16_le(value),
    {
        let buf = le_write_u16(value);
        self.out.push(buf[0]);
        self.out.push(buf[1]);
        assert(self.out@ =~= old(self).out@ + u16_le(value));
    }

    /// Appends a 32-bit number, low byte first.
    fn write_u32(&mut self, value: u32)
        ensures
            final(self).out@ == old(self).out@ + u32_le(value),
    {
        let buf = le_write_u32(value);
        self.out.push(buf[0]);
        self.out.push(buf[1]);
        self.out.push(buf[2]);
        self.out.push(buf[3]);
        assert(self.out@ =~= old(self).out@ + u32_le(value));
    }

    /// Appends a signed 32-bit number in two's complement, low byte first.
    fn write_i32(&mut self, value: i32)
        ensures
            final(self).out@ == old(self).out@ + u32_le(i32_bits(value)),
    {
        let buf = le_write_i32(value);
        self.out.push(buf[0]);
        self.out.push(buf[1]);
        self.out.push(buf[2]);
        self.out.push(buf[3]);
        assert(self.out@ =~= old(self).out@ + u32_le(i32_bits(value)));
    }

    /// Appends the 32 bits of a float, low byte first.
    fn write_f32(&mut self, bits: u32)
        ensures
            final(self).out@ == old(self).out@ + u32_le(bits),
    {
        self.write_u32(bits)
    }

    /// Appends one byte.
    fn write_byte(&mut self, value: u8)
        ensures
            final(self).out@ == old(self).out@.push(value),
    {
        self.out.push(value);
    }

    /// Appends a text: its length, then its characters.
    fn write_string(&mut self, value: &String)
        requires
            text_fits(value@),
        ensures
            final(self).out@ == old(self).out@ + text_bytes(value@),
    {
        let length = value.as_str().unicode_len();
        self.write_u16(length as u16);
        self.write_string_bytes(value);
        assert(self.out@ =~= old(self).out@ + text_bytes(value@));
    }

    /// Appends one byte for each character of a text.
    fn write_string_bytes(&mut self, value: &String)
        ensures
            final(self).out@ == old(self).out@ + bytes_of(value@),
    {
        let ghost start = self.out@;
        let length = value.as_str().unicode_len();
        let mut index: usize = 0;
        while index < length
            invariant
                0 <= index <= length,
                length == value@.len(),
                self.out@ == start + bytes_of(value@.take(index as int)),
            decreases length - index,
        {
            let c = value.as_str().get_char(index);
            self.write_byte(to_byte(c));
            assert(self.out@ =~= start + bytes_of(value@.take(index + 1)));
            index += 1;
        }
        assert(value@.take(length as int) =~= value@);
    }
}

} // verus!
