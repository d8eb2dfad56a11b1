//! A reader that walks a byte buffer front to back.

use vstd::prelude::*;
use crate::error::{ErrorModel, FormatError};
use crate::graphql::ID;
use crate::le::{
    as_signed, le_value, lemma_pow256_values, pow256, read_le, signed16, signed32, signed64,
    signed8,
};
use crate::text::{Text, TextModel};

verus! {

/// The outcome of reading one value at a position: the value and the position
/// behind it, or the reason why there is none.
pub type Parsed<T> = Result<(T, int), ErrorModel>;

/// The unsigned number in the `width` bytes at `pos`.
pub open spec fn parse_le(bytes: Seq<u8>, pos: int, width: nat) -> Parsed<nat> {
    if bytes.len() - pos < width {
        Err(ErrorModel::Truncated)
    } else {
        Ok((le_value(bytes.subrange(pos, pos + width)), pos + width))
    }
}

/// The `count` bytes at `pos`.
pub open spec fn parse_bytes(bytes: Seq<u8>, pos: int, count: nat) -> Parsed<Seq<u8>> {
    if bytes.len() - pos < count {
        Err(ErrorModel::Truncated)
    } else {
        Ok((bytes.subrange(pos, pos + count), pos + count))
    }
}

/// The 16-bit units that a byte string of even length spells, each little-endian.
pub open spec fn le_units(bytes: Seq<u8>) -> Seq<u16> {
    Seq::new(bytes.len() / 2, |i: int| le_value(bytes.subrange(2 * i, 2 * i + 2)) as u16)
}

/// The text at `pos`: a signed 32-bit length, then that many bytes if it is
/// positive, or as many 16-bit units as its magnitude if it is negative.
#[verifier::opaque]
pub open spec fn parse_text(bytes: Seq<u8>, pos: int) -> Parsed<TextModel> {
    match parse_le(bytes, pos, 4) {
        Err(e) => Err(e),
        Ok((raw, body)) => {
            let length = as_signed(raw, 4);
            if length >= 0 {
                match parse_bytes(bytes, body, length as nat) {
                    Err(e) => Err(e),
                    Ok((units, end)) => Ok((TextModel::Narrow(units), end)),
                }
            } else {
                match parse_bytes(bytes, body, (2 * -length) as nat) {
                    Err(e) => Err(e),
                    Ok((units, end)) => Ok((TextModel::Wide(le_units(units)), end)),
                }
            }
        },
    }
}

/// A position in a byte buffer. Reading moves the position forward; a read
/// that fails leaves it where it was.
pub struct Cursor<'a> {
    data: &'a [u8],
    pos: usize,
}

impl<'a> Cursor<'a> {
    /// The whole buffer.
    pub closed spec fn bytes(&self) -> Seq<u8> {
        self.data@
    }

    /// The position of the next byte to read.
    pub closed spec fn offset(&self) -> int {
        self.pos as int
    }

    /// The position never lies behind the end of the buffer.
    #[verifier::type_invariant]
    spec fn in_bounds(self) -> bool {
        self.pos <= self.data@.len()
    }

    /// The number of bytes from the position to the end.
    pub open spec fn left(&self) -> int {
        self.bytes().len() - self.offset()
    }

    /// Whether `self` is the cursor `before` after a read whose outcome is `outcome`.
    pub open spec fn follows<T>(&self, before: &Cursor, outcome: Parsed<T>) -> bool {
        &&& self.bytes() == before.bytes()
        &&& self.offset() == match outcome {
            Ok((_, end)) => end,
            Err(_) => before.offset(),
        }
    }

    /// Whether `self` is the cursor `before` after a read whose outcome is
    /// `outcome`, where nothing is said of the position after a failure.
    pub open spec fn reaches<T>(&self, before: &Cursor, outcome: Parsed<T>) -> bool {
        &&& self.bytes() == before.bytes()
        &&& outcome matches Ok((_, end)) ==> self.offset() == end
    }

    /// A cursor at the start of `data`.
    pub fn new(data: &'a [u8]) -> (cursor: Cursor<'a>)
        ensures
            cursor.bytes() == data@,
            cursor.offset() == 0,
    {
        Cursor { data, pos: 0 }
    }

    /// The position of the next byte to read.
    pub fn position(&self) -> (pos: usize)
        ensures
            pos == self.offset(),
            0 <= self.offset() <= self.bytes().len(),
    {
        proof {
            use_type_invariant(self);
        }
        self.pos
    }

    /// The number of bytes in the buffer.
    pub fn len(&self) -> (count: usize)
        ensures
            count == self.bytes().len(),
    {
        self.data.len()
    }

    /// A copy of the whole buffer.
    pub fn to_vec(&self) -> (copy: Vec<u8>)
        ensures
            copy@ == self.bytes(),
    {
        vstd::slice::slice_to_vec(self.data)
    }

    /// The number of bytes that are left to read.
    pub fn remaining(&self) -> (count: usize)
        ensures
            count == self.left(),
    {
        proof {
            use_type_invariant(self);
        }
        self.data.len() - self.pos
    }

    /// Moves to `pos`, which may be the end of the buffer but not behind it.
    pub fn seek(&mut self, pos: usize) -> (r: Result<(), FormatError>)
        ensures
            final(self).bytes() == old(self).bytes(),
            pos <= old(self).bytes().len() ==> r is Ok && final(self).offset() == pos,
            pos > old(self).bytes().len() ==> (r matches Err(e) && e@ == ErrorModel::Truncated
                && final(self).offset() == old(self).offset()),
    {
        if pos <= self.data.len() {
            self.pos = pos;
            Ok(())
        } else {
            Err(FormatError::Truncated)
        }
    }

    /// Reads `width` bytes as one unsigned little-endian number.
    fn read_fixed(&mut self, width: usize) -> (r: Result<u64, FormatError>)
        requires
            width <= 8,
        ensures
            final(self).follows(old(self), parse_le(old(self).bytes(), old(self).offset(), width as nat)),
            match parse_le(old(self).bytes(), old(self).offset(), width as nat) {
                Ok((value, _)) => r == Ok::<u64, FormatError>(value as u64) && value < pow256(width as nat),
                Err(e) => r matches Err(x) && x@ == e,
            },
    {
        proof {
            use_type_invariant(&*self);
        }
        if self.data.len() - self.pos < width {
            return Err(FormatError::Truncated);
        }
        let value = read_le(self.data, self.pos, width);
        self.pos = self.pos + width;
        Ok(value)
    }

    /// Whether `self` is the cursor `before` after it read a little-endian number
    /// of `width` bytes, taken as two's complement where `signed`, with the
    /// outcome `got`.
    pub open spec fn read_number(
        &self,
        before: &Cursor,
        width: nat,
        signed: bool,
        got: Result<int, ErrorModel>,
    ) -> bool {
        let outcome = parse_le(before.bytes(), before.offset(), width);
        &&& self.follows(before, outcome)
        &&& got == match outcome {
            Ok((value, _)) => Ok::<int, ErrorModel>(
                if signed {
                    as_signed(value, width)
                } else {
                    value as int
                },
            ),
            Err(e) => Err(e),
        }
    }

    /// Reads one byte.
    pub fn read_u8(&mut self) -> (r: Result<u8, FormatError>)
        ensures
            final(self).read_number(old(self), 1, false, number_outcome(r)),
    {
        proof {
            lemma_pow256_values();
        }
        match self.read_fixed(1) {
            Ok(value) => Ok(value as u8),
            Err(e) => Err(e),
        }
    }

    /// Reads an unsigned 16-bit number, low byte first.
    pub fn read_u16(&mut self) -> (r: Result<u16, FormatError>)
        ensures
            final(self).read_number(old(self), 2, false, number_outcome(r)),
    {
        proof {
            lemma_pow256_values();
        }
        match self.read_fixed(2) {
            Ok(value) => Ok(value as u16),
            Err(e) => Err(e),
        }
    }

    /// Reads an unsigned 32-bit number, low byte first.
    pub fn read_u32(&mut self) -> (r: Result<u32, FormatError>)
        ensures
            final(self).read_number(old(self), 4, false, number_outcome(r)),
    {
        proof {
            lemma_pow256_values();
        }
        match self.read_fixed(4) {
            Ok(value) => Ok(value as u32),
            Err(e) => Err(e),
        }
    }

    /// Reads an unsigned 64-bit number, low byte first.
    pub fn read_u64(&mut self) -> (r: Result<u64, FormatError>)
        ensures
            final(self).read_number(old(self), 8, false, number_outcome(r)),
    {
        proof {
            lemma_pow256_values();
        }
        self.read_fixed(8)
    }

    /// Reads a signed 8-bit number.
    pub fn read_i8(&mut self) -> (r: Result<i8, FormatError>)
        ensures
            final(self).read_number(old(self), 1, true, number_outcome(r)),
    {
        proof {
            lemma_pow256_values();
        }
        match self.read_fixed(1) {
            Ok(value) => Ok(signed8(value as u8)),
            Err(e) => Err(e),
        }
    }

    /// Reads a signed 16-bit number, low byte first.
    pub fn read_i16(&mut self) -> (r: Result<i16, FormatError>)
        ensures
            final(self).read_number(old(self), 2, true, number_outcome(r)),
    {
        proof {
            lemma_pow256_values();
        }
        match self.read_fixed(2) {
            Ok(value) => Ok(signed16(value as u16)),
            Err(e) => Err(e),
        }
    }

    /// Reads a signed 32-bit number, low byte first.
    pub fn read_i32(&mut self) -> (r: Result<i32, FormatError>)
        ensures
            final(self).read_number(old(self), 4, true, number_outcome(r)),
    {
        proof {
            lemma_pow256_values();
        }
        match self.read_fixed(4) {
            Ok(value) => Ok(signed32(value as u32)),
            Err(e) => Err(e),
        }
    }

    /// Reads a signed 64-bit number, low byte first.
    pub fn read_i64(&mut self) -> (r: Result<i64, FormatError>)
        ensures
            final(self).read_number(old(self), 8, true, number_outcome(r)),
    {
        proof {
            lemma_pow256_values();
        }
        match self.read_fixed(8) {
            Ok(value) => Ok(signed64(value)),
            Err(e) => Err(e),
        }
    }

    /// Reads the bit pattern of a 32-bit IEEE 754 number, low byte first.
    pub fn read_f32_bits(&mut self) -> (r: Result<u32, FormatError>)
        ensures
            final(self).read_number(old(self), 4, false, number_outcome(r)),
    {
        self.read_u32()
    }

    /// Reads the bit pattern of a 64-bit IEEE 754 number, low byte first.
    pub fn read_f64_bits(&mut self) -> (r: Result<u64, FormatError>)
        ensures
            final(self).read_number(old(self), 8, false, number_outcome(r)),
    {
        self.read_u64()
    }

    /// Reads the next `count` bytes.
    pub fn read_bytes(&mut self, count: usize) -> (r: Result<Vec<u8>, FormatError>)
        ensures
            final(self).follows(old(self), parse_bytes(old(self).bytes(), old(self).offset(), count as nat)),
            match parse_bytes(old(self).bytes(), old(self).offset(), count as nat) {
                Ok((bytes, _)) => r matches Ok(found) && found@ == bytes,
                Err(e) => r matches Err(x) && x@ == e,
            },
    {
        proof {
            use_type_invariant(&*self);
        }
        if self.data.len() - self.pos < count {
            return Err(FormatError::Truncated);
        }
        let found = vstd::slice::slice_to_vec(
            vstd::slice::slice_subrange(self.data, self.pos, self.pos + count),
        );
        self.pos = self.pos + count;
        Ok(found)
    }

    /// Splits off the next `size` bytes as a cursor of their own and moves
    /// behind them.
    pub fn window(&mut self, size: u64) -> (r: Result<Cursor<'a>, FormatError>)
        ensures
            final(self).follows(old(self), parse_bytes(old(self).bytes(), old(self).offset(), size as nat)),
            match parse_bytes(old(self).bytes(), old(self).offset(), size as nat) {
                Ok((bytes, _)) => r matches Ok(inner) && inner.bytes() == bytes && inner.offset() == 0,
                Err(e) => r matches Err(x) && x@ == e,
            },
    {
        proof {
            use_type_invariant(&*self);
        }
        if ((self.data.len() - self.pos) as u64) < size {
            return Err(FormatError::Truncated);
        }
        let count: usize = size as usize;
        let inner = Cursor {
            data: vstd::slice::slice_subrange(self.data, self.pos, self.pos + count),
            pos: 0,
        };
        self.pos = self.pos + count;
        Ok(inner)
    }

    /// Reads sixteen raw bytes as an identifier.
    pub fn read_guid(&mut self) -> (r: Result<ID, FormatError>)
        ensures
            final(self).follows(old(self), parse_bytes(old(self).bytes(), old(self).offset(), 16)),
            match parse_bytes(old(self).bytes(), old(self).offset(), 16) {
                Ok((bytes, _)) => r matches Ok(id) && id@ == bytes,
                Err(e) => r matches Err(x) && x@ == e,
            },
    {
        proof {
            use_type_invariant(&*self);
        }
        if self.data.len() - self.pos < 16 {
            return Err(FormatError::Truncated);
        }
        let len: usize = self.data.len();
        let mut raw: [u8; 16] = [0u8; 16];
        let mut i: usize = 0;
        while i < 16
            invariant
                i <= 16,
                self.pos + 16 <= len == self.data@.len(),
                forall|k: int| 0 <= k < i ==> raw@[k] == self.data@[self.pos + k],
            decreases 16 - i,
        {
            raw[i] = self.data[self.pos + i];
            i = i + 1;
        }
        assert(raw@ =~= self.data@.subrange(self.pos as int, self.pos + 16));
        self.pos = self.pos + 16;
        Ok(ID(raw))
    }

    /// Reads a length-prefixed text and keeps its units as they are.
    pub fn read_text(&mut self) -> (r: Result<Text, FormatError>)
        ensures
            final(self).follows(old(self), parse_text(old(self).bytes(), old(self).offset())),
            match parse_text(old(self).bytes(), old(self).offset()) {
                Ok((text, end)) => r matches Ok(found) && found@ == text && old(self).offset() + 4
                    <= end <= old(self).bytes().len(),
                Err(e) => r matches Err(x) && x@ == e,
            },
    {
        proof {
            use_type_invariant(&*self);
            reveal(parse_text);
        }
        let start: usize = self.pos;
        proof {
            lemma_pow256_values();
        }
        let raw = match self.read_fixed(4) {
            Ok(value) => value,
            Err(e) => {
                return Err(e);
            },
        };
        let length: i32 = signed32(raw as u32);
        if length >= 0 {
            match self.read_bytes(length as usize) {
                Ok(units) => Ok(Text::Narrow(units)),
                Err(e) => {
                    self.pos = start;
                    Err(e)
                },
            }
        } else {
            let count: u64 = (-(length as i64)) as u64;
            let size: u64 = 2 * count;
            if ((self.data.len() - self.pos) as u64) < size {
                self.pos = start;
                return Err(FormatError::Truncated);
            }
            let body: usize = self.pos;
            let total: usize = count as usize;
            let len: usize = self.data.len();
            let ghost span = self.data@.subrange(body as int, body + 2 * total);
            let mut units: Vec<u16> = Vec::new();
            let mut k: usize = 0;
            while k < total
                invariant
                    k <= total,
                    body + 2 * total <= len == self.data@.len(),
                    span == self.data@.subrange(body as int, body + 2 * total),
                    units@.len() == k,
                    forall|i: int| 0 <= i < k ==> units@[i] == le_units(span)[i],
                decreases total - k,
            {
                let unit = read_le(self.data, body + 2 * k, 2);
                proof {
                    lemma_pow256_values();
                    assert(self.data@.subrange(body + 2 * k, body + 2 * k + 2) =~= span.subrange(
                        2 * k,
                        2 * k + 2,
                    ));
                }
                units.push(unit as u16);
                k = k + 1;
            }
            assert(units@ =~= le_units(span));
            self.pos = body + 2 * total;
            Ok(Text::Wide(units))
        }
    }

    /// Reads a length-prefixed text and converts it to the host's representation.
    pub fn read_string(&mut self) -> (r: Result<String, FormatError>)
        ensures
            final(self).follows(old(self), parse_text(old(self).bytes(), old(self).offset())),
            match parse_text(old(self).bytes(), old(self).offset()) {
                Ok((text, _)) => r matches Ok(found) && found@ == text.host_text(),
                Err(e) => r matches Err(x) && x@ == e,
            },
    {
        match self.read_text() {
            Ok(text) => Ok(text.to_string()),
            Err(e) => Err(e),
        }
    }
}

/// The outcome of reading a number, as the contracts speak of it.
pub open spec fn number_outcome<T: Integer>(r: Result<T, FormatError>) -> Result<int, ErrorModel> {
    match r {
        Ok(value) => Ok(value as int),
        Err(e) => Err(e@),
    }
}

} // verus!
