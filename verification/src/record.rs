//! Records of a package file: byte ranges with numbers at known places.

use vstd::prelude::*;
use crate::text;

verus! {

/// Why a table of a package cannot be read.
#[derive(Debug, PartialEq, Eq)]
pub enum StreamError {
    /// `size` bytes from `offset` on are wanted of `total`.
    OutOfBounds { size: u64, offset: u64, total: u64 },
    /// The user data is not a list of package files.
    UnsupportedUserData,
}

impl StreamError {
    /// The message for the user.
    pub open spec fn sentence(&self) -> Seq<char> {
        match self {
            StreamError::OutOfBounds { size, offset, total } => "读取越界: 需要 "@
                + text::decimal(*size as nat) + " 字节，偏移 "@ + text::decimal(*offset as nat)
                + "，总长 "@ + text::decimal(*total as nat),
            StreamError::UnsupportedUserData => "Unsupported UserData type"@,
        }
    }

    /// The message for the user.
    pub fn message(&self) -> (r: String)
        ensures
            r@ == self.sentence(),
    {
        match self {
            StreamError::OutOfBounds { size, offset, total } => {
                let mut message: String = "读取越界: 需要 ".to_owned();
                text::append_decimal(&mut message, *size);
                message.append(" 字节，偏移 ");
                text::append_decimal(&mut message, *offset);
                message.append("，总长 ");
                text::append_decimal(&mut message, *total);
                message
            },
            StreamError::UnsupportedUserData => "Unsupported UserData type".to_owned(),
        }
    }
}

/// The number that bytes stand for, least significant byte first.
pub open spec fn le_value(s: Seq<u8>) -> nat
    decreases s.len(),
{
    if s.len() == 0 {
        0
    } else {
        s[0] as nat + 256 * le_value(s.skip(1))
    }
}

/// 256 to the power `n`.
pub open spec fn pow256(n: nat) -> nat
    decreases n,
{
    if n == 0 {
        1
    } else {
        256 * pow256((n - 1) as nat)
    }
}

/// `n` bytes stand for less than 256 to the power `n`.
pub proof fn lemma_le_value_bound(s: Seq<u8>)
    ensures
        le_value(s) < pow256(s.len()),
    decreases s.len(),
{
    if s.len() > 0 {
        lemma_le_value_bound(s.skip(1));
    }
}

/// The bounds for numbers of the usual widths.
pub proof fn lemma_pow256_bounds(n: nat)
    ensures
        n <= 2 ==> pow256(n) <= 0x1_0000,
        n <= 4 ==> pow256(n) <= 0x1_0000_0000,
        n <= 8 ==> pow256(n) <= 0x1_0000_0000_0000_0000,
{
    reveal_with_fuel(pow256, 9);
}

/// Where a number stands in a record: its first byte, and how many bytes it has.
#[derive(Debug, Clone, Copy, PartialEq, Eq)]
pub struct Field {
    pub offset: u32,
    pub width: u32,
}

impl Field {
    /// Whether the field lies within a record of `size` bytes and is no wider than `width`.
    pub open spec fn fits(&self, size: u32, width: u32) -> bool {
        self.width <= width && self.offset + self.width <= size
    }

    /// Whether the field lies within a record of `size` bytes and is no wider than `width`.
    pub fn is_within(&self, size: u32, width: u32) -> (r: bool)
        ensures
            r == self.fits(size, width),
    {
        self.width <= width && self.offset as u64 + self.width as u64 <= size as u64
    }

    /// The number in this field of a record.
    pub open spec fn of(&self, record: Seq<u8>) -> nat {
        le_value(record.subrange(self.offset as int, self.offset + self.width))
    }

    /// The number in this field of a record, of at most eight bytes.
    pub fn read(&self, record: &[u8]) -> (r: u64)
        requires
            self.width <= 8,
            self.offset + self.width <= record.len(),
        ensures
            r == self.of(record@),
            self.width <= 2 ==> r <= u16::MAX,
            self.width <= 4 ==> r <= u32::MAX,
    {
        let start: usize = self.offset as usize;
        let width: usize = self.width as usize;
        let ghost bytes = record@.subrange(start as int, start + width);
        let mut value: u64 = 0;
        let mut left: usize = width;
        assert(bytes.skip(width as int) =~= Seq::<u8>::empty());
        while left > 0
            invariant
                left <= width <= 8,
                start + width <= record.len(),
                bytes == record@.subrange(start as int, start + width),
                value == le_value(bytes.skip(left as int)),
            decreases left,
        {
            left = left - 1;
            proof {
                lemma_le_value_bound(bytes.skip(left + 1));
                reveal_with_fuel(pow256, 9);
                assert(bytes.skip(left as int).skip(1) =~= bytes.skip(left + 1));
                assert(bytes.skip(left as int)[0] == record@[start + left]);
                lemma_le_value_bound(bytes.skip(left as int));
            }
            value = value * 256 + record[start + left] as u64;
        }
        proof {
            assert(bytes.skip(0) =~= bytes);
            lemma_le_value_bound(bytes);
            lemma_pow256_bounds(width as nat);
        }
        value
    }
}

/// The `size` bytes of `buffer` from `offset` on.
pub open spec fn record_of(buffer: Seq<u8>, offset: int, size: int) -> Seq<u8> {
    buffer.subrange(offset, offset + size)
}

/// The record of `size` bytes at `offset`, if the buffer reaches so far.
pub fn read_struct_at(buffer: &[u8], offset: u64, size: u32) -> (r: Result<&[u8], StreamError>)
    ensures
        offset + size <= buffer@.len() ==> r is Ok && r->Ok_0@ == record_of(
            buffer@,
            offset as int,
            size as int,
        ),
        offset + size > buffer@.len() ==> r == Err::<&[u8], StreamError>(
            StreamError::OutOfBounds {
                size: size as u64,
                offset,
                total: buffer@.len() as u64,
            },
        ),
{
    let total: u64 = buffer.len() as u64;
    if size as u64 > total || offset > total - size as u64 {
        return Err(StreamError::OutOfBounds { size: size as u64, offset, total });
    }
    let start: usize = offset as usize;
    Ok(&buffer[start..start + size as usize])
}

/// The first of `n` records of `size` bytes, side by side from `start` on, that does not lie
/// within `len` bytes, looked for from the record `i` on.
pub open spec fn first_missing(len: int, start: int, size: int, n: int, i: int) -> Option<int>
    decreases n - i,
{
    if i >= n {
        None
    } else if start + i * size + size > len {
        Some(i)
    } else {
        first_missing(len, start, size, n, i + 1)
    }
}

/// The error for the record `i` of a table that starts at `start`.
pub open spec fn missing_record(len: int, start: int, size: int, i: int) -> StreamError {
    StreamError::OutOfBounds { size: size as u64, offset: (start + i * size) as u64, total: len as u64 }
}

/// Nothing is missing of a table exactly where it is empty or ends within the bytes, and what is
/// reported as missing is the first record that does not end within them.
pub proof fn first_missing_record_is_reported(len: int, start: int, size: int, n: int)
    requires
        0 <= size,
        0 <= n,
    ensures
        match first_missing(len, start, size, n, 0) {
            None => n == 0 || start + n * size <= len,
            Some(k) => 0 <= k < n && start + (k + 1) * size > len && (k == 0 || start + k * size
                <= len),
        },
{
    lemma_first_missing(len, start, size, n, 0);
}

proof fn lemma_first_missing(len: int, start: int, size: int, n: int, i: int)
    requires
        0 <= size,
        0 <= i <= n,
    ensures
        match first_missing(len, start, size, n, i) {
            None => i == n || start + n * size <= len,
            Some(k) => i <= k < n && start + (k + 1) * size > len && (k == i || start + k * size
                <= len),
        },
    decreases n - i,
{
    assert((i + 1) * size == i * size + size) by (nonlinear_arith);
    if i < n && start + i * size + size <= len {
        lemma_first_missing(len, start, size, n, i + 1);
    }
}

/// The little-endian 16-bit numbers of a byte range; an odd byte at the end is left out.
pub open spec fn utf16_units(s: Seq<u8>) -> Seq<u16> {
    Seq::new(s.len() / 2, |i: int| (s[2 * i] + 256 * s[2 * i + 1]) as u16)
}

/// The little-endian 16-bit numbers of a byte range.
pub fn read_units(data: &[u8]) -> (r: Vec<u16>)
    ensures
        r@ == utf16_units(data@),
{
    let n: usize = data.len() / 2;
    let mut units: Vec<u16> = Vec::new();
    let mut i: usize = 0;
    while i < n
        invariant
            i <= n,
            n == data.len() / 2,
            units@ == utf16_units(data@).take(i as int),
        decreases n - i,
    {
        let unit: u16 = data[2 * i] as u16 + 256 * (data[2 * i + 1] as u16);
        units.push(unit);
        assert(units@ =~= utf16_units(data@).take(i + 1));
        i = i + 1;
    }
    assert(utf16_units(data@).take(n as int) =~= utf16_units(data@));
    units
}

/// The units before the first that is zero.
pub open spec fn before_nul(units: Seq<u16>) -> Seq<u16>
    decreases units.len(),
{
    if units.len() == 0 || units[0] == 0 {
        seq![]
    } else {
        seq![units[0]] + before_nul(units.skip(1))
    }
}

/// The number of units before the first that is zero.
pub fn nul_position(units: &Vec<u16>) -> (r: usize)
    ensures
        r <= units@.len(),
        units@.take(r as int) == before_nul(units@),
{
    let mut i: usize = 0;
    assert(units@.skip(0) =~= units@);
    assert(units@.take(0) + before_nul(units@) =~= before_nul(units@));
    while i < units.len() && units[i] != 0
        invariant
            i <= units@.len(),
            units@.take(i as int) + before_nul(units@.skip(i as int)) == before_nul(units@),
        decreases units@.len() - i,
    {
        proof {
            let rest = units@.skip(i as int);
            assert(rest.skip(1) =~= units@.skip(i + 1));
            assert(units@.take(i + 1) + before_nul(units@.skip(i + 1)) =~= units@.take(i as int)
                + (seq![rest[0]] + before_nul(rest.skip(1))));
        }
        i = i + 1;
    }
    assert(before_nul(units@.skip(i as int)) =~= Seq::<u16>::empty());
    assert(units@.take(i as int) + Seq::<u16>::empty() =~= units@.take(i as int));
    i
}

} // verus!
