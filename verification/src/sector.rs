//! The sizes of the sectors that can be sealed.

use vstd::prelude::*;
use vstd::string::StringSliceAdditionalSpecFns;
use crate::buffer::NODE_SIZE;
use crate::error::Error;

verus! {

pub const SECTOR_SIZE_2_KIB: u64 = 0x800;

pub const SECTOR_SIZE_4_KIB: u64 = 0x1000;

pub const SECTOR_SIZE_16_KIB: u64 = 0x4000;

pub const SECTOR_SIZE_32_KIB: u64 = 0x8000;

pub const SECTOR_SIZE_8_MIB: u64 = 0x80_0000;

pub const SECTOR_SIZE_16_MIB: u64 = 0x100_0000;

pub const SECTOR_SIZE_512_MIB: u64 = 0x2000_0000;

pub const SECTOR_SIZE_1_GIB: u64 = 0x4000_0000;

pub const SECTOR_SIZE_32_GIB: u64 = 0x8_0000_0000;

pub const SECTOR_SIZE_64_GIB: u64 = 0x10_0000_0000;

/// Whether sectors of `size` bytes are supported.
pub open spec fn supported(size: u64) -> bool {
    ||| size == SECTOR_SIZE_2_KIB
    ||| size == SECTOR_SIZE_4_KIB
    ||| size == SECTOR_SIZE_16_KIB
    ||| size == SECTOR_SIZE_32_KIB
    ||| size == SECTOR_SIZE_8_MIB
    ||| size == SECTOR_SIZE_16_MIB
    ||| size == SECTOR_SIZE_512_MIB
    ||| size == SECTOR_SIZE_1_GIB
    ||| size == SECTOR_SIZE_32_GIB
    ||| size == SECTOR_SIZE_64_GIB
}

/// The most digits that a number may have before a unit from the gigabyte up.
pub const MAX_DIGITS: usize = 17;

/// Whether a byte is an ASCII digit.
pub open spec fn is_digit(byte: u8) -> bool {
    0x30 <= byte <= 0x39
}

/// Whether a byte is a letter that starts a unit from the gigabyte up: one
/// of `G`, `T`, `P`, `E` and `Z`, in either case.
pub open spec fn is_large_unit(byte: u8) -> bool {
    ||| byte == 0x47 || byte == 0x67
    ||| byte == 0x54 || byte == 0x74
    ||| byte == 0x50 || byte == 0x70
    ||| byte == 0x45 || byte == 0x65
    ||| byte == 0x5a || byte == 0x7a
}

/// The place of the first digit of `text` at or after `from`, or the length
/// of `text` if there is none.
pub open spec fn first_digit(text: Seq<u8>, from: int) -> int
    decreases text.len() - from,
{
    if from >= text.len() {
        text.len() as int
    } else if is_digit(text[from]) {
        from
    } else {
        first_digit(text, from + 1)
    }
}

/// The place of the first byte of `text` at or after `from` that is not the
/// digit zero, or the length of `text` if there is none.
pub open spec fn first_nonzero(text: Seq<u8>, from: int) -> int
    decreases text.len() - from,
{
    if from >= text.len() {
        text.len() as int
    } else if text[from] != 0x30 {
        from
    } else {
        first_nonzero(text, from + 1)
    }
}

/// The place of the first byte of `text` at or after `from` that is no
/// digit, or the length of `text` if there is none.
pub open spec fn first_nondigit(text: Seq<u8>, from: int) -> int
    decreases text.len() - from,
{
    if from >= text.len() {
        text.len() as int
    } else if !is_digit(text[from]) {
        from
    } else {
        first_nondigit(text, from + 1)
    }
}

/// The number of digits of the first number in `text`, its leading zeros
/// not counted.
pub open spec fn significant_digits(text: Seq<u8>) -> int {
    let start = first_nonzero(text, first_digit(text, 0));
    first_nondigit(text, start) - start
}

/// Whether `text` holds a letter that starts a unit from the gigabyte up.
pub open spec fn names_large_unit(text: Seq<u8>) -> bool {
    exists|i: int| 0 <= i < text.len() && is_large_unit(#[trigger] text[i])
}

/// Whether the parser might overflow on `text`: the text names a unit from
/// the gigabyte up and its first number has more than 17 digits that count.
pub open spec fn may_overflow(text: Seq<u8>) -> bool {
    names_large_unit(text) && significant_digits(text) > MAX_DIGITS
}

/// The number of bytes that `byte_unit::Byte::from_str` reads out of a text
/// such as `"2KiB"`, or nothing where it rejects the text.
pub uninterp spec fn parsed_byte_count(text: Seq<char>) -> Option<u128>;

/// Calls `byte_unit::Byte::from_str` and, where that accepts the text,
/// `Byte::get_bytes`. The parser reads a decimal number and a unit; what it
/// returns depends on the text alone.
///
/// For a unit from the gigabyte up the parser multiplies in 128 bits
/// without a check; the product overflows from a number of 2^58 before the
/// largest unit. A number of at most 17 digits stays below that with every
/// unit, and for the smaller units and for plain bytes nothing is multiplied
/// in integers. The parser reads its number from the first digits of the
/// text, so the texts that are left out are those on which it might
/// overflow.
#[verifier::external_body]
fn byte_count(text: &str) -> (count: Option<u128>)
    requires
        !may_overflow(text.spec_bytes()),
    ensures
        count == parsed_byte_count(text@),
{
    match byte_unit::Byte::from_str(text) {
        Ok(bytes) => Some(bytes.get_bytes()),
        Err(_) => None,
    }
}

/// Finds the first digit of `text` at or after `from`.
fn find_digit(text: &[u8], from: usize) -> (at: usize)
    requires
        from <= text@.len(),
    ensures
        from <= at <= text@.len(),
        at == first_digit(text@, from as int),
{
    let len: usize = text.len();
    let mut at: usize = from;
    while at < len && !(0x30 <= text[at] && text[at] <= 0x39)
        invariant
            from <= at <= len == text@.len(),
            first_digit(text@, from as int) == first_digit(text@, at as int),
        decreases len - at,
    {
        at += 1;
    }
    at
}

/// Finds the first byte of `text` at or after `from` that is not a zero.
fn skip_zeros(text: &[u8], from: usize) -> (at: usize)
    requires
        from <= text@.len(),
    ensures
        from <= at <= text@.len(),
        at == first_nonzero(text@, from as int),
{
    let len: usize = text.len();
    let mut at: usize = from;
    while at < len && text[at] == 0x30
        invariant
            from <= at <= len == text@.len(),
            first_nonzero(text@, from as int) == first_nonzero(text@, at as int),
        decreases len - at,
    {
        at += 1;
    }
    at
}

/// Finds the first byte of `text` at or after `from` that is no digit.
fn skip_digits(text: &[u8], from: usize) -> (at: usize)
    requires
        from <= text@.len(),
    ensures
        from <= at <= text@.len(),
        at == first_nondigit(text@, from as int),
{
    let len: usize = text.len();
    let mut at: usize = from;
    while at < len && 0x30 <= text[at] && text[at] <= 0x39
        invariant
            from <= at <= len == text@.len(),
            first_nondigit(text@, from as int) == first_nondigit(text@, at as int),
        decreases len - at,
    {
        at += 1;
    }
    at
}

/// Looks for a letter that starts a unit from the gigabyte up.
fn has_large_unit(text: &[u8]) -> (found: bool)
    ensures
        found == names_large_unit(text@),
{
    let len: usize = text.len();
    let mut i: usize = 0;
    while i < len
        invariant
            i <= len == text@.len(),
            forall|k: int| 0 <= k < i ==> !is_large_unit(#[trigger] text@[k]),
        decreases len - i,
    {
        let byte = text[i];
        if byte == 0x47 || byte == 0x67 || byte == 0x54 || byte == 0x74 || byte == 0x50 || byte
            == 0x70 || byte == 0x45 || byte == 0x65 || byte == 0x5a || byte == 0x7a {
            return true;
        }
        i += 1;
    }
    false
}

/// Tells whether the parser might overflow on a text.
pub fn overflows(text: &str) -> (risk: bool)
    ensures
        risk == may_overflow(text.spec_bytes()),
{
    let bytes = text.as_bytes();
    if !has_large_unit(bytes) {
        return false;
    }
    let start = skip_zeros(bytes, find_digit(bytes, 0));
    let end = skip_digits(bytes, start);
    end - start > MAX_DIGITS
}

/// The byte count that a text stands for: what the parser reads out of it,
/// or nothing for a text on which the parser might overflow.
pub open spec fn byte_count_of(text: &str) -> Option<u128> {
    if may_overflow(text.spec_bytes()) {
        None
    } else {
        parsed_byte_count(text@)
    }
}

/// Reads a byte count such as `"2KiB"`. A text on which the parser might
/// overflow is never handed to it: such a text names a unit from the
/// gigabyte up after a number of more than 17 digits, which stands for
/// 10^26 bytes or more.
pub fn read_byte_count(text: &str) -> (count: Option<u128>)
    ensures
        count == byte_count_of(text),
{
    if overflows(text) {
        None
    } else {
        byte_count(text)
    }
}

/// The sector size that a parsed byte count stands for: the count, cut to
/// the width of a `usize`, if it is the size of a supported sector.
pub open spec fn sector_size_of(count: Option<u128>) -> Result<usize, Error> {
    match count {
        Some(bytes) => if supported((bytes as usize) as u64) {
            Ok(bytes as usize)
        } else {
            Err(Error::UnsupportedSize)
        },
        None => Err(Error::UnsupportedSize),
    }
}

/// Checks a parsed byte count against the supported sector sizes.
pub fn sector_size(count: Option<u128>) -> (result: Result<usize, Error>)
    ensures
        result == sector_size_of(count),
{
    match count {
        Some(bytes) => {
            let size: usize = #[verifier::truncate]
            (bytes as usize);
            let wide: u64 = size as u64;
            if wide == SECTOR_SIZE_2_KIB || wide == SECTOR_SIZE_4_KIB || wide
                == SECTOR_SIZE_16_KIB || wide == SECTOR_SIZE_32_KIB || wide == SECTOR_SIZE_8_MIB
                || wide == SECTOR_SIZE_16_MIB || wide == SECTOR_SIZE_512_MIB || wide
                == SECTOR_SIZE_1_GIB || wide == SECTOR_SIZE_32_GIB || wide == SECTOR_SIZE_64_GIB {
                Ok(size)
            } else {
                Err(Error::UnsupportedSize)
            }
        },
        None => Err(Error::UnsupportedSize),
    }
}

/// Reads a sector size such as `"2KiB"` or `"34359738368"`. Only the sizes
/// of supported sectors are accepted.
pub fn parse_size(size: &str) -> (result: Result<usize, Error>)
    ensures
        result == sector_size_of(byte_count_of(size)),
        !may_overflow(size.spec_bytes()) ==> result == sector_size_of(parsed_byte_count(size@)),
        may_overflow(size.spec_bytes()) ==> result == Err::<usize, Error>(Error::UnsupportedSize),
{
    sector_size(read_byte_count(size))
}

/// The number of nodes in a sector of `sector_size` bytes.
pub fn sector_nodes(sector_size: usize) -> (nodes: usize)
    ensures
        nodes == sector_size / 32,
{
    sector_size / NODE_SIZE
}

} // verus!
