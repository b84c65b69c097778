use vstd::prelude::*;
use crate::error::Error;

verus! {

/// Why a read of binary input failed: the input ended early, or its
/// contents break the format (with the message that says how).
pub enum ParseFail {
    Eof,
    Format(Seq<char>),
}

/// What a read of type `T` gives: the value and the position after it.
pub type SpecRead<T> = Result<(T, int), ParseFail>;

/// The message of the error that a short read reports.
pub open spec fn eof_message() -> Seq<char> {
    "failed to fill whole buffer"@
}

/// `e` is the library error that stands for the read failure `f`.
pub open spec fn error_is(e: Error, f: ParseFail) -> bool {
    match f {
        ParseFail::Eof => e matches Error::Io(m) && m@ == eof_message(),
        ParseFail::Format(msg) => e matches Error::Format(m) && m@ == msg,
    }
}

/// The error for input that ended before a read could complete.
pub fn eof_error() -> (e: Error)
    ensures
        error_is(e, ParseFail::Eof),
{
    Error::Io("failed to fill whole buffer".to_owned())
}

/// A format error with the given message.
pub fn format_error(msg: String) -> (e: Error)
    ensures
        error_is(e, ParseFail::Format(msg@)),
{
    Error::Format(msg)
}

/// Little-endian value of two bytes.
pub open spec fn le16(b: Seq<u8>, p: int) -> u16 {
    (b[p] as int + 256 * (b[p + 1] as int)) as u16
}

/// Little-endian value of four bytes.
pub open spec fn le32(b: Seq<u8>, p: int) -> u32 {
    (b[p] as int + 256 * (b[p + 1] as int) + 65536 * (b[p + 2] as int) + 16777216 * (
    b[p + 3] as int)) as u32
}

/// Little-endian value of eight bytes.
pub open spec fn le64(b: Seq<u8>, p: int) -> u64 {
    (le32(b, p) as int + 4294967296 * (le32(b, p + 4) as int)) as u64
}

/// Reads `n` bytes at `p`, if they are there.
pub open spec fn fits(b: Seq<u8>, p: int, n: int) -> bool {
    0 <= p && p + n <= b.len()
}

pub fn read_u16_le(b: &[u8], p: usize) -> (r: u16)
    requires
        fits(b@, p as int, 2),
    ensures
        r == le16(b@, p as int),
{
    (b[p] as u16) + 256 * (b[p + 1] as u16)
}

pub fn read_u32_le(b: &[u8], p: usize) -> (r: u32)
    requires
        fits(b@, p as int, 4),
    ensures
        r == le32(b@, p as int),
{
    (b[p] as u32) + 256 * (b[p + 1] as u32) + 65536 * (b[p + 2] as u32) + 16777216 * (
    b[p + 3] as u32)
}

pub fn read_u64_le(b: &[u8], p: usize) -> (r: u64)
    requires
        fits(b@, p as int, 8),
    ensures
        r == le64(b@, p as int),
{
    let n = b.len();
    assert(p + 8 <= n);
    let lo = read_u32_le(b, p) as u64;
    let hi = read_u32_le(b, p + 4) as u64;
    lo + 4294967296 * hi
}

/// The bytes `b[from..to]` as a vector.
pub fn copy_range(b: &[u8], from: usize, to: usize) -> (r: Vec<u8>)
    requires
        from <= to <= b@.len(),
    ensures
        r@ == b@.subrange(from as int, to as int),
{
    let mut out: Vec<u8> = Vec::with_capacity(to - from);
    let mut i = from;
    while i < to
        invariant
            from <= i <= to <= b@.len(),
            out@ == b@.subrange(from as int, i as int),
        decreases to - i,
    {
        out.push(b[i]);
        i = i + 1;
        assert(out@ =~= b@.subrange(from as int, i as int));
    }
    out
}

/// `String::from_utf8`: the string whose UTF-8 encoding is `bytes`, if the
/// bytes are valid UTF-8.
#[verifier::external_body]
pub fn utf8_string(bytes: Vec<u8>) -> (r: Option<String>)
    ensures
        r is Some <==> vstd::utf8::valid_utf8(bytes@),
        r matches Some(s) ==> s@ == vstd::utf8::decode_utf8(bytes@),
{
    String::from_utf8(bytes).ok()
}

} // verus!
