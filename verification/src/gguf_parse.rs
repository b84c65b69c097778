use vstd::prelude::*;
use crate::bytes::{
    copy_range, eof_error, error_is, fits, format_error, le16, le32, le64, read_u16_le, read_u32_le,
    read_u64_le, utf8_string, ParseFail, SpecRead,
};
use crate::error::Error;
use crate::gguf::{
    lemma_array_view, pairs_map, tensors_view, values_view, GgufFile, GgufReader, GgufTensorInfo,
    GgufValue, Metadata, SpecGgufHeader, SpecGgufValue, SpecTensorInfo, GGUF_MAGIC, MAX_ARRAY_LEN,
    MAX_STRING_LEN, MAX_TENSORS,
};
use crate::text::{decimal, hex32, push_decimal, push_hex32, push_str};

verus! {

// ---------------------------------------------------------------------------
// What reading a GGUF header means, on the bytes read so far (`b`) and the
// size of the whole file (`fs`).
// ---------------------------------------------------------------------------

pub open spec fn msg_string_too_long(len: u64) -> Seq<char> {
    "GGUF string length "@ + decimal(len as nat) + " exceeds safety limit "@ + decimal(
        MAX_STRING_LEN as nat,
    )
}

pub open spec fn msg_string_out_of_file() -> Seq<char> {
    "GGUF string exceeds file bounds"@
}

pub open spec fn msg_string_not_utf8() -> Seq<char> {
    "GGUF string is not valid UTF-8"@
}

pub open spec fn msg_array_too_long(count: u64) -> Seq<char> {
    "GGUF array length "@ + decimal(count as nat) + " exceeds safety limit "@ + decimal(
        MAX_ARRAY_LEN as nat,
    )
}

pub open spec fn msg_nested_array_too_long(count: u64) -> Seq<char> {
    "GGUF nested array length "@ + decimal(count as nat) + " exceeds safety limit"@
}

pub open spec fn msg_unknown_tag(t: u32) -> Seq<char> {
    "unknown GGUF value type tag: "@ + decimal(t as nat)
}

pub open spec fn msg_unknown_typed_tag(t: u32) -> Seq<char> {
    "unknown GGUF typed value tag: "@ + decimal(t as nat)
}

/// A length-prefixed UTF-8 string at `pos`.
pub open spec fn spec_read_string(b: Seq<u8>, fs: int, pos: int) -> SpecRead<Seq<char>> {
    if !fits(b, pos, 8) {
        Err(ParseFail::Eof)
    } else {
        let len = le64(b, pos);
        if len > MAX_STRING_LEN {
            Err(ParseFail::Format(msg_string_too_long(len)))
        } else if pos + 8 + len > fs {
            Err(ParseFail::Format(msg_string_out_of_file()))
        } else if !fits(b, pos + 8, len as int) {
            Err(ParseFail::Eof)
        } else {
            let raw = b.subrange(pos + 8, pos + 8 + len);
            if vstd::utf8::valid_utf8(raw) {
                Ok((vstd::utf8::decode_utf8(raw), pos + 8 + len))
            } else {
                Err(ParseFail::Format(msg_string_not_utf8()))
            }
        }
    }
}

/// A fixed-size scalar of `n` bytes at `pos`, made into a value by `f`.
pub open spec fn spec_scalar(b: Seq<u8>, pos: int, n: int, v: SpecGgufValue) -> SpecRead<
    SpecGgufValue,
> {
    if fits(b, pos, n) {
        Ok((v, pos + n))
    } else {
        Err(ParseFail::Eof)
    }
}

/// Prepends `acc` to the values that a read gives.
pub open spec fn prepend(acc: Seq<SpecGgufValue>, r: SpecRead<Seq<SpecGgufValue>>) -> SpecRead<
    Seq<SpecGgufValue>,
> {
    match r {
        Ok((vs, p)) => Ok((acc + vs, p)),
        Err(f) => Err(f),
    }
}

/// An array element of type `tag` at `pos` (elements store small integers
/// and booleans in their own width).
pub open spec fn spec_read_typed(b: Seq<u8>, fs: int, pos: int, tag: u32) -> SpecRead<
    SpecGgufValue,
>
    decreases b.len() - pos, 0int,
{
    if tag == 0 {
        spec_scalar(b, pos, 1, SpecGgufValue::Uint8(b[pos]))
    } else if tag == 1 {
        spec_scalar(b, pos, 1, SpecGgufValue::Int8(b[pos] as i8))
    } else if tag == 2 {
        spec_scalar(b, pos, 2, SpecGgufValue::Uint16(le16(b, pos)))
    } else if tag == 3 {
        spec_scalar(b, pos, 2, SpecGgufValue::Int16(le16(b, pos) as i16))
    } else if tag == 4 {
        spec_scalar(b, pos, 4, SpecGgufValue::Uint32(le32(b, pos)))
    } else if tag == 5 {
        spec_scalar(b, pos, 4, SpecGgufValue::Int32(le32(b, pos) as i32))
    } else if tag == 6 {
        spec_scalar(b, pos, 4, SpecGgufValue::Float32(le32(b, pos)))
    } else if tag == 7 {
        spec_scalar(b, pos, 1, SpecGgufValue::Bool(b[pos] != 0))
    } else if tag == 8 {
        match spec_read_string(b, fs, pos) {
            Ok((s, p)) => Ok((SpecGgufValue::String(s), p)),
            Err(f) => Err(f),
        }
    } else if tag == 9 || tag == 13 {
        if !fits(b, pos, 12) {
            Err(ParseFail::Eof)
        } else {
            let et = le32(b, pos);
            let count = le64(b, pos + 4);
            if count > MAX_ARRAY_LEN {
                Err(ParseFail::Format(msg_nested_array_too_long(count)))
            } else {
                match spec_read_items(b, fs, pos + 12, et, count as nat) {
                    Ok((vs, p)) => Ok((SpecGgufValue::Array(vs), p)),
                    Err(f) => Err(f),
                }
            }
        }
    } else if tag == 10 {
        spec_scalar(b, pos, 8, SpecGgufValue::Uint64(le64(b, pos)))
    } else if tag == 11 {
        spec_scalar(b, pos, 8, SpecGgufValue::Int64(le64(b, pos) as i64))
    } else if tag == 12 {
        spec_scalar(b, pos, 8, SpecGgufValue::Float64(le64(b, pos)))
    } else {
        Err(ParseFail::Format(msg_unknown_typed_tag(tag)))
    }
}

/// `count` consecutive array elements of type `tag` at `pos`.
pub open spec fn spec_read_items(b: Seq<u8>, fs: int, pos: int, tag: u32, count: nat) -> SpecRead<
    Seq<SpecGgufValue>,
>
    decreases b.len() - pos, count + 1,
{
    if pos > b.len() {
        Err(ParseFail::Eof)
    } else if count == 0 {
        Ok((seq![], pos))
    } else {
        match spec_read_typed(b, fs, pos, tag) {
            Err(f) => Err(f),
            Ok((v, p1)) => {
                if p1 <= pos || p1 > b.len() {
                    Err(ParseFail::Eof)
                } else {
                    prepend(seq![v], spec_read_items(b, fs, p1, tag, (count - 1) as nat))
                }
            },
        }
    }
}

/// A tagged metadata value at `pos`: a four-byte type tag, then the value in
/// the width of its type (one byte for 8-bit integers and booleans, two for
/// 16-bit integers), as an array element of that type is stored.
pub open spec fn spec_read_value(b: Seq<u8>, fs: int, pos: int) -> SpecRead<SpecGgufValue> {
    if !fits(b, pos, 4) {
        Err(ParseFail::Eof)
    } else {
        let tag = le32(b, pos);
        let q = pos + 4;
        if tag == 9 || tag == 13 {
            if !fits(b, q, 12) {
                Err(ParseFail::Eof)
            } else {
                let et = le32(b, q);
                let count = le64(b, q + 4);
                if count > MAX_ARRAY_LEN {
                    Err(ParseFail::Format(msg_array_too_long(count)))
                } else {
                    match spec_read_items(b, fs, q + 12, et, count as nat) {
                        Ok((vs, p)) => Ok((SpecGgufValue::Array(vs), p)),
                        Err(f) => Err(f),
                    }
                }
            }
        } else if tag <= 12 {
            spec_read_typed(b, fs, q, tag)
        } else {
            Err(ParseFail::Format(msg_unknown_tag(tag)))
        }
    }
}

// ---------------------------------------------------------------------------
// The readers.
// ---------------------------------------------------------------------------

/// `r` is the outcome that `s` describes, values compared by `view`.
pub open spec fn read_is_string(r: Result<(String, usize), Error>, s: SpecRead<Seq<char>>) -> bool {
    match s {
        Ok((v, p)) => r is Ok && r->Ok_0.0@ == v && r->Ok_0.1 == p,
        Err(f) => r is Err && error_is(r->Err_0, f),
    }
}

pub open spec fn read_is_value(r: Result<(GgufValue, usize), Error>, s: SpecRead<SpecGgufValue>) -> bool {
    match s {
        Ok((v, p)) => r is Ok && r->Ok_0.0@ == v && r->Ok_0.1 == p,
        Err(f) => r is Err && error_is(r->Err_0, f),
    }
}

fn string_too_long_error(len: u64) -> (e: Error)
    ensures
        error_is(e, ParseFail::Format(msg_string_too_long(len))),
{
    let mut m = "GGUF string length ".to_owned();
    push_decimal(&mut m, len);
    push_str(&mut m, " exceeds safety limit ");
    push_decimal(&mut m, MAX_STRING_LEN);
    format_error(m)
}

/// Reads a length-prefixed UTF-8 string at `pos`.
pub fn read_gguf_string(b: &[u8], fs: u64, pos: usize) -> (r: Result<(String, usize), Error>)
    requires
        pos <= b@.len(),
    ensures
        read_is_string(r, spec_read_string(b@, fs as int, pos as int)),
        r is Ok ==> pos < r->Ok_0.1 <= b@.len(),
{
    let n = b.len();
    if n - pos < 8 {
        return Err(eof_error());
    }
    let len = read_u64_le(b, pos);
    if len > MAX_STRING_LEN {
        return Err(string_too_long_error(len));
    }
    let after_len = pos as u64 + 8;
    if after_len > fs || len > fs - after_len {
        return Err(format_error("GGUF string exceeds file bounds".to_owned()));
    }
    let start = pos + 8;
    if len as usize > n - start {
        return Err(eof_error());
    }
    let end = start + len as usize;
    let raw = copy_range(b, start, end);
    match utf8_string(raw) {
        Some(s) => Ok((s, end)),
        None => Err(format_error("GGUF string is not valid UTF-8".to_owned())),
    }
}


fn nested_array_too_long_error(count: u64) -> (e: Error)
    ensures
        error_is(e, ParseFail::Format(msg_nested_array_too_long(count))),
{
    let mut m = "GGUF nested array length ".to_owned();
    push_decimal(&mut m, count);
    push_str(&mut m, " exceeds safety limit");
    format_error(m)
}

fn array_too_long_error(count: u64) -> (e: Error)
    ensures
        error_is(e, ParseFail::Format(msg_array_too_long(count))),
{
    let mut m = "GGUF array length ".to_owned();
    push_decimal(&mut m, count);
    push_str(&mut m, " exceeds safety limit ");
    push_decimal(&mut m, MAX_ARRAY_LEN);
    format_error(m)
}

fn unknown_typed_tag_error(t: u32) -> (e: Error)
    ensures
        error_is(e, ParseFail::Format(msg_unknown_typed_tag(t))),
{
    let mut m = "unknown GGUF typed value tag: ".to_owned();
    push_decimal(&mut m, t as u64);
    format_error(m)
}

fn unknown_tag_error(t: u32) -> (e: Error)
    ensures
        error_is(e, ParseFail::Format(msg_unknown_tag(t))),
{
    let mut m = "unknown GGUF value type tag: ".to_owned();
    push_decimal(&mut m, t as u64);
    format_error(m)
}

/// Reads `count` array elements of type `tag` starting at `pos`.
fn read_items(b: &[u8], fs: u64, pos: usize, tag: u32, count: u64) -> (r: Result<
    (Vec<GgufValue>, usize),
    Error,
>)
    requires
        pos <= b@.len(),
    ensures
        match spec_read_items(b@, fs as int, pos as int, tag, count as nat) {
            Ok((vs, p)) => r is Ok && values_view(r->Ok_0.0@) == vs && r->Ok_0.1 == p,
            Err(f) => r is Err && error_is(r->Err_0, f),
        },
        r is Ok ==> pos <= r->Ok_0.1 <= b@.len(),
    decreases b@.len() - pos, count + 1,
{
    let mut items: Vec<GgufValue> = Vec::new();
    let mut cur = pos;
    let mut i: u64 = 0;
    while i < count
        invariant
            pos <= cur <= b@.len(),
            i <= count,
            spec_read_items(b@, fs as int, pos as int, tag, count as nat) == prepend(
                values_view(items@),
                spec_read_items(b@, fs as int, cur as int, tag, (count - i) as nat),
            ),
        decreases count - i,
    {
        let ghost old_items = items@;
        match read_gguf_value_typed(b, fs, cur, tag) {
            Ok((v, p)) => {
                items.push(v);
                assert(values_view(items@) =~= values_view(old_items) + seq![v@]);
                assert(values_view(old_items) + (seq![v@] + spec_read_items(b@, fs as int, p as int, tag, (count - i - 1) as nat)->Ok_0.0)
                    =~= values_view(items@) + spec_read_items(b@, fs as int, p as int, tag, (count - i - 1) as nat)->Ok_0.0);
                cur = p;
            },
            Err(e) => {
                return Err(e);
            },
        }
        i = i + 1;
    }
    assert(values_view(items@) + seq![] =~= values_view(items@));
    Ok((items, cur))
}

/// Reads an array element of type `tag` at `pos`.
pub fn read_gguf_value_typed(b: &[u8], fs: u64, pos: usize, tag: u32) -> (r: Result<(GgufValue, usize), Error>)
    requires
        pos <= b@.len(),
    ensures
        read_is_value(r, spec_read_typed(b@, fs as int, pos as int, tag)),
        r is Ok ==> pos < r->Ok_0.1 <= b@.len(),
    decreases b@.len() - pos, 0int,
{
    let n = b.len();
    let avail = n - pos;
    if tag == 0 || tag == 1 || tag == 7 {
        if avail < 1 {
            return Err(eof_error());
        }
        let x = b[pos];
        let v = if tag == 0 {
            GgufValue::Uint8(x)
        } else if tag == 1 {
            GgufValue::Int8(x as i8)
        } else {
            GgufValue::Bool(x != 0)
        };
        Ok((v, pos + 1))
    } else if tag == 2 || tag == 3 {
        if avail < 2 {
            return Err(eof_error());
        }
        let x = read_u16_le(b, pos);
        let v = if tag == 2 {
            GgufValue::Uint16(x)
        } else {
            GgufValue::Int16(x as i16)
        };
        Ok((v, pos + 2))
    } else if tag == 4 || tag == 5 || tag == 6 {
        if avail < 4 {
            return Err(eof_error());
        }
        let x = read_u32_le(b, pos);
        let v = if tag == 4 {
            GgufValue::Uint32(x)
        } else if tag == 5 {
            GgufValue::Int32(x as i32)
        } else {
            GgufValue::Float32(x)
        };
        Ok((v, pos + 4))
    } else if tag == 8 {
        match read_gguf_string(b, fs, pos) {
            Ok((s, p)) => Ok((GgufValue::String(s), p)),
            Err(e) => Err(e),
        }
    } else if tag == 9 || tag == 13 {
        if avail < 12 {
            return Err(eof_error());
        }
        let et = read_u32_le(b, pos);
        let count = read_u64_le(b, pos + 4);
        if count > MAX_ARRAY_LEN {
            return Err(nested_array_too_long_error(count));
        }
        match read_items(b, fs, pos + 12, et, count) {
            Ok((items, p)) => {
                proof {
                    lemma_array_view(items);
                }
                Ok((GgufValue::Array(items), p))
            },
            Err(e) => Err(e),
        }
    } else if tag == 10 || tag == 11 || tag == 12 {
        if avail < 8 {
            return Err(eof_error());
        }
        let x = read_u64_le(b, pos);
        let v = if tag == 10 {
            GgufValue::Uint64(x)
        } else if tag == 11 {
            GgufValue::Int64(x as i64)
        } else {
            GgufValue::Float64(x)
        };
        Ok((v, pos + 8))
    } else {
        Err(unknown_typed_tag_error(tag))
    }
}


/// Reads a tagged metadata value at `pos`.
pub fn read_gguf_value(b: &[u8], fs: u64, pos: usize) -> (r: Result<(GgufValue, usize), Error>)
    requires
        pos <= b@.len(),
    ensures
        read_is_value(r, spec_read_value(b@, fs as int, pos as int)),
        r is Ok ==> pos < r->Ok_0.1 <= b@.len(),
{
    let n = b.len();
    if n - pos < 4 {
        return Err(eof_error());
    }
    let tag = read_u32_le(b, pos);
    let q = pos + 4;
    let avail = n - q;
    if tag == 9 || tag == 13 {
        if avail < 12 {
            return Err(eof_error());
        }
        let et = read_u32_le(b, q);
        let count = read_u64_le(b, q + 4);
        if count > MAX_ARRAY_LEN {
            return Err(array_too_long_error(count));
        }
        match read_items(b, fs, q + 12, et, count) {
            Ok((items, p)) => {
                proof {
                    lemma_array_view(items);
                }
                Ok((GgufValue::Array(items), p))
            },
            Err(e) => Err(e),
        }
    } else if tag <= 12 {
        read_gguf_value_typed(b, fs, q, tag)
    } else {
        Err(unknown_tag_error(tag))
    }
}


// ---------------------------------------------------------------------------
// Key/value pairs, tensor records and the whole header.
// ---------------------------------------------------------------------------

/// The first `count` metadata key/value pairs starting at `pos`.
pub open spec fn spec_read_kvs(b: Seq<u8>, fs: int, pos: int, count: nat) -> SpecRead<
    Seq<(Seq<char>, SpecGgufValue)>,
>
    decreases count,
{
    if count == 0 {
        Ok((seq![], pos))
    } else {
        match spec_read_kvs(b, fs, pos, (count - 1) as nat) {
            Err(f) => Err(f),
            Ok((ps, p)) => match spec_read_string(b, fs, p) {
                Err(f) => Err(f),
                Ok((k, p1)) => match spec_read_value(b, fs, p1) {
                    Err(f) => Err(f),
                    Ok((v, p2)) => Ok((ps.push((k, v)), p2)),
                },
            },
        }
    }
}

pub open spec fn msg_dims_out_of_file() -> Seq<char> {
    "tensor dimensions exceed file bounds"@
}

/// One tensor record at `pos`.
pub open spec fn spec_read_tensor(b: Seq<u8>, fs: int, pos: int) -> SpecRead<SpecTensorInfo> {
    match spec_read_string(b, fs, pos) {
        Err(f) => Err(f),
        Ok((name, p1)) => if !fits(b, p1, 4) {
            Err(ParseFail::Eof)
        } else {
            let nd = le32(b, p1);
            let p2 = p1 + 4;
            if nd > (fs - p2) / 8 {
                Err(ParseFail::Format(msg_dims_out_of_file()))
            } else if !fits(b, p2, 8 * nd + 12) {
                Err(ParseFail::Eof)
            } else {
                let p3 = p2 + 8 * nd;
                Ok(
                    (
                        SpecTensorInfo {
                            name,
                            n_dims: nd,
                            dimensions: Seq::new(nd as nat, |i: int| le64(b, p2 + 8 * i)),
                            dtype: le32(b, p3),
                            offset: le64(b, p3 + 4),
                        },
                        p3 + 12,
                    ),
                )
            }
        },
    }
}

/// The first `count` tensor records starting at `pos`.
pub open spec fn spec_read_tensors(b: Seq<u8>, fs: int, pos: int, count: nat) -> SpecRead<
    Seq<SpecTensorInfo>,
>
    decreases count,
{
    if count == 0 {
        Ok((seq![], pos))
    } else {
        match spec_read_tensors(b, fs, pos, (count - 1) as nat) {
            Err(f) => Err(f),
            Ok((ts, p)) => match spec_read_tensor(b, fs, p) {
                Err(f) => Err(f),
                Ok((t, p1)) => Ok((ts.push(t), p1)),
            },
        }
    }
}

pub open spec fn msg_bad_magic(magic: u32) -> Seq<char> {
    "not a GGUF file (magic: "@ + hex32(magic) + ")"@
}

pub open spec fn msg_too_many_tensors(n: u64) -> Seq<char> {
    "tensor count "@ + decimal(n as nat) + " exceeds safety limit "@ + decimal(MAX_TENSORS as nat)
}

pub open spec fn msg_too_many_kvs(n: u64) -> Seq<char> {
    "metadata KV count "@ + decimal(n as nat) + " exceeds safety limit "@ + decimal(
        MAX_ARRAY_LEN as nat,
    )
}

/// `p` rounded up to a multiple of 32.
pub open spec fn align32(p: int) -> int {
    (p + 31) / 32 * 32
}

/// The header of a GGUF file of `fs` bytes whose first bytes are `b`.
pub open spec fn spec_parse_gguf(b: Seq<u8>, fs: int) -> Result<SpecGgufHeader, ParseFail> {
    if !fits(b, 0, 4) {
        Err(ParseFail::Eof)
    } else if le32(b, 0) != GGUF_MAGIC {
        Err(ParseFail::Format(msg_bad_magic(le32(b, 0))))
    } else if !fits(b, 0, 24) {
        Err(ParseFail::Eof)
    } else {
        let version = le32(b, 4);
        let tc = le64(b, 8);
        let kvc = le64(b, 16);
        if tc > MAX_TENSORS {
            Err(ParseFail::Format(msg_too_many_tensors(tc)))
        } else if kvc > MAX_ARRAY_LEN {
            Err(ParseFail::Format(msg_too_many_kvs(kvc)))
        } else {
            match spec_read_kvs(b, fs, 24, kvc as nat) {
                Err(f) => Err(f),
                Ok((ps, p1)) => match spec_read_tensors(b, fs, p1, tc as nat) {
                    Err(f) => Err(f),
                    Ok((ts, p2)) => Ok(
                        SpecGgufHeader {
                            version,
                            tensor_count: tc,
                            metadata: pairs_map(ps),
                            tensors: ts,
                            data_start: align32(p2) as u64,
                        },
                    ),
                },
            }
        }
    }
}

proof fn lemma_kvs_err_stays(b: Seq<u8>, fs: int, pos: int, n: nat, m: nat)
    requires
        n <= m,
        spec_read_kvs(b, fs, pos, n) is Err,
    ensures
        spec_read_kvs(b, fs, pos, m) == spec_read_kvs(b, fs, pos, n),
    decreases m,
{
    if m > n {
        lemma_kvs_err_stays(b, fs, pos, n, (m - 1) as nat);
    }
}

proof fn lemma_tensors_err_stays(b: Seq<u8>, fs: int, pos: int, n: nat, m: nat)
    requires
        n <= m,
        spec_read_tensors(b, fs, pos, n) is Err,
    ensures
        spec_read_tensors(b, fs, pos, m) == spec_read_tensors(b, fs, pos, n),
    decreases m,
{
    if m > n {
        lemma_tensors_err_stays(b, fs, pos, n, (m - 1) as nat);
    }
}

/// Reads `count` metadata key/value pairs starting at `pos` into `meta`.
fn read_kvs(b: &[u8], fs: u64, pos: usize, count: u64) -> (r: Result<(Metadata, usize), Error>)
    requires
        pos <= b@.len() <= fs,
    ensures
        match spec_read_kvs(b@, fs as int, pos as int, count as nat) {
            Ok((ps, p)) => r is Ok && r->Ok_0.0.map() == pairs_map(ps) && r->Ok_0.1 == p,
            Err(f) => r is Err && error_is(r->Err_0, f),
        },
        r is Ok ==> pos <= r->Ok_0.1 <= b@.len(),
{
    let mut meta = Metadata::new();
    let mut cur = pos;
    let mut i: u64 = 0;
    while i < count
        invariant
            pos <= cur <= b@.len() <= fs,
            i <= count,
            spec_read_kvs(b@, fs as int, pos as int, i as nat) matches Ok((ps, p)) && p == cur
                && meta.map() == pairs_map(ps),
        decreases count - i,
    {
        let ghost ps = spec_read_kvs(b@, fs as int, pos as int, i as nat)->Ok_0.0;
        let (key, p1) = match read_gguf_string(b, fs, cur) {
            Ok(x) => x,
            Err(e) => {
                proof {
                    lemma_kvs_err_stays(b@, fs as int, pos as int, (i + 1) as nat, count as nat);
                }
                return Err(e);
            },
        };
        let (value, p2) = match read_gguf_value(b, fs, p1) {
            Ok(x) => x,
            Err(e) => {
                proof {
                    lemma_kvs_err_stays(b@, fs as int, pos as int, (i + 1) as nat, count as nat);
                }
                return Err(e);
            },
        };
        let ghost kv = (key@, value@);
        meta.insert(key, value);
        proof {
            assert(ps.push(kv).drop_last() =~= ps);
        }
        cur = p2;
        i = i + 1;
    }
    Ok((meta, cur))
}

fn dims_error() -> (e: Error)
    ensures
        error_is(e, ParseFail::Format(msg_dims_out_of_file())),
{
    format_error("tensor dimensions exceed file bounds".to_owned())
}

/// Reads one tensor record at `pos`.
fn read_tensor(b: &[u8], fs: u64, pos: usize) -> (r: Result<(GgufTensorInfo, usize), Error>)
    requires
        pos <= b@.len() <= fs,
    ensures
        match spec_read_tensor(b@, fs as int, pos as int) {
            Ok((t, p)) => r is Ok && r->Ok_0.0@ == t && r->Ok_0.1 == p,
            Err(f) => r is Err && error_is(r->Err_0, f),
        },
        r is Ok ==> pos <= r->Ok_0.1 <= b@.len(),
{
    let n = b.len();
    let (name, p1) = match read_gguf_string(b, fs, pos) {
        Ok(x) => x,
        Err(e) => {
            return Err(e);
        },
    };
    if n - p1 < 4 {
        return Err(eof_error());
    }
    let n_dims = read_u32_le(b, p1);
    let p2 = p1 + 4;
    let remaining = (fs - p2 as u64) / 8;
    if n_dims as u64 > remaining {
        return Err(dims_error());
    }
    let avail = (n - p2) as u64;
    if 8 * (n_dims as u64) + 12 > avail {
        return Err(eof_error());
    }
    let mut dimensions: Vec<u64> = Vec::with_capacity(n_dims as usize);
    let mut j: u32 = 0;
    let mut cur = p2;
    while j < n_dims
        invariant
            p2 <= cur <= b@.len(),
            n == b@.len(),
            cur == p2 + 8 * j,
            j <= n_dims,
            p2 + 8 * n_dims + 12 <= b@.len(),
            dimensions@ =~= Seq::new(j as nat, |i: int| le64(b@, p2 + 8 * i)),
        decreases n_dims - j,
    {
        let d = read_u64_le(b, cur);
        dimensions.push(d);
        cur = cur + 8;
        j = j + 1;
    }
    let dtype = read_u32_le(b, cur);
    let offset = read_u64_le(b, cur + 4);
    let info = GgufTensorInfo { name, n_dims, dimensions, dtype, offset };
    Ok((info, cur + 12))
}

/// Reads `count` tensor records starting at `pos`.
fn read_tensors(b: &[u8], fs: u64, pos: usize, count: u64) -> (r: Result<
    (Vec<GgufTensorInfo>, usize),
    Error,
>)
    requires
        pos <= b@.len() <= fs,
        count <= MAX_TENSORS,
    ensures
        match spec_read_tensors(b@, fs as int, pos as int, count as nat) {
            Ok((ts, p)) => r is Ok && tensors_view(r->Ok_0.0@) == ts && r->Ok_0.1 == p,
            Err(f) => r is Err && error_is(r->Err_0, f),
        },
        r is Ok ==> pos <= r->Ok_0.1 <= b@.len(),
{
    let mut tensors: Vec<GgufTensorInfo> = Vec::with_capacity(count as usize);
    let mut cur = pos;
    let mut i: u64 = 0;
    while i < count
        invariant
            pos <= cur <= b@.len() <= fs,
            i <= count,
            spec_read_tensors(b@, fs as int, pos as int, i as nat) matches Ok((ts, p)) && p == cur
                && tensors_view(tensors@) == ts,
        decreases count - i,
    {
        let ghost ts = spec_read_tensors(b@, fs as int, pos as int, i as nat)->Ok_0.0;
        let (t, p) = match read_tensor(b, fs, cur) {
            Ok(x) => x,
            Err(e) => {
                proof {
                    lemma_tensors_err_stays(b@, fs as int, pos as int, (i + 1) as nat, count as nat);
                }
                return Err(e);
            },
        };
        tensors.push(t);
        proof {
            assert(tensors_view(tensors@) =~= ts.push(t@));
        }
        cur = p;
        i = i + 1;
    }
    Ok((tensors, cur))
}

fn bad_magic_error(magic: u32) -> (e: Error)
    ensures
        error_is(e, ParseFail::Format(msg_bad_magic(magic))),
{
    let mut m = "not a GGUF file (magic: ".to_owned();
    push_hex32(&mut m, magic);
    push_str(&mut m, ")");
    format_error(m)
}

fn too_many_tensors_error(n: u64) -> (e: Error)
    ensures
        error_is(e, ParseFail::Format(msg_too_many_tensors(n))),
{
    let mut m = "tensor count ".to_owned();
    push_decimal(&mut m, n);
    push_str(&mut m, " exceeds safety limit ");
    push_decimal(&mut m, MAX_TENSORS);
    format_error(m)
}

fn too_many_kvs_error(n: u64) -> (e: Error)
    ensures
        error_is(e, ParseFail::Format(msg_too_many_kvs(n))),
{
    let mut m = "metadata KV count ".to_owned();
    push_decimal(&mut m, n);
    push_str(&mut m, " exceeds safety limit ");
    push_decimal(&mut m, MAX_ARRAY_LEN);
    format_error(m)
}

impl GgufReader {
    /// Reads the header of the GGUF file at `path`, which is `file_size` bytes
    /// long and whose first bytes are `bytes`.
    ///
    /// Reading past the end of `bytes` fails as reading past the end of the
    /// file does; with the whole file in `bytes` the result is the file's.
    pub fn from_bytes(path: String, file_size: u64, bytes: &[u8]) -> (r: Result<GgufFile, Error>)
        requires
            bytes@.len() <= file_size <= u64::MAX - 31,
        ensures
            match spec_parse_gguf(bytes@, file_size as int) {
                Ok(h) => r is Ok && r->Ok_0.header() == h && r->Ok_0.path@ == path@
                    && r->Ok_0.file_size == file_size,
                Err(f) => r is Err && error_is(r->Err_0, f),
            },
    {
        let n = bytes.len();
        if n < 4 {
            return Err(eof_error());
        }
        let magic = read_u32_le(bytes, 0);
        if magic != GGUF_MAGIC {
            return Err(bad_magic_error(magic));
        }
        if n < 24 {
            return Err(eof_error());
        }
        let version = read_u32_le(bytes, 4);
        let tensor_count = read_u64_le(bytes, 8);
        let kv_count = read_u64_le(bytes, 16);
        if tensor_count > MAX_TENSORS {
            return Err(too_many_tensors_error(tensor_count));
        }
        if kv_count > MAX_ARRAY_LEN {
            return Err(too_many_kvs_error(kv_count));
        }
        let (metadata, p1) = match read_kvs(bytes, file_size, 24, kv_count) {
            Ok(x) => x,
            Err(e) => {
                return Err(e);
            },
        };
        let (tensors, p2) = match read_tensors(bytes, file_size, p1, tensor_count) {
            Ok(x) => x,
            Err(e) => {
                return Err(e);
            },
        };
        let pos = p2 as u64;
        let data_start = (pos + 31) / 32 * 32;
        Ok(GgufFile { path, file_size, version, tensor_count, metadata, tensors, data_start })
    }
}

} // verus!
