use vstd::prelude::*;
use crate::text::{decimal, push_decimal};
use vstd::string::StringSliceAdditionalSpecFns;

verus! {

/// The six-bit value of a base64 alphabet byte (`A-Z a-z 0-9 + /`).
pub open spec fn b64_value(c: u8) -> Option<u8> {
    if 65 <= c <= 90 {
        Some((c - 65) as u8)
    } else if 97 <= c <= 122 {
        Some((c - 97 + 26) as u8)
    } else if 48 <= c <= 57 {
        Some((c - 48 + 52) as u8)
    } else if c == 43 {
        Some(62u8)
    } else if c == 47 {
        Some(63u8)
    } else {
        None
    }
}

/// `bs` without its trailing `=` bytes.
pub open spec fn trim_padding(bs: Seq<u8>) -> Seq<u8>
    decreases bs.len(),
{
    if bs.len() > 0 && bs.last() == 61 {
        trim_padding(bs.drop_last())
    } else {
        bs
    }
}

/// Number of bytes that `n` six-bit values decode to (a trailing group of
/// one value gives nothing).
pub open spec fn decoded_len(n: nat) -> nat {
    (n / 4) * 3 + if n % 4 == 2 {
        1nat
    } else if n % 4 == 3 {
        2nat
    } else {
        0nat
    }
}

/// Byte `j` of the decoding of the six-bit values `v`: each group of four
/// values carries three bytes, most significant bits first.
pub open spec fn decoded_byte(v: Seq<u8>, j: int) -> u8 {
    let q = j / 3;
    let w = j % 3;
    if w == 0 {
        (v[4 * q] * 4 + v[4 * q + 1] / 16) as u8
    } else if w == 1 {
        ((v[4 * q + 1] % 16) * 16 + v[4 * q + 2] / 4) as u8
    } else {
        ((v[4 * q + 2] % 4) * 64 + v[4 * q + 3]) as u8
    }
}

/// The bytes that the six-bit values `v` encode.
pub open spec fn decode_values(v: Seq<u8>) -> Seq<u8> {
    Seq::new(decoded_len(v.len()), |j: int| decoded_byte(v, j))
}

/// All bytes of `bs` belong to the base64 alphabet.
pub open spec fn all_b64(bs: Seq<u8>) -> bool {
    forall|i: int| 0 <= i < bs.len() ==> b64_value(bs[i]) is Some
}

/// The first byte of `bs` outside the base64 alphabet.
pub open spec fn first_invalid(bs: Seq<u8>) -> int {
    choose|i: int| 0 <= i < bs.len() && b64_value(bs[i]) is None && forall|j: int| 0 <= j < i ==> b64_value(bs[j]) is Some
}

/// Standard base64 without padding checks: trailing `=` are dropped, every
/// other byte must be in the alphabet (else the error names the first one
/// that is not), and a final lone character contributes nothing.
pub open spec fn spec_decode_base64(bs: Seq<u8>) -> Result<Seq<u8>, u8> {
    let t = trim_padding(bs);
    if all_b64(t) {
        Ok(decode_values(Seq::new(t.len(), |i: int| b64_value(t[i])->0)))
    } else {
        Err(t[first_invalid(t)])
    }
}

/// The message of the error for an invalid byte.
pub open spec fn msg_invalid_b64(c: u8) -> Seq<char> {
    "invalid base64 char: "@ + decimal(c as nat)
}

fn b64_val(c: u8) -> (r: Option<u8>)
    ensures
        r == b64_value(c),
{
    if 65 <= c && c <= 90 {
        Some(c - 65)
    } else if 97 <= c && c <= 122 {
        Some(c - 97 + 26)
    } else if 48 <= c && c <= 57 {
        Some(c - 48 + 52)
    } else if c == 43 {
        Some(62)
    } else if c == 47 {
        Some(63)
    } else {
        None
    }
}

/// The length of `bs` without its trailing `=`.
fn unpadded_len(bs: &[u8]) -> (n: usize)
    ensures
        n <= bs@.len(),
        bs@.take(n as int) == trim_padding(bs@),
{
    let mut n = bs.len();
    assert(bs@.take(n as int) =~= bs@);
    while n > 0 && bs[n - 1] == 61
        invariant
            n <= bs@.len(),
            trim_padding(bs@.take(n as int)) == trim_padding(bs@),
        decreases n,
    {
        assert(bs@.take(n as int).drop_last() =~= bs@.take(n - 1));
        n = n - 1;
    }
    n
}

/// Decodes base64 text (a tiktoken rank file's token column).
pub fn decode_base64(input: &str) -> (r: Result<Vec<u8>, String>)
    ensures
        match spec_decode_base64(input.spec_bytes()) {
            Ok(out) => r is Ok && r->Ok_0@ == out,
            Err(c) => r is Err && r->Err_0@ == msg_invalid_b64(c),
        },
{
    let all = input.as_bytes();
    let n = unpadded_len(all);
    let ghost t = all@.take(n as int);
    let ghost vals = Seq::new(t.len(), |i: int| b64_value(t[i])->0);
    let mut result: Vec<u8> = Vec::with_capacity(n / 4 * 3 + 2);
    let mut buf: u32 = 0;
    let mut bits: u32 = 0;
    let mut i: usize = 0;
    while i < n
        invariant
            n <= all@.len(),
            t == all@.take(n as int),
            t == trim_padding(input.spec_bytes()),
            vals == Seq::new(t.len(), |k: int| b64_value(t[k])->0),
            i <= n,
            forall|k: int| 0 <= k < i ==> b64_value(t[k]) is Some,
            result@ == decode_values(vals.take(i as int)),
            i % 4 == 0 ==> bits == 0 && buf == 0,
            i % 4 == 1 ==> bits == 6 && buf == vals[i - 1] as u32,
            i % 4 == 2 ==> bits == 4 && buf == (vals[i - 1] % 16) as u32,
            i % 4 == 3 ==> bits == 2 && buf == (vals[i - 1] % 4) as u32,
        decreases n - i,
    {
        let c = all[i];
        let v = match b64_val(c) {
            Some(v) => v,
            None => {
                proof {
                    assert(t[i as int] == c);
                    assert(!all_b64(t));
                    assert(0 <= i < t.len() && b64_value(t[i as int]) is None && forall|j: int| 0 <= j < i ==> b64_value(t[j]) is Some);
                    let f = first_invalid(t);
                    assert(0 <= f < t.len() && b64_value(t[f]) is None);
                    if f < i {
                    } else if f > i {
                        assert(b64_value(t[i as int]) is None);
                    }
                    assert(f == i);
                    assert(trim_padding(input.spec_bytes()) == t);
                    assert(spec_decode_base64(input.spec_bytes()) == Err::<Seq<u8>, u8>(c));
                }
                let mut m = "invalid base64 char: ".to_owned();
                push_decimal(&mut m, c as u64);
                return Err(m);
            },
        };
        let ghost old_result = result@;
        let ghost old_buf = buf;
        assert(vals[i as int] == v);
        let vv = v as u32;
        assert(vv < 64);
        buf = (buf << 6u32) | vv;
        bits = bits + 6;
        if bits >= 8 {
            bits = bits - 8;
            let byte = (buf >> bits) as u8;
            result.push(byte);
            let mask: u32 = if bits == 4 {
                15
            } else if bits == 2 {
                3
            } else {
                0
            };
            buf = buf & mask;
            proof {
                let r = i % 4;
                let p = vals[i - 1] as u32;
                if r == 1 {
                    assert(bits == 4);
                    assert(((old_buf << 6u32) | vv) >> 4u32 == p * 4 + vv / 16) by (bit_vector)
                        requires
                            old_buf == p,
                            p < 64,
                            vv < 64,
                    ;
                    assert((((old_buf << 6u32) | vv) & 15u32) == vv % 16) by (bit_vector)
                        requires
                            old_buf == p,
                            p < 64,
                            vv < 64,
                    ;
                } else if r == 2 {
                    assert(bits == 2);
                    assert(((old_buf << 6u32) | vv) >> 2u32 == (p % 16) * 16 + vv / 4) by (bit_vector)
                        requires
                            old_buf == p % 16,
                            p < 64,
                            vv < 64,
                    ;
                    assert((((old_buf << 6u32) | vv) & 3u32) == vv % 4) by (bit_vector)
                        requires
                            old_buf == p % 16,
                            p < 64,
                            vv < 64,
                    ;
                } else {
                    assert(bits == 0);
                    assert(((old_buf << 6u32) | vv) >> 0u32 == (p % 4) * 64 + vv) by (bit_vector)
                        requires
                            old_buf == p % 4,
                            p < 64,
                            vv < 64,
                    ;
                    assert((((old_buf << 6u32) | vv) & 0u32) == 0) by (bit_vector);
                }
                assert(decode_values(vals.take(i + 1)) =~= old_result.push(byte));
            }
        } else {
            proof {
                assert(old_buf == 0);
                assert(((0u32 << 6u32) | vv) == vv) by (bit_vector);
                assert(decode_values(vals.take(i + 1)) =~= old_result);
            }
        }
        i = i + 1;
    }
    proof {
        assert(vals.take(n as int) =~= vals);
        assert(all_b64(t));
    }
    Ok(result)
}

} // verus!
