use vstd::prelude::*;
use vstd::utf8::{decode_utf8_encode_utf8, encode_utf8};
use crate::gguf::{pairs_map, SpecGgufValue, MAX_ARRAY_LEN, MAX_STRING_LEN, MAX_TENSORS};
use crate::bytes::{ParseFail, SpecRead};
use crate::gguf_parse::{
    align32, prepend, spec_parse_gguf, spec_read_items, spec_read_kvs, spec_read_string, spec_read_tensor,
    spec_read_tensors, spec_read_typed, spec_read_value,
};

verus! {

/// A string whose UTF-8 encoding fits the reader's string limit.
pub open spec fn string_within_limit(s: Seq<char>) -> bool {
    encode_utf8(s).len() <= MAX_STRING_LEN
}

/// A value whose strings fit the string limit and whose arrays, at every
/// depth, fit the array limit.
pub open spec fn value_within_limits(v: SpecGgufValue) -> bool
    decreases v, 0int,
{
    match v {
        SpecGgufValue::String(s) => string_within_limit(s),
        SpecGgufValue::Array(vs) => vs.len() <= MAX_ARRAY_LEN && all_within_limits(vs, vs.len() as int),
        _ => true,
    }
}

/// The first `n` values are within the limits.
pub open spec fn all_within_limits(vs: Seq<SpecGgufValue>, n: int) -> bool
    decreases vs, n,
{
    if n <= 0 || n > vs.len() {
        true
    } else {
        value_within_limits(vs[n - 1]) && all_within_limits(vs, n - 1)
    }
}

proof fn lemma_all_within_limits(vs: Seq<SpecGgufValue>, n: int)
    requires
        0 <= n <= vs.len(),
    ensures
        all_within_limits(vs, n) <==> forall|i: int| 0 <= i < n ==> #[trigger] value_within_limits(vs[i]),
    decreases n,
{
    if n > 0 {
        lemma_all_within_limits(vs, n - 1);
        assert(all_within_limits(vs, n) == (value_within_limits(vs[n - 1]) && all_within_limits(vs, n - 1)));
        if forall|i: int| 0 <= i < n ==> #[trigger] value_within_limits(vs[i]) {
            assert(value_within_limits(vs[n - 1]));
        }
    }
}

proof fn lemma_string_limit(b: Seq<u8>, fs: int, pos: int)
    requires
        spec_read_string(b, fs, pos) is Ok,
    ensures
        string_within_limit(spec_read_string(b, fs, pos)->Ok_0.0),
        pos < spec_read_string(b, fs, pos)->Ok_0.1 <= b.len(),
{
    let len = crate::bytes::le64(b, pos);
    let raw = b.subrange(pos + 8, pos + 8 + len);
    decode_utf8_encode_utf8(raw);
}

proof fn lemma_typed_limits(b: Seq<u8>, fs: int, pos: int, tag: u32)
    requires
        spec_read_typed(b, fs, pos, tag) is Ok,
    ensures
        value_within_limits(spec_read_typed(b, fs, pos, tag)->Ok_0.0),
        pos < spec_read_typed(b, fs, pos, tag)->Ok_0.1 <= b.len(),
    decreases b.len() - pos, 0int,
{
    if tag == 8 {
        lemma_string_limit(b, fs, pos);
    } else if tag == 9 || tag == 13 {
        let et = crate::bytes::le32(b, pos);
        let count = crate::bytes::le64(b, pos + 4);
        lemma_items_limits(b, fs, pos + 12, et, count as nat);
        let vs = spec_read_items(b, fs, pos + 12, et, count as nat)->Ok_0.0;
        assert(spec_read_typed(b, fs, pos, tag)->Ok_0.0 == SpecGgufValue::Array(vs));
        assert(vs.len() <= MAX_ARRAY_LEN);
        assert(forall|i: int| 0 <= i < vs.len() ==> #[trigger] value_within_limits(vs[i]));
        lemma_all_within_limits(vs, vs.len() as int);
        assert(value_within_limits(SpecGgufValue::Array(vs)));
    }
}

proof fn lemma_items_limits(b: Seq<u8>, fs: int, pos: int, tag: u32, count: nat)
    requires
        spec_read_items(b, fs, pos, tag, count) is Ok,
    ensures
        spec_read_items(b, fs, pos, tag, count)->Ok_0.0.len() == count,
        forall|i: int| 0 <= i < count ==> #[trigger] value_within_limits(
            spec_read_items(b, fs, pos, tag, count)->Ok_0.0[i],
        ),
        pos <= spec_read_items(b, fs, pos, tag, count)->Ok_0.1 <= b.len(),
    decreases b.len() - pos, count + 1,
{
    if count > 0 {
        lemma_typed_limits(b, fs, pos, tag);
        let (v, p1) = spec_read_typed(b, fs, pos, tag)->Ok_0;
        lemma_items_limits(b, fs, p1, tag, (count - 1) as nat);
        let rest = spec_read_items(b, fs, p1, tag, (count - 1) as nat)->Ok_0.0;
        let vs = spec_read_items(b, fs, pos, tag, count)->Ok_0.0;
        assert(vs == seq![v] + rest);
        assert forall|i: int| 0 <= i < count implies #[trigger] value_within_limits(vs[i]) by {
            if i > 0 {
                assert(vs[i] == rest[i - 1]);
            }
        }
    }
}

proof fn lemma_value_limits(b: Seq<u8>, fs: int, pos: int)
    requires
        spec_read_value(b, fs, pos) is Ok,
    ensures
        value_within_limits(spec_read_value(b, fs, pos)->Ok_0.0),
        pos < spec_read_value(b, fs, pos)->Ok_0.1 <= b.len(),
{
    let tag = crate::bytes::le32(b, pos);
    let q = pos + 4;
    if tag == 9 || tag == 13 {
        let et = crate::bytes::le32(b, q);
        let count = crate::bytes::le64(b, q + 4);
        lemma_items_limits(b, fs, q + 12, et, count as nat);
        let vs = spec_read_items(b, fs, q + 12, et, count as nat)->Ok_0.0;
        assert(spec_read_value(b, fs, pos)->Ok_0.0 == SpecGgufValue::Array(vs));
        assert(vs.len() <= MAX_ARRAY_LEN);
        assert(forall|i: int| 0 <= i < vs.len() ==> #[trigger] value_within_limits(vs[i]));
        lemma_all_within_limits(vs, vs.len() as int);
        assert(value_within_limits(SpecGgufValue::Array(vs)));
    } else {
        lemma_typed_limits(b, fs, q, tag);
    }
}

proof fn lemma_kvs_limits(b: Seq<u8>, fs: int, pos: int, count: nat)
    requires
        0 <= pos <= b.len(),
        spec_read_kvs(b, fs, pos, count) is Ok,
    ensures
        spec_read_kvs(b, fs, pos, count)->Ok_0.0.len() == count,
        forall|i: int| 0 <= i < count ==> {
            let kv = #[trigger] spec_read_kvs(b, fs, pos, count)->Ok_0.0[i];
            string_within_limit(kv.0) && value_within_limits(kv.1)
        },
        pos <= spec_read_kvs(b, fs, pos, count)->Ok_0.1 <= b.len(),
    decreases count,
{
    if count > 0 {
        lemma_kvs_limits(b, fs, pos, (count - 1) as nat);
        let (ps, p) = spec_read_kvs(b, fs, pos, (count - 1) as nat)->Ok_0;
        lemma_string_limit(b, fs, p);
        let (k, p1) = spec_read_string(b, fs, p)->Ok_0;
        lemma_value_limits(b, fs, p1);
        let all = spec_read_kvs(b, fs, pos, count)->Ok_0.0;
        assert forall|i: int| 0 <= i < count implies {
            let kv = #[trigger] all[i];
            string_within_limit(kv.0) && value_within_limits(kv.1)
        } by {
            if i < count - 1 {
                assert(all[i] == ps[i]);
            }
        }
    }
}

proof fn lemma_tensors_limits(b: Seq<u8>, fs: int, pos: int, count: nat)
    requires
        0 <= pos <= b.len(),
        spec_read_tensors(b, fs, pos, count) is Ok,
    ensures
        spec_read_tensors(b, fs, pos, count)->Ok_0.0.len() == count,
        forall|i: int| 0 <= i < count ==> #[trigger] string_within_limit(
            spec_read_tensors(b, fs, pos, count)->Ok_0.0[i].name,
        ),
        pos <= spec_read_tensors(b, fs, pos, count)->Ok_0.1 <= b.len(),
    decreases count,
{
    if count > 0 {
        lemma_tensors_limits(b, fs, pos, (count - 1) as nat);
        let (ts, p) = spec_read_tensors(b, fs, pos, (count - 1) as nat)->Ok_0;
        lemma_string_limit(b, fs, p);
        let all = spec_read_tensors(b, fs, pos, count)->Ok_0.0;
        assert(all.last().name == spec_read_string(b, fs, p)->Ok_0.0);
        assert forall|i: int| 0 <= i < count implies #[trigger] string_within_limit(all[i].name) by {
            if i < count - 1 {
                assert(all[i] == ts[i]);
            }
        }
    }
}

/// The keys of the map of a pair list are the keys of its pairs, each with
/// the value of one of its pairs, and there are no more of them than pairs.
proof fn lemma_pairs_map_from(ps: Seq<(Seq<char>, SpecGgufValue)>)
    ensures
        pairs_map(ps).dom().finite(),
        pairs_map(ps).dom().len() <= ps.len(),
        forall|k: Seq<char>| #[trigger] pairs_map(ps).contains_key(k) ==> exists|i: int|
            0 <= i < ps.len() && ps[i].0 == k && ps[i].1 == pairs_map(ps)[k],
    decreases ps.len(),
{
    if ps.len() > 0 {
        let q = ps.drop_last();
        lemma_pairs_map_from(q);
        assert forall|k: Seq<char>| #[trigger] pairs_map(ps).contains_key(k) implies exists|i: int|
            0 <= i < ps.len() && ps[i].0 == k && ps[i].1 == pairs_map(ps)[k] by {
            if k == ps.last().0 {
                assert(ps[ps.len() - 1].0 == k);
            } else {
                assert(pairs_map(q).contains_key(k));
                let i = choose|i: int| 0 <= i < q.len() && q[i].0 == k && q[i].1 == pairs_map(q)[k];
                assert(ps[i] == q[i]);
            }
        }
        assert(pairs_map(ps).dom() == pairs_map(q).dom().insert(ps.last().0));
    } else {
        assert(pairs_map(ps).dom() =~= Set::<Seq<char>>::empty());
    }
}

/// The safety limits of the GGUF reader hold of every header it accepts: at
/// most 100,000 tensors and metadata keys, every string at most 1 MiB of
/// UTF-8, every array (at any depth) at most 100,000 elements, and a data
/// section that starts on a 32-byte boundary after the fixed header.
pub proof fn lemma_header_within_limits(b: Seq<u8>, fs: int)
    requires
        spec_parse_gguf(b, fs) is Ok,
        b.len() <= fs <= u64::MAX - 31,
    ensures
        ({
            let h = spec_parse_gguf(b, fs)->Ok_0;
            &&& h.tensor_count <= MAX_TENSORS
            &&& h.tensors.len() == h.tensor_count
            &&& h.metadata.dom().finite()
            &&& h.metadata.dom().len() <= MAX_ARRAY_LEN
            &&& forall|k: Seq<char>| #[trigger] h.metadata.contains_key(k) ==> string_within_limit(k)
                && value_within_limits(h.metadata[k])
            &&& forall|i: int| 0 <= i < h.tensors.len() ==> #[trigger] string_within_limit(h.tensors[i].name)
            &&& h.data_start % 32 == 0
            &&& 24 <= h.data_start
        }),
{
    let kvc = crate::bytes::le64(b, 16);
    let tc = crate::bytes::le64(b, 8);
    lemma_kvs_limits(b, fs, 24, kvc as nat);
    let (ps, p1) = spec_read_kvs(b, fs, 24, kvc as nat)->Ok_0;
    lemma_tensors_limits(b, fs, p1, tc as nat);
    let (ts, p2) = spec_read_tensors(b, fs, p1, tc as nat)->Ok_0;
    lemma_pairs_map_from(ps);
    let h = spec_parse_gguf(b, fs)->Ok_0;
    assert forall|k: Seq<char>| #[trigger] h.metadata.contains_key(k) implies string_within_limit(k)
        && value_within_limits(h.metadata[k]) by {
        let i = choose|i: int| 0 <= i < ps.len() && ps[i].0 == k && ps[i].1 == pairs_map(ps)[k];
        let kv = ps[i];
        assert(string_within_limit(kv.0) && value_within_limits(kv.1));
    }
    assert(align32(p2) % 32 == 0 && align32(p2) >= p2) by (nonlinear_arith)
        requires
            p2 >= 0,
    ;
    assert(align32(p2) <= p2 + 31) by (nonlinear_arith)
        requires
            p2 >= 0,
    ;
}

/// A read that did not stop for want of bytes.
pub open spec fn not_eof<T>(r: SpecRead<T>) -> bool {
    !(r matches Err(ParseFail::Eof))
}

/// `b2` begins with the bytes of `b1`.
pub open spec fn agrees(b1: Seq<u8>, b2: Seq<u8>) -> bool {
    &&& b1.len() <= b2.len()
    &&& forall|i: int| 0 <= i < b1.len() ==> #[trigger] b1[i] == b2[i]
}

proof fn lemma_string_prefix(b1: Seq<u8>, b2: Seq<u8>, fs: int, pos: int)
    requires
        agrees(b1, b2),
        not_eof(spec_read_string(b1, fs, pos)),
    ensures
        spec_read_string(b2, fs, pos) == spec_read_string(b1, fs, pos),
{
    let len = crate::bytes::le64(b1, pos);
    assert(crate::bytes::le64(b2, pos) == len);
    if len <= MAX_STRING_LEN && pos + 8 + len <= fs && crate::bytes::fits(b1, pos + 8, len as int) {
        assert(b1.subrange(pos + 8, pos + 8 + len) =~= b2.subrange(pos + 8, pos + 8 + len));
    }
}

proof fn lemma_typed_prefix(b1: Seq<u8>, b2: Seq<u8>, fs: int, pos: int, tag: u32)
    requires
        agrees(b1, b2),
        not_eof(spec_read_typed(b1, fs, pos, tag)),
    ensures
        spec_read_typed(b2, fs, pos, tag) == spec_read_typed(b1, fs, pos, tag),
    decreases b1.len() - pos, 0int,
{
    if tag == 8 {
        lemma_string_prefix(b1, b2, fs, pos);
    } else if tag == 9 || tag == 13 {
        let et = crate::bytes::le32(b1, pos);
        let count = crate::bytes::le64(b1, pos + 4);
        assert(crate::bytes::le32(b2, pos) == et);
        assert(crate::bytes::le64(b2, pos + 4) == count);
        if count <= MAX_ARRAY_LEN {
            lemma_items_prefix(b1, b2, fs, pos + 12, et, count as nat);
        }
    } else if tag == 0 || tag == 1 || tag == 7 {
        assert(b1[pos] == b2[pos]);
    } else if tag == 2 || tag == 3 {
        assert(crate::bytes::le16(b1, pos) == crate::bytes::le16(b2, pos));
    } else if tag == 4 || tag == 5 || tag == 6 {
        assert(crate::bytes::le32(b1, pos) == crate::bytes::le32(b2, pos));
    } else if tag == 10 || tag == 11 || tag == 12 {
        assert(crate::bytes::le64(b1, pos) == crate::bytes::le64(b2, pos));
    }
}

proof fn lemma_items_prefix(b1: Seq<u8>, b2: Seq<u8>, fs: int, pos: int, tag: u32, count: nat)
    requires
        agrees(b1, b2),
        not_eof(spec_read_items(b1, fs, pos, tag, count)),
    ensures
        spec_read_items(b2, fs, pos, tag, count) == spec_read_items(b1, fs, pos, tag, count),
    decreases b1.len() - pos, count + 1,
{
    if count > 0 {
        lemma_typed_prefix(b1, b2, fs, pos, tag);
        match spec_read_typed(b1, fs, pos, tag) {
            Ok((v, p1)) => {
                if pos < p1 <= b1.len() {
                    lemma_items_prefix(b1, b2, fs, p1, tag, (count - 1) as nat);
                }
            },
            Err(_) => {},
        }
    }
}

proof fn lemma_value_prefix(b1: Seq<u8>, b2: Seq<u8>, fs: int, pos: int)
    requires
        agrees(b1, b2),
        not_eof(spec_read_value(b1, fs, pos)),
    ensures
        spec_read_value(b2, fs, pos) == spec_read_value(b1, fs, pos),
{
    let tag = crate::bytes::le32(b1, pos);
    assert(crate::bytes::le32(b2, pos) == tag);
    let q = pos + 4;
    if tag == 9 || tag == 13 {
        let et = crate::bytes::le32(b1, q);
        let count = crate::bytes::le64(b1, q + 4);
        assert(crate::bytes::le32(b2, q) == et);
        assert(crate::bytes::le64(b2, q + 4) == count);
        if count <= MAX_ARRAY_LEN {
            lemma_items_prefix(b1, b2, fs, q + 12, et, count as nat);
        }
    } else if tag <= 12 {
        lemma_typed_prefix(b1, b2, fs, q, tag);
    }
}

proof fn lemma_kvs_prefix(b1: Seq<u8>, b2: Seq<u8>, fs: int, pos: int, count: nat)
    requires
        agrees(b1, b2),
        not_eof(spec_read_kvs(b1, fs, pos, count)),
    ensures
        spec_read_kvs(b2, fs, pos, count) == spec_read_kvs(b1, fs, pos, count),
    decreases count,
{
    if count > 0 {
        lemma_kvs_prefix(b1, b2, fs, pos, (count - 1) as nat);
        match spec_read_kvs(b1, fs, pos, (count - 1) as nat) {
            Ok((ps, p)) => {
                lemma_string_prefix(b1, b2, fs, p);
                match spec_read_string(b1, fs, p) {
                    Ok((k, p1)) => {
                        lemma_value_prefix(b1, b2, fs, p1);
                    },
                    Err(_) => {},
                }
            },
            Err(_) => {},
        }
    }
}

proof fn lemma_tensor_prefix(b1: Seq<u8>, b2: Seq<u8>, fs: int, pos: int)
    requires
        agrees(b1, b2),
        not_eof(spec_read_tensor(b1, fs, pos)),
    ensures
        spec_read_tensor(b2, fs, pos) == spec_read_tensor(b1, fs, pos),
{
    lemma_string_prefix(b1, b2, fs, pos);
    match spec_read_string(b1, fs, pos) {
        Ok((name, p1)) => {
            if crate::bytes::fits(b1, p1, 4) {
                let nd = crate::bytes::le32(b1, p1);
                assert(crate::bytes::le32(b2, p1) == nd);
                let p2 = p1 + 4;
                if nd <= (fs - p2) / 8 && crate::bytes::fits(b1, p2, 8 * nd + 12) {
                    let p3 = p2 + 8 * nd;
                    assert(crate::bytes::le32(b1, p3) == crate::bytes::le32(b2, p3));
                    assert(crate::bytes::le64(b1, p3 + 4) == crate::bytes::le64(b2, p3 + 4));
                    let d1 = Seq::new(nd as nat, |i: int| crate::bytes::le64(b1, p2 + 8 * i));
                    let d2 = Seq::new(nd as nat, |i: int| crate::bytes::le64(b2, p2 + 8 * i));
                    assert forall|i: int| 0 <= i < nd implies d1[i] == d2[i] by {
                        assert(crate::bytes::le64(b1, p2 + 8 * i) == crate::bytes::le64(b2, p2 + 8 * i));
                    }
                    assert(d1 =~= d2);
                }
            }
        },
        Err(_) => {},
    }
}

proof fn lemma_tensors_prefix(b1: Seq<u8>, b2: Seq<u8>, fs: int, pos: int, count: nat)
    requires
        agrees(b1, b2),
        not_eof(spec_read_tensors(b1, fs, pos, count)),
    ensures
        spec_read_tensors(b2, fs, pos, count) == spec_read_tensors(b1, fs, pos, count),
    decreases count,
{
    if count > 0 {
        lemma_tensors_prefix(b1, b2, fs, pos, (count - 1) as nat);
        match spec_read_tensors(b1, fs, pos, (count - 1) as nat) {
            Ok((ts, p)) => {
                lemma_tensor_prefix(b1, b2, fs, p);
            },
            Err(_) => {},
        }
    }
}

/// Reading more of a file does not change a header that was read, nor a
/// format error that was found: once a read of the first bytes of a file
/// does not stop for want of bytes, any longer run of the file's first bytes
/// reads the same.
pub proof fn lemma_parse_prefix(b1: Seq<u8>, b2: Seq<u8>, fs: int)
    requires
        b1.len() <= b2.len(),
        b2.take(b1.len() as int) == b1,
        !(spec_parse_gguf(b1, fs) matches Err(ParseFail::Eof)),
    ensures
        spec_parse_gguf(b2, fs) == spec_parse_gguf(b1, fs),
{
    assert forall|i: int| 0 <= i < b1.len() implies #[trigger] b1[i] == b2[i] by {
        assert(b2.take(b1.len() as int)[i] == b2[i]);
    }
    assert(agrees(b1, b2));
    if crate::bytes::fits(b1, 0, 4) {
        assert(crate::bytes::le32(b1, 0) == crate::bytes::le32(b2, 0));
        if crate::bytes::fits(b1, 0, 24) {
            assert(crate::bytes::le32(b1, 4) == crate::bytes::le32(b2, 4));
            let tc = crate::bytes::le64(b1, 8);
            let kvc = crate::bytes::le64(b1, 16);
            assert(crate::bytes::le64(b2, 8) == tc);
            assert(crate::bytes::le64(b2, 16) == kvc);
            if tc <= MAX_TENSORS && kvc <= MAX_ARRAY_LEN && crate::bytes::le32(b1, 0) == crate::gguf::GGUF_MAGIC {
                lemma_kvs_prefix(b1, b2, fs, 24, kvc as nat);
                match spec_read_kvs(b1, fs, 24, kvc as nat) {
                    Ok((ps, p1)) => {
                        lemma_tensors_prefix(b1, b2, fs, p1, tc as nat);
                    },
                    Err(_) => {},
                }
            }
        }
    }
}


// ---------------------------------------------------------------------------
// Reading is the same wherever the bytes stand: dropping the first `k` bytes
// of the buffer, and as many from the file size, moves every position back
// by `k` and changes nothing else.
// ---------------------------------------------------------------------------

/// The read `r`, with its end position moved by `k`.
pub open spec fn shift_read<T>(r: SpecRead<T>, k: int) -> SpecRead<T> {
    match r {
        Ok((v, p)) => Ok((v, p + k)),
        Err(f) => Err(f),
    }
}

/// The buffer `b` without its first `k` bytes.
pub open spec fn drop_front(b: Seq<u8>, k: int) -> Seq<u8> {
    b.subrange(k, b.len() as int)
}

proof fn lemma_drop_bytes(b: Seq<u8>, k: int, pos: int, n: int)
    requires
        0 <= k <= pos,
        crate::bytes::fits(b, pos, n),
    ensures
        crate::bytes::fits(drop_front(b, k), pos - k, n),
        forall|i: int| 0 <= i < n ==> #[trigger] drop_front(b, k)[pos - k + i] == b[pos + i],
{
}

proof fn lemma_string_shift(b: Seq<u8>, fs: int, pos: int, k: int)
    requires
        0 <= k <= pos,
        k <= b.len(),
    ensures
        spec_read_string(b, fs, pos) == shift_read(spec_read_string(drop_front(b, k), fs - k, pos - k), k),
{
    let s = drop_front(b, k);
    if crate::bytes::fits(b, pos, 8) {
        lemma_drop_bytes(b, k, pos, 8);
        assert(s[pos - k + 0] == b[pos + 0]);
        assert(s[pos - k + 1] == b[pos + 1]);
        assert(s[pos - k + 2] == b[pos + 2]);
        assert(s[pos - k + 3] == b[pos + 3]);
        assert(s[pos - k + 4] == b[pos + 4]);
        assert(s[pos - k + 5] == b[pos + 5]);
        assert(s[pos - k + 6] == b[pos + 6]);
        assert(s[pos - k + 7] == b[pos + 7]);
        let len = crate::bytes::le64(b, pos);
        assert(crate::bytes::le64(s, pos - k) == len);
        if crate::bytes::fits(b, pos + 8, len as int) {
            assert(b.subrange(pos + 8, pos + 8 + len) =~= s.subrange(pos - k + 8, pos - k + 8 + len));
        }
    }
}

proof fn lemma_typed_shift(b: Seq<u8>, fs: int, pos: int, tag: u32, k: int)
    requires
        0 <= k <= pos,
        k <= b.len(),
    ensures
        spec_read_typed(b, fs, pos, tag) == shift_read(spec_read_typed(drop_front(b, k), fs - k, pos - k, tag), k),
    decreases b.len() - pos, 0int,
{
    let s = drop_front(b, k);
    if tag == 8 {
        lemma_string_shift(b, fs, pos, k);
    } else if tag == 9 || tag == 13 {
        if crate::bytes::fits(b, pos, 12) {
            lemma_drop_bytes(b, k, pos, 12);
            assert(s[pos - k + 0] == b[pos + 0]);
            assert(s[pos - k + 1] == b[pos + 1]);
            assert(s[pos - k + 2] == b[pos + 2]);
            assert(s[pos - k + 3] == b[pos + 3]);
            assert(s[pos - k + 4] == b[pos + 4]);
            assert(s[pos - k + 5] == b[pos + 5]);
            assert(s[pos - k + 6] == b[pos + 6]);
            assert(s[pos - k + 7] == b[pos + 7]);
            assert(s[pos - k + 8] == b[pos + 8]);
            assert(s[pos - k + 9] == b[pos + 9]);
            assert(s[pos - k + 10] == b[pos + 10]);
            assert(s[pos - k + 11] == b[pos + 11]);
            let et = crate::bytes::le32(b, pos);
            let count = crate::bytes::le64(b, pos + 4);
            assert(crate::bytes::le32(s, pos - k) == et);
            assert(crate::bytes::le64(s, pos - k + 4) == count);
            if count <= MAX_ARRAY_LEN {
                lemma_items_shift(b, fs, pos + 12, et, count as nat, k);
            }
        }
    } else if tag == 0 || tag == 1 || tag == 7 {
        if crate::bytes::fits(b, pos, 1) {
            lemma_drop_bytes(b, k, pos, 1);
            assert(s[pos - k + 0] == b[pos + 0]);
        }
    } else if tag == 2 || tag == 3 {
        if crate::bytes::fits(b, pos, 2) {
            lemma_drop_bytes(b, k, pos, 2);
            assert(s[pos - k + 0] == b[pos + 0]);
            assert(s[pos - k + 1] == b[pos + 1]);
        }
    } else if tag == 4 || tag == 5 || tag == 6 {
        if crate::bytes::fits(b, pos, 4) {
            lemma_drop_bytes(b, k, pos, 4);
            assert(s[pos - k + 0] == b[pos + 0]);
            assert(s[pos - k + 1] == b[pos + 1]);
            assert(s[pos - k + 2] == b[pos + 2]);
            assert(s[pos - k + 3] == b[pos + 3]);
        }
    } else if tag == 10 || tag == 11 || tag == 12 {
        if crate::bytes::fits(b, pos, 8) {
            lemma_drop_bytes(b, k, pos, 8);
            assert(s[pos - k + 0] == b[pos + 0]);
            assert(s[pos - k + 1] == b[pos + 1]);
            assert(s[pos - k + 2] == b[pos + 2]);
            assert(s[pos - k + 3] == b[pos + 3]);
            assert(s[pos - k + 4] == b[pos + 4]);
            assert(s[pos - k + 5] == b[pos + 5]);
            assert(s[pos - k + 6] == b[pos + 6]);
            assert(s[pos - k + 7] == b[pos + 7]);
        }
    }
}

proof fn lemma_items_shift(b: Seq<u8>, fs: int, pos: int, tag: u32, count: nat, k: int)
    requires
        0 <= k <= pos,
        k <= b.len(),
    ensures
        spec_read_items(b, fs, pos, tag, count) == shift_read(
            spec_read_items(drop_front(b, k), fs - k, pos - k, tag, count),
            k,
        ),
    decreases b.len() - pos, count + 1,
{
    let s = drop_front(b, k);
    if pos <= b.len() && count > 0 {
        lemma_typed_shift(b, fs, pos, tag, k);
        match spec_read_typed(b, fs, pos, tag) {
            Ok((v, p1)) => {
                if pos < p1 <= b.len() {
                    lemma_items_shift(b, fs, p1, tag, (count - 1) as nat, k);
                    let rest = spec_read_items(s, fs - k, p1 - k, tag, (count - 1) as nat);
                    assert(prepend(seq![v], shift_read(rest, k)) == shift_read(prepend(seq![v], rest), k));
                }
            },
            Err(_) => {},
        }
    }
}

/// A tagged value at `pos` reads as its type tag followed by an element of
/// that type: for every tag up to 12, reading the value gives what reading
/// the payload alone gives, from a buffer and a file that start right after
/// the tag, with positions moved by the bytes dropped. Both reads succeed
/// together, with the same value; apart from the array-length message, which
/// names a top-level or a nested array, they fail alike too.
pub proof fn lemma_value_is_tag_then_payload(b: Seq<u8>, fs: int, pos: int)
    requires
        crate::bytes::fits(b, pos, 4),
        crate::bytes::le32(b, pos) <= 12,
    ensures
        ({
            let tag = crate::bytes::le32(b, pos);
            let r1 = spec_read_value(b, fs, pos);
            let r2 = spec_read_typed(drop_front(b, pos + 4), fs - (pos + 4), 0, tag);
            &&& (r1 is Ok <==> r2 is Ok)
            &&& r1 is Ok ==> r1->Ok_0.0 == r2->Ok_0.0 && r1->Ok_0.1 == r2->Ok_0.1 + pos + 4
            &&& tag != 9 ==> r1 == shift_read(r2, pos + 4)
        }),
{
    let tag = crate::bytes::le32(b, pos);
    let q = pos + 4;
    lemma_typed_shift(b, fs, q, tag, q);
    if tag == 9 {
        if crate::bytes::fits(b, q, 12) {
            let count = crate::bytes::le64(b, q + 4);
            let et = crate::bytes::le32(b, q);
            if count <= MAX_ARRAY_LEN {
                assert(spec_read_value(b, fs, pos) == spec_read_typed(b, fs, q, tag));
            }
        }
    }
}


/// The number that the four bytes at `pos` spell, least significant first.
pub open spec fn four_bytes(b: Seq<u8>, pos: int) -> int {
    b[pos] as int + 256 * (b[pos + 1] as int) + 65536 * (b[pos + 2] as int) + 16777216 * (b[pos + 3] as int)
}

/// The number that the eight bytes at `pos` spell, least significant first.
pub open spec fn eight_bytes(b: Seq<u8>, pos: int) -> int {
    four_bytes(b, pos) + 4294967296 * four_bytes(b, pos + 4)
}

/// An element of a scalar type is read from the bytes at `pos` in the
/// width of its type, little-endian, as a value of that type: tag 0 an
/// unsigned and tag 1 a signed byte, tag 2 an unsigned and tag 3 a signed
/// 16-bit integer, tag 4 an unsigned and tag 5 a signed 32-bit integer,
/// tag 6 the bits of a single, tag 7 a boolean (true unless zero), tag 10 an
/// unsigned and tag 11 a signed 64-bit integer, tag 12 the bits of a double;
/// the signed integers are the two's-complement readings of those bytes.
/// Where the bytes end first, the read runs out of input.
pub proof fn lemma_scalar_elements(b: Seq<u8>, fs: int, pos: int)
    requires
        0 <= pos,
    ensures
        pos + 1 <= b.len() ==> spec_read_typed(b, fs, pos, 0) == Ok::<(SpecGgufValue, int), ParseFail>((SpecGgufValue::Uint8(b[pos]), pos + 1)),
        pos + 1 <= b.len() ==> (spec_read_typed(b, fs, pos, 1) matches Ok((SpecGgufValue::Int8(x), p))
            && p == pos + 1 && x as u8 == b[pos]),
        pos + 1 <= b.len() ==> spec_read_typed(b, fs, pos, 7) == Ok::<(SpecGgufValue, int), ParseFail>((SpecGgufValue::Bool(b[pos] != 0), pos + 1)),
        pos + 2 <= b.len() ==> (spec_read_typed(b, fs, pos, 2) matches Ok((SpecGgufValue::Uint16(x), p))
            && p == pos + 2 && x as int == b[pos] as int + 256 * (b[pos + 1] as int)),
        pos + 2 <= b.len() ==> (spec_read_typed(b, fs, pos, 3) matches Ok((SpecGgufValue::Int16(x), p))
            && p == pos + 2 && (x as u16) as int == b[pos] as int + 256 * (b[pos + 1] as int)),
        pos + 4 <= b.len() ==> (spec_read_typed(b, fs, pos, 4) matches Ok((SpecGgufValue::Uint32(x), p))
            && p == pos + 4 && x as int == four_bytes(b, pos)),
        pos + 4 <= b.len() ==> (spec_read_typed(b, fs, pos, 5) matches Ok((SpecGgufValue::Int32(x), p))
            && p == pos + 4 && (x as u32) as int == four_bytes(b, pos)),
        pos + 4 <= b.len() ==> (spec_read_typed(b, fs, pos, 6) matches Ok((SpecGgufValue::Float32(x), p))
            && p == pos + 4 && x as int == four_bytes(b, pos)),
        pos + 8 <= b.len() ==> (spec_read_typed(b, fs, pos, 10) matches Ok((SpecGgufValue::Uint64(x), p))
            && p == pos + 8 && x as int == eight_bytes(b, pos)),
        pos + 8 <= b.len() ==> (spec_read_typed(b, fs, pos, 11) matches Ok((SpecGgufValue::Int64(x), p))
            && p == pos + 8 && (x as u64) as int == eight_bytes(b, pos)),
        pos + 8 <= b.len() ==> (spec_read_typed(b, fs, pos, 12) matches Ok((SpecGgufValue::Float64(x), p))
            && p == pos + 8 && x as int == eight_bytes(b, pos)),
        b.len() < pos + 1 ==> spec_read_typed(b, fs, pos, 0) == Err::<(SpecGgufValue, int), ParseFail>(ParseFail::Eof)
            && spec_read_typed(b, fs, pos, 1) == Err::<(SpecGgufValue, int), ParseFail>(ParseFail::Eof)
            && spec_read_typed(b, fs, pos, 7) == Err::<(SpecGgufValue, int), ParseFail>(ParseFail::Eof),
        b.len() < pos + 2 ==> spec_read_typed(b, fs, pos, 2) == Err::<(SpecGgufValue, int), ParseFail>(ParseFail::Eof)
            && spec_read_typed(b, fs, pos, 3) == Err::<(SpecGgufValue, int), ParseFail>(ParseFail::Eof),
        b.len() < pos + 4 ==> spec_read_typed(b, fs, pos, 4) == Err::<(SpecGgufValue, int), ParseFail>(ParseFail::Eof)
            && spec_read_typed(b, fs, pos, 5) == Err::<(SpecGgufValue, int), ParseFail>(ParseFail::Eof)
            && spec_read_typed(b, fs, pos, 6) == Err::<(SpecGgufValue, int), ParseFail>(ParseFail::Eof),
        b.len() < pos + 8 ==> spec_read_typed(b, fs, pos, 10) == Err::<(SpecGgufValue, int), ParseFail>(ParseFail::Eof)
            && spec_read_typed(b, fs, pos, 11) == Err::<(SpecGgufValue, int), ParseFail>(ParseFail::Eof)
            && spec_read_typed(b, fs, pos, 12) == Err::<(SpecGgufValue, int), ParseFail>(ParseFail::Eof),
{
    if pos + 1 <= b.len() {
        let y: u8 = b[pos];
        assert((y as i8) as u8 == y) by (bit_vector);
    }
    if pos + 2 <= b.len() {
        let y: u16 = crate::bytes::le16(b, pos);
        assert((y as i16) as u16 == y) by (bit_vector);
    }
    if pos + 4 <= b.len() {
        let y: u32 = crate::bytes::le32(b, pos);
        assert((y as i32) as u32 == y) by (bit_vector);
        assert(y as int == four_bytes(b, pos));
    }
    if pos + 8 <= b.len() {
        let y: u64 = crate::bytes::le64(b, pos);
        assert((y as i64) as u64 == y) by (bit_vector);
        assert(crate::bytes::le32(b, pos) as int == four_bytes(b, pos));
        assert(crate::bytes::le32(b, pos + 4) as int == four_bytes(b, pos + 4));
        assert(y as int == eight_bytes(b, pos));
    }
}

/// A tagged metadata value that is no array reads as the element of its
/// type that follows the four-byte tag (see `lemma_scalar_elements`): for
/// every tag up to 12 but the array tag, the value read at `pos` is the
/// element of that type read at `pos + 4`.
pub proof fn lemma_scalar_values(b: Seq<u8>, fs: int, pos: int)
    requires
        crate::bytes::fits(b, pos, 4),
        crate::bytes::le32(b, pos) <= 12,
        crate::bytes::le32(b, pos) != 9,
    ensures
        spec_read_value(b, fs, pos) == spec_read_typed(b, fs, pos + 4, crate::bytes::le32(b, pos)),
{
}

} // verus!
