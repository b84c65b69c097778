use vstd::prelude::*;

verus! {

/// The token sequence `t` with tokens `i` and `i + 1` merged into one.
pub open spec fn merge_at(t: Seq<Seq<u8>>, i: int) -> Seq<Seq<u8>> {
    t.take(i).push(t[i] + t[i + 1]) + t.skip(i + 2)
}

/// Tokens `i` and `i + 1` form a known token whose rank can be chosen
/// (ranks equal to `usize::MAX` never are).
pub open spec fn candidate(enc: Map<Seq<u8>, usize>, t: Seq<Seq<u8>>, i: int) -> bool {
    0 <= i < t.len() - 1 && enc.contains_key(t[i] + t[i + 1]) && enc[t[i] + t[i + 1]] < usize::MAX
}

/// The rank of the merge of tokens `i` and `i + 1`.
pub open spec fn pair_rank(enc: Map<Seq<u8>, usize>, t: Seq<Seq<u8>>, i: int) -> usize {
    enc[t[i] + t[i + 1]]
}

/// `i` is the merge that BPE makes next: a candidate of lowest rank, the
/// first such.
pub open spec fn is_best(enc: Map<Seq<u8>, usize>, t: Seq<Seq<u8>>, i: int) -> bool {
    &&& candidate(enc, t, i)
    &&& forall|j: int| #[trigger] candidate(enc, t, j) ==> pair_rank(enc, t, j) >= pair_rank(enc, t, i)
    &&& forall|j: int| 0 <= j < i && #[trigger] candidate(enc, t, j) ==> pair_rank(enc, t, j) > pair_rank(enc, t, i)
}

/// Byte-pair encoding: merge the best pair until no pair is a known token.
pub open spec fn bpe(enc: Map<Seq<u8>, usize>, t: Seq<Seq<u8>>) -> Seq<Seq<u8>>
    decreases t.len(),
{
    if exists|i: int| is_best(enc, t, i) {
        let i = choose|i: int| is_best(enc, t, i);
        bpe(enc, merge_at(t, i))
    } else {
        t
    }
}

/// Each byte of `piece` as a token of its own.
pub open spec fn singletons(piece: Seq<u8>) -> Seq<Seq<u8>> {
    Seq::new(piece.len(), |i: int| seq![piece[i]])
}

/// The ranks of the tokens of `t` that are known, as token ids.
pub open spec fn token_ids(enc: Map<Seq<u8>, usize>, t: Seq<Seq<u8>>) -> Seq<u32>
    decreases t.len(),
{
    if t.len() == 0 {
        seq![]
    } else {
        token_ids(enc, t.drop_last()) + if enc.contains_key(t.last()) {
            seq![enc[t.last()] as u32]
        } else {
            seq![]
        }
    }
}

/// The token ids of one pre-tokenized piece.
pub open spec fn encode_piece_spec(enc: Map<Seq<u8>, usize>, piece: Seq<u8>) -> Seq<u32> {
    if piece.len() == 0 {
        seq![]
    } else {
        token_ids(enc, bpe(enc, singletons(piece)))
    }
}

/// The token ids of the pieces `bytes[s..e]` for the spans `sp`, in order.
pub open spec fn encode_spans_spec(enc: Map<Seq<u8>, usize>, bytes: Seq<u8>, sp: Seq<(usize, usize)>) -> Seq<u32>
    decreases sp.len(),
{
    if sp.len() == 0 {
        seq![]
    } else {
        encode_spans_spec(enc, bytes, sp.drop_last()) + encode_piece_spec(
            enc,
            bytes.subrange(sp.last().0 as int, sp.last().1 as int),
        )
    }
}

/// The concatenation of the tokens.
pub open spec fn flatten(t: Seq<Seq<u8>>) -> Seq<u8>
    decreases t.len(),
{
    if t.len() == 0 {
        seq![]
    } else {
        flatten(t.drop_last()) + t.last()
    }
}

pub proof fn lemma_best_unique(enc: Map<Seq<u8>, usize>, t: Seq<Seq<u8>>, i: int, j: int)
    requires
        is_best(enc, t, i),
        is_best(enc, t, j),
    ensures
        i == j,
{
    if i < j {
        assert(candidate(enc, t, i));
        assert(candidate(enc, t, j));
    } else if j < i {
        assert(candidate(enc, t, i));
        assert(candidate(enc, t, j));
    }
}

pub proof fn lemma_bpe_step(enc: Map<Seq<u8>, usize>, t: Seq<Seq<u8>>, i: int)
    requires
        is_best(enc, t, i),
    ensures
        bpe(enc, t) == bpe(enc, merge_at(t, i)),
{
    let c = choose|c: int| is_best(enc, t, c);
    lemma_best_unique(enc, t, i, c);
}

pub proof fn lemma_bpe_done(enc: Map<Seq<u8>, usize>, t: Seq<Seq<u8>>)
    requires
        forall|j: int| !#[trigger] candidate(enc, t, j),
    ensures
        bpe(enc, t) == t,
{
    assert(!exists|i: int| is_best(enc, t, i));
}

/// The concatenation of two token sequences is the concatenation of their bytes.
pub proof fn lemma_flatten_concat(a: Seq<Seq<u8>>, b: Seq<Seq<u8>>)
    ensures
        flatten(a + b) == flatten(a) + flatten(b),
    decreases b.len(),
{
    if b.len() == 0 {
        assert(a + b =~= a);
        assert(flatten(a) + flatten(b) =~= flatten(a));
    } else {
        assert((a + b).drop_last() =~= a + b.drop_last());
        assert((a + b).last() == b.last());
        lemma_flatten_concat(a, b.drop_last());
        assert(flatten(a + b) =~= flatten(a) + flatten(b));
    }
}

/// A merge keeps the bytes of the tokens.
pub proof fn lemma_flatten_merge(t: Seq<Seq<u8>>, i: int)
    requires
        0 <= i < t.len() - 1,
    ensures
        flatten(merge_at(t, i)) == flatten(t),
{
    let pre = t.take(i);
    let post = t.skip(i + 2);
    let pair = seq![t[i], t[i + 1]];
    assert(t =~= pre + pair + post);
    assert(merge_at(t, i) =~= pre.push(t[i] + t[i + 1]) + post);
    lemma_flatten_concat(pre + pair, post);
    lemma_flatten_concat(pre, pair);
    lemma_flatten_concat(pre.push(t[i] + t[i + 1]), post);
    assert(pre.push(t[i] + t[i + 1]).drop_last() =~= pre);
    assert(pair.drop_last() =~= seq![t[i]]);
    assert(seq![t[i]].drop_last() =~= Seq::<Seq<u8>>::empty());
    assert(flatten(Seq::<Seq<u8>>::empty()) =~= Seq::<u8>::empty());
    assert(flatten(seq![t[i]]) =~= t[i]);
    assert(flatten(pair) =~= t[i] + t[i + 1]);
}

/// BPE keeps the bytes of the tokens: it only merges neighbours.
pub proof fn lemma_bpe_flatten(enc: Map<Seq<u8>, usize>, t: Seq<Seq<u8>>)
    ensures
        flatten(bpe(enc, t)) == flatten(t),
    decreases t.len(),
{
    if exists|i: int| is_best(enc, t, i) {
        let i = choose|i: int| is_best(enc, t, i);
        lemma_flatten_merge(t, i);
        lemma_bpe_flatten(enc, merge_at(t, i));
    }
}

/// Every token is known to `enc`.
pub open spec fn all_known(enc: Map<Seq<u8>, usize>, t: Seq<Seq<u8>>) -> bool {
    forall|j: int| 0 <= j < t.len() ==> enc.contains_key(#[trigger] t[j])
}

/// BPE only makes known tokens out of known tokens.
pub proof fn lemma_bpe_known(enc: Map<Seq<u8>, usize>, t: Seq<Seq<u8>>)
    requires
        all_known(enc, t),
    ensures
        all_known(enc, bpe(enc, t)),
    decreases t.len(),
{
    if exists|i: int| is_best(enc, t, i) {
        let i = choose|i: int| is_best(enc, t, i);
        let m = merge_at(t, i);
        assert forall|j: int| 0 <= j < m.len() implies enc.contains_key(#[trigger] m[j]) by {
            if j < i {
                assert(m[j] == t[j]);
            } else if j == i {
                assert(m[j] == t[i] + t[i + 1]);
            } else {
                assert(m[j] == t[j + 1]);
            }
        }
        lemma_bpe_known(enc, m);
    }
}

/// The single-byte tokens of a piece spell the piece.
pub proof fn lemma_singletons_flatten(p: Seq<u8>)
    ensures
        flatten(singletons(p)) == p,
    decreases p.len(),
{
    if p.len() > 0 {
        assert(singletons(p).drop_last() =~= singletons(p.drop_last()));
        lemma_singletons_flatten(p.drop_last());
        assert(p =~= p.drop_last().push(p.last()));
        assert(flatten(singletons(p)) =~= p);
    } else {
        assert(flatten(singletons(p)) =~= p);
    }
}


/// Byte-pair encoding merges first the adjacent pair whose merged token has
/// the lowest rank, the leftmost of those that share it: when the pair at
/// `i` is a known token whose rank is at most that of every other mergeable
/// pair, and below that of every mergeable pair left of it, encoding `t`
/// encodes `t` with that pair merged.
pub proof fn lemma_bpe_merges_lowest_rank_first(enc: Map<Seq<u8>, usize>, t: Seq<Seq<u8>>, i: int)
    requires
        0 <= i < t.len() - 1,
        enc.contains_key(t[i] + t[i + 1]),
        enc[t[i] + t[i + 1]] < usize::MAX,
        forall|j: int|
            0 <= j < t.len() - 1 && #[trigger] enc.contains_key(t[j] + t[j + 1]) && enc[t[j] + t[j + 1]] < usize::MAX
                ==> enc[t[i] + t[i + 1]] <= enc[t[j] + t[j + 1]],
        forall|j: int|
            0 <= j < i && #[trigger] enc.contains_key(t[j] + t[j + 1]) && enc[t[j] + t[j + 1]] < usize::MAX
                ==> enc[t[i] + t[i + 1]] < enc[t[j] + t[j + 1]],
    ensures
        bpe(enc, t) == bpe(enc, t.take(i).push(t[i] + t[i + 1]) + t.skip(i + 2)),
{
    assert forall|j: int| #[trigger] candidate(enc, t, j) implies pair_rank(enc, t, j) >= pair_rank(enc, t, i) by {
        assert(enc.contains_key(t[j] + t[j + 1]));
    }
    assert forall|j: int| 0 <= j < i && #[trigger] candidate(enc, t, j) implies pair_rank(enc, t, j) > pair_rank(enc, t, i) by {
        assert(enc.contains_key(t[j] + t[j + 1]));
    }
    assert(is_best(enc, t, i));
    lemma_bpe_step(enc, t, i);
}

/// The best merge among the pairs that start before `n`, when one of them
/// can be merged.
proof fn best_below(enc: Map<Seq<u8>, usize>, t: Seq<Seq<u8>>, n: int) -> (i: int)
    requires
        0 <= n,
        exists|j: int| 0 <= j < n && #[trigger] candidate(enc, t, j),
    ensures
        0 <= i < n,
        candidate(enc, t, i),
        forall|j: int| 0 <= j < n && #[trigger] candidate(enc, t, j) ==> pair_rank(enc, t, j) >= pair_rank(enc, t, i),
        forall|j: int| 0 <= j < i && #[trigger] candidate(enc, t, j) ==> pair_rank(enc, t, j) > pair_rank(enc, t, i),
    decreases n,
{
    if exists|j: int| 0 <= j < n - 1 && #[trigger] candidate(enc, t, j) {
        let r = best_below(enc, t, n - 1);
        if candidate(enc, t, n - 1) && pair_rank(enc, t, n - 1) < pair_rank(enc, t, r) {
            n - 1
        } else {
            r
        }
    } else {
        n - 1
    }
}

/// Byte-pair encoding stops only when no adjacent pair of what it returns
/// forms a known token of a rank below `usize::MAX`.
pub proof fn lemma_bpe_leaves_no_merge(enc: Map<Seq<u8>, usize>, t: Seq<Seq<u8>>)
    ensures
        forall|j: int|
            0 <= j < bpe(enc, t).len() - 1 ==> !(#[trigger] enc.contains_key(bpe(enc, t)[j] + bpe(enc, t)[j + 1])
                && enc[bpe(enc, t)[j] + bpe(enc, t)[j + 1]] < usize::MAX),
    decreases t.len(),
{
    if exists|i: int| is_best(enc, t, i) {
        let i = choose|i: int| is_best(enc, t, i);
        lemma_bpe_leaves_no_merge(enc, merge_at(t, i));
        assert(bpe(enc, t) == bpe(enc, merge_at(t, i)));
    } else {
        assert(bpe(enc, t) == t);
        if exists|j: int| 0 <= j < t.len() && #[trigger] candidate(enc, t, j) {
            let b = best_below(enc, t, t.len() as int);
            assert(is_best(enc, t, b));
        }
        assert forall|j: int| 0 <= j < t.len() - 1 implies !(#[trigger] enc.contains_key(t[j] + t[j + 1])
            && enc[t[j] + t[j + 1]] < usize::MAX) by {
            if enc.contains_key(t[j] + t[j + 1]) && enc[t[j] + t[j + 1]] < usize::MAX {
                assert(candidate(enc, t, j));
            }
        }
    }
}


/// When every token is known, the ids are the ranks of the tokens, one per
/// token and in order.
pub proof fn lemma_token_ids_are_ranks(enc: Map<Seq<u8>, usize>, t: Seq<Seq<u8>>)
    requires
        forall|j: int| 0 <= j < t.len() ==> enc.contains_key(#[trigger] t[j]),
    ensures
        token_ids(enc, t).len() == t.len(),
        forall|j: int| 0 <= j < t.len() ==> token_ids(enc, t)[j] == enc[#[trigger] t[j]] as u32,
    decreases t.len(),
{
    if t.len() > 0 {
        let s = t.drop_last();
        assert forall|j: int| 0 <= j < s.len() implies enc.contains_key(#[trigger] s[j]) by {
            assert(s[j] == t[j]);
        }
        lemma_token_ids_are_ranks(enc, s);
        assert(enc.contains_key(t[t.len() - 1]));
        assert forall|j: int| 0 <= j < t.len() implies token_ids(enc, t)[j] == enc[#[trigger] t[j]] as u32 by {
            if j < t.len() - 1 {
                assert(s[j] == t[j]);
            }
        }
    }
}

} // verus!
