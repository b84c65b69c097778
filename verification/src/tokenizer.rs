use vstd::prelude::*;
use vstd::string::StringSliceAdditionalSpecFns;
use crate::base64::{decode_base64, msg_invalid_b64, spec_decode_base64};
use crate::numparse::{int_error_message, int_error_text, parse_usize, parse_usize_range, trim, trim_bounds};
use crate::text::{decimal, push_decimal, push_str, str_chars, string_from_char_range};
use crate::token_map::TokenMap;
use crate::bpe::{
    bpe, candidate, encode_piece_spec, encode_spans_spec, is_best, lemma_bpe_done, lemma_bpe_step,
    merge_at, pair_rank, singletons, token_ids, all_known, flatten, lemma_bpe_flatten, lemma_bpe_known,
    lemma_singletons_flatten,
};

verus! {

/// What loading a rank file has gathered so far: the ranks by token bytes,
/// the accepted `(rank, bytes)` lines in order, and the largest rank.
pub struct LoadState {
    pub enc: Map<Seq<u8>, usize>,
    pub entries: Seq<(usize, Seq<u8>)>,
    pub max_id: usize,
}

pub open spec fn initial_load_state() -> LoadState {
    LoadState { enc: Map::empty(), entries: seq![], max_id: 0 }
}

/// The first space of `t`, if any.
pub open spec fn first_space(t: Seq<char>) -> Option<int> {
    if exists|k: int| is_first_space(t, k) {
        Some(choose|k: int| is_first_space(t, k))
    } else {
        None
    }
}

pub open spec fn is_first_space(t: Seq<char>, k: int) -> bool {
    0 <= k < t.len() && t[k] == ' ' && forall|j: int| 0 <= j < k ==> t[j] != ' '
}

pub open spec fn msg_invalid_rank(rank_str: Seq<char>, e: crate::numparse::IntErrorKind) -> Seq<char> {
    "invalid rank '"@ + rank_str + "': "@ + int_error_message(e)
}

pub open spec fn msg_duplicate(prev: usize, rank: usize) -> Seq<char> {
    "duplicate token with different ranks: "@ + decimal(prev as nat) + " vs "@ + decimal(rank as nat)
}

/// One line of a rank file: blank lines and `#` comments are skipped; any
/// other line is base64 token bytes, a space and a decimal rank.  The same
/// bytes may not come back with another rank.
pub open spec fn load_line(st: LoadState, line: Seq<char>) -> Result<LoadState, Seq<char>> {
    let t = trim(line);
    if t.len() == 0 || t[0] == '#' {
        Ok(st)
    } else {
        match first_space(t) {
            None => Err("missing rank"@),
            Some(k) => {
                let rank_str = t.skip(k + 1);
                match parse_usize(rank_str) {
                    Err(e) => Err(msg_invalid_rank(rank_str, e)),
                    Ok(rank) => match spec_decode_base64(vstd::utf8::encode_utf8(t.take(k))) {
                        Err(c) => Err(msg_invalid_b64(c)),
                        Ok(bytes) => if st.enc.contains_key(bytes) && st.enc[bytes] != rank {
                            Err(msg_duplicate(st.enc[bytes], rank))
                        } else {
                            Ok(
                                LoadState {
                                    enc: st.enc.insert(bytes, rank),
                                    entries: st.entries.push((rank, bytes)),
                                    max_id: if rank > st.max_id {
                                        rank
                                    } else {
                                        st.max_id
                                    },
                                },
                            )
                        },
                    },
                }
            },
        }
    }
}

/// The lines of the text `s`, the current one begun with `cur`.
pub open spec fn load_chars(st: LoadState, cur: Seq<char>, s: Seq<char>) -> Result<
    LoadState,
    Seq<char>,
>
    decreases s.len(),
{
    if s.len() == 0 {
        load_line(st, cur)
    } else if s[0] == '\n' {
        match load_line(st, cur) {
            Err(e) => Err(e),
            Ok(st2) => load_chars(st2, seq![], s.drop_first()),
        }
    } else {
        load_chars(st, cur.push(s[0]), s.drop_first())
    }
}

/// The rank-indexed token bytes: `n` slots, each holding the bytes of the
/// last accepted line with that rank (empty when there is none).
pub open spec fn decoder_from(entries: Seq<(usize, Seq<u8>)>, n: nat) -> Seq<Seq<u8>>
    decreases entries.len(),
{
    if entries.len() == 0 {
        Seq::new(n, |i: int| Seq::<u8>::empty())
    } else {
        let d = decoder_from(entries.drop_last(), n);
        let e = entries.last();
        if e.0 < n {
            d.update(e.0 as int, e.1)
        } else {
            d
        }
    }
}

/// The state that loading the whole text `data` ends in, or the message of
/// the first error.
pub open spec fn spec_load(data: Seq<char>) -> Result<LoadState, Seq<char>> {
    load_chars(initial_load_state(), seq![], data)
}

/// The pre-tokenization pattern (GPT-2 style).
pub const TIKTOKEN_PATTERN: &'static str =
    "(?i:'s|'t|'re|'ve|'m|'ll|'d)| ?\\p{L}+| ?\\p{N}+| ?[^\\s\\p{L}\\p{N}]+|\\s+";

/// Whether `pattern` compiles as a regular expression (`regex::Regex::new`).
pub uninterp spec fn regex_compiles(pattern: Seq<char>) -> bool;

/// The byte spans of the successive non-overlapping matches of the compiled
/// regular expression `pattern` in `text` (`Regex::find_iter`).
pub uninterp spec fn regex_find_spans(pattern: Seq<char>, text: Seq<char>) -> Seq<(usize, usize)>;

/// Spans in increasing order, none overlapping the next, all within `len`.
pub open spec fn spans_ordered(sp: Seq<(usize, usize)>, len: nat) -> bool {
    &&& forall|i: int| 0 <= i < sp.len() ==> (#[trigger] sp[i]).0 <= sp[i].1 <= len
    &&& forall|i: int| 0 <= i < sp.len() - 1 ==> (#[trigger] sp[i]).1 <= sp[i + 1].0
}

/// Compiles `pattern` with `regex::Regex::new` and lists the byte spans
/// (`Match::start`, `Match::end`) of `Regex::find_iter` over `text`.
///
/// The contract names whether the pattern compiles and the spans, and states
/// what the regex crate documents of the spans: successive, non-overlapping,
/// inside `text`.  The text of a compilation error is not stated.
#[verifier::external_body]
fn find_spans(pattern: &str, text: &str) -> (r: Result<Vec<(usize, usize)>, String>)
    ensures
        r is Ok <==> regex_compiles(pattern@),
        r matches Ok(v) ==> v@ == regex_find_spans(pattern@, text@) && spans_ordered(v@, text.spec_bytes().len()),
{
    match regex::Regex::new(pattern) {
        Ok(re) => Ok(re.find_iter(text).map(|m| (m.start(), m.end())).collect()),
        Err(e) => Err(e.to_string()),
    }
}

/// A tiktoken byte-level BPE tokenizer: token bytes by rank and back.
pub struct TiktokenTokenizer {
    encoder: TokenMap,
    decoder: Vec<Vec<u8>>,
    pattern: String,
}

/// The contents of a list of byte vectors.
pub open spec fn byte_rows(v: Seq<Vec<u8>>) -> Seq<Seq<u8>> {
    Seq::new(v.len(), |i: int| v[i]@)
}

pub open spec fn entries_view(v: Seq<(usize, Vec<u8>)>) -> Seq<(usize, Seq<u8>)> {
    Seq::new(v.len(), |i: int| (v[i].0, v[i].1@))
}

impl TiktokenTokenizer {
    /// Ranks by token bytes.
    pub closed spec fn encoder_map(&self) -> Map<Seq<u8>, usize> {
        self.encoder@
    }

    /// Token bytes by rank.
    pub closed spec fn decoder_rows(&self) -> Seq<Seq<u8>> {
        byte_rows(self.decoder@)
    }

    /// The pre-tokenization pattern.
    pub closed spec fn pattern_chars(&self) -> Seq<char> {
        self.pattern@
    }

    /// The pattern compiles.
    #[verifier::type_invariant]
    spec fn inv(self) -> bool {
        regex_compiles(self.pattern@)
    }
}

/// Loads one line, `cs[from..to]`, into the state.
fn load_one_line(
    enc: &mut TokenMap,
    entries: &mut Vec<(usize, Vec<u8>)>,
    max_id: &mut usize,
    cs: &[char],
    from: usize,
    to: usize,
) -> (r: Result<(), String>)
    requires
        from <= to <= cs@.len(),
        forall|j: int| 0 <= j < old(entries)@.len() ==> #[trigger] old(entries)@[j].0 <= *old(max_id),
    ensures
        forall|j: int| 0 <= j < final(entries)@.len() ==> #[trigger] final(entries)@[j].0 <= *final(max_id),
        ({
            let st = LoadState { enc: old(enc)@, entries: entries_view(old(entries)@), max_id: *old(max_id) };
            match load_line(st, cs@.subrange(from as int, to as int)) {
                Ok(st2) => r is Ok && final(enc)@ == st2.enc && entries_view(final(entries)@) == st2.entries && *final(max_id) == st2.max_id,
                Err(m) => r is Err && r->Err_0@ == m,
            }
        }),
{
    let ghost line = cs@.subrange(from as int, to as int);
    let (lo, hi) = trim_bounds(cs, from, to);
    let ghost t = cs@.subrange(lo as int, hi as int);
    assert(t == trim(line));
    if lo == hi || cs[lo] == '#' {
        return Ok(());
    }
    let mut k = lo;
    while k < hi && cs[k] != ' '
        invariant
            lo <= k <= hi <= cs@.len(),
            t == cs@.subrange(lo as int, hi as int),
            forall|j: int| lo <= j < k ==> cs@[j] != ' ',
        decreases hi - k,
    {
        k = k + 1;
    }
    if k == hi {
        proof {
            assert forall|x: int| !is_first_space(t, x) by {
                if 0 <= x < t.len() {
                    assert(t[x] == cs@[lo + x]);
                }
            }
        }
        return Err("missing rank".to_owned());
    }
    proof {
        let x = k - lo;
        assert(is_first_space(t, x));
        let c = choose|c: int| is_first_space(t, c);
        if c < x {
            assert(t[c] == cs@[lo + c]);
        } else if c > x {
        }
        assert(first_space(t) == Some(x));
        assert(t.skip(x + 1) =~= cs@.subrange(k + 1, hi as int));
        assert(t.take(x) =~= cs@.subrange(lo as int, k as int));
    }
    let rank = match parse_usize_range(cs, k + 1, hi) {
        Ok(v) => v,
        Err(e) => {
            let mut m = "invalid rank '".to_owned();
            let rank_str = string_from_char_range(cs, k + 1, hi);
            push_str(&mut m, rank_str.as_str());
            push_str(&mut m, "': ");
            let et = int_error_text(e);
            push_str(&mut m, et.as_str());
            return Err(m);
        },
    };
    let b64 = string_from_char_range(cs, lo, k);
    let bytes = match decode_base64(b64.as_str()) {
        Ok(b) => b,
        Err(m) => {
            return Err(m);
        },
    };
    match enc.get(bytes.as_slice()) {
        Some(prev) => {
            if prev != rank {
                let mut m = "duplicate token with different ranks: ".to_owned();
                push_decimal(&mut m, prev as u64);
                push_str(&mut m, " vs ");
                push_decimal(&mut m, rank as u64);
                return Err(m);
            }
        },
        None => {},
    }
    let ghost old_entries = entries_view(entries@);
    enc.insert(bytes.clone(), rank);
    entries.push((rank, bytes));
    assert(entries_view(entries@) =~= old_entries.push((rank, bytes@)));
    if rank > *max_id {
        *max_id = rank;
    }
    Ok(())
}


impl TiktokenTokenizer {
    /// Loads a tokenizer from the text of a `.tiktoken` rank file.
    pub fn from_data(data: &str) -> (r: Result<TiktokenTokenizer, String>)
        requires
            spec_load(data@) matches Ok(st) ==> st.max_id < usize::MAX,
        ensures
            match spec_load(data@) {
                Err(m) => r is Err && r->Err_0@ == m,
                Ok(st) => if regex_compiles(TIKTOKEN_PATTERN@) {
                    r is Ok && r->Ok_0.encoder_map() == st.enc && r->Ok_0.decoder_rows()
                        == decoder_from(st.entries, (st.max_id + 1) as nat) && r->Ok_0.pattern_chars()
                        == TIKTOKEN_PATTERN@
                } else {
                    r is Err
                },
            },
    {
        match Self::load_table(data) {
            Ok((enc, entries, max_id)) => Self::build(enc, entries, max_id),
            Err(m) => Err(m),
        }
    }

    /// Loads a tokenizer from the text of a rank file, or `None` where the
    /// largest rank is `usize::MAX`, so that the rank count does not fit in
    /// a machine word.
    pub fn try_from_data(data: &str) -> (r: Option<Result<TiktokenTokenizer, String>>)
        ensures
            r is None <==> (spec_load(data@) matches Ok(st) && st.max_id == usize::MAX),
            r matches Some(x) ==> match spec_load(data@) {
                Err(m) => x is Err && x->Err_0@ == m,
                Ok(st) => if regex_compiles(TIKTOKEN_PATTERN@) {
                    x is Ok && x->Ok_0.encoder_map() == st.enc && x->Ok_0.decoder_rows()
                        == decoder_from(st.entries, (st.max_id + 1) as nat) && x->Ok_0.pattern_chars()
                        == TIKTOKEN_PATTERN@
                } else {
                    x is Err
                },
            },
    {
        match Self::load_table(data) {
            Ok((enc, entries, max_id)) => {
                if max_id == usize::MAX {
                    None
                } else {
                    Some(Self::build(enc, entries, max_id))
                }
            },
            Err(m) => Some(Err(m)),
        }
    }

    /// Reads the lines of a rank file: the ranks by token bytes, the accepted
    /// `(rank, bytes)` lines in order, and the largest rank.
    fn load_table(data: &str) -> (r: Result<(TokenMap, Vec<(usize, Vec<u8>)>, usize), String>)
        ensures
            match spec_load(data@) {
                Err(m) => r is Err && r->Err_0@ == m,
                Ok(st) => r is Ok && r->Ok_0.0@ == st.enc && entries_view(r->Ok_0.1@) == st.entries
                    && r->Ok_0.2 == st.max_id && forall|j: int| 0 <= j < r->Ok_0.1@.len() ==> #[trigger] r->Ok_0.1@[j].0
                    <= st.max_id,
            },
    {
        let cs = str_chars(data);
        let mut enc = TokenMap::new();
        let mut entries: Vec<(usize, Vec<u8>)> = Vec::new();
        let mut max_id: usize = 0;
        let mut start: usize = 0;
        let mut i: usize = 0;
        assert(cs@.subrange(0, 0) =~= Seq::<char>::empty());
        assert(cs@.skip(0) =~= cs@);
        assert(entries_view(entries@) =~= Seq::<(usize, Seq<u8>)>::empty());
        assert(LoadState { enc: enc@, entries: entries_view(entries@), max_id } == initial_load_state());
        while i < cs.len()
            invariant
                cs@ == data@,
                start <= i <= cs@.len(),
                forall|j: int| 0 <= j < entries@.len() ==> #[trigger] entries@[j].0 <= max_id,
                spec_load(data@) == load_chars(
                    LoadState { enc: enc@, entries: entries_view(entries@), max_id },
                    cs@.subrange(start as int, i as int),
                    cs@.skip(i as int),
                ),
            decreases cs@.len() - i,
        {
            assert(cs@.skip(i as int)[0] == cs@[i as int]);
            assert(cs@.skip(i as int).drop_first() =~= cs@.skip(i + 1));
            if cs[i] == '\n' {
                match load_one_line(&mut enc, &mut entries, &mut max_id, cs.as_slice(), start, i) {
                    Ok(()) => {},
                    Err(m) => {
                        return Err(m);
                    },
                }
                start = i + 1;
                assert(cs@.subrange(start as int, start as int) =~= Seq::<char>::empty());
            } else {
                assert(cs@.subrange(start as int, i as int).push(cs@[i as int]) =~= cs@.subrange(
                    start as int,
                    i + 1,
                ));
            }
            i = i + 1;
        }
        match load_one_line(&mut enc, &mut entries, &mut max_id, cs.as_slice(), start, cs.len()) {
            Ok(()) => {},
            Err(m) => {
                return Err(m);
            },
        }
        Ok((enc, entries, max_id))
    }

    /// The tokenizer of a loaded table: the decoder by rank, and the
    /// pre-tokenization pattern compiled.
    fn build(enc: TokenMap, entries: Vec<(usize, Vec<u8>)>, max_id: usize) -> (r: Result<TiktokenTokenizer, String>)
        requires
            max_id < usize::MAX,
            forall|j: int| 0 <= j < entries@.len() ==> #[trigger] entries@[j].0 <= max_id,
        ensures
            if regex_compiles(TIKTOKEN_PATTERN@) {
                r is Ok && r->Ok_0.encoder_map() == enc@ && r->Ok_0.decoder_rows() == decoder_from(
                    entries_view(entries@),
                    (max_id + 1) as nat,
                ) && r->Ok_0.pattern_chars() == TIKTOKEN_PATTERN@
            } else {
                r is Err
            },
    {
        let ghost ents = entries_view(entries@);
        let n = max_id + 1;
        let mut decoder: Vec<Vec<u8>> = Vec::new();
        let mut r: usize = 0;
        while r < n
            invariant
                r <= n,
                byte_rows(decoder@) =~= Seq::new(r as nat, |x: int| Seq::<u8>::empty()),
            decreases n - r,
        {
            let ghost before = byte_rows(decoder@);
            let e: Vec<u8> = Vec::new();
            decoder.push(e);
            assert(byte_rows(decoder@) =~= before.push(Seq::<u8>::empty()));
            r = r + 1;
        }
        let mut j: usize = 0;
        while j < entries.len()
            invariant
                j <= entries@.len(),
                n == max_id + 1,
                ents == entries_view(entries@),
                forall|x: int| 0 <= x < entries@.len() ==> #[trigger] entries@[x].0 <= max_id,
                byte_rows(decoder@) == decoder_from(ents.take(j as int), n as nat),
                decoder@.len() == n,
            decreases entries@.len() - j,
        {
            let rank = entries[j].0;
            assert(entries@[j as int].0 <= max_id);
            let row = entries[j].1.clone();
            assert(row@ =~= entries@[j as int].1@);
            let ghost before = byte_rows(decoder@);
            decoder.set(rank, row);
            proof {
                assert(ents.take(j + 1).drop_last() =~= ents.take(j as int));
                assert(byte_rows(decoder@) =~= before.update(rank as int, row@));
            }
            j = j + 1;
        }
        proof {
            assert(ents.take(entries@.len() as int) =~= ents);
        }
        match find_spans(TIKTOKEN_PATTERN, "") {
            Ok(_) => {},
            Err(e) => {
                let mut m = "invalid regex: ".to_owned();
                push_str(&mut m, e.as_str());
                return Err(m);
            },
        }
        Ok(TiktokenTokenizer { encoder: enc, decoder, pattern: TIKTOKEN_PATTERN.to_owned() })
    }


    /// The number of ranks, one more than the largest.
    pub fn vocab_size(&self) -> (n: usize)
        ensures
            n == self.decoder_rows().len(),
    {
        self.decoder.len()
    }

    /// The token ranks by bytes.
    pub fn encoder(&self) -> (m: &TokenMap)
        ensures
            m@ == self.encoder_map(),
    {
        &self.encoder
    }
}


/// `a` followed by `b`.
fn concat_bytes(a: &[u8], b: &[u8]) -> (r: Vec<u8>)
    ensures
        r@ == a@ + b@,
{
    let mut out: Vec<u8> = Vec::with_capacity(a.len());
    let mut i: usize = 0;
    while i < a.len()
        invariant
            i <= a@.len(),
            out@ == a@.take(i as int),
        decreases a@.len() - i,
    {
        out.push(a[i]);
        i = i + 1;
        assert(out@ =~= a@.take(i as int));
    }
    let mut j: usize = 0;
    while j < b.len()
        invariant
            j <= b@.len(),
            out@ == a@ + b@.take(j as int),
        decreases b@.len() - j,
    {
        out.push(b[j]);
        j = j + 1;
        assert(out@ =~= a@ + b@.take(j as int));
    }
    assert(b@.take(b@.len() as int) =~= b@);
    assert(a@.take(a@.len() as int) =~= a@);
    out
}

/// The bytes that the token ids name, unknown ids skipped.
pub open spec fn decode_bytes_spec(dec: Seq<Seq<u8>>, ids: Seq<u32>) -> Seq<u8>
    decreases ids.len(),
{
    if ids.len() == 0 {
        seq![]
    } else {
        decode_bytes_spec(dec, ids.drop_last()) + if (ids.last() as int) < dec.len() {
            dec[ids.last() as int]
        } else {
            seq![]
        }
    }
}

/// The text of UTF-8 bytes with every invalid sequence replaced by U+FFFD,
/// as `String::from_utf8_lossy` makes it.
pub uninterp spec fn utf8_lossy(bytes: Seq<u8>) -> Seq<char>;

/// `String::from_utf8_lossy(bytes).into_owned()`.
///
/// The contract names the result and states what the standard library
/// documents: valid UTF-8 is decoded unchanged.  How invalid sequences are
/// replaced is not stated.
#[verifier::external_body]
fn lossy_string(bytes: &[u8]) -> (s: String)
    ensures
        s@ == utf8_lossy(bytes@),
        vstd::utf8::valid_utf8(bytes@) ==> s@ == vstd::utf8::decode_utf8(bytes@),
{
    String::from_utf8_lossy(bytes).into_owned()
}

impl TiktokenTokenizer {
    /// Appends the token ids of one pre-tokenized piece to `out`.
    pub fn encode_piece(&self, piece: &[u8], out: &mut Vec<u32>)
        ensures
            final(out)@ == old(out)@ + encode_piece_spec(self.encoder_map(), piece@),
    {
        if piece.len() == 0 {
            assert(old(out)@ + seq![] =~= old(out)@);
            return;
        }
        let ghost enc = self.encoder_map();
        let mut tokens: Vec<Vec<u8>> = Vec::with_capacity(piece.len());
        let mut p: usize = 0;
        while p < piece.len()
            invariant
                p <= piece@.len(),
                byte_rows(tokens@) =~= singletons(piece@).take(p as int),
            decreases piece@.len() - p,
        {
            let mut single: Vec<u8> = Vec::new();
            single.push(piece[p]);
            let ghost before = byte_rows(tokens@);
            tokens.push(single);
            assert(byte_rows(tokens@) =~= before.push(seq![piece@[p as int]]));
            p = p + 1;
        }
        assert(singletons(piece@).take(piece@.len() as int) =~= singletons(piece@));
        loop
            invariant
                enc == self.encoder_map(),
                bpe(enc, byte_rows(tokens@)) == bpe(enc, singletons(piece@)),
            ensures
                enc == self.encoder_map(),
                bpe(enc, byte_rows(tokens@)) == bpe(enc, singletons(piece@)),
                bpe(enc, byte_rows(tokens@)) == byte_rows(tokens@),
            decreases tokens@.len(),
        {
            let ghost t = byte_rows(tokens@);
            let mut best_idx: Option<usize> = None;
            let mut best_rank: usize = usize::MAX;
            let n = tokens.len();
            let last = if n > 0 {
                n - 1
            } else {
                0
            };
            let mut i: usize = 0;
            while i < last
                invariant
                    n == tokens@.len(),
                    t == byte_rows(tokens@),
                    enc == self.encoder_map(),
                    last == if n > 0 { n - 1 } else { 0 },
                    i <= last,
                    match best_idx {
                        Some(b) => b < i && candidate(enc, t, b as int) && pair_rank(enc, t, b as int) == best_rank
                            && (forall|j: int| 0 <= j < i && #[trigger] candidate(enc, t, j) ==> pair_rank(enc, t, j) >= best_rank)
                            && (forall|j: int| 0 <= j < b && #[trigger] candidate(enc, t, j) ==> pair_rank(enc, t, j) > best_rank),
                        None => best_rank == usize::MAX && forall|j: int| 0 <= j < i ==> !#[trigger] candidate(enc, t, j),
                    },
                decreases last - i,
            {
                let merged = concat_bytes(tokens[i].as_slice(), tokens[i + 1].as_slice());
                assert(merged@ == t[i as int] + t[i + 1]);
                match self.encoder.get(merged.as_slice()) {
                    Some(rank) => {
                        if rank < best_rank {
                            best_rank = rank;
                            best_idx = Some(i);
                        }
                    },
                    None => {},
                }
                i = i + 1;
            }
            match best_idx {
                None => {
                    proof {
                        assert forall|j: int| !#[trigger] candidate(enc, t, j) by {}
                        lemma_bpe_done(enc, t);
                    }
                    break;
                },
                Some(b) => {
                    proof {
                        assert forall|j: int| #[trigger] candidate(enc, t, j) implies pair_rank(enc, t, j) >= pair_rank(enc, t, b as int) by {
                            assert(0 <= j < i);
                        }
                        assert(is_best(enc, t, b as int));
                        lemma_bpe_step(enc, t, b as int);
                    }
                    let merged = concat_bytes(tokens[b].as_slice(), tokens[b + 1].as_slice());
                    tokens.set(b, merged);
                    tokens.remove(b + 1);
                    proof {
                        assert(byte_rows(tokens@) =~= merge_at(t, b as int));
                    }
                },
            }
        }
        let ghost final_t = byte_rows(tokens@);
        let mut k: usize = 0;
        while k < tokens.len()
            invariant
                k <= tokens@.len(),
                final_t == byte_rows(tokens@),
                enc == self.encoder_map(),
                out@ == old(out)@ + token_ids(enc, final_t.take(k as int)),
            decreases tokens@.len() - k,
        {
            assert(final_t.take(k + 1).drop_last() =~= final_t.take(k as int));
            match self.encoder.get(tokens[k].as_slice()) {
                Some(id) => {
                    out.push(id as u32);
                    assert(out@ =~= old(out)@ + token_ids(enc, final_t.take(k + 1)));
                },
                None => {
                    assert(out@ =~= old(out)@ + token_ids(enc, final_t.take(k + 1)));
                },
            }
            k = k + 1;
        }
        assert(final_t.take(tokens@.len() as int) =~= final_t);
    }
}


impl TiktokenTokenizer {
    /// The token ids of the pieces `bytes[s..e]` for the spans `spans`.
    pub fn encode_spans(&self, bytes: &[u8], spans: &[(usize, usize)]) -> (r: Vec<u32>)
        requires
            forall|i: int| 0 <= i < spans@.len() ==> (#[trigger] spans@[i]).0 <= spans@[i].1 <= bytes@.len(),
        ensures
            r@ == encode_spans_spec(self.encoder_map(), bytes@, spans@),
    {
        let mut ids: Vec<u32> = Vec::new();
        let mut i: usize = 0;
        while i < spans.len()
            invariant
                i <= spans@.len(),
                forall|k: int| 0 <= k < spans@.len() ==> (#[trigger] spans@[k]).0 <= spans@[k].1 <= bytes@.len(),
                ids@ == encode_spans_spec(self.encoder_map(), bytes@, spans@.take(i as int)),
            decreases spans@.len() - i,
        {
            let (s, e) = spans[i];
            assert(spans@[i as int].0 <= spans@[i as int].1 <= bytes@.len());
            let piece = &bytes[s..e];
            self.encode_piece(piece, &mut ids);
            assert(spans@.take(i + 1).drop_last() =~= spans@.take(i as int));
            i = i + 1;
        }
        assert(spans@.take(spans@.len() as int) =~= spans@);
        ids
    }

    /// The token ids of `text`: its pre-tokenization pieces, each split by BPE.
    pub fn encode(&self, text: &str) -> (r: Vec<u32>)
        ensures
            r@ == encode_spans_spec(self.encoder_map(), text.spec_bytes(), regex_find_spans(self.pattern_chars(), text@)),
    {
        proof {
            use_type_invariant(self);
        }
        match find_spans(self.pattern.as_str(), text) {
            Ok(spans) => self.encode_spans(text.as_bytes(), spans.as_slice()),
            Err(_) => Vec::new(),
        }
    }

    /// The bytes of the token ids, unknown ids skipped.
    pub fn decode_bytes(&self, ids: &[u32]) -> (r: Vec<u8>)
        ensures
            r@ == decode_bytes_spec(self.decoder_rows(), ids@),
    {
        let mut bytes: Vec<u8> = Vec::new();
        let mut i: usize = 0;
        while i < ids.len()
            invariant
                i <= ids@.len(),
                bytes@ == decode_bytes_spec(self.decoder_rows(), ids@.take(i as int)),
            decreases ids@.len() - i,
        {
            assert(ids@.take(i + 1).drop_last() =~= ids@.take(i as int));
            let id = ids[i] as usize;
            if id < self.decoder.len() {
                let seg = &self.decoder[id];
                let mut j: usize = 0;
                let ghost before = bytes@;
                while j < seg.len()
                    invariant
                        j <= seg@.len(),
                        bytes@ == before + seg@.take(j as int),
                    decreases seg@.len() - j,
                {
                    bytes.push(seg[j]);
                    j = j + 1;
                    assert(bytes@ =~= before + seg@.take(j as int));
                }
                assert(seg@.take(seg@.len() as int) =~= seg@);
                assert(bytes@ =~= decode_bytes_spec(self.decoder_rows(), ids@.take(i + 1)));
            } else {
                assert(bytes@ =~= decode_bytes_spec(self.decoder_rows(), ids@.take(i + 1)));
            }
            i = i + 1;
        }
        assert(ids@.take(ids@.len() as int) =~= ids@);
        bytes
    }

    /// The text of the token ids (invalid UTF-8 replaced).
    pub fn decode(&self, ids: &[u32]) -> (s: String)
        ensures
            s@ == decoded_text(decode_bytes_spec(self.decoder_rows(), ids@)),
    {
        let bytes = self.decode_bytes(ids);
        lossy_string(bytes.as_slice())
    }
}

/// The encoder and the decoder agree: every known token has a rank that fits
/// in a token id and names the token in the decoder.
pub open spec fn codec_consistent(enc: Map<Seq<u8>, usize>, dec: Seq<Seq<u8>>) -> bool {
    forall|k: Seq<u8>| #[trigger] enc.contains_key(k) ==> enc[k] <= u32::MAX && (enc[k] as int) < dec.len()
        && dec[enc[k] as int] == k
}

/// Every single byte is a known token.
pub open spec fn knows_all_bytes(enc: Map<Seq<u8>, usize>) -> bool {
    forall|b: u8| #[trigger] enc.contains_key(seq![b])
}

/// Decoding a concatenation of ids concatenates the decoded bytes.
pub proof fn lemma_decode_concat(dec: Seq<Seq<u8>>, a: Seq<u32>, b: Seq<u32>)
    ensures
        decode_bytes_spec(dec, a + b) == decode_bytes_spec(dec, a) + decode_bytes_spec(dec, b),
    decreases b.len(),
{
    if b.len() == 0 {
        assert(a + b =~= a);
        assert(decode_bytes_spec(dec, a) + decode_bytes_spec(dec, b) =~= decode_bytes_spec(dec, a));
    } else {
        assert((a + b).drop_last() =~= a + b.drop_last());
        assert((a + b).last() == b.last());
        lemma_decode_concat(dec, a, b.drop_last());
        assert(decode_bytes_spec(dec, a + b) =~= decode_bytes_spec(dec, a) + decode_bytes_spec(dec, b));
    }
}

/// The ids of known tokens decode to the bytes of the tokens.
pub proof fn lemma_decode_token_ids(enc: Map<Seq<u8>, usize>, dec: Seq<Seq<u8>>, t: Seq<Seq<u8>>)
    requires
        codec_consistent(enc, dec),
        all_known(enc, t),
    ensures
        decode_bytes_spec(dec, token_ids(enc, t)) == flatten(t),
    decreases t.len(),
{
    if t.len() > 0 {
        let rest = t.drop_last();
        assert(all_known(enc, rest)) by {
            assert forall|j: int| 0 <= j < rest.len() implies enc.contains_key(#[trigger] rest[j]) by {
                assert(rest[j] == t[j]);
            }
        }
        lemma_decode_token_ids(enc, dec, rest);
        assert(enc.contains_key(t[t.len() - 1]));
        let id = seq![enc[t.last()] as u32];
        lemma_decode_concat(dec, token_ids(enc, rest), id);
        assert(id.drop_last() =~= Seq::<u32>::empty());
        let k = t.last();
        assert(enc[k] <= u32::MAX && (enc[k] as int) < dec.len());
        assert((enc[k] as u32) as int == enc[k] as int);
        assert(decode_bytes_spec(dec, Seq::<u32>::empty()) =~= Seq::<u8>::empty());
        assert(id.last() == enc[k] as u32);
        assert(decode_bytes_spec(dec, id) =~= dec[enc[k] as int]);
    }
}

/// Decoding the ids of a piece gives the piece back, when every byte is a
/// known token and the decoder agrees with the encoder.
pub proof fn lemma_piece_round_trip(enc: Map<Seq<u8>, usize>, dec: Seq<Seq<u8>>, piece: Seq<u8>)
    requires
        codec_consistent(enc, dec),
        knows_all_bytes(enc),
    ensures
        decode_bytes_spec(dec, encode_piece_spec(enc, piece)) == piece,
{
    if piece.len() == 0 {
        assert(decode_bytes_spec(dec, encode_piece_spec(enc, piece)) =~= piece);
    } else {
        let s = singletons(piece);
        assert(all_known(enc, s)) by {
            assert forall|j: int| 0 <= j < s.len() implies enc.contains_key(#[trigger] s[j]) by {
                assert(s[j] == seq![piece[j]]);
            }
        }
        lemma_bpe_known(enc, s);
        lemma_decode_token_ids(enc, dec, bpe(enc, s));
        lemma_bpe_flatten(enc, s);
        lemma_singletons_flatten(piece);
    }
}

/// Spans that tile `bytes[0..end]`: each begins where the previous ends.
pub open spec fn spans_tile(sp: Seq<(usize, usize)>, end: int) -> bool {
    &&& sp.len() == 0 ==> end == 0
    &&& sp.len() > 0 ==> sp[0].0 == 0 && sp.last().1 == end
    &&& forall|i: int| 0 <= i < sp.len() ==> (#[trigger] sp[i]).0 <= sp[i].1
    &&& forall|i: int| 0 <= i < sp.len() - 1 ==> (#[trigger] sp[i]).1 == sp[i + 1].0
}

/// Decoding the ids of spans that tile the first `end` bytes gives those bytes back.
pub proof fn lemma_spans_round_trip(
    enc: Map<Seq<u8>, usize>,
    dec: Seq<Seq<u8>>,
    bytes: Seq<u8>,
    sp: Seq<(usize, usize)>,
    end: int,
)
    requires
        codec_consistent(enc, dec),
        knows_all_bytes(enc),
        spans_tile(sp, end),
        end <= bytes.len(),
    ensures
        decode_bytes_spec(dec, encode_spans_spec(enc, bytes, sp)) == bytes.take(end),
    decreases sp.len(),
{
    if sp.len() == 0 {
        assert(bytes.take(end) =~= Seq::<u8>::empty());
    } else {
        let rest = sp.drop_last();
        let last = sp.last();
        let mid: int = if rest.len() == 0 { 0 } else { rest.last().1 as int };
        if rest.len() > 0 {
            assert(rest.last() == sp[sp.len() - 2]);
            assert(sp[sp.len() - 2].1 == sp[sp.len() - 1].0);
        }
        assert(spans_tile(rest, mid)) by {
            assert forall|i: int| 0 <= i < rest.len() implies (#[trigger] rest[i]).0 <= rest[i].1 by {
                assert(rest[i] == sp[i]);
            }
            assert forall|i: int| 0 <= i < rest.len() - 1 implies (#[trigger] rest[i]).1 == rest[i + 1].0 by {
                assert(rest[i] == sp[i] && rest[i + 1] == sp[i + 1]);
            }
        }
        assert(last.0 == mid && mid <= last.1);
        lemma_spans_round_trip(enc, dec, bytes, rest, mid);
        let piece = bytes.subrange(last.0 as int, last.1 as int);
        lemma_piece_round_trip(enc, dec, piece);
        lemma_decode_concat(dec, encode_spans_spec(enc, bytes, rest), encode_piece_spec(enc, piece));
        assert(bytes.take(mid) + piece =~= bytes.take(end));
    }
}

/// The text that decoding gives for the bytes: the decoded UTF-8 where the
/// bytes are valid, else the lossy decoding.
pub open spec fn decoded_text(bytes: Seq<u8>) -> Seq<char> {
    if vstd::utf8::valid_utf8(bytes) {
        vstd::utf8::decode_utf8(bytes)
    } else {
        utf8_lossy(bytes)
    }
}

/// A text survives encoding and decoding when its pre-tokenization spans
/// tile it, every byte is a known token and the decoder agrees with the encoder.
pub proof fn lemma_text_round_trip(
    enc: Map<Seq<u8>, usize>,
    dec: Seq<Seq<u8>>,
    text: Seq<char>,
    sp: Seq<(usize, usize)>,
)
    requires
        codec_consistent(enc, dec),
        knows_all_bytes(enc),
        spans_tile(sp, vstd::utf8::encode_utf8(text).len() as int),
    ensures
        decoded_text(decode_bytes_spec(dec, encode_spans_spec(enc, vstd::utf8::encode_utf8(text), sp))) == text,
{
    let bytes = vstd::utf8::encode_utf8(text);
    lemma_spans_round_trip(enc, dec, bytes, sp, bytes.len() as int);
    assert(bytes.take(bytes.len() as int) =~= bytes);
    vstd::utf8::encode_utf8_valid_utf8(text);
    vstd::utf8::encode_utf8_decode_utf8(text);
}

/// No two tokens share a rank.
pub open spec fn ranks_distinct(enc: Map<Seq<u8>, usize>) -> bool {
    forall|k1: Seq<u8>, k2: Seq<u8>| #[trigger] enc.contains_key(k1) && #[trigger] enc.contains_key(k2)
        && enc[k1] == enc[k2] ==> k1 == k2
}

/// What loading keeps: every accepted line's token has that line's rank, at
/// most the largest rank, and every known token comes from some line.
pub open spec fn load_inv(st: LoadState) -> bool {
    &&& forall|i: int| 0 <= i < st.entries.len() ==> {
        let e = #[trigger] st.entries[i];
        st.enc.contains_key(e.1) && st.enc[e.1] == e.0 && e.0 <= st.max_id
    }
    &&& forall|k: Seq<u8>| #[trigger] st.enc.contains_key(k) ==> exists|i: int|
        0 <= i < st.entries.len() && st.entries[i].1 == k
}

proof fn lemma_load_line_inv(st: LoadState, line: Seq<char>)
    requires
        load_inv(st),
        load_line(st, line) is Ok,
    ensures
        load_inv(load_line(st, line)->Ok_0),
{
    let st2 = load_line(st, line)->Ok_0;
    if st2 != st {
        let e = st2.entries.last();
        assert(st2.entries == st.entries.push(e));
        assert(st2.enc == st.enc.insert(e.1, e.0));
        assert forall|i: int| 0 <= i < st2.entries.len() implies {
            let x = #[trigger] st2.entries[i];
            st2.enc.contains_key(x.1) && st2.enc[x.1] == x.0 && x.0 <= st2.max_id
        } by {
            if i < st.entries.len() {
                assert(st2.entries[i] == st.entries[i]);
            }
        }
        assert forall|k: Seq<u8>| #[trigger] st2.enc.contains_key(k) implies exists|i: int|
            0 <= i < st2.entries.len() && st2.entries[i].1 == k by {
            if k == e.1 {
                assert(st2.entries[st2.entries.len() - 1].1 == k);
            } else {
                let i = choose|i: int| 0 <= i < st.entries.len() && st.entries[i].1 == k;
                assert(st2.entries[i] == st.entries[i]);
            }
        }
    }
}

proof fn lemma_load_chars_inv(st: LoadState, cur: Seq<char>, s: Seq<char>)
    requires
        load_inv(st),
        load_chars(st, cur, s) is Ok,
    ensures
        load_inv(load_chars(st, cur, s)->Ok_0),
    decreases s.len(),
{
    if s.len() == 0 {
        lemma_load_line_inv(st, cur);
    } else if s[0] == '\n' {
        lemma_load_line_inv(st, cur);
        lemma_load_chars_inv(load_line(st, cur)->Ok_0, seq![], s.drop_first());
    } else {
        lemma_load_chars_inv(st, cur.push(s[0]), s.drop_first());
    }
}

proof fn lemma_decoder_names_entries(entries: Seq<(usize, Seq<u8>)>, n: nat, enc: Map<Seq<u8>, usize>)
    requires
        ranks_distinct(enc),
        forall|i: int| 0 <= i < entries.len() ==> {
            let e = #[trigger] entries[i];
            e.0 < n && enc.contains_key(e.1) && enc[e.1] == e.0
        },
    ensures
        decoder_from(entries, n).len() == n,
        forall|i: int| 0 <= i < entries.len() ==> #[trigger] decoder_from(entries, n)[entries[i].0 as int]
            == entries[i].1,
    decreases entries.len(),
{
    if entries.len() > 0 {
        let rest = entries.drop_last();
        let e = entries.last();
        assert forall|i: int| 0 <= i < rest.len() implies {
            let x = #[trigger] rest[i];
            x.0 < n && enc.contains_key(x.1) && enc[x.1] == x.0
        } by {
            assert(rest[i] == entries[i]);
        }
        lemma_decoder_names_entries(rest, n, enc);
        let d = decoder_from(rest, n);
        assert(entries[entries.len() - 1] == e);
        assert forall|i: int| 0 <= i < entries.len() implies #[trigger] decoder_from(entries, n)[entries[i].0 as int]
            == entries[i].1 by {
            if i < rest.len() {
                assert(rest[i] == entries[i]);
                if entries[i].0 == e.0 {
                    assert(enc[entries[i].1] == enc[e.1]);
                }
            }
        }
    }
}

/// A rank file whose tokens all have different ranks, none above `u32::MAX`,
/// loads into an encoder and a decoder that agree: the decoder names every
/// token by its rank.
pub proof fn lemma_loaded_codec(data: Seq<char>)
    requires
        spec_load(data) is Ok,
        ranks_distinct(spec_load(data)->Ok_0.enc),
        spec_load(data)->Ok_0.max_id < u32::MAX,
    ensures
        ({
            let st = spec_load(data)->Ok_0;
            codec_consistent(st.enc, decoder_from(st.entries, (st.max_id + 1) as nat))
        }),
{
    let st = spec_load(data)->Ok_0;
    assert(load_inv(initial_load_state()));
    lemma_load_chars_inv(initial_load_state(), seq![], data);
    let n = (st.max_id + 1) as nat;
    lemma_decoder_names_entries(st.entries, n, st.enc);
    assert forall|k: Seq<u8>| #[trigger] st.enc.contains_key(k) implies st.enc[k] <= u32::MAX && (st.enc[k] as int)
        < decoder_from(st.entries, n).len() && decoder_from(st.entries, n)[st.enc[k] as int] == k by {
        let i = choose|i: int| 0 <= i < st.entries.len() && st.entries[i].1 == k;
        let e = st.entries[i];
        assert(st.enc[e.1] == e.0 && e.0 <= st.max_id);
    }
}

/// Decoding undoes encoding for a tokenizer loaded from a rank file whose
/// tokens have distinct ranks below `u32::MAX` and cover every single byte:
/// any text whose pre-tokenization spans tile it comes back unchanged.
pub proof fn lemma_tokenizer_round_trip(data: Seq<char>, text: Seq<char>)
    requires
        spec_load(data) is Ok,
        ranks_distinct(spec_load(data)->Ok_0.enc),
        spec_load(data)->Ok_0.max_id < u32::MAX,
        knows_all_bytes(spec_load(data)->Ok_0.enc),
        spans_tile(regex_find_spans(TIKTOKEN_PATTERN@, text), vstd::utf8::encode_utf8(text).len() as int),
    ensures
        ({
            let st = spec_load(data)->Ok_0;
            let ids = encode_spans_spec(st.enc, vstd::utf8::encode_utf8(text), regex_find_spans(TIKTOKEN_PATTERN@, text));
            decoded_text(decode_bytes_spec(decoder_from(st.entries, (st.max_id + 1) as nat), ids)) == text
        }),
{
    let st = spec_load(data)->Ok_0;
    lemma_loaded_codec(data);
    lemma_text_round_trip(
        st.enc,
        decoder_from(st.entries, (st.max_id + 1) as nat),
        text,
        regex_find_spans(TIKTOKEN_PATTERN@, text),
    );
}

} // verus!
