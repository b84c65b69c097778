use vstd::prelude::*;
use vstd::seq_lib::to_multiset_build;
use vstd::seq_lib::to_multiset_insert;
use crate::text::str_chars;

verus! {

/// Something that has a name to be sorted by.
pub trait Named {
    spec fn name_view(&self) -> Seq<char>;

    fn name_str(&self) -> (s: &str)
        ensures
            s@ == self.name_view();
}

/// Code-point lexicographic order on names: the order of `str`'s `cmp`
/// (UTF-8 byte order and code-point order agree).
pub open spec fn name_lt(a: Seq<char>, b: Seq<char>) -> bool
    decreases a.len(),
{
    if b.len() == 0 {
        false
    } else if a.len() == 0 {
        true
    } else if (a[0] as u32) < (b[0] as u32) {
        true
    } else if a[0] == b[0] {
        name_lt(a.drop_first(), b.drop_first())
    } else {
        false
    }
}

/// No name comes before itself.
pub proof fn lemma_name_lt_irreflexive(a: Seq<char>)
    ensures
        !name_lt(a, a),
    decreases a.len(),
{
    if a.len() > 0 {
        lemma_name_lt_irreflexive(a.drop_first());
    }
}

/// The name order is transitive.
pub proof fn lemma_name_lt_transitive(a: Seq<char>, b: Seq<char>, c: Seq<char>)
    requires
        name_lt(a, b),
        name_lt(b, c),
    ensures
        name_lt(a, c),
    decreases a.len(),
{
    if a.len() > 0 && a[0] == b[0] && b[0] == c[0] {
        lemma_name_lt_transitive(a.drop_first(), b.drop_first(), c.drop_first());
    }
}

/// Of two different names, one comes before the other.
pub proof fn lemma_name_lt_total(a: Seq<char>, b: Seq<char>)
    requires
        a != b,
    ensures
        name_lt(a, b) || name_lt(b, a),
    decreases a.len(),
{
    if a.len() > 0 && b.len() > 0 && a[0] == b[0] {
        if a.drop_first() == b.drop_first() {
            assert(a =~= seq![a[0]] + a.drop_first());
            assert(b =~= seq![b[0]] + b.drop_first());
        }
        lemma_name_lt_total(a.drop_first(), b.drop_first());
    } else if a.len() > 0 && b.len() > 0 && a[0] != b[0] {
        vstd::utf8::char_u32_cast(a[0], a[0] as u32);
        vstd::utf8::char_u32_cast(b[0], b[0] as u32);
    } else if a.len() == 0 && b.len() == 0 {
        assert(a =~= b);
    }
}

/// Whether name `a` comes before name `b`.
pub fn name_less(a: &str, b: &str) -> (r: bool)
    ensures
        r == name_lt(a@, b@),
{
    let x = str_chars(a);
    let y = str_chars(b);
    let mut i: usize = 0;
    assert(a@.skip(0) =~= a@ && b@.skip(0) =~= b@);
    while i < x.len() && i < y.len() && x[i] == y[i]
        invariant
            x@ == a@,
            y@ == b@,
            i <= x@.len(),
            i <= y@.len(),
            name_lt(a@, b@) == name_lt(a@.skip(i as int), b@.skip(i as int)),
        decreases x@.len() - i,
    {
        let ghost sa = a@.skip(i as int);
        let ghost sb = b@.skip(i as int);
        assert(sa.drop_first() =~= a@.skip(i + 1));
        assert(sb.drop_first() =~= b@.skip(i + 1));
        i = i + 1;
    }
    if i == y.len() {
        false
    } else if i == x.len() {
        true
    } else {
        (x[i] as u32) < (y[i] as u32)
    }
}

/// No name comes before the name of an item ahead of it.
pub open spec fn sorted_by_name<T: Named>(s: Seq<T>) -> bool {
    forall|i: int, j: int| 0 <= i < j < s.len() ==> !name_lt(#[trigger] s[j].name_view(), #[trigger] s[i].name_view())
}

/// Sorts items by name: a permutation of the input in name order.
pub fn sort_by_name<T: Named>(entries: Vec<T>) -> (r: Vec<T>)
    ensures
        r@.to_multiset() == entries@.to_multiset(),
        sorted_by_name(r@),
{
    let ghost orig = entries@;
    let mut rest = entries;
    let mut out: Vec<T> = Vec::new();
    assert(rest@.to_multiset().add(out@.to_multiset()) =~= orig.to_multiset()) by {
        broadcast use vstd::seq_lib::group_to_multiset_ensures;
        broadcast use vstd::multiset::group_multiset_axioms;
        assert(out@.to_multiset() =~= vstd::multiset::Multiset::empty());
    }
    while rest.len() > 0
        invariant
            rest@.to_multiset().add(out@.to_multiset()) == orig.to_multiset(),
            sorted_by_name(out@),
        decreases rest@.len(),
    {
        let ghost before = rest@;
        let item = rest.pop().unwrap();
        proof {
            assert(before =~= rest@.push(item));
            to_multiset_build(rest@, item);
        }
        let mut k: usize = 0;
        while k < out.len() && name_less(out[k].name_str(), item.name_str())
            invariant
                k <= out@.len(),
                forall|i: int| 0 <= i < k ==> name_lt(#[trigger] out@[i].name_view(), item.name_view()),
            decreases out@.len() - k,
        {
            k = k + 1;
        }
        let ghost prev = out@;
        proof {
            assert forall|i: int, j: int| 0 <= i < j < prev.len() + 1 implies !name_lt(
                #[trigger] prev.insert(k as int, item)[j].name_view(),
                #[trigger] prev.insert(k as int, item)[i].name_view(),
            ) by {
                let s = prev.insert(k as int, item);
                if j == k {
                    assert(name_lt(prev[i].name_view(), item.name_view()));
                    if name_lt(item.name_view(), prev[i].name_view()) {
                        lemma_name_lt_transitive(item.name_view(), prev[i].name_view(), item.name_view());
                        lemma_name_lt_irreflexive(item.name_view());
                    }
                } else if i == k {
                    // item, then prev[j - 1], and prev[k] is not before item
                    assert(!name_lt(prev[k as int].name_view(), item.name_view()));
                    if name_lt(prev[j - 1].name_view(), item.name_view()) {
                        if j - 1 > k {
                            assert(!name_lt(prev[j - 1].name_view(), prev[k as int].name_view()));
                            if prev[j - 1].name_view() != prev[k as int].name_view() {
                                lemma_name_lt_total(prev[j - 1].name_view(), prev[k as int].name_view());
                                lemma_name_lt_transitive(prev[k as int].name_view(), prev[j - 1].name_view(), item.name_view());
                            }
                        }
                    }
                } else if i < k && j < k {
                    assert(s[i] == prev[i] && s[j] == prev[j]);
                } else if i < k && j > k {
                    assert(s[i] == prev[i] && s[j] == prev[j - 1]);
                } else {
                    assert(s[i] == prev[i - 1] && s[j] == prev[j - 1]);
                }
            }
            to_multiset_insert(prev, k as int, item);
        }
        out.insert(k, item);
        proof {
            broadcast use vstd::multiset::group_multiset_axioms;
            assert(rest@.to_multiset().add(out@.to_multiset()) =~= orig.to_multiset());
        }
    }
    proof {
        broadcast use vstd::seq_lib::group_to_multiset_ensures;
        broadcast use vstd::multiset::group_multiset_axioms;
        assert(rest@ =~= Seq::<T>::empty());
        assert(rest@.to_multiset() =~= vstd::multiset::Multiset::empty());
        assert(out@.to_multiset() =~= orig.to_multiset());
    }
    out
}

/// Sequences with the same elements keep the same elements under a map.
pub proof fn lemma_permutation_map<A, B>(s1: Seq<A>, s2: Seq<A>, f: spec_fn(A) -> B)
    requires
        s1.to_multiset() == s2.to_multiset(),
    ensures
        s1.map_values(f).to_multiset() == s2.map_values(f).to_multiset(),
    decreases s1.len(),
{
    broadcast use vstd::seq_lib::group_to_multiset_ensures;
    broadcast use vstd::multiset::group_multiset_axioms;

    if s1.len() == 0 {
        assert(s1.to_multiset().len() == 0);
        assert(s2.len() == s2.to_multiset().len());
        assert(s2.len() == 0);
        assert(s1.map_values(f) =~= Seq::<B>::empty());
        assert(s2.map_values(f) =~= Seq::<B>::empty());
    } else {
        let x = s1.last();
        let rest = s1.drop_last();
        assert(s1 =~= rest.push(x));
        assert(s1.to_multiset().count(x) > 0);
        assert(s2.contains(x));
        let j = choose|j: int| 0 <= j < s2.len() && s2[j] == x;
        let s2r = s2.remove(j);
        assert(s2r.to_multiset() =~= rest.to_multiset());
        lemma_permutation_map(rest, s2r, f);
        assert(s2r.map_values(f) =~= s2.map_values(f).remove(j));
        assert(s1.map_values(f) =~= rest.map_values(f).push(f(x)));
        assert(s2.map_values(f)[j] == f(x));
        assert(s1.map_values(f).to_multiset() =~= s2.map_values(f).to_multiset());
    }
}

} // verus!
