use vstd::prelude::*;
use crate::text::{decimal, push_decimal, push_str};

verus! {

/// The product of tensor dimensions.
pub open spec fn product(ds: Seq<usize>) -> nat
    decreases ds.len(),
{
    if ds.len() == 0 {
        1
    } else {
        product(ds.drop_last()) * (ds.last() as nat)
    }
}

/// Some leading run of the dimensions multiplies past `usize::MAX`.
pub open spec fn prefix_overflows(ds: Seq<usize>) -> bool {
    exists|i: int| 0 <= i <= ds.len() && product(#[trigger] ds.take(i)) > usize::MAX
}

/// A tensor shape: its dimensions, outermost first.
#[derive(Debug, Clone, PartialEq, Eq, Hash)]
pub struct Shape(Vec<usize>);

impl View for Shape {
    type V = Seq<usize>;

    closed spec fn view(&self) -> Seq<usize> {
        self.0@
    }
}

impl Shape {
    pub fn new(dims: Vec<usize>) -> (s: Shape)
        ensures
            s@ == dims@,
    {
        Shape(dims)
    }

    pub fn dims(&self) -> (d: &[usize])
        ensures
            d@ == self@,
    {
        self.0.as_slice()
    }

    /// The number of elements, or `None` when multiplying the dimensions in
    /// order overflows a `usize` on the way.
    pub fn num_elements(&self) -> (r: Option<usize>)
        ensures
            match r {
                Some(n) => n == product(self@) && !prefix_overflows(self@),
                None => prefix_overflows(self@),
            },
    {
        let ds = &self.0;
        let mut acc: usize = 1;
        let mut i: usize = 0;
        while i < ds.len()
            invariant
                i <= ds@.len(),
                ds@ == self@,
                acc == product(ds@.take(i as int)),
                forall|j: int| 0 <= j <= i ==> product(#[trigger] ds@.take(j)) <= usize::MAX,
            decreases ds@.len() - i,
        {
            assert(ds@.take(i + 1).drop_last() =~= ds@.take(i as int));
            match acc.checked_mul(ds[i]) {
                Some(x) => {
                    acc = x;
                },
                None => {
                    assert(product(ds@.take(i + 1)) > usize::MAX);
                    return None;
                },
            }
            i = i + 1;
        }
        assert(ds@.take(ds@.len() as int) =~= ds@);
        assert forall|j: int| 0 <= j <= ds@.len() implies !(product(#[trigger] ds@.take(j)) > usize::MAX) by {}
        Some(acc)
    }

    pub fn ndim(&self) -> (n: usize)
        ensures
            n == self@.len(),
    {
        self.0.len()
    }

    /// A scalar has no dimensions, or the single dimension 1.
    pub fn is_scalar(&self) -> (b: bool)
        ensures
            b == (self@.len() == 0 || self@ == seq![1usize]),
    {
        let n = self.0.len();
        if n == 0 {
            true
        } else if n == 1 && self.0[0] == 1 {
            assert(self@ =~= seq![1usize]);
            true
        } else {
            false
        }
    }
}

impl From<Vec<usize>> for Shape {
    fn from(dims: Vec<usize>) -> (s: Shape)
        ensures
            s@ == dims@,
    {
        Shape(dims)
    }
}

impl vstd::std_specs::convert::FromSpecImpl<Vec<usize>> for Shape {
    open spec fn obeys_from_spec() -> bool {
        true
    }

    closed spec fn from_spec(dims: Vec<usize>) -> Shape {
        Shape(dims)
    }
}

/// A shape made from a vector keeps the vector's dimensions, also where it is
/// made through `into`.
pub broadcast proof fn lemma_from_keeps_dims(dims: Vec<usize>)
    ensures
        #[trigger] <Shape as vstd::std_specs::convert::FromSpec<Vec<usize>>>::from_spec(dims)@ == dims@,
{
}

/// The dimensions in decimal, separated by ` × `.
pub open spec fn dims_text(ds: Seq<usize>) -> Seq<char>
    decreases ds.len(),
{
    if ds.len() == 0 {
        seq![]
    } else if ds.len() == 1 {
        decimal(ds[0] as nat)
    } else {
        dims_text(ds.drop_last()) + " × "@ + decimal(ds.last() as nat)
    }
}

impl Shape {
    /// The shape as it is shown: `[` the dimensions `]`.
    pub fn display(&self) -> (s: String)
        ensures
            s@ == "["@ + dims_text(self@) + "]"@,
    {
        let mut t = "[".to_owned();
        let mut i: usize = 0;
        let ghost start = t@;
        while i < self.0.len()
            invariant
                i <= self@.len(),
                self@ == self.0@,
                t@ == start + dims_text(self@.take(i as int)),
            decreases self@.len() - i,
        {
            if i > 0 {
                push_str(&mut t, " × ");
            }
            push_decimal(&mut t, self.0[i] as u64);
            proof {
                let ds = self@.take(i + 1);
                assert(ds.drop_last() =~= self@.take(i as int));
                if i == 0 {
                    assert(self@.take(0) =~= Seq::<usize>::empty());
                }
            }
            i = i + 1;
        }
        assert(self@.take(self@.len() as int) =~= self@);
        push_str(&mut t, "]");
        t
    }
}

} // verus!
