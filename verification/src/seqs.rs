use vstd::prelude::*;

verus! {

/// Filtering one element more either appends that element or changes nothing.
pub proof fn lemma_filter_step<A>(s: Seq<A>, p: spec_fn(A) -> bool, i: int)
    requires
        0 <= i < s.len(),
    ensures
        s.take(i + 1).filter(p) == if p(s[i]) {
            s.take(i).filter(p).push(s[i])
        } else {
            s.take(i).filter(p)
        },
{
    reveal(Seq::filter);
    assert(s.take(i + 1).drop_last() == s.take(i));
}

/// Filtering nothing leaves nothing, and taking everything takes the whole.
pub proof fn lemma_filter_none<A>(s: Seq<A>, p: spec_fn(A) -> bool)
    ensures
        s.take(0).filter(p) == Seq::<A>::empty(),
        s.take(s.len() as int) == s,
{
    reveal(Seq::filter);
    assert(s.take(0).len() == 0);
}

/// Whether `x` is among `items`.
pub fn contains(items: &Vec<u64>, x: u64) -> (found: bool)
    ensures
        found == items@.contains(x),
{
    let mut i: usize = 0;
    while i < items.len()
        invariant
            0 <= i <= items.len(),
            forall|j: int| 0 <= j < i ==> items@[j] != x,
        decreases items.len() - i,
    {
        if items[i] == x {
            return true;
        }
        i += 1;
    }
    false
}

/// The predicate "is not among `items`".
pub open spec fn not_in(items: Seq<u64>) -> spec_fn(u64) -> bool {
    |x: u64| !items.contains(x)
}

/// The elements of `a`, in order, that are not among `b`.
pub fn without(a: &Vec<u64>, b: &Vec<u64>) -> (out: Vec<u64>)
    ensures
        out@ == a@.filter(not_in(b@)),
{
    let mut out: Vec<u64> = Vec::new();
    let mut i: usize = 0;
    proof {
        lemma_filter_none(a@, not_in(b@));
    }
    while i < a.len()
        invariant
            0 <= i <= a.len(),
            out@ == a@.take(i as int).filter(not_in(b@)),
        decreases a.len() - i,
    {
        proof {
            lemma_filter_step(a@, not_in(b@), i as int);
        }
        if !contains(b, a[i]) {
            out.push(a[i]);
        }
        i += 1;
    }
    proof {
        lemma_filter_none(a@, not_in(b@));
    }
    out
}

} // verus!
