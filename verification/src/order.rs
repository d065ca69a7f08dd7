//! Stable ordering by a two-level integer rank.
//!
//! Every ordered collection of the scheduler (the job queue, listings of jobs and keys,
//! GPU candidates) is kept in ascending rank, and an element that ties with elements
//! already present goes after them, so equal ranks keep their arrival order.
use vstd::prelude::*;

verus! {

broadcast use vstd::seq_lib::group_to_multiset_ensures;

/// Lexicographic "strictly before" on ranks.
pub open spec fn rank_lt(a: (int, int), b: (int, int)) -> bool {
    a.0 < b.0 || (a.0 == b.0 && a.1 < b.1)
}

/// Something that can be placed in a ranked order.
pub trait Ranked: Sized {
    /// The rank; smaller ranks come first.
    spec fn rank(&self) -> (int, int);

    /// Whether `self` must come strictly before `other`.
    fn ranks_before(&self, other: &Self) -> (r: bool)
        ensures
            r == rank_lt(self.rank(), other.rank()),
    ;
}

/// No element is strictly before an element that precedes it.
pub open spec fn is_ranked<T: Ranked>(s: Seq<T>) -> bool {
    forall|i: int, j: int| 0 <= i < j < s.len() ==> !rank_lt(#[trigger] s[j].rank(), #[trigger] s[i].rank())
}

/// Where `x` goes in `s`: before the first element that `x` strictly precedes.
pub open spec fn insertion_index<T: Ranked>(s: Seq<T>, x: T) -> int
    decreases s.len(),
{
    if s.len() == 0 {
        0
    } else if rank_lt(x.rank(), s[0].rank()) {
        0
    } else {
        1 + insertion_index(s.drop_first(), x)
    }
}

/// `s` with `x` inserted after every element that it does not strictly precede.
pub open spec fn ranked_insert<T: Ranked>(s: Seq<T>, x: T) -> Seq<T>
    decreases s.len(),
{
    if s.len() == 0 {
        seq![x]
    } else if rank_lt(x.rank(), s[0].rank()) {
        seq![x] + s
    } else {
        seq![s[0]] + ranked_insert(s.drop_first(), x)
    }
}

/// `s` ordered by rank, equal ranks in their original order (insertion sort).
pub open spec fn ranked_sort<T: Ranked>(s: Seq<T>) -> Seq<T>
    decreases s.len(),
{
    if s.len() == 0 {
        s
    } else {
        ranked_insert(ranked_sort(s.drop_last()), s.last())
    }
}

/// The elements of `s` whose rank is `r`, in order.
pub open spec fn rank_class<T: Ranked>(s: Seq<T>, r: (int, int)) -> Seq<T>
    decreases s.len(),
{
    if s.len() == 0 {
        s
    } else if s[0].rank() == r {
        seq![s[0]] + rank_class(s.drop_first(), r)
    } else {
        rank_class(s.drop_first(), r)
    }
}

/// The insertion index is the first position whose element `x` strictly precedes,
/// and inserting there is `ranked_insert`.
pub proof fn lemma_insertion_index<T: Ranked>(s: Seq<T>, x: T)
    ensures
        0 <= insertion_index(s, x) <= s.len(),
        forall|i: int| 0 <= i < insertion_index(s, x) ==> !rank_lt(x.rank(), #[trigger] s[i].rank()),
        insertion_index(s, x) < s.len() ==> rank_lt(x.rank(), s[insertion_index(s, x)].rank()),
        ranked_insert(s, x) == s.insert(insertion_index(s, x), x),
    decreases s.len(),
{
    if s.len() == 0 {
        assert(ranked_insert(s, x) =~= s.insert(0, x));
    } else if rank_lt(x.rank(), s[0].rank()) {
        assert(ranked_insert(s, x) =~= s.insert(0, x));
    } else {
        let t = s.drop_first();
        lemma_insertion_index(t, x);
        let k = insertion_index(t, x);
        assert forall|i: int| 0 <= i < insertion_index(s, x) implies !rank_lt(x.rank(), #[trigger] s[i].rank()) by {
            if i > 0 {
                assert(s[i] == t[i - 1]);
            }
        }
        assert(ranked_insert(s, x) =~= s.insert(k + 1, x));
    }
}

/// The insertion index is characterised by the first element that `x` strictly precedes.
pub proof fn lemma_insertion_index_unique<T: Ranked>(s: Seq<T>, x: T, p: int)
    requires
        0 <= p <= s.len(),
        forall|i: int| 0 <= i < p ==> !rank_lt(x.rank(), #[trigger] s[i].rank()),
        p < s.len() ==> rank_lt(x.rank(), s[p].rank()),
    ensures
        insertion_index(s, x) == p,
{
    lemma_insertion_index(s, x);
    let q = insertion_index(s, x);
    if q < p {
        assert(!rank_lt(x.rank(), s[q].rank()));
    } else if p < q {
        assert(!rank_lt(x.rank(), s[p].rank()));
    }
}

/// Ranked insertion keeps a ranked sequence ranked.
pub proof fn lemma_ranked_insert_keeps_order<T: Ranked>(s: Seq<T>, x: T)
    requires
        is_ranked(s),
    ensures
        is_ranked(ranked_insert(s, x)),
{
    lemma_insertion_index(s, x);
    let p = insertion_index(s, x);
    let t = ranked_insert(s, x);
    assert forall|i: int, j: int| 0 <= i < j < t.len() implies !rank_lt(#[trigger] t[j].rank(), #[trigger] t[i].rank()) by {
        if i < p && j < p {
            assert(t[i] == s[i] && t[j] == s[j]);
        } else if i < p && j == p {
            assert(t[i] == s[i]);
        } else if i < p {
            assert(t[i] == s[i] && t[j] == s[j - 1]);
        } else if i == p {
            assert(t[j] == s[j - 1]);
            assert(rank_lt(x.rank(), s[p].rank()));
            if j - 1 > p {
                assert(!rank_lt(s[j - 1].rank(), s[p].rank()));
            }
        } else {
            assert(t[i] == s[i - 1] && t[j] == s[j - 1]);
        }
    }
}

/// Ranked insertion adds exactly one element and loses none.
pub proof fn lemma_ranked_insert_contents<T: Ranked>(s: Seq<T>, x: T)
    ensures
        ranked_insert(s, x).to_multiset() == s.to_multiset().insert(x),
        ranked_insert(s, x).len() == s.len() + 1,
{
    lemma_insertion_index(s, x);
}

/// Sorting yields a ranked arrangement of exactly the same elements.
pub proof fn lemma_ranked_sort<T: Ranked>(s: Seq<T>)
    ensures
        is_ranked(ranked_sort(s)),
        ranked_sort(s).to_multiset() == s.to_multiset(),
        ranked_sort(s).len() == s.len(),
    decreases s.len(),
{
    if s.len() == 0 {
    } else {
        let t = s.drop_last();
        lemma_ranked_sort(t);
        lemma_ranked_insert_keeps_order(ranked_sort(t), s.last());
        lemma_ranked_insert_contents(ranked_sort(t), s.last());
        assert(s =~= t.push(s.last()));
    }
}

/// Appending an element extends its rank class at the end.
pub proof fn lemma_rank_class_push<T: Ranked>(s: Seq<T>, y: T, r: (int, int))
    ensures
        rank_class(s.push(y), r) == if y.rank() == r {
            rank_class(s, r).push(y)
        } else {
            rank_class(s, r)
        },
    decreases s.len(),
{
    if s.len() == 0 {
        assert(s.push(y).drop_first() =~= s);
        assert(rank_class(s.push(y), r) =~= (if y.rank() == r {
            rank_class(s, r).push(y)
        } else {
            rank_class(s, r)
        }));
    } else {
        lemma_rank_class_push(s.drop_first(), y, r);
        assert(s.push(y).drop_first() =~= s.drop_first().push(y));
        assert(rank_class(s.push(y), r) =~= (if y.rank() == r {
            rank_class(s, r).push(y)
        } else {
            rank_class(s, r)
        }));
    }
}

/// In a ranked sequence, ranked insertion places `x` after every element of its rank.
pub proof fn lemma_rank_class_insert<T: Ranked>(s: Seq<T>, x: T, r: (int, int))
    requires
        is_ranked(s),
    ensures
        rank_class(ranked_insert(s, x), r) == if x.rank() == r {
            rank_class(s, r).push(x)
        } else {
            rank_class(s, r)
        },
    decreases s.len(),
{
    if s.len() == 0 {
        lemma_rank_class_push(s, x, r);
        assert(ranked_insert(s, x) =~= s.push(x));
    } else if rank_lt(x.rank(), s[0].rank()) {
        // every element of s ranks at or after s[0], hence strictly after x
        assert forall|i: int| 0 <= i < s.len() implies #[trigger] s[i].rank() != x.rank() by {
            if i > 0 {
                assert(!rank_lt(s[i].rank(), s[0].rank()));
            }
        }
        lemma_rank_class_none(s, x.rank());
        if x.rank() == r {
            assert(rank_class(s, r) =~= Seq::<T>::empty());
            assert((seq![x] + s).drop_first() =~= s);
            assert(rank_class(ranked_insert(s, x), r) =~= rank_class(s, r).push(x));
        } else {
            assert((seq![x] + s).drop_first() =~= s);
        }
    } else {
        let t = s.drop_first();
        assert(is_ranked(t)) by {
            assert forall|i: int, j: int| 0 <= i < j < t.len() implies !rank_lt(#[trigger] t[j].rank(), #[trigger] t[i].rank()) by {
                assert(t[i] == s[i + 1] && t[j] == s[j + 1]);
            }
        }
        lemma_rank_class_insert(t, x, r);
        assert((seq![s[0]] + ranked_insert(t, x)).drop_first() =~= ranked_insert(t, x));
        assert(rank_class(ranked_insert(s, x), r) =~= (if x.rank() == r {
            rank_class(s, r).push(x)
        } else {
            rank_class(s, r)
        }));
    }
}

/// A sequence none of whose elements has rank `r` has an empty rank class.
pub proof fn lemma_rank_class_none<T: Ranked>(s: Seq<T>, r: (int, int))
    requires
        forall|i: int| 0 <= i < s.len() ==> #[trigger] s[i].rank() != r,
    ensures
        rank_class(s, r) == Seq::<T>::empty(),
    decreases s.len(),
{
    if s.len() > 0 {
        let t = s.drop_first();
        assert forall|i: int| 0 <= i < t.len() implies #[trigger] t[i].rank() != r by {
            assert(t[i] == s[i + 1]);
        }
        lemma_rank_class_none(t, r);
        assert(rank_class(s, r) =~= Seq::<T>::empty());
    } else {
        assert(rank_class(s, r) =~= Seq::<T>::empty());
    }
}

/// Law: sorting is stable; it keeps the elements of each rank in their original order.
pub proof fn law_ranked_sort_stable<T: Ranked>(s: Seq<T>, r: (int, int))
    ensures
        rank_class(ranked_sort(s), r) == rank_class(s, r),
    decreases s.len(),
{
    if s.len() > 0 {
        let t = s.drop_last();
        law_ranked_sort_stable(t, r);
        lemma_ranked_sort(t);
        lemma_rank_class_insert(ranked_sort(t), s.last(), r);
        lemma_rank_class_push(t, s.last(), r);
        assert(s =~= t.push(s.last()));
    }
}

/// The index of the first element satisfying `p`, if any.
pub open spec fn first_match<T>(s: Seq<T>, p: spec_fn(T) -> bool) -> Option<int>
    decreases s.len(),
{
    if s.len() == 0 {
        None
    } else if p(s[0]) {
        Some(0)
    } else {
        match first_match(s.drop_first(), p) {
            Some(i) => Some(i + 1),
            None => None,
        }
    }
}

/// `first_match` finds the first element satisfying the predicate, or reports that none does.
pub proof fn lemma_first_match<T>(s: Seq<T>, p: spec_fn(T) -> bool)
    ensures
        match first_match(s, p) {
            Some(i) => 0 <= i < s.len() && p(s[i]) && forall|k: int| 0 <= k < i ==> !p(#[trigger] s[k]),
            None => forall|k: int| 0 <= k < s.len() ==> !p(#[trigger] s[k]),
        },
    decreases s.len(),
{
    if s.len() > 0 {
        let t = s.drop_first();
        lemma_first_match(t, p);
        assert forall|k: int| 1 <= k < s.len() implies #[trigger] s[k] == t[k - 1] by {}
    }
}

/// An element satisfying `p` with none before it is the first match.
pub proof fn lemma_first_match_at<T>(s: Seq<T>, p: spec_fn(T) -> bool, i: int)
    requires
        0 <= i < s.len(),
        p(s[i]),
        forall|k: int| 0 <= k < i ==> !p(#[trigger] s[k]),
    ensures
        first_match(s, p) == Some(i),
{
    lemma_first_match(s, p);
    match first_match(s, p) {
        Some(j) => {
            if j < i {
                assert(!p(s[j]));
            } else if j > i {
                assert(!p(s[i]));
            }
        },
        None => {
            assert(!p(s[i]));
        },
    }
}

/// With no element satisfying `p` there is no first match.
pub proof fn lemma_first_match_none<T>(s: Seq<T>, p: spec_fn(T) -> bool)
    requires
        forall|k: int| 0 <= k < s.len() ==> !p(#[trigger] s[k]),
    ensures
        first_match(s, p) is None,
{
    lemma_first_match(s, p);
    if first_match(s, p) is Some {
        let j = first_match(s, p)->0;
        assert(!p(s[j]));
    }
}

/// Inserts `x` into the ranked vector `v` after all elements it does not strictly precede.
/// Returns the position where `x` now stands.
pub fn insert_ranked<T: Ranked>(v: &mut Vec<T>, x: T) -> (pos: usize)
    ensures
        final(v)@ == ranked_insert(old(v)@, x),
        pos == insertion_index(old(v)@, x),
        final(v)@ == old(v)@.insert(pos as int, x),
{
    let n = v.len();
    let mut i: usize = 0;
    while i < n
        invariant
            n == v@.len(),
            v@ == old(v)@,
            i <= n,
            forall|k: int| 0 <= k < i ==> !rank_lt(x.rank(), #[trigger] v@[k].rank()),
        ensures
            i <= n,
            v@ == old(v)@,
            forall|k: int| 0 <= k < i ==> !rank_lt(x.rank(), #[trigger] v@[k].rank()),
            i < n ==> rank_lt(x.rank(), v@[i as int].rank()),
        decreases n - i,
    {
        if x.ranks_before(&v[i]) {
            break;
        }
        i = i + 1;
    }
    proof {
        lemma_insertion_index(old(v)@, x);
        lemma_insertion_index_unique(old(v)@, x, i as int);
    }
    v.insert(i, x);
    i
}

/// `v` sorted by rank, equal ranks keeping their order.
pub fn sort_ranked<T: Ranked>(v: Vec<T>) -> (r: Vec<T>)
    ensures
        r@ == ranked_sort(v@),
{
    let ghost orig = v@;
    let mut rest = v;
    let mut out: Vec<T> = Vec::new();
    let ghost mut k: int = 0;
    while rest.len() > 0
        invariant
            0 <= k <= orig.len(),
            rest@ == orig.skip(k),
            out@ == ranked_sort(orig.take(k)),
        decreases rest@.len(),
    {
        let x = rest.remove(0);
        proof {
            assert(orig.take(k + 1).drop_last() =~= orig.take(k));
            assert(orig.take(k + 1).last() == x);
        }
        insert_ranked(&mut out, x);
        proof {
            k = k + 1;
            assert(rest@ =~= orig.skip(k));
        }
    }
    assert(orig.take(k) =~= orig);
    out
}

} // verus!
