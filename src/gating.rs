//! Gating: which events a polygon selects, and intersections of selections.
use vstd::prelude::*;
use vstd::relations::{sorted_by, total_ordering};
use vstd::seq_lib::lemma_sorted_unique;

verus! {

/// The events that a gate selected, in ascending order, and how many there are.
pub struct FilterResult {
    pub indices: Vec<usize>,
    pub count: usize,
}

/// The positions of `flags` that hold `true`, in ascending order.
pub open spec fn true_positions(flags: Seq<bool>) -> Seq<usize>
    decreases flags.len(),
{
    if flags.len() == 0 {
        Seq::empty()
    } else {
        let rest = true_positions(flags.drop_last());
        if flags.last() {
            rest.push((flags.len() - 1) as usize)
        } else {
            rest
        }
    }
}

/// The indices of the events whose flag is set, where flag `i` tells whether
/// event `i` falls inside the polygon.
pub fn select_indices(flags: &Vec<bool>) -> (r: FilterResult)
    ensures
        r.indices@ == true_positions(flags@),
        r.count == r.indices@.len(),
{
    let mut indices: Vec<usize> = Vec::new();
    let mut i: usize = 0;
    while i < flags.len()
        invariant
            i <= flags@.len(),
            indices@ == true_positions(flags@.subrange(0, i as int)),
            indices@.len() <= i,
        decreases flags@.len() - i,
    {
        let ghost next = flags@.subrange(0, i + 1);
        assert(next.drop_last() =~= flags@.subrange(0, i as int));
        if flags[i] {
            indices.push(i);
        }
        i = i + 1;
    }
    assert(flags@.subrange(0, flags@.len() as int) =~= flags@);
    let count = indices.len();
    FilterResult { indices, count }
}

/// How many entries of `s` are `true`.
pub open spec fn count_true(s: Seq<bool>) -> nat
    decreases s.len(),
{
    if s.len() == 0 {
        0
    } else {
        count_true(s.drop_last()) + if s.last() { 1nat } else { 0nat }
    }
}

/// The even-odd rule: given, for each edge of a polygon, whether a ray from the
/// point crosses it, the point is inside when the polygon has at least three
/// vertices and the ray crosses an odd number of edges.
pub fn ray_parity(crossings: &Vec<bool>) -> (r: bool)
    ensures
        r == (crossings@.len() >= 3 && count_true(crossings@) % 2 == 1),
{
    if crossings.len() < 3 {
        return false;
    }
    let mut inside = false;
    let mut i: usize = 0;
    while i < crossings.len()
        invariant
            i <= crossings@.len(),
            inside == (count_true(crossings@.subrange(0, i as int)) % 2 == 1),
        decreases crossings@.len() - i,
    {
        assert(crossings@.subrange(0, i + 1).drop_last() =~= crossings@.subrange(0, i as int));
        if crossings[i] {
            inside = !inside;
        }
        i = i + 1;
    }
    assert(crossings@.subrange(0, crossings@.len() as int) =~= crossings@);
    inside
}

pub open spec fn index_leq() -> spec_fn(usize, usize) -> bool {
    |a: usize, b: usize| a <= b
}

pub open spec fn filter_views(fs: Seq<Vec<usize>>) -> Seq<Seq<usize>> {
    fs.map_values(|f: Vec<usize>| f@)
}

/// Whether `x` is in every filter after the first.
pub open spec fn in_later_filters(fs: Seq<Seq<usize>>, x: usize) -> bool {
    forall|j: int| 1 <= j < fs.len() ==> #[trigger] fs[j].contains(x)
}

/// The entries of the first filter that every other filter holds, in the first filter's order.
pub open spec fn common_entries(fs: Seq<Seq<usize>>) -> Seq<usize> {
    if fs.len() == 0 {
        Seq::empty()
    } else {
        fs[0].filter(|x: usize| in_later_filters(fs, x))
    }
}

/// The intersection of the filters, in ascending order.
pub open spec fn intersect_spec(fs: Seq<Seq<usize>>) -> Seq<usize> {
    common_entries(fs).sort_by(index_leq())
}

/// Relies on slice::sort: the result is in ascending order and holds the same entries.
#[verifier::external_body]
fn sort_indices(v: &mut Vec<usize>)
    ensures
        sorted_by(final(v)@, index_leq()),
        final(v)@.to_multiset() == old(v)@.to_multiset(),
{
    v.sort();
}

proof fn lemma_index_leq_total()
    ensures
        total_ordering(index_leq()),
{
}

fn contains_index(f: &Vec<usize>, x: usize) -> (r: bool)
    ensures
        r == f@.contains(x),
{
    let mut i: usize = 0;
    while i < f.len()
        invariant
            i <= f@.len(),
            forall|k: int| 0 <= k < i ==> f@[k] != x,
        decreases f@.len() - i,
    {
        if f[i] == x {
            assert(f@[i as int] == x);
            return true;
        }
        i = i + 1;
    }
    false
}

/// The indices that every filter holds, sorted ascending; none for no filters.
pub fn intersect_filters(filters: &Vec<Vec<usize>>) -> (r: Vec<usize>)
    ensures
        r@ == intersect_spec(filter_views(filters@)),
{
    let ghost fs = filter_views(filters@);
    let mut result: Vec<usize> = Vec::new();
    if filters.len() > 0 {
        let first = &filters[0];
        assert(fs[0] == filters@[0]@);
        let mut i: usize = 0;
        while i < first.len()
            invariant
                fs == filter_views(filters@),
                filters@.len() > 0,
                first@ == fs[0],
                i <= first@.len(),
                result@ == first@.subrange(0, i as int).filter(|x: usize| in_later_filters(fs, x)),
            decreases first@.len() - i,
        {
            let x = first[i];
            let mut keep = true;
            let mut j: usize = 1;
            while j < filters.len()
                invariant
                    fs == filter_views(filters@),
                    1 <= j <= filters@.len(),
                    keep == (forall|k: int| 1 <= k < j ==> #[trigger] fs[k].contains(x)),
                decreases filters@.len() - j,
            {
                assert(fs[j as int] == filters@[j as int]@);
                if !contains_index(&filters[j], x) {
                    keep = false;
                }
                j = j + 1;
            }
            proof {
                let pre = first@.subrange(0, i as int);
                let next = first@.subrange(0, i + 1);
                assert(next.drop_last() =~= pre);
                reveal(Seq::filter);
                assert(keep == in_later_filters(fs, x));
            }
            if keep {
                result.push(x);
            }
            i = i + 1;
        }
        assert(first@.subrange(0, first@.len() as int) =~= first@);
    }
    let ghost kept = result@;
    assert(kept == common_entries(fs));
    sort_indices(&mut result);
    proof {
        lemma_index_leq_total();
        kept.lemma_sort_by_ensures(index_leq());
        lemma_sorted_unique(result@, kept.sort_by(index_leq()), index_leq());
    }
    result
}

proof fn lemma_filter_all<A>(s: Seq<A>, p: spec_fn(A) -> bool)
    requires
        forall|i: int| 0 <= i < s.len() ==> p(#[trigger] s[i]),
    ensures
        s.filter(p) == s,
    decreases s.len(),
{
    reveal(Seq::filter);
    if s.len() > 0 {
        lemma_filter_all(s.drop_last(), p);
        assert(s.drop_last().push(s.last()) =~= s);
    }
}

/// Intersecting a filter with itself selects what the filter alone selects.
pub proof fn lemma_intersect_self(f: Seq<usize>)
    ensures
        intersect_spec(seq![f, f]) == intersect_spec(seq![f]),
{
    let two = seq![f, f];
    let one = seq![f];
    assert forall|i: int| 0 <= i < f.len() implies #[trigger] in_later_filters(two, f[i]) by {
        assert(two[1].contains(f[i]));
    }
    lemma_filter_all(f, |x: usize| in_later_filters(two, x));
    lemma_filter_all(f, |x: usize| in_later_filters(one, x));
}

proof fn lemma_filter_count<A>(s: Seq<A>, p: spec_fn(A) -> bool, v: A)
    ensures
        s.filter(p).to_multiset().count(v) == if p(v) { s.to_multiset().count(v) } else { 0 },
    decreases s.len(),
{
    broadcast use vstd::seq_lib::group_to_multiset_ensures;
    broadcast use vstd::multiset::group_multiset_axioms;

    reveal(Seq::filter);
    if s.len() == 0 {
        assert(s.filter(p) =~= s);
    } else {
        lemma_filter_count(s.drop_last(), p, v);
        assert(s.drop_last().push(s.last()) =~= s);
    }
}

proof fn lemma_count_unique(s: Seq<usize>, v: usize)
    requires
        s.no_duplicates(),
    ensures
        s.to_multiset().count(v) == if s.contains(v) { 1nat } else { 0nat },
{
    broadcast use vstd::seq_lib::group_to_multiset_ensures;
    broadcast use vstd::multiset::group_multiset_axioms;

    s.lemma_multiset_has_no_duplicates();
}

/// For two filters that each hold an index at most once, the order in which
/// they are intersected does not change the result.
pub proof fn lemma_intersect_order(a: Seq<usize>, b: Seq<usize>)
    requires
        a.no_duplicates(),
        b.no_duplicates(),
    ensures
        intersect_spec(seq![a, b]) == intersect_spec(seq![b, a]),
{
    let ab = seq![a, b];
    let ba = seq![b, a];
    let pa = |x: usize| in_later_filters(ab, x);
    let pb = |x: usize| in_later_filters(ba, x);
    let x = common_entries(ab);
    let y = common_entries(ba);
    assert forall|v: usize| #[trigger] x.to_multiset().count(v) == y.to_multiset().count(v) by {
        lemma_filter_count(a, pa, v);
        lemma_filter_count(b, pb, v);
        lemma_count_unique(a, v);
        lemma_count_unique(b, v);
        assert(pa(v) == b.contains(v)) by {
            if b.contains(v) {
                assert(ab[1] == b);
            }
        }
        assert(pb(v) == a.contains(v)) by {
            if a.contains(v) {
                assert(ba[1] == a);
            }
        }
    }
    assert(x.to_multiset() =~= y.to_multiset());
    lemma_index_leq_total();
    x.lemma_sort_by_ensures(index_leq());
    y.lemma_sort_by_ensures(index_leq());
    lemma_sorted_unique(x.sort_by(index_leq()), y.sort_by(index_leq()), index_leq());
}

} // verus!
