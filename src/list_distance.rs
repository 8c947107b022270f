//! The total distance between two lists of numbers: both are sorted, and the
//! absolute differences of the values at equal positions are summed.
use vstd::prelude::*;
use vstd::relations::sorted_by;
use vstd::relations::total_ordering;

verus! {

/// Ascending order on `u64`.
pub open spec fn ascending() -> spec_fn(u64, u64) -> bool {
    |a: u64, b: u64| a <= b
}

pub open spec fn firsts(pairs: Seq<(u64, u64)>) -> Seq<u64> {
    pairs.map_values(|p: (u64, u64)| p.0)
}

pub open spec fn seconds(pairs: Seq<(u64, u64)>) -> Seq<u64> {
    pairs.map_values(|p: (u64, u64)| p.1)
}

pub open spec fn distance(a: u64, b: u64) -> nat {
    if a <= b {
        (b - a) as nat
    } else {
        (a - b) as nat
    }
}

/// The sum of the distances between values at equal positions.
pub open spec fn distance_sum(a: Seq<u64>, b: Seq<u64>) -> nat
    decreases a.len(),
{
    if a.len() == 0 || b.len() == 0 {
        0
    } else {
        distance(a[0], b[0]) + distance_sum(a.drop_first(), b.drop_first())
    }
}

/// The distance between the sorted left column and the sorted right column.
pub open spec fn total_distance(pairs: Seq<(u64, u64)>) -> nat {
    distance_sum(firsts(pairs).sort_by(ascending()), seconds(pairs).sort_by(ascending()))
}

/// Relies on `slice::sort`: the same values, in ascending order.
#[verifier::external_body]
fn sort_ascending(v: &mut Vec<u64>)
    ensures
        final(v)@.to_multiset() == old(v)@.to_multiset(),
        sorted_by(final(v)@, ascending()),
{
    v.sort()
}

/// Sorts `v` and shows that the result is the sorted sequence.
fn sorted(v: &mut Vec<u64>)
    ensures
        final(v)@ == old(v)@.sort_by(ascending()),
{
    let ghost before = v@;
    sort_ascending(v);
    proof {
        assert(total_ordering(ascending()));
        before.lemma_sort_by_ensures(ascending());
        vstd::seq_lib::lemma_sorted_unique(v@, before.sort_by(ascending()), ascending());
    }
}

/// Pairs up the smallest values of both columns, then the next smallest,
/// and so on, and sums the distances of the pairs.
pub fn run(input: &Vec<(u64, u64)>) -> (r: u64)
    requires
        total_distance(input@) <= u64::MAX,
    ensures
        r == total_distance(input@),
{
    let mut first: Vec<u64> = Vec::new();
    let mut second: Vec<u64> = Vec::new();
    let mut k: usize = 0;
    while k < input.len()
        invariant
            k <= input.len(),
            first@ == firsts(input@).take(k as int),
            second@ == seconds(input@).take(k as int),
        decreases input.len() - k,
    {
        let (i1, i2) = input[k];
        first.push(i1);
        second.push(i2);
        k = k + 1;
        assert(first@ =~= firsts(input@).take(k as int));
        assert(second@ =~= seconds(input@).take(k as int));
    }
    assert(first@ =~= firsts(input@));
    assert(second@ =~= seconds(input@));
    sorted(&mut first);
    sorted(&mut second);
    let ghost whole = distance_sum(first@, second@);
    let mut sum: u64 = 0;
    let mut i: usize = 0;
    assert(first@.skip(0) =~= first@);
    assert(second@.skip(0) =~= second@);
    while i < first.len() && i < second.len()
        invariant
            i <= first.len(),
            i <= second.len(),
            whole <= u64::MAX,
            sum + distance_sum(first@.skip(i as int), second@.skip(i as int)) == whole,
        decreases first.len() - i,
    {
        let s1 = first[i];
        let s2 = second[i];
        let dist = if s2 >= s1 {
            s2 - s1
        } else {
            s1 - s2
        };
        assert(first@.skip(i as int).drop_first() =~= first@.skip(i + 1));
        assert(second@.skip(i as int).drop_first() =~= second@.skip(i + 1));
        sum = sum + dist;
        i = i + 1;
    }
    sum
}

} // verus!
