//! The similarity score of two lists of numbers: each value of the left list
//! is multiplied by the number of times it occurs in the right list, and the
//! products are summed.
use vstd::prelude::*;
use std::collections::HashMap;
use crate::list_distance::firsts;
use crate::list_distance::seconds;

verus! {

broadcast use vstd::std_specs::hash::group_hash_axioms;

/// How many times `x` occurs in `s`.
pub open spec fn occurrences(s: Seq<u64>, x: u64) -> nat
    decreases s.len(),
{
    if s.len() == 0 {
        0
    } else {
        occurrences(s.drop_last(), x) + if s.last() == x {
            1nat
        } else {
            0nat
        }
    }
}

/// The sum, over the values `a` of `left`, of `a` times the number of times
/// `a` occurs in `right`.
pub open spec fn similarity(left: Seq<u64>, right: Seq<u64>) -> nat
    decreases left.len(),
{
    if left.len() == 0 {
        0
    } else {
        left[0] as nat * occurrences(right, left[0]) + similarity(left.drop_first(), right)
    }
}

proof fn lemma_occurrences_bound(s: Seq<u64>, x: u64)
    ensures
        occurrences(s, x) <= s.len(),
    decreases s.len(),
{
    if s.len() > 0 {
        lemma_occurrences_bound(s.drop_last(), x);
    }
}

/// The similarity score of the left column against the right column.
pub fn run(input: &Vec<(u64, u64)>) -> (r: u64)
    requires
        similarity(firsts(input@), seconds(input@)) <= u64::MAX,
    ensures
        r == similarity(firsts(input@), seconds(input@)),
{
    let ghost right = seconds(input@);
    let mut counts: HashMap<u64, u64> = HashMap::new();
    let mut j: usize = 0;
    while j < input.len()
        invariant
            j <= input.len(),
            right == seconds(input@),
            forall|x: u64|
                #![trigger counts@.contains_key(x)]
                #![trigger occurrences(right.take(j as int), x)]
                counts@.contains_key(x) <==> occurrences(right.take(j as int), x) > 0,
            forall|x: u64|
                #[trigger] counts@.contains_key(x) ==> counts@[x] == occurrences(
                    right.take(j as int),
                    x,
                ),
        decreases input.len() - j,
    {
        let element = input[j].1;
        let ghost before = right.take(j as int);
        assert(right.take(j + 1).drop_last() =~= before);
        proof {
            lemma_occurrences_bound(before, element);
        }
        let count = match counts.get(&element) {
            Some(c) => *c + 1,
            None => 1,
        };
        counts.insert(element, count);
        j = j + 1;
    }
    assert(right.take(j as int) =~= right);
    let ghost left = firsts(input@);
    let ghost whole = similarity(left, right);
    let mut sum: u64 = 0;
    let mut i: usize = 0;
    assert(left.skip(0) =~= left);
    while i < input.len()
        invariant
            i <= input.len(),
            left == firsts(input@),
            whole <= u64::MAX,
            sum + similarity(left.skip(i as int), right) == whole,
            forall|x: u64|
                #![trigger counts@.contains_key(x)]
                #![trigger occurrences(right, x)]
                counts@.contains_key(x) <==> occurrences(right, x) > 0,
            forall|x: u64| #[trigger] counts@.contains_key(x) ==> counts@[x] == occurrences(right, x),
        decreases input.len() - i,
    {
        let s1 = input[i].0;
        assert(left.skip(i as int).drop_first() =~= left.skip(i + 1));
        let c = match counts.get(&s1) {
            Some(c) => *c,
            None => 0,
        };
        sum = sum + s1 * c;
        i = i + 1;
    }
    sum
}

} // verus!
