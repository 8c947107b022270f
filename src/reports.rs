//! Counting safe reports: a report is a list of levels, and it is safe when
//! its levels all increase or all decrease, by one to three at each step.
use vstd::prelude::*;

verus! {

/// The change from level `i` to level `i + 1`.
pub open spec fn change(r: Seq<u64>, i: int) -> int {
    r[i + 1] - r[i]
}

pub open spec fn increasing(r: Seq<u64>) -> bool {
    forall|i: int| 0 <= i < r.len() - 1 ==> #[trigger] change(r, i) > 0
}

pub open spec fn decreasing(r: Seq<u64>) -> bool {
    forall|i: int| 0 <= i < r.len() - 1 ==> #[trigger] change(r, i) < 0
}

/// Adjacent levels differ by at least one and at most three.
pub open spec fn gentle(r: Seq<u64>) -> bool {
    forall|i: int|
        0 <= i < r.len() - 1 ==> (1 <= #[trigger] change(r, i) <= 3 || -3 <= change(r, i) <= -1)
}

pub open spec fn is_safe(r: Seq<u64>) -> bool {
    (increasing(r) || decreasing(r)) && gentle(r)
}

/// The number of safe reports.
pub open spec fn count_safe(reports: Seq<Vec<u64>>) -> nat
    decreases reports.len(),
{
    if reports.len() == 0 {
        0
    } else {
        count_safe(reports.drop_last()) + if is_safe(reports.last()@) {
            1nat
        } else {
            0nat
        }
    }
}

fn all_increasing(r: &Vec<u64>) -> (b: bool)
    ensures
        b == increasing(r@),
{
    let mut i: usize = 1;
    while i < r.len()
        invariant
            1 <= i,
            forall|k: int| 0 <= k < i - 1 && k < r.len() - 1 ==> #[trigger] change(r@, k) > 0,
        decreases r.len() - i,
    {
        if !(r[i - 1] < r[i]) {
            assert(change(r@, i - 2 + 1) <= 0);
            return false;
        }
        i = i + 1;
    }
    true
}

fn all_decreasing(r: &Vec<u64>) -> (b: bool)
    ensures
        b == decreasing(r@),
{
    let mut i: usize = 1;
    while i < r.len()
        invariant
            1 <= i,
            forall|k: int| 0 <= k < i - 1 && k < r.len() - 1 ==> #[trigger] change(r@, k) < 0,
        decreases r.len() - i,
    {
        if !(r[i - 1] > r[i]) {
            assert(change(r@, i - 2 + 1) >= 0);
            return false;
        }
        i = i + 1;
    }
    true
}

fn all_gentle(r: &Vec<u64>) -> (b: bool)
    ensures
        b == gentle(r@),
{
    let mut i: usize = 1;
    while i < r.len()
        invariant
            1 <= i,
            forall|k: int|
                0 <= k < i - 1 && k < r.len() - 1 ==> (1 <= #[trigger] change(r@, k) <= 3 || -3
                    <= change(r@, k) <= -1),
        decreases r.len() - i,
    {
        let n1 = r[i - 1];
        let n2 = r[i];
        let d = if n1 >= n2 {
            n1 - n2
        } else {
            n2 - n1
        };
        if !(d >= 1 && d <= 3) {
            assert(!(1 <= change(r@, i - 2 + 1) <= 3 || -3 <= change(r@, i - 2 + 1) <= -1));
            return false;
        }
        i = i + 1;
    }
    true
}

/// The number of safe reports.
pub fn run(input: &Vec<Vec<u64>>) -> (r: u64)
    ensures
        r == count_safe(input@),
{
    let mut sum: u64 = 0;
    let mut k: usize = 0;
    while k < input.len()
        invariant
            k <= input.len(),
            sum == count_safe(input@.take(k as int)),
            sum <= k,
        decreases input.len() - k,
    {
        let report = &input[k];
        assert(input@.take(k + 1).drop_last() =~= input@.take(k as int));
        let safe = (all_increasing(report) || all_decreasing(report)) && all_gentle(report);
        if safe {
            sum = sum + 1;
        }
        k = k + 1;
    }
    assert(input@.take(k as int) =~= input@);
    sum
}

} // verus!
