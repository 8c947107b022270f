//! Counting the occurrences of the word XMAS in a grid of letters, read in
//! a straight line in any of the eight directions.
use vstd::prelude::*;

verus! {

/// The letter that follows `c` in XMAS, if any.
pub open spec fn next_in_xmas(c: char) -> Option<char> {
    if c == 'X' {
        Some('M')
    } else if c == 'M' {
        Some('A')
    } else if c == 'A' {
        Some('S')
    } else {
        None
    }
}

/// How many letters of XMAS follow `c`.
pub open spec fn letters_after(c: char) -> nat {
    if c == 'X' {
        3
    } else if c == 'M' {
        2
    } else if c == 'A' {
        1
    } else {
        0
    }
}

pub fn next_char_in_xmas(c: char) -> (r: Option<char>)
    ensures
        r == next_in_xmas(c),
{
    match c {
        'X' => Some('M'),
        'M' => Some('A'),
        'A' => Some('S'),
        _ => None,
    }
}

/// The eight directions, as row and column steps, in row-major order.
pub open spec fn directions() -> Seq<(i64, i64)> {
    seq![
        (-1i64, -1i64),
        (-1i64, 0i64),
        (-1i64, 1i64),
        (0i64, -1i64),
        (0i64, 1i64),
        (1i64, -1i64),
        (1i64, 0i64),
        (1i64, 1i64),
    ]
}

/// The steps to the eight neighbours of a cell, in row-major order.
pub fn neighborhood() -> (r: Vec<(i64, i64)>)
    ensures
        r@ == directions(),
{
    let steps: Vec<i64> = vec![-1i64, 0, 1];
    let mut r: Vec<(i64, i64)> = Vec::new();
    let mut a: usize = 0;
    while a < 3
        invariant
            steps@ == seq![-1i64, 0, 1],
            a <= 3,
            r@ == directions().take(produced(a as int, 0)),
        decreases 3 - a,
    {
        let mut b: usize = 0;
        while b < 3
            invariant
                steps@ == seq![-1i64, 0, 1],
                a < 3,
                b <= 3,
                r@ == directions().take(produced(a as int, b as int)),
            decreases 3 - b,
        {
            let d = (steps[a], steps[b]);
            if !(d.0 == 0 && d.1 == 0) {
                r.push(d);
            }
            assert(r@ =~= directions().take(produced(a as int, b + 1)));
            b = b + 1;
        }
        a = a + 1;
    }
    assert(r@ =~= directions());
    r
}

/// How many directions the cells before row step `a`, column step `b` give,
/// the centre left out.
spec fn produced(a: int, b: int) -> int {
    if 3 * a + b <= 4 {
        3 * a + b
    } else {
        3 * a + b - 1
    }
}


/// 1 when the letters of XMAS from `c` on lie from cell (i, j) onwards, each
/// one step (di, dj) after the one before, within the first `i_max` rows and
/// `j_max` columns; 0 otherwise.
pub open spec fn found_from(
    g: Seq<Vec<char>>,
    c: char,
    i: int,
    j: int,
    di: int,
    dj: int,
    i_max: int,
    j_max: int,
) -> nat
    decreases letters_after(c),
{
    if !(0 <= i < i_max && 0 <= j < j_max) {
        0
    } else if g[i]@[j] != c {
        0
    } else {
        match next_in_xmas(c) {
            Some(n) => found_from(g, n, i + di, j + dj, di, dj, i_max, j_max),
            None => 1,
        }
    }
}

/// Follows direction (d_i, d_j) from cell (i, j), matching the letters of
/// XMAS from `c` on. Returns 1 when the rest of the word is found.
pub fn search(
    input: &Vec<Vec<char>>,
    c: char,
    i: i64,
    j: i64,
    d_i: i64,
    d_j: i64,
    i_max: i64,
    j_max: i64,
) -> (r: u64)
    requires
        0 <= i_max <= input.len(),
        0 <= j_max,
        forall|k: int| 0 <= k < i_max ==> j_max <= #[trigger] input@[k].len(),
        i_max + d_i <= i64::MAX + 1,
        j_max + d_j <= i64::MAX + 1,
    ensures
        r == found_from(input@, c, i as int, j as int, d_i as int, d_j as int, i_max as int, j_max as int),
    decreases letters_after(c),
{
    if !(i >= 0 && i < i_max && j >= 0 && j < j_max) {
        return 0;
    }
    assert(j_max <= input@[i as int].len());
    let row = &input[i as usize];
    let current_char = row[j as usize];
    assert(current_char == input@[i as int]@[j as int]);
    if current_char != c {
        return 0;
    }
    match next_char_in_xmas(c) {
        Some(next_char) => search(input, next_char, i + d_i, j + d_j, d_i, d_j, i_max, j_max),
        None => 1,
    }
}

pub proof fn lemma_found_from_bound(
    g: Seq<Vec<char>>,
    c: char,
    i: int,
    j: int,
    di: int,
    dj: int,
    i_max: int,
    j_max: int,
)
    ensures
        found_from(g, c, i, j, di, dj, i_max, j_max) <= 1,
    decreases letters_after(c),
{
    if 0 <= i < i_max && 0 <= j < j_max && g[i]@[j] == c {
        if let Some(n) = next_in_xmas(c) {
            lemma_found_from_bound(g, n, i + di, j + dj, di, dj, i_max, j_max);
        }
    }
}

/// The words found from cell (i, j) in the first `n` directions.
pub open spec fn cell_count(g: Seq<Vec<char>>, i: int, j: int, n: int) -> nat
    decreases n,
{
    if n <= 0 {
        0
    } else {
        cell_count(g, i, j, n - 1) + found_from(
            g,
            'X',
            i,
            j,
            directions()[n - 1].0 as int,
            directions()[n - 1].1 as int,
            g.len() as int,
            g[0].len() as int,
        )
    }
}

/// The words found from the first `n` cells of row `i`.
pub open spec fn row_count(g: Seq<Vec<char>>, i: int, n: int) -> nat
    decreases n,
{
    if n <= 0 {
        0
    } else {
        row_count(g, i, n - 1) + cell_count(g, i, n - 1, 8)
    }
}

/// The words found from the cells of the first `n` rows.
pub open spec fn grid_count(g: Seq<Vec<char>>, n: int) -> nat
    decreases n,
{
    if n <= 0 {
        0
    } else {
        grid_count(g, n - 1) + row_count(g, n - 1, g[0].len() as int)
    }
}

proof fn lemma_cell_count_bound(g: Seq<Vec<char>>, i: int, j: int, n: int)
    requires
        0 <= n <= 8,
    ensures
        cell_count(g, i, j, n) <= n,
    decreases n,
{
    if n > 0 {
        lemma_cell_count_bound(g, i, j, n - 1);
        lemma_found_from_bound(
            g,
            'X',
            i,
            j,
            directions()[n - 1].0 as int,
            directions()[n - 1].1 as int,
            g.len() as int,
            g[0].len() as int,
        );
    }
}

proof fn lemma_row_count_bound(g: Seq<Vec<char>>, i: int, n: int)
    requires
        0 <= n,
    ensures
        row_count(g, i, n) <= 8 * n,
    decreases n,
{
    if n > 0 {
        lemma_row_count_bound(g, i, n - 1);
        lemma_cell_count_bound(g, i, n - 1, 8);
    }
}

proof fn lemma_grid_count_bound(g: Seq<Vec<char>>, n: int)
    requires
        0 <= n,
        g.len() > 0,
    ensures
        grid_count(g, n) <= 8 * n * g[0].len(),
    decreases n,
{
    if n > 0 {
        lemma_grid_count_bound(g, n - 1);
        lemma_row_count_bound(g, n - 1, g[0].len() as int);
        assert(8 * (n - 1) * g[0].len() + 8 * g[0].len() == 8 * n * g[0].len()) by (nonlinear_arith);
    }
}

/// The number of times XMAS can be read in the grid, in any of the eight
/// directions, counted once per starting cell and direction.
pub fn run(input: &Vec<Vec<char>>) -> (r: u64)
    requires
        input.len() > 0,
        forall|k: int| 0 <= k < input.len() ==> #[trigger] input@[k].len() == input@[0].len(),
        input.len() < i64::MAX,
        input@[0].len() < i64::MAX,
        8 * input.len() * input@[0].len() <= u64::MAX,
    ensures
        r == grid_count(input@, input.len() as int),
{
    let i_max = input.len();
    let j_max = input[0].len();
    let ghost g = input@;
    let steps = neighborhood();
    let mut total: u64 = 0;
    let mut i: usize = 0;
    while i < i_max
        invariant
            g == input@,
            i_max == g.len(),
            j_max == g[0].len(),
            steps@ == directions(),
            forall|k: int| 0 <= k < g.len() ==> #[trigger] g[k].len() == g[0].len(),
            i_max < i64::MAX,
            j_max < i64::MAX,
            8 * i_max * j_max <= u64::MAX,
            i <= i_max,
            total == grid_count(g, i as int),
        decreases i_max - i,
    {
        let mut j: usize = 0;
        while j < j_max
            invariant
                g == input@,
                i_max == g.len(),
                j_max == g[0].len(),
                steps@ == directions(),
                forall|k: int| 0 <= k < g.len() ==> #[trigger] g[k].len() == g[0].len(),
                i_max < i64::MAX,
                j_max < i64::MAX,
                8 * i_max * j_max <= u64::MAX,
                i < i_max,
                j <= j_max,
                total == grid_count(g, i as int) + row_count(g, i as int, j as int),
            decreases j_max - j,
        {
            let mut k: usize = 0;
            while k < steps.len()
                invariant
                    g == input@,
                    i_max == g.len(),
                    j_max == g[0].len(),
                    steps@ == directions(),
                    forall|k: int| 0 <= k < g.len() ==> #[trigger] g[k].len() == g[0].len(),
                    i_max < i64::MAX,
                    j_max < i64::MAX,
                    8 * i_max * j_max <= u64::MAX,
                    i < i_max,
                    j < j_max,
                    k <= 8,
                    total == grid_count(g, i as int) + row_count(g, i as int, j as int)
                        + cell_count(g, i as int, j as int, k as int),
                decreases 8 - k,
            {
                let (d_i, d_j) = steps[k];
                proof {
                    lemma_grid_count_bound(g, i as int);
                    lemma_row_count_bound(g, i as int, j as int);
                    lemma_cell_count_bound(g, i as int, j as int, k as int);
                    lemma_found_from_bound(g, 'X', i as int, j as int, d_i as int, d_j as int, i_max as int, j_max as int);
                    assert(8 * i * j_max + 8 * j + k + 1 <= 8 * i_max * j_max) by (nonlinear_arith)
                        requires
                            i < i_max,
                            j < j_max,
                            k < 8,
                    ;
                }
                let found = search(input, 'X', i as i64, j as i64, d_i, d_j, i_max as i64, j_max as i64);
                total = total + found;
                k = k + 1;
            }
            j = j + 1;
        }
        i = i + 1;
    }
    total
}

} // verus!
