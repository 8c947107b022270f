//! Scanning a line of text for `mul(X,Y)` instructions, where X and Y have
//! one to three decimal digits, with single-character skips over noise.
use vstd::prelude::*;
use vstd::string::StrSliceExecFns;
use vstd::string::StringExecFns;
use crate::parser::AndThenParser;
use crate::parser::CharParser;
use crate::parser::DigitParser;
use crate::parser::EmptyParser;
use crate::parser::ManyParser;
use crate::parser::Parser;
use crate::parser::repeat;
use crate::parser::digit_value;

verus! {

/// The pair of factors of one matched `mul(X,Y)`.
#[derive(Clone, Copy, Debug, PartialEq, Eq, Structural)]
pub struct Instruction {
    pub left: u64,
    pub right: u64,
}

/// One to three decimal digits.
pub type DigitsParser = ManyParser<DigitParser>;

/// `mul(` digits `,` digits `)`, padded with the empty match.
pub type MulParser = AndThenParser<
    AndThenParser<AndThenParser<CharParser, CharParser>, CharParser>,
    AndThenParser<
        AndThenParser<
            CharParser,
            AndThenParser<DigitsParser, AndThenParser<CharParser, AndThenParser<DigitsParser, CharParser>>>,
        >,
        EmptyParser,
    >,
>;

/// The value that `MulParser` yields.
pub type MulValue = (((char, char), char), ((char, (Vec<u64>, (char, (Vec<u64>, char)))), ()));

/// The mathematical form of `MulValue`.
pub type MulModel = (((char, char), char), ((char, (Seq<u64>, (char, (Seq<u64>, char)))), ()));

pub open spec fn spec_digits_parser() -> DigitsParser {
    ManyParser { min: 1, max: 3, parser: DigitParser }
}

pub open spec fn spec_mul_parser() -> MulParser {
    AndThenParser {
        parser1: AndThenParser {
            parser1: AndThenParser { parser1: CharParser { c: 'm' }, parser2: CharParser { c: 'u' } },
            parser2: CharParser { c: 'l' },
        },
        parser2: AndThenParser {
            parser1: AndThenParser {
                parser1: CharParser { c: '(' },
                parser2: AndThenParser {
                    parser1: spec_digits_parser(),
                    parser2: AndThenParser {
                        parser1: CharParser { c: ',' },
                        parser2: AndThenParser {
                            parser1: spec_digits_parser(),
                            parser2: CharParser { c: ')' },
                        },
                    },
                },
            },
            parser2: EmptyParser,
        },
    }
}

fn digits_parser() -> (p: DigitsParser)
    ensures
        p == spec_digits_parser(),
{
    ManyParser { min: 1, max: 3, parser: DigitParser }
}

/// Builds the parser of one `mul(X,Y)` instruction.
pub fn mul_parser() -> (p: MulParser)
    ensures
        p == spec_mul_parser(),
{
    AndThenParser {
        parser1: AndThenParser {
            parser1: AndThenParser { parser1: CharParser { c: 'm' }, parser2: CharParser { c: 'u' } },
            parser2: CharParser { c: 'l' },
        },
        parser2: AndThenParser {
            parser1: AndThenParser {
                parser1: CharParser { c: '(' },
                parser2: AndThenParser {
                    parser1: digits_parser(),
                    parser2: AndThenParser {
                        parser1: CharParser { c: ',' },
                        parser2: AndThenParser {
                            parser1: digits_parser(),
                            parser2: CharParser { c: ')' },
                        },
                    },
                },
            },
            parser2: EmptyParser,
        },
    }
}

/// The number written by a sequence of digits, first digit most significant.
pub open spec fn number_of(ds: Seq<u64>) -> nat
    decreases ds.len(),
{
    if ds.len() == 0 {
        0
    } else {
        number_of(ds.drop_last()) * 10 + ds.last() as nat
    }
}

/// The instruction that a match of `MulParser` stands for.
pub open spec fn decode(v: MulModel) -> Instruction {
    Instruction { left: number_of(v.1.0.1.0) as u64, right: number_of(v.1.0.1.1.1.0) as u64 }
}

/// Repeated digit matching collects at most `max - count` digits, each
/// below ten, and leaves a suffix of its input.
pub proof fn lemma_digits_repeat(max: nat, s: Seq<char>, count: nat)
    requires
        count <= max,
    ensures
        repeat(DigitParser, max, s, count).1.len() <= s.len(),
        repeat(DigitParser, max, s, count).0.len() + count <= max,
        forall|i: int|
            0 <= i < repeat(DigitParser, max, s, count).0.len() ==> #[trigger] repeat(
                DigitParser,
                max,
                s,
                count,
            ).0[i] <= 9,
    decreases max - count,
{
    if s.len() == 0 || count >= max {
    } else {
        match DigitParser.outcome(s) {
            Ok((v, rest)) => {
                lemma_digits_repeat(max, rest, count + 1);
                let tail = repeat(DigitParser, max, rest, count + 1).0;
                assert(repeat(DigitParser, max, s, count).0 == seq![v] + tail);
                assert forall|i: int|
                    0 <= i < repeat(DigitParser, max, s, count).0.len() implies #[trigger] repeat(
                    DigitParser,
                    max,
                    s,
                    count,
                ).0[i] <= 9 by {
                    if i > 0 {
                        assert(repeat(DigitParser, max, s, count).0[i] == tail[i - 1]);
                    }
                }
            },
            Err(_) => {},
        }
    }
}

/// A match of `MulParser` consumes at least one character.
pub proof fn lemma_mul_consumes(s: Seq<char>)
    ensures
        spec_mul_parser().outcome(s) is Ok ==> spec_mul_parser().outcome(s)->Ok_0.1.len() < s.len(),
{
    assert forall|t: Seq<char>| #[trigger] repeat(DigitParser, 3, t, 0).1.len() <= t.len() by {
        lemma_digits_repeat(3, t, 0);
    }
}

/// The instructions found by scanning `s`: where a match starts, it is
/// recorded and scanning goes on after it; elsewhere one character is skipped.
pub open spec fn scan(s: Seq<char>) -> Seq<Instruction>
    decreases s.len(),
{
    if s.len() == 0 {
        seq![]
    } else {
        match spec_mul_parser().outcome(s) {
            Ok((v, rest)) => {
                proof {
                    lemma_mul_consumes(s);
                }
                seq![decode(v)] + scan(rest)
            },
            Err(_) => scan(s.drop_first()),
        }
    }
}

/// The number of steps that scanning `s` takes before it is done.
pub open spec fn scan_steps(s: Seq<char>) -> nat
    decreases s.len(),
{
    if s.len() == 0 {
        0
    } else {
        match spec_mul_parser().outcome(s) {
            Ok((v, rest)) => {
                proof {
                    lemma_mul_consumes(s);
                }
                1 + scan_steps(rest)
            },
            Err(_) => 1 + scan_steps(s.drop_first()),
        }
    }
}


/// Folds digits left to right: `acc = acc * 10 + digit`, starting at zero.
pub fn fold_digits(ds: &Vec<u64>) -> (r: u64)
    requires
        ds.len() <= 3,
        forall|i: int| 0 <= i < ds.len() ==> ds[i] <= 9,
    ensures
        r == number_of(ds@),
{
    let mut acc: u64 = 0;
    let mut i: usize = 0;
    while i < ds.len()
        invariant
            i <= ds.len() <= 3,
            forall|k: int| 0 <= k < ds.len() ==> ds[k] <= 9,
            acc == number_of(ds@.take(i as int)),
            i == 0 ==> acc == 0,
            i == 1 ==> acc <= 9,
            i == 2 ==> acc <= 99,
            i == 3 ==> acc <= 999,
        decreases ds.len() - i,
    {
        assert(ds@.take(i + 1).drop_last() =~= ds@.take(i as int));
        acc = acc * 10 + ds[i];
        i = i + 1;
    }
    assert(ds@.take(i as int) =~= ds@);
    acc
}

/// Scanning one line: what is left of the input, and the instructions
/// recorded so far in the order they were found. Scanning is done when no
/// input is left.
pub struct Scanner {
    pub input: String,
    pub found: Vec<Instruction>,
}

impl Scanner {
    pub fn new(input: String) -> (r: Scanner)
        ensures
            r.input@ == input@,
            r.found@ == Seq::<Instruction>::empty(),
    {
        Scanner { input, found: Vec::new() }
    }

    pub fn is_done(&self) -> (r: bool)
        ensures
            r == (self.input@.len() == 0),
    {
        self.input.as_str().is_empty()
    }

    /// One step: when done, nothing changes. Otherwise a match at the start
    /// of the input is recorded and consumed; without one, a single
    /// character is dropped.
    pub fn step(&mut self)
        ensures
            old(self).input@.len() == 0 ==> final(self).input@ == old(self).input@
                && final(self).found@ == old(self).found@,
            old(self).input@.len() > 0 ==> match spec_mul_parser().outcome(old(self).input@) {
                Ok((v, rest)) => {
                    &&& final(self).input@ == rest
                    &&& final(self).found@ == old(self).found@.push(decode(v))
                },
                Err(_) => {
                    &&& final(self).input@ == old(self).input@.drop_first()
                    &&& final(self).found@ == old(self).found@
                },
            },
    {
        if self.input.as_str().is_empty() {
            return;
        }
        let p = mul_parser();
        match p.parse(self.input.clone()) {
            Ok((value, rest)) => {
                let (_, args) = value;
                let ((_, numbers), _) = args;
                let (x1, tail) = numbers;
                let (_, (x2, _)) = tail;
                proof {
                    lemma_digits_repeat(3, self.input@.skip(4), 0);
                    assert forall|t: Seq<char>| #[trigger]
                        repeat(DigitParser, 3, t, 0).0.len() <= 3 && (forall|i: int|
                            0 <= i < repeat(DigitParser, 3, t, 0).0.len() ==> repeat(
                                DigitParser,
                                3,
                                t,
                                0,
                            ).0[i] <= 9) by {
                        lemma_digits_repeat(3, t, 0);
                    }
                    assert(x1.deep_view() =~= x1@);
                    assert(x2.deep_view() =~= x2@);
                }
                let left = fold_digits(&x1);
                let right = fold_digits(&x2);
                self.found.push(Instruction { left, right });
                self.input = rest;
            },
            Err(_) => {
                let s = self.input.as_str();
                let n = s.unicode_len();
                self.input = String::from_str(s.substring_char(1, n));
            },
        }
    }

    /// Steps until done, and returns the number of steps taken.
    pub fn finish(&mut self) -> (steps: usize)
        ensures
            final(self).input@.len() == 0,
            final(self).found@ == old(self).found@ + scan(old(self).input@),
            steps == scan_steps(old(self).input@),
    {
        let ghost start = self.input@;
        let ghost before = self.found@;
        let n = self.input.as_str().unicode_len();
        proof {
            lemma_scan_steps_bound(start);
        }
        let mut steps: usize = 0;
        while !self.is_done()
            invariant
                self.found@ + scan(self.input@) == before + scan(start),
                steps + scan_steps(self.input@) == scan_steps(start),
                scan_steps(start) <= n,
            decreases self.input@.len(),
        {
            let ghost cur = self.input@;
            let ghost found = self.found@;
            proof {
                lemma_mul_consumes(cur);
            }
            self.step();
            proof {
                if let Ok((v, rest)) = spec_mul_parser().outcome(cur) {
                    assert(found.push(decode(v)) + scan(rest) =~= found + scan(cur));
                }
            }
            steps = steps + 1;
        }
        assert(self.found@ =~= self.found@ + scan(self.input@));
        steps
    }
}

/// Scanning takes at most one step per character.
pub proof fn lemma_scan_steps_bound(s: Seq<char>)
    ensures
        scan_steps(s) <= s.len(),
    decreases s.len(),
{
    if s.len() > 0 {
        lemma_mul_consumes(s);
        match spec_mul_parser().outcome(s) {
            Ok((v, rest)) => lemma_scan_steps_bound(rest),
            Err(_) => lemma_scan_steps_bound(s.drop_first()),
        }
    }
}

/// All instructions in one line, in the order they occur.
pub fn scan_line(input: String) -> (r: Vec<Instruction>)
    ensures
        r@ == scan(input@),
{
    let mut scanner = Scanner::new(input);
    scanner.finish();
    assert(scanner.found@ =~= scan(input@));
    scanner.found
}

/// The sum of `left * right` over the instructions, without wrapping.
pub open spec fn sum_of_products(s: Seq<Instruction>) -> int
    decreases s.len(),
{
    if s.len() == 0 {
        0
    } else {
        sum_of_products(s.drop_last()) + s.last().left * s.last().right
    }
}

/// The sum of `left * right` over the instructions, modulo 2^64: every
/// product and every addition wraps.
pub fn total(instructions: &Vec<Instruction>) -> (r: u64)
    ensures
        r == sum_of_products(instructions@) % 0x1_0000_0000_0000_0000,
{
    let mut acc: u64 = 0;
    let mut i: usize = 0;
    while i < instructions.len()
        invariant
            i <= instructions.len(),
            acc == sum_of_products(instructions@.take(i as int)) % 0x1_0000_0000_0000_0000,
        decreases instructions.len() - i,
    {
        let ins = instructions[i];
        let ghost prefix = instructions@.take(i as int);
        let product = ins.left.wrapping_mul(ins.right);
        acc = acc.wrapping_add(product);
        proof {
            assert(instructions@.take(i + 1).drop_last() =~= prefix);
            let m: int = 0x1_0000_0000_0000_0000;
            vstd::arithmetic::div_mod::lemma_add_mod_noop(
                sum_of_products(prefix),
                ins.left * ins.right,
                m,
            );
        }
        i = i + 1;
    }
    assert(instructions@.take(i as int) =~= instructions@);
    acc
}

/// Scans one line and sums the products of its instructions, wrapping.
pub fn run(input: String) -> (r: u64)
    ensures
        r == sum_of_products(scan(input@)) % 0x1_0000_0000_0000_0000,
{
    let found = scan_line(input);
    total(&found)
}


/// Once scanning is done, scanning again finds no further instructions and
/// takes no step.
pub proof fn lemma_done_is_terminal(s: Seq<char>)
    requires
        s.len() == 0,
    ensures
        scan(s) == Seq::<Instruction>::empty(),
        scan_steps(s) == 0,
{
}

/// Where no match starts at any position, scanning finds no instruction and
/// is done after exactly one skip per character.
pub proof fn lemma_noise(s: Seq<char>)
    requires
        forall|i: int| 0 <= i < s.len() ==> #[trigger] spec_mul_parser().outcome(s.skip(i)) is Err,
    ensures
        scan(s) == Seq::<Instruction>::empty(),
        scan_steps(s) == s.len(),
    decreases s.len(),
{
    if s.len() > 0 {
        assert(s.skip(0) =~= s);
        let t = s.drop_first();
        assert forall|i: int| 0 <= i < t.len() implies #[trigger] spec_mul_parser().outcome(
            t.skip(i),
        ) is Err by {
            assert(t.skip(i) =~= s.skip(i + 1));
        }
        lemma_noise(t);
    }
}


pub open spec fn all_digits(d: Seq<char>) -> bool {
    forall|i: int| 0 <= i < d.len() ==> #[trigger] digit_value(d[i]) is Some
}

/// The numeric values of a sequence of digit characters.
pub open spec fn values_of(d: Seq<char>) -> Seq<u64> {
    d.map_values(|c: char| digit_value(c)->0)
}

/// Greedy digit repetition over digits followed by a non-digit collects
/// exactly those digits, when they fit below the bound.
proof fn lemma_repeat_digits(a: Seq<char>, t: Seq<char>, max: nat, count: nat)
    requires
        all_digits(a),
        count + a.len() <= max,
        t.len() > 0,
        digit_value(t[0]) is None,
    ensures
        repeat(DigitParser, max, a + t, count) == (values_of(a), t),
    decreases a.len(),
{
    if a.len() == 0 {
        assert(a + t =~= t);
        assert(values_of(a) =~= Seq::<u64>::empty());
    } else {
        assert((a + t)[0] == a[0]);
        assert((a + t).drop_first() =~= a.drop_first() + t);
        assert(digit_value(a[0]) is Some);
        lemma_repeat_digits(a.drop_first(), t, max, count + 1);
        assert(values_of(a) =~= seq![digit_value(a[0])->0] + values_of(a.drop_first()));
    }
}

/// The text `mul(`, one to three digits, `,`, one to three digits, `)` is
/// matched by `MulParser`: it stands for the instruction of the two numbers,
/// and the text after it is left.
pub proof fn lemma_mul_grammar(a: Seq<char>, b: Seq<char>, rest: Seq<char>)
    requires
        1 <= a.len() <= 3,
        1 <= b.len() <= 3,
        all_digits(a),
        all_digits(b),
    ensures
        spec_mul_parser().outcome(seq!['m', 'u', 'l', '('] + a + seq![','] + b + seq![')'] + rest)
            is Ok,
        spec_mul_parser().outcome(
            seq!['m', 'u', 'l', '('] + a + seq![','] + b + seq![')'] + rest,
        )->Ok_0.1 == rest,
        decode(
            spec_mul_parser().outcome(
                seq!['m', 'u', 'l', '('] + a + seq![','] + b + seq![')'] + rest,
            )->Ok_0.0,
        ) == (Instruction {
            left: number_of(values_of(a)) as u64,
            right: number_of(values_of(b)) as u64,
        }),
{
    let tb = seq![')'] + rest;
    let ta = seq![','] + b + tb;
    let s = seq!['m', 'u', 'l', '('] + a + ta;
    assert(seq!['m', 'u', 'l', '('] + a + seq![','] + b + seq![')'] + rest =~= s);
    assert(s.drop_first() =~= seq!['u', 'l', '('] + a + ta);
    assert(s.drop_first().drop_first() =~= seq!['l', '('] + a + ta);
    assert(s.drop_first().drop_first().drop_first() =~= seq!['('] + a + ta);
    assert(s.drop_first().drop_first().drop_first().drop_first() =~= a + ta);
    lemma_repeat_digits(a, ta, 3, 0);
    assert(ta.drop_first() =~= b + tb);
    lemma_repeat_digits(b, tb, 3, 0);
    assert(tb.drop_first() =~= rest);
}


/// Greedy digit repetition collects the digits at the front of its input,
/// at most `max - count` of them, and leaves the rest.
proof fn lemma_repeat_shape(t: Seq<char>, max: nat, count: nat) -> (k: nat)
    requires
        count <= max,
    ensures
        k + count <= max,
        k <= t.len(),
        all_digits(t.take(k as int)),
        repeat(DigitParser, max, t, count) == (values_of(t.take(k as int)), t.skip(k as int)),
    decreases max - count,
{
    if t.len() == 0 || count >= max || digit_value(t[0]) is None {
        assert(t.take(0) =~= Seq::<char>::empty());
        assert(t.skip(0) =~= t);
        assert(values_of(t.take(0)) =~= Seq::<u64>::empty());
        0
    } else {
        let k = lemma_repeat_shape(t.drop_first(), max, count + 1);
        assert(t.take(k + 1 as int) =~= seq![t[0]] + t.drop_first().take(k as int));
        assert(t.skip(k + 1 as int) =~= t.drop_first().skip(k as int));
        assert(values_of(t.take(k + 1 as int)) =~= seq![digit_value(t[0])->0] + values_of(
            t.drop_first().take(k as int),
        ));
        k + 1
    }
}

/// Every match of `MulParser` is a text `mul(`, one to three digits, `,`,
/// one to three digits, `)`, followed by what it leaves.
pub proof fn lemma_mul_grammar_converse(s: Seq<char>)
    requires
        spec_mul_parser().outcome(s) is Ok,
    ensures
        exists|a: Seq<char>, b: Seq<char>, rest: Seq<char>|
            {
                &&& 1 <= a.len() <= 3
                &&& 1 <= b.len() <= 3
                &&& all_digits(a)
                &&& all_digits(b)
                &&& s == seq!['m', 'u', 'l', '('] + a + seq![','] + b + seq![')'] + rest
            },
{
    let t = s.skip(4);
    assert(s.drop_first().drop_first().drop_first().drop_first() =~= t);
    let k1 = lemma_repeat_shape(t, 3, 0);
    let a = t.take(k1 as int);
    let ta = t.skip(k1 as int);
    let u = ta.drop_first();
    let k2 = lemma_repeat_shape(u, 3, 0);
    let b = u.take(k2 as int);
    let tb = u.skip(k2 as int);
    let rest = tb.drop_first();
    assert(s =~= seq!['m', 'u', 'l', '('] + a + seq![','] + b + seq![')'] + rest);
}

} // verus!
