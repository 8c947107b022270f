//! Composable parsers over character text: primitive matchers for one
//! character or one decimal digit, and combinators for sequencing, bounded
//! repetition and the empty match.
use vstd::prelude::*;
use vstd::string::StrSliceExecFns;
use vstd::string::StringExecFns;

verus! {

/// The outcome of one attempt, as a mathematical value: either the matched
/// value and the unconsumed suffix, or a description of the failure.
pub type Outcome<V> = Result<(V, Seq<char>), Seq<char>>;

/// A parser attempts to consume a prefix of its input. On success it returns
/// the value it built and the unconsumed suffix; on failure a description.
pub trait Parser<T: DeepView> {
    /// What `parse` returns on the given input.
    spec fn outcome(&self, input: Seq<char>) -> Outcome<T::V>;

    fn parse(&self, input: String) -> (r: Result<(T, String), String>)
        ensures
            match r {
                Ok((v, rest)) => self.outcome(input@) == Outcome::<T::V>::Ok((v.deep_view(), rest@)),
                Err(e) => self.outcome(input@) == Outcome::<T::V>::Err(e@),
            },
    ;
}

/// Relies on `String::push`: the character is appended at the end.
#[verifier::external_body]
fn push_char(s: &mut String, c: char)
    ensures
        final(s)@ == old(s)@.push(c),
{
    s.push(c)
}

/// Splits off the first character of a non-empty text.
fn split_first(input: &String) -> (r: (char, String))
    requires
        input@.len() > 0,
    ensures
        r.0 == input@[0],
        r.1@ == input@.drop_first(),
{
    let s = input.as_str();
    let n = s.unicode_len();
    let c = s.get_char(0);
    let rest = String::from_str(s.substring_char(1, n));
    (c, rest)
}

/// Matches exactly one configured character.
pub struct CharParser {
    pub c: char,
}

/// "expected char 'x', found 'y'"
pub open spec fn char_mismatch_message(expected: char, found: char) -> Seq<char> {
    "expected char '"@ + seq![expected] + "', found '"@ + seq![found] + "'"@
}

pub open spec fn char_empty_message() -> Seq<char> {
    "expected char, found empty string"@
}

impl Parser<char> for CharParser {
    open spec fn outcome(&self, input: Seq<char>) -> Outcome<char> {
        if input.len() == 0 {
            Err(char_empty_message())
        } else if input[0] == self.c {
            Ok((input[0], input.drop_first()))
        } else {
            Err(char_mismatch_message(self.c, input[0]))
        }
    }

    fn parse(&self, input: String) -> (r: Result<(char, String), String>) {
        if input.as_str().is_empty() {
            return Err("expected char, found empty string".to_owned());
        }
        let (c, rest) = split_first(&input);
        if c == self.c {
            return Ok((c, rest));
        }
        let mut msg = String::from_str("expected char '");
        push_char(&mut msg, self.c);
        msg.append("', found '");
        push_char(&mut msg, c);
        msg.append("'");
        proof {
            reveal_strlit("expected char '");
            reveal_strlit("', found '");
            reveal_strlit("'");
            assert(msg@ =~= char_mismatch_message(self.c, c));
        }
        Err(msg)
    }
}


/// The numeric value of a decimal digit character, if it is one.
pub open spec fn digit_value(c: char) -> Option<u64> {
    if '0' <= c && c <= '9' {
        Some((c as u32 - '0' as u32) as u64)
    } else {
        None
    }
}

/// The character of a digit value below ten.
pub open spec fn digit_char(d: nat) -> char {
    ((d + 48) as u8) as char
}

/// The decimal notation of a number, most significant digit first.
pub open spec fn decimal(n: nat) -> Seq<char>
    decreases n,
{
    if n < 10 {
        seq![digit_char(n)]
    } else {
        decimal(n / 10).push(digit_char(n % 10))
    }
}

/// Appends the decimal notation of `n`.
fn push_decimal(s: &mut String, n: u64)
    ensures
        final(s)@ == old(s)@ + decimal(n as nat),
    decreases n,
{
    if n >= 10 {
        push_decimal(s, n / 10);
    }
    let d = (n % 10) as u8 + 48;
    push_char(s, d as char);
}

/// Matches exactly one decimal digit and yields its numeric value.
pub struct DigitParser;

/// "expected digit, found y"
pub open spec fn digit_mismatch_message(found: char) -> Seq<char> {
    "expected digit, found "@ + seq![found]
}

pub open spec fn digit_empty_message() -> Seq<char> {
    "expected digit, found empty string"@
}

impl Parser<u64> for DigitParser {
    open spec fn outcome(&self, input: Seq<char>) -> Outcome<u64> {
        if input.len() == 0 {
            Err(digit_empty_message())
        } else {
            match digit_value(input[0]) {
                Some(d) => Ok((d, input.drop_first())),
                None => Err(digit_mismatch_message(input[0])),
            }
        }
    }

    fn parse(&self, input: String) -> (r: Result<(u64, String), String>) {
        if input.as_str().is_empty() {
            return Err("expected digit, found empty string".to_owned());
        }
        let (c, rest) = split_first(&input);
        if '0' <= c && c <= '9' {
            return Ok(((c as u32 - '0' as u32) as u64, rest));
        }
        let mut msg = String::from_str("expected digit, found ");
        push_char(&mut msg, c);
        proof {
            reveal_strlit("expected digit, found ");
            assert(msg@ =~= digit_mismatch_message(c));
        }
        Err(msg)
    }
}

/// Runs `parser1`, then `parser2` on what the first left, and pairs their
/// values. The first failure is passed on unchanged.
pub struct AndThenParser<P1, P2> {
    pub parser1: P1,
    pub parser2: P2,
}

impl<T1: DeepView, T2: DeepView, P1: Parser<T1>, P2: Parser<T2>> Parser<(T1, T2)> for AndThenParser<
    P1,
    P2,
> {
    open spec fn outcome(&self, input: Seq<char>) -> Outcome<(T1::V, T2::V)> {
        match self.parser1.outcome(input) {
            Err(e) => Err(e),
            Ok((v1, rest1)) => match self.parser2.outcome(rest1) {
                Err(e) => Err(e),
                Ok((v2, rest2)) => Ok(((v1, v2), rest2)),
            },
        }
    }

    fn parse(&self, input: String) -> (r: Result<((T1, T2), String), String>) {
        let (parsed, rest) = match self.parser1.parse(input) {
            Ok(x) => x,
            Err(e) => return Err(e),
        };
        let (parsed_second, rest_second) = match self.parser2.parse(rest) {
            Ok(x) => x,
            Err(e) => return Err(e),
        };
        Ok(((parsed, parsed_second), rest_second))
    }
}

/// Always succeeds, consumes nothing and yields the unit value.
pub struct EmptyParser;

impl Parser<()> for EmptyParser {
    open spec fn outcome(&self, input: Seq<char>) -> Outcome<()> {
        Ok(((), input))
    }

    fn parse(&self, input: String) -> (r: Result<((), String), String>) {
        Ok(((), input))
    }
}


/// Greedy repetition: applies `p` to successive suffixes, starting from the
/// `count`-th value, until it fails, the input is used up or `max` values
/// have been collected. Yields the values and the final suffix.
pub open spec fn repeat<T: DeepView, P: Parser<T>>(
    p: P,
    max: nat,
    input: Seq<char>,
    count: nat,
) -> (Seq<T::V>, Seq<char>)
    decreases max - count,
{
    if input.len() == 0 || count >= max {
        (seq![], input)
    } else {
        match p.outcome(input) {
            Ok((v, rest)) => {
                let (vs, last) = repeat(p, max, rest, count + 1);
                (seq![v] + vs, last)
            },
            Err(_) => (seq![], input),
        }
    }
}

/// "Expected between a and b occurences, found n"
pub open spec fn count_message(min: nat, max: nat, found: nat) -> Seq<char> {
    "Expected between "@ + decimal(min) + " and "@ + decimal(max) + " occurences, found "@
        + decimal(found)
}

/// Applies `parser` greedily, at most `max` times, and succeeds when the
/// number of values collected lies in `[min, max]`. A failure of `parser`
/// ends the repetition; it is not passed on.
pub struct ManyParser<P> {
    pub min: u64,
    pub max: u64,
    pub parser: P,
}

impl<T: DeepView, P: Parser<T>> Parser<Vec<T>> for ManyParser<P> {
    open spec fn outcome(&self, input: Seq<char>) -> Outcome<Seq<T::V>> {
        let (vs, rest) = repeat(self.parser, self.max as nat, input, 0);
        if self.min <= vs.len() && vs.len() <= self.max {
            Ok((vs, rest))
        } else {
            Err(count_message(self.min as nat, self.max as nat, vs.len()))
        }
    }

    fn parse(&self, input: String) -> (r: Result<(Vec<T>, String), String>) {
        let ghost whole = repeat(self.parser, self.max as nat, input@, 0);
        let mut cur = input.clone();
        let mut result: Vec<T> = Vec::new();
        assert(result.deep_view() =~= seq![]);
        while !cur.as_str().is_empty()
            invariant
                result.len() <= self.max,
                whole.0 == result.deep_view() + repeat(
                    self.parser,
                    self.max as nat,
                    cur@,
                    result.len() as nat,
                ).0,
                whole.1 == repeat(self.parser, self.max as nat, cur@, result.len() as nat).1,
            ensures
                whole.0 == result.deep_view(),
                whole.1 == cur@,
            decreases self.max - result.len(),
        {
            if result.len() as u64 == self.max {
                assert(whole.0 =~= result.deep_view());
                break;
            }
            let value = self.parser.parse(cur.clone());
            match value {
                Ok((parsed, rest)) => {
                    let ghost before = result.deep_view();
                    let ghost tail = repeat(
                        self.parser,
                        self.max as nat,
                        rest@,
                        (result.len() + 1) as nat,
                    );
                    result.push(parsed);
                    cur = rest;
                    assert(result.deep_view() =~= before.push(parsed.deep_view()));
                    assert(before + (seq![parsed.deep_view()] + tail.0) =~= before.push(
                        parsed.deep_view(),
                    ) + tail.0);
                },
                Err(_) => {
                    assert(whole.0 =~= result.deep_view());
                    break;
                },
            }
        }
        assert(whole.0 =~= result.deep_view());
        let n = result.len() as u64;
        if self.min <= n && n <= self.max {
            return Ok((result, cur));
        }
        let mut msg = String::from_str("Expected between ");
        push_decimal(&mut msg, self.min);
        msg.append(" and ");
        push_decimal(&mut msg, self.max);
        msg.append(" occurences, found ");
        push_decimal(&mut msg, n);
        proof {
            reveal_strlit("Expected between ");
            reveal_strlit(" and ");
            reveal_strlit(" occurences, found ");
            assert(msg@ =~= count_message(self.min as nat, self.max as nat, n as nat));
        }
        Err(msg)
    }
}


/// Character matching accepts its own character at the front and nothing
/// else: `c` followed by any text yields `c` and that text; any other first
/// character fails, and so does the empty text.
pub proof fn lemma_char_match(c: char, d: char, rest: Seq<char>)
    ensures
        (CharParser { c }).outcome(seq![c] + rest) == Outcome::<char>::Ok((c, rest)),
        d != c ==> (CharParser { c }).outcome(seq![d] + rest) is Err,
        (CharParser { c }).outcome(Seq::<char>::empty()) is Err,
{
    assert((seq![c] + rest).drop_first() =~= rest);
}

/// Digit matching accepts a decimal digit at the front: it yields the
/// digit's numeric value and the text after it. A first character that is no
/// digit fails, and so does the empty text.
pub proof fn lemma_digit_match(d: char, rest: Seq<char>)
    ensures
        '0' <= d <= '9' ==> DigitParser.outcome(seq![d] + rest) == Outcome::<u64>::Ok(
            ((d as u32 - '0' as u32) as u64, rest),
        ),
        !('0' <= d <= '9') ==> DigitParser.outcome(seq![d] + rest) is Err,
        DigitParser.outcome(Seq::<char>::empty()) is Err,
{
    assert((seq![d] + rest).drop_first() =~= rest);
}

} // verus!
