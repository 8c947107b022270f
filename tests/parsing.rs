use advent_kit::parser::AndThenParser;
use advent_kit::parser::CharParser;
use advent_kit::parser::DigitParser;
use advent_kit::parser::EmptyParser;
use advent_kit::parser::ManyParser;
use advent_kit::parser::Parser;
use advent_kit::scanner;
use advent_kit::scanner::fold_digits;
use advent_kit::scanner::mul_parser;
use advent_kit::scanner::scan_line;
use advent_kit::scanner::total;
use advent_kit::scanner::Instruction;
use advent_kit::scanner::Scanner;

const EXAMPLE: &str = "xmul(2,4)%&mul[3,7]!@^do_not_mul(5,5)+mul(32,64]then(mul(11,8)mul(8,5))";

fn digits() -> ManyParser<DigitParser> {
    ManyParser { min: 1, max: 3, parser: DigitParser }
}

#[test]
fn test_example_day3_part1() {
    assert_eq!(161, scanner::run(EXAMPLE.to_owned()));
}

#[test]
fn test_day3_parsers() {
    let p = CharParser { c: 'x' };

    assert_eq!(Err("expected char 'x', found 'b'".to_owned()), p.parse("blabla".to_owned()));

    assert_eq!(Ok(('x', "enakis".to_owned())), p.parse("xenakis".to_owned()));

    let d = DigitParser;

    assert_eq!(Err("expected digit, found b".to_owned()), d.parse("blabla".to_owned()));

    assert_eq!(Ok((1, "234".to_owned())), d.parse("1234".to_owned()));

    let combined = AndThenParser { parser1: p, parser2: d };

    assert_eq!(Ok((('x', 2), "567".to_owned())), combined.parse("x2567".to_owned()));

    let many = ManyParser { parser: combined, min: 1, max: 3 };

    assert_eq!(
        Ok((vec![('x', 2), ('x', 3), ('x', 4)], "567".to_owned())),
        many.parse("x2x3x4567".to_owned())
    );

    let mul_p = AndThenParser {
        parser1: AndThenParser {
            parser1: AndThenParser {
                parser1: CharParser { c: 'm' },
                parser2: CharParser { c: 'u' },
            },
            parser2: CharParser { c: 'l' },
        },
        parser2: AndThenParser {
            parser1: AndThenParser {
                parser1: CharParser { c: '(' },
                parser2: AndThenParser {
                    parser1: ManyParser { min: 1, max: 3, parser: DigitParser },
                    parser2: AndThenParser {
                        parser1: CharParser { c: ',' },
                        parser2: AndThenParser {
                            parser1: ManyParser { min: 1, max: 3, parser: DigitParser },
                            parser2: CharParser { c: ')' },
                        },
                    },
                },
            },
            parser2: EmptyParser,
        },
    };

    assert_eq!(
        Ok((
            ((('m', 'u'), 'l'), (('(', (vec![1, 2, 3], (',', (vec![2, 3], ')')))), ())),
            "".to_owned()
        )),
        mul_p.parse("mul(123,23)".to_owned())
    );
}

#[test]
fn char_parser_matches_own_character_only() {
    let p = CharParser { c: 'é' };
    assert_eq!(Ok(('é', "té".to_owned())), p.parse("étó".to_owned().replace('ó', "é")));
    assert_eq!(Ok(('é', "".to_owned())), p.parse("é".to_owned()));
    assert_eq!(Err("expected char 'é', found 'e'".to_owned()), p.parse("eé".to_owned()));
    assert_eq!(Err("expected char, found empty string".to_owned()), p.parse(String::new()));
}

#[test]
fn digit_parser_values_and_failures() {
    assert_eq!(Ok((0, "".to_owned())), DigitParser.parse("0".to_owned()));
    assert_eq!(Ok((9, "x".to_owned())), DigitParser.parse("9x".to_owned()));
    assert_eq!(Err("expected digit, found ,".to_owned()), DigitParser.parse(",1".to_owned()));
    assert_eq!(Err("expected digit, found empty string".to_owned()), DigitParser.parse(String::new()));
}

#[test]
fn sequence_passes_on_second_failure() {
    let p = AndThenParser { parser1: CharParser { c: 'a' }, parser2: CharParser { c: 'b' } };
    assert_eq!(Err("expected char 'b', found 'c'".to_owned()), p.parse("ac".to_owned()));
    assert_eq!(Err("expected char 'a', found 'b'".to_owned()), p.parse("bb".to_owned()));
    assert_eq!(Ok((('a', 'b'), "c".to_owned())), p.parse("abc".to_owned()));
}

#[test]
fn empty_parser_consumes_nothing() {
    assert_eq!(Ok(((), "abc".to_owned())), EmptyParser.parse("abc".to_owned()));
    assert_eq!(Ok(((), "".to_owned())), EmptyParser.parse(String::new()));
}

#[test]
fn repetition_stops_at_max() {
    assert_eq!(Ok((vec![1, 2, 3], "4".to_owned())), digits().parse("1234".to_owned()));
}

#[test]
fn repetition_below_min_fails() {
    assert_eq!(
        Err("Expected between 1 and 3 occurences, found 0".to_owned()),
        digits().parse("".to_owned())
    );
    assert_eq!(
        Err("Expected between 1 and 3 occurences, found 0".to_owned()),
        digits().parse("x1".to_owned())
    );
}

#[test]
fn repetition_with_zero_min_and_large_bounds() {
    let p = ManyParser { min: 0, max: 2, parser: CharParser { c: 'a' } };
    assert_eq!(Ok((vec![], "b".to_owned())), p.parse("b".to_owned()));
    let q = ManyParser { min: 12, max: 1205, parser: DigitParser };
    assert_eq!(
        Err("Expected between 12 and 1205 occurences, found 2".to_owned()),
        q.parse("42".to_owned())
    );
    let r = ManyParser { min: 3, max: 2, parser: DigitParser };
    assert_eq!(
        Err("Expected between 3 and 2 occurences, found 2".to_owned()),
        r.parse("4242".to_owned())
    );
}

#[test]
fn mul_parser_matches_instruction() {
    let (value, rest) = mul_parser().parse("mul(123,23)".to_owned()).unwrap();
    assert_eq!(rest, "");
    let (_, ((_, (x1, (_, (x2, _)))), _)) = value;
    assert_eq!(123, fold_digits(&x1));
    assert_eq!(23, fold_digits(&x2));
    let mut s = Scanner::new("mul(123,23)".to_owned());
    s.step();
    assert_eq!(vec![Instruction { left: 123, right: 23 }], s.found);
    assert!(s.is_done());
}

#[test]
fn mul_parser_rejects_four_digits() {
    assert!(mul_parser().parse("mul(1234,5)".to_owned()).is_err());
    assert!(mul_parser().parse("mul(,5)".to_owned()).is_err());
    assert!(mul_parser().parse("mul(1,5]".to_owned()).is_err());
}

#[test]
fn scanning_example_finds_four_instructions() {
    // `do_not_mul(5,5)` holds a well-formed `mul(5,5)`
    assert_eq!(
        vec![
            Instruction { left: 2, right: 4 },
            Instruction { left: 5, right: 5 },
            Instruction { left: 11, right: 8 },
            Instruction { left: 8, right: 5 },
        ],
        scan_line(EXAMPLE.to_owned())
    );
}

#[test]
fn scanning_again_after_done_finds_nothing() {
    let mut s = Scanner::new("mul(2,3)".to_owned());
    s.finish();
    assert!(s.is_done());
    assert_eq!(0, s.finish());
    s.step();
    assert_eq!(vec![Instruction { left: 2, right: 3 }], s.found);
    assert_eq!("", s.input);
}

#[test]
fn noise_takes_one_step_per_character() {
    let mut s = Scanner::new("mul(1,2]xyz".to_owned());
    assert_eq!(11, s.finish());
    assert!(s.found.is_empty());
    assert!(s.is_done());
}

#[test]
fn a_match_is_one_step() {
    let mut s = Scanner::new("amul(1,2)b".to_owned());
    assert_eq!(3, s.finish());
    assert_eq!(vec![Instruction { left: 1, right: 2 }], s.found);
}

#[test]
fn step_skips_one_character() {
    let mut s = Scanner::new("xmul(1,2)".to_owned());
    s.step();
    assert_eq!("mul(1,2)", s.input);
    assert!(s.found.is_empty());
}

#[test]
fn fold_digits_is_positional() {
    assert_eq!(0, fold_digits(&vec![]));
    assert_eq!(7, fold_digits(&vec![7]));
    assert_eq!(905, fold_digits(&vec![9, 0, 5]));
}

#[test]
fn total_multiplies_and_sums() {
    assert_eq!(0, total(&vec![]));
    assert_eq!(
        161,
        total(&vec![
            Instruction { left: 2, right: 4 },
            Instruction { left: 5, right: 5 },
            Instruction { left: 11, right: 8 },
            Instruction { left: 8, right: 5 },
        ])
    );
}

#[test]
fn total_wraps() {
    let big = Instruction { left: u64::MAX, right: 1 };
    assert_eq!(0, total(&vec![big, Instruction { left: 1, right: 1 }]));
    assert_eq!(u64::MAX - 1, total(&vec![Instruction { left: u64::MAX, right: 2 }]));
}

#[test]
fn run_on_empty_line_is_zero() {
    assert_eq!(0, scanner::run(String::new()));
    assert_eq!(999 * 999, scanner::run("mul(999,999)".to_owned()));
}
