use line_lexer::lexer::{consume_name, consume_number, tokenize};
use line_lexer::token::{Position, ScanError, Token, TokenData};

fn name(s: &str) -> Token {
    Token::Name(String::from(s))
}

#[test]
fn number_line() {
    let (tokens, err) = tokenize(String::from("42\n"));
    assert_eq!(tokens, vec![Token::Number(42)]);
    assert_eq!(err, None);
}

#[test]
fn name_line() {
    let (tokens, err) = tokenize(String::from("abc\n"));
    assert_eq!(tokens, vec![name("abc")]);
    assert_eq!(err, None);
}

#[test]
fn name_then_number() {
    let (tokens, err) = tokenize(String::from("ab 12\n"));
    assert_eq!(tokens, vec![name("ab"), Token::Number(12)]);
    assert_eq!(err, None);
}

#[test]
fn number_then_name() {
    let (tokens, err) = tokenize(String::from("12ab\n"));
    assert_eq!(tokens, vec![Token::Number(12), name("ab")]);
    assert_eq!(err, None);
}

#[test]
fn halts_at_unrecognized() {
    let (tokens, err) = tokenize(String::from("a!b\n"));
    assert_eq!(tokens, vec![name("a")]);
    assert_eq!(err, Some(ScanError::UnrecognizedCharacter('!')));
}

#[test]
fn empty_input() {
    let (tokens, err) = tokenize(String::new());
    assert_eq!(tokens, vec![]);
    assert_eq!(err, None);
}

#[test]
fn digits_only_with_leading_zeros() {
    let (tokens, err) = tokenize(String::from("007"));
    assert_eq!(tokens, vec![Token::Number(7)]);
    assert_eq!(err, None);
}

#[test]
fn letters_only_without_newline() {
    let (tokens, err) = tokenize(String::from("zebra"));
    assert_eq!(tokens, vec![name("zebra")]);
    assert_eq!(err, None);
}

#[test]
fn one_token_per_run() {
    let (tokens, err) = tokenize(String::from("a 1 b 2\n"));
    assert_eq!(
        tokens,
        vec![name("a"), Token::Number(1), name("b"), Token::Number(2)]
    );
    assert_eq!(err, None);
}

#[test]
fn repeated_spaces_yield_no_tokens() {
    let (tokens, err) = tokenize(String::from("ab  cd"));
    assert_eq!(tokens, vec![name("ab"), name("cd")]);
    assert_eq!(err, None);
}

#[test]
fn spaces_only() {
    let (tokens, err) = tokenize(String::from("   "));
    assert_eq!(tokens, vec![]);
    assert_eq!(err, None);
}

#[test]
fn alternating_runs_without_spaces() {
    let (tokens, err) = tokenize(String::from("1a2\n"));
    assert_eq!(tokens, vec![Token::Number(1), name("a"), Token::Number(2)]);
    assert_eq!(err, None);
}

#[test]
fn stops_at_first_newline() {
    let (tokens, err) = tokenize(String::from("ab\ncd"));
    assert_eq!(tokens, vec![name("ab")]);
    assert_eq!(err, None);
}

#[test]
fn leading_newline_yields_nothing() {
    let (tokens, err) = tokenize(String::from("\nabc"));
    assert_eq!(tokens, vec![]);
    assert_eq!(err, None);
}

#[test]
fn stops_at_hash_sign() {
    let (tokens, err) = tokenize(String::from("12#34"));
    assert_eq!(tokens, vec![Token::Number(12)]);
    assert_eq!(err, Some(ScanError::UnrecognizedCharacter('#')));
}

#[test]
fn uppercase_is_unrecognized() {
    let (tokens, err) = tokenize(String::from("aBc"));
    assert_eq!(tokens, vec![name("a")]);
    assert_eq!(err, Some(ScanError::UnrecognizedCharacter('B')));
}

#[test]
fn largest_number_fits() {
    let (tokens, err) = tokenize(String::from("2147483647\n"));
    assert_eq!(tokens, vec![Token::Number(i32::MAX)]);
    assert_eq!(err, None);
}

#[test]
fn overflow_stops_the_scan() {
    let (tokens, err) = tokenize(String::from("2147483648\n"));
    assert_eq!(tokens, vec![]);
    assert_eq!(err, Some(ScanError::NumericOverflow));
}

#[test]
fn tokens_before_overflow_are_kept() {
    let (tokens, err) = tokenize(String::from("5 99999999999"));
    assert_eq!(tokens, vec![Token::Number(5)]);
    assert_eq!(err, Some(ScanError::NumericOverflow));
}

#[test]
fn number_consumption_tracks_position() {
    let mut pos = Position {
        start: 0,
        end: 0,
        line: 0,
    };
    let (value, next) = consume_number("123 x", 0, &mut pos);
    assert_eq!(value, Some(123));
    assert_eq!(next, 3);
    assert_eq!(pos.end, 3);
    assert_eq!(pos.start, 3);
    assert_eq!(pos.line, 0);
}

#[test]
fn number_consumption_overflow_keeps_start() {
    let mut pos = Position {
        start: 0,
        end: 0,
        line: 0,
    };
    let (value, next) = consume_number("9999999999", 0, &mut pos);
    assert_eq!(value, None);
    assert_eq!(next, 10);
    assert_eq!(pos.end, 10);
    assert_eq!(pos.start, 0);
}

#[test]
fn name_consumption_stops_at_space() {
    let mut pos = Position {
        start: 0,
        end: 0,
        line: 0,
    };
    let (word, next) = consume_name("ab cd", 0, &mut pos);
    assert_eq!(word, "ab");
    assert_eq!(next, 2);
    assert_eq!(pos.end, 2);
    assert_eq!(pos.start, 2);
}

#[test]
fn name_consumption_in_the_middle() {
    let mut pos = Position {
        start: 3,
        end: 3,
        line: 0,
    };
    let (word, next) = consume_name("12 abc", 3, &mut pos);
    assert_eq!(word, "abc");
    assert_eq!(next, 6);
    assert_eq!(pos.end, 6);
    assert_eq!(pos.start, 6);
}

#[test]
fn fresh_position_is_zeroed() {
    let pos = Position::new();
    assert_eq!(pos.start, 0);
    assert_eq!(pos.end, 0);
    assert_eq!(pos.line, 0);
}

#[test]
fn token_data_pairs_token_and_position() {
    let pos = Position {
        start: 0,
        end: 2,
        line: 0,
    };
    let data = TokenData::new(name("ab"), pos);
    assert_eq!(data.token, name("ab"));
    assert_eq!(data.position, pos);
}
