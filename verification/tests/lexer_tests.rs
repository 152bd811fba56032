use metric_engine::lexer::{Lexer, LexicalError, Tok};
use metric_engine::number::Binary64;

fn num(x: f64) -> Binary64 {
    Binary64::from_bits(x.to_bits())
}

#[test]
fn test_lexer_num_id_num() {
    let input = "123 abc 456";
    let mut lexer = Lexer::new(input);
    assert_eq!(lexer.next(), Some(Ok((0, Tok::Num(num(123_f64)), 3))));
    assert_eq!(lexer.next(), Some(Ok((4, Tok::Id, 7))));
    assert_eq!(lexer.next(), Some(Ok((8, Tok::Num(num(456_f64)), 11))));
    assert_eq!(lexer.next(), None);
}

#[test]
fn test_lexer_id_num_id() {
    let input = "abc 123 def";
    let mut lexer = Lexer::new(input);
    assert_eq!(lexer.next(), Some(Ok((0, Tok::Id, 3))));
    assert_eq!(lexer.next(), Some(Ok((4, Tok::Num(num(123_f64)), 7))));
    assert_eq!(lexer.next(), Some(Ok((8, Tok::Id, 11))));
}

#[test]
fn test_lexer_num_op() {
    let input = "1+2*3";
    let mut lexer = Lexer::new(input);
    assert_eq!(lexer.next(), Some(Ok((0, Tok::Num(num(1_f64)), 1))));
    assert_eq!(lexer.next(), Some(Ok((1, Tok::OpPlus, 2))));
    assert_eq!(lexer.next(), Some(Ok((2, Tok::Num(num(2_f64)), 3))));
    assert_eq!(lexer.next(), Some(Ok((3, Tok::OpStar, 4))));
    assert_eq!(lexer.next(), Some(Ok((4, Tok::Num(num(3_f64)), 5))));
    assert_eq!(lexer.next(), None);
}

#[test]
fn lexer_stays_at_the_end() {
    let mut lexer = Lexer::new("7 \t ");
    assert_eq!(lexer.next(), Some(Ok((0, Tok::Num(num(7_f64)), 1))));
    for _ in 0..5 {
        assert_eq!(lexer.next(), None);
        assert_eq!(lexer.offset(), 1);
    }
    let mut empty = Lexer::new("");
    assert_eq!(empty.next(), None);
    assert_eq!(empty.next(), None);
}

#[test]
fn lexer_reports_a_byte_that_starts_no_token() {
    let mut lexer = Lexer::new("1 ? 2");
    assert_eq!(lexer.next(), Some(Ok((0, Tok::Num(num(1_f64)), 1))));
    assert_eq!(lexer.next(), Some(Err(LexicalError::NotPossible)));
    assert_eq!(lexer.offset(), 3);
}

#[test]
fn lexer_munches_numbers_and_identifiers() {
    let mut lexer = Lexer::new("19.25 a_b9/(x)-");
    assert_eq!(lexer.next(), Some(Ok((0, Tok::Num(num(19.25)), 5))));
    assert_eq!(lexer.next(), Some(Ok((6, Tok::Id, 10))));
    assert_eq!(lexer.next(), Some(Ok((10, Tok::OpSlash, 11))));
    assert_eq!(lexer.next(), Some(Ok((11, Tok::LParen, 12))));
    assert_eq!(lexer.next(), Some(Ok((12, Tok::Id, 13))));
    assert_eq!(lexer.next(), Some(Ok((13, Tok::RParen, 14))));
    assert_eq!(lexer.next(), Some(Ok((14, Tok::OpMinus, 15))));
    assert_eq!(lexer.next(), None);
}

#[test]
fn lexer_gives_zero_for_a_malformed_number() {
    let mut lexer = Lexer::new("1.2.3");
    assert_eq!(lexer.next(), Some(Ok((0, Tok::Num(num(0.0)), 5))));
    assert_eq!(lexer.next(), None);
}

#[test]
fn lexer_takes_points_into_names_between_braces_only() {
    let mut lexer = Lexer::new("{metrics.cpu}");
    assert_eq!(lexer.next(), Some(Ok((0, Tok::LBrace, 1))));
    assert_eq!(lexer.next(), Some(Ok((1, Tok::Id, 12))));
    assert_eq!(lexer.next(), Some(Ok((12, Tok::RBrace, 13))));
    assert_eq!(lexer.next(), None);

    let mut bare = Lexer::new("metrics.cpu");
    assert_eq!(bare.next(), Some(Ok((0, Tok::Id, 7))));
    assert_eq!(bare.next(), Some(Err(LexicalError::NotPossible)));
}
