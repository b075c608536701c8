use interpreters::number::Num;
use interpreters::token::{Literal, Token, TokenType};

#[test]
fn display_test() {
    assert_eq!(TokenType::NUMBER.to_string(), "NUMBER");

    assert_eq!(Literal::Number(Num::parse("4.0").unwrap()).to_string(), "4");
    assert_eq!(Literal::Bool(true).to_string(), "true");
    assert_eq!(Literal::Str("Hello".to_string()).to_string(), "Hello");
    assert_eq!(Literal::Nil.to_string(), "Nil");
}

#[test]
fn token_text_shows_kind_lexeme_and_literal() {
    let t = Token::new(TokenType::STRING, "\"hi\"", Some(Literal::Str("hi".to_string())), 2);
    assert_eq!(t.to_string(), "(STRING | \"hi\" | hi)");
    let e = Token::new(TokenType::EOF, "", None, 9);
    assert_eq!(e.to_string(), "(EOF |  | LitNone)");
}

#[test]
fn numbers_print_like_decimals() {
    let n = |s: &str| Num::parse(s).unwrap();
    assert_eq!(n("0").to_string(), "0");
    assert_eq!(n("45.67").to_string(), "45.67");
    assert_eq!(n("1.50").to_string(), "1.5");
    assert_eq!(n("007").to_string(), "7");
    assert_eq!(n("1").div(&n("3")).to_string(), "0.3333333333333333");
    assert_eq!(n("0").sub(&n("2")).div(&n("3")).to_string(), "-0.6666666666666666");
    assert_eq!(n("12").add(&n("24")).to_string(), "36");
    assert_eq!(n("1.2").sub(&n("36.11")).to_string(), "-34.91");
    assert_eq!(n("1.3").add(&n("45")).mul(&n("2")).to_string(), "92.6");
    assert_eq!(n("10").div(&n("4")).to_string(), "2.5");
}

#[test]
fn number_parsing_rejects_bad_text() {
    assert!(Num::parse("").is_none());
    assert!(Num::parse(".5").is_none());
    assert!(Num::parse("1.2.3").is_none());
    assert!(Num::parse("12a").is_none());
    assert!(Num::parse("1.").is_some());
}

#[test]
fn numbers_of_any_size() {
    let n = |s: &str| Num::parse(s).unwrap();
    assert_eq!(n("99999999999999999999").to_string(), "99999999999999999999");
    assert_eq!(n("0.0000000000000000001").to_string(), "0");
    assert!(n("0.0000000000000000001").less(&n("0.000000000000000001")));
    assert_eq!(n("10000000000").mul(&n("10000000000")).to_string(), "100000000000000000000");
    assert_eq!(n("9999999999").mul(&n("9999999999")).to_string(), "99999999980000000001");
    let big = n("9223372036854775807");
    assert_eq!(big.add(&big).to_string(), "18446744073709551614");
    assert_eq!(big.sub(&big).add(&big).to_string(), "9223372036854775807");
    assert_eq!(n("1").div(&big).mul(&big).to_string(), "1");
}

#[test]
fn number_comparison_and_zero() {
    let zero = Num::parse("0").unwrap();
    assert!(zero.check_zero());
    assert!(zero.neg().check_zero());
    assert!(zero.equals(&zero.neg()));
    assert!(!Num::parse("0.5").unwrap().check_zero());
    assert!(Num::parse("0.1").unwrap().add(&Num::parse("0.2").unwrap()).equals(&Num::parse("0.3").unwrap()));
    assert!(Num::parse("2").unwrap().less(&Num::parse("2.5").unwrap()));
    assert!(!Num::parse("2.5").unwrap().less(&Num::parse("2.5").unwrap()));
    assert!(Num::parse("2.5").unwrap().neg().less(&Num::parse("1").unwrap()));
    assert!(Num::parse("3").unwrap().neg().less(&Num::parse("2").unwrap().neg()));
    assert!(!Num::parse("2").unwrap().less(&Num::parse("3").unwrap().neg()));
    assert_eq!(Num::parse("3").unwrap().neg().to_string(), "-3");
    assert_eq!(Num::parse("0.5").unwrap().sub(&Num::parse("2").unwrap()).to_string(), "-1.5");
}
