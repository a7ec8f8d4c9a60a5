use chicken::value::{Error, Token};

fn chars(s: &str) -> Token {
    Token::Chars(String::from(s))
}

#[test]
fn add_mixed_types_is_order_sensitive() {
    // Chars("a") below, Num(5) on top: b + a renders the number after the text.
    let r = chars("a").add(Token::Num(5));
    assert_eq!(r, chars("a5"));
    // Reversed push order yields the number rendered first.
    let r = Token::Num(5).add(chars("a"));
    assert_eq!(r, chars("5a"));
}

#[test]
fn add_equal_renderings_coincide() {
    assert_eq!(chars("5").add(Token::Num(5)), chars("55"));
    assert_eq!(Token::Num(5).add(chars("5")), chars("55"));
}

#[test]
fn add_numbers_and_texts() {
    assert_eq!(Token::Num(2).add(Token::Num(40)), Token::Num(42));
    assert_eq!(chars("ab").add(chars("cd")), chars("abcd"));
    assert_eq!(chars("x").add(Token::Num(-3)), chars("x-3"));
}

#[test]
fn standard_equality_never_crosses_variants() {
    assert_eq!(Token::Num(3), Token::Num(3));
    assert_ne!(Token::Num(3), chars("3"));
    assert_ne!(Token::Num(0), chars(""));
    assert_eq!(chars("ab"), chars("ab"));
}

#[test]
fn js_equality_crosses_variants_only_for_falsy_zero() {
    assert!(Token::Num(0).js_eq(&chars("")));
    assert!(Token::Num(0).js_eq(&chars("false")));
    assert!(chars("").js_eq(&Token::Num(0)));
    assert!(chars("false").js_eq(&Token::Num(0)));
    assert!(!Token::Num(0).js_eq(&chars("0")));
    assert!(!Token::Num(1).js_eq(&chars("")));
    assert!(!Token::Num(1).js_eq(&chars("false")));
    assert!(Token::Num(7).js_eq(&Token::Num(7)));
    assert!(chars("x").js_eq(&chars("x")));
}

#[test]
fn js_sub_yields_nan_on_text() {
    assert_eq!(Token::Num(7).js_sub(Token::Num(5)), Token::Num(2));
    assert_eq!(chars("x").js_sub(Token::Num(1)), chars("NaN"));
    assert_eq!(Token::Num(1).js_sub(chars("x")), chars("NaN"));
    assert_eq!(chars("a").js_sub(chars("b")), chars("NaN"));
}

#[test]
fn standard_sub_is_fatal_on_text() {
    assert_eq!(Token::Num(7).sub(Token::Num(5)).unwrap(), Token::Num(2));
    assert!(matches!(chars("x").sub(Token::Num(1)), Err(Error::TypeError)));
    assert!(matches!(Token::Num(1).sub(chars("x")), Err(Error::TypeError)));
}

#[test]
fn mul_is_fatal_on_text() {
    assert_eq!(Token::Num(6).mul(Token::Num(7)).unwrap(), Token::Num(42));
    assert!(matches!(chars("x").mul(Token::Num(2)), Err(Error::TypeError)));
    assert!(matches!(Token::Num(2).mul(chars("x")), Err(Error::TypeError)));
}

#[test]
fn render_numbers_in_decimal_and_text_verbatim() {
    assert_eq!(Token::Num(0).render(), "0");
    assert_eq!(Token::Num(42).render(), "42");
    assert_eq!(Token::Num(-12).render(), "-12");
    assert_eq!(Token::Num(i64::MAX).render(), "9223372036854775807");
    assert_eq!(Token::Num(i64::MIN).render(), "-9223372036854775808");
    assert_eq!(chars("so long").render(), "so long");
    assert_eq!(chars("").render(), "");
}
