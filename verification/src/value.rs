//! The two-variant value model: a `Token` is either text or a 64-bit signed
//! integer, and every operation produces a new `Token`.  The mode-dependent
//! arithmetic and comparison operations live here, together with the fatal
//! error taxonomy of the machine.

use crate::text::{dec_int, dec_string, str_eq};
use vstd::prelude::*;
use vstd::string::StringExecFns;

verus! {

/// A machine value: either a text string or a 64-bit signed integer.
#[derive(Debug)]
pub enum Token {
    Chars(String),
    Num(i64),
}

/// The mathematical value of a `Token`.
pub enum Val {
    Chars(Seq<char>),
    Num(i64),
}

impl View for Token {
    type V = Val;

    open spec fn view(&self) -> Val {
        match self {
            Token::Chars(s) => Val::Chars(s@),
            Token::Num(n) => Val::Num(*n),
        }
    }
}

impl DeepView for Token {
    type V = Val;

    open spec fn deep_view(&self) -> Val {
        self.view()
    }
}

/// A fatal condition.  Every error aborts the run at the point of detection;
/// there is no recovery and no partial result.
#[derive(Debug)]
pub enum Error {
    /// A source word is neither empty nor the reserved word; carries the
    /// offending word and its 0-based line number.
    ParseError(String, usize),
    /// An operation required a numeric operand and received a textual one, or
    /// vice versa, with no coercion path in the active mode.
    TypeError,
    /// A memory address or character offset is outside its valid range, with
    /// no sentinel fallback in the active mode.
    IndexError,
    /// A numeric value is not a valid Unicode scalar value during CHAR in
    /// standard mode.
    ConversionError,
    /// An operand pop was attempted on empty memory.
    StackUnderflow,
}

/// Value equality in standard mode: numbers compare with numbers, text with
/// text, and the two variants are never equal to each other.
pub open spec fn eq_v(a: Val, b: Val) -> bool {
    match (a, b) {
        (Val::Num(x), Val::Num(y)) => x == y,
        (Val::Chars(s), Val::Chars(t)) => s == t,
        _ => false,
    }
}

/// Value equality in backwards-compatible mode: as `eq_v`, except that a
/// number equals a text exactly when the number is 0 and the text is empty or
/// `"false"`.
pub open spec fn js_eq_v(a: Val, b: Val) -> bool {
    match (a, b) {
        (Val::Num(x), Val::Num(y)) => x == y,
        (Val::Chars(s), Val::Chars(t)) => s == t,
        (Val::Num(n), Val::Chars(s)) => n == 0 && (s.len() == 0 || s == "false"@),
        (Val::Chars(s), Val::Num(n)) => n == 0 && (s.len() == 0 || s == "false"@),
    }
}

/// ADD's result for operands `b` (below) and `a` (top): numeric sum with
/// wrap-around, or concatenation, rendering a numeric operand in decimal.
pub open spec fn add_v(b: Val, a: Val) -> Val {
    match (b, a) {
        (Val::Num(x), Val::Num(y)) => Val::Num(x.wrapping_add(y)),
        (Val::Chars(s), Val::Chars(t)) => Val::Chars(s + t),
        (Val::Chars(s), Val::Num(y)) => Val::Chars(s + dec_int(y)),
        (Val::Num(x), Val::Chars(t)) => Val::Chars(dec_int(x) + t),
    }
}

/// SUB's result in backwards-compatible mode: numeric difference with
/// wrap-around, or the text `"NaN"` when either operand is textual.
pub open spec fn js_sub_v(b: Val, a: Val) -> Val {
    match (b, a) {
        (Val::Num(x), Val::Num(y)) => Val::Num(x.wrapping_sub(y)),
        _ => Val::Chars("NaN"@),
    }
}

/// The textual rendering of a value: text verbatim, numbers in decimal.
pub open spec fn render_v(v: Val) -> Seq<char> {
    match v {
        Val::Chars(s) => s,
        Val::Num(n) => dec_int(n),
    }
}

impl Clone for Token {
    /// An exact copy of the value.
    fn clone(&self) -> (r: Token)
        ensures
            r == *self,
    {
        match self {
            Token::Chars(s) => Token::Chars(s.clone()),
            Token::Num(n) => Token::Num(*n),
        }
    }
}

impl PartialEq for Token {
    /// Standard-mode value equality (`eq_v`).
    fn eq(&self, other: &Token) -> (r: bool)
        ensures
            r == eq_v(self@, other@),
    {
        match (self, other) {
            (Token::Num(x), Token::Num(y)) => *x == *y,
            (Token::Chars(s), Token::Chars(t)) => str_eq(s.as_str(), t.as_str()),
            _ => false,
        }
    }
}

impl vstd::std_specs::cmp::PartialEqSpecImpl for Token {
    open spec fn obeys_eq_spec() -> bool {
        true
    }

    open spec fn eq_spec(&self, other: &Token) -> bool {
        eq_v(self@, other@)
    }
}

impl Token {
    /// Backwards-compatible equality (`js_eq_v`).
    pub fn js_eq(&self, other: &Token) -> (r: bool)
        ensures
            r == js_eq_v(self@, other@),
    {
        match (self, other) {
            (Token::Num(x), Token::Num(y)) => *x == *y,
            (Token::Chars(s), Token::Chars(t)) => str_eq(s.as_str(), t.as_str()),
            (Token::Num(n), Token::Chars(s)) | (Token::Chars(s), Token::Num(n)) => *n == 0 && (
            s.as_str().is_empty() || str_eq(s.as_str(), "false")),
        }
    }

    /// Backwards-compatible subtraction (`js_sub_v`), with `self` the operand
    /// below and `other` the top operand.
    pub fn js_sub(self, other: Token) -> (r: Token)
        ensures
            r@ == js_sub_v(self@, other@),
    {
        match (&self, &other) {
            (Token::Num(x), Token::Num(y)) => Token::Num(x.wrapping_sub(*y)),
            _ => Token::Chars(String::from_str("NaN")),
        }
    }

    /// ADD (`add_v`), with `self` the operand below and `other` the top
    /// operand.
    pub fn add(self, other: Token) -> (r: Token)
        ensures
            r@ == add_v(self@, other@),
    {
        match (self, other) {
            (Token::Num(x), Token::Num(y)) => Token::Num(x.wrapping_add(y)),
            (Token::Chars(s), Token::Chars(t)) => Token::Chars(s.concat(t.as_str())),
            (Token::Chars(s), Token::Num(y)) => Token::Chars(s.concat(dec_string(y).as_str())),
            (Token::Num(x), Token::Chars(t)) => Token::Chars(dec_string(x).concat(t.as_str())),
        }
    }

    /// Standard-mode subtraction: numeric difference with wrap-around, fatal
    /// when either operand is textual.
    pub fn sub(self, other: Token) -> (r: Result<Token, Error>)
        ensures
            match (self@, other@) {
                (Val::Num(x), Val::Num(y)) => r matches Ok(t) && t@ == Val::Num(
                    x.wrapping_sub(y),
                ),
                _ => r matches Err(e) && e matches Error::TypeError,
            },
    {
        match (&self, &other) {
            (Token::Num(x), Token::Num(y)) => Ok(Token::Num(x.wrapping_sub(*y))),
            _ => Err(Error::TypeError),
        }
    }

    /// Multiplication: numeric product with wrap-around, fatal when either
    /// operand is textual.
    pub fn mul(self, other: Token) -> (r: Result<Token, Error>)
        ensures
            match (self@, other@) {
                (Val::Num(x), Val::Num(y)) => r matches Ok(t) && t@ == Val::Num(
                    x.wrapping_mul(y),
                ),
                _ => r matches Err(e) && e matches Error::TypeError,
            },
    {
        match (&self, &other) {
            (Token::Num(x), Token::Num(y)) => Ok(Token::Num(x.wrapping_mul(*y))),
            _ => Err(Error::TypeError),
        }
    }

    /// The textual rendering of the value (`render_v`).
    pub fn render(&self) -> (r: String)
        ensures
            r@ == render_v(self@),
    {
        match self {
            Token::Chars(s) => s.clone(),
            Token::Num(n) => dec_string(*n),
        }
    }
}

} // verus!
