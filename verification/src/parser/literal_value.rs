use vstd::prelude::*;
use vstd::string::StrSliceExecFns;
use crate::tokenizer::Token;
use crate::tokenizer::TokenView;
use crate::value::Value;

verus! {

/// A literal of a query.
#[derive(Debug, Clone, Copy, PartialEq, Eq, Structural)]
pub enum LiteralValue {
    Integer(u8),
}

/// Whether the character is one of the digits 0 to 9.
pub open spec fn is_digit(c: char) -> bool {
    '0' <= c <= '9'
}

/// The number that a text of digits stands for in base ten.
pub open spec fn decimal_value(digits: Seq<char>) -> nat
    decreases digits.len(),
{
    if digits.len() == 0 {
        0
    } else {
        decimal_value(digits.drop_last()) * 10 + (digits.last() as nat - '0' as nat) as nat
    }
}

/// Every character of the text is a digit.
pub open spec fn all_digits(digits: Seq<char>) -> bool {
    forall|i: int| 0 <= i < digits.len() ==> is_digit(#[trigger] digits[i])
}

/// The digits of a number's text: the text without a leading plus sign.
pub open spec fn unsigned_part(text: Seq<char>) -> Seq<char> {
    if text.len() > 0 && text[0] == '+' {
        text.skip(1)
    } else {
        text
    }
}

/// The number between 0 and 255 that a text stands for, if it stands for
/// one: an optional plus sign, then one or more digits.
pub open spec fn byte_of_text(text: Seq<char>) -> Option<u8> {
    let digits = unsigned_part(text);
    if digits.len() > 0 && all_digits(digits) && decimal_value(digits) <= 255 {
        Some(decimal_value(digits) as u8)
    } else {
        None
    }
}

/// The literal that a token stands for, if it stands for one.
pub open spec fn literal_of(token: TokenView) -> Option<LiteralValue> {
    match token {
        TokenView::NumericLiteral(text) => match byte_of_text(text) {
            Some(value) => Some(LiteralValue::Integer(value)),
            None => None,
        },
        _ => None,
    }
}

/// The number of a text is at least the number of each of its beginnings.
pub proof fn lemma_decimal_value_grows(digits: Seq<char>, count: int)
    requires
        0 <= count <= digits.len(),
        all_digits(digits),
    ensures
        decimal_value(digits.take(count)) <= decimal_value(digits),
    decreases digits.len() - count,
{
    if count < digits.len() {
        lemma_decimal_value_grows(digits, count + 1);
        assert(digits.take(count + 1).drop_last() =~= digits.take(count));
        assert(is_digit(digits[count]));
    } else {
        assert(digits.take(count) =~= digits);
    }
}

/// Reads a number between 0 and 255 from a text.
pub fn parse_byte(text: &str) -> (value: Option<u8>)
    ensures
        value == byte_of_text(text@),
{
    let length = text.unicode_len();
    let start: usize = if length > 0 && text.get_char(0) == '+' {
        1
    } else {
        0
    };
    let ghost digits = unsigned_part(text@);
    assert(digits =~= text@.skip(start as int));
    if start == length {
        return None;
    }
    let mut value: u32 = 0;
    let mut index: usize = start;
    while index < length
        invariant
            length == text@.len(),
            digits == text@.skip(start as int),
            digits == unsigned_part(text@),
            start <= index <= length,
            start < length,
            forall|i: int| 0 <= i < index - start ==> is_digit(#[trigger] digits[i]),
            value == decimal_value(digits.take(index - start)),
            value <= 255,
        decreases length - index,
    {
        let c = text.get_char(index);
        assert(digits[index - start] == c);
        if c < '0' || c > '9' {
            assert(!is_digit(digits[index - start]));
            return None;
        }
        let digit: u32 = c as u32 - '0' as u32;
        proof {
            assert(digits.take(index - start + 1).drop_last() =~= digits.take(index - start));
            assert(digits.take(index - start + 1).last() == c);
        }
        value = value * 10 + digit;
        if value > 255 {
            proof {
                if all_digits(digits) {
                    lemma_decimal_value_grows(digits, index - start + 1);
                }
            }
            return None;
        }
        index = index + 1;
    }
    assert(digits.take(index - start) =~= digits);
    Some(value as u8)
}

impl LiteralValue {
    /// The literal that the token stands for: a numeric literal between 0
    /// and 255.
    pub fn from_token(token: &Token) -> (literal: Option<LiteralValue>)
        ensures
            literal == literal_of(token@),
    {
        match token {
            Token::NumericLiteral(text) => match parse_byte(text.as_str()) {
                Some(value) => Some(LiteralValue::Integer(value)),
                None => None,
            },
            _ => None,
        }
    }

    /// The value that the literal stands for.
    pub open spec fn value(self) -> Value {
        match self {
            LiteralValue::Integer(value) => Value::Integer(value),
        }
    }

    /// The value that the literal stands for.
    pub fn into_value(self) -> (value: Value)
        ensures
            value == self.value(),
    {
        match self {
            LiteralValue::Integer(value) => Value::Integer(value),
        }
    }
}

} // verus!
