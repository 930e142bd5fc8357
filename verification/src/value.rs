use vstd::prelude::*;
use vstd::string::StringExecFns;

verus! {

/// A value stored in a column.
#[derive(Debug, Clone, Copy, PartialEq, Eq, Structural)]
pub enum Value {
    /// An integer between 0 and 255.
    Integer(u8),
}

/// The character that stands for a digit.
pub open spec fn digit_char(digit: int) -> char {
    if digit == 0 {
        '0'
    } else if digit == 1 {
        '1'
    } else if digit == 2 {
        '2'
    } else if digit == 3 {
        '3'
    } else if digit == 4 {
        '4'
    } else if digit == 5 {
        '5'
    } else if digit == 6 {
        '6'
    } else if digit == 7 {
        '7'
    } else if digit == 8 {
        '8'
    } else {
        '9'
    }
}

/// A number in base ten, without leading zeros.
pub open spec fn decimal_text(number: nat) -> Seq<char>
    decreases number,
{
    if number < 10 {
        seq![digit_char(number as int)]
    } else {
        decimal_text(number / 10).push(digit_char((number % 10) as int))
    }
}

/// The text of one digit.
fn digit_text(digit: u8) -> (text: &'static str)
    requires
        digit < 10,
    ensures
        text@ == seq![digit_char(digit as int)],
{
    proof {
        reveal_strlit("0");
        reveal_strlit("1");
        reveal_strlit("2");
        reveal_strlit("3");
        reveal_strlit("4");
        reveal_strlit("5");
        reveal_strlit("6");
        reveal_strlit("7");
        reveal_strlit("8");
        reveal_strlit("9");
    }
    let text: &'static str = if digit == 0 {
        "0"
    } else if digit == 1 {
        "1"
    } else if digit == 2 {
        "2"
    } else if digit == 3 {
        "3"
    } else if digit == 4 {
        "4"
    } else if digit == 5 {
        "5"
    } else if digit == 6 {
        "6"
    } else if digit == 7 {
        "7"
    } else if digit == 8 {
        "8"
    } else {
        "9"
    };
    assert(text@ =~= seq![digit_char(digit as int)]);
    text
}

impl Value {
    /// The value as it is shown: an integer in base ten.
    pub open spec fn text(self) -> Seq<char> {
        match self {
            Value::Integer(value) => decimal_text(value as nat),
        }
    }

    /// The value as it is shown: an integer in base ten.
    pub fn to_string(&self) -> (text: String)
        ensures
            text@ == self.text(),
    {
        match self {
            Value::Integer(value) => {
                let number: u8 = *value;
                let mut text = String::new();
                if number >= 100 {
                    text.append(digit_text(number / 100));
                }
                if number >= 10 {
                    text.append(digit_text(number / 10 % 10));
                }
                text.append(digit_text(number % 10));
                proof {
                    let n = number as nat;
                    assert(text@ =~= decimal_text(n)) by {
                        reveal_with_fuel(decimal_text, 4);
                        if number >= 100 {
                            assert(n / 10 / 10 == n / 100);
                            assert((n / 10) % 10 == n / 10 % 10);
                        }
                    }
                }
                text
            },
        }
    }

    /// The bytes that store the value in a record.
    pub open spec fn encoding(self) -> Seq<u8> {
        match self {
            Value::Integer(value) => seq![value],
        }
    }

    /// The bytes that store the value in a record.
    pub fn to_bsql_data(&self) -> (data: Vec<u8>)
        ensures
            data@ == self.encoding(),
    {
        match self {
            Value::Integer(value) => {
                let mut data: Vec<u8> = Vec::new();
                data.push(*value);
                assert(data@ =~= self.encoding());
                data
            },
        }
    }
}

} // verus!
