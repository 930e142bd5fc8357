use vstd::prelude::*;
use vstd::string::StrSliceExecFns;
use crate::error::ErrorView;
use crate::parser::data_type_identifier::DataTypeIdentifier;
use crate::parser::grammar::create_command;
use crate::parser::grammar::identifier_at;
use crate::parser::grammar::mismatch;
use crate::parser::grammar::select_command;
use crate::parser::grammar::statement_tokens;
use crate::parser::grammar::CommandView;
use crate::parser::literal_value::all_digits;
use crate::parser::literal_value::decimal_value;
use crate::parser::literal_value::is_digit;
use crate::parser::statement::declared;
use crate::parser::statement::Command as Statement;
use crate::row_result::texts;
use crate::tokenizer::token_views;
use crate::tokenizer::tokenize;
use crate::tokenizer::tokens_of;
use crate::tokenizer::Token;
use crate::tokenizer::TokenView;

verus! {

/// A literal of a query: a whole number of 32 bits.
#[derive(Debug, Clone, Copy, PartialEq, Eq, Structural)]
pub enum LiteralValue {
    Integer(i32),
}

/// A command of a query, without the conditions of a `WHERE` clause.
#[derive(Debug, PartialEq)]
pub enum Command {
    CreateDatabase { database_name: String },
    CreateTable { table_name: String, column_definitions: Vec<(String, DataTypeIdentifier)> },
    InsertInto { table_name: String, values: Vec<LiteralValue> },
    Select { identifiers: Vec<String>, table_name: String },
}

/// What a command holds.
pub enum SimpleView {
    CreateDatabase { database_name: Seq<char> },
    CreateTable { table_name: Seq<char>, column_definitions: Seq<(Seq<char>, DataTypeIdentifier)> },
    InsertInto { table_name: Seq<char>, values: Seq<LiteralValue> },
    Select { identifiers: Seq<Seq<char>>, table_name: Seq<char> },
}

impl View for Command {
    type V = SimpleView;

    open spec fn view(&self) -> SimpleView {
        match self {
            Command::CreateDatabase { database_name } => SimpleView::CreateDatabase {
                database_name: database_name@,
            },
            Command::CreateTable { table_name, column_definitions } => SimpleView::CreateTable {
                table_name: table_name@,
                column_definitions: declared(column_definitions@),
            },
            Command::InsertInto { table_name, values } => SimpleView::InsertInto {
                table_name: table_name@,
                values: values@,
            },
            Command::Select { identifiers, table_name } => SimpleView::Select {
                identifiers: texts(identifiers@),
                table_name: table_name@,
            },
        }
    }
}

/// What an optional command holds.
pub open spec fn simple_view(command: Option<Command>) -> Option<SimpleView> {
    match command {
        Some(found) => Some(found@),
        None => None,
    }
}

/// Whether the text starts with a plus or a minus sign.
pub open spec fn has_sign(text: Seq<char>) -> bool {
    text.len() > 0 && (text[0] == '+' || text[0] == '-')
}

/// The whole number of 32 bits that a text stands for, if it stands for
/// one: an optional sign, then one or more digits.
pub open spec fn integer_of_text(text: Seq<char>) -> Option<i32> {
    let digits = if has_sign(text) {
        text.skip(1)
    } else {
        text
    };
    let negative = text.len() > 0 && text[0] == '-';
    if digits.len() == 0 || !all_digits(digits) {
        None
    } else if negative && decimal_value(digits) <= 2147483648 {
        Some((0 - decimal_value(digits)) as i32)
    } else if !negative && decimal_value(digits) <= 2147483647 {
        Some(decimal_value(digits) as i32)
    } else {
        None
    }
}

/// The literal that a token stands for, if it stands for one.
pub open spec fn wide_literal_of(token: TokenView) -> Option<LiteralValue> {
    match token {
        TokenView::NumericLiteral(text) => match integer_of_text(text) {
            Some(value) => Some(LiteralValue::Integer(value)),
            None => None,
        },
        _ => None,
    }
}

/// The literals that are listed from `position` on, up to a closing
/// parenthesis, each with an optional comma after it.
pub open spec fn wide_literals_from(tokens: Seq<TokenView>, position: int) -> Option<
    Seq<LiteralValue>,
>
    decreases tokens.len() - position,
{
    if position < 0 || position >= tokens.len() {
        None
    } else if tokens[position] == TokenView::ClosingParenthesis {
        Some(Seq::empty())
    } else {
        match wide_literal_of(tokens[position]) {
            None => None,
            Some(literal) => {
                let next = if position + 1 < tokens.len() && tokens[position + 1]
                    == TokenView::Comma {
                    position + 2
                } else {
                    position + 1
                };
                match wide_literals_from(tokens, next) {
                    Some(rest) => Some(seq![literal] + rest),
                    None => None,
                }
            },
        }
    }
}

/// The command that a statement makes which starts with `INSERT`.
pub open spec fn simple_insert(tokens: Seq<TokenView>) -> Option<SimpleView> {
    if mismatch(tokens, 0, TokenView::InsertKeyword) is Some || mismatch(
        tokens,
        1,
        TokenView::IntoKeyword,
    ) is Some || identifier_at(tokens, 2) is Err || mismatch(tokens, 3, TokenView::ValuesKeyword)
        is Some || mismatch(tokens, 4, TokenView::OpeningParenthesis) is Some {
        None
    } else {
        match wide_literals_from(tokens, 5) {
            Some(values) => Some(
                SimpleView::InsertInto { table_name: identifier_at(tokens, 2)->Ok_0, values },
            ),
            None => None,
        }
    }
}

/// The command that the tokens of one statement make, if they make one.
pub open spec fn simple_command(tokens: Seq<TokenView>) -> Option<SimpleView> {
    if tokens.len() == 0 {
        None
    } else {
        match tokens[0] {
            TokenView::CreateKeyword => match create_command(tokens) {
                Ok(CommandView::CreateDatabase { database_name }) => Some(
                    SimpleView::CreateDatabase { database_name },
                ),
                Ok(CommandView::CreateTable { table_name, column_definitions }) => Some(
                    SimpleView::CreateTable { table_name, column_definitions },
                ),
                _ => None,
            },
            TokenView::InsertKeyword => simple_insert(tokens),
            TokenView::SelectKeyword => match select_command(tokens) {
                Ok(CommandView::Select { identifiers, table_name, where_conditions }) => Some(
                    SimpleView::Select { identifiers, table_name },
                ),
                _ => None,
            },
            _ => None,
        }
    }
}

/// Reads a whole number of 32 bits from a text.
pub fn parse_integer(text: &str) -> (value: Option<i32>)
    ensures
        value == integer_of_text(text@),
{
    let length = text.unicode_len();
    let first: char = if length > 0 {
        text.get_char(0)
    } else {
        '0'
    };
    let negative = length > 0 && first == '-';
    let start: usize = if length > 0 && (first == '+' || first == '-') {
        1
    } else {
        0
    };
    let ghost digits = text@.skip(start as int);
    if start == length {
        return None;
    }
    let mut value: i64 = 0;
    let mut index: usize = start;
    while index < length
        invariant
            length == text@.len(),
            digits == text@.skip(start as int),
            digits == if has_sign(text@) {
                text@.skip(1)
            } else {
                text@
            },
            negative == (text@.len() > 0 && text@[0] == '-'),
            start <= index <= length,
            start < length,
            forall|i: int| 0 <= i < index - start ==> is_digit(#[trigger] digits[i]),
            value == decimal_value(digits.take(index - start)),
            value <= 2147483648,
        decreases length - index,
    {
        let c = text.get_char(index);
        assert(digits[index - start] == c);
        if c < '0' || c > '9' {
            assert(!is_digit(digits[index - start]));
            return None;
        }
        let digit: i64 = (c as u32 - '0' as u32) as i64;
        proof {
            assert(digits.take(index - start + 1).drop_last() =~= digits.take(index - start));
            assert(digits.take(index - start + 1).last() == c);
        }
        value = value * 10 + digit;
        if value > 2147483648 {
            proof {
                if all_digits(digits) {
                    crate::parser::literal_value::lemma_decimal_value_grows(
                        digits,
                        index - start + 1,
                    );
                }
            }
            return None;
        }
        index = index + 1;
    }
    assert(digits.take(index - start) =~= digits);
    if negative {
        Some((0 - value) as i32)
    } else if value <= 2147483647 {
        Some(value as i32)
    } else {
        None
    }
}

impl LiteralValue {
    /// The literal that the token stands for: a numeric literal that is a
    /// whole number of 32 bits.
    pub fn from_token(token: &Token) -> (literal: Option<LiteralValue>)
        ensures
            literal == wide_literal_of(token@),
    {
        match token {
            Token::NumericLiteral(text) => match parse_integer(text.as_str()) {
                Some(value) => Some(LiteralValue::Integer(value)),
                None => None,
            },
            _ => None,
        }
    }
}

/// The literals `front`, followed by those of `rest`.
pub open spec fn prepend_wide(front: Seq<LiteralValue>, rest: Option<Seq<LiteralValue>>) -> Option<
    Seq<LiteralValue>,
> {
    match rest {
        Some(literals) => Some(front + literals),
        None => None,
    }
}

/// Reads a statement that starts with `INSERT`, if the tokens make one.
pub fn parse_insert_command(tokens: Vec<Token>) -> (command: Option<Command>)
    ensures
        simple_view(command) == simple_insert(token_views(tokens@)),
{
    let ghost views = token_views(tokens@);
    if tokens.len() < 5 || !tokens[0].same(&Token::InsertKeyword) || !tokens[1].same(
        &Token::IntoKeyword,
    ) || !tokens[3].same(&Token::ValuesKeyword) || !tokens[4].same(&Token::OpeningParenthesis) {
        return None;
    }
    let identifier = match &tokens[2] {
        Token::Identifier(name) => name.clone(),
        _ => {
            return None;
        },
    };
    let mut values: Vec<LiteralValue> = Vec::new();
    let mut position: usize = 5;
    assert(prepend_wide(values@, wide_literals_from(views, 5)) =~= wide_literals_from(views, 5)) by {
        if wide_literals_from(views, 5) is Some {
            assert(values@ + wide_literals_from(views, 5)->0 =~= wide_literals_from(views, 5)->0);
        }
    }
    loop
        invariant
            views == token_views(tokens@),
            mismatch(views, 0, TokenView::InsertKeyword) is None,
            mismatch(views, 1, TokenView::IntoKeyword) is None,
            identifier_at(views, 2) == Ok::<Seq<char>, ErrorView>(identifier@),
            mismatch(views, 3, TokenView::ValuesKeyword) is None,
            mismatch(views, 4, TokenView::OpeningParenthesis) is None,
            5 <= position <= tokens@.len() + 1,
            wide_literals_from(views, 5) == prepend_wide(
                values@,
                wide_literals_from(views, position as int),
            ),
        decreases tokens@.len() + 1 - position,
    {
        if position >= tokens.len() {
            return None;
        }
        if tokens[position].same(&Token::ClosingParenthesis) {
            assert(values@ + Seq::<LiteralValue>::empty() =~= values@);
            return Some(Command::InsertInto { table_name: identifier, values });
        }
        let literal = match LiteralValue::from_token(&tokens[position]) {
            Some(literal) => literal,
            None => {
                return None;
            },
        };
        let next: usize = if position + 1 < tokens.len() && tokens[position + 1].same(
            &Token::Comma,
        ) {
            position + 2
        } else {
            position + 1
        };
        proof {
            let rest = wide_literals_from(views, next as int);
            if rest is Some {
                assert(values@ + (seq![literal] + rest->0) =~= values@.push(literal) + rest->0);
            }
        }
        values.push(literal);
        position = next;
    }
}

/// Reads a statement that starts with `CREATE`, if the tokens make one.
pub fn parse_create_command(tokens: Vec<Token>) -> (command: Option<Command>)
    ensures
        simple_view(command) == match create_command(token_views(tokens@)) {
            Ok(CommandView::CreateDatabase { database_name }) => Some(
                SimpleView::CreateDatabase { database_name },
            ),
            Ok(CommandView::CreateTable { table_name, column_definitions }) => Some(
                SimpleView::CreateTable { table_name, column_definitions },
            ),
            _ => None,
        },
{
    match crate::parser::statement::parse_create_command(tokens) {
        Ok(Statement::CreateDatabase { database_name }) => Some(
            Command::CreateDatabase { database_name },
        ),
        Ok(Statement::CreateTable { table_name, column_definitions }) => Some(
            Command::CreateTable { table_name, column_definitions },
        ),
        _ => None,
    }
}

/// Reads a statement that starts with `SELECT`, if the tokens make one.
/// A `WHERE` clause is passed over.
pub fn parse_select_command(tokens: Vec<Token>) -> (command: Option<Command>)
    ensures
        simple_view(command) == match select_command(token_views(tokens@)) {
            Ok(CommandView::Select { identifiers, table_name, where_conditions }) => Some(
                SimpleView::Select { identifiers, table_name },
            ),
            _ => None,
        },
{
    match crate::parser::statement::parse_select_command(tokens) {
        Ok(Statement::Select { identifiers, table_name, where_conditions }) => Some(
            Command::Select { identifiers, table_name },
        ),
        _ => None,
    }
}

/// Reads the first statement of a query, if it is a command.
pub fn parse(input: &str) -> (command: Option<Command>)
    ensures
        simple_view(command) == simple_command(statement_tokens(tokens_of(input@))),
{
    let tokens = tokenize(input);
    let command_tokens = crate::parser::statement::first_statement(&tokens);
    if command_tokens.len() == 0 {
        return None;
    }
    match &command_tokens[0] {
        Token::CreateKeyword => parse_create_command(command_tokens),
        Token::InsertKeyword => parse_insert_command(command_tokens),
        Token::SelectKeyword => parse_select_command(command_tokens),
        _ => None,
    }
}

} // verus!
