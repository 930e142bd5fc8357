use vstd::prelude::*;
use crate::error::ErrorView;
use crate::parser::data_type_identifier::type_of;
use crate::parser::data_type_identifier::DataTypeIdentifier;
use crate::parser::literal_value::literal_of;
use crate::parser::literal_value::LiteralValue;
use crate::tokenizer::TokenView;

verus! {

/// How a condition compares the two sides.
#[derive(Debug, Clone, Copy, PartialEq, Eq, Structural)]
pub enum CompareOperation {
    Equality,
}

/// What a condition holds.
pub struct ConditionView {
    pub lhs: Seq<char>,
    pub comparison: CompareOperation,
    pub rhs: LiteralValue,
}

/// What a command holds.
pub enum CommandView {
    CreateDatabase { database_name: Seq<char> },
    CreateTable { table_name: Seq<char>, column_definitions: Seq<(Seq<char>, DataTypeIdentifier)> },
    InsertInto { table_name: Seq<char>, values: Seq<LiteralValue> },
    Select { identifiers: Seq<Seq<char>>, table_name: Seq<char>, where_conditions: Seq<ConditionView> },
}

/// The number of tokens before the first semicolon, or the number of all
/// tokens where there is none.
pub open spec fn statement_length(tokens: Seq<TokenView>) -> int
    decreases tokens.len(),
{
    if tokens.len() == 0 || tokens[0] == TokenView::Semicolon {
        0
    } else {
        1 + statement_length(tokens.drop_first())
    }
}

/// The tokens of the first statement: those before the first semicolon.
pub open spec fn statement_tokens(tokens: Seq<TokenView>) -> Seq<TokenView> {
    tokens.take(statement_length(tokens))
}

/// What is wrong where the token `expected` should stand at `position`, if
/// anything: the statement ends before it, or another token stands there.
pub open spec fn mismatch(tokens: Seq<TokenView>, position: int, expected: TokenView) -> Option<
    ErrorView,
> {
    if position >= tokens.len() {
        Some(ErrorView::MissingToken)
    } else if tokens[position] != expected {
        Some(ErrorView::UnexpectedToken { actual: tokens[position] })
    } else {
        None
    }
}

/// The name at `position`, or what is wrong there: the statement ends
/// before it, or a token stands there that is no identifier.
pub open spec fn identifier_at(tokens: Seq<TokenView>, position: int) -> Result<Seq<char>, ErrorView> {
    if position >= tokens.len() {
        Err(ErrorView::MissingToken)
    } else {
        match tokens[position] {
            TokenView::Identifier(name) => Ok(name),
            other => Err(ErrorView::UnexpectedToken { actual: other }),
        }
    }
}

/// The column that a name and a type make.
pub open spec fn column_of(name: TokenView, data_type: TokenView) -> Result<
    (Seq<char>, DataTypeIdentifier),
    ErrorView,
> {
    match name {
        TokenView::Identifier(text) => match type_of(data_type) {
            Some(identifier) => Ok((text, identifier)),
            None => Err(ErrorView::UnexpectedToken { actual: data_type }),
        },
        other => Err(ErrorView::UnexpectedToken { actual: other }),
    }
}

/// The columns that are listed from `position` on, up to a closing
/// parenthesis: each a name and a type, with an optional comma after it.
pub open spec fn columns_from(tokens: Seq<TokenView>, position: int) -> Result<
    Seq<(Seq<char>, DataTypeIdentifier)>,
    ErrorView,
>
    decreases tokens.len() - position,
{
    if position < 0 {
        Err(ErrorView::MissingToken)
    } else if position < tokens.len() && tokens[position] == TokenView::ClosingParenthesis {
        Ok(Seq::empty())
    } else if position + 1 >= tokens.len() {
        Err(ErrorView::MissingToken)
    } else {
        match column_of(tokens[position], tokens[position + 1]) {
            Err(error) => Err(error),
            Ok(column) => {
                let next = if position + 2 < tokens.len() && tokens[position + 2]
                    == TokenView::Comma {
                    position + 3
                } else {
                    position + 2
                };
                match columns_from(tokens, next) {
                    Ok(rest) => Ok(seq![column] + rest),
                    Err(error) => Err(error),
                }
            },
        }
    }
}

/// The columns of a list in parentheses that starts at `position`.
pub open spec fn column_list(tokens: Seq<TokenView>, position: int) -> Result<
    Seq<(Seq<char>, DataTypeIdentifier)>,
    ErrorView,
> {
    match mismatch(tokens, position, TokenView::OpeningParenthesis) {
        Some(error) => Err(error),
        None => columns_from(tokens, position + 1),
    }
}

/// The command that a statement makes which starts with `CREATE`.
pub open spec fn create_command(tokens: Seq<TokenView>) -> Result<CommandView, ErrorView> {
    if mismatch(tokens, 0, TokenView::CreateKeyword) is Some {
        Err(mismatch(tokens, 0, TokenView::CreateKeyword)->0)
    } else if tokens.len() < 2 {
        Err(ErrorView::MissingToken)
    } else {
        match identifier_at(tokens, 2) {
            Err(error) => Err(error),
            Ok(name) => match tokens[1] {
                TokenView::DatabaseKeyword => Ok(CommandView::CreateDatabase { database_name: name }),
                TokenView::TableKeyword => match column_list(tokens.skip(3), 0) {
                    Ok(columns) => Ok(
                        CommandView::CreateTable { table_name: name, column_definitions: columns },
                    ),
                    Err(error) => Err(error),
                },
                other => Err(ErrorView::UnexpectedToken { actual: other }),
            },
        }
    }
}

/// The literals that are listed from `position` on, up to a closing
/// parenthesis, each with an optional comma after it.
pub open spec fn literals_from(tokens: Seq<TokenView>, position: int) -> Result<
    Seq<LiteralValue>,
    ErrorView,
>
    decreases tokens.len() - position,
{
    if position < 0 || position >= tokens.len() {
        Err(ErrorView::MissingToken)
    } else if tokens[position] == TokenView::ClosingParenthesis {
        Ok(Seq::empty())
    } else {
        match literal_of(tokens[position]) {
            None => Err(ErrorView::UnexpectedToken { actual: tokens[position] }),
            Some(literal) => {
                let next = if position + 1 < tokens.len() && tokens[position + 1]
                    == TokenView::Comma {
                    position + 2
                } else {
                    position + 1
                };
                match literals_from(tokens, next) {
                    Ok(rest) => Ok(seq![literal] + rest),
                    Err(error) => Err(error),
                }
            },
        }
    }
}

/// The command that a statement makes which starts with `INSERT`.
pub open spec fn insert_command(tokens: Seq<TokenView>) -> Result<CommandView, ErrorView> {
    if mismatch(tokens, 0, TokenView::InsertKeyword) is Some {
        Err(mismatch(tokens, 0, TokenView::InsertKeyword)->0)
    } else if mismatch(tokens, 1, TokenView::IntoKeyword) is Some {
        Err(mismatch(tokens, 1, TokenView::IntoKeyword)->0)
    } else if identifier_at(tokens, 2) is Err {
        Err(identifier_at(tokens, 2)->Err_0)
    } else if mismatch(tokens, 3, TokenView::ValuesKeyword) is Some {
        Err(mismatch(tokens, 3, TokenView::ValuesKeyword)->0)
    } else if mismatch(tokens, 4, TokenView::OpeningParenthesis) is Some {
        Err(mismatch(tokens, 4, TokenView::OpeningParenthesis)->0)
    } else {
        match literals_from(tokens, 5) {
            Ok(values) => Ok(
                CommandView::InsertInto { table_name: identifier_at(tokens, 2)->Ok_0, values },
            ),
            Err(error) => Err(error),
        }
    }
}

/// The names that were selected, and the position after `FROM`.
pub struct Selection {
    pub identifiers: Seq<Seq<char>>,
    pub end: int,
}

/// The names that are listed from `position` on, up to `FROM`. An asterisk
/// counts as the name `*`; commas are passed over wherever they stand.
pub open spec fn selection_from(tokens: Seq<TokenView>, position: int) -> Result<Selection, ErrorView>
    decreases tokens.len() - position,
{
    if position < 0 || position >= tokens.len() {
        Err(ErrorView::MissingToken)
    } else {
        match tokens[position] {
            TokenView::FromKeyword => Ok(Selection { identifiers: Seq::empty(), end: position + 1 }),
            TokenView::Comma => selection_from(tokens, position + 1),
            TokenView::Asterisk => match selection_from(tokens, position + 1) {
                Ok(rest) => Ok(
                    Selection { identifiers: seq!["*"@] + rest.identifiers, end: rest.end },
                ),
                Err(error) => Err(error),
            },
            TokenView::Identifier(name) => match selection_from(tokens, position + 1) {
                Ok(rest) => Ok(
                    Selection { identifiers: seq![name] + rest.identifiers, end: rest.end },
                ),
                Err(error) => Err(error),
            },
            other => Err(ErrorView::UnexpectedToken { actual: other }),
        }
    }
}

/// The condition that the tokens make: a name, an equal sign and a literal.
pub open spec fn condition_of(tokens: Seq<TokenView>) -> Option<ConditionView> {
    if tokens.len() < 3 || tokens[1] != TokenView::EqualSign {
        None
    } else {
        match tokens[0] {
            TokenView::Identifier(lhs) => match literal_of(tokens[2]) {
                Some(rhs) => Some(
                    ConditionView { lhs, comparison: CompareOperation::Equality, rhs },
                ),
                None => None,
            },
            _ => None,
        }
    }
}

/// The conditions that follow the name of the table, which stands before
/// `position`: the one after `WHERE`, if `WHERE` stands there and a
/// condition follows it, and none otherwise.
pub open spec fn conditions_at(tokens: Seq<TokenView>, position: int) -> Seq<ConditionView> {
    if position < tokens.len() && tokens[position] == TokenView::WhereKeyword && condition_of(
        tokens.skip(position + 1),
    ) is Some {
        seq![condition_of(tokens.skip(position + 1))->0]
    } else {
        Seq::empty()
    }
}

/// The command that a statement makes which starts with `SELECT`.
pub open spec fn select_command(tokens: Seq<TokenView>) -> Result<CommandView, ErrorView> {
    if mismatch(tokens, 0, TokenView::SelectKeyword) is Some {
        Err(mismatch(tokens, 0, TokenView::SelectKeyword)->0)
    } else {
        match selection_from(tokens, 1) {
            Err(error) => Err(error),
            Ok(selection) => match identifier_at(tokens, selection.end) {
                Err(error) => Err(error),
                Ok(table_name) => Ok(
                    CommandView::Select {
                        identifiers: selection.identifiers,
                        table_name,
                        where_conditions: conditions_at(tokens, selection.end + 1),
                    },
                ),
            },
        }
    }
}

/// The command that the tokens of one statement make.
pub open spec fn command_of(tokens: Seq<TokenView>) -> Result<CommandView, ErrorView> {
    if tokens.len() == 0 {
        Err(ErrorView::MissingToken)
    } else {
        match tokens[0] {
            TokenView::CreateKeyword => create_command(tokens),
            TokenView::InsertKeyword => insert_command(tokens),
            TokenView::SelectKeyword => select_command(tokens),
            other => Err(ErrorView::UnexpectedToken { actual: other }),
        }
    }
}

/// The command that a list of tokens makes: that of its first statement.
pub open spec fn parsed(tokens: Seq<TokenView>) -> Result<CommandView, ErrorView> {
    command_of(statement_tokens(tokens))
}

/// A statement is no longer than the list of tokens it is taken from.
pub proof fn lemma_statement_length(tokens: Seq<TokenView>)
    ensures
        0 <= statement_length(tokens) <= tokens.len(),
        forall|i: int|
            0 <= i < statement_length(tokens) ==> #[trigger] tokens[i] != TokenView::Semicolon,
        statement_length(tokens) < tokens.len() ==> tokens[statement_length(tokens)]
            == TokenView::Semicolon,
    decreases tokens.len(),
{
    if tokens.len() > 0 && tokens[0] != TokenView::Semicolon {
        let rest = tokens.drop_first();
        lemma_statement_length(rest);
        assert forall|i: int| 0 <= i < statement_length(tokens) implies #[trigger] tokens[i]
            != TokenView::Semicolon by {
            if i > 0 {
                assert(tokens[i] == rest[i - 1]);
            }
        }
        if statement_length(tokens) < tokens.len() {
            assert(tokens[statement_length(tokens)] == rest[statement_length(rest)]);
        }
    }
}

/// The position of the first semicolon is the length of the statement.
pub proof fn lemma_statement_ends(tokens: Seq<TokenView>, end: int)
    requires
        0 <= end <= tokens.len(),
        forall|i: int| 0 <= i < end ==> #[trigger] tokens[i] != TokenView::Semicolon,
        end < tokens.len() ==> tokens[end] == TokenView::Semicolon,
    ensures
        statement_length(tokens) == end,
{
    lemma_statement_length(tokens);
    let length = statement_length(tokens);
    if length < end {
        assert(tokens[length] != TokenView::Semicolon);
    }
    if end < length {
        assert(tokens[end] != TokenView::Semicolon);
    }
}

} // verus!
