use vstd::prelude::*;
use vstd::string::StrSliceExecFns;
use crate::text::str_eq;

verus! {

/// A lexical unit of a query.
#[derive(Debug, PartialEq, Clone)]
pub enum Token {
    OpeningParenthesis,
    ClosingParenthesis,
    Comma,
    Semicolon,
    SelectKeyword,
    CreateKeyword,
    InsertKeyword,
    UseKeyword,
    TableKeyword,
    DatabaseKeyword,
    FromKeyword,
    ValuesKeyword,
    IntoKeyword,
    WhereKeyword,
    NotKeyword,
    NullKeyword,
    IntegerKeyword,
    Asterisk,
    EqualSign,
    Identifier(String),
    NumericLiteral(String),
}

/// What a token holds.
pub enum TokenView {
    OpeningParenthesis,
    ClosingParenthesis,
    Comma,
    Semicolon,
    SelectKeyword,
    CreateKeyword,
    InsertKeyword,
    UseKeyword,
    TableKeyword,
    DatabaseKeyword,
    FromKeyword,
    ValuesKeyword,
    IntoKeyword,
    WhereKeyword,
    NotKeyword,
    NullKeyword,
    IntegerKeyword,
    Asterisk,
    EqualSign,
    Identifier(Seq<char>),
    NumericLiteral(Seq<char>),
}

impl View for Token {
    type V = TokenView;

    open spec fn view(&self) -> TokenView {
        match self {
            Token::OpeningParenthesis => TokenView::OpeningParenthesis,
            Token::ClosingParenthesis => TokenView::ClosingParenthesis,
            Token::Comma => TokenView::Comma,
            Token::Semicolon => TokenView::Semicolon,
            Token::SelectKeyword => TokenView::SelectKeyword,
            Token::CreateKeyword => TokenView::CreateKeyword,
            Token::InsertKeyword => TokenView::InsertKeyword,
            Token::UseKeyword => TokenView::UseKeyword,
            Token::TableKeyword => TokenView::TableKeyword,
            Token::DatabaseKeyword => TokenView::DatabaseKeyword,
            Token::FromKeyword => TokenView::FromKeyword,
            Token::ValuesKeyword => TokenView::ValuesKeyword,
            Token::IntoKeyword => TokenView::IntoKeyword,
            Token::WhereKeyword => TokenView::WhereKeyword,
            Token::NotKeyword => TokenView::NotKeyword,
            Token::NullKeyword => TokenView::NullKeyword,
            Token::IntegerKeyword => TokenView::IntegerKeyword,
            Token::Asterisk => TokenView::Asterisk,
            Token::EqualSign => TokenView::EqualSign,
            Token::Identifier(name) => TokenView::Identifier(name@),
            Token::NumericLiteral(digits) => TokenView::NumericLiteral(digits@),
        }
    }
}

/// What a list of tokens holds.
pub open spec fn token_views(tokens: Seq<Token>) -> Seq<TokenView> {
    tokens.map_values(|token: Token| token@)
}

impl Token {
    /// Whether two tokens hold the same.
    pub fn same(&self, other: &Token) -> (same: bool)
        ensures
            same == (self@ == other@),
    {
        match (self, other) {
            (Token::OpeningParenthesis, Token::OpeningParenthesis) => true,
            (Token::ClosingParenthesis, Token::ClosingParenthesis) => true,
            (Token::Comma, Token::Comma) => true,
            (Token::Semicolon, Token::Semicolon) => true,
            (Token::SelectKeyword, Token::SelectKeyword) => true,
            (Token::CreateKeyword, Token::CreateKeyword) => true,
            (Token::InsertKeyword, Token::InsertKeyword) => true,
            (Token::UseKeyword, Token::UseKeyword) => true,
            (Token::TableKeyword, Token::TableKeyword) => true,
            (Token::DatabaseKeyword, Token::DatabaseKeyword) => true,
            (Token::FromKeyword, Token::FromKeyword) => true,
            (Token::ValuesKeyword, Token::ValuesKeyword) => true,
            (Token::IntoKeyword, Token::IntoKeyword) => true,
            (Token::WhereKeyword, Token::WhereKeyword) => true,
            (Token::NotKeyword, Token::NotKeyword) => true,
            (Token::NullKeyword, Token::NullKeyword) => true,
            (Token::IntegerKeyword, Token::IntegerKeyword) => true,
            (Token::Asterisk, Token::Asterisk) => true,
            (Token::EqualSign, Token::EqualSign) => true,
            (Token::Identifier(left), Token::Identifier(right)) => str_eq(
                left.as_str(),
                right.as_str(),
            ),
            (Token::NumericLiteral(left), Token::NumericLiteral(right)) => str_eq(
                left.as_str(),
                right.as_str(),
            ),
            _ => false,
        }
    }

    /// A copy of the token.
    pub fn duplicate(&self) -> (token: Token)
        ensures
            token@ == self@,
    {
        match self {
            Token::OpeningParenthesis => Token::OpeningParenthesis,
            Token::ClosingParenthesis => Token::ClosingParenthesis,
            Token::Comma => Token::Comma,
            Token::Semicolon => Token::Semicolon,
            Token::SelectKeyword => Token::SelectKeyword,
            Token::CreateKeyword => Token::CreateKeyword,
            Token::InsertKeyword => Token::InsertKeyword,
            Token::UseKeyword => Token::UseKeyword,
            Token::TableKeyword => Token::TableKeyword,
            Token::DatabaseKeyword => Token::DatabaseKeyword,
            Token::FromKeyword => Token::FromKeyword,
            Token::ValuesKeyword => Token::ValuesKeyword,
            Token::IntoKeyword => Token::IntoKeyword,
            Token::WhereKeyword => Token::WhereKeyword,
            Token::NotKeyword => Token::NotKeyword,
            Token::NullKeyword => Token::NullKeyword,
            Token::IntegerKeyword => Token::IntegerKeyword,
            Token::Asterisk => Token::Asterisk,
            Token::EqualSign => Token::EqualSign,
            Token::Identifier(name) => Token::Identifier(name.clone()),
            Token::NumericLiteral(digits) => Token::NumericLiteral(digits.clone()),
        }
    }
}

/// Whether `char::is_whitespace` holds of a character: whether Unicode gives
/// it the property White_Space.
pub uninterp spec fn is_whitespace_char(c: char) -> bool;

/// Whether `char::is_numeric` holds of a character: whether Unicode puts it
/// in one of its number categories.
pub uninterp spec fn is_numeric_char(c: char) -> bool;

/// Calls `char::is_whitespace`; the result is what the name
/// `is_whitespace_char` stands for.
#[verifier::external_body]
fn char_is_whitespace(c: char) -> (whitespace: bool)
    ensures
        whitespace == is_whitespace_char(c),
{
    c.is_whitespace()
}

/// Calls `char::is_numeric`; the result is what the name `is_numeric_char`
/// stands for.
#[verifier::external_body]
fn char_is_numeric(c: char) -> (numeric: bool)
    ensures
        numeric == is_numeric_char(c),
{
    c.is_numeric()
}

/// The five ASCII whitespace characters: space, tab, line feed, form feed
/// and carriage return.
pub open spec fn is_ascii_space(c: char) -> bool {
    c == ' ' || c == '\t' || c == '\n' || c == '\u{C}' || c == '\r'
}

/// A character that ends the word before it.
pub open spec fn ends_word(c: char) -> bool {
    is_ascii_space(c) || c == ';' || c == ',' || c == ')'
}

/// The token that a single punctuation character makes, if it is one.
pub open spec fn punctuation(c: char) -> Option<TokenView> {
    if c == '(' {
        Some(TokenView::OpeningParenthesis)
    } else if c == ')' {
        Some(TokenView::ClosingParenthesis)
    } else if c == ',' {
        Some(TokenView::Comma)
    } else if c == ';' {
        Some(TokenView::Semicolon)
    } else if c == '*' {
        Some(TokenView::Asterisk)
    } else {
        None
    }
}

/// Where the word ends whose characters up to `from` have been read: at the
/// first character from `from` on that ends a word, or at the end of the text.
pub open spec fn word_end(text: Seq<char>, from: int) -> int
    decreases text.len() - from,
{
    if from < 0 || from >= text.len() {
        text.len() as int
    } else if ends_word(text[from]) {
        from
    } else {
        word_end(text, from + 1)
    }
}

/// Every character from `from` up to `end` is marked in `numeric`.
pub open spec fn all_numeric(numeric: Seq<bool>, from: int, end: int) -> bool {
    forall|i: int| from <= i < end ==> #[trigger] numeric[i]
}

/// The token that a word makes: a keyword where the word is one; otherwise a
/// numeric literal where `numeric` says that all its characters are
/// numeric, and an identifier where not.
pub open spec fn word_token(word: Seq<char>, numeric: bool) -> TokenView {
    if word == "CREATE"@ {
        TokenView::CreateKeyword
    } else if word == "INSERT"@ {
        TokenView::InsertKeyword
    } else if word == "SELECT"@ {
        TokenView::SelectKeyword
    } else if word == "USE"@ {
        TokenView::UseKeyword
    } else if word == "TABLE"@ {
        TokenView::TableKeyword
    } else if word == "DATABASE"@ {
        TokenView::DatabaseKeyword
    } else if word == "FROM"@ {
        TokenView::FromKeyword
    } else if word == "VALUES"@ {
        TokenView::ValuesKeyword
    } else if word == "INTO"@ {
        TokenView::IntoKeyword
    } else if word == "WHERE"@ {
        TokenView::WhereKeyword
    } else if word == "NOT"@ {
        TokenView::NotKeyword
    } else if word == "NULL"@ {
        TokenView::NullKeyword
    } else if word == "integer"@ {
        TokenView::IntegerKeyword
    } else if word == "="@ {
        TokenView::EqualSign
    } else if numeric {
        TokenView::NumericLiteral(word)
    } else {
        TokenView::Identifier(word)
    }
}

/// The tokens of the text from position `from` on, where `whitespace` and
/// `numeric` say of each character whether it is whitespace and whether it
/// is numeric. Whitespace between tokens is skipped; each of `( ) , ; *` is
/// a token by itself; any other character starts a word, which runs up to
/// the next character that ends a word.
pub open spec fn tokens_from(
    text: Seq<char>,
    whitespace: Seq<bool>,
    numeric: Seq<bool>,
    from: int,
) -> Seq<TokenView>
    decreases text.len() - from,
    via tokens_from_terminates
{
    if from < 0 || from >= text.len() {
        Seq::empty()
    } else if whitespace[from] {
        tokens_from(text, whitespace, numeric, from + 1)
    } else if punctuation(text[from]) is Some {
        seq![punctuation(text[from])->0] + tokens_from(text, whitespace, numeric, from + 1)
    } else {
        let end = word_end(text, from + 1);
        seq![word_token(text.subrange(from, end), all_numeric(numeric, from, end))] + tokens_from(
            text,
            whitespace,
            numeric,
            end,
        )
    }
}

#[via_fn]
proof fn tokens_from_terminates(
    text: Seq<char>,
    whitespace: Seq<bool>,
    numeric: Seq<bool>,
    from: int,
) {
    if 0 <= from < text.len() {
        lemma_word_end_bounds(text, from + 1);
    }
}

/// Which characters of a text are whitespace.
pub open spec fn whitespace_marks(text: Seq<char>) -> Seq<bool> {
    Seq::new(text.len(), |i: int| is_whitespace_char(text[i]))
}

/// Which characters of a text are numeric.
pub open spec fn numeric_marks(text: Seq<char>) -> Seq<bool> {
    Seq::new(text.len(), |i: int| is_numeric_char(text[i]))
}

/// The tokens of a text.
pub open spec fn tokens_of(text: Seq<char>) -> Seq<TokenView> {
    tokens_from(text, whitespace_marks(text), numeric_marks(text), 0)
}

/// A word ends after where it was looked for, and within the text.
pub proof fn lemma_word_end_bounds(text: Seq<char>, from: int)
    requires
        0 <= from <= text.len(),
    ensures
        from <= word_end(text, from) <= text.len(),
    decreases text.len() - from,
{
    if from < text.len() && !ends_word(text[from]) {
        lemma_word_end_bounds(text, from + 1);
    }
}

/// The characters of a string, one by one.
fn characters(input: &str) -> (chars: Vec<char>)
    ensures
        chars@ == input@,
{
    let count = input.unicode_len();
    let mut chars: Vec<char> = Vec::new();
    let mut index: usize = 0;
    while index < count
        invariant
            count == input@.len(),
            index <= count,
            chars@ == input@.take(index as int),
        decreases count - index,
    {
        chars.push(input.get_char(index));
        index = index + 1;
        assert(input@.take(index as int) == input@.take(index - 1).push(input@[index - 1]));
    }
    assert(input@.take(index as int) == input@);
    chars
}

fn is_ascii_whitespace(c: char) -> (space: bool)
    ensures
        space == is_ascii_space(c),
{
    c == ' ' || c == '\t' || c == '\n' || c == '\u{C}' || c == '\r'
}

fn find_word_end(chars: &Vec<char>, from: usize) -> (end: usize)
    requires
        from <= chars@.len(),
    ensures
        end == word_end(chars@, from as int),
        from <= end <= chars@.len(),
{
    let mut end: usize = from;
    while end < chars.len()
        invariant
            from <= end <= chars@.len(),
            word_end(chars@, from as int) == word_end(chars@, end as int),
        decreases chars@.len() - end,
    {
        let c = chars[end];
        if is_ascii_whitespace(c) || c == ';' || c == ',' || c == ')' {
            return end;
        }
        end = end + 1;
    }
    end
}

fn is_all_numeric(numeric: &Vec<bool>, from: usize, end: usize) -> (all: bool)
    requires
        from <= end <= numeric@.len(),
    ensures
        all == all_numeric(numeric@, from as int, end as int),
{
    let mut index: usize = from;
    while index < end
        invariant
            from <= index <= end <= numeric@.len(),
            forall|i: int| from <= i < index ==> #[trigger] numeric@[i],
        decreases end - index,
    {
        if !numeric[index] {
            return false;
        }
        index = index + 1;
    }
    true
}

/// Makes the token of a word. `numeric` says whether all characters of the
/// word are numeric.
pub fn classify_word(word: &str, numeric: bool) -> (token: Token)
    ensures
        token@ == word_token(word@, numeric),
{
    if str_eq(word, "CREATE") {
        Token::CreateKeyword
    } else if str_eq(word, "INSERT") {
        Token::InsertKeyword
    } else if str_eq(word, "SELECT") {
        Token::SelectKeyword
    } else if str_eq(word, "USE") {
        Token::UseKeyword
    } else if str_eq(word, "TABLE") {
        Token::TableKeyword
    } else if str_eq(word, "DATABASE") {
        Token::DatabaseKeyword
    } else if str_eq(word, "FROM") {
        Token::FromKeyword
    } else if str_eq(word, "VALUES") {
        Token::ValuesKeyword
    } else if str_eq(word, "INTO") {
        Token::IntoKeyword
    } else if str_eq(word, "WHERE") {
        Token::WhereKeyword
    } else if str_eq(word, "NOT") {
        Token::NotKeyword
    } else if str_eq(word, "NULL") {
        Token::NullKeyword
    } else if str_eq(word, "integer") {
        Token::IntegerKeyword
    } else if str_eq(word, "=") {
        Token::EqualSign
    } else if numeric {
        Token::NumericLiteral(word.to_string())
    } else {
        Token::Identifier(word.to_string())
    }
}

/// Splits a query into its tokens, given for each of its characters
/// whether it is whitespace and whether it is numeric.
pub fn tokenize_classified(input: &str, whitespace: &Vec<bool>, numeric: &Vec<bool>) -> (tokens:
    Vec<Token>)
    requires
        whitespace@.len() == input@.len(),
        numeric@.len() == input@.len(),
    ensures
        token_views(tokens@) == tokens_from(input@, whitespace@, numeric@, 0),
{
    let chars = characters(input);
    let mut tokens: Vec<Token> = Vec::new();
    let mut position: usize = 0;
    assert(token_views(tokens@) =~= Seq::<TokenView>::empty());
    while position < chars.len()
        invariant
            chars@ == input@,
            whitespace@.len() == input@.len(),
            numeric@.len() == input@.len(),
            position <= chars@.len(),
            tokens_from(input@, whitespace@, numeric@, 0) == token_views(tokens@) + tokens_from(
                chars@,
                whitespace@,
                numeric@,
                position as int,
            ),
        decreases chars@.len() - position,
    {
        let c = chars[position];
        let ghost before = tokens@;
        let ghost rest = tokens_from(chars@, whitespace@, numeric@, position as int);
        if whitespace[position] {
            position = position + 1;
        } else if c == '(' {
            tokens.push(Token::OpeningParenthesis);
            position = position + 1;
        } else if c == ')' {
            tokens.push(Token::ClosingParenthesis);
            position = position + 1;
        } else if c == ',' {
            tokens.push(Token::Comma);
            position = position + 1;
        } else if c == ';' {
            tokens.push(Token::Semicolon);
            position = position + 1;
        } else if c == '*' {
            tokens.push(Token::Asterisk);
            position = position + 1;
        } else {
            let end = find_word_end(&chars, position + 1);
            let all = is_all_numeric(numeric, position, end);
            let word = input.substring_char(position, end);
            tokens.push(classify_word(word, all));
            position = end;
        }
        proof {
            if tokens@.len() > before.len() {
                let added = tokens@[before.len() as int]@;
                assert(token_views(tokens@) =~= token_views(before).push(added));
                assert(rest =~= seq![added] + tokens_from(
                    chars@,
                    whitespace@,
                    numeric@,
                    position as int,
                ));
                assert(token_views(before) + rest =~= token_views(tokens@) + tokens_from(
                    chars@,
                    whitespace@,
                    numeric@,
                    position as int,
                ));
            }
        }
    }
    assert(tokens_from(chars@, whitespace@, numeric@, position as int) =~= Seq::<
        TokenView,
    >::empty());
    assert(token_views(tokens@) + Seq::<TokenView>::empty() =~= token_views(tokens@));
    tokens
}

/// Splits a query into its tokens.
pub fn tokenize(input: &str) -> (tokens: Vec<Token>)
    ensures
        token_views(tokens@) == tokens_of(input@),
{
    let chars = characters(input);
    let mut whitespace: Vec<bool> = Vec::new();
    let mut numeric: Vec<bool> = Vec::new();
    let mut index: usize = 0;
    while index < chars.len()
        invariant
            chars@ == input@,
            index <= chars@.len(),
            whitespace@ == whitespace_marks(input@).take(index as int),
            numeric@ == numeric_marks(input@).take(index as int),
        decreases chars@.len() - index,
    {
        whitespace.push(char_is_whitespace(chars[index]));
        numeric.push(char_is_numeric(chars[index]));
        index = index + 1;
        assert(whitespace@ =~= whitespace_marks(input@).take(index as int));
        assert(numeric@ =~= numeric_marks(input@).take(index as int));
    }
    assert(whitespace_marks(input@).take(index as int) =~= whitespace_marks(input@));
    assert(numeric_marks(input@).take(index as int) =~= numeric_marks(input@));
    tokenize_classified(input, &whitespace, &numeric)
}

} // verus!
