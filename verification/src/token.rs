//! Lexical tokens shared by the document lexer and the formula lexer.

use vstd::prelude::*;

verus! {

/// The closed set of lexical categories a token can belong to.
#[allow(non_camel_case_types)]
#[derive(Clone, Copy, Debug, PartialEq, Eq, Structural)]
pub enum TokenKind {
    /// Initial placeholder kind, before any token has been read.
    Start,
    /// An identifier that is not a keyword, boolean, or address.
    Identifier,
    /// A quoted string literal; the literal text keeps no quote characters
    /// in the document lexer and keeps its surrounding quotes in the
    /// formula lexer.
    Str,
    /// An integer literal (a run of decimal digits).
    Int,
    /// A fractional literal (digits, a dot, digits).
    Double,
    /// The `=` marker.
    Assign,
    /// A boolean literal, `true` or `false`.
    Bool,
    /// `(`
    Op_Paren_o,
    /// `[`
    Arr_o,
    /// `)`
    Op_Paren_c,
    /// `]`
    Arr_c,
    /// `.`
    Colon,
    /// `{`
    OP_Brace_o,
    /// `}`
    OP_Brace_c,
    /// `;`
    Semicolon,
    /// `,`
    Comma,
    /// `:`
    Punc,
    /// The `SUM` operator keyword.
    Operation_Sum,
    /// The `MULTIPLY` operator keyword.
    Operation_Multiply,
    /// The `DIVIDE` operator keyword.
    Operation_Divide,
    /// The `AND` operator keyword.
    Operation_And,
    /// The `OR` operator keyword.
    Operation_Or,
    /// The `EQ` operator keyword.
    Operation_Eq,
    /// The `NOT` operator keyword.
    Operation_Not,
    /// The `CONCAT` operator keyword.
    Operation_Concat,
    /// The `GT` operator keyword.
    Operation_Gt,
    /// The `IF` operator keyword.
    Operation_If,
    /// The structural keyword `id`.
    Id,
    /// The structural keyword `data`.
    Data,
    /// The structural keyword `sheets`.
    Sheets,
    /// A cell-address reference such as `A1`.
    Notation,
    /// The structural keyword `submissionUrl`.
    Submission_url,
    /// The end-of-stream marker appended by the document lexer.
    Eof,
}

/// One lexical token: a kind together with the literal text it was read
/// from, as bytes. Tokens are immutable once produced.
#[derive(Clone, Debug)]
pub struct Token {
    pub kind: TokenKind,
    pub literal: Vec<u8>,
}

impl Token {
    /// Builds a token from a kind and its literal text.
    pub fn new(kind: TokenKind, literal: Vec<u8>) -> (t: Token)
        ensures
            t.kind == kind,
            t.literal@ == literal@,
    {
        Token { kind, literal }
    }
}

/// Copies a token.
pub fn copy_token(t: &Token) -> (r: Token)
    ensures
        r.kind == t.kind,
        r.literal@ == t.literal@,
{
    Token::new(t.kind, crate::text::copy_bytes(&t.literal))
}

} // verus!
