use vstd::prelude::*;

verus! {

/// The closed set of token kinds of the language.
#[derive(PartialEq, Eq, Structural, Clone, Copy, Debug)]
pub enum TokenType {
    Illegal,
    Eof,
    Identifier,
    Intiger,
    Assign,
    Plus,
    Minus,
    Bang,
    Asterisk,
    Slash,
    Lt,
    Gt,
    Comma,
    Semicolon,
    Eq,
    NotEq,
    LParen,
    RParen,
    LBrace,
    RBrace,
    Function,
    Let,
    True,
    False,
    If,
    Else,
    Return,
}

/// How a token kind is shown: operators and delimiters by their character,
/// the other kinds by name.
pub open spec fn shown_as(t: TokenType) -> Seq<char> {
    match t {
        TokenType::Illegal => "Illegal"@,
        TokenType::Eof => "Eof"@,
        TokenType::Identifier => "Identifier"@,
        TokenType::Intiger => "Intiger"@,
        TokenType::Assign => "="@,
        TokenType::Plus => "+"@,
        TokenType::Slash => "/"@,
        TokenType::Minus => "-"@,
        TokenType::Bang => "!"@,
        TokenType::Asterisk => "*"@,
        TokenType::Gt => ">"@,
        TokenType::Lt => "<"@,
        TokenType::Comma => ","@,
        TokenType::Semicolon => ";"@,
        TokenType::LParen => "("@,
        TokenType::RParen => ")"@,
        TokenType::LBrace => "{"@,
        TokenType::RBrace => "}"@,
        TokenType::Function => "Function"@,
        TokenType::Let => "Let"@,
        TokenType::True => "True"@,
        TokenType::False => "False"@,
        TokenType::If => "If"@,
        TokenType::Else => "Else"@,
        TokenType::Return => "Return"@,
        TokenType::NotEq => "NotEq"@,
        TokenType::Eq => "Eq"@,
    }
}

impl TokenType {
    /// The text that shows this kind.
    pub fn to_string(&self) -> (r: String)
        ensures
            r@ == shown_as(*self),
    {
        match self {
            TokenType::Illegal => "Illegal".to_string(),
            TokenType::Eof => "Eof".to_string(),
            TokenType::Identifier => "Identifier".to_string(),
            TokenType::Intiger => "Intiger".to_string(),
            TokenType::Assign => "=".to_string(),
            TokenType::Plus => "+".to_string(),
            TokenType::Slash => "/".to_string(),
            TokenType::Minus => "-".to_string(),
            TokenType::Bang => "!".to_string(),
            TokenType::Asterisk => "*".to_string(),
            TokenType::Gt => ">".to_string(),
            TokenType::Lt => "<".to_string(),
            TokenType::Comma => ",".to_string(),
            TokenType::Semicolon => ";".to_string(),
            TokenType::LParen => "(".to_string(),
            TokenType::RParen => ")".to_string(),
            TokenType::LBrace => "{".to_string(),
            TokenType::RBrace => "}".to_string(),
            TokenType::Function => "Function".to_string(),
            TokenType::Let => "Let".to_string(),
            TokenType::True => "True".to_string(),
            TokenType::False => "False".to_string(),
            TokenType::If => "If".to_string(),
            TokenType::Else => "Else".to_string(),
            TokenType::Return => "Return".to_string(),
            TokenType::NotEq => "NotEq".to_string(),
            TokenType::Eq => "Eq".to_string(),
        }
    }
}

/// A classified lexeme: its kind and the exact source text it came from.
#[derive(PartialEq, Eq, Debug)]
pub struct Token {
    pub ttype: TokenType,
    pub literal: String,
}

impl View for Token {
    type V = (TokenType, Seq<char>);

    open spec fn view(&self) -> (TokenType, Seq<char>) {
        (self.ttype, self.literal@)
    }
}

/// The kind a run of letters resolves to: one of the seven keywords when it
/// spells one exactly, an identifier otherwise.
pub open spec fn keyword_kind(word: Seq<char>) -> TokenType {
    if word == seq!['f', 'n'] {
        TokenType::Function
    } else if word == seq!['l', 'e', 't'] {
        TokenType::Let
    } else if word == seq!['t', 'r', 'u', 'e'] {
        TokenType::True
    } else if word == seq!['f', 'a', 'l', 's', 'e'] {
        TokenType::False
    } else if word == seq!['i', 'f'] {
        TokenType::If
    } else if word == seq!['e', 'l', 's', 'e'] {
        TokenType::Else
    } else if word == seq!['r', 'e', 't', 'u', 'r', 'n'] {
        TokenType::Return
    } else {
        TokenType::Identifier
    }
}

/// Whether the `len` characters of `s` spell `word`.
fn spells(s: &str, len: usize, word: &[char]) -> (r: bool)
    requires
        len == s@.len(),
    ensures
        r == (s@ == word@),
{
    if len != word.len() {
        return false;
    }
    let mut i: usize = 0;
    while i < len
        invariant
            len == s@.len(),
            len == word@.len(),
            i <= len,
            forall|j: int| 0 <= j < i ==> s@[j] == word@[j],
        decreases len - i,
    {
        if s.get_char(i) != word[i] {
            return false;
        }
        i = i + 1;
    }
    assert(s@ =~= word@);
    true
}

/// Resolves a run of letters through the fixed keyword table.
pub fn lookup_identifier(identifier: &String) -> (r: TokenType)
    ensures
        r == keyword_kind(identifier@),
{
    let s = identifier.as_str();
    let n = s.unicode_len();
    if spells(s, n, &['f', 'n']) {
        TokenType::Function
    } else if spells(s, n, &['l', 'e', 't']) {
        TokenType::Let
    } else if spells(s, n, &['t', 'r', 'u', 'e']) {
        TokenType::True
    } else if spells(s, n, &['f', 'a', 'l', 's', 'e']) {
        TokenType::False
    } else if spells(s, n, &['i', 'f']) {
        TokenType::If
    } else if spells(s, n, &['e', 'l', 's', 'e']) {
        TokenType::Else
    } else if spells(s, n, &['r', 'e', 't', 'u', 'r', 'n']) {
        TokenType::Return
    } else {
        TokenType::Identifier
    }
}

} // verus!
