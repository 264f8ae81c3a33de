use vstd::prelude::*;
use crate::charclass::{digit_char, digits, is_space, letter_char, letters, space_char, spaces};
use crate::charclass::{char_is_alphabetic, char_is_numeric};
use crate::scan::{lemma_run_end_unique, lemma_scan_progress, lemma_tokens_from_unfold};
use crate::scan::{lex, run_end, scan, token_at, tokens_from};
use crate::token::{lookup_identifier, Token, TokenType};

verus! {

/// Relies on `String::push`: appends one character.
#[verifier::external_body]
fn push_char(s: &mut String, c: char)
    ensures
        final(s)@ == old(s)@.push(c),
{
    s.push(c);
}

/// The character under the cursor at index `i`, or NUL past the end.
pub open spec fn char_at(s: Seq<char>, i: int) -> char {
    if 0 <= i < s.len() {
        s[i]
    } else {
        '\0'
    }
}

/// A scanner over a fixed character buffer, with a cursor into it.
pub struct Lexer {
    input: Vec<char>,
    position: usize,
    read_position: usize,
    ch: char,
}

impl Lexer {
    /// The characters being scanned.
    pub closed spec fn text(&self) -> Seq<char> {
        self.input@
    }

    /// The index of the character under the cursor.
    pub closed spec fn pos(&self) -> int {
        self.position as int
    }

    pub closed spec fn wf(&self) -> bool {
        &&& self.input.len() < usize::MAX
        &&& self.position <= self.input.len()
        &&& self.read_position == self.position + 1
        &&& self.ch == char_at(self.input@, self.position as int)
    }

    /// A scanner over the characters of `input`, with the cursor on the first.
    pub fn new(input: &str) -> (r: Lexer)
        requires
            input@.len() < usize::MAX,
        ensures
            r.wf(),
            r.text() == input@,
            r.pos() == 0,
    {
        let mut chars: Vec<char> = Vec::new();
        for c in it: input.chars()
            invariant
                chars.len() == it.index(),
                forall|j: int| 0 <= j < chars.len() ==> chars@[j] == it.seq()[j],
        {
            chars.push(c);
        }
        assert(chars@ =~= input@);
        let mut lexer = Lexer { input: chars, position: 0, read_position: 0, ch: '\0' };
        lexer.read_char();
        lexer
    }

    /// Moves the cursor to `read_position`.
    fn read_char(&mut self)
        requires
            old(self).read_position <= old(self).input.len(),
            old(self).input.len() < usize::MAX,
        ensures
            final(self).input == old(self).input,
            final(self).position == old(self).read_position,
            final(self).read_position == old(self).read_position + 1,
            final(self).ch == char_at(old(self).input@, old(self).read_position as int),
    {
        if self.read_position >= self.input.len() {
            self.ch = '\0';
        } else {
            self.ch = self.input[self.read_position];
        }
        self.position = self.read_position;
        self.read_position = self.read_position + 1;
    }

    /// Produces the token that starts at the cursor, after any whitespace,
    /// and moves the cursor just past it. At the end of the input it returns
    /// an end-of-input token with empty text and leaves the cursor where it is.
    pub fn next_token(&mut self) -> (r: Token)
        requires
            old(self).wf(),
        ensures
            final(self).wf(),
            final(self).text() == old(self).text(),
            r@ == token_at(old(self).text(), old(self).pos()),
            final(self).pos() == scan(old(self).text(), old(self).pos()).2,
    {
        self.skip_whitespace();
        if self.position >= self.input.len() {
            return Token { ttype: TokenType::Eof, literal: String::new() };
        }
        let ghost p = self.position as int;
        let token = match self.ch {
            '=' => {
                if self.peek_char() == '=' {
                    self.read_char();
                    Lexer::new_pair_token(TokenType::Eq, '=', '=')
                } else {
                    Lexer::new_token(TokenType::Assign, self.ch)
                }
            },
            ';' => Lexer::new_token(TokenType::Semicolon, self.ch),
            '+' => Lexer::new_token(TokenType::Plus, self.ch),
            '(' => Lexer::new_token(TokenType::LParen, self.ch),
            ')' => Lexer::new_token(TokenType::RParen, self.ch),
            ',' => Lexer::new_token(TokenType::Comma, self.ch),
            '{' => Lexer::new_token(TokenType::LBrace, self.ch),
            '}' => Lexer::new_token(TokenType::RBrace, self.ch),
            '!' => {
                if self.peek_char() == '=' {
                    self.read_char();
                    Lexer::new_pair_token(TokenType::NotEq, '!', '=')
                } else {
                    Lexer::new_token(TokenType::Bang, self.ch)
                }
            },
            '-' => Lexer::new_token(TokenType::Minus, self.ch),
            '/' => Lexer::new_token(TokenType::Slash, self.ch),
            '<' => Lexer::new_token(TokenType::Lt, self.ch),
            '>' => Lexer::new_token(TokenType::Gt, self.ch),
            '*' => Lexer::new_token(TokenType::Asterisk, self.ch),
            _ => {
                return if Lexer::is_letter(self.ch) {
                    let literal = self.read_identifier();
                    let ttype = lookup_identifier(&literal);
                    Token { ttype, literal }
                } else if Lexer::is_digit(self.ch) {
                    let literal = self.read_number();
                    Token { ttype: TokenType::Intiger, literal }
                } else {
                    let token = Lexer::new_token(TokenType::Illegal, self.ch);
                    self.read_char();
                    token
                };
            },
        };
        self.read_char();
        proof {
            assert(self.input@.subrange(p, self.position as int) =~= token@.1);
        }
        token
    }

    /// Moves the cursor past the run of whitespace under it.
    fn skip_whitespace(&mut self)
        requires
            old(self).wf(),
        ensures
            final(self).wf(),
            final(self).input == old(self).input,
            final(self).pos() == run_end(old(self).text(), old(self).pos(), spaces()),
    {
        while is_space(self.ch)
            invariant
                self.wf(),
                self.input == old(self).input,
                old(self).position <= self.position,
                forall|k: int| old(self).position <= k < self.position ==> space_char(self.input@[k]),
            decreases self.input.len() - self.position,
        {
            self.read_char();
        }
        proof {
            lemma_run_end_unique(self.input@, old(self).pos(), self.pos(), spaces());
        }
    }

    fn new_token(ttype: TokenType, ch: char) -> (r: Token)
        ensures
            r@ == (ttype, seq![ch]),
    {
        let mut literal = String::new();
        push_char(&mut literal, ch);
        assert(literal@ =~= seq![ch]);
        Token { ttype, literal }
    }

    fn new_pair_token(ttype: TokenType, first: char, second: char) -> (r: Token)
        ensures
            r@ == (ttype, seq![first, second]),
    {
        let mut literal = String::new();
        push_char(&mut literal, first);
        push_char(&mut literal, second);
        assert(literal@ =~= seq![first, second]);
        Token { ttype, literal }
    }

    fn is_letter(ch: char) -> (r: bool)
        ensures
            r == letter_char(ch),
    {
        char_is_alphabetic(ch) || ch == '_'
    }

    fn is_digit(ch: char) -> (r: bool)
        ensures
            r == digit_char(ch),
    {
        char_is_numeric(ch)
    }

    /// Reads the run of digits under the cursor.
    fn read_number(&mut self) -> (r: String)
        requires
            old(self).wf(),
        ensures
            final(self).wf(),
            final(self).input == old(self).input,
            final(self).pos() == run_end(old(self).text(), old(self).pos(), digits()),
            r@ == old(self).text().subrange(old(self).pos(), final(self).pos()),
    {
        let mut num = String::new();
        while Lexer::is_digit(self.ch)
            invariant
                self.wf(),
                self.input == old(self).input,
                old(self).position <= self.position,
                forall|k: int| old(self).position <= k < self.position ==> digit_char(self.input@[k]),
                num@ == self.input@.subrange(old(self).position as int, self.position as int),
            decreases self.input.len() - self.position,
        {
            push_char(&mut num, self.ch);
            self.read_char();
            assert(num@ =~= self.input@.subrange(old(self).position as int, self.position as int));
        }
        proof {
            lemma_run_end_unique(self.input@, old(self).pos(), self.pos(), digits());
        }
        num
    }

    /// The character just after the cursor, or NUL past the end.
    fn peek_char(&self) -> (r: char)
        requires
            self.wf(),
        ensures
            r == char_at(self.input@, self.position + 1),
    {
        if self.read_position >= self.input.len() {
            '\0'
        } else {
            self.input[self.read_position]
        }
    }

    /// Reads the run of letters under the cursor.
    fn read_identifier(&mut self) -> (r: String)
        requires
            old(self).wf(),
        ensures
            final(self).wf(),
            final(self).input == old(self).input,
            final(self).pos() == run_end(old(self).text(), old(self).pos(), letters()),
            r@ == old(self).text().subrange(old(self).pos(), final(self).pos()),
    {
        let mut identifier = String::new();
        while Lexer::is_letter(self.ch)
            invariant
                self.wf(),
                self.input == old(self).input,
                old(self).position <= self.position,
                forall|k: int| old(self).position <= k < self.position ==> letter_char(self.input@[k]),
                identifier@ == self.input@.subrange(old(self).position as int, self.position as int),
            decreases self.input.len() - self.position,
        {
            push_char(&mut identifier, self.ch);
            self.read_char();
            assert(identifier@ =~= self.input@.subrange(old(self).position as int, self.position as int));
        }
        proof {
            lemma_run_end_unique(self.input@, old(self).pos(), self.pos(), letters());
        }
        identifier
    }
} // impl Lexer

/// Scans the whole of `input`: every token up to and including the
/// end-of-input token.
pub fn tokenize(input: &str) -> (r: Vec<Token>)
    requires
        input@.len() < usize::MAX,
    ensures
        r@.map_values(|t: Token| t@) == lex(input@),
{
    let mut lexer = Lexer::new(input);
    let mut tokens: Vec<Token> = Vec::new();
    loop
        invariant
            lexer.wf(),
            lexer.text() == input@,
            0 <= lexer.pos() <= input@.len(),
            tokens@.map_values(|t: Token| t@) + tokens_from(input@, lexer.pos()) == lex(input@),
        decreases input@.len() - lexer.pos(),
    {
        let ghost before = lexer.pos();
        let ghost prev = tokens@.map_values(|t: Token| t@);
        proof {
            lemma_scan_progress(input@, before);
            lemma_tokens_from_unfold(input@, before);
        }
        let token = lexer.next_token();
        let done = token.ttype == TokenType::Eof;
        tokens.push(token);
        proof {
            let now = tokens@.map_values(|t: Token| t@);
            assert(now =~= prev.push(token_at(input@, before)));
            if !done {
                assert(now + tokens_from(input@, lexer.pos()) =~= prev + tokens_from(input@, before));
            } else {
                assert(now =~= prev + tokens_from(input@, before));
            }
        }
        if done {
            return tokens;
        }
    }
}

} // verus!
