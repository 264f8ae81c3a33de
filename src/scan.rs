use vstd::prelude::*;
use crate::charclass::{digit_char, digits, letter_char, letters, spaces};
use crate::token::{keyword_kind, TokenType};

verus! {

/// The index just past the run of characters of `class` that starts at `i`.
pub open spec fn run_end(s: Seq<char>, i: int, class: spec_fn(char) -> bool) -> int
    decreases s.len() - i,
{
    if 0 <= i < s.len() && class(s[i]) {
        run_end(s, i + 1, class)
    } else {
        i
    }
}

/// Whether `e` ends the run of `class` that starts at `i`: every character in
/// between belongs to it, and the one at `e` (if any) does not.
pub open spec fn ends_run(s: Seq<char>, i: int, e: int, class: spec_fn(char) -> bool) -> bool {
    &&& 0 <= i <= e <= s.len()
    &&& forall|k: int| i <= k < e ==> #[trigger] class(s[k])
    &&& (e == s.len() || !class(s[e]))
}

/// The kind of the characters that form a token on their own.
pub open spec fn single_kind(c: char) -> Option<TokenType> {
    if c == ';' {
        Some(TokenType::Semicolon)
    } else if c == '+' {
        Some(TokenType::Plus)
    } else if c == '(' {
        Some(TokenType::LParen)
    } else if c == ')' {
        Some(TokenType::RParen)
    } else if c == ',' {
        Some(TokenType::Comma)
    } else if c == '{' {
        Some(TokenType::LBrace)
    } else if c == '}' {
        Some(TokenType::RBrace)
    } else if c == '-' {
        Some(TokenType::Minus)
    } else if c == '/' {
        Some(TokenType::Slash)
    } else if c == '<' {
        Some(TokenType::Lt)
    } else if c == '>' {
        Some(TokenType::Gt)
    } else if c == '*' {
        Some(TokenType::Asterisk)
    } else {
        None
    }
}

/// One scanning step from index `i` of `s`: the kind of the token found, and
/// the indices where its text starts and ends. The scan resumes at the end.
pub open spec fn scan(s: Seq<char>, i: int) -> (TokenType, int, int) {
    let p = run_end(s, i, spaces());
    if p >= s.len() {
        (TokenType::Eof, p, p)
    } else {
        let c = s[p];
        if c == '=' {
            if p + 1 < s.len() && s[p + 1] == '=' {
                (TokenType::Eq, p, p + 2)
            } else {
                (TokenType::Assign, p, p + 1)
            }
        } else if c == '!' {
            if p + 1 < s.len() && s[p + 1] == '=' {
                (TokenType::NotEq, p, p + 2)
            } else {
                (TokenType::Bang, p, p + 1)
            }
        } else if single_kind(c) is Some {
            (single_kind(c)->0, p, p + 1)
        } else if letter_char(c) {
            let e = run_end(s, p, letters());
            (keyword_kind(s.subrange(p, e)), p, e)
        } else if digit_char(c) {
            (TokenType::Intiger, p, run_end(s, p, digits()))
        } else {
            (TokenType::Illegal, p, p + 1)
        }
    }
}

/// The token that one scanning step from `i` produces: its kind and text.
pub open spec fn token_at(s: Seq<char>, i: int) -> (TokenType, Seq<char>) {
    let (k, a, e) = scan(s, i);
    (k, s.subrange(a, e))
}

/// Every token produced from index `i` on, up to and including the first
/// end-of-input token.
pub open spec fn tokens_from(s: Seq<char>, i: int) -> Seq<(TokenType, Seq<char>)>
    decreases s.len() - i,
{
    let e = scan(s, i).2;
    if scan(s, i).0 != TokenType::Eof && i < e <= s.len() {
        seq![token_at(s, i)] + tokens_from(s, e)
    } else {
        seq![token_at(s, i)]
    }
}

/// The tokens of a whole input.
pub open spec fn lex(s: Seq<char>) -> Seq<(TokenType, Seq<char>)> {
    tokens_from(s, 0)
}

pub proof fn lemma_run_end(s: Seq<char>, i: int, class: spec_fn(char) -> bool)
    requires
        0 <= i <= s.len(),
    ensures
        ends_run(s, i, run_end(s, i, class), class),
    decreases s.len() - i,
{
    if i < s.len() && class(s[i]) {
        lemma_run_end(s, i + 1, class);
    }
}

pub proof fn lemma_run_end_unique(s: Seq<char>, i: int, e: int, class: spec_fn(char) -> bool)
    requires
        ends_run(s, i, e, class),
    ensures
        run_end(s, i, class) == e,
    decreases e - i,
{
    if i < e {
        assert(class(s[i]));
        lemma_run_end_unique(s, i + 1, e, class);
    }
}

/// Each step either reaches the end of the input, producing end-of-input
/// there, or consumes at least one character and stays within the input.
pub proof fn lemma_scan_progress(s: Seq<char>, i: int)
    requires
        0 <= i <= s.len(),
    ensures
        scan(s, i).0 == TokenType::Eof ==> scan(s, i).1 == s.len() && scan(s, i).2 == s.len(),
        scan(s, i).0 != TokenType::Eof ==> i <= scan(s, i).1 < scan(s, i).2 <= s.len(),
{
    lemma_run_end(s, i, spaces());
    let p = run_end(s, i, spaces());
    if p < s.len() {
        lemma_run_end(s, p, letters());
        lemma_run_end(s, p, digits());
        if keyword_kind(s.subrange(p, run_end(s, p, letters()))) == TokenType::Eof {
            assert(false);
        }
    }
}

/// `tokens_from` unfolded once.
pub proof fn lemma_tokens_from_unfold(s: Seq<char>, i: int)
    requires
        0 <= i <= s.len(),
    ensures
        scan(s, i).0 == TokenType::Eof ==> tokens_from(s, i) == seq![token_at(s, i)],
        scan(s, i).0 != TokenType::Eof ==> tokens_from(s, i) == seq![token_at(s, i)]
            + tokens_from(s, scan(s, i).2),
{
    lemma_scan_progress(s, i);
}

} // verus!
