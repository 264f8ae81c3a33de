use vstd::prelude::*;
use crate::charclass::{digit_char, digits, letter_char, letters, space_char, spaces};
use crate::lexer::Lexer;
use crate::scan::{ends_run, single_kind, lemma_run_end, lemma_run_end_unique, lemma_scan_progress};
use crate::scan::{lemma_tokens_from_unfold, lex, run_end, scan, token_at, tokens_from};
use crate::token::{keyword_kind, TokenType};

verus! {

/// Whether scanning `s` from `i` stops, at the end of some token, at index `k`.
pub open spec fn reaches(s: Seq<char>, i: int, k: int) -> bool
    decreases s.len() - i,
{
    if i == k {
        true
    } else if scan(s, i).0 != TokenType::Eof && i < scan(s, i).2 <= s.len() {
        reaches(s, scan(s, i).2, k)
    } else {
        false
    }
}

/// Whether index `k` of `s` lies between two tokens: at the start of the
/// input, or just past a token that scanning `s` produces.
pub open spec fn token_boundary(s: Seq<char>, k: int) -> bool {
    reaches(s, 0, k)
}

/// Scanning is deterministic: two scanners over the same text with their
/// cursors at the same index produce the same next token and the same
/// remaining tokens.
pub proof fn scanning_is_deterministic(a: Lexer, b: Lexer)
    requires
        a.wf(),
        b.wf(),
        a.text() == b.text(),
        a.pos() == b.pos(),
    ensures
        token_at(a.text(), a.pos()) == token_at(b.text(), b.pos()),
        scan(a.text(), a.pos()) == scan(b.text(), b.pos()),
        tokens_from(a.text(), a.pos()) == tokens_from(b.text(), b.pos()),
{
}

/// Scanning from any index of the input ends: it yields at most one token per
/// remaining character plus the end-of-input token, which comes last and only
/// last.
pub proof fn scanning_terminates(s: Seq<char>, i: int)
    requires
        0 <= i <= s.len(),
    ensures
        1 <= tokens_from(s, i).len() <= s.len() - i + 1,
        tokens_from(s, i).last().0 == TokenType::Eof,
        forall|j: int| 0 <= j < tokens_from(s, i).len() - 1 ==> #[trigger] tokens_from(s, i)[j].0
            != TokenType::Eof,
    decreases s.len() - i,
{
    lemma_scan_progress(s, i);
    lemma_tokens_from_unfold(s, i);
    if scan(s, i).0 != TokenType::Eof {
        let e = scan(s, i).2;
        scanning_terminates(s, e);
        let rest = tokens_from(s, e);
        assert forall|j: int| 0 <= j < tokens_from(s, i).len() - 1 implies #[trigger] tokens_from(
            s,
            i,
        )[j].0 != TokenType::Eof by {
            if j > 0 {
                assert(tokens_from(s, i)[j] == rest[j - 1]);
            }
        }
    }
}

/// Once end-of-input is reached, scanning again yields end-of-input again,
/// with empty text, and does not move the cursor.
pub proof fn end_of_input_is_stable(s: Seq<char>, i: int)
    requires
        0 <= i <= s.len(),
        scan(s, i).0 == TokenType::Eof,
    ensures
        scan(s, scan(s, i).2) == scan(s, i),
        scan(s, i).2 == s.len(),
        token_at(s, i).1 == Seq::<char>::empty(),
{
    lemma_scan_progress(s, i);
    lemma_run_end(s, s.len() as int, spaces());
    assert(s.subrange(s.len() as int, s.len() as int) =~= Seq::<char>::empty());
}

/// A run of letters that the next character does not continue is one token,
/// a keyword or an identifier, whose text is the whole run.
pub proof fn letter_run_is_one_token(s: Seq<char>, i: int, e: int)
    requires
        0 <= i < e <= s.len(),
        forall|k: int| i <= k < e ==> letter_char(#[trigger] s[k]),
        e == s.len() || !letter_char(s[e]),
    ensures
        scan(s, i) == (keyword_kind(s.subrange(i, e)), i, e),
        token_at(s, i) == (keyword_kind(s.subrange(i, e)), s.subrange(i, e)),
{
    lemma_run_end_unique(s, i, i, spaces());
    lemma_run_end_unique(s, i, e, letters());
}

/// A run of digits that starts with a non-letter and that the next character
/// does not continue is one integer token, whose text is the whole run.
pub proof fn digit_run_is_one_token(s: Seq<char>, i: int, e: int)
    requires
        0 <= i < e <= s.len(),
        !letter_char(s[i]),
        forall|k: int| i <= k < e ==> digit_char(#[trigger] s[k]),
        e == s.len() || !digit_char(s[e]),
    ensures
        scan(s, i) == (TokenType::Intiger, i, e),
        token_at(s, i) == (TokenType::Intiger, s.subrange(i, e)),
{
    lemma_run_end_unique(s, i, i, spaces());
    lemma_run_end_unique(s, i, e, digits());
}

/// Inserting a run of whitespace where one token ends and the next begins
/// leaves the tokens unchanged. Read the other way: removing such a run
/// leaves them unchanged wherever the place it is removed from still lies
/// between two tokens afterwards.
pub proof fn whitespace_between_tokens_is_ignored(a: Seq<char>, w: Seq<char>, b: Seq<char>)
    requires
        token_boundary(a + b, a.len() as int),
        forall|j: int| 0 <= j < w.len() ==> space_char(#[trigger] w[j]),
    ensures
        lex(a + w + b) == lex(a + b),
{
    let s1 = a + b;
    let s2 = a + w + b;
    let k = a.len() as int;
    let m = w.len() as int;
    if m == 0 {
        assert(s2 =~= s1);
    } else {
        assert forall|j: int| 0 <= j < k implies #[trigger] s1[j] == s2[j] by {
            assert(s1[j] == a[j]);
            assert(s2[j] == a[j]);
        }
        assert forall|j: int| k <= j < k + m implies space_char(#[trigger] s2[j]) by {
            assert(s2[j] == w[j - k]);
        }
        assert forall|j: int| k <= j < s1.len() implies s2[j + m] == #[trigger] s1[j] by {
            assert(s1[j] == b[j - k]);
            assert(s2[j + m] == b[j - k]);
        }
        lemma_tokens_prefix(s1, s2, m, 0, k);
    }
}

proof fn lemma_reaches_le(s: Seq<char>, i: int, k: int)
    requires
        reaches(s, i, k),
    ensures
        i <= k,
    decreases s.len() - i,
{
    if i != k {
        lemma_reaches_le(s, scan(s, i).2, k);
    }
}

/// A run that ends at `e` in `s1` ends there in `s2` too, when the two agree
/// up to `e` and the character of `s2` at `e` does not continue it.
proof fn lemma_run_end_agree(
    s1: Seq<char>,
    s2: Seq<char>,
    i: int,
    e: int,
    class: spec_fn(char) -> bool,
)
    requires
        ends_run(s1, i, e, class),
        e <= s2.len(),
        forall|j: int| i <= j < e ==> s1[j] == s2[j],
        e == s2.len() || !class(s2[e]),
    ensures
        run_end(s2, i, class) == e,
{
    assert forall|j: int| i <= j < e implies #[trigger] class(s2[j]) by {
        assert(s1[j] == s2[j]);
        assert(class(s1[j]));
    }
    lemma_run_end_unique(s2, i, e, class);
}

/// Runs in a suffix that `s2` holds `m` places further on than `s1`.
proof fn lemma_run_end_shift(
    s1: Seq<char>,
    s2: Seq<char>,
    m: int,
    q: int,
    class: spec_fn(char) -> bool,
)
    requires
        0 <= m,
        0 <= q <= s1.len(),
        s2.len() == s1.len() + m,
        forall|j: int| q <= j < s1.len() ==> s2[j + m] == #[trigger] s1[j],
    ensures
        run_end(s2, q + m, class) == run_end(s1, q, class) + m,
{
    lemma_run_end(s1, q, class);
    let e = run_end(s1, q, class);
    assert forall|j: int| q + m <= j < e + m implies #[trigger] class(s2[j]) by {
        assert(s2[(j - m) + m] == s1[j - m]);
        assert(class(s1[j - m]));
    }
    if e < s1.len() {
        assert(s2[e + m] == s1[e]);
    }
    lemma_run_end_unique(s2, q + m, e + m, class);
}

proof fn lemma_scan_shift(s1: Seq<char>, s2: Seq<char>, m: int, q: int)
    requires
        0 <= m,
        0 <= q <= s1.len(),
        s2.len() == s1.len() + m,
        forall|j: int| q <= j < s1.len() ==> s2[j + m] == #[trigger] s1[j],
    ensures
        scan(s2, q + m) == (scan(s1, q).0, scan(s1, q).1 + m, scan(s1, q).2 + m),
        token_at(s2, q + m) == token_at(s1, q),
{
    lemma_run_end_shift(s1, s2, m, q, spaces());
    lemma_run_end(s1, q, spaces());
    let p = run_end(s1, q, spaces());
    if p < s1.len() {
        lemma_run_end_shift(s1, s2, m, p, letters());
        lemma_run_end_shift(s1, s2, m, p, digits());
        lemma_run_end(s1, p, letters());
        assert(s2[p + m] == s1[p]);
        if p + 1 < s1.len() {
            assert(s2[p + 1 + m] == s1[p + 1]);
        }
        let e = run_end(s1, p, letters());
        assert(s2.subrange(p + m, e + m) =~= s1.subrange(p, e));
    }
    lemma_scan_progress(s1, q);
    let a = scan(s1, q).1;
    let e = scan(s1, q).2;
    assert(s2.subrange(a + m, e + m) =~= s1.subrange(a, e));
}

proof fn lemma_tokens_shift(s1: Seq<char>, s2: Seq<char>, m: int, q: int)
    requires
        0 <= m,
        0 <= q <= s1.len(),
        s2.len() == s1.len() + m,
        forall|j: int| q <= j < s1.len() ==> s2[j + m] == #[trigger] s1[j],
    ensures
        tokens_from(s2, q + m) == tokens_from(s1, q),
    decreases s1.len() - q,
{
    lemma_scan_shift(s1, s2, m, q);
    lemma_scan_progress(s1, q);
    lemma_tokens_from_unfold(s1, q);
    lemma_tokens_from_unfold(s2, q + m);
    if scan(s1, q).0 != TokenType::Eof {
        lemma_tokens_shift(s1, s2, m, scan(s1, q).2);
    }
}

/// Whitespace at `k` is skipped: scanning from `k` is scanning from past it.
proof fn lemma_skip_spaces(s: Seq<char>, k: int, m: int)
    requires
        0 <= k,
        0 <= m,
        k + m <= s.len(),
        forall|j: int| k <= j < k + m ==> space_char(#[trigger] s[j]),
    ensures
        scan(s, k) == scan(s, k + m),
        tokens_from(s, k) == tokens_from(s, k + m),
{
    lemma_run_end(s, k + m, spaces());
    let e = run_end(s, k + m, spaces());
    assert forall|j: int| k <= j < e implies #[trigger] spaces()(s[j]) by {
        if j >= k + m {
            assert(spaces()(s[j]));
        }
    }
    lemma_run_end_unique(s, k, e, spaces());
    lemma_scan_progress(s, k);
    lemma_scan_progress(s, k + m);
    lemma_tokens_from_unfold(s, k);
    lemma_tokens_from_unfold(s, k + m);
}

/// A step that ends by `k` reads nothing past `k`, and whitespace at `k`
/// stops it where the character of `s1` there did.
proof fn lemma_scan_prefix(s1: Seq<char>, s2: Seq<char>, i: int, k: int)
    requires
        0 <= i,
        k <= s1.len(),
        k < s2.len(),
        forall|j: int| 0 <= j < k ==> #[trigger] s1[j] == s2[j],
        space_char(s2[k]),
        scan(s1, i).0 != TokenType::Eof,
        scan(s1, i).2 <= k,
    ensures
        scan(s2, i) == scan(s1, i),
        token_at(s2, i) == token_at(s1, i),
{
    lemma_scan_progress(s1, i);
    lemma_run_end(s1, i, spaces());
    let p = run_end(s1, i, spaces());
    assert(s2[p] == s1[p]);
    lemma_run_end_agree(s1, s2, i, p, spaces());
    let c = s1[p];
    if p + 1 < k {
        assert(s2[p + 1] == s1[p + 1]);
    }
    if c != '=' && c != '!' && single_kind(c) is None {
        if letter_char(c) {
            lemma_run_end(s1, p, letters());
            let e = run_end(s1, p, letters());
            if e < k {
                assert(s2[e] == s1[e]);
            }
            lemma_run_end_agree(s1, s2, p, e, letters());
        } else if digit_char(c) {
            lemma_run_end(s1, p, digits());
            let e = run_end(s1, p, digits());
            if e < k {
                assert(s2[e] == s1[e]);
            }
            lemma_run_end_agree(s1, s2, p, e, digits());
        }
    }
    let a = scan(s1, i).1;
    let e = scan(s1, i).2;
    assert(s2.subrange(a, e) =~= s1.subrange(a, e));
}

proof fn lemma_tokens_prefix(s1: Seq<char>, s2: Seq<char>, m: int, i: int, k: int)
    requires
        0 <= i,
        k <= s1.len(),
        0 < m,
        s2.len() == s1.len() + m,
        forall|j: int| 0 <= j < k ==> #[trigger] s1[j] == s2[j],
        forall|j: int| k <= j < k + m ==> space_char(#[trigger] s2[j]),
        forall|j: int| k <= j < s1.len() ==> s2[j + m] == #[trigger] s1[j],
        reaches(s1, i, k),
    ensures
        tokens_from(s2, i) == tokens_from(s1, i),
    decreases s1.len() - i,
{
    lemma_reaches_le(s1, i, k);
    if i == k {
        lemma_skip_spaces(s2, k, m);
        lemma_tokens_shift(s1, s2, m, k);
    } else {
        let e = scan(s1, i).2;
        lemma_reaches_le(s1, e, k);
        assert(space_char(s2[k]));
        lemma_scan_prefix(s1, s2, i, k);
        lemma_scan_progress(s1, i);
        lemma_tokens_from_unfold(s1, i);
        lemma_tokens_from_unfold(s2, i);
        lemma_tokens_prefix(s1, s2, m, e, k);
    }
}

} // verus!
