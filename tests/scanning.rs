use monkey_lexer::lexer::{tokenize, Lexer};
use monkey_lexer::token::{lookup_identifier, TokenType};

fn scan_all(input: &str) -> Vec<(TokenType, String)> {
    tokenize(input).into_iter().map(|t| (t.ttype, t.literal)).collect()
}

fn expect(input: &str, want: &[(TokenType, &str)]) {
    let got = scan_all(input);
    let want: Vec<(TokenType, String)> = want.iter().map(|(k, s)| (*k, s.to_string())).collect();
    assert_eq!(got, want, "input {:?}", input);
}

#[test]
fn let_statement_end_to_end() {
    expect(
        "let five = 5;",
        &[
            (TokenType::Let, "let"),
            (TokenType::Identifier, "five"),
            (TokenType::Assign, "="),
            (TokenType::Intiger, "5"),
            (TokenType::Semicolon, ";"),
            (TokenType::Eof, ""),
        ],
    );
}

#[test]
fn not_equal_end_to_end() {
    expect(
        "10 != 9;",
        &[
            (TokenType::Intiger, "10"),
            (TokenType::NotEq, "!="),
            (TokenType::Intiger, "9"),
            (TokenType::Semicolon, ";"),
            (TokenType::Eof, ""),
        ],
    );
}

#[test]
fn same_input_scans_the_same_twice() {
    let input = "let add = fn(x, y) { x + y; }; @ 10 != 9";
    assert_eq!(scan_all(input), scan_all(input));
    let mut a = Lexer::new(input);
    let mut b = Lexer::new(input);
    for _ in 0..30 {
        let x = a.next_token();
        let y = b.next_token();
        assert_eq!(x, y);
    }
}

#[test]
fn end_of_input_repeats() {
    let mut lexer = Lexer::new("x");
    let first = lexer.next_token();
    assert_eq!(first.ttype, TokenType::Identifier);
    for _ in 0..5 {
        let t = lexer.next_token();
        assert_eq!(t.ttype, TokenType::Eof);
        assert_eq!(t.literal, "");
    }
}

#[test]
fn empty_and_blank_inputs() {
    expect("", &[(TokenType::Eof, "")]);
    expect(" \t\r\n\x0C ", &[(TokenType::Eof, "")]);
    let mut lexer = Lexer::new("");
    assert_eq!(lexer.next_token().ttype, TokenType::Eof);
    assert_eq!(lexer.next_token().ttype, TokenType::Eof);
}

#[test]
fn whitespace_between_tokens_changes_nothing() {
    let tight = scan_all("let x=5;if(x<10){return x;}");
    let spaced = scan_all("  let   x \t= 5 ;\n if ( x < 10 )\r\n{ return x ; }  ");
    assert_eq!(tight, spaced);
}

#[test]
fn whitespace_inside_a_lexeme_splits_it() {
    expect(
        "= =",
        &[(TokenType::Assign, "="), (TokenType::Assign, "="), (TokenType::Eof, "")],
    );
    expect(
        "le t",
        &[(TokenType::Identifier, "le"), (TokenType::Identifier, "t"), (TokenType::Eof, "")],
    );
}

#[test]
fn letter_and_digit_runs_are_whole() {
    expect("foobar;", &[(TokenType::Identifier, "foobar"), (TokenType::Semicolon, ";"), (TokenType::Eof, "")]);
    expect("12345+", &[(TokenType::Intiger, "12345"), (TokenType::Plus, "+"), (TokenType::Eof, "")]);
    expect(
        "abc123",
        &[(TokenType::Identifier, "abc"), (TokenType::Intiger, "123"), (TokenType::Eof, "")],
    );
    expect(
        "123abc",
        &[(TokenType::Intiger, "123"), (TokenType::Identifier, "abc"), (TokenType::Eof, "")],
    );
    expect("_snake_case", &[(TokenType::Identifier, "_snake_case"), (TokenType::Eof, "")]);
}

#[test]
fn negative_number_is_two_tokens() {
    expect("-5", &[(TokenType::Minus, "-"), (TokenType::Intiger, "5"), (TokenType::Eof, "")]);
}

#[test]
fn two_character_operators_win() {
    expect("==", &[(TokenType::Eq, "=="), (TokenType::Eof, "")]);
    expect("!=", &[(TokenType::NotEq, "!="), (TokenType::Eof, "")]);
    expect("=x", &[(TokenType::Assign, "="), (TokenType::Identifier, "x"), (TokenType::Eof, "")]);
    expect("!x", &[(TokenType::Bang, "!"), (TokenType::Identifier, "x"), (TokenType::Eof, "")]);
    expect("=", &[(TokenType::Assign, "="), (TokenType::Eof, "")]);
    expect("!", &[(TokenType::Bang, "!"), (TokenType::Eof, "")]);
    expect("===", &[(TokenType::Eq, "=="), (TokenType::Assign, "="), (TokenType::Eof, "")]);
}

#[test]
fn keywords_resolve() {
    let cases = [
        ("fn", TokenType::Function),
        ("let", TokenType::Let),
        ("true", TokenType::True),
        ("false", TokenType::False),
        ("if", TokenType::If),
        ("else", TokenType::Else),
        ("return", TokenType::Return),
    ];
    for (word, kind) in cases {
        expect(word, &[(kind, word), (TokenType::Eof, "")]);
        assert_eq!(lookup_identifier(&word.to_string()), kind);
    }
}

#[test]
fn other_words_are_identifiers() {
    for word in ["foobar", "x", "Let", "FN", "returns", "fun", "iff", "els"] {
        expect(word, &[(TokenType::Identifier, word), (TokenType::Eof, "")]);
        assert_eq!(lookup_identifier(&word.to_string()), TokenType::Identifier);
    }
}

#[test]
fn illegal_character_does_not_stop_scanning() {
    expect("@5", &[(TokenType::Illegal, "@"), (TokenType::Intiger, "5"), (TokenType::Eof, "")]);
    expect(
        "#$ a",
        &[
            (TokenType::Illegal, "#"),
            (TokenType::Illegal, "$"),
            (TokenType::Identifier, "a"),
            (TokenType::Eof, ""),
        ],
    );
}

#[test]
fn nul_in_input_is_illegal_not_the_end() {
    expect("a\0b", &[
        (TokenType::Identifier, "a"),
        (TokenType::Illegal, "\0"),
        (TokenType::Identifier, "b"),
        (TokenType::Eof, ""),
    ]);
}

#[test]
fn unicode_letters_and_digits() {
    expect("café", &[(TokenType::Identifier, "café"), (TokenType::Eof, "")]);
    expect("京都", &[(TokenType::Identifier, "京都"), (TokenType::Eof, "")]);
    expect("٣٤", &[(TokenType::Intiger, "٣٤"), (TokenType::Eof, "")]);
    expect("💝", &[(TokenType::Illegal, "💝"), (TokenType::Eof, "")]);
}

#[test]
fn every_single_character_token() {
    expect(
        ";+(),{}-/<>*",
        &[
            (TokenType::Semicolon, ";"),
            (TokenType::Plus, "+"),
            (TokenType::LParen, "("),
            (TokenType::RParen, ")"),
            (TokenType::Comma, ","),
            (TokenType::LBrace, "{"),
            (TokenType::RBrace, "}"),
            (TokenType::Minus, "-"),
            (TokenType::Slash, "/"),
            (TokenType::Lt, "<"),
            (TokenType::Gt, ">"),
            (TokenType::Asterisk, "*"),
            (TokenType::Eof, ""),
        ],
    );
}

#[test]
fn kinds_show_as_text() {
    assert_eq!(TokenType::Assign.to_string(), "=");
    assert_eq!(TokenType::LBrace.to_string(), "{");
    assert_eq!(TokenType::RBrace.to_string(), "}");
    assert_eq!(TokenType::Intiger.to_string(), "Intiger");
    assert_eq!(TokenType::Function.to_string(), "Function");
    assert_eq!(TokenType::NotEq.to_string(), "NotEq");
    assert_eq!(TokenType::Eof.to_string(), "Eof");
}
