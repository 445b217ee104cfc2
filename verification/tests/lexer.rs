use automata::loader::lexer::{Error, Lexer, Token};
use automata::loader::{Span, Spanned};

#[test]
fn tokenizer() {
    let tests = [
        "",
        "/*",
        "/**",
        "/*/",
        "/**/",
        "/",
        "//",
        "()[]{}~=>==>->-+*&|, hello _th012is__ a wondweful",
    ];

    for test in tests {
        println!("'{test}': {:?}", Lexer::new(test).tokens())
    }
}

#[test]
fn lexer_tokenizer() {
    let tests = [
        "",
        "/*",
        "/**",
        "/*/",
        "/**/",
        "/",
        "//",
        "()[]{}~=>==>->-+*&|, hello _th012is__ a wondweful",
    ];

    for test in tests {
        let mut lexer = Lexer::new(test);
        let mut all = Vec::new();
        while let Some(next) = lexer.next() {
            all.push(next);
        }
        println!("'{test}': {:?}", all);
        assert_eq!(all, Lexer::new(test).tokens());
    }
}

fn lex(input: &str) -> Vec<Spanned<Result<Token, Error>>> {
    Lexer::new(input).tokens()
}

#[test]
fn lexes_nothing_from_blank_input() {
    assert_eq!(lex(""), vec![]);
    assert_eq!(lex("  \t \r "), vec![]);
}

#[test]
fn lexes_block_comments() {
    assert_eq!(lex("/*"), vec![Spanned(Err(Error::UnclosedMultiLine), Span(0, 2))]);
    assert_eq!(lex("/**"), vec![Spanned(Err(Error::UnclosedMultiLine), Span(0, 3))]);
    assert_eq!(lex("/*/"), vec![Spanned(Err(Error::UnclosedMultiLine), Span(0, 3))]);
    assert_eq!(lex("/**/"), vec![Spanned(Ok(Token::Comment(String::new())), Span(0, 4))]);
    assert_eq!(
        lex("/* a\n*b */ c"),
        vec![
            Spanned(Ok(Token::Comment(" a\n*b ".to_string())), Span(0, 10)),
            Spanned(Ok(Token::Ident("c".to_string())), Span(11, 12)),
        ]
    );
}

#[test]
fn lexes_line_comments() {
    assert_eq!(lex("//"), vec![Spanned(Ok(Token::Comment(String::new())), Span(0, 2))]);
    assert_eq!(
        lex("// hi\nq"),
        vec![
            Spanned(Ok(Token::Comment(" hi".to_string())), Span(0, 5)),
            Spanned(Ok(Token::LineEnd), Span(5, 6)),
            Spanned(Ok(Token::Ident("q".to_string())), Span(6, 7)),
        ]
    );
}

#[test]
fn lexes_a_lone_slash_as_an_error() {
    assert_eq!(lex("/"), vec![Spanned(Err(Error::InvalidChar('/')), Span(0, 1))]);
    assert_eq!(
        lex("/a"),
        vec![
            Spanned(Err(Error::InvalidChar('/')), Span(0, 1)),
            Spanned(Ok(Token::Ident("a".to_string())), Span(1, 2)),
        ]
    );
}

#[test]
fn lexes_punctuation_and_identifiers() {
    let got = lex("()[]{}~=>==>->-+*&|, hello _th012is__ a wondweful");
    let want = vec![
        Spanned(Ok(Token::LPar), Span(0, 1)),
        Spanned(Ok(Token::RPar), Span(1, 2)),
        Spanned(Ok(Token::LBracket), Span(2, 3)),
        Spanned(Ok(Token::RBracket), Span(3, 4)),
        Spanned(Ok(Token::LBrace), Span(4, 5)),
        Spanned(Ok(Token::RBrace), Span(5, 6)),
        Spanned(Ok(Token::Tilde), Span(6, 7)),
        Spanned(Ok(Token::LBigArrow), Span(7, 9)),
        Spanned(Ok(Token::Eq), Span(9, 10)),
        Spanned(Ok(Token::LBigArrow), Span(10, 12)),
        Spanned(Ok(Token::LSmallArrow), Span(12, 14)),
        Spanned(Err(Error::InvalidChar('-')), Span(14, 15)),
        Spanned(Ok(Token::Plus), Span(15, 16)),
        Spanned(Ok(Token::Star), Span(16, 17)),
        Spanned(Ok(Token::And), Span(17, 18)),
        Spanned(Ok(Token::Or), Span(18, 19)),
        Spanned(Ok(Token::Comma), Span(19, 20)),
        Spanned(Ok(Token::Ident("hello".to_string())), Span(21, 26)),
        Spanned(Ok(Token::Ident("_th012is__".to_string())), Span(27, 37)),
        Spanned(Ok(Token::Ident("a".to_string())), Span(38, 39)),
        Spanned(Ok(Token::Ident("wondweful".to_string())), Span(40, 49)),
    ];
    assert_eq!(got, want);
}

#[test]
fn lexes_line_ends_as_tokens() {
    assert_eq!(
        lex("a \n\n b"),
        vec![
            Spanned(Ok(Token::Ident("a".to_string())), Span(0, 1)),
            Spanned(Ok(Token::LineEnd), Span(2, 3)),
            Spanned(Ok(Token::LineEnd), Span(3, 4)),
            Spanned(Ok(Token::Ident("b".to_string())), Span(5, 6)),
        ]
    );
}

#[test]
fn lexes_identifiers_outside_ascii_with_byte_spans() {
    assert_eq!(
        lex("δ(q0, ε) = 𝛆1"),
        vec![
            Spanned(Ok(Token::Ident("δ".to_string())), Span(0, 2)),
            Spanned(Ok(Token::LPar), Span(2, 3)),
            Spanned(Ok(Token::Ident("q0".to_string())), Span(3, 5)),
            Spanned(Ok(Token::Comma), Span(5, 6)),
            Spanned(Ok(Token::Ident("ε".to_string())), Span(7, 9)),
            Spanned(Ok(Token::RPar), Span(9, 10)),
            Spanned(Ok(Token::Eq), Span(11, 12)),
            Spanned(Ok(Token::Ident("𝛆1".to_string())), Span(13, 18)),
        ]
    );
}

#[test]
fn lexes_digits_and_symbols_as_invalid_starts() {
    assert_eq!(
        lex("1a #"),
        vec![
            Spanned(Err(Error::InvalidChar('1')), Span(0, 1)),
            Spanned(Ok(Token::Ident("a".to_string())), Span(1, 2)),
            Spanned(Err(Error::InvalidChar('#')), Span(3, 4)),
        ]
    );
}

#[test]
fn lexer_reports_the_end_of_the_input() {
    assert_eq!(Lexer::new("").eof_span(), Span(0, 0));
    assert_eq!(Lexer::new("aδ").eof_span(), Span(3, 3));
}

#[test]
fn span_join_takes_start_of_left_and_end_of_right() {
    assert_eq!(Span(1, 2).join(Span(5, 9)), Span(1, 9));
}

#[test]
fn lexes_white_space_outside_ascii_as_blank() {
    assert_eq!(
        lex("a\u{2003}b\u{85}c\u{a0}"),
        vec![
            Spanned(Ok(Token::Ident("a".to_string())), Span(0, 1)),
            Spanned(Ok(Token::Ident("b".to_string())), Span(4, 5)),
            Spanned(Ok(Token::Ident("c".to_string())), Span(7, 8)),
        ]
    );
}

#[test]
fn lexes_control_codes_outside_ascii_as_errors() {
    assert_eq!(
        lex("\u{80}a\u{7f}"),
        vec![
            Spanned(Err(Error::InvalidChar('\u{80}')), Span(0, 2)),
            Spanned(Ok(Token::Ident("a".to_string())), Span(2, 3)),
            Spanned(Err(Error::InvalidChar('\u{7f}')), Span(3, 4)),
        ]
    );
}

#[test]
fn lexes_symbols_outside_ascii_as_identifiers() {
    assert_eq!(
        lex("∑ = x٣∑,٣"),
        vec![
            Spanned(Ok(Token::Ident("∑".to_string())), Span(0, 3)),
            Spanned(Ok(Token::Eq), Span(4, 5)),
            Spanned(Ok(Token::Ident("x٣∑".to_string())), Span(6, 12)),
            Spanned(Ok(Token::Comma), Span(12, 13)),
            Spanned(Ok(Token::Ident("٣".to_string())), Span(13, 15)),
        ]
    );
}

#[test]
fn lexer_cursor_reads_character_by_character() {
    let mut lexer = Lexer::new("aδ");
    assert_eq!(lexer.index(), 0);
    assert_eq!(lexer.peek(), Some('a'));
    assert_eq!(lexer.consume(), Some('a'));
    assert_eq!(lexer.peek(), Some('δ'));
    assert_eq!(lexer.consume(), Some('δ'));
    assert_eq!(lexer.index(), 2);
    assert_eq!(lexer.peek(), None);
    assert_eq!(lexer.consume(), None);
    let mut lexer = Lexer::new("  \t x");
    lexer.skip();
    assert_eq!(lexer.index(), 4);
    let mut lexer = Lexer::new("  \n x");
    lexer.skip();
    assert_eq!(lexer.index(), 2);
}

#[test]
fn tokens_describe_themselves() {
    assert_eq!(Token::LPar.describe(false), "'('");
    assert_eq!(Token::RBrace.describe(true), "'}'");
    assert_eq!(Token::LSmallArrow.describe(false), "'->'");
    assert_eq!(Token::LBigArrow.describe(false), "'=>'");
    assert_eq!(Token::LineEnd.describe(true), "eol");
    assert_eq!(Token::Comment("x".to_string()).describe(true), "<comment>");
    assert_eq!(Token::Ident("q\"0".to_string()).describe(false), "ident");
    assert_eq!(Token::Ident("q\"0".to_string()).describe(true), "\"q\\\"0\"");
    assert_eq!(Error::InvalidChar('\'').describe(), "lexer: InvalidChar('\\'')");
    assert_eq!(Error::UnclosedMultiLine.describe(), "lexer: UnclosedMultiLine");
    assert!(Token::Ident("a".to_string()).same(&Token::Ident("a".to_string()).duplicate()));
    assert!(!Token::Ident("a".to_string()).same(&Token::Ident("b".to_string())));
    assert!(!Token::Ident("a".to_string()).same(&Token::Comment("a".to_string())));
    assert!(Token::Eq.same(&Token::Eq));
    assert!(!Token::Eq.same(&Token::Comma));
}
