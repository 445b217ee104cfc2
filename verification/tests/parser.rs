use automata::loader::ast::{Item, List, ListKind, ProductionGroup, Symbol, TopLevel, Tuple};
use automata::loader::lexer::Token;
use automata::loader::log::{LogEntry, LogLevel};
use automata::loader::parser::Parser;
use automata::loader::{parse_all, Context, Span, Spanned};

fn parse(src: &str) -> (Vec<Spanned<TopLevel>>, Vec<LogEntry>) {
    let mut ctx = Context::new(src);
    let items = parse_all(&mut ctx);
    (items, ctx.into_logs().into_entries())
}

fn messages(log: &[LogEntry]) -> Vec<(LogLevel, &str, Option<Span>)> {
    log.iter().map(|e| (e.level, e.message.as_str(), e.span)).collect()
}

fn ident(name: &str, start: usize, end: usize) -> Spanned<Item> {
    Spanned(Item::Symbol(Symbol::Ident(name.to_string())), Span(start, end))
}

#[test]
fn parses_an_item_declaration() {
    let (items, log) = parse("Q = {q0, q1}\n");
    assert!(log.is_empty());
    assert_eq!(
        items,
        vec![Spanned(
            TopLevel::Item(
                Spanned("Q".to_string(), Span(0, 1)),
                Spanned(
                    Item::List(List(vec![ident("q0", 5, 7), ident("q1", 9, 11)], ListKind::BraceComma)),
                    Span(4, 12)
                )
            ),
            Span(0, 12)
        )]
    );
}

#[test]
fn parses_a_transition_function_declaration() {
    let (items, log) = parse("d(q0, ~) = [(q1 x) ε]");
    assert!(log.is_empty(), "{log:?}");
    let tuple = Spanned(
        Tuple(vec![
            ident("q0", 2, 4),
            Spanned(Item::Symbol(Symbol::Epsilon("~".to_string())), Span(6, 7)),
        ]),
        Span(1, 8),
    );
    let value = Spanned(
        Item::List(List(
            vec![
                Spanned(
                    Item::Tuple(Tuple(vec![ident("q1", 13, 15), ident("x", 16, 17)])),
                    Span(12, 18),
                ),
                Spanned(Item::Symbol(Symbol::Epsilon("ε".to_string())), Span(19, 21)),
            ],
            ListKind::Bracket,
        )),
        Span(11, 22),
    );
    assert_eq!(
        items,
        vec![Spanned(
            TopLevel::TransitionFunc(
                Spanned((Spanned("d".to_string(), Span(0, 1)), tuple), Span(0, 8)),
                value
            ),
            Span(0, 22)
        )]
    );
}

#[test]
fn parses_a_production_rule() {
    let (items, log) = parse("S a -> a S | ~\n");
    assert!(log.is_empty(), "{log:?}");
    let sym = |name: &str, s, e| Spanned(Symbol::Ident(name.to_string()), Span(s, e));
    assert_eq!(
        items,
        vec![Spanned(
            TopLevel::ProductionRule(
                Spanned(ProductionGroup(vec![sym("S", 0, 1), sym("a", 2, 3)]), Span(0, 3)),
                Spanned(
                    vec![
                        Spanned(
                            ProductionGroup(vec![sym("a", 7, 8), sym("S", 9, 10)]),
                            Span(7, 10)
                        ),
                        Spanned(
                            ProductionGroup(vec![Spanned(
                                Symbol::Epsilon("~".to_string()),
                                Span(13, 14)
                            )]),
                            Span(13, 14)
                        ),
                    ],
                    Span(7, 14)
                )
            ),
            Span(0, 14)
        )]
    );
}

#[test]
fn production_rule_without_an_arrow_or_alternative_is_an_error() {
    let (items, log) = parse("a b\n");
    assert_eq!(items.len(), 1);
    assert_eq!(
        messages(&log),
        vec![(LogLevel::Error, "unexpected eol expected '->'", Some(Span(3, 4)))]
    );
    let (items, log) = parse("a -> b |\n");
    assert_eq!(items.len(), 1);
    assert_eq!(
        messages(&log),
        vec![(LogLevel::Error, "cannot have empty production group", Some(Span(8, 9)))]
    );
}

#[test]
fn empty_lines_and_comments_are_passed_over() {
    let (items, log) = parse("\n\n// c\nQ = a /* c */\n\n/* c\n c */ F = b");
    assert!(log.is_empty(), "{log:?}");
    assert_eq!(items.len(), 2);
    assert_eq!(items[0].1, Span(7, 12));
    assert_eq!(items[1].1, Span(33, 38));
}

#[test]
fn malformed_lines_are_reported_and_left_out() {
    let (items, log) = parse("= 3\nQ = a\nQ )\n) x\nF = b\n");
    assert_eq!(items.len(), 2);
    assert_eq!(
        messages(&log),
        vec![
            (LogLevel::Error, "lexer: InvalidChar('3')", Some(Span(2, 3))),
            (LogLevel::Error, "unexpected '=' expected ident", Some(Span(0, 1))),
            (LogLevel::Error, "unexpected ')' expected '=' | '->'", Some(Span(12, 13))),
            (LogLevel::Error, "unexpected ')' expected ident", Some(Span(14, 15))),
        ]
    );
}

#[test]
fn unclosed_tuples_and_lists_end_at_the_line() {
    let (items, log) = parse("d(q0, a = q1\nQ = {a, b\nF = {c}\n");
    assert_eq!(
        messages(&log),
        vec![
            (LogLevel::Error, "unexpected '=' expected item ( '~' | ident | '(' | '{' | '[' )", Some(Span(8, 9))),
            (LogLevel::Error, "unexpected eol expected ')'", Some(Span(12, 13))),
            (LogLevel::Error, "unexpected eol expected '='", Some(Span(12, 13))),
            (LogLevel::Error, "unexpected eol expected list close ( '}' )", Some(Span(22, 23))),
        ]
    );
    assert_eq!(items.len(), 2);
    assert_eq!(items[1].1, Span(23, 30));
}

#[test]
fn something_behind_a_declaration_is_an_error() {
    let (items, log) = parse("Q = a b\n");
    assert_eq!(items.len(), 1);
    assert_eq!(
        messages(&log),
        vec![
            (LogLevel::Error, "unexpected \"b\" expected eol", Some(Span(6, 7))),
            (LogLevel::Error, "unexpected eol expected '=' | '->'", Some(Span(7, 8))),
        ]
    );
}

#[test]
fn lists_record_how_they_were_written() {
    let kinds: Vec<ListKind> = ["Q = {a b}", "Q = {a, b}", "Q = [a b]", "Q = [a, b]", "Q = {}", "Q = [a]"]
        .iter()
        .map(|src| {
            let (items, log) = parse(src);
            assert!(log.is_empty());
            match &items[0].0 {
                TopLevel::Item(_, Spanned(Item::List(list), _)) => list.1,
                other => panic!("{other:?}"),
            }
        })
        .collect();
    assert_eq!(
        kinds,
        vec![
            ListKind::Brace,
            ListKind::BraceComma,
            ListKind::Bracket,
            ListKind::BracketComma,
            ListKind::Brace,
            ListKind::Bracket
        ]
    );
}

#[test]
fn mixed_delimiting_is_a_warning() {
    let (_, log) = parse("Q = {a, b c}\nF = {a b, c}\n");
    assert_eq!(
        messages(&log),
        vec![
            (
                LogLevel::Warning,
                "inconsistent comma delimiting. use commas to delimit all or no items",
                Some(Span(10, 11))
            ),
            (
                LogLevel::Warning,
                "inconsistent comma delimiting. use commas to delimit all or no items",
                Some(Span(21, 22))
            ),
        ]
    );
}

#[test]
fn parser_reads_declarations_one_by_one() {
    let mut ctx = Context::new("Q = a\nF = b");
    let mut parser = Parser::new(&mut ctx);
    assert_eq!(parser.peek_token(&mut ctx), Spanned(Token::Ident("Q".to_string()), Span(0, 1)));
    let first = parser.next_element(&mut ctx).unwrap();
    assert_eq!(first.1, Span(0, 5));
    let second = parser.next_element(&mut ctx).unwrap();
    assert_eq!(second.1, Span(6, 11));
    assert_eq!(parser.peek_token_optional(&mut ctx), None);
    assert_eq!(parser.peek_token(&mut ctx), Spanned(Token::LineEnd, Span(11, 11)));
    assert_eq!(parser.next_token(&mut ctx), Spanned(Token::LineEnd, Span(11, 11)));
    assert!(parser.next_element(&mut ctx).is_none());
    assert!(parser.next_token_optional(&mut ctx).is_none());
    assert!(!ctx.contains_errors());
}

#[test]
fn parser_wants_tokens() {
    let mut ctx = Context::new("( x");
    let mut parser = Parser::new(&mut ctx);
    assert_eq!(parser.expect_token(&mut ctx, Token::LPar), (true, Span(0, 1)));
    assert_eq!(parser.expect_token(&mut ctx, Token::RPar), (false, Span(2, 3)));
    let symbol = parser.parse_symbol(&mut ctx);
    assert_eq!(symbol, Spanned(Symbol::Ident("x".to_string()), Span(2, 3)));
    let symbol = parser.parse_symbol(&mut ctx);
    assert_eq!(symbol, Spanned(Symbol::Ident("<INVALID>".to_string()), Span(3, 3)));
    let log = ctx.into_logs().into_entries();
    assert_eq!(
        messages(&log),
        vec![
            (LogLevel::Error, "unexpected \"x\" expected ')'", Some(Span(2, 3))),
            (LogLevel::Error, "unexpected eol expected symbol ( '~' | ident )", Some(Span(3, 3))),
        ]
    );
}

#[test]
fn weak_lists_take_one_item_as_a_list() {
    let (items, _) = parse("Q = a\nF = {a, b}\nG = (a)\n");
    let values: Vec<&Spanned<Item>> = items
        .iter()
        .map(|i| match &i.0 {
            TopLevel::Item(_, value) => value,
            other => panic!("{other:?}"),
        })
        .collect();
    assert_eq!(values[0].list_weak(), &[ident("a", 4, 5)]);
    assert_eq!(values[0].set_weak().len(), 1);
    assert_eq!(values[1].list_weak().len(), 2);
    assert_eq!(values[2].set_weak().len(), 1);
    let mut ctx = Context::new("");
    assert_eq!(values[0].expect_ident(&mut ctx), Some(&"a".to_string()));
    assert!(values[0].expect_symbol(&mut ctx).is_some());
    assert!(values[1].expect_set(&mut ctx).is_some());
    assert!(values[1].expect_list(&mut ctx).is_some());
    assert!(values[2].expect_tuple(&mut ctx).is_some());
    assert!(!ctx.contains_errors());
    assert!(values[1].expect_ident(&mut ctx).is_none());
    assert!(values[2].expect_symbol(&mut ctx).is_none());
    assert!(values[0].expect_set(&mut ctx).is_none());
    assert!(values[2].expect_list(&mut ctx).is_none());
    assert!(values[1].expect_tuple(&mut ctx).is_none());
    let log = ctx.into_logs().into_entries();
    let texts: Vec<_> = log.iter().map(|e| e.message.as_str()).collect();
    assert_eq!(
        texts,
        vec![
            "expected ident found list",
            "expected ident found tuple",
            "expected set found ident",
            "expected list found tuple",
            "expected tuple found list"
        ]
    );
}

#[test]
fn a_new_parser_has_logged_nothing() {
    let mut ctx = Context::new("-");
    let mut parser = Parser::new(&mut ctx);
    assert!(!ctx.contains_errors());
    assert_eq!(parser.peek_token_optional(&mut ctx), None);
    assert!(ctx.contains_errors());
    assert_eq!(parser.peek_token_optional(&mut ctx), None);
    assert!(parser.next_element(&mut ctx).is_none());
    let log = ctx.into_logs().into_entries();
    assert_eq!(
        messages(&log),
        vec![(LogLevel::Error, "lexer: InvalidChar('-')", Some(Span(0, 1)))]
    );
}

#[test]
fn lexical_errors_are_logged_where_the_parser_reaches_them() {
    let (items, log) = parse("x\n-");
    assert!(items.is_empty());
    assert_eq!(
        messages(&log),
        vec![
            (LogLevel::Error, "unexpected eol expected '=' | '->'", Some(Span(1, 2))),
            (LogLevel::Error, "lexer: InvalidChar('-')", Some(Span(2, 3))),
        ]
    );
    let (items, log) = parse("Q = } - a\nF = - b\n");
    assert_eq!(items.len(), 2);
    assert_eq!(
        messages(&log),
        vec![
            (
                LogLevel::Error,
                "unexpected '}' expected item ( '~' | ident | '(' | '{' | '[' )",
                Some(Span(4, 5))
            ),
            (LogLevel::Error, "lexer: InvalidChar('-')", Some(Span(6, 7))),
            (LogLevel::Error, "unexpected \"a\" expected eol", Some(Span(8, 9))),
            (LogLevel::Error, "unexpected eol expected '=' | '->'", Some(Span(9, 10))),
            (LogLevel::Error, "lexer: InvalidChar('-')", Some(Span(14, 15))),
        ]
    );
}

#[test]
fn looking_at_a_token_logs_the_lexical_errors_before_it_once() {
    let mut ctx = Context::new("- - x");
    let mut parser = Parser::new(&mut ctx);
    assert_eq!(parser.peek_token(&mut ctx), Spanned(Token::Ident("x".to_string()), Span(4, 5)));
    assert_eq!(parser.peek_token(&mut ctx), Spanned(Token::Ident("x".to_string()), Span(4, 5)));
    assert_eq!(parser.next_token(&mut ctx), Spanned(Token::Ident("x".to_string()), Span(4, 5)));
    assert_eq!(parser.next_token(&mut ctx), Spanned(Token::LineEnd, Span(5, 5)));
    let log = ctx.into_logs().into_entries();
    assert_eq!(
        messages(&log),
        vec![
            (LogLevel::Error, "lexer: InvalidChar('-')", Some(Span(0, 1))),
            (LogLevel::Error, "lexer: InvalidChar('-')", Some(Span(2, 3))),
        ]
    );
}
