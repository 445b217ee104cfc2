use automata::host::{compile, lex, Kind, Tok};
use automata::loader::log::{LogEntry, LogLevel, LogSink, Logs};
use automata::loader::render::LogEntryDisplay;
use automata::loader::{Context, Machine, Span};

const RESET: &str = "\x1b[0;22m";
const BOLD: &str = "\x1b[1m";
const RED: &str = "\x1b[31m";
const GREEN: &str = "\x1b[32m";
const YELLOW: &str = "\x1b[33m";
const CYAN: &str = "\x1b[36m";

fn show(src: &str, entry: &LogEntry) -> String {
    LogEntryDisplay { src, entry }.render()
}

#[test]
fn renders_a_message_without_a_span() {
    let entry = LogEntry::error_locless("states never defined").emit_help_logless("add: Q = {...}");
    let want = format!(
        "{BOLD}{RED}error{RESET}{BOLD}: states never defined{RESET}\n{BOLD}{GREEN}help{RESET}{BOLD}: add: Q = {{...}}{RESET}\n"
    );
    assert_eq!(show("", &entry), want);
}

#[test]
fn renders_an_excerpt_with_markers_under_the_span() {
    let src = "Q = {a, a}\n";
    let entry = LogEntry::error("state redefined", Span(8, 9))
        .emit_info("previously defined here", Span(5, 6));
    let want = format!(
        "{BOLD}{RED}error{RESET}{BOLD}: state redefined{RESET}\n\
         {BOLD}{CYAN}1: {RESET}Q = {{a, a}}\n\
         {BOLD}{CYAN}           ~ {RESET}\n\
         {BOLD}{CYAN}info{RESET}{BOLD}: previously defined here{RESET}\n\
         {BOLD}{CYAN}1: {RESET}Q = {{a, a}}\n\
         {BOLD}{CYAN}        ~    {RESET}\n"
    );
    assert_eq!(show(src, &entry), want);
}

#[test]
fn renders_tabs_as_spaces_and_counts_bytes_for_columns() {
    let src = "a\n\tδx = 1\nb";
    let entry = LogEntry::warning("w", Span(3, 6));
    let want = format!(
        "{BOLD}{YELLOW}warning{RESET}{BOLD}: w{RESET}\n\
         {BOLD}{CYAN}2: {RESET} δx = 1\n\
         {BOLD}{CYAN}    ~~    {RESET}\n"
    );
    assert_eq!(show(src, &entry), want);
}

#[test]
fn renders_every_line_that_a_span_covers() {
    let src = "x\nab\ncd\ny";
    let entry = LogEntry::error("e", Span(3, 6));
    let want = format!(
        "{BOLD}{RED}error{RESET}{BOLD}: e{RESET}\n\
         {BOLD}{CYAN}2: {RESET}ab\n\
         {BOLD}{CYAN}    ~{RESET}\n\
         {BOLD}{CYAN}3: {RESET}cd\n\
         {BOLD}{CYAN}   ~ {RESET}\n"
    );
    assert_eq!(show(src, &entry), want);
}

#[test]
fn renders_numbers_as_wide_as_the_last() {
    let src = "1\n2\n3\n4\n5\n6\n7\n8\nnine\nten\n";
    let entry = LogEntry::error("e", Span(16, 23));
    let want = format!(
        "{BOLD}{RED}error{RESET}{BOLD}: e{RESET}\n\
         {BOLD}{CYAN} 9: {RESET}nine\n\
         {BOLD}{CYAN}    ~~~~{RESET}\n\
         {BOLD}{CYAN}10: {RESET}ten\n\
         {BOLD}{CYAN}    ~~ {RESET}\n"
    );
    assert_eq!(show(src, &entry), want);
}

#[test]
fn renders_the_end_of_the_text() {
    let src = "ab";
    let entry = LogEntry::error("e", Span(2, 2));
    let want = format!(
        "{BOLD}{RED}error{RESET}{BOLD}: e{RESET}\n\
         {BOLD}{CYAN}1: {RESET}ab\n\
         {BOLD}{CYAN}     {RESET}\n"
    );
    assert_eq!(show(src, &entry), want);
    let want = format!("{BOLD}{RED}error{RESET}{BOLD}: e{RESET}\n");
    assert_eq!(show("", &LogEntry::error("e", Span(0, 0))), want);
}

#[test]
fn log_counts_errors_only() {
    let mut logs = Logs::new();
    assert!(!logs.contains_errors());
    logs.emit_warning("w", Span(0, 1));
    logs.emit_warning_locless("w");
    logs.emit_info("i", Span(0, 1));
    logs.emit(LogEntry::warning("w", Span(0, 1)).emit_help("h", Span(0, 1)));
    assert!(!logs.contains_errors());
    assert_eq!(logs.entries().len(), 4);
    logs.emit_error("e", Span(0, 1));
    assert!(logs.contains_errors());
    logs.emit_error_locless("e");
    logs.emit_info("i", Span(0, 1));
    assert!(logs.contains_errors());
    let shown = logs.displayable_with("x");
    assert_eq!(shown.len(), 7);
    assert_eq!(shown[4].entry.message, "e");
    assert_eq!(logs.into_entries().len(), 7);
    assert!(!Logs::default().contains_errors());
}

#[test]
fn notes_follow_their_message_in_order() {
    let entry = LogEntry::error_locless("a")
        .emit_help_logless("b")
        .emit_info_logless("c")
        .emit_help("d", Span(1, 2))
        .with(LogEntry::new(LogLevel::Info, "e".to_string(), None).emit_info("f", Span(0, 0)));
    let mut messages = Vec::new();
    let mut levels = Vec::new();
    let mut next = Some(&entry);
    while let Some(e) = next {
        messages.push(e.message.as_str());
        levels.push(e.level);
        next = e.child.as_deref();
    }
    assert_eq!(messages, vec!["a", "b", "c", "d", "e", "f"]);
    assert_eq!(
        levels,
        vec![
            LogLevel::Error,
            LogLevel::Help,
            LogLevel::Info,
            LogLevel::Help,
            LogLevel::Info,
            LogLevel::Info
        ]
    );
}

#[test]
fn context_shows_its_log_with_its_text() {
    let mut ctx = Context::new("ab\n");
    assert_eq!(ctx.src(), "ab\n");
    assert_eq!(ctx.eof(), Span(3, 3));
    assert!(!ctx.contains_errors());
    ctx.emit_warning("w", Span(0, 1));
    assert!(!ctx.contains_errors());
    ctx.emit_error("e", Span(1, 2));
    assert!(ctx.contains_errors());
    let shown: Vec<String> = ctx.logs_display().iter().map(|d| d.render()).collect();
    assert_eq!(shown.len(), 2);
    assert!(shown[1].contains("1: \x1b[0;22mab\n"));
    assert!(shown[1].contains("    ~\x1b[0;22m\n"));
}

fn tok(start: usize, end: usize, scope_level: usize, kind: Kind) -> Tok {
    Tok { start, end, scope_level, kind }
}

#[test]
fn highlights_tokens_with_scope_levels() {
    let got = lex("Q = {q0, (a)}\n  d(q0) -> delta x // c");
    let want = vec![
        tok(0, 1, 0, Kind::Keyword),
        tok(2, 3, 0, Kind::Punc),
        tok(4, 5, 0, Kind::LBrace),
        tok(5, 7, 1, Kind::Ident),
        tok(7, 8, 1, Kind::Punc),
        tok(9, 10, 1, Kind::LPar),
        tok(10, 11, 2, Kind::Ident),
        tok(11, 12, 1, Kind::RPar),
        tok(12, 13, 0, Kind::RBrace),
        tok(13, 14, 0, Kind::Punc),
        tok(16, 17, 0, Kind::Keyword),
        tok(17, 18, 0, Kind::LPar),
        tok(18, 20, 1, Kind::Ident),
        tok(20, 21, 0, Kind::RPar),
        tok(22, 24, 0, Kind::Punc),
        tok(25, 30, 0, Kind::Keyword),
        tok(31, 32, 0, Kind::Ident),
        tok(33, 37, 0, Kind::Comment),
    ];
    assert_eq!(got, want);
}

#[test]
fn highlights_with_positions_in_utf16_units() {
    let got = lex("𝛆 = δ ~ - ]");
    let want = vec![
        tok(0, 2, 0, Kind::Keyword),
        tok(3, 4, 0, Kind::Punc),
        tok(5, 6, 0, Kind::Keyword),
        tok(7, 8, 0, Kind::Keyword),
        tok(9, 10, 0, Kind::Error),
        tok(11, 12, 0, Kind::RBracket),
    ];
    assert_eq!(got, want);
    assert_eq!(lex(""), vec![]);
}

#[test]
fn host_compilation_gives_machine_log_and_rendering() {
    let result = compile("type = dfa\nQ = {q0}\nE = {a}\nF = {q0}\nd(q0, a) = q0\n");
    assert!(matches!(result.machine, Some(Machine::Fa(_))));
    assert_eq!(result.log.len(), 1);
    assert_eq!(result.log[0].level, LogLevel::Warning);
    assert_eq!(result.log[0].message, "initial state not defined, defaulting to 'q0'");
    assert_eq!(result.log[0].start, None);
    assert_eq!(
        result.ansi_log,
        format!(
            "{BOLD}{YELLOW}warning{RESET}{BOLD}: initial state not defined, defaulting to 'q0'{RESET}\n{BOLD}{GREEN}help{RESET}{BOLD}: add: q0 = q0{RESET}\n"
        )
    );
}

#[test]
fn host_log_has_positions_in_utf16_units() {
    let result = compile("type = dfa\nQ = {𝛆𝛆, x, x}\n");
    assert!(result.machine.is_none());
    let redefined: Vec<_> =
        result.log.iter().filter(|e| e.message == "state redefined").collect();
    assert_eq!(redefined.len(), 1);
    assert_eq!(redefined[0].start, Some(25));
    assert_eq!(redefined[0].end, Some(26));
    assert!(result.ansi_log.contains("2: \x1b[0;22mQ = {𝛆𝛆, x, x}\n"));
}

#[test]
fn sinks_take_every_kind_of_message() {
    fn fill(sink: &mut impl LogSink) {
        sink.emit_info_logless("a");
        sink.emit_help_logless("b");
        sink.emit_help("c", Span(0, 1));
        LogSink::emit_info(sink, "d", Span(1, 2));
        LogSink::emit_warning_locless(sink, "e");
        LogSink::emit_warning(sink, "f", Span(2, 3));
    }
    let mut logs = Logs::new();
    fill(&mut logs);
    assert!(!logs.contains_errors());
    LogSink::emit_error(&mut logs, "g", Span(3, 4));
    assert!(logs.contains_errors());
    let got: Vec<_> = logs.entries().iter().map(|e| (e.level, e.message.as_str(), e.span)).collect();
    assert_eq!(
        got,
        vec![
            (LogLevel::Info, "a", None),
            (LogLevel::Help, "b", None),
            (LogLevel::Help, "c", Some(Span(0, 1))),
            (LogLevel::Info, "d", Some(Span(1, 2))),
            (LogLevel::Warning, "e", None),
            (LogLevel::Warning, "f", Some(Span(2, 3))),
            (LogLevel::Error, "g", Some(Span(3, 4))),
        ]
    );
    let mut ctx = Context::new("");
    fill(&mut ctx);
    assert!(!ctx.contains_errors());
    LogSink::emit_error_locless(&mut ctx, "h");
    assert!(ctx.contains_errors());
    assert_eq!(ctx.into_logs().entries().len(), 7);
}
