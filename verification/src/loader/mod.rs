//! The loader: from source text to a validated machine.

use vstd::prelude::*;
use vstd::string::*;

use crate::automatan::fa::{fa_compile, Fa, FaView};
use crate::automatan::pda::{pda_compile, Pda, PdaView};
use crate::automatan::tm::{tm_compile, Tm, TmView};
use crate::automatan::{Options};
use crate::loader::ast::{expected_ident, ItemView, SymbolView, TopLevel, TopLevelView};
use crate::loader::lexer::lexemes_from;
use crate::loader::log::{has_error, LogEntry, LogLevel, LogSink, Logs, Note};
use crate::loader::render::LogEntryDisplay;
use crate::loader::parser::{
    element_spec, elements_spec, elements_view, error_slots, significant, Parser, Progress, Stream,
};
use crate::text::{is_word, lemma_encoded_len, utf8_len};

pub mod ast;
pub mod lexer;
pub mod log;
pub mod parser;
pub mod render;


verus! {

/// The item that names the initial state.
pub const INITIAL_STATE: &'static str = "q0";

/// The item that names the initial stack symbol.
pub const INITIAL_STACK: &'static str = "z0";

/// The item that names the blank symbol.
pub const BLANK_SYMBOL: &'static str = "B";

/// A half-open range of byte offsets into the source text.
#[derive(Clone, Copy, Hash, PartialEq, Eq, Debug, Structural)]
pub struct Span(pub usize, pub usize);

impl Span {
    /// A span ends no earlier than it starts.
    pub open spec fn wf(self) -> bool {
        self.0 <= self.1
    }

    pub open spec fn spec_join(&self, end: Span) -> Span {
        Span(self.0, end.1)
    }

    /// The span from the start of `self` to the end of `end`.
    #[verifier::when_used_as_spec(spec_join)]
    pub fn join(&self, end: Span) -> (r: Span)
        ensures
            r == self.spec_join(end),
            r.0 == self.0,
            r.1 == end.1,
            self.wf() && end.wf() && self.0 <= end.0 ==> r.wf(),
    {
        Span(self.0, end.1)
    }
}

/// A value together with the span of source text it came from.
#[derive(Clone, Copy, Hash, PartialEq, Eq, Debug)]
pub struct Spanned<T>(pub T, pub Span);

impl<T> Spanned<T> {
    /// Applies `map` to the value and keeps the span.
    pub fn map<R, F: Fn(T) -> R>(self, map: F) -> (r: Spanned<R>)
        requires
            map.requires((self.0,)),
        ensures
            map.ensures((self.0,), r.0),
            r.1 == self.1,
    {
        Spanned(map(self.0), self.1)
    }

    /// A borrowed view of the value under the same span.
    pub fn as_ref(&self) -> (r: Spanned<&T>)
        ensures
            *r.0 == self.0,
            r.1 == self.1,
    {
        Spanned(&self.0, self.1)
    }
}


/// The log entry that holds one message and no notes.
pub open spec fn single(level: LogLevel, message: Seq<char>, span: Option<Span>) -> Seq<Note> {
    seq![Note { level, message, span }]
}

/// Whether `name` is one of the spellings of epsilon.
pub open spec fn is_epsilon(name: Seq<char>) -> bool {
    ||| name == "epsilon"@
    ||| name == "~"@
    ||| name == "Ɛ"@
    ||| name == "ε"@
    ||| name == "ϵ"@
    ||| name == "𝛆"@
    ||| name == "𝛜"@
    ||| name == "𝜀"@
    ||| name == "𝜖"@
    ||| name == "𝜺"@
    ||| name == "𝝐"@
    ||| name == "𝝴"@
    ||| name == "𝞊"@
    ||| name == "𝞮"@
    ||| name == "𝟄"@
    ||| name == "ɛ"@
}

/// Whether `name` is one of the spellings of the transition function.
pub open spec fn is_delta(name: Seq<char>) -> bool {
    ||| name == "delta"@
    ||| name == "D"@
    ||| name == "d"@
    ||| name == "ẟ"@
    ||| name == "δ"@
    ||| name == "𝛅"@
    ||| name == "𝛿"@
    ||| name == "𝜹"@
    ||| name == "𝝳"@
    ||| name == "𝞭"@
}

/// Whether `name` is one of the spellings of the input alphabet.
pub open spec fn is_sigma(name: Seq<char>) -> bool {
    ||| name == "E"@
    ||| name == "S"@
    ||| name == "sigma"@
    ||| name == "Σ"@
    ||| name == "𝚺"@
    ||| name == "𝛴"@
    ||| name == "𝜮"@
    ||| name == "𝝨"@
    ||| name == "𝞢"@
    ||| name == "∑"@
}

/// Whether `name` is one of the spellings of the stack or tape alphabet.
pub open spec fn is_gamma(name: Seq<char>) -> bool {
    ||| name == "T"@
    ||| name == "G"@
    ||| name == "gamma"@
    ||| name == "Γ"@
    ||| name == "Ⲅ"@
    ||| name == "𝚪"@
    ||| name == "𝛤"@
    ||| name == "𝜞"@
    ||| name == "𝝘"@
    ||| name == "𝞒"@
}

pub fn epsilon_name(name: &String) -> (b: bool)
    ensures
        b == is_epsilon(name@),
{
    is_word(name, "epsilon") || is_word(name, "~") || is_word(name, "Ɛ") || is_word(name, "ε")
        || is_word(name, "ϵ") || is_word(name, "𝛆") || is_word(name, "𝛜") || is_word(name, "𝜀")
        || is_word(name, "𝜖") || is_word(name, "𝜺") || is_word(name, "𝝐") || is_word(name, "𝝴")
        || is_word(name, "𝞊") || is_word(name, "𝞮") || is_word(name, "𝟄") || is_word(name, "ɛ")
}

pub fn delta_name(name: &String) -> (b: bool)
    ensures
        b == is_delta(name@),
{
    is_word(name, "delta") || is_word(name, "D") || is_word(name, "d") || is_word(name, "ẟ")
        || is_word(name, "δ") || is_word(name, "𝛅") || is_word(name, "𝛿") || is_word(name, "𝜹")
        || is_word(name, "𝝳") || is_word(name, "𝞭")
}

pub fn sigma_name(name: &String) -> (b: bool)
    ensures
        b == is_sigma(name@),
{
    is_word(name, "E") || is_word(name, "S") || is_word(name, "sigma") || is_word(name, "Σ")
        || is_word(name, "𝚺") || is_word(name, "𝛴") || is_word(name, "𝜮") || is_word(name, "𝝨")
        || is_word(name, "𝞢") || is_word(name, "∑")
}

pub fn gamma_name(name: &String) -> (b: bool)
    ensures
        b == is_gamma(name@),
{
    is_word(name, "T") || is_word(name, "G") || is_word(name, "gamma") || is_word(name, "Γ")
        || is_word(name, "Ⲅ") || is_word(name, "𝚪") || is_word(name, "𝛤") || is_word(name, "𝜞")
        || is_word(name, "𝝘") || is_word(name, "𝞒")
}

/// What one compilation works on: the source text and the log of what was
/// found in it.
pub struct Context<'a> {
    logs: Logs,
    src: &'a str,
}

impl<'a> Context<'a> {
    /// The characters of the source text.
    pub closed spec fn text(&self) -> Seq<char> {
        self.src@
    }

    /// The entries logged so far.
    pub closed spec fn log(&self) -> Seq<Seq<Note>> {
        self.logs@
    }

    /// Whether an error was logged.
    pub open spec fn failed(&self) -> bool {
        crate::loader::log::has_error(self.log())
    }

    /// A context for `src` with an empty log.
    pub fn new(src: &'a str) -> (r: Self)
        ensures
            r.text() == src@,
            r.log() == Seq::<Seq<Note>>::empty(),
    {
        Self { logs: Logs::new(), src }
    }

    /// The source text.
    pub fn src(&self) -> (r: &'a str)
        ensures
            r@ == self.text(),
    {
        self.src
    }

    /// The empty span at the end of the source text.
    pub fn eof(&self) -> (r: Span)
        ensures
            r == Span(utf8_len(self.text()) as usize, utf8_len(self.text()) as usize),
            utf8_len(self.text()) <= usize::MAX,
    {
        let size = self.src.as_bytes().len();
        proof {
            lemma_encoded_len(self.src@);
        }
        Span(size, size)
    }

    /// Each entry of the log together with the source text, ready to be
    /// shown.
    pub fn logs_display(&self) -> (r: Vec<LogEntryDisplay<'_>>)
        ensures
            r@.len() == self.log().len(),
            forall|i: int|
                0 <= i < r@.len() ==> (#[trigger] r@[i]).src@ == self.text() && r@[i].entry@
                    == self.log()[i],
    {
        self.logs.displayable_with(self.src)
    }

    /// Whether an error was logged.
    pub fn contains_errors(&self) -> (b: bool)
        ensures
            b == self.failed(),
    {
        self.logs.contains_errors()
    }

    /// The log, leaving the source text behind.
    pub fn into_logs(self) -> (r: Logs)
        ensures
            r@ == self.log(),
    {
        self.logs
    }

    /// Adds `entry` at the end of the log.
    pub fn emit(&mut self, entry: LogEntry)
        ensures
            final(self).text() == old(self).text(),
            final(self).log() == old(self).log().push(entry@),
    {
        self.logs.emit(entry);
    }

    /// Logs an error at `span`.
    pub fn emit_error(&mut self, msg: &str, span: Span)
        ensures
            final(self).text() == old(self).text(),
            final(self).log() == old(self).log().push(single(LogLevel::Error, msg@, Some(span))),
    {
        self.logs.emit(LogEntry::error(msg, span));
    }

    /// Logs a warning at `span`.
    pub fn emit_warning(&mut self, msg: &str, span: Span)
        ensures
            final(self).text() == old(self).text(),
            final(self).log() == old(self).log().push(
                single(LogLevel::Warning, msg@, Some(span)),
            ),
    {
        self.logs.emit(LogEntry::warning(msg, span));
    }
}

impl<'a> LogSink for Context<'a> {
    open spec fn sink(&self) -> Seq<Seq<Note>> {
        self.log()
    }

    fn emit(&mut self, entry: LogEntry) {
        Context::emit(self, entry);
    }
}

/// A compiled machine of one of the three kinds.
#[derive(Clone, Debug, PartialEq, Eq)]
pub enum Machine {
    Fa(Fa),
    Pda(Pda),
    Tm(Tm),
}

/// A compiled machine as contracts see it.
pub ghost enum MachineView {
    Fa(FaView),
    Pda(PdaView),
    Tm(TmView),
}

impl View for Machine {
    type V = MachineView;

    open spec fn view(&self) -> MachineView {
        match self {
            Machine::Fa(fa) => MachineView::Fa(fa@),
            Machine::Pda(pda) => MachineView::Pda(pda@),
            Machine::Tm(tm) => MachineView::Tm(tm@),
        }
    }
}

/// A machine as contracts see it, if there is one.
pub open spec fn machine_view(machine: Option<Machine>) -> Option<MachineView> {
    match machine {
        Some(machine) => Some(machine@),
        None => None,
    }
}

/// The kinds of machine that a source text can declare.
#[derive(Clone, Copy, Debug, PartialEq, Eq, Structural)]
pub enum MachineKind {
    Dfa,
    Nfa,
    Dpda,
    Npda,
    Tm,
    Ntm,
}

/// What deterministic machines may do: nothing more.
pub open spec fn deterministic() -> Options {
    Options { non_deterministic: false, epsilon_moves: false }
}

/// What non-deterministic machines may do: choose, and move on epsilon.
pub open spec fn non_deterministic() -> Options {
    Options { non_deterministic: true, epsilon_moves: true }
}

impl MachineKind {
    /// The options that the kind compiles under.
    pub open spec fn options(self) -> Options {
        match self {
            MachineKind::Dfa | MachineKind::Dpda | MachineKind::Tm => deterministic(),
            MachineKind::Nfa | MachineKind::Npda | MachineKind::Ntm => non_deterministic(),
        }
    }
}

/// The kind that `name` names, in lower or in upper case.
pub open spec fn kind_of(name: Seq<char>) -> Option<MachineKind> {
    if name == "dfa"@ || name == "DFA"@ {
        Some(MachineKind::Dfa)
    } else if name == "nfa"@ || name == "NFA"@ {
        Some(MachineKind::Nfa)
    } else if name == "dpda"@ || name == "DPDA"@ {
        Some(MachineKind::Dpda)
    } else if name == "npda"@ || name == "NPDA"@ {
        Some(MachineKind::Npda)
    } else if name == "tm"@ || name == "TM"@ {
        Some(MachineKind::Tm)
    } else if name == "ntm"@ || name == "NTM"@ {
        Some(MachineKind::Ntm)
    } else {
        None
    }
}

/// The entry for a text that does not start with the declaration of its
/// type.
pub open spec fn type_wanted(span: Span) -> Seq<Note> {
    seq![
        Note {
            level: LogLevel::Error,
            message: "expected type=<type> as first item"@,
            span: Some(span),
        },
        Note { level: LogLevel::Help, message: "add: type = ..."@, span: None },
    ]
}

/// Reads the declaration of the type, which must come first: `type = kind`.
/// Without it, or with a kind that is none, an error is logged and there is
/// no kind.
pub open spec fn type_spec(first: Option<(TopLevelView, Span)>, eof: Span, log: Seq<Seq<Note>>) -> (
    Option<MachineKind>,
    Seq<Seq<Note>>,
) {
    match first {
        Some((TopLevelView::Item { name, name_span, value }, span)) => if name == "type"@ {
            match value.0 {
                ItemView::Symbol(SymbolView::Ident(kind)) => match kind_of(kind) {
                    Some(found) => (Some(found), log),
                    None => (
                        None,
                        log.push(
                            single(
                                LogLevel::Error,
                                "unknown type, expected 'DFA' | 'NFA' | 'DPDA' | 'NPDA' | 'TM' | 'NTM'"@,
                                Some(value.1),
                            ),
                        ),
                    ),
                },
                _ => (
                    None,
                    log.push(single(LogLevel::Error, expected_ident(value.0), Some(value.1))),
                ),
            }
        } else {
            (None, log.push(type_wanted(span)))
        },
        Some((_, span)) => (None, log.push(type_wanted(span))),
        None => (None, log.push(type_wanted(eof))),
    }
}

/// Compiles declarations into a machine of the kind `kind`.
pub open spec fn dispatch_spec(
    kind: MachineKind,
    elements: Seq<(TopLevelView, Span)>,
    log: Seq<Seq<Note>>,
) -> (Option<MachineView>, Seq<Seq<Note>>) {
    match kind {
        MachineKind::Dfa | MachineKind::Nfa => {
            let (machine, log1) = fa_compile(kind.options(), elements, log);
            (
                match machine {
                    Some(fa) => Some(MachineView::Fa(fa)),
                    None => None,
                },
                log1,
            )
        },
        MachineKind::Dpda | MachineKind::Npda => {
            let (machine, log1) = pda_compile(kind.options(), elements, log);
            (
                match machine {
                    Some(pda) => Some(MachineView::Pda(pda)),
                    None => None,
                },
                log1,
            )
        },
        MachineKind::Tm | MachineKind::Ntm => {
            let (machine, log1) = tm_compile(kind.options(), elements, log);
            (
                match machine {
                    Some(tm) => Some(MachineView::Tm(tm)),
                    None => None,
                },
                log1,
            )
        },
    }
}

/// The tokens of a source text as the parser reads them.
pub open spec fn stream_of(text: Seq<char>) -> Stream {
    Stream {
        tokens: significant(lexemes_from(text, 0)),
        errors: error_slots(lexemes_from(text, 0)),
        eof: Span(utf8_len(text) as usize, utf8_len(text) as usize),
    }
}

/// The declarations of a source text, and the log after lexing and parsing.
pub open spec fn parse_spec(text: Seq<char>, log: Seq<Seq<Note>>) -> (
    Seq<(TopLevelView, Span)>,
    Seq<Seq<Note>>,
) {
    let (elements, p) = elements_spec(stream_of(text), Progress { pos: 0, peeked: false, log });
    (elements, p.log)
}

/// Compiles a source text. The first declaration is parsed and read as the
/// declaration of the type; without a type nothing more is parsed and there
/// is no machine. With it, the declarations behind it are parsed and compiled
/// into a machine of that kind.
pub open spec fn universal_spec(text: Seq<char>, log: Seq<Seq<Note>>) -> (
    Option<MachineView>,
    Seq<Seq<Note>>,
) {
    let s = stream_of(text);
    let (first, p) = element_spec(s, Progress { pos: 0, peeked: false, log });
    let (kind, log1) = type_spec(first, s.eof, p.log);
    match kind {
        Some(kind) => {
            let (elements, q) = elements_spec(s, Progress { log: log1, ..p });
            dispatch_spec(kind, elements, q.log)
        },
        None => (None, log1),
    }
}

/// Success is the absence of errors: a source text compiles into a machine
/// exactly if no error is in the log at the end.
pub proof fn law_machine_iff_no_error(text: Seq<char>, log: Seq<Seq<Note>>)
    ensures
        universal_spec(text, log).0 is Some <==> !has_error(universal_spec(text, log).1),
{
    let s = stream_of(text);
    let (first, p) = element_spec(s, Progress { pos: 0, peeked: false, log });
    let (kind, log1) = type_spec(first, s.eof, p.log);
    if kind is None {
        crate::loader::log::lemma_last_error(log1);
    }
}

/// The kind that `name` names.
fn kind_named(name: &String) -> (r: Option<MachineKind>)
    ensures
        r == kind_of(name@),
{
    if is_word(name, "dfa") || is_word(name, "DFA") {
        Some(MachineKind::Dfa)
    } else if is_word(name, "nfa") || is_word(name, "NFA") {
        Some(MachineKind::Nfa)
    } else if is_word(name, "dpda") || is_word(name, "DPDA") {
        Some(MachineKind::Dpda)
    } else if is_word(name, "npda") || is_word(name, "NPDA") {
        Some(MachineKind::Npda)
    } else if is_word(name, "tm") || is_word(name, "TM") {
        Some(MachineKind::Tm)
    } else if is_word(name, "ntm") || is_word(name, "NTM") {
        Some(MachineKind::Ntm)
    } else {
        None
    }
}

/// Logs that the text does not start with the declaration of its type.
fn emit_type_wanted(ctx: &mut Context, span: Span)
    ensures
        final(ctx).text() == old(ctx).text(),
        final(ctx).log() == old(ctx).log().push(type_wanted(span)),
{
    let entry = LogEntry::error("expected type=<type> as first item", span).emit_help_logless(
        "add: type = ...",
    );
    assert(entry@ =~= type_wanted(span));
    ctx.emit(entry);
}

/// Reads the declaration of the type.
pub fn parse_type(first: Option<Spanned<TopLevel>>, ctx: &mut Context) -> (r: Option<MachineKind>)
    ensures
        final(ctx).text() == old(ctx).text(),
        (r, final(ctx).log()) == type_spec(
            crate::loader::parser::element_view(first),
            Span(utf8_len(old(ctx).text()) as usize, utf8_len(old(ctx).text()) as usize),
            old(ctx).log(),
        ),
{
    match first {
        Some(Spanned(TopLevel::Item(name, value), span)) => {
            if is_word(&name.0, "type") {
                let kind = match value.expect_ident(ctx) {
                    Some(kind) => kind,
                    None => {
                        return None;
                    },
                };
                let found = kind_named(kind);
                if found.is_none() {
                    ctx.emit_error(
                        "unknown type, expected 'DFA' | 'NFA' | 'DPDA' | 'NPDA' | 'TM' | 'NTM'",
                        value.1,
                    );
                }
                found
            } else {
                emit_type_wanted(ctx, span);
                None
            }
        },
        Some(Spanned(_, span)) => {
            emit_type_wanted(ctx, span);
            None
        },
        None => {
            let eof = ctx.eof();
            emit_type_wanted(ctx, eof);
            None
        },
    }
}

/// Compiles declarations into a machine of the kind `kind`.
pub fn compile_kind(kind: MachineKind, items: &Vec<Spanned<TopLevel>>, ctx: &mut Context) -> (r:
    Option<Machine>)
    ensures
        final(ctx).text() == old(ctx).text(),
        (machine_view(r), final(ctx).log()) == dispatch_spec(
            kind,
            elements_view(items@),
            old(ctx).log(),
        ),
{
    let d = Options { non_deterministic: false, epsilon_moves: false };
    let n = Options { non_deterministic: true, epsilon_moves: true };
    match kind {
        MachineKind::Dfa => match Fa::compile(items, ctx, d) {
            Some(fa) => Some(Machine::Fa(fa)),
            None => None,
        },
        MachineKind::Nfa => match Fa::compile(items, ctx, n) {
            Some(fa) => Some(Machine::Fa(fa)),
            None => None,
        },
        MachineKind::Dpda => match Pda::compile(items, ctx, d) {
            Some(pda) => Some(Machine::Pda(pda)),
            None => None,
        },
        MachineKind::Npda => match Pda::compile(items, ctx, n) {
            Some(pda) => Some(Machine::Pda(pda)),
            None => None,
        },
        MachineKind::Tm => match Tm::compile(items, ctx, d) {
            Some(tm) => Some(Machine::Tm(tm)),
            None => None,
        },
        MachineKind::Ntm => match Tm::compile(items, ctx, n) {
            Some(tm) => Some(Machine::Tm(tm)),
            None => None,
        },
    }
}

/// The declarations of the source text of `ctx`; what lexing and parsing
/// find is logged.
pub fn parse_all(ctx: &mut Context) -> (r: Vec<Spanned<TopLevel>>)
    ensures
        final(ctx).text() == old(ctx).text(),
        (elements_view(r@), final(ctx).log()) == parse_spec(old(ctx).text(), old(ctx).log()),
        forall|i: int|
            0 <= i < r@.len() ==> crate::loader::parser::element_wf(
                #[trigger] elements_view(r@)[i],
            ),
{
    let eof = ctx.eof();
    proof {
        crate::loader::parser::law_spans_well_formed(ctx.text(), ctx.log());
    }
    let mut parser = Parser::new(ctx);
    parser.parse_elements(ctx)
}

/// Compiles the source text of `ctx` into the machine that it declares.
/// The type is read first, and without it nothing more is parsed. Every
/// problem is logged in `ctx`, and there is a machine exactly if the log
/// holds no error at the end.
pub fn parse_universal(ctx: &mut Context) -> (r: Option<Machine>)
    ensures
        final(ctx).text() == old(ctx).text(),
        (machine_view(r), final(ctx).log()) == universal_spec(old(ctx).text(), old(ctx).log()),
        r is Some <==> !final(ctx).failed(),
{
    proof {
        law_machine_iff_no_error(ctx.text(), ctx.log());
    }
    let mut parser = Parser::new(ctx);
    let first = parser.next_element(ctx);
    let kind = match parse_type(first, ctx) {
        Some(kind) => kind,
        None => {
            return None;
        },
    };
    let items = parser.parse_elements(ctx);
    compile_kind(kind, &items, ctx)
}

} // verus!
