//! Turing machines: the model and its compiler.

use vstd::prelude::*;
use vstd::string::*;

use crate::automatan::{
    noted,
    emit_with_previous,
    distinct, lemma_finals_distinct, lemma_push_no_duplicates, lemma_section_distinct,
    lemma_designate, lemma_finals, lemma_resolve, lemma_section, lemma_within_covers, within,
    advice, advise1, advise2, define_final_states, define_section, defines, designate,
    designate_spec, emit_unknown_function, emit_unknown_item, finals_spec, first_for, into_states,
    into_symbols, lemma_first_for_prefix, resolve, resolve_spec, section_spec, slot_view,
    states_view, symbols_table, unknown_function, unknown_item, Designated, Names, Options, Section,
    State, StateInfo, Symbol, SymbolInfo, Table,
};
use crate::loader::ast::{
    expected_tuple, items_view, weak_view, Item, ItemView, SymbolView, TopLevel, TopLevelView, Tuple,
};
use crate::loader::log::{
    extends, has_error, lemma_extends_error, lemma_last_error, LogEntry, LogLevel, Note,
};
use crate::loader::parser::elements_view;
use crate::loader::{delta_name, gamma_name, is_delta, is_gamma, single, Context, Span, Spanned};
use crate::text::{is_word, join3};

verus! {

/// Where a transition starts: a state and the symbol that is read.
#[derive(Debug, PartialEq, Eq, Clone, Hash)]
pub struct TransitionFrom {
    pub state: State,
    pub symbol: Symbol,
}

/// Which way the head moves.
#[derive(Debug, PartialEq, Eq, Clone, Copy, Hash, Structural)]
pub enum Direction {
    Left,
    Right,
    /// The head stays where it is.
    Stay,
}

/// Where a transition leads, what it writes and how the head moves; with
/// the span of the target in the source and the span of the arguments of
/// the transition function.
#[derive(Debug, PartialEq, Eq, Clone, Hash)]
pub struct TransitionTo {
    pub state: State,
    pub symbol: Symbol,
    pub direction: Direction,
    pub transition: Span,
    pub function: Span,
}

/// A Turing machine.
#[derive(Clone, Debug, PartialEq, Eq)]
pub struct Tm {
    pub initial_state: State,
    pub blank_symbol: Symbol,
    pub states: Vec<(State, StateInfo)>,
    pub symbols: Vec<(Symbol, SymbolInfo)>,
    pub final_states: Vec<(State, StateInfo)>,
    /// Every transition, in the order of declaration.
    pub transitions: Vec<(TransitionFrom, TransitionTo)>,
}

/// The start of a transition as contracts see it.
pub ghost struct FromView {
    pub state: Seq<char>,
    pub symbol: Seq<char>,
}

/// The target of a transition as contracts see it.
pub ghost struct ToView {
    pub state: Seq<char>,
    pub symbol: Seq<char>,
    pub direction: Direction,
    pub transition: Span,
    pub function: Span,
}

/// A Turing machine as contracts see it.
pub ghost struct TmView {
    pub initial_state: Seq<char>,
    pub blank_symbol: Seq<char>,
    pub states: Table,
    pub symbols: Table,
    pub final_states: Table,
    pub transitions: Seq<(FromView, ToView)>,
}

impl View for TransitionFrom {
    type V = FromView;

    open spec fn view(&self) -> FromView {
        FromView { state: self.state@, symbol: self.symbol@ }
    }
}

impl View for TransitionTo {
    type V = ToView;

    open spec fn view(&self) -> ToView {
        ToView {
            state: self.state@,
            symbol: self.symbol@,
            direction: self.direction,
            transition: self.transition,
            function: self.function,
        }
    }
}

/// Transitions as contracts see them.
pub open spec fn transitions_view(transitions: Seq<(TransitionFrom, TransitionTo)>) -> Seq<
    (FromView, ToView),
> {
    Seq::new(transitions.len(), |i: int| (transitions[i].0@, transitions[i].1@))
}

impl View for Tm {
    type V = TmView;

    open spec fn view(&self) -> TmView {
        TmView {
            initial_state: self.initial_state@,
            blank_symbol: self.blank_symbol@,
            states: states_view(self.states@),
            symbols: symbols_table(self.symbols@),
            final_states: states_view(self.final_states@),
            transitions: transitions_view(self.transitions@),
        }
    }
}

/// What the compiler has gathered so far.
pub ghost struct TmBuild {
    pub options: Options,
    pub initial_state: Option<(Seq<char>, Span)>,
    pub blank_symbol: Option<(Seq<char>, Span)>,
    pub states: Table,
    pub states_def: Option<Span>,
    pub symbols: Table,
    pub symbols_def: Option<Span>,
    pub final_states: Table,
    pub final_states_def: Option<Span>,
    pub transitions: Seq<(FromView, ToView)>,
}

/// The compiler's state before any declaration.
pub open spec fn tm_start(options: Options) -> TmBuild {
    TmBuild {
        options,
        initial_state: None,
        blank_symbol: None,
        states: Seq::empty(),
        states_def: None,
        symbols: Seq::empty(),
        symbols_def: None,
        final_states: Seq::empty(),
        final_states_def: None,
        transitions: Seq::empty(),
    }
}

/// The arguments of a transition function of a Turing machine: a state and
/// a tape symbol.
pub open spec fn tm_args(args: Seq<(ItemView, Span)>) -> Option<
    ((Seq<char>, Span), (Seq<char>, Span)),
> {
    if args.len() == 2 {
        match (args[0].0, args[1].0) {
            (
                ItemView::Symbol(SymbolView::Ident(state)),
                ItemView::Symbol(SymbolView::Ident(symbol)),
            ) => Some(((state, args[0].1), (symbol, args[1].1))),
            _ => None,
        }
    } else {
        None
    }
}

/// The parts of a target: a state, a tape symbol and a direction.
pub open spec fn tm_parts(parts: Seq<(ItemView, Span)>) -> Option<
    ((Seq<char>, Span), (Seq<char>, Span), (SymbolView, Span)),
> {
    if parts.len() == 3 {
        match (parts[0].0, parts[1].0, parts[2].0) {
            (
                ItemView::Symbol(SymbolView::Ident(state)),
                ItemView::Symbol(SymbolView::Ident(symbol)),
                ItemView::Symbol(direction),
            ) => Some(((state, parts[0].1), (symbol, parts[1].1), (direction, parts[2].1))),
            _ => None,
        }
    } else {
        None
    }
}

/// The direction that a symbol names, if it names one: `left`, `L` or `<`;
/// `right`, `R` or `>`; epsilon or `~` for no movement.
pub open spec fn direction_of(symbol: SymbolView) -> Option<Direction> {
    match symbol {
        SymbolView::Epsilon(_) => Some(Direction::Stay),
        SymbolView::Ident(name) => if name == "left"@ || name == "L"@ || name == "<"@ {
            Some(Direction::Left)
        } else if name == "right"@ || name == "R"@ || name == ">"@ {
            Some(Direction::Right)
        } else if name == "~"@ {
            Some(Direction::Stay)
        } else {
            None
        },
    }
}

/// The text of a symbol.
pub open spec fn symbol_text(symbol: SymbolView) -> Seq<char> {
    match symbol {
        SymbolView::Epsilon(text) => text,
        SymbolView::Ident(text) => text,
    }
}

/// Adds one target to the transitions from `key`. The target is a tuple of
/// a declared state, a declared tape symbol and a direction; a direction
/// that is none is an error and stands for no movement. A second target from
/// the same start is an error unless the machine may be non-deterministic;
/// a target that was declared before at the same place is only a warning
/// and changes nothing.
pub open spec fn tm_target(
    b: TmBuild,
    transitions: Seq<(FromView, ToView)>,
    log: Seq<Seq<Note>>,
    key: FromView,
    function: Span,
    item: (ItemView, Span),
) -> (Seq<(FromView, ToView)>, Seq<Seq<Note>>) {
    match item.0 {
        ItemView::Tuple(parts) => match tm_parts(parts) {
            None => (
                transitions,
                log.push(
                    single(
                        LogLevel::Error,
                        "expected TM transition function (state, symbol, direction)"@,
                        Some(item.1),
                    ),
                ),
            ),
            Some((next, write, direction)) => {
                let (direction1, log1) = match direction_of(direction.0) {
                    Some(found) => (found, log),
                    None => (
                        Direction::Stay,
                        log.push(
                            single(
                                LogLevel::Error,
                                "invalid direction specified '"@ + symbol_text(direction.0) + "'"@,
                                Some(direction.1),
                            ),
                        ),
                    ),
                };
                if !defines(b.states, next.0) {
                    (
                        transitions,
                        log1.push(
                            single(
                                LogLevel::Error,
                                "transition state not defined as state"@,
                                Some(next.1),
                            ),
                        ),
                    )
                } else if !defines(b.symbols, write.0) {
                    (
                        transitions,
                        log1.push(
                            single(
                                LogLevel::Error,
                                "transition tape symbol not defined as tape symbol"@,
                                Some(write.1),
                            ),
                        ),
                    )
                } else {
                    let to = ToView {
                        state: next.0,
                        symbol: write.0,
                        direction: direction1,
                        transition: item.1,
                        function,
                    };
                    let log2 = match first_for(transitions, key) {
                        Some(previous) => if !b.options.non_deterministic {
                            log1.push(
                                noted(
                                    LogLevel::Error,
                                    "transition already defined for this starting point (non determinism not permitted)"@,
                                    Some(item.1),
                                    LogLevel::Info,
                                    "previously defined here"@,
                                    Some(previous.transition),
                                ),
                            )
                        } else {
                            log1
                        },
                        None => log1,
                    };
                    if transitions.contains((key, to)) {
                        (
                            transitions,
                            log2.push(
                                single(LogLevel::Warning, "duplicate transition"@, Some(item.1)),
                            ),
                        )
                    } else {
                        (transitions.push((key, to)), log2)
                    }
                }
            },
        },
        _ => (transitions, log.push(single(LogLevel::Error, expected_tuple(item.0), Some(item.1)))),
    }
}

/// Adds the first `n` targets, in order.
pub open spec fn tm_targets(
    b: TmBuild,
    log: Seq<Seq<Note>>,
    key: FromView,
    function: Span,
    items: Seq<(ItemView, Span)>,
    n: int,
) -> (Seq<(FromView, ToView)>, Seq<Seq<Note>>)
    decreases n,
{
    if n <= 0 {
        (b.transitions, log)
    } else {
        let (transitions, log1) = tm_targets(b, log, key, function, items, n - 1);
        tm_target(b, transitions, log1, key, function, items[n - 1])
    }
}

/// Compiles one transition function declaration: `args` in the parentheses
/// at `args_span`, and `value`, one target or a set of them.
pub open spec fn tm_transition(
    b: TmBuild,
    log: Seq<Seq<Note>>,
    args: Seq<(ItemView, Span)>,
    args_span: Span,
    value: (ItemView, Span),
) -> (TmBuild, Seq<Seq<Note>>) {
    match tm_args(args) {
        None => (
            b,
            log.push(
                single(
                    LogLevel::Error,
                    "expected TM transition function (state, symbol)"@,
                    Some(args_span),
                ),
            ),
        ),
        Some((state, symbol)) => if !defines(b.states, state.0) {
            (
                b,
                log.push(
                    single(LogLevel::Error, "transition state not defined as state"@, Some(state.1)),
                ),
            )
        } else if !defines(b.symbols, symbol.0) {
            (
                b,
                log.push(
                    single(
                        LogLevel::Error,
                        "transition tape symbol not defined as tape symbol"@,
                        Some(symbol.1),
                    ),
                ),
            )
        } else {
            let key = FromView { state: state.0, symbol: symbol.0 };
            let targets = weak_view(value);
            let (transitions, log1) = tm_targets(b, log, key, args_span, targets, targets.len() as int);
            (TmBuild { transitions, ..b }, log1)
        },
    }
}

/// Compiles one declaration of an item.
pub open spec fn tm_item(
    b: TmBuild,
    log: Seq<Seq<Note>>,
    name: Seq<char>,
    name_span: Span,
    value: (ItemView, Span),
    span: Span,
) -> (TmBuild, Seq<Seq<Note>>) {
    if name == "Q"@ {
        let (states, states_def, log1) = section_spec(
            Section::States,
            b.states,
            b.states_def,
            log,
            value,
            span,
        );
        (TmBuild { states, states_def, ..b }, log1)
    } else if is_gamma(name) {
        let (symbols, symbols_def, log1) = section_spec(
            Section::TapeSymbols,
            b.symbols,
            b.symbols_def,
            log,
            value,
            span,
        );
        (TmBuild { symbols, symbols_def, ..b }, log1)
    } else if name == "F"@ {
        let (final_states, final_states_def, log1) = finals_spec(
            b.states,
            b.final_states,
            b.final_states_def,
            log,
            value,
            span,
        );
        (TmBuild { final_states, final_states_def, ..b }, log1)
    } else if name == "q0"@ {
        let (initial_state, log1) = designate_spec(
            Designated::InitialState,
            b.states,
            b.initial_state,
            log,
            value,
            span,
        );
        (TmBuild { initial_state, ..b }, log1)
    } else if name == "B"@ {
        let (blank_symbol, log1) = designate_spec(
            Designated::BlankSymbol,
            b.symbols,
            b.blank_symbol,
            log,
            value,
            span,
        );
        (TmBuild { blank_symbol, ..b }, log1)
    } else {
        (
            b,
            log.push(
                single(
                    LogLevel::Error,
                    unknown_item(
                        name,
                        "states, symbols, final states, initial state, blank symbol"@,
                    ),
                    Some(name_span),
                ),
            ),
        )
    }
}

/// Compiles one declaration.
pub open spec fn tm_top_level(b: TmBuild, log: Seq<Seq<Note>>, element: (TopLevelView, Span)) -> (
    TmBuild,
    Seq<Seq<Note>>,
) {
    match element.0 {
        TopLevelView::Item { name, name_span, value } => tm_item(
            b,
            log,
            name,
            name_span,
            value,
            element.1,
        ),
        TopLevelView::TransitionFunc { name, name_span, args, args_span, head_span, value } => {
            if is_delta(name) {
                tm_transition(b, log, args, args_span, value)
            } else {
                (b, log.push(single(LogLevel::Error, unknown_function(name), Some(head_span))))
            }
        },
        TopLevelView::ProductionRule { .. } => (
            b,
            log.push(single(LogLevel::Error, "unexpected production rule"@, Some(element.1))),
        ),
        TopLevelView::Table => (
            b,
            log.push(single(LogLevel::Error, "unexpected table"@, Some(element.1))),
        ),
    }
}

/// Compiles the first `n` declarations, in order.
pub open spec fn tm_all(
    b: TmBuild,
    log: Seq<Seq<Note>>,
    elements: Seq<(TopLevelView, Span)>,
    n: int,
) -> (TmBuild, Seq<Seq<Note>>)
    decreases n,
{
    if n <= 0 {
        (b, log)
    } else {
        let (b1, log1) = tm_all(b, log, elements, n - 1);
        tm_top_level(b1, log1, elements[n - 1])
    }
}

/// The log after the sections that were never declared are reported.
pub open spec fn tm_missing(b: TmBuild, log: Seq<Seq<Note>>) -> Seq<Seq<Note>> {
    let log1 = if b.states_def is None {
        log.push(
            advice(LogLevel::Error, "states never defined"@, seq![(LogLevel::Help, "add: Q = {...}"@)]),
        )
    } else {
        log
    };
    let log2 = if b.symbols_def is None {
        log1.push(
            advice(
                LogLevel::Error,
                "tape symbols never defined"@,
                seq![
                    (LogLevel::Help, "add: G = {...}"@),
                    (
                        LogLevel::Info,
                        "G can be 'T' | 'G' | 'gamma' | 'Γ' | 'Ⲅ' | '𝚪' | '𝛤' | '𝜞' | '𝝘' | '𝞒'"@,
                    ),
                ],
            ),
        )
    } else {
        log1
    };
    if b.final_states_def is None {
        log2.push(
            advice(
                LogLevel::Error,
                "final states never defined"@,
                seq![(LogLevel::Help, "add: F = {...}"@)],
            ),
        )
    } else {
        log2
    }
}

/// The entry that warns of a machine without transitions.
pub open spec fn tm_no_transitions() -> Seq<Note> {
    advice(
        LogLevel::Warning,
        "no transitions defined"@,
        seq![
            (
                LogLevel::Help,
                "consider defining one: d(state, symbol) = (state, symbol, direction) | {(state, symbol, direction), ...}"@,
            ),
            (
                LogLevel::Info,
                "d can be 'delta' | 'D' | 'd' | 'ẟ' | 'δ' | '𝛅' | '𝛿' | '𝜹' | '𝝳' | '𝞭'"@,
            ),
        ],
    )
}

/// Ends the compilation: reports what is missing, settles the initial state
/// and the blank symbol and gives the machine if the log holds no error.
pub open spec fn tm_finish(b: TmBuild, log: Seq<Seq<Note>>) -> (Option<TmView>, Seq<Seq<Note>>) {
    let log1 = tm_missing(b, log);
    let (initial_state, log2) = resolve_spec(
        Designated::InitialState,
        b.states,
        b.initial_state,
        log1,
    );
    let (blank_symbol, log3) = resolve_spec(
        Designated::BlankSymbol,
        b.symbols,
        b.blank_symbol,
        log2,
    );
    let log4 = if b.transitions.len() == 0 {
        log3.push(tm_no_transitions())
    } else {
        log3
    };
    if has_error(log4) {
        (None, log4)
    } else {
        (
            Some(
                TmView {
                    initial_state,
                    blank_symbol,
                    states: b.states,
                    symbols: b.symbols,
                    final_states: b.final_states,
                    transitions: b.transitions,
                },
            ),
            log4,
        )
    }
}

/// Compiles declarations into a Turing machine: the machine, if the log
/// holds no error at the end, and the log.
pub open spec fn tm_compile(options: Options, elements: Seq<(TopLevelView, Span)>, log: Seq<Seq<Note>>) -> (
    Option<TmView>,
    Seq<Seq<Note>>,
) {
    let (b, log1) = tm_all(tm_start(options), log, elements, elements.len() as int);
    tm_finish(b, log1)
}

/// A machine as contracts see it, if there is one.
pub open spec fn tm_view(tm: Option<Tm>) -> Option<TmView> {
    match tm {
        Some(tm) => Some(tm@),
        None => None,
    }
}

impl Tm {
    /// Compiles declarations into a Turing machine. Every problem is logged
    /// in `ctx`; there is a machine exactly if the log holds no error at the
    /// end.
    pub fn compile(items: &Vec<Spanned<TopLevel>>, ctx: &mut Context, options: Options) -> (r: Option<
        Tm,
    >)
        ensures
            final(ctx).text() == old(ctx).text(),
            (tm_view(r), final(ctx).log()) == tm_compile(
                options,
                elements_view(items@),
                old(ctx).log(),
            ),
            r is Some <==> !final(ctx).failed(),
            r matches Some(tm) ==> {
                &&& tm_closed(tm@)
                &&& tm_sets(tm@)
                &&& !options.non_deterministic ==> single_valued(tm@.transitions)
            },
    {
        proof {
            law_tm_closed(options, elements_view(items@), ctx.log());
            law_tm_sets(options, elements_view(items@), ctx.log());
            law_tm_within_options(options, elements_view(items@), ctx.log());
        }
        TmCompiler::new(options).compile(items, ctx)
    }
}

/// The compiler of Turing machines: what it has gathered so far.
pub struct TmCompiler {
    options: Options,
    initial_state: Option<(String, Span)>,
    blank_symbol: Option<(String, Span)>,
    states: Names,
    states_def: Option<Span>,
    symbols: Names,
    symbols_def: Option<Span>,
    final_states: Names,
    final_states_def: Option<Span>,
    transitions: Vec<(TransitionFrom, TransitionTo)>,
}

impl View for TmCompiler {
    type V = TmBuild;

    closed spec fn view(&self) -> TmBuild {
        TmBuild {
            options: self.options,
            initial_state: slot_view(self.initial_state),
            blank_symbol: slot_view(self.blank_symbol),
            states: self.states@,
            states_def: self.states_def,
            symbols: self.symbols@,
            symbols_def: self.symbols_def,
            final_states: self.final_states@,
            final_states_def: self.final_states_def,
            transitions: transitions_view(self.transitions@),
        }
    }
}

impl TmCompiler {
    /// A compiler that has seen no declaration.
    pub fn new(options: Options) -> (r: Self)
        ensures
            r@ == tm_start(options),
    {
        let r = Self {
            options,
            initial_state: None,
            blank_symbol: None,
            states: Names::new(),
            states_def: None,
            symbols: Names::new(),
            symbols_def: None,
            final_states: Names::new(),
            final_states_def: None,
            transitions: Vec::new(),
        };
        assert(transitions_view(r.transitions@) =~= Seq::empty());
        r
    }

    /// Compiles the declarations and ends the compilation.
    pub fn compile(self, items: &Vec<Spanned<TopLevel>>, ctx: &mut Context) -> (r: Option<Tm>)
        ensures
            final(ctx).text() == old(ctx).text(),
            (tm_view(r), final(ctx).log()) == tm_finish(
                tm_all(self@, old(ctx).log(), elements_view(items@), items@.len() as int).0,
                tm_all(self@, old(ctx).log(), elements_view(items@), items@.len() as int).1,
            ),
    {
        let ghost start = self@;
        let ghost log0 = ctx.log();
        let ghost elements = elements_view(items@);
        let mut compiler = self;
        let mut i: usize = 0;
        while i < items.len()
            invariant
                0 <= i <= items.len(),
                elements == elements_view(items@),
                ctx.text() == old(ctx).text(),
                (compiler@, ctx.log()) == tm_all(start, log0, elements, i as int),
            decreases items.len() - i,
        {
            compiler.compile_top_level(ctx, &items[i].0, items[i].1);
            i += 1;
        }
        compiler.finish(ctx)
    }

    /// Ends the compilation.
    fn finish(self, ctx: &mut Context) -> (r: Option<Tm>)
        ensures
            final(ctx).text() == old(ctx).text(),
            (tm_view(r), final(ctx).log()) == tm_finish(self@, old(ctx).log()),
    {
        if self.states_def.is_none() {
            advise1(ctx, LogLevel::Error, "states never defined", LogLevel::Help, "add: Q = {...}");
        }
        if self.symbols_def.is_none() {
            advise2(
                ctx,
                LogLevel::Error,
                "tape symbols never defined",
                LogLevel::Help,
                "add: G = {...}",
                LogLevel::Info,
                "G can be 'T' | 'G' | 'gamma' | 'Γ' | 'Ⲅ' | '𝚪' | '𝛤' | '𝜞' | '𝝘' | '𝞒'",
            );
        }
        if self.final_states_def.is_none() {
            advise1(
                ctx,
                LogLevel::Error,
                "final states never defined",
                LogLevel::Help,
                "add: F = {...}",
            );
        }
        let TmCompiler { initial_state, blank_symbol, states, symbols, final_states, transitions, .. } =
            self;
        let initial = resolve(Designated::InitialState, &states, initial_state, ctx);
        let blank = resolve(Designated::BlankSymbol, &symbols, blank_symbol, ctx);
        if transitions.len() == 0 {
            advise2(
                ctx,
                LogLevel::Warning,
                "no transitions defined",
                LogLevel::Help,
                "consider defining one: d(state, symbol) = (state, symbol, direction) | {(state, symbol, direction), ...}",
                LogLevel::Info,
                "d can be 'delta' | 'D' | 'd' | 'ẟ' | 'δ' | '𝛅' | '𝛿' | '𝜹' | '𝝳' | '𝞭'",
            );
        }
        if ctx.contains_errors() {
            return None;
        }
        Some(
            Tm {
                initial_state: State(initial),
                blank_symbol: Symbol(blank),
                states: into_states(&states),
                symbols: into_symbols(&symbols),
                final_states: into_states(&final_states),
                transitions,
            },
        )
    }

    /// Compiles one declaration.
    pub fn compile_top_level(&mut self, ctx: &mut Context, element: &TopLevel, span: Span)
        ensures
            final(ctx).text() == old(ctx).text(),
            (final(self)@, final(ctx).log()) == tm_top_level(
                old(self)@,
                old(ctx).log(),
                (element@, span),
            ),
    {
        match element {
            TopLevel::Item(name, value) => {
                self.compile_item(ctx, name, value, span);
            },
            TopLevel::TransitionFunc(head, value) => {
                if delta_name(&head.0.0.0) {
                    self.compile_transition_function(ctx, &head.0.1, value);
                } else {
                    emit_unknown_function(ctx, &head.0.0.0, head.1);
                }
            },
            TopLevel::ProductionRule(_, _) => {
                ctx.emit_error("unexpected production rule", span);
            },
            TopLevel::Table() => {
                ctx.emit_error("unexpected table", span);
            },
        }
    }

    /// Compiles one declaration of an item.
    pub fn compile_item(
        &mut self,
        ctx: &mut Context,
        name: &Spanned<String>,
        value: &Spanned<Item>,
        span: Span,
    )
        ensures
            final(ctx).text() == old(ctx).text(),
            (final(self)@, final(ctx).log()) == tm_item(
                old(self)@,
                old(ctx).log(),
                name.0@,
                name.1,
                value.spanned_view(),
                span,
            ),
    {
        if is_word(&name.0, "Q") {
            self.compile_states(ctx, value, span);
        } else if gamma_name(&name.0) {
            self.compile_symbols(ctx, value, span);
        } else if is_word(&name.0, "F") {
            self.compile_final_states(ctx, value, span);
        } else if is_word(&name.0, "q0") {
            self.compile_initial_state(ctx, value, span);
        } else if is_word(&name.0, "B") {
            self.compile_blank_symbol(ctx, value, span);
        } else {
            emit_unknown_item(
                ctx,
                &name.0,
                "states, symbols, final states, initial state, blank symbol",
                name.1,
            );
        }
    }

    /// Compiles the declaration of the states.
    pub fn compile_states(&mut self, ctx: &mut Context, list: &Spanned<Item>, top_level: Span)
        ensures
            final(ctx).text() == old(ctx).text(),
            (final(self)@.states, final(self)@.states_def, final(ctx).log()) == section_spec(
                Section::States,
                old(self)@.states,
                old(self)@.states_def,
                old(ctx).log(),
                list.spanned_view(),
                top_level,
            ),
            final(self)@ == (TmBuild {
                states: final(self)@.states,
                states_def: final(self)@.states_def,
                ..old(self)@
            }),
    {
        define_section(Section::States, &mut self.states, &mut self.states_def, ctx, list, top_level);
    }

    /// Compiles the declaration of the tape symbols.
    pub fn compile_symbols(&mut self, ctx: &mut Context, list: &Spanned<Item>, top_level: Span)
        ensures
            final(ctx).text() == old(ctx).text(),
            (final(self)@.symbols, final(self)@.symbols_def, final(ctx).log()) == section_spec(
                Section::TapeSymbols,
                old(self)@.symbols,
                old(self)@.symbols_def,
                old(ctx).log(),
                list.spanned_view(),
                top_level,
            ),
            final(self)@ == (TmBuild {
                symbols: final(self)@.symbols,
                symbols_def: final(self)@.symbols_def,
                ..old(self)@
            }),
    {
        define_section(
            Section::TapeSymbols,
            &mut self.symbols,
            &mut self.symbols_def,
            ctx,
            list,
            top_level,
        );
    }

    /// Compiles the declaration of the final states.
    pub fn compile_final_states(&mut self, ctx: &mut Context, list: &Spanned<Item>, top_level: Span)
        ensures
            final(ctx).text() == old(ctx).text(),
            (final(self)@.final_states, final(self)@.final_states_def, final(ctx).log())
                == finals_spec(
                old(self)@.states,
                old(self)@.final_states,
                old(self)@.final_states_def,
                old(ctx).log(),
                list.spanned_view(),
                top_level,
            ),
            final(self)@ == (TmBuild {
                final_states: final(self)@.final_states,
                final_states_def: final(self)@.final_states_def,
                ..old(self)@
            }),
    {
        define_final_states(
            &self.states,
            &mut self.final_states,
            &mut self.final_states_def,
            ctx,
            list,
            top_level,
        );
    }

    /// Compiles the declaration of the initial state.
    pub fn compile_initial_state(&mut self, ctx: &mut Context, item: &Spanned<Item>, top_level: Span)
        ensures
            final(ctx).text() == old(ctx).text(),
            (final(self)@.initial_state, final(ctx).log()) == designate_spec(
                Designated::InitialState,
                old(self)@.states,
                old(self)@.initial_state,
                old(ctx).log(),
                item.spanned_view(),
                top_level,
            ),
            final(self)@ == (TmBuild { initial_state: final(self)@.initial_state, ..old(self)@ }),
    {
        designate(
            Designated::InitialState,
            &self.states,
            &mut self.initial_state,
            ctx,
            item,
            top_level,
        );
    }

    /// Compiles the declaration of the blank symbol.
    pub fn compile_blank_symbol(&mut self, ctx: &mut Context, item: &Spanned<Item>, top_level: Span)
        ensures
            final(ctx).text() == old(ctx).text(),
            (final(self)@.blank_symbol, final(ctx).log()) == designate_spec(
                Designated::BlankSymbol,
                old(self)@.symbols,
                old(self)@.blank_symbol,
                old(ctx).log(),
                item.spanned_view(),
                top_level,
            ),
            final(self)@ == (TmBuild { blank_symbol: final(self)@.blank_symbol, ..old(self)@ }),
    {
        designate(
            Designated::BlankSymbol,
            &self.symbols,
            &mut self.blank_symbol,
            ctx,
            item,
            top_level,
        );
    }

    /// Where the first target from `key` was declared, if there is one.
    fn first_target(&self, key: &TransitionFrom) -> (r: Option<Span>)
        ensures
            match first_for(self@.transitions, key@) {
                Some(previous) => r == Some(previous.transition),
                None => r is None,
            },
    {
        let ghost all = transitions_view(self.transitions@);
        let mut i: usize = 0;
        proof {
            assert(all.take(0) =~= Seq::empty());
        }
        while i < self.transitions.len()
            invariant
                0 <= i <= self.transitions.len(),
                all == transitions_view(self.transitions@),
                first_for(all.take(i as int), key@) is None,
            decreases self.transitions.len() - i,
        {
            proof {
                assert(all.take(i + 1).drop_last() =~= all.take(i as int));
                lemma_first_for_prefix(all, i + 1, key@);
            }
            if same_from(&self.transitions[i].0, key) {
                return Some(self.transitions[i].1.transition);
            }
            i += 1;
        }
        proof {
            assert(all.take(i as int) =~= all);
        }
        None
    }

    /// Whether the transition from `key` to `to` was declared.
    fn has_transition(&self, key: &TransitionFrom, to: &TransitionTo) -> (b: bool)
        ensures
            b == self@.transitions.contains((key@, to@)),
    {
        let ghost all = transitions_view(self.transitions@);
        let mut i: usize = 0;
        while i < self.transitions.len()
            invariant
                0 <= i <= self.transitions.len(),
                all == transitions_view(self.transitions@),
                forall|j: int| 0 <= j < i ==> all[j] != (key@, to@),
            decreases self.transitions.len() - i,
        {
            if same_from(&self.transitions[i].0, key) && same_to(&self.transitions[i].1, to) {
                assert(all[i as int] == (key@, to@));
                return true;
            }
            i += 1;
        }
        false
    }

    /// Adds one target to the transitions from `key`.
    pub fn compile_target(
        &mut self,
        ctx: &mut Context,
        key: &TransitionFrom,
        function: Span,
        item: &Spanned<Item>,
    )
        ensures
            final(ctx).text() == old(ctx).text(),
            (final(self)@.transitions, final(ctx).log()) == tm_target(
                old(self)@,
                old(self)@.transitions,
                old(ctx).log(),
                key@,
                function,
                item.spanned_view(),
            ),
            final(self)@ == (TmBuild { transitions: final(self)@.transitions, ..old(self)@ }),
    {
        let tuple = match item.expect_tuple(ctx) {
            Some(tuple) => tuple,
            None => {
                return ;
            },
        };
        let (to_state, to_tape, direction) = match tuple.expect_tm_transition(ctx) {
            Some(found) => found,
            None => {
                return ;
            },
        };
        if !self.states.contains(to_state.0) {
            ctx.emit_error("transition state not defined as state", to_state.1);
            return ;
        }
        if !self.symbols.contains(to_tape.0) {
            ctx.emit_error("transition tape symbol not defined as tape symbol", to_tape.1);
            return ;
        }
        if !self.options.non_deterministic {
            if let Some(previous) = self.first_target(key) {
                emit_with_previous(
                    ctx,
                    "transition already defined for this starting point (non determinism not permitted)",
                    item.1,
                    LogLevel::Info,
                    previous,
                );
            }
        }
        let to = TransitionTo {
            state: State(to_state.0.clone()),
            symbol: Symbol(to_tape.0.clone()),
            direction: direction.0,
            transition: item.1,
            function,
        };
        if self.has_transition(key, &to) {
            ctx.emit_warning("duplicate transition", item.1);
        } else {
            let ghost before = transitions_view(self.transitions@);
            self.transitions.push((key.duplicate(), to));
            assert(transitions_view(self.transitions@) =~= before.push((key@, to@)));
        }
    }

    /// Compiles one transition function declaration.
    pub fn compile_transition_function(
        &mut self,
        ctx: &mut Context,
        args: &Spanned<Tuple>,
        list: &Spanned<Item>,
    )
        ensures
            final(ctx).text() == old(ctx).text(),
            (final(self)@, final(ctx).log()) == tm_transition(
                old(self)@,
                old(ctx).log(),
                items_view(args.0.0@),
                args.1,
                list.spanned_view(),
            ),
    {
        let targets = list.set_weak();
        let (from_state, from_tape) = match args.as_ref().expect_tm_transition_function(ctx) {
            Some(found) => found,
            None => {
                return ;
            },
        };
        if !self.states.contains(from_state.0) {
            ctx.emit_error("transition state not defined as state", from_state.1);
            return ;
        }
        if !self.symbols.contains(from_tape.0) {
            ctx.emit_error("transition tape symbol not defined as tape symbol", from_tape.1);
            return ;
        }
        let key = TransitionFrom {
            state: State(from_state.0.clone()),
            symbol: Symbol(from_tape.0.clone()),
        };
        let ghost start = self@;
        let ghost log1 = ctx.log();
        let ghost views = items_view(targets@);
        let mut i: usize = 0;
        while i < targets.len()
            invariant
                0 <= i <= targets.len(),
                views == items_view(targets@),
                ctx.text() == old(ctx).text(),
                (self@.transitions, ctx.log()) == tm_targets(start, log1, key@, args.1, views, i as int),
                self@ == (TmBuild { transitions: self@.transitions, ..start }),
            decreases targets.len() - i,
        {
            assert(views[i as int] == targets[i as int].spanned_view());
            self.compile_target(ctx, &key, args.1, &targets[i]);
            i += 1;
        }
    }
}

impl TransitionFrom {
    /// A copy of the start of a transition.
    pub fn duplicate(&self) -> (r: TransitionFrom)
        ensures
            r@ == self@,
    {
        TransitionFrom { state: State(self.state.0.clone()), symbol: Symbol(self.symbol.0.clone()) }
    }
}

/// Whether two transitions start at the same state with the same symbol.
fn same_from(a: &TransitionFrom, b: &TransitionFrom) -> (r: bool)
    ensures
        r == (a@ == b@),
{
    a.state.0 == b.state.0 && a.symbol.0 == b.symbol.0
}

/// Whether two targets are the same state, symbol and direction, declared
/// at the same place.
fn same_to(a: &TransitionTo, b: &TransitionTo) -> (r: bool)
    ensures
        r == (a@ == b@),
{
    a.state.0 == b.state.0 && a.symbol.0 == b.symbol.0 && a.direction == b.direction
        && a.transition == b.transition && a.function == b.function
}

/// The direction that a symbol names; a symbol that names none is logged
/// as an error at `span` and stands for no movement.
fn expect_direction(symbol: &crate::loader::ast::Symbol, span: Span, ctx: &mut Context) -> (r:
    Direction)
    ensures
        final(ctx).text() == old(ctx).text(),
        match direction_of(symbol@) {
            Some(found) => r == found && final(ctx).log() == old(ctx).log(),
            None => r == Direction::Stay && final(ctx).log() == old(ctx).log().push(
                single(
                    LogLevel::Error,
                    "invalid direction specified '"@ + symbol_text(symbol@) + "'"@,
                    Some(span),
                ),
            ),
        },
{
    match symbol {
        crate::loader::ast::Symbol::Epsilon(_) => Direction::Stay,
        crate::loader::ast::Symbol::Ident(name) => {
            if is_word(name, "left") || is_word(name, "L") || is_word(name, "<") {
                Direction::Left
            } else if is_word(name, "right") || is_word(name, "R") || is_word(name, ">") {
                Direction::Right
            } else if is_word(name, "~") {
                Direction::Stay
            } else {
                let message = join3("invalid direction specified '", name.as_str(), "'");
                ctx.emit(LogEntry::new(LogLevel::Error, message, Some(span)));
                Direction::Stay
            }
        },
    }
}

impl<'a> Spanned<&'a Tuple> {
    /// The state and the tape symbol of the arguments of a transition
    /// function; else an error is logged at the span of the arguments.
    pub fn expect_tm_transition_function(&self, ctx: &mut Context) -> (r: Option<
        (Spanned<&'a String>, Spanned<&'a String>),
    >)
        ensures
            final(ctx).text() == old(ctx).text(),
            match tm_args(items_view(self.0.0@)) {
                Some((state, symbol)) => r matches Some(found) && found.0.0@ == state.0
                    && found.0.1 == state.1 && found.1.0@ == symbol.0 && found.1.1 == symbol.1
                    && final(ctx).log() == old(ctx).log(),
                None => r is None && final(ctx).log() == old(ctx).log().push(
                    single(
                        LogLevel::Error,
                        "expected TM transition function (state, symbol)"@,
                        Some(self.1),
                    ),
                ),
            },
    {
        let items = &self.0.0;
        if items.len() == 2 {
            assert(items_view(items@)[0] == items@[0].spanned_view());
            assert(items_view(items@)[1] == items@[1].spanned_view());
            match (&items[0].0, &items[1].0) {
                (
                    Item::Symbol(crate::loader::ast::Symbol::Ident(state)),
                    Item::Symbol(crate::loader::ast::Symbol::Ident(tape)),
                ) => {
                    return Some((Spanned(state, items[0].1), Spanned(tape, items[1].1)));
                },
                _ => {},
            }
        }
        ctx.emit_error("expected TM transition function (state, symbol)", self.1);
        None
    }

    /// The state, the tape symbol and the direction of a target; else an
    /// error is logged at the span of the target.
    pub fn expect_tm_transition(&self, ctx: &mut Context) -> (r: Option<
        (Spanned<&'a String>, Spanned<&'a String>, Spanned<Direction>),
    >)
        ensures
            final(ctx).text() == old(ctx).text(),
            match tm_parts(items_view(self.0.0@)) {
                Some((state, symbol, direction)) => r matches Some(found) && found.0.0@ == state.0
                    && found.0.1 == state.1 && found.1.0@ == symbol.0 && found.1.1 == symbol.1
                    && found.2.1 == direction.1 && match direction_of(direction.0) {
                    Some(way) => found.2.0 == way && final(ctx).log() == old(ctx).log(),
                    None => found.2.0 == Direction::Stay && final(ctx).log() == old(
                        ctx,
                    ).log().push(
                        single(
                            LogLevel::Error,
                            "invalid direction specified '"@ + symbol_text(direction.0) + "'"@,
                            Some(direction.1),
                        ),
                    ),
                },
                None => r is None && final(ctx).log() == old(ctx).log().push(
                    single(
                        LogLevel::Error,
                        "expected TM transition function (state, symbol, direction)"@,
                        Some(self.1),
                    ),
                ),
            },
    {
        let items = &self.0.0;
        if items.len() == 3 {
            assert(items_view(items@)[0] == items@[0].spanned_view());
            assert(items_view(items@)[1] == items@[1].spanned_view());
            assert(items_view(items@)[2] == items@[2].spanned_view());
            match (&items[0].0, &items[1].0, &items[2].0) {
                (
                    Item::Symbol(crate::loader::ast::Symbol::Ident(state)),
                    Item::Symbol(crate::loader::ast::Symbol::Ident(tape)),
                    Item::Symbol(direction),
                ) => {
                    let way = expect_direction(direction, items[2].1, ctx);
                    return Some(
                        (
                            Spanned(state, items[0].1),
                            Spanned(tape, items[1].1),
                            Spanned(way, items[2].1),
                        ),
                    );
                },
                _ => {},
            }
        }
        ctx.emit_error("expected TM transition function (state, symbol, direction)", self.1);
        None
    }
}


/// Whether every transition starts and ends at a state of `states`, and
/// reads and writes a symbol of `symbols`.
pub open spec fn names_known(states: Table, symbols: Table, transitions: Seq<(FromView, ToView)>) -> bool {
    forall|i: int|
        0 <= i < transitions.len() ==> {
            &&& defines(states, (#[trigger] transitions[i]).0.state)
            &&& defines(states, transitions[i].1.state)
            &&& defines(symbols, transitions[i].0.symbol)
            &&& defines(symbols, transitions[i].1.symbol)
        }
}

/// Whether a machine refers to declared names only: every transition starts
/// and ends at a declared state and reads and writes a declared tape symbol;
/// the initial state and the final states are declared states, and the blank
/// symbol is a declared tape symbol.
pub open spec fn tm_closed(m: TmView) -> bool {
    &&& names_known(m.states, m.symbols, m.transitions)
    &&& within(m.final_states, m.states)
    &&& defines(m.states, m.initial_state)
    &&& defines(m.symbols, m.blank_symbol)
}

/// What holds of the compiler's state after every declaration.
pub open spec fn tm_sound(b: TmBuild) -> bool {
    &&& names_known(b.states, b.symbols, b.transitions)
    &&& within(b.final_states, b.states)
    &&& b.initial_state matches Some((name, _)) ==> defines(b.states, name)
    &&& b.blank_symbol matches Some((name, _)) ==> defines(b.symbols, name)
}

proof fn lemma_tm_targets(
    b: TmBuild,
    log: Seq<Seq<Note>>,
    key: FromView,
    function: Span,
    items: Seq<(ItemView, Span)>,
    n: int,
)
    requires
        defines(b.states, key.state),
        defines(b.symbols, key.symbol),
        names_known(b.states, b.symbols, b.transitions),
    ensures
        extends(tm_targets(b, log, key, function, items, n).1, log),
        names_known(b.states, b.symbols, tm_targets(b, log, key, function, items, n).0),
    decreases n,
{
    if n > 0 {
        lemma_tm_targets(b, log, key, function, items, n - 1);
    }
}

proof fn lemma_tm_top_level(b: TmBuild, log: Seq<Seq<Note>>, element: (TopLevelView, Span))
    requires
        tm_sound(b),
    ensures
        extends(tm_top_level(b, log, element).1, log),
        tm_sound(tm_top_level(b, log, element).0),
{
    let (b1, log1) = tm_top_level(b, log, element);
    match element.0 {
        TopLevelView::Item { name, name_span, value } => {
            if name == "Q"@ {
                lemma_section(Section::States, b.states, b.states_def, log, value, element.1);
                lemma_within_covers(b.final_states, b.states, b1.states);
            } else if is_gamma(name) {
                lemma_section(Section::TapeSymbols, b.symbols, b.symbols_def, log, value, element.1);
            } else if name == "F"@ {
                lemma_finals(
                    b.states,
                    b.final_states,
                    b.final_states_def,
                    log,
                    value,
                    element.1,
                );
            } else if name == "q0"@ {
                lemma_designate(
                    Designated::InitialState,
                    b.states,
                    b.initial_state,
                    log,
                    value,
                    element.1,
                );
            } else if name == "B"@ {
                lemma_designate(
                    Designated::BlankSymbol,
                    b.symbols,
                    b.blank_symbol,
                    log,
                    value,
                    element.1,
                );
            } else {
            }
        },
        TopLevelView::TransitionFunc { name, name_span, args, args_span, head_span, value } => {
            if is_delta(name) {
                match tm_args(args) {
                    Some((state, symbol)) => {
                        if defines(b.states, state.0) && defines(b.symbols, symbol.0) {
                            let key = FromView { state: state.0, symbol: symbol.0 };
                            let targets = weak_view(value);
                            lemma_tm_targets(b, log, key, args_span, targets, targets.len() as int);
                        }
                    },
                    None => {},
                }
            }
        },
        _ => {},
    }
}

/// Compiling more declarations adds to the log, and what holds of the
/// compiler's state after every declaration holds after all of them.
pub proof fn lemma_tm_all(
    b: TmBuild,
    log: Seq<Seq<Note>>,
    elements: Seq<(TopLevelView, Span)>,
    k: int,
    n: int,
)
    requires
        tm_sound(b),
        0 <= k <= n,
    ensures
        extends(tm_all(b, log, elements, n).1, tm_all(b, log, elements, k).1),
        tm_sound(tm_all(b, log, elements, n).0),
    decreases n,
{
    if n > 0 {
        if k < n {
            lemma_tm_all(b, log, elements, k, n - 1);
        } else {
            lemma_tm_all(b, log, elements, 0, n - 1);
        }
        let (b1, log1) = tm_all(b, log, elements, n - 1);
        lemma_tm_top_level(b1, log1, elements[n - 1]);
    }
}

/// Ending the compilation adds to the log, and there is a machine only if
/// the log has no error; its initial state and blank symbol are declared.
pub proof fn lemma_tm_finish(b: TmBuild, log: Seq<Seq<Note>>)
    requires
        tm_sound(b),
    ensures
        extends(tm_finish(b, log).1, log),
        tm_finish(b, log).0 is Some <==> !has_error(tm_finish(b, log).1),
        has_error(log) ==> tm_finish(b, log).0 is None,
        tm_finish(b, log).0 matches Some(m) ==> tm_closed(m),
{
    let log1 = tm_missing(b, log);
    assert(extends(log1, log));
    lemma_resolve(Designated::InitialState, b.states, b.initial_state, log1);
    let (initial_state, log2) = resolve_spec(
        Designated::InitialState,
        b.states,
        b.initial_state,
        log1,
    );
    lemma_resolve(Designated::BlankSymbol, b.symbols, b.blank_symbol, log2);
    let (blank_symbol, log3) = resolve_spec(
        Designated::BlankSymbol,
        b.symbols,
        b.blank_symbol,
        log2,
    );
    let log4 = tm_finish(b, log).1;
    assert(extends(log4, log3));
    assert(extends(log4, log2));
    assert(extends(log4, log));
    if has_error(log) {
        lemma_extends_error(log4, log);
    }
    if has_error(log2) {
        lemma_extends_error(log4, log2);
    }
    if has_error(log3) {
        lemma_extends_error(log4, log3);
    }
}

/// No dangling references: a Turing machine that was compiled refers to
/// declared names only. Every state that a transition starts or ends at, the
/// initial state and every final state is a declared state; every symbol that
/// a transition reads or writes, and the blank symbol, is a declared tape
/// symbol.
pub proof fn law_tm_closed(options: Options, elements: Seq<(TopLevelView, Span)>, log: Seq<Seq<Note>>)
    ensures
        tm_compile(options, elements, log).0 matches Some(m) ==> tm_closed(m),
{
    let n = elements.len() as int;
    lemma_tm_all(tm_start(options), log, elements, 0, n);
    let (b, log1) = tm_all(tm_start(options), log, elements, n);
    lemma_tm_finish(b, log1);
}

/// An error that was logged stays: a compilation whose log has an error
/// after some of the declarations gives no machine, and its log has an
/// error at the end.
pub proof fn law_tm_error_stays(
    options: Options,
    elements: Seq<(TopLevelView, Span)>,
    log: Seq<Seq<Note>>,
    k: int,
)
    requires
        0 <= k <= elements.len(),
        has_error(tm_all(tm_start(options), log, elements, k).1),
    ensures
        tm_compile(options, elements, log).0 is None,
        has_error(tm_compile(options, elements, log).1),
{
    let n = elements.len() as int;
    lemma_tm_all(tm_start(options), log, elements, k, n);
    let (b, log1) = tm_all(tm_start(options), log, elements, n);
    lemma_extends_error(log1, tm_all(tm_start(options), log, elements, k).1);
    lemma_tm_finish(b, log1);
}


/// Whether the tables of a machine are sets: no state, tape symbol or final
/// state stands twice, and no transition stands twice.
pub open spec fn tm_sets(m: TmView) -> bool {
    &&& distinct(m.states)
    &&& distinct(m.symbols)
    &&& distinct(m.final_states)
    &&& m.transitions.no_duplicates()
}

/// What holds of the compiler's tables after every declaration: they are
/// sets.
pub open spec fn tm_build_sets(b: TmBuild) -> bool {
    &&& distinct(b.states)
    &&& distinct(b.symbols)
    &&& distinct(b.final_states)
    &&& b.transitions.no_duplicates()
}

proof fn lemma_tm_targets_sets(
    b: TmBuild,
    log: Seq<Seq<Note>>,
    key: FromView,
    function: Span,
    items: Seq<(ItemView, Span)>,
    n: int,
)
    requires
        b.transitions.no_duplicates(),
    ensures
        tm_targets(b, log, key, function, items, n).0.no_duplicates(),
    decreases n,
{
    if n > 0 {
        lemma_tm_targets_sets(b, log, key, function, items, n - 1);
        let (transitions, log1) = tm_targets(b, log, key, function, items, n - 1);
        let item = items[n - 1];
        match item.0 {
            ItemView::Tuple(parts) => match tm_parts(parts) {
                Some((next, write, direction)) => {
                    let way = match direction_of(direction.0) {
                        Some(found) => found,
                        None => Direction::Stay,
                    };
                    let to = ToView {
                        state: next.0,
                        symbol: write.0,
                        direction: way,
                        transition: item.1,
                        function,
                    };
                    if !transitions.contains((key, to)) {
                        lemma_push_no_duplicates(transitions, (key, to));
                    }
                },
                None => {},
            },
            _ => {},
        }
    }
}

proof fn lemma_tm_top_level_sets(b: TmBuild, log: Seq<Seq<Note>>, element: (TopLevelView, Span))
    requires
        tm_build_sets(b),
    ensures
        tm_build_sets(tm_top_level(b, log, element).0),
{
    match element.0 {
        TopLevelView::Item { name, name_span, value } => {
            if name == "Q"@ {
                lemma_section_distinct(Section::States, b.states, b.states_def, log, value, element.1);
            } else if is_gamma(name) {
                lemma_section_distinct(
                    Section::TapeSymbols,
                    b.symbols,
                    b.symbols_def,
                    log,
                    value,
                    element.1,
                );
            } else if name == "F"@ {
                lemma_finals_distinct(
                    b.states,
                    b.final_states,
                    b.final_states_def,
                    log,
                    value,
                    element.1,
                );
            }
        },
        TopLevelView::TransitionFunc { name, name_span, args, args_span, head_span, value } => {
            if is_delta(name) {
                match tm_args(args) {
                    Some((state, symbol)) => {
                        if defines(b.states, state.0) && defines(b.symbols, symbol.0) {
                            let key = FromView { state: state.0, symbol: symbol.0 };
                            let targets = weak_view(value);
                            lemma_tm_targets_sets(
                                b,
                                log,
                                key,
                                args_span,
                                targets,
                                targets.len() as int,
                            );
                        }
                    },
                    None => {},
                }
            }
        },
        _ => {},
    }
}

proof fn lemma_tm_all_sets(
    b: TmBuild,
    log: Seq<Seq<Note>>,
    elements: Seq<(TopLevelView, Span)>,
    n: int,
)
    requires
        tm_build_sets(b),
    ensures
        tm_build_sets(tm_all(b, log, elements, n).0),
    decreases n,
{
    if n > 0 {
        lemma_tm_all_sets(b, log, elements, n - 1);
        let (b1, log1) = tm_all(b, log, elements, n - 1);
        lemma_tm_top_level_sets(b1, log1, elements[n - 1]);
    }
}

/// The tables of a compiled Turing machine are sets: no state, no tape
/// symbol and no final state stands twice in its table, and no transition
/// stands twice among the transitions.
pub proof fn law_tm_sets(options: Options, elements: Seq<(TopLevelView, Span)>, log: Seq<Seq<Note>>)
    ensures
        tm_compile(options, elements, log).0 matches Some(m) ==> tm_sets(m),
{
    lemma_tm_all_sets(tm_start(options), log, elements, elements.len() as int);
}


/// Whether no two transitions start at the same state with the same symbol.
pub open spec fn single_valued(transitions: Seq<(FromView, ToView)>) -> bool {
    forall|i: int, j: int|
        0 <= i < j < transitions.len() ==> (#[trigger] transitions[i]).0 != (
        #[trigger] transitions[j]).0
}

/// What holds of the compiler's state after every declaration: unless the
/// log has an error, the transitions keep to the options.
pub open spec fn tm_within_options(b: TmBuild, log: Seq<Seq<Note>>) -> bool {
    has_error(log) || b.options.non_deterministic || single_valued(b.transitions)
}

proof fn lemma_tm_target_extends(
    b: TmBuild,
    transitions: Seq<(FromView, ToView)>,
    log: Seq<Seq<Note>>,
    key: FromView,
    function: Span,
    item: (ItemView, Span),
)
    ensures
        extends(tm_target(b, transitions, log, key, function, item).1, log),
{
}

proof fn lemma_tm_targets_extends(
    b: TmBuild,
    log: Seq<Seq<Note>>,
    key: FromView,
    function: Span,
    items: Seq<(ItemView, Span)>,
    n: int,
)
    ensures
        extends(tm_targets(b, log, key, function, items, n).1, log),
    decreases n,
{
    if n > 0 {
        lemma_tm_targets_extends(b, log, key, function, items, n - 1);
        let (transitions, log1) = tm_targets(b, log, key, function, items, n - 1);
        lemma_tm_target_extends(b, transitions, log1, key, function, items[n - 1]);
    }
}

proof fn lemma_tm_target_options(
    b: TmBuild,
    transitions: Seq<(FromView, ToView)>,
    log: Seq<Seq<Note>>,
    key: FromView,
    function: Span,
    item: (ItemView, Span),
)
    requires
        tm_within_options(TmBuild { transitions, ..b }, log),
    ensures
        tm_within_options(
            TmBuild { transitions: tm_target(b, transitions, log, key, function, item).0, ..b },
            tm_target(b, transitions, log, key, function, item).1,
        ),
{
    let (after, log1) = tm_target(b, transitions, log, key, function, item);
    lemma_tm_target_extends(b, transitions, log, key, function, item);
    if has_error(log) {
        lemma_extends_error(log1, log);
    } else {
        match item.0 {
            ItemView::Tuple(parts) => match tm_parts(parts) {
                Some((next, write, direction)) => {
                    let log2 = match direction_of(direction.0) {
                        Some(found) => log,
                        None => log.push(
                            single(
                                LogLevel::Error,
                                "invalid direction specified '"@ + symbol_text(direction.0) + "'"@,
                                Some(direction.1),
                            ),
                        ),
                    };
                    if log2 != log {
                        lemma_last_error(log2);
                        assert(extends(log1, log2));
                        lemma_extends_error(log1, log2);
                    } else if !defines(b.states, next.0) || !defines(b.symbols, write.0) {
                        lemma_last_error(log1);
                    } else {
                        crate::automatan::lemma_first_for_exists(transitions, key);
                        if first_for(transitions, key) is Some && !b.options.non_deterministic {
                            let log3 = log2.push(
                                noted(
                                    LogLevel::Error,
                                    "transition already defined for this starting point (non determinism not permitted)"@,
                                    Some(item.1),
                                    LogLevel::Info,
                                    "previously defined here"@,
                                    Some(first_for(transitions, key).unwrap().transition),
                                ),
                            );
                            lemma_last_error(log3);
                            assert(extends(log1, log3));
                            lemma_extends_error(log1, log3);
                        }
                    }
                },
                None => {
                    lemma_last_error(log1);
                },
            },
            _ => {
                lemma_last_error(log1);
            },
        }
    }
}

proof fn lemma_tm_targets_options(
    b: TmBuild,
    log: Seq<Seq<Note>>,
    key: FromView,
    function: Span,
    items: Seq<(ItemView, Span)>,
    n: int,
)
    requires
        tm_within_options(b, log),
    ensures
        tm_within_options(
            TmBuild { transitions: tm_targets(b, log, key, function, items, n).0, ..b },
            tm_targets(b, log, key, function, items, n).1,
        ),
    decreases n,
{
    if n > 0 {
        lemma_tm_targets_options(b, log, key, function, items, n - 1);
        let (transitions, log1) = tm_targets(b, log, key, function, items, n - 1);
        lemma_tm_target_options(b, transitions, log1, key, function, items[n - 1]);
    }
}

proof fn lemma_tm_top_level_options(b: TmBuild, log: Seq<Seq<Note>>, element: (TopLevelView, Span))
    requires
        tm_sound(b),
        tm_within_options(b, log),
    ensures
        tm_within_options(tm_top_level(b, log, element).0, tm_top_level(b, log, element).1),
        tm_top_level(b, log, element).0.options == b.options,
{
    let (b1, log1) = tm_top_level(b, log, element);
    lemma_tm_top_level(b, log, element);
    if has_error(log) {
        lemma_extends_error(log1, log);
    } else {
        match element.0 {
            TopLevelView::TransitionFunc { name, name_span, args, args_span, head_span, value } => {
                if is_delta(name) {
                    match tm_args(args) {
                        Some((state, symbol)) => {
                            if defines(b.states, state.0) && defines(b.symbols, symbol.0) {
                                let key = FromView { state: state.0, symbol: symbol.0 };
                                let targets = weak_view(value);
                                lemma_tm_targets_options(
                                    b,
                                    log,
                                    key,
                                    args_span,
                                    targets,
                                    targets.len() as int,
                                );
                            }
                        },
                        None => {},
                    }
                }
            },
            _ => {},
        }
    }
}

proof fn lemma_tm_all_options(
    b: TmBuild,
    log: Seq<Seq<Note>>,
    elements: Seq<(TopLevelView, Span)>,
    n: int,
)
    requires
        tm_sound(b),
        tm_within_options(b, log),
    ensures
        tm_within_options(tm_all(b, log, elements, n).0, tm_all(b, log, elements, n).1),
        tm_all(b, log, elements, n).0.options == b.options,
    decreases n,
{
    if n > 0 {
        lemma_tm_all_options(b, log, elements, n - 1);
        lemma_tm_all(b, log, elements, 0, n - 1);
        let (b1, log1) = tm_all(b, log, elements, n - 1);
        lemma_tm_top_level_options(b1, log1, elements[n - 1]);
    }
}

/// A compiled machine keeps to its options: under deterministic options no
/// two of its transitions start at the same state with the same symbol.
pub proof fn law_tm_within_options(
    options: Options,
    elements: Seq<(TopLevelView, Span)>,
    log: Seq<Seq<Note>>,
)
    ensures
        tm_compile(options, elements, log).0 matches Some(m) ==> (!options.non_deterministic
            ==> single_valued(m.transitions)),
{
    let n = elements.len() as int;
    lemma_tm_all_options(tm_start(options), log, elements, n);
    lemma_tm_all(tm_start(options), log, elements, 0, n);
    let (b, log1) = tm_all(tm_start(options), log, elements, n);
    lemma_tm_finish(b, log1);
}

} // verus!
