//! Pushdown automata: the model and its compiler.

use vstd::prelude::*;
use vstd::string::*;

use crate::automatan::{
    lemma_section_letters, one_char_each,
    distinct, lemma_finals_distinct, lemma_push_no_duplicates, lemma_section_distinct,
    covers, lemma_designate, lemma_finals, lemma_resolve, lemma_section, lemma_within_covers, within,
    advice, advise1, advise2, advise3, define_final_states, define_section, defines, designate,
    designate_spec, emit_unknown_function, emit_unknown_item, emit_with_previous, finals_spec,
    first_for, into_letters, into_states, into_symbols, lemma_first_for_prefix, letters_view, noted,
    resolve, resolve_spec, section_spec, slot_view, states_view, symbols_table, unknown_function,
    unknown_item, Designated, Letter, LetterInfo, Names, Options, Section, State, StateInfo,
    Symbol, SymbolInfo, Table,
};
use crate::loader::ast::{
    expected_ident, expected_tuple, items_view, weak_view, Item, ItemView, SymbolView,
    TopLevel, TopLevelView, Tuple,
};
use crate::loader::log::{
    extends, has_error, lemma_extends_error, lemma_last_error, LogEntry, LogLevel, Note,
};
use crate::loader::parser::elements_view;
use crate::loader::{
    delta_name, gamma_name, is_delta, is_gamma, is_sigma, sigma_name, single, Context, Span, Spanned,
};
use crate::text::is_word;

verus! {

/// Where a transition starts: a state, the letter that is read, if any, and
/// the symbol that is taken from the stack.
#[derive(Debug, PartialEq, Eq, Clone, Hash)]
pub struct TransitionFrom {
    pub state: State,
    pub letter: Option<Letter>,
    pub symbol: Symbol,
}

/// Where a transition leads and what it puts on the stack, the last symbol
/// on top; with the span of the target in the source and the span of the
/// arguments of the transition function.
#[derive(Debug, PartialEq, Eq, Clone, Hash)]
pub struct TransitionTo {
    pub state: State,
    pub stack: Vec<Symbol>,
    pub transition: Span,
    pub function: Span,
}

/// A pushdown automaton. It accepts by final state if `final_states` holds
/// them, and by empty stack if not.
#[derive(Clone, Debug, PartialEq, Eq)]
pub struct Pda {
    pub initial_state: State,
    pub initial_stack: Symbol,
    pub states: Vec<(State, StateInfo)>,
    pub symbols: Vec<(Symbol, SymbolInfo)>,
    pub alphabet: Vec<(Letter, LetterInfo)>,
    pub final_states: Option<Vec<(State, StateInfo)>>,
    /// Every transition, in the order of declaration.
    pub transitions: Vec<(TransitionFrom, TransitionTo)>,
}

/// How a pushdown automaton accepts.
#[derive(Clone, Copy, Debug, PartialEq, Eq, Structural)]
pub enum AcceptBy {
    EmptyStack,
    FinalState,
}

/// The start of a transition as contracts see it.
pub ghost struct FromView {
    pub state: Seq<char>,
    pub letter: Option<Seq<char>>,
    pub symbol: Seq<char>,
}

/// The target of a transition as contracts see it.
pub ghost struct ToView {
    pub state: Seq<char>,
    pub stack: Seq<Seq<char>>,
    pub transition: Span,
    pub function: Span,
}

/// A pushdown automaton as contracts see it.
pub ghost struct PdaView {
    pub initial_state: Seq<char>,
    pub initial_stack: Seq<char>,
    pub states: Table,
    pub symbols: Table,
    pub alphabet: Table,
    pub final_states: Option<Table>,
    pub transitions: Seq<(FromView, ToView)>,
}

/// Symbols as contracts see them.
pub open spec fn stack_view(stack: Seq<Symbol>) -> Seq<Seq<char>> {
    Seq::new(stack.len(), |i: int| stack[i]@)
}

impl View for TransitionFrom {
    type V = FromView;

    open spec fn view(&self) -> FromView {
        FromView {
            state: self.state@,
            letter: match self.letter {
                Some(letter) => Some(letter@),
                None => None,
            },
            symbol: self.symbol@,
        }
    }
}

impl View for TransitionTo {
    type V = ToView;

    open spec fn view(&self) -> ToView {
        ToView {
            state: self.state@,
            stack: stack_view(self.stack@),
            transition: self.transition,
            function: self.function,
        }
    }
}

/// Transitions as contracts see them.
pub open spec fn transitions_view(transitions: Seq<(TransitionFrom, TransitionTo)>) -> Seq<
    (FromView, ToView),
> {
    Seq::new(transitions.len(), |i: int| (transitions[i].0@, transitions[i].1@))
}

impl View for Pda {
    type V = PdaView;

    open spec fn view(&self) -> PdaView {
        PdaView {
            initial_state: self.initial_state@,
            initial_stack: self.initial_stack@,
            states: states_view(self.states@),
            symbols: symbols_table(self.symbols@),
            alphabet: letters_view(self.alphabet@),
            final_states: match self.final_states {
                Some(states) => Some(states_view(states@)),
                None => None,
            },
            transitions: transitions_view(self.transitions@),
        }
    }
}

/// What the compiler has gathered so far.
pub ghost struct PdaBuild {
    pub options: Options,
    pub initial_state: Option<(Seq<char>, Span)>,
    pub initial_stack: Option<(Seq<char>, Span)>,
    pub accept_by: Option<(AcceptBy, Span)>,
    pub states: Table,
    pub states_def: Option<Span>,
    pub symbols: Table,
    pub symbols_def: Option<Span>,
    pub alphabet: Table,
    pub alphabet_def: Option<Span>,
    pub final_states: Table,
    pub final_states_def: Option<Span>,
    pub transitions: Seq<(FromView, ToView)>,
}

/// The compiler's state before any declaration.
pub open spec fn pda_start(options: Options) -> PdaBuild {
    PdaBuild {
        options,
        initial_state: None,
        initial_stack: None,
        accept_by: None,
        states: Seq::empty(),
        states_def: None,
        symbols: Seq::empty(),
        symbols_def: None,
        alphabet: Seq::empty(),
        alphabet_def: None,
        final_states: Seq::empty(),
        final_states_def: None,
        transitions: Seq::empty(),
    }
}

/// Whether `name` says that the machine accepts by empty stack.
pub open spec fn is_accept_empty(name: Seq<char>) -> bool {
    ||| name == "N"@
    ||| name == "n"@
    ||| name == "null"@
    ||| name == "empty"@
    ||| name == "E"@
    ||| name == "Z0"@
    ||| name == "z0"@
}

/// Whether `name` says that the machine accepts by final state.
pub open spec fn is_accept_final(name: Seq<char>) -> bool {
    name == "F"@ || name == "final"@
}

/// Compiles the declaration of how the machine accepts. A second
/// declaration is an error, and the later one of those that are valid
/// counts.
pub open spec fn accept_spec(
    accept_by: Option<(AcceptBy, Span)>,
    log: Seq<Seq<Note>>,
    value: (ItemView, Span),
    top_level: Span,
) -> (Option<(AcceptBy, Span)>, Seq<Seq<Note>>) {
    let log1 = match accept_by {
        Some((_, previous)) => log.push(
            noted(
                LogLevel::Error,
                "accept by already set"@,
                Some(top_level),
                LogLevel::Info,
                "previously defined here"@,
                Some(previous),
            ),
        ),
        None => log,
    };
    match value.0 {
        ItemView::Symbol(SymbolView::Ident(name)) => if is_accept_empty(name) {
            (Some((AcceptBy::EmptyStack, top_level)), log1)
        } else if is_accept_final(name) {
            (Some((AcceptBy::FinalState, top_level)), log1)
        } else {
            (accept_by, log1.push(single(LogLevel::Error, "invalid accept by"@, Some(value.1))))
        },
        _ => (accept_by, log1.push(single(LogLevel::Error, expected_ident(value.0), Some(value.1)))),
    }
}

/// The arguments of a transition function of a pushdown automaton: a
/// state, a letter or epsilon, and a stack symbol.
pub open spec fn pda_args(args: Seq<(ItemView, Span)>) -> Option<
    ((Seq<char>, Span), (SymbolView, Span), (Seq<char>, Span)),
> {
    if args.len() == 3 {
        match (args[0].0, args[1].0, args[2].0) {
            (
                ItemView::Symbol(SymbolView::Ident(state)),
                ItemView::Symbol(letter),
                ItemView::Symbol(SymbolView::Ident(symbol)),
            ) => Some(((state, args[0].1), (letter, args[1].1), (symbol, args[2].1))),
            _ => None,
        }
    } else {
        None
    }
}

/// The parts of a target: a state, and a symbol or a list of symbols.
pub open spec fn pda_parts(parts: Seq<(ItemView, Span)>) -> Option<
    ((Seq<char>, Span), (ItemView, Span)),
> {
    if parts.len() == 2 {
        match parts[0].0 {
            ItemView::Symbol(SymbolView::Ident(state)) => Some(((state, parts[0].1), parts[1])),
            _ => None,
        }
    } else {
        None
    }
}

/// Reads one symbol to push: epsilon is nothing, a declared stack symbol is
/// put on top, anything else is an error.
pub open spec fn push_one(
    symbols: Table,
    stack: Seq<Seq<char>>,
    log: Seq<Seq<Note>>,
    item: (ItemView, Span),
) -> (Seq<Seq<char>>, Seq<Seq<Note>>) {
    match item.0 {
        ItemView::Symbol(SymbolView::Epsilon(_)) => (stack, log),
        ItemView::Symbol(SymbolView::Ident(name)) => if defines(symbols, name) {
            (stack.push(name), log)
        } else {
            (
                stack,
                log.push(
                    single(LogLevel::Error, "transition stack symbol not defined"@, Some(item.1)),
                ),
            )
        },
        _ => (stack, log.push(single(LogLevel::Error, expected_ident(item.0), Some(item.1)))),
    }
}

/// Reads the last `n` of the symbols to push, from the last one backwards,
/// so that the symbol that is written first ends on top.
pub open spec fn push_all(symbols: Table, log: Seq<Seq<Note>>, items: Seq<(ItemView, Span)>, n: int) -> (
    Seq<Seq<char>>,
    Seq<Seq<Note>>,
)
    decreases n,
{
    if n <= 0 || n > items.len() {
        (Seq::empty(), log)
    } else {
        let (stack, log1) = push_all(symbols, log, items, n - 1);
        push_one(symbols, stack, log1, items[items.len() - n])
    }
}

/// Adds one target to the transitions from `key`. The target is a tuple of
/// a declared state and the symbols to push. A second target from the same
/// start is an error unless the machine may be non-deterministic; a target
/// that was declared before at the same place is only a warning and changes
/// nothing.
pub open spec fn pda_target(
    b: PdaBuild,
    transitions: Seq<(FromView, ToView)>,
    log: Seq<Seq<Note>>,
    key: FromView,
    function: Span,
    item: (ItemView, Span),
) -> (Seq<(FromView, ToView)>, Seq<Seq<Note>>) {
    match item.0 {
        ItemView::Tuple(parts) => match pda_parts(parts) {
            None => (
                transitions,
                log.push(
                    single(
                        LogLevel::Error,
                        "expected PDA transition (state, symbol|[symbol])"@,
                        Some(item.1),
                    ),
                ),
            ),
            Some((next, list)) => if !defines(b.states, next.0) {
                (
                    transitions,
                    log.push(
                        single(
                            LogLevel::Error,
                            "transition state not defined as state"@,
                            Some(next.1),
                        ),
                    ),
                )
            } else {
                let items = weak_view(list);
                let (stack, log1) = push_all(b.symbols, log, items, items.len() as int);
                let to = ToView { state: next.0, stack, transition: item.1, function };
                let log2 = match first_for(transitions, key) {
                    Some(previous) => if !b.options.non_deterministic {
                        log1.push(
                            noted(
                                LogLevel::Error,
                                "transition already defined for this starting point (non determinism not permitted)"@,
                                Some(item.1),
                                LogLevel::Info,
                                "previously defined here"@,
                                Some(previous.transition),
                            ),
                        )
                    } else {
                        log1
                    },
                    None => log1,
                };
                if transitions.contains((key, to)) {
                    (
                        transitions,
                        log2.push(single(LogLevel::Warning, "duplicate transition"@, Some(item.1))),
                    )
                } else {
                    (transitions.push((key, to)), log2)
                }
            },
        },
        _ => (transitions, log.push(single(LogLevel::Error, expected_tuple(item.0), Some(item.1)))),
    }
}

/// Adds the first `n` targets, in order.
pub open spec fn pda_targets(
    b: PdaBuild,
    log: Seq<Seq<Note>>,
    key: FromView,
    function: Span,
    items: Seq<(ItemView, Span)>,
    n: int,
) -> (Seq<(FromView, ToView)>, Seq<Seq<Note>>)
    decreases n,
{
    if n <= 0 {
        (b.transitions, log)
    } else {
        let (transitions, log1) = pda_targets(b, log, key, function, items, n - 1);
        pda_target(b, transitions, log1, key, function, items[n - 1])
    }
}

/// Compiles one transition function declaration: `args` in the parentheses
/// at `args_span`, and `value`, one target or a set of them.
pub open spec fn pda_transition(
    b: PdaBuild,
    log: Seq<Seq<Note>>,
    args: Seq<(ItemView, Span)>,
    args_span: Span,
    value: (ItemView, Span),
) -> (PdaBuild, Seq<Seq<Note>>) {
    match pda_args(args) {
        None => (
            b,
            log.push(
                single(
                    LogLevel::Error,
                    "expected PDA transition function (state, letter|epsilon, symbol)"@,
                    Some(args_span),
                ),
            ),
        ),
        Some((state, letter, symbol)) => if !defines(b.states, state.0) {
            (
                b,
                log.push(
                    single(LogLevel::Error, "transition state not defined as state"@, Some(state.1)),
                ),
            )
        } else if !defines(b.symbols, symbol.0) {
            (
                b,
                log.push(
                    single(
                        LogLevel::Error,
                        "transition stack symbol not defined as stack symbol"@,
                        Some(symbol.1),
                    ),
                ),
            )
        } else {
            let (read, log1) = match letter.0 {
                SymbolView::Epsilon(_) => (
                    None,
                    if !b.options.epsilon_moves {
                        log.push(
                            single(LogLevel::Error, "epsilon moves not permitted"@, Some(letter.1)),
                        )
                    } else {
                        log
                    },
                ),
                SymbolView::Ident(name) => (
                    Some(name),
                    if !defines(b.alphabet, name) {
                        log.push(
                            single(
                                LogLevel::Error,
                                "transition letter not defined in alphabet"@,
                                Some(letter.1),
                            ),
                        )
                    } else {
                        log
                    },
                ),
            };
            let key = FromView { state: state.0, letter: read, symbol: symbol.0 };
            let targets = weak_view(value);
            let (transitions, log2) = pda_targets(
                b,
                log1,
                key,
                args_span,
                targets,
                targets.len() as int,
            );
            (PdaBuild { transitions, ..b }, log2)
        },
    }
}

/// Compiles one declaration of an item.
pub open spec fn pda_item(
    b: PdaBuild,
    log: Seq<Seq<Note>>,
    name: Seq<char>,
    name_span: Span,
    value: (ItemView, Span),
    span: Span,
) -> (PdaBuild, Seq<Seq<Note>>) {
    if name == "accept"@ {
        let (accept_by, log1) = accept_spec(b.accept_by, log, value, span);
        (PdaBuild { accept_by, ..b }, log1)
    } else if name == "Q"@ {
        let (states, states_def, log1) = section_spec(
            Section::States,
            b.states,
            b.states_def,
            log,
            value,
            span,
        );
        (PdaBuild { states, states_def, ..b }, log1)
    } else if is_gamma(name) {
        let (symbols, symbols_def, log1) = section_spec(
            Section::StackSymbols,
            b.symbols,
            b.symbols_def,
            log,
            value,
            span,
        );
        (PdaBuild { symbols, symbols_def, ..b }, log1)
    } else if is_sigma(name) {
        let (alphabet, alphabet_def, log1) = section_spec(
            Section::Alphabet,
            b.alphabet,
            b.alphabet_def,
            log,
            value,
            span,
        );
        (PdaBuild { alphabet, alphabet_def, ..b }, log1)
    } else if name == "F"@ {
        let (final_states, final_states_def, log1) = finals_spec(
            b.states,
            b.final_states,
            b.final_states_def,
            log,
            value,
            span,
        );
        (PdaBuild { final_states, final_states_def, ..b }, log1)
    } else if name == "q0"@ {
        let (initial_state, log1) = designate_spec(
            Designated::InitialState,
            b.states,
            b.initial_state,
            log,
            value,
            span,
        );
        (PdaBuild { initial_state, ..b }, log1)
    } else if name == "z0"@ {
        let (initial_stack, log1) = designate_spec(
            Designated::InitialStack,
            b.symbols,
            b.initial_stack,
            log,
            value,
            span,
        );
        (PdaBuild { initial_stack, ..b }, log1)
    } else {
        (
            b,
            log.push(
                single(
                    LogLevel::Error,
                    unknown_item(
                        name,
                        "states | stack symbols | alphabet | accept by | final states | initial state | initial stack"@,
                    ),
                    Some(name_span),
                ),
            ),
        )
    }
}

/// Compiles one declaration.
pub open spec fn pda_top_level(b: PdaBuild, log: Seq<Seq<Note>>, element: (TopLevelView, Span)) -> (
    PdaBuild,
    Seq<Seq<Note>>,
) {
    match element.0 {
        TopLevelView::Item { name, name_span, value } => pda_item(
            b,
            log,
            name,
            name_span,
            value,
            element.1,
        ),
        TopLevelView::TransitionFunc { name, name_span, args, args_span, head_span, value } => {
            if is_delta(name) {
                pda_transition(b, log, args, args_span, value)
            } else {
                (b, log.push(single(LogLevel::Error, unknown_function(name), Some(head_span))))
            }
        },
        TopLevelView::ProductionRule { .. } => (
            b,
            log.push(single(LogLevel::Error, "unexpected production rule"@, Some(element.1))),
        ),
        TopLevelView::Table => (
            b,
            log.push(single(LogLevel::Error, "unexpected table"@, Some(element.1))),
        ),
    }
}

/// Compiles the first `n` declarations, in order.
pub open spec fn pda_all(
    b: PdaBuild,
    log: Seq<Seq<Note>>,
    elements: Seq<(TopLevelView, Span)>,
    n: int,
) -> (PdaBuild, Seq<Seq<Note>>)
    decreases n,
{
    if n <= 0 {
        (b, log)
    } else {
        let (b1, log1) = pda_all(b, log, elements, n - 1);
        pda_top_level(b1, log1, elements[n - 1])
    }
}

/// The log after the sections that were never declared are reported.
pub open spec fn pda_missing(b: PdaBuild, log: Seq<Seq<Note>>) -> Seq<Seq<Note>> {
    let log1 = if b.states_def is None {
        log.push(
            advice(LogLevel::Error, "states never defined"@, seq![(LogLevel::Help, "add: Q = {...}"@)]),
        )
    } else {
        log
    };
    let log2 = if b.alphabet_def is None {
        log1.push(
            advice(
                LogLevel::Error,
                "alphabet never defined"@,
                seq![
                    (LogLevel::Help, "add: E = {...}"@),
                    (
                        LogLevel::Info,
                        "E can be 'E' | 'S' | 'sigma' | 'Σ' | '𝚺' | '𝛴' | '𝜮' | '𝝨' | '𝞢' | '∑'"@,
                    ),
                ],
            ),
        )
    } else {
        log1
    };
    let log3 = if b.symbols_def is None {
        log2.push(
            advice(
                LogLevel::Error,
                "stack symbols never defined"@,
                seq![
                    (LogLevel::Help, "add: G = {...}"@),
                    (
                        LogLevel::Info,
                        "G can be 'T' | 'G' | 'gamma' | 'Γ' | 'Ⲅ' | '𝚪' | '𝛤' | '𝜞' | '𝝘' | '𝞒'"@,
                    ),
                ],
            ),
        )
    } else {
        log2
    };
    if b.accept_by is None {
        log3.push(
            advice(
                LogLevel::Error,
                "accept by never defined"@,
                seq![
                    (LogLevel::Help, "add: accept = N|F"@),
                    (
                        LogLevel::Info,
                        "accept by empty stack N can be 'N' | 'n' | 'null' | 'empty' | 'E' | 'Z0' | 'z0'"@,
                    ),
                    (LogLevel::Info, "accept by final state F can be 'F' | 'final'"@),
                ],
            ),
        )
    } else {
        log3
    }
}

/// The log after the way of accepting is held against the final states:
/// accepting by final state wants them declared, accepting by empty stack
/// wants them left out.
pub open spec fn pda_accept_check(b: PdaBuild, log: Seq<Seq<Note>>) -> Seq<Seq<Note>> {
    match (b.accept_by, b.final_states_def) {
        (Some((AcceptBy::FinalState, _)), None) => log.push(
            advice(
                LogLevel::Error,
                "final states never defined"@,
                seq![(LogLevel::Help, "add: F = {...}"@)],
            ),
        ),
        (Some((AcceptBy::EmptyStack, empty)), Some(states)) => log.push(
            accept_conflict(states, empty),
        ),
        _ => log,
    }
}

/// The entry that warns of a machine without transitions.
pub open spec fn pda_no_transitions() -> Seq<Note> {
    advice(
        LogLevel::Warning,
        "no transitions defined"@,
        seq![
            (
                LogLevel::Help,
                "consider defining one: d(state, letter|epsilon, symbol) = (state, [symbol]) | {(state, [symbol]), ...}"@,
            ),
            (
                LogLevel::Info,
                "d can be 'delta' | 'D' | 'd' | 'ẟ' | 'δ' | '𝛅' | '𝛿' | '𝜹' | '𝝳' | '𝞭'"@,
            ),
            (
                LogLevel::Info,
                "epsilon can be 'epsilon' | '~' | 'Ɛ' | 'ε' | 'ϵ' | '𝛆' | '𝛜' | '𝜀' | '𝜖' | '𝜺' | '𝝐' | '𝝴' | '𝞊' | '𝞮' | '𝟄' | 'ɛ'"@,
            ),
        ],
    )
}

/// Ends the compilation: reports what is missing or in conflict, settles the
/// initial state and stack symbol and gives the machine if the log holds no
/// error.
pub open spec fn pda_finish(b: PdaBuild, log: Seq<Seq<Note>>) -> (Option<PdaView>, Seq<Seq<Note>>) {
    let log1 = pda_accept_check(b, pda_missing(b, log));
    let (initial_state, log2) = resolve_spec(
        Designated::InitialState,
        b.states,
        b.initial_state,
        log1,
    );
    let (initial_stack, log3) = resolve_spec(
        Designated::InitialStack,
        b.symbols,
        b.initial_stack,
        log2,
    );
    let log4 = if b.transitions.len() == 0 {
        log3.push(pda_no_transitions())
    } else {
        log3
    };
    if has_error(log4) {
        (None, log4)
    } else {
        (
            Some(
                PdaView {
                    initial_state,
                    initial_stack,
                    states: b.states,
                    symbols: b.symbols,
                    alphabet: b.alphabet,
                    final_states: match b.accept_by {
                        Some((AcceptBy::FinalState, _)) => Some(b.final_states),
                        _ => None,
                    },
                    transitions: b.transitions,
                },
            ),
            log4,
        )
    }
}

/// Compiles declarations into a pushdown automaton: the machine, if the log
/// holds no error at the end, and the log.
pub open spec fn pda_compile(
    options: Options,
    elements: Seq<(TopLevelView, Span)>,
    log: Seq<Seq<Note>>,
) -> (Option<PdaView>, Seq<Seq<Note>>) {
    let (b, log1) = pda_all(pda_start(options), log, elements, elements.len() as int);
    pda_finish(b, log1)
}

/// A machine as contracts see it, if there is one.
pub open spec fn pda_view(pda: Option<Pda>) -> Option<PdaView> {
    match pda {
        Some(pda) => Some(pda@),
        None => None,
    }
}

impl Pda {
    /// Compiles declarations into a pushdown automaton. Every problem is
    /// logged in `ctx`; there is a machine exactly if the log holds no error
    /// at the end.
    pub fn compile(items: &Vec<Spanned<TopLevel>>, ctx: &mut Context, options: Options) -> (r: Option<
        Pda,
    >)
        ensures
            final(ctx).text() == old(ctx).text(),
            (pda_view(r), final(ctx).log()) == pda_compile(
                options,
                elements_view(items@),
                old(ctx).log(),
            ),
            r is Some <==> !final(ctx).failed(),
            r matches Some(pda) ==> {
                &&& pda_closed(pda@)
                &&& pda_sets(pda@)
                &&& one_char_each(pda@.alphabet)
                &&& !options.non_deterministic ==> single_valued(pda@.transitions)
                &&& !options.epsilon_moves ==> epsilon_free(pda@.transitions)
            },
    {
        proof {
            law_pda_closed(options, elements_view(items@), ctx.log());
            law_pda_sets(options, elements_view(items@), ctx.log());
            law_pda_letters(options, elements_view(items@), ctx.log());
            law_pda_within_options(options, elements_view(items@), ctx.log());
        }
        PdaCompiler::new(options).compile(items, ctx)
    }
}

/// The compiler of pushdown automata: what it has gathered so far.
pub struct PdaCompiler {
    options: Options,
    initial_state: Option<(String, Span)>,
    initial_stack: Option<(String, Span)>,
    accept_by: Option<(AcceptBy, Span)>,
    states: Names,
    states_def: Option<Span>,
    symbols: Names,
    symbols_def: Option<Span>,
    alphabet: Names,
    alphabet_def: Option<Span>,
    final_states: Names,
    final_states_def: Option<Span>,
    transitions: Vec<(TransitionFrom, TransitionTo)>,
}

impl View for PdaCompiler {
    type V = PdaBuild;

    closed spec fn view(&self) -> PdaBuild {
        PdaBuild {
            options: self.options,
            initial_state: slot_view(self.initial_state),
            initial_stack: slot_view(self.initial_stack),
            accept_by: self.accept_by,
            states: self.states@,
            states_def: self.states_def,
            symbols: self.symbols@,
            symbols_def: self.symbols_def,
            alphabet: self.alphabet@,
            alphabet_def: self.alphabet_def,
            final_states: self.final_states@,
            final_states_def: self.final_states_def,
            transitions: transitions_view(self.transitions@),
        }
    }
}

/// Whether `name` says that the machine accepts by empty stack.
fn accept_empty_name(name: &String) -> (b: bool)
    ensures
        b == is_accept_empty(name@),
{
    is_word(name, "N") || is_word(name, "n") || is_word(name, "null") || is_word(name, "empty")
        || is_word(name, "E") || is_word(name, "Z0") || is_word(name, "z0")
}

/// Whether `name` says that the machine accepts by final state.
fn accept_final_name(name: &String) -> (b: bool)
    ensures
        b == is_accept_final(name@),
{
    is_word(name, "F") || is_word(name, "final")
}

impl PdaCompiler {
    /// A compiler that has seen no declaration.
    pub fn new(options: Options) -> (r: Self)
        ensures
            r@ == pda_start(options),
    {
        let r = Self {
            options,
            initial_state: None,
            initial_stack: None,
            accept_by: None,
            states: Names::new(),
            states_def: None,
            symbols: Names::new(),
            symbols_def: None,
            alphabet: Names::new(),
            alphabet_def: None,
            final_states: Names::new(),
            final_states_def: None,
            transitions: Vec::new(),
        };
        assert(transitions_view(r.transitions@) =~= Seq::empty());
        r
    }

    /// Compiles the declarations and ends the compilation.
    pub fn compile(self, items: &Vec<Spanned<TopLevel>>, ctx: &mut Context) -> (r: Option<Pda>)
        ensures
            final(ctx).text() == old(ctx).text(),
            (pda_view(r), final(ctx).log()) == pda_finish(
                pda_all(self@, old(ctx).log(), elements_view(items@), items@.len() as int).0,
                pda_all(self@, old(ctx).log(), elements_view(items@), items@.len() as int).1,
            ),
    {
        let ghost start = self@;
        let ghost log0 = ctx.log();
        let ghost elements = elements_view(items@);
        let mut compiler = self;
        let mut i: usize = 0;
        while i < items.len()
            invariant
                0 <= i <= items.len(),
                elements == elements_view(items@),
                ctx.text() == old(ctx).text(),
                (compiler@, ctx.log()) == pda_all(start, log0, elements, i as int),
            decreases items.len() - i,
        {
            compiler.compile_top_level(ctx, &items[i].0, items[i].1);
            i += 1;
        }
        compiler.finish(ctx)
    }

    /// Reports the sections that were never declared.
    fn report_missing(&self, ctx: &mut Context)
        ensures
            final(ctx).text() == old(ctx).text(),
            final(ctx).log() == pda_missing(self@, old(ctx).log()),
    {
        if self.states_def.is_none() {
            advise1(ctx, LogLevel::Error, "states never defined", LogLevel::Help, "add: Q = {...}");
        }
        if self.alphabet_def.is_none() {
            advise2(
                ctx,
                LogLevel::Error,
                "alphabet never defined",
                LogLevel::Help,
                "add: E = {...}",
                LogLevel::Info,
                "E can be 'E' | 'S' | 'sigma' | 'Σ' | '𝚺' | '𝛴' | '𝜮' | '𝝨' | '𝞢' | '∑'",
            );
        }
        if self.symbols_def.is_none() {
            advise2(
                ctx,
                LogLevel::Error,
                "stack symbols never defined",
                LogLevel::Help,
                "add: G = {...}",
                LogLevel::Info,
                "G can be 'T' | 'G' | 'gamma' | 'Γ' | 'Ⲅ' | '𝚪' | '𝛤' | '𝜞' | '𝝘' | '𝞒'",
            );
        }
        if self.accept_by.is_none() {
            advise3(
                ctx,
                LogLevel::Error,
                "accept by never defined",
                LogLevel::Help,
                "add: accept = N|F",
                LogLevel::Info,
                "accept by empty stack N can be 'N' | 'n' | 'null' | 'empty' | 'E' | 'Z0' | 'z0'",
                LogLevel::Info,
                "accept by final state F can be 'F' | 'final'",
            );
        }
    }

    /// Holds the way of accepting against the final states.
    fn check_accept(&self, ctx: &mut Context)
        ensures
            final(ctx).text() == old(ctx).text(),
            final(ctx).log() == pda_accept_check(self@, old(ctx).log()),
    {
        match (self.accept_by, self.final_states_def) {
            (Some((AcceptBy::FinalState, _)), None) => {
                advise1(
                    ctx,
                    LogLevel::Error,
                    "final states never defined",
                    LogLevel::Help,
                    "add: F = {...}",
                );
            },
            (Some((AcceptBy::EmptyStack, empty)), Some(states)) => {
                let entry = LogEntry::error_locless(
                    "final states defined alongside accept by empty stack",
                ).emit_help("either remove to accept by empty stack", states).emit_help(
                    "or remove to accept by final state",
                    empty,
                );
                assert(entry@ =~= seq![
                    Note {
                        level: LogLevel::Error,
                        message: "final states defined alongside accept by empty stack"@,
                        span: None,
                    },
                    Note {
                        level: LogLevel::Help,
                        message: "either remove to accept by empty stack"@,
                        span: Some(states),
                    },
                    Note {
                        level: LogLevel::Help,
                        message: "or remove to accept by final state"@,
                        span: Some(empty),
                    },
                ]);
                ctx.emit(entry);
            },
            _ => {},
        }
    }

    /// Ends the compilation.
    fn finish(self, ctx: &mut Context) -> (r: Option<Pda>)
        ensures
            final(ctx).text() == old(ctx).text(),
            (pda_view(r), final(ctx).log()) == pda_finish(self@, old(ctx).log()),
    {
        self.report_missing(ctx);
        self.check_accept(ctx);
        let PdaCompiler {
            initial_state,
            initial_stack,
            accept_by,
            states,
            symbols,
            alphabet,
            final_states,
            transitions,
            ..
        } = self;
        let initial = resolve(Designated::InitialState, &states, initial_state, ctx);
        let stack = resolve(Designated::InitialStack, &symbols, initial_stack, ctx);
        if transitions.len() == 0 {
            advise3(
                ctx,
                LogLevel::Warning,
                "no transitions defined",
                LogLevel::Help,
                "consider defining one: d(state, letter|epsilon, symbol) = (state, [symbol]) | {(state, [symbol]), ...}",
                LogLevel::Info,
                "d can be 'delta' | 'D' | 'd' | 'ẟ' | 'δ' | '𝛅' | '𝛿' | '𝜹' | '𝝳' | '𝞭'",
                LogLevel::Info,
                "epsilon can be 'epsilon' | '~' | 'Ɛ' | 'ε' | 'ϵ' | '𝛆' | '𝛜' | '𝜀' | '𝜖' | '𝜺' | '𝝐' | '𝝴' | '𝞊' | '𝞮' | '𝟄' | 'ɛ'",
            );
        }
        if ctx.contains_errors() {
            return None;
        }
        let by_final = match accept_by {
            Some((AcceptBy::FinalState, _)) => true,
            _ => false,
        };
        Some(
            Pda {
                initial_state: State(initial),
                initial_stack: Symbol(stack),
                states: into_states(&states),
                symbols: into_symbols(&symbols),
                alphabet: into_letters(&alphabet),
                final_states: if by_final {
                    Some(into_states(&final_states))
                } else {
                    None
                },
                transitions,
            },
        )
    }

    /// Compiles one declaration.
    pub fn compile_top_level(&mut self, ctx: &mut Context, element: &TopLevel, span: Span)
        ensures
            final(ctx).text() == old(ctx).text(),
            (final(self)@, final(ctx).log()) == pda_top_level(
                old(self)@,
                old(ctx).log(),
                (element@, span),
            ),
    {
        match element {
            TopLevel::Item(name, value) => {
                self.compile_item(ctx, name, value, span);
            },
            TopLevel::TransitionFunc(head, value) => {
                if delta_name(&head.0.0.0) {
                    self.compile_transition_function(ctx, &head.0.1, value);
                } else {
                    emit_unknown_function(ctx, &head.0.0.0, head.1);
                }
            },
            TopLevel::ProductionRule(_, _) => {
                ctx.emit_error("unexpected production rule", span);
            },
            TopLevel::Table() => {
                ctx.emit_error("unexpected table", span);
            },
        }
    }

    /// Compiles one declaration of an item.
    pub fn compile_item(
        &mut self,
        ctx: &mut Context,
        name: &Spanned<String>,
        value: &Spanned<Item>,
        span: Span,
    )
        ensures
            final(ctx).text() == old(ctx).text(),
            (final(self)@, final(ctx).log()) == pda_item(
                old(self)@,
                old(ctx).log(),
                name.0@,
                name.1,
                value.spanned_view(),
                span,
            ),
    {
        if is_word(&name.0, "accept") {
            self.compile_accept_by(ctx, value, span);
        } else if is_word(&name.0, "Q") {
            self.compile_states(ctx, value, span);
        } else if gamma_name(&name.0) {
            self.compile_symbols(ctx, value, span);
        } else if sigma_name(&name.0) {
            self.compile_alphabet(ctx, value, span);
        } else if is_word(&name.0, "F") {
            self.compile_final_states(ctx, value, span);
        } else if is_word(&name.0, "q0") {
            self.compile_initial_state(ctx, value, span);
        } else if is_word(&name.0, "z0") {
            self.compile_initial_stack(ctx, value, span);
        } else {
            emit_unknown_item(
                ctx,
                &name.0,
                "states | stack symbols | alphabet | accept by | final states | initial state | initial stack",
                name.1,
            );
        }
    }

    /// Compiles the declaration of how the machine accepts.
    pub fn compile_accept_by(&mut self, ctx: &mut Context, item: &Spanned<Item>, top_level: Span)
        ensures
            final(ctx).text() == old(ctx).text(),
            (final(self)@.accept_by, final(ctx).log()) == accept_spec(
                old(self)@.accept_by,
                old(ctx).log(),
                item.spanned_view(),
                top_level,
            ),
            final(self)@ == (PdaBuild { accept_by: final(self)@.accept_by, ..old(self)@ }),
    {
        if let Some((_, previous)) = self.accept_by {
            emit_with_previous(ctx, "accept by already set", top_level, LogLevel::Info, previous);
        }
        let by = match item.expect_ident(ctx) {
            Some(by) => by,
            None => {
                return ;
            },
        };
        if accept_empty_name(by) {
            self.accept_by = Some((AcceptBy::EmptyStack, top_level));
        } else if accept_final_name(by) {
            self.accept_by = Some((AcceptBy::FinalState, top_level));
        } else {
            ctx.emit_error("invalid accept by", item.1);
        }
    }

    /// Compiles the declaration of the states.
    pub fn compile_states(&mut self, ctx: &mut Context, list: &Spanned<Item>, top_level: Span)
        ensures
            final(ctx).text() == old(ctx).text(),
            (final(self)@.states, final(self)@.states_def, final(ctx).log()) == section_spec(
                Section::States,
                old(self)@.states,
                old(self)@.states_def,
                old(ctx).log(),
                list.spanned_view(),
                top_level,
            ),
            final(self)@ == (PdaBuild {
                states: final(self)@.states,
                states_def: final(self)@.states_def,
                ..old(self)@
            }),
    {
        define_section(Section::States, &mut self.states, &mut self.states_def, ctx, list, top_level);
    }

    /// Compiles the declaration of the stack symbols.
    pub fn compile_symbols(&mut self, ctx: &mut Context, list: &Spanned<Item>, top_level: Span)
        ensures
            final(ctx).text() == old(ctx).text(),
            (final(self)@.symbols, final(self)@.symbols_def, final(ctx).log()) == section_spec(
                Section::StackSymbols,
                old(self)@.symbols,
                old(self)@.symbols_def,
                old(ctx).log(),
                list.spanned_view(),
                top_level,
            ),
            final(self)@ == (PdaBuild {
                symbols: final(self)@.symbols,
                symbols_def: final(self)@.symbols_def,
                ..old(self)@
            }),
    {
        define_section(
            Section::StackSymbols,
            &mut self.symbols,
            &mut self.symbols_def,
            ctx,
            list,
            top_level,
        );
    }

    /// Compiles the declaration of the alphabet.
    pub fn compile_alphabet(&mut self, ctx: &mut Context, list: &Spanned<Item>, top_level: Span)
        ensures
            final(ctx).text() == old(ctx).text(),
            (final(self)@.alphabet, final(self)@.alphabet_def, final(ctx).log()) == section_spec(
                Section::Alphabet,
                old(self)@.alphabet,
                old(self)@.alphabet_def,
                old(ctx).log(),
                list.spanned_view(),
                top_level,
            ),
            final(self)@ == (PdaBuild {
                alphabet: final(self)@.alphabet,
                alphabet_def: final(self)@.alphabet_def,
                ..old(self)@
            }),
    {
        define_section(
            Section::Alphabet,
            &mut self.alphabet,
            &mut self.alphabet_def,
            ctx,
            list,
            top_level,
        );
    }

    /// Compiles the declaration of the final states.
    pub fn compile_final_states(&mut self, ctx: &mut Context, list: &Spanned<Item>, top_level: Span)
        ensures
            final(ctx).text() == old(ctx).text(),
            (final(self)@.final_states, final(self)@.final_states_def, final(ctx).log())
                == finals_spec(
                old(self)@.states,
                old(self)@.final_states,
                old(self)@.final_states_def,
                old(ctx).log(),
                list.spanned_view(),
                top_level,
            ),
            final(self)@ == (PdaBuild {
                final_states: final(self)@.final_states,
                final_states_def: final(self)@.final_states_def,
                ..old(self)@
            }),
    {
        define_final_states(
            &self.states,
            &mut self.final_states,
            &mut self.final_states_def,
            ctx,
            list,
            top_level,
        );
    }

    /// Compiles the declaration of the initial state.
    pub fn compile_initial_state(&mut self, ctx: &mut Context, item: &Spanned<Item>, top_level: Span)
        ensures
            final(ctx).text() == old(ctx).text(),
            (final(self)@.initial_state, final(ctx).log()) == designate_spec(
                Designated::InitialState,
                old(self)@.states,
                old(self)@.initial_state,
                old(ctx).log(),
                item.spanned_view(),
                top_level,
            ),
            final(self)@ == (PdaBuild { initial_state: final(self)@.initial_state, ..old(self)@ }),
    {
        designate(
            Designated::InitialState,
            &self.states,
            &mut self.initial_state,
            ctx,
            item,
            top_level,
        );
    }

    /// Compiles the declaration of the initial stack symbol.
    pub fn compile_initial_stack(&mut self, ctx: &mut Context, item: &Spanned<Item>, top_level: Span)
        ensures
            final(ctx).text() == old(ctx).text(),
            (final(self)@.initial_stack, final(ctx).log()) == designate_spec(
                Designated::InitialStack,
                old(self)@.symbols,
                old(self)@.initial_stack,
                old(ctx).log(),
                item.spanned_view(),
                top_level,
            ),
            final(self)@ == (PdaBuild { initial_stack: final(self)@.initial_stack, ..old(self)@ }),
    {
        designate(
            Designated::InitialStack,
            &self.symbols,
            &mut self.initial_stack,
            ctx,
            item,
            top_level,
        );
    }

    /// Where the first target from `key` was declared, if there is one.
    fn first_target(&self, key: &TransitionFrom) -> (r: Option<Span>)
        ensures
            match first_for(self@.transitions, key@) {
                Some(previous) => r == Some(previous.transition),
                None => r is None,
            },
    {
        let ghost all = transitions_view(self.transitions@);
        let mut i: usize = 0;
        proof {
            assert(all.take(0) =~= Seq::empty());
        }
        while i < self.transitions.len()
            invariant
                0 <= i <= self.transitions.len(),
                all == transitions_view(self.transitions@),
                first_for(all.take(i as int), key@) is None,
            decreases self.transitions.len() - i,
        {
            proof {
                assert(all.take(i + 1).drop_last() =~= all.take(i as int));
                lemma_first_for_prefix(all, i + 1, key@);
            }
            if same_from(&self.transitions[i].0, key) {
                return Some(self.transitions[i].1.transition);
            }
            i += 1;
        }
        proof {
            assert(all.take(i as int) =~= all);
        }
        None
    }

    /// Whether the transition from `key` to `to` was declared.
    fn has_transition(&self, key: &TransitionFrom, to: &TransitionTo) -> (b: bool)
        ensures
            b == self@.transitions.contains((key@, to@)),
    {
        let ghost all = transitions_view(self.transitions@);
        let mut i: usize = 0;
        while i < self.transitions.len()
            invariant
                0 <= i <= self.transitions.len(),
                all == transitions_view(self.transitions@),
                forall|j: int| 0 <= j < i ==> all[j] != (key@, to@),
            decreases self.transitions.len() - i,
        {
            if same_from(&self.transitions[i].0, key) && same_to(&self.transitions[i].1, to) {
                assert(all[i as int] == (key@, to@));
                return true;
            }
            i += 1;
        }
        false
    }

    /// Reads the symbols to push, from the last one backwards.
    pub fn compile_stack(&self, ctx: &mut Context, items: &[Spanned<Item>]) -> (r: Vec<Symbol>)
        ensures
            final(ctx).text() == old(ctx).text(),
            (stack_view(r@), final(ctx).log()) == push_all(
                self@.symbols,
                old(ctx).log(),
                items_view(items@),
                items@.len() as int,
            ),
    {
        let ghost views = items_view(items@);
        let ghost log0 = ctx.log();
        let mut stack: Vec<Symbol> = Vec::new();
        let mut n: usize = 0;
        proof {
            assert(stack_view(stack@) =~= Seq::empty());
        }
        while n < items.len()
            invariant
                0 <= n <= items.len(),
                views == items_view(items@),
                ctx.text() == old(ctx).text(),
                (stack_view(stack@), ctx.log()) == push_all(self@.symbols, log0, views, n as int),
            decreases items.len() - n,
        {
            let item = &items[items.len() - 1 - n];
            let ghost before = stack_view(stack@);
            assert(views[items.len() - (n + 1)] == item.spanned_view());
            let is_epsilon = match &item.0 {
                Item::Symbol(crate::loader::ast::Symbol::Epsilon(_)) => true,
                _ => false,
            };
            if !is_epsilon {
                if let Some(ident) = item.expect_ident(ctx) {
                    if self.symbols.contains(ident) {
                        stack.push(Symbol(ident.clone()));
                        assert(stack_view(stack@) =~= before.push(ident@));
                    } else {
                        ctx.emit_error("transition stack symbol not defined", item.1);
                    }
                }
            }
            n += 1;
        }
        stack
    }

    /// Adds one target to the transitions from `key`.
    pub fn compile_target(
        &mut self,
        ctx: &mut Context,
        key: &TransitionFrom,
        function: Span,
        item: &Spanned<Item>,
    )
        ensures
            final(ctx).text() == old(ctx).text(),
            (final(self)@.transitions, final(ctx).log()) == pda_target(
                old(self)@,
                old(self)@.transitions,
                old(ctx).log(),
                key@,
                function,
                item.spanned_view(),
            ),
            final(self)@ == (PdaBuild { transitions: final(self)@.transitions, ..old(self)@ }),
    {
        let tuple = match item.expect_tuple(ctx) {
            Some(tuple) => tuple,
            None => {
                return ;
            },
        };
        let (next_state, list) = match tuple.expect_pda_transition(ctx) {
            Some(found) => found,
            None => {
                return ;
            },
        };
        if !self.states.contains(next_state.0) {
            ctx.emit_error("transition state not defined as state", next_state.1);
            return ;
        }
        let stack = self.compile_stack(ctx, list.list_weak());
        if !self.options.non_deterministic {
            if let Some(previous) = self.first_target(key) {
                emit_with_previous(
                    ctx,
                    "transition already defined for this starting point (non determinism not permitted)",
                    item.1,
                    LogLevel::Info,
                    previous,
                );
            }
        }
        let to = TransitionTo {
            state: State(next_state.0.clone()),
            stack,
            transition: item.1,
            function,
        };
        if self.has_transition(key, &to) {
            ctx.emit_warning("duplicate transition", item.1);
        } else {
            let ghost before = transitions_view(self.transitions@);
            self.transitions.push((key.duplicate(), to));
            assert(transitions_view(self.transitions@) =~= before.push((key@, to@)));
        }
    }

    /// Compiles one transition function declaration.
    pub fn compile_transition_function(
        &mut self,
        ctx: &mut Context,
        args: &Spanned<Tuple>,
        list: &Spanned<Item>,
    )
        ensures
            final(ctx).text() == old(ctx).text(),
            (final(self)@, final(ctx).log()) == pda_transition(
                old(self)@,
                old(ctx).log(),
                items_view(args.0.0@),
                args.1,
                list.spanned_view(),
            ),
    {
        let targets = list.set_weak();
        let (state, letter, symbol) = match args.as_ref().expect_pda_transition_function(ctx) {
            Some(found) => found,
            None => {
                return ;
            },
        };
        if !self.states.contains(state.0) {
            ctx.emit_error("transition state not defined as state", state.1);
            return ;
        }
        if !self.symbols.contains(symbol.0) {
            ctx.emit_error("transition stack symbol not defined as stack symbol", symbol.1);
            return ;
        }
        let read: Option<Letter> = match letter.0 {
            crate::loader::ast::Symbol::Epsilon(_) => {
                if !self.options.epsilon_moves {
                    ctx.emit_error("epsilon moves not permitted", letter.1);
                }
                None
            },
            crate::loader::ast::Symbol::Ident(name) => {
                if !self.alphabet.contains(name) {
                    ctx.emit_error("transition letter not defined in alphabet", letter.1);
                }
                Some(Letter(name.clone()))
            },
        };
        let key = TransitionFrom {
            state: State(state.0.clone()),
            letter: read,
            symbol: Symbol(symbol.0.clone()),
        };
        let ghost start = self@;
        let ghost log1 = ctx.log();
        let ghost views = items_view(targets@);
        let mut i: usize = 0;
        while i < targets.len()
            invariant
                0 <= i <= targets.len(),
                views == items_view(targets@),
                ctx.text() == old(ctx).text(),
                (self@.transitions, ctx.log()) == pda_targets(
                    start,
                    log1,
                    key@,
                    args.1,
                    views,
                    i as int,
                ),
                self@ == (PdaBuild { transitions: self@.transitions, ..start }),
            decreases targets.len() - i,
        {
            assert(views[i as int] == targets[i as int].spanned_view());
            self.compile_target(ctx, &key, args.1, &targets[i]);
            i += 1;
        }
    }
}

impl TransitionFrom {
    /// A copy of the start of a transition.
    pub fn duplicate(&self) -> (r: TransitionFrom)
        ensures
            r@ == self@,
    {
        TransitionFrom {
            state: State(self.state.0.clone()),
            letter: match &self.letter {
                Some(letter) => Some(Letter(letter.0.clone())),
                None => None,
            },
            symbol: Symbol(self.symbol.0.clone()),
        }
    }
}

/// Whether two stacks hold the same symbols in the same order.
fn same_stack(a: &Vec<Symbol>, b: &Vec<Symbol>) -> (r: bool)
    ensures
        r == (stack_view(a@) == stack_view(b@)),
{
    if a.len() != b.len() {
        assert(stack_view(a@).len() != stack_view(b@).len());
        return false;
    }
    let mut i: usize = 0;
    while i < a.len()
        invariant
            0 <= i <= a.len(),
            a.len() == b.len(),
            forall|j: int| 0 <= j < i ==> a@[j]@ == b@[j]@,
        decreases a.len() - i,
    {
        if !(a[i].0 == b[i].0) {
            assert(stack_view(a@)[i as int] != stack_view(b@)[i as int]);
            return false;
        }
        i += 1;
    }
    assert(stack_view(a@) =~= stack_view(b@));
    true
}

/// Whether two transitions start at the same state with the same letter and
/// the same stack symbol.
fn same_from(a: &TransitionFrom, b: &TransitionFrom) -> (r: bool)
    ensures
        r == (a@ == b@),
{
    a.state.0 == b.state.0 && a.symbol.0 == b.symbol.0 && match (&a.letter, &b.letter) {
        (Some(x), Some(y)) => x.0 == y.0,
        (None, None) => true,
        _ => false,
    }
}

/// Whether two targets are the same state with the same symbols to push,
/// declared at the same place.
fn same_to(a: &TransitionTo, b: &TransitionTo) -> (r: bool)
    ensures
        r == (a@ == b@),
{
    a.state.0 == b.state.0 && a.transition == b.transition && a.function == b.function
        && same_stack(&a.stack, &b.stack)
}

impl<'a> Spanned<&'a Tuple> {
    /// The state, the letter and the stack symbol of the arguments of a
    /// transition function; else an error is logged at the span of the
    /// arguments.
    pub fn expect_pda_transition_function(&self, ctx: &mut Context) -> (r: Option<
        (Spanned<&'a String>, Spanned<&'a crate::loader::ast::Symbol>, Spanned<&'a String>),
    >)
        ensures
            final(ctx).text() == old(ctx).text(),
            match pda_args(items_view(self.0.0@)) {
                Some((state, letter, symbol)) => r matches Some(found) && found.0.0@ == state.0
                    && found.0.1 == state.1 && found.1.0@ == letter.0 && found.1.1 == letter.1
                    && found.2.0@ == symbol.0 && found.2.1 == symbol.1 && final(ctx).log() == old(
                    ctx,
                ).log(),
                None => r is None && final(ctx).log() == old(ctx).log().push(
                    single(
                        LogLevel::Error,
                        "expected PDA transition function (state, letter|epsilon, symbol)"@,
                        Some(self.1),
                    ),
                ),
            },
    {
        let items = &self.0.0;
        if items.len() == 3 {
            assert(items_view(items@)[0] == items@[0].spanned_view());
            assert(items_view(items@)[1] == items@[1].spanned_view());
            assert(items_view(items@)[2] == items@[2].spanned_view());
            match (&items[0].0, &items[1].0, &items[2].0) {
                (
                    Item::Symbol(crate::loader::ast::Symbol::Ident(state)),
                    Item::Symbol(letter),
                    Item::Symbol(crate::loader::ast::Symbol::Ident(symbol)),
                ) => {
                    return Some(
                        (
                            Spanned(state, items[0].1),
                            Spanned(letter, items[1].1),
                            Spanned(symbol, items[2].1),
                        ),
                    );
                },
                _ => {},
            }
        }
        ctx.emit_error("expected PDA transition function (state, letter|epsilon, symbol)", self.1);
        None
    }

    /// The state of a target and what it pushes; else an error is logged at
    /// the span of the target.
    pub fn expect_pda_transition(&self, ctx: &mut Context) -> (r: Option<
        (Spanned<&'a String>, &'a Spanned<Item>),
    >)
        ensures
            final(ctx).text() == old(ctx).text(),
            match pda_parts(items_view(self.0.0@)) {
                Some((state, list)) => r matches Some(found) && found.0.0@ == state.0
                    && found.0.1 == state.1 && found.1.spanned_view() == list && final(ctx).log()
                    == old(ctx).log(),
                None => r is None && final(ctx).log() == old(ctx).log().push(
                    single(
                        LogLevel::Error,
                        "expected PDA transition (state, symbol|[symbol])"@,
                        Some(self.1),
                    ),
                ),
            },
    {
        let items = &self.0.0;
        if items.len() == 2 {
            assert(items_view(items@)[0] == items@[0].spanned_view());
            assert(items_view(items@)[1] == items@[1].spanned_view());
            match &items[0].0 {
                Item::Symbol(crate::loader::ast::Symbol::Ident(state)) => {
                    return Some((Spanned(state, items[0].1), &items[1]));
                },
                _ => {},
            }
        }
        ctx.emit_error("expected PDA transition (state, symbol|[symbol])", self.1);
        None
    }
}

proof fn lemma_push_all(symbols: Table, log: Seq<Seq<Note>>, items: Seq<(ItemView, Span)>, n: int)
    ensures
        extends(push_all(symbols, log, items, n).1, log),
    decreases n,
{
    if n > 0 && n <= items.len() {
        lemma_push_all(symbols, log, items, n - 1);
    }
}

proof fn lemma_pda_target(
    b: PdaBuild,
    transitions: Seq<(FromView, ToView)>,
    log: Seq<Seq<Note>>,
    key: FromView,
    function: Span,
    item: (ItemView, Span),
)
    ensures
        extends(pda_target(b, transitions, log, key, function, item).1, log),
{
    match item.0 {
        ItemView::Tuple(parts) => match pda_parts(parts) {
            Some((next, list)) => {
                let items = weak_view(list);
                lemma_push_all(b.symbols, log, items, items.len() as int);
            },
            None => {},
        },
        _ => {},
    }
}

proof fn lemma_pda_targets(
    b: PdaBuild,
    log: Seq<Seq<Note>>,
    key: FromView,
    function: Span,
    items: Seq<(ItemView, Span)>,
    n: int,
)
    ensures
        extends(pda_targets(b, log, key, function, items, n).1, log),
    decreases n,
{
    if n > 0 {
        lemma_pda_targets(b, log, key, function, items, n - 1);
        let (transitions, log1) = pda_targets(b, log, key, function, items, n - 1);
        lemma_pda_target(b, transitions, log1, key, function, items[n - 1]);
    }
}

proof fn lemma_pda_transition(
    b: PdaBuild,
    log: Seq<Seq<Note>>,
    args: Seq<(ItemView, Span)>,
    args_span: Span,
    value: (ItemView, Span),
)
    ensures
        extends(pda_transition(b, log, args, args_span, value).1, log),
        pda_transition(b, log, args, args_span, value).0 == (PdaBuild {
            transitions: pda_transition(b, log, args, args_span, value).0.transitions,
            ..b
        }),
{
    match pda_args(args) {
        Some((state, letter, symbol)) => {
            if defines(b.states, state.0) && defines(b.symbols, symbol.0) {
                let (read, log1) = match letter.0 {
                    SymbolView::Epsilon(_) => (
                        None,
                        if !b.options.epsilon_moves {
                            log.push(
                                single(
                                    LogLevel::Error,
                                    "epsilon moves not permitted"@,
                                    Some(letter.1),
                                ),
                            )
                        } else {
                            log
                        },
                    ),
                    SymbolView::Ident(name) => (
                        Some(name),
                        if !defines(b.alphabet, name) {
                            log.push(
                                single(
                                    LogLevel::Error,
                                    "transition letter not defined in alphabet"@,
                                    Some(letter.1),
                                ),
                            )
                        } else {
                            log
                        },
                    ),
                };
                let key = FromView { state: state.0, letter: read, symbol: symbol.0 };
                let targets = weak_view(value);
                lemma_pda_targets(b, log1, key, args_span, targets, targets.len() as int);
            }
        },
        None => {},
    }
}

/// Whether a declaration says how the machine accepts.
pub open spec fn declares_accept(element: (TopLevelView, Span)) -> bool {
    element.0 matches TopLevelView::Item { name, .. } && name == "accept"@
}

/// Whether a declaration says that the machine accepts by empty stack.
pub open spec fn declares_accept_empty(element: (TopLevelView, Span)) -> bool {
    element.0 matches TopLevelView::Item { name, value, .. } && name == "accept"@ && (value.0
        matches ItemView::Symbol(SymbolView::Ident(by)) && is_accept_empty(by))
}

/// Whether a declaration gives the final states as a set.
pub open spec fn declares_final_states(element: (TopLevelView, Span)) -> bool {
    element.0 matches TopLevelView::Item { name, value, .. } && name == "F"@ && value.0 is List
}

proof fn lemma_final_name()
    ensures
        "F"@ != "accept"@,
        "F"@ != "Q"@,
        !is_gamma("F"@),
        !is_sigma("F"@),
{
    reveal_strlit("F");
    reveal_strlit("accept");
    reveal_strlit("Q");
    reveal_strlit("T");
    reveal_strlit("G");
    reveal_strlit("gamma");
    reveal_strlit("Γ");
    reveal_strlit("Ⲅ");
    reveal_strlit("𝚪");
    reveal_strlit("𝛤");
    reveal_strlit("𝜞");
    reveal_strlit("𝝘");
    reveal_strlit("𝞒");
    reveal_strlit("E");
    reveal_strlit("S");
    reveal_strlit("sigma");
    reveal_strlit("Σ");
    reveal_strlit("𝚺");
    reveal_strlit("𝛴");
    reveal_strlit("𝜮");
    reveal_strlit("𝝨");
    reveal_strlit("𝞢");
    reveal_strlit("∑");
    let f = "F"@;
    assert(f.len() == 1 && f[0] == 'F');
    assert("accept"@.len() == 6);
    assert("Q"@[0] == 'Q');
    assert("T"@[0] == 'T');
    assert("G"@[0] == 'G');
    assert("gamma"@.len() == 5);
    assert("Γ"@[0] == 'Γ');
    assert("Ⲅ"@[0] == 'Ⲅ');
    assert("𝚪"@[0] == '𝚪');
    assert("𝛤"@[0] == '𝛤');
    assert("𝜞"@[0] == '𝜞');
    assert("𝝘"@[0] == '𝝘');
    assert("𝞒"@[0] == '𝞒');
    assert("E"@[0] == 'E');
    assert("S"@[0] == 'S');
    assert("sigma"@.len() == 5);
    assert("Σ"@[0] == 'Σ');
    assert("𝚺"@[0] == '𝚺');
    assert("𝛴"@[0] == '𝛴');
    assert("𝜮"@[0] == '𝜮');
    assert("𝝨"@[0] == '𝝨');
    assert("𝞢"@[0] == '𝞢');
    assert("∑"@[0] == '∑');
}

proof fn lemma_pda_top_level(b: PdaBuild, log: Seq<Seq<Note>>, element: (TopLevelView, Span))
    ensures
        extends(pda_top_level(b, log, element).1, log),
        b.final_states_def is Some ==> pda_top_level(b, log, element).0.final_states_def is Some,
        declares_final_states(element) ==> pda_top_level(b, log, element).0.final_states_def
            is Some,
        !declares_accept(element) ==> pda_top_level(b, log, element).0.accept_by == b.accept_by,
        declares_accept_empty(element) ==> pda_top_level(b, log, element).0.accept_by matches Some(
            (AcceptBy::EmptyStack, _),
        ),
{
    match element.0 {
        TopLevelView::Item { name, name_span, value } => {
            if name == "accept"@ {
            } else if name == "Q"@ {
                lemma_section(Section::States, b.states, b.states_def, log, value, element.1);
            } else if is_gamma(name) {
                lemma_section(Section::StackSymbols, b.symbols, b.symbols_def, log, value, element.1);
            } else if is_sigma(name) {
                lemma_section(Section::Alphabet, b.alphabet, b.alphabet_def, log, value, element.1);
            } else if name == "F"@ {
                let (finals, def, log1) = finals_spec(
                    b.states,
                    b.final_states,
                    b.final_states_def,
                    log,
                    value,
                    element.1,
                );
                lemma_finals_extends(
                    b.states,
                    b.final_states,
                    b.final_states_def,
                    log,
                    value,
                    element.1,
                );
            } else {
            }
            if name == "F"@ {
                lemma_final_name();
            }
        },
        TopLevelView::TransitionFunc { name, name_span, args, args_span, head_span, value } => {
            if is_delta(name) {
                lemma_pda_transition(b, log, args, args_span, value);
            }
        },
        _ => {},
    }
}

proof fn lemma_final_all_extends(
    states: Table,
    finals: Table,
    log: Seq<Seq<Note>>,
    items: Seq<(ItemView, Span)>,
    n: int,
)
    ensures
        extends(crate::automatan::final_all(states, finals, log, items, n).1, log),
    decreases n,
{
    if n > 0 {
        lemma_final_all_extends(states, finals, log, items, n - 1);
    }
}

proof fn lemma_finals_extends(
    states: Table,
    finals: Table,
    def: Option<Span>,
    log: Seq<Seq<Note>>,
    value: (ItemView, Span),
    top_level: Span,
)
    ensures
        extends(finals_spec(states, finals, def, log, value, top_level).2, log),
{
    let log1 = match def {
        Some(previous) => log.push(
            noted(
                LogLevel::Error,
                "final states already set"@,
                Some(top_level),
                LogLevel::Help,
                "previously defined here"@,
                Some(previous),
            ),
        ),
        None => log,
    };
    match value.0 {
        ItemView::List(items, _) => {
            lemma_final_all_extends(states, finals, log1, items, items.len() as int);
        },
        _ => {},
    }
}

/// Ending the compilation adds to the log, and there is a machine only if
/// the log has no error, the way of accepting was declared, and it does not
/// stand against the final states.
pub proof fn lemma_pda_finish(b: PdaBuild, log: Seq<Seq<Note>>)
    ensures
        extends(pda_finish(b, log).1, log),
        pda_finish(b, log).0 is Some <==> !has_error(pda_finish(b, log).1),
        has_error(log) ==> pda_finish(b, log).0 is None,
        b.accept_by is None ==> pda_finish(b, log).0 is None,
        (b.accept_by matches Some((AcceptBy::EmptyStack, _))) && b.final_states_def is Some
            ==> pda_finish(b, log).0 is None,
        (b.accept_by matches Some((AcceptBy::FinalState, _))) && b.final_states_def is None
            ==> pda_finish(b, log).0 is None,
{
    let log0 = pda_missing(b, log);
    let log1 = pda_accept_check(b, log0);
    assert(extends(log0, log));
    assert(extends(log1, log0));
    if b.accept_by is None {
        lemma_last_error(log0);
    }
    if log1 != log0 {
        lemma_last_error(log1);
    }
    if has_error(log0) {
        lemma_extends_error(log1, log0);
    }
    let (initial_state, log2) = resolve_spec(
        Designated::InitialState,
        b.states,
        b.initial_state,
        log1,
    );
    let (initial_stack, log3) = resolve_spec(
        Designated::InitialStack,
        b.symbols,
        b.initial_stack,
        log2,
    );
    let log4 = pda_finish(b, log).1;
    assert(extends(log2, log1));
    assert(extends(log3, log2));
    assert(extends(log4, log3));
    assert(extends(log4, log));
    assert(extends(log4, log1));
    if has_error(log) {
        lemma_extends_error(log4, log);
    }
    if has_error(log1) {
        lemma_extends_error(log4, log1);
    }
}

proof fn lemma_pda_all(
    b: PdaBuild,
    log: Seq<Seq<Note>>,
    elements: Seq<(TopLevelView, Span)>,
    k: int,
    n: int,
)
    requires
        0 <= k <= n <= elements.len(),
    ensures
        extends(pda_all(b, log, elements, n).1, pda_all(b, log, elements, k).1),
        pda_all(b, log, elements, k).0.final_states_def is Some ==> pda_all(
            b,
            log,
            elements,
            n,
        ).0.final_states_def is Some,
        (exists|f: int| k <= f < n && declares_final_states(elements[f])) ==> pda_all(
            b,
            log,
            elements,
            n,
        ).0.final_states_def is Some,
        (forall|a: int| k <= a < n ==> !declares_accept(elements[a])) ==> pda_all(
            b,
            log,
            elements,
            n,
        ).0.accept_by == pda_all(b, log, elements, k).0.accept_by,
        (forall|a: int| k <= a < n && declares_accept(elements[a]) ==> declares_accept_empty(
            elements[a],
        )) && (exists|a: int| k <= a < n && declares_accept(elements[a])) ==> pda_all(
            b,
            log,
            elements,
            n,
        ).0.accept_by matches Some((AcceptBy::EmptyStack, _)),
    decreases n,
{
    if k < n {
        lemma_pda_all(b, log, elements, k, n - 1);
        let (b1, log1) = pda_all(b, log, elements, n - 1);
        lemma_pda_top_level(b1, log1, elements[n - 1]);
        let (b2, log2) = pda_all(b, log, elements, n);
        if exists|f: int| k <= f < n && declares_final_states(elements[f]) {
            let f = choose|f: int| k <= f < n && declares_final_states(elements[f]);
            if f < n - 1 {
                assert(b1.final_states_def is Some);
            }
        }
        if (forall|a: int|
            k <= a < n && declares_accept(elements[a]) ==> declares_accept_empty(elements[a])) && (
        exists|a: int| k <= a < n && declares_accept(elements[a])) {
            let a = choose|a: int| k <= a < n && declares_accept(elements[a]);
            if declares_accept(elements[n - 1]) {
                assert(declares_accept_empty(elements[n - 1]));
            } else {
                assert(a < n - 1);
                assert(b1.accept_by matches Some((AcceptBy::EmptyStack, _)));
            }
        }
    }
}

/// A pushdown automaton whose declarations never say how it accepts is not
/// compiled: the log has an error at the end and there is no machine.
pub proof fn law_pda_accept_never(
    options: Options,
    elements: Seq<(TopLevelView, Span)>,
    log: Seq<Seq<Note>>,
)
    requires
        forall|a: int| 0 <= a < elements.len() ==> !declares_accept(elements[a]),
    ensures
        pda_compile(options, elements, log).0 is None,
        has_error(pda_compile(options, elements, log).1),
{
    let n = elements.len() as int;
    lemma_pda_all(pda_start(options), log, elements, 0, n);
    let (b, log1) = pda_all(pda_start(options), log, elements, n);
    lemma_pda_finish(b, log1);
}

/// A pushdown automaton that is declared to accept by empty stack and has
/// its final states declared as well is not compiled: the log has an error
/// at the end and there is no machine. Here every declaration of how the
/// machine accepts says by empty stack, and there is at least one.
pub proof fn law_pda_accept_both(
    options: Options,
    elements: Seq<(TopLevelView, Span)>,
    log: Seq<Seq<Note>>,
    f: int,
    a: int,
)
    requires
        0 <= f < elements.len(),
        0 <= a < elements.len(),
        declares_final_states(elements[f]),
        declares_accept(elements[a]),
        forall|k: int|
            0 <= k < elements.len() && declares_accept(elements[k]) ==> declares_accept_empty(
                elements[k],
            ),
    ensures
        pda_compile(options, elements, log).0 is None,
        has_error(pda_compile(options, elements, log).1),
{
    let n = elements.len() as int;
    lemma_pda_all(pda_start(options), log, elements, 0, n);
    let (b, log1) = pda_all(pda_start(options), log, elements, n);
    lemma_pda_finish(b, log1);
}

/// An error that was logged stays: a compilation whose log has an error
/// after some of the declarations gives no machine, and its log has an
/// error at the end.
pub proof fn law_pda_error_stays(
    options: Options,
    elements: Seq<(TopLevelView, Span)>,
    log: Seq<Seq<Note>>,
    k: int,
)
    requires
        0 <= k <= elements.len(),
        has_error(pda_all(pda_start(options), log, elements, k).1),
    ensures
        pda_compile(options, elements, log).0 is None,
        has_error(pda_compile(options, elements, log).1),
{
    let n = elements.len() as int;
    lemma_pda_all(pda_start(options), log, elements, k, n);
    let (b, log1) = pda_all(pda_start(options), log, elements, n);
    lemma_extends_error(log1, pda_all(pda_start(options), log, elements, k).1);
    lemma_pda_finish(b, log1);
}


/// Whether every transition starts and ends at a state of `states`, takes a
/// symbol of `symbols` from the stack and pushes symbols of `symbols` only.
pub open spec fn names_known(states: Table, symbols: Table, transitions: Seq<(FromView, ToView)>) -> bool {
    forall|i: int|
        0 <= i < transitions.len() ==> {
            &&& defines(states, (#[trigger] transitions[i]).0.state)
            &&& defines(states, transitions[i].1.state)
            &&& defines(symbols, transitions[i].0.symbol)
            &&& stack_known(symbols, transitions[i].1.stack)
        }
}

/// Whether every symbol of `stack` is a symbol of `symbols`.
pub open spec fn stack_known(symbols: Table, stack: Seq<Seq<char>>) -> bool {
    forall|k: int| 0 <= k < stack.len() ==> defines(symbols, #[trigger] stack[k])
}

/// Whether every letter that a transition reads is a letter of `alphabet`.
pub open spec fn letters_known(alphabet: Table, transitions: Seq<(FromView, ToView)>) -> bool {
    forall|i: int|
        0 <= i < transitions.len() ==> ((#[trigger] transitions[i]).0.letter matches Some(letter)
            ==> defines(alphabet, letter))
}

/// Whether a machine refers to declared names only: every transition starts
/// and ends at a declared state, reads a declared letter or none, and takes
/// and pushes declared stack symbols; the initial state and the final states
/// are declared states, and the initial stack symbol is a declared stack
/// symbol.
pub open spec fn pda_closed(m: PdaView) -> bool {
    &&& names_known(m.states, m.symbols, m.transitions)
    &&& letters_known(m.alphabet, m.transitions)
    &&& m.final_states matches Some(states) ==> within(states, m.states)
    &&& defines(m.states, m.initial_state)
    &&& defines(m.symbols, m.initial_stack)
}

/// What holds of the compiler's state after every declaration: as
/// `pda_closed`, but a letter may be undeclared where the log has an error.
pub open spec fn pda_sound(b: PdaBuild, log: Seq<Seq<Note>>) -> bool {
    &&& names_known(b.states, b.symbols, b.transitions)
    &&& letters_known(b.alphabet, b.transitions) || has_error(log)
    &&& within(b.final_states, b.states)
    &&& b.initial_state matches Some((name, _)) ==> defines(b.states, name)
    &&& b.initial_stack matches Some((name, _)) ==> defines(b.symbols, name)
}

proof fn lemma_push_known(symbols: Table, log: Seq<Seq<Note>>, items: Seq<(ItemView, Span)>, n: int)
    ensures
        stack_known(symbols, push_all(symbols, log, items, n).0),
    decreases n,
{
    if n > 0 && n <= items.len() {
        lemma_push_known(symbols, log, items, n - 1);
    }
}

proof fn lemma_pda_target_sound(
    b: PdaBuild,
    transitions: Seq<(FromView, ToView)>,
    log: Seq<Seq<Note>>,
    key: FromView,
    function: Span,
    item: (ItemView, Span),
)
    requires
        defines(b.states, key.state),
        defines(b.symbols, key.symbol),
        names_known(b.states, b.symbols, transitions),
        letters_known(b.alphabet, transitions) || has_error(log),
        (key.letter matches Some(letter) ==> defines(b.alphabet, letter)) || has_error(log),
    ensures
        names_known(b.states, b.symbols, pda_target(b, transitions, log, key, function, item).0),
        letters_known(b.alphabet, pda_target(b, transitions, log, key, function, item).0)
            || has_error(pda_target(b, transitions, log, key, function, item).1),
{
    let (after, log1) = pda_target(b, transitions, log, key, function, item);
    lemma_pda_target(b, transitions, log, key, function, item);
    if has_error(log) {
        lemma_extends_error(log1, log);
    }
    match item.0 {
        ItemView::Tuple(parts) => match pda_parts(parts) {
            Some((next, list)) => {
                let items = weak_view(list);
                lemma_push_known(b.symbols, log, items, items.len() as int);
            },
            None => {},
        },
        _ => {},
    }
}

proof fn lemma_pda_targets_sound(
    b: PdaBuild,
    log: Seq<Seq<Note>>,
    key: FromView,
    function: Span,
    items: Seq<(ItemView, Span)>,
    n: int,
)
    requires
        defines(b.states, key.state),
        defines(b.symbols, key.symbol),
        names_known(b.states, b.symbols, b.transitions),
        letters_known(b.alphabet, b.transitions) || has_error(log),
        (key.letter matches Some(letter) ==> defines(b.alphabet, letter)) || has_error(log),
    ensures
        names_known(b.states, b.symbols, pda_targets(b, log, key, function, items, n).0),
        letters_known(b.alphabet, pda_targets(b, log, key, function, items, n).0) || has_error(
            pda_targets(b, log, key, function, items, n).1,
        ),
    decreases n,
{
    if n > 0 {
        lemma_pda_targets_sound(b, log, key, function, items, n - 1);
        lemma_pda_targets(b, log, key, function, items, n - 1);
        let (transitions, log1) = pda_targets(b, log, key, function, items, n - 1);
        if has_error(log) {
            lemma_extends_error(log1, log);
        }
        lemma_pda_target_sound(b, transitions, log1, key, function, items[n - 1]);
    }
}

proof fn lemma_pda_transition_sound(
    b: PdaBuild,
    log: Seq<Seq<Note>>,
    args: Seq<(ItemView, Span)>,
    args_span: Span,
    value: (ItemView, Span),
)
    requires
        pda_sound(b, log),
    ensures
        pda_sound(
            pda_transition(b, log, args, args_span, value).0,
            pda_transition(b, log, args, args_span, value).1,
        ),
{
    let (b1, log2) = pda_transition(b, log, args, args_span, value);
    lemma_pda_transition(b, log, args, args_span, value);
    if has_error(log) {
        lemma_extends_error(log2, log);
    }
    match pda_args(args) {
        Some((state, letter, symbol)) => {
            if defines(b.states, state.0) && defines(b.symbols, symbol.0) {
                let (read, log1) = match letter.0 {
                    SymbolView::Epsilon(_) => (
                        None,
                        if !b.options.epsilon_moves {
                            log.push(
                                single(
                                    LogLevel::Error,
                                    "epsilon moves not permitted"@,
                                    Some(letter.1),
                                ),
                            )
                        } else {
                            log
                        },
                    ),
                    SymbolView::Ident(name) => (
                        Some(name),
                        if !defines(b.alphabet, name) {
                            log.push(
                                single(
                                    LogLevel::Error,
                                    "transition letter not defined in alphabet"@,
                                    Some(letter.1),
                                ),
                            )
                        } else {
                            log
                        },
                    ),
                };
                if log1 != log {
                    lemma_last_error(log1);
                }
                if has_error(log) {
                    lemma_extends_error(log1, log);
                }
                let key = FromView { state: state.0, letter: read, symbol: symbol.0 };
                let targets = weak_view(value);
                lemma_pda_targets_sound(b, log1, key, args_span, targets, targets.len() as int);
            }
        },
        None => {},
    }
}

proof fn lemma_names_covers(
    states: Table,
    symbols: Table,
    states1: Table,
    symbols1: Table,
    transitions: Seq<(FromView, ToView)>,
)
    requires
        names_known(states, symbols, transitions),
        covers(states1, states),
        covers(symbols1, symbols),
    ensures
        names_known(states1, symbols1, transitions),
{
    assert forall|i: int| 0 <= i < transitions.len() implies {
        &&& defines(states1, (#[trigger] transitions[i]).0.state)
        &&& defines(states1, transitions[i].1.state)
        &&& defines(symbols1, transitions[i].0.symbol)
        &&& stack_known(symbols1, transitions[i].1.stack)
    } by {
        assert(stack_known(symbols, transitions[i].1.stack));
    }
}

proof fn lemma_covers_self(table: Table)
    ensures
        covers(table, table),
{
}

proof fn lemma_pda_top_level_sound(b: PdaBuild, log: Seq<Seq<Note>>, element: (TopLevelView, Span))
    requires
        pda_sound(b, log),
    ensures
        pda_sound(pda_top_level(b, log, element).0, pda_top_level(b, log, element).1),
{
    let (b1, log1) = pda_top_level(b, log, element);
    lemma_pda_top_level(b, log, element);
    if has_error(log) {
        lemma_extends_error(log1, log);
    }
    match element.0 {
        TopLevelView::Item { name, name_span, value } => {
            if name == "accept"@ {
            } else if name == "Q"@ {
                lemma_section(Section::States, b.states, b.states_def, log, value, element.1);
                lemma_within_covers(b.final_states, b.states, b1.states);
                lemma_covers_self(b.symbols);
                lemma_names_covers(b.states, b.symbols, b1.states, b.symbols, b.transitions);
            } else if is_gamma(name) {
                lemma_section(Section::StackSymbols, b.symbols, b.symbols_def, log, value, element.1);
                lemma_covers_self(b.states);
                lemma_names_covers(b.states, b.symbols, b.states, b1.symbols, b.transitions);
            } else if is_sigma(name) {
                lemma_section(Section::Alphabet, b.alphabet, b.alphabet_def, log, value, element.1);
            } else if name == "F"@ {
                lemma_finals(
                    b.states,
                    b.final_states,
                    b.final_states_def,
                    log,
                    value,
                    element.1,
                );
            } else if name == "q0"@ {
                lemma_designate(
                    Designated::InitialState,
                    b.states,
                    b.initial_state,
                    log,
                    value,
                    element.1,
                );
            } else if name == "z0"@ {
                lemma_designate(
                    Designated::InitialStack,
                    b.symbols,
                    b.initial_stack,
                    log,
                    value,
                    element.1,
                );
            } else {
            }
        },
        TopLevelView::TransitionFunc { name, name_span, args, args_span, head_span, value } => {
            if is_delta(name) {
                lemma_pda_transition_sound(b, log, args, args_span, value);
            }
        },
        _ => {},
    }
}

proof fn lemma_pda_all_sound(
    b: PdaBuild,
    log: Seq<Seq<Note>>,
    elements: Seq<(TopLevelView, Span)>,
    n: int,
)
    requires
        pda_sound(b, log),
    ensures
        pda_sound(pda_all(b, log, elements, n).0, pda_all(b, log, elements, n).1),
    decreases n,
{
    if n > 0 {
        lemma_pda_all_sound(b, log, elements, n - 1);
        let (b1, log1) = pda_all(b, log, elements, n - 1);
        lemma_pda_top_level_sound(b1, log1, elements[n - 1]);
    }
}

/// No dangling references: a pushdown automaton that was compiled refers to
/// declared names only. Every state that a transition starts or ends at, the
/// initial state and every final state is a declared state; every letter
/// that a transition reads is a declared letter; every symbol that a
/// transition takes from the stack or pushes, and the initial stack symbol,
/// is a declared stack symbol.
pub proof fn law_pda_closed(options: Options, elements: Seq<(TopLevelView, Span)>, log: Seq<Seq<Note>>)
    ensures
        pda_compile(options, elements, log).0 matches Some(m) ==> pda_closed(m),
{
    let n = elements.len() as int;
    lemma_pda_all_sound(pda_start(options), log, elements, n);
    let (b, log0) = pda_all(pda_start(options), log, elements, n);
    lemma_pda_finish(b, log0);
    let log1 = pda_accept_check(b, pda_missing(b, log0));
    assert(extends(log1, log0));
    lemma_resolve(Designated::InitialState, b.states, b.initial_state, log1);
    let (initial_state, log2) = resolve_spec(
        Designated::InitialState,
        b.states,
        b.initial_state,
        log1,
    );
    lemma_resolve(Designated::InitialStack, b.symbols, b.initial_stack, log2);
    let (initial_stack, log3) = resolve_spec(
        Designated::InitialStack,
        b.symbols,
        b.initial_stack,
        log2,
    );
    let log4 = pda_finish(b, log0).1;
    assert(extends(log4, log3));
    assert(extends(log4, log2));
    assert(extends(log4, log0));
    if has_error(log0) {
        lemma_extends_error(log4, log0);
    }
    if has_error(log2) {
        lemma_extends_error(log4, log2);
    }
    if has_error(log3) {
        lemma_extends_error(log4, log3);
    }
}

/// Epsilon is accepted exactly where epsilon moves are permitted. A
/// transition function declared from a declared state and stack symbol on
/// epsilon logs the error `epsilon moves not permitted` if the options do not
/// permit epsilon moves, and then the log has an error from there on; if they
/// permit them, nothing is logged for the epsilon.
pub proof fn law_pda_epsilon(
    b: PdaBuild,
    log: Seq<Seq<Note>>,
    args: Seq<(ItemView, Span)>,
    args_span: Span,
    value: (ItemView, Span),
)
    requires
        pda_args(args) matches Some((state, letter, symbol)) && defines(b.states, state.0)
            && defines(b.symbols, symbol.0) && letter.0 is Epsilon,
    ensures
        !b.options.epsilon_moves ==> has_error(pda_transition(b, log, args, args_span, value).1),
        b.options.epsilon_moves ==> pda_transition(b, log, args, args_span, value) == ({
            let (state, letter, symbol) = pda_args(args).unwrap();
            let key = FromView { state: state.0, letter: None, symbol: symbol.0 };
            let targets = weak_view(value);
            let (transitions, log1) = pda_targets(
                b,
                log,
                key,
                args_span,
                targets,
                targets.len() as int,
            );
            (PdaBuild { transitions, ..b }, log1)
        }),
{
    let (state, letter, symbol) = pda_args(args).unwrap();
    if !b.options.epsilon_moves {
        let log1 = log.push(
            single(LogLevel::Error, "epsilon moves not permitted"@, Some(letter.1)),
        );
        lemma_last_error(log1);
        let key = FromView { state: state.0, letter: None, symbol: symbol.0 };
        let targets = weak_view(value);
        lemma_pda_targets(b, log1, key, args_span, targets, targets.len() as int);
        lemma_extends_error(pda_transition(b, log, args, args_span, value).1, log1);
    }
}


/// Whether the tables of a machine are sets: no state, stack symbol, letter
/// or final state stands twice, and no transition stands twice.
pub open spec fn pda_sets(m: PdaView) -> bool {
    &&& distinct(m.states)
    &&& distinct(m.symbols)
    &&& distinct(m.alphabet)
    &&& m.final_states matches Some(states) ==> distinct(states)
    &&& m.transitions.no_duplicates()
}

/// What holds of the compiler's tables after every declaration: they are
/// sets.
pub open spec fn pda_build_sets(b: PdaBuild) -> bool {
    &&& distinct(b.states)
    &&& distinct(b.symbols)
    &&& distinct(b.alphabet)
    &&& distinct(b.final_states)
    &&& b.transitions.no_duplicates()
}

proof fn lemma_pda_targets_sets(
    b: PdaBuild,
    log: Seq<Seq<Note>>,
    key: FromView,
    function: Span,
    items: Seq<(ItemView, Span)>,
    n: int,
)
    requires
        b.transitions.no_duplicates(),
    ensures
        pda_targets(b, log, key, function, items, n).0.no_duplicates(),
    decreases n,
{
    if n > 0 {
        lemma_pda_targets_sets(b, log, key, function, items, n - 1);
        let (transitions, log1) = pda_targets(b, log, key, function, items, n - 1);
        let item = items[n - 1];
        match item.0 {
            ItemView::Tuple(parts) => match pda_parts(parts) {
                Some((next, list)) => {
                    let pushed = weak_view(list);
                    let (stack, log2) = push_all(b.symbols, log1, pushed, pushed.len() as int);
                    let to = ToView { state: next.0, stack, transition: item.1, function };
                    if !transitions.contains((key, to)) {
                        lemma_push_no_duplicates(transitions, (key, to));
                    }
                },
                None => {},
            },
            _ => {},
        }
    }
}

proof fn lemma_pda_transition_sets(
    b: PdaBuild,
    log: Seq<Seq<Note>>,
    args: Seq<(ItemView, Span)>,
    args_span: Span,
    value: (ItemView, Span),
)
    requires
        b.transitions.no_duplicates(),
    ensures
        pda_transition(b, log, args, args_span, value).0.transitions.no_duplicates(),
{
    match pda_args(args) {
        Some((state, letter, symbol)) => {
            if defines(b.states, state.0) && defines(b.symbols, symbol.0) {
                let (read, log1) = match letter.0 {
                    SymbolView::Epsilon(_) => (
                        None,
                        if !b.options.epsilon_moves {
                            log.push(
                                single(
                                    LogLevel::Error,
                                    "epsilon moves not permitted"@,
                                    Some(letter.1),
                                ),
                            )
                        } else {
                            log
                        },
                    ),
                    SymbolView::Ident(name) => (
                        Some(name),
                        if !defines(b.alphabet, name) {
                            log.push(
                                single(
                                    LogLevel::Error,
                                    "transition letter not defined in alphabet"@,
                                    Some(letter.1),
                                ),
                            )
                        } else {
                            log
                        },
                    ),
                };
                let key = FromView { state: state.0, letter: read, symbol: symbol.0 };
                let targets = weak_view(value);
                lemma_pda_targets_sets(b, log1, key, args_span, targets, targets.len() as int);
            }
        },
        None => {},
    }
}

proof fn lemma_pda_top_level_sets(b: PdaBuild, log: Seq<Seq<Note>>, element: (TopLevelView, Span))
    requires
        pda_build_sets(b),
    ensures
        pda_build_sets(pda_top_level(b, log, element).0),
{
    match element.0 {
        TopLevelView::Item { name, name_span, value } => {
            if name == "accept"@ {
            } else if name == "Q"@ {
                lemma_section_distinct(Section::States, b.states, b.states_def, log, value, element.1);
            } else if is_gamma(name) {
                lemma_section_distinct(
                    Section::StackSymbols,
                    b.symbols,
                    b.symbols_def,
                    log,
                    value,
                    element.1,
                );
            } else if is_sigma(name) {
                lemma_section_distinct(
                    Section::Alphabet,
                    b.alphabet,
                    b.alphabet_def,
                    log,
                    value,
                    element.1,
                );
            } else if name == "F"@ {
                lemma_finals_distinct(
                    b.states,
                    b.final_states,
                    b.final_states_def,
                    log,
                    value,
                    element.1,
                );
            }
        },
        TopLevelView::TransitionFunc { name, name_span, args, args_span, head_span, value } => {
            if is_delta(name) {
                lemma_pda_transition(b, log, args, args_span, value);
                lemma_pda_transition_sets(b, log, args, args_span, value);
            }
        },
        _ => {},
    }
}

proof fn lemma_pda_all_sets(
    b: PdaBuild,
    log: Seq<Seq<Note>>,
    elements: Seq<(TopLevelView, Span)>,
    n: int,
)
    requires
        pda_build_sets(b),
    ensures
        pda_build_sets(pda_all(b, log, elements, n).0),
    decreases n,
{
    if n > 0 {
        lemma_pda_all_sets(b, log, elements, n - 1);
        let (b1, log1) = pda_all(b, log, elements, n - 1);
        lemma_pda_top_level_sets(b1, log1, elements[n - 1]);
    }
}

/// The tables of a compiled pushdown automaton are sets: no state, no stack
/// symbol, no letter and no final state stands twice in its table, and no
/// transition stands twice among the transitions.
pub proof fn law_pda_sets(options: Options, elements: Seq<(TopLevelView, Span)>, log: Seq<Seq<Note>>)
    ensures
        pda_compile(options, elements, log).0 matches Some(m) ==> pda_sets(m),
{
    lemma_pda_all_sets(pda_start(options), log, elements, elements.len() as int);
}


/// Whether no two transitions start at the same state with the same letter
/// and the same stack symbol.
pub open spec fn single_valued(transitions: Seq<(FromView, ToView)>) -> bool {
    forall|i: int, j: int|
        0 <= i < j < transitions.len() ==> (#[trigger] transitions[i]).0 != (
        #[trigger] transitions[j]).0
}

/// Whether every transition reads a letter.
pub open spec fn epsilon_free(transitions: Seq<(FromView, ToView)>) -> bool {
    forall|i: int| 0 <= i < transitions.len() ==> (#[trigger] transitions[i]).0.letter is Some
}

/// What holds of the compiler's state after every declaration: unless the
/// log has an error, the transitions keep to the options.
pub open spec fn pda_within_options(b: PdaBuild, log: Seq<Seq<Note>>) -> bool {
    ||| has_error(log)
    ||| {
        &&& b.options.non_deterministic || single_valued(b.transitions)
        &&& b.options.epsilon_moves || epsilon_free(b.transitions)
    }
}

proof fn lemma_pda_target_options(
    b: PdaBuild,
    transitions: Seq<(FromView, ToView)>,
    log: Seq<Seq<Note>>,
    key: FromView,
    function: Span,
    item: (ItemView, Span),
)
    requires
        pda_within_options(PdaBuild { transitions, ..b }, log),
        has_error(log) || b.options.epsilon_moves || key.letter is Some,
    ensures
        pda_within_options(
            PdaBuild { transitions: pda_target(b, transitions, log, key, function, item).0, ..b },
            pda_target(b, transitions, log, key, function, item).1,
        ),
{
    let (after, log1) = pda_target(b, transitions, log, key, function, item);
    lemma_pda_target(b, transitions, log, key, function, item);
    if has_error(log) {
        lemma_extends_error(log1, log);
    } else {
        match item.0 {
            ItemView::Tuple(parts) => match pda_parts(parts) {
                Some((next, list)) => {
                    if defines(b.states, next.0) {
                        let items = weak_view(list);
                        let (stack, log2) = push_all(b.symbols, log, items, items.len() as int);
                        lemma_push_all(b.symbols, log, items, items.len() as int);
                        crate::automatan::lemma_first_for_exists(transitions, key);
                        if has_error(log2) {
                            assert(extends(log1, log2));
                            lemma_extends_error(log1, log2);
                        } else if first_for(transitions, key) is Some
                            && !b.options.non_deterministic {
                            let log3 = log2.push(
                                noted(
                                    LogLevel::Error,
                                    "transition already defined for this starting point (non determinism not permitted)"@,
                                    Some(item.1),
                                    LogLevel::Info,
                                    "previously defined here"@,
                                    Some(first_for(transitions, key).unwrap().transition),
                                ),
                            );
                            lemma_last_error(log3);
                            assert(extends(log1, log3));
                            lemma_extends_error(log1, log3);
                        }
                    } else {
                        lemma_last_error(log1);
                    }
                },
                None => {
                    lemma_last_error(log1);
                },
            },
            _ => {
                lemma_last_error(log1);
            },
        }
    }
}

proof fn lemma_pda_targets_options(
    b: PdaBuild,
    log: Seq<Seq<Note>>,
    key: FromView,
    function: Span,
    items: Seq<(ItemView, Span)>,
    n: int,
)
    requires
        pda_within_options(b, log),
        has_error(log) || b.options.epsilon_moves || key.letter is Some,
    ensures
        pda_within_options(
            PdaBuild { transitions: pda_targets(b, log, key, function, items, n).0, ..b },
            pda_targets(b, log, key, function, items, n).1,
        ),
    decreases n,
{
    if n > 0 {
        lemma_pda_targets_options(b, log, key, function, items, n - 1);
        lemma_pda_targets(b, log, key, function, items, n - 1);
        let (transitions, log1) = pda_targets(b, log, key, function, items, n - 1);
        if has_error(log) {
            lemma_extends_error(log1, log);
        }
        lemma_pda_target_options(b, transitions, log1, key, function, items[n - 1]);
    }
}

proof fn lemma_pda_top_level_options(b: PdaBuild, log: Seq<Seq<Note>>, element: (TopLevelView, Span))
    requires
        pda_within_options(b, log),
    ensures
        pda_within_options(pda_top_level(b, log, element).0, pda_top_level(b, log, element).1),
        pda_top_level(b, log, element).0.options == b.options,
{
    let (b1, log1) = pda_top_level(b, log, element);
    lemma_pda_top_level(b, log, element);
    if has_error(log) {
        lemma_extends_error(log1, log);
    } else {
        match element.0 {
            TopLevelView::TransitionFunc { name, name_span, args, args_span, head_span, value } => {
                if is_delta(name) {
                    match pda_args(args) {
                        Some((state, letter, symbol)) => {
                            if defines(b.states, state.0) && defines(b.symbols, symbol.0) {
                                let (read, log2) = match letter.0 {
                                    SymbolView::Epsilon(_) => (
                                        None,
                                        if !b.options.epsilon_moves {
                                            log.push(
                                                single(
                                                    LogLevel::Error,
                                                    "epsilon moves not permitted"@,
                                                    Some(letter.1),
                                                ),
                                            )
                                        } else {
                                            log
                                        },
                                    ),
                                    SymbolView::Ident(name) => (
                                        Some(name),
                                        if !defines(b.alphabet, name) {
                                            log.push(
                                                single(
                                                    LogLevel::Error,
                                                    "transition letter not defined in alphabet"@,
                                                    Some(letter.1),
                                                ),
                                            )
                                        } else {
                                            log
                                        },
                                    ),
                                };
                                if log2 != log {
                                    lemma_last_error(log2);
                                }
                                let key = FromView {
                                    state: state.0,
                                    letter: read,
                                    symbol: symbol.0,
                                };
                                let targets = weak_view(value);
                                lemma_pda_targets_options(
                                    b,
                                    log2,
                                    key,
                                    args_span,
                                    targets,
                                    targets.len() as int,
                                );
                            }
                        },
                        None => {},
                    }
                }
            },
            _ => {},
        }
    }
}

proof fn lemma_pda_all_options(
    b: PdaBuild,
    log: Seq<Seq<Note>>,
    elements: Seq<(TopLevelView, Span)>,
    n: int,
)
    requires
        pda_within_options(b, log),
    ensures
        pda_within_options(pda_all(b, log, elements, n).0, pda_all(b, log, elements, n).1),
        pda_all(b, log, elements, n).0.options == b.options,
    decreases n,
{
    if n > 0 {
        lemma_pda_all_options(b, log, elements, n - 1);
        let (b1, log1) = pda_all(b, log, elements, n - 1);
        lemma_pda_top_level_options(b1, log1, elements[n - 1]);
    }
}

/// A compiled machine keeps to its options. Under deterministic options no
/// two of its transitions start at the same state with the same letter and
/// the same stack symbol; where epsilon moves are not permitted, each of its
/// transitions reads a letter.
pub proof fn law_pda_within_options(
    options: Options,
    elements: Seq<(TopLevelView, Span)>,
    log: Seq<Seq<Note>>,
)
    ensures
        pda_compile(options, elements, log).0 matches Some(m) ==> {
            &&& !options.non_deterministic ==> single_valued(m.transitions)
            &&& !options.epsilon_moves ==> epsilon_free(m.transitions)
        },
{
    let n = elements.len() as int;
    lemma_pda_all_options(pda_start(options), log, elements, n);
    let (b, log1) = pda_all(pda_start(options), log, elements, n);
    lemma_pda_finish(b, log1);
}


/// The entry for a machine that is declared to accept by empty stack and has
/// final states declared: the error, a note at the declaration of the final
/// states and a note at the declaration of how the machine accepts.
pub open spec fn accept_conflict(states: Span, empty: Span) -> Seq<Note> {
    seq![
        Note {
            level: LogLevel::Error,
            message: "final states defined alongside accept by empty stack"@,
            span: None,
        },
        Note {
            level: LogLevel::Help,
            message: "either remove to accept by empty stack"@,
            span: Some(states),
        },
        Note {
            level: LogLevel::Help,
            message: "or remove to accept by final state"@,
            span: Some(empty),
        },
    ]
}

proof fn lemma_pda_top_level_places(b: PdaBuild, log: Seq<Seq<Note>>, element: (TopLevelView, Span))
    ensures
        declares_final_states(element) ==> pda_top_level(b, log, element).0.final_states_def
            == Some(element.1),
        !declares_final_states(element) ==> pda_top_level(b, log, element).0.final_states_def
            == b.final_states_def,
        declares_accept_empty(element) ==> pda_top_level(b, log, element).0.accept_by == Some(
            (AcceptBy::EmptyStack, element.1),
        ),
        !declares_accept(element) ==> pda_top_level(b, log, element).0.accept_by == b.accept_by,
{
    lemma_pda_top_level(b, log, element);
    match element.0 {
        TopLevelView::Item { name, name_span, value } => {
            if name == "F"@ {
                lemma_final_name();
            }
        },
        TopLevelView::TransitionFunc { name, name_span, args, args_span, head_span, value } => {
            if is_delta(name) {
                lemma_pda_transition(b, log, args, args_span, value);
            }
        },
        _ => {},
    }
}

proof fn lemma_pda_all_final_place(
    b: PdaBuild,
    log: Seq<Seq<Note>>,
    elements: Seq<(TopLevelView, Span)>,
    f: int,
    n: int,
)
    requires
        0 <= f < n <= elements.len(),
        declares_final_states(elements[f]),
        forall|k: int| f < k < n ==> !declares_final_states(elements[k]),
    ensures
        pda_all(b, log, elements, n).0.final_states_def == Some(elements[f].1),
    decreases n,
{
    let (b1, log1) = pda_all(b, log, elements, n - 1);
    lemma_pda_top_level_places(b1, log1, elements[n - 1]);
    if f < n - 1 {
        lemma_pda_all_final_place(b, log, elements, f, n - 1);
    }
}

proof fn lemma_pda_all_accept_place(
    b: PdaBuild,
    log: Seq<Seq<Note>>,
    elements: Seq<(TopLevelView, Span)>,
    a: int,
    n: int,
)
    requires
        0 <= a < n <= elements.len(),
        declares_accept_empty(elements[a]),
        forall|k: int| a < k < n ==> !declares_accept(elements[k]),
    ensures
        pda_all(b, log, elements, n).0.accept_by == Some((AcceptBy::EmptyStack, elements[a].1)),
    decreases n,
{
    let (b1, log1) = pda_all(b, log, elements, n - 1);
    lemma_pda_top_level_places(b1, log1, elements[n - 1]);
    if a < n - 1 {
        lemma_pda_all_accept_place(b, log, elements, a, n - 1);
    }
}

/// Accepting by empty stack and final states together: where the last
/// declaration of how the machine accepts says by empty stack, and final
/// states are declared as well, in whatever order, there is no machine, and
/// the log holds the error with a note at the last declaration of the final
/// states and a note at that declaration of how the machine accepts.
pub proof fn law_pda_accept_conflict(
    options: Options,
    elements: Seq<(TopLevelView, Span)>,
    log: Seq<Seq<Note>>,
    f: int,
    a: int,
)
    requires
        0 <= f < elements.len(),
        0 <= a < elements.len(),
        declares_final_states(elements[f]),
        forall|k: int| f < k < elements.len() ==> !declares_final_states(elements[k]),
        declares_accept_empty(elements[a]),
        forall|k: int| a < k < elements.len() ==> !declares_accept(elements[k]),
    ensures
        pda_compile(options, elements, log).0 is None,
        has_error(pda_compile(options, elements, log).1),
        pda_compile(options, elements, log).1.contains(
            accept_conflict(elements[f].1, elements[a].1),
        ),
{
    let n = elements.len() as int;
    let start = pda_start(options);
    lemma_pda_all_final_place(start, log, elements, f, n);
    lemma_pda_all_accept_place(start, log, elements, a, n);
    let (b, log0) = pda_all(start, log, elements, n);
    lemma_pda_finish(b, log0);
    let missing = pda_missing(b, log0);
    let checked = pda_accept_check(b, missing);
    let wanted = accept_conflict(elements[f].1, elements[a].1);
    assert(checked == missing.push(wanted));
    let (initial_state, log2) = resolve_spec(
        Designated::InitialState,
        b.states,
        b.initial_state,
        checked,
    );
    let (initial_stack, log3) = resolve_spec(
        Designated::InitialStack,
        b.symbols,
        b.initial_stack,
        log2,
    );
    let log4 = pda_finish(b, log0).1;
    assert(extends(log2, checked));
    assert(extends(log3, log2));
    assert(extends(log4, log3));
    assert(log4[checked.len() - 1] == wanted);
}


proof fn lemma_pda_all_letters(
    b: PdaBuild,
    log: Seq<Seq<Note>>,
    elements: Seq<(TopLevelView, Span)>,
    n: int,
)
    requires
        one_char_each(b.alphabet) || has_error(log),
    ensures
        one_char_each(pda_all(b, log, elements, n).0.alphabet) || has_error(
            pda_all(b, log, elements, n).1,
        ),
    decreases n,
{
    if n > 0 {
        lemma_pda_all_letters(b, log, elements, n - 1);
        let (b1, log1) = pda_all(b, log, elements, n - 1);
        let element = elements[n - 1];
        let (b2, log2) = pda_top_level(b1, log1, element);
        lemma_pda_top_level(b1, log1, element);
        if has_error(log1) {
            lemma_extends_error(log2, log1);
        } else {
            match element.0 {
                TopLevelView::Item { name, name_span, value } => {
                    if name != "accept"@ && name != "Q"@ && !is_gamma(name) && is_sigma(name) {
                        lemma_section_letters(b1.alphabet, b1.alphabet_def, log1, value, element.1);
                    }
                },
                TopLevelView::TransitionFunc { name, name_span, args, args_span, head_span, value } => {
                    if is_delta(name) {
                        lemma_pda_transition(b1, log1, args, args_span, value);
                    }
                },
                _ => {},
            }
        }
    }
}

/// Letters are one character long: every letter of the alphabet of a
/// compiled pushdown automaton holds exactly one character.
pub proof fn law_pda_letters(options: Options, elements: Seq<(TopLevelView, Span)>, log: Seq<Seq<Note>>)
    ensures
        pda_compile(options, elements, log).0 matches Some(m) ==> one_char_each(m.alphabet),
{
    let n = elements.len() as int;
    lemma_pda_all_letters(pda_start(options), log, elements, n);
    let (b, log1) = pda_all(pda_start(options), log, elements, n);
    lemma_pda_finish(b, log1);
}

} // verus!
