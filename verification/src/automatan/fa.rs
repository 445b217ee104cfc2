//! Finite automata: the model and its compiler.

use vstd::prelude::*;
use vstd::string::*;

use crate::automatan::{
    lemma_section_letters, one_char_each,
    covers,
    distinct, lemma_finals_distinct, lemma_push_no_duplicates, lemma_section_distinct,
    lemma_designate, lemma_finals, lemma_resolve, lemma_section, lemma_within_covers, within,
    advice, advise1, advise2, advise3, define_final_states, define_section, defines, designate,
    designate_spec, emit_unknown_function, emit_unknown_item, emit_with_previous, finals_spec,
    first_for, into_letters, into_states, lemma_first_for_prefix, letters_view, noted, resolve,
    resolve_spec, section_spec, slot_view, states_view, unknown_function, unknown_item, Designated,
    Letter, LetterInfo, Names, Options, Section, State, StateInfo, Table,
};
use crate::loader::ast::{
    expected_ident, items_view, Item, ItemView, Symbol, SymbolView, TopLevel, TopLevelView,
    Tuple, weak_view,
};
use crate::loader::log::{extends, has_error, lemma_extends_error, lemma_last_error, LogLevel, Note};
use crate::loader::parser::elements_view;
use crate::loader::{delta_name, is_delta, is_sigma, sigma_name, single, Context, Span, Spanned};
use crate::text::is_word;

verus! {

/// Where a transition starts: a state, and the letter that is read, if any.
#[derive(Debug, PartialEq, Eq, Clone, Hash)]
pub struct TransitionFrom {
    pub state: State,
    pub letter: Option<Letter>,
}

/// Where a transition leads, with the span of the target in the source and
/// the span of the arguments of the transition function.
#[derive(Debug, PartialEq, Eq, Clone, Hash)]
pub struct TransitionTo {
    pub state: State,
    pub transition: Span,
    pub function: Span,
}

/// A finite automaton.
#[derive(Clone, Debug, PartialEq, Eq)]
pub struct Fa {
    pub initial_state: State,
    pub states: Vec<(State, StateInfo)>,
    pub alphabet: Vec<(Letter, LetterInfo)>,
    pub final_states: Vec<(State, StateInfo)>,
    /// Every transition, in the order of declaration.
    pub transitions: Vec<(TransitionFrom, TransitionTo)>,
}

/// The start of a transition as contracts see it.
pub ghost struct FromView {
    pub state: Seq<char>,
    pub letter: Option<Seq<char>>,
}

/// The target of a transition as contracts see it.
pub ghost struct ToView {
    pub state: Seq<char>,
    pub transition: Span,
    pub function: Span,
}

/// A finite automaton as contracts see it.
pub ghost struct FaView {
    pub initial_state: Seq<char>,
    pub states: Table,
    pub alphabet: Table,
    pub final_states: Table,
    pub transitions: Seq<(FromView, ToView)>,
}

impl View for TransitionFrom {
    type V = FromView;

    open spec fn view(&self) -> FromView {
        FromView {
            state: self.state@,
            letter: match self.letter {
                Some(letter) => Some(letter@),
                None => None,
            },
        }
    }
}

impl View for TransitionTo {
    type V = ToView;

    open spec fn view(&self) -> ToView {
        ToView { state: self.state@, transition: self.transition, function: self.function }
    }
}

/// Transitions as contracts see them.
pub open spec fn transitions_view(transitions: Seq<(TransitionFrom, TransitionTo)>) -> Seq<
    (FromView, ToView),
> {
    Seq::new(transitions.len(), |i: int| (transitions[i].0@, transitions[i].1@))
}

impl View for Fa {
    type V = FaView;

    open spec fn view(&self) -> FaView {
        FaView {
            initial_state: self.initial_state@,
            states: states_view(self.states@),
            alphabet: letters_view(self.alphabet@),
            final_states: states_view(self.final_states@),
            transitions: transitions_view(self.transitions@),
        }
    }
}

/// What the compiler has gathered so far.
pub ghost struct FaBuild {
    pub options: Options,
    pub initial_state: Option<(Seq<char>, Span)>,
    pub states: Table,
    pub states_def: Option<Span>,
    pub alphabet: Table,
    pub alphabet_def: Option<Span>,
    pub final_states: Table,
    pub final_states_def: Option<Span>,
    pub transitions: Seq<(FromView, ToView)>,
}

/// The compiler's state before any declaration.
pub open spec fn fa_start(options: Options) -> FaBuild {
    FaBuild {
        options,
        initial_state: None,
        states: Seq::empty(),
        states_def: None,
        alphabet: Seq::empty(),
        alphabet_def: None,
        final_states: Seq::empty(),
        final_states_def: None,
        transitions: Seq::empty(),
    }
}

/// The arguments of a transition function of a finite automaton: a state
/// and a letter or epsilon.
pub open spec fn fa_args(args: Seq<(ItemView, Span)>) -> Option<
    ((Seq<char>, Span), (SymbolView, Span)),
> {
    if args.len() == 2 {
        match (args[0].0, args[1].0) {
            (ItemView::Symbol(SymbolView::Ident(state)), ItemView::Symbol(letter)) => Some(
                ((state, args[0].1), (letter, args[1].1)),
            ),
            _ => None,
        }
    } else {
        None
    }
}

/// Adds one target to the transitions from `key`. The target must be a
/// declared state. A second target from the same start is an error unless
/// the machine may be non-deterministic; a target that was declared before
/// at the same place is only a warning and changes nothing.
pub open spec fn fa_target(
    b: FaBuild,
    transitions: Seq<(FromView, ToView)>,
    log: Seq<Seq<Note>>,
    key: FromView,
    function: Span,
    item: (ItemView, Span),
) -> (Seq<(FromView, ToView)>, Seq<Seq<Note>>) {
    match item.0 {
        ItemView::Symbol(SymbolView::Ident(next)) => if !defines(b.states, next) {
            (
                transitions,
                log.push(
                    single(LogLevel::Error, "transition state not defined as state"@, Some(item.1)),
                ),
            )
        } else {
            let to = ToView { state: next, transition: item.1, function };
            let log1 = match first_for(transitions, key) {
                Some(previous) => if !b.options.non_deterministic {
                    log.push(
                        noted(
                            LogLevel::Error,
                            "transition already defined for this starting point (non determinism not permitted)"@,
                            Some(item.1),
                            LogLevel::Info,
                            "previously defined here"@,
                            Some(previous.transition),
                        ),
                    )
                } else {
                    log
                },
                None => log,
            };
            if transitions.contains((key, to)) {
                (
                    transitions,
                    log1.push(
                        noted(
                            LogLevel::Warning,
                            "duplicate transition"@,
                            Some(item.1),
                            LogLevel::Info,
                            "previously defined here"@,
                            Some(item.1),
                        ),
                    ),
                )
            } else {
                (transitions.push((key, to)), log1)
            }
        },
        _ => (transitions, log.push(single(LogLevel::Error, expected_ident(item.0), Some(item.1)))),
    }
}

/// Adds the first `n` targets, in order.
pub open spec fn fa_targets(
    b: FaBuild,
    log: Seq<Seq<Note>>,
    key: FromView,
    function: Span,
    items: Seq<(ItemView, Span)>,
    n: int,
) -> (Seq<(FromView, ToView)>, Seq<Seq<Note>>)
    decreases n,
{
    if n <= 0 {
        (b.transitions, log)
    } else {
        let (transitions, log1) = fa_targets(b, log, key, function, items, n - 1);
        fa_target(b, transitions, log1, key, function, items[n - 1])
    }
}

/// Compiles one transition function declaration: `args` in the parentheses
/// at `args_span`, and `value`, one target or a set of them.
pub open spec fn fa_transition(
    b: FaBuild,
    log: Seq<Seq<Note>>,
    args: Seq<(ItemView, Span)>,
    args_span: Span,
    value: (ItemView, Span),
) -> (FaBuild, Seq<Seq<Note>>) {
    match fa_args(args) {
        None => (
            b,
            log.push(
                single(
                    LogLevel::Error,
                    "expected FA transition function (state, letter|epsilon)"@,
                    Some(args_span),
                ),
            ),
        ),
        Some((state, letter)) => if !defines(b.states, state.0) {
            (
                b,
                log.push(
                    single(LogLevel::Error, "transition state not defined as state"@, Some(state.1)),
                ),
            )
        } else {
            let (read, log1) = match letter.0 {
                SymbolView::Epsilon(_) => (
                    None,
                    if !b.options.epsilon_moves {
                        log.push(
                            single(LogLevel::Error, "epsilon moves not permitted"@, Some(letter.1)),
                        )
                    } else {
                        log
                    },
                ),
                SymbolView::Ident(name) => (
                    Some(name),
                    if !defines(b.alphabet, name) {
                        log.push(
                            single(
                                LogLevel::Error,
                                "transition letter not defined in alphabet"@,
                                Some(letter.1),
                            ),
                        )
                    } else {
                        log
                    },
                ),
            };
            let key = FromView { state: state.0, letter: read };
            let targets = weak_view(value);
            let (transitions, log2) = fa_targets(b, log1, key, args_span, targets, targets.len() as int);
            (FaBuild { transitions, ..b }, log2)
        },
    }
}

/// Compiles one declaration.
pub open spec fn fa_top_level(b: FaBuild, log: Seq<Seq<Note>>, element: (TopLevelView, Span)) -> (
    FaBuild,
    Seq<Seq<Note>>,
) {
    match element.0 {
        TopLevelView::Item { name, name_span, value } => if name == "Q"@ {
            let (states, states_def, log1) = section_spec(
                Section::States,
                b.states,
                b.states_def,
                log,
                value,
                element.1,
            );
            (FaBuild { states, states_def, ..b }, log1)
        } else if is_sigma(name) {
            let (alphabet, alphabet_def, log1) = section_spec(
                Section::Alphabet,
                b.alphabet,
                b.alphabet_def,
                log,
                value,
                element.1,
            );
            (FaBuild { alphabet, alphabet_def, ..b }, log1)
        } else if name == "F"@ {
            let (final_states, final_states_def, log1) = finals_spec(
                b.states,
                b.final_states,
                b.final_states_def,
                log,
                value,
                element.1,
            );
            (FaBuild { final_states, final_states_def, ..b }, log1)
        } else if name == "q0"@ {
            let (initial_state, log1) = designate_spec(
                Designated::InitialState,
                b.states,
                b.initial_state,
                log,
                value,
                element.1,
            );
            (FaBuild { initial_state, ..b }, log1)
        } else {
            (
                b,
                log.push(
                    single(
                        LogLevel::Error,
                        unknown_item(name, "states, alphabet, final states, initial state"@),
                        Some(name_span),
                    ),
                ),
            )
        },
        TopLevelView::TransitionFunc { name, name_span, args, args_span, head_span, value } => {
            if is_delta(name) {
                fa_transition(b, log, args, args_span, value)
            } else {
                (b, log.push(single(LogLevel::Error, unknown_function(name), Some(head_span))))
            }
        },
        TopLevelView::ProductionRule { .. } => (
            b,
            log.push(single(LogLevel::Error, "unexpected production rule"@, Some(element.1))),
        ),
        TopLevelView::Table => (
            b,
            log.push(single(LogLevel::Error, "unexpected table"@, Some(element.1))),
        ),
    }
}

/// Compiles the first `n` declarations, in order.
pub open spec fn fa_all(
    b: FaBuild,
    log: Seq<Seq<Note>>,
    elements: Seq<(TopLevelView, Span)>,
    n: int,
) -> (FaBuild, Seq<Seq<Note>>)
    decreases n,
{
    if n <= 0 {
        (b, log)
    } else {
        let (b1, log1) = fa_all(b, log, elements, n - 1);
        fa_top_level(b1, log1, elements[n - 1])
    }
}

/// The log after the sections that were never declared are reported.
pub open spec fn fa_missing(b: FaBuild, log: Seq<Seq<Note>>) -> Seq<Seq<Note>> {
    let log1 = if b.states_def is None {
        log.push(
            advice(LogLevel::Error, "states never defined"@, seq![(LogLevel::Help, "add: Q = {...}"@)]),
        )
    } else {
        log
    };
    let log2 = if b.alphabet_def is None {
        log1.push(
            advice(
                LogLevel::Error,
                "alphabet never defined"@,
                seq![
                    (LogLevel::Help, "add: E = {...}"@),
                    (
                        LogLevel::Info,
                        "E can be 'E' | 'S' | 'sigma' | 'Σ' | '𝚺' | '𝛴' | '𝜮' | '𝝨' | '𝞢' | '∑'"@,
                    ),
                ],
            ),
        )
    } else {
        log1
    };
    if b.final_states_def is None {
        log2.push(
            advice(
                LogLevel::Error,
                "final states never defined"@,
                seq![(LogLevel::Help, "add: F = {...}"@)],
            ),
        )
    } else {
        log2
    }
}

/// The entry that warns of a machine without transitions.
pub open spec fn fa_no_transitions() -> Seq<Note> {
    advice(
        LogLevel::Warning,
        "no transitions defined"@,
        seq![
            (
                LogLevel::Help,
                "consider defining one: d(state, letter|epsilon) = state | {state, ...}"@,
            ),
            (
                LogLevel::Info,
                "d can be 'delta' | 'D' | 'd' | 'ẟ' | 'δ' | '𝛅' | '𝛿' | '𝜹' | '𝝳' | '𝞭'"@,
            ),
            (
                LogLevel::Info,
                "epsilon can be 'epsilon' | '~' | 'Ɛ' | 'ε' | 'ϵ' | '𝛆' | '𝛜' | '𝜀' | '𝜖' | '𝜺' | '𝝐' | '𝝴' | '𝞊' | '𝞮' | '𝟄' | 'ɛ'"@,
            ),
        ],
    )
}

/// Ends the compilation: reports what is missing, settles the initial state
/// and gives the machine if the log holds no error.
pub open spec fn fa_finish(b: FaBuild, log: Seq<Seq<Note>>) -> (Option<FaView>, Seq<Seq<Note>>) {
    let log1 = fa_missing(b, log);
    let (initial_state, log2) = resolve_spec(
        Designated::InitialState,
        b.states,
        b.initial_state,
        log1,
    );
    let log3 = if b.transitions.len() == 0 {
        log2.push(fa_no_transitions())
    } else {
        log2
    };
    if has_error(log3) {
        (None, log3)
    } else {
        (
            Some(
                FaView {
                    initial_state,
                    states: b.states,
                    alphabet: b.alphabet,
                    final_states: b.final_states,
                    transitions: b.transitions,
                },
            ),
            log3,
        )
    }
}

/// Compiles declarations into a finite automaton: the machine, if the log
/// holds no error at the end, and the log.
pub open spec fn fa_compile(options: Options, elements: Seq<(TopLevelView, Span)>, log: Seq<Seq<Note>>) -> (
    Option<FaView>,
    Seq<Seq<Note>>,
) {
    let (b, log1) = fa_all(fa_start(options), log, elements, elements.len() as int);
    fa_finish(b, log1)
}

/// A machine as contracts see it, if there is one.
pub open spec fn fa_view(fa: Option<Fa>) -> Option<FaView> {
    match fa {
        Some(fa) => Some(fa@),
        None => None,
    }
}

impl Fa {
    /// Compiles declarations into a finite automaton. Every problem is
    /// logged in `ctx`; there is a machine exactly if the log holds no error
    /// at the end.
    pub fn compile(items: &Vec<Spanned<TopLevel>>, ctx: &mut Context, options: Options) -> (r: Option<
        Fa,
    >)
        ensures
            final(ctx).text() == old(ctx).text(),
            (fa_view(r), final(ctx).log()) == fa_compile(
                options,
                elements_view(items@),
                old(ctx).log(),
            ),
            r is Some <==> !final(ctx).failed(),
            r matches Some(fa) ==> {
                &&& fa_closed(fa@)
                &&& fa_sets(fa@)
                &&& one_char_each(fa@.alphabet)
                &&& !options.non_deterministic ==> single_valued(fa@.transitions)
                &&& !options.epsilon_moves ==> epsilon_free(fa@.transitions)
            },
    {
        proof {
            law_fa_closed(options, elements_view(items@), ctx.log());
            law_fa_sets(options, elements_view(items@), ctx.log());
            law_fa_letters(options, elements_view(items@), ctx.log());
            law_fa_within_options(options, elements_view(items@), ctx.log());
        }
        FaCompiler::new(options).compile(items, ctx)
    }
}

/// The compiler of finite automata: what it has gathered so far.
pub struct FaCompiler {
    options: Options,
    initial_state: Option<(String, Span)>,
    states: Names,
    states_def: Option<Span>,
    alphabet: Names,
    alphabet_def: Option<Span>,
    final_states: Names,
    final_states_def: Option<Span>,
    transitions: Vec<(TransitionFrom, TransitionTo)>,
}

impl View for FaCompiler {
    type V = FaBuild;

    closed spec fn view(&self) -> FaBuild {
        FaBuild {
            options: self.options,
            initial_state: slot_view(self.initial_state),
            states: self.states@,
            states_def: self.states_def,
            alphabet: self.alphabet@,
            alphabet_def: self.alphabet_def,
            final_states: self.final_states@,
            final_states_def: self.final_states_def,
            transitions: transitions_view(self.transitions@),
        }
    }
}

impl FaCompiler {
    /// A compiler that has seen no declaration.
    pub fn new(options: Options) -> (r: Self)
        ensures
            r@ == fa_start(options),
    {
        let r = Self {
            options,
            initial_state: None,
            states: Names::new(),
            states_def: None,
            alphabet: Names::new(),
            alphabet_def: None,
            final_states: Names::new(),
            final_states_def: None,
            transitions: Vec::new(),
        };
        assert(transitions_view(r.transitions@) =~= Seq::empty());
        r
    }

    /// Compiles the declarations and ends the compilation.
    pub fn compile(self, items: &Vec<Spanned<TopLevel>>, ctx: &mut Context) -> (r: Option<Fa>)
        ensures
            final(ctx).text() == old(ctx).text(),
            (fa_view(r), final(ctx).log()) == fa_finish(
                fa_all(self@, old(ctx).log(), elements_view(items@), items@.len() as int).0,
                fa_all(self@, old(ctx).log(), elements_view(items@), items@.len() as int).1,
            ),
    {
        let ghost start = self@;
        let ghost log0 = ctx.log();
        let ghost elements = elements_view(items@);
        let mut compiler = self;
        let mut i: usize = 0;
        while i < items.len()
            invariant
                0 <= i <= items.len(),
                elements == elements_view(items@),
                ctx.text() == old(ctx).text(),
                (compiler@, ctx.log()) == fa_all(start, log0, elements, i as int),
            decreases items.len() - i,
        {
            compiler.compile_top_level(ctx, &items[i].0, items[i].1);
            i += 1;
        }
        compiler.finish(ctx)
    }

    /// Ends the compilation.
    fn finish(self, ctx: &mut Context) -> (r: Option<Fa>)
        ensures
            final(ctx).text() == old(ctx).text(),
            (fa_view(r), final(ctx).log()) == fa_finish(self@, old(ctx).log()),
    {
        if self.states_def.is_none() {
            advise1(ctx, LogLevel::Error, "states never defined", LogLevel::Help, "add: Q = {...}");
        }
        if self.alphabet_def.is_none() {
            advise2(
                ctx,
                LogLevel::Error,
                "alphabet never defined",
                LogLevel::Help,
                "add: E = {...}",
                LogLevel::Info,
                "E can be 'E' | 'S' | 'sigma' | 'Σ' | '𝚺' | '𝛴' | '𝜮' | '𝝨' | '𝞢' | '∑'",
            );
        }
        if self.final_states_def.is_none() {
            advise1(
                ctx,
                LogLevel::Error,
                "final states never defined",
                LogLevel::Help,
                "add: F = {...}",
            );
        }
        let FaCompiler { initial_state, states, alphabet, final_states, transitions, .. } = self;
        let initial = resolve(Designated::InitialState, &states, initial_state, ctx);
        if transitions.len() == 0 {
            advise3(
                ctx,
                LogLevel::Warning,
                "no transitions defined",
                LogLevel::Help,
                "consider defining one: d(state, letter|epsilon) = state | {state, ...}",
                LogLevel::Info,
                "d can be 'delta' | 'D' | 'd' | 'ẟ' | 'δ' | '𝛅' | '𝛿' | '𝜹' | '𝝳' | '𝞭'",
                LogLevel::Info,
                "epsilon can be 'epsilon' | '~' | 'Ɛ' | 'ε' | 'ϵ' | '𝛆' | '𝛜' | '𝜀' | '𝜖' | '𝜺' | '𝝐' | '𝝴' | '𝞊' | '𝞮' | '𝟄' | 'ɛ'",
            );
        }
        if ctx.contains_errors() {
            return None;
        }
        Some(
            Fa {
                initial_state: State(initial),
                states: into_states(&states),
                alphabet: into_letters(&alphabet),
                final_states: into_states(&final_states),
                transitions,
            },
        )
    }

    /// Compiles one declaration.
    pub fn compile_top_level(&mut self, ctx: &mut Context, element: &TopLevel, span: Span)
        ensures
            final(ctx).text() == old(ctx).text(),
            (final(self)@, final(ctx).log()) == fa_top_level(
                old(self)@,
                old(ctx).log(),
                (element@, span),
            ),
    {
        match element {
            TopLevel::Item(name, value) => {
                if is_word(&name.0, "Q") {
                    self.compile_states(ctx, value, span);
                } else if sigma_name(&name.0) {
                    self.compile_alphabet(ctx, value, span);
                } else if is_word(&name.0, "F") {
                    self.compile_final_states(ctx, value, span);
                } else if is_word(&name.0, "q0") {
                    self.compile_initial_state(ctx, value, span);
                } else {
                    emit_unknown_item(
                        ctx,
                        &name.0,
                        "states, alphabet, final states, initial state",
                        name.1,
                    );
                }
            },
            TopLevel::TransitionFunc(head, value) => {
                if delta_name(&head.0.0.0) {
                    self.compile_transition_function(ctx, &head.0.1, value);
                } else {
                    emit_unknown_function(ctx, &head.0.0.0, head.1);
                }
            },
            TopLevel::ProductionRule(_, _) => {
                ctx.emit_error("unexpected production rule", span);
            },
            TopLevel::Table() => {
                ctx.emit_error("unexpected table", span);
            },
        }
    }

    /// Compiles the declaration of the states.
    pub fn compile_states(&mut self, ctx: &mut Context, list: &Spanned<Item>, top_level: Span)
        ensures
            final(ctx).text() == old(ctx).text(),
            (final(self)@.states, final(self)@.states_def, final(ctx).log()) == section_spec(
                Section::States,
                old(self)@.states,
                old(self)@.states_def,
                old(ctx).log(),
                list.spanned_view(),
                top_level,
            ),
            final(self)@ == (FaBuild {
                states: final(self)@.states,
                states_def: final(self)@.states_def,
                ..old(self)@
            }),
            covers(final(self)@.states, old(self)@.states),
            distinct(old(self)@.states) ==> distinct(final(self)@.states),
            crate::loader::log::extends(final(ctx).log(), old(ctx).log()),
    {
        proof {
            lemma_section(
                Section::States,
                self@.states,
                self@.states_def,
                ctx.log(),
                list.spanned_view(),
                top_level,
            );
            if distinct(self@.states) {
                lemma_section_distinct(
                    Section::States,
                    self@.states,
                    self@.states_def,
                    ctx.log(),
                    list.spanned_view(),
                    top_level,
                );
            }
        }
        define_section(Section::States, &mut self.states, &mut self.states_def, ctx, list, top_level);
    }

    /// Compiles the declaration of the alphabet.
    pub fn compile_alphabet(&mut self, ctx: &mut Context, list: &Spanned<Item>, top_level: Span)
        ensures
            final(ctx).text() == old(ctx).text(),
            (final(self)@.alphabet, final(self)@.alphabet_def, final(ctx).log()) == section_spec(
                Section::Alphabet,
                old(self)@.alphabet,
                old(self)@.alphabet_def,
                old(ctx).log(),
                list.spanned_view(),
                top_level,
            ),
            final(self)@ == (FaBuild {
                alphabet: final(self)@.alphabet,
                alphabet_def: final(self)@.alphabet_def,
                ..old(self)@
            }),
    {
        define_section(
            Section::Alphabet,
            &mut self.alphabet,
            &mut self.alphabet_def,
            ctx,
            list,
            top_level,
        );
    }

    /// Compiles the declaration of the final states.
    pub fn compile_final_states(&mut self, ctx: &mut Context, list: &Spanned<Item>, top_level: Span)
        ensures
            final(ctx).text() == old(ctx).text(),
            (final(self)@.final_states, final(self)@.final_states_def, final(ctx).log())
                == finals_spec(
                old(self)@.states,
                old(self)@.final_states,
                old(self)@.final_states_def,
                old(ctx).log(),
                list.spanned_view(),
                top_level,
            ),
            final(self)@ == (FaBuild {
                final_states: final(self)@.final_states,
                final_states_def: final(self)@.final_states_def,
                ..old(self)@
            }),
    {
        define_final_states(
            &self.states,
            &mut self.final_states,
            &mut self.final_states_def,
            ctx,
            list,
            top_level,
        );
    }

    /// Compiles the declaration of the initial state.
    pub fn compile_initial_state(&mut self, ctx: &mut Context, item: &Spanned<Item>, top_level: Span)
        ensures
            final(ctx).text() == old(ctx).text(),
            (final(self)@.initial_state, final(ctx).log()) == designate_spec(
                Designated::InitialState,
                old(self)@.states,
                old(self)@.initial_state,
                old(ctx).log(),
                item.spanned_view(),
                top_level,
            ),
            final(self)@ == (FaBuild { initial_state: final(self)@.initial_state, ..old(self)@ }),
    {
        designate(
            Designated::InitialState,
            &self.states,
            &mut self.initial_state,
            ctx,
            item,
            top_level,
        );
    }

    /// The first target that was declared from `key`, if any.
    fn first_target(&self, key: &TransitionFrom) -> (r: Option<Span>)
        ensures
            match first_for(self@.transitions, key@) {
                Some(previous) => r == Some(previous.transition),
                None => r is None,
            },
    {
        let ghost all = transitions_view(self.transitions@);
        let mut i: usize = 0;
        proof {
            assert(all.take(0) =~= Seq::empty());
        }
        while i < self.transitions.len()
            invariant
                0 <= i <= self.transitions.len(),
                all == transitions_view(self.transitions@),
                first_for(all.take(i as int), key@) is None,
            decreases self.transitions.len() - i,
        {
            proof {
                assert(all.take(i + 1).drop_last() =~= all.take(i as int));
                lemma_first_for_prefix(all, i + 1, key@);
            }
            if same_from(&self.transitions[i].0, key) {
                return Some(self.transitions[i].1.transition);
            }
            i += 1;
        }
        proof {
            assert(all.take(i as int) =~= all);
        }
        None
    }

    /// Whether the transition from `key` to `to` was declared.
    fn has_transition(&self, key: &TransitionFrom, to: &TransitionTo) -> (b: bool)
        ensures
            b == self@.transitions.contains((key@, to@)),
    {
        let ghost all = transitions_view(self.transitions@);
        let mut i: usize = 0;
        while i < self.transitions.len()
            invariant
                0 <= i <= self.transitions.len(),
                all == transitions_view(self.transitions@),
                forall|j: int| 0 <= j < i ==> all[j] != (key@, to@),
            decreases self.transitions.len() - i,
        {
            if same_from(&self.transitions[i].0, key) && same_to(&self.transitions[i].1, to) {
                assert(all[i as int] == (key@, to@));
                return true;
            }
            i += 1;
        }
        false
    }

    /// Adds one target to the transitions from `key`.
    pub fn compile_target(
        &mut self,
        ctx: &mut Context,
        key: &TransitionFrom,
        function: Span,
        item: &Spanned<Item>,
    )
        ensures
            final(ctx).text() == old(ctx).text(),
            (final(self)@.transitions, final(ctx).log()) == fa_target(
                old(self)@,
                old(self)@.transitions,
                old(ctx).log(),
                key@,
                function,
                item.spanned_view(),
            ),
            final(self)@ == (FaBuild { transitions: final(self)@.transitions, ..old(self)@ }),
    {
        let next_state = match item.expect_ident(ctx) {
            Some(next_state) => next_state,
            None => {
                return ;
            },
        };
        if !self.states.contains(next_state) {
            ctx.emit_error("transition state not defined as state", item.1);
            return ;
        }
        if !self.options.non_deterministic {
            if let Some(previous) = self.first_target(key) {
                emit_with_previous(
                    ctx,
                    "transition already defined for this starting point (non determinism not permitted)",
                    item.1,
                    LogLevel::Info,
                    previous,
                );
            }
        }
        let to = TransitionTo { state: State(next_state.clone()), transition: item.1, function };
        if self.has_transition(key, &to) {
            let entry = crate::loader::log::LogEntry::warning("duplicate transition", item.1).emit_info(
                "previously defined here",
                item.1,
            );
            assert(entry@ =~= noted(
                LogLevel::Warning,
                "duplicate transition"@,
                Some(item.1),
                LogLevel::Info,
                "previously defined here"@,
                Some(item.1),
            ));
            ctx.emit(entry);
        } else {
            let ghost before = transitions_view(self.transitions@);
            self.transitions.push((key.clone_from(), to));
            assert(transitions_view(self.transitions@) =~= before.push((key@, to@)));
        }
    }

    /// Compiles one transition function declaration.
    pub fn compile_transition_function(
        &mut self,
        ctx: &mut Context,
        args: &Spanned<Tuple>,
        list: &Spanned<Item>,
    )
        ensures
            final(ctx).text() == old(ctx).text(),
            (final(self)@, final(ctx).log()) == fa_transition(
                old(self)@,
                old(ctx).log(),
                items_view(args.0.0@),
                args.1,
                list.spanned_view(),
            ),
            fa_sound(old(self)@, old(ctx).log()) ==> fa_sound(final(self)@, final(ctx).log()),
            fa_sound(old(self)@, old(ctx).log()) && fa_within_options(old(self)@, old(ctx).log())
                ==> fa_within_options(final(self)@, final(ctx).log()),
            old(ctx).failed() ==> final(ctx).failed(),
            fa_args(items_view(args.0.0@)) matches Some((state, letter)) && defines(
                old(self)@.states,
                state.0,
            ) && letter.0 is Epsilon ==> {
                &&& !old(self)@.options.epsilon_moves ==> final(ctx).failed()
                &&& old(self)@.options.epsilon_moves ==> (
                    final(self)@.transitions,
                    final(ctx).log(),
                ) == fa_targets(
                    old(self)@,
                    old(ctx).log(),
                    FromView { state: fa_args(items_view(args.0.0@)).unwrap().0.0, letter: None },
                    args.1,
                    weak_view(list.spanned_view()),
                    weak_view(list.spanned_view()).len() as int,
                )
            },
    {
        proof {
            let b = self@;
            let log = ctx.log();
            let views = items_view(args.0.0@);
            let value = list.spanned_view();
            let element = (
                TopLevelView::TransitionFunc {
                    name: "delta"@,
                    name_span: args.1,
                    args: views,
                    args_span: args.1,
                    head_span: args.1,
                    value,
                },
                args.1,
            );
            assert(fa_top_level(b, log, element) == fa_transition(b, log, views, args.1, value));
            if fa_sound(b, log) {
                lemma_fa_top_level(b, log, element);
                if fa_within_options(b, log) {
                    lemma_fa_top_level_options(b, log, element);
                }
            }
            lemma_fa_transition_extends(b, log, views, args.1, value);
            let after = fa_transition(b, log, views, args.1, value).1;
            if has_error(log) {
                lemma_extends_error(after, log);
            }
            match fa_args(views) {
                Some((state, letter)) => {
                    if defines(b.states, state.0) && letter.0 is Epsilon
                        && !b.options.epsilon_moves {
                        let log1 = log.push(
                            single(LogLevel::Error, "epsilon moves not permitted"@, Some(letter.1)),
                        );
                        lemma_last_error(log1);
                        let key = FromView { state: state.0, letter: None };
                        let targets = weak_view(value);
                        lemma_fa_targets_extends(
                            b,
                            log1,
                            key,
                            args.1,
                            targets,
                            targets.len() as int,
                        );
                        lemma_extends_error(after, log1);
                    }
                },
                None => {},
            }
        }
        let targets = list.set_weak();
        let (state, letter) = match args.as_ref().expect_fa_transition_function(ctx) {
            Some(found) => found,
            None => {
                return ;
            },
        };
        if !self.states.contains(state.0) {
            ctx.emit_error("transition state not defined as state", state.1);
            return ;
        }
        let read: Option<Letter> = match letter.0 {
            Symbol::Epsilon(_) => {
                if !self.options.epsilon_moves {
                    ctx.emit_error("epsilon moves not permitted", letter.1);
                }
                None
            },
            Symbol::Ident(name) => {
                if !self.alphabet.contains(name) {
                    ctx.emit_error("transition letter not defined in alphabet", letter.1);
                }
                Some(Letter(name.clone()))
            },
        };
        let key = TransitionFrom { state: State(state.0.clone()), letter: read };
        let ghost start = self@;
        let ghost log1 = ctx.log();
        let ghost views = items_view(targets@);
        let mut i: usize = 0;
        while i < targets.len()
            invariant
                0 <= i <= targets.len(),
                views == items_view(targets@),
                ctx.text() == old(ctx).text(),
                (self@.transitions, ctx.log()) == fa_targets(start, log1, key@, args.1, views, i as int),
                self@ == (FaBuild { transitions: self@.transitions, ..start }),
            decreases targets.len() - i,
        {
            assert(views[i as int] == targets[i as int].spanned_view());
            self.compile_target(ctx, &key, args.1, &targets[i]);
            i += 1;
        }
    }
}

impl TransitionFrom {
    /// A copy of the start of a transition.
    pub fn clone_from(&self) -> (r: TransitionFrom)
        ensures
            r@ == self@,
    {
        TransitionFrom {
            state: State(self.state.0.clone()),
            letter: match &self.letter {
                Some(letter) => Some(Letter(letter.0.clone())),
                None => None,
            },
        }
    }
}

/// Whether two transitions start at the same state with the same letter.
fn same_from(a: &TransitionFrom, b: &TransitionFrom) -> (r: bool)
    ensures
        r == (a@ == b@),
{
    a.state.0 == b.state.0 && match (&a.letter, &b.letter) {
        (Some(x), Some(y)) => x.0 == y.0,
        (None, None) => true,
        _ => false,
    }
}

/// Whether two targets are the same state, declared at the same place.
fn same_to(a: &TransitionTo, b: &TransitionTo) -> (r: bool)
    ensures
        r == (a@ == b@),
{
    a.state.0 == b.state.0 && a.transition == b.transition && a.function == b.function
}

impl<'a> Spanned<&'a Tuple> {
    /// The state and the letter of the arguments of a transition function;
    /// else an error is logged at the span of the arguments.
    pub fn expect_fa_transition_function(&self, ctx: &mut Context) -> (r: Option<
        (Spanned<&'a String>, Spanned<&'a Symbol>),
    >)
        ensures
            final(ctx).text() == old(ctx).text(),
            match fa_args(items_view(self.0.0@)) {
                Some((state, letter)) => r matches Some(found) && found.0.0@ == state.0
                    && found.0.1 == state.1 && found.1.0@ == letter.0 && found.1.1 == letter.1
                    && final(ctx).log() == old(ctx).log(),
                None => r is None && final(ctx).log() == old(ctx).log().push(
                    single(
                        LogLevel::Error,
                        "expected FA transition function (state, letter|epsilon)"@,
                        Some(self.1),
                    ),
                ),
            },
    {
        let items = &self.0.0;
        if items.len() == 2 {
            assert(items_view(items@)[0] == items@[0].spanned_view());
            assert(items_view(items@)[1] == items@[1].spanned_view());
            match (&items[0].0, &items[1].0) {
                (Item::Symbol(Symbol::Ident(state)), Item::Symbol(letter)) => {
                    return Some((Spanned(state, items[0].1), Spanned(letter, items[1].1)));
                },
                _ => {},
            }
        }
        ctx.emit_error("expected FA transition function (state, letter|epsilon)", self.1);
        None
    }
}

proof fn lemma_fa_targets_extends(
    b: FaBuild,
    log: Seq<Seq<Note>>,
    key: FromView,
    function: Span,
    items: Seq<(ItemView, Span)>,
    n: int,
)
    ensures
        extends(fa_targets(b, log, key, function, items, n).1, log),
    decreases n,
{
    if n > 0 {
        lemma_fa_targets_extends(b, log, key, function, items, n - 1);
    }
}

proof fn lemma_fa_transition_extends(
    b: FaBuild,
    log: Seq<Seq<Note>>,
    args: Seq<(ItemView, Span)>,
    args_span: Span,
    value: (ItemView, Span),
)
    ensures
        extends(fa_transition(b, log, args, args_span, value).1, log),
{
    match fa_args(args) {
        Some((state, letter)) => {
            if defines(b.states, state.0) {
                let (read, log1) = match letter.0 {
                    SymbolView::Epsilon(_) => (
                        None,
                        if !b.options.epsilon_moves {
                            log.push(
                                single(
                                    LogLevel::Error,
                                    "epsilon moves not permitted"@,
                                    Some(letter.1),
                                ),
                            )
                        } else {
                            log
                        },
                    ),
                    SymbolView::Ident(name) => (
                        Some(name),
                        if !defines(b.alphabet, name) {
                            log.push(
                                single(
                                    LogLevel::Error,
                                    "transition letter not defined in alphabet"@,
                                    Some(letter.1),
                                ),
                            )
                        } else {
                            log
                        },
                    ),
                };
                let key = FromView { state: state.0, letter: read };
                let targets = weak_view(value);
                lemma_fa_targets_extends(b, log1, key, args_span, targets, targets.len() as int);
            }
        },
        None => {},
    }
}

/// Whether every transition starts and ends at a state of `states`.
pub open spec fn states_known(states: Table, transitions: Seq<(FromView, ToView)>) -> bool {
    forall|i: int|
        0 <= i < transitions.len() ==> defines(states, (#[trigger] transitions[i]).0.state)
            && defines(states, transitions[i].1.state)
}

/// Whether every letter that a transition reads is a letter of `alphabet`.
pub open spec fn letters_known(alphabet: Table, transitions: Seq<(FromView, ToView)>) -> bool {
    forall|i: int|
        0 <= i < transitions.len() ==> ((#[trigger] transitions[i]).0.letter matches Some(letter)
            ==> defines(alphabet, letter))
}

/// Whether a machine refers to declared names only: every transition starts
/// and ends at a declared state and reads a declared letter or none, and the
/// initial state and the final states are declared states.
pub open spec fn fa_closed(m: FaView) -> bool {
    &&& states_known(m.states, m.transitions)
    &&& letters_known(m.alphabet, m.transitions)
    &&& within(m.final_states, m.states)
    &&& defines(m.states, m.initial_state)
}

/// What holds of the compiler's state after every declaration: as
/// `fa_closed`, but a letter may be undeclared where the log has an error.
pub open spec fn fa_sound(b: FaBuild, log: Seq<Seq<Note>>) -> bool {
    &&& states_known(b.states, b.transitions)
    &&& letters_known(b.alphabet, b.transitions) || has_error(log)
    &&& within(b.final_states, b.states)
    &&& b.initial_state matches Some((name, _)) ==> defines(b.states, name)
}

proof fn lemma_fa_target(
    b: FaBuild,
    transitions: Seq<(FromView, ToView)>,
    log: Seq<Seq<Note>>,
    key: FromView,
    function: Span,
    item: (ItemView, Span),
)
    requires
        defines(b.states, key.state),
        states_known(b.states, transitions),
        letters_known(b.alphabet, transitions) || has_error(log),
        (key.letter matches Some(letter) ==> defines(b.alphabet, letter)) || has_error(log),
    ensures
        extends(fa_target(b, transitions, log, key, function, item).1, log),
        states_known(b.states, fa_target(b, transitions, log, key, function, item).0),
        letters_known(b.alphabet, fa_target(b, transitions, log, key, function, item).0)
            || has_error(fa_target(b, transitions, log, key, function, item).1),
{
    let (after, log1) = fa_target(b, transitions, log, key, function, item);
    if has_error(log) {
        lemma_extends_error(log1, log);
    }
}

proof fn lemma_fa_targets(
    b: FaBuild,
    log: Seq<Seq<Note>>,
    key: FromView,
    function: Span,
    items: Seq<(ItemView, Span)>,
    n: int,
)
    requires
        defines(b.states, key.state),
        states_known(b.states, b.transitions),
        letters_known(b.alphabet, b.transitions) || has_error(log),
        (key.letter matches Some(letter) ==> defines(b.alphabet, letter)) || has_error(log),
    ensures
        extends(fa_targets(b, log, key, function, items, n).1, log),
        states_known(b.states, fa_targets(b, log, key, function, items, n).0),
        letters_known(b.alphabet, fa_targets(b, log, key, function, items, n).0) || has_error(
            fa_targets(b, log, key, function, items, n).1,
        ),
    decreases n,
{
    if n > 0 {
        lemma_fa_targets(b, log, key, function, items, n - 1);
        let (transitions, log1) = fa_targets(b, log, key, function, items, n - 1);
        if has_error(log) {
            lemma_extends_error(log1, log);
        }
        lemma_fa_target(b, transitions, log1, key, function, items[n - 1]);
    }
}

proof fn lemma_fa_transition(
    b: FaBuild,
    log: Seq<Seq<Note>>,
    args: Seq<(ItemView, Span)>,
    args_span: Span,
    value: (ItemView, Span),
)
    requires
        fa_sound(b, log),
    ensures
        extends(fa_transition(b, log, args, args_span, value).1, log),
        fa_sound(
            fa_transition(b, log, args, args_span, value).0,
            fa_transition(b, log, args, args_span, value).1,
        ),
{
    let (b1, log2) = fa_transition(b, log, args, args_span, value);
    match fa_args(args) {
        None => {
            lemma_last_error(log2);
        },
        Some((state, letter)) => {
            if !defines(b.states, state.0) {
                lemma_last_error(log2);
            } else {
                let (read, log1) = match letter.0 {
                    SymbolView::Epsilon(_) => (
                        None,
                        if !b.options.epsilon_moves {
                            log.push(
                                single(
                                    LogLevel::Error,
                                    "epsilon moves not permitted"@,
                                    Some(letter.1),
                                ),
                            )
                        } else {
                            log
                        },
                    ),
                    SymbolView::Ident(name) => (
                        Some(name),
                        if !defines(b.alphabet, name) {
                            log.push(
                                single(
                                    LogLevel::Error,
                                    "transition letter not defined in alphabet"@,
                                    Some(letter.1),
                                ),
                            )
                        } else {
                            log
                        },
                    ),
                };
                if log1 != log {
                    lemma_last_error(log1);
                }
                if has_error(log) {
                    lemma_extends_error(log1, log);
                }
                let key = FromView { state: state.0, letter: read };
                let targets = weak_view(value);
                lemma_fa_targets(b, log1, key, args_span, targets, targets.len() as int);
            }
        },
    }
}

proof fn lemma_fa_top_level(b: FaBuild, log: Seq<Seq<Note>>, element: (TopLevelView, Span))
    requires
        fa_sound(b, log),
    ensures
        extends(fa_top_level(b, log, element).1, log),
        fa_sound(fa_top_level(b, log, element).0, fa_top_level(b, log, element).1),
{
    let (b1, log1) = fa_top_level(b, log, element);
    match element.0 {
        TopLevelView::Item { name, name_span, value } => {
            if name == "Q"@ {
                lemma_section(Section::States, b.states, b.states_def, log, value, element.1);
                lemma_within_covers(b.final_states, b.states, b1.states);
            } else if is_sigma(name) {
                lemma_section(Section::Alphabet, b.alphabet, b.alphabet_def, log, value, element.1);
            } else if name == "F"@ {
                lemma_finals(
                    b.states,
                    b.final_states,
                    b.final_states_def,
                    log,
                    value,
                    element.1,
                );
            } else if name == "q0"@ {
                lemma_designate(
                    Designated::InitialState,
                    b.states,
                    b.initial_state,
                    log,
                    value,
                    element.1,
                );
            } else {
            }
        },
        TopLevelView::TransitionFunc { name, name_span, args, args_span, head_span, value } => {
            if is_delta(name) {
                lemma_fa_transition(b, log, args, args_span, value);
            }
        },
        _ => {},
    }
    if has_error(log) {
        lemma_extends_error(log1, log);
    }
}

/// Compiling more declarations adds to the log, and what holds of the
/// compiler's state after every declaration holds after all of them.
pub proof fn lemma_fa_all(
    b: FaBuild,
    log: Seq<Seq<Note>>,
    elements: Seq<(TopLevelView, Span)>,
    k: int,
    n: int,
)
    requires
        fa_sound(b, log),
        0 <= k <= n,
    ensures
        extends(fa_all(b, log, elements, n).1, fa_all(b, log, elements, k).1),
        fa_sound(fa_all(b, log, elements, n).0, fa_all(b, log, elements, n).1),
    decreases n,
{
    if n > 0 {
        if k < n {
            lemma_fa_all(b, log, elements, k, n - 1);
        } else {
            lemma_fa_all(b, log, elements, 0, n - 1);
        }
        let (b1, log1) = fa_all(b, log, elements, n - 1);
        lemma_fa_top_level(b1, log1, elements[n - 1]);
    }
}

/// Ending the compilation adds to the log, and there is a machine only if
/// the log has no error.
pub proof fn lemma_fa_finish(b: FaBuild, log: Seq<Seq<Note>>)
    requires
        b.initial_state matches Some((name, _)) ==> defines(b.states, name),
    ensures
        extends(fa_finish(b, log).1, log),
        fa_finish(b, log).0 is Some <==> !has_error(fa_finish(b, log).1),
        has_error(log) ==> fa_finish(b, log).0 is None,
        fa_finish(b, log).0 matches Some(m) ==> defines(m.states, m.initial_state),
{
    let log1 = fa_missing(b, log);
    lemma_resolve(Designated::InitialState, b.states, b.initial_state, log1);
    let (initial_state, log2) = resolve_spec(
        Designated::InitialState,
        b.states,
        b.initial_state,
        log1,
    );
    let log3 = fa_finish(b, log).1;
    if has_error(log) {
        lemma_extends_error(log3, log);
    }
    if has_error(log2) {
        lemma_extends_error(log3, log2);
    }
}

/// No dangling references: a finite automaton that was compiled refers to
/// declared names only. Every state that a transition starts or ends at, the
/// initial state and every final state is a declared state, and every letter
/// that a transition reads is a declared letter.
pub proof fn law_fa_closed(options: Options, elements: Seq<(TopLevelView, Span)>, log: Seq<Seq<Note>>)
    ensures
        fa_compile(options, elements, log).0 matches Some(m) ==> fa_closed(m),
{
    let n = elements.len() as int;
    lemma_fa_all(fa_start(options), log, elements, 0, n);
    let (b, log1) = fa_all(fa_start(options), log, elements, n);
    lemma_fa_finish(b, log1);
}

/// An error that was logged stays: a compilation whose log has an error
/// after some of the declarations gives no machine, and its log has an
/// error at the end.
pub proof fn law_fa_error_stays(
    options: Options,
    elements: Seq<(TopLevelView, Span)>,
    log: Seq<Seq<Note>>,
    k: int,
)
    requires
        0 <= k <= elements.len(),
        has_error(fa_all(fa_start(options), log, elements, k).1),
    ensures
        fa_compile(options, elements, log).0 is None,
        has_error(fa_compile(options, elements, log).1),
{
    let n = elements.len() as int;
    lemma_fa_all(fa_start(options), log, elements, k, n);
    let (b, log1) = fa_all(fa_start(options), log, elements, n);
    lemma_extends_error(log1, fa_all(fa_start(options), log, elements, k).1);
    lemma_fa_finish(b, log1);
    lemma_extends_error(fa_finish(b, log1).1, log1);
}

/// Epsilon is accepted exactly where epsilon moves are permitted. A
/// transition function declared from a declared state on epsilon logs the
/// error `epsilon moves not permitted` if the options do not permit epsilon
/// moves, and then the log has an error from there on; if they permit them,
/// nothing is logged for the epsilon, and the targets are compiled on the
/// log as it was.
pub proof fn law_fa_epsilon(
    b: FaBuild,
    log: Seq<Seq<Note>>,
    args: Seq<(ItemView, Span)>,
    args_span: Span,
    value: (ItemView, Span),
)
    requires
        fa_sound(b, log),
        fa_args(args) matches Some((state, letter)) && defines(b.states, state.0)
            && letter.0 is Epsilon,
    ensures
        !b.options.epsilon_moves ==> has_error(fa_transition(b, log, args, args_span, value).1),
        b.options.epsilon_moves ==> fa_transition(b, log, args, args_span, value) == ({
            let key = FromView { state: fa_args(args).unwrap().0.0, letter: None };
            let targets = weak_view(value);
            let (transitions, log1) = fa_targets(
                b,
                log,
                key,
                args_span,
                targets,
                targets.len() as int,
            );
            (FaBuild { transitions, ..b }, log1)
        }),
{
    let (state, letter) = fa_args(args).unwrap();
    if !b.options.epsilon_moves {
        let log1 = log.push(
            single(LogLevel::Error, "epsilon moves not permitted"@, Some(letter.1)),
        );
        lemma_last_error(log1);
        let key = FromView { state: state.0, letter: None };
        let targets = weak_view(value);
        lemma_fa_targets(b, log1, key, args_span, targets, targets.len() as int);
        lemma_extends_error(fa_transition(b, log, args, args_span, value).1, log1);
    }
}

/// A second target from the same start: for a deterministic machine it is
/// an error, for a non-deterministic one it is kept beside the first and
/// nothing is logged. Here `first` and `second` are declared states, and no
/// transition from `key` was declared before.
pub proof fn law_fa_second_target(
    b: FaBuild,
    log: Seq<Seq<Note>>,
    key: FromView,
    function: Span,
    first: (Seq<char>, Span),
    second: (Seq<char>, Span),
)
    requires
        defines(b.states, first.0),
        defines(b.states, second.0),
        first.1 != second.1,
        first_for(b.transitions, key) is None,
    ensures
        ({
            let items = seq![
                (ItemView::Symbol(SymbolView::Ident(first.0)), first.1),
                (ItemView::Symbol(SymbolView::Ident(second.0)), second.1),
            ];
            let (transitions, log1) = fa_targets(b, log, key, function, items, 2);
            let one = ToView { state: first.0, transition: first.1, function };
            let two = ToView { state: second.0, transition: second.1, function };
            &&& !b.options.non_deterministic ==> has_error(log1)
            &&& b.options.non_deterministic ==> log1 == log && transitions
                == b.transitions.push((key, one)).push((key, two))
        }),
{
    let items = seq![
        (ItemView::Symbol(SymbolView::Ident(first.0)), first.1),
        (ItemView::Symbol(SymbolView::Ident(second.0)), second.1),
    ];
    let one = ToView { state: first.0, transition: first.1, function };
    let two = ToView { state: second.0, transition: second.1, function };
    reveal_with_fuel(fa_targets, 3);
    crate::automatan::lemma_first_for_exists(b.transitions, key);
    assert(!b.transitions.contains((key, one))) by {
        if b.transitions.contains((key, one)) {
            let i = choose|i: int| 0 <= i < b.transitions.len() && b.transitions[i] == (key, one);
            assert(b.transitions[i].0 == key);
        }
    }
    let (ts1, log1) = fa_targets(b, log, key, function, items, 1);
    assert(ts1 == b.transitions.push((key, one)));
    assert(log1 == log);
    crate::automatan::lemma_first_for_exists(ts1, key);
    assert(ts1[ts1.len() - 1].0 == key);
    assert(!ts1.contains((key, two))) by {
        if ts1.contains((key, two)) {
            let i = choose|i: int| 0 <= i < ts1.len() && ts1[i] == (key, two);
            if i < b.transitions.len() {
                assert(b.transitions[i].0 == key);
            }
        }
    }
    let (ts2, log2) = fa_targets(b, log, key, function, items, 2);
    if !b.options.non_deterministic {
        lemma_last_error(log2);
    }
}


/// Whether the tables of a machine are sets: no state, letter or final state
/// stands twice, and no transition stands twice.
pub open spec fn fa_sets(m: FaView) -> bool {
    &&& distinct(m.states)
    &&& distinct(m.alphabet)
    &&& distinct(m.final_states)
    &&& m.transitions.no_duplicates()
}

/// What holds of the compiler's tables after every declaration: they are
/// sets.
pub open spec fn fa_build_sets(b: FaBuild) -> bool {
    &&& distinct(b.states)
    &&& distinct(b.alphabet)
    &&& distinct(b.final_states)
    &&& b.transitions.no_duplicates()
}

proof fn lemma_fa_targets_sets(
    b: FaBuild,
    log: Seq<Seq<Note>>,
    key: FromView,
    function: Span,
    items: Seq<(ItemView, Span)>,
    n: int,
)
    requires
        b.transitions.no_duplicates(),
    ensures
        fa_targets(b, log, key, function, items, n).0.no_duplicates(),
    decreases n,
{
    if n > 0 {
        lemma_fa_targets_sets(b, log, key, function, items, n - 1);
        let (transitions, log1) = fa_targets(b, log, key, function, items, n - 1);
        match items[n - 1].0 {
            ItemView::Symbol(SymbolView::Ident(next)) => {
                let to = ToView { state: next, transition: items[n - 1].1, function };
                if !transitions.contains((key, to)) {
                    lemma_push_no_duplicates(transitions, (key, to));
                }
            },
            _ => {},
        }
    }
}

proof fn lemma_fa_top_level_sets(b: FaBuild, log: Seq<Seq<Note>>, element: (TopLevelView, Span))
    requires
        fa_build_sets(b),
    ensures
        fa_build_sets(fa_top_level(b, log, element).0),
{
    match element.0 {
        TopLevelView::Item { name, name_span, value } => {
            if name == "Q"@ {
                lemma_section_distinct(Section::States, b.states, b.states_def, log, value, element.1);
            } else if is_sigma(name) {
                lemma_section_distinct(
                    Section::Alphabet,
                    b.alphabet,
                    b.alphabet_def,
                    log,
                    value,
                    element.1,
                );
            } else if name == "F"@ {
                lemma_finals_distinct(
                    b.states,
                    b.final_states,
                    b.final_states_def,
                    log,
                    value,
                    element.1,
                );
            }
        },
        TopLevelView::TransitionFunc { name, name_span, args, args_span, head_span, value } => {
            if is_delta(name) {
                match fa_args(args) {
                    Some((state, letter)) => {
                        if defines(b.states, state.0) {
                            let (read, log1) = match letter.0 {
                                SymbolView::Epsilon(_) => (
                                    None,
                                    if !b.options.epsilon_moves {
                                        log.push(
                                            single(
                                                LogLevel::Error,
                                                "epsilon moves not permitted"@,
                                                Some(letter.1),
                                            ),
                                        )
                                    } else {
                                        log
                                    },
                                ),
                                SymbolView::Ident(name) => (
                                    Some(name),
                                    if !defines(b.alphabet, name) {
                                        log.push(
                                            single(
                                                LogLevel::Error,
                                                "transition letter not defined in alphabet"@,
                                                Some(letter.1),
                                            ),
                                        )
                                    } else {
                                        log
                                    },
                                ),
                            };
                            let key = FromView { state: state.0, letter: read };
                            let targets = weak_view(value);
                            lemma_fa_targets_sets(
                                b,
                                log1,
                                key,
                                args_span,
                                targets,
                                targets.len() as int,
                            );
                        }
                    },
                    None => {},
                }
            }
        },
        _ => {},
    }
}

proof fn lemma_fa_all_sets(
    b: FaBuild,
    log: Seq<Seq<Note>>,
    elements: Seq<(TopLevelView, Span)>,
    n: int,
)
    requires
        fa_build_sets(b),
    ensures
        fa_build_sets(fa_all(b, log, elements, n).0),
    decreases n,
{
    if n > 0 {
        lemma_fa_all_sets(b, log, elements, n - 1);
        let (b1, log1) = fa_all(b, log, elements, n - 1);
        lemma_fa_top_level_sets(b1, log1, elements[n - 1]);
    }
}

/// The tables of a compiled finite automaton are sets: no state, no letter
/// and no final state stands twice in its table, and no transition stands
/// twice among the transitions.
pub proof fn law_fa_sets(options: Options, elements: Seq<(TopLevelView, Span)>, log: Seq<Seq<Note>>)
    ensures
        fa_compile(options, elements, log).0 matches Some(m) ==> fa_sets(m),
{
    lemma_fa_all_sets(fa_start(options), log, elements, elements.len() as int);
}


/// Whether no two transitions start at the same state with the same letter.
pub open spec fn single_valued(transitions: Seq<(FromView, ToView)>) -> bool {
    forall|i: int, j: int|
        0 <= i < j < transitions.len() ==> (#[trigger] transitions[i]).0 != (
        #[trigger] transitions[j]).0
}

/// Whether every transition reads a letter.
pub open spec fn epsilon_free(transitions: Seq<(FromView, ToView)>) -> bool {
    forall|i: int| 0 <= i < transitions.len() ==> (#[trigger] transitions[i]).0.letter is Some
}

/// What holds of the compiler's state after every declaration: unless the
/// log has an error, the transitions keep to the options.
pub open spec fn fa_within_options(b: FaBuild, log: Seq<Seq<Note>>) -> bool {
    ||| has_error(log)
    ||| {
        &&& b.options.non_deterministic || single_valued(b.transitions)
        &&& b.options.epsilon_moves || epsilon_free(b.transitions)
    }
}

proof fn lemma_fa_target_options(
    b: FaBuild,
    transitions: Seq<(FromView, ToView)>,
    log: Seq<Seq<Note>>,
    key: FromView,
    function: Span,
    item: (ItemView, Span),
)
    requires
        fa_within_options(FaBuild { transitions, ..b }, log),
        has_error(log) || b.options.epsilon_moves || key.letter is Some,
    ensures
        fa_within_options(
            FaBuild { transitions: fa_target(b, transitions, log, key, function, item).0, ..b },
            fa_target(b, transitions, log, key, function, item).1,
        ),
{
    let (after, log1) = fa_target(b, transitions, log, key, function, item);
    assert(extends(log1, log));
    if has_error(log) {
        lemma_extends_error(log1, log);
    } else {
        match item.0 {
            ItemView::Symbol(SymbolView::Ident(next)) => {
                if defines(b.states, next) {
                    let to = ToView { state: next, transition: item.1, function };
                    crate::automatan::lemma_first_for_exists(transitions, key);
                    if first_for(transitions, key) is Some && !b.options.non_deterministic {
                        let log2 = log.push(
                            noted(
                                LogLevel::Error,
                                "transition already defined for this starting point (non determinism not permitted)"@,
                                Some(item.1),
                                LogLevel::Info,
                                "previously defined here"@,
                                Some(first_for(transitions, key).unwrap().transition),
                            ),
                        );
                        lemma_last_error(log2);
                        assert(extends(log1, log2));
                        lemma_extends_error(log1, log2);
                    }
                } else {
                    lemma_last_error(log1);
                }
            },
            _ => {
                lemma_last_error(log1);
            },
        }
    }
}

proof fn lemma_fa_targets_options(
    b: FaBuild,
    log: Seq<Seq<Note>>,
    key: FromView,
    function: Span,
    items: Seq<(ItemView, Span)>,
    n: int,
)
    requires
        fa_within_options(b, log),
        has_error(log) || b.options.epsilon_moves || key.letter is Some,
    ensures
        extends(fa_targets(b, log, key, function, items, n).1, log),
        fa_within_options(
            FaBuild { transitions: fa_targets(b, log, key, function, items, n).0, ..b },
            fa_targets(b, log, key, function, items, n).1,
        ),
    decreases n,
{
    if n > 0 {
        lemma_fa_targets_options(b, log, key, function, items, n - 1);
        let (transitions, log1) = fa_targets(b, log, key, function, items, n - 1);
        if has_error(log) {
            lemma_extends_error(log1, log);
        }
        lemma_fa_target_options(b, transitions, log1, key, function, items[n - 1]);
    }
}

proof fn lemma_fa_top_level_options(b: FaBuild, log: Seq<Seq<Note>>, element: (TopLevelView, Span))
    requires
        fa_sound(b, log),
        fa_within_options(b, log),
    ensures
        fa_within_options(fa_top_level(b, log, element).0, fa_top_level(b, log, element).1),
        fa_top_level(b, log, element).0.options == b.options,
{
    let (b1, log1) = fa_top_level(b, log, element);
    lemma_fa_top_level(b, log, element);
    if has_error(log) {
        lemma_extends_error(log1, log);
    } else {
        match element.0 {
            TopLevelView::TransitionFunc { name, name_span, args, args_span, head_span, value } => {
                if is_delta(name) {
                    match fa_args(args) {
                        Some((state, letter)) => {
                            if defines(b.states, state.0) {
                                let (read, log2) = match letter.0 {
                                    SymbolView::Epsilon(_) => (
                                        None,
                                        if !b.options.epsilon_moves {
                                            log.push(
                                                single(
                                                    LogLevel::Error,
                                                    "epsilon moves not permitted"@,
                                                    Some(letter.1),
                                                ),
                                            )
                                        } else {
                                            log
                                        },
                                    ),
                                    SymbolView::Ident(name) => (
                                        Some(name),
                                        if !defines(b.alphabet, name) {
                                            log.push(
                                                single(
                                                    LogLevel::Error,
                                                    "transition letter not defined in alphabet"@,
                                                    Some(letter.1),
                                                ),
                                            )
                                        } else {
                                            log
                                        },
                                    ),
                                };
                                if log2 != log {
                                    lemma_last_error(log2);
                                }
                                let key = FromView { state: state.0, letter: read };
                                let targets = weak_view(value);
                                lemma_fa_targets_options(
                                    b,
                                    log2,
                                    key,
                                    args_span,
                                    targets,
                                    targets.len() as int,
                                );
                            }
                        },
                        None => {},
                    }
                }
            },
            _ => {},
        }
    }
}

proof fn lemma_fa_all_options(
    b: FaBuild,
    log: Seq<Seq<Note>>,
    elements: Seq<(TopLevelView, Span)>,
    n: int,
)
    requires
        fa_sound(b, log),
        fa_within_options(b, log),
    ensures
        fa_within_options(fa_all(b, log, elements, n).0, fa_all(b, log, elements, n).1),
        fa_all(b, log, elements, n).0.options == b.options,
    decreases n,
{
    if n > 0 {
        lemma_fa_all_options(b, log, elements, n - 1);
        lemma_fa_all(b, log, elements, 0, n - 1);
        let (b1, log1) = fa_all(b, log, elements, n - 1);
        lemma_fa_top_level_options(b1, log1, elements[n - 1]);
    }
}

/// A compiled machine keeps to its options. Under deterministic options no
/// two of its transitions start at the same state with the same letter;
/// where epsilon moves are not permitted, each of its transitions reads a
/// letter.
pub proof fn law_fa_within_options(
    options: Options,
    elements: Seq<(TopLevelView, Span)>,
    log: Seq<Seq<Note>>,
)
    ensures
        fa_compile(options, elements, log).0 matches Some(m) ==> {
            &&& !options.non_deterministic ==> single_valued(m.transitions)
            &&& !options.epsilon_moves ==> epsilon_free(m.transitions)
        },
{
    let n = elements.len() as int;
    lemma_fa_all_options(fa_start(options), log, elements, n);
    lemma_fa_all(fa_start(options), log, elements, 0, n);
    let (b, log1) = fa_all(fa_start(options), log, elements, n);
    lemma_fa_finish(b, log1);
}


proof fn lemma_fa_all_letters(
    b: FaBuild,
    log: Seq<Seq<Note>>,
    elements: Seq<(TopLevelView, Span)>,
    n: int,
)
    requires
        fa_sound(b, log),
        one_char_each(b.alphabet) || has_error(log),
    ensures
        one_char_each(fa_all(b, log, elements, n).0.alphabet) || has_error(
            fa_all(b, log, elements, n).1,
        ),
    decreases n,
{
    if n > 0 {
        lemma_fa_all_letters(b, log, elements, n - 1);
        lemma_fa_all(b, log, elements, 0, n - 1);
        let (b1, log1) = fa_all(b, log, elements, n - 1);
        let element = elements[n - 1];
        let (b2, log2) = fa_top_level(b1, log1, element);
        lemma_fa_top_level(b1, log1, element);
        if has_error(log1) {
            lemma_extends_error(log2, log1);
        } else {
            match element.0 {
                TopLevelView::Item { name, name_span, value } => {
                    if name != "Q"@ && is_sigma(name) {
                        lemma_section_letters(b1.alphabet, b1.alphabet_def, log1, value, element.1);
                    }
                },
                _ => {},
            }
        }
    }
}

/// Letters are one character long: every letter of the alphabet of a
/// compiled finite automaton holds exactly one character.
pub proof fn law_fa_letters(options: Options, elements: Seq<(TopLevelView, Span)>, log: Seq<Seq<Note>>)
    ensures
        fa_compile(options, elements, log).0 matches Some(m) ==> one_char_each(m.alphabet),
{
    let n = elements.len() as int;
    lemma_fa_all_letters(fa_start(options), log, elements, n);
    lemma_fa_all(fa_start(options), log, elements, 0, n);
    let (b, log1) = fa_all(fa_start(options), log, elements, n);
    lemma_fa_finish(b, log1);
}

} // verus!
