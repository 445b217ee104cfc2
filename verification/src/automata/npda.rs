//! The simulator of non-deterministic pushdown automata: it follows every
//! path of a machine over an input, one synchronized step at a time.

use vstd::prelude::*;
use vstd::string::*;

use crate::automatan::pda::{
    pda_compile, stack_view, transitions_view, FromView, Pda, PdaView, ToView,
    TransitionFrom, TransitionTo,
};
use crate::automatan::{states_view, Options, State, Symbol, Table};
use crate::loader::ast::TopLevel;
use crate::loader::log::{has_error, Logs};
use crate::loader::parser::elements_view;
use crate::loader::{non_deterministic, parse_all, parse_spec, Context, Spanned};
use crate::loader::lexer::offset;
use crate::loader::render::index_of;
use crate::text::{
    chars_of, lemma_encoded_len, lemma_utf8_len_prefix, lemma_utf8_len_step, len_utf8, utf8_len,
    utf8_width,
};

verus! {

/// What the simulator needs of a pushdown automaton.
#[derive(Clone, Debug, PartialEq, Eq)]
pub struct TransitionTable {
    initial_state: State,
    initial_stack: Symbol,
    accept_empty: bool,
    final_states: Vec<State>,
    transitions: Vec<(TransitionFrom, TransitionTo)>,
}

/// A transition table as contracts see it.
pub ghost struct TableView {
    pub initial_state: Seq<char>,
    pub initial_stack: Seq<char>,
    /// Whether the machine accepts by empty stack; if not, by final state.
    pub accept_empty: bool,
    pub final_states: Seq<Seq<char>>,
    pub transitions: Seq<(FromView, ToView)>,
}

/// One path of a simulation: the state, the stack with its top last, and
/// the position in the input, in bytes.
#[derive(Clone, Debug, PartialEq, Eq, Hash)]
pub struct NPDA {
    pub state: State,
    pub stack: Vec<Symbol>,
    pub position: usize,
}

/// A path of a simulation as contracts see it.
pub ghost struct Config {
    pub state: Seq<char>,
    pub stack: Seq<Seq<char>>,
    pub position: nat,
}

/// What one step of a simulation finds.
#[derive(Clone, Debug, PartialEq, Eq)]
pub enum SimulatorResult {
    /// Paths are left to follow.
    Pending,
    /// No path is left, and none accepted in this step.
    Reject,
    /// A path has read the whole input and accepts.
    Accept(NPDA),
}

/// The outcome of a step as contracts see it.
pub ghost enum Outcome {
    Pending,
    Reject,
    Accept(Config),
}

/// The simulator: the input, the machine, and the paths that are alive. It
/// follows every path and sets no bound of its own: a machine that moves on
/// epsilon in a circle has paths for ever. A caller bounds a simulation by
/// the number of steps, with `run`.
pub struct Simulator {
    input: Vec<char>,
    table: TransitionTable,
    running: Vec<NPDA>,
}

/// State names as contracts see them.
pub open spec fn names_view(states: Seq<State>) -> Seq<Seq<char>> {
    Seq::new(states.len(), |i: int| states[i]@)
}

impl View for TransitionTable {
    type V = TableView;

    closed spec fn view(&self) -> TableView {
        TableView {
            initial_state: self.initial_state@,
            initial_stack: self.initial_stack@,
            accept_empty: self.accept_empty,
            final_states: names_view(self.final_states@),
            transitions: transitions_view(self.transitions@),
        }
    }
}

impl View for NPDA {
    type V = Config;

    open spec fn view(&self) -> Config {
        Config {
            state: self.state@,
            stack: stack_view(self.stack@),
            position: self.position as nat,
        }
    }
}

impl View for SimulatorResult {
    type V = Outcome;

    open spec fn view(&self) -> Outcome {
        match self {
            SimulatorResult::Pending => Outcome::Pending,
            SimulatorResult::Reject => Outcome::Reject,
            SimulatorResult::Accept(npda) => Outcome::Accept(npda@),
        }
    }
}

/// Paths as contracts see them.
pub open spec fn frontier_view(running: Seq<NPDA>) -> Seq<Config> {
    Seq::new(running.len(), |i: int| running[i]@)
}

/// The names of a table of names, in order.
pub open spec fn names_of(table: Table) -> Seq<Seq<char>> {
    Seq::new(table.len(), |i: int| table[i].0)
}

/// What the simulator needs of a compiled pushdown automaton. A machine
/// without final states accepts by empty stack.
pub open spec fn lower(pda: PdaView) -> TableView {
    TableView {
        initial_state: pda.initial_state,
        initial_stack: pda.initial_stack,
        accept_empty: pda.final_states is None,
        final_states: match pda.final_states {
            Some(states) => names_of(states),
            None => Seq::empty(),
        },
        transitions: pda.transitions,
    }
}

/// The path that a simulation starts with: the initial state over the
/// initial stack symbol, with nothing read.
pub open spec fn initial_config(table: TableView) -> Config {
    Config { state: table.initial_state, stack: seq![table.initial_stack], position: 0 }
}

/// The targets of the transitions that start at `key`, in the order of
/// declaration.
pub open spec fn targets(transitions: Seq<(FromView, ToView)>, key: FromView) -> Seq<ToView>
    decreases transitions.len(),
{
    if transitions.len() == 0 {
        Seq::empty()
    } else {
        let rest = targets(transitions.drop_last(), key);
        if transitions.last().0 == key {
            rest.push(transitions.last().1)
        } else {
            rest
        }
    }
}

/// The character of the input that starts at the byte offset `position`.
/// There is none at the end of the input and behind it, nor inside a
/// character.
pub open spec fn char_at(input: Seq<char>, position: nat) -> Option<char> {
    let i = index_of(input, position, 0);
    if 0 <= i < input.len() && offset(input, i) == position {
        Some(input[i])
    } else {
        None
    }
}

/// The paths that follow `config` by the targets `to`: each goes to the
/// target's state, with the target's symbols pushed on `rest`, at `position`.
pub open spec fn follow(to: Seq<ToView>, rest: Seq<Seq<char>>, position: nat) -> Seq<Config> {
    Seq::new(
        to.len(),
        |i: int| Config { state: to[i].state, stack: rest + to[i].stack, position },
    )
}

/// The paths that follow `config` in one step: nothing for an empty stack;
/// else the top symbol is taken, and each epsilon transition from the state
/// and that symbol gives a path that has read no more, and, if input is
/// left, each transition on the next character gives a path that has read
/// it: its position is further by the bytes of that character.
pub open spec fn successors(table: TableView, input: Seq<char>, config: Config) -> Seq<Config> {
    if config.stack.len() == 0 {
        Seq::empty()
    } else {
        let top = config.stack.last();
        let rest = config.stack.drop_last();
        let silent = follow(
            targets(table.transitions, FromView { state: config.state, letter: None, symbol: top }),
            rest,
            config.position,
        );
        match char_at(input, config.position) {
            Some(c) => silent + follow(
                targets(
                    table.transitions,
                    FromView { state: config.state, letter: Some(seq![c]), symbol: top },
                ),
                rest,
                config.position + utf8_width(c),
            ),
            None => silent,
        }
    }
}

/// Whether a path accepts: its stack is not empty, no character of the
/// input starts at its position, and either the machine accepts by empty stack and the stack holds
/// the initial stack symbol alone, or the machine accepts by final state
/// and the state is final.
pub open spec fn accepts(table: TableView, input: Seq<char>, config: Config) -> bool {
    &&& config.stack.len() > 0
    &&& char_at(input, config.position) is None
    &&& if table.accept_empty {
        config.stack == seq![table.initial_stack]
    } else {
        table.final_states.contains(config.state)
    }
}

/// The index of the first path from `from` on that accepts.
pub open spec fn first_accepting(
    table: TableView,
    input: Seq<char>,
    frontier: Seq<Config>,
    from: int,
) -> Option<int>
    decreases frontier.len() - from,
{
    if from < 0 || from >= frontier.len() {
        None
    } else if accepts(table, input, frontier[from]) {
        Some(from)
    } else {
        first_accepting(table, input, frontier, from + 1)
    }
}

/// The paths that follow the first `n` paths of `frontier`, in order.
pub open spec fn all_successors(table: TableView, input: Seq<char>, frontier: Seq<Config>, n: int) -> Seq<
    Config,
>
    decreases n,
{
    if n <= 0 {
        Seq::empty()
    } else {
        all_successors(table, input, frontier, n - 1) + successors(table, input, frontier[n - 1])
    }
}

/// One step of the simulation. If a path accepts, the first such path is
/// the outcome and no path stays alive. Else every path is replaced by the
/// paths that follow it; the outcome is `Reject` if none is left and
/// `Pending` if some are.
pub open spec fn step_spec(table: TableView, input: Seq<char>, frontier: Seq<Config>) -> (
    Outcome,
    Seq<Config>,
) {
    match first_accepting(table, input, frontier, 0) {
        Some(found) => (Outcome::Accept(frontier[found]), Seq::empty()),
        None => {
            let next = all_successors(table, input, frontier, frontier.len() as int);
            if next.len() == 0 {
                (Outcome::Reject, next)
            } else {
                (Outcome::Pending, next)
            }
        },
    }
}

/// At most `limit` steps, up to the first that is not `Pending`: its
/// outcome, or nothing if every one of them was `Pending`; and the paths that
/// are alive after them.
pub open spec fn run_spec(table: TableView, input: Seq<char>, frontier: Seq<Config>, limit: nat) -> (
    Option<Outcome>,
    Seq<Config>,
)
    decreases limit,
{
    if limit == 0 {
        (None, frontier)
    } else {
        let (outcome, next) = step_spec(table, input, frontier);
        if outcome is Pending {
            run_spec(table, input, next, (limit - 1) as nat)
        } else {
            (Some(outcome), next)
        }
    }
}

/// Whether a position is the byte offset of a character of the input, or
/// of its end.
pub open spec fn on_boundary(input: Seq<char>, position: nat) -> bool {
    exists|i: int| 0 <= i <= input.len() && #[trigger] offset(input, i) == position
}

/// Whether every path stands at the byte offset of a character of the
/// input, or at its end.
pub open spec fn on_boundaries(input: Seq<char>, frontier: Seq<Config>) -> bool {
    forall|k: int| 0 <= k < frontier.len() ==> on_boundary(input, (#[trigger] frontier[k]).position)
}

proof fn lemma_successors_positions(table: TableView, input: Seq<char>, config: Config)
    requires
        on_boundary(input, config.position),
    ensures
        on_boundaries(input, successors(table, input, config)),
{
    if config.stack.len() > 0 {
        match char_at(input, config.position) {
            Some(c) => {
                let i = index_of(input, config.position, 0);
                lemma_utf8_len_step(input, i);
                assert(offset(input, i + 1) == config.position + utf8_width(c));
            },
            None => {},
        }
    }
}

proof fn lemma_all_successors_positions(
    table: TableView,
    input: Seq<char>,
    frontier: Seq<Config>,
    n: int,
)
    requires
        on_boundaries(input, frontier),
        0 <= n <= frontier.len(),
    ensures
        on_boundaries(input, all_successors(table, input, frontier, n)),
    decreases n,
{
    if n > 0 {
        lemma_all_successors_positions(table, input, frontier, n - 1);
        lemma_successors_positions(table, input, frontier[n - 1]);
        let before = all_successors(table, input, frontier, n - 1);
        let more = successors(table, input, frontier[n - 1]);
        let all = before + more;
        assert forall|k: int| 0 <= k < all.len() implies on_boundary(
            input,
            (#[trigger] all[k]).position,
        ) by {
            if k < before.len() {
                assert(all[k] == before[k]);
            } else {
                assert(all[k] == more[k - before.len()]);
            }
        }
    }
}

/// Positions are byte offsets of characters. The initial path stands at
/// offset 0; and where every path stands at the offset of a character of the
/// input or at its end, so does every path after a step, and so does the
/// path that a step accepts. A path that reads a character goes on by the
/// bytes of that character, a path that moves on epsilon stays.
pub proof fn lemma_step_positions(table: TableView, input: Seq<char>, frontier: Seq<Config>)
    requires
        on_boundaries(input, frontier),
    ensures
        on_boundary(input, initial_config(table).position),
        on_boundaries(input, step_spec(table, input, frontier).1),
        step_spec(table, input, frontier).0 matches Outcome::Accept(config) ==> on_boundary(
            input,
            config.position,
        ),
{
    assert(input.take(0) =~= Seq::<char>::empty());
    assert(offset(input, 0) == 0);
    lemma_first_accepting(table, input, frontier, 0);
    lemma_all_successors_positions(table, input, frontier, frontier.len() as int);
}

proof fn lemma_first_accepting(table: TableView, input: Seq<char>, frontier: Seq<Config>, from: int)
    ensures
        first_accepting(table, input, frontier, from) matches Some(found) ==> from <= found
            < frontier.len(),
    decreases frontier.len() - from,
{
    if 0 <= from < frontier.len() && !accepts(table, input, frontier[from]) {
        lemma_first_accepting(table, input, frontier, from + 1);
    }
}

/// A step from no path is `Reject` and leaves no path.
pub proof fn lemma_step_from_nothing(table: TableView, input: Seq<char>)
    ensures
        step_spec(table, input, Seq::empty()) == (Outcome::Reject, Seq::<Config>::empty()),
{
    assert(all_successors(table, input, Seq::empty(), 0) =~= Seq::<Config>::empty());
}

/// After a step that ended in `Accept` or `Reject` no path is alive, and
/// every further step is `Reject` and leaves no path: stepping on makes no
/// progress.
pub proof fn lemma_step_settles(table: TableView, input: Seq<char>, frontier: Seq<Config>)
    ensures
        !(step_spec(table, input, frontier).0 is Pending) ==> {
            &&& step_spec(table, input, frontier).1 == Seq::<Config>::empty()
            &&& step_spec(table, input, step_spec(table, input, frontier).1) == (
                Outcome::Reject,
                Seq::<Config>::empty(),
            )
        },
{
    lemma_step_from_nothing(table, input);
    let (outcome, next) = step_spec(table, input, frontier);
    if outcome is Reject {
        assert(next =~= Seq::<Config>::empty());
    }
}

/// A copy of a stack of symbols.
fn copy_stack(stack: &Vec<Symbol>, len: usize) -> (r: Vec<Symbol>)
    requires
        len <= stack.len(),
    ensures
        stack_view(r@) == stack_view(stack@).take(len as int),
{
    let mut out: Vec<Symbol> = Vec::new();
    let mut i: usize = 0;
    while i < len
        invariant
            0 <= i <= len <= stack.len(),
            out@.len() == i,
            forall|j: int| 0 <= j < i ==> (#[trigger] out@[j])@ == stack@[j]@,
        decreases len - i,
    {
        out.push(Symbol(stack[i].0.clone()));
        i += 1;
    }
    assert(stack_view(out@) =~= stack_view(stack@).take(len as int));
    out
}

/// Puts copies of the symbols of `more` on `stack`.
fn push_stack(stack: &mut Vec<Symbol>, more: &Vec<Symbol>)
    ensures
        stack_view(final(stack)@) == stack_view(old(stack)@) + stack_view(more@),
{
    let ghost before = stack_view(stack@);
    let mut i: usize = 0;
    while i < more.len()
        invariant
            0 <= i <= more.len(),
            stack_view(stack@) =~= before + stack_view(more@).take(i as int),
        decreases more.len() - i,
    {
        let ghost now = stack_view(stack@);
        stack.push(Symbol(more[i].0.clone()));
        assert(stack_view(stack@) =~= now.push(more@[i as int]@));
        i += 1;
    }
    assert(stack_view(more@).take(more.len() as int) =~= stack_view(more@));
}

/// The character of the input that starts at the byte offset `position`.
fn char_here(input: &Vec<char>, position: usize) -> (r: Option<char>)
    requires
        utf8_len(input@) <= usize::MAX,
    ensures
        r == char_at(input@, position as nat),
        r matches Some(c) ==> position + utf8_width(c) <= usize::MAX,
{
    let ghost src = input@;
    let mut i: usize = 0;
    let mut at: usize = 0;
    proof {
        assert(src.take(0) =~= Seq::<char>::empty());
    }
    while i < input.len() && at < position
        invariant
            0 <= i <= input.len(),
            src == input@,
            utf8_len(src) <= usize::MAX,
            at == offset(src, i as int),
            index_of(src, position as nat, 0) == index_of(src, position as nat, i as int),
        decreases input.len() - i,
    {
        proof {
            lemma_utf8_len_step(src, i as int);
            lemma_utf8_len_prefix(src, i + 1, src.len() as int);
            assert(src.take(src.len() as int) =~= src);
        }
        at = at + len_utf8(input[i]);
        i += 1;
    }
    if i < input.len() && at == position {
        proof {
            lemma_utf8_len_step(src, i as int);
            lemma_utf8_len_prefix(src, i + 1, src.len() as int);
            assert(src.take(src.len() as int) =~= src);
        }
        Some(input[i])
    } else {
        None
    }
}

/// Whether a name holds the character `c` alone.
fn is_char(name: &String, c: char) -> (b: bool)
    ensures
        b == (name@ == seq![c]),
{
    let text = name.as_str();
    if text.unicode_len() == 1 {
        let found = text.get_char(0);
        assert(found == c ==> name@ =~= seq![c]);
        found == c
    } else {
        false
    }
}

/// The letter that the character stands for, if there is a character.
pub open spec fn letter_view(letter: Option<char>) -> Option<Seq<char>> {
    match letter {
        Some(c) => Some(seq![c]),
        None => None,
    }
}

/// Whether a transition starts at `state` with `top` on the stack and reads
/// `letter`.
fn starts_at(from: &TransitionFrom, state: &State, top: &Symbol, letter: Option<char>) -> (b: bool)
    ensures
        b == (from@ == FromView { state: state@, letter: letter_view(letter), symbol: top@ }),
{
    from.state.0 == state.0 && from.symbol.0 == top.0 && match (&from.letter, letter) {
        (Some(x), Some(c)) => is_char(&x.0, c),
        (None, None) => true,
        _ => false,
    }
}

impl TransitionTable {
    /// What the simulator needs of a compiled pushdown automaton.
    pub fn from_pda(pda: Pda) -> (r: TransitionTable)
        ensures
            r@ == lower(pda@),
    {
        let Pda { initial_state, initial_stack, final_states, transitions, .. } = pda;
        let mut names: Vec<State> = Vec::new();
        let accept_empty = final_states.is_none();
        match &final_states {
            Some(states) => {
                let mut i: usize = 0;
                while i < states.len()
                    invariant
                        0 <= i <= states.len(),
                        names@.len() == i,
                        forall|j: int| 0 <= j < i ==> (#[trigger] names@[j])@ == states@[j].0@,
                    decreases states.len() - i,
                {
                    names.push(State(states[i].0.0.clone()));
                    i += 1;
                }
                assert(names_view(names@) =~= names_of(states_view(states@)));
            },
            None => {
                assert(names_view(names@) =~= Seq::empty());
            },
        }
        TransitionTable { initial_state, initial_stack, accept_empty, final_states: names, transitions }
    }

    /// Compiles declarations into the table of a non-deterministic pushdown
    /// automaton. Every problem is logged in `ctx`; there is a table exactly
    /// if the log holds no error at the end.
    pub fn load_from_ast(ast: &Vec<Spanned<TopLevel>>, ctx: &mut Context) -> (r: Option<
        TransitionTable,
    >)
        ensures
            final(ctx).text() == old(ctx).text(),
            final(ctx).log() == pda_compile(
                non_deterministic(),
                elements_view(ast@),
                old(ctx).log(),
            ).1,
            match pda_compile(non_deterministic(), elements_view(ast@), old(ctx).log()).0 {
                Some(pda) => r matches Some(table) && table@ == lower(pda),
                None => r is None,
            },
    {
        let options = Options { non_deterministic: true, epsilon_moves: true };
        match Pda::compile(ast, ctx, options) {
            Some(pda) => Some(TransitionTable::from_pda(pda)),
            None => None,
        }
    }

    /// Parses `input` and compiles it into the table of a non-deterministic
    /// pushdown automaton. The log comes back either way: beside the table,
    /// or alone if lexing, parsing or compiling logged an error.
    pub fn load_table(input: &str) -> (r: Result<(TransitionTable, Logs), Logs>)
        ensures
            ({
                let (elements, log) = parse_spec(input@, Seq::empty());
                if has_error(log) {
                    r matches Err(logs) && logs@ == log
                } else {
                    let (machine, log1) = pda_compile(non_deterministic(), elements, log);
                    match machine {
                        Some(pda) => r matches Ok(found) && found.0@ == lower(pda) && found.1@
                            == log1,
                        None => r matches Err(logs) && logs@ == log1,
                    }
                }
            }),
    {
        let mut ctx = Context::new(input);
        let ast = parse_all(&mut ctx);
        if ctx.contains_errors() {
            return Err(ctx.into_logs());
        }
        match TransitionTable::load_from_ast(&ast, &mut ctx) {
            Some(table) => Ok((table, ctx.into_logs())),
            None => Err(ctx.into_logs()),
        }
    }

    /// Whether `state` is final.
    fn is_final(&self, state: &State) -> (b: bool)
        ensures
            b == self@.final_states.contains(state@),
    {
        let ghost all = names_view(self.final_states@);
        let mut i: usize = 0;
        while i < self.final_states.len()
            invariant
                0 <= i <= self.final_states.len(),
                all == names_view(self.final_states@),
                forall|j: int| 0 <= j < i ==> all[j] != state@,
            decreases self.final_states.len() - i,
        {
            if self.final_states[i].0 == state.0 {
                assert(all[i as int] == state@);
                return true;
            }
            i += 1;
        }
        false
    }

    /// Whether a path accepts.
    fn accepting(&self, input: &Vec<char>, npda: &NPDA) -> (b: bool)
        requires
            utf8_len(input@) <= usize::MAX,
        ensures
            b == accepts(self@, input@, npda@),
    {
        if npda.stack.len() == 0 || char_here(input, npda.position).is_some() {
            return false;
        }
        if self.accept_empty {
            let single = npda.stack.len() == 1 && npda.stack[0].0 == self.initial_stack.0;
            proof {
                let stack = stack_view(npda.stack@);
                let wanted = seq![self.initial_stack@];
                if single {
                    assert(stack =~= wanted);
                } else if stack == wanted {
                    assert(stack.len() == wanted.len());
                    assert(stack[0] == wanted[0]);
                }
            }
            single
        } else {
            self.is_final(&npda.state)
        }
    }

    /// Adds to `out` the paths that follow by the transitions from `state`
    /// with `top` on the stack that read `letter`.
    fn follow_into(
        &self,
        out: &mut Vec<NPDA>,
        state: &State,
        top: &Symbol,
        letter: Option<char>,
        stack: &Vec<Symbol>,
        position: usize,
    )
        requires
            stack.len() > 0,
        ensures
            frontier_view(final(out)@) == frontier_view(old(out)@) + follow(
                targets(
                    self@.transitions,
                    FromView { state: state@, letter: letter_view(letter), symbol: top@ },
                ),
                stack_view(stack@).drop_last(),
                position as nat,
            ),
    {
        let ghost all = transitions_view(self.transitions@);
        let ghost key = FromView { state: state@, letter: letter_view(letter), symbol: top@ };
        let ghost rest = stack_view(stack@).drop_last();
        let ghost before = frontier_view(out@);
        let mut i: usize = 0;
        proof {
            assert(all.take(0) =~= Seq::empty());
            assert(before + follow(Seq::empty(), rest, position as nat) =~= before);
        }
        while i < self.transitions.len()
            invariant
                0 <= i <= self.transitions.len(),
                stack.len() > 0,
                all == transitions_view(self.transitions@),
                key == (FromView { state: state@, letter: letter_view(letter), symbol: top@ }),
                rest == stack_view(stack@).drop_last(),
                frontier_view(out@) == before + follow(
                    targets(all.take(i as int), key),
                    rest,
                    position as nat,
                ),
            decreases self.transitions.len() - i,
        {
            let ghost found = targets(all.take(i as int), key);
            let ghost now = frontier_view(out@);
            proof {
                assert(all.take(i + 1).drop_last() =~= all.take(i as int));
            }
            if starts_at(&self.transitions[i].0, state, top, letter) {
                let to = &self.transitions[i].1;
                let mut next = copy_stack(stack, stack.len() - 1);
                push_stack(&mut next, &to.stack);
                let npda = NPDA { state: State(to.state.0.clone()), stack: next, position };
                out.push(npda);
                proof {
                    assert(stack_view(stack@).take(stack.len() - 1) =~= rest);
                    let config = Config {
                        state: to@.state,
                        stack: rest + to@.stack,
                        position: position as nat,
                    };
                    assert(npda@ == config);
                    assert(frontier_view(out@) =~= now.push(config));
                    assert(follow(found.push(to@), rest, position as nat) =~= follow(
                        found,
                        rest,
                        position as nat,
                    ).push(config));
                    assert(before + follow(found, rest, position as nat).push(config) =~= (before
                        + follow(found, rest, position as nat)).push(config));
                }
            }
            i += 1;
        }
        proof {
            assert(all.take(i as int) =~= all);
        }
    }

    /// Adds to `out` the paths that follow `npda` in one step.
    fn successors_into(&self, out: &mut Vec<NPDA>, input: &Vec<char>, npda: &NPDA)
        requires
            utf8_len(input@) <= usize::MAX,
        ensures
            frontier_view(final(out)@) == frontier_view(old(out)@) + successors(
                self@,
                input@,
                npda@,
            ),
    {
        let ghost before = frontier_view(out@);
        if npda.stack.len() == 0 {
            assert(before + Seq::<Config>::empty() =~= before);
            return ;
        }
        let top = &npda.stack[npda.stack.len() - 1];
        assert(top@ == stack_view(npda.stack@).last());
        self.follow_into(out, &npda.state, top, None, &npda.stack, npda.position);
        if let Some(c) = char_here(input, npda.position) {
            let ghost silent = follow(
                targets(
                    self@.transitions,
                    FromView { state: npda.state@, letter: None, symbol: top@ },
                ),
                stack_view(npda.stack@).drop_last(),
                npda.position as nat,
            );
            self.follow_into(
                out,
                &npda.state,
                top,
                Some(c),
                &npda.stack,
                npda.position + len_utf8(c),
            );
            proof {
                let read = follow(
                    targets(
                        self@.transitions,
                        FromView { state: npda.state@, letter: Some(seq![c]), symbol: top@ },
                    ),
                    stack_view(npda.stack@).drop_last(),
                    (npda.position + utf8_width(c)) as nat,
                );
                assert((before + silent) + read =~= before + (silent + read));
            }
        }
    }
}

impl NPDA {
    /// A copy of the path.
    pub fn duplicate(&self) -> (r: NPDA)
        ensures
            r@ == self@,
    {
        let stack = copy_stack(&self.stack, self.stack.len());
        assert(stack_view(self.stack@).take(self.stack.len() as int) =~= stack_view(self.stack@));
        NPDA { state: State(self.state.0.clone()), stack, position: self.position }
    }
}

impl Simulator {
    #[verifier::type_invariant]
    spec fn inv(self) -> bool {
        utf8_len(self.input@) <= usize::MAX
    }

    /// The machine that is simulated.
    pub closed spec fn table(&self) -> TableView {
        self.table@
    }

    /// The characters of the input.
    pub closed spec fn input(&self) -> Seq<char> {
        self.input@
    }

    /// The paths that are alive.
    pub closed spec fn frontier(&self) -> Seq<Config> {
        frontier_view(self.running@)
    }

    /// A simulation of `table` over `input`, with the initial path alone.
    pub fn begin(input: &str, table: TransitionTable) -> (r: Self)
        ensures
            r.table() == table@,
            r.input() == input@,
            r.frontier() == seq![initial_config(table@)],
    {
        let mut stack: Vec<Symbol> = Vec::new();
        stack.push(Symbol(table.initial_stack.0.clone()));
        let first = NPDA { state: State(table.initial_state.0.clone()), stack, position: 0 };
        assert(stack_view(first.stack@) =~= seq![table@.initial_stack]);
        let mut running: Vec<NPDA> = Vec::new();
        running.push(first);
        assert(frontier_view(running@) =~= seq![initial_config(table@)]);
        let size = input.as_bytes().len();
        proof {
            lemma_encoded_len(input@);
        }
        Self { input: chars_of(input), table, running }
    }

    /// The paths that are alive.
    pub fn running(&self) -> (r: &Vec<NPDA>)
        ensures
            frontier_view(r@) == self.frontier(),
    {
        &self.running
    }

    /// One step of the simulation.
    pub fn step(&mut self) -> (r: SimulatorResult)
        ensures
            final(self).table() == old(self).table(),
            final(self).input() == old(self).input(),
            (r@, final(self).frontier()) == step_spec(
                old(self).table(),
                old(self).input(),
                old(self).frontier(),
            ),
            !(r is Pending) ==> final(self).frontier().len() == 0,
            old(self).frontier().len() == 0 ==> r is Reject,
    {
        let ghost table = self.table@;
        let ghost input = self.input@;
        let ghost frontier = frontier_view(self.running@);
        proof {
            use_type_invariant(&*self);
            lemma_step_settles(table, input, frontier);
            lemma_step_from_nothing(table, input);
        }
        let mut i: usize = 0;
        while i < self.running.len()
            invariant
                0 <= i <= self.running.len(),
                table == old(self).table(),
                input == old(self).input(),
                frontier == old(self).frontier(),
                self.table@ == table,
                utf8_len(self.input@) <= usize::MAX,
                self.input@ == input,
                frontier_view(self.running@) == frontier,
                first_accepting(table, input, frontier, 0) == first_accepting(
                    table,
                    input,
                    frontier,
                    i as int,
                ),
            decreases self.running.len() - i,
        {
            if self.table.accepting(&self.input, &self.running[i]) {
                let found = self.running[i].duplicate();
                self.running = Vec::new();
                assert(frontier_view(self.running@) =~= Seq::<Config>::empty());
                return SimulatorResult::Accept(found);
            }
            i += 1;
        }
        let mut next: Vec<NPDA> = Vec::new();
        let mut k: usize = 0;
        assert(frontier_view(next@) =~= Seq::<Config>::empty());
        while k < self.running.len()
            invariant
                0 <= k <= self.running.len(),
                self.table@ == table,
                utf8_len(self.input@) <= usize::MAX,
                self.input@ == input,
                frontier_view(self.running@) == frontier,
                frontier_view(next@) == all_successors(table, input, frontier, k as int),
            decreases self.running.len() - k,
        {
            self.table.successors_into(&mut next, &self.input, &self.running[k]);
            k += 1;
        }
        let rejected = next.len() == 0;
        self.running = next;
        if rejected {
            SimulatorResult::Reject
        } else {
            SimulatorResult::Pending
        }
    }

    /// Steps until a step is not `Pending`, at most `limit` times: the
    /// outcome of that step, or nothing if `limit` steps were `Pending`.
    pub fn run(&mut self, limit: usize) -> (r: Option<SimulatorResult>)
        ensures
            final(self).table() == old(self).table(),
            final(self).input() == old(self).input(),
            (outcome_view(r), final(self).frontier()) == run_spec(
                old(self).table(),
                old(self).input(),
                old(self).frontier(),
                limit as nat,
            ),
    {
        let ghost table = self.table();
        let ghost input = self.input();
        let ghost frontier = self.frontier();
        let mut left: usize = limit;
        while left > 0
            invariant
                table == old(self).table(),
                input == old(self).input(),
                frontier == old(self).frontier(),
                self.table() == table,
                self.input() == input,
                run_spec(table, input, self.frontier(), left as nat) == run_spec(
                    table,
                    input,
                    frontier,
                    limit as nat,
                ),
            decreases left,
        {
            match self.step() {
                SimulatorResult::Pending => {},
                done => {
                    return Some(done);
                },
            }
            left -= 1;
        }
        None
    }
}

/// The outcome of a run as contracts see it.
pub open spec fn outcome_view(result: Option<SimulatorResult>) -> Option<Outcome> {
    match result {
        Some(result) => Some(result@),
        None => None,
    }
}

} // verus!
