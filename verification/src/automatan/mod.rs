//! The machine models and what their compilers share: the options, the
//! identifiers and the tables of declared names.

use vstd::prelude::*;
use vstd::string::*;

use crate::loader::ast::{expected_ident, expected_set, item_view, items_view, Item, ItemView, SymbolView};
use crate::loader::log::{
    extends, has_error, lemma_extends_error, lemma_last_error, LogEntry, LogLevel, Note,
};
use crate::loader::{single, Context, Span, Spanned};

pub mod fa;
pub mod pda;
pub mod tm;

verus! {

/// What a machine may do: take one of several transitions from the same
/// starting point, and move without reading a letter.
#[derive(Clone, Copy, Debug, PartialEq, Eq, Structural)]
pub struct Options {
    pub non_deterministic: bool,
    pub epsilon_moves: bool,
}

/// The name of a state.
#[derive(Debug, PartialEq, Eq, Clone, Hash)]
pub struct State(pub String);

/// The name of a stack or tape symbol.
#[derive(Debug, PartialEq, Eq, Clone, Hash)]
pub struct Symbol(pub String);

/// The name of a letter of the input alphabet.
#[derive(Debug, PartialEq, Eq, Clone, Hash)]
pub struct Letter(pub String);

/// Where a state was defined.
#[derive(Clone, Copy, Debug, PartialEq, Eq, Structural)]
pub struct StateInfo {
    pub definition: Span,
}

/// Where a symbol was defined.
#[derive(Clone, Copy, Debug, PartialEq, Eq, Structural)]
pub struct SymbolInfo {
    pub definition: Span,
}

/// Where a letter was defined.
#[derive(Clone, Copy, Debug, PartialEq, Eq, Structural)]
pub struct LetterInfo {
    pub definition: Span,
}

impl View for State {
    type V = Seq<char>;

    open spec fn view(&self) -> Seq<char> {
        self.0@
    }
}

impl View for Symbol {
    type V = Seq<char>;

    open spec fn view(&self) -> Seq<char> {
        self.0@
    }
}

impl View for Letter {
    type V = Seq<char>;

    open spec fn view(&self) -> Seq<char> {
        self.0@
    }
}

/// A table of names as contracts see it: each name with the span of its
/// definition, in the order of definition.
pub type Table = Seq<(Seq<char>, Span)>;

/// The span that `table` gives for `name`: that of its first entry under
/// that name.
pub open spec fn lookup(table: Table, name: Seq<char>) -> Option<Span>
    decreases table.len(),
{
    if table.len() == 0 {
        None
    } else {
        match lookup(table.drop_last(), name) {
            Some(span) => Some(span),
            None => if table.last().0 == name {
                Some(table.last().1)
            } else {
                None
            },
        }
    }
}

/// Whether `table` holds `name`.
pub open spec fn defines(table: Table, name: Seq<char>) -> bool {
    lookup(table, name) is Some
}

/// Whether no name stands twice in `table`.
pub open spec fn distinct(table: Table) -> bool {
    forall|i: int, j: int| 0 <= i < j < table.len() ==> table[i].0 != table[j].0
}

/// What a table holds for a name does not change when an entry is added,
/// unless the name is new and the entry is for it.
pub proof fn lemma_lookup_push(table: Table, entry: (Seq<char>, Span), name: Seq<char>)
    ensures
        lookup(table.push(entry), name) == (match lookup(table, name) {
            Some(span) => Some(span),
            None => if entry.0 == name {
                Some(entry.1)
            } else {
                None
            },
        }),
{
    assert(table.push(entry).drop_last() =~= table);
}

/// A name that a longer prefix of a table lacks, a shorter one lacks too; and
/// what a prefix holds for a name, the table holds.
pub proof fn lemma_lookup_prefix(table: Table, n: int, name: Seq<char>)
    requires
        0 <= n <= table.len(),
    ensures
        lookup(table.take(n), name) is Some ==> lookup(table, name) == lookup(table.take(n), name),
    decreases table.len() - n,
{
    if n < table.len() {
        lemma_lookup_prefix(table, n + 1, name);
        assert(table.take(n + 1).drop_last() =~= table.take(n));
    } else {
        assert(table.take(n) =~= table);
    }
}

/// A name is in a table exactly if one of the entries is for it.
pub proof fn lemma_lookup_exists(table: Table, name: Seq<char>)
    ensures
        defines(table, name) <==> exists|i: int| 0 <= i < table.len() && #[trigger] table[i].0 == name,
    decreases table.len(),
{
    if table.len() > 0 {
        let shorter = table.drop_last();
        lemma_lookup_exists(shorter, name);
        if defines(shorter, name) {
            let i = choose|i: int| 0 <= i < shorter.len() && #[trigger] shorter[i].0 == name;
            assert(table[i].0 == name);
        } else if table.last().0 == name {
            assert(table[table.len() - 1].0 == name);
        } else if exists|i: int| 0 <= i < table.len() && #[trigger] table[i].0 == name {
            let i = choose|i: int| 0 <= i < table.len() && #[trigger] table[i].0 == name;
            assert(shorter[i].0 == name);
        }
    }
}

/// The names that were declared, each with the span of its definition, in
/// the order of definition.
#[derive(Debug, PartialEq, Eq)]
pub struct Names {
    pub entries: Vec<(String, Span)>,
}

impl View for Names {
    type V = Table;

    open spec fn view(&self) -> Table {
        Seq::new(self.entries@.len(), |i: int| (self.entries@[i].0@, self.entries@[i].1))
    }
}

impl Names {
    /// An empty table.
    pub fn new() -> (r: Self)
        ensures
            r@ == Seq::<(Seq<char>, Span)>::empty(),
    {
        let r = Names { entries: Vec::new() };
        assert(r@ =~= Seq::<(Seq<char>, Span)>::empty());
        r
    }

    /// The span of the definition of `name`, if the table holds it.
    pub fn find(&self, name: &String) -> (r: Option<Span>)
        ensures
            r == lookup(self@, name@),
    {
        let mut i: usize = 0;
        proof {
            assert(self@.take(0) =~= Seq::<(Seq<char>, Span)>::empty());
        }
        while i < self.entries.len()
            invariant
                0 <= i <= self.entries.len(),
                lookup(self@.take(i as int), name@) is None,
            decreases self.entries.len() - i,
        {
            proof {
                assert(self@.take(i + 1).drop_last() =~= self@.take(i as int));
                lemma_lookup_prefix(self@, i + 1, name@);
            }
            if self.entries[i].0 == *name {
                return Some(self.entries[i].1);
            }
            i += 1;
        }
        proof {
            assert(self@.take(i as int) =~= self@);
        }
        None
    }

    /// Whether the table holds `name`.
    pub fn contains(&self, name: &String) -> (b: bool)
        ensures
            b == defines(self@, name@),
    {
        self.find(name).is_some()
    }

    /// Adds `name`, defined at `span`, at the end.
    pub fn add(&mut self, name: String, span: Span)
        ensures
            final(self)@ == old(self)@.push((name@, span)),
    {
        self.entries.push((name, span));
        assert(self@ =~= old(self)@.push((name@, span)));
    }
}

/// The log entry of one message with one note behind it.
pub open spec fn noted(
    level: LogLevel,
    message: Seq<char>,
    span: Option<Span>,
    note_level: LogLevel,
    note: Seq<char>,
    note_span: Option<Span>,
) -> Seq<Note> {
    seq![
        Note { level, message, span },
        Note { level: note_level, message: note, span: note_span },
    ]
}

/// A section that declares a set of names.
#[derive(Clone, Copy, Debug, PartialEq, Eq, Structural)]
pub enum Section {
    States,
    StackSymbols,
    TapeSymbols,
    Alphabet,
}

impl Section {
    /// The error for a section that is declared again.
    pub open spec fn already_set(self) -> Seq<char> {
        match self {
            Section::States => "states already set"@,
            Section::StackSymbols => "stack symbols already set"@,
            Section::TapeSymbols => "tape symbols already set"@,
            Section::Alphabet => "alphabet already set"@,
        }
    }

    /// The error for a name that is declared again.
    pub open spec fn redefined(self) -> Seq<char> {
        match self {
            Section::States => "state redefined"@,
            Section::StackSymbols => "stack symbol redefined"@,
            Section::TapeSymbols => "tape symbol redefined"@,
            Section::Alphabet => "letter redefined"@,
        }
    }

    /// The error for a section without names.
    pub open spec fn empty(self) -> Seq<char> {
        match self {
            Section::States => "states cannot be empty"@,
            Section::StackSymbols => "stack symbols cannot be empty"@,
            Section::TapeSymbols => "tape symbols cannot be empty"@,
            Section::Alphabet => "alphabet cannot be empty"@,
        }
    }

    /// The severity of the note that points at the first definition of a
    /// name.
    pub open spec fn note_level(self) -> LogLevel {
        match self {
            Section::Alphabet => LogLevel::Help,
            _ => LogLevel::Info,
        }
    }

    fn already_set_text(self) -> (r: &'static str)
        ensures
            r@ == self.already_set(),
    {
        match self {
            Section::States => "states already set",
            Section::StackSymbols => "stack symbols already set",
            Section::TapeSymbols => "tape symbols already set",
            Section::Alphabet => "alphabet already set",
        }
    }

    fn redefined_text(self) -> (r: &'static str)
        ensures
            r@ == self.redefined(),
    {
        match self {
            Section::States => "state redefined",
            Section::StackSymbols => "stack symbol redefined",
            Section::TapeSymbols => "tape symbol redefined",
            Section::Alphabet => "letter redefined",
        }
    }

    fn empty_text(self) -> (r: &'static str)
        ensures
            r@ == self.empty(),
    {
        match self {
            Section::States => "states cannot be empty",
            Section::StackSymbols => "stack symbols cannot be empty",
            Section::TapeSymbols => "tape symbols cannot be empty",
            Section::Alphabet => "alphabet cannot be empty",
        }
    }
}

/// Declares one item of a section. A name that the table lacks is added; one
/// that it holds is an error, and the first definition stays. A letter of
/// more or less than one character is an error. Anything but a name is an
/// error.
pub open spec fn define_one(
    section: Section,
    table: Table,
    log: Seq<Seq<Note>>,
    item: (ItemView, Span),
) -> (Table, Seq<Seq<Note>>) {
    match item.0 {
        ItemView::Symbol(SymbolView::Ident(name)) => {
            let log1 = if section == Section::Alphabet && name.len() != 1 {
                log.push(
                    single(LogLevel::Error, "letter cannot be longer than one char"@, Some(item.1)),
                )
            } else {
                log
            };
            match lookup(table, name) {
                Some(previous) => (
                    table,
                    log1.push(
                        noted(
                            LogLevel::Error,
                            section.redefined(),
                            Some(item.1),
                            section.note_level(),
                            "previously defined here"@,
                            Some(previous),
                        ),
                    ),
                ),
                None => (table.push((name, item.1)), log1),
            }
        },
        _ => (table, log.push(single(LogLevel::Error, expected_ident(item.0), Some(item.1)))),
    }
}

/// Declares the first `n` items of a section, in order.
pub open spec fn define_all(
    section: Section,
    table: Table,
    log: Seq<Seq<Note>>,
    items: Seq<(ItemView, Span)>,
    n: int,
) -> (Table, Seq<Seq<Note>>)
    decreases n,
{
    if n <= 0 {
        (table, log)
    } else {
        let (table1, log1) = define_all(section, table, log, items, n - 1);
        define_one(section, table1, log1, items[n - 1])
    }
}

/// Declares a section: `value` is the set of its names and `top_level` the
/// span of the declaration. A section declared before is an error, and so is
/// one without names. `def` holds the span of the last declaration of the
/// section whose value was a set.
pub open spec fn section_spec(
    section: Section,
    table: Table,
    def: Option<Span>,
    log: Seq<Seq<Note>>,
    value: (ItemView, Span),
    top_level: Span,
) -> (Table, Option<Span>, Seq<Seq<Note>>) {
    let log1 = match def {
        Some(previous) => log.push(
            noted(
                LogLevel::Error,
                section.already_set(),
                Some(top_level),
                LogLevel::Info,
                "previously defined here"@,
                Some(previous),
            ),
        ),
        None => log,
    };
    match value.0 {
        ItemView::List(items, _) => {
            let (table1, log2) = define_all(section, table, log1, items, items.len() as int);
            let log3 = if items.len() == 0 {
                log2.push(single(LogLevel::Error, section.empty(), Some(top_level)))
            } else {
                log2
            };
            (table1, Some(top_level), log3)
        },
        _ => (table, def, log1.push(single(LogLevel::Error, expected_set(value.0), Some(value.1)))),
    }
}

/// Logs the error `message` at `span` with a note that points at `previous`.
pub fn emit_with_previous(
    ctx: &mut Context,
    message: &str,
    span: Span,
    note_level: LogLevel,
    previous: Span,
)
    ensures
        final(ctx).text() == old(ctx).text(),
        final(ctx).log() == old(ctx).log().push(
            noted(
                LogLevel::Error,
                message@,
                Some(span),
                note_level,
                "previously defined here"@,
                Some(previous),
            ),
        ),
{
    let note = LogEntry::new(note_level, "previously defined here".to_owned(), Some(previous));
    let entry = LogEntry::error(message, span).with(note);
    assert(entry@ =~= noted(
        LogLevel::Error,
        message@,
        Some(span),
        note_level,
        "previously defined here"@,
        Some(previous),
    ));
    ctx.emit(entry);
}

/// Declares a section of names.
pub fn define_section(
    section: Section,
    table: &mut Names,
    def: &mut Option<Span>,
    ctx: &mut Context,
    list: &Spanned<Item>,
    top_level: Span,
)
    ensures
        final(ctx).text() == old(ctx).text(),
        (final(table)@, *final(def), final(ctx).log()) == section_spec(
            section,
            old(table)@,
            *old(def),
            old(ctx).log(),
            list.spanned_view(),
            top_level,
        ),
{
    if let Some(previous) = *def {
        emit_with_previous(ctx, section.already_set_text(), top_level, LogLevel::Info, previous);
    }
    let ghost log1 = ctx.log();
    let ghost table0 = table@;
    let items = match list.expect_set(ctx) {
        Some(items) => items,
        None => {
            return ;
        },
    };
    let ghost views = items_view(items@);
    let mut i: usize = 0;
    while i < items.len()
        invariant
            0 <= i <= items.len(),
            views == items_view(items@),
            ctx.text() == old(ctx).text(),
            (table@, ctx.log()) == define_all(section, table0, log1, views, i as int),
        decreases items.len() - i,
    {
        let item = &items[i];
        let ghost before = table@;
        let ghost log_before = ctx.log();
        assert(views[i as int] == (item_view(item.0), item.1));
        if let Some(ident) = item.expect_ident(ctx) {
            let is_alphabet = matches!(section, Section::Alphabet);
            if is_alphabet && ident.as_str().unicode_len() != 1 {
                ctx.emit_error("letter cannot be longer than one char", item.1);
            }
            match table.find(ident) {
                Some(previous) => {
                    let level = if is_alphabet {
                        LogLevel::Help
                    } else {
                        LogLevel::Info
                    };
                    emit_with_previous(ctx, section.redefined_text(), item.1, level, previous);
                },
                None => {
                    table.add(ident.clone(), item.1);
                },
            }
        }
        i += 1;
    }
    if items.len() == 0 {
        ctx.emit_error(section.empty_text(), top_level);
    }
    *def = Some(top_level);
}


/// Declares one final state: a name that is a state and not yet final is
/// added; anything else is an error.
pub open spec fn final_one(states: Table, finals: Table, log: Seq<Seq<Note>>, item: (ItemView, Span)) -> (
    Table,
    Seq<Seq<Note>>,
) {
    match item.0 {
        ItemView::Symbol(SymbolView::Ident(name)) => if defines(states, name) {
            if defines(finals, name) {
                (finals, log.push(single(LogLevel::Error, "final state redefined"@, Some(item.1))))
            } else {
                (finals.push((name, item.1)), log)
            }
        } else {
            (
                finals,
                log.push(
                    single(
                        LogLevel::Error,
                        "final state not defined in set of states"@,
                        Some(item.1),
                    ),
                ),
            )
        },
        _ => (finals, log.push(single(LogLevel::Error, expected_ident(item.0), Some(item.1)))),
    }
}

/// Declares the first `n` final states, in order.
pub open spec fn final_all(
    states: Table,
    finals: Table,
    log: Seq<Seq<Note>>,
    items: Seq<(ItemView, Span)>,
    n: int,
) -> (Table, Seq<Seq<Note>>)
    decreases n,
{
    if n <= 0 {
        (finals, log)
    } else {
        let (finals1, log1) = final_all(states, finals, log, items, n - 1);
        final_one(states, finals1, log1, items[n - 1])
    }
}

/// Declares the final states: `value` is their set and `top_level` the span
/// of the declaration. Final states declared before are an error.
pub open spec fn finals_spec(
    states: Table,
    finals: Table,
    def: Option<Span>,
    log: Seq<Seq<Note>>,
    value: (ItemView, Span),
    top_level: Span,
) -> (Table, Option<Span>, Seq<Seq<Note>>) {
    let log1 = match def {
        Some(previous) => log.push(
            noted(
                LogLevel::Error,
                "final states already set"@,
                Some(top_level),
                LogLevel::Help,
                "previously defined here"@,
                Some(previous),
            ),
        ),
        None => log,
    };
    match value.0 {
        ItemView::List(items, _) => {
            let (finals1, log2) = final_all(states, finals, log1, items, items.len() as int);
            (finals1, Some(top_level), log2)
        },
        _ => (finals, def, log1.push(single(LogLevel::Error, expected_set(value.0), Some(value.1)))),
    }
}

/// Declares the final states.
pub fn define_final_states(
    states: &Names,
    finals: &mut Names,
    def: &mut Option<Span>,
    ctx: &mut Context,
    list: &Spanned<Item>,
    top_level: Span,
)
    ensures
        final(ctx).text() == old(ctx).text(),
        (final(finals)@, *final(def), final(ctx).log()) == finals_spec(
            states@,
            old(finals)@,
            *old(def),
            old(ctx).log(),
            list.spanned_view(),
            top_level,
        ),
{
    if let Some(previous) = *def {
        emit_with_previous(ctx, "final states already set", top_level, LogLevel::Help, previous);
    }
    let ghost log1 = ctx.log();
    let ghost finals0 = finals@;
    let items = match list.expect_set(ctx) {
        Some(items) => items,
        None => {
            return ;
        },
    };
    let ghost views = items_view(items@);
    let mut i: usize = 0;
    while i < items.len()
        invariant
            0 <= i <= items.len(),
            views == items_view(items@),
            ctx.text() == old(ctx).text(),
            (finals@, ctx.log()) == final_all(states@, finals0, log1, views, i as int),
        decreases items.len() - i,
    {
        let item = &items[i];
        assert(views[i as int] == (item_view(item.0), item.1));
        if let Some(ident) = item.expect_ident(ctx) {
            if states.contains(ident) {
                if finals.contains(ident) {
                    ctx.emit_error("final state redefined", item.1);
                } else {
                    finals.add(ident.clone(), item.1);
                }
            } else {
                ctx.emit_error("final state not defined in set of states", item.1);
            }
        }
        i += 1;
    }
    *def = Some(top_level);
}

/// A name that a declaration designates: the initial state, the initial
/// stack symbol or the blank symbol.
#[derive(Clone, Copy, Debug, PartialEq, Eq, Structural)]
pub enum Designated {
    InitialState,
    InitialStack,
    BlankSymbol,
}

impl Designated {
    /// The error for a designation that is made again.
    pub open spec fn already_set(self) -> Seq<char> {
        match self {
            Designated::InitialState => "initial state already set"@,
            Designated::InitialStack => "initial stack symbol already set"@,
            Designated::BlankSymbol => "blank symbol already set"@,
        }
    }

    /// The error for a designated name that was not declared.
    pub open spec fn undeclared(self) -> Seq<char> {
        match self {
            Designated::InitialState => "initial state symbol not defined as a state"@,
            Designated::InitialStack => "initial stack symbol not defined as a stack symbol"@,
            Designated::BlankSymbol => "blank symbol not defined as a tape symbol"@,
        }
    }

    /// The name that is taken where none was designated.
    pub open spec fn default_name(self) -> Seq<char> {
        match self {
            Designated::InitialState => "q0"@,
            Designated::InitialStack => "Z0"@,
            Designated::BlankSymbol => "B"@,
        }
    }

    /// The warning for a designation that was left out where the default
    /// name was declared.
    pub open spec fn defaulted(self) -> Seq<char> {
        match self {
            Designated::InitialState => "initial state not defined, defaulting to 'q0'"@,
            Designated::InitialStack => "initial stack symbol not defined, defaulting to 'Z0'"@,
            Designated::BlankSymbol => "blank symbol not defined, defaulting to 'B'"@,
        }
    }

    /// The help behind that warning.
    pub open spec fn defaulted_help(self) -> Seq<char> {
        match self {
            Designated::InitialState => "add: q0 = q0"@,
            Designated::InitialStack => "add: z0 = Z0"@,
            Designated::BlankSymbol => "add: B = B"@,
        }
    }

    /// The error for a designation that was left out where the default name
    /// was not declared.
    pub open spec fn missing(self) -> Seq<char> {
        match self {
            Designated::InitialState => "initial state not defined"@,
            Designated::InitialStack => "initial stack symbol not defined"@,
            Designated::BlankSymbol => "blank symbol not defined"@,
        }
    }

    /// The help behind that error.
    pub open spec fn missing_help(self) -> Seq<char> {
        match self {
            Designated::InitialState => "add: q0 = ..."@,
            Designated::InitialStack => "add: z0 = ..."@,
            Designated::BlankSymbol => "add: B = ..."@,
        }
    }

    fn already_set_text(self) -> (r: &'static str)
        ensures
            r@ == self.already_set(),
    {
        match self {
            Designated::InitialState => "initial state already set",
            Designated::InitialStack => "initial stack symbol already set",
            Designated::BlankSymbol => "blank symbol already set",
        }
    }

    fn undeclared_text(self) -> (r: &'static str)
        ensures
            r@ == self.undeclared(),
    {
        match self {
            Designated::InitialState => "initial state symbol not defined as a state",
            Designated::InitialStack => "initial stack symbol not defined as a stack symbol",
            Designated::BlankSymbol => "blank symbol not defined as a tape symbol",
        }
    }

    fn default_text(self) -> (r: &'static str)
        ensures
            r@ == self.default_name(),
    {
        match self {
            Designated::InitialState => "q0",
            Designated::InitialStack => "Z0",
            Designated::BlankSymbol => "B",
        }
    }

    fn defaulted_text(self) -> (r: &'static str)
        ensures
            r@ == self.defaulted(),
    {
        match self {
            Designated::InitialState => "initial state not defined, defaulting to 'q0'",
            Designated::InitialStack => "initial stack symbol not defined, defaulting to 'Z0'",
            Designated::BlankSymbol => "blank symbol not defined, defaulting to 'B'",
        }
    }

    fn defaulted_help_text(self) -> (r: &'static str)
        ensures
            r@ == self.defaulted_help(),
    {
        match self {
            Designated::InitialState => "add: q0 = q0",
            Designated::InitialStack => "add: z0 = Z0",
            Designated::BlankSymbol => "add: B = B",
        }
    }

    fn missing_text(self) -> (r: &'static str)
        ensures
            r@ == self.missing(),
    {
        match self {
            Designated::InitialState => "initial state not defined",
            Designated::InitialStack => "initial stack symbol not defined",
            Designated::BlankSymbol => "blank symbol not defined",
        }
    }

    fn missing_help_text(self) -> (r: &'static str)
        ensures
            r@ == self.missing_help(),
    {
        match self {
            Designated::InitialState => "add: q0 = ...",
            Designated::InitialStack => "add: z0 = ...",
            Designated::BlankSymbol => "add: B = ...",
        }
    }
}

/// Designates a name: `value` must be a name that `table` holds. A second
/// designation is an error, and the later one of those that are valid
/// counts. The slot holds the name and the span of the declaration.
pub open spec fn designate_spec(
    kind: Designated,
    table: Table,
    slot: Option<(Seq<char>, Span)>,
    log: Seq<Seq<Note>>,
    value: (ItemView, Span),
    top_level: Span,
) -> (Option<(Seq<char>, Span)>, Seq<Seq<Note>>) {
    match value.0 {
        ItemView::Symbol(SymbolView::Ident(name)) => {
            let log1 = match slot {
                Some((_, previous)) => log.push(
                    noted(
                        LogLevel::Error,
                        kind.already_set(),
                        Some(top_level),
                        LogLevel::Help,
                        "previously defined here"@,
                        Some(previous),
                    ),
                ),
                None => log,
            };
            if defines(table, name) {
                (Some((name, top_level)), log1)
            } else {
                (slot, log1.push(single(LogLevel::Error, kind.undeclared(), Some(value.1))))
            }
        },
        _ => (slot, log.push(single(LogLevel::Error, "expected ident"@, Some(value.1)))),
    }
}

/// A designated name as contracts see it.
pub open spec fn slot_view(slot: Option<(String, Span)>) -> Option<(Seq<char>, Span)> {
    match slot {
        Some((name, span)) => Some((name@, span)),
        None => None,
    }
}

/// Designates a name.
pub fn designate(
    kind: Designated,
    table: &Names,
    slot: &mut Option<(String, Span)>,
    ctx: &mut Context,
    item: &Spanned<Item>,
    top_level: Span,
)
    ensures
        final(ctx).text() == old(ctx).text(),
        (slot_view(*final(slot)), final(ctx).log()) == designate_spec(
            kind,
            table@,
            slot_view(*old(slot)),
            old(ctx).log(),
            item.spanned_view(),
            top_level,
        ),
{
    match &item.0 {
        Item::Symbol(crate::loader::ast::Symbol::Ident(ident)) => {
            let previous = match slot {
                Some((_, previous)) => Some(*previous),
                None => None,
            };
            if let Some(previous) = previous {
                emit_with_previous(ctx, kind.already_set_text(), top_level, LogLevel::Help, previous);
            }
            if table.contains(ident) {
                *slot = Some((ident.clone(), top_level));
            } else {
                ctx.emit_error(kind.undeclared_text(), item.1);
            }
        },
        _ => {
            ctx.emit_error("expected ident", item.1);
        },
    }
}

/// The name that counts at the end: the designated one, else the default
/// name, with a warning if the table holds it and an error if not.
pub open spec fn resolve_spec(
    kind: Designated,
    table: Table,
    slot: Option<(Seq<char>, Span)>,
    log: Seq<Seq<Note>>,
) -> (Seq<char>, Seq<Seq<Note>>) {
    match slot {
        Some((name, _)) => (name, log),
        None => if defines(table, kind.default_name()) {
            (
                kind.default_name(),
                log.push(
                    noted(
                        LogLevel::Warning,
                        kind.defaulted(),
                        None,
                        LogLevel::Help,
                        kind.defaulted_help(),
                        None,
                    ),
                ),
            )
        } else {
            (
                kind.default_name(),
                log.push(
                    noted(
                        LogLevel::Error,
                        kind.missing(),
                        None,
                        LogLevel::Help,
                        kind.missing_help(),
                        None,
                    ),
                ),
            )
        },
    }
}

/// The name that counts at the end.
pub fn resolve(kind: Designated, table: &Names, slot: Option<(String, Span)>, ctx: &mut Context) -> (r:
    String)
    ensures
        final(ctx).text() == old(ctx).text(),
        (r@, final(ctx).log()) == resolve_spec(kind, table@, slot_view(slot), old(ctx).log()),
{
    match slot {
        Some((name, _)) => name,
        None => {
            let name = kind.default_text().to_owned();
            if table.contains(&name) {
                let entry = LogEntry::warning_locless(kind.defaulted_text()).emit_help_logless(
                    kind.defaulted_help_text(),
                );
                assert(entry@ =~= noted(
                    LogLevel::Warning,
                    kind.defaulted(),
                    None,
                    LogLevel::Help,
                    kind.defaulted_help(),
                    None,
                ));
                ctx.emit(entry);
            } else {
                let entry = LogEntry::error_locless(kind.missing_text()).emit_help_logless(
                    kind.missing_help_text(),
                );
                assert(entry@ =~= noted(
                    LogLevel::Error,
                    kind.missing(),
                    None,
                    LogLevel::Help,
                    kind.missing_help(),
                    None,
                ));
                ctx.emit(entry);
            }
            name
        },
    }
}

/// The message for a declaration of an item that the machine does not have.
pub open spec fn unknown_item(name: Seq<char>, expected: Seq<char>) -> Seq<char> {
    "unknown item "@ + crate::text::debug_text(name) + ", expected "@ + expected
}

/// The message for a declaration of a function that the machine does not
/// have.
pub open spec fn unknown_function(name: Seq<char>) -> Seq<char> {
    "unknown function "@ + crate::text::debug_text(name)
        + ", expected transition function ( 'delta' | 'D' | 'd' | 'ẟ' | 'δ' | '𝛅' | '𝛿' | '𝜹' | '𝝳' | '𝞭' )"@
}

/// Logs the error for a declaration of an item that the machine does not
/// have.
pub fn emit_unknown_item(ctx: &mut Context, name: &String, expected: &str, span: Span)
    ensures
        final(ctx).text() == old(ctx).text(),
        final(ctx).log() == old(ctx).log().push(
            single(LogLevel::Error, unknown_item(name@, expected@), Some(span)),
        ),
{
    let quoted = crate::text::debug_str(name.as_str());
    let message = crate::text::join4("unknown item ", quoted.as_str(), ", expected ", expected);
    ctx.emit(LogEntry::new(LogLevel::Error, message, Some(span)));
}

/// Logs the error for a declaration of a function that the machine does not
/// have.
pub fn emit_unknown_function(ctx: &mut Context, name: &String, span: Span)
    ensures
        final(ctx).text() == old(ctx).text(),
        final(ctx).log() == old(ctx).log().push(
            single(LogLevel::Error, unknown_function(name@), Some(span)),
        ),
{
    let quoted = crate::text::debug_str(name.as_str());
    let message = crate::text::join3(
        "unknown function ",
        quoted.as_str(),
        ", expected transition function ( 'delta' | 'D' | 'd' | 'ẟ' | 'δ' | '𝛅' | '𝛿' | '𝜹' | '𝝳' | '𝞭' )",
    );
    ctx.emit(LogEntry::new(LogLevel::Error, message, Some(span)));
}

/// The log entry of a message without a span and notes without spans behind
/// it.
pub open spec fn advice(level: LogLevel, message: Seq<char>, notes: Seq<(LogLevel, Seq<char>)>) -> Seq<
    Note,
> {
    seq![Note { level, message, span: None }] + Seq::new(
        notes.len(),
        |i: int| Note { level: notes[i].0, message: notes[i].1, span: None },
    )
}


/// Logs a message without a span, with one note behind it.
pub fn advise1(ctx: &mut Context, level: LogLevel, message: &str, level1: LogLevel, note1: &str)
    ensures
        final(ctx).text() == old(ctx).text(),
        final(ctx).log() == old(ctx).log().push(advice(level, message@, seq![(level1, note1@)])),
{
    let entry = LogEntry::new(level, message.to_owned(), None).with(
        LogEntry::new(level1, note1.to_owned(), None),
    );
    assert(entry@ =~= advice(level, message@, seq![(level1, note1@)]));
    ctx.emit(entry);
}

/// Logs a message without a span, with two notes behind it.
pub fn advise2(
    ctx: &mut Context,
    level: LogLevel,
    message: &str,
    level1: LogLevel,
    note1: &str,
    level2: LogLevel,
    note2: &str,
)
    ensures
        final(ctx).text() == old(ctx).text(),
        final(ctx).log() == old(ctx).log().push(
            advice(level, message@, seq![(level1, note1@), (level2, note2@)]),
        ),
{
    let entry = LogEntry::new(level, message.to_owned(), None).with(
        LogEntry::new(level1, note1.to_owned(), None),
    ).with(LogEntry::new(level2, note2.to_owned(), None));
    assert(entry@ =~= advice(level, message@, seq![(level1, note1@), (level2, note2@)]));
    ctx.emit(entry);
}

/// Logs a message without a span, with three notes behind it.
pub fn advise3(
    ctx: &mut Context,
    level: LogLevel,
    message: &str,
    level1: LogLevel,
    note1: &str,
    level2: LogLevel,
    note2: &str,
    level3: LogLevel,
    note3: &str,
)
    ensures
        final(ctx).text() == old(ctx).text(),
        final(ctx).log() == old(ctx).log().push(
            advice(level, message@, seq![(level1, note1@), (level2, note2@), (level3, note3@)]),
        ),
{
    let entry = LogEntry::new(level, message.to_owned(), None).with(
        LogEntry::new(level1, note1.to_owned(), None),
    ).with(LogEntry::new(level2, note2.to_owned(), None)).with(
        LogEntry::new(level3, note3.to_owned(), None),
    );
    assert(entry@ =~= advice(
        level,
        message@,
        seq![(level1, note1@), (level2, note2@), (level3, note3@)],
    ));
    ctx.emit(entry);
}

/// The first value that stands in `pairs` beside `key`.
pub open spec fn first_for<K, V>(pairs: Seq<(K, V)>, key: K) -> Option<V>
    decreases pairs.len(),
{
    if pairs.len() == 0 {
        None
    } else {
        match first_for(pairs.drop_last(), key) {
            Some(value) => Some(value),
            None => if pairs.last().0 == key {
                Some(pairs.last().1)
            } else {
                None
            },
        }
    }
}

/// What a prefix of pairs holds beside a key, the whole holds beside it.
pub proof fn lemma_first_for_prefix<K, V>(pairs: Seq<(K, V)>, n: int, key: K)
    requires
        0 <= n <= pairs.len(),
    ensures
        first_for(pairs.take(n), key) is Some ==> first_for(pairs, key) == first_for(
            pairs.take(n),
            key,
        ),
    decreases pairs.len() - n,
{
    if n < pairs.len() {
        lemma_first_for_prefix(pairs, n + 1, key);
        assert(pairs.take(n + 1).drop_last() =~= pairs.take(n));
    } else {
        assert(pairs.take(n) =~= pairs);
    }
}

/// Pairs hold something beside a key exactly if one of them has that key.
pub proof fn lemma_first_for_exists<K, V>(pairs: Seq<(K, V)>, key: K)
    ensures
        first_for(pairs, key) is Some <==> exists|i: int|
            0 <= i < pairs.len() && #[trigger] pairs[i].0 == key,
    decreases pairs.len(),
{
    if pairs.len() > 0 {
        let shorter = pairs.drop_last();
        lemma_first_for_exists(shorter, key);
        if first_for(shorter, key) is Some {
            let i = choose|i: int| 0 <= i < shorter.len() && #[trigger] shorter[i].0 == key;
            assert(pairs[i].0 == key);
        } else if pairs.last().0 == key {
            assert(pairs[pairs.len() - 1].0 == key);
        } else if exists|i: int| 0 <= i < pairs.len() && #[trigger] pairs[i].0 == key {
            let i = choose|i: int| 0 <= i < pairs.len() && #[trigger] pairs[i].0 == key;
            assert(shorter[i].0 == key);
        }
    }
}

/// The states of a table of names.
pub fn into_states(names: &Names) -> (r: Vec<(State, StateInfo)>)
    ensures
        states_view(r@) == names@,
{
    let mut out: Vec<(State, StateInfo)> = Vec::new();
    let mut i: usize = 0;
    while i < names.entries.len()
        invariant
            0 <= i <= names.entries.len(),
            out@.len() == i,
            forall|j: int|
                0 <= j < i ==> (#[trigger] out@[j]).0@ == names.entries@[j].0@ && out@[j].1.definition
                    == names.entries@[j].1,
        decreases names.entries.len() - i,
    {
        out.push((State(names.entries[i].0.clone()), StateInfo { definition: names.entries[i].1 }));
        i += 1;
    }
    assert(states_view(out@) =~= names@);
    out
}

/// The symbols of a table of names.
pub fn into_symbols(names: &Names) -> (r: Vec<(Symbol, SymbolInfo)>)
    ensures
        symbols_table(r@) == names@,
{
    let mut out: Vec<(Symbol, SymbolInfo)> = Vec::new();
    let mut i: usize = 0;
    while i < names.entries.len()
        invariant
            0 <= i <= names.entries.len(),
            out@.len() == i,
            forall|j: int|
                0 <= j < i ==> (#[trigger] out@[j]).0@ == names.entries@[j].0@ && out@[j].1.definition
                    == names.entries@[j].1,
        decreases names.entries.len() - i,
    {
        out.push((Symbol(names.entries[i].0.clone()), SymbolInfo { definition: names.entries[i].1 }));
        i += 1;
    }
    assert(symbols_table(out@) =~= names@);
    out
}

/// The letters of a table of names.
pub fn into_letters(names: &Names) -> (r: Vec<(Letter, LetterInfo)>)
    ensures
        letters_view(r@) == names@,
{
    let mut out: Vec<(Letter, LetterInfo)> = Vec::new();
    let mut i: usize = 0;
    while i < names.entries.len()
        invariant
            0 <= i <= names.entries.len(),
            out@.len() == i,
            forall|j: int|
                0 <= j < i ==> (#[trigger] out@[j]).0@ == names.entries@[j].0@ && out@[j].1.definition
                    == names.entries@[j].1,
        decreases names.entries.len() - i,
    {
        out.push((Letter(names.entries[i].0.clone()), LetterInfo { definition: names.entries[i].1 }));
        i += 1;
    }
    assert(letters_view(out@) =~= names@);
    out
}

/// Declared states as contracts see them.
pub open spec fn states_view(states: Seq<(State, StateInfo)>) -> Table {
    Seq::new(states.len(), |i: int| (states[i].0@, states[i].1.definition))
}

/// Declared symbols as contracts see them.
pub open spec fn symbols_table(symbols: Seq<(Symbol, SymbolInfo)>) -> Table {
    Seq::new(symbols.len(), |i: int| (symbols[i].0@, symbols[i].1.definition))
}

/// Declared letters as contracts see them.
pub open spec fn letters_view(letters: Seq<(Letter, LetterInfo)>) -> Table {
    Seq::new(letters.len(), |i: int| (letters[i].0@, letters[i].1.definition))
}


/// Whether the table `new` holds every name of the table `old` with the
/// same definition.
pub open spec fn covers(new: Table, old: Table) -> bool {
    forall|name: Seq<char>| defines(old, name) ==> lookup(new, name) == lookup(old, name)
}

/// A table with one more entry holds every name with the definition that it
/// had: the first definition of a name stays.
pub proof fn lemma_push_covers(table: Table, entry: (Seq<char>, Span))
    ensures
        covers(table.push(entry), table),
{
    assert forall|name: Seq<char>| defines(table, name) implies lookup(table.push(entry), name)
        == lookup(table, name) by {
        lemma_lookup_push(table, entry, name);
    }
}

/// Declaring an item adds to the log and keeps what the table held.
pub proof fn lemma_define_one(section: Section, table: Table, log: Seq<Seq<Note>>, item: (ItemView, Span))
    ensures
        extends(define_one(section, table, log, item).1, log),
        covers(define_one(section, table, log, item).0, table),
{
    match item.0 {
        ItemView::Symbol(SymbolView::Ident(name)) => {
            lemma_push_covers(table, (name, item.1));
        },
        _ => {},
    }
}

/// Declaring items adds to the log and keeps what the table held.
pub proof fn lemma_define_all(
    section: Section,
    table: Table,
    log: Seq<Seq<Note>>,
    items: Seq<(ItemView, Span)>,
    n: int,
)
    ensures
        extends(define_all(section, table, log, items, n).1, log),
        covers(define_all(section, table, log, items, n).0, table),
    decreases n,
{
    if n > 0 {
        lemma_define_all(section, table, log, items, n - 1);
        let (table1, log1) = define_all(section, table, log, items, n - 1);
        lemma_define_one(section, table1, log1, items[n - 1]);
    }
}

/// Declaring a section adds to the log and keeps what the table held.
pub proof fn lemma_section(
    section: Section,
    table: Table,
    def: Option<Span>,
    log: Seq<Seq<Note>>,
    value: (ItemView, Span),
    top_level: Span,
)
    ensures
        extends(section_spec(section, table, def, log, value, top_level).2, log),
        covers(section_spec(section, table, def, log, value, top_level).0, table),
{
    let log1 = match def {
        Some(previous) => log.push(
            noted(
                LogLevel::Error,
                section.already_set(),
                Some(top_level),
                LogLevel::Info,
                "previously defined here"@,
                Some(previous),
            ),
        ),
        None => log,
    };
    match value.0 {
        ItemView::List(items, _) => {
            lemma_define_all(section, table, log1, items, items.len() as int);
        },
        _ => {},
    }
}

/// Whether every name of `finals` is a name of `states`.
pub open spec fn within(finals: Table, states: Table) -> bool {
    forall|i: int| 0 <= i < finals.len() ==> defines(states, #[trigger] finals[i].0)
}

/// Declaring final states adds to the log and adds states only.
pub proof fn lemma_final_all(
    states: Table,
    finals: Table,
    log: Seq<Seq<Note>>,
    items: Seq<(ItemView, Span)>,
    n: int,
)
    requires
        within(finals, states),
    ensures
        extends(final_all(states, finals, log, items, n).1, log),
        within(final_all(states, finals, log, items, n).0, states),
    decreases n,
{
    if n > 0 {
        lemma_final_all(states, finals, log, items, n - 1);
    }
}

/// Declaring the final states adds to the log and adds states only.
pub proof fn lemma_finals(
    states: Table,
    finals: Table,
    def: Option<Span>,
    log: Seq<Seq<Note>>,
    value: (ItemView, Span),
    top_level: Span,
)
    requires
        within(finals, states),
    ensures
        extends(finals_spec(states, finals, def, log, value, top_level).2, log),
        within(finals_spec(states, finals, def, log, value, top_level).0, states),
{
    let log1 = match def {
        Some(previous) => log.push(
            noted(
                LogLevel::Error,
                "final states already set"@,
                Some(top_level),
                LogLevel::Help,
                "previously defined here"@,
                Some(previous),
            ),
        ),
        None => log,
    };
    match value.0 {
        ItemView::List(items, _) => {
            lemma_final_all(states, finals, log1, items, items.len() as int);
        },
        _ => {},
    }
}

/// Names that are within a table are within every table that covers it.
pub proof fn lemma_within_covers(finals: Table, old: Table, new: Table)
    requires
        within(finals, old),
        covers(new, old),
    ensures
        within(finals, new),
{
}

/// Designating a name adds to the log, and the designated name is one that
/// the table holds.
pub proof fn lemma_designate(
    kind: Designated,
    table: Table,
    slot: Option<(Seq<char>, Span)>,
    log: Seq<Seq<Note>>,
    value: (ItemView, Span),
    top_level: Span,
)
    requires
        slot matches Some((name, _)) ==> defines(table, name),
    ensures
        extends(designate_spec(kind, table, slot, log, value, top_level).1, log),
        designate_spec(kind, table, slot, log, value, top_level).0 matches Some((name, _))
            ==> defines(table, name),
{
}

/// Settling a name adds to the log; and the name is one that the table
/// holds, or the log has an error.
pub proof fn lemma_resolve(
    kind: Designated,
    table: Table,
    slot: Option<(Seq<char>, Span)>,
    log: Seq<Seq<Note>>,
)
    requires
        slot matches Some((name, _)) ==> defines(table, name),
    ensures
        extends(resolve_spec(kind, table, slot, log).1, log),
        defines(table, resolve_spec(kind, table, slot, log).0) || has_error(
            resolve_spec(kind, table, slot, log).1,
        ),
{
    let (name, log1) = resolve_spec(kind, table, slot, log);
    if slot is None && !defines(table, kind.default_name()) {
        lemma_last_error(log1);
    }
}


/// Names as the items of a list.
pub open spec fn ident_items(names: Table) -> Seq<(ItemView, Span)> {
    Seq::new(names.len(), |i: int| (ItemView::Symbol(SymbolView::Ident(names[i].0)), names[i].1))
}

/// A table holds for a name the definition of the first entry under it.
pub proof fn lemma_lookup_first(table: Table, i: int)
    requires
        0 <= i < table.len(),
        forall|k: int| 0 <= k < i ==> table[k].0 != table[i].0,
    ensures
        lookup(table, table[i].0) == Some(table[i].1),
{
    let name = table[i].0;
    lemma_lookup_exists(table.take(i), name);
    assert(table.take(i + 1).drop_last() =~= table.take(i));
    lemma_lookup_prefix(table, i + 1, name);
}

proof fn lemma_define_twice(section: Section, names: Table, log: Seq<Seq<Note>>, i: int, j: int, n: int)
    requires
        0 <= i < j < names.len(),
        0 <= n <= names.len(),
        names[i].0 == names[j].0,
        forall|k: int, l: int|
            0 <= k < l < names.len() && names[k].0 == names[l].0 ==> k == i && l == j,
        section == Section::Alphabet ==> forall|k: int|
            0 <= k < names.len() ==> (#[trigger] names[k]).0.len() == 1,
    ensures
        define_all(section, Seq::empty(), log, ident_items(names), n) == (if n <= j {
            (names.take(n), log)
        } else {
            (
                names.take(n).remove(j),
                log.push(
                    noted(
                        LogLevel::Error,
                        section.redefined(),
                        Some(names[j].1),
                        section.note_level(),
                        "previously defined here"@,
                        Some(names[i].1),
                    ),
                ),
            )
        }),
    decreases n,
{
    if n == 0 {
        assert(names.take(0) =~= Seq::empty());
    } else {
        lemma_define_twice(section, names, log, i, j, n - 1);
        let (table, log1) = define_all(section, Seq::empty(), log, ident_items(names), n - 1);
        let name = names[n - 1].0;
        lemma_lookup_exists(table, name);
        if n - 1 < j {
            assert(table == names.take(n - 1));
            assert(table.push(names[n - 1]) =~= names.take(n));
        } else if n - 1 == j {
            assert(table == names.take(j));
            assert(table[i].0 == name);
            lemma_lookup_first(table, i);
            assert(names.take(n).remove(j) =~= table);
        } else {
            assert(table == names.take(n - 1).remove(j));
            assert(table.push(names[n - 1]) =~= names.take(n).remove(j));
            if defines(table, name) {
                let k = choose|k: int| 0 <= k < table.len() && #[trigger] table[k].0 == name;
                if k < j {
                    assert(names[k].0 == names[n - 1].0);
                } else {
                    assert(names[k + 1].0 == names[n - 1].0);
                }
            }
        }
    }
}

/// The first definition wins. Declaring a set of names in which one name
/// stands twice, at the positions `i` and `j`, and every other name once,
/// logs exactly one entry: the error that the name is redefined, at the
/// second place, with a note that points at the first. The table holds every
/// name once, and the name that stands twice with its first definition.
pub proof fn law_first_definition_wins(
    section: Section,
    names: Table,
    log: Seq<Seq<Note>>,
    i: int,
    j: int,
)
    requires
        0 <= i < j < names.len(),
        names[i].0 == names[j].0,
        forall|k: int, l: int|
            0 <= k < l < names.len() && names[k].0 == names[l].0 ==> k == i && l == j,
        section == Section::Alphabet ==> forall|k: int|
            0 <= k < names.len() ==> (#[trigger] names[k]).0.len() == 1,
    ensures
        ({
            let (table, log1) = define_all(
                section,
                Seq::empty(),
                log,
                ident_items(names),
                names.len() as int,
            );
            &&& log1 == log.push(
                noted(
                    LogLevel::Error,
                    section.redefined(),
                    Some(names[j].1),
                    section.note_level(),
                    "previously defined here"@,
                    Some(names[i].1),
                ),
            )
            &&& table == names.remove(j)
            &&& lookup(table, names[i].0) == Some(names[i].1)
            &&& distinct(table)
        }),
{
    lemma_define_twice(section, names, log, i, j, names.len() as int);
    assert(names.take(names.len() as int) =~= names);
    let table = names.remove(j);
    assert(table[i] == names[i]);
    assert forall|k: int| 0 <= k < i implies table[k].0 != table[i].0 by {
        assert(table[k] == names[k]);
    }
    lemma_lookup_first(table, i);
    assert forall|k: int, l: int| 0 <= k < l < table.len() implies table[k].0 != table[l].0 by {
        let k1 = if k < j {
            k
        } else {
            k + 1
        };
        let l1 = if l < j {
            l
        } else {
            l + 1
        };
        assert(table[k] == names[k1]);
        assert(table[l] == names[l1]);
    }
}

/// What a table held stays as it was when more names are declared: a later
/// declaration of a name does not change the definition that the table
/// holds for it.
pub proof fn law_definitions_stay(
    section: Section,
    table: Table,
    def: Option<Span>,
    log: Seq<Seq<Note>>,
    value: (ItemView, Span),
    top_level: Span,
    name: Seq<char>,
)
    requires
        defines(table, name),
    ensures
        lookup(section_spec(section, table, def, log, value, top_level).0, name) == lookup(
            table,
            name,
        ),
{
    lemma_section(section, table, def, log, value, top_level);
}


/// A table without a name twice stays so when a name that it lacks is added.
pub proof fn lemma_push_distinct(table: Table, entry: (Seq<char>, Span))
    requires
        distinct(table),
        !defines(table, entry.0),
    ensures
        distinct(table.push(entry)),
{
    lemma_lookup_exists(table, entry.0);
}

/// Declaring items puts no name twice into the table.
pub proof fn lemma_define_all_distinct(
    section: Section,
    table: Table,
    log: Seq<Seq<Note>>,
    items: Seq<(ItemView, Span)>,
    n: int,
)
    requires
        distinct(table),
    ensures
        distinct(define_all(section, table, log, items, n).0),
    decreases n,
{
    if n > 0 {
        lemma_define_all_distinct(section, table, log, items, n - 1);
        let (table1, log1) = define_all(section, table, log, items, n - 1);
        match items[n - 1].0 {
            ItemView::Symbol(SymbolView::Ident(name)) => {
                if !defines(table1, name) {
                    lemma_push_distinct(table1, (name, items[n - 1].1));
                }
            },
            _ => {},
        }
    }
}

/// Declaring a section puts no name twice into the table.
pub proof fn lemma_section_distinct(
    section: Section,
    table: Table,
    def: Option<Span>,
    log: Seq<Seq<Note>>,
    value: (ItemView, Span),
    top_level: Span,
)
    requires
        distinct(table),
    ensures
        distinct(section_spec(section, table, def, log, value, top_level).0),
{
    let log1 = match def {
        Some(previous) => log.push(
            noted(
                LogLevel::Error,
                section.already_set(),
                Some(top_level),
                LogLevel::Info,
                "previously defined here"@,
                Some(previous),
            ),
        ),
        None => log,
    };
    match value.0 {
        ItemView::List(items, _) => {
            lemma_define_all_distinct(section, table, log1, items, items.len() as int);
        },
        _ => {},
    }
}

/// Declaring final states puts no name twice into their table.
pub proof fn lemma_final_all_distinct(
    states: Table,
    finals: Table,
    log: Seq<Seq<Note>>,
    items: Seq<(ItemView, Span)>,
    n: int,
)
    requires
        distinct(finals),
    ensures
        distinct(final_all(states, finals, log, items, n).0),
    decreases n,
{
    if n > 0 {
        lemma_final_all_distinct(states, finals, log, items, n - 1);
        let (finals1, log1) = final_all(states, finals, log, items, n - 1);
        match items[n - 1].0 {
            ItemView::Symbol(SymbolView::Ident(name)) => {
                if !defines(finals1, name) {
                    lemma_push_distinct(finals1, (name, items[n - 1].1));
                }
            },
            _ => {},
        }
    }
}

/// Declaring the final states puts no name twice into their table.
pub proof fn lemma_finals_distinct(
    states: Table,
    finals: Table,
    def: Option<Span>,
    log: Seq<Seq<Note>>,
    value: (ItemView, Span),
    top_level: Span,
)
    requires
        distinct(finals),
    ensures
        distinct(finals_spec(states, finals, def, log, value, top_level).0),
{
    let log1 = match def {
        Some(previous) => log.push(
            noted(
                LogLevel::Error,
                "final states already set"@,
                Some(top_level),
                LogLevel::Help,
                "previously defined here"@,
                Some(previous),
            ),
        ),
        None => log,
    };
    match value.0 {
        ItemView::List(items, _) => {
            lemma_final_all_distinct(states, finals, log1, items, items.len() as int);
        },
        _ => {},
    }
}

/// Pairs without a pair twice stay so when a pair that they lack is added.
pub proof fn lemma_push_no_duplicates<T>(pairs: Seq<T>, pair: T)
    requires
        pairs.no_duplicates(),
        !pairs.contains(pair),
    ensures
        pairs.push(pair).no_duplicates(),
{
    let after = pairs.push(pair);
    assert forall|i: int, j: int| 0 <= i < after.len() && 0 <= j < after.len() && i != j implies after[i]
        != after[j] by {
        if i < pairs.len() && j < pairs.len() {
        } else if i < pairs.len() {
            assert(pairs[i] == after[i]);
        } else {
            assert(pairs[j] == after[j]);
        }
    }
}


/// The number of names among the first `n` that stand earlier as well.
pub open spec fn repeats(names: Table, n: int) -> nat
    decreases n,
{
    if n <= 0 || n > names.len() {
        0
    } else if defines(names.take(n - 1), names[n - 1].0) {
        repeats(names, n - 1) + 1
    } else {
        repeats(names, n - 1)
    }
}

/// The entry for the name at position `j`, which stands earlier as well: the
/// error that it is redefined, at its place, with a note that points at the
/// first place where the name stands.
pub open spec fn redefinition(section: Section, names: Table, j: int) -> Seq<Note> {
    noted(
        LogLevel::Error,
        section.redefined(),
        Some(names[j].1),
        section.note_level(),
        "previously defined here"@,
        lookup(names.take(j), names[j].0),
    )
}

/// The first definition wins, whatever is repeated. When the first `n` names
/// of a set are declared into an empty table, the table holds each name once
/// and gives for it the place where it stands first; the log gains exactly
/// one entry for each name that stands earlier as well, and that entry is
/// the error at the later place with a note at the first.
pub proof fn law_first_definitions_win(section: Section, names: Table, log: Seq<Seq<Note>>, n: int)
    requires
        0 <= n <= names.len(),
        section == Section::Alphabet ==> forall|k: int|
            0 <= k < names.len() ==> (#[trigger] names[k]).0.len() == 1,
    ensures
        ({
            let (table, log1) = define_all(section, Seq::empty(), log, ident_items(names), n);
            &&& distinct(table)
            &&& forall|name: Seq<char>| lookup(table, name) == lookup(names.take(n), name)
            &&& extends(log1, log)
            &&& log1.len() == log.len() + repeats(names, n)
            &&& forall|j: int|
                0 <= j < n && defines(names.take(j), names[j].0) ==> log1.contains(
                    #[trigger] redefinition(section, names, j),
                )
        }),
    decreases n,
{
    if n == 0 {
        assert(names.take(0) =~= Seq::empty());
    } else {
        law_first_definitions_win(section, names, log, n - 1);
        let (table0, log0) = define_all(section, Seq::empty(), log, ident_items(names), n - 1);
        let (table, log1) = define_all(section, Seq::empty(), log, ident_items(names), n);
        let entry = names[n - 1];
        let earlier = names.take(n - 1);
        assert(names.take(n) =~= earlier.push(entry));
        assert(lookup(table0, entry.0) == lookup(earlier, entry.0));
        assert forall|name: Seq<char>| lookup(table, name) == lookup(names.take(n), name) by {
            lemma_lookup_push(earlier, entry, name);
            lemma_lookup_push(table0, entry, name);
            assert(lookup(table0, name) == lookup(earlier, name));
        }
        if defines(table0, entry.0) {
            assert(log1 == log0.push(redefinition(section, names, n - 1)));
            assert(log1[log1.len() - 1] == redefinition(section, names, n - 1));
        } else {
            lemma_push_distinct(table0, entry);
        }
        assert forall|j: int| 0 <= j < n && defines(names.take(j), names[j].0) implies log1.contains(
            #[trigger] redefinition(section, names, j),
        ) by {
            if j < n - 1 {
                let wanted = redefinition(section, names, j);
                assert(log0.contains(wanted));
                let i = choose|i: int| 0 <= i < log0.len() && log0[i] == wanted;
                assert(log1[i] == wanted);
            }
        }
    }
}


/// Whether every name of a table is one character long.
pub open spec fn one_char_each(table: Table) -> bool {
    forall|i: int| 0 <= i < table.len() ==> (#[trigger] table[i]).0.len() == 1
}

/// Declaring letters puts only letters of one character into the alphabet,
/// or logs an error.
pub proof fn lemma_define_all_letters(
    table: Table,
    log: Seq<Seq<Note>>,
    items: Seq<(ItemView, Span)>,
    n: int,
)
    requires
        one_char_each(table) || has_error(log),
    ensures
        one_char_each(define_all(Section::Alphabet, table, log, items, n).0) || has_error(
            define_all(Section::Alphabet, table, log, items, n).1,
        ),
    decreases n,
{
    if n > 0 {
        lemma_define_all_letters(table, log, items, n - 1);
        let (table1, log1) = define_all(Section::Alphabet, table, log, items, n - 1);
        let (table2, log2) = define_one(Section::Alphabet, table1, log1, items[n - 1]);
        lemma_define_one(Section::Alphabet, table1, log1, items[n - 1]);
        if has_error(log1) {
            lemma_extends_error(log2, log1);
        } else {
            match items[n - 1].0 {
                ItemView::Symbol(SymbolView::Ident(name)) => {
                    if name.len() != 1 {
                        let log3 = log1.push(
                            single(
                                LogLevel::Error,
                                "letter cannot be longer than one char"@,
                                Some(items[n - 1].1),
                            ),
                        );
                        lemma_last_error(log3);
                        assert(extends(log2, log3));
                        lemma_extends_error(log2, log3);
                    }
                },
                _ => {
                    lemma_last_error(log2);
                },
            }
        }
    }
}

/// Declaring the alphabet puts only letters of one character into it, or
/// logs an error.
pub proof fn lemma_section_letters(
    table: Table,
    def: Option<Span>,
    log: Seq<Seq<Note>>,
    value: (ItemView, Span),
    top_level: Span,
)
    requires
        one_char_each(table) || has_error(log),
    ensures
        one_char_each(section_spec(Section::Alphabet, table, def, log, value, top_level).0)
            || has_error(section_spec(Section::Alphabet, table, def, log, value, top_level).2),
{
    let after = section_spec(Section::Alphabet, table, def, log, value, top_level).2;
    lemma_section(Section::Alphabet, table, def, log, value, top_level);
    if has_error(log) {
        lemma_extends_error(after, log);
    } else {
        let log1 = match def {
            Some(previous) => log.push(
                noted(
                    LogLevel::Error,
                    Section::Alphabet.already_set(),
                    Some(top_level),
                    LogLevel::Info,
                    "previously defined here"@,
                    Some(previous),
                ),
            ),
            None => log,
        };
        if def is Some {
            lemma_last_error(log1);
        }
        match value.0 {
            ItemView::List(items, _) => {
                lemma_define_all_letters(table, log1, items, items.len() as int);
                let (table1, log2) = define_all(
                    Section::Alphabet,
                    table,
                    log1,
                    items,
                    items.len() as int,
                );
                if has_error(log2) {
                    assert(extends(after, log2));
                    lemma_extends_error(after, log2);
                }
            },
            _ => {
                lemma_last_error(after);
            },
        }
    }
}

} // verus!
