//! The symbolic tree that the parser builds: symbols, tuples and lists, and
//! the declarations made of them.

use vstd::prelude::*;
use vstd::string::*;

use crate::loader::log::LogLevel;
use crate::loader::{single, Context, Span, Spanned};

verus! {

/// `core::slice::from_ref` turns a reference to one value into a slice that
/// holds exactly that value.
pub assume_specification<T>[ core::slice::from_ref::<T> ](s: &T) -> (r: &[T])
    ensures
        r@ == seq![*s],
;

/// How a list was written: with braces or brackets, with or without commas.
#[derive(Clone, Copy, Debug, PartialEq, Eq, Structural)]
pub enum ListKind {
    Brace,
    Bracket,
    BraceComma,
    BracketComma,
}

/// Items in parentheses.
#[derive(Debug, PartialEq, Eq)]
pub struct Tuple(pub Vec<Spanned<Item>>);

/// A name, or one of the spellings of epsilon.
#[derive(Clone, Debug, PartialEq, Eq)]
pub enum Symbol {
    Epsilon(String),
    Ident(String),
}

/// A symbol, a tuple or a list.
#[derive(Debug, PartialEq, Eq)]
pub enum Item {
    Symbol(Symbol),
    Tuple(Tuple),
    List(List),
}

/// A regular expression over terminals. No declaration holds one yet.
#[derive(Debug, PartialEq, Eq)]
pub enum Regex {
    Terminal(String),
    Match { complement: bool, patterns: Vec<(char, char)> },
    Concat(Vec<Regex>),
    Star(Box<Regex>),
    Plus(Box<Regex>),
    Union(Vec<Regex>),
    Intersection(Vec<Regex>),
    Complement(Box<Regex>),
}

/// Items in braces or brackets, and how they were delimited.
#[derive(Debug, PartialEq, Eq)]
pub struct List(pub Vec<Spanned<Item>>, pub ListKind);

/// The symbols of one alternative of a production rule.
#[derive(Debug, PartialEq, Eq)]
pub struct ProductionGroup(pub Vec<Spanned<Symbol>>);

/// One declaration of the source text.
#[derive(Debug, PartialEq, Eq)]
pub enum TopLevel {
    /// `name = item`
    Item(Spanned<String>, Spanned<Item>),
    /// `name(arguments) = item`
    TransitionFunc(Spanned<(Spanned<String>, Spanned<Tuple>)>, Spanned<Item>),
    /// `symbols -> symbols | symbols ...`
    ProductionRule(Spanned<ProductionGroup>, Spanned<Vec<Spanned<ProductionGroup>>>),
    Table(),
}

/// A symbol as contracts see it.
pub ghost enum SymbolView {
    Epsilon(Seq<char>),
    Ident(Seq<char>),
}

/// An item as contracts see it, each nested item with its span.
pub ghost enum ItemView {
    Symbol(SymbolView),
    Tuple(Seq<(ItemView, Span)>),
    List(Seq<(ItemView, Span)>, ListKind),
}

/// A declaration as contracts see it.
pub ghost enum TopLevelView {
    Item { name: Seq<char>, name_span: Span, value: (ItemView, Span) },
    TransitionFunc {
        name: Seq<char>,
        name_span: Span,
        args: Seq<(ItemView, Span)>,
        args_span: Span,
        head_span: Span,
        value: (ItemView, Span),
    },
    ProductionRule {
        lhs: Seq<(SymbolView, Span)>,
        lhs_span: Span,
        groups: Seq<(Seq<(SymbolView, Span)>, Span)>,
        groups_span: Span,
    },
    Table,
}

impl View for Symbol {
    type V = SymbolView;

    open spec fn view(&self) -> SymbolView {
        match self {
            Symbol::Epsilon(text) => SymbolView::Epsilon(text@),
            Symbol::Ident(text) => SymbolView::Ident(text@),
        }
    }
}

/// An item as contracts see it.
pub open spec fn item_view(item: Item) -> ItemView
    decreases item,
{
    match item {
        Item::Symbol(symbol) => ItemView::Symbol(symbol@),
        Item::Tuple(tuple) => ItemView::Tuple(
            Seq::new(
                tuple.0@.len(),
                |i: int|
                    if 0 <= i < tuple.0@.len() {
                        (item_view(tuple.0@[i].0), tuple.0@[i].1)
                    } else {
                        arbitrary()
                    },
            ),
        ),
        Item::List(list) => ItemView::List(
            Seq::new(
                list.0@.len(),
                |i: int|
                    if 0 <= i < list.0@.len() {
                        (item_view(list.0@[i].0), list.0@[i].1)
                    } else {
                        arbitrary()
                    },
            ),
            list.1,
        ),
    }
}

/// Items with their spans, as contracts see them.
pub open spec fn items_view(items: Seq<Spanned<Item>>) -> Seq<(ItemView, Span)> {
    Seq::new(items.len(), |i: int| (item_view(items[i].0), items[i].1))
}

/// Symbols with their spans, as contracts see them.
pub open spec fn symbols_view(symbols: Seq<Spanned<Symbol>>) -> Seq<(SymbolView, Span)> {
    Seq::new(symbols.len(), |i: int| (symbols[i].0@, symbols[i].1))
}

/// Production groups with their spans, as contracts see them.
pub open spec fn groups_view(groups: Seq<Spanned<ProductionGroup>>) -> Seq<
    (Seq<(SymbolView, Span)>, Span),
> {
    Seq::new(groups.len(), |i: int| (symbols_view(groups[i].0.0@), groups[i].1))
}

impl View for TopLevel {
    type V = TopLevelView;

    open spec fn view(&self) -> TopLevelView {
        match self {
            TopLevel::Item(name, value) => TopLevelView::Item {
                name: name.0@,
                name_span: name.1,
                value: (item_view(value.0), value.1),
            },
            TopLevel::TransitionFunc(head, value) => TopLevelView::TransitionFunc {
                name: head.0.0.0@,
                name_span: head.0.0.1,
                args: items_view(head.0.1.0.0@),
                args_span: head.0.1.1,
                head_span: head.1,
                value: (item_view(value.0), value.1),
            },
            TopLevel::ProductionRule(lhs, groups) => TopLevelView::ProductionRule {
                lhs: symbols_view(lhs.0.0@),
                lhs_span: lhs.1,
                groups: groups_view(groups.0@),
                groups_span: groups.1,
            },
            TopLevel::Table() => TopLevelView::Table,
        }
    }
}

/// The view of a tuple item is the view of its items.
pub proof fn lemma_tuple_view(tuple: Tuple)
    ensures
        item_view(Item::Tuple(tuple)) == ItemView::Tuple(items_view(tuple.0@)),
{
    assert(item_view(Item::Tuple(tuple))->Tuple_0 =~= items_view(tuple.0@));
}

/// The view of a list item is the view of its items, with its kind.
pub proof fn lemma_list_view(list: List)
    ensures
        item_view(Item::List(list)) == ItemView::List(items_view(list.0@), list.1),
{
    assert(item_view(Item::List(list))->List_0 =~= items_view(list.0@));
}

/// The items that `item` stands for where a list is wanted: those of a list,
/// or the item alone.
pub open spec fn weak_items(item: Spanned<Item>) -> Seq<Spanned<Item>> {
    match item.0 {
        Item::List(list) => list.0@,
        _ => seq![item],
    }
}

/// As `weak_items`, on what contracts see.
pub open spec fn weak_view(item: (ItemView, Span)) -> Seq<(ItemView, Span)> {
    match item.0 {
        ItemView::List(items, _) => items,
        _ => seq![item],
    }
}

/// The message for an item that stands where a name was wanted.
pub open spec fn expected_ident(found: ItemView) -> Seq<char> {
    match found {
        ItemView::Symbol(_) => "expected ident found epsilon"@,
        ItemView::Tuple(_) => "expected ident found tuple"@,
        ItemView::List(_, _) => "expected ident found list"@,
    }
}

/// The message for an item that stands where a set was wanted.
pub open spec fn expected_set(found: ItemView) -> Seq<char> {
    match found {
        ItemView::Symbol(SymbolView::Ident(_)) => "expected set found ident"@,
        ItemView::Symbol(SymbolView::Epsilon(_)) => "expected set found epsilon"@,
        ItemView::Tuple(_) => "expected set found tuple"@,
        ItemView::List(_, _) => "expected set found list"@,
    }
}

/// The message for an item that stands where a list was wanted.
pub open spec fn expected_list(found: ItemView) -> Seq<char> {
    match found {
        ItemView::Symbol(SymbolView::Ident(_)) => "expected list found ident"@,
        ItemView::Symbol(SymbolView::Epsilon(_)) => "expected list found epsilon"@,
        ItemView::Tuple(_) => "expected list found tuple"@,
        ItemView::List(_, _) => "expected list found list"@,
    }
}

/// The message for an item that stands where a tuple was wanted.
pub open spec fn expected_tuple(found: ItemView) -> Seq<char> {
    match found {
        ItemView::Symbol(SymbolView::Ident(_)) => "expected tuple found ident"@,
        ItemView::Symbol(SymbolView::Epsilon(_)) => "expected tuple found epsilon"@,
        ItemView::Tuple(_) => "expected tuple found tuple"@,
        ItemView::List(_, _) => "expected tuple found list"@,
    }
}

/// The log after an item was wanted in some form: unchanged if it had that
/// form, else with the error `message` at the item's span.
pub open spec fn expect_log(log: Seq<Seq<crate::loader::log::Note>>, ok: bool, message: Seq<char>, span: Span) -> Seq<
    Seq<crate::loader::log::Note>,
> {
    if ok {
        log
    } else {
        log.push(single(LogLevel::Error, message, Some(span)))
    }
}

impl Spanned<Item> {
    /// The item with its span, as contracts see it.
    pub open spec fn spanned_view(&self) -> (ItemView, Span) {
        (item_view(self.0), self.1)
    }

    /// The symbol that the item is; else an error is logged at its span.
    pub fn expect_symbol(&self, ctx: &mut Context) -> (r: Option<&Symbol>)
        ensures
            final(ctx).text() == old(ctx).text(),
            match item_view(self.0) {
                ItemView::Symbol(symbol) => r matches Some(found) && found@ == symbol,
                _ => r is None,
            },
            final(ctx).log() == expect_log(
                old(ctx).log(),
                item_view(self.0) is Symbol,
                expected_ident(item_view(self.0)),
                self.1,
            ),
    {
        match &self.0 {
            Item::Symbol(sym) => {
                return Some(sym);
            },
            Item::Tuple(_) => ctx.emit_error("expected ident found tuple", self.1),
            Item::List(_) => ctx.emit_error("expected ident found list", self.1),
        }
        None
    }

    /// The name that the item is; else an error is logged at its span.
    pub fn expect_ident(&self, ctx: &mut Context) -> (r: Option<&String>)
        ensures
            final(ctx).text() == old(ctx).text(),
            match item_view(self.0) {
                ItemView::Symbol(SymbolView::Ident(name)) => r matches Some(found) && found@
                    == name,
                _ => r is None,
            },
            final(ctx).log() == expect_log(
                old(ctx).log(),
                item_view(self.0) matches ItemView::Symbol(SymbolView::Ident(_)),
                expected_ident(item_view(self.0)),
                self.1,
            ),
    {
        match &self.0 {
            Item::Symbol(Symbol::Ident(ident)) => {
                return Some(ident);
            },
            Item::Symbol(Symbol::Epsilon(_)) => ctx.emit_error("expected ident found epsilon", self.1),
            Item::Tuple(_) => ctx.emit_error("expected ident found tuple", self.1),
            Item::List(_) => ctx.emit_error("expected ident found list", self.1),
        }
        None
    }

    /// The items of the list that the item is; else an error is logged at
    /// its span.
    pub fn expect_set(&self, ctx: &mut Context) -> (r: Option<&Vec<Spanned<Item>>>)
        ensures
            final(ctx).text() == old(ctx).text(),
            match item_view(self.0) {
                ItemView::List(items, _) => r matches Some(found) && items_view(found@) == items,
                _ => r is None,
            },
            final(ctx).log() == expect_log(
                old(ctx).log(),
                item_view(self.0) is List,
                expected_set(item_view(self.0)),
                self.1,
            ),
    {
        match &self.0 {
            Item::Symbol(Symbol::Ident(_)) => ctx.emit_error("expected set found ident", self.1),
            Item::Symbol(Symbol::Epsilon(_)) => ctx.emit_error("expected set found epsilon", self.1),
            Item::Tuple(_) => ctx.emit_error("expected set found tuple", self.1),
            Item::List(list) => {
                proof {
                    lemma_list_view(*list);
                }
                return Some(&list.0);
            },
        }
        None
    }

    /// The items of the list that the item is; else an error is logged at
    /// its span.
    pub fn expect_list(&self, ctx: &mut Context) -> (r: Option<&Vec<Spanned<Item>>>)
        ensures
            final(ctx).text() == old(ctx).text(),
            match item_view(self.0) {
                ItemView::List(items, _) => r matches Some(found) && items_view(found@) == items,
                _ => r is None,
            },
            final(ctx).log() == expect_log(
                old(ctx).log(),
                item_view(self.0) is List,
                expected_list(item_view(self.0)),
                self.1,
            ),
    {
        match &self.0 {
            Item::Symbol(Symbol::Ident(_)) => ctx.emit_error("expected list found ident", self.1),
            Item::Symbol(Symbol::Epsilon(_)) => ctx.emit_error("expected list found epsilon", self.1),
            Item::Tuple(_) => ctx.emit_error("expected list found tuple", self.1),
            Item::List(list) => {
                proof {
                    lemma_list_view(*list);
                }
                return Some(&list.0);
            },
        }
        None
    }

    /// The items of a list, or the item itself as a list of one.
    pub fn list_weak(&self) -> (r: &[Spanned<Item>])
        ensures
            r@ == weak_items(*self),
            items_view(r@) == weak_view(self.spanned_view()),
    {
        match &self.0 {
            Item::List(list) => {
                proof {
                    lemma_list_view(*list);
                }
                list.0.as_slice()
            },
            _ => {
                proof {
                    assert(items_view(seq![*self]) =~= seq![self.spanned_view()]);
                }
                core::slice::from_ref(self)
            },
        }
    }

    /// The items of a set, or the item itself as a set of one.
    pub fn set_weak(&self) -> (r: &[Spanned<Item>])
        ensures
            r@ == weak_items(*self),
            items_view(r@) == weak_view(self.spanned_view()),
    {
        self.list_weak()
    }

    /// The tuple that the item is, under the item's span; else an error is
    /// logged at its span.
    pub fn expect_tuple(&self, ctx: &mut Context) -> (r: Option<Spanned<&Tuple>>)
        ensures
            final(ctx).text() == old(ctx).text(),
            match item_view(self.0) {
                ItemView::Tuple(items) => r matches Some(found) && items_view(found.0.0@) == items
                    && found.1 == self.1,
                _ => r is None,
            },
            final(ctx).log() == expect_log(
                old(ctx).log(),
                item_view(self.0) is Tuple,
                expected_tuple(item_view(self.0)),
                self.1,
            ),
    {
        match &self.0 {
            Item::Symbol(Symbol::Ident(_)) => ctx.emit_error("expected tuple found ident", self.1),
            Item::Symbol(Symbol::Epsilon(_)) => ctx.emit_error("expected tuple found epsilon", self.1),
            Item::Tuple(tuple) => {
                proof {
                    lemma_tuple_view(*tuple);
                }
                return Some(Spanned(tuple, self.1));
            },
            Item::List(_) => ctx.emit_error("expected tuple found list", self.1),
        }
        None
    }
}

} // verus!
