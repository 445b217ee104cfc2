//! The parser: from tokens to declarations, one per line, with an error and
//! a fresh start at the next line wherever a line is malformed.

use vstd::prelude::*;
use vstd::string::*;

use crate::loader::ast::{
    groups_view, item_view, items_view, lemma_list_view, lemma_tuple_view, symbols_view, Item,
    ItemView, List, ListKind, ProductionGroup, Symbol, SymbolView, TopLevel, TopLevelView, Tuple,
};
use crate::loader::lexer::{
    in_order, lemma_lexemes_in_order,
    error_text, lexemes_from, lexemes_views, token_name, token_text, Error, Lexer,
    Token, TokenView,
};
use crate::loader::log::{LogEntry, LogLevel, Note};
use crate::loader::{epsilon_name, is_epsilon, single, Context, Span, Spanned};
use crate::text::{join2, join3, join4, utf8_len};

verus! {

/// The tokens that the parser reads: those of the source text that are not
/// comments; before each of them, and behind the last, the entries for the
/// lexical errors that stand there in the text; and the span of the end of
/// the text.
pub ghost struct Stream {
    pub tokens: Seq<(TokenView, Span)>,
    pub errors: Seq<Seq<Seq<Note>>>,
    pub eof: Span,
}

/// How far the parser has come: the index of the next token, whether the
/// parser has looked at that token, and the log. The lexical errors before a
/// token are logged when the parser first looks at the token.
pub ghost struct Progress {
    pub pos: int,
    pub peeked: bool,
    pub log: Seq<Seq<Note>>,
}

impl Stream {
    /// The token at `pos`. Behind the last token stands the end of a line,
    /// at the end of the text.
    pub open spec fn current(self, pos: int) -> (TokenView, Span) {
        if 0 <= pos < self.tokens.len() {
            self.tokens[pos]
        } else {
            (TokenView::LineEnd, self.eof)
        }
    }

    /// The position after the token at `pos` was taken. The end of a line is
    /// never taken this way: it stays until the line is left.
    pub open spec fn after(self, pos: int) -> int {
        if 0 <= pos < self.tokens.len() && self.tokens[pos].0 != TokenView::LineEnd {
            pos + 1
        } else {
            pos
        }
    }

    /// The number of tokens from `pos` on.
    pub open spec fn left(self, pos: int) -> nat {
        if 0 <= pos <= self.tokens.len() {
            (self.tokens.len() - pos) as nat
        } else {
            0
        }
    }

    /// The entries for the lexical errors that stand before the token at
    /// `pos`, or behind the last token.
    pub open spec fn errors_at(self, pos: int) -> Seq<Seq<Note>> {
        if 0 <= pos < self.errors.len() {
            self.errors[pos]
        } else {
            Seq::empty()
        }
    }

    /// The progress after the parser has looked at the token at its
    /// position: the lexical errors before that token are in the log, if
    /// they were not yet.
    pub open spec fn pull(self, p: Progress) -> Progress {
        if p.peeked {
            p
        } else {
            Progress { pos: p.pos, peeked: true, log: p.log + self.errors_at(p.pos) }
        }
    }

    /// The progress after the token at its position was looked at and taken.
    pub open spec fn moved(self, p: Progress) -> Progress {
        let q = self.pull(p);
        Progress { pos: self.after(q.pos), peeked: self.after(q.pos) == q.pos, log: q.log }
    }
}

impl Progress {
    /// The progress with one more entry in the log.
    pub open spec fn logged(self, entry: Seq<Note>) -> Progress {
        Progress { log: self.log.push(entry), ..self }
    }

    /// The progress with an error at `span` in the log.
    pub open spec fn failed(self, message: Seq<char>, span: Span) -> Progress {
        self.logged(single(LogLevel::Error, message, Some(span)))
    }
}

/// The tokens among lexer results that are not comments.
pub open spec fn significant(lexemes: Seq<(Result<TokenView, Error>, Span)>) -> Seq<
    (TokenView, Span),
>
    decreases lexemes.len(),
{
    if lexemes.len() == 0 {
        Seq::empty()
    } else {
        let rest = significant(lexemes.drop_last());
        match lexemes.last().0 {
            Ok(TokenView::Comment(_)) => rest,
            Ok(token) => rest.push((token, lexemes.last().1)),
            Err(_) => rest,
        }
    }
}

/// The entries for the lexical errors among lexer results, by the place
/// where they stand: before the first token, between one token and the next,
/// and behind the last token.
pub open spec fn error_slots(lexemes: Seq<(Result<TokenView, Error>, Span)>) -> Seq<Seq<Seq<Note>>>
    decreases lexemes.len(),
{
    if lexemes.len() == 0 {
        seq![Seq::empty()]
    } else {
        let rest = error_slots(lexemes.drop_last());
        match lexemes.last().0 {
            Ok(TokenView::Comment(_)) => rest,
            Ok(_) => rest.push(Seq::empty()),
            Err(error) => rest.update(
                rest.len() - 1,
                rest.last().push(
                    single(LogLevel::Error, error_text(error), Some(lexemes.last().1)),
                ),
            ),
        }
    }
}

/// The message for a token that stands where something else was wanted.
pub open spec fn unexpected(found: TokenView, wanted: Seq<char>) -> Seq<char> {
    "unexpected "@ + token_text(found) + " expected "@ + wanted
}

/// Wants the token `expected` at the position: takes it and says so, or
/// logs an error and leaves what stands there. Either way the span of what
/// stood there is given.
pub open spec fn expect_spec(s: Stream, p: Progress, expected: TokenView) -> (bool, Span, Progress) {
    let (token, span) = s.current(p.pos);
    if token == expected {
        (true, span, s.moved(p))
    } else {
        (false, span, s.pull(p).failed(unexpected(token, token_name(expected)), span))
    }
}

/// Leaves the line: takes the end of the line, or logs an error if
/// something else stands there.
pub open spec fn advance_spec(s: Stream, p: Progress) -> Progress {
    let (token, span) = s.current(p.pos);
    let q = s.pull(p);
    if token == TokenView::LineEnd {
        if 0 <= p.pos < s.tokens.len() {
            Progress { pos: p.pos + 1, peeked: false, log: q.log }
        } else {
            q
        }
    } else {
        q.failed(unexpected(token, token_name(TokenView::LineEnd)), span)
    }
}

/// Takes tokens up to the end of the line, which stays.
pub open spec fn skip_line(s: Stream, p: Progress) -> Progress
    decreases s.left(p.pos),
{
    if 0 <= p.pos < s.tokens.len() && s.tokens[p.pos].0 != TokenView::LineEnd {
        skip_line(s, s.moved(p))
    } else {
        s.pull(p)
    }
}

/// A token read as a symbol: a tilde or a spelling of epsilon is epsilon, any
/// other identifier is a name; anything else is an error and stands for an
/// invalid name.
pub open spec fn as_symbol_spec(token: TokenView, span: Span, log: Seq<Seq<Note>>) -> (
    (SymbolView, Span),
    Seq<Seq<Note>>,
) {
    match token {
        TokenView::Tilde => ((SymbolView::Epsilon("~"@), span), log),
        TokenView::Ident(text) => if is_epsilon(text) {
            ((SymbolView::Epsilon(text), span), log)
        } else {
            ((SymbolView::Ident(text), span), log)
        },
        _ => (
            (SymbolView::Ident("<INVALID>"@), span),
            log.push(
                single(
                    LogLevel::Error,
                    unexpected(token, "symbol ( '~' | ident )"@),
                    Some(span),
                ),
            ),
        ),
    }
}

/// Takes the token at the position as a symbol.
pub open spec fn symbol_spec(s: Stream, p: Progress) -> ((SymbolView, Span), Progress) {
    let (token, span) = s.current(p.pos);
    let q = s.moved(p);
    let (symbol, log) = as_symbol_spec(token, span, q.log);
    (symbol, Progress { log, ..q })
}

/// How a list was written, by whether commas were used and by the token that
/// closes it.
pub open spec fn list_kind(comma: bool, close: TokenView) -> ListKind {
    if close == TokenView::RBrace {
        if comma {
            ListKind::BraceComma
        } else {
            ListKind::Brace
        }
    } else {
        if comma {
            ListKind::BracketComma
        } else {
            ListKind::Bracket
        }
    }
}

/// Parses one item: a symbol, a tuple in parentheses, or a list in braces
/// or brackets. Anything else is taken, logged as an error and stands for
/// an invalid name.
pub open spec fn item_spec(s: Stream, p: Progress) -> ((ItemView, Span), Progress)
    decreases s.left(p.pos), 1int,
{
    let (token, span) = s.current(p.pos);
    match token {
        TokenView::Ident(_) | TokenView::Tilde => {
            let (symbol, pa) = symbol_spec(s, p);
            ((ItemView::Symbol(symbol.0), symbol.1), pa)
        },
        TokenView::LPar => {
            let (items, span, pa) = tuple_spec(s, p);
            ((ItemView::Tuple(items), span), pa)
        },
        TokenView::LBrace | TokenView::LBracket => {
            let (items, kind, span, pa) = list_spec(s, p);
            ((ItemView::List(items, kind), span), pa)
        },
        _ => (
            (ItemView::Symbol(SymbolView::Ident("<INVALID>"@)), span),
            s.moved(p).failed(unexpected(token, "item ( '~' | ident | '(' | '{' | '[' )"@), span),
        ),
    }
}

/// Parses a tuple: an opening parenthesis, items with or without commas
/// between them, and a closing parenthesis on the same line.
pub open spec fn tuple_spec(s: Stream, p: Progress) -> (Seq<(ItemView, Span)>, Span, Progress)
    decreases s.left(p.pos), 0int,
{
    let (matched, start, pa) = expect_spec(s, p, TokenView::LPar);
    if !matched {
        (Seq::empty(), start, pa)
    } else {
        tuple_items(s, pa, start, Seq::empty())
    }
}

/// Parses the rest of a tuple that started at `start` and holds `items` so
/// far.
pub open spec fn tuple_items(s: Stream, p: Progress, start: Span, items: Seq<(ItemView, Span)>) -> (
    Seq<(ItemView, Span)>,
    Span,
    Progress,
)
    decreases s.left(p.pos), 2int,
{
    if s.current(p.pos).0 == TokenView::RPar {
        let (_, end, pa) = expect_spec(s, p, TokenView::RPar);
        (items, start.spec_join(end), pa)
    } else {
        let (item, pa) = item_spec(s, p);
        let pb = if s.current(pa.pos).0 == TokenView::Comma {
            s.moved(pa)
        } else {
            pa
        };
        let (token, span) = s.current(pb.pos);
        if token == TokenView::LineEnd {
            (
                items.push(item),
                start.spec_join(span),
                s.pull(pb).failed("unexpected eol expected "@ + token_name(TokenView::RPar), span),
            )
        } else if s.left(pb.pos) < s.left(p.pos) {
            tuple_items(s, pb, start, items.push(item))
        } else {
            (items.push(item), start, pb)
        }
    }
}

/// Parses a list: an opening brace or bracket, items with or without commas
/// between them, and the matching closing token on the same line.
pub open spec fn list_spec(s: Stream, p: Progress) -> (
    Seq<(ItemView, Span)>,
    ListKind,
    Span,
    Progress,
)
    decreases s.left(p.pos), 0int,
{
    let (token, span) = s.current(p.pos);
    match token {
        TokenView::LBrace => list_items(s, s.moved(p), span, TokenView::RBrace, false, Seq::empty()),
        TokenView::LBracket => list_items(
            s,
            s.moved(p),
            span,
            TokenView::RBracket,
            false,
            Seq::empty(),
        ),
        _ => (
            Seq::empty(),
            ListKind::BracketComma,
            span,
            s.moved(p).failed(unexpected(token, "list start ( '}' | ']' )"@), span),
        ),
    }
}

/// Parses the rest of a list that started at `start`, is closed by `close`
/// and holds `items` so far; `comma` says whether a comma was seen.
pub open spec fn list_items(
    s: Stream,
    p: Progress,
    start: Span,
    close: TokenView,
    comma: bool,
    items: Seq<(ItemView, Span)>,
) -> (Seq<(ItemView, Span)>, ListKind, Span, Progress)
    decreases s.left(p.pos), 2int,
{
    if s.current(p.pos).0 == close {
        let (_, end, pa) = expect_spec(s, p, close);
        (items, list_kind(comma, close), start.spec_join(end), pa)
    } else {
        let (item, pa) = item_spec(s, p);
        let items1 = items.push(item);
        let (token, token_span) = s.current(pa.pos);
        let pb = if items1.len() != 1 && token != close && token != TokenView::LineEnd && ((token
            == TokenView::Comma) != comma) {
            s.pull(pa).logged(
                single(
                    LogLevel::Warning,
                    "inconsistent comma delimiting. use commas to delimit all or no items"@,
                    Some(token_span),
                ),
            )
        } else {
            pa
        };
        let comma1 = comma || token == TokenView::Comma;
        let pc = if token == TokenView::Comma {
            s.moved(pb)
        } else {
            pb
        };
        let (last, last_span) = s.current(pc.pos);
        if last == TokenView::LineEnd {
            (
                items1,
                ListKind::BraceComma,
                start.spec_join(last_span),
                s.pull(pc).failed(
                    "unexpected eol expected list close ( "@ + token_name(close) + " )"@,
                    last_span,
                ),
            )
        } else if s.left(pc.pos) < s.left(p.pos) {
            list_items(s, pc, start, close, comma1, items1)
        } else {
            (items1, ListKind::BraceComma, start, pc)
        }
    }
}

/// Takes symbols up to an arrow or the end of the line: the left side of a
/// production rule. `end` is the span of the last symbol so far.
pub open spec fn lhs_symbols(s: Stream, p: Progress, end: Span, symbols: Seq<(SymbolView, Span)>) -> (
    Seq<(SymbolView, Span)>,
    Span,
    Progress,
)
    decreases s.left(p.pos),
{
    let token = s.current(p.pos).0;
    if token == TokenView::LSmallArrow || token == TokenView::LineEnd {
        (symbols, end, s.pull(p))
    } else {
        let (symbol, pa) = symbol_spec(s, p);
        lhs_symbols(s, pa, symbol.1, symbols.push(symbol))
    }
}

/// Takes symbols up to a bar or the end of the line: one alternative of a
/// production rule.
pub open spec fn group_symbols(s: Stream, p: Progress, symbols: Seq<(SymbolView, Span)>) -> (
    Seq<(SymbolView, Span)>,
    Progress,
)
    decreases s.left(p.pos),
{
    let token = s.current(p.pos).0;
    if token == TokenView::Or || token == TokenView::LineEnd {
        (symbols, s.pull(p))
    } else {
        let (symbol, pa) = symbol_spec(s, p);
        group_symbols(s, pa, symbols.push(symbol))
    }
}

/// One alternative with its span: from its first symbol to its last. An
/// alternative without symbols is an error, and its span is that of the token
/// that stands where a symbol was wanted.
pub open spec fn group_spec(s: Stream, p: Progress) -> ((Seq<(SymbolView, Span)>, Span), Progress) {
    let (symbols, pa) = group_symbols(s, p, Seq::empty());
    if symbols.len() == 0 {
        let here = s.current(pa.pos).1;
        ((symbols, here), pa.failed("cannot have empty production group"@, here))
    } else {
        ((symbols, symbols.first().1.spec_join(symbols.last().1)), pa)
    }
}

/// Takes the alternatives of a production rule, which bars separate.
pub open spec fn groups_spec(s: Stream, p: Progress, groups: Seq<(Seq<(SymbolView, Span)>, Span)>) -> (
    Seq<(Seq<(SymbolView, Span)>, Span)>,
    Progress,
)
    decreases s.left(p.pos),
{
    let (group, pa) = group_spec(s, p);
    let groups1 = groups.push(group);
    if s.current(pa.pos).0 == TokenView::Or && s.left(s.after(pa.pos)) < s.left(p.pos) {
        groups_spec(s, s.moved(pa), groups1)
    } else {
        (groups1, pa)
    }
}

/// Parses a production rule whose first symbol, already taken, is `first`.
pub open spec fn production_spec(s: Stream, p: Progress, first: (SymbolView, Span)) -> (
    (TopLevelView, Span),
    Progress,
) {
    let start = first.1;
    let (lhs, lhs_end, pa) = lhs_symbols(s, p, start, seq![first]);
    let lhs_span = start.spec_join(lhs_end);
    let (matched, _, pb) = expect_spec(s, pa, TokenView::LSmallArrow);
    if !matched {
        (
            (
                TopLevelView::ProductionRule {
                    lhs,
                    lhs_span,
                    groups: Seq::empty(),
                    groups_span: lhs_end,
                },
                lhs_span,
            ),
            pb,
        )
    } else {
        let (groups, pc) = groups_spec(s, pb, Seq::empty());
        let groups_span = groups.first().1.spec_join(groups.last().1);
        (
            (
                TopLevelView::ProductionRule { lhs, lhs_span, groups, groups_span },
                start.spec_join(groups.last().1),
            ),
            pc,
        )
    }
}

/// Parses a transition function declaration whose name, already taken, is
/// `name` at `start`: the arguments, an equals sign and the value. Without
/// the equals sign there is no declaration.
pub open spec fn transition_spec(s: Stream, p: Progress, name: Seq<char>, start: Span) -> (
    Option<(TopLevelView, Span)>,
    Progress,
) {
    let (args, args_span, pa) = tuple_spec(s, p);
    let (matched, _, pb) = expect_spec(s, pa, TokenView::Eq);
    if !matched {
        (None, pb)
    } else {
        let (value, pc) = item_spec(s, pb);
        (
            Some(
                (
                    TopLevelView::TransitionFunc {
                        name,
                        name_span: start,
                        args,
                        args_span,
                        head_span: start.spec_join(args_span),
                        value,
                    },
                    start.spec_join(value.1),
                ),
            ),
            pc,
        )
    }
}

/// Reads one line that starts with a token at the position: a declaration,
/// or nothing for an empty line or a malformed one, which is logged as an
/// error and left out up to its end.
pub open spec fn line_spec(s: Stream, p: Progress) -> (Option<(TopLevelView, Span)>, Progress) {
    let (next, next_span) = s.current(p.pos);
    let pa = s.pull(s.moved(p));
    let (peek, peek_span) = s.current(pa.pos);
    let starts_rule = peek == TokenView::LSmallArrow || peek is Ident || peek == TokenView::Tilde;
    if next == TokenView::LineEnd {
        (None, advance_spec(s, pa))
    } else if next is Ident && peek == TokenView::LPar {
        transition_spec(s, pa, next->Ident_0, next_span)
    } else if next is Ident && peek == TokenView::Eq {
        let (value, pb) = item_spec(s, s.moved(pa));
        (
            Some(
                (
                    TopLevelView::Item { name: next->Ident_0, name_span: next_span, value },
                    next_span.spec_join(value.1),
                ),
            ),
            pb,
        )
    } else if (next is Ident || next == TokenView::Tilde) && starts_rule {
        let (first, log) = as_symbol_spec(next, next_span, pa.log);
        let (rule, pb) = production_spec(s, Progress { log, ..pa }, first);
        (Some(rule), pb)
    } else {
        let pb = if next is Ident {
            pa.failed(unexpected(peek, "'=' | '->'"@), peek_span)
        } else {
            pa.failed(unexpected(next, token_name(TokenView::Ident(Seq::empty()))), next_span)
        };
        (None, skip_line(s, pb))
    }
}

/// Parses the next declaration, if the text holds one more: reads lines
/// until one gives a declaration, and then leaves that line.
pub open spec fn element_spec(s: Stream, p: Progress) -> (Option<(TopLevelView, Span)>, Progress)
    decreases s.left(p.pos),
{
    if !(0 <= p.pos < s.tokens.len()) {
        (None, s.pull(p))
    } else {
        let (found, pa) = line_spec(s, p);
        if found is Some {
            (found, advance_spec(s, pa))
        } else if s.left(pa.pos) < s.left(p.pos) {
            element_spec(s, pa)
        } else {
            (None, pa)
        }
    }
}

/// Every declaration from the position to the end of the text.
pub open spec fn elements_spec(s: Stream, p: Progress) -> (Seq<(TopLevelView, Span)>, Progress)
    decreases s.left(p.pos),
{
    let (found, pa) = element_spec(s, p);
    if found is Some && s.left(pa.pos) < s.left(p.pos) {
        let (rest, pb) = elements_spec(s, pa);
        (seq![found->0] + rest, pb)
    } else if found is Some {
        (seq![found->0], pa)
    } else {
        (Seq::empty(), pa)
    }
}


/// Whether the parser has come forward between two positions: no token
/// was given back, and a token was taken unless the end of a line stands at
/// the later position.
pub open spec fn progresses(s: Stream, before: int, after: int) -> bool {
    &&& s.left(after) <= s.left(before)
    &&& s.left(after) < s.left(before) || s.current(after).0 == TokenView::LineEnd
}

/// Parsing an item always comes forward. With the lemmas below this shows
/// that the definitions of `tuple_items` and `list_items` never reach the
/// branch that stops where no token was taken.
pub proof fn lemma_item_progress(s: Stream, p: Progress)
    ensures
        progresses(s, p.pos, item_spec(s, p).1.pos),
    decreases s.left(p.pos), 1int,
{
    let token = s.current(p.pos).0;
    match token {
        TokenView::LPar => {
            lemma_tuple_progress(s, p);
        },
        TokenView::LBrace | TokenView::LBracket => {
            lemma_list_progress(s, p);
        },
        _ => {},
    }
}

/// Parsing a tuple gives no token back, and takes one if the tuple starts
/// with a parenthesis.
pub proof fn lemma_tuple_progress(s: Stream, p: Progress)
    ensures
        s.left(tuple_spec(s, p).2.pos) <= s.left(p.pos),
        s.current(p.pos).0 == TokenView::LPar ==> s.left(tuple_spec(s, p).2.pos) < s.left(p.pos),
    decreases s.left(p.pos), 0int,
{
    let (matched, start, pa) = expect_spec(s, p, TokenView::LPar);
    if matched {
        lemma_tuple_items_progress(s, pa, start, Seq::empty());
    }
}

/// Parsing the rest of a tuple gives no token back.
pub proof fn lemma_tuple_items_progress(
    s: Stream,
    p: Progress,
    start: Span,
    items: Seq<(ItemView, Span)>,
)
    ensures
        s.left(tuple_items(s, p, start, items).2.pos) <= s.left(p.pos),
        s.current(p.pos).0 != TokenView::RPar ==> ({
            let (item, pa) = item_spec(s, p);
            let pb = if s.current(pa.pos).0 == TokenView::Comma {
                s.moved(pa)
            } else {
                pa
            };
            s.current(pb.pos).0 == TokenView::LineEnd || s.left(pb.pos) < s.left(p.pos)
        }),
    decreases s.left(p.pos), 2int,
{
    if s.current(p.pos).0 != TokenView::RPar {
        lemma_item_progress(s, p);
        let (item, pa) = item_spec(s, p);
        let pb = if s.current(pa.pos).0 == TokenView::Comma {
            s.moved(pa)
        } else {
            pa
        };
        if s.current(pb.pos).0 != TokenView::LineEnd {
            lemma_tuple_items_progress(s, pb, start, items.push(item));
        }
    }
}

/// Parsing a list gives no token back, and takes one if the list starts
/// with a brace or a bracket.
pub proof fn lemma_list_progress(s: Stream, p: Progress)
    ensures
        s.left(list_spec(s, p).3.pos) <= s.left(p.pos),
        s.current(p.pos).0 == TokenView::LBrace || s.current(p.pos).0 == TokenView::LBracket
            ==> s.left(list_spec(s, p).3.pos) < s.left(p.pos),
    decreases s.left(p.pos), 0int,
{
    let (token, span) = s.current(p.pos);
    match token {
        TokenView::LBrace => {
            lemma_list_items_progress(s, s.moved(p), span, TokenView::RBrace, false, Seq::empty());
        },
        TokenView::LBracket => {
            lemma_list_items_progress(
                s,
                s.moved(p),
                span,
                TokenView::RBracket,
                false,
                Seq::empty(),
            );
        },
        _ => {},
    }
}

/// Parsing the rest of a list gives no token back.
pub proof fn lemma_list_items_progress(
    s: Stream,
    p: Progress,
    start: Span,
    close: TokenView,
    comma: bool,
    items: Seq<(ItemView, Span)>,
)
    ensures
        s.left(list_items(s, p, start, close, comma, items).3.pos) <= s.left(p.pos),
        s.current(p.pos).0 != close ==> ({
            let (item, pa) = item_spec(s, p);
            let pc = if s.current(pa.pos).0 == TokenView::Comma {
                s.after(pa.pos)
            } else {
                pa.pos
            };
            s.current(pc).0 == TokenView::LineEnd || s.left(pc) < s.left(p.pos)
        }),
    decreases s.left(p.pos), 2int,
{
    if s.current(p.pos).0 != close {
        lemma_item_progress(s, p);
        let (item, pa) = item_spec(s, p);
        let items1 = items.push(item);
        let (token, token_span) = s.current(pa.pos);
        let pb = if items1.len() != 1 && token != close && token != TokenView::LineEnd && ((token
            == TokenView::Comma) != comma) {
            s.pull(pa).logged(
                single(
                    LogLevel::Warning,
                    "inconsistent comma delimiting. use commas to delimit all or no items"@,
                    Some(token_span),
                ),
            )
        } else {
            pa
        };
        let comma1 = comma || token == TokenView::Comma;
        let pc = if token == TokenView::Comma {
            s.moved(pb)
        } else {
            pb
        };
        if s.current(pc.pos).0 != TokenView::LineEnd {
            lemma_list_items_progress(s, pc, start, close, comma1, items1);
        }
    }
}

proof fn lemma_skip_line(s: Stream, p: Progress)
    ensures
        s.left(skip_line(s, p).pos) <= s.left(p.pos),
        p.pos <= skip_line(s, p).pos,
    decreases s.left(p.pos),
{
    if 0 <= p.pos < s.tokens.len() && s.tokens[p.pos].0 != TokenView::LineEnd {
        lemma_skip_line(s, s.moved(p));
    }
}

proof fn lemma_lhs_symbols(s: Stream, p: Progress, end: Span, symbols: Seq<(SymbolView, Span)>)
    ensures
        s.left(lhs_symbols(s, p, end, symbols).2.pos) <= s.left(p.pos),
    decreases s.left(p.pos),
{
    let token = s.current(p.pos).0;
    if !(token == TokenView::LSmallArrow || token == TokenView::LineEnd) {
        let (symbol, pa) = symbol_spec(s, p);
        lemma_lhs_symbols(s, pa, symbol.1, symbols.push(symbol));
    }
}

proof fn lemma_group_symbols(s: Stream, p: Progress, symbols: Seq<(SymbolView, Span)>)
    ensures
        s.left(group_symbols(s, p, symbols).1.pos) <= s.left(p.pos),
    decreases s.left(p.pos),
{
    let token = s.current(p.pos).0;
    if !(token == TokenView::Or || token == TokenView::LineEnd) {
        let (symbol, pa) = symbol_spec(s, p);
        lemma_group_symbols(s, pa, symbols.push(symbol));
    }
}

proof fn lemma_groups(s: Stream, p: Progress, groups: Seq<(Seq<(SymbolView, Span)>, Span)>)
    ensures
        s.left(groups_spec(s, p, groups).1.pos) <= s.left(p.pos),
        ({
            let pa = group_spec(s, p).1;
            s.current(pa.pos).0 == TokenView::Or ==> s.left(s.after(pa.pos)) < s.left(p.pos)
        }),
    decreases s.left(p.pos),
{
    lemma_group_symbols(s, p, Seq::empty());
    let (group, pa) = group_spec(s, p);
    if s.current(pa.pos).0 == TokenView::Or {
        lemma_groups(s, s.moved(pa), groups.push(group));
    }
}

/// Reading a line that starts with a token takes at least that token. With
/// the lemmas above this shows that the definitions of `groups_spec`,
/// `element_spec` and `elements_spec` never reach the branch that stops
/// where no token was taken.
pub proof fn lemma_line_progress(s: Stream, p: Progress)
    requires
        0 <= p.pos < s.tokens.len(),
    ensures
        s.left(line_spec(s, p).1.pos) < s.left(p.pos),
{
    let (next, next_span) = s.current(p.pos);
    let pa = s.pull(s.moved(p));
    let (peek, peek_span) = s.current(pa.pos);
    let starts_rule = peek == TokenView::LSmallArrow || peek is Ident || peek == TokenView::Tilde;
    if next == TokenView::LineEnd {
    } else if next is Ident && peek == TokenView::LPar {
        lemma_tuple_progress(s, pa);
        let (args, args_span, pb) = tuple_spec(s, pa);
        let (matched, _, pc) = expect_spec(s, pb, TokenView::Eq);
        if matched {
            lemma_item_progress(s, pc);
        }
    } else if next is Ident && peek == TokenView::Eq {
        lemma_item_progress(s, s.moved(pa));
    } else if (next is Ident || next == TokenView::Tilde) && starts_rule {
        let (first, log) = as_symbol_spec(next, next_span, pa.log);
        let pb = Progress { log, ..pa };
        lemma_lhs_symbols(s, pb, first.1, seq![first]);
        let (lhs, lhs_end, pc) = lhs_symbols(s, pb, first.1, seq![first]);
        let (matched, _, pd) = expect_spec(s, pc, TokenView::LSmallArrow);
        if matched {
            lemma_groups(s, pd, Seq::empty());
        }
    } else {
        let pb = if next is Ident {
            pa.failed(unexpected(peek, "'=' | '->'"@), peek_span)
        } else {
            pa.failed(unexpected(next, token_name(TokenView::Ident(Seq::empty()))), next_span)
        };
        lemma_skip_line(s, pb);
    }
}

/// The tokens among lexer results that stand in order stand in order.
pub proof fn lemma_significant_in_order(
    lexemes: Seq<(Result<TokenView, Error>, Span)>,
    from: nat,
    end: nat,
)
    requires
        in_order(lexemes, from, end),
    ensures
        in_order(significant(lexemes), from, end),
    decreases lexemes.len(),
{
    if lexemes.len() > 0 {
        let shorter = lexemes.drop_last();
        let last = lexemes.last();
        assert forall|i: int| 0 <= i < shorter.len() implies (#[trigger] shorter[i]) == lexemes[i] by {}
        assert(in_order(shorter, from, end));
        assert(in_order(shorter, from, last.1.0 as nat)) by {
            assert forall|i: int| 0 <= i < shorter.len() implies (#[trigger] shorter[i]).1.1
                <= last.1.0 by {
                assert(lexemes[i].1.1 <= lexemes[lexemes.len() - 1].1.0);
            }
        }
        lemma_significant_in_order(shorter, from, end);
        lemma_significant_in_order(shorter, from, last.1.0 as nat);
        assert(last == lexemes[lexemes.len() - 1]);
    }
}

/// Whether the tokens of a stream stand in the order of the text, and the
/// end of the text behind them.
pub open spec fn stream_ordered(s: Stream) -> bool {
    &&& in_order(s.tokens, 0, s.eof.0 as nat)
    &&& s.eof.wf()
}

/// Whether the span of an item and the spans of the items in it are
/// well-formed.
pub open spec fn item_wf(item: ItemView, span: Span) -> bool
    decreases item,
{
    &&& span.wf()
    &&& match item {
        ItemView::Symbol(_) => true,
        ItemView::Tuple(items) => forall|i: int|
            0 <= i < items.len() ==> item_wf(#[trigger] items[i].0, items[i].1),
        ItemView::List(items, _) => forall|i: int|
            0 <= i < items.len() ==> item_wf(#[trigger] items[i].0, items[i].1),
    }
}

/// Whether the spans of items and the spans of the items in them are
/// well-formed.
pub open spec fn items_wf(items: Seq<(ItemView, Span)>) -> bool {
    forall|i: int| 0 <= i < items.len() ==> item_wf(#[trigger] items[i].0, items[i].1)
}

/// In an ordered stream a later token starts no earlier than an earlier one,
/// and every token has a well-formed span.
pub proof fn lemma_stream_order(s: Stream, a: int, b: int)
    requires
        stream_ordered(s),
        0 <= a <= b,
    ensures
        s.current(a).1.wf(),
        s.current(b).1.wf(),
        s.current(a).1.0 <= s.current(b).1.0,
        a < b && a < s.tokens.len() ==> s.current(a).1.1 <= s.current(b).1.0,
{
    if a < s.tokens.len() {
        assert(s.tokens[a].1.wf());
        if b < s.tokens.len() {
            assert(s.tokens[b].1.wf());
        }
    }
}

/// The spans that parsing an item gives are well-formed, and the span of
/// the item starts where the first token starts.
pub proof fn lemma_item_spans(s: Stream, p: Progress)
    requires
        stream_ordered(s),
        0 <= p.pos,
    ensures
        item_wf(item_spec(s, p).0.0, item_spec(s, p).0.1),
        item_spec(s, p).0.1.0 == s.current(p.pos).1.0,
        p.pos <= item_spec(s, p).1.pos,
    decreases s.left(p.pos), 1int,
{
    lemma_stream_order(s, p.pos, p.pos);
    let token = s.current(p.pos).0;
    match token {
        TokenView::LPar => {
            lemma_tuple_spans(s, p);
        },
        TokenView::LBrace | TokenView::LBracket => {
            lemma_list_spans(s, p);
        },
        _ => {},
    }
}

/// The spans that parsing a tuple gives are well-formed.
pub proof fn lemma_tuple_spans(s: Stream, p: Progress)
    requires
        stream_ordered(s),
        0 <= p.pos,
    ensures
        items_wf(tuple_spec(s, p).0),
        tuple_spec(s, p).1.wf(),
        tuple_spec(s, p).1.0 == s.current(p.pos).1.0,
        p.pos <= tuple_spec(s, p).2.pos,
    decreases s.left(p.pos), 0int,
{
    lemma_stream_order(s, p.pos, p.pos);
    let (matched, start, pa) = expect_spec(s, p, TokenView::LPar);
    if matched {
        lemma_stream_order(s, p.pos, pa.pos);
        lemma_tuple_items_spans(s, pa, start, Seq::empty());
    }
}

/// The spans that parsing the rest of a tuple gives are well-formed.
pub proof fn lemma_tuple_items_spans(
    s: Stream,
    p: Progress,
    start: Span,
    items: Seq<(ItemView, Span)>,
)
    requires
        stream_ordered(s),
        0 <= p.pos,
        items_wf(items),
        start.wf(),
        start.0 <= s.current(p.pos).1.0,
    ensures
        items_wf(tuple_items(s, p, start, items).0),
        tuple_items(s, p, start, items).1.wf(),
        tuple_items(s, p, start, items).1.0 == start.0,
        p.pos <= tuple_items(s, p, start, items).2.pos,
    decreases s.left(p.pos), 2int,
{
    lemma_stream_order(s, p.pos, p.pos);
    if s.current(p.pos).0 != TokenView::RPar {
        lemma_item_spans(s, p);
        let (item, pa) = item_spec(s, p);
        let pb = if s.current(pa.pos).0 == TokenView::Comma {
            s.moved(pa)
        } else {
            pa
        };
        lemma_stream_order(s, p.pos, pb.pos);
        let items1 = items.push(item);
        assert(items_wf(items1)) by {
            assert forall|i: int| 0 <= i < items1.len() implies item_wf(
                #[trigger] items1[i].0,
                items1[i].1,
            ) by {
                if i < items.len() {
                    assert(items1[i] == items[i]);
                }
            }
        }
        let (token, span) = s.current(pb.pos);
        if token != TokenView::LineEnd && s.left(pb.pos) < s.left(p.pos) {
            lemma_tuple_items_spans(s, pb, start, items1);
        }
    }
}

/// The spans that parsing a list gives are well-formed.
pub proof fn lemma_list_spans(s: Stream, p: Progress)
    requires
        stream_ordered(s),
        0 <= p.pos,
    ensures
        items_wf(list_spec(s, p).0),
        list_spec(s, p).2.wf(),
        list_spec(s, p).2.0 == s.current(p.pos).1.0,
        p.pos <= list_spec(s, p).3.pos,
    decreases s.left(p.pos), 0int,
{
    lemma_stream_order(s, p.pos, p.pos);
    let (token, span) = s.current(p.pos);
    lemma_stream_order(s, p.pos, s.moved(p).pos);
    match token {
        TokenView::LBrace => {
            lemma_list_items_spans(s, s.moved(p), span, TokenView::RBrace, false, Seq::empty());
        },
        TokenView::LBracket => {
            lemma_list_items_spans(s, s.moved(p), span, TokenView::RBracket, false, Seq::empty());
        },
        _ => {},
    }
}

/// The spans that parsing the rest of a list gives are well-formed.
pub proof fn lemma_list_items_spans(
    s: Stream,
    p: Progress,
    start: Span,
    close: TokenView,
    comma: bool,
    items: Seq<(ItemView, Span)>,
)
    requires
        stream_ordered(s),
        0 <= p.pos,
        items_wf(items),
        start.wf(),
        start.0 <= s.current(p.pos).1.0,
    ensures
        items_wf(list_items(s, p, start, close, comma, items).0),
        list_items(s, p, start, close, comma, items).2.wf(),
        list_items(s, p, start, close, comma, items).2.0 == start.0,
        p.pos <= list_items(s, p, start, close, comma, items).3.pos,
    decreases s.left(p.pos), 2int,
{
    lemma_stream_order(s, p.pos, p.pos);
    if s.current(p.pos).0 != close {
        lemma_item_spans(s, p);
        let (item, pa) = item_spec(s, p);
        let items1 = items.push(item);
        assert(items_wf(items1)) by {
            assert forall|i: int| 0 <= i < items1.len() implies item_wf(
                #[trigger] items1[i].0,
                items1[i].1,
            ) by {
                if i < items.len() {
                    assert(items1[i] == items[i]);
                }
            }
        }
        let (token, token_span) = s.current(pa.pos);
        let pb = if items1.len() != 1 && token != close && token != TokenView::LineEnd && ((token
            == TokenView::Comma) != comma) {
            s.pull(pa).logged(
                single(
                    LogLevel::Warning,
                    "inconsistent comma delimiting. use commas to delimit all or no items"@,
                    Some(token_span),
                ),
            )
        } else {
            pa
        };
        let comma1 = comma || token == TokenView::Comma;
        let pc = if token == TokenView::Comma {
            s.moved(pb)
        } else {
            pb
        };
        lemma_stream_order(s, p.pos, pc.pos);
        let (last, last_span) = s.current(pc.pos);
        if last != TokenView::LineEnd && s.left(pc.pos) < s.left(p.pos) {
            lemma_list_items_spans(s, pc, start, close, comma1, items1);
        }
    }
}

/// Whether the spans of symbols are well-formed.
pub open spec fn symbols_wf(symbols: Seq<(SymbolView, Span)>) -> bool {
    forall|i: int| 0 <= i < symbols.len() ==> (#[trigger] symbols[i]).1.wf()
}

/// Whether the spans of alternatives and of the symbols in them are
/// well-formed.
pub open spec fn groups_wf(groups: Seq<(Seq<(SymbolView, Span)>, Span)>) -> bool {
    forall|i: int|
        0 <= i < groups.len() ==> (#[trigger] groups[i]).1.wf() && symbols_wf(groups[i].0)
}

/// Whether the span of a declaration and every span in it is well-formed.
pub open spec fn element_wf(element: (TopLevelView, Span)) -> bool {
    &&& element.1.wf()
    &&& match element.0 {
        TopLevelView::Item { name, name_span, value } => name_span.wf() && item_wf(
            value.0,
            value.1,
        ),
        TopLevelView::TransitionFunc { name, name_span, args, args_span, head_span, value } => {
            &&& name_span.wf()
            &&& args_span.wf()
            &&& head_span.wf()
            &&& items_wf(args)
            &&& item_wf(value.0, value.1)
        },
        TopLevelView::ProductionRule { lhs, lhs_span, groups, groups_span } => {
            &&& lhs_span.wf()
            &&& groups_span.wf()
            &&& symbols_wf(lhs)
            &&& groups_wf(groups)
        },
        TopLevelView::Table => true,
    }
}

proof fn lemma_lhs_spans(
    s: Stream,
    p: Progress,
    bound: usize,
    end: Span,
    symbols: Seq<(SymbolView, Span)>,
)
    requires
        stream_ordered(s),
        0 <= p.pos,
        symbols_wf(symbols),
        end.wf(),
        bound <= end.1,
        bound <= s.current(p.pos).1.0,
    ensures
        symbols_wf(lhs_symbols(s, p, end, symbols).0),
        lhs_symbols(s, p, end, symbols).1.wf(),
        bound <= lhs_symbols(s, p, end, symbols).1.1,
        bound <= s.current(lhs_symbols(s, p, end, symbols).2.pos).1.0,
        p.pos <= lhs_symbols(s, p, end, symbols).2.pos,
    decreases s.left(p.pos),
{
    let token = s.current(p.pos).0;
    if !(token == TokenView::LSmallArrow || token == TokenView::LineEnd) {
        let (symbol, pa) = symbol_spec(s, p);
        lemma_stream_order(s, p.pos, pa.pos);
        let symbols1 = symbols.push(symbol);
        assert forall|i: int| 0 <= i < symbols1.len() implies (#[trigger] symbols1[i]).1.wf() by {
            if i < symbols.len() {
                assert(symbols1[i] == symbols[i]);
            }
        }
        lemma_lhs_spans(s, pa, bound, symbol.1, symbols1);
    }
}

proof fn lemma_group_spans(s: Stream, p: Progress, symbols: Seq<(SymbolView, Span)>)
    requires
        stream_ordered(s),
        0 <= p.pos,
        symbols_wf(symbols),
        symbols.len() > 0 ==> symbols.first().1.0 <= s.current(p.pos).1.0,
    ensures
        symbols_wf(group_symbols(s, p, symbols).0),
        p.pos <= group_symbols(s, p, symbols).1.pos,
        ({
            let found = group_symbols(s, p, symbols).0;
            &&& found.len() >= symbols.len()
            &&& symbols.len() > 0 ==> found.first() == symbols.first()
            &&& symbols.len() == 0 && found.len() > 0 ==> found.first().1 == s.current(p.pos).1
            &&& symbols.len() == 0 && found.len() > 0 ==> found.first().1.0 <= found.last().1.1
            &&& found.len() == 0 ==> group_symbols(s, p, symbols).1.pos == p.pos
        }),
        symbols.len() > 0 && symbols.first().1.0 <= symbols.last().1.1 ==> ({
            let found = group_symbols(s, p, symbols).0;
            found.first().1.0 <= found.last().1.1
        }),
    decreases s.left(p.pos),
{
    let token = s.current(p.pos).0;
    if !(token == TokenView::Or || token == TokenView::LineEnd) {
        let (symbol, pa) = symbol_spec(s, p);
        lemma_stream_order(s, p.pos, pa.pos);
        let symbols1 = symbols.push(symbol);
        assert forall|i: int| 0 <= i < symbols1.len() implies (#[trigger] symbols1[i]).1.wf() by {
            if i < symbols.len() {
                assert(symbols1[i] == symbols[i]);
            }
        }
        assert(symbols1.first().1.0 <= symbols1.last().1.1) by {
            if symbols.len() > 0 {
                assert(symbols1.first() == symbols.first());
            }
        }
        lemma_group_spans(s, pa, symbols1);
    }
}

proof fn lemma_groups_spans(s: Stream, p: Progress, groups: Seq<(Seq<(SymbolView, Span)>, Span)>)
    requires
        stream_ordered(s),
        0 <= p.pos,
        groups_wf(groups),
        groups.len() > 0 ==> groups.first().1.0 <= s.current(p.pos).1.0,
    ensures
        groups_wf(groups_spec(s, p, groups).0),
        groups_spec(s, p, groups).0.len() > 0,
        groups.len() > 0 ==> groups_spec(s, p, groups).0.first() == groups.first(),
        groups.len() == 0 ==> groups_spec(s, p, groups).0.first().1.0 == s.current(p.pos).1.0,
        groups_spec(s, p, groups).0.first().1.0 <= groups_spec(s, p, groups).0.last().1.1,
        s.current(p.pos).1.0 <= groups_spec(s, p, groups).0.last().1.1,
        p.pos <= groups_spec(s, p, groups).1.pos,
    decreases s.left(p.pos),
{
    lemma_stream_order(s, p.pos, p.pos);
    lemma_group_spans(s, p, Seq::empty());
    let (group, pa) = group_spec(s, p);
    lemma_stream_order(s, p.pos, pa.pos);
    let groups1 = groups.push(group);
    assert(group.1.wf() && group.1.0 == s.current(p.pos).1.0);
    assert forall|i: int| 0 <= i < groups1.len() implies (#[trigger] groups1[i]).1.wf()
        && symbols_wf(groups1[i].0) by {
        if i < groups.len() {
            assert(groups1[i] == groups[i]);
        }
    }
    if groups.len() > 0 {
        assert(groups1.first() == groups.first());
    }
    if s.current(pa.pos).0 == TokenView::Or && s.left(s.after(pa.pos)) < s.left(p.pos) {
        lemma_stream_order(s, p.pos, s.after(pa.pos));
        lemma_groups_spans(s, s.moved(pa), groups1);
    }
}

proof fn lemma_line_spans(s: Stream, p: Progress)
    requires
        stream_ordered(s),
        0 <= p.pos < s.tokens.len(),
    ensures
        line_spec(s, p).0 matches Some(element) ==> element_wf(element),
        p.pos <= line_spec(s, p).1.pos,
{
    let (next, next_span) = s.current(p.pos);
    let pa = s.pull(s.moved(p));
    let (peek, peek_span) = s.current(pa.pos);
    let starts_rule = peek == TokenView::LSmallArrow || peek is Ident || peek == TokenView::Tilde;
    lemma_stream_order(s, p.pos, pa.pos);
    if next == TokenView::LineEnd {
    } else if next is Ident && peek == TokenView::LPar {
        lemma_tuple_spans(s, pa);
        let (args, args_span, pb) = tuple_spec(s, pa);
        let (matched, _, pc) = expect_spec(s, pb, TokenView::Eq);
        if matched {
            lemma_stream_order(s, p.pos, pc.pos);
            lemma_item_spans(s, pc);
        }
    } else if next is Ident && peek == TokenView::Eq {
        lemma_stream_order(s, p.pos, s.moved(pa).pos);
        lemma_item_spans(s, s.moved(pa));
    } else if (next is Ident || next == TokenView::Tilde) && starts_rule {
        let (first, log) = as_symbol_spec(next, next_span, pa.log);
        let pb = Progress { log, ..pa };
        let start = first.1;
        assert(symbols_wf(seq![first]));
        lemma_lhs_spans(s, pb, start.0, start, seq![first]);
        let (lhs, lhs_end, pc) = lhs_symbols(s, pb, start, seq![first]);
        let (matched, _, pd) = expect_spec(s, pc, TokenView::LSmallArrow);
        if matched {
            lemma_stream_order(s, p.pos, pd.pos);
            lemma_groups_spans(s, pd, Seq::empty());
        }
    } else {
        let pb = if next is Ident {
            pa.failed(unexpected(peek, "'=' | '->'"@), peek_span)
        } else {
            pa.failed(unexpected(next, token_name(TokenView::Ident(Seq::empty()))), next_span)
        };
        lemma_skip_line(s, pb);
    }
}

proof fn lemma_element_spans(s: Stream, p: Progress)
    requires
        stream_ordered(s),
        0 <= p.pos,
    ensures
        element_spec(s, p).0 matches Some(element) ==> element_wf(element),
        p.pos <= element_spec(s, p).1.pos,
    decreases s.left(p.pos),
{
    if 0 <= p.pos < s.tokens.len() {
        lemma_line_spans(s, p);
        let (found, pa) = line_spec(s, p);
        if found is None && s.left(pa.pos) < s.left(p.pos) {
            lemma_element_spans(s, pa);
        }
    }
}

proof fn lemma_elements_spans(s: Stream, p: Progress)
    requires
        stream_ordered(s),
        0 <= p.pos,
    ensures
        forall|i: int|
            0 <= i < elements_spec(s, p).0.len() ==> element_wf(#[trigger] elements_spec(s, p).0[i]),
    decreases s.left(p.pos),
{
    lemma_element_spans(s, p);
    let (found, pa) = element_spec(s, p);
    if found is Some && s.left(pa.pos) < s.left(p.pos) {
        lemma_elements_spans(s, pa);
        let (rest, pb) = elements_spec(s, pa);
        let all = elements_spec(s, p).0;
        assert(all =~= seq![found.unwrap()] + rest);
        assert forall|i: int| 0 <= i < all.len() implies element_wf(#[trigger] all[i]) by {
            if i > 0 {
                assert(all[i] == rest[i - 1]);
            }
        }
    }
}

/// Every span is well-formed: each declaration that is parsed from the
/// tokens of a text, and each item, tuple, list, symbol and alternative in
/// it, has a span that ends no earlier than it starts.
pub proof fn law_spans_well_formed(text: Seq<char>, log: Seq<Seq<Note>>)
    requires
        utf8_len(text) <= usize::MAX,
    ensures
        ({
            let s = Stream {
                tokens: significant(lexemes_from(text, 0)),
                errors: error_slots(lexemes_from(text, 0)),
                eof: Span(utf8_len(text) as usize, utf8_len(text) as usize),
            };
            let elements = elements_spec(s, Progress { pos: 0, peeked: false, log }).0;
            forall|i: int| 0 <= i < elements.len() ==> element_wf(#[trigger] elements[i])
        }),
{
    let s = Stream {
        tokens: significant(lexemes_from(text, 0)),
        errors: error_slots(lexemes_from(text, 0)),
        eof: Span(utf8_len(text) as usize, utf8_len(text) as usize),
    };
    lemma_lexemes_in_order(text, 0);
    assert(text.take(0) =~= Seq::<char>::empty());
    lemma_significant_in_order(lexemes_from(text, 0), 0, utf8_len(text));
    lemma_elements_spans(s, Progress { pos: 0, peeked: false, log });
}

/// Tokens with their spans, as contracts see them.
pub open spec fn tokens_view(tokens: Seq<Spanned<Token>>) -> Seq<(TokenView, Span)> {
    Seq::new(tokens.len(), |i: int| (tokens[i].0@, tokens[i].1))
}

/// A declaration with its span, as contracts see it.
pub open spec fn element_view(element: Option<Spanned<TopLevel>>) -> Option<(TopLevelView, Span)> {
    match element {
        Some(found) => Some((found.0@, found.1)),
        None => None,
    }
}

/// Declarations with their spans, as contracts see them.
pub open spec fn elements_view(elements: Seq<Spanned<TopLevel>>) -> Seq<(TopLevelView, Span)> {
    Seq::new(elements.len(), |i: int| (elements[i].0@, elements[i].1))
}

/// The message for `found` standing where `wanted` was expected.
fn unexpected_message(found: &Token, wanted: &str) -> (r: String)
    ensures
        r@ == unexpected(found@, wanted@),
{
    let shown = found.describe(true);
    join4("unexpected ", shown.as_str(), " expected ", wanted)
}

/// A parser over the tokens of a source text.
pub struct Parser {
    tokens: Vec<Spanned<Token>>,
    errors: Vec<Vec<Spanned<Error>>>,
    pos: usize,
    peeked: bool,
    eof: Span,
}

/// The entries for lexical errors that stand at one place.
pub open spec fn slot_view(slot: Seq<Spanned<Error>>) -> Seq<Seq<Note>> {
    Seq::new(
        slot.len(),
        |i: int| single(LogLevel::Error, error_text(slot[i].0), Some(slot[i].1)),
    )
}

/// The entries for lexical errors by the place where they stand.
pub open spec fn slots_view(slots: Seq<Vec<Spanned<Error>>>) -> Seq<Seq<Seq<Note>>> {
    Seq::new(slots.len(), |k: int| slot_view(slots[k]@))
}

impl Parser {
    /// The tokens that the parser reads.
    pub closed spec fn stream(&self) -> Stream {
        Stream { tokens: tokens_view(self.tokens@), errors: slots_view(self.errors@), eof: self.eof }
    }

    /// The index of the next token.
    pub closed spec fn pos(&self) -> int {
        self.pos as int
    }

    /// Whether the parser has looked at the next token.
    pub closed spec fn peeked(&self) -> bool {
        self.peeked
    }

    /// How far the parser has come, with the log of `ctx`.
    pub open spec fn progress(&self, ctx: &Context) -> Progress {
        Progress { pos: self.pos(), peeked: self.peeked(), log: ctx.log() }
    }

    /// The number of tokens that are left.
    pub open spec fn left(&self) -> nat {
        self.stream().left(self.pos())
    }

    /// A parser at the start of the source text of `ctx`. Nothing is logged
    /// yet: the lexical errors before a token are logged when the parser
    /// first looks at that token.
    pub fn new(ctx: &mut Context) -> (r: Self)
        ensures
            final(ctx).text() == old(ctx).text(),
            final(ctx).log() == old(ctx).log(),
            r.stream() == (Stream {
                tokens: significant(lexemes_from(old(ctx).text(), 0)),
                errors: error_slots(lexemes_from(old(ctx).text(), 0)),
                eof: Span(utf8_len(old(ctx).text()) as usize, utf8_len(old(ctx).text()) as usize),
            }),
            r.pos() == 0,
            !r.peeked(),
    {
        let mut lexer = Lexer::new(ctx.src());
        let lexemes = lexer.tokens();
        let eof = ctx.eof();
        let ghost all = lexemes_views(lexemes@);
        let mut tokens: Vec<Spanned<Token>> = Vec::new();
        let mut errors: Vec<Vec<Spanned<Error>>> = Vec::new();
        let mut slot: Vec<Spanned<Error>> = Vec::new();
        let mut i: usize = 0;
        proof {
            assert(all.take(0) =~= Seq::empty());
            assert(tokens_view(tokens@) =~= Seq::empty());
            assert(slot_view(slot@) =~= Seq::<Seq<Note>>::empty());
            assert(slots_view(errors@) =~= Seq::<Seq<Seq<Note>>>::empty());
            assert(slots_view(errors@).push(slot_view(slot@)) =~= seq![Seq::<Seq<Note>>::empty()]);
        }
        while i < lexemes.len()
            invariant
                0 <= i <= lexemes.len(),
                all == lexemes_views(lexemes@),
                tokens_view(tokens@) == significant(all.take(i as int)),
                slots_view(errors@).push(slot_view(slot@)) == error_slots(all.take(i as int)),
            decreases lexemes.len() - i,
        {
            let ghost seen = tokens_view(tokens@);
            let ghost done = slots_view(errors@);
            let ghost open = slot_view(slot@);
            proof {
                assert(all.take(i + 1).drop_last() =~= all.take(i as int));
                assert(all.take(i + 1).last() == all[i as int]);
            }
            match &lexemes[i].0 {
                Ok(Token::Comment(_)) => {},
                Ok(token) => {
                    tokens.push(Spanned(token.duplicate(), lexemes[i].1));
                    errors.push(slot);
                    slot = Vec::new();
                    proof {
                        assert(tokens_view(tokens@) =~= seen.push((token@, lexemes[i as int].1)));
                        assert(slots_view(errors@) =~= done.push(open));
                        assert(slot_view(slot@) =~= Seq::empty());
                    }
                },
                Err(error) => {
                    slot.push(Spanned(*error, lexemes[i].1));
                    proof {
                        let entry = single(
                            LogLevel::Error,
                            error_text(*error),
                            Some(lexemes[i as int].1),
                        );
                        assert(slot_view(slot@) =~= open.push(entry));
                        let rest = done.push(open);
                        assert(done.push(open.push(entry)) =~= rest.update(
                            rest.len() - 1,
                            rest.last().push(entry),
                        ));
                    }
                },
            }
            i += 1;
        }
        proof {
            assert(all.take(lexemes.len() as int) =~= all);
        }
        let ghost done = slots_view(errors@);
        let ghost open = slot_view(slot@);
        errors.push(slot);
        proof {
            assert(slots_view(errors@) =~= done.push(open));
        }
        Parser { tokens, errors, pos: 0, peeked: false, eof }
    }

    /// Whether the token at the position is `token`.
    fn at(&self, token: &Token) -> (b: bool)
        ensures
            b == (self.stream().current(self.pos()).0 == token@),
    {
        if self.pos < self.tokens.len() {
            self.tokens[self.pos].0.same(token)
        } else {
            token.same(&Token::LineEnd)
        }
    }

    /// Whether the token at the position is an identifier.
    fn at_ident(&self) -> (b: bool)
        ensures
            b == (self.stream().current(self.pos()).0 is Ident),
    {
        if self.pos < self.tokens.len() {
            matches!(self.tokens[self.pos].0, Token::Ident(_))
        } else {
            false
        }
    }

    /// The span of the token at the position.
    fn span_here(&self) -> (r: Span)
        ensures
            r == self.stream().current(self.pos()).1,
    {
        if self.pos < self.tokens.len() {
            self.tokens[self.pos].1
        } else {
            self.eof
        }
    }

    /// Looks at the token at the position: logs the lexical errors that
    /// stand before it, if they were not logged yet.
    fn pull(&mut self, ctx: &mut Context)
        ensures
            final(self).stream() == old(self).stream(),
            final(ctx).text() == old(ctx).text(),
            final(self).progress(final(ctx)) == old(self).stream().pull(
                old(self).progress(old(ctx)),
            ),
            final(self).pos() == old(self).pos(),
            final(self).peeked(),
    {
        if !self.peeked {
            let ghost log0 = ctx.log();
            if self.pos < self.errors.len() {
                let ghost entries = slot_view(self.errors@[self.pos as int]@);
                let mut i: usize = 0;
                proof {
                    assert(log0 + entries.take(0) =~= log0);
                }
                while i < self.errors[self.pos].len()
                    invariant
                        self.pos < self.errors.len(),
                        0 <= i <= self.errors@[self.pos as int]@.len(),
                        entries == slot_view(self.errors@[self.pos as int]@),
                        ctx.text() == old(ctx).text(),
                        ctx.log() == log0 + entries.take(i as int),
                    decreases self.errors@[self.pos as int]@.len() - i,
                {
                    let error = &self.errors[self.pos][i];
                    let message = error.0.describe();
                    ctx.emit(LogEntry::new(LogLevel::Error, message, Some(error.1)));
                    proof {
                        assert(log0 + entries.take(i + 1) =~= (log0 + entries.take(i as int)).push(
                            entries[i as int],
                        ));
                    }
                    i += 1;
                }
                proof {
                    assert(entries.take(i as int) =~= entries);
                }
            } else {
                proof {
                    assert(log0 + Seq::<Seq<Note>>::empty() =~= log0);
                }
            }
            self.peeked = true;
        }
    }

    /// Leaves the line: takes the end of the line, or logs an error if
    /// something else stands there.
    pub fn advance_line(&mut self, ctx: &mut Context)
        ensures
            final(self).stream() == old(self).stream(),
            final(ctx).text() == old(ctx).text(),
            final(self).progress(final(ctx)) == advance_spec(
                old(self).stream(),
                old(self).progress(old(ctx)),
            ),
            final(self).left() <= old(self).left(),
    {
        self.pull(ctx);
        if self.at(&Token::LineEnd) {
            if self.pos < self.tokens.len() {
                self.pos = self.pos + 1;
                self.peeked = false;
            }
        } else {
            let found = self.look();
            let message = unexpected_message(&found.0, "eol");
            ctx.emit(LogEntry::new(LogLevel::Error, message, Some(found.1)));
        }
    }

    /// The token at the position; at the end of the text that is the end of
    /// a line.
    fn look(&self) -> (r: Spanned<Token>)
        ensures
            (r.0@, r.1) == self.stream().current(self.pos()),
    {
        if self.pos < self.tokens.len() {
            Spanned(self.tokens[self.pos].0.duplicate(), self.tokens[self.pos].1)
        } else {
            Spanned(Token::LineEnd, self.eof)
        }
    }

    /// Takes the next token, if there is one. The end of a line stays where
    /// it is. The lexical errors before the token are logged, if they were
    /// not logged yet.
    pub fn next_token_optional(&mut self, ctx: &mut Context) -> (r: Option<Spanned<Token>>)
        ensures
            final(self).stream() == old(self).stream(),
            final(ctx).text() == old(ctx).text(),
            final(self).progress(final(ctx)) == old(self).stream().moved(
                old(self).progress(old(ctx)),
            ),
            match r {
                Some(found) => 0 <= old(self).pos() < old(self).stream().tokens.len() && (
                    found.0@,
                    found.1,
                ) == old(self).stream().current(old(self).pos()),
                None => old(self).pos() >= old(self).stream().tokens.len(),
            },
    {
        self.pull(ctx);
        if self.pos < self.tokens.len() {
            let token = self.tokens[self.pos].0.duplicate();
            let span = self.tokens[self.pos].1;
            if !matches!(token, Token::LineEnd) {
                self.pos = self.pos + 1;
                self.peeked = false;
            }
            Some(Spanned(token, span))
        } else {
            None
        }
    }

    /// The next token, if there is one; it stays where it is. The lexical
    /// errors before the token are logged, if they were not logged yet.
    pub fn peek_token_optional(&mut self, ctx: &mut Context) -> (r: Option<Spanned<Token>>)
        ensures
            final(self).stream() == old(self).stream(),
            final(ctx).text() == old(ctx).text(),
            final(self).progress(final(ctx)) == old(self).stream().pull(
                old(self).progress(old(ctx)),
            ),
            match r {
                Some(found) => 0 <= old(self).pos() < old(self).stream().tokens.len() && (
                    found.0@,
                    found.1,
                ) == old(self).stream().current(old(self).pos()),
                None => old(self).pos() >= old(self).stream().tokens.len(),
            },
    {
        self.pull(ctx);
        if self.pos < self.tokens.len() {
            Some(Spanned(self.tokens[self.pos].0.duplicate(), self.tokens[self.pos].1))
        } else {
            None
        }
    }

    /// Takes the next token; at the end of the text that is the end of a
    /// line. The end of a line stays where it is. The lexical errors before
    /// the token are logged, if they were not logged yet.
    pub fn next_token(&mut self, ctx: &mut Context) -> (r: Spanned<Token>)
        ensures
            final(self).stream() == old(self).stream(),
            final(ctx).text() == old(ctx).text(),
            final(self).progress(final(ctx)) == old(self).stream().moved(
                old(self).progress(old(ctx)),
            ),
            (r.0@, r.1) == old(self).stream().current(old(self).pos()),
    {
        let eof = self.eof;
        match self.next_token_optional(ctx) {
            Some(found) => found,
            None => Spanned(Token::LineEnd, eof),
        }
    }

    /// The next token, which stays where it is; at the end of the text that
    /// is the end of a line. The lexical errors before the token are logged,
    /// if they were not logged yet.
    pub fn peek_token(&mut self, ctx: &mut Context) -> (r: Spanned<Token>)
        ensures
            final(self).stream() == old(self).stream(),
            final(ctx).text() == old(ctx).text(),
            final(self).progress(final(ctx)) == old(self).stream().pull(
                old(self).progress(old(ctx)),
            ),
            (r.0@, r.1) == old(self).stream().current(old(self).pos()),
    {
        self.pull(ctx);
        self.look()
    }

    /// Wants the token `expected`: takes it and says so, or logs an error
    /// and leaves what stands there. Either way gives the span of what stood
    /// there.
    pub fn expect_token(&mut self, ctx: &mut Context, expected: Token) -> (r: (bool, Span))
        ensures
            final(self).stream() == old(self).stream(),
            final(ctx).text() == old(ctx).text(),
            (r.0, r.1, final(self).progress(final(ctx))) == expect_spec(
                old(self).stream(),
                old(self).progress(old(ctx)),
                expected@,
            ),
            final(self).left() <= old(self).left(),
    {
        let found = self.peek_token(ctx);
        if found.0.same(&expected) {
            self.next_token(ctx);
            (true, found.1)
        } else {
            let wanted = expected.describe(false);
            let message = unexpected_message(&found.0, wanted.as_str());
            ctx.emit(LogEntry::new(LogLevel::Error, message, Some(found.1)));
            (false, found.1)
        }
    }

    /// Reads a token as a symbol.
    pub fn parse_as_symbol(&self, ctx: &mut Context, tok: Spanned<Token>) -> (r: Spanned<Symbol>)
        ensures
            final(ctx).text() == old(ctx).text(),
            ((r.0@, r.1), final(ctx).log()) == as_symbol_spec(tok.0@, tok.1, old(ctx).log()),
    {
        let Spanned(token, span) = tok;
        match token {
            Token::Tilde => Spanned(Symbol::Epsilon("~".to_owned()), span),
            Token::Ident(text) => if epsilon_name(&text) {
                Spanned(Symbol::Epsilon(text), span)
            } else {
                Spanned(Symbol::Ident(text), span)
            },
            other => {
                let message = unexpected_message(&other, "symbol ( '~' | ident )");
                ctx.emit(LogEntry::new(LogLevel::Error, message, Some(span)));
                Spanned(Symbol::Ident("<INVALID>".to_owned()), span)
            },
        }
    }

    /// Takes the next token as a symbol.
    pub fn parse_symbol(&mut self, ctx: &mut Context) -> (r: Spanned<Symbol>)
        ensures
            final(self).stream() == old(self).stream(),
            final(ctx).text() == old(ctx).text(),
            ((r.0@, r.1), final(self).progress(final(ctx))) == symbol_spec(
                old(self).stream(),
                old(self).progress(old(ctx)),
            ),
            final(self).pos() == old(self).stream().after(old(self).pos()),
    {
        let next = self.next_token(ctx);
        self.parse_as_symbol(ctx, next)
    }

    /// Parses a tuple.
    pub fn parse_tupple(&mut self, ctx: &mut Context) -> (r: Spanned<Tuple>)
        ensures
            final(self).stream() == old(self).stream(),
            final(ctx).text() == old(ctx).text(),
            (items_view(r.0.0@), r.1, final(self).progress(final(ctx))) == tuple_spec(
                old(self).stream(),
                old(self).progress(old(ctx)),
            ),
            final(self).left() <= old(self).left(),
            old(self).stream().current(old(self).pos()).0 == TokenView::LPar ==> final(self).left()
                < old(self).left(),
        decreases old(self).left(), 0int,
    {
        let ghost s = self.stream();
        let ghost text = ctx.text();
        let ghost origin = self.progress(ctx);
        let mut items: Vec<Spanned<Item>> = Vec::new();
        let (matched, start) = self.expect_token(ctx, Token::LPar);
        if !matched {
            proof {
                assert(items_view(items@) =~= Seq::empty());
            }
            return Spanned(Tuple(items), start);
        }
        let ghost pa = self.progress(ctx);
        proof {
            assert(items_view(items@) =~= Seq::empty());
        }
        loop
            invariant
                s == old(self).stream(),
                text == old(ctx).text(),
                origin == old(self).progress(old(ctx)),
                self.stream() == s,
                ctx.text() == text,
                tuple_items(s, self.progress(ctx), start, items_view(items@)) == tuple_spec(s, origin),
                self.left() < s.left(origin.pos),
            ensures
                self.stream() == s,
                ctx.text() == text,
                tuple_items(s, self.progress(ctx), start, items_view(items@)) == tuple_spec(s, origin),
                self.left() < s.left(origin.pos),
                s.current(self.pos()).0 == TokenView::RPar,
            decreases self.left(),
        {
            if self.at(&Token::RPar) {
                break;
            }
            let ghost before = items_view(items@);
            let item = self.parse_item(ctx);
            items.push(item);
            proof {
                assert(items_view(items@) =~= before.push((item_view(item.0), item.1)));
            }
            if self.at(&Token::Comma) {
                self.next_token(ctx);
            }
            if self.at(&Token::LineEnd) {
                self.pull(ctx);
                let span = self.span_here();
                let wanted = Token::RPar.describe(false);
                let message = join2("unexpected eol expected ", wanted.as_str());
                ctx.emit(LogEntry::new(LogLevel::Error, message, Some(span)));
                return Spanned(Tuple(items), start.join(span));
            }
        }
        let (_, end) = self.expect_token(ctx, Token::RPar);
        Spanned(Tuple(items), start.join(end))
    }

    /// Parses one item.
    pub fn parse_item(&mut self, ctx: &mut Context) -> (r: Spanned<Item>)
        ensures
            final(self).stream() == old(self).stream(),
            final(ctx).text() == old(ctx).text(),
            ((item_view(r.0), r.1), final(self).progress(final(ctx))) == item_spec(
                old(self).stream(),
                old(self).progress(old(ctx)),
            ),
            final(self).left() <= old(self).left(),
            final(self).left() < old(self).left() || final(self).stream().current(
                final(self).pos(),
            ).0 == TokenView::LineEnd,
        decreases old(self).left(), 1int,
    {
        if self.at_ident() || self.at(&Token::Tilde) {
            let Spanned(symbol, span) = self.parse_symbol(ctx);
            Spanned(Item::Symbol(symbol), span)
        } else if self.at(&Token::LPar) {
            let Spanned(tuple, span) = self.parse_tupple(ctx);
            proof {
                lemma_tuple_view(tuple);
            }
            Spanned(Item::Tuple(tuple), span)
        } else if self.at(&Token::LBrace) || self.at(&Token::LBracket) {
            let Spanned(list, span) = self.parse_list(ctx);
            proof {
                lemma_list_view(list);
            }
            Spanned(Item::List(list), span)
        } else {
            let Spanned(got, span) = self.next_token(ctx);
            let message = unexpected_message(&got, "item ( '~' | ident | '(' | '{' | '[' )");
            ctx.emit(LogEntry::new(LogLevel::Error, message, Some(span)));
            Spanned(Item::Symbol(Symbol::Ident("<INVALID>".to_owned())), span)
        }
    }

    /// Parses a list.
    pub fn parse_list(&mut self, ctx: &mut Context) -> (r: Spanned<List>)
        ensures
            final(self).stream() == old(self).stream(),
            final(ctx).text() == old(ctx).text(),
            (items_view(r.0.0@), r.0.1, r.1, final(self).progress(final(ctx))) == list_spec(
                old(self).stream(),
                old(self).progress(old(ctx)),
            ),
            final(self).left() <= old(self).left(),
            old(self).stream().current(old(self).pos()).0 == TokenView::LBrace || old(
                self,
            ).stream().current(old(self).pos()).0 == TokenView::LBracket ==> final(self).left()
                < old(self).left(),
        decreases old(self).left(), 0int,
    {
        let ghost s = self.stream();
        let ghost text = ctx.text();
        let ghost origin = self.progress(ctx);
        let mut list: Vec<Spanned<Item>> = Vec::new();
        proof {
            assert(items_view(list@) =~= Seq::empty());
        }
        let Spanned(first, start) = self.next_token(ctx);
        let close = match first {
            Token::LBrace => Token::RBrace,
            Token::LBracket => Token::RBracket,
            got => {
                let message = unexpected_message(&got, "list start ( '}' | ']' )");
                ctx.emit(LogEntry::new(LogLevel::Error, message, Some(start)));
                return Spanned(List(list, ListKind::BracketComma), start);
            },
        };
        let mut comma = false;
        loop
            invariant
                s == old(self).stream(),
                text == old(ctx).text(),
                origin == old(self).progress(old(ctx)),
                self.stream() == s,
                ctx.text() == text,
                close@ == TokenView::RBrace || close@ == TokenView::RBracket,
                list_items(s, self.progress(ctx), start, close@, comma, items_view(list@))
                    == list_spec(s, origin),
                self.left() < s.left(origin.pos),
            ensures
                self.stream() == s,
                ctx.text() == text,
                close@ == TokenView::RBrace || close@ == TokenView::RBracket,
                list_items(s, self.progress(ctx), start, close@, comma, items_view(list@))
                    == list_spec(s, origin),
                self.left() < s.left(origin.pos),
                s.current(self.pos()).0 == close@,
            decreases self.left(),
        {
            if self.at(&close) {
                break;
            }
            let ghost before = items_view(list@);
            let item = self.parse_item(ctx);
            list.push(item);
            proof {
                assert(items_view(list@) =~= before.push((item_view(item.0), item.1)));
            }
            let at_comma = self.at(&Token::Comma);
            if list.len() != 1 && !self.at(&close) && !self.at(&Token::LineEnd) && at_comma
                != comma {
                self.pull(ctx);
                let span = self.span_here();
                ctx.emit_warning(
                    "inconsistent comma delimiting. use commas to delimit all or no items",
                    span,
                );
            }
            if at_comma {
                comma = true;
                self.next_token(ctx);
            }
            if self.at(&Token::LineEnd) {
                self.pull(ctx);
                let span = self.span_here();
                let wanted = close.describe(false);
                let message = join3("unexpected eol expected list close ( ", wanted.as_str(), " )");
                ctx.emit(LogEntry::new(LogLevel::Error, message, Some(span)));
                return Spanned(List(list, ListKind::BraceComma), start.join(span));
            }
        }
        let is_brace = matches!(close, Token::RBrace);
        let (_, end) = self.expect_token(ctx, close);
        let kind = if is_brace {
            if comma {
                ListKind::BraceComma
            } else {
                ListKind::Brace
            }
        } else {
            if comma {
                ListKind::BracketComma
            } else {
                ListKind::Bracket
            }
        };
        Spanned(List(list, kind), start.join(end))
    }

    /// Takes the symbols of one alternative of a production rule, and gives
    /// them with their span.
    fn parse_group(&mut self, ctx: &mut Context) -> (r: Spanned<ProductionGroup>)
        ensures
            final(self).stream() == old(self).stream(),
            final(ctx).text() == old(ctx).text(),
            ((symbols_view(r.0.0@), r.1), final(self).progress(final(ctx))) == group_spec(
                old(self).stream(),
                old(self).progress(old(ctx)),
            ),
            final(self).left() <= old(self).left(),
    {
        let ghost s = self.stream();
        let ghost text = ctx.text();
        let ghost origin = self.progress(ctx);
        let mut group: Vec<Spanned<Symbol>> = Vec::new();
        proof {
            assert(symbols_view(group@) =~= Seq::empty());
        }
        while !self.at(&Token::LineEnd) && !self.at(&Token::Or)
            invariant
                self.stream() == s,
                ctx.text() == text,
                group_symbols(s, self.progress(ctx), symbols_view(group@)) == group_symbols(
                    s,
                    origin,
                    Seq::empty(),
                ),
                self.left() <= s.left(origin.pos),
            decreases self.left(),
        {
            let ghost before = symbols_view(group@);
            let symbol = self.parse_symbol(ctx);
            group.push(symbol);
            proof {
                assert(symbols_view(group@) =~= before.push((symbol.0@, symbol.1)));
            }
        }
        self.pull(ctx);
        if group.len() == 0 {
            let span = self.span_here();
            ctx.emit_error("cannot have empty production group", span);
            Spanned(ProductionGroup(group), span)
        } else {
            let first = group[0].1;
            let last = group[group.len() - 1].1;
            Spanned(ProductionGroup(group), first.join(last))
        }
    }

    /// Parses a production rule whose first symbol, already taken, is `sym`.
    pub fn parse_production_rule(&mut self, ctx: &mut Context, sym: Spanned<Symbol>) -> (r: Spanned<
        TopLevel,
    >)
        ensures
            final(self).stream() == old(self).stream(),
            final(ctx).text() == old(ctx).text(),
            ((r.0@, r.1), final(self).progress(final(ctx))) == production_spec(
                old(self).stream(),
                old(self).progress(old(ctx)),
                (sym.0@, sym.1),
            ),
            final(self).left() <= old(self).left(),
    {
        let ghost s = self.stream();
        let ghost text = ctx.text();
        let ghost origin = self.progress(ctx);
        let start = sym.1;
        let mut lhs: Vec<Spanned<Symbol>> = Vec::new();
        lhs.push(sym);
        let mut lhs_end = start;
        proof {
            assert(symbols_view(lhs@) =~= seq![(sym.0@, sym.1)]);
        }
        while !self.at(&Token::LSmallArrow) && !self.at(&Token::LineEnd)
            invariant
                self.stream() == s,
                ctx.text() == text,
                lhs_symbols(s, self.progress(ctx), lhs_end, symbols_view(lhs@)) == lhs_symbols(
                    s,
                    origin,
                    start,
                    seq![(sym.0@, sym.1)],
                ),
                self.left() <= s.left(origin.pos),
            decreases self.left(),
        {
            let ghost before = symbols_view(lhs@);
            let symbol = self.parse_symbol(ctx);
            lhs_end = symbol.1;
            lhs.push(symbol);
            proof {
                assert(symbols_view(lhs@) =~= before.push((symbol.0@, symbol.1)));
            }
        }
        self.pull(ctx);
        let lhs_span = start.join(lhs_end);
        let (matched, _) = self.expect_token(ctx, Token::LSmallArrow);
        if !matched {
            let groups: Vec<Spanned<ProductionGroup>> = Vec::new();
            proof {
                assert(groups_view(groups@) =~= Seq::empty());
            }
            return Spanned(
                TopLevel::ProductionRule(
                    Spanned(ProductionGroup(lhs), lhs_span),
                    Spanned(groups, lhs_end),
                ),
                lhs_span,
            );
        }
        let ghost pb = self.progress(ctx);
        let mut groups: Vec<Spanned<ProductionGroup>> = Vec::new();
        proof {
            assert(groups_view(groups@) =~= Seq::empty());
        }
        loop
            invariant_except_break
                groups_spec(s, self.progress(ctx), groups_view(groups@)) == groups_spec(
                    s,
                    pb,
                    Seq::empty(),
                ),
            invariant
                self.stream() == s,
                ctx.text() == text,
                self.left() <= s.left(origin.pos),
            ensures
                self.stream() == s,
                ctx.text() == text,
                (groups_view(groups@), self.progress(ctx)) == groups_spec(s, pb, Seq::empty()),
                groups@.len() > 0,
                self.left() <= s.left(origin.pos),
            decreases self.left(),
        {
            let ghost before = groups_view(groups@);
            let group = self.parse_group(ctx);
            groups.push(group);
            proof {
                assert(groups_view(groups@) =~= before.push((symbols_view(group.0.0@), group.1)));
            }
            if self.at(&Token::Or) {
                self.next_token(ctx);
            } else {
                break;
            }
        }
        let rules_start = groups[0].1;
        let rules_end = groups[groups.len() - 1].1;
        Spanned(
            TopLevel::ProductionRule(
                Spanned(ProductionGroup(lhs), lhs_span),
                Spanned(groups, rules_start.join(rules_end)),
            ),
            start.join(rules_end),
        )
    }

    /// Parses a transition function declaration whose name, already taken,
    /// is `ident` at `start`.
    pub fn parse_transition_function(&mut self, ctx: &mut Context, ident: String, start: Span) -> (r:
        Option<Spanned<TopLevel>>)
        ensures
            final(self).stream() == old(self).stream(),
            final(ctx).text() == old(ctx).text(),
            (element_view(r), final(self).progress(final(ctx))) == transition_spec(
                old(self).stream(),
                old(self).progress(old(ctx)),
                ident@,
                start,
            ),
            final(self).left() <= old(self).left(),
    {
        let tuple = self.parse_tupple(ctx);
        let span = start.join(tuple.1);
        let dest = Spanned((Spanned(ident, start), tuple), span);
        let (matched, _) = self.expect_token(ctx, Token::Eq);
        if !matched {
            return None;
        }
        let item = self.parse_item(ctx);
        let span = start.join(item.1);
        Some(Spanned(TopLevel::TransitionFunc(dest, item), span))
    }

    /// Takes the tokens up to the end of the line, which stays.
    fn skip_to_line_end(&mut self, ctx: &mut Context)
        ensures
            final(self).stream() == old(self).stream(),
            final(ctx).text() == old(ctx).text(),
            final(self).progress(final(ctx)) == skip_line(
                old(self).stream(),
                old(self).progress(old(ctx)),
            ),
            final(self).left() <= old(self).left(),
    {
        while !self.at(&Token::LineEnd)
            invariant
                self.stream() == old(self).stream(),
                ctx.text() == old(ctx).text(),
                skip_line(self.stream(), self.progress(ctx)) == skip_line(
                    old(self).stream(),
                    old(self).progress(old(ctx)),
                ),
                self.left() <= old(self).left(),
            decreases self.left(),
        {
            self.next_token(ctx);
        }
        self.pull(ctx);
    }

    /// Reads the rest of a line that started with the identifier `ident` at
    /// `start`, already taken; `before` is the progress before it was taken.
    fn parse_named_line(
        &mut self,
        ctx: &mut Context,
        ident: String,
        start: Span,
        before: Ghost<Progress>,
    ) -> (r: Option<Spanned<TopLevel>>)
        requires
            0 <= before@.pos < old(self).stream().tokens.len(),
            old(self).stream().tokens[before@.pos] == (TokenView::Ident(ident@), start),
            old(self).progress(old(ctx)) == old(self).stream().pull(
                old(self).stream().moved(before@),
            ),
        ensures
            final(self).stream() == old(self).stream(),
            final(ctx).text() == old(ctx).text(),
            (element_view(r), final(self).progress(final(ctx))) == line_spec(
                old(self).stream(),
                before@,
            ),
            final(self).left() <= old(self).left(),
    {
        if self.at(&Token::LPar) {
            self.parse_transition_function(ctx, ident, start)
        } else if self.at(&Token::Eq) {
            self.expect_token(ctx, Token::Eq);
            let item = self.parse_item(ctx);
            let span = start.join(item.1);
            Some(Spanned(TopLevel::Item(Spanned(ident, start), item), span))
        } else if self.at(&Token::LSmallArrow) || self.at_ident() || self.at(&Token::Tilde) {
            let sym = self.parse_as_symbol(ctx, Spanned(Token::Ident(ident), start));
            let rule = self.parse_production_rule(ctx, sym);
            Some(rule)
        } else {
            let found = self.look();
            let message = unexpected_message(&found.0, "'=' | '->'");
            ctx.emit(LogEntry::new(LogLevel::Error, message, Some(found.1)));
            self.skip_to_line_end(ctx);
            None
        }
    }

    /// Reads the rest of a line that started with `next` at `start`, already
    /// taken, where `next` is no identifier; `before` is the progress before
    /// it was taken.
    fn parse_other_line(
        &mut self,
        ctx: &mut Context,
        next: Token,
        start: Span,
        before: Ghost<Progress>,
    ) -> (r: Option<Spanned<TopLevel>>)
        requires
            !(next@ is Ident),
            0 <= before@.pos < old(self).stream().tokens.len(),
            old(self).stream().tokens[before@.pos] == (next@, start),
            old(self).progress(old(ctx)) == old(self).stream().pull(
                old(self).stream().moved(before@),
            ),
        ensures
            final(self).stream() == old(self).stream(),
            final(ctx).text() == old(ctx).text(),
            (element_view(r), final(self).progress(final(ctx))) == line_spec(
                old(self).stream(),
                before@,
            ),
            final(self).left() <= old(self).left(),
            next@ == TokenView::LineEnd ==> final(self).left() < old(self).left(),
    {
        match next {
            Token::LineEnd => {
                self.advance_line(ctx);
                None
            },
            Token::Tilde => {
                if self.at(&Token::LSmallArrow) || self.at_ident() || self.at(&Token::Tilde) {
                    let sym = self.parse_as_symbol(ctx, Spanned(Token::Tilde, start));
                    let rule = self.parse_production_rule(ctx, sym);
                    Some(rule)
                } else {
                    let wanted = Token::Ident(String::new()).describe(false);
                    let message = unexpected_message(&Token::Tilde, wanted.as_str());
                    ctx.emit(LogEntry::new(LogLevel::Error, message, Some(start)));
                    self.skip_to_line_end(ctx);
                    None
                }
            },
            other => {
                let wanted = Token::Ident(String::new()).describe(false);
                let message = unexpected_message(&other, wanted.as_str());
                ctx.emit(LogEntry::new(LogLevel::Error, message, Some(start)));
                self.skip_to_line_end(ctx);
                None
            },
        }
    }

    /// Reads the rest of a line that started with `next`, already taken;
    /// `before` is the progress before it was taken.
    fn parse_line(
        &mut self,
        ctx: &mut Context,
        next: Spanned<Token>,
        before: Ghost<Progress>,
    ) -> (r: Option<Spanned<TopLevel>>)
        requires
            0 <= before@.pos < old(self).stream().tokens.len(),
            old(self).stream().tokens[before@.pos] == (next.0@, next.1),
            old(self).progress(old(ctx)) == old(self).stream().moved(before@),
        ensures
            final(self).stream() == old(self).stream(),
            final(ctx).text() == old(ctx).text(),
            (element_view(r), final(self).progress(final(ctx))) == line_spec(
                old(self).stream(),
                before@,
            ),
            final(self).left() < old(self).stream().left(before@.pos),
    {
        self.pull(ctx);
        let Spanned(token, start) = next;
        match token {
            Token::Ident(ident) => self.parse_named_line(ctx, ident, start, before),
            other => self.parse_other_line(ctx, other, start, before),
        }
    }

    /// Parses the next declaration, if the text holds one more.
    pub fn next_element(&mut self, ctx: &mut Context) -> (r: Option<Spanned<TopLevel>>)
        ensures
            final(self).stream() == old(self).stream(),
            final(ctx).text() == old(ctx).text(),
            (element_view(r), final(self).progress(final(ctx))) == element_spec(
                old(self).stream(),
                old(self).progress(old(ctx)),
            ),
            final(self).left() <= old(self).left(),
            r is Some ==> final(self).left() < old(self).left(),
    {
        let ghost s = self.stream();
        let ghost text = ctx.text();
        let ghost origin = self.progress(ctx);
        let mut result: Option<Spanned<TopLevel>> = None;
        loop
            invariant_except_break
                element_spec(s, self.progress(ctx)) == element_spec(s, origin),
            invariant
                s == old(self).stream(),
                text == old(ctx).text(),
                origin == old(self).progress(old(ctx)),
                self.stream() == s,
                ctx.text() == text,
                self.left() <= s.left(origin.pos),
            ensures
                self.stream() == s,
                ctx.text() == text,
                (element_view(result), advance_spec(s, self.progress(ctx))) == element_spec(s, origin),
                self.left() < s.left(origin.pos),
                result is Some,
            decreases self.left(),
        {
            let ghost here = self.progress(ctx);
            let next = match self.next_token_optional(ctx) {
                Some(found) => found,
                None => {
                    return None;
                },
            };
            let found = self.parse_line(ctx, next, Ghost(here));
            if found.is_some() {
                result = found;
                break;
            }
        }
        self.advance_line(ctx);
        result
    }

    /// Parses every declaration that is left.
    pub fn parse_elements(&mut self, ctx: &mut Context) -> (r: Vec<Spanned<TopLevel>>)
        ensures
            final(self).stream() == old(self).stream(),
            final(ctx).text() == old(ctx).text(),
            (elements_view(r@), final(self).progress(final(ctx))) == elements_spec(
                old(self).stream(),
                old(self).progress(old(ctx)),
            ),
    {
        let ghost s = self.stream();
        let ghost text = ctx.text();
        let ghost origin = self.progress(ctx);
        let mut out: Vec<Spanned<TopLevel>> = Vec::new();
        proof {
            assert(elements_view(out@) =~= Seq::empty());
        }
        loop
            invariant_except_break
                elements_spec(s, origin) == (
                    elements_view(out@) + elements_spec(s, self.progress(ctx)).0,
                    elements_spec(s, self.progress(ctx)).1,
                ),
            invariant
                self.stream() == s,
                ctx.text() == text,
            ensures
                self.stream() == s,
                ctx.text() == text,
                elements_spec(s, origin) == (elements_view(out@), self.progress(ctx)),
            decreases self.left(),
        {
            let ghost before = elements_view(out@);
            let ghost here = self.progress(ctx);
            match self.next_element(ctx) {
                Some(element) => {
                    out.push(element);
                    proof {
                        let item = (element.0@, element.1);
                        let rest = elements_spec(s, self.progress(ctx)).0;
                        assert(elements_view(out@) =~= before.push(item));
                        assert(before + (seq![item] + rest) =~= before.push(item) + rest);
                    }
                },
                None => {
                    proof {
                        assert(before + Seq::empty() =~= before);
                    }
                    break;
                },
            }
        }
        out
    }
}

} // verus!
