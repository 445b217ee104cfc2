//! What a host such as an editor wants of the loader: the tokens of a text
//! for highlighting, and the log of a compilation, both with positions in
//! UTF-16 code units.

use vstd::prelude::*;
use vstd::string::*;

use crate::loader::lexer::{
    lemma_next_lexeme_bounds, lemma_skip_blanks_bounds, lemma_skip_blanks_twice, next_lexeme,
    Error, Lexer, Token, TokenView,
};
use crate::loader::log::{LogLevel, Note};
use crate::loader::render::{index_of, render_spec};
use crate::loader::{machine_view, parse_universal, universal_spec, Context, Machine};
use crate::text::{
    chars_of, is_space, is_word, lemma_encoded_len, lemma_utf16_len_prefix, lemma_utf16_len_step,
    lemma_utf8_len_prefix, len_utf16, space, utf16_len, utf8_len,
};

verus! {

/// How a token is to be shown.
#[derive(Clone, Copy, Debug, PartialEq, Eq, Structural)]
pub enum Kind {
    Ident,
    Keyword,
    Error,
    Comment,
    Punc,
    LPar,
    LBrace,
    LBracket,
    RPar,
    RBrace,
    RBracket,
}

/// A token for highlighting: where it starts and ends, in UTF-16 code
/// units, how deep it stands in parentheses, braces and brackets, and how it
/// is to be shown.
#[derive(Clone, Copy, Debug, PartialEq, Eq, Structural)]
pub struct Tok {
    pub start: usize,
    pub end: usize,
    pub scope_level: usize,
    pub kind: Kind,
}

/// Whether only white space stands between the start of the line and the
/// character at index `i`.
pub open spec fn starts_line(input: Seq<char>, i: int) -> bool
    decreases i,
{
    if i <= 0 || i > input.len() {
        true
    } else if input[i - 1] == '\n' {
        true
    } else {
        is_space(input[i - 1]) && starts_line(input, i - 1)
    }
}

/// Whether an identifier is one of the words that are shown as keywords
/// wherever they stand.
pub open spec fn is_keyword(name: Seq<char>) -> bool {
    ||| name == "Ɛ"@
    ||| name == "epsilon"@
    ||| name == "δ"@
    ||| name == "delta"@
    ||| name == "Γ"@
    ||| name == "gamma"@
    ||| name == "γ"@
    ||| name == "Σ"@
    ||| name == "sigma"@
}

/// How a token, or a lexical error, that starts at index `start` is shown.
/// An identifier is a keyword if it is the first thing on its line or one of
/// the keywords.
pub open spec fn kind_of(input: Seq<char>, lexeme: Result<TokenView, Error>, start: int) -> Kind {
    match lexeme {
        Err(_) => Kind::Error,
        Ok(token) => match token {
            TokenView::LPar => Kind::LPar,
            TokenView::RPar => Kind::RPar,
            TokenView::LBrace => Kind::LBrace,
            TokenView::RBrace => Kind::RBrace,
            TokenView::LBracket => Kind::LBracket,
            TokenView::RBracket => Kind::RBracket,
            TokenView::Tilde => Kind::Keyword,
            TokenView::Comment(_) => Kind::Comment,
            TokenView::Ident(name) => if starts_line(input, start) || is_keyword(name) {
                Kind::Keyword
            } else {
                Kind::Ident
            },
            _ => Kind::Punc,
        },
    }
}

/// Whether a token opens a scope.
pub open spec fn opens(kind: Kind) -> bool {
    kind == Kind::LPar || kind == Kind::LBrace || kind == Kind::LBracket
}

/// Whether a token closes a scope.
pub open spec fn closes(kind: Kind) -> bool {
    kind == Kind::RPar || kind == Kind::RBrace || kind == Kind::RBracket
}

/// The depth behind a token of kind `kind` that stands at depth `scope`.
pub open spec fn scope_after(kind: Kind, scope: usize) -> usize {
    if opens(kind) {
        if scope < usize::MAX {
            (scope + 1) as usize
        } else {
            scope
        }
    } else if closes(kind) {
        if scope > 0 {
            (scope - 1) as usize
        } else {
            scope
        }
    } else {
        scope
    }
}

/// The depth that a token of kind `kind` is shown at where the depth before
/// it is `scope`: an opening token stands outside the scope that it opens,
/// and a closing token outside the scope that it closes.
pub open spec fn scope_of(kind: Kind, scope: usize) -> usize {
    if opens(kind) {
        if scope < usize::MAX {
            scope
        } else {
            (scope - 1) as usize
        }
    } else {
        scope_after(kind, scope)
    }
}

/// The tokens for highlighting from index `i` on, where the depth is
/// `scope`.
pub open spec fn lex_spec(input: Seq<char>, i: int, scope: usize) -> Seq<Tok>
    decreases input.len() - i,
{
    match next_lexeme(input, i) {
        Some((lexeme, start, end)) => if i <= start < end <= input.len() {
            let kind = kind_of(input, lexeme, start);
            seq![
                Tok {
                    start: utf16_len(input.take(start)) as usize,
                    end: utf16_len(input.take(end)) as usize,
                    scope_level: scope_of(kind, scope),
                    kind,
                },
            ] + lex_spec(input, end, scope_after(kind, scope))
        } else {
            Seq::empty()
        },
        None => Seq::empty(),
    }
}

/// Whether only white space stands between the start of the line and the
/// character at index `i`.
fn at_line_start(chars: &Vec<char>, i: usize) -> (b: bool)
    requires
        i <= chars.len(),
    ensures
        b == starts_line(chars@, i as int),
{
    let mut k: usize = i;
    while k > 0
        invariant
            0 <= k <= i <= chars.len(),
            starts_line(chars@, i as int) == starts_line(chars@, k as int),
        decreases k,
    {
        let c = chars[k - 1];
        if c == '\n' {
            return true;
        }
        if !space(c) {
            return false;
        }
        k -= 1;
    }
    true
}

/// Whether an identifier is one of the words that are shown as keywords
/// wherever they stand.
fn keyword(name: &String) -> (b: bool)
    ensures
        b == is_keyword(name@),
{
    is_word(name, "Ɛ") || is_word(name, "epsilon") || is_word(name, "δ") || is_word(name, "delta")
        || is_word(name, "Γ") || is_word(name, "gamma") || is_word(name, "γ") || is_word(name, "Σ")
        || is_word(name, "sigma")
}

/// How a token, or a lexical error, that starts at index `start` is shown.
fn classify(chars: &Vec<char>, lexeme: &Result<Token, Error>, start: usize) -> (r: Kind)
    requires
        start <= chars.len(),
    ensures
        r == kind_of(chars@, crate::loader::lexer::lexeme_view(*lexeme), start as int),
{
    match lexeme {
        Err(_) => Kind::Error,
        Ok(token) => match token {
            Token::LPar => Kind::LPar,
            Token::RPar => Kind::RPar,
            Token::LBrace => Kind::LBrace,
            Token::RBrace => Kind::RBrace,
            Token::LBracket => Kind::LBracket,
            Token::RBracket => Kind::RBracket,
            Token::Tilde => Kind::Keyword,
            Token::Comment(_) => Kind::Comment,
            Token::Ident(name) => if at_line_start(chars, start) || keyword(name) {
                Kind::Keyword
            } else {
                Kind::Ident
            },
            _ => Kind::Punc,
        },
    }
}

/// The tokens of `input` for highlighting, lexical errors among them.
pub fn lex(input: &str) -> (r: Vec<Tok>)
    ensures
        r@ == lex_spec(input@, 0, 0),
{
    let chars = chars_of(input);
    let size = input.as_bytes().len();
    let mut lexer = Lexer::new(input);
    let mut out: Vec<Tok> = Vec::new();
    let mut scope: usize = 0;
    let mut at: usize = 0;
    let mut units: usize = 0;
    let ghost src = input@;
    proof {
        lemma_encoded_len(src);
        assert(src.take(0) =~= Seq::<char>::empty());
        assert(src.take(src.len() as int) =~= src);
    }
    loop
        invariant_except_break
            lex_spec(src, 0, 0) == out@ + lex_spec(src, lexer.cursor(), scope),
        invariant
            src == input@,
            chars@ == src,
            lexer.source() == src,
            utf8_len(src) <= usize::MAX,
            0 <= at <= lexer.cursor() <= src.len(),
            units == utf16_len(src.take(at as int)),
        ensures
            lex_spec(src, 0, 0) == out@,
        decreases src.len() - lexer.cursor(),
    {
        let ghost here = lexer.cursor();
        let ghost before = out@;
        proof {
            lemma_skip_blanks_bounds(src, here);
            lemma_skip_blanks_twice(src, here);
            lemma_next_lexeme_bounds(src, here);
        }
        lexer.skip();
        let start = lexer.index();
        let found = match lexer.next() {
            Some(found) => found,
            None => {
                proof {
                    assert(before + Seq::<Tok>::empty() =~= before);
                }
                break;
            },
        };
        let end = lexer.index();
        while at < start
            invariant
                chars@ == src,
                utf8_len(src) <= usize::MAX,
                0 <= at <= start <= src.len(),
                units == utf16_len(src.take(at as int)),
            decreases start - at,
        {
            proof {
                lemma_utf16_len_step(src, at as int);
                lemma_utf16_len_prefix(src, at + 1, src.len() as int);
                lemma_utf8_len_prefix(src, at + 1, src.len() as int);
                assert(src.take(src.len() as int) =~= src);
            }
            units = units + len_utf16(chars[at]);
            at += 1;
        }
        let first = units;
        while at < end
            invariant
                chars@ == src,
                utf8_len(src) <= usize::MAX,
                0 <= at <= end <= src.len(),
                units == utf16_len(src.take(at as int)),
            decreases end - at,
        {
            proof {
                lemma_utf16_len_step(src, at as int);
                lemma_utf16_len_prefix(src, at + 1, src.len() as int);
                lemma_utf8_len_prefix(src, at + 1, src.len() as int);
                assert(src.take(src.len() as int) =~= src);
            }
            units = units + len_utf16(chars[at]);
            at += 1;
        }
        let kind = classify(&chars, &found.0, start);
        let ghost scope0 = scope;
        let opening = matches!(kind, Kind::LPar | Kind::LBrace | Kind::LBracket);
        let closing = matches!(kind, Kind::RPar | Kind::RBrace | Kind::RBracket);
        let level = if opening {
            scope = scope.saturating_add(1);
            scope.saturating_sub(1)
        } else if closing {
            scope = scope.saturating_sub(1);
            scope
        } else {
            scope
        };
        let tok = Tok { start: first, end: units, scope_level: level, kind };
        out.push(tok);
        proof {
            let rest = lex_spec(src, end as int, scope);
            assert(scope == scope_after(kind, scope0));
            assert(level == scope_of(kind, scope0));
            assert(lex_spec(src, here, scope0) == seq![tok] + rest);
            assert(before + (seq![tok] + rest) =~= before.push(tok) + rest);
        }
    }
    out
}


/// One entry of the log of a compilation, with its span in UTF-16 code
/// units.
#[derive(Clone, Debug, PartialEq, Eq)]
pub struct CompileLog {
    pub level: LogLevel,
    pub message: String,
    pub start: Option<usize>,
    pub end: Option<usize>,
}

/// What a compilation gives: the log, the log as it is shown on a terminal,
/// and the machine if there is one.
#[derive(Debug)]
pub struct CompileResult {
    pub log: Vec<CompileLog>,
    pub ansi_log: String,
    pub machine: Option<Machine>,
}

/// The number of UTF-16 code units before the character at the byte offset
/// `b`.
pub open spec fn utf16_offset(src: Seq<char>, b: usize) -> nat {
    utf16_len(src.take(index_of(src, b as nat, 0)))
}

/// Whether `entry` is the log entry `notes` as a host sees it: the message
/// itself without its notes, its span in UTF-16 code units.
pub open spec fn is_compile_log(src: Seq<char>, entry: CompileLog, notes: Seq<Note>) -> bool {
    &&& entry.level == notes[0].level
    &&& entry.message@ == notes[0].message
    &&& entry.start == match notes[0].span {
        Some(span) => Some(utf16_offset(src, span.0) as usize),
        None => None,
    }
    &&& entry.end == match notes[0].span {
        Some(span) => Some(utf16_offset(src, span.1) as usize),
        None => None,
    }
}

/// The first `n` entries of a log as they are shown on a terminal, one
/// after the other.
pub open spec fn ansi_spec(src: Seq<char>, log: Seq<Seq<Note>>, n: int) -> Seq<char>
    decreases n,
{
    if n <= 0 {
        Seq::empty()
    } else {
        ansi_spec(src, log, n - 1) + render_spec(src, log[n - 1])
    }
}

/// The number of UTF-16 code units before the character at the byte offset
/// `b`.
fn utf16_at(chars: &Vec<char>, b: usize) -> (r: usize)
    requires
        utf8_len(chars@) <= usize::MAX,
    ensures
        r == utf16_offset(chars@, b),
{
    let ghost src = chars@;
    let mut i: usize = 0;
    let mut at: usize = 0;
    let mut units: usize = 0;
    proof {
        assert(src.take(0) =~= Seq::<char>::empty());
    }
    while i < chars.len() && at < b
        invariant
            0 <= i <= chars.len(),
            src == chars@,
            utf8_len(src) <= usize::MAX,
            at == crate::loader::lexer::offset(src, i as int),
            units == utf16_len(src.take(i as int)),
            index_of(src, b as nat, 0) == index_of(src, b as nat, i as int),
        decreases chars.len() - i,
    {
        proof {
            crate::text::lemma_utf8_len_step(src, i as int);
            lemma_utf8_len_prefix(src, i + 1, src.len() as int);
            lemma_utf16_len_step(src, i as int);
            lemma_utf16_len_prefix(src, i + 1, src.len() as int);
            assert(src.take(src.len() as int) =~= src);
        }
        at = at + crate::text::len_utf8(chars[i]);
        units = units + len_utf16(chars[i]);
        i += 1;
    }
    units
}

/// Compiles `input` and gives what a host shows of it: the machine if there
/// is one, the entries of the log with their spans in UTF-16 code units, and
/// the log as it is shown on a terminal.
pub fn compile(input: &str) -> (r: CompileResult)
    ensures
        ({
            let (machine, log) = universal_spec(input@, Seq::empty());
            &&& machine_view(r.machine) == machine
            &&& r.log@.len() == log.len()
            &&& forall|i: int|
                0 <= i < log.len() ==> is_compile_log(input@, #[trigger] r.log@[i], log[i])
            &&& r.ansi_log@ == ansi_spec(input@, log, log.len() as int)
        }),
{
    let mut ctx = Context::new(input);
    let machine = parse_universal(&mut ctx);
    let ghost log = ctx.log();
    let chars = chars_of(input);
    let size = input.as_bytes().len();
    proof {
        lemma_encoded_len(input@);
    }
    let mut ansi_log = String::new();
    let displays = ctx.logs_display();
    let mut i: usize = 0;
    while i < displays.len()
        invariant
            0 <= i <= displays.len(),
            displays@.len() == log.len(),
            forall|j: int|
                0 <= j < displays@.len() ==> (#[trigger] displays@[j]).src@ == input@
                    && displays@[j].entry@ == log[j],
            ansi_log@ == ansi_spec(input@, log, i as int),
        decreases displays.len() - i,
    {
        let shown = displays[i].render();
        ansi_log.append(shown.as_str());
        i += 1;
    }
    let logs = ctx.into_logs();
    let entries = logs.entries();
    let mut out: Vec<CompileLog> = Vec::new();
    let mut k: usize = 0;
    while k < entries.len()
        invariant
            0 <= k <= entries.len(),
            chars@ == input@,
            utf8_len(input@) <= usize::MAX,
            crate::loader::log::views(entries@) == log,
            out@.len() == k,
            forall|j: int| 0 <= j < k ==> is_compile_log(input@, #[trigger] out@[j], log[j]),
        decreases entries.len() - k,
    {
        let entry = &entries[k];
        assert(log[k as int] == entry@);
        assert(entry@[0] == entry.head());
        let (start, end) = match entry.span {
            Some(span) => (Some(utf16_at(&chars, span.0)), Some(utf16_at(&chars, span.1))),
            None => (None, None),
        };
        out.push(CompileLog { level: entry.level, message: entry.message.clone(), start, end });
        k += 1;
    }
    CompileResult { log: out, ansi_log, machine }
}

} // verus!
