//! Rendering of log entries for a terminal: each message under a coloured
//! label, and below it the source lines that its span covers, numbered, with
//! `~` under the covered columns.

use vstd::prelude::*;
use vstd::string::*;

use crate::loader::lexer::{lemma_line_end_bounds, line_end, offset};
use crate::loader::log::{LogEntry, LogLevel, Note};
use crate::loader::Span;
use crate::text::{
    chars_of, lemma_encoded_len, lemma_utf8_len_prefix, lemma_utf8_len_step, len_utf8, string_of,
    utf8_len,
};

verus! {

/// A log entry together with the source text that its spans point into.
pub struct LogEntryDisplay<'a> {
    pub src: &'a str,
    pub entry: &'a LogEntry,
}

/// The coloured label of a severity, up to the message.
pub open spec fn label(level: LogLevel) -> Seq<char> {
    match level {
        LogLevel::Help => "\x1b[1m\x1b[32mhelp\x1b[0;22m\x1b[1m: "@,
        LogLevel::Info => "\x1b[1m\x1b[36minfo\x1b[0;22m\x1b[1m: "@,
        LogLevel::Warning => "\x1b[1m\x1b[33mwarning\x1b[0;22m\x1b[1m: "@,
        LogLevel::Error => "\x1b[1m\x1b[31merror\x1b[0;22m\x1b[1m: "@,
    }
}

/// The character of a decimal digit.
pub open spec fn digit(d: nat) -> char {
    if d == 0 {
        '0'
    } else if d == 1 {
        '1'
    } else if d == 2 {
        '2'
    } else if d == 3 {
        '3'
    } else if d == 4 {
        '4'
    } else if d == 5 {
        '5'
    } else if d == 6 {
        '6'
    } else if d == 7 {
        '7'
    } else if d == 8 {
        '8'
    } else {
        '9'
    }
}

/// A number in decimal digits.
pub open spec fn decimal(n: nat) -> Seq<char>
    decreases n,
{
    if n < 10 {
        seq![digit(n)]
    } else {
        decimal(n / 10).push(digit(n % 10))
    }
}

/// `n` spaces.
pub open spec fn spaces(n: nat) -> Seq<char> {
    Seq::new(n, |i: int| ' ')
}

/// A number in decimal digits, with spaces before it up to `width`
/// characters.
pub open spec fn numbered(n: nat, width: nat) -> Seq<char> {
    let digits = decimal(n);
    if digits.len() < width {
        spaces((width - digits.len()) as nat) + digits
    } else {
        digits
    }
}

/// The number of characters that start before the byte offset `b`, counted
/// from index `i` on: the index of the character at that offset.
pub open spec fn index_of(src: Seq<char>, b: nat, i: int) -> int
    decreases src.len() - i,
{
    if 0 <= i < src.len() && offset(src, i) < b {
        index_of(src, b, i + 1)
    } else {
        i
    }
}

/// The index at which the line of the character at index `i` begins.
pub open spec fn line_begin(src: Seq<char>, i: int) -> int
    decreases i,
{
    if i <= 0 || i > src.len() {
        0
    } else if src[i - 1] == '\n' {
        i
    } else {
        line_begin(src, i - 1)
    }
}

/// The number of line feeds among the first `i` characters.
pub open spec fn newlines(src: Seq<char>, i: int) -> nat
    decreases i,
{
    if i <= 0 || i > src.len() {
        0
    } else if src[i - 1] == '\n' {
        newlines(src, i - 1) + 1
    } else {
        newlines(src, i - 1)
    }
}

/// The index at which the excerpt for a span that ends at the character at
/// index `q` ends: at `q` if a line ends right before it, else at the end of
/// the line of `q`.
pub open spec fn excerpt_end(src: Seq<char>, q: int) -> int {
    if 0 < q <= src.len() && src[q - 1] == '\n' {
        q
    } else {
        line_end(src, q)
    }
}

/// The number of lines between the indices `i`, where a line begins, and
/// `end`.
pub open spec fn line_count(src: Seq<char>, i: int, end: int) -> nat
    decreases src.len() - i,
{
    if 0 <= i < end <= src.len() {
        proof {
            lemma_line_end_bounds(src, i);
        }
        if line_end(src, i) < end {
            1 + line_count(src, line_end(src, i) + 1, end)
        } else {
            1
        }
    } else {
        0
    }
}

/// A line as it is shown: each tab as one space.
pub open spec fn shown(line: Seq<char>) -> Seq<char> {
    Seq::new(
        line.len(),
        |k: int|
            if line[k] == '\t' {
                ' '
            } else {
                line[k]
            },
    )
}

/// The markers under the line from index `i` to index `j`: a `~` under each
/// character whose byte offset lies in the span, a space under every other.
pub open spec fn markers(src: Seq<char>, i: int, j: int, span: Span) -> Seq<char> {
    Seq::new(
        (j - i) as nat,
        |k: int|
            if span.0 <= offset(src, i + k) < span.1 {
                '~'
            } else {
                ' '
            },
    )
}

/// One line of an excerpt, from index `i` to index `j`: the number and the
/// line, and below it the markers.
pub open spec fn excerpt_line(src: Seq<char>, i: int, j: int, number: nat, width: nat, span: Span) -> Seq<
    char,
> {
    "\x1b[1m\x1b[36m"@ + numbered(number, width) + ": \x1b[0;22m"@ + shown(src.subrange(i, j))
        + "\n\x1b[1m\x1b[36m"@ + spaces(width + 2) + markers(src, i, j, span) + "\x1b[0;22m\n"@
}

/// The lines of an excerpt between the indices `i`, where a line begins,
/// and `end`, numbered from `number` on.
pub open spec fn excerpt_lines(
    src: Seq<char>,
    i: int,
    end: int,
    number: nat,
    width: nat,
    span: Span,
) -> Seq<char>
    decreases src.len() - i,
{
    if 0 <= i < end <= src.len() {
        proof {
            lemma_line_end_bounds(src, i);
        }
        let j = line_end(src, i);
        if j < end {
            excerpt_line(src, i, j, number, width, span) + excerpt_lines(
                src,
                j + 1,
                end,
                number + 1,
                width,
                span,
            )
        } else {
            excerpt_line(src, i, j, number, width, span)
        }
    } else {
        Seq::empty()
    }
}

/// The excerpt for a span: the lines from the one that the span starts in to
/// the one that it ends in, numbered from the start of the text, each with
/// markers under what the span covers. The numbers are as wide as the last
/// of them.
pub open spec fn excerpt(src: Seq<char>, span: Span) -> Seq<char> {
    let begin = line_begin(src, index_of(src, span.0 as nat, 0));
    let end = excerpt_end(src, index_of(src, span.1 as nat, 0));
    let first = newlines(src, begin) + 1;
    let count = line_count(src, begin, end);
    let last = if count > 0 {
        (first + count - 1) as nat
    } else {
        first
    };
    excerpt_lines(src, begin, end, first, decimal(last).len(), span)
}

/// One message as it is shown: the label, the message, and the excerpt if
/// the message has a span.
pub open spec fn block(src: Seq<char>, note: Note) -> Seq<char> {
    label(note.level) + note.message + "\x1b[0;22m\n"@ + match note.span {
        Some(span) => excerpt(src, span),
        None => Seq::empty(),
    }
}

/// A log entry as it is shown: the message and, right behind it, each of its
/// notes.
pub open spec fn render_spec(src: Seq<char>, notes: Seq<Note>) -> Seq<char>
    decreases notes.len(),
{
    if notes.len() == 0 {
        Seq::empty()
    } else {
        block(src, notes[0]) + render_spec(src, notes.drop_first())
    }
}

proof fn lemma_index_of_bounds(src: Seq<char>, b: nat, i: int)
    requires
        0 <= i <= src.len(),
    ensures
        i <= index_of(src, b, i) <= src.len(),
    decreases src.len() - i,
{
    if i < src.len() && offset(src, i) < b {
        lemma_index_of_bounds(src, b, i + 1);
    }
}

proof fn lemma_line_begin_bounds(src: Seq<char>, i: int)
    requires
        0 <= i <= src.len(),
    ensures
        0 <= line_begin(src, i) <= i,
    decreases i,
{
    if i > 0 && src[i - 1] != '\n' {
        lemma_line_begin_bounds(src, i - 1);
    }
}

/// Adds the characters of `text` to `out`.
fn put(out: &mut Vec<char>, text: &str)
    ensures
        final(out)@ == old(out)@ + text@,
{
    let chars = chars_of(text);
    let ghost before = out@;
    let mut i: usize = 0;
    while i < chars.len()
        invariant
            0 <= i <= chars.len(),
            chars@ == text@,
            out@ =~= before + text@.take(i as int),
        decreases chars.len() - i,
    {
        out.push(chars[i]);
        i += 1;
    }
    assert(text@.take(chars.len() as int) =~= text@);
}

/// Adds `n` spaces to `out`.
fn put_spaces(out: &mut Vec<char>, n: usize)
    ensures
        final(out)@ == old(out)@ + spaces(n as nat),
{
    let ghost before = out@;
    let mut i: usize = 0;
    while i < n
        invariant
            0 <= i <= n,
            out@ =~= before + spaces(i as nat),
        decreases n - i,
    {
        out.push(' ');
        i += 1;
    }
}

/// The character of a decimal digit.
fn digit_char(d: u128) -> (c: char)
    requires
        d < 10,
    ensures
        c == digit(d as nat),
{
    if d == 0 {
        '0'
    } else if d == 1 {
        '1'
    } else if d == 2 {
        '2'
    } else if d == 3 {
        '3'
    } else if d == 4 {
        '4'
    } else if d == 5 {
        '5'
    } else if d == 6 {
        '6'
    } else if d == 7 {
        '7'
    } else if d == 8 {
        '8'
    } else {
        '9'
    }
}

/// The decimal digits of `n`.
fn digits(n: u128) -> (r: Vec<char>)
    ensures
        r@ == decimal(n as nat),
        r@.len() >= 1,
    decreases n,
{
    if n < 10 {
        let mut r: Vec<char> = Vec::new();
        r.push(digit_char(n));
        assert(r@ =~= seq![digit(n as nat)]);
        r
    } else {
        let mut r = digits(n / 10);
        r.push(digit_char(n % 10));
        r
    }
}

/// Adds `n` in decimal digits to `out`, with spaces before it up to `width`
/// characters.
fn put_number(out: &mut Vec<char>, n: u128, width: usize)
    ensures
        final(out)@ == old(out)@ + numbered(n as nat, width as nat),
{
    let ghost before = out@;
    let text = digits(n);
    if text.len() < width {
        put_spaces(out, width - text.len());
    }
    let ghost mid = out@;
    let mut i: usize = 0;
    while i < text.len()
        invariant
            0 <= i <= text.len(),
            out@ =~= mid + text@.take(i as int),
        decreases text.len() - i,
    {
        out.push(text[i]);
        i += 1;
    }
    assert(text@.take(text.len() as int) =~= text@);
    assert(out@ =~= before + numbered(n as nat, width as nat));
}

/// The source text with the byte offset of each index, for one rendering.
struct Source {
    chars: Vec<char>,
}

impl Source {
    spec fn fits(&self) -> bool {
        utf8_len(self.chars@) <= usize::MAX
    }

    /// The index of the character at the byte offset `b`.
    fn find(&self, b: usize) -> (r: usize)
        requires
            self.fits(),
        ensures
            r == index_of(self.chars@, b as nat, 0),
            r <= self.chars.len(),
    {
        let mut i: usize = 0;
        let mut at: usize = 0;
        proof {
            assert(self.chars@.take(0) =~= Seq::<char>::empty());
            lemma_index_of_bounds(self.chars@, b as nat, 0);
        }
        while i < self.chars.len() && at < b
            invariant
                0 <= i <= self.chars.len(),
                self.fits(),
                at == offset(self.chars@, i as int),
                index_of(self.chars@, b as nat, 0) == index_of(self.chars@, b as nat, i as int),
            decreases self.chars.len() - i,
        {
            proof {
                lemma_utf8_len_step(self.chars@, i as int);
                lemma_utf8_len_prefix(self.chars@, i + 1, self.chars@.len() as int);
                assert(self.chars@.take(self.chars@.len() as int) =~= self.chars@);
            }
            at = at + len_utf8(self.chars[i]);
            i += 1;
        }
        i
    }

    /// The byte offset of the character at index `i`.
    fn offset_of(&self, i: usize) -> (r: usize)
        requires
            self.fits(),
            i <= self.chars.len(),
        ensures
            r == offset(self.chars@, i as int),
    {
        let mut k: usize = 0;
        let mut at: usize = 0;
        proof {
            assert(self.chars@.take(0) =~= Seq::<char>::empty());
        }
        while k < i
            invariant
                0 <= k <= i <= self.chars.len(),
                self.fits(),
                at == offset(self.chars@, k as int),
            decreases i - k,
        {
            proof {
                lemma_utf8_len_step(self.chars@, k as int);
                lemma_utf8_len_prefix(self.chars@, k + 1, self.chars@.len() as int);
                assert(self.chars@.take(self.chars@.len() as int) =~= self.chars@);
            }
            at = at + len_utf8(self.chars[k]);
            k += 1;
        }
        at
    }

    /// The index at which the line of the character at index `i` begins.
    fn begin_of_line(&self, i: usize) -> (r: usize)
        requires
            i <= self.chars.len(),
        ensures
            r == line_begin(self.chars@, i as int),
            r <= i,
    {
        let mut k: usize = i;
        while k > 0 && self.chars[k - 1] != '\n'
            invariant
                0 <= k <= i <= self.chars.len(),
                line_begin(self.chars@, i as int) == line_begin(self.chars@, k as int),
            decreases k,
        {
            k -= 1;
        }
        k
    }

    /// The index of the first line feed from index `i` on.
    fn end_of_line(&self, i: usize) -> (r: usize)
        requires
            i <= self.chars.len(),
        ensures
            r == line_end(self.chars@, i as int),
            i <= r <= self.chars.len(),
    {
        let mut k: usize = i;
        while k < self.chars.len() && self.chars[k] != '\n'
            invariant
                0 <= i <= k <= self.chars.len(),
                line_end(self.chars@, i as int) == line_end(self.chars@, k as int),
            decreases self.chars.len() - k,
        {
            k += 1;
        }
        k
    }

    /// The number of line feeds among the first `i` characters.
    fn count_newlines(&self, i: usize) -> (r: usize)
        requires
            i <= self.chars.len(),
        ensures
            r == newlines(self.chars@, i as int),
            r <= i,
    {
        let mut k: usize = 0;
        let mut n: usize = 0;
        while k < i
            invariant
                0 <= k <= i <= self.chars.len(),
                n == newlines(self.chars@, k as int),
                n <= k,
            decreases i - k,
        {
            if self.chars[k] == '\n' {
                n += 1;
            }
            k += 1;
        }
        n
    }

    /// The number of lines between the indices `i` and `end`.
    fn count_lines(&self, i: usize, end: usize) -> (r: usize)
        requires
            i <= self.chars.len(),
            end <= self.chars.len(),
        ensures
            r == line_count(self.chars@, i as int, end as int),
            r <= self.chars.len(),
    {
        let mut k: usize = i;
        let mut n: usize = 0;
        while k < end
            invariant
                0 <= k <= self.chars.len(),
                end <= self.chars.len(),
                n + line_count(self.chars@, k as int, end as int) == line_count(
                    self.chars@,
                    i as int,
                    end as int,
                ),
                n <= k,
            decreases self.chars.len() - k,
        {
            let j = self.end_of_line(k);
            n += 1;
            if j < end {
                k = j + 1;
            } else {
                k = end;
            }
        }
        n
    }

    /// Adds one line of an excerpt to `out`.
    fn put_line(&self, out: &mut Vec<char>, i: usize, j: usize, number: u128, width: usize, span: Span)
        requires
            self.fits(),
            i <= j <= self.chars.len(),
        ensures
            final(out)@ == old(out)@ + excerpt_line(
                self.chars@,
                i as int,
                j as int,
                number as nat,
                width as nat,
                span,
            ),
    {
        let ghost before = out@;
        let ghost src = self.chars@;
        put(out, "\x1b[1m\x1b[36m");
        put_number(out, number, width);
        put(out, ": \x1b[0;22m");
        let ghost mid = out@;
        let mut k: usize = i;
        while k < j
            invariant
                i <= k <= j <= self.chars.len(),
                src == self.chars@,
                out@ =~= mid + shown(src.subrange(i as int, j as int)).take(k - i),
            decreases j - k,
        {
            let c = self.chars[k];
            if c == '\t' {
                out.push(' ');
            } else {
                out.push(c);
            }
            k += 1;
        }
        assert(shown(src.subrange(i as int, j as int)).take(j - i) =~= shown(
            src.subrange(i as int, j as int),
        ));
        put(out, "\n\x1b[1m\x1b[36m");
        put_spaces(out, width);
        put_spaces(out, 2);
        assert(spaces(width as nat) + spaces(2) =~= spaces((width + 2) as nat));
        let ghost mid2 = out@;
        let mut at = self.offset_of(i);
        let mut k: usize = i;
        while k < j
            invariant
                i <= k <= j <= self.chars.len(),
                self.fits(),
                src == self.chars@,
                at == offset(src, k as int),
                out@ =~= mid2 + markers(src, i as int, j as int, span).take(k - i),
            decreases j - k,
        {
            if span.0 <= at && at < span.1 {
                out.push('~');
            } else {
                out.push(' ');
            }
            proof {
                lemma_utf8_len_step(src, k as int);
                lemma_utf8_len_prefix(src, k + 1, src.len() as int);
                assert(src.take(src.len() as int) =~= src);
            }
            at = at + len_utf8(self.chars[k]);
            k += 1;
        }
        assert(markers(src, i as int, j as int, span).take(j - i) =~= markers(
            src,
            i as int,
            j as int,
            span,
        ));
        put(out, "\x1b[0;22m\n");
        assert(out@ =~= before + excerpt_line(
            src,
            i as int,
            j as int,
            number as nat,
            width as nat,
            span,
        ));
    }

    /// Adds the excerpt for `span` to `out`.
    fn put_excerpt(&self, out: &mut Vec<char>, span: Span)
        requires
            self.fits(),
        ensures
            final(out)@ == old(out)@ + excerpt(self.chars@, span),
    {
        let ghost before = out@;
        let ghost src = self.chars@;
        let p = self.find(span.0);
        let q = self.find(span.1);
        let begin = self.begin_of_line(p);
        let end = if q > 0 && self.chars[q - 1] == '\n' {
            q
        } else {
            self.end_of_line(q)
        };
        let first: u128 = self.count_newlines(begin) as u128 + 1;
        let count = self.count_lines(begin, end);
        let last: u128 = if count > 0 {
            first + count as u128 - 1
        } else {
            first
        };
        let width = digits(last).len();
        let mut i: usize = begin;
        let mut number: u128 = first;
        proof {
            assert(before + Seq::<char>::empty() =~= before);
        }
        while i < end
            invariant
                self.fits(),
                src == self.chars@,
                0 <= i <= self.chars.len(),
                end <= self.chars.len(),
                number <= first + i,
                first <= usize::MAX + 1,
                before + excerpt_lines(
                    src,
                    begin as int,
                    end as int,
                    first as nat,
                    width as nat,
                    span,
                ) == out@ + excerpt_lines(
                    src,
                    i as int,
                    end as int,
                    number as nat,
                    width as nat,
                    span,
                ),
            decreases self.chars.len() - i,
        {
            let ghost now = out@;
            let j = self.end_of_line(i);
            self.put_line(out, i, j, number, width, span);
            proof {
                let line = excerpt_line(src, i as int, j as int, number as nat, width as nat, span);
                if j < end {
                    let rest = excerpt_lines(
                        src,
                        j + 1,
                        end as int,
                        (number + 1) as nat,
                        width as nat,
                        span,
                    );
                    assert(now + (line + rest) =~= (now + line) + rest);
                } else {
                    assert((now + line) + Seq::<char>::empty() =~= now + line);
                }
            }
            if j < end {
                i = j + 1;
            } else {
                i = end;
            }
            number += 1;
        }
        proof {
            assert(out@ + Seq::<char>::empty() =~= out@);
        }
    }

    /// Adds one message to `out` as it is shown.
    fn put_block(&self, out: &mut Vec<char>, entry: &LogEntry)
        requires
            self.fits(),
        ensures
            final(out)@ == old(out)@ + block(self.chars@, entry.head()),
    {
        let ghost before = out@;
        match entry.level {
            LogLevel::Help => put(out, "\x1b[1m\x1b[32mhelp\x1b[0;22m\x1b[1m: "),
            LogLevel::Info => put(out, "\x1b[1m\x1b[36minfo\x1b[0;22m\x1b[1m: "),
            LogLevel::Warning => put(out, "\x1b[1m\x1b[33mwarning\x1b[0;22m\x1b[1m: "),
            LogLevel::Error => put(out, "\x1b[1m\x1b[31merror\x1b[0;22m\x1b[1m: "),
        }
        put(out, entry.message.as_str());
        put(out, "\x1b[0;22m\n");
        let ghost mid = out@;
        match entry.span {
            Some(span) => {
                self.put_excerpt(out, span);
            },
            None => {
                assert(mid + Seq::<char>::empty() =~= mid);
            },
        }
        assert(out@ =~= before + block(self.chars@, entry.head()));
    }

    /// Adds a log entry to `out` as it is shown.
    fn put_entry(&self, out: &mut Vec<char>, entry: &LogEntry)
        requires
            self.fits(),
        ensures
            final(out)@ == old(out)@ + render_spec(self.chars@, entry@),
        decreases entry,
    {
        let ghost before = out@;
        let ghost src = self.chars@;
        self.put_block(out, entry);
        let ghost mid = out@;
        proof {
            assert(entry@ == entry.chain());
            assert(entry@[0] == entry.head());
        }
        match &entry.child {
            Some(child) => {
                self.put_entry(out, child);
                proof {
                    assert(entry@.drop_first() =~= child@);
                    assert(render_spec(src, entry@) == block(src, entry.head()) + render_spec(
                        src,
                        child@,
                    ));
                }
            },
            None => {
                proof {
                    assert(entry@.drop_first() =~= Seq::<Note>::empty());
                    assert(render_spec(src, entry@) == block(src, entry.head()) + render_spec(
                        src,
                        Seq::<Note>::empty(),
                    ));
                    assert(mid + Seq::<char>::empty() =~= mid);
                }
            },
        }
        assert(out@ =~= before + render_spec(src, entry@));
    }
}

impl<'a> LogEntryDisplay<'a> {
    /// The entry as it is shown on a terminal.
    pub fn render(&self) -> (r: String)
        ensures
            r@ == render_spec(self.src@, self.entry@),
    {
        let chars = chars_of(self.src);
        let size = self.src.as_bytes().len();
        proof {
            lemma_encoded_len(self.src@);
        }
        let source = Source { chars };
        let mut out: Vec<char> = Vec::new();
        source.put_entry(&mut out, self.entry);
        let text = string_of(&out, 0, out.len());
        assert(out@.subrange(0, out@.len() as int) =~= out@);
        assert(Seq::<char>::empty() + render_spec(self.src@, self.entry@) =~= render_spec(
            self.src@,
            self.entry@,
        ));
        text
    }
}

} // verus!
