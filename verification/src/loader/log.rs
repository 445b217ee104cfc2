//! The diagnostics sink: an ordered log of messages, each with a severity,
//! an optional source span and a chain of follow-up notes.

use vstd::prelude::*;
use vstd::string::*;

use crate::loader::render::LogEntryDisplay;
use crate::loader::Span;

verus! {

/// How severe a message is. Only `Error` stops a machine from being built.
#[derive(Clone, Copy, Debug, PartialEq, Eq, Structural)]
pub enum LogLevel {
    Info,
    Warning,
    Error,
    Help,
}

/// One message as contracts see it: severity, text and span.
pub ghost struct Note {
    pub level: LogLevel,
    pub message: Seq<char>,
    pub span: Option<Span>,
}

/// One message of the log. `child` holds the note that follows it, which may
/// have a note of its own, and so on.
#[derive(Debug, PartialEq, Eq)]
pub struct LogEntry {
    pub message: String,
    pub span: Option<Span>,
    pub level: LogLevel,
    pub child: Option<Box<LogEntry>>,
}

impl View for LogEntry {
    type V = Seq<Note>;

    /// The message followed by its notes, outermost first.
    open spec fn view(&self) -> Seq<Note> {
        self.chain()
    }
}

impl LogEntry {
    /// The message itself, without its notes.
    pub open spec fn head(&self) -> Note {
        Note { level: self.level, message: self.message@, span: self.span }
    }

    /// The message followed by its notes, outermost first.
    pub open spec fn chain(self) -> Seq<Note>
        decreases self,
    {
        seq![self.head()] + match self.child {
            None => Seq::<Note>::empty(),
            Some(child) => (*child).chain(),
        }
    }

    /// A message without notes.
    pub fn new(level: LogLevel, message: String, span: Option<Span>) -> (r: LogEntry)
        ensures
            r@ == seq![Note { level, message: message@, span }],
            r.level == level,
    {
        LogEntry { message, span, level, child: None }
    }

    /// The entry with `note`, and the notes of `note`, added after its last
    /// note.
    pub fn with(self, note: LogEntry) -> (r: LogEntry)
        ensures
            r@ == self@ + note@,
            r.level == self.level,
        decreases self,
    {
        let LogEntry { message, span, level, child } = self;
        match child {
            None => {
                let r = LogEntry { message, span, level, child: Some(Box::new(note)) };
                assert(r@ =~= self@ + note@);
                r
            },
            Some(c) => {
                let inner = (*c).with(note);
                let r = LogEntry { message, span, level, child: Some(Box::new(inner)) };
                assert(r@ =~= self@ + note@);
                r
            },
        }
    }

    /// An error at `span`.
    pub fn error(msg: &str, span: Span) -> (r: LogEntry)
        ensures
            r@ == seq![Note { level: LogLevel::Error, message: msg@, span: Some(span) }],
            r.level == LogLevel::Error,
    {
        LogEntry::new(LogLevel::Error, msg.to_owned(), Some(span))
    }

    /// An error that points at no place in the source.
    pub fn error_locless(msg: &str) -> (r: LogEntry)
        ensures
            r@ == seq![Note { level: LogLevel::Error, message: msg@, span: None }],
            r.level == LogLevel::Error,
    {
        LogEntry::new(LogLevel::Error, msg.to_owned(), None)
    }

    /// A warning at `span`.
    pub fn warning(msg: &str, span: Span) -> (r: LogEntry)
        ensures
            r@ == seq![Note { level: LogLevel::Warning, message: msg@, span: Some(span) }],
            r.level == LogLevel::Warning,
    {
        LogEntry::new(LogLevel::Warning, msg.to_owned(), Some(span))
    }

    /// A warning that points at no place in the source.
    pub fn warning_locless(msg: &str) -> (r: LogEntry)
        ensures
            r@ == seq![Note { level: LogLevel::Warning, message: msg@, span: None }],
            r.level == LogLevel::Warning,
    {
        LogEntry::new(LogLevel::Warning, msg.to_owned(), None)
    }

    /// The entry followed by an `Info` note at `span`.
    pub fn emit_info(self, msg: &str, span: Span) -> (r: LogEntry)
        ensures
            r@ == self@.push(Note { level: LogLevel::Info, message: msg@, span: Some(span) }),
            r.level == self.level,
    {
        self.with(LogEntry::new(LogLevel::Info, msg.to_owned(), Some(span)))
    }

    /// The entry followed by an `Info` note without a span.
    pub fn emit_info_logless(self, msg: &str) -> (r: LogEntry)
        ensures
            r@ == self@.push(Note { level: LogLevel::Info, message: msg@, span: None }),
            r.level == self.level,
    {
        self.with(LogEntry::new(LogLevel::Info, msg.to_owned(), None))
    }

    /// The entry followed by a `Help` note at `span`.
    pub fn emit_help(self, msg: &str, span: Span) -> (r: LogEntry)
        ensures
            r@ == self@.push(Note { level: LogLevel::Help, message: msg@, span: Some(span) }),
            r.level == self.level,
    {
        self.with(LogEntry::new(LogLevel::Help, msg.to_owned(), Some(span)))
    }

    /// The entry followed by a `Help` note without a span.
    pub fn emit_help_logless(self, msg: &str) -> (r: LogEntry)
        ensures
            r@ == self@.push(Note { level: LogLevel::Help, message: msg@, span: None }),
            r.level == self.level,
    {
        self.with(LogEntry::new(LogLevel::Help, msg.to_owned(), None))
    }
}

/// Whether one of the entries is an error. Notes do not count.
pub open spec fn has_error(entries: Seq<Seq<Note>>) -> bool {
    exists|i: int| 0 <= i < entries.len() && #[trigger] entries[i][0].level == LogLevel::Error
}

/// Whether the log `new` is the log `old` with entries added behind it.
pub open spec fn extends(new: Seq<Seq<Note>>, old: Seq<Seq<Note>>) -> bool {
    &&& old.len() <= new.len()
    &&& forall|i: int| 0 <= i < old.len() ==> new[i] == old[i]
}

/// An error stays in the log whatever is added behind it.
pub proof fn lemma_extends_error(new: Seq<Seq<Note>>, old: Seq<Seq<Note>>)
    requires
        extends(new, old),
        has_error(old),
    ensures
        has_error(new),
{
    let i = choose|i: int| 0 <= i < old.len() && #[trigger] old[i][0].level == LogLevel::Error;
    assert(new[i][0].level == LogLevel::Error);
}

/// A log whose last entry is an error has an error.
pub proof fn lemma_last_error(log: Seq<Seq<Note>>)
    requires
        log.len() > 0,
        log.last()[0].level == LogLevel::Error,
    ensures
        has_error(log),
{
    assert(log[log.len() - 1][0].level == LogLevel::Error);
}

/// The entries of a log of entries.
pub open spec fn views(entries: Seq<LogEntry>) -> Seq<Seq<Note>> {
    Seq::new(entries.len(), |i: int| entries[i]@)
}

/// The log: every message emitted so far, in order, and whether one of them
/// was an error.
pub struct Logs {
    logs: Vec<LogEntry>,
    has_error: bool,
}

impl View for Logs {
    type V = Seq<Seq<Note>>;

    closed spec fn view(&self) -> Seq<Seq<Note>> {
        views(self.logs@)
    }
}

impl Logs {
    #[verifier::type_invariant]
    spec fn inv(self) -> bool {
        self.has_error == has_error(views(self.logs@))
    }

    /// An empty log.
    pub fn new() -> (r: Self)
        ensures
            r@ == Seq::<Seq<Note>>::empty(),
    {
        let r = Self { logs: Vec::new(), has_error: false };
        assert(r@ =~= Seq::<Seq<Note>>::empty());
        r
    }

    /// Whether an error was emitted.
    pub fn contains_errors(&self) -> (b: bool)
        ensures
            b == has_error(self@),
    {
        proof {
            use_type_invariant(self);
        }
        self.has_error
    }

    /// Adds `entry` at the end of the log.
    pub fn emit(&mut self, entry: LogEntry)
        ensures
            final(self)@ == old(self)@.push(entry@),
    {
        proof {
            use_type_invariant(&*self);
        }
        let ghost before = views(self.logs@);
        let is_error = matches!(entry.level, LogLevel::Error);
        let mut taken = Logs::new();
        std::mem::swap(self, &mut taken);
        let Logs { logs, has_error: had_error } = taken;
        let mut logs = logs;
        logs.push(entry);
        proof {
            let after = views(logs@);
            assert(after =~= before.push(entry@));
            if has_error(before) {
                let i = choose|i: int| 0 <= i < before.len() && #[trigger] before[i][0].level == LogLevel::Error;
                assert(after[i][0].level == LogLevel::Error);
            }
            if is_error {
                assert(after[after.len() - 1][0].level == LogLevel::Error);
            }
            if has_error(after) {
                let i = choose|i: int| 0 <= i < after.len() && #[trigger] after[i][0].level == LogLevel::Error;
                if i < before.len() {
                    assert(before[i][0].level == LogLevel::Error);
                }
            }
        }
        *self = Logs { logs, has_error: had_error || is_error };
    }

    /// Logs an error that points at no place in the source.
    pub fn emit_error_locless(&mut self, msg: &str)
        ensures
            final(self)@ == old(self)@.push(
                seq![Note { level: LogLevel::Error, message: msg@, span: None }],
            ),
    {
        self.emit(LogEntry::error_locless(msg));
    }

    /// Logs an error at `span`.
    pub fn emit_error(&mut self, msg: &str, span: Span)
        ensures
            final(self)@ == old(self)@.push(
                seq![Note { level: LogLevel::Error, message: msg@, span: Some(span) }],
            ),
    {
        self.emit(LogEntry::error(msg, span));
    }

    /// Logs a warning at `span`.
    pub fn emit_warning(&mut self, msg: &str, span: Span)
        ensures
            final(self)@ == old(self)@.push(
                seq![Note { level: LogLevel::Warning, message: msg@, span: Some(span) }],
            ),
    {
        self.emit(LogEntry::warning(msg, span));
    }

    /// Logs a warning that points at no place in the source.
    pub fn emit_warning_locless(&mut self, msg: &str)
        ensures
            final(self)@ == old(self)@.push(
                seq![Note { level: LogLevel::Warning, message: msg@, span: None }],
            ),
    {
        self.emit(LogEntry::warning_locless(msg));
    }

    /// Logs an information at `span`.
    pub fn emit_info(&mut self, msg: &str, span: Span)
        ensures
            final(self)@ == old(self)@.push(
                seq![Note { level: LogLevel::Info, message: msg@, span: Some(span) }],
            ),
    {
        self.emit(LogEntry::new(LogLevel::Info, msg.to_owned(), Some(span)));
    }

    /// Each entry together with the source text `src`, ready to be shown.
    pub fn displayable_with<'a>(&'a self, src: &'a str) -> (r: Vec<LogEntryDisplay<'a>>)
        ensures
            r@.len() == self@.len(),
            forall|i: int|
                0 <= i < r@.len() ==> (#[trigger] r@[i]).src@ == src@ && r@[i].entry@ == self@[i],
    {
        let mut out: Vec<LogEntryDisplay<'a>> = Vec::new();
        let mut i: usize = 0;
        while i < self.logs.len()
            invariant
                0 <= i <= self.logs.len(),
                out@.len() == i,
                forall|j: int|
                    0 <= j < i ==> (#[trigger] out@[j]).src@ == src@ && out@[j].entry@
                        == self.logs@[j]@,
            decreases self.logs.len() - i,
        {
            out.push(LogEntryDisplay { src, entry: &self.logs[i] });
            i += 1;
        }
        out
    }

    /// The entries emitted so far.
    pub fn entries(&self) -> (r: &Vec<LogEntry>)
        ensures
            views(r@) == self@,
    {
        &self.logs
    }

    /// The entries emitted so far, by value.
    pub fn into_entries(self) -> (r: Vec<LogEntry>)
        ensures
            views(r@) == self@,
    {
        self.logs
    }
}


/// Anything that log entries can be emitted to.
pub trait LogSink {
    /// The entries emitted so far.
    spec fn sink(&self) -> Seq<Seq<Note>>;

    /// Adds `entry` at the end.
    fn emit(&mut self, entry: LogEntry)
        ensures
            final(self).sink() == old(self).sink().push(entry@),
    ;

    /// Emits an error that points at no place in the source.
    fn emit_error_locless(&mut self, msg: &str)
        ensures
            final(self).sink() == old(self).sink().push(
                seq![Note { level: LogLevel::Error, message: msg@, span: None }],
            ),
    {
        self.emit(LogEntry::new(LogLevel::Error, msg.to_owned(), None));
    }

    /// Emits an error at `span`.
    fn emit_error(&mut self, msg: &str, span: Span)
        ensures
            final(self).sink() == old(self).sink().push(
                seq![Note { level: LogLevel::Error, message: msg@, span: Some(span) }],
            ),
    {
        self.emit(LogEntry::new(LogLevel::Error, msg.to_owned(), Some(span)));
    }

    /// Emits a warning at `span`.
    fn emit_warning(&mut self, msg: &str, span: Span)
        ensures
            final(self).sink() == old(self).sink().push(
                seq![Note { level: LogLevel::Warning, message: msg@, span: Some(span) }],
            ),
    {
        self.emit(LogEntry::new(LogLevel::Warning, msg.to_owned(), Some(span)));
    }

    /// Emits a warning that points at no place in the source.
    fn emit_warning_locless(&mut self, msg: &str)
        ensures
            final(self).sink() == old(self).sink().push(
                seq![Note { level: LogLevel::Warning, message: msg@, span: None }],
            ),
    {
        self.emit(LogEntry::new(LogLevel::Warning, msg.to_owned(), None));
    }

    /// Emits an information at `span`.
    fn emit_info(&mut self, msg: &str, span: Span)
        ensures
            final(self).sink() == old(self).sink().push(
                seq![Note { level: LogLevel::Info, message: msg@, span: Some(span) }],
            ),
    {
        self.emit(LogEntry::new(LogLevel::Info, msg.to_owned(), Some(span)));
    }

    /// Emits an information that points at no place in the source.
    fn emit_info_logless(&mut self, msg: &str)
        ensures
            final(self).sink() == old(self).sink().push(
                seq![Note { level: LogLevel::Info, message: msg@, span: None }],
            ),
    {
        self.emit(LogEntry::new(LogLevel::Info, msg.to_owned(), None));
    }

    /// Emits a help at `span`.
    fn emit_help(&mut self, msg: &str, span: Span)
        ensures
            final(self).sink() == old(self).sink().push(
                seq![Note { level: LogLevel::Help, message: msg@, span: Some(span) }],
            ),
    {
        self.emit(LogEntry::new(LogLevel::Help, msg.to_owned(), Some(span)));
    }

    /// Emits a help that points at no place in the source.
    fn emit_help_logless(&mut self, msg: &str)
        ensures
            final(self).sink() == old(self).sink().push(
                seq![Note { level: LogLevel::Help, message: msg@, span: None }],
            ),
    {
        self.emit(LogEntry::new(LogLevel::Help, msg.to_owned(), None));
    }
}

impl LogSink for Logs {
    open spec fn sink(&self) -> Seq<Seq<Note>> {
        self@
    }

    fn emit(&mut self, entry: LogEntry) {
        Logs::emit(self, entry);
    }
}

impl Default for Logs {
    fn default() -> (r: Self)
        ensures
            r@ == Seq::<Seq<Note>>::empty(),
    {
        Logs::new()
    }
}

} // verus!
