//! The lexer: from source text to spanned tokens, one at a time.

use vstd::prelude::*;

use crate::loader::{Span, Spanned};
use crate::text::{
    begin_ident, chars_of, debug_char, debug_char_text, debug_str, debug_text, join3, continue_ident, is_ident_part, is_ident_start, is_space, lemma_encoded_len,
    lemma_utf8_len_prefix, lemma_utf8_len_step, len_utf8, space, string_of, utf8_len,
};

verus! {

/// One lexical unit.
#[derive(Clone, Hash, PartialEq, Eq, Debug)]
pub enum Token {
    LPar,
    RPar,
    LBrace,
    RBrace,
    LBracket,
    RBracket,
    Tilde,
    Eq,
    Comma,
    Or,
    Plus,
    Star,
    And,
    LSmallArrow,
    LBigArrow,
    /// A comment, with its text between the comment markers.
    Comment(String),
    /// An identifier, with its text.
    Ident(String),
    /// The end of a line.
    LineEnd,
}

/// A token as contracts see it: text is a sequence of characters.
pub ghost enum TokenView {
    LPar,
    RPar,
    LBrace,
    RBrace,
    LBracket,
    RBracket,
    Tilde,
    Eq,
    Comma,
    Or,
    Plus,
    Star,
    And,
    LSmallArrow,
    LBigArrow,
    Comment(Seq<char>),
    Ident(Seq<char>),
    LineEnd,
}

impl View for Token {
    type V = TokenView;

    open spec fn view(&self) -> TokenView {
        match self {
            Token::LPar => TokenView::LPar,
            Token::RPar => TokenView::RPar,
            Token::LBrace => TokenView::LBrace,
            Token::RBrace => TokenView::RBrace,
            Token::LBracket => TokenView::LBracket,
            Token::RBracket => TokenView::RBracket,
            Token::Tilde => TokenView::Tilde,
            Token::Eq => TokenView::Eq,
            Token::Comma => TokenView::Comma,
            Token::Or => TokenView::Or,
            Token::Plus => TokenView::Plus,
            Token::Star => TokenView::Star,
            Token::And => TokenView::And,
            Token::LSmallArrow => TokenView::LSmallArrow,
            Token::LBigArrow => TokenView::LBigArrow,
            Token::Comment(text) => TokenView::Comment(text@),
            Token::Ident(text) => TokenView::Ident(text@),
            Token::LineEnd => TokenView::LineEnd,
        }
    }
}

/// How messages name a token: punctuation in single quotes, an identifier
/// as `ident`, the end of a line as `eol`.
pub open spec fn token_name(token: TokenView) -> Seq<char> {
    match token {
        TokenView::LPar => "'('"@,
        TokenView::RPar => "')'"@,
        TokenView::LBrace => "'{'"@,
        TokenView::RBrace => "'}'"@,
        TokenView::LBracket => "'['"@,
        TokenView::RBracket => "']'"@,
        TokenView::Tilde => "'~'"@,
        TokenView::Eq => "'='"@,
        TokenView::Comma => "','"@,
        TokenView::Or => "'|'"@,
        TokenView::Plus => "'+'"@,
        TokenView::Star => "'*'"@,
        TokenView::And => "'&'"@,
        TokenView::LSmallArrow => "'->'"@,
        TokenView::LBigArrow => "'=>'"@,
        TokenView::Comment(_) => "<comment>"@,
        TokenView::Ident(_) => "ident"@,
        TokenView::LineEnd => "eol"@,
    }
}

/// How messages show a token that was found: as its name, but an identifier
/// by its quoted text.
pub open spec fn token_text(token: TokenView) -> Seq<char> {
    match token {
        TokenView::Ident(text) => debug_text(text),
        _ => token_name(token),
    }
}

impl Token {
    /// A copy of the token.
    pub fn duplicate(&self) -> (r: Token)
        ensures
            r@ == self@,
    {
        match self {
            Token::LPar => Token::LPar,
            Token::RPar => Token::RPar,
            Token::LBrace => Token::LBrace,
            Token::RBrace => Token::RBrace,
            Token::LBracket => Token::LBracket,
            Token::RBracket => Token::RBracket,
            Token::Tilde => Token::Tilde,
            Token::Eq => Token::Eq,
            Token::Comma => Token::Comma,
            Token::Or => Token::Or,
            Token::Plus => Token::Plus,
            Token::Star => Token::Star,
            Token::And => Token::And,
            Token::LSmallArrow => Token::LSmallArrow,
            Token::LBigArrow => Token::LBigArrow,
            Token::Comment(text) => Token::Comment(text.clone()),
            Token::Ident(text) => Token::Ident(text.clone()),
            Token::LineEnd => Token::LineEnd,
        }
    }

    /// Whether two tokens are of the same kind and hold the same text.
    pub fn same(&self, other: &Token) -> (b: bool)
        ensures
            b == (self@ == other@),
    {
        match (self, other) {
            (Token::LPar, Token::LPar) => true,
            (Token::RPar, Token::RPar) => true,
            (Token::LBrace, Token::LBrace) => true,
            (Token::RBrace, Token::RBrace) => true,
            (Token::LBracket, Token::LBracket) => true,
            (Token::RBracket, Token::RBracket) => true,
            (Token::Tilde, Token::Tilde) => true,
            (Token::Eq, Token::Eq) => true,
            (Token::Comma, Token::Comma) => true,
            (Token::Or, Token::Or) => true,
            (Token::Plus, Token::Plus) => true,
            (Token::Star, Token::Star) => true,
            (Token::And, Token::And) => true,
            (Token::LSmallArrow, Token::LSmallArrow) => true,
            (Token::LBigArrow, Token::LBigArrow) => true,
            (Token::Comment(a), Token::Comment(b)) => *a == *b,
            (Token::Ident(a), Token::Ident(b)) => *a == *b,
            (Token::LineEnd, Token::LineEnd) => true,
            _ => false,
        }
    }

    /// The token as messages name it; with `alternate`, an identifier is
    /// shown by its quoted text.
    pub fn describe(&self, alternate: bool) -> (r: String)
        ensures
            r@ == (if alternate {
                token_text(self@)
            } else {
                token_name(self@)
            }),
    {
        match self {
            Token::LPar => "'('".to_owned(),
            Token::RPar => "')'".to_owned(),
            Token::LBrace => "'{'".to_owned(),
            Token::RBrace => "'}'".to_owned(),
            Token::LBracket => "'['".to_owned(),
            Token::RBracket => "']'".to_owned(),
            Token::Tilde => "'~'".to_owned(),
            Token::Eq => "'='".to_owned(),
            Token::Comma => "','".to_owned(),
            Token::Or => "'|'".to_owned(),
            Token::Plus => "'+'".to_owned(),
            Token::Star => "'*'".to_owned(),
            Token::And => "'&'".to_owned(),
            Token::LSmallArrow => "'->'".to_owned(),
            Token::LBigArrow => "'=>'".to_owned(),
            Token::Comment(_) => "<comment>".to_owned(),
            Token::Ident(text) => if alternate {
                debug_str(text.as_str())
            } else {
                "ident".to_owned()
            },
            Token::LineEnd => "eol".to_owned(),
        }
    }
}

/// The message that reports a lexical error.
pub open spec fn error_text(error: Error) -> Seq<char> {
    match error {
        Error::InvalidChar(c) => "lexer: InvalidChar("@ + debug_char_text(c) + ")"@,
        Error::UnclosedMultiLine => "lexer: UnclosedMultiLine"@,
    }
}

impl Error {
    /// The message that reports the error.
    pub fn describe(&self) -> (r: String)
        ensures
            r@ == error_text(*self),
    {
        match self {
            Error::InvalidChar(c) => {
                let quoted = debug_char(*c);
                join3("lexer: InvalidChar(", quoted.as_str(), ")")
            },
            Error::UnclosedMultiLine => "lexer: UnclosedMultiLine".to_owned(),
        }
    }
}

/// What the lexer cannot turn into a token.
#[derive(Clone, Copy, Hash, PartialEq, Eq, Debug, Structural)]
pub enum Error {
    /// A character that starts no token.
    InvalidChar(char),
    /// A block comment that is still open at the end of the input.
    UnclosedMultiLine,
}

/// A token or a lexical error, as contracts see it.
pub open spec fn lexeme_view(r: Result<Token, Error>) -> Result<TokenView, Error> {
    match r {
        Ok(token) => Ok(token@),
        Err(error) => Err(error),
    }
}

/// The byte offset of the character at index `i`.
pub open spec fn offset(input: Seq<char>, i: int) -> nat {
    utf8_len(input.take(i))
}

/// The first index from `i` on that holds a line feed or anything that is not
/// white space; the length of the input if there is none.
pub open spec fn skip_blanks(input: Seq<char>, i: int) -> int
    decreases input.len() - i,
{
    if 0 <= i < input.len() && is_space(input[i]) && input[i] != '\n' {
        skip_blanks(input, i + 1)
    } else {
        i
    }
}

/// The first index from `i` on that holds a line feed; the length of the
/// input if there is none.
pub open spec fn line_end(input: Seq<char>, i: int) -> int
    decreases input.len() - i,
{
    if 0 <= i < input.len() && input[i] != '\n' {
        line_end(input, i + 1)
    } else {
        i
    }
}

/// The first index from `i` on where `*/` stands; the length of the input if
/// it stands nowhere.
pub open spec fn block_end(input: Seq<char>, i: int) -> int
    decreases input.len() - i,
{
    if 0 <= i < input.len() && !(input[i] == '*' && i + 1 < input.len() && input[i + 1] == '/') {
        block_end(input, i + 1)
    } else {
        i
    }
}

/// The first index from `i` on that holds a character which cannot continue
/// an identifier; the length of the input if there is none.
pub open spec fn ident_end(input: Seq<char>, i: int) -> int
    decreases input.len() - i,
{
    if 0 <= i < input.len() && is_ident_part(input[i]) {
        ident_end(input, i + 1)
    } else {
        i
    }
}

/// The token, or the error, that starts at index `start`, and the index
/// after its last character.
pub open spec fn token_at(input: Seq<char>, start: int) -> (Result<TokenView, Error>, int)
    recommends
        0 <= start < input.len(),
{
    let c = input[start];
    let follows = |c: char| start + 1 < input.len() && input[start + 1] == c;
    if c == '\n' {
        (Ok(TokenView::LineEnd), start + 1)
    } else if c == '(' {
        (Ok(TokenView::LPar), start + 1)
    } else if c == ')' {
        (Ok(TokenView::RPar), start + 1)
    } else if c == '{' {
        (Ok(TokenView::LBrace), start + 1)
    } else if c == '}' {
        (Ok(TokenView::RBrace), start + 1)
    } else if c == '[' {
        (Ok(TokenView::LBracket), start + 1)
    } else if c == ']' {
        (Ok(TokenView::RBracket), start + 1)
    } else if c == '~' {
        (Ok(TokenView::Tilde), start + 1)
    } else if c == '+' {
        (Ok(TokenView::Plus), start + 1)
    } else if c == '*' {
        (Ok(TokenView::Star), start + 1)
    } else if c == '&' {
        (Ok(TokenView::And), start + 1)
    } else if c == ',' {
        (Ok(TokenView::Comma), start + 1)
    } else if c == '|' {
        (Ok(TokenView::Or), start + 1)
    } else if c == '=' {
        if follows('>') {
            (Ok(TokenView::LBigArrow), start + 2)
        } else {
            (Ok(TokenView::Eq), start + 1)
        }
    } else if c == '-' {
        if follows('>') {
            (Ok(TokenView::LSmallArrow), start + 2)
        } else {
            (Err(Error::InvalidChar('-')), start + 1)
        }
    } else if c == '/' {
        if follows('/') {
            let end = line_end(input, start + 2);
            (Ok(TokenView::Comment(input.subrange(start + 2, end))), end)
        } else if follows('*') {
            let close = block_end(input, start + 2);
            if close < input.len() {
                (Ok(TokenView::Comment(input.subrange(start + 2, close))), close + 2)
            } else {
                (Err(Error::UnclosedMultiLine), input.len() as int)
            }
        } else {
            (Err(Error::InvalidChar('/')), start + 1)
        }
    } else if is_ident_start(c) {
        let end = ident_end(input, start + 1);
        (Ok(TokenView::Ident(input.subrange(start, end))), end)
    } else {
        (Err(Error::InvalidChar(c)), start + 1)
    }
}

/// What the lexer yields next when its cursor is at index `i`: nothing when
/// only blanks are left, else a token or an error with the indices of its
/// first character and of the character after its last.
pub open spec fn next_lexeme(input: Seq<char>, i: int) -> Option<
    (Result<TokenView, Error>, int, int),
> {
    let start = skip_blanks(input, i);
    if start < input.len() {
        let (lexeme, end) = token_at(input, start);
        Some((lexeme, start, end))
    } else {
        None
    }
}

pub proof fn lemma_skip_blanks_bounds(input: Seq<char>, i: int)
    requires
        0 <= i <= input.len(),
    ensures
        i <= skip_blanks(input, i) <= input.len(),
    decreases input.len() - i,
{
    if i < input.len() && is_space(input[i]) && input[i] != '\n' {
        lemma_skip_blanks_bounds(input, i + 1);
    }
}

/// Behind blanks that were passed over there are no blanks to pass over.
pub proof fn lemma_skip_blanks_twice(input: Seq<char>, i: int)
    requires
        0 <= i <= input.len(),
    ensures
        skip_blanks(input, skip_blanks(input, i)) == skip_blanks(input, i),
    decreases input.len() - i,
{
    if i < input.len() && is_space(input[i]) && input[i] != '\n' {
        lemma_skip_blanks_twice(input, i + 1);
    }
}

pub proof fn lemma_line_end_bounds(input: Seq<char>, i: int)
    requires
        0 <= i <= input.len(),
    ensures
        i <= line_end(input, i) <= input.len(),
    decreases input.len() - i,
{
    if i < input.len() && input[i] != '\n' {
        lemma_line_end_bounds(input, i + 1);
    }
}

pub proof fn lemma_block_end_bounds(input: Seq<char>, i: int)
    requires
        0 <= i <= input.len(),
    ensures
        i <= block_end(input, i) <= input.len(),
        block_end(input, i) < input.len() ==> block_end(input, i) + 2 <= input.len(),
    decreases input.len() - i,
{
    if i < input.len() && !(input[i] == '*' && i + 1 < input.len() && input[i + 1] == '/') {
        lemma_block_end_bounds(input, i + 1);
    }
}

pub proof fn lemma_ident_end_bounds(input: Seq<char>, i: int)
    requires
        0 <= i <= input.len(),
    ensures
        i <= ident_end(input, i) <= input.len(),
    decreases input.len() - i,
{
    if i < input.len() && is_ident_part(input[i]) {
        lemma_ident_end_bounds(input, i + 1);
    }
}

/// Every lexeme holds at least one character and ends within the input.
pub proof fn lemma_token_at_bounds(input: Seq<char>, start: int)
    requires
        0 <= start < input.len(),
    ensures
        start < token_at(input, start).1 <= input.len(),
{
    if start + 2 <= input.len() {
        lemma_line_end_bounds(input, start + 2);
        lemma_block_end_bounds(input, start + 2);
    }
    lemma_ident_end_bounds(input, start + 1);
}

/// The lexer makes progress: what it yields starts at or after the cursor,
/// is not empty and ends within the input.
pub proof fn lemma_next_lexeme_bounds(input: Seq<char>, i: int)
    requires
        0 <= i <= input.len(),
    ensures
        match next_lexeme(input, i) {
            Some((_, start, end)) => i <= start < end <= input.len(),
            None => true,
        },
{
    lemma_skip_blanks_bounds(input, i);
    let start = skip_blanks(input, i);
    if start < input.len() {
        lemma_token_at_bounds(input, start);
    }
}

/// A place in the source text: the index of a character and its byte offset.
#[derive(Clone, Copy, Debug)]
struct Place {
    index: usize,
    position: usize,
}

/// A cursor over the characters of a source text.
#[derive(Debug)]
pub struct Lexer {
    input: Vec<char>,
    at: Place,
}

impl Lexer {
    #[verifier::type_invariant]
    spec fn inv(self) -> bool {
        &&& self.at.index <= self.input.len()
        &&& self.at.position == offset(self.input@, self.at.index as int)
        &&& utf8_len(self.input@) <= usize::MAX
    }

    /// The characters of the source text.
    pub closed spec fn source(&self) -> Seq<char> {
        self.input@
    }

    /// The index of the next character to read.
    pub closed spec fn cursor(&self) -> int {
        self.at.index as int
    }

    /// A lexer at the start of `input`.
    pub fn new(input: &str) -> (r: Self)
        ensures
            r.source() == input@,
            r.cursor() == 0,
    {
        let chars = chars_of(input);
        let bytes = input.as_bytes();
        let size = bytes.len();
        proof {
            lemma_encoded_len(input@);
            assert(chars@.take(0) =~= Seq::<char>::empty());
        }
        Lexer { input: chars, at: Place { index: 0, position: 0 } }
    }

    /// The index of the next character to read.
    pub fn index(&self) -> (r: usize)
        ensures
            r == self.cursor(),
            r <= self.source().len(),
    {
        proof {
            use_type_invariant(self);
        }
        self.at.index
    }

    /// Passes over blanks up to the next line feed or the next character
    /// that is not white space.
    pub fn skip(&mut self)
        ensures
            final(self).source() == old(self).source(),
            final(self).cursor() == skip_blanks(old(self).source(), old(self).cursor()),
    {
        let ghost src = self.source();
        let ghost from = self.cursor();
        proof {
            use_type_invariant(&*self);
        }
        while self.at_blank()
            invariant
                self.source() == src,
                from <= self.cursor() <= src.len(),
                skip_blanks(src, from) == skip_blanks(src, self.cursor()),
            decreases src.len() - self.cursor(),
        {
            self.consume();
        }
    }

    /// The span of the end of the input.
    pub fn eof_span(&self) -> (r: Span)
        ensures
            r == Span(utf8_len(self.source()) as usize, utf8_len(self.source()) as usize),
            utf8_len(self.source()) <= usize::MAX,
    {
        proof {
            use_type_invariant(self);
        }
        let mut end: usize = self.at.position;
        let mut i: usize = self.at.index;
        while i < self.input.len()
            invariant
                self.at.index <= i <= self.input.len(),
                end == offset(self.input@, i as int),
                utf8_len(self.input@) <= usize::MAX,
            decreases self.input.len() - i,
        {
            proof {
                lemma_utf8_len_step(self.input@, i as int);
                lemma_utf8_len_prefix(self.input@, i + 1, self.input@.len() as int);
                assert(self.input@.take(self.input@.len() as int) =~= self.input@);
            }
            end = end + len_utf8(self.input[i]);
            i += 1;
        }
        proof {
            assert(self.input@.take(self.input@.len() as int) =~= self.input@);
        }
        Span(end, end)
    }

    /// The character under the cursor, if the cursor is not at the end.
    pub open spec fn current(&self) -> Option<char> {
        if 0 <= self.cursor() < self.source().len() {
            Some(self.source()[self.cursor()])
        } else {
            None
        }
    }

    /// The next character, which stays unread.
    pub fn peek(&self) -> (r: Option<char>)
        ensures
            r == self.current(),
    {
        proof {
            use_type_invariant(self);
        }
        if self.at.index < self.input.len() {
            Some(self.input[self.at.index])
        } else {
            None
        }
    }

    /// Reads the next character.
    pub fn consume(&mut self) -> (r: Option<char>)
        ensures
            final(self).source() == old(self).source(),
            r == old(self).current(),
            final(self).cursor() == (if r is Some {
                old(self).cursor() + 1
            } else {
                old(self).cursor()
            }),
    {
        proof {
            use_type_invariant(&*self);
        }
        if self.at.index < self.input.len() {
            let c = self.input[self.at.index];
            proof {
                lemma_utf8_len_step(self.input@, self.at.index as int);
                lemma_utf8_len_prefix(self.input@, self.at.index + 1, self.input@.len() as int);
                assert(self.input@.take(self.input@.len() as int) =~= self.input@);
            }
            self.at = Place { index: self.at.index + 1, position: self.at.position + len_utf8(c) };
            Some(c)
        } else {
            None
        }
    }

    /// Whether the cursor is on white space other than a line feed.
    fn at_blank(&self) -> (b: bool)
        ensures
            b == (self.current() is Some && is_space(self.current()->0) && self.current()->0
                != '\n'),
    {
        match self.peek() {
            Some(c) => c != '\n' && space(c),
            None => false,
        }
    }

    /// Whether the cursor is on the character `c`.
    fn at_char(&self, c: char) -> (b: bool)
        ensures
            b == (self.current() == Some(c)),
    {
        match self.peek() {
            Some(d) => c == d,
            None => false,
        }
    }

    /// Whether the cursor is on a character that continues an identifier.
    fn at_ident_part(&self) -> (b: bool)
        ensures
            b == (self.current() is Some && is_ident_part(self.current()->0)),
    {
        match self.peek() {
            Some(c) => continue_ident(c),
            None => false,
        }
    }

    /// The token that starts with the character `c`, which was just read
    /// from index `start`.
    fn token_from(&mut self, c: char, start: Place) -> (r: Result<Token, Error>)
        requires
            0 <= start.index < old(self).source().len(),
            old(self).cursor() == start.index + 1,
            old(self).source()[start.index as int] == c,
        ensures
            final(self).source() == old(self).source(),
            lexeme_view(r) == token_at(old(self).source(), start.index as int).0,
            final(self).cursor() == token_at(old(self).source(), start.index as int).1,
    {
        let ghost src = self.source();
        let ghost first = start.index as int;
        if c == '\n' {
            Ok(Token::LineEnd)
        } else if c == '(' {
            Ok(Token::LPar)
        } else if c == ')' {
            Ok(Token::RPar)
        } else if c == '{' {
            Ok(Token::LBrace)
        } else if c == '}' {
            Ok(Token::RBrace)
        } else if c == '[' {
            Ok(Token::LBracket)
        } else if c == ']' {
            Ok(Token::RBracket)
        } else if c == '~' {
            Ok(Token::Tilde)
        } else if c == '+' {
            Ok(Token::Plus)
        } else if c == '*' {
            Ok(Token::Star)
        } else if c == '&' {
            Ok(Token::And)
        } else if c == ',' {
            Ok(Token::Comma)
        } else if c == '|' {
            Ok(Token::Or)
        } else if c == '=' {
            if self.at_char('>') {
                self.consume();
                Ok(Token::LBigArrow)
            } else {
                Ok(Token::Eq)
            }
        } else if c == '-' {
            if self.at_char('>') {
                self.consume();
                Ok(Token::LSmallArrow)
            } else {
                Err(Error::InvalidChar('-'))
            }
        } else if c == '/' {
            if self.at_char('/') {
                self.consume();
                while !self.at_char('\n') && self.peek().is_some()
                    invariant
                        self.source() == src,
                        first + 2 <= self.cursor() <= src.len(),
                        line_end(src, first + 2) == line_end(src, self.cursor()),
                    decreases src.len() - self.cursor(),
                {
                    self.consume();
                }
                proof {
                    use_type_invariant(&*self);
                }
                Ok(Token::Comment(string_of(&self.input, start.index + 2, self.at.index)))
            } else if self.at_char('*') {
                self.consume();
                let mut closed = false;
                while !closed && self.peek().is_some()
                    invariant
                        self.source() == src,
                        first + 2 <= self.cursor() <= src.len(),
                        !closed ==> block_end(src, first + 2) == block_end(src, self.cursor()),
                        closed ==> block_end(src, first + 2) + 2 == self.cursor(),
                    decreases src.len() - self.cursor() + (if closed { 0int } else { 1int }),
                {
                    let at_star = self.at_char('*');
                    self.consume();
                    if at_star && self.at_char('/') {
                        self.consume();
                        closed = true;
                    }
                }
                if closed {
                    proof {
                        use_type_invariant(&*self);
                        lemma_block_end_bounds(src, first + 2);
                    }
                    Ok(Token::Comment(string_of(&self.input, start.index + 2, self.at.index - 2)))
                } else {
                    Err(Error::UnclosedMultiLine)
                }
            } else {
                Err(Error::InvalidChar('/'))
            }
        } else if begin_ident(c) {
            while self.at_ident_part()
                invariant
                    self.source() == src,
                    first + 1 <= self.cursor() <= src.len(),
                    ident_end(src, first + 1) == ident_end(src, self.cursor()),
                decreases src.len() - self.cursor(),
            {
                self.consume();
            }
            proof {
                use_type_invariant(&*self);
            }
            Ok(Token::Ident(string_of(&self.input, start.index, self.at.index)))
        } else {
            Err(Error::InvalidChar(c))
        }
    }

    /// The next token or lexical error with its span, or nothing when only
    /// blanks are left. After an error the lexer goes on behind it.
    pub fn next(&mut self) -> (r: Option<Spanned<Result<Token, Error>>>)
        ensures
            final(self).source() == old(self).source(),
            match next_lexeme(old(self).source(), old(self).cursor()) {
                None => r is None && final(self).cursor() == old(self).source().len(),
                Some((lexeme, start, end)) => {
                    &&& r matches Some(found)
                    &&& lexeme_view(found.0) == lexeme
                    &&& found.1 == Span(
                        offset(old(self).source(), start) as usize,
                        offset(old(self).source(), end) as usize,
                    )
                    &&& found.1.wf()
                    &&& final(self).cursor() == end
                },
            },
    {
        let ghost src = self.source();
        let ghost from = self.cursor();
        proof {
            use_type_invariant(&*self);
        }
        while self.at_blank()
            invariant
                self.source() == src,
                from <= self.cursor() <= src.len(),
                skip_blanks(src, from) == skip_blanks(src, self.cursor()),
            decreases src.len() - self.cursor(),
        {
            self.consume();
        }
        let start = self.at;
        proof {
            use_type_invariant(&*self);
        }
        let c = match self.consume() {
            Some(c) => c,
            None => {
                return None;
            },
        };
        let lexeme = self.token_from(c, start);
        proof {
            use_type_invariant(&*self);
            lemma_token_at_bounds(src, start.index as int);
            lemma_utf8_len_prefix(src, start.index as int, self.at.index as int);
        }
        Some(Spanned(lexeme, Span(start.position, self.at.position)))
    }

    /// Every token and lexical error from the cursor to the end of the input.
    pub fn tokens(&mut self) -> (r: Vec<Spanned<Result<Token, Error>>>)
        ensures
            final(self).source() == old(self).source(),
            final(self).cursor() == old(self).source().len(),
            lexemes_views(r@) == lexemes_from(old(self).source(), old(self).cursor()),
    {
        let ghost src = self.source();
        let ghost from = self.cursor();
        let mut out: Vec<Spanned<Result<Token, Error>>> = Vec::new();
        proof {
            use_type_invariant(&*self);
            assert(lexemes_views(out@) =~= Seq::empty());
        }
        loop
            invariant
                self.source() == src,
                0 <= self.cursor() <= src.len(),
                lexemes_from(src, from) == lexemes_views(out@) + lexemes_from(src, self.cursor()),
            ensures
                self.source() == src,
                self.cursor() == src.len(),
                lexemes_from(src, from) == lexemes_views(out@),
            decreases src.len() - self.cursor(),
        {
            let ghost here = self.cursor();
            let ghost before = lexemes_views(out@);
            proof {
                lemma_next_lexeme_bounds(src, here);
            }
            match self.next() {
                Some(lexeme) => {
                    out.push(lexeme);
                    proof {
                        let (view, start, end) = next_lexeme(src, here)->0;
                        let item = (view, Span(offset(src, start) as usize, offset(src, end) as usize));
                        assert(lexemes_views(out@) =~= before.push(item));
                        assert(lexemes_from(src, here) =~= seq![item] + lexemes_from(src, end));
                        assert(before + (seq![item] + lexemes_from(src, end)) =~= before.push(item)
                            + lexemes_from(src, end));
                    }
                },
                None => {
                    proof {
                        assert(lexemes_from(src, here) =~= Seq::empty());
                        assert(before + Seq::empty() =~= before);
                    }
                    break;
                },
            }
        }
        out
    }
}

/// The tokens and errors of a sequence of lexer results, with their spans.
pub open spec fn lexemes_views(items: Seq<Spanned<Result<Token, Error>>>) -> Seq<
    (Result<TokenView, Error>, Span),
> {
    Seq::new(items.len(), |i: int| (lexeme_view(items[i].0), items[i].1))
}

/// Every token and error that the lexer yields from index `i` to the end of
/// the input, each with its span in bytes.
pub open spec fn lexemes_from(input: Seq<char>, i: int) -> Seq<(Result<TokenView, Error>, Span)>
    decreases input.len() - i,
{
    match next_lexeme(input, i) {
        Some((lexeme, start, end)) => if i <= start < end <= input.len() {
            seq![(lexeme, Span(offset(input, start) as usize, offset(input, end) as usize))]
                + lexemes_from(input, end)
        } else {
            Seq::empty()
        },
        None => Seq::empty(),
    }
}


/// Whether spans stand one behind the other: each ends no earlier than it
/// starts, each starts no earlier than `from` and no earlier than the one
/// before it ends, and each ends no later than `end`.
pub open spec fn in_order<T>(items: Seq<(T, Span)>, from: nat, end: nat) -> bool {
    &&& forall|i: int| 0 <= i < items.len() ==> (#[trigger] items[i]).1.wf()
    &&& forall|i: int| 0 <= i < items.len() ==> from <= (#[trigger] items[i]).1.0
    &&& forall|i: int| 0 <= i < items.len() ==> (#[trigger] items[i]).1.1 <= end
    &&& forall|i: int, j: int|
        0 <= i < j < items.len() ==> (#[trigger] items[i]).1.1 <= (#[trigger] items[j]).1.0
}

/// What the lexer yields stands in the order of the text: the spans are
/// well-formed, none starts before the one before it ends, and none ends
/// behind the end of the text.
pub proof fn lemma_lexemes_in_order(input: Seq<char>, i: int)
    requires
        0 <= i <= input.len(),
        utf8_len(input) <= usize::MAX,
    ensures
        in_order(lexemes_from(input, i), offset(input, i), utf8_len(input)),
    decreases input.len() - i,
{
    lemma_next_lexeme_bounds(input, i);
    match next_lexeme(input, i) {
        Some((lexeme, start, end)) => {
            lemma_lexemes_in_order(input, end);
            lemma_utf8_len_prefix(input, i, start);
            lemma_utf8_len_prefix(input, start, end);
            lemma_utf8_len_prefix(input, end, input.len() as int);
            assert(input.take(input.len() as int) =~= input);
            let first = (lexeme, Span(offset(input, start) as usize, offset(input, end) as usize));
            let rest = lexemes_from(input, end);
            let all = lexemes_from(input, i);
            assert(all =~= seq![first] + rest);
            assert forall|k: int| 0 <= k < all.len() implies (#[trigger] all[k]).1.wf() && offset(
                input,
                i,
            ) <= all[k].1.0 && all[k].1.1 <= utf8_len(input) by {
                if k > 0 {
                    assert(all[k] == rest[k - 1]);
                }
            }
            assert forall|k: int, l: int| 0 <= k < l < all.len() implies (#[trigger] all[k]).1.1 <= (
            #[trigger] all[l]).1.0 by {
                assert(all[l] == rest[l - 1]);
                if k > 0 {
                    assert(all[k] == rest[k - 1]);
                }
            }
        },
        None => {},
    }
}

} // verus!
