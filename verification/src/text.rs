//! Characters and strings: classification of characters, their encoded
//! widths, and conversions between `str`, `String` and sequences of `char`.

use vstd::prelude::*;
use vstd::string::*;

verus! {

/// `String::push` appends one character to the end of the string.
pub assume_specification[ String::push ](s: &mut String, c: char)
    ensures
        final(s)@ == old(s)@.push(c),
;

/// What `char::is_alphabetic` answers for a character.
pub uninterp spec fn unicode_alphabetic(c: char) -> bool;

/// What `char::is_alphanumeric` answers for a character.
pub uninterp spec fn unicode_alphanumeric(c: char) -> bool;

/// What `char::is_whitespace` answers for a character.
pub uninterp spec fn unicode_whitespace(c: char) -> bool;

/// What `char::is_control` answers for a character.
pub uninterp spec fn unicode_control(c: char) -> bool;

/// Calls `char::is_alphabetic`, whose answer comes from the Unicode tables
/// and is only named here.
#[verifier::external_body]
fn std_is_alphabetic(c: char) -> (b: bool)
    ensures
        b == unicode_alphabetic(c),
{
    c.is_alphabetic()
}

/// Calls `char::is_alphanumeric`, whose answer comes from the Unicode tables
/// and is only named here.
#[verifier::external_body]
fn std_is_alphanumeric(c: char) -> (b: bool)
    ensures
        b == unicode_alphanumeric(c),
{
    c.is_alphanumeric()
}

/// Calls `char::is_whitespace`, whose answer comes from the Unicode tables
/// and is only named here.
#[verifier::external_body]
fn std_is_whitespace(c: char) -> (b: bool)
    ensures
        b == unicode_whitespace(c),
{
    c.is_whitespace()
}

/// Calls `char::is_control`, whose answer comes from the Unicode tables and
/// is only named here.
#[verifier::external_body]
fn std_is_control(c: char) -> (b: bool)
    ensures
        b == unicode_control(c),
{
    c.is_control()
}

/// What formatting a string with `{:?}` gives: the text in double quotes,
/// with escapes.
pub uninterp spec fn debug_text(s: Seq<char>) -> Seq<char>;

/// What formatting a character with `{:?}` gives: the character in single
/// quotes, with escapes.
pub uninterp spec fn debug_char_text(c: char) -> Seq<char>;

/// Formats a string with `{:?}`; the result is only named here.
#[verifier::external_body]
pub(crate) fn debug_str(s: &str) -> (r: String)
    ensures
        r@ == debug_text(s@),
{
    format!("{:?}", s)
}

/// Formats a character with `{:?}`; the result is only named here.
#[verifier::external_body]
pub(crate) fn debug_char(c: char) -> (r: String)
    ensures
        r@ == debug_char_text(c),
{
    format!("{:?}", c)
}

/// The text `a` followed by the text `b`.
pub fn join2(a: &str, b: &str) -> (r: String)
    ensures
        r@ == a@ + b@,
{
    let mut r = String::from_str(a);
    r.append(b);
    r
}

/// The texts `a`, `b` and `c`, one after the other.
pub fn join3(a: &str, b: &str, c: &str) -> (r: String)
    ensures
        r@ == a@ + b@ + c@,
{
    let mut r = String::from_str(a);
    r.append(b);
    r.append(c);
    r
}

/// The texts `a`, `b`, `c` and `d`, one after the other.
pub fn join4(a: &str, b: &str, c: &str, d: &str) -> (r: String)
    ensures
        r@ == a@ + b@ + c@ + d@,
{
    let mut r = String::from_str(a);
    r.append(b);
    r.append(c);
    r.append(d);
    r
}

pub open spec fn is_ascii_char(c: char) -> bool {
    (c as u32) < 0x80
}

pub open spec fn is_ascii_letter(c: char) -> bool {
    ('a' <= c && c <= 'z') || ('A' <= c && c <= 'Z')
}

pub open spec fn is_ascii_digit(c: char) -> bool {
    '0' <= c && c <= '9'
}

/// Space, tab, line feed, vertical tab, form feed and carriage return.
pub open spec fn is_ascii_space(c: char) -> bool {
    c == ' ' || ('\x09' <= c && c <= '\x0d')
}

/// Whether a character separates tokens without being one.
pub open spec fn is_space(c: char) -> bool {
    if is_ascii_char(c) {
        is_ascii_space(c)
    } else {
        unicode_whitespace(c)
    }
}

/// Whether a character can start an identifier: a letter, an underscore, or
/// any character outside ASCII that is neither a control code nor white space.
pub open spec fn is_ident_start(c: char) -> bool {
    if is_ascii_char(c) {
        is_ascii_letter(c) || c == '_'
    } else {
        unicode_alphabetic(c) || (!unicode_control(c) && !unicode_whitespace(c))
    }
}

/// Whether a character can continue an identifier: as for the start, and
/// digits as well.
pub open spec fn is_ident_part(c: char) -> bool {
    if is_ascii_char(c) {
        is_ascii_letter(c) || is_ascii_digit(c) || c == '_'
    } else {
        unicode_alphanumeric(c) || (!unicode_control(c) && !unicode_whitespace(c))
    }
}

/// The number of bytes a character takes in UTF-8.
pub open spec fn utf8_width(c: char) -> nat {
    if (c as u32) < 0x80 {
        1
    } else if (c as u32) < 0x800 {
        2
    } else if (c as u32) < 0x10000 {
        3
    } else {
        4
    }
}

/// The number of code units a character takes in UTF-16.
pub open spec fn utf16_width(c: char) -> nat {
    if (c as u32) < 0x10000 {
        1
    } else {
        2
    }
}

/// The number of bytes a sequence of characters takes in UTF-8.
pub open spec fn utf8_len(s: Seq<char>) -> nat
    decreases s.len(),
{
    if s.len() == 0 {
        0
    } else {
        utf8_len(s.drop_last()) + utf8_width(s.last())
    }
}

/// The number of code units a sequence of characters takes in UTF-16.
pub open spec fn utf16_len(s: Seq<char>) -> nat
    decreases s.len(),
{
    if s.len() == 0 {
        0
    } else {
        utf16_len(s.drop_last()) + utf16_width(s.last())
    }
}

/// The encoded length grows with the prefix, by at least one byte and at most
/// four for each character.
pub proof fn lemma_utf8_len_prefix(s: Seq<char>, i: int, j: int)
    requires
        0 <= i <= j <= s.len(),
    ensures
        utf8_len(s.take(i)) + (j - i) <= utf8_len(s.take(j)),
        utf8_len(s.take(j)) <= utf8_len(s.take(i)) + 4 * (j - i),
    decreases j - i,
{
    if i < j {
        lemma_utf8_len_prefix(s, i, j - 1);
        assert(s.take(j).drop_last() =~= s.take(j - 1));
    }
}

pub proof fn lemma_utf8_len_step(s: Seq<char>, i: int)
    requires
        0 <= i < s.len(),
    ensures
        utf8_len(s.take(i + 1)) == utf8_len(s.take(i)) + utf8_width(s[i]),
{
    assert(s.take(i + 1).drop_last() =~= s.take(i));
}

pub proof fn lemma_utf16_len_step(s: Seq<char>, i: int)
    requires
        0 <= i < s.len(),
    ensures
        utf16_len(s.take(i + 1)) == utf16_len(s.take(i)) + utf16_width(s[i]),
{
    assert(s.take(i + 1).drop_last() =~= s.take(i));
}

/// The sum of the encoded widths of the first character and of the rest.
pub proof fn lemma_utf8_len_front(s: Seq<char>)
    requires
        s.len() > 0,
    ensures
        utf8_len(s) == utf8_width(s[0]) + utf8_len(s.drop_first()),
    decreases s.len(),
{
    if s.len() == 1 {
        assert(s.drop_last() =~= Seq::<char>::empty());
        assert(s.drop_first() =~= Seq::<char>::empty());
    } else {
        lemma_utf8_len_front(s.drop_last());
        assert(s.drop_first().drop_last() =~= s.drop_last().drop_first());
    }
}

/// The widths add up to the length of the UTF-8 encoding.
pub proof fn lemma_encoded_len(s: Seq<char>)
    ensures
        vstd::utf8::encode_utf8(s).len() == utf8_len(s),
    decreases s.len(),
{
    if s.len() > 0 {
        lemma_utf8_len_front(s);
        lemma_encoded_len(s.drop_first());
        vstd::utf8::char_is_scalar(s[0]);
    }
}

/// The UTF-16 length of a prefix grows with the prefix, and never exceeds
/// the UTF-8 length.
pub proof fn lemma_utf16_len_prefix(s: Seq<char>, i: int, j: int)
    requires
        0 <= i <= j <= s.len(),
    ensures
        utf16_len(s.take(i)) <= utf16_len(s.take(j)),
        utf16_len(s.take(j)) <= utf8_len(s.take(j)),
    decreases j,
{
    if j > 0 {
        if i < j {
            lemma_utf16_len_prefix(s, i, j - 1);
        } else {
            lemma_utf16_len_prefix(s, j - 1, j - 1);
        }
        assert(s.take(j).drop_last() =~= s.take(j - 1));
    }
}

pub fn ascii(c: char) -> (b: bool)
    ensures
        b == is_ascii_char(c),
{
    c <= '\x7f'
}

pub fn ascii_letter(c: char) -> (b: bool)
    ensures
        b == is_ascii_letter(c),
{
    ('a' <= c && c <= 'z') || ('A' <= c && c <= 'Z')
}

pub fn space(c: char) -> (b: bool)
    ensures
        b == is_space(c),
{
    if ascii(c) {
        c == ' ' || ('\x09' <= c && c <= '\x0d')
    } else {
        std_is_whitespace(c)
    }
}

pub fn begin_ident(c: char) -> (b: bool)
    ensures
        b == is_ident_start(c),
{
    if ascii(c) {
        ascii_letter(c) || c == '_'
    } else {
        std_is_alphabetic(c) || (!std_is_control(c) && !std_is_whitespace(c))
    }
}

pub fn continue_ident(c: char) -> (b: bool)
    ensures
        b == is_ident_part(c),
{
    if ascii(c) {
        ascii_letter(c) || ('0' <= c && c <= '9') || c == '_'
    } else {
        std_is_alphanumeric(c) || (!std_is_control(c) && !std_is_whitespace(c))
    }
}

pub fn len_utf8(c: char) -> (n: usize)
    ensures
        n == utf8_width(c),
        1 <= n <= 4,
{
    if c <= '\x7f' {
        1
    } else if c <= '\u{7ff}' {
        2
    } else if c <= '\u{ffff}' {
        3
    } else {
        4
    }
}

pub fn len_utf16(c: char) -> (n: usize)
    ensures
        n == utf16_width(c),
        1 <= n <= 2,
{
    if c <= '\u{ffff}' {
        1
    } else {
        2
    }
}

/// The characters of a string slice, in order.
pub fn chars_of(s: &str) -> (v: Vec<char>)
    ensures
        v@ == s@,
{
    let mut v: Vec<char> = Vec::new();
    for c in it: s.chars()
        invariant
            v@ == it.seq().take(it.index() as int),
            it.seq() == s@,
    {
        v.push(c);
    }
    v
}

/// The string made of the characters `chars[from..to]`.
pub fn string_of(chars: &Vec<char>, from: usize, to: usize) -> (s: String)
    requires
        from <= to <= chars.len(),
    ensures
        s@ == chars@.subrange(from as int, to as int),
{
    let mut s = String::new();
    let mut i: usize = from;
    while i < to
        invariant
            from <= i <= to <= chars.len(),
            s@ == chars@.subrange(from as int, i as int),
        decreases to - i,
    {
        s.push(chars[i]);
        i += 1;
    }
    s
}

/// Whether a string holds exactly the characters of `word`.
pub fn is_word(s: &String, word: &str) -> (b: bool)
    ensures
        b == (s@ == word@),
{
    let other = word.to_owned();
    *s == other
}

} // verus!
