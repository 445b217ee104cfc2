use automata::loader::{delta_name, epsilon_name, gamma_name, sigma_name, Span, Spanned};
use automata::text::{
    ascii, ascii_letter, begin_ident, chars_of, continue_ident, is_word, join2, join3, join4,
    len_utf16, len_utf8, space, string_of,
};

#[test]
fn characters_have_their_encoded_widths() {
    for c in ['\0', 'a', '\u{7f}', '\u{80}', 'δ', '\u{7ff}', '\u{800}', '∑', '\u{ffff}', '𝛆', '\u{10ffff}'] {
        assert_eq!(len_utf8(c), c.len_utf8(), "{c:?}");
        assert_eq!(len_utf16(c), c.len_utf16(), "{c:?}");
    }
}

#[test]
fn characters_are_classified_as_the_lexer_needs() {
    for c in ['a', 'Z', '_', 'δ', '∑', '𝛆'] {
        assert!(begin_ident(c), "{c:?}");
        assert!(continue_ident(c), "{c:?}");
    }
    for c in ['0', '9'] {
        assert!(!begin_ident(c), "{c:?}");
        assert!(continue_ident(c), "{c:?}");
    }
    for c in [' ', '\n', '-', '~', '(', '\u{7f}', '\u{80}', '\u{85}', '\u{2003}'] {
        assert!(!begin_ident(c), "{c:?}");
        assert!(!continue_ident(c), "{c:?}");
    }
    for c in [' ', '\t', '\n', '\r', '\u{b}', '\u{c}', '\u{85}', '\u{a0}', '\u{2003}'] {
        assert!(space(c), "{c:?}");
    }
    for c in ['a', '_', '\0', '\u{8}', '\u{e}', '\u{80}', 'δ'] {
        assert!(!space(c), "{c:?}");
    }
    assert!(ascii('\u{7f}') && !ascii('\u{80}'));
    assert!(ascii_letter('q') && ascii_letter('Q') && !ascii_letter('1') && !ascii_letter('δ'));
}

#[test]
fn strings_are_taken_apart_and_put_together() {
    let chars = chars_of("aδ𝛆b");
    assert_eq!(chars, vec!['a', 'δ', '𝛆', 'b']);
    assert_eq!(string_of(&chars, 1, 3), "δ𝛆");
    assert_eq!(string_of(&chars, 2, 2), "");
    assert_eq!(string_of(&chars, 0, 4), "aδ𝛆b");
    assert_eq!(join2("a", "b"), "ab");
    assert_eq!(join3("a", "", "c"), "ac");
    assert_eq!(join4("a", "b", "c", "d"), "abcd");
    assert!(is_word(&"delta".to_string(), "delta"));
    assert!(!is_word(&"delta".to_string(), "delt"));
}

#[test]
fn keywords_have_their_spellings() {
    let is = |f: fn(&String) -> bool, names: &[&str]| names.iter().all(|n| f(&n.to_string()));
    let none = |f: fn(&String) -> bool, names: &[&str]| !names.iter().any(|n| f(&n.to_string()));
    assert!(is(
        epsilon_name,
        &["epsilon", "~", "Ɛ", "ε", "ϵ", "𝛆", "𝛜", "𝜀", "𝜖", "𝜺", "𝝐", "𝝴", "𝞊", "𝞮", "𝟄", "ɛ"]
    ));
    assert!(none(epsilon_name, &["e", "Epsilon", "eps", ""]));
    assert!(is(delta_name, &["delta", "D", "d", "ẟ", "δ", "𝛅", "𝛿", "𝜹", "𝝳", "𝞭"]));
    assert!(none(delta_name, &["Delta", "f", "Δ"]));
    assert!(is(sigma_name, &["E", "S", "sigma", "Σ", "𝚺", "𝛴", "𝜮", "𝝨", "𝞢", "∑"]));
    assert!(none(sigma_name, &["e", "s", "Sigma", "σ"]));
    assert!(is(gamma_name, &["T", "G", "gamma", "Γ", "Ⲅ", "𝚪", "𝛤", "𝜞", "𝝘", "𝞒"]));
    assert!(none(gamma_name, &["t", "g", "Gamma", "γ"]));
}

#[test]
fn spanned_values_keep_their_span() {
    let spanned = Spanned(2u8, Span(3, 5));
    assert_eq!(spanned.as_ref(), Spanned(&2u8, Span(3, 5)));
    assert_eq!(spanned.map(|x| x + 1), Spanned(3u8, Span(3, 5)));
}
