use alt::text::{char_is_white_space, chars_of, contains, to_lowercase, trim_bounds};

#[test]
fn chars_of_keeps_order() {
    assert_eq!(chars_of("aé€"), vec!['a', 'é', '€']);
}

#[test]
fn contains_finds_runs() {
    let hay = chars_of("gnu emacs");
    assert!(contains(&hay, &chars_of("emacs")));
    assert!(contains(&hay, &chars_of("")));
    assert!(contains(&hay, &chars_of("gnu emacs")));
    assert!(!contains(&hay, &chars_of("emacsx")));
    assert!(!contains(&hay, &chars_of("ema cs")));
}

#[test]
fn lowercase_maps_case() {
    assert_eq!(to_lowercase("GNU Emacs"), "gnu emacs");
    assert_eq!(to_lowercase("ÀÉ"), "àé");
}

#[test]
fn white_space_is_unicode_white_space() {
    for c in [' ', '\t', '\n', '\u{b}', '\u{c}', '\r', '\u{85}', '\u{a0}', '\u{1680}', '\u{2000}', '\u{200a}', '\u{2028}', '\u{2029}', '\u{202f}', '\u{205f}', '\u{3000}'] {
        assert!(char_is_white_space(c), "{:?}", c);
    }
    for c in ['a', ':', '\u{200b}', '\u{0}', '_'] {
        assert!(!char_is_white_space(c), "{:?}", c);
    }
}

#[test]
fn trim_bounds_skips_outer_space() {
    let cs = chars_of("  ab c \t");
    assert_eq!(trim_bounds(&cs, 0, cs.len()), (2, 6));
    assert_eq!(trim_bounds(&cs, 0, 2), (2, 2));
}
