use cad_extraction::mtext::decode_cad_text;

#[test]
fn plain_text_is_unchanged() {
    assert_eq!(decode_cad_text("Door 1 (left)"), "Door 1 (left)");
    assert_eq!(decode_cad_text(""), "");
}

#[test]
fn paragraphs_spaces_and_braces() {
    assert_eq!(decode_cad_text("{Line one\\PLine two}"), "Line one\nLine two");
    assert_eq!(decode_cad_text("a\\~b"), "a b");
    assert_eq!(decode_cad_text("\\Lunder\\l \\Oover\\o"), "under over");
}

#[test]
fn argument_codes_vanish_and_stacks_show_a_slash() {
    assert_eq!(decode_cad_text("{\\fArial|b0|i0;Title}"), "Title");
    assert_eq!(decode_cad_text("\\H2.5x;Big\\C1;red"), "Bigred");
    assert_eq!(decode_cad_text("1\\S1^2;\""), "11/2\"");
    assert_eq!(decode_cad_text("\\S3#4;"), "3/4");
    // without a closing `;` the code stays in the text
    assert_eq!(decode_cad_text("\\Hbig"), "\\Hbig");
}

#[test]
fn unicode_escapes() {
    assert_eq!(decode_cad_text("\\U+00B0C"), "\u{b0}C");
    assert_eq!(decode_cad_text("\\U+4E2D\\U+6587"), "\u{4e2d}\u{6587}");
    // `+` and three digits is read as a number too
    assert_eq!(decode_cad_text("\\U++41A"), "\u{41a}");
    // a surrogate or a bad digit is no character: the backslash stays
    assert_eq!(decode_cad_text("\\U+D800"), "\\U+D800");
    assert_eq!(decode_cad_text("\\U+12G4"), "\\U+12G4");
    // too short
    assert_eq!(decode_cad_text("\\U+41"), "\\U+41");
}

#[test]
fn unknown_and_trailing_backslashes_stay() {
    assert_eq!(decode_cad_text("a\\\\b"), "a\\\\b");
    assert_eq!(decode_cad_text("end\\"), "end\\");
    assert_eq!(decode_cad_text("\\x"), "\\x");
}
