use bidi::get_base_level;
use bidi::get_base_level_inner;
use bidi::get_display_inner;
use bidi::get_display_order;
use bidi::BaseDirection;
use bidi::BidiError;

fn sorted_chars(s: &str) -> Vec<char> {
    let mut v: Vec<char> = s.chars().collect();
    v.sort();
    v
}

#[test]
fn base_level_latin_is_ltr() {
    assert_eq!(get_base_level("Hello"), Ok(0));
}

#[test]
fn base_level_hebrew_is_rtl() {
    assert_eq!(get_base_level("שלום"), Ok(1));
}

#[test]
fn base_level_empty_fails() {
    assert_eq!(get_base_level(""), Err(BidiError::EmptyInput));
    assert_eq!(get_base_level_inner(""), Err(BidiError::EmptyInput));
}

#[test]
fn base_level_inner_matches() {
    assert_eq!(get_base_level_inner("Hello"), Ok(0));
    assert_eq!(get_base_level_inner("שלום"), Ok(1));
}

#[test]
fn base_level_neutral_defaults_ltr() {
    assert_eq!(get_base_level("123 ..."), Ok(0));
}

#[test]
fn display_force_ltr_plain() {
    assert_eq!(get_display_inner("abc", Some('L'), false).unwrap(), "abc");
}

#[test]
fn display_force_rtl_keeps_latin_run() {
    assert_eq!(get_display_order("abc", BaseDirection::ForceRtl, false), "abc");
}

#[test]
fn display_invalid_override_rejected() {
    assert_eq!(
        get_display_inner("abc", Some('X'), false),
        Err(BidiError::InvalidArgument)
    );
}

#[test]
fn display_auto_accepts_none_override() {
    assert_eq!(get_display_inner("abc", None, false).unwrap(), "abc");
}

#[test]
fn display_pure_ltr_unchanged() {
    assert_eq!(
        get_display_order("The quick brown fox.", BaseDirection::Auto, false),
        "The quick brown fox."
    );
}

#[test]
fn display_pure_rtl_reversed() {
    assert_eq!(get_display_order("שלום", BaseDirection::Auto, false), "םולש");
}

#[test]
fn display_mixed_reorders_only_rtl_run() {
    assert_eq!(
        get_display_order("abc שלום def", BaseDirection::Auto, false),
        "abc םולש def"
    );
}

#[test]
fn display_rtl_base_with_number() {
    assert_eq!(
        get_display_order("שלום 123", BaseDirection::Auto, false),
        "123 םולש"
    );
}

#[test]
fn display_two_paragraphs() {
    assert_eq!(
        get_display_order("abc\nשלום", BaseDirection::Auto, false),
        "abc\nםולש"
    );
}

#[test]
fn display_preserves_characters() {
    let text = "abc שלום def 123 ...";
    let out = get_display_order(text, BaseDirection::Auto, false);
    assert_eq!(out.chars().count(), text.chars().count());
    assert_eq!(sorted_chars(&out), sorted_chars(text));
}

#[test]
fn display_is_deterministic() {
    let text = "abc שלום 123\nhello";
    let a = get_display_order(text, BaseDirection::Auto, false);
    let b = get_display_order(text, BaseDirection::Auto, false);
    assert_eq!(a, b);
}

#[test]
fn display_empty_text() {
    assert_eq!(get_display_order("", BaseDirection::Auto, false), "");
}

#[test]
fn debug_dump_exposes_levels_and_paragraphs() {
    let dump = get_display_order("Hello", BaseDirection::Auto, true);
    assert!(dump.contains("paragraphs: 1"));
    assert!(dump.contains("para 0: range 0..5 level 0"));
    assert!(dump.contains("levels: 0 0 0 0 0"));
    assert!(dump.contains("classes: L L L L L"));
}

#[test]
fn debug_dump_rtl_paragraph() {
    let dump = get_display_order("שלום", BaseDirection::Auto, true);
    assert!(dump.contains("para 0: range 0..4 level 1"));
    assert!(dump.contains("levels: 1 1 1 1"));
    assert!(dump.contains("classes: R R R R"));
}

#[test]
fn debug_dump_is_deterministic() {
    let a = get_display_inner("abc שלום", None, true).unwrap();
    let b = get_display_inner("abc שלום", None, true).unwrap();
    assert_eq!(a, b);
}

#[test]
fn error_messages() {
    assert_eq!(
        BidiError::InvalidArgument.message(),
        "base_dir can be 'L', 'R' or None"
    );
    assert_eq!(BidiError::EmptyInput.message(), "Text contains no paragraphs");
}

#[test]
fn display_trailing_whitespace_resets() {
    // Rule L1: the trailing space returns to the paragraph level and so ends
    // up leading the right-to-left display.
    assert_eq!(get_display_order("שלום ", BaseDirection::Auto, false), " םולש");
}

#[test]
fn display_force_rtl_moves_latin_left_of_context() {
    // Forced RTL base: a lone LTR run keeps its internal order.
    assert_eq!(get_display_order("abc def", BaseDirection::ForceRtl, false), "abc def");
}

#[test]
fn display_embedding_codes_keep_ltr_content() {
    // LRE/RLE pushes raise the level of "def" to 2; two reversal passes
    // cancel, so the display equals the input.
    let text = "abc \u{202B}def\u{202C} ghi";
    assert_eq!(get_display_order(text, BaseDirection::Auto, false), text);
}

#[test]
fn display_rtl_override_reverses_latin() {
    // RLO forces "def" to class R at level 1, so it is displayed reversed.
    assert_eq!(
        get_display_order("abc\u{202E}def\u{202C}", BaseDirection::Auto, false),
        "abc\u{202E}fed\u{202C}"
    );
}

#[test]
fn display_isolated_rtl_run() {
    // The RLI..PDI isolate reverses only the Hebrew inside it.
    assert_eq!(
        get_display_order("abc \u{2067}שלום\u{2069} def", BaseDirection::Auto, false),
        "abc \u{2067}םולש\u{2069} def"
    );
}

#[test]
fn base_level_skips_isolate_contents() {
    // Rule P2: the Hebrew inside the isolate does not decide the base level;
    // the first strong character outside it is 'x'.
    assert_eq!(get_base_level("\u{2067}שלום\u{2069}x"), Ok(0));
    assert_eq!(get_base_level("\u{2067}שלום\u{2069}"), Ok(0));
}

#[test]
fn display_number_separator_binds_digits() {
    // Rule W4: the '-' between two European numbers becomes a number itself,
    // so "1-2" travels as one left-to-right run.
    assert_eq!(get_display_order("א 1-2", BaseDirection::Auto, false), "1-2 א");
}

#[test]
fn display_arabic_numbers_after_arabic_letters() {
    // Rule W2: the digits after Arabic letters become Arabic numbers; the
    // line is displayed right to left with the digits kept left-to-right.
    assert_eq!(get_display_order("عدد 123", BaseDirection::Auto, false), "123 ددع");
}
