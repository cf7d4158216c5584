use mdbook_fluent::address::{parse_address, TagAddress};
use mdbook_fluent::error::AddressError;
use mdbook_fluent::scan::{
    find_closing, find_opening, is_closing, is_opening, scan_tags, TagSpan, CLOSING_LEN,
    OPENING_LEN,
};
use mdbook_fluent::text::{chars_of, split_between, string_of, trim_bounds, whitespace};

fn letters(text: &str) -> Vec<char> {
    text.chars().collect()
}

fn address(catalog: &str, message: &str, attribute: Option<&str>) -> TagAddress {
    TagAddress {
        catalog: catalog.to_string(),
        message: message.to_string(),
        attribute: attribute.map(|name| name.to_string()),
    }
}

#[test]
fn marker_lengths() {
    assert_eq!(OPENING_LEN, "{{#fluent".len());
    assert_eq!(CLOSING_LEN, "}}".len());
}

#[test]
fn opening_marker_is_recognised_where_it_stands() {
    let text = letters("ab{{#fluent x}}");
    assert!(is_opening(&text, 2));
    assert!(!is_opening(&text, 0));
    assert!(!is_opening(&text, 3));
    assert!(!is_opening(&text, 7));
    assert!(!is_opening(&text, 100));
    assert!(!is_opening(&letters("{{#fluen"), 0));
    assert!(!is_opening(&letters("{{#Fluent"), 0));
    assert!(is_opening(&letters("{{#fluent"), 0));
}

#[test]
fn closing_marker_is_recognised_where_it_stands() {
    let text = letters("a}b}}");
    assert!(!is_closing(&text, 1));
    assert!(is_closing(&text, 3));
    assert!(!is_closing(&text, 4));
    assert!(!is_closing(&text, 5));
    assert!(!is_closing(&letters("}"), 0));
}

#[test]
fn first_marker_at_or_after_a_position() {
    let text = letters("{{#fluent a}} {{#fluent b}}");
    assert_eq!(find_opening(&text, 0), Some(0));
    assert_eq!(find_opening(&text, 1), Some(14));
    assert_eq!(find_opening(&text, 14), Some(14));
    assert_eq!(find_opening(&text, 15), None);
    assert_eq!(find_opening(&text, 1000), None);
    assert_eq!(find_closing(&text, 0), Some(11));
    assert_eq!(find_closing(&text, 12), Some(25));
    assert_eq!(find_closing(&text, 26), None);
}

#[test]
fn scan_finds_every_tag_in_order() {
    assert_eq!(scan_tags(&letters("")), Ok(vec![]));
    assert_eq!(scan_tags(&letters("no tags }} here {{")), Ok(vec![]));
    assert_eq!(
        scan_tags(&letters("{{#fluent a.b}}")),
        Ok(vec![TagSpan { start: 0, end: 13 }])
    );
    assert_eq!(
        scan_tags(&letters("x{{#fluent a.b}}y{{#fluent}}{{#fluent c.d.e}}")),
        Ok(vec![
            TagSpan { start: 1, end: 14 },
            TagSpan { start: 17, end: 26 },
            TagSpan { start: 28, end: 43 },
        ])
    );
}

#[test]
fn scan_counts_characters() {
    assert_eq!(
        scan_tags(&letters("日本語{{#fluent あ.い}}")),
        Ok(vec![TagSpan { start: 3, end: 16 }])
    );
}

#[test]
fn scan_reports_the_unclosed_tag() {
    assert_eq!(scan_tags(&letters("{{#fluent a.b}} {{#fluent c.d}")), Err(16));
    assert_eq!(scan_tags(&letters("abc{{#fluent")), Err(3));
}

#[test]
fn scan_looks_for_the_next_tag_behind_the_closing_marker() {
    assert_eq!(
        scan_tags(&letters("{{#fluent {{#fluent a.b}} {{#fluent c.d}}")),
        Ok(vec![TagSpan { start: 0, end: 23 }, TagSpan { start: 26, end: 39 }])
    );
}

#[test]
fn two_and_three_components_are_an_address() {
    assert_eq!(TagAddress::parse("ch01.greeting"), Ok(address("ch01", "greeting", None)));
    assert_eq!(
        TagAddress::parse("ch01.greeting.formal"),
        Ok(address("ch01", "greeting", Some("formal")))
    );
    assert_eq!(
        parse_address(&letters(" ch01.greeting ")),
        Ok(address("ch01", "greeting", None))
    );
}

#[test]
fn only_the_ends_of_an_address_are_trimmed() {
    assert_eq!(
        TagAddress::parse("\u{a0}\tch 01. gree ting\u{3000}\r\n"),
        Ok(address("ch 01", " gree ting", None))
    );
    assert_eq!(TagAddress::parse(" a . b . c "), Ok(address("a ", " b ", Some(" c"))));
}

#[test]
fn address_errors_by_kind() {
    assert_eq!(TagAddress::parse(""), Err(AddressError::Empty));
    assert_eq!(TagAddress::parse(" \t\n"), Err(AddressError::Empty));
    assert_eq!(TagAddress::parse("onlyfile"), Err(AddressError::TooFewComponents));
    assert_eq!(TagAddress::parse("a.b.c.d"), Err(AddressError::TooManyComponents));
    assert_eq!(TagAddress::parse("...."), Err(AddressError::TooManyComponents));
    assert_eq!(TagAddress::parse("."), Err(AddressError::EmptyCatalog));
    assert_eq!(TagAddress::parse(".b"), Err(AddressError::EmptyCatalog));
    assert_eq!(TagAddress::parse("a."), Err(AddressError::EmptyMessage));
    assert_eq!(TagAddress::parse("a..c"), Err(AddressError::EmptyMessage));
    assert_eq!(TagAddress::parse("a.b."), Err(AddressError::EmptyAttribute));
    assert_eq!(TagAddress::parse(".."), Err(AddressError::EmptyCatalog));
}

#[test]
fn whitespace_is_what_unicode_says() {
    for c in ['\t', '\n', '\u{b}', '\u{c}', '\r', ' ', '\u{85}', '\u{a0}', '\u{1680}', '\u{2000}',
        '\u{2005}', '\u{200a}', '\u{2028}', '\u{2029}', '\u{202f}', '\u{205f}', '\u{3000}']
    {
        assert!(whitespace(c));
        assert!(c.is_whitespace());
    }
    for c in ['a', '.', '\u{8}', '\u{e}', '\u{1f}', '\u{200b}', '\u{feff}', '\u{180e}', '\u{2060}'] {
        assert!(!whitespace(c));
        assert!(!c.is_whitespace());
    }
}

#[test]
fn whitespace_agrees_with_std_on_every_character() {
    let mut code = 0u32;
    while code <= 0x10ffff {
        if let Some(c) = char::from_u32(code) {
            assert_eq!(whitespace(c), c.is_whitespace());
        }
        code += 1;
    }
}

#[test]
fn trim_bounds_mark_the_trimmed_part() {
    assert_eq!(trim_bounds(&letters("  ab c \n")), (2, 6));
    assert_eq!(trim_bounds(&letters("abc")), (0, 3));
    assert_eq!(trim_bounds(&letters("")), (0, 0));
    assert_eq!(trim_bounds(&letters(" \t ")), (3, 3));
    assert_eq!(trim_bounds(&letters("x ")), (0, 1));
}

#[test]
fn split_gives_one_piece_more_than_separators() {
    let text = letters("a.bc..d");
    assert_eq!(
        split_between(&text, 0, 7, '.'),
        vec![letters("a"), letters("bc"), letters(""), letters("d")]
    );
    assert_eq!(split_between(&text, 2, 4, '.'), vec![letters("bc")]);
    assert_eq!(split_between(&text, 3, 3, '.'), vec![letters("")]);
    assert_eq!(split_between(&text, 1, 2, '.'), vec![letters(""), letters("")]);
}

#[test]
fn characters_and_strings_convert_both_ways() {
    assert_eq!(chars_of("héllo ✓"), letters("héllo ✓"));
    assert_eq!(string_of(&letters("héllo ✓")), "héllo ✓");
    assert_eq!(chars_of(""), Vec::<char>::new());
    assert_eq!(string_of(&[]), "");
}
