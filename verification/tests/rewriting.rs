use mdbook_fluent::catalog::CatalogStore;
use mdbook_fluent::error::{AddressError, ResolveError, RewriteError, TagError};
use mdbook_fluent::rewrite::{
    replace_range, resolve_tag, resolve_tags, rewrite, rewrite_chars, rewrite_text, splice_tags,
};
use mdbook_fluent::scan::TagSpan;

const CH01: &str = "greeting = Hello, world!\n    .formal = Good day.\nonly-attributes =\n    .label = Label\n-brand = Fluent\nwelcome = Welcome to { -brand }!\n";

fn store() -> CatalogStore {
    let mut store = CatalogStore::new();
    store.register("ch01".to_string(), CH01.to_string()).unwrap();
    store
        .register("ch02".to_string(), "title = Zweites Kapitel\n".to_string())
        .unwrap();
    store
}

fn chars(text: &str) -> Vec<char> {
    text.chars().collect()
}

fn fails(content: &str) -> RewriteError {
    let store = store();
    let mut buffer = content.to_string();
    let error = rewrite(&mut buffer, &store).unwrap_err();
    assert_eq!(buffer, content);
    assert_eq!(rewrite_text(content, &store), Err(error));
    error
}

#[test]
fn text_without_tags_is_unchanged() {
    let store = store();
    for content in ["", "plain text", "{{ not a tag }}", "{{#fluen t}}", "}} {{# fluent", "日本語 {{#flu"] {
        let mut buffer = content.to_string();
        assert_eq!(rewrite(&mut buffer, &store), Ok(()));
        assert_eq!(buffer, content);
    }
}

#[test]
fn text_without_tags_is_unchanged_with_an_empty_store() {
    let store = CatalogStore::new();
    let mut buffer = "nothing to do here".to_string();
    assert_eq!(rewrite(&mut buffer, &store), Ok(()));
    assert_eq!(buffer, "nothing to do here");
}

#[test]
fn greeting_round_trip() {
    let mut store = CatalogStore::new();
    store
        .register("ch01".to_string(), "greeting = Hello, world!".to_string())
        .unwrap();
    let mut buffer = "{{#fluent ch01.greeting}}".to_string();
    assert_eq!(rewrite(&mut buffer, &store), Ok(()));
    assert_eq!(buffer, "Hello, world!");
}

#[test]
fn single_tag_keeps_what_surrounds_it() {
    let store = store();
    let mut buffer = "before {{#fluent ch01.greeting}} after".to_string();
    assert_eq!(rewrite(&mut buffer, &store), Ok(()));
    assert_eq!(buffer, "before Hello, world! after");
}

#[test]
fn attribute_is_addressed_by_a_third_component() {
    let store = store();
    let mut buffer = "{{#fluent ch01.greeting.formal}}".to_string();
    assert_eq!(rewrite(&mut buffer, &store), Ok(()));
    assert_eq!(buffer, "Good day.");
}

#[test]
fn value_is_formatted_by_the_bundle() {
    let store = store();
    assert_eq!(
        rewrite_text("{{#fluent ch01.welcome}}", &store),
        Ok("Welcome to Fluent!".to_string())
    );
}

#[test]
fn two_tags_of_other_lengths_than_their_texts() {
    let store = store();
    let mut buffer = "A {{#fluent ch01.greeting}} B {{#fluent ch01.greeting.formal}} C".to_string();
    assert_eq!(rewrite(&mut buffer, &store), Ok(()));
    assert_eq!(buffer, "A Hello, world! B Good day. C");
}

#[test]
fn longer_replacement_first_then_shorter() {
    let store = store();
    assert_eq!(
        rewrite_text(
            "{{#fluent ch02.title}}{{#fluent   ch01.only-attributes.label   }}{{#fluent ch02.title}}",
            &store
        ),
        Ok("Zweites KapitelLabelZweites Kapitel".to_string())
    );
}

#[test]
fn tags_across_catalogs_and_lines() {
    let store = store();
    let content = "# {{#fluent ch02.title}}\n\n{{#fluent ch01.greeting}}\n{{#fluent ch01.greeting.formal}}\n";
    assert_eq!(
        rewrite_text(content, &store),
        Ok("# Zweites Kapitel\n\nHello, world!\nGood day.\n".to_string())
    );
}

#[test]
fn positions_count_characters_not_bytes() {
    let store = store();
    let mut buffer = "héllo wörld — {{#fluent ch01.greeting}} — ünd {{#fluent ch02.title}} ✓".to_string();
    assert_eq!(rewrite(&mut buffer, &store), Ok(()));
    assert_eq!(buffer, "héllo wörld — Hello, world! — ünd Zweites Kapitel ✓");
}

#[test]
fn address_is_trimmed() {
    let store = store();
    assert_eq!(
        rewrite_text("{{#fluent \t ch01.greeting \n }}", &store),
        Ok("Hello, world!".to_string())
    );
    assert_eq!(
        rewrite_text("{{#fluentch01.greeting}}", &store),
        Ok("Hello, world!".to_string())
    );
}

#[test]
fn single_closing_brace_does_not_close() {
    let store = store();
    assert_eq!(
        fails("{{#fluent ch01.gree}ting}}"),
        RewriteError { at: 0, error: TagError::Resolve(ResolveError::UnknownMessage) }
    );
    assert_eq!(
        rewrite_text("{{#fluent ch01.greeting}}}", &store),
        Ok("Hello, world!}".to_string())
    );
}

#[test]
fn rewriting_the_output_again_changes_nothing() {
    let store = store();
    let mut buffer = "A {{#fluent ch01.greeting}} B".to_string();
    assert_eq!(rewrite(&mut buffer, &store), Ok(()));
    let once = buffer.clone();
    assert_eq!(rewrite(&mut buffer, &store), Ok(()));
    assert_eq!(buffer, once);
}

#[test]
fn empty_address_is_refused() {
    assert_eq!(
        fails("{{#fluent }}"),
        RewriteError { at: 0, error: TagError::Address(AddressError::Empty) }
    );
    assert_eq!(
        fails("{{#fluent}}"),
        RewriteError { at: 0, error: TagError::Address(AddressError::Empty) }
    );
}

#[test]
fn single_component_is_refused() {
    assert_eq!(
        fails("{{#fluent onlyfile}}"),
        RewriteError { at: 0, error: TagError::Address(AddressError::TooFewComponents) }
    );
}

#[test]
fn four_components_are_refused() {
    assert_eq!(
        fails("{{#fluent a.b.c.d}}"),
        RewriteError { at: 0, error: TagError::Address(AddressError::TooManyComponents) }
    );
}

#[test]
fn empty_components_are_refused() {
    assert_eq!(
        fails("{{#fluent .greeting}}"),
        RewriteError { at: 0, error: TagError::Address(AddressError::EmptyCatalog) }
    );
    assert_eq!(
        fails("{{#fluent ch01.}}"),
        RewriteError { at: 0, error: TagError::Address(AddressError::EmptyMessage) }
    );
    assert_eq!(
        fails("{{#fluent ch01..formal}}"),
        RewriteError { at: 0, error: TagError::Address(AddressError::EmptyMessage) }
    );
    assert_eq!(
        fails("{{#fluent ch01.greeting.}}"),
        RewriteError { at: 0, error: TagError::Address(AddressError::EmptyAttribute) }
    );
}

#[test]
fn unknown_message_is_refused() {
    assert_eq!(
        fails("{{#fluent ch01.nope}}"),
        RewriteError { at: 0, error: TagError::Resolve(ResolveError::UnknownMessage) }
    );
}

#[test]
fn unknown_catalog_is_refused() {
    assert_eq!(
        fails("{{#fluent missingcat.x}}"),
        RewriteError { at: 0, error: TagError::Resolve(ResolveError::UnknownCatalog) }
    );
}

#[test]
fn message_without_value_is_refused() {
    assert_eq!(
        fails("{{#fluent ch01.only-attributes}}"),
        RewriteError { at: 0, error: TagError::Resolve(ResolveError::MissingValue) }
    );
}

#[test]
fn unknown_attribute_is_refused() {
    assert_eq!(
        fails("{{#fluent ch01.greeting.informal}}"),
        RewriteError { at: 0, error: TagError::Resolve(ResolveError::UnknownAttribute) }
    );
}

#[test]
fn a_term_is_no_message() {
    assert_eq!(
        fails("{{#fluent ch01.-brand}}"),
        RewriteError { at: 0, error: TagError::Resolve(ResolveError::UnknownMessage) }
    );
}

#[test]
fn unclosed_tag_is_refused() {
    assert_eq!(
        fails("text {{#fluent ch01.greeting"),
        RewriteError { at: 5, error: TagError::Unterminated }
    );
    assert_eq!(
        fails("{{#fluent ch01.greeting}"),
        RewriteError { at: 0, error: TagError::Unterminated }
    );
    assert_eq!(fails("{{#fluent"), RewriteError { at: 0, error: TagError::Unterminated });
}

#[test]
fn unclosed_tag_is_reported_before_any_address() {
    assert_eq!(
        fails("{{#fluent }} and {{#fluent ch01.greeting"),
        RewriteError { at: 17, error: TagError::Unterminated }
    );
}

#[test]
fn first_faulty_tag_is_reported() {
    assert_eq!(
        fails("{{#fluent ch01.greeting}} {{#fluent ch01.nope}} {{#fluent }}"),
        RewriteError { at: 26, error: TagError::Resolve(ResolveError::UnknownMessage) }
    );
    assert_eq!(
        fails("é {{#fluent a.b.c.d}} {{#fluent nope.x}}"),
        RewriteError { at: 2, error: TagError::Address(AddressError::TooManyComponents) }
    );
}

#[test]
fn opening_marker_inside_a_tag_is_address_text() {
    assert_eq!(
        fails("{{#fluent {{#fluent ch01.greeting}}"),
        RewriteError { at: 0, error: TagError::Resolve(ResolveError::UnknownCatalog) }
    );
}

#[test]
fn rewrite_chars_gives_the_characters() {
    let store = store();
    assert_eq!(
        rewrite_chars(&chars("ä{{#fluent ch01.greeting.formal}}ö"), &store),
        Ok(chars("äGood day.ö"))
    );
    assert_eq!(
        rewrite_chars(&chars("{{#fluent x}}"), &store),
        Err(RewriteError { at: 0, error: TagError::Address(AddressError::TooFewComponents) })
    );
}

#[test]
fn resolve_tag_reads_between_the_markers() {
    let store = store();
    let text = chars("ab{{#fluent ch01.greeting}}cd");
    assert_eq!(
        resolve_tag(&text, TagSpan { start: 2, end: 25 }, &store),
        Ok("Hello, world!".to_string())
    );
    assert_eq!(
        resolve_tag(&text, TagSpan { start: 2, end: 20 }, &store),
        Err(RewriteError { at: 2, error: TagError::Resolve(ResolveError::UnknownMessage) })
    );
}

#[test]
fn resolve_tags_stops_at_the_first_fault() {
    let store = store();
    let text = chars("{{#fluent ch02.title}}{{#fluent ch02.nope}}{{#fluent }}");
    let spans = vec![
        TagSpan { start: 0, end: 20 },
        TagSpan { start: 22, end: 41 },
        TagSpan { start: 43, end: 53 },
    ];
    assert_eq!(
        resolve_tags(&text, &spans, &store),
        Err(RewriteError { at: 22, error: TagError::Resolve(ResolveError::UnknownMessage) })
    );
    assert_eq!(
        resolve_tags(&text, &spans[..1].to_vec(), &store),
        Ok(vec![chars("Zweites Kapitel")])
    );
}

#[test]
fn replace_range_replaces_exactly_the_range() {
    let mut buffer = chars("0123456789");
    replace_range(&mut buffer, 3, 7, &chars("ab"));
    assert_eq!(buffer, chars("012ab789"));
    replace_range(&mut buffer, 0, 0, &chars("xyz"));
    assert_eq!(buffer, chars("xyz012ab789"));
    replace_range(&mut buffer, 9, 11, &[]);
    assert_eq!(buffer, chars("xyz012ab7"));
    replace_range(&mut buffer, 9, 9, &chars("!"));
    assert_eq!(buffer, chars("xyz012ab7!"));
}

#[test]
fn splice_tags_tracks_the_offset() {
    let mut buffer = chars("a{{#fluent 1}}b{{#fluent 22}}c{{#fluent 333}}d");
    let spans = vec![
        TagSpan { start: 1, end: 12 },
        TagSpan { start: 15, end: 27 },
        TagSpan { start: 30, end: 43 },
    ];
    let texts = vec![chars("a much longer text than the tag"), chars(""), chars("xy")];
    splice_tags(&mut buffer, &spans, &texts);
    assert_eq!(buffer, chars("aa much longer text than the tagbcxyd"));
}

#[test]
fn splice_tags_without_spans_leaves_the_buffer() {
    let mut buffer = chars("unchanged");
    splice_tags(&mut buffer, &Vec::new(), &Vec::new());
    assert_eq!(buffer, chars("unchanged"));
}
