//! The boundary to the `fluent` crate. Nothing in this file is proved: the
//! contracts say what `fluent`'s source shows of the calls made here.
//!
//! A bundle is only ever made by `compile`, from one resource text and with
//! nothing else configured, so formatting a pattern without arguments is a
//! function of the bundle alone.
//!
//! `fluent` unwinds on some resource texts: its parser where the digits of a
//! `\u` or `\U` escape in a string literal give way to a character beyond
//! ASCII, its formatter where
//! more than a hundred placeables are met inside a placeable that holds
//! another placeable or a select expression with a literal selector, and,
//! where overflow is checked, where a number with twenty or more digits behind
//! the point meets a plural category. The `requires` below leave those texts
//! out. A message whose entry holds no placeable is formatted by writing out
//! its text, whatever else its resource holds.

use crate::resource::{message_formats, neutral, parses_safely};
use fluent::bundle::FluentBundle;
use fluent::FluentResource;
use intl_memoizer::IntlLangMemoizer;
use vstd::prelude::*;

verus! {

#[verifier::external_type_specification]
#[verifier::external_body]
pub struct ExFluentResource(FluentResource);

#[verifier::external_type_specification]
#[verifier::external_body]
pub struct ExIntlLangMemoizer(IntlLangMemoizer);

#[verifier::external_type_specification]
#[verifier::external_body]
#[verifier::reject_recursive_types(R)]
#[verifier::reject_recursive_types(M)]
pub struct ExFluentBundle<R, M>(FluentBundle<R, M>);

/// What a bundle holds: under each message key the formatted text of the
/// message's value, if it has one, and the formatted text of each of its
/// attributes under the attribute's name.
pub uninterp spec fn bundle_contents(bundle: FluentBundle<FluentResource, IntlLangMemoizer>) -> Map<Seq<char>, (Option<Seq<char>>, Map<Seq<char>, Seq<char>>)>;

/// The resource text that a bundle was compiled from.
pub uninterp spec fn bundle_source(bundle: FluentBundle<FluentResource, IntlLangMemoizer>) -> Seq<char>;

/// What the resource text `source` compiles to: nothing where `fluent` rejects
/// it, else the contents of the bundle made of it.
pub uninterp spec fn ftl_catalog(source: Seq<char>) -> Option<Map<Seq<char>, (Option<Seq<char>>, Map<Seq<char>, Seq<char>>)>>;

/// `FluentResource::try_new`, `FluentBundle::default` and
/// `FluentBundle::add_resource`: parses `source` and puts the resource into a
/// fresh bundle. Gives nothing where the parser reports errors or where two
/// entries of the resource share an identifier. The outcome depends on
/// `source` alone, and the bundle keeps `source` as its one resource's text.
/// The parser cuts a faulty `\u` or `\U` escape of a string literal out of the
/// text one byte behind the first character that is no digit of it, which
/// fails where that character is beyond ASCII. A text without such a
/// character is safe. So is a text whose neutral form compiles: the parser
/// takes the same steps on both, since it nowhere tells `?` from a character
/// beyond ASCII, but that it reports the faulty escape in the neutral form.
#[verifier::external_body]
pub(crate) fn compile(source: String) -> (made: Option<FluentBundle<FluentResource, IntlLangMemoizer>>)
    requires
        parses_safely(source@) || ftl_catalog(neutral(source@)) is Some,
    ensures
        match made {
            Some(bundle) => ftl_catalog(source@) == Some(bundle_contents(bundle))
                && bundle_source(bundle) == source@,
            None => ftl_catalog(source@) is None,
        },
{
    let resource = FluentResource::try_new(source).ok()?;
    let mut bundle = FluentBundle::default();
    bundle.add_resource(resource).ok()?;
    Some(bundle)
}

/// `FluentBundle::has_message`: whether the bundle holds a message under
/// `key`.
#[verifier::external_body]
pub(crate) fn has_message(bundle: &FluentBundle<FluentResource, IntlLangMemoizer>, key: &str) -> (found: bool)
    ensures
        found == bundle_contents(*bundle).dom().contains(key@),
{
    bundle.has_message(key)
}

/// `FluentBundle::get_message`, `FluentMessage::value` and
/// `FluentBundle::format_pattern`: the value of the message under `key`,
/// formatted without arguments; nothing where the message has no value. The
/// formatter gives up at the hundred-and-first placeable and then writes out
/// what stands around it, which fails for a placeable inside a placeable and
/// for a literal selector. A number picks its plural category by its digits
/// behind the point, raised to a power of ten that twenty digits overflow.
/// Bundles of such texts are left out, but for their messages of plain text:
/// a parsed resource holds a line that begins with a message's key and `=`
/// only where that message begins, and its entry ends where the next begins.
#[verifier::external_body]
pub(crate) fn format_value(bundle: &FluentBundle<FluentResource, IntlLangMemoizer>, key: &str) -> (text: Option<String>)
    requires
        message_formats(bundle_source(*bundle), key@),
        bundle_contents(*bundle).dom().contains(key@),
    ensures
        match text {
            Some(text) => bundle_contents(*bundle)[key@].0 == Some(text@),
            None => bundle_contents(*bundle)[key@].0 is None,
        },
{
    let mut errors = Vec::new();
    let pattern = bundle.get_message(key)?.value()?;
    Some(bundle.format_pattern(pattern, None, &mut errors).into_owned())
}

/// `FluentBundle::get_message`, `FluentMessage::get_attribute`,
/// `FluentAttribute::value` and `FluentBundle::format_pattern`: the attribute
/// `name` of the message under `key`, formatted without arguments; nothing
/// where the message has no such attribute. Messages that the formatter may
/// fail on are left out, as for `format_value`.
#[verifier::external_body]
pub(crate) fn format_attribute(
    bundle: &FluentBundle<FluentResource, IntlLangMemoizer>,
    key: &str,
    name: &str,
) -> (text: Option<String>)
    requires
        message_formats(bundle_source(*bundle), key@),
        bundle_contents(*bundle).dom().contains(key@),
    ensures
        match text {
            Some(text) => bundle_contents(*bundle)[key@].1.dom().contains(name@)
                && bundle_contents(*bundle)[key@].1[name@] == text@,
            None => !bundle_contents(*bundle)[key@].1.dom().contains(name@),
        },
{
    let mut errors = Vec::new();
    let attribute = bundle.get_message(key)?.get_attribute(name)?;
    Some(bundle.format_pattern(attribute.value(), None, &mut errors).into_owned())
}

} // verus!
