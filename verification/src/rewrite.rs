//! Rewriting a text: every tag is replaced by what its address stands for.
//!
//! The tags are located first, against the text as it was handed in. Then each
//! address is resolved, so that a text with a faulty tag is left untouched.
//! Only then is the text changed, tag by tag from the left, with a running
//! offset that says how far the earlier replacements have moved what follows.

use crate::address::{parse_address, parsed_address};
use crate::catalog::{resolution, CatalogStore, StoreModel};
use crate::error::{RewriteError, TagError};
use crate::scan::{
    lemma_next_closing, lemma_next_opening, lemma_scan_finds_tags, next_closing, next_opening,
    opens_at, closes_at, scan, scan_from, scan_tags, well_spaced, TagSpan, CLOSING_LEN, OPENING_LEN,
};
use crate::text::{chars_of, string_of, views};
use vstd::prelude::*;

verus! {

/// The text between the markers of the tag at `span`.
pub open spec fn address_text(text: Seq<char>, span: TagSpan) -> Seq<char> {
    text.subrange(span.start + OPENING_LEN, span.end as int)
}

/// What the tag at `span` is replaced by.
pub open spec fn replacement(text: Seq<char>, store: StoreModel, span: TagSpan) -> Result<
    Seq<char>,
    RewriteError,
> {
    match parsed_address(address_text(text, span)) {
        Err(error) => Err(RewriteError { at: span.start, error: TagError::Address(error) }),
        Ok(address) => match resolution(store, address) {
            Err(error) => Err(RewriteError { at: span.start, error: TagError::Resolve(error) }),
            Ok(found) => Ok(found),
        },
    }
}

/// What the tags at `spans` are replaced by, in order, or what is wrong with
/// the first of them that cannot be replaced.
pub open spec fn replacements(text: Seq<char>, store: StoreModel, spans: Seq<TagSpan>) -> Result<
    Seq<Seq<char>>,
    RewriteError,
>
    decreases spans.len(),
{
    if spans.len() == 0 {
        Ok(Seq::empty())
    } else {
        match replacements(text, store, spans.drop_last()) {
            Err(error) => Err(error),
            Ok(before) => match replacement(text, store, spans.last()) {
                Err(error) => Err(error),
                Ok(found) => Ok(before.push(found)),
            },
        }
    }
}

/// `text` with each of `spans`, markers included, replaced by the text of the
/// same index in `texts`. What stands before, between and behind the spans
/// stays.
pub open spec fn spliced(text: Seq<char>, spans: Seq<TagSpan>, texts: Seq<Seq<char>>) -> Seq<char>
    recommends
        well_spaced(text, spans),
        texts.len() == spans.len(),
    decreases spans.len(),
{
    if spans.len() == 0 {
        text
    } else {
        spliced(text.subrange(0, spans.last().start as int), spans.drop_last(), texts.drop_last())
            + texts.last() + text.subrange(spans.last().end + CLOSING_LEN, text.len() as int)
    }
}

/// `text` with every tag replaced by what its address stands for in `store`.
/// An unclosed tag is reported before any address is looked at; otherwise the
/// first tag that cannot be replaced is reported.
pub open spec fn rewritten(text: Seq<char>, store: StoreModel) -> Result<Seq<char>, RewriteError> {
    match scan(text) {
        Err(at) => Err(RewriteError { at, error: TagError::Unterminated }),
        Ok(spans) => match replacements(text, store, spans) {
            Err(error) => Err(error),
            Ok(texts) => Ok(spliced(text, spans, texts)),
        },
    }
}

/// Behind the last span, splicing leaves the text alone: what lies behind
/// `cut` can be set aside and put back afterwards.
pub proof fn lemma_spliced_prefix(
    text: Seq<char>,
    spans: Seq<TagSpan>,
    texts: Seq<Seq<char>>,
    cut: int,
)
    requires
        well_spaced(text, spans),
        0 <= cut <= text.len(),
        spans.len() > 0 ==> spans.last().end + CLOSING_LEN <= cut,
    ensures
        spliced(text, spans, texts) == spliced(text.subrange(0, cut), spans, texts)
            + text.subrange(cut, text.len() as int),
{
    let head = text.subrange(0, cut);
    if spans.len() == 0 {
        assert(text =~= head + text.subrange(cut, text.len() as int));
    } else {
        let last = spans.last();
        assert(head.subrange(0, last.start as int) =~= text.subrange(0, last.start as int));
        assert(text.subrange(last.end + CLOSING_LEN, text.len() as int) =~= head.subrange(
            last.end + CLOSING_LEN,
            head.len() as int,
        ) + text.subrange(cut, text.len() as int));
        let front = spliced(
            text.subrange(0, last.start as int),
            spans.drop_last(),
            texts.drop_last(),
        ) + texts.last();
        assert(front + (head.subrange(last.end + CLOSING_LEN, head.len() as int) + text.subrange(
            cut,
            text.len() as int,
        )) =~= (front + head.subrange(last.end + CLOSING_LEN, head.len() as int)) + text.subrange(
            cut,
            text.len() as int,
        ));
    }
}

/// Resolves the tag at `span` of `text`.
pub fn resolve_tag(text: &[char], span: TagSpan, store: &CatalogStore) -> (found: Result<
    String,
    RewriteError,
>)
    requires
        span.start + OPENING_LEN <= span.end <= text@.len(),
    ensures
        match found {
            Ok(found) => replacement(text@, store@, span) == Ok::<Seq<char>, RewriteError>(found@),
            Err(error) => replacement(text@, store@, span) == Err::<Seq<char>, RewriteError>(error),
        },
{
    let address = match parse_address(&text[span.start + OPENING_LEN..span.end]) {
        Ok(address) => address,
        Err(error) => {
            return Err(RewriteError { at: span.start, error: TagError::Address(error) });
        },
    };
    match store.resolve(&address) {
        Ok(found) => Ok(found),
        Err(error) => Err(RewriteError { at: span.start, error: TagError::Resolve(error) }),
    }
}

/// Resolves the tags at `spans` of `text`, in order, and stops at the first
/// that cannot be replaced.
pub fn resolve_tags(text: &[char], spans: &Vec<TagSpan>, store: &CatalogStore) -> (found: Result<
    Vec<Vec<char>>,
    RewriteError,
>)
    requires
        well_spaced(text@, spans@),
    ensures
        match found {
            Ok(texts) => texts@.len() == spans@.len() && replacements(text@, store@, spans@) == Ok::<
                Seq<Seq<char>>,
                RewriteError,
            >(views(texts@)),
            Err(error) => replacements(text@, store@, spans@) == Err::<
                Seq<Seq<char>>,
                RewriteError,
            >(error),
        },
{
    let mut texts: Vec<Vec<char>> = Vec::new();
    let mut k: usize = 0;
    assert(views(texts@) =~= Seq::<Seq<char>>::empty());
    while k < spans.len()
        invariant
            k <= spans@.len(),
            texts@.len() == k,
            well_spaced(text@, spans@),
            replacements(text@, store@, spans@.take(k as int)) == Ok::<
                Seq<Seq<char>>,
                RewriteError,
            >(views(texts@)),
        decreases spans@.len() - k,
    {
        let span = spans[k];
        let ghost upto = spans@.take(k + 1);
        assert(upto.drop_last() =~= spans@.take(k as int));
        assert(upto.last() == span);
        match resolve_tag(text, span, store) {
            Ok(found) => {
                let ghost before = views(texts@);
                texts.push(chars_of(found.as_str()));
                assert(views(texts@) =~= before.push(found@));
            },
            Err(error) => {
                proof {
                    lemma_replacements_fail(text@, store@, spans@, k + 1);
                }
                return Err(error);
            },
        }
        k += 1;
    }
    assert(spans@.take(k as int) =~= spans@);
    Ok(texts)
}

/// Once the first `upto` tags cannot all be replaced, neither can any longer
/// run of tags, and the fault reported is the same.
pub proof fn lemma_replacements_fail(
    text: Seq<char>,
    store: StoreModel,
    spans: Seq<TagSpan>,
    upto: int,
)
    requires
        0 <= upto <= spans.len(),
        replacements(text, store, spans.take(upto)) is Err,
    ensures
        replacements(text, store, spans) == replacements(text, store, spans.take(upto)),
    decreases spans.len() - upto,
{
    if upto == spans.len() {
        assert(spans.take(upto) =~= spans);
    } else {
        assert(spans.take(upto + 1).drop_last() =~= spans.take(upto));
        lemma_replacements_fail(text, store, spans, upto + 1);
    }
}

/// Replaces the characters of `buffer` from `start` up to `end` by `with`.
pub fn replace_range(buffer: &mut Vec<char>, start: usize, end: usize, with: &[char])
    requires
        start <= end <= old(buffer)@.len(),
    ensures
        final(buffer)@ == old(buffer)@.subrange(0, start as int) + with@ + old(buffer)@.subrange(
            end as int,
            old(buffer)@.len() as int,
        ),
{
    let mut tail = buffer.split_off(end);
    buffer.truncate(start);
    let ghost head = buffer@;
    let mut i: usize = 0;
    assert(head + with@.take(0) =~= head);
    while i < with.len()
        invariant
            i <= with@.len(),
            buffer@ == head + with@.take(i as int),
        decreases with@.len() - i,
    {
        buffer.push(with[i]);
        assert(head + with@.take(i + 1) =~= (head + with@.take(i as int)).push(with@[i as int]));
        i += 1;
    }
    assert(with@.take(i as int) =~= with@);
    buffer.append(&mut tail);
}

/// Replaces each of `spans` in `buffer`, markers included, by the text of the
/// same index in `texts`. The spans are positions in the buffer as it is
/// handed in; each replacement is made where the earlier ones have moved its
/// span to.
pub fn splice_tags(buffer: &mut Vec<char>, spans: &Vec<TagSpan>, texts: &Vec<Vec<char>>)
    requires
        well_spaced(old(buffer)@, spans@),
        texts@.len() == spans@.len(),
    ensures
        final(buffer)@ == spliced(old(buffer)@, spans@, views(texts@)),
{
    let ghost text = buffer@;
    let mut offset: i128 = 0;
    let mut k: usize = 0;
    assert(text.len() == buffer.len());
    while k < spans.len()
        invariant
            k <= spans@.len() == texts@.len(),
            well_spaced(text, spans@),
            text.len() <= usize::MAX,
            buffer@ == spliced(text, spans@.take(k as int), views(texts@).take(k as int)),
            offset == text.len() - buffer@.len(),
        decreases spans@.len() - k,
    {
        let span = spans[k];
        let with = texts[k].as_slice();
        let length = buffer.len();
        let ghost done = spans@.take(k as int);
        let ghost used = views(texts@).take(k as int);
        let ghost head = spliced(text.subrange(0, span.start as int), done, used);
        proof {
            if k > 0 {
                assert(done.last() == spans@[k - 1]);
            }
            assert(well_spaced(text, done));
            lemma_spliced_prefix(text, done, used, span.start as int);
            assert(buffer@.len() == head.len() + (text.len() - span.start));
            assert(buffer@.subrange(0, head.len() as int) =~= head);
            assert(buffer@.subrange(head.len() + (span.end + CLOSING_LEN - span.start), buffer@.len() as int)
                =~= text.subrange(span.end + CLOSING_LEN, text.len() as int));
            assert(spans@.take(k + 1).drop_last() =~= done);
            assert(views(texts@).take(k + 1).drop_last() =~= used);
            assert(views(texts@).take(k + 1).last() == with@);
            assert(span.start - offset == head.len());
            assert(span.end + CLOSING_LEN - offset <= buffer@.len());
        }
        let start = (span.start as i128 - offset) as usize;
        let end = ((span.end + CLOSING_LEN) as i128 - offset) as usize;
        replace_range(buffer, start, end, with);
        let whole = (span.end + CLOSING_LEN - span.start) as i128;
        offset = offset + (whole - with.len() as i128);
        k += 1;
    }
    assert(spans@.take(k as int) =~= spans@);
    assert(views(texts@).take(k as int) =~= views(texts@));
}

/// Rewrites the characters `text`: every tag is replaced by what its address
/// stands for in `store`.
pub fn rewrite_chars(text: &[char], store: &CatalogStore) -> (done: Result<Vec<char>, RewriteError>)
    ensures
        match done {
            Ok(out) => rewritten(text@, store@) == Ok::<Seq<char>, RewriteError>(out@),
            Err(error) => rewritten(text@, store@) == Err::<Seq<char>, RewriteError>(error),
        },
{
    let spans = match scan_tags(text) {
        Ok(spans) => spans,
        Err(at) => {
            return Err(RewriteError { at, error: TagError::Unterminated });
        },
    };
    assert(well_spaced(text@, spans@)) by {
        assert(text@.len() == text.len());
        lemma_scan_finds_tags(text@, 0);
    }
    let texts = match resolve_tags(text, &spans, store) {
        Ok(texts) => texts,
        Err(error) => {
            return Err(error);
        },
    };
    let mut buffer: Vec<char> = Vec::new();
    let mut i: usize = 0;
    while i < text.len()
        invariant
            i <= text@.len(),
            buffer@ == text@.take(i as int),
        decreases text@.len() - i,
    {
        buffer.push(text[i]);
        assert(text@.take(i + 1) =~= text@.take(i as int).push(text@[i as int]));
        i += 1;
    }
    assert(text@.take(i as int) =~= text@);
    splice_tags(&mut buffer, &spans, &texts);
    Ok(buffer)
}

/// `content` with every tag replaced by what its address stands for in
/// `store`.
pub fn rewrite_text(content: &str, store: &CatalogStore) -> (done: Result<String, RewriteError>)
    ensures
        match done {
            Ok(out) => rewritten(content@, store@) == Ok::<Seq<char>, RewriteError>(out@),
            Err(error) => rewritten(content@, store@) == Err::<Seq<char>, RewriteError>(error),
        },
{
    let text = chars_of(content);
    match rewrite_chars(text.as_slice(), store) {
        Ok(out) => Ok(string_of(out.as_slice())),
        Err(error) => Err(error),
    }
}

/// Rewrites `content` in place: every tag is replaced by what its address
/// stands for in `store`. Where a tag is at fault, `content` stays as it was.
pub fn rewrite(content: &mut String, store: &CatalogStore) -> (done: Result<(), RewriteError>)
    ensures
        match done {
            Ok(()) => rewritten(old(content)@, store@) == Ok::<Seq<char>, RewriteError>(
                final(content)@,
            ),
            Err(error) => rewritten(old(content)@, store@) == Err::<Seq<char>, RewriteError>(error)
                && *final(content) == *old(content),
        },
{
    match rewrite_text(content.as_str(), store) {
        Ok(out) => {
            *content = out;
            Ok(())
        },
        Err(error) => Err(error),
    }
}

/// A text in which the opening marker stands nowhere is rewritten to itself,
/// whatever the store holds.
pub proof fn lemma_untagged_unchanged(text: Seq<char>, store: StoreModel)
    requires
        forall|i: int| !opens_at(text, i),
    ensures
        rewritten(text, store) == Ok::<Seq<char>, RewriteError>(text),
{
    lemma_next_opening(text, 0);
    assert(next_opening(text, 0) is None);
    assert(scan(text) == Ok::<Seq<TagSpan>, usize>(Seq::empty()));
}

/// Rewriting what a rewrite gave, where no opening marker is left in it,
/// changes nothing.
pub proof fn lemma_second_pass_unchanged(text: Seq<char>, store: StoreModel)
    requires
        rewritten(text, store) is Ok,
        forall|i: int| !opens_at(rewritten(text, store)->Ok_0, i),
    ensures
        rewritten(rewritten(text, store)->Ok_0, store) == rewritten(text, store),
{
    lemma_untagged_unchanged(rewritten(text, store)->Ok_0, store);
}

/// From `from` on, the scan finds the tag at `span` first: its opening marker
/// is the first one at or behind `from`, and its closing marker the first one
/// behind that.
proof fn lemma_scan_step(text: Seq<char>, from: int, span: TagSpan)
    requires
        0 <= from <= span.start,
        opens_at(text, span.start as int),
        forall|i: int| from <= i < span.start ==> !opens_at(text, i),
        span.start + OPENING_LEN <= span.end,
        closes_at(text, span.end as int),
        forall|j: int| span.start + OPENING_LEN <= j < span.end ==> !closes_at(text, j),
    ensures
        scan_from(text, from) == match scan_from(text, span.end + CLOSING_LEN) {
            Ok(rest) => Ok::<Seq<TagSpan>, usize>(seq![span] + rest),
            Err(at) => Err::<Seq<TagSpan>, usize>(at),
        },
{
    lemma_next_opening(text, from);
    assert(next_opening(text, from) == Some(span.start as int));
    lemma_next_closing(text, span.start + OPENING_LEN);
    assert(next_closing(text, span.start + OPENING_LEN) == Some(span.end as int));
}

/// Behind the last opening marker the scan finds nothing more.
proof fn lemma_scan_end(text: Seq<char>, from: int)
    requires
        0 <= from,
        forall|i: int| from <= i ==> !opens_at(text, i),
    ensures
        scan_from(text, from) == Ok::<Seq<TagSpan>, usize>(Seq::empty()),
{
    lemma_next_opening(text, from);
    assert(next_opening(text, from) is None);
}

/// A text with exactly one tag, whose address stands for `found`: the tag,
/// markers included, is replaced by `found`, and what stands before and
/// behind it stays.
pub proof fn lemma_single_tag(text: Seq<char>, store: StoreModel, span: TagSpan, found: Seq<char>)
    requires
        forall|i: int| opens_at(text, i) <==> i == span.start,
        span.start + OPENING_LEN <= span.end,
        closes_at(text, span.end as int),
        forall|j: int| span.start + OPENING_LEN <= j < span.end ==> !closes_at(text, j),
        replacement(text, store, span) == Ok::<Seq<char>, RewriteError>(found),
    ensures
        rewritten(text, store) == Ok::<Seq<char>, RewriteError>(
            text.subrange(0, span.start as int) + found + text.subrange(
                span.end + CLOSING_LEN,
                text.len() as int,
            ),
        ),
{
    assert(opens_at(text, span.start as int));
    lemma_scan_step(text, 0, span);
    lemma_scan_end(text, span.end + CLOSING_LEN);
    let spans = seq![span];
    assert(seq![span] + Seq::<TagSpan>::empty() =~= spans);
    assert(scan(text) == Ok::<Seq<TagSpan>, usize>(spans));
    assert(spans.drop_last() =~= Seq::<TagSpan>::empty());
    assert(spans.last() == span);
    assert(replacements(text, store, spans.drop_last()) == Ok::<Seq<Seq<char>>, RewriteError>(
        Seq::empty(),
    ));
    let texts = Seq::<Seq<char>>::empty().push(found);
    assert(replacements(text, store, spans) == Ok::<Seq<Seq<char>>, RewriteError>(texts));
    assert(texts.last() == found);
    let head = text.subrange(0, span.start as int);
    assert(spliced(head, spans.drop_last(), texts.drop_last()) == head);
}

/// A text with exactly two tags, whose addresses stand for `found_first` and
/// `found_second`: each tag is replaced by its text, and what stands before,
/// between and behind the two stays. The second text begins where the first
/// replacement has moved the second tag to.
pub proof fn lemma_two_tags(
    text: Seq<char>,
    store: StoreModel,
    first: TagSpan,
    second: TagSpan,
    found_first: Seq<char>,
    found_second: Seq<char>,
)
    requires
        forall|i: int| opens_at(text, i) <==> (i == first.start || i == second.start),
        first.start + OPENING_LEN <= first.end,
        closes_at(text, first.end as int),
        forall|j: int| first.start + OPENING_LEN <= j < first.end ==> !closes_at(text, j),
        first.end + CLOSING_LEN <= second.start,
        second.start + OPENING_LEN <= second.end,
        closes_at(text, second.end as int),
        forall|j: int| second.start + OPENING_LEN <= j < second.end ==> !closes_at(text, j),
        replacement(text, store, first) == Ok::<Seq<char>, RewriteError>(found_first),
        replacement(text, store, second) == Ok::<Seq<char>, RewriteError>(found_second),
    ensures
        rewritten(text, store) == Ok::<Seq<char>, RewriteError>(
            text.subrange(0, first.start as int) + found_first + text.subrange(
                first.end + CLOSING_LEN,
                second.start as int,
            ) + found_second + text.subrange(second.end + CLOSING_LEN, text.len() as int),
        ),
        ({
            let out = rewritten(text, store)->Ok_0;
            let moved = second.start - ((first.end + CLOSING_LEN - first.start) - found_first.len());
            &&& out.subrange(first.start as int, first.start + found_first.len()) == found_first
            &&& out.subrange(moved, moved + found_second.len()) == found_second
        }),
{
    assert(opens_at(text, first.start as int));
    assert(opens_at(text, second.start as int));
    lemma_scan_step(text, 0, first);
    lemma_scan_step(text, first.end + CLOSING_LEN, second);
    lemma_scan_end(text, second.end + CLOSING_LEN);
    let spans = seq![first, second];
    assert(seq![second] + Seq::<TagSpan>::empty() =~= seq![second]);
    assert(seq![first] + seq![second] =~= spans);
    assert(scan(text) == Ok::<Seq<TagSpan>, usize>(spans));
    let one = spans.drop_last();
    assert(one =~= seq![first]);
    assert(one.drop_last() =~= Seq::<TagSpan>::empty());
    assert(one.last() == first);
    assert(spans.last() == second);
    assert(replacements(text, store, one.drop_last()) == Ok::<Seq<Seq<char>>, RewriteError>(
        Seq::empty(),
    ));
    let text_one = Seq::<Seq<char>>::empty().push(found_first);
    assert(replacements(text, store, one) == Ok::<Seq<Seq<char>>, RewriteError>(text_one));
    let texts = text_one.push(found_second);
    assert(replacements(text, store, spans) == Ok::<Seq<Seq<char>>, RewriteError>(texts));
    assert(texts.drop_last() =~= text_one);
    assert(text_one.drop_last() =~= Seq::<Seq<char>>::empty());
    let head = text.subrange(0, second.start as int);
    assert(head.subrange(0, first.start as int) =~= text.subrange(0, first.start as int));
    assert(head.subrange(first.end + CLOSING_LEN, head.len() as int) =~= text.subrange(
        first.end + CLOSING_LEN,
        second.start as int,
    ));
    let out = text.subrange(0, first.start as int) + found_first + text.subrange(
        first.end + CLOSING_LEN,
        second.start as int,
    ) + found_second + text.subrange(second.end + CLOSING_LEN, text.len() as int);
    let front = head.subrange(0, first.start as int);
    assert(spliced(front, one.drop_last(), text_one.drop_last()) == front);
    assert(spliced(head, one, text_one) == front + found_first + head.subrange(
        first.end + CLOSING_LEN,
        head.len() as int,
    ));
    assert(spliced(text, spans, texts) == out);
    let moved = second.start - ((first.end + CLOSING_LEN - first.start) - found_first.len());
    assert(out.subrange(first.start as int, first.start + found_first.len()) =~= found_first);
    assert(out.subrange(moved, moved + found_second.len()) =~= found_second);
}

} // verus!
