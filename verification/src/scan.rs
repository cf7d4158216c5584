//! Locating tags: where the opening marker `{{#fluent` occurs in a text and
//! where the `}}` that closes each occurrence stands.
//!
//! Positions count characters. A tag runs from its opening marker through its
//! closing marker; the next tag is looked for behind that closing marker, so
//! tags never overlap and an opening marker inside a tag is address text.

use vstd::prelude::*;

verus! {

/// Number of characters in the opening marker.
pub const OPENING_LEN: usize = 9;

/// Number of characters in the closing marker.
pub const CLOSING_LEN: usize = 2;

/// The opening marker, `{{#fluent`.
pub open spec fn opening() -> Seq<char> {
    seq!['{', '{', '#', 'f', 'l', 'u', 'e', 'n', 't']
}

/// The closing marker, `}}`.
pub open spec fn closing() -> Seq<char> {
    seq!['}', '}']
}

/// The opening marker stands at position `i` of `text`.
pub open spec fn opens_at(text: Seq<char>, i: int) -> bool {
    &&& 0 <= i
    &&& i + OPENING_LEN <= text.len()
    &&& text.subrange(i, i + OPENING_LEN) == opening()
}

/// The closing marker stands at position `j` of `text`.
pub open spec fn closes_at(text: Seq<char>, j: int) -> bool {
    &&& 0 <= j
    &&& j + CLOSING_LEN <= text.len()
    &&& text.subrange(j, j + CLOSING_LEN) == closing()
}

/// The first position at or after `from` where the opening marker stands.
pub open spec fn next_opening(text: Seq<char>, from: int) -> Option<int>
    decreases text.len() - from,
{
    if from < 0 || from + OPENING_LEN > text.len() {
        None
    } else if opens_at(text, from) {
        Some(from)
    } else {
        next_opening(text, from + 1)
    }
}

/// The first position at or after `from` where the closing marker stands.
pub open spec fn next_closing(text: Seq<char>, from: int) -> Option<int>
    decreases text.len() - from,
{
    if from < 0 || from + CLOSING_LEN > text.len() {
        None
    } else if closes_at(text, from) {
        Some(from)
    } else {
        next_closing(text, from + 1)
    }
}

/// A located tag: `start` is where its opening marker begins, `end` where its
/// closing marker begins. The address text lies between `start + OPENING_LEN`
/// and `end`.
#[derive(Clone, Copy, Debug, PartialEq, Eq, Structural)]
pub struct TagSpan {
    pub start: usize,
    pub end: usize,
}

/// The tags of `text` from position `from` on, in order, or the start of the
/// tag that is never closed.
pub open spec fn scan_from(text: Seq<char>, from: int) -> Result<Seq<TagSpan>, usize>
    decreases text.len() - from,
{
    match next_opening(text, from) {
        None => Ok(Seq::empty()),
        Some(start) => match next_closing(text, start + OPENING_LEN) {
            None => Err(start as usize),
            Some(end) => {
                proof {
                    lemma_next_opening(text, from);
                    lemma_next_closing(text, start + OPENING_LEN);
                }
                match scan_from(text, end + CLOSING_LEN) {
                    Ok(rest) => Ok(seq![TagSpan { start: start as usize, end: end as usize }] + rest),
                    Err(at) => Err(at),
                }
            },
        },
    }
}

/// The tags of the whole of `text`.
pub open spec fn scan(text: Seq<char>) -> Result<Seq<TagSpan>, usize> {
    scan_from(text, 0)
}

/// `next_opening` finds the least position at or after `from` where the
/// opening marker stands, and finds none only where there is none.
pub proof fn lemma_next_opening(text: Seq<char>, from: int)
    requires
        0 <= from,
    ensures
        match next_opening(text, from) {
            Some(i) => from <= i && opens_at(text, i) && forall|k: int|
                from <= k < i ==> !opens_at(text, k),
            None => forall|k: int| from <= k ==> !opens_at(text, k),
        },
    decreases text.len() - from,
{
    if from + OPENING_LEN > text.len() {
    } else if opens_at(text, from) {
    } else {
        lemma_next_opening(text, from + 1);
    }
}

/// `next_closing` finds the least position at or after `from` where the
/// closing marker stands, and finds none only where there is none.
pub proof fn lemma_next_closing(text: Seq<char>, from: int)
    requires
        0 <= from,
    ensures
        match next_closing(text, from) {
            Some(j) => from <= j && closes_at(text, j) && forall|k: int|
                from <= k < j ==> !closes_at(text, k),
            None => forall|k: int| from <= k ==> !closes_at(text, k),
        },
    decreases text.len() - from,
{
    if from + CLOSING_LEN > text.len() {
    } else if closes_at(text, from) {
    } else {
        lemma_next_closing(text, from + 1);
    }
}

/// Whether the opening marker stands at position `i`.
pub fn is_opening(text: &[char], i: usize) -> (b: bool)
    ensures
        b == opens_at(text@, i as int),
{
    if text.len() < OPENING_LEN || i > text.len() - OPENING_LEN {
        return false;
    }
    let ghost window = text@.subrange(i as int, i + 9);
    assert(window[0] == text@[i + 0] && window[1] == text@[i + 1] && window[2] == text@[i + 2]
        && window[3] == text@[i + 3] && window[4] == text@[i + 4] && window[5] == text@[i + 5]
        && window[6] == text@[i + 6] && window[7] == text@[i + 7] && window[8] == text@[i + 8]);
    let b = text[i] == '{' && text[i + 1] == '{' && text[i + 2] == '#' && text[i + 3] == 'f'
        && text[i + 4] == 'l' && text[i + 5] == 'u' && text[i + 6] == 'e' && text[i + 7] == 'n'
        && text[i + 8] == 't';
    assert(b ==> window =~= opening());
    b
}

/// Whether the closing marker stands at position `j`.
pub fn is_closing(text: &[char], j: usize) -> (b: bool)
    ensures
        b == closes_at(text@, j as int),
{
    if text.len() < CLOSING_LEN || j > text.len() - CLOSING_LEN {
        return false;
    }
    let ghost window = text@.subrange(j as int, j + 2);
    assert(window[0] == text@[j + 0] && window[1] == text@[j + 1]);
    let b = text[j] == '}' && text[j + 1] == '}';
    assert(b ==> window =~= closing());
    b
}

/// The first position at or after `from` where the opening marker stands.
pub fn find_opening(text: &[char], from: usize) -> (found: Option<usize>)
    ensures
        match found {
            Some(i) => next_opening(text@, from as int) == Some(i as int),
            None => next_opening(text@, from as int) is None,
        },
{
    let mut i = from;
    while i < text.len()
        invariant
            from <= i,
            next_opening(text@, from as int) == next_opening(text@, i as int),
        decreases text.len() - i,
    {
        if is_opening(text, i) {
            return Some(i);
        }
        i += 1;
    }
    None
}

/// The first position at or after `from` where the closing marker stands.
pub fn find_closing(text: &[char], from: usize) -> (found: Option<usize>)
    ensures
        match found {
            Some(j) => next_closing(text@, from as int) == Some(j as int),
            None => next_closing(text@, from as int) is None,
        },
{
    let mut j = from;
    while j < text.len()
        invariant
            from <= j,
            next_closing(text@, from as int) == next_closing(text@, j as int),
        decreases text.len() - j,
    {
        if is_closing(text, j) {
            return Some(j);
        }
        j += 1;
    }
    None
}

/// `tags` followed by what a later part of the scan gives.
pub open spec fn then_scan(tags: Seq<TagSpan>, later: Result<Seq<TagSpan>, usize>) -> Result<
    Seq<TagSpan>,
    usize,
> {
    match later {
        Ok(rest) => Ok(tags + rest),
        Err(at) => Err(at),
    }
}

/// Finds every tag of `text`, in order. Fails with the start of the tag whose
/// closing marker is missing.
pub fn scan_tags(text: &[char]) -> (found: Result<Vec<TagSpan>, usize>)
    ensures
        match found {
            Ok(spans) => scan(text@) == Ok::<Seq<TagSpan>, usize>(spans@),
            Err(at) => scan(text@) == Err::<Seq<TagSpan>, usize>(at),
        },
{
    let mut spans: Vec<TagSpan> = Vec::new();
    let mut pos: usize = 0;
    assert(then_scan(spans@, scan_from(text@, 0)) == scan(text@)) by {
        match scan_from(text@, 0) {
            Ok(rest) => assert(spans@ + rest =~= rest),
            Err(_) => {},
        }
    }
    loop
        invariant
            pos <= text.len(),
            scan(text@) == then_scan(spans@, scan_from(text@, pos as int)),
        decreases text.len() - pos,
    {
        let start = match find_opening(text, pos) {
            Some(start) => start,
            None => {
                assert(spans@ + Seq::<TagSpan>::empty() =~= spans@);
                return Ok(spans);
            },
        };
        proof {
            lemma_next_opening(text@, pos as int);
        }
        let end = match find_closing(text, start + OPENING_LEN) {
            Some(end) => end,
            None => {
                return Err(start);
            },
        };
        proof {
            lemma_next_closing(text@, start + OPENING_LEN);
            let span = TagSpan { start, end };
            match scan_from(text@, end + CLOSING_LEN) {
                Ok(rest) => assert(spans@ + (seq![span] + rest) =~= spans@.push(span) + rest),
                Err(_) => {},
            }
        }
        spans.push(TagSpan { start, end });
        pos = end + CLOSING_LEN;
    }
}

/// Each span lies inside `text`, leaves room for its two markers, and ends
/// before the next one starts.
pub open spec fn well_spaced(text: Seq<char>, spans: Seq<TagSpan>) -> bool {
    &&& forall|i: int|
        0 <= i < spans.len() ==> #[trigger] spans[i].start + OPENING_LEN <= spans[i].end && spans[i].end + CLOSING_LEN
            <= text.len()
    &&& forall|i: int, j: int|
        0 <= i < j < spans.len() ==> #[trigger] spans[i].end + CLOSING_LEN <= #[trigger] spans[j].start
}

/// What a scan finds is well spaced, starts no earlier than where the scan
/// began, and each span is a tag: its opening marker is the first one behind
/// the tag before it, and its closing marker the first one behind that.
pub proof fn lemma_scan_finds_tags(text: Seq<char>, from: int)
    requires
        0 <= from,
        text.len() <= usize::MAX,
        scan_from(text, from) is Ok,
    ensures
        well_spaced(text, scan_from(text, from)->Ok_0),
        forall|i: int|
            0 <= i < scan_from(text, from)->Ok_0.len() ==> from <= (#[trigger] scan_from(
                text,
                from,
            )->Ok_0[i]).start,
        forall|i: int|
            #![trigger scan_from(text, from)->Ok_0[i]]
            0 <= i < scan_from(text, from)->Ok_0.len() ==> {
                let span = scan_from(text, from)->Ok_0[i];
                let behind = if i == 0 {
                    from
                } else {
                    scan_from(text, from)->Ok_0[i - 1].end + CLOSING_LEN
                };
                &&& next_opening(text, behind) == Some(span.start as int)
                &&& next_closing(text, span.start + OPENING_LEN) == Some(span.end as int)
            },
        next_opening(
            text,
            if scan_from(text, from)->Ok_0.len() == 0 {
                from
            } else {
                scan_from(text, from)->Ok_0.last().end + CLOSING_LEN
            },
        ) is None,
    decreases text.len() - from,
{
    lemma_next_opening(text, from);
    match next_opening(text, from) {
        None => {},
        Some(start) => {
            lemma_next_closing(text, start + OPENING_LEN);
            let end = next_closing(text, start + OPENING_LEN)->Some_0;
            lemma_scan_finds_tags(text, end + CLOSING_LEN);
            let rest = scan_from(text, end + CLOSING_LEN)->Ok_0;
            let span = TagSpan { start: start as usize, end: end as usize };
            let all = scan_from(text, from)->Ok_0;
            assert(all == seq![span] + rest);
            assert(all[0] == span);
            assert forall|i: int| 1 <= i < all.len() implies all[i] == rest[i - 1] by {}
            assert forall|i: int, j: int| 0 <= i < j < all.len() implies #[trigger] all[i].end + CLOSING_LEN
                <= #[trigger] all[j].start by {
                assert(all[j] == rest[j - 1]);
                if i > 0 {
                    assert(all[i] == rest[i - 1]);
                }
            }
            assert forall|i: int| 0 <= i < all.len() implies {
                let span = #[trigger] all[i];
                let behind = if i == 0 {
                    from
                } else {
                    all[i - 1].end + CLOSING_LEN
                };
                &&& next_opening(text, behind) == Some(span.start as int)
                &&& next_closing(text, span.start + OPENING_LEN) == Some(span.end as int)
            } by {
                if i > 0 {
                    assert(all[i] == rest[i - 1]);
                    if i > 1 {
                        assert(all[i - 1] == rest[i - 2]);
                    }
                }
            }
            if rest.len() > 0 {
                assert(all.last() == rest.last());
            }
        },
    }
}

} // verus!
