//! Characters and character sequences: the text model that the rest of the
//! library works on.

use vstd::prelude::*;

verus! {

/// Whether `c` has the Unicode `White_Space` property.
pub open spec fn is_whitespace(c: char) -> bool {
    let n = c as u32;
    ||| 0x09 <= n <= 0x0D
    ||| n == 0x20
    ||| n == 0x85
    ||| n == 0xA0
    ||| n == 0x1680
    ||| 0x2000 <= n <= 0x200A
    ||| n == 0x2028
    ||| n == 0x2029
    ||| n == 0x202F
    ||| n == 0x205F
    ||| n == 0x3000
}

/// Whether `c` is whitespace.
pub fn whitespace(c: char) -> (b: bool)
    ensures
        b == is_whitespace(c),
{
    let n: u32 = c as u32;
    (0x09 <= n && n <= 0x0D) || n == 0x20 || n == 0x85 || n == 0xA0 || n == 0x1680 || (0x2000 <= n
        && n <= 0x200A) || n == 0x2028 || n == 0x2029 || n == 0x202F || n == 0x205F || n == 0x3000
}

/// `String::push`: appends one character.
#[verifier::external_body]
pub(crate) fn push_char(text: &mut String, c: char)
    ensures
        final(text)@ == old(text)@.push(c),
{
    text.push(c)
}

/// The characters of `text`, in order.
pub fn chars_of(text: &str) -> (chars: Vec<char>)
    ensures
        chars@ == text@,
{
    let mut chars: Vec<char> = Vec::new();
    for c in it: text.chars()
        invariant
            chars@ == it.seq().take(it.index() as int),
            it.seq() == text@,
    {
        chars.push(c);
    }
    chars
}

/// The string made of `chars`, in order.
pub fn string_of(chars: &[char]) -> (text: String)
    ensures
        text@ == chars@,
{
    let mut text = String::new();
    let mut i: usize = 0;
    while i < chars.len()
        invariant
            i <= chars.len(),
            text@ == chars@.take(i as int),
        decreases chars.len() - i,
    {
        push_char(&mut text, chars[i]);
        i += 1;
        assert(chars@.take(i as int) == chars@.take(i - 1).push(chars@[i - 1]));
    }
    assert(chars@.take(chars.len() as int) == chars@);
    text
}

/// `text` without the whitespace at its start.
pub open spec fn trim_start(text: Seq<char>) -> Seq<char>
    decreases text.len(),
{
    if text.len() > 0 && is_whitespace(text[0]) {
        trim_start(text.drop_first())
    } else {
        text
    }
}

/// `text` without the whitespace at its end.
pub open spec fn trim_end(text: Seq<char>) -> Seq<char>
    decreases text.len(),
{
    if text.len() > 0 && is_whitespace(text.last()) {
        trim_end(text.drop_last())
    } else {
        text
    }
}

/// `text` without the whitespace at either end.
pub open spec fn trimmed(text: Seq<char>) -> Seq<char> {
    trim_end(trim_start(text))
}

/// `trim_start` cuts off a run of whitespace, and all of it.
pub proof fn lemma_trim_start(text: Seq<char>)
    ensures
        trim_start(text).len() <= text.len(),
        trim_start(text) == text.skip(text.len() - trim_start(text).len()),
        forall|i: int| 0 <= i < text.len() - trim_start(text).len() ==> is_whitespace(text[i]),
        trim_start(text).len() > 0 ==> !is_whitespace(trim_start(text)[0]),
    decreases text.len(),
{
    if text.len() > 0 && is_whitespace(text[0]) {
        let rest = text.drop_first();
        lemma_trim_start(rest);
        let cut = rest.len() - trim_start(rest).len();
        assert(rest.skip(cut) =~= text.skip(cut + 1));
        assert forall|i: int| 0 <= i < cut + 1 implies is_whitespace(text[i]) by {
            if i > 0 {
                assert(text[i] == rest[i - 1]);
            }
        }
    } else {
        assert(text.skip(0) =~= text);
    }
}

/// `trim_end` cuts off a run of whitespace, and all of it.
pub proof fn lemma_trim_end(text: Seq<char>)
    ensures
        trim_end(text).len() <= text.len(),
        trim_end(text) == text.take(trim_end(text).len() as int),
        forall|i: int| trim_end(text).len() <= i < text.len() ==> is_whitespace(text[i]),
        trim_end(text).len() > 0 ==> !is_whitespace(trim_end(text).last()),
    decreases text.len(),
{
    if text.len() > 0 && is_whitespace(text.last()) {
        let rest = text.drop_last();
        lemma_trim_end(rest);
        let keep = trim_end(rest).len() as int;
        assert(rest.take(keep) =~= text.take(keep));
        assert forall|i: int| keep <= i < text.len() implies is_whitespace(text[i]) by {
            if i < rest.len() {
                assert(text[i] == rest[i]);
            }
        }
    } else {
        assert(text.take(text.len() as int) =~= text);
    }
}

/// Where `text` begins and ends once the whitespace at either end is left out.
pub fn trim_bounds(text: &[char]) -> (bounds: (usize, usize))
    ensures
        bounds.0 <= bounds.1 <= text.len(),
        trimmed(text@) == text@.subrange(bounds.0 as int, bounds.1 as int),
{
    let len = text.len();
    let mut lo: usize = 0;
    assert(text@.subrange(0, len as int) =~= text@);
    while lo < len && whitespace(text[lo])
        invariant
            lo <= len == text.len(),
            trim_start(text@) == trim_start(text@.subrange(lo as int, len as int)),
        decreases len - lo,
    {
        assert(text@.subrange(lo as int, len as int).drop_first() =~= text@.subrange(
            lo + 1,
            len as int,
        ));
        lo += 1;
    }
    let mut hi: usize = len;
    while hi > lo && whitespace(text[hi - 1])
        invariant
            lo <= hi <= len == text.len(),
            trimmed(text@) == trim_end(text@.subrange(lo as int, hi as int)),
        decreases hi - lo,
    {
        assert(text@.subrange(lo as int, hi as int).drop_last() =~= text@.subrange(
            lo as int,
            hi - 1,
        ));
        hi -= 1;
    }
    (lo, hi)
}

/// The pieces of `text` between the occurrences of `sep`: one more piece than
/// there are occurrences.
pub open spec fn split(text: Seq<char>, sep: char) -> Seq<Seq<char>>
    decreases text.len(),
{
    if text.len() == 0 {
        seq![Seq::empty()]
    } else {
        let before = split(text.drop_last(), sep);
        if text.last() == sep {
            before.push(Seq::empty())
        } else {
            before.update(before.len() - 1, before.last().push(text.last()))
        }
    }
}

/// `pieces` put together again with `sep` between them.
pub open spec fn join(pieces: Seq<Seq<char>>, sep: char) -> Seq<char>
    decreases pieces.len(),
{
    if pieces.len() == 0 {
        Seq::empty()
    } else if pieces.len() == 1 {
        pieces[0]
    } else {
        join(pieces.drop_last(), sep).push(sep) + pieces.last()
    }
}

/// Splitting loses nothing: no piece holds `sep`, and the pieces joined with
/// `sep` give `text` back.
pub proof fn lemma_split_join(text: Seq<char>, sep: char)
    ensures
        split(text, sep).len() >= 1,
        forall|i: int, j: int|
            0 <= i < split(text, sep).len() && 0 <= j < split(text, sep)[i].len() ==> split(
                text,
                sep,
            )[i][j] != sep,
        join(split(text, sep), sep) == text,
    decreases text.len(),
{
    if text.len() == 0 {
    } else {
        let before = split(text.drop_last(), sep);
        lemma_split_join(text.drop_last(), sep);
        let pieces = split(text, sep);
        if text.last() == sep {
            assert(pieces.drop_last() =~= before);
            assert(join(pieces, sep) =~= text);
        } else {
            let grown = before.last().push(text.last());
            if before.len() == 1 {
                assert(join(pieces, sep) =~= text);
            } else {
                let front = join(before.drop_last(), sep).push(sep);
                assert(pieces.drop_last() =~= before.drop_last());
                assert(join(before, sep) == front + before.last());
                assert(join(pieces, sep) == front + grown);
                assert(front + grown =~= (front + before.last()).push(text.last()));
                assert(text.drop_last().push(text.last()) =~= text);
            }
        }
    }
}

/// The character sequences that `pieces` hold.
pub open spec fn views(pieces: Seq<Vec<char>>) -> Seq<Seq<char>> {
    pieces.map_values(|piece: Vec<char>| piece@)
}

/// Splits the part of `text` from `lo` to `hi` at each `sep`.
pub fn split_between(text: &[char], lo: usize, hi: usize, sep: char) -> (pieces: Vec<Vec<char>>)
    requires
        lo <= hi <= text.len(),
    ensures
        views(pieces@) == split(text@.subrange(lo as int, hi as int), sep),
{
    let mut done: Vec<Vec<char>> = Vec::new();
    let mut current: Vec<char> = Vec::new();
    let mut i: usize = lo;
    assert(views(done@).push(current@) =~= seq![Seq::<char>::empty()]);
    while i < hi
        invariant
            lo <= i <= hi <= text.len(),
            split(text@.subrange(lo as int, i as int), sep) == views(done@).push(current@),
        decreases hi - i,
    {
        let c = text[i];
        let ghost before = views(done@).push(current@);
        assert(text@.subrange(lo as int, i + 1).drop_last() =~= text@.subrange(
            lo as int,
            i as int,
        ));
        if c == sep {
            done.push(current);
            current = Vec::new();
            assert(views(done@).push(current@) =~= before.push(Seq::<char>::empty()));
        } else {
            current.push(c);
            assert(views(done@).push(current@) =~= before.update(
                before.len() - 1,
                before.last().push(c),
            ));
        }
        i += 1;
    }
    let ghost before = views(done@).push(current@);
    done.push(current);
    assert(views(done@) =~= before);
    done
}

} // verus!
