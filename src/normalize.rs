//! Canonical form of a discovered image link.
use regex::NoExpand;
use regex::Regex;
use vstd::prelude::*;

verus! {

/// Pattern of the thumbnail-size path marker of avatar pictures, such as
/// `/75x75_RS`, for any size.
pub const THUMBNAIL_PATTERN: &'static str = "/[0-9]+x[0-9]+_RS";

/// Pattern of a numeric size segment in a path, such as `/236x/`. Sizes are
/// written in ASCII digits.
pub const SIZE_PATTERN: &'static str = "/[0-9]+x/";

/// Path segment that names the original, full-size variant of an image.
pub const ORIGINALS_SEGMENT: &'static str = "/originals/";

pub open spec fn all_digits(s: Seq<char>, from: int, to: int) -> bool {
    forall|k: int| from <= k < to ==> is_ascii_digit(#[trigger] s[k])
}

/// `s[i..e]` is a thumbnail marker: `/`, digits, `x`, digits, `_RS`, with
/// `x` at index `a` and `_RS` starting at index `b`.
pub open spec fn thumbnail_marker_at(s: Seq<char>, i: int, a: int, b: int) -> bool {
    &&& 0 <= i
    &&& i + 1 < a
    &&& a + 1 < b
    &&& b + 3 <= s.len()
    &&& s[i] == '/'
    &&& all_digits(s, i + 1, a)
    &&& s[a] == 'x'
    &&& all_digits(s, a + 1, b)
    &&& s[b] == '_'
    &&& s[b + 1] == 'R'
    &&& s[b + 2] == 'S'
}

/// `s` holds an avatar thumbnail marker of some size.
pub open spec fn has_thumbnail_marker(s: Seq<char>) -> bool {
    exists|i: int, a: int, b: int| thumbnail_marker_at(s, i, a, b)
}

pub open spec fn is_ascii_digit(c: char) -> bool {
    '0' <= c && c <= '9'
}

/// `s[i..j]` is a size segment: `/`, one or more digits, `x/`.
pub open spec fn size_segment(s: Seq<char>, i: int, j: int) -> bool {
    &&& 0 <= i
    &&& i + 4 <= j
    &&& j <= s.len()
    &&& s[i] == '/'
    &&& s[j - 2] == 'x'
    &&& s[j - 1] == '/'
    &&& forall|k: int| i + 1 <= k < j - 2 ==> is_ascii_digit(#[trigger] s[k])
}

pub open spec fn has_size_segment(s: Seq<char>) -> bool {
    exists|i: int, j: int| size_segment(s, i, j)
}

/// The leftmost size segment of `s` (meaningful when there is one).
pub open spec fn first_size_segment(s: Seq<char>) -> (int, int) {
    choose|p: (int, int)|
        size_segment(s, p.0, p.1) && forall|i: int, j: int| size_segment(s, i, j) ==> p.0 <= i
}

/// `s` with its leftmost size segment replaced by `rep`; `s` itself when it has none.
pub open spec fn replace_first_size_segment(s: Seq<char>, rep: Seq<char>) -> Seq<char> {
    if has_size_segment(s) {
        let p = first_size_segment(s);
        s.subrange(0, p.0) + rep + s.subrange(p.1, s.len() as int)
    } else {
        s
    }
}

/// The canonical link of a raw source: `None` for an avatar thumbnail, else
/// the link with its first size segment pointing at the original size.
pub open spec fn canonical(s: Seq<char>) -> Option<Seq<char>> {
    if has_thumbnail_marker(s) {
        None
    } else {
        Some(replace_first_size_segment(s, "/originals/"@))
    }
}

/// Relies on regex::Regex::new and Regex::is_match: the thumbnail pattern
/// matches iff a thumbnail marker occurs somewhere in the text.
#[verifier::external_body]
fn regex_is_match(pattern: &str, text: &str) -> (r: bool)
    requires
        pattern@ == THUMBNAIL_PATTERN@,
    ensures
        r == has_thumbnail_marker(text@),
{
    Regex::new(pattern).unwrap().is_match(text)
}

/// Relies on regex::Regex::new and Regex::replace with a literal replacement:
/// the leftmost match of the size pattern is replaced, the rest is kept.
#[verifier::external_body]
fn regex_replace_first(pattern: &str, text: &str, rep: &str) -> (r: String)
    requires
        pattern@ == SIZE_PATTERN@,
    ensures
        r@ == replace_first_size_segment(text@, rep@),
{
    Regex::new(pattern).unwrap().replace(text, NoExpand(rep)).into_owned()
}

/// Canonical link of a raw image source, or `None` when it is an avatar thumbnail.
pub fn normalize(raw: &str) -> (r: Option<String>)
    ensures
        r is None <==> canonical(raw@) is None,
        r matches Some(c) ==> canonical(raw@) == Some(c@),
{
    if regex_is_match(THUMBNAIL_PATTERN, raw) {
        None
    } else {
        Some(regex_replace_first(SIZE_PATTERN, raw, ORIGINALS_SEGMENT))
    }
}

/// A raw source that holds a thumbnail marker of any size anywhere is rejected.
pub proof fn lemma_thumbnail_rejected(
    pre: Seq<char>,
    width: Seq<char>,
    height: Seq<char>,
    post: Seq<char>,
)
    requires
        width.len() >= 1,
        height.len() >= 1,
        forall|k: int| 0 <= k < width.len() ==> is_ascii_digit(#[trigger] width[k]),
        forall|k: int| 0 <= k < height.len() ==> is_ascii_digit(#[trigger] height[k]),
    ensures
        canonical(pre + seq!['/'] + width + seq!['x'] + height + "_RS"@ + post) is None,
{
    reveal_strlit("_RS");
    let s = pre + seq!['/'] + width + seq!['x'] + height + "_RS"@ + post;
    let i = pre.len() as int;
    let a = i + 1 + width.len();
    let b = a + 1 + height.len();
    assert(s[i] == '/');
    assert(s[a] == 'x');
    assert(s[b] == '_' && s[b + 1] == 'R' && s[b + 2] == 'S');
    assert forall|k: int| i + 1 <= k < a implies is_ascii_digit(#[trigger] s[k]) by {
        assert(s[k] == width[k - i - 1]);
    }
    assert forall|k: int| a + 1 <= k < b implies is_ascii_digit(#[trigger] s[k]) by {
        assert(s[k] == height[k - a - 1]);
    }
    assert(thumbnail_marker_at(s, i, a, b));
}

/// Two size segments that start at the same index end at the same index.
proof fn lemma_size_segment_end_unique(s: Seq<char>, i: int, j1: int, j2: int)
    requires
        size_segment(s, i, j1),
        size_segment(s, i, j2),
    ensures
        j1 == j2,
{
    if j1 < j2 {
        assert(is_ascii_digit(s[j1 - 2]));
    } else if j2 < j1 {
        assert(is_ascii_digit(s[j2 - 2]));
    }
}

/// A raw source without thumbnail marker whose leftmost size segment is
/// `/<digits>x/` gets exactly that segment rewritten to `/originals/`; the
/// text before and after it is kept as it is.
pub proof fn lemma_size_segment_rewritten(pre: Seq<char>, digits: Seq<char>, post: Seq<char>)
    requires
        digits.len() >= 1,
        forall|k: int| 0 <= k < digits.len() ==> is_ascii_digit(#[trigger] digits[k]),
        !has_thumbnail_marker(pre + seq!['/'] + digits + seq!['x', '/'] + post),
        forall|i: int, j: int|
            size_segment(pre + seq!['/'] + digits + seq!['x', '/'] + post, i, j) ==> i
                >= pre.len(),
    ensures
        canonical(pre + seq!['/'] + digits + seq!['x', '/'] + post) == Some(
            pre + "/originals/"@ + post,
        ),
{
    let s = pre + seq!['/'] + digits + seq!['x', '/'] + post;
    let i0 = pre.len() as int;
    let j0 = i0 + digits.len() + 3;
    assert(s[i0] == '/');
    assert(s[j0 - 2] == 'x');
    assert(s[j0 - 1] == '/');
    assert forall|k: int| i0 + 1 <= k < j0 - 2 implies is_ascii_digit(#[trigger] s[k]) by {
        assert(s[k] == digits[k - i0 - 1]);
    }
    assert(size_segment(s, i0, j0));
    assert(has_size_segment(s));
    let w = (i0, j0);
    assert(size_segment(s, w.0, w.1) && forall|i: int, j: int| size_segment(s, i, j) ==> w.0 <= i);
    let p = first_size_segment(s);
    assert(size_segment(s, p.0, p.1) && forall|i: int, j: int| size_segment(s, i, j) ==> p.0 <= i);
    assert(p.0 == i0);
    lemma_size_segment_end_unique(s, i0, p.1, j0);
    assert(s.subrange(0, i0) =~= pre);
    assert(s.subrange(j0, s.len() as int) =~= post);
}

} // verus!
