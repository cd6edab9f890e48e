use vstd::prelude::*;
use crate::text::chars_of;

verus! {

/// `std::path::Path::exists`: whether the path names something on disk right
/// now. Nothing is promised of the answer.
#[verifier::external_body]
pub(crate) fn path_exists(path: &str) -> bool {
    std::path::Path::new(path).exists()
}

/// Equality of `std::path::Path`: whether two strings name the same path,
/// component by component. A string names the same path as itself; of two
/// different strings the answer depends on the platform's path syntax.
#[verifier::external_body]
pub(crate) fn same_path(a: &str, b: &str) -> (r: bool)
    ensures
        a@ == b@ ==> r,
{
    std::path::Path::new(a) == std::path::Path::new(b)
}

/// `std::path::MAIN_SEPARATOR`: the character that parts the segments of a
/// path on this platform, a slash on the Unix family and a backslash on the
/// Windows family.
#[verifier::external_body]
pub(crate) fn main_separator() -> (c: char)
    ensures
        c == '/' || c == '\\',
{
    std::path::MAIN_SEPARATOR
}

/// The last segment of a path: what follows its last separator, or all of it
/// where it holds none.
pub open spec fn last_segment(path: Seq<char>, sep: char) -> Seq<char>
    decreases path.len(),
{
    if path.len() == 0 || path.last() == sep {
        Seq::empty()
    } else {
        last_segment(path.drop_last(), sep).push(path.last())
    }
}

/// The last segment holds no separator and ends the path, and a separator
/// stands before it unless it is the whole path.
pub proof fn lemma_last_segment(path: Seq<char>, sep: char)
    ensures
        last_segment(path, sep).len() <= path.len(),
        last_segment(path, sep) == path.subrange(
            path.len() - last_segment(path, sep).len(),
            path.len() as int,
        ),
        !last_segment(path, sep).contains(sep),
        last_segment(path, sep).len() < path.len() ==> path[path.len() - last_segment(
            path,
            sep,
        ).len() - 1] == sep,
    decreases path.len(),
{
    let seg = last_segment(path, sep);
    if path.len() > 0 && path.last() != sep {
        lemma_last_segment(path.drop_last(), sep);
        assert forall|i: int| 0 <= i < seg.len() implies seg[i] != sep by {}
    }
}

/// The characters of the last segment of `path`.
pub fn basename(path: &str, sep: char) -> (seg: Vec<char>)
    ensures
        seg@ == last_segment(path@, sep),
{
    let chars = chars_of(path);
    let mut start = chars.len();
    proof {
        assert(chars@.take(start as int) =~= chars@);
        assert(last_segment(chars@, sep) + chars@.subrange(start as int, start as int)
            =~= last_segment(chars@, sep));
    }
    while start > 0 && chars[start - 1] != sep
        invariant
            start <= chars.len(),
            last_segment(chars@, sep) == last_segment(chars@.take(start as int), sep)
                + chars@.subrange(start as int, chars.len() as int),
        decreases start,
    {
        proof {
            let whole = chars@.take(start as int);
            assert(whole.drop_last() =~= chars@.take(start - 1));
            assert(last_segment(whole.drop_last(), sep).push(whole.last()) + chars@.subrange(
                start as int,
                chars.len() as int,
            ) =~= last_segment(whole.drop_last(), sep) + chars@.subrange(
                start - 1,
                chars.len() as int,
            ));
        }
        start -= 1;
    }
    let mut seg: Vec<char> = Vec::new();
    let mut i = start;
    while i < chars.len()
        invariant
            start <= i <= chars.len(),
            seg@ == chars@.subrange(start as int, i as int),
        decreases chars.len() - i,
    {
        seg.push(chars[i]);
        i += 1;
    }
    seg
}

} // verus!
