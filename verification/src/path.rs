//! Paths: the file name that a path ends in, the directory that holds it,
//! and the stem and the extension that a file name splits into.

use crate::text::{chars_of, string_of, substring};
use vstd::prelude::*;

verus! {

/// The final component of `path` as `std::path::Path::file_name` tells it on
/// the platform the library is built for, or `None` where the path has none.
pub uninterp spec fn path_file_name(path: Seq<char>) -> Option<Seq<char>>;

/// The path without its final component as `std::path::Path::parent` tells it
/// on the platform the library is built for, or `None` where the path ends in
/// a root or is empty.
pub uninterp spec fn path_parent(path: Seq<char>) -> Option<Seq<char>>;

/// Calls `std::path::Path::file_name`. The final component of a path depends
/// on the path alone; nothing else is claimed of it.
#[verifier::external_body]
pub(crate) fn file_name(path: &str) -> (name: Option<String>)
    ensures
        name.deep_view() == path_file_name(path@),
{
    match std::path::Path::new(path).file_name() {
        Some(name) => match name.to_str() {
            Some(text) => Some(text.to_owned()),
            None => None,
        },
        None => None,
    }
}

/// Calls `std::path::Path::parent`. The parent of a path depends on the path
/// alone; nothing else is claimed of it.
#[verifier::external_body]
pub(crate) fn parent(path: &str) -> (directory: Option<String>)
    ensures
        directory.deep_view() == path_parent(path@),
{
    match std::path::Path::new(path).parent() {
        Some(directory) => match directory.to_str() {
            Some(text) => Some(text.to_owned()),
            None => None,
        },
        None => None,
    }
}

/// The index of the last `.` in `name`, or -1 where it holds none.
pub open spec fn last_dot(name: Seq<char>) -> int
    decreases name.len(),
{
    if name.len() == 0 {
        -1
    } else if name.last() == '.' {
        name.len() - 1
    } else {
        last_dot(name.drop_last())
    }
}

/// Whether a file name splits at its last `.`: it does unless it holds no
/// `.`, holds its only `.` in front, or is `..`.
pub open spec fn splits(name: Seq<char>) -> bool {
    last_dot(name) > 0 && name != seq!['.', '.']
}

/// The stem of a file name: what stands before its last `.` where it splits
/// there, the whole name otherwise.
pub open spec fn stem_of(name: Seq<char>) -> Seq<char> {
    if splits(name) {
        name.take(last_dot(name))
    } else {
        name
    }
}

/// The extension of a file name: what stands after its last `.` where it
/// splits there.
pub open spec fn extension_of(name: Seq<char>) -> Option<Seq<char>> {
    if splits(name) {
        Some(name.skip(last_dot(name) + 1))
    } else {
        None
    }
}

/// The last `.` of a name is a `.` that no other follows.
pub proof fn lemma_last_dot(name: Seq<char>)
    ensures
        -1 <= last_dot(name) < name.len(),
        last_dot(name) >= 0 ==> name[last_dot(name)] == '.',
        forall|i: int| last_dot(name) < i < name.len() ==> #[trigger] name[i] != '.',
    decreases name.len(),
{
    if name.len() > 0 && name.last() != '.' {
        let front = name.drop_last();
        lemma_last_dot(front);
        assert forall|i: int| last_dot(name) < i < name.len() implies #[trigger] name[i]
            != '.' by {
            if i < front.len() {
                assert(name[i] == front[i]);
            }
        }
    }
}

/// A `.` that no other follows is the last `.` of a name, and a name without
/// any has none.
pub proof fn lemma_last_dot_is(name: Seq<char>, at: int)
    requires
        -1 <= at < name.len(),
        at >= 0 ==> name[at] == '.',
        forall|i: int| at < i < name.len() ==> #[trigger] name[i] != '.',
    ensures
        last_dot(name) == at,
    decreases name.len(),
{
    if name.len() > 0 && at < name.len() - 1 {
        let front = name.drop_last();
        assert(name.last() == name[name.len() - 1]);
        assert forall|i: int| at < i < front.len() implies #[trigger] front[i] != '.' by {
            assert(front[i] == name[i]);
        }
        lemma_last_dot_is(front, at);
    }
}

/// Splits a file name into its stem and its extension.
pub fn split_file_name(name: &str) -> (parts: (String, Option<String>))
    ensures
        parts.0@ == stem_of(name@),
        parts.1.deep_view() == extension_of(name@),
{
    let chars = chars_of(name);
    let n = chars.len();
    let mut i: usize = n;
    while i > 0 && chars[i - 1] != '.'
        invariant
            i <= n == chars.len(),
            forall|j: int| i <= j < n ==> #[trigger] chars@[j] != '.',
        decreases i,
    {
        i -= 1;
    }
    proof {
        lemma_last_dot_is(chars@, i - 1);
    }
    let is_dots = n == 2 && chars[0] == '.' && chars[1] == '.';
    assert(is_dots == (chars@ == seq!['.', '.'])) by {
        if is_dots {
            assert(chars@ =~= seq!['.', '.']);
        }
    }
    if i <= 1 || is_dots {
        (string_of(&chars), None)
    } else {
        assert(chars@.subrange(0, i - 1) =~= chars@.take(i - 1));
        assert(chars@.subrange(i as int, n as int) =~= chars@.skip(i as int));
        (substring(&chars, 0, i - 1), Some(substring(&chars, i, n)))
    }
}

} // verus!
