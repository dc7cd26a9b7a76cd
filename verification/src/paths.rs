//! Simple paths: `/` followed by plain names separated by `/`. On every
//! platform std's `Path` splits such a path at each `/` and nowhere else, so
//! its folder, its last name and whether it lies inside another simple path
//! can be read off its text.

use vstd::prelude::*;
use crate::cache::is_plain_file_name;

verus! {

/// The position of the last `/` in `p`, or -1 without one.
pub open spec fn last_slash(p: Seq<char>) -> int
    decreases p.len(),
{
    if p.len() == 0 {
        -1
    } else if p.last() == '/' {
        p.len() - 1
    } else {
        last_slash(p.drop_last())
    }
}

/// `/` followed by one or more plain names separated by single `/`s.
pub open spec fn simple_path(p: Seq<char>) -> bool
    decreases p.len(),
{
    let i = last_slash(p);
    &&& 0 <= i < p.len()
    &&& is_plain_file_name(p.subrange(i + 1, p.len() as int))
    &&& (i == 0 || (i < p.len() && simple_path(p.subrange(0, i))))
}

/// A simple path, or the root `/` itself.
pub open spec fn simple_root(p: Seq<char>) -> bool {
    p == seq!['/'] || simple_path(p)
}

/// The folder of a simple path: the text before its last `/` (the root for
/// a name right under it).
pub open spec fn simple_parent(p: Seq<char>) -> Seq<char> {
    if last_slash(p) <= 0 { seq!['/'] } else { p.subrange(0, last_slash(p)) }
}

/// The last name of a simple path.
pub open spec fn simple_name(p: Seq<char>) -> Seq<char> {
    p.subrange(last_slash(p) + 1, p.len() as int)
}

/// `p` lies inside `base` (or is `base`): `base`'s names lead `p`'s.
pub open spec fn simple_under(p: Seq<char>, base: Seq<char>) -> bool {
    ||| p == base
    ||| base == seq!['/']
    ||| (p.len() > base.len() && p.subrange(0, base.len() as int) == base && p[base.len() as int] == '/')
}

/// What is left of `p` after `base`, when `p` lies inside it.
pub open spec fn simple_strip(p: Seq<char>, base: Seq<char>) -> Option<Seq<char>> {
    if p == base {
        Some(Seq::empty())
    } else if base == seq!['/'] {
        Some(p.drop_first())
    } else if simple_under(p, base) {
        Some(p.subrange(base.len() as int + 1, p.len() as int))
    } else {
        None
    }
}

/// The text of an optional string.
pub open spec fn opt_text(o: Option<String>) -> Option<Seq<char>> {
    match o {
        Some(s) => Some(s@),
        None => None,
    }
}

/// The position of the last `.` in `n`, or -1 without one.
pub open spec fn last_dot(n: Seq<char>) -> int
    decreases n.len(),
{
    if n.len() == 0 {
        -1
    } else if n.last() == '.' {
        n.len() - 1
    } else {
        last_dot(n.drop_last())
    }
}

/// The extension of a file name, as std's `Path::extension` documents it:
/// the part after the last `.`, unless there is no `.` or the only one
/// starts the name.
pub open spec fn name_extension(n: Seq<char>) -> Option<Seq<char>> {
    if last_dot(n) > 0 { Some(n.subrange(last_dot(n) + 1, n.len() as int)) } else { None }
}

} // verus!
