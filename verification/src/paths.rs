//! Unix path rules over plain text.

use vstd::prelude::*;

use crate::text;
use crate::text::{chars_of, concat, owned, same, slice_text, split_at_char};

verus! {

/// Whether a segment between two slashes names something: the empty segment and a single dot do
/// not.
pub open spec fn names_something(seg: Seq<char>) -> bool {
    seg.len() > 0 && seg != seq!['.']
}

/// The last segment that names something.
pub open spec fn last_named(segs: Seq<Seq<char>>) -> Option<Seq<char>>
    decreases segs.len(),
{
    if segs.len() == 0 {
        None
    } else if names_something(segs.last()) {
        Some(segs.last())
    } else {
        last_named(segs.drop_last())
    }
}

/// The final component of a path. A path that ends in the parent directory has none.
pub open spec fn base_name(path: Seq<char>) -> Option<Seq<char>> {
    match last_named(text::pieces(path, '/')) {
        Some(seg) => if seg == seq!['.', '.'] {
            None
        } else {
            Some(seg)
        },
        None => None,
    }
}

/// The final component of `path`.
pub fn file_name(path: &str) -> (r: Option<String>)
    ensures
        text::opt_text(r) == base_name(path@),
{
    let segs = split_at_char(path, '/');
    let ghost all = text::texts(segs@);
    let mut n: usize = segs.len();
    proof {
        reveal_strlit(".");
        reveal_strlit("..");
        assert("."@ =~= seq!['.']);
        assert(".."@ =~= seq!['.', '.']);
        assert(all.take(n as int) == all);
    }
    while n > 0
        invariant
            n <= segs.len(),
            all == text::texts(segs@),
            all == text::pieces(path@, '/'),
            "."@ == seq!['.'],
            ".."@ == seq!['.', '.'],
            last_named(all) == last_named(all.take(n as int)),
        decreases n,
    {
        let seg = segs[n - 1].as_str();
        assert(all.take(n as int).last() == seg@);
        assert(all.take(n as int).drop_last() == all.take(n - 1));
        if !seg.is_empty() && !same(seg, ".") {
            if same(seg, "..") {
                return None;
            }
            return Some(owned(seg));
        }
        n -= 1;
    }
    None
}

/// The final component of a path, or nothing.
pub open spec fn base_or_empty(path: Seq<char>) -> Seq<char> {
    match base_name(path) {
        Some(b) => b,
        None => Seq::empty(),
    }
}

/// The final component of a path, or the path itself.
pub open spec fn base_or_self(path: Seq<char>) -> Seq<char> {
    match base_name(path) {
        Some(b) => b,
        None => path,
    }
}

/// The final component of `path`, or nothing when it has none.
pub fn file_name_or_empty(path: &str) -> (r: String)
    ensures
        r@ == base_or_empty(path@),
{
    match file_name(path) {
        Some(b) => b,
        None => String::new(),
    }
}

/// The final component of `path`, or `path` itself when it has none.
pub fn file_name_or_self(path: &str) -> (r: String)
    ensures
        r@ == base_or_self(path@),
{
    match file_name(path) {
        Some(b) => b,
        None => owned(path),
    }
}

/// The position behind the last dot of `s`, or 0 when `s` has no dot.
pub open spec fn behind_last_dot(s: Seq<char>) -> nat
    decreases s.len(),
{
    if s.len() == 0 {
        0
    } else if s.last() == '.' {
        s.len()
    } else {
        behind_last_dot(s.drop_last())
    }
}

/// The extension of a path: what stands behind the last dot of its final component, unless that
/// dot is the component's first character.
pub open spec fn extension_of(path: Seq<char>) -> Option<Seq<char>> {
    match base_name(path) {
        Some(b) => if behind_last_dot(b) > 1 {
            Some(b.skip(behind_last_dot(b) as int))
        } else {
            None
        },
        None => None,
    }
}

/// The extension of `path`.
pub fn extension(path: &str) -> (r: Option<String>)
    ensures
        text::opt_text(r) == extension_of(path@),
{
    let base = match file_name(path) {
        Some(b) => b,
        None => {
            return None;
        },
    };
    let cs = chars_of(base.as_str());
    let mut n: usize = cs.len();
    assert(cs@.take(n as int) == cs@);
    while n > 0 && cs[n - 1] != '.'
        invariant
            n <= cs.len(),
            behind_last_dot(cs@) == behind_last_dot(cs@.take(n as int)),
        decreases n,
    {
        assert(cs@.take(n as int).drop_last() == cs@.take(n - 1));
        n -= 1;
    }
    assert(behind_last_dot(cs@) == n) by {
        if n > 0 {
            assert(cs@.take(n as int).last() == '.');
        }
    }
    if n > 1 {
        assert(cs@.subrange(n as int, cs@.len() as int) == cs@.skip(n as int));
        Some(slice_text(&cs, n, cs.len()))
    } else {
        None
    }
}

/// `tail` below the directory `dir`. An absolute `tail` stands alone.
pub open spec fn joined_path(dir: Seq<char>, tail: Seq<char>) -> Seq<char> {
    if tail.len() > 0 && tail[0] == '/' {
        tail
    } else if dir.len() == 0 || dir.last() == '/' {
        dir + tail
    } else {
        dir.push('/') + tail
    }
}

/// The path of `tail` below `dir`.
pub fn join_path(dir: &str, tail: &str) -> (r: String)
    ensures
        r@ == joined_path(dir@, tail@),
{
    let t = chars_of(tail);
    if t.len() > 0 && t[0] == '/' {
        return owned(tail);
    }
    let d = chars_of(dir);
    if d.len() == 0 || d[d.len() - 1] == '/' {
        concat(dir, tail)
    } else {
        let mut out = owned(dir);
        out.push('/');
        out.append(tail);
        out
    }
}

} // verus!
