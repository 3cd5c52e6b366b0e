//! The labels of launchd jobs.

use std::collections::hash_map::DefaultHasher;
use std::hash::{Hash, Hasher};

use vstd::prelude::*;
use vstd::std_specs::hash::DefaultHasherAdditionalSpecFns;

use crate::text;
use crate::text::{chars_of, concat, owned, to_hex8};

verus! {

/// A character of a process name, as a label shows it: an ASCII letter in lower case, an ASCII
/// digit, or a hyphen in place of anything else.
pub open spec fn label_char(c: char) -> char {
    if 'A' <= c && c <= 'Z' {
        (c as u32 + 32) as char
    } else if ('a' <= c && c <= 'z') || ('0' <= c && c <= '9') {
        c
    } else {
        '-'
    }
}

/// A process name in the characters of labels, without a hyphen at its start or after another.
pub open spec fn squeezed(name: Seq<char>) -> Seq<char>
    decreases name.len(),
{
    if name.len() == 0 {
        Seq::empty()
    } else {
        let rest = squeezed(name.drop_last());
        let c = label_char(name.last());
        if c == '-' && (rest.len() == 0 || rest.last() == '-') {
            rest
        } else {
            rest.push(c)
        }
    }
}

/// The part of a label that shows a process name: [`squeezed`] without a hyphen at its end, or
/// `proc` when nothing is left.
pub open spec fn slug(name: Seq<char>) -> Seq<char> {
    let s = squeezed(name);
    let t = if s.len() > 0 && s.last() == '-' {
        s.drop_last()
    } else {
        s
    };
    if t.len() == 0 {
        "proc"@
    } else {
        t
    }
}

/// The label of the launchd job that watched a process, given the hash of its name.
pub open spec fn watch_label_of(prefix: Seq<char>, name: Seq<char>, hash: u64) -> Seq<char> {
    prefix + "."@ + slug(name) + "-"@ + text::hex((hash as u32) as nat, 8)
}

/// What `str::hash` writes into a hasher.
pub uninterp spec fn hashed_writes(name: Seq<char>) -> Seq<Seq<u8>>;

/// Trusted: `str::hash` into a `DefaultHasher`. It adds its writes to those that were made before;
/// which writes they are depends on the text alone, and is not said.
#[verifier::external_body]
pub(crate) fn hash_into(name: &str, hasher: &mut DefaultHasher)
    ensures
        final(hasher)@ == old(hasher)@ + hashed_writes(name@),
{
    name.hash(hasher)
}

/// The character of a label that shows `c`.
fn to_label_char(c: char) -> (r: char)
    ensures
        r == label_char(c),
{
    if 'A' <= c && c <= 'Z' {
        ((c as u8) + 32) as char
    } else if ('a' <= c && c <= 'z') || ('0' <= c && c <= '9') {
        c
    } else {
        '-'
    }
}

/// Builds [`slug`].
fn make_slug(name: &str) -> (r: String)
    ensures
        r@ == slug(name@),
{
    let cs = chars_of(name);
    let mut out: Vec<char> = Vec::new();
    let mut i: usize = 0;
    assert(cs@.take(0) =~= Seq::empty());
    while i < cs.len()
        invariant
            i <= cs.len(),
            out@ == squeezed(cs@.take(i as int)),
        decreases cs.len() - i,
    {
        assert(cs@.take(i + 1).drop_last() == cs@.take(i as int));
        let c = to_label_char(cs[i]);
        let drop = c == '-' && (out.len() == 0 || out[out.len() - 1] == '-');
        if !drop {
            out.push(c);
        }
        i += 1;
    }
    assert(cs@.take(i as int) == cs@);
    let mut end: usize = out.len();
    if end > 0 && out[end - 1] == '-' {
        end -= 1;
    }
    if end == 0 {
        return owned("proc");
    }
    let r = text::slice_text(&out, 0, end);
    assert(r@ =~= slug(name@));
    r
}

/// The label of the launchd job that watched a process, given the hash of its name.
pub fn watch_label_with_hash(label_prefix: &str, name: &str, hash: u64) -> (r: String)
    ensures
        r@ == watch_label_of(label_prefix@, name@, hash),
{
    let mut r = concat(label_prefix, ".");
    let shown = make_slug(name);
    r.append(shown.as_str());
    r.append("-");
    let suffix = to_hex8(hash as u32);
    r.append(suffix.as_str());
    r
}

/// The label of the launchd job that watched a process.
pub fn watch_label(label_prefix: &str, name: &str) -> (r: String)
    ensures
        r@ == watch_label_of(
            label_prefix@,
            name@,
            DefaultHasher::spec_finish(hashed_writes(name@)),
        ),
{
    let mut hasher = DefaultHasher::new();
    hash_into(name, &mut hasher);
    assert(hasher@ =~= hashed_writes(name@));
    watch_label_with_hash(label_prefix, name, hasher.finish())
}

/// The label of the agent.
pub open spec fn agent_label_of(prefix: Seq<char>) -> Seq<char> {
    prefix + ".agent"@
}

/// Builds [`agent_label_of`].
pub fn agent_label_for(prefix: &str) -> (r: String)
    ensures
        r@ == agent_label_of(prefix@),
{
    concat(prefix, ".agent")
}

/// Whether a character can stand in the part of a label that shows a process name.
pub open spec fn is_label_char(c: char) -> bool {
    ('a' <= c && c <= 'z') || ('0' <= c && c <= '9') || c == '-'
}

/// Whether a text holds only characters of labels, does not start with a hyphen, and has no hyphen
/// after another.
pub open spec fn is_tidy(s: Seq<char>) -> bool {
    &&& forall|i: int| 0 <= i < s.len() ==> is_label_char(#[trigger] s[i])
    &&& s.len() > 0 ==> s[0] != '-'
    &&& forall|i: int, j: int|
        0 <= i && j == i + 1 && j < s.len() ==> #[trigger] s[i] != '-' || #[trigger] s[j] != '-'
}

proof fn lemma_squeezed_is_tidy(name: Seq<char>)
    ensures
        is_tidy(squeezed(name)),
    decreases name.len(),
{
    if name.len() > 0 {
        lemma_squeezed_is_tidy(name.drop_last());
    }
}

/// However a process is named, the part of a label that shows its name is not empty, holds only
/// lower-case letters, digits and single hyphens, and neither starts nor ends with a hyphen.
pub proof fn labels_are_tidy(name: Seq<char>)
    ensures
        slug(name).len() > 0,
        is_tidy(slug(name)),
        slug(name).last() != '-',
{
    lemma_squeezed_is_tidy(name);
    reveal_strlit("proc");
    let s = squeezed(name);
    if s.len() > 1 && s.last() == '-' {
        assert(s[s.len() - 2] != '-' || s[s.len() - 1] != '-');
    }
}

} // verus!
