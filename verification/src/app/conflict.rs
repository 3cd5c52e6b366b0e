//! Limiters that someone else has started.

use vstd::prelude::*;

use crate::app::limiters;
use crate::app::survey;
use crate::app::survey::{Probe, Survey, SurveyView};
use crate::lists::has_number;
use crate::text;
use crate::text::{contains, copy_opt, owned, parse_u32, same, split_lines, split_words};

verus! {

/// The process id behind the first `-p` at or after position `i`, if one stands there.
pub open spec fn first_target(words: Seq<Seq<char>>, i: int) -> Option<nat>
    decreases words.len() - i,
{
    if i < 0 || i + 1 >= words.len() {
        None
    } else if words[i] == "-p"@ {
        limiters::pid_word(words[i + 1])
    } else {
        first_target(words, i + 1)
    }
}

/// The process that a line of process id and command line shows to be limited by someone else: the
/// line speaks of `cpulimit`, its process id is not one of `managed`, and it names a target.
pub open spec fn suspect(line: Seq<char>, managed: Seq<u32>) -> Option<u32> {
    let w = text::words(line);
    if text::has_part(line, "cpulimit"@) && w.len() > 0 && limiters::pid_word(w[0]) is Some
        && !managed.contains(limiters::pid_word(w[0])->0 as u32) && first_target(w, 0) is Some {
        Some(first_target(w, 0)->0 as u32)
    } else {
        None
    }
}

/// The processes that the first `n` lines show to be limited by someone else.
pub open spec fn suspects_in(lines: Seq<Seq<char>>, managed: Seq<u32>, n: int) -> Seq<u32>
    decreases n,
{
    if n <= 0 {
        Seq::empty()
    } else {
        match suspect(lines[n - 1], managed) {
            Some(pid) => suspects_in(lines, managed, n - 1).push(pid),
            None => suspects_in(lines, managed, n - 1),
        }
    }
}

/// The processes that a list of command lines shows to be limited by someone else.
pub open spec fn suspects(listing: Seq<char>, managed: Seq<u32>) -> Seq<u32> {
    suspects_in(text::lines(listing), managed, text::lines(listing).len() as int)
}

/// Finds the target behind the first `-p`.
fn find_first_target(words: &Vec<String>) -> (r: Option<u32>)
    ensures
        match r {
            Some(p) => first_target(text::texts(words@), 0) == Some(p as nat),
            None => first_target(text::texts(words@), 0) is None,
        },
{
    let ghost all = text::texts(words@);
    let mut i: usize = 0;
    while i < words.len() && words.len() - i > 1
        invariant
            i <= words.len(),
            all == text::texts(words@),
            all.len() == words.len(),
            first_target(all, 0) == first_target(all, i as int),
        decreases words.len() - i,
    {
        assert(all[i as int] == words@[i as int]@ && all[i + 1] == words@[i + 1]@);
        if same(words[i].as_str(), "-p") {
            return parse_u32(words[i + 1].as_str());
        }
        i += 1;
    }
    None
}

/// Reads the process that a line shows to be limited by someone else.
fn parse_suspect(line: &str, managed: &Vec<u32>) -> (r: Option<u32>)
    ensures
        r == suspect(line@, managed@),
{
    if !contains(line, "cpulimit") {
        return None;
    }
    let w = split_words(line);
    let ghost all = text::words(line@);
    assert(all.len() == w.len());
    if w.len() == 0 {
        return None;
    }
    assert(all[0] == w@[0]@);
    match parse_u32(w[0].as_str()) {
        Some(pid) => if has_number(managed, pid) {
            None
        } else {
            find_first_target(&w)
        },
        None => None,
    }
}

/// Reads the processes that a list of command lines shows to be limited by someone else.
pub fn find_suspects(listing: &str, managed: &Vec<u32>) -> (r: Vec<u32>)
    ensures
        r@ == suspects(listing@, managed@),
{
    let lines = split_lines(listing);
    let ghost all = text::lines(listing@);
    let mut out: Vec<u32> = Vec::new();
    let mut i: usize = 0;
    assert(all.len() == lines.len());
    while i < lines.len()
        invariant
            i <= lines.len(),
            all == text::texts(lines@),
            all.len() == lines.len(),
            out@ == suspects_in(all, managed@, i as int),
        decreases lines.len() - i,
    {
        assert(all[i as int] == lines@[i as int]@);
        match parse_suspect(lines[i].as_str(), managed) {
            Some(pid) => {
                out.push(pid);
            },
            None => {},
        }
        i += 1;
    }
    out
}

/// The survey for the limiters of someone else: which of the suspects have this name and, if there
/// is a needle, this part of their command line?
pub open spec fn conflict_survey(
    target_name: Seq<char>,
    args_contains: Option<Seq<char>>,
    managed: Seq<u32>,
    listing: Seq<char>,
) -> SurveyView {
    survey::begun(
        target_name,
        args_contains,
        suspects(listing, managed).map_values(|pid: u32| Probe::Ask(pid)),
    )
}

/// Begins to find out whether someone else limits a process of this name.
pub fn has_external_adhoc_conflict(
    target_name: &str,
    args_contains: &Option<String>,
    managed: &Vec<u32>,
    listing: &str,
) -> (r: Survey)
    ensures
        r@ == conflict_survey(target_name@, text::opt_text(*args_contains), managed@, listing@),
        r@.well_formed(),
{
    let pids = find_suspects(listing, managed);
    let ghost all = pids@.map_values(|pid: u32| Probe::Ask(pid));
    let mut probes: Vec<Probe> = Vec::new();
    let mut i: usize = 0;
    while i < pids.len()
        invariant
            i <= pids.len(),
            all.len() == pids@.len(),
            forall|j: int| 0 <= j < pids@.len() ==> #[trigger] all[j] == Probe::Ask(pids@[j]),
            probes@ == all.take(i as int),
        decreases pids.len() - i,
    {
        probes.push(Probe::Ask(pids[i]));
        i += 1;
    }
    assert(probes@ =~= all);
    Survey::begin(owned(target_name), copy_opt(args_contains), probes)
}

} // verus!
