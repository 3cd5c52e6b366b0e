//! The limiter processes that are running, by the list that `ps` prints.

use vstd::prelude::*;

use crate::infra::command::CommandReply;
use crate::lists;
use crate::lists::has_number;
use crate::paths;
use crate::paths::file_name;
use crate::text;
use crate::text::{concat, is_text, number_list, parse_u32, same, split_lines, split_words};

verus! {

/// A limiter and the process that it limits.
#[derive(Clone, Copy, Debug, PartialEq, Eq, Structural)]
pub struct Limiter {
    pub cpulimit_pid: u32,
    pub target_pid: u32,
}

/// The process id that a word writes.
pub open spec fn pid_word(w: Seq<char>) -> Option<nat> {
    text::number_up_to(w, u32::MAX as nat)
}

/// The process id behind the first `-p` at or after position `i` that a process id follows.
pub open spec fn target_word(words: Seq<Seq<char>>, i: int) -> Option<nat>
    decreases words.len() - i,
{
    if i < 0 || i + 1 >= words.len() {
        None
    } else if words[i] == "-p"@ && pid_word(words[i + 1]) is Some {
        pid_word(words[i + 1])
    } else {
        target_word(words, i + 1)
    }
}

/// The limiter that a line of process id and command line describes: its command's file name is
/// `cpulimit`, and it names its target with `-p`.
pub open spec fn limiter_line(line: Seq<char>) -> Option<Limiter> {
    let w = text::words(line);
    if w.len() >= 2 && pid_word(w[0]) is Some && paths::base_name(w[1]) == Some("cpulimit"@)
        && target_word(w, 0) is Some {
        Some(
            Limiter {
                cpulimit_pid: pid_word(w[0])->0 as u32,
                target_pid: target_word(w, 0)->0 as u32,
            },
        )
    } else {
        None
    }
}

/// Finds the target that follows a `-p`.
fn find_target(words: &Vec<String>) -> (r: Option<u32>)
    ensures
        match r {
            Some(p) => target_word(text::texts(words@), 0) == Some(p as nat),
            None => target_word(text::texts(words@), 0) is None,
        },
{
    let ghost all = text::texts(words@);
    let mut i: usize = 0;
    assert(forall|j: int| 0 <= j < all.len() ==> all[j] == (#[trigger] words@[j])@);
    while i < words.len() && words.len() - i > 1
        invariant
            i <= words.len(),
            all == text::texts(words@),
            all.len() == words.len(),
            target_word(all, 0) == target_word(all, i as int),
        decreases words.len() - i,
    {
        assert(all[i as int] == words@[i as int]@ && all[i + 1] == words@[i + 1]@);
        if same(words[i].as_str(), "-p") {
            let target = parse_u32(words[i + 1].as_str());
            if target.is_some() {
                return target;
            }
        }
        i += 1;
    }
    None
}

/// Reads a line of process id and command line.
pub fn parse_cpulimit_process_line(line: &str) -> (r: Option<(u32, u32)>)
    ensures
        match r {
            Some(pair) => limiter_line(line@) == Some(
                Limiter { cpulimit_pid: pair.0, target_pid: pair.1 },
            ),
            None => limiter_line(line@) is None,
        },
{
    let w = split_words(line);
    let ghost all = text::words(line@);
    assert(all.len() == w.len());
    if w.len() < 2 {
        return None;
    }
    assert(all[0] == w@[0]@ && all[1] == w@[1]@);
    let cpulimit_pid = match parse_u32(w[0].as_str()) {
        Some(p) => p,
        None => {
            return None;
        },
    };
    if !is_text(&file_name(w[1].as_str()), "cpulimit") {
        return None;
    }
    match find_target(&w) {
        Some(target_pid) => Some((cpulimit_pid, target_pid)),
        None => None,
    }
}

/// The limiters among the first `n` lines.
pub open spec fn limiters_in(lines: Seq<Seq<char>>, n: int) -> Seq<Limiter>
    decreases n,
{
    if n <= 0 {
        Seq::empty()
    } else {
        match limiter_line(lines[n - 1]) {
            Some(l) => limiters_in(lines, n - 1).push(l),
            None => limiters_in(lines, n - 1),
        }
    }
}

/// The limiters that a list of processes shows, in its order.
pub open spec fn limiters(output: Seq<char>) -> Seq<Limiter> {
    limiters_in(text::lines(output), text::lines(output).len() as int)
}

/// Reads the limiters off a list of processes.
pub fn parse_limiters(output: &str) -> (r: Vec<Limiter>)
    ensures
        r@ == limiters(output@),
{
    let lines = split_lines(output);
    let ghost all = text::lines(output@);
    let mut out: Vec<Limiter> = Vec::new();
    let mut i: usize = 0;
    assert(all.len() == lines.len());
    while i < lines.len()
        invariant
            i <= lines.len(),
            all == text::texts(lines@),
            all.len() == lines.len(),
            out@ == limiters_in(all, i as int),
        decreases lines.len() - i,
    {
        assert(all[i as int] == lines@[i as int]@);
        match parse_cpulimit_process_line(lines[i].as_str()) {
            Some(pair) => {
                out.push(Limiter { cpulimit_pid: pair.0, target_pid: pair.1 });
            },
            None => {},
        }
        i += 1;
    }
    out
}

/// The limiters that are running, by the reply of `ps`: none when it could not be asked or failed.
pub open spec fn running_limiters(reply: Option<CommandReply>) -> Seq<Limiter> {
    match reply {
        Some(r) => if r.success {
            limiters(r.stdout@)
        } else {
            Seq::empty()
        },
        None => Seq::empty(),
    }
}

/// Reads the running limiters, each with its target, off the reply of `ps`.
pub fn cpulimit_pids_by_target(reply: &Option<CommandReply>) -> (r: Vec<Limiter>)
    ensures
        r@ == running_limiters(*reply),
{
    match reply {
        Some(r) => if r.success {
            parse_limiters(r.stdout.as_str())
        } else {
            Vec::new()
        },
        None => Vec::new(),
    }
}

/// Whether a limiter holds this process.
pub open spec fn holds(target_pid: u32) -> spec_fn(Limiter) -> bool {
    |l: Limiter| l.target_pid == target_pid
}

/// The process ids of limiters.
pub open spec fn pids_of(ls: Seq<Limiter>) -> Seq<u32> {
    ls.map_values(|l: Limiter| l.cpulimit_pid)
}

/// The limiters on a process.
pub open spec fn limiters_on(ls: Seq<Limiter>, target_pid: u32) -> Seq<u32> {
    pids_of(ls.filter(holds(target_pid)))
}

/// Picks the limiters on a process.
pub fn cpulimit_pids_for_target(ls: &Vec<Limiter>, target_pid: u32) -> (r: Vec<u32>)
    ensures
        r@ == limiters_on(ls@, target_pid),
{
    let mut out: Vec<u32> = Vec::new();
    let mut i: usize = 0;
    proof {
        reveal(Seq::filter);
        assert(limiters_on(ls@.take(0), target_pid) =~= Seq::empty());
    }
    while i < ls.len()
        invariant
            i <= ls.len(),
            out@ == limiters_on(ls@.take(i as int), target_pid),
        decreases ls.len() - i,
    {
        proof {
            assert(ls@.take(i + 1) == ls@.take(i as int).push(ls@[i as int]));
            lists::lemma_filter_push(ls@.take(i as int), ls@[i as int], holds(target_pid));
        }
        if ls[i].target_pid == target_pid {
            out.push(ls[i].cpulimit_pid);
        }
        assert(out@ =~= limiters_on(ls@.take(i + 1), target_pid));
        i += 1;
    }
    assert(ls@.take(i as int) == ls@);
    out
}

/// Picks the limiters on a process off a list of processes.
pub fn cpulimit_pids_for_target_from_ps(ps_output: &str, target_pid: u32) -> (r: Vec<u32>)
    ensures
        r@ == limiters_on(limiters(ps_output@), target_pid),
{
    let ls = parse_limiters(ps_output);
    cpulimit_pids_for_target(&ls, target_pid)
}

/// Whether a limiter on the target of `keep` is a duplicate: it is another one, and not managed.
pub open spec fn is_duplicate(keep: u32, managed: Seq<u32>) -> spec_fn(u32) -> bool {
    |p: u32| p != keep && !managed.contains(p)
}

/// The limiters among `pids` that are duplicates of `keep`. Managed limiters never are.
pub fn duplicates(pids: &Vec<u32>, keep: u32, managed: &Vec<u32>) -> (r: Vec<u32>)
    ensures
        r@ == pids@.filter(is_duplicate(keep, managed@)),
{
    let mut out: Vec<u32> = Vec::new();
    let mut i: usize = 0;
    let ghost pred = is_duplicate(keep, managed@);
    proof {
        reveal(Seq::filter);
        assert(pids@.take(0).filter(pred) =~= Seq::empty());
    }
    while i < pids.len()
        invariant
            i <= pids.len(),
            pred == is_duplicate(keep, managed@),
            out@ == pids@.take(i as int).filter(pred),
        decreases pids.len() - i,
    {
        proof {
            assert(pids@.take(i + 1) == pids@.take(i as int).push(pids@[i as int]));
            lists::lemma_filter_push(pids@.take(i as int), pids@[i as int], pred);
        }
        let p: u32 = pids[i];
        if p != keep && !has_number(managed, p) {
            out.push(p);
        }
        i += 1;
    }
    assert(pids@.take(i as int) == pids@);
    out
}

/// Those of `pids` whose outcome is a failure.
pub open spec fn failed_pids(pids: Seq<u32>, stopped: Seq<bool>) -> Seq<u32> {
    lists::picked(pids, stopped, false)
}

/// Those of `pids` whose outcome is a success.
pub open spec fn stopped_pids(pids: Seq<u32>, stopped: Seq<bool>) -> Seq<u32> {
    lists::picked(pids, stopped, true)
}

/// Parts `pids` into those whose outcome is a success, and those whose outcome is a failure.
pub(crate) fn part_by_outcome(pids: &Vec<u32>, stopped: &Vec<bool>) -> (r: (Vec<u32>, Vec<u32>))
    requires
        stopped@.len() == pids@.len(),
    ensures
        r.0@ == stopped_pids(pids@, stopped@),
        r.1@ == failed_pids(pids@, stopped@),
{
    let mut done: Vec<u32> = Vec::new();
    let mut failed: Vec<u32> = Vec::new();
    let mut i: usize = 0;
    while i < pids.len()
        invariant
            i <= pids.len(),
            stopped@.len() == pids@.len(),
            done@ == stopped_pids(pids@.take(i as int), stopped@.take(i as int)),
            failed@ == failed_pids(pids@.take(i as int), stopped@.take(i as int)),
        decreases pids.len() - i,
    {
        proof {
            assert(pids@.take(i + 1).drop_last() == pids@.take(i as int));
            assert(stopped@.take(i + 1).drop_last() == stopped@.take(i as int));
        }
        if stopped[i] {
            done.push(pids[i]);
        } else {
            failed.push(pids[i]);
        }
        i += 1;
    }
    assert(pids@.take(i as int) == pids@ && stopped@.take(i as int) == stopped@);
    (done, failed)
}

/// What is reported when limiters could not be stopped.
pub open spec fn stop_failure(pids: Seq<u32>) -> Seq<char> {
    "failed to stop duplicate cpulimit instance(s): "@ + text::joined(
        text::decimals(pids),
        ", "@,
    )
}

/// Sums up an attempt to stop each of `pids`, given how each of them ended: the number of them,
/// or a report of those that could not be stopped.
pub fn stop_cpulimit_pids(pids: &Vec<u32>, stopped: &Vec<bool>) -> (r: Result<usize, String>)
    requires
        stopped@.len() == pids@.len(),
    ensures
        match r {
            Ok(n) => failed_pids(pids@, stopped@).len() == 0 && n == pids@.len(),
            Err(message) => failed_pids(pids@, stopped@).len() > 0 && message@ == stop_failure(
                failed_pids(pids@, stopped@),
            ),
        },
{
    let (_, failed) = part_by_outcome(pids, stopped);
    if failed.len() > 0 {
        Err(
            concat(
                "failed to stop duplicate cpulimit instance(s): ",
                number_list(&failed).as_str(),
            ),
        )
    } else {
        Ok(pids.len())
    }
}

} // verus!
