//! Laws of reading limiters off the list of running processes.

use vstd::prelude::*;

use crate::app::conflict;
use crate::app::limiters;
use crate::app::limiters::Limiter;
use crate::infra::command::CommandReply;
use crate::lists;
use crate::paths;
use crate::text;

verus! {

/// The process id that a word writes, if it writes one.
pub open spec fn pid_in(word: Seq<char>) -> Option<nat> {
    text::number_up_to(word, 0xffff_ffff)
}

/// Whether the first `-p` of a line's words stands at `i`, directly followed by the process id `t`.
pub open spec fn is_first_target(w: Seq<Seq<char>>, i: int, t: u32) -> bool {
    &&& 0 <= i < w.len() - 1
    &&& w[i] == seq!['-', 'p']
    &&& pid_in(w[i + 1]) == Some(t as nat)
    &&& forall|j: int| 0 <= j < i ==> w[j] != seq!['-', 'p']
}

/// Whether a line shows that someone else limits the process `t`: it speaks of cpulimit, starts with
/// a process id that is not managed, and holds, at any position, its first `-p`, directly followed
/// by `t`.
pub open spec fn is_foreign_line(line: Seq<char>, managed: Seq<u32>, t: u32) -> bool {
    let w = text::words(line);
    &&& text::has_part(line, "cpulimit"@)
    &&& w.len() > 0
    &&& pid_in(w[0]) is Some
    &&& forall|m: int| 0 <= m < managed.len() ==> pid_in(w[0]) != Some(#[trigger] managed[m] as nat)
    &&& exists|i: int| #[trigger] is_first_target(w, i, t)
}

proof fn lemma_flag()
    ensures
        "-p"@ == seq!['-', 'p'],
{
    reveal_strlit("-p");
    assert("-p"@ =~= seq!['-', 'p']);
}

proof fn lemma_first_target(w: Seq<Seq<char>>, from: int, i: int, t: u32)
    requires
        is_first_target(w, i, t),
        0 <= from <= i,
    ensures
        conflict::first_target(w, from) == Some(t as nat),
    decreases i - from,
{
    lemma_flag();
    if from < i {
        lemma_first_target(w, from + 1, i, t);
    }
}

proof fn lemma_first_target_stands(w: Seq<Seq<char>>, from: int)
    requires
        0 <= from,
        conflict::first_target(w, from) is Some,
        forall|j: int| 0 <= j < from ==> w[j] != seq!['-', 'p'],
    ensures
        exists|i: int| #[trigger]
            is_first_target(w, i, conflict::first_target(w, from)->0 as u32),
        conflict::first_target(w, from)->0 <= 0xffff_ffff,
    decreases w.len() - from,
{
    lemma_flag();
    if w[from] == "-p"@ {
        assert(is_first_target(w, from, conflict::first_target(w, from)->0 as u32));
    } else {
        lemma_first_target_stands(w, from + 1);
    }
}

proof fn lemma_suspect(line: Seq<char>, managed: Seq<u32>, t: u32)
    ensures
        conflict::suspect(line, managed) == Some(t) <==> is_foreign_line(line, managed, t),
{
    let w = text::words(line);
    if w.len() > 0 && pid_in(w[0]) is Some {
        let own = pid_in(w[0])->0 as u32;
        if managed.contains(own) {
            let m = choose|m: int| 0 <= m < managed.len() && managed[m] == own;
            assert(pid_in(w[0]) == Some(managed[m] as nat));
        } else {
            assert forall|m: int| 0 <= m < managed.len() implies pid_in(w[0]) != Some(
                #[trigger] managed[m] as nat,
            ) by {
                assert(managed.contains(managed[m]));
            }
        }
    }
    if is_foreign_line(line, managed, t) {
        let i = choose|i: int| #[trigger] is_first_target(w, i, t);
        lemma_first_target(w, 0, i, t);
    }
    if conflict::suspect(line, managed) == Some(t) {
        lemma_first_target_stands(w, 0);
    }
}

/// The processes that someone else limits are those that a listed line shows: it speaks of
/// cpulimit, starts with a process id that is not managed, and holds the word -p at any position,
/// none before it, directly followed by the process id, whatever words stand before -p.
pub proof fn foreign_limiters_are_suspected(listing: Seq<char>, managed: Seq<u32>, t: u32)
    ensures
        conflict::suspects(listing, managed).contains(t) <==> exists|l: int|
            0 <= l < text::lines(listing).len() && is_foreign_line(
                #[trigger] text::lines(listing)[l],
                managed,
                t,
            ),
{
    lemma_suspects(text::lines(listing), managed, t, text::lines(listing).len() as int);
}

proof fn lemma_suspects(lines: Seq<Seq<char>>, managed: Seq<u32>, t: u32, n: int)
    requires
        0 <= n <= lines.len(),
    ensures
        conflict::suspects_in(lines, managed, n).contains(t) <==> exists|l: int|
            0 <= l < n && is_foreign_line(#[trigger] lines[l], managed, t),
    decreases n,
{
    if n > 0 {
        lemma_suspects(lines, managed, t, n - 1);
        lemma_suspect(lines[n - 1], managed, t);
        let rest = conflict::suspects_in(lines, managed, n - 1);
        let all = conflict::suspects_in(lines, managed, n);
        if rest.contains(t) {
            let k = choose|k: int| 0 <= k < rest.len() && rest[k] == t;
            assert(all[k] == t);
        }
        if is_foreign_line(lines[n - 1], managed, t) {
            assert(all.last() == t);
            assert(all[all.len() - 1] == t);
        }
        if all.contains(t) {
            let k = choose|k: int| 0 <= k < all.len() && all[k] == t;
            if k < rest.len() {
                assert(rest[k] == t);
            } else {
                assert(conflict::suspect(lines[n - 1], managed) == Some(t));
            }
        }
    }
}

/// Whether a `-p` stands at `j`, directly followed by a process id.
pub open spec fn names_a_target(w: Seq<Seq<char>>, j: int) -> bool {
    w[j] == seq!['-', 'p'] && pid_in(w[j + 1]) is Some
}

/// Whether the words of a line hold a `-p` at `i`, directly followed by the process id `t`, and no
/// earlier `-p` that a process id follows.
pub open spec fn is_target(w: Seq<Seq<char>>, i: int, t: u32) -> bool {
    &&& 0 <= i < w.len() - 1
    &&& w[i] == seq!['-', 'p']
    &&& pid_in(w[i + 1]) == Some(t as nat)
    &&& forall|j: int| 0 <= j < i ==> !#[trigger] names_a_target(w, j)
}

/// Whether a line shows a limiter: its first word is the limiter's process id, its second a path
/// whose file name is cpulimit, and its target stands behind a `-p`.
pub open spec fn is_limiter_line(line: Seq<char>, l: Limiter) -> bool {
    let w = text::words(line);
    &&& w.len() >= 2
    &&& pid_in(w[0]) == Some(l.cpulimit_pid as nat)
    &&& paths::base_name(w[1]) == Some("cpulimit"@)
    &&& exists|i: int| #[trigger] is_target(w, i, l.target_pid)
}

proof fn lemma_target(w: Seq<Seq<char>>, from: int, i: int, t: u32)
    requires
        is_target(w, i, t),
        0 <= from <= i,
    ensures
        limiters::target_word(w, from) == Some(t as nat),
    decreases i - from,
{
    lemma_flag();
    if from < i {
        assert(!names_a_target(w, from));
        lemma_target(w, from + 1, i, t);
    }
}

proof fn lemma_target_stands(w: Seq<Seq<char>>, from: int)
    requires
        0 <= from,
        limiters::target_word(w, from) is Some,
        forall|j: int| 0 <= j < from ==> !#[trigger] names_a_target(w, j),
    ensures
        exists|i: int| #[trigger] is_target(w, i, limiters::target_word(w, from)->0 as u32),
        limiters::target_word(w, from)->0 <= 0xffff_ffff,
    decreases w.len() - from,
{
    lemma_flag();
    if w[from] == "-p"@ && pid_in(w[from + 1]) is Some {
        assert(is_target(w, from, limiters::target_word(w, from)->0 as u32));
    } else {
        lemma_target_stands(w, from + 1);
    }
}

/// What a line shows of a limiter is what is read off it.
pub proof fn lemma_limiter_line(line: Seq<char>, l: Limiter)
    ensures
        limiters::limiter_line(line) == Some(l) <==> is_limiter_line(line, l),
{
    let w = text::words(line);
    if is_limiter_line(line, l) {
        let i = choose|i: int| #[trigger] is_target(w, i, l.target_pid);
        lemma_target(w, 0, i, l.target_pid);
        assert(limiters::limiter_line(line) == Some(l));
    }
    if limiters::limiter_line(line) == Some(l) {
        lemma_target_stands(w, 0);
        assert(limiters::target_word(w, 0)->0 as u32 == l.target_pid);
        assert(pid_in(w[0]) == limiters::pid_word(w[0]));
        assert(pid_in(w[0])->0 <= 0xffff_ffff);
        assert(is_limiter_line(line, l));
    }
}

proof fn lemma_limiters(lines: Seq<Seq<char>>, x: Limiter, n: int)
    requires
        0 <= n <= lines.len(),
    ensures
        limiters::limiters_in(lines, n).contains(x) <==> exists|l: int|
            0 <= l < n && is_limiter_line(#[trigger] lines[l], x),
    decreases n,
{
    if n > 0 {
        lemma_limiters(lines, x, n - 1);
        lemma_limiter_line(lines[n - 1], x);
        let rest = limiters::limiters_in(lines, n - 1);
        let all = limiters::limiters_in(lines, n);
        if rest.contains(x) {
            let k = choose|k: int| 0 <= k < rest.len() && rest[k] == x;
            assert(all[k] == x);
        }
        if is_limiter_line(lines[n - 1], x) {
            assert(all[all.len() - 1] == x);
        }
        if all.contains(x) {
            let k = choose|k: int| 0 <= k < all.len() && all[k] == x;
            if k < rest.len() {
                assert(rest[k] == x);
            } else {
                assert(limiters::limiter_line(lines[n - 1]) == Some(x));
            }
        }
    }
}

/// The running limiters are those that a listed line shows: its first word is the limiter's process
/// id, its second a path whose file name is cpulimit, and its target follows a `-p` at any
/// position, with no earlier `-p` that a process id follows. A listing that failed shows none.
pub proof fn every_limiter_line_is_a_running_limiter(reply: CommandReply, x: Limiter)
    ensures
        reply.success ==> (limiters::running_limiters(Some(reply)).contains(x) <==> exists|l: int|
            0 <= l < text::lines(reply.stdout@).len() && is_limiter_line(
                #[trigger] text::lines(reply.stdout@)[l],
                x,
            )),
        !reply.success ==> limiters::running_limiters(Some(reply)).len() == 0,
        limiters::running_limiters(None).len() == 0,
{
    let lines = text::lines(reply.stdout@);
    lemma_limiters(lines, x, lines.len() as int);
}

/// The limiters on a process are the limiters whose target it is.
pub proof fn limiters_hold_their_target(ls: Seq<Limiter>, target: u32, pid: u32)
    ensures
        limiters::limiters_on(ls, target).contains(pid) <==> exists|i: int|
            0 <= i < ls.len() && (#[trigger] ls[i]).target_pid == target && ls[i].cpulimit_pid == pid,
{
    let keep = limiters::holds(target);
    let held = ls.filter(keep);
    let pids = limiters::limiters_on(ls, target);
    if pids.contains(pid) {
        let k = choose|k: int| 0 <= k < pids.len() && pids[k] == pid;
        lists::lemma_filter_member(ls, keep, k);
        let i = choose|i: int| 0 <= i < ls.len() && ls[i] == held[k];
        assert(ls[i].cpulimit_pid == pid);
    }
    if exists|i: int|
        0 <= i < ls.len() && (#[trigger] ls[i]).target_pid == target && ls[i].cpulimit_pid == pid {
        let i = choose|i: int|
            0 <= i < ls.len() && (#[trigger] ls[i]).target_pid == target && ls[i].cpulimit_pid
                == pid;
        lists::lemma_filter_keeps(ls, keep, i);
        let k = choose|k: int| 0 <= k < held.len() && held[k] == ls[i];
        assert(pids[k] == pid);
    }
}

/// The duplicates of a limiter are the others that are not managed; they keep their order.
pub proof fn duplicates_are_unmanaged(pids: Seq<u32>, own: u32, managed: Seq<u32>, pid: u32)
    ensures
        pids.filter(limiters::is_duplicate(own, managed)).contains(pid) <==> pids.contains(pid)
            && pid != own && !managed.contains(pid),
{
    let keep = limiters::is_duplicate(own, managed);
    let found = pids.filter(keep);
    if found.contains(pid) {
        let k = choose|k: int| 0 <= k < found.len() && found[k] == pid;
        lists::lemma_filter_member(pids, keep, k);
    }
    if pids.contains(pid) && pid != own && !managed.contains(pid) {
        let i = choose|i: int| 0 <= i < pids.len() && pids[i] == pid;
        lists::lemma_filter_keeps(pids, keep, i);
    }
}

} // verus!
