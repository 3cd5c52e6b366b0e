//! Snapshots of the running processes.

use vstd::prelude::*;

use crate::cpu::CpuPercent;
use crate::infra::command;
use crate::infra::command::{printed_text, CommandReply};
use crate::lists;
use crate::paths;
use crate::paths::{file_name_or_empty, file_name_or_self};
use crate::text;
use crate::text::{
    join_from, parse_u32, parse_u64, same, split_at_char, split_lines, split_words, starts_with,
};

verus! {

/// A process in a snapshot.
#[derive(Debug)]
pub struct ProcessEntry {
    pub pid: u32,
    pub ppid: u32,
    pub name: String,
    pub cpu: CpuPercent,
    pub elapsed_secs: u64,
}

/// What a [`ProcessEntry`] holds.
pub struct EntryView {
    pub pid: u32,
    pub ppid: u32,
    pub name: Seq<char>,
    pub cpu: CpuPercent,
    pub elapsed_secs: u64,
}

impl View for ProcessEntry {
    type V = EntryView;

    open spec fn view(&self) -> EntryView {
        EntryView {
            pid: self.pid,
            ppid: self.ppid,
            name: self.name@,
            cpu: self.cpu,
            elapsed_secs: self.elapsed_secs,
        }
    }
}

impl Clone for ProcessEntry {
    fn clone(&self) -> (r: ProcessEntry)
        ensures
            r == *self,
    {
        ProcessEntry {
            pid: self.pid,
            ppid: self.ppid,
            name: self.name.clone(),
            cpu: self.cpu,
            elapsed_secs: self.elapsed_secs,
        }
    }
}

/// What a list of processes holds.
pub open spec fn entries_of(v: Seq<ProcessEntry>) -> Seq<EntryView> {
    v.map_values(|e: ProcessEntry| e@)
}

// ---------------------------------------------------------------------------
// Elapsed time
// ---------------------------------------------------------------------------

/// The days of an elapsed time: what stands before its first hyphen, or none.
pub open spec fn etime_days(s: Seq<char>) -> Option<nat> {
    if text::first_at(s, '-') < s.len() {
        text::number_up_to(s.take(text::first_at(s, '-') as int), u64::MAX as nat)
    } else {
        Some(0)
    }
}

/// The clock part of an elapsed time: what stands behind its first hyphen, or all of it.
pub open spec fn etime_clock(s: Seq<char>) -> Seq<char> {
    if text::first_at(s, '-') < s.len() {
        s.skip(text::first_at(s, '-') as int + 1)
    } else {
        s
    }
}

/// The seconds of a clock part `mm:ss` or `hh:mm:ss`.
pub open spec fn clock_secs(s: Seq<char>) -> Option<nat> {
    let parts = text::pieces(s, ':');
    let max = u64::MAX as nat;
    if parts.len() == 2 {
        match (text::number_up_to(parts[0], max), text::number_up_to(parts[1], max)) {
            (Some(m), Some(s)) => Some(m * 60 + s),
            _ => None,
        }
    } else if parts.len() == 3 {
        match (
            text::number_up_to(parts[0], max),
            text::number_up_to(parts[1], max),
            text::number_up_to(parts[2], max),
        ) {
            (Some(h), Some(m), Some(s)) => Some(h * 3600 + m * 60 + s),
            _ => None,
        }
    } else {
        None
    }
}

/// The seconds that an elapsed time `[[dd-]hh:]mm:ss` stands for.
pub open spec fn etime_secs(s: Seq<char>) -> Option<nat> {
    match (etime_days(s), clock_secs(etime_clock(s))) {
        (Some(d), Some(c)) => Some(d * 86400 + c),
        _ => None,
    }
}

/// Whether an elapsed time, if it is one, fits into 64 bits.
pub open spec fn etime_fits(s: Seq<char>) -> bool {
    etime_secs(s) matches Some(n) ==> n <= u64::MAX
}

/// The seconds that an elapsed time stands for, without a bound.
fn etime_value(s: &str) -> (r: Option<u128>)
    ensures
        match r {
            Some(n) => etime_secs(s@) == Some(n as nat),
            None => etime_secs(s@) is None,
        },
{
    let (days, rest) = match text::split_once_char(s, '-') {
        Some(ab) => match parse_u64(ab.0.as_str()) {
            Some(d) => (d, ab.1),
            None => {
                return None;
            },
        },
        None => (0u64, text::owned(s)),
    };
    assert(etime_days(s@) == Some(days as nat));
    assert(rest@ == etime_clock(s@));
    let parts = split_at_char(rest.as_str(), ':');
    let ghost all = text::pieces(rest@, ':');
    assert(all.len() == parts.len());
    assert(forall|i: int| 0 <= i < all.len() ==> all[i] == (#[trigger] parts@[i])@);
    if parts.len() == 2 {
        assert(all[0] == parts@[0]@ && all[1] == parts@[1]@);
        match (parse_u64(parts[0].as_str()), parse_u64(parts[1].as_str())) {
            (Some(m), Some(s)) => Some(days as u128 * 86400 + (m as u128 * 60 + s as u128)),
            _ => None,
        }
    } else if parts.len() == 3 {
        assert(all[0] == parts@[0]@ && all[1] == parts@[1]@ && all[2] == parts@[2]@);
        match (
            parse_u64(parts[0].as_str()),
            parse_u64(parts[1].as_str()),
            parse_u64(parts[2].as_str()),
        ) {
            (Some(h), Some(m), Some(s)) => Some(
                days as u128 * 86400 + (h as u128 * 3600 + m as u128 * 60 + s as u128),
            ),
            _ => None,
        }
    } else {
        None
    }
}

/// Whether [`parse_etime`] can be asked about `s`.
pub fn is_parsable_etime(s: &str) -> (r: bool)
    ensures
        r == etime_fits(s@),
{
    match etime_value(s) {
        Some(n) => n <= 0xffff_ffff_ffff_ffff,
        None => true,
    }
}

/// Reads the elapsed time that `ps` prints: `[[dd-]hh:]mm:ss`.
pub fn parse_etime(s: &str) -> (r: Option<u64>)
    requires
        etime_fits(s@),
    ensures
        match r {
            Some(n) => etime_secs(s@) == Some(n as nat),
            None => etime_secs(s@) is None,
        },
{
    match etime_value(s) {
        Some(n) => Some(n as u64),
        None => None,
    }
}

// ---------------------------------------------------------------------------
// Lines of a snapshot
// ---------------------------------------------------------------------------

/// The text of a line's third word, which writes the load.
pub open spec fn load_word(line: Seq<char>) -> Option<Seq<char>> {
    let w = text::words(line);
    if w.len() > 2 {
        Some(w[2])
    } else {
        None
    }
}

/// The text of a line's third word, which writes the load.
pub fn load_text(line: &str) -> (r: Option<String>)
    ensures
        text::opt_text(r) == load_word(line@),
{
    let w = split_words(line);
    assert(text::words(line@).len() == w.len());
    if w.len() > 2 {
        assert(text::words(line@)[2] == w@[2]@);
        Some(w[2].clone())
    } else {
        None
    }
}

/// The process that a line describes: process id, parent, load, elapsed time and name. The load is
/// the number that the line's third word writes, if it writes one.
pub open spec fn line_entry(line: Seq<char>, cpu: Option<CpuPercent>) -> Option<EntryView> {
    let w = text::words(line);
    if w.len() < 4 {
        None
    } else {
        match (
            text::number_up_to(w[0], u32::MAX as nat),
            text::number_up_to(w[1], u32::MAX as nat),
            cpu,
            etime_secs(w[3]),
        ) {
            (Some(pid), Some(ppid), Some(cpu), Some(elapsed)) => Some(
                EntryView {
                    pid: pid as u32,
                    ppid: ppid as u32,
                    name: text::joined(w.skip(4), " "@),
                    cpu,
                    elapsed_secs: elapsed as u64,
                },
            ),
            _ => None,
        }
    }
}

/// Whether the elapsed time of a line, where it is looked at, fits into 64 bits.
pub open spec fn line_fits(line: Seq<char>, cpu: Option<CpuPercent>) -> bool {
    let w = text::words(line);
    w.len() >= 4 && text::number_up_to(w[0], u32::MAX as nat) is Some && text::number_up_to(
        w[1],
        u32::MAX as nat,
    ) is Some && cpu is Some ==> etime_fits(w[3])
}

/// Whether [`parse_ps_line`] can be asked about a line.
pub fn is_parsable_line(line: &str, cpu: Option<CpuPercent>) -> (r: bool)
    ensures
        r == line_fits(line@, cpu),
{
    let w = split_words(line);
    let ghost all = text::words(line@);
    assert(all.len() == w.len());
    if w.len() < 4 {
        return true;
    }
    assert(all[0] == w@[0]@ && all[1] == w@[1]@ && all[3] == w@[3]@);
    parse_u32(w[0].as_str()).is_none() || parse_u32(w[1].as_str()).is_none() || cpu.is_none()
        || is_parsable_etime(w[3].as_str())
}

/// Reads a line of a snapshot. `cpu` is the load that its third word writes, if it writes one.
pub fn parse_ps_line(line: &str, cpu: Option<CpuPercent>) -> (r: Option<ProcessEntry>)
    requires
        line_fits(line@, cpu),
    ensures
        match r {
            Some(e) => line_entry(line@, cpu) == Some(e@),
            None => line_entry(line@, cpu) is None,
        },
{
    let w = split_words(line);
    let ghost all = text::words(line@);
    assert(all.len() == w.len());
    if w.len() < 4 {
        return None;
    }
    assert(all[0] == w@[0]@ && all[1] == w@[1]@ && all[3] == w@[3]@);
    match (parse_u32(w[0].as_str()), parse_u32(w[1].as_str()), cpu) {
        (Some(pid), Some(ppid), Some(cpu)) => match parse_etime(w[3].as_str()) {
            Some(elapsed_secs) => Some(
                ProcessEntry { pid, ppid, name: join_from(&w, 4, " "), cpu, elapsed_secs },
            ),
            None => None,
        },
        _ => None,
    }
}

/// Whether a process belongs into a snapshot: it has a process id above 0 and a name.
pub open spec fn is_listed(e: EntryView) -> bool {
    e.pid > 0 && e.name.len() > 0
}

/// The processes that the first `n` lines describe.
pub open spec fn listed(
    lines: Seq<Seq<char>>,
    cpus: Seq<Option<CpuPercent>>,
    n: int,
) -> Seq<EntryView>
    decreases n,
{
    if n <= 0 {
        Seq::empty()
    } else {
        let rest = listed(lines, cpus, n - 1);
        match line_entry(lines[n - 1], cpus[n - 1]) {
            Some(e) => if is_listed(e) {
                rest.push(e)
            } else {
                rest
            },
            None => rest,
        }
    }
}

/// The processes that a snapshot's text describes, in its order.
pub open spec fn snapshot(output: Seq<char>, cpus: Seq<Option<CpuPercent>>) -> Seq<EntryView> {
    listed(text::lines(output), cpus, text::lines(output).len() as int)
}

/// Whether there is a load for each line of a snapshot, and every line can be read.
pub open spec fn snapshot_fits(output: Seq<char>, cpus: Seq<Option<CpuPercent>>) -> bool {
    cpus.len() == text::lines(output).len() && forall|i: int|
        0 <= i < cpus.len() ==> line_fits(text::lines(output)[i], #[trigger] cpus[i])
}

/// The texts of the loads in a snapshot, line by line.
pub fn load_texts(output: &str) -> (r: Vec<Option<String>>)
    ensures
        r.len() == text::lines(output@).len(),
        forall|i: int|
            0 <= i < r.len() ==> text::opt_text(#[trigger] r@[i]) == load_word(
                text::lines(output@)[i],
            ),
{
    let lines = split_lines(output);
    let ghost all = text::lines(output@);
    let mut out: Vec<Option<String>> = Vec::new();
    let mut i: usize = 0;
    assert(all.len() == lines.len());
    while i < lines.len()
        invariant
            i <= lines.len(),
            all == text::texts(lines@),
            all.len() == lines.len(),
            out.len() == i,
            forall|j: int| 0 <= j < i ==> text::opt_text(#[trigger] out@[j]) == load_word(all[j]),
        decreases lines.len() - i,
    {
        assert(all[i as int] == lines@[i as int]@);
        out.push(load_text(lines[i].as_str()));
        i += 1;
    }
    out
}

/// Whether [`all_processes`] can be asked about a snapshot's text.
pub fn is_parsable_snapshot(output: &str, cpus: &Vec<Option<CpuPercent>>) -> (r: bool)
    ensures
        r == snapshot_fits(output@, cpus@),
{
    let lines = split_lines(output);
    let ghost all = text::lines(output@);
    assert(all.len() == lines.len());
    if cpus.len() != lines.len() {
        return false;
    }
    let mut i: usize = 0;
    while i < lines.len()
        invariant
            i <= lines.len(),
            cpus.len() == lines.len(),
            all == text::texts(lines@),
            all == text::lines(output@),
            all.len() == lines.len(),
            forall|j: int| 0 <= j < i ==> line_fits(all[j], #[trigger] cpus@[j]),
        decreases lines.len() - i,
    {
        assert(all[i as int] == lines@[i as int]@);
        if !is_parsable_line(lines[i].as_str(), cpus[i]) {
            assert(!line_fits(all[i as int], cpus@[i as int]));
            return false;
        }
        i += 1;
    }
    true
}

/// Reads a snapshot. `cpus` holds, for each line, the load that its third word writes, if any.
pub fn all_processes(output: &str, cpus: &Vec<Option<CpuPercent>>) -> (r: Vec<ProcessEntry>)
    requires
        snapshot_fits(output@, cpus@),
    ensures
        entries_of(r@) == snapshot(output@, cpus@),
{
    let lines = split_lines(output);
    let ghost all = text::lines(output@);
    let mut out: Vec<ProcessEntry> = Vec::new();
    let mut i: usize = 0;
    assert(all.len() == lines.len());
    assert(entries_of(out@) =~= Seq::empty());
    while i < lines.len()
        invariant
            i <= lines.len(),
            cpus.len() == lines.len(),
            all == text::texts(lines@),
            all.len() == lines.len(),
            forall|j: int| 0 <= j < all.len() ==> line_fits(all[j], #[trigger] cpus@[j]),
            entries_of(out@) == listed(all, cpus@, i as int),
        decreases lines.len() - i,
    {
        let ghost before = out@;
        assert(all[i as int] == lines@[i as int]@);
        assert(line_fits(all[i as int], cpus@[i as int]));
        match parse_ps_line(lines[i].as_str(), cpus[i]) {
            Some(e) => {
                if e.pid > 0 && !e.name.as_str().is_empty() {
                    let ghost added = e@;
                    out.push(e);
                    assert(entries_of(out@) =~= entries_of(before).push(added));
                }
            },
            None => {},
        }
        i += 1;
    }
    out
}

// ---------------------------------------------------------------------------
// The busiest processes
// ---------------------------------------------------------------------------

/// `s`, which is in falling order of load, with `e` behind the last process that `e` does not
/// exceed.
pub open spec fn inserted(s: Seq<EntryView>, e: EntryView) -> Seq<EntryView>
    decreases s.len(),
{
    if s.len() == 0 || !s.last().cpu.is_below(e.cpu) {
        s.push(e)
    } else {
        inserted(s.drop_last(), e).push(s.last())
    }
}

/// The processes in falling order of load. Among equal loads the earlier process stays first.
pub open spec fn by_load(s: Seq<EntryView>) -> Seq<EntryView>
    decreases s.len(),
{
    if s.len() == 0 {
        s
    } else {
        inserted(by_load(s.drop_last()), s.last())
    }
}

/// The first `count` elements, or all.
pub open spec fn at_most(s: Seq<EntryView>, count: nat) -> Seq<EntryView> {
    if count < s.len() {
        s.take(count as int)
    } else {
        s
    }
}

proof fn lemma_inserted_split(s: Seq<EntryView>, e: EntryView, k: int)
    requires
        0 <= k <= s.len(),
        forall|i: int| k <= i < s.len() ==> (#[trigger] s[i]).cpu.is_below(e.cpu),
        k > 0 ==> !s[k - 1].cpu.is_below(e.cpu),
    ensures
        inserted(s, e) == s.insert(k, e),
    decreases s.len(),
{
    if k < s.len() {
        assert(s[s.len() - 1].cpu.is_below(e.cpu));
        assert forall|i: int| k <= i < s.drop_last().len() implies (#[trigger] s.drop_last()[i]).cpu.is_below(
            e.cpu,
        ) by {
            assert(s[i].cpu.is_below(e.cpu));
        }
        lemma_inserted_split(s.drop_last(), e, k);
        assert(s.drop_last().insert(k, e).push(s.last()) =~= s.insert(k, e));
    } else {
        assert(s.insert(k, e) =~= s.push(e));
    }
}

/// Puts a process into a list that is in falling order of load.
fn insert_by_load(list: &mut Vec<ProcessEntry>, e: ProcessEntry)
    ensures
        entries_of(final(list)@) == inserted(entries_of(old(list)@), e@),
{
    let ghost before = entries_of(list@);
    let mut k: usize = list.len();
    while k > 0 && list[k - 1].cpu.below(e.cpu)
        invariant
            k <= list.len(),
            before == entries_of(list@),
            forall|i: int| k <= i < before.len() ==> (#[trigger] before[i]).cpu.is_below(e.cpu),
        decreases k,
    {
        assert(before[k - 1] == list@[k - 1]@);
        k -= 1;
    }
    proof {
        if k > 0 {
            assert(before[k - 1] == list@[k - 1]@);
        }
        lemma_inserted_split(before, e@, k as int);
    }
    let ghost added = e@;
    list.insert(k, e);
    assert(entries_of(list@) =~= before.insert(k as int, added));
}

/// The `count` busiest processes of a snapshot, the busiest first.
pub fn busiest(list: Vec<ProcessEntry>, count: usize) -> (r: Vec<ProcessEntry>)
    ensures
        entries_of(r@) == at_most(by_load(entries_of(list@)), count as nat),
{
    let ghost all = entries_of(list@);
    let mut out: Vec<ProcessEntry> = Vec::new();
    let mut i: usize = 0;
    assert(entries_of(out@) =~= by_load(all.take(0)));
    while i < list.len()
        invariant
            i <= list.len(),
            all == entries_of(list@),
            entries_of(out@) == by_load(all.take(i as int)),
        decreases list.len() - i,
    {
        assert(all.take(i + 1).drop_last() == all.take(i as int));
        assert(all.take(i + 1).last() == list@[i as int]@);
        insert_by_load(&mut out, list[i].clone());
        i += 1;
    }
    assert(all.take(i as int) == all);
    let ghost sorted = out@;
    out.truncate(count);
    assert(entries_of(out@) =~= at_most(entries_of(sorted), count as nat));
    out
}

/// Reads a snapshot and picks the `count` busiest processes, the busiest first.
pub fn top_processes(
    output: &str,
    cpus: &Vec<Option<CpuPercent>>,
    count: usize,
) -> (r: Vec<ProcessEntry>)
    requires
        snapshot_fits(output@, cpus@),
    ensures
        entries_of(r@) == at_most(by_load(snapshot(output@, cpus@)), count as nat),
{
    let list = all_processes(output, cpus);
    busiest(list, count)
}

/// Whether every load is a number.
pub open spec fn all_loads_known(s: Seq<EntryView>) -> bool {
    forall|i: int| 0 <= i < s.len() ==> !(#[trigger] s[i]).cpu.is_nan()
}

/// Whether the loads never rise.
pub open spec fn loads_fall(s: Seq<EntryView>) -> bool {
    forall|i: int, j: int|
        0 <= i < j < s.len() ==> (#[trigger] s[j]).cpu.is_at_most((#[trigger] s[i]).cpu)
}

/// Whether a process has this load.
pub open spec fn has_load(steps: int) -> spec_fn(EntryView) -> bool {
    |e: EntryView| e.cpu.steps() == steps
}

proof fn lemma_inserted_falls(s: Seq<EntryView>, e: EntryView)
    requires
        all_loads_known(s),
        loads_fall(s),
        !e.cpu.is_nan(),
    ensures
        all_loads_known(inserted(s, e)),
        loads_fall(inserted(s, e)),
        inserted(s, e).len() == s.len() + 1,
        forall|i: int|
            0 <= i < inserted(s, e).len() ==> s.contains(#[trigger] inserted(s, e)[i])
                || inserted(s, e)[i] == e,
        inserted(s, e).to_multiset() == s.to_multiset().insert(e),
    decreases s.len(),
{
    broadcast use vstd::seq_lib::group_to_multiset_ensures;

    let r = inserted(s, e);
    if s.len() == 0 || !s.last().cpu.is_below(e.cpu) {
        assert forall|i: int, j: int| 0 <= i < j < r.len() implies (#[trigger] r[j]).cpu.is_at_most(
            (#[trigger] r[i]).cpu,
        ) by {
            if j < s.len() {
                assert(s[j].cpu.is_at_most(s[i].cpu));
            } else {
                assert(!s[s.len() - 1].cpu.is_nan());
                assert(e.cpu.is_at_most(s.last().cpu));
                if i < s.len() - 1 {
                    assert(s[s.len() - 1].cpu.is_at_most(s[i].cpu));
                }
            }
        }
        assert forall|i: int| 0 <= i < r.len() implies s.contains(#[trigger] r[i]) || r[i] == e by {
            if i < s.len() {
                assert(s[i] == r[i]);
            }
        }
        assert(forall|i: int| 0 <= i < r.len() ==> !(#[trigger] r[i]).cpu.is_nan());
    } else {
        let t = s.drop_last();
        assert forall|i: int| 0 <= i < t.len() implies !(#[trigger] t[i]).cpu.is_nan() by {
            assert(!s[i].cpu.is_nan());
        }
        assert forall|i: int, j: int| 0 <= i < j < t.len() implies (#[trigger] t[j]).cpu.is_at_most(
            (#[trigger] t[i]).cpu,
        ) by {
            assert(s[j].cpu.is_at_most(s[i].cpu));
        }
        lemma_inserted_falls(t, e);
        let q = inserted(t, e);
        assert forall|i: int, j: int| 0 <= i < j < r.len() implies (#[trigger] r[j]).cpu.is_at_most(
            (#[trigger] r[i]).cpu,
        ) by {
            if j < q.len() {
                assert(q[j].cpu.is_at_most(q[i].cpu));
            } else {
                assert(r[i] == q[i]);
                if q[i] != e {
                    let m = choose|m: int| 0 <= m < t.len() && t[m] == q[i];
                    assert(s[s.len() - 1].cpu.is_at_most(s[m].cpu));
                }
            }
        }
        assert forall|i: int| 0 <= i < r.len() implies s.contains(#[trigger] r[i]) || r[i] == e by {
            if i < q.len() {
                assert(t.contains(q[i]) || q[i] == e);
                if t.contains(q[i]) {
                    let m = choose|m: int| 0 <= m < t.len() && t[m] == q[i];
                    assert(s[m] == r[i]);
                }
            } else {
                assert(s[s.len() - 1] == r[i]);
            }
        }
        assert forall|i: int| 0 <= i < r.len() implies !(#[trigger] r[i]).cpu.is_nan() by {
            if i < q.len() {
                assert(!q[i].cpu.is_nan());
            } else {
                assert(!s[s.len() - 1].cpu.is_nan());
            }
        }
        assert(s == t.push(s.last()));
        assert(r == q.push(s.last()));
        assert(r.to_multiset() =~= s.to_multiset().insert(e));
    }
}

proof fn lemma_inserted_is_stable(s: Seq<EntryView>, e: EntryView, steps: int)
    requires
        all_loads_known(s),
        loads_fall(s),
        !e.cpu.is_nan(),
    ensures
        inserted(s, e).filter(has_load(steps)) == s.push(e).filter(has_load(steps)),
    decreases s.len(),
{
    let keep = has_load(steps);
    lists::lemma_filter_push(s, e, keep);
    if s.len() > 0 && s.last().cpu.is_below(e.cpu) {
        let t = s.drop_last();
        assert forall|i: int| 0 <= i < t.len() implies !(#[trigger] t[i]).cpu.is_nan() by {
            assert(!s[i].cpu.is_nan());
        }
        assert forall|i: int, j: int| 0 <= i < j < t.len() implies (#[trigger] t[j]).cpu.is_at_most(
            (#[trigger] t[i]).cpu,
        ) by {
            assert(s[j].cpu.is_at_most(s[i].cpu));
        }
        lemma_inserted_is_stable(t, e, steps);
        assert(s == t.push(s.last()));
        lists::lemma_filter_push(t, e, keep);
        lists::lemma_filter_push(t, s.last(), keep);
        lists::lemma_filter_push(inserted(t, e), s.last(), keep);
    }
}

/// Ordering by load neither adds nor loses a process, puts no process behind a less busy one, and
/// keeps the order of processes that are equally busy.
pub proof fn by_load_is_a_stable_sort(s: Seq<EntryView>, steps: int)
    requires
        all_loads_known(s),
    ensures
        by_load(s).to_multiset() == s.to_multiset(),
        loads_fall(by_load(s)),
        by_load(s).filter(has_load(steps)) == s.filter(has_load(steps)),
        all_loads_known(by_load(s)),
    decreases s.len(),
{
    broadcast use vstd::seq_lib::group_to_multiset_ensures;

    if s.len() > 0 {
        let t = s.drop_last();
        assert forall|i: int| 0 <= i < t.len() implies !(#[trigger] t[i]).cpu.is_nan() by {
            assert(!s[i].cpu.is_nan());
        }
        by_load_is_a_stable_sort(t, steps);
        assert(!s[s.len() - 1].cpu.is_nan());
        assert(s == t.push(s.last()));
        lemma_inserted_falls(by_load(t), s.last());
        lemma_inserted_is_stable(by_load(t), s.last(), steps);
        lists::lemma_filter_push(by_load(t), s.last(), has_load(steps));
        lists::lemma_filter_push(t, s.last(), has_load(steps));
    }
}

// ---------------------------------------------------------------------------
// What may be touched
// ---------------------------------------------------------------------------

/// Whether a path belongs to the operating system.
pub open spec fn system_path(name: Seq<char>) -> bool {
    text::has_prefix(name, "/System/"@) || text::has_prefix(name, "/usr/libexec/"@)
}

/// The names of well-known system processes.
pub open spec fn known_system_name(b: Seq<char>) -> bool {
    ||| b == "Finder"@
    ||| b == "Dock"@
    ||| b == "WindowServer"@
    ||| b == "loginwindow"@
    ||| b == "SystemUIServer"@
    ||| b == "Spotlight"@
    ||| b == "mds"@
    ||| b == "mds_stores"@
    ||| b == "kernel_task"@
    ||| b == "launchd"@
    ||| b == "syslogd"@
    ||| b == "configd"@
    ||| b == "diskarbitrationd"@
    ||| b == "logd"@
    ||| b == "opendirectoryd"@
    ||| b == "UserEventAgent"@
    ||| b == "sharedfilelistd"@
    ||| b == "trustd"@
    ||| b == "containermanagerd"@
    ||| b == "endpointsecurityd"@
}

/// Whether a process is part of the operating system, by its path or by its file name.
pub open spec fn protected(name: Seq<char>) -> bool {
    system_path(name) || known_system_name(paths::base_or_empty(name))
}

/// Whether `name` is a path of the operating system.
pub fn is_system_path(name: &str) -> (r: bool)
    ensures
        r == system_path(name@),
{
    starts_with(name, "/System/") || starts_with(name, "/usr/libexec/")
}

/// Whether the file name of `name` is that of a well-known system process.
pub fn is_known_system_process(name: &str) -> (r: bool)
    ensures
        r == known_system_name(paths::base_or_empty(name@)),
{
    let base = file_name_or_empty(name);
    let b = base.as_str();
    same(b, "Finder") || same(b, "Dock") || same(b, "WindowServer") || same(b, "loginwindow")
        || same(b, "SystemUIServer") || same(b, "Spotlight") || same(b, "mds") || same(
        b,
        "mds_stores",
    ) || same(b, "kernel_task") || same(b, "launchd") || same(b, "syslogd") || same(b, "configd")
        || same(b, "diskarbitrationd") || same(b, "logd") || same(b, "opendirectoryd") || same(
        b,
        "UserEventAgent",
    ) || same(b, "sharedfilelistd") || same(b, "trustd") || same(b, "containermanagerd") || same(
        b,
        "endpointsecurityd",
    )
}

/// Whether a process is part of the operating system.
pub fn is_protected_system_process(name: &str) -> (r: bool)
    ensures
        r == protected(name@),
{
    is_system_path(name) || is_known_system_process(name)
}

/// Whether a process lost its parent, is busy, has been running for long and is not part of the
/// operating system.
pub open spec fn suspicious(e: EntryView, cpu_threshold: CpuPercent, elapsed_secs: u64) -> bool {
    e.ppid == 1 && cpu_threshold.is_at_most(e.cpu) && e.elapsed_secs >= elapsed_secs && !protected(
        e.name,
    )
}

/// Decides whether a process is a suspicious orphan.
pub fn is_suspicious_orphan(
    entry: &ProcessEntry,
    cpu_threshold: CpuPercent,
    elapsed_threshold_secs: u64,
) -> (r: bool)
    ensures
        r == suspicious(entry@, cpu_threshold, elapsed_threshold_secs),
{
    entry.ppid == 1 && cpu_threshold.at_most(entry.cpu) && entry.elapsed_secs
        >= elapsed_threshold_secs && !is_protected_system_process(entry.name.as_str())
}

// ---------------------------------------------------------------------------
// Single processes
// ---------------------------------------------------------------------------

/// The name of a process, by the command that `ps` printed for it.
pub open spec fn name_by(success: bool, stdout: Seq<char>) -> Option<Seq<char>> {
    match command::printed(success, stdout) {
        Some(raw) => Some(paths::base_or_self(raw)),
        None => None,
    }
}

/// The name of a process, from the reply of `ps`.
pub fn process_name(reply: &CommandReply) -> (r: Option<String>)
    ensures
        text::opt_text(r) == name_by(reply.success, reply.stdout@),
{
    match printed_text(reply) {
        Some(raw) => Some(file_name_or_self(raw.as_str())),
        None => None,
    }
}

/// The command line of a process, from the reply of `ps`.
pub fn process_args(reply: &CommandReply) -> (r: Option<String>)
    ensures
        text::opt_text(r) == command::printed(reply.success, reply.stdout@),
{
    printed_text(reply)
}

} // verus!
