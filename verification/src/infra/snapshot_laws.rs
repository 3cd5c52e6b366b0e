//! Laws of snapshots: what a text of `ps` says, and which processes may be touched.

use vstd::prelude::*;

use crate::cpu::CpuPercent;
use crate::infra::process_snapshot;
use crate::infra::process_snapshot::{by_load_is_a_stable_sort, EntryView};
use crate::path_laws::file_names_follow_the_last_slash;
use crate::paths;
use crate::text;
use crate::text_laws;
use crate::text_laws::{each_separator_parts, parts_stand_where_they_were_put};

verus! {

// ---------------------------------------------------------------------------
// Elapsed time
// ---------------------------------------------------------------------------

/// The number that a text writes in 64 bits, if it writes one.
pub open spec fn count(s: Seq<char>) -> Option<nat> {
    text::number_up_to(s, 0xffff_ffff_ffff_ffff)
}

/// Whether a text holds neither a colon nor a hyphen.
pub open spec fn is_field(s: Seq<char>) -> bool {
    text_laws::lacks(s, ':') && text_laws::lacks(s, '-')
}

proof fn lemma_no_days(s: Seq<char>)
    requires
        text_laws::lacks(s, '-'),
    ensures
        process_snapshot::etime_secs(s) == process_snapshot::clock_secs(s),
{
    text::lemma_first_at(s, '-');
    let n = text::first_at(s, '-') as int;
    assert(n == s.len());
}

/// An elapsed time of two fields is minutes and seconds; each of them is a number.
pub proof fn minutes_and_seconds_add_up(m: Seq<char>, s: Seq<char>)
    requires
        is_field(m),
        is_field(s),
    ensures
        process_snapshot::etime_secs(m + seq![':'] + s) == match (count(m), count(s)) {
            (Some(mm), Some(ss)) => Some(60 * mm + ss),
            _ => None,
        },
{
    let two = m + seq![':'] + s;
    lemma_no_days(two);
    each_separator_parts(m, ':', s);
    each_separator_parts(s, ':', Seq::empty());
    assert(text::pieces(two, ':') =~= seq![m, s]);
}

/// An elapsed time of three fields is hours, minutes and seconds; each of them is a number.
pub proof fn hours_minutes_and_seconds_add_up(h: Seq<char>, m: Seq<char>, s: Seq<char>)
    requires
        is_field(h),
        is_field(m),
        is_field(s),
    ensures
        process_snapshot::etime_secs(h + seq![':'] + (m + seq![':'] + s)) == match (
            count(h),
            count(m),
            count(s),
        ) {
            (Some(hh), Some(mm), Some(ss)) => Some(3600 * hh + 60 * mm + ss),
            _ => None,
        },
{
    let two = m + seq![':'] + s;
    let three = h + seq![':'] + two;
    lemma_no_days(three);
    each_separator_parts(h, ':', two);
    each_separator_parts(m, ':', s);
    each_separator_parts(s, ':', Seq::empty());
    assert(text::pieces(three, ':') =~= seq![h, m, s]);
}

/// A text of one field, or of more than three, is no elapsed time.
pub proof fn other_texts_are_no_times(h: Seq<char>, m: Seq<char>, s: Seq<char>, more: Seq<char>)
    requires
        is_field(h),
        is_field(m),
        is_field(s),
        text_laws::lacks(more, '-'),
    ensures
        process_snapshot::etime_secs(s) is None,
        process_snapshot::etime_secs(
            h + seq![':'] + (m + seq![':'] + (s + seq![':'] + more)),
        ) is None,
{
    let last = s + seq![':'] + more;
    let most = m + seq![':'] + last;
    let four = h + seq![':'] + most;
    lemma_no_days(s);
    lemma_no_days(four);
    each_separator_parts(h, ':', most);
    each_separator_parts(m, ':', last);
    each_separator_parts(s, ':', more);
    assert(text::pieces(more, ':').len() >= 1);
    assert(text::pieces(four, ':').len() >= 4);
}

/// What stands before the first hyphen of an elapsed time counts days, each of 86400 seconds.
pub proof fn days_precede_the_first_hyphen(d: Seq<char>, rest: Seq<char>)
    requires
        text_laws::lacks(d, '-'),
        text_laws::lacks(rest, '-'),
    ensures
        process_snapshot::etime_secs(d + seq!['-'] + rest) == match (
            count(d),
            process_snapshot::etime_secs(rest),
        ) {
            (Some(days), Some(secs)) => Some(86400 * days + secs),
            _ => None,
        },
{
    let s = d + seq!['-'] + rest;
    text::lemma_first_at(s, '-');
    let n = text::first_at(s, '-') as int;
    assert(s[d.len() as int] == '-');
    if n < d.len() {
        assert(s[n] == d[n]);
    }
    assert(n == d.len());
    assert(s.take(n) =~= d);
    assert(s.skip(n + 1) =~= rest);
    lemma_no_days(rest);
}

// ---------------------------------------------------------------------------
// Lines
// ---------------------------------------------------------------------------

/// Whether a line reads as process id above 0, parent, load, elapsed time and a name.
pub open spec fn is_row(line: Seq<char>, cpu: Option<CpuPercent>) -> bool {
    let w = text::words(line);
    &&& w.len() > 4
    &&& text::number_up_to(w[0], 0xffff_ffff) is Some
    &&& text::number_up_to(w[0], 0xffff_ffff) != Some(0nat)
    &&& text::number_up_to(w[1], 0xffff_ffff) is Some
    &&& cpu is Some
    &&& process_snapshot::etime_secs(w[3]) is Some
}

/// Whether a process is the one that a line speaks of, word by word.
pub open spec fn is_of_row(e: EntryView, line: Seq<char>, cpu: Option<CpuPercent>) -> bool {
    let w = text::words(line);
    &&& text::number_up_to(w[0], 0xffff_ffff) == Some(e.pid as nat)
    &&& text::number_up_to(w[1], 0xffff_ffff) == Some(e.ppid as nat)
    &&& cpu == Some(e.cpu)
    &&& process_snapshot::etime_secs(w[3]) == Some(e.elapsed_secs as nat)
    &&& e.name == text::joined(w.skip(4), seq![' '])
}

/// The positions of the first `n` lines.
pub open spec fn positions(n: nat) -> Seq<int> {
    Seq::new(n, |i: int| i)
}

/// Whether the line at a position reads as a process.
pub open spec fn is_row_at(lines: Seq<Seq<char>>, cpus: Seq<Option<CpuPercent>>) -> spec_fn(
    int,
) -> bool {
    |i: int| is_row(lines[i], cpus[i])
}

proof fn lemma_words_are_not_empty(s: Seq<char>, i: int)
    requires
        0 <= i < text::words(s).len(),
    ensures
        text::words(s)[i].len() > 0,
    decreases s.len(),
{
    let t = text::trimmed_start(s);
    let n = text::word_len(t) as int;
    if i > 0 {
        lemma_words_are_not_empty(t.skip(n), i - 1);
    }
}

proof fn lemma_joined_len(parts: Seq<Seq<char>>, sep: Seq<char>)
    requires
        parts.len() > 0,
        forall|i: int| 0 <= i < parts.len() ==> (#[trigger] parts[i]).len() > 0,
    ensures
        text::joined(parts, sep).len() > 0,
{
    assert(parts[parts.len() - 1].len() > 0);
    if parts.len() > 1 {
        assert(parts.last().len() > 0);
    }
}

proof fn lemma_row(line: Seq<char>, cpu: Option<CpuPercent>)
    requires
        process_snapshot::line_fits(line, cpu),
    ensures
        ({
            let e = process_snapshot::line_entry(line, cpu);
            &&& is_row(line, cpu) <==> (e is Some && process_snapshot::is_listed(e->0))
            &&& is_row(line, cpu) ==> is_of_row(e->0, line, cpu)
        }),
{
    let w = text::words(line);
    reveal_strlit(" ");
    assert(" "@ =~= seq![' ']);
    if w.len() > 4 {
        assert forall|i: int| 0 <= i < w.skip(4).len() implies (#[trigger] w.skip(4)[i]).len() > 0 by {
            lemma_words_are_not_empty(line, i + 4);
        }
        lemma_joined_len(w.skip(4), " "@);
    }
}

/// Every line that reads as process id above 0, parent, load, elapsed time and a name that is not
/// empty has its process in the snapshot, whatever its load: the snapshot has as many processes as
/// there are such lines, in their order, each with what its line says.
pub proof fn every_row_is_in_the_snapshot(output: Seq<char>, cpus: Seq<Option<CpuPercent>>)
    requires
        process_snapshot::snapshot_fits(output, cpus),
    ensures
        ({
            let lines = text::lines(output);
            let rows = positions(lines.len()).filter(is_row_at(lines, cpus));
            let found = process_snapshot::snapshot(output, cpus);
            &&& found.len() == rows.len()
            &&& forall|i: int|
                0 <= i < found.len() ==> is_of_row(
                    #[trigger] found[i],
                    lines[rows[i]],
                    cpus[rows[i]],
                )
        }),
{
    let lines = text::lines(output);
    lemma_rows(lines, cpus, lines.len());
}

proof fn lemma_rows(lines: Seq<Seq<char>>, cpus: Seq<Option<CpuPercent>>, n: nat)
    requires
        n <= lines.len(),
        cpus.len() == lines.len(),
        forall|i: int|
            0 <= i < cpus.len() ==> process_snapshot::line_fits(lines[i], #[trigger] cpus[i]),
    ensures
        ({
            let rows = positions(n).filter(is_row_at(lines, cpus));
            let found = process_snapshot::listed(lines, cpus, n as int);
            &&& found.len() == rows.len()
            &&& forall|i: int|
                0 <= i < found.len() ==> is_of_row(
                    #[trigger] found[i],
                    lines[rows[i]],
                    cpus[rows[i]],
                )
        }),
    decreases n,
{
    reveal(Seq::filter);
    if n > 0 {
        let k = (n - 1) as nat;
        lemma_rows(lines, cpus, k);
        assert(positions(n) =~= positions(k).push(k as int));
        assert(positions(n).drop_last() =~= positions(k));
        assert(process_snapshot::line_fits(lines[k as int], cpus[k as int]));
        lemma_row(lines[k as int], cpus[k as int]);
    }
}

/// Whether a line that reads as a process up to its elapsed time has one that 64 bits can hold.
pub open spec fn is_modest(line: Seq<char>, cpu: Option<CpuPercent>) -> bool {
    let w = text::words(line);
    w.len() >= 4 && text::number_up_to(w[0], 0xffff_ffff) is Some && text::number_up_to(
        w[1],
        0xffff_ffff,
    ) is Some && cpu is Some ==> (process_snapshot::etime_secs(w[3]) matches Some(n) ==> n
        <= 0xffff_ffff_ffff_ffff)
}

/// A text can be read as a snapshot when there is a load for each of its lines, or word that there
/// is none, and no process on it has been running for longer than 64 bits of seconds can say.
pub proof fn modest_texts_can_be_read(output: Seq<char>, cpus: Seq<Option<CpuPercent>>)
    ensures
        process_snapshot::snapshot_fits(output, cpus) <==> cpus.len() == text::lines(output).len()
            && forall|i: int|
            0 <= i < cpus.len() ==> is_modest(text::lines(output)[i], #[trigger] cpus[i]),
{
    let lines = text::lines(output);
    assert forall|i: int| 0 <= i < cpus.len() implies is_modest(lines[i], #[trigger] cpus[i])
        == process_snapshot::line_fits(lines[i], cpus[i]) by {}
}

/// No process gets lost or appears when processes are ordered by load, whatever their loads are.
pub proof fn ordering_keeps_every_process(s: Seq<EntryView>)
    ensures
        process_snapshot::by_load(s).to_multiset() == s.to_multiset(),
        process_snapshot::by_load(s).len() == s.len(),
    decreases s.len(),
{
    broadcast use vstd::seq_lib::group_to_multiset_ensures;

    if s.len() > 0 {
        let t = s.drop_last();
        ordering_keeps_every_process(t);
        lemma_inserted_keeps(process_snapshot::by_load(t), s.last());
        assert(s =~= t.push(s.last()));
    }
}

proof fn lemma_inserted_keeps(s: Seq<EntryView>, e: EntryView)
    ensures
        process_snapshot::inserted(s, e).to_multiset() == s.to_multiset().insert(e),
        process_snapshot::inserted(s, e).len() == s.len() + 1,
    decreases s.len(),
{
    broadcast use vstd::seq_lib::group_to_multiset_ensures;

    if s.len() > 0 && s.last().cpu.is_below(e.cpu) {
        let t = s.drop_last();
        lemma_inserted_keeps(t, e);
        assert(s =~= t.push(s.last()));
        assert(process_snapshot::inserted(s, e).to_multiset() =~= s.to_multiset().insert(e));
    }
}

/// The busiest processes are as many as were asked for, or all; what is left out is no busier than
/// what stays.
pub proof fn what_is_left_out_is_no_busier(s: Seq<EntryView>, wanted: nat)
    requires
        process_snapshot::all_loads_known(s),
    ensures
        ({
            let kept = process_snapshot::at_most(process_snapshot::by_load(s), wanted);
            let ordered = process_snapshot::by_load(s);
            &&& kept.len() == if wanted < s.len() {
                wanted
            } else {
                s.len()
            }
            &&& forall|i: int| 0 <= i < kept.len() ==> #[trigger] kept[i] == ordered[i]
            &&& forall|i: int, j: int|
                0 <= i < kept.len() && kept.len() <= j < ordered.len() ==> (
                #[trigger] ordered[j]).cpu.is_at_most((#[trigger] kept[i]).cpu)
        }),
{
    by_load_is_a_stable_sort(s, 0);
    ordering_keeps_every_process(s);
}

// ---------------------------------------------------------------------------
// What may be touched
// ---------------------------------------------------------------------------

/// Whether `n` names a well-known process of the operating system.
pub open spec fn is_well_known(n: Seq<char>) -> bool {
    n == "Finder"@ || n == "Dock"@ || n == "WindowServer"@ || n == "loginwindow"@ || n
        == "SystemUIServer"@ || n == "Spotlight"@ || n == "mds"@ || n == "mds_stores"@ || n
        == "kernel_task"@ || n == "launchd"@ || n == "syslogd"@ || n == "configd"@ || n
        == "diskarbitrationd"@ || n == "logd"@ || n == "opendirectoryd"@ || n == "UserEventAgent"@
        || n == "sharedfilelistd"@ || n == "trustd"@ || n == "containermanagerd"@ || n
        == "endpointsecurityd"@
}

proof fn lemma_well_known(n: Seq<char>)
    requires
        is_well_known(n),
    ensures
        n.len() > 2,
        text_laws::lacks(n, '/'),
{
    reveal_strlit("Finder");
    reveal_strlit("Dock");
    reveal_strlit("WindowServer");
    reveal_strlit("loginwindow");
    reveal_strlit("SystemUIServer");
    reveal_strlit("Spotlight");
    reveal_strlit("mds");
    reveal_strlit("mds_stores");
    reveal_strlit("kernel_task");
    reveal_strlit("launchd");
    reveal_strlit("syslogd");
    reveal_strlit("configd");
    reveal_strlit("diskarbitrationd");
    reveal_strlit("logd");
    reveal_strlit("opendirectoryd");
    reveal_strlit("UserEventAgent");
    reveal_strlit("sharedfilelistd");
    reveal_strlit("trustd");
    reveal_strlit("containermanagerd");
    reveal_strlit("endpointsecurityd");
}

/// A process is protected whenever its file name is a well-known system name, in any directory and
/// in none.
pub proof fn well_known_names_are_protected_anywhere(dir: Seq<char>, n: Seq<char>)
    requires
        is_well_known(n),
    ensures
        process_snapshot::protected(n),
        process_snapshot::protected(dir + seq!['/'] + n),
{
    lemma_well_known(n);
    file_names_follow_the_last_slash(dir, n);
}

/// Everything below the directories of the operating system is protected, whatever its name.
pub proof fn system_directories_are_protected(rest: Seq<char>)
    ensures
        process_snapshot::protected("/System/"@ + rest),
        process_snapshot::protected("/usr/libexec/"@ + rest),
{
    parts_stand_where_they_were_put(Seq::empty(), "/System/"@, rest);
    parts_stand_where_they_were_put(Seq::empty(), "/usr/libexec/"@, rest);
}

/// Nothing else is protected: a protected process is below a directory of the operating system, or
/// its file name is a well-known system name.
pub proof fn other_processes_are_not_protected(name: Seq<char>)
    requires
        process_snapshot::protected(name),
    ensures
        (exists|rest: Seq<char>| name == #[trigger] ("/System/"@ + rest)) || (exists|rest: Seq<char>|
            name == #[trigger] ("/usr/libexec/"@ + rest)) || (paths::base_name(name) is Some
            && is_well_known(paths::base_name(name)->0)),
{
    text_laws::parts_are_put_together(name, "/System/"@);
    text_laws::parts_are_put_together(name, "/usr/libexec/"@);
    if paths::base_name(name) is None {
        let none: Seq<char> = Seq::empty();
        if is_well_known(none) {
            lemma_well_known(none);
        }
    }
}

/// A process is a suspicious orphan when its parent is process 1, its load is not below the
/// threshold, it has been running for long enough and it is not protected; each of these is needed.
pub proof fn suspicious_orphans_meet_every_condition(
    e: EntryView,
    threshold: CpuPercent,
    secs: u64,
)
    requires
        !e.cpu.is_nan(),
        !threshold.is_nan(),
    ensures
        e.ppid != 1 ==> !process_snapshot::suspicious(e, threshold, secs),
        e.cpu.is_below(threshold) ==> !process_snapshot::suspicious(e, threshold, secs),
        e.elapsed_secs < secs ==> !process_snapshot::suspicious(e, threshold, secs),
        process_snapshot::protected(e.name) ==> !process_snapshot::suspicious(e, threshold, secs),
        process_snapshot::suspicious(e, threshold, secs) || e.ppid != 1 || e.cpu.is_below(threshold)
            || e.elapsed_secs < secs || process_snapshot::protected(e.name),
{
}

/// The name of a process is the file name of the command that `ps` printed, without the white space
/// around it; a failed or empty reply names none.
pub proof fn names_are_file_names(dir: Seq<char>, n: Seq<char>, a: Seq<char>, b: Seq<char>)
    requires
        text_laws::is_word(n),
        text_laws::lacks(n, '/'),
        n != seq!['.'],
        n != seq!['.', '.'],
        dir.len() == 0 || !text_laws::is_blank(dir[0]),
        forall|i: int| 0 <= i < a.len() ==> text_laws::is_blank(#[trigger] a[i]),
        forall|i: int| 0 <= i < b.len() ==> text_laws::is_blank(#[trigger] b[i]),
    ensures
        process_snapshot::name_by(true, a + n + b) == Some(n),
        process_snapshot::name_by(true, a + (dir + seq!['/'] + n) + b) == Some(n),
        process_snapshot::name_by(true, a) is None,
        process_snapshot::name_by(false, a + n + b) is None,
{
    let path = dir + seq!['/'] + n;
    assert(!text_laws::is_blank(n[0]) && !text_laws::is_blank(n[n.len() - 1]));
    assert(path.last() == n[n.len() - 1]);
    assert(path[0] == if dir.len() > 0 { dir[0] } else { '/' });
    text_laws::trimming_takes_the_ends(a, n, b);
    text_laws::trimming_takes_the_ends(a, path, b);
    let none: Seq<char> = Seq::empty();
    text_laws::trimming_takes_the_ends(a, none, none);
    assert(a + none + none =~= a);
    file_names_follow_the_last_slash(dir, n);
}

} // verus!
