//! Laws of what the operating system is asked, and of how its answers are read.

use vstd::prelude::*;

use crate::app::limiter_laws;
use crate::app::limiters;
use crate::app::limiters::Limiter;
use crate::infra::command;
use crate::infra::command::CommandReply;
use crate::infra::config;
use crate::infra::config::KnownPrograms;
use crate::infra::cpulimit;
use crate::infra::cpulimit::{StopInstance, StopRequest, StopStage};
use crate::infra::labels;
use crate::infra::launchd;
use crate::infra::launchd::RealLaunchdManager;
use crate::infra::process_snapshot;
use crate::infra::runtime;
use crate::model::Domain;
use crate::paths;
use crate::text;
use crate::text_laws;
use crate::text_laws::{
    joined_words_are_read_back, line_feeds_end_lines, numbers_are_words,
    parts_stand_where_they_were_put,
};

verus! {

// ---------------------------------------------------------------------------
// Limiters
// ---------------------------------------------------------------------------

/// The words of the line that `ps` prints for a limiter: its process id, its program and its
/// arguments.
pub open spec fn limiter_words(pid: u32, bin: Seq<char>, target: u32, limit: u16) -> Seq<Seq<char>> {
    seq![text::decimal(pid as nat), bin] + cpulimit::limit_args(target, limit)
}

/// A limiter that is started with a target and a limit is recognised on the line that `ps` prints
/// for it, under its process id and with its target, wherever the program is.
pub proof fn started_limiters_are_recognised(pid: u32, bin: Seq<char>, target: u32, limit: u16)
    requires
        text_laws::is_word(bin),
        paths::base_name(bin) == Some("cpulimit"@),
        bin != seq!['-', 'p'],
    ensures
        limiters::limiter_line(text::joined(limiter_words(pid, bin, target, limit), seq![' ']))
            == Some(Limiter { cpulimit_pid: pid, target_pid: target }),
{
    let w = limiter_words(pid, bin, target, limit);
    let line = text::joined(w, seq![' ']);
    reveal_strlit("-p");
    reveal_strlit("-l");
    reveal_strlit("-i");
    assert("-p"@ =~= seq!['-', 'p']);
    numbers_are_words(pid as nat);
    numbers_are_words(target as nat);
    numbers_are_words(limit as nat);
    assert(w.len() == 7);
    assert(w[2] == "-p"@ && w[3] == text::decimal(target as nat) && w[4] == "-l"@ && w[5]
        == text::decimal(limit as nat) && w[6] == "-i"@);
    assert forall|i: int| 0 <= i < w.len() implies text_laws::is_word(#[trigger] w[i]) by {
        assert(i == 0 || i == 1 || i == 2 || i == 3 || i == 4 || i == 5 || i == 6);
    }
    joined_words_are_read_back(w);
    text::decimal_round_trips(pid as nat, 0xffff_ffff);
    text::decimal_round_trips(target as nat, 0xffff_ffff);
    assert(text::decimal(pid as nat)[0] != '-');
    assert(w[0] != seq!['-', 'p']) by {
        assert(w[0][0] != '-');
    }
    assert(limiter_laws::is_target(w, 2, target)) by {
        assert forall|j: int| 0 <= j < 2 implies !#[trigger] limiter_laws::names_a_target(w, j) by {
            assert(j == 0 || j == 1);
        }
    }
    assert(text::words(line) == w);
    assert(limiter_laws::pid_in(w[0]) == Some(pid as nat));
    assert(w[1] == bin);
    let l = Limiter { cpulimit_pid: pid, target_pid: target };
    assert(limiter_laws::is_target(text::words(line), 2, l.target_pid));
    assert(limiter_laws::is_limiter_line(line, l));
    limiter_laws::lemma_limiter_line(line, l);
}

/// A limiter is started on its target with its limit, each behind its flag, and so that it does not
/// follow the target's children.
pub proof fn limiters_get_their_target_and_limit(target: u32, limit: u16)
    ensures
        ({
            let args = cpulimit::limit_args(target, limit);
            &&& args.len() == 5
            &&& args[0] == seq!['-', 'p']
            &&& text::number_up_to(args[1], 0xffff_ffff) == Some(target as nat)
            &&& args[2] == seq!['-', 'l']
            &&& text::number_up_to(args[3], 0xffff) == Some(limit as nat)
            &&& args[4] == seq!['-', 'i']
        }),
{
    reveal_strlit("-p");
    reveal_strlit("-l");
    reveal_strlit("-i");
    assert("-p"@ =~= seq!['-', 'p']);
    assert("-l"@ =~= seq!['-', 'l']);
    assert("-i"@ =~= seq!['-', 'i']);
    text::decimal_round_trips(target as nat, 0xffff_ffff);
    text::decimal_round_trips(limit as nat, 0xffff);
}

/// The program is available when it prints its usage on either stream, wherever it stands there.
pub proof fn usage_shows_the_program(a: Seq<char>, b: Seq<char>, other: Seq<char>)
    ensures
        cpulimit::shows_usage(a + "Usage: cpulimit"@ + b, other),
        cpulimit::shows_usage(other, a + "Usage: cpulimit"@ + b),
        cpulimit::shows_usage(a, b) ==> text::has_part(a, "Usage: cpulimit"@) || text::has_part(
            b,
            "Usage: cpulimit"@,
        ),
{
    parts_stand_where_they_were_put(a, "Usage: cpulimit"@, b);
}

/// Whether a limiter was asked to end and was alive at every look.
pub open spec fn is_still_alive(replies: Seq<bool>) -> bool {
    &&& replies.len() > 0
    &&& forall|i: int| 0 <= i < replies.len() && (i == 0 || i % 2 == 1) ==> #[trigger] replies[i]
}

/// A limiter that was asked to end and stays alive is looked at twenty times, fifty milliseconds
/// after each look, and then given up.
pub proof fn stops_are_patient(s: StopInstance, replies: Seq<bool>)
    requires
        s.stage is Terminate,
        is_still_alive(replies),
    ensures
        ({
            let t = cpulimit::stop_after(s, replies);
            let n = replies.len() as int;
            &&& n < 41 && n % 2 == 1 ==> t.asks() == Some(StopRequest::Probe(s.cpulimit_pid))
                && t.stage == StopStage::Poll(((n - 1) / 2) as u32)
            &&& n < 41 && n % 2 == 0 ==> t.asks() == Some(StopRequest::Wait(50)) && t.stage
                == StopStage::Wait((n / 2) as u32)
            &&& n >= 41 ==> t.stage is Stuck && t.asks() is None
        }),
    decreases replies.len(),
{
    let before = replies.drop_last();
    let n = replies.len() as int;
    lemma_same_limiter(s, replies);
    assert(replies[n - 1] == replies.last());
    if n == 1 {
        assert(replies[0]);
        assert(before =~= Seq::empty());
        assert(cpulimit::stop_after(s, before) == s);
    } else {
        assert forall|i: int|
            0 <= i < before.len() && (i == 0 || i % 2 == 1) implies #[trigger] before[i] by {
            assert(replies[i]);
        }
        assert(before[0] == replies[0]);
        stops_are_patient(s, before);
        if n % 2 == 0 {
            assert(replies[n - 1]);
        }
    }
}

proof fn lemma_same_limiter(s: StopInstance, replies: Seq<bool>)
    ensures
        cpulimit::stop_after(s, replies).cpulimit_pid == s.cpulimit_pid,
    decreases replies.len(),
{
    if replies.len() > 0 {
        lemma_same_limiter(s, replies.drop_last());
    }
}

/// A limiter is first asked to end. One that cannot be asked is looked at once: it is gone, or it
/// refuses. One that was asked and is not alive is gone.
pub proof fn stops_end_when_the_limiter_is_gone(s: StopInstance, alive: bool, t: StopInstance)
    requires
        s.stage is Terminate,
    ensures
        s.asks() == Some(StopRequest::Terminate(s.cpulimit_pid)),
        s.answered(false).asks() == Some(StopRequest::Probe(s.cpulimit_pid)),
        s.answered(false).answered(alive).stage == if alive {
            StopStage::Refused
        } else {
            StopStage::Gone
        },
        t.stage is Poll ==> t.answered(false).stage is Gone,
{
}

// ---------------------------------------------------------------------------
// Processes
// ---------------------------------------------------------------------------

/// A process counts as alive when `ps` could not be asked, or knows it and does not show it as a
/// zombie; white space before the letter does not matter.
pub proof fn zombies_are_not_alive(a: Seq<char>, c: char, rest: Seq<char>, reply: CommandReply)
    requires
        forall|i: int| 0 <= i < a.len() ==> text_laws::is_blank(#[trigger] a[i]),
        !text_laws::is_blank(c),
    ensures
        runtime::alive_by(None),
        !reply.success ==> !runtime::alive_by(Some(reply)),
        reply.success && reply.stdout@ == a + seq![c] + rest ==> (runtime::alive_by(Some(reply))
            <==> c != 'Z'),
        reply.success && reply.stdout@ == a ==> runtime::alive_by(Some(reply)),
{
    lemma_trimmed_start(a, seq![c] + rest);
    lemma_trimmed_start(a, Seq::empty());
    assert(a + seq![c] + rest =~= a + (seq![c] + rest));
    assert(a + Seq::empty() =~= a);
    let t = seq![c] + rest;
    assert(t.subrange(0, 1) =~= seq![c]);
    assert(t[0] == c);
    if c != 'Z' {
        assert(seq![c][0] != seq!['Z'][0]);
    }
}

proof fn lemma_trimmed_start(a: Seq<char>, t: Seq<char>)
    requires
        forall|i: int| 0 <= i < a.len() ==> text_laws::is_blank(#[trigger] a[i]),
        t.len() > 0 ==> !text_laws::is_blank(t[0]),
    ensures
        text::trimmed_start(a + t) == t,
    decreases a.len(),
{
    if a.len() > 0 {
        assert(text_laws::is_blank(a[0]));
        assert((a + t).skip(1) =~= a.skip(1) + t);
        assert forall|i: int| 0 <= i < a.skip(1).len() implies text_laws::is_blank(
            #[trigger] a.skip(1)[i],
        ) by {
            assert(text_laws::is_blank(a[i + 1]));
        }
        lemma_trimmed_start(a.skip(1), t);
    } else {
        assert(a + t =~= t);
    }
}

/// `ps` is asked for one column of one process.
pub proof fn columns_are_asked_for_by_process(pid: u32, column: Seq<char>)
    ensures
        ({
            let args = command::ps_query(pid, column);
            &&& args.len() == 4
            &&& args[0] == "-p"@
            &&& text::number_up_to(args[1], 0xffff_ffff) == Some(pid as nat)
            &&& args[2] == "-o"@
            &&& args[3] == column
        }),
{
    text::decimal_round_trips(pid as nat, 0xffff_ffff);
}

/// The load of a process is what the third word of its line writes.
pub proof fn loads_are_third_words(a: Seq<char>, b: Seq<char>, load: Seq<char>, rest: Seq<char>)
    requires
        text_laws::is_word(a),
        text_laws::is_word(b),
        text_laws::is_word(load),
    ensures
        process_snapshot::load_word(
            a + seq![' '] + (b + seq![' '] + (load + seq![' '] + rest)),
        ) == Some(load),
{
    text_laws::white_space_parts_words(load, ' ', rest);
    text_laws::white_space_parts_words(b, ' ', load + seq![' '] + rest);
    text_laws::white_space_parts_words(a, ' ', b + seq![' '] + (load + seq![' '] + rest));
    let w = text::words(a + seq![' '] + (b + seq![' '] + (load + seq![' '] + rest)));
    assert(w == seq![a] + (seq![b] + (seq![load] + text::words(rest))));
    assert(w[2] == load);
}

/// The process that is found for a name is the one on the first line of the list, whatever follows.
pub proof fn first_line_names_the_process(pid: u32, rest: Seq<char>)
    ensures
        runtime::first_listed(true, text::decimal(pid as nat) + seq!['\n'] + rest) == Some(
            pid as nat,
        ),
        runtime::first_listed(false, rest) is None,
        runtime::first_listed(true, Seq::empty()) is None,
{
    let d = text::decimal(pid as nat);
    let none: Seq<char> = Seq::empty();
    numbers_are_words(pid as nat);
    assert(text_laws::lacks(d, '\n')) by {
        assert forall|i: int| 0 <= i < d.len() implies d[i] != '\n' by {
            assert('0' <= d[i] <= '9');
        }
    }
    assert('0' <= d[d.len() - 1] <= '9');
    line_feeds_end_lines(d, rest);
    line_feeds_end_lines(none, none);
    assert(!text_laws::is_blank(d[0]) && !text_laws::is_blank(d[d.len() - 1]));
    text_laws::trimming_takes_the_ends(none, d, none);
    assert(none + d + none =~= d);
    text::decimal_round_trips(pid as nat, 0xffff_ffff);
}

// ---------------------------------------------------------------------------
// Labels
// ---------------------------------------------------------------------------

/// Whether a character is a letter or a digit that a label can show.
pub open spec fn is_plain(c: char) -> bool {
    ('a' <= c <= 'z') || ('A' <= c <= 'Z') || ('0' <= c <= '9')
}

/// A plain character in lower case.
pub open spec fn lowered(c: char) -> char {
    if 'A' <= c <= 'Z' {
        (c as u32 + 32) as char
    } else {
        c
    }
}

/// Whether a name holds no plain character.
pub open spec fn has_nothing_plain(name: Seq<char>) -> bool {
    forall|i: int| 0 <= i < name.len() ==> !is_plain(#[trigger] name[i])
}

proof fn lemma_squeezed(name: Seq<char>)
    ensures
        labels::squeezed(name).len() == 0 <==> has_nothing_plain(name),
        labels::squeezed(name).len() > 0 ==> (labels::squeezed(name).last() == '-' <==> !is_plain(
            name.last(),
        )),
    decreases name.len(),
{
    if name.len() > 0 {
        let most = name.drop_last();
        lemma_squeezed(most);
        if has_nothing_plain(name) {
            assert(!is_plain(name[name.len() - 1]));
            assert forall|i: int| 0 <= i < most.len() implies !is_plain(#[trigger] most[i]) by {
                assert(!is_plain(name[i]));
            }
        } else {
            let i = choose|i: int| 0 <= i < name.len() && is_plain(#[trigger] name[i]);
            if i < most.len() {
                assert(is_plain(most[i]));
            }
        }
    }
}

/// The part of a label that shows a name holds the name's plain characters in lower case and in
/// their order, and one hyphen for whatever stands between two of them; what stands before the
/// first or behind the last is not shown. A name without any is shown as `proc`.
pub proof fn labels_show_the_plain_characters(name: Seq<char>, c: char)
    ensures
        has_nothing_plain(name) ==> labels::slug(name) == "proc"@,
        !is_plain(c) ==> labels::slug(name.push(c)) == labels::slug(name),
        is_plain(c) && has_nothing_plain(name) ==> labels::slug(name.push(c)) == seq![lowered(c)],
        is_plain(c) && !has_nothing_plain(name) && is_plain(name.last()) ==> labels::slug(
            name.push(c),
        ) == labels::slug(name) + seq![lowered(c)],
        is_plain(c) && !has_nothing_plain(name) && !is_plain(name.last()) ==> labels::slug(
            name.push(c),
        ) == labels::slug(name) + seq!['-', lowered(c)],
{
    let more = name.push(c);
    let s = labels::squeezed(name);
    let t = labels::squeezed(more);
    lemma_squeezed(name);
    lemma_squeezed(more);
    labels::labels_are_tidy(name);
    assert(more.drop_last() =~= name);
    if s.len() > 0 && s.last() == '-' {
        lemma_core(name);
        if is_plain(c) {
            assert(t == s.push(lowered(c)));
            assert(s =~= s.drop_last().push('-'));
            assert(labels::slug(more) =~= labels::slug(name) + seq!['-', lowered(c)]);
        }
    } else if s.len() > 0 {
        if is_plain(c) {
            assert(labels::slug(more) =~= labels::slug(name) + seq![lowered(c)]);
        } else {
            assert(t =~= s.push('-'));
            assert(t.drop_last() =~= s);
        }
    } else if is_plain(c) {
        assert(t =~= seq![lowered(c)]);
    }
}

/// A hyphen never stands alone.
proof fn lemma_core(name: Seq<char>)
    ensures
        labels::squeezed(name).len() > 0 && labels::squeezed(name).last() == '-'
            ==> labels::squeezed(name).len() > 1,
    decreases name.len(),
{
    if name.len() > 0 {
        lemma_core(name.drop_last());
    }
}

/// A number in hexadecimal has as many digits as are asked for; each is worth sixteen times the one
/// behind it.
pub proof fn hexadecimal_digits_grow_by_sixteen(n: nat, d: nat, k: nat)
    requires
        d < 16,
    ensures
        text::hex(n, k).len() == k,
        d < 10 ==> text::hex(16 * n + d, k + 1) == text::hex(n, k) + seq![(48 + d) as char],
        d >= 10 ==> text::hex(16 * n + d, k + 1) == text::hex(n, k) + seq![(87 + d) as char],
    decreases k,
{
    if k > 0 {
        hexadecimal_digits_grow_by_sixteen(n / 16, d, (k - 1) as nat);
    }
    assert((16 * n + d) / 16 == n && (16 * n + d) % 16 == d);
    assert(text::hex(16 * n + d, k + 1) =~= text::hex(n, k) + seq![text::hex_digit(d)]);
}

/// The label of a watched process's job is that of this program, what shows the name, and the low
/// half of the name's hash in eight hexadecimal digits; the agent's is that of this program with
/// `.agent` behind it.
pub proof fn labels_start_with_the_prefix(prefix: Seq<char>, name: Seq<char>, hash: u64)
    ensures
        labels::watch_label_of(prefix, name, hash) == prefix + "."@ + labels::slug(name) + "-"@
            + text::hex((hash % 0x1_0000_0000) as nat, 8),
        labels::agent_label_of(prefix) == prefix + ".agent"@,
{
    assert(hash as u32 == hash % 0x1_0000_0000) by (bit_vector);
}

// ---------------------------------------------------------------------------
// launchd
// ---------------------------------------------------------------------------

/// Jobs of a user are addressed by the user's id, jobs of the system without one; a job by its
/// domain and its label.
pub proof fn jobs_are_addressed_in_their_domain(label: Seq<char>, uid: u32)
    ensures
        launchd::domain_target(Domain::User, uid) == "gui/"@ + text::decimal(uid as nat),
        launchd::domain_target(Domain::System, uid) == "system"@,
        launchd::service_target(label, Domain::User, uid) == "gui/"@ + text::decimal(uid as nat)
            + "/"@ + label,
        launchd::service_target(label, Domain::System, uid) == "system"@ + "/"@ + label,
{
}

/// The agent's property list of a user is among the user's, that of the system among the system's,
/// under the agent's label.
pub proof fn property_lists_are_kept_by_domain(m: RealLaunchdManager)
    ensures
        launchd::plist_path(m, Domain::User) == paths::joined_path(
            m.launch_agents_dir@,
            m.label_prefix@ + ".agent"@ + ".plist"@,
        ),
        launchd::plist_path(m, Domain::System) == paths::joined_path(
            m.launch_daemons_dir@,
            m.label_prefix@ + ".agent"@ + ".plist"@,
        ),
{
}

/// The label that is read off a property list stands between the first label tag and the first end
/// tag behind it, and counts if it starts with the prefix and a dot; without the tags there is none.
pub proof fn labels_are_read_between_their_tags(
    prefix: Seq<char>,
    a: Seq<char>,
    label: Seq<char>,
    b: Seq<char>,
)
    ensures
        ({
            let tag = "<key>Label</key><string>"@;
            let end = "</string>"@;
            let plist = a + tag + (label + end + b);
            text::first_part_at(plist, tag, a.len() as int) && text::first_part_at(
                label + end + b,
                end,
                label.len() as int,
            ) ==> launchd::managed_label(prefix, plist) == if text::has_prefix(label, prefix + "."@) {
                Some(label)
            } else {
                None
            }
        }),
        !text::has_part(a, "<key>Label</key><string>"@) ==> launchd::managed_label(
            prefix,
            a,
        ) is None,
{
    let tag = "<key>Label</key><string>"@;
    let end = "</string>"@;
    let rest = label + end + b;
    let plist = a + tag + rest;
    if text::first_part_at(plist, tag, a.len() as int) && text::first_part_at(
        rest,
        end,
        label.len() as int,
    ) {
        text::lemma_parted(plist, tag, a.len() as int);
        text::lemma_parted(rest, end, label.len() as int);
        assert(plist.skip(a.len() + tag.len() as int) =~= rest);
        assert(rest.take(label.len() as int) =~= label);
    }
    if !text::has_part(a, tag) {
        assert forall|i: int| !text::first_part_at(a, tag, i) by {
            assert(!text::occurs_at(a, tag, i));
        }
    }
}

/// The agent's property list names the agent's label; it runs the agent of its domain with the
/// directory and the limiter program that it was given, keeps it running, and does so no more often
/// than every thirty seconds.
pub proof fn property_lists_run_the_agent(
    label: Seq<char>,
    cpuguard_bin: Seq<char>,
    cpulimit_bin: Seq<char>,
    config_dir: Seq<char>,
    domain: Domain,
)
    ensures
        ({
            let p = launchd::plist_text(label, cpuguard_bin, cpulimit_bin, config_dir, domain);
            let name = if domain is User {
                "user"@
            } else {
                "system"@
            };
            &&& text::has_part(p, "<key>Label</key><string>"@ + label + "</string>"@)
            &&& text::has_part(
                p,
                "\n  <key>ProgramArguments</key>\n  <array>\n    <string>"@ + cpuguard_bin
                    + "</string>\n    <string>--domain</string><string>"@ + name
                    + "</string>\n    <string>__agent</string>\n    <string>--config-dir</string><string>"@
                    + config_dir + "</string>\n    <string>--cpulimit-bin</string><string>"@
                    + cpulimit_bin
                    + "</string>\n  </array>\n  <key>RunAtLoad</key><true/>\n  <key>KeepAlive</key><true/>\n  <key>ThrottleInterval</key><integer>30</integer>\n</dict>\n</plist>\n"@,
            )
        }),
{
    let p = launchd::plist_text(label, cpuguard_bin, cpulimit_bin, config_dir, domain);
    let name = crate::model::domain_name(domain);
    let head = launchd::plist_head();
    let first = "<key>Label</key><string>"@ + label + "</string>"@;
    let second = "\n  <key>ProgramArguments</key>\n  <array>\n    <string>"@ + cpuguard_bin
        + "</string>\n    <string>--domain</string><string>"@ + name
        + "</string>\n    <string>__agent</string>\n    <string>--config-dir</string><string>"@
        + config_dir + "</string>\n    <string>--cpulimit-bin</string><string>"@ + cpulimit_bin
        + "</string>\n  </array>\n  <key>RunAtLoad</key><true/>\n  <key>KeepAlive</key><true/>\n  <key>ThrottleInterval</key><integer>30</integer>\n</dict>\n</plist>\n"@;
    assert(p =~= head + first + second);
    parts_stand_where_they_were_put(head, first, second);
    parts_stand_where_they_were_put(head + first, second, Seq::empty());
    assert(head + first + second + Seq::empty() =~= p);
}

/// A job that could not be unloaded counts as missing when launchd says so in one of its ways.
pub proof fn missing_jobs_are_told(a: Seq<char>, b: Seq<char>)
    ensures
        launchd::says_missing(a + "No such process"@ + b),
        launchd::says_missing(a + "Could not find service"@ + b),
        launchd::says_missing(a + "does not exist"@ + b),
        launchd::says_missing(a) ==> text::has_part(a, "No such process"@) || text::has_part(
            a,
            "Could not find service"@,
        ) || text::has_part(a, "does not exist"@),
{
    parts_stand_where_they_were_put(a, "No such process"@, b);
    parts_stand_where_they_were_put(a, "Could not find service"@, b);
    parts_stand_where_they_were_put(a, "does not exist"@, b);
}

/// Whether a job is loaded is what launchd said, unless it is not to be used.
pub proof fn launchd_says_what_is_loaded(printed: Option<bool>)
    ensures
        launchd::loaded_by(false, printed) == printed,
        launchd::loaded_by(true, printed) is None,
{
}

// ---------------------------------------------------------------------------
// Settings
// ---------------------------------------------------------------------------

/// A setting counts before what is usual. The files of a user are below the user's home, those of
/// the system apart from it; of the limiter programs the one of Homebrew comes first.
pub proof fn settings_come_first(s: Seq<char>, usual: Seq<char>, home: Seq<char>, other: Seq<char>, b: bool)
    ensures
        config::set_or(Some(s), usual) == s,
        config::set_or(None, usual) == usual,
        config::usual_config_dir(Domain::User, home) == home + "/.config/cpuguard"@,
        config::usual_config_dir(Domain::System, home) == config::usual_config_dir(
            Domain::System,
            other,
        ),
        config::usual_config_dir(Domain::System, home) == "/Library/Application Support/cpuguard"@,
        config::usual_cpulimit_bin(KnownPrograms { in_homebrew: true, in_usr_local: b })
            == "/opt/homebrew/bin/cpulimit"@,
        config::usual_cpulimit_bin(KnownPrograms { in_homebrew: false, in_usr_local: true })
            == "/usr/local/bin/cpulimit"@,
        config::usual_cpulimit_bin(KnownPrograms { in_homebrew: false, in_usr_local: false })
            == "cpulimit"@,
{
}

} // verus!
