//! Laws of what the commands accept and show.

use vstd::prelude::*;

use crate::app::agent_laws;
use crate::app::agent_laws::rules_concern_what_they_name;
use crate::app::plan::LineView;
use crate::cli::output;
use crate::cli::run;
use crate::cli::run::{ChoiceView, Command};
use crate::cli::status;
use crate::cli::top;
use crate::cli::top::{Heard, Refusal, TopActionView};
use crate::cli::validate;
use crate::cli::watches;
use crate::cli::watches::{KeyView, Sign};
use crate::cpu::CpuPercent;
use crate::cpu_laws;
use crate::cpu_laws::usual_loads;
use crate::infra::process_snapshot;
use crate::infra::process_snapshot::EntryView;
use crate::lists;
use crate::model;
use crate::model::{Domain, InstanceView, ManagedMode, RuleView, TargetView};
use crate::text;
use crate::text_laws;
use crate::text_laws::{
    numbers_grow_digit_by_digit, parts_stand_where_they_were_put, trimming_takes_the_ends,
};

verus! {

// ---------------------------------------------------------------------------
// Values
// ---------------------------------------------------------------------------

/// Whether a load is a number from 0 to 1200 percent.
pub open spec fn is_in_range(c: CpuPercent) -> bool {
    !c.is_nan() && 0 <= c.steps() <= 1200 * cpu_laws::percent()
}

/// Thresholds are accepted when both are from 0 to 1200 percent and the release load is not above
/// the trigger load; else the first fault is named: the trigger load, the release load, their order.
pub proof fn thresholds_are_checked_in_order(trigger: CpuPercent, release: CpuPercent)
    ensures
        validate::threshold_fault(trigger, release) is None <==> is_in_range(trigger)
            && is_in_range(release) && release.steps() <= trigger.steps(),
        !is_in_range(trigger) ==> validate::threshold_fault(trigger, release) == Some(
            "trigger-cpu"@ + " must be between 0 and 1200"@,
        ),
        is_in_range(trigger) && !is_in_range(release) ==> validate::threshold_fault(
            trigger,
            release,
        ) == Some("release-cpu"@ + " must be between 0 and 1200"@),
        is_in_range(trigger) && is_in_range(release) && release.steps() > trigger.steps()
            ==> validate::threshold_fault(trigger, release) == Some(
            "release-cpu must be less than or equal to trigger-cpu"@,
        ),
{
    usual_loads();
}

/// A watch is accepted when its limit is from 1 to 1200 and its thresholds are; a view of the
/// busiest processes when its limit is and its risk load is from 0 to 1200 percent; a clean-up when
/// it is confirmed. Everything else is accepted as it is.
pub proof fn commands_are_checked(command: Command)
    ensures
        command matches Command::Watch { name, limit, trigger_cpu, release_cpu, args_contains } ==> {
            &&& run::fault(command) is None <==> 1 <= limit <= 1200 && validate::threshold_fault(
                trigger_cpu,
                release_cpu,
            ) is None
            &&& !(1 <= limit <= 1200) ==> run::fault(command) == Some(
                "limit must be between 1 and 1200"@,
            )
            &&& 1 <= limit <= 1200 ==> run::fault(command) == validate::threshold_fault(
                trigger_cpu,
                release_cpu,
            )
        },
        command matches Command::Top { limit, count, refresh, once, pid, risk_cpu, allow_kill } ==> {
            &&& run::fault(command) is None <==> 1 <= limit <= 1200 && is_in_range(risk_cpu)
            &&& !(1 <= limit <= 1200) ==> run::fault(command) == Some(
                "limit must be between 1 and 1200"@,
            )
        },
        command matches Command::Clean { yes } ==> (run::fault(command) is None <==> yes),
        !(command is Watch) && !(command is Top) && !(command is Clean) ==> run::fault(
            command,
        ) is None,
{
    usual_loads();
}

/// What is picked from the busiest processes is limited once if that was asked for; else its name is
/// watched, with the limit that was given, at 25 and 8 percent; without a name nothing is.
pub proof fn picks_are_limited_or_watched(
    once: bool,
    target_pid: u32,
    limit: u16,
    name: Option<Seq<char>>,
)
    ensures
        once ==> run::choice_after(once, target_pid, limit, name) == Ok::<ChoiceView, Seq<char>>(
            ChoiceView::LimitOnce { target_pid, limit },
        ),
        !once && name is None ==> run::choice_after(once, target_pid, limit, name) is Err,
        !once && name is Some ==> (run::choice_after(once, target_pid, limit, name) matches Ok(
            ChoiceView::Watch { name: n, limit: l, trigger_cpu, release_cpu, args_contains },
        ) && n == name->0 && l == limit && args_contains is None && trigger_cpu.steps() == 25
            * cpu_laws::percent() && release_cpu.steps() == 8 * cpu_laws::percent()),
{
    usual_loads();
}

// ---------------------------------------------------------------------------
// Tables
// ---------------------------------------------------------------------------

/// A text that fits into a column stands at its start, and spaces follow; of a longer one the column
/// shows as much as leaves room for three dots, or dots alone.
pub proof fn columns_show_the_start(s: Seq<char>, width: nat)
    ensures
        s.len() <= width ==> output::fitted(s, width).take(s.len() as int) == s && forall|i: int|
            s.len() <= i < width ==> #[trigger] output::fitted(s, width)[i] == ' ',
        s.len() > width >= 3 ==> output::fitted(s, width).take(width - 3) == s.take(width - 3),
        s.len() > width ==> forall|i: int|
            0 <= i < width && width - 3 <= i ==> #[trigger] output::fitted(s, width)[i] == '.',
{
    let f = output::fitted(s, width);
    if s.len() <= width {
        assert(f.take(s.len() as int) =~= s);
    } else if width >= 3 {
        assert(f.take(width - 3) =~= s.take(width - 3));
    }
}

/// The columns of a row stand in their order, two spaces apart.
pub proof fn rows_hold_their_columns(
    cells: Seq<Seq<char>>,
    widths: Seq<usize>,
    cell: Seq<char>,
    width: usize,
)
    requires
        cells.len() == widths.len(),
    ensures
        cells.len() > 0 ==> output::row_of(cells.push(cell), widths.push(width)) == output::row_of(
            cells,
            widths,
        ) + seq![' ', ' '] + output::fitted(cell, width as nat),
        output::row_of(seq![cell], seq![width]) == output::fitted(cell, width as nat),
{
    reveal_strlit("  ");
    assert("  "@ =~= seq![' ', ' ']);
    let all = output::fitted_all(cells.push(cell), widths.push(width));
    assert(all.drop_last() =~= output::fitted_all(cells, widths));
    assert(all.last() == output::fitted(cell, width as nat));
    let one = output::fitted_all(seq![cell], seq![width]);
    assert(one[0] == output::fitted(cell, width as nat));
}

/// Every table has the columns that its rows fill.
pub proof fn tables_have_their_columns()
    ensures
        status::status_widths() == seq![16usize, 8, 24, 8, 10, 42, 8, 8],
        watches::watch_widths() == seq![28usize, 8, 8, 10, 22, 20],
        top::top_widths() == seq![4usize, 8, 7, 8],
{
}

/// What is told of a new watch names its rule, the limit, both thresholds and the domain.
pub proof fn new_watches_are_told(rule: RuleView, trigger: Seq<char>, release: Seq<char>)
    ensures
        run::watch_text(rule, trigger, release) == "watch active: "@ + (rule.name + (" "@ + (
        text::decimal(rule.limit as nat) + ("% trigger="@ + (trigger + (" release="@ + (release + (
        " ("@ + ((if rule.domain is User {
            "user"@
        } else {
            "system"@
        }) + ")"@))))))))),
{
    let d = model::domain_name(rule.domain);
    let limit = text::decimal(rule.limit as nat);
    let told = run::watch_text(rule, trigger, release);
    let e = " ("@ + (d + ")"@);
    assert(told =~= "watch active: "@ + (rule.name + (" "@ + (limit + ("% trigger="@ + (trigger + (
    " release="@ + (release + e))))))));
}

/// A table of status shows the instances of its domain and no others, in their order.
pub proof fn status_shows_its_domain(instances: Seq<InstanceView>, domain: Domain)
    ensures
        instances.filter(status::is_shown(domain)) == instances.filter(
            |i: InstanceView| i.domain == domain,
        ),
{
    lists::lemma_filter_agree(
        instances,
        status::is_shown(domain),
        |i: InstanceView| i.domain == domain,
    );
}

/// A target on a process is shown by its process id, with its name if it has one, else as exited; a
/// target of a name by the process that was found, else as waiting.
pub proof fn targets_are_described_by_what_was_found(
    pid: u32,
    n: Seq<char>,
    name: Option<Seq<char>>,
    found: Option<u32>,
    p: u32,
)
    ensures
        status::described(TargetView::Pid(pid), Some(n), found) == "PID "@ + text::decimal(
            pid as nat,
        ) + " "@ + n,
        status::described(TargetView::Pid(pid), None, found) == "PID "@ + text::decimal(pid as nat)
            + " "@ + "(exited)"@,
        status::described(TargetView::Name(n), name, Some(p)) == "PID "@ + text::decimal(p as nat)
            + " "@ + n,
        status::described(TargetView::Name(n), name, None) == n + " (waiting)"@,
{
}

// ---------------------------------------------------------------------------
// Watches
// ---------------------------------------------------------------------------

/// Whether a living limiter of a watch at `i` belongs to a rule: it was recorded with the rule's
/// name or, without one, its target has it.
pub open spec fn runs_for(
    instances: Seq<InstanceView>,
    signs: Seq<Sign>,
    rule: RuleView,
    i: int,
) -> bool {
    &&& 0 <= i < instances.len()
    &&& instances[i].mode == ManagedMode::Watch
    &&& instances[i].domain == rule.domain
    &&& signs[i].alive
    &&& match instances[i].rule_name {
        Some(name) => name == rule.name,
        None => match instances[i].target {
            TargetView::Name(name) => name == rule.name,
            TargetView::Pid(_) => signs[i].target_name is Some && signs[i].target_name->0@
                == rule.name,
        },
    }
}

/// A rule has a running limiter when a living one of its domain, started for a watch, belongs to it.
pub proof fn running_rules_have_a_living_limiter(
    instances: Seq<InstanceView>,
    signs: Seq<Sign>,
    rule: RuleView,
)
    requires
        signs.len() == instances.len(),
    ensures
        watches::is_running(instances, signs, rule.domain, rule.name) <==> exists|i: int| #[trigger]
            runs_for(instances, signs, rule, i),
{
    if watches::is_running(instances, signs, rule.domain, rule.name) {
        let i = choose|i: int|
            0 <= i < instances.len() && (#[trigger] instances[i]).mode is Watch && signs[i].alive
                && watches::rule_key(instances[i], text::opt_text(signs[i].target_name)) == Some(
                KeyView { domain: rule.domain, name: rule.name },
            );
        assert(runs_for(instances, signs, rule, i));
    }
    if exists|i: int| #[trigger] runs_for(instances, signs, rule, i) {
        let i = choose|i: int| #[trigger] runs_for(instances, signs, rule, i);
        assert(instances[i].mode is Watch);
        assert(watches::rule_key(instances[i], text::opt_text(signs[i].target_name)) == Some(
            KeyView { domain: rule.domain, name: rule.name },
        ));
    }
}

/// The process that is shown for a rule with a part of the command line is the first of the
/// snapshot that the rule is about; without one, none is.
pub proof fn first_process_of_a_rule_is_shown(
    rule: RuleView,
    snapshot: Seq<EntryView>,
    lines: Seq<LineView>,
)
    ensures
        match watches::first_match(rule, snapshot, lines) {
            Some(pid) => exists|j: int|
                0 <= j < snapshot.len() && (#[trigger] snapshot[j]).pid == pid
                    && agent_laws::concerns(rule, snapshot[j], lines) && forall|i: int|
                    0 <= i < j ==> !agent_laws::concerns(rule, #[trigger] snapshot[i], lines),
            None => forall|j: int|
                0 <= j < snapshot.len() ==> !agent_laws::concerns(
                    rule,
                    #[trigger] snapshot[j],
                    lines,
                ),
        },
    decreases snapshot.len(),
{
    if snapshot.len() > 0 {
        let rest = snapshot.skip(1);
        rules_concern_what_they_name(rule, snapshot[0], lines);
        if !agent_laws::concerns(rule, snapshot[0], lines) {
            first_process_of_a_rule_is_shown(rule, rest, lines);
            match watches::first_match(rule, rest, lines) {
                Some(pid) => {
                    let j = choose|j: int|
                        0 <= j < rest.len() && (#[trigger] rest[j]).pid == pid
                            && agent_laws::concerns(rule, rest[j], lines) && forall|i: int|
                            0 <= i < j ==> !agent_laws::concerns(rule, #[trigger] rest[i], lines);
                    assert(snapshot[j + 1] == rest[j]);
                    assert forall|i: int| 0 <= i < j + 1 implies !agent_laws::concerns(
                        rule,
                        #[trigger] snapshot[i],
                        lines,
                    ) by {
                        if i > 0 {
                            assert(rest[i - 1] == snapshot[i]);
                        }
                    }
                },
                None => {
                    assert forall|j: int| 0 <= j < snapshot.len() implies !agent_laws::concerns(
                        rule,
                        #[trigger] snapshot[j],
                        lines,
                    ) by {
                        if j > 0 {
                            assert(rest[j - 1] == snapshot[j]);
                        }
                    }
                },
            }
        } else {
            assert(snapshot[0].pid == watches::first_match(rule, snapshot, lines)->0);
        }
    }
}

/// The domain of the system is advised only to a user whose agent is loaded and whose target exists,
/// is not limited and belongs to another user.
pub proof fn hints_need_a_foreign_target(
    status: Seq<char>,
    target_exists: bool,
    running: bool,
    owner: Seq<char>,
    user: Seq<char>,
    one: Option<Seq<char>>,
)
    ensures
        watches::is_out_of_reach(
            Domain::User,
            status,
            target_exists,
            running,
            Some(owner),
            Some(user),
        ) <==> status == "loaded"@ && target_exists && !running && owner != user,
        !watches::is_out_of_reach(
            Domain::System,
            status,
            target_exists,
            running,
            Some(owner),
            Some(user),
        ),
        !watches::is_out_of_reach(Domain::User, status, target_exists, running, None, one),
        !watches::is_out_of_reach(Domain::User, status, target_exists, running, one, None),
{
}

/// What is not there is shown as a dash, a rule without a process as waiting, and the agent by what
/// launchd said of it.
pub proof fn tables_say_what_is_missing(s: Seq<char>, pid: u32)
    ensures
        status::or_dash(Some(s)) == s,
        status::or_dash(None) == "-"@,
        watches::target_text(Some(pid)) == "PID "@ + text::decimal(pid as nat),
        watches::target_text(None) == "waiting"@,
        watches::launchd_status(Some(true)) == "loaded"@,
        watches::launchd_status(Some(false)) == "missing"@,
        watches::launchd_status(None) == "skipped"@,
        model::domain_name(Domain::User) == "user"@,
        model::domain_name(Domain::System) == "system"@,
        model::mode_name(ManagedMode::Adhoc) == "adhoc"@,
        model::mode_name(ManagedMode::Watch) == "watch"@,
{
}

// ---------------------------------------------------------------------------
// The busiest processes
// ---------------------------------------------------------------------------

/// Whether a text is white space.
pub open spec fn is_blank_text(s: Seq<char>) -> bool {
    forall|i: int| 0 <= i < s.len() ==> text_laws::is_blank(#[trigger] s[i])
}

/// What a number means that is entered: with it alone the process at that place is picked, from 1 on;
/// a number that is out of range does nothing.
pub proof fn numbers_pick_their_place(
    a: Seq<char>,
    s: Seq<char>,
    b: Seq<char>,
    list: Seq<EntryView>,
    risky: Seq<bool>,
    allow_kill: bool,
)
    requires
        is_blank_text(a),
        is_blank_text(b),
        text::number_up_to(s, usize::MAX as nat) is Some,
    ensures
        ({
            let n = text::number_up_to(s, usize::MAX as nat)->0;
            let act = top::action(a + s + b, list, risky, allow_kill);
            &&& 1 <= n <= list.len() ==> act == TopActionView::Pick(list[n - 1].pid)
            &&& !(1 <= n <= list.len()) ==> act == TopActionView::Refresh
        }),
{
    let max = usize::MAX as nat;
    lemma_number_ends(s, max);
    trimming_takes_the_ends(a, s, b);
    numbers_grow_digit_by_digit(s, '0', max);
    assert(('0' <= s[0] <= '9') || s[0] == '+');
}

/// A number starts and ends without white space.
proof fn lemma_number_ends(s: Seq<char>, max: nat)
    requires
        text::number_up_to(s, max) is Some,
    ensures
        s.len() > 0,
        !text_laws::is_blank(s[0]),
        !text_laws::is_blank(s.last()),
        ('0' <= s[0] <= '9') || s[0] == '+',
{
    numbers_grow_digit_by_digit(s, '0', max);
    if s.len() == 0 {
        assert(s =~= Seq::empty());
    } else {
        assert(('0' <= s[0] <= '9') || s[0] == '+');
        let n = s.len() - 1;
        assert(('0' <= s[n] <= '9') || (s[n] == '+' && n == 0));
    }
}

/// Whether a letter and a number are entered, with white space around and between them.
pub open spec fn is_entered(
    line: Seq<char>,
    letter: char,
    a: Seq<char>,
    gap: Seq<char>,
    s: Seq<char>,
    b: Seq<char>,
) -> bool {
    &&& line == a + (seq![letter] + gap + s) + b
    &&& is_blank_text(a)
    &&& is_blank_text(gap)
    &&& is_blank_text(b)
    &&& text::number_up_to(s, usize::MAX as nat) is Some
}

proof fn lemma_entered(
    line: Seq<char>,
    letter: char,
    a: Seq<char>,
    gap: Seq<char>,
    s: Seq<char>,
    b: Seq<char>,
)
    requires
        is_entered(line, letter, a, gap, s, b),
        letter == 'k' || letter == 'K' || letter == 'x' || letter == 'X',
    ensures
        ({
            let input = seq![letter] + gap + s;
            &&& text::trimmed(line) == input
            &&& input.len() > 1
            &&& input[0] == letter
            &&& text::trimmed(input.skip(1)) == s
            &&& text::number_up_to(input, usize::MAX as nat) is None
        }),
{
    let max = usize::MAX as nat;
    let input = seq![letter] + gap + s;
    let none: Seq<char> = Seq::empty();
    lemma_number_ends(s, max);
    assert(input.last() == s.last());
    assert(input[0] == letter);
    trimming_takes_the_ends(a, input, b);
    trimming_takes_the_ends(gap, s, none);
    assert(input.skip(1) =~= gap + s + none);
    numbers_grow_digit_by_digit(input, '0', max);
}

/// A process is killed from the list only when killing is allowed, the number is in the list and the
/// process there is risky; it is asked for first. Else the reason is told.
pub proof fn kills_are_confirmed_for_risky_processes(
    line: Seq<char>,
    letter: char,
    a: Seq<char>,
    gap: Seq<char>,
    s: Seq<char>,
    b: Seq<char>,
    list: Seq<EntryView>,
    risky: Seq<bool>,
    allow_kill: bool,
)
    requires
        is_entered(line, letter, a, gap, s, b),
        letter == 'k' || letter == 'K',
        list.len() <= usize::MAX,
    ensures
        ({
            let n = text::number_up_to(s, usize::MAX as nat)->0;
            let act = top::action(line, list, risky, allow_kill);
            &&& !allow_kill ==> act == TopActionView::Refuse(Refusal::NotAllowed)
            &&& allow_kill && !(1 <= n <= list.len()) ==> act == TopActionView::Refuse(
                Refusal::OutOfRange,
            )
            &&& allow_kill && 1 <= n <= list.len() && !risky[n - 1] ==> act
                == TopActionView::Refuse(Refusal::NotRisky)
            &&& allow_kill && 1 <= n <= list.len() && risky[n - 1] ==> act
                == TopActionView::ConfirmKill((n - 1) as usize)
        }),
{
    lemma_entered(line, letter, a, gap, s, b);
    lemma_letters();
}

/// Processes of one name are killed from the list only when killing is allowed, the number is in the
/// list and the process there is not protected; they are asked for first, and are all those of the
/// list with the name of that process, in their order.
pub proof fn batches_are_confirmed_by_name(
    line: Seq<char>,
    letter: char,
    a: Seq<char>,
    gap: Seq<char>,
    s: Seq<char>,
    b: Seq<char>,
    list: Seq<EntryView>,
    risky: Seq<bool>,
    allow_kill: bool,
)
    requires
        is_entered(line, letter, a, gap, s, b),
        letter == 'x' || letter == 'X',
        list.len() <= usize::MAX,
    ensures
        ({
            let n = text::number_up_to(s, usize::MAX as nat)->0;
            let act = top::action(line, list, risky, allow_kill);
            &&& !allow_kill ==> act == TopActionView::Refuse(Refusal::NotAllowed)
            &&& allow_kill && !(1 <= n <= list.len()) ==> act == TopActionView::Refuse(
                Refusal::OutOfRange,
            )
            &&& allow_kill && 1 <= n <= list.len() && process_snapshot::protected(list[n - 1].name)
                ==> act == TopActionView::Refuse(Refusal::Protected)
            &&& allow_kill && 1 <= n <= list.len() && !process_snapshot::protected(list[n - 1].name)
                ==> act == TopActionView::ConfirmBatch(
                (n - 1) as usize,
                list.filter(|e: EntryView| e.name == list[n - 1].name).map_values(
                    |e: EntryView| e.pid,
                ),
            )
        }),
{
    lemma_entered(line, letter, a, gap, s, b);
    lemma_letters();
    let n = text::number_up_to(s, usize::MAX as nat)->0;
    if 1 <= n <= list.len() {
        let name = list[n - 1].name;
        lists::lemma_filter_agree(list, top::is_named(name), |e: EntryView| e.name == name);
    }
}

proof fn lemma_letters()
    ensures
        top::upper('k') == 'K',
        top::upper('x') == 'X',
        top::upper('q') == 'Q',
        top::upper('y') == 'Y',
{
}

/// A `q` ends the view, in either case; white space alone refreshes it.
pub proof fn quitting_takes_a_letter(
    a: Seq<char>,
    b: Seq<char>,
    list: Seq<EntryView>,
    risky: Seq<bool>,
    allow_kill: bool,
)
    requires
        is_blank_text(a),
        is_blank_text(b),
    ensures
        top::action(a + seq!['q'] + b, list, risky, allow_kill) == TopActionView::Quit,
        top::action(a + seq!['Q'] + b, list, risky, allow_kill) == TopActionView::Quit,
        top::action(a, list, risky, allow_kill) == TopActionView::Refresh,
{
    lemma_letters();
    let none: Seq<char> = Seq::empty();
    trimming_takes_the_ends(a, seq!['q'], b);
    trimming_takes_the_ends(a, seq!['Q'], b);
    trimming_takes_the_ends(a, none, none);
    assert(a + none + none =~= a);
}

/// A process is marked as limited when a living limiter is recorded for it.
pub proof fn living_limiters_mark_their_target(
    instances: Seq<InstanceView>,
    alive: Seq<bool>,
    pid: u32,
)
    ensures
        top::is_limited(instances, alive, pid) <==> exists|i: int|
            0 <= i < instances.len() && alive[i] && (#[trigger] instances[i]).target
                == TargetView::Pid(pid),
{
}

/// Without a line the list is shown anew, and at the end of the input the view ends; a line is acted
/// on.
pub proof fn silence_refreshes(
    heard: Heard,
    list: Seq<EntryView>,
    risky: Seq<bool>,
    allow_kill: bool,
)
    ensures
        heard is Nothing ==> top::next_action(heard, list, risky, allow_kill)
            == TopActionView::Refresh,
        heard is End ==> top::next_action(heard, list, risky, allow_kill) == TopActionView::Quit,
        heard matches Heard::Line(line) ==> top::next_action(heard, list, risky, allow_kill)
            == top::action(line@, list, risky, allow_kill),
{
}

/// A process is asked about, and spoken of, by its name and its process id; several of one name by
/// their number, the name and all their process ids.
pub proof fn questions_name_their_processes(name: Seq<char>, pid: u32, pids: Seq<u32>)
    ensures
        text::has_part(
            top::kill_asked(name, pid),
            name + " (PID "@ + text::decimal(pid as nat) + ")"@,
        ),
        text::has_part(
            top::kill_text(name, pid, None),
            name + " (PID "@ + text::decimal(pid as nat) + ")"@,
        ),
        text::has_part(top::batch_asked(name, pids), name),
        text::has_part(top::batch_asked(name, pids), text::decimal(pids.len())),
        text::has_part(top::batch_asked(name, pids), text::joined(text::decimals(pids), ", "@)),
{
    let one = name + " (PID "@ + text::decimal(pid as nat) + ")"@;
    let none: Seq<char> = Seq::empty();
    parts_stand_where_they_were_put("确认终止进程 "@, one, "? [y/N]: "@);
    parts_stand_where_they_were_put("已发送 SIGTERM 到进程 "@, one, none);
    assert("已发送 SIGTERM 到进程 "@ + one + none =~= "已发送 SIGTERM 到进程 "@ + one);
    let head = "确认终止当前列表中 NAME 相同的 "@;
    let count = text::decimal(pids.len());
    let mid = " 个进程 \""@;
    let tail = "\"? PIDs: "@;
    let all = text::joined(text::decimals(pids), ", "@);
    let end = " [y/N]: "@;
    let asked = top::batch_asked(name, pids);
    parts_stand_where_they_were_put(head, count, mid + name + tail + all + end);
    assert(head + count + (mid + name + tail + all + end) =~= asked);
    parts_stand_where_they_were_put(head + count + mid, name, tail + all + end);
    assert(head + count + mid + name + (tail + all + end) =~= asked);
    parts_stand_where_they_were_put(head + count + mid + name + tail, all, end);
    assert(head + count + mid + name + tail + all + end =~= asked);
}

/// What is told of several processes counts those that were signalled and, if some could not be,
/// those too, with each cause.
pub proof fn outcomes_are_counted(pids: Seq<u32>, causes: Seq<Option<String>>)
    ensures
        ({
            let failed = top::failures(pids, causes, pids.len() as int);
            let told = top::batch_text(pids, causes);
            &&& text::has_part(told, text::decimal((pids.len() - failed.len()) as nat))
            &&& failed.len() > 0 ==> text::has_part(told, text::decimal(failed.len()))
                && text::has_part(told, text::joined(failed, "; "@))
        }),
{
    let failed = top::failures(pids, causes, pids.len() as int);
    let told = top::batch_text(pids, causes);
    let head = "已发送 SIGTERM 到 "@;
    let sent = text::decimal((pids.len() - failed.len()) as nat);
    let mid = " 个进程"@;
    let sep = "，失败 "@;
    let count = text::decimal(failed.len());
    let unit = " 个: "@;
    let list = text::joined(failed, "; "@);
    let none: Seq<char> = Seq::empty();
    if failed.len() == 0 {
        parts_stand_where_they_were_put(head, sent, mid);
    } else {
        parts_stand_where_they_were_put(head, sent, mid + sep + count + unit + list);
        assert(head + sent + (mid + sep + count + unit + list) =~= told);
        parts_stand_where_they_were_put(head + sent + mid + sep, count, unit + list);
        assert(head + sent + mid + sep + count + (unit + list) =~= told);
        parts_stand_where_they_were_put(head + sent + mid + sep + count + unit, list, none);
        assert(head + sent + mid + sep + count + unit + list + none =~= told);
    }
}

} // verus!
