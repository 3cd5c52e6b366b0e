//! The list of the busiest processes: what it shows, and what the user's input asks for.

use vstd::prelude::*;

use crate::cli::output;
use crate::cli::output::{fit_col, row};
use crate::infra::process_snapshot;
use crate::infra::process_snapshot::{is_protected_system_process, EntryView, ProcessEntry};
use crate::lists;
use crate::model;
use crate::model::{InstanceView, ManagedInstance, ManagedTarget, TargetView};
use crate::text;
use crate::text::{
    chars_of, concat, number_list, owned, parse_usize, same, slice_text, to_decimal, trim,
};

verus! {

/// How long a process has to run before its load counts as a risk: half an hour.
pub const RISK_ELAPSED_THRESHOLD_SECS: u64 = 1800;

/// How long a question waits for an answer, in seconds.
pub const CONFIRM_SECS: u64 = 30;

/// The seconds between two lists: at least one.
pub fn refresh_interval(refresh_secs: u64) -> (r: u64)
    ensures
        r == if refresh_secs < 1 {
            1
        } else {
            refresh_secs
        },
{
    if refresh_secs < 1 {
        1
    } else {
        refresh_secs
    }
}

// ---------------------------------------------------------------------------
// Input
// ---------------------------------------------------------------------------

/// An ASCII letter in upper case; other characters as they are.
pub open spec fn upper(c: char) -> char {
    if 'a' <= c && c <= 'z' {
        (c as u32 - 32) as char
    } else {
        c
    }
}

/// The number behind a letter, which may be in upper case, and white space.
pub open spec fn prefixed_choice(input: Seq<char>, prefix: char) -> Option<nat> {
    if input.len() > 0 && (input[0] == prefix || input[0] == upper(prefix)) {
        text::number_up_to(text::trimmed(input.skip(1)), usize::MAX as nat)
    } else {
        None
    }
}

/// An ASCII letter in upper case; other characters as they are.
fn to_upper(c: char) -> (r: char)
    ensures
        r == upper(c),
{
    if 'a' <= c && c <= 'z' {
        ((c as u8) - 32) as char
    } else {
        c
    }
}

/// Reads the number behind a letter.
pub fn parse_prefixed_choice(input: &str, prefix: char) -> (r: Option<usize>)
    ensures
        match r {
            Some(n) => prefixed_choice(input@, prefix) == Some(n as nat),
            None => prefixed_choice(input@, prefix) is None,
        },
{
    let cs = chars_of(input);
    if cs.len() == 0 || (cs[0] != prefix && cs[0] != to_upper(prefix)) {
        return None;
    }
    let rest = slice_text(&cs, 1, cs.len());
    assert(rest@ =~= input@.skip(1));
    let number = trim(rest.as_str());
    parse_usize(number.as_str())
}

/// The position that the number of a line stands for. Lines are counted from one.
pub open spec fn position(choice: nat, len: nat) -> Option<nat> {
    if 1 <= choice <= len {
        Some((choice - 1) as nat)
    } else {
        None
    }
}

/// The position that the number of a line stands for.
pub fn choice_index(choice: usize, len: usize) -> (r: Option<usize>)
    ensures
        match r {
            Some(i) => position(choice as nat, len as nat) == Some(i as nat),
            None => position(choice as nat, len as nat) is None,
        },
{
    if choice < 1 || choice > len {
        None
    } else {
        Some(choice - 1)
    }
}

/// Whether a process has this very name.
pub open spec fn is_named(name: Seq<char>) -> spec_fn(EntryView) -> bool {
    |e: EntryView| e.name == name
}

/// The processes in a list that have this very name.
pub open spec fn named_pids(list: Seq<EntryView>, name: Seq<char>) -> Seq<u32> {
    list.filter(is_named(name)).map_values(|e: EntryView| e.pid)
}

/// Picks the processes in a list that have this very name.
pub fn current_snapshot_name_matches(list: &Vec<ProcessEntry>, target_name: &str) -> (r: Vec<u32>)
    ensures
        r@ == named_pids(process_snapshot::entries_of(list@), target_name@),
{
    let ghost all = process_snapshot::entries_of(list@);
    let ghost keep = is_named(target_name@);
    let mut out: Vec<u32> = Vec::new();
    let mut i: usize = 0;
    proof {
        reveal(Seq::filter);
        assert(named_pids(all.take(0), target_name@) =~= Seq::empty());
    }
    while i < list.len()
        invariant
            i <= list.len(),
            all == process_snapshot::entries_of(list@),
            keep == is_named(target_name@),
            out@ == named_pids(all.take(i as int), target_name@),
        decreases list.len() - i,
    {
        proof {
            assert(all.take(i + 1) == all.take(i as int).push(list@[i as int]@));
            lists::lemma_filter_push(all.take(i as int), list@[i as int]@, keep);
        }
        if same(list[i].name.as_str(), target_name) {
            out.push(list[i].pid);
        }
        assert(out@ =~= named_pids(all.take(i + 1), target_name@));
        i += 1;
    }
    assert(all.take(i as int) == all);
    out
}

/// Why an input is refused.
#[derive(Clone, Copy, Debug, PartialEq, Eq, Structural)]
pub enum Refusal {
    /// Ending processes has to be allowed on the command line.
    NotAllowed,
    /// There is no line of this number.
    OutOfRange,
    /// The process does not count as a risk.
    NotRisky,
    /// The process belongs to the system.
    Protected,
}

/// What the user's input asks for.
#[derive(Debug)]
pub enum TopAction {
    /// Leave the list.
    Quit,
    /// Show the list anew.
    Refresh,
    /// Tell why not.
    Refuse(Refusal),
    /// Ask whether to end the process at this position.
    ConfirmKill(usize),
    /// Ask whether to end the processes with the name of the one at this position.
    ConfirmBatch(usize, Vec<u32>),
    /// Limit this process.
    Pick(u32),
}

/// What a [`TopAction`] says.
pub enum TopActionView {
    Quit,
    Refresh,
    Refuse(Refusal),
    ConfirmKill(usize),
    ConfirmBatch(usize, Seq<u32>),
    Pick(u32),
}

impl View for TopAction {
    type V = TopActionView;

    open spec fn view(&self) -> TopActionView {
        match *self {
            TopAction::Quit => TopActionView::Quit,
            TopAction::Refresh => TopActionView::Refresh,
            TopAction::Refuse(why) => TopActionView::Refuse(why),
            TopAction::ConfirmKill(i) => TopActionView::ConfirmKill(i),
            TopAction::ConfirmBatch(i, pids) => TopActionView::ConfirmBatch(i, pids@),
            TopAction::Pick(pid) => TopActionView::Pick(pid),
        }
    }
}

/// Whether an input is this letter, in either case.
pub open spec fn is_letter(input: Seq<char>, c: char) -> bool {
    input == seq![c] || input == seq![upper(c)]
}

/// What `k` and a number ask for: the end of one process that counts as a risk.
pub open spec fn kill_action(choice: nat, list: Seq<EntryView>, risky: Seq<bool>) -> TopActionView {
    match position(choice, list.len()) {
        None => TopActionView::Refuse(Refusal::OutOfRange),
        Some(i) => if risky[i as int] {
            TopActionView::ConfirmKill(i as usize)
        } else {
            TopActionView::Refuse(Refusal::NotRisky)
        },
    }
}

/// What `x` and a number ask for: the end of all processes of one name in the list, unless it is
/// one of the system's.
pub open spec fn batch_action(choice: nat, list: Seq<EntryView>) -> TopActionView {
    match position(choice, list.len()) {
        None => TopActionView::Refuse(Refusal::OutOfRange),
        Some(i) => if process_snapshot::protected(list[i as int].name) {
            TopActionView::Refuse(Refusal::Protected)
        } else {
            TopActionView::ConfirmBatch(i as usize, named_pids(list, list[i as int].name))
        },
    }
}

/// What an input asks for.
pub open spec fn action(
    line: Seq<char>,
    list: Seq<EntryView>,
    risky: Seq<bool>,
    allow_kill: bool,
) -> TopActionView {
    let input = text::trimmed(line);
    let kill = prefixed_choice(input, 'k');
    let batch = prefixed_choice(input, 'x');
    let number = text::number_up_to(input, usize::MAX as nat);
    if is_letter(input, 'q') {
        TopActionView::Quit
    } else if input.len() == 0 {
        TopActionView::Refresh
    } else if !allow_kill && (kill is Some || batch is Some) {
        TopActionView::Refuse(Refusal::NotAllowed)
    } else if kill is Some {
        kill_action(kill->0, list, risky)
    } else if batch is Some {
        batch_action(batch->0, list)
    } else if number is Some && position(number->0, list.len()) is Some {
        TopActionView::Pick(list[position(number->0, list.len())->0 as int].pid)
    } else {
        TopActionView::Refresh
    }
}

/// Whether an input is this letter, in either case.
fn letter(input: &str, c: char) -> (r: bool)
    ensures
        r == is_letter(input@, c),
{
    let cs = chars_of(input);
    if cs.len() == 1 && (cs[0] == c || cs[0] == to_upper(c)) {
        proof {
            if cs[0] == c {
                assert(input@ =~= seq![c]);
            } else {
                assert(input@ =~= seq![upper(c)]);
            }
        }
        true
    } else {
        assert(seq![c][0] == c && seq![upper(c)][0] == upper(c));
        false
    }
}

/// Decides what an input asks for.
pub fn decide(
    line: &str,
    list: &Vec<ProcessEntry>,
    risky: &Vec<bool>,
    allow_kill: bool,
) -> (r: TopAction)
    requires
        risky@.len() == list@.len(),
    ensures
        r@ == action(line@, process_snapshot::entries_of(list@), risky@, allow_kill),
{
    let ghost all = process_snapshot::entries_of(list@);
    let input = trim(line);
    if letter(input.as_str(), 'q') {
        return TopAction::Quit;
    }
    if input.as_str().is_empty() {
        return TopAction::Refresh;
    }
    let kill = parse_prefixed_choice(input.as_str(), 'k');
    let batch = parse_prefixed_choice(input.as_str(), 'x');
    if !allow_kill && (kill.is_some() || batch.is_some()) {
        return TopAction::Refuse(Refusal::NotAllowed);
    }
    match kill {
        Some(choice) => {
            return match choice_index(choice, list.len()) {
                None => TopAction::Refuse(Refusal::OutOfRange),
                Some(i) => if risky[i] {
                    TopAction::ConfirmKill(i)
                } else {
                    TopAction::Refuse(Refusal::NotRisky)
                },
            };
        },
        None => {},
    }
    match batch {
        Some(choice) => {
            return match choice_index(choice, list.len()) {
                None => TopAction::Refuse(Refusal::OutOfRange),
                Some(i) => {
                    assert(all[i as int] == list@[i as int]@);
                    let name = list[i].name.as_str();
                    if is_protected_system_process(name) {
                        TopAction::Refuse(Refusal::Protected)
                    } else {
                        TopAction::ConfirmBatch(i, current_snapshot_name_matches(list, name))
                    }
                },
            };
        },
        None => {},
    }
    match parse_usize(input.as_str()) {
        Some(choice) => match choice_index(choice, list.len()) {
            Some(i) => {
                assert(all[i as int] == list@[i as int]@);
                TopAction::Pick(list[i].pid)
            },
            None => TopAction::Refresh,
        },
        None => TopAction::Refresh,
    }
}

/// What came of waiting for the user: a line, nothing in time, or the end of the input.
#[derive(Debug)]
pub enum Heard {
    Line(String),
    Nothing,
    End,
}

/// What comes of waiting below the list: without a line it is shown anew, and left at the end of
/// the input.
pub open spec fn next_action(
    heard: Heard,
    list: Seq<EntryView>,
    risky: Seq<bool>,
    allow_kill: bool,
) -> TopActionView {
    match heard {
        Heard::Line(line) => action(line@, list, risky, allow_kill),
        Heard::Nothing => TopActionView::Refresh,
        Heard::End => TopActionView::Quit,
    }
}

/// Decides what comes of waiting below the list.
pub fn decide_next(
    heard: &Heard,
    list: &Vec<ProcessEntry>,
    risky: &Vec<bool>,
    allow_kill: bool,
) -> (r: TopAction)
    requires
        risky@.len() == list@.len(),
    ensures
        r@ == next_action(*heard, process_snapshot::entries_of(list@), risky@, allow_kill),
{
    match heard {
        Heard::Line(line) => decide(line.as_str(), list, risky, allow_kill),
        Heard::Nothing => TopAction::Refresh,
        Heard::End => TopAction::Quit,
    }
}

/// The answer to a question.
#[derive(Clone, Copy, Debug, PartialEq, Eq, Structural)]
pub enum Answer {
    Yes,
    No,
    Missing,
}

/// The answer to a question: `y`, in either case, is a yes, and any other line a no.
pub open spec fn answer_in(heard: Heard) -> Answer {
    match heard {
        Heard::Line(line) => if is_letter(text::trimmed(line@), 'y') {
            Answer::Yes
        } else {
            Answer::No
        },
        _ => Answer::Missing,
    }
}

/// Reads the answer to a question.
pub fn read_answer(heard: &Heard) -> (r: Answer)
    ensures
        r == answer_in(*heard),
{
    match heard {
        Heard::Line(line) => {
            let answer = trim(line.as_str());
            if letter(answer.as_str(), 'y') {
                Answer::Yes
            } else {
                Answer::No
            }
        },
        _ => Answer::Missing,
    }
}

/// What is told when a question was not answered with yes.
pub open spec fn cancelled(answer: Answer) -> Seq<char> {
    if answer is Missing {
        "确认超时，已取消"@
    } else {
        "已取消"@
    }
}

/// Gives [`cancelled`].
pub fn cancel_text(answer: Answer) -> (r: &'static str)
    ensures
        r@ == cancelled(answer),
{
    match answer {
        Answer::Missing => "确认超时，已取消",
        _ => "已取消",
    }
}

/// Whatever the input, no process is ended unless that is allowed; a single one only if it counts
/// as a risk; several only if they are in the list under one name, which is not one of the system's.
pub proof fn ending_processes_needs_leave(
    line: Seq<char>,
    list: Seq<EntryView>,
    risky: Seq<bool>,
    allow_kill: bool,
)
    requires
        list.len() <= usize::MAX,
    ensures
        match action(line, list, risky, allow_kill) {
            TopActionView::ConfirmKill(i) => allow_kill && i < list.len() && risky[i as int],
            TopActionView::ConfirmBatch(i, pids) => {
                &&& allow_kill
                &&& i < list.len()
                &&& !process_snapshot::protected(list[i as int].name)
                &&& forall|k: int|
                    0 <= k < pids.len() ==> exists|j: int|
                        0 <= j < list.len() && (#[trigger] list[j]).pid == #[trigger] pids[k]
                            && list[j].name == list[i as int].name
            },
            _ => true,
        },
{
    match action(line, list, risky, allow_kill) {
        TopActionView::ConfirmBatch(i, pids) => {
            let keep = is_named(list[i as int].name);
            assert forall|k: int| 0 <= k < pids.len() implies exists|j: int|
                0 <= j < list.len() && (#[trigger] list[j]).pid == #[trigger] pids[k]
                    && list[j].name == list[i as int].name by {
                lists::lemma_filter_member(list, keep, k);
                let e = list.filter(keep)[k];
                let j = choose|j: int| 0 <= j < list.len() && list[j] == e;
                assert(list[j].pid == pids[k]);
            }
        },
        _ => {},
    }
}

// ---------------------------------------------------------------------------
// Limited processes
// ---------------------------------------------------------------------------

/// Whether a process is limited: a limiter that is alive holds it by its process id.
pub open spec fn is_limited(instances: Seq<InstanceView>, alive: Seq<bool>, pid: u32) -> bool {
    exists|i: int|
        0 <= i < instances.len() && alive[i] && (#[trigger] instances[i]).target
            == TargetView::Pid(pid)
}

/// Lists the processes that are limited, by which limiters are alive.
pub fn limited_target_pids(instances: &Vec<ManagedInstance>, alive: &Vec<bool>) -> (r: Vec<u32>)
    requires
        alive@.len() == instances@.len(),
    ensures
        forall|pid: u32| #[trigger]
            r@.contains(pid) <==> is_limited(model::instances_of(instances@), alive@, pid),
{
    let ghost all = model::instances_of(instances@);
    let mut out: Vec<u32> = Vec::new();
    let mut i: usize = 0;
    while i < instances.len()
        invariant
            i <= instances.len(),
            alive@.len() == instances@.len(),
            all == model::instances_of(instances@),
            forall|k: int|
                0 <= k < out@.len() ==> is_limited(all, alive@, #[trigger] out@[k]),
            forall|j: int, pid: u32|
                0 <= j < i && alive@[j] && (#[trigger] all[j]).target == TargetView::Pid(pid)
                    ==> #[trigger] out@.contains(pid),
        decreases instances.len() - i,
    {
        assert(all[i as int] == instances@[i as int]@);
        let ghost before = out@;
        match instances[i].target {
            ManagedTarget::Pid(pid) => {
                if alive[i] {
                    out.push(pid);
                    assert(out@[before.len() as int] == pid);
                    assert forall|x: u32| before.contains(x) implies out@.contains(x) by {
                        let k = choose|k: int| 0 <= k < before.len() && before[k] == x;
                        assert(out@[k] == x);
                    }
                }
            },
            ManagedTarget::Name(_) => {},
        }
        assert forall|j: int, pid: u32|
            0 <= j <= i && alive@[j] && (#[trigger] all[j]).target == TargetView::Pid(
                pid,
            ) implies #[trigger] out@.contains(pid) by {
            if j < i {
                assert(before.contains(pid));
            }
        }
        i += 1;
    }
    out
}

// ---------------------------------------------------------------------------
// What is shown
// ---------------------------------------------------------------------------

/// The prompt below the list. It speaks of ending processes only where that is allowed.
pub open spec fn prompt(refresh_secs: u64, allow_kill: bool) -> Seq<char> {
    "每"@ + text::decimal(refresh_secs as nat) + if allow_kill {
        "秒自动刷新，输入序号限速，k<序号>终止高风险进程，x<序号>批量终止同名进程，q退出，回车立即刷新: "@
    } else {
        "秒自动刷新，输入序号限速，q退出，回车立即刷新（终止命令需 --allow-kill）: "@
    }
}

/// Builds [`prompt`].
pub fn top_prompt(refresh_secs: u64, allow_kill: bool) -> (r: String)
    ensures
        r@ == prompt(refresh_secs, allow_kill),
{
    let secs = to_decimal(refresh_secs);
    let mut r = concat("每", secs.as_str());
    if allow_kill {
        r.append(
            "秒自动刷新，输入序号限速，k<序号>终止高风险进程，x<序号>批量终止同名进程，q退出，回车立即刷新: ",
        );
    } else {
        r.append("秒自动刷新，输入序号限速，q退出，回车立即刷新（终止命令需 --allow-kill）: ");
    }
    r
}

/// What is told of a refused input.
pub open spec fn refusal_text(why: Refusal) -> Seq<char> {
    match why {
        Refusal::NotAllowed => "终止命令需要显式传入 --allow-kill"@,
        Refusal::OutOfRange => "序号超出范围"@,
        Refusal::NotRisky => "该进程未被标记为高风险，无法通过 k 命令终止"@,
        Refusal::Protected => "系统进程不允许通过 x 命令批量终止"@,
    }
}

impl Refusal {
    /// What is told of a refused input.
    pub fn message(self) -> (r: &'static str)
        ensures
            r@ == refusal_text(self),
    {
        match self {
            Refusal::NotAllowed => "终止命令需要显式传入 --allow-kill",
            Refusal::OutOfRange => "序号超出范围",
            Refusal::NotRisky => "该进程未被标记为高风险，无法通过 k 命令终止",
            Refusal::Protected => "系统进程不允许通过 x 命令批量终止",
        }
    }
}

/// A name and its process id, as they are shown.
pub open spec fn name_and_pid(name: Seq<char>, pid: u32) -> Seq<char> {
    name + " (PID "@ + text::decimal(pid as nat) + ")"@
}

/// Builds [`name_and_pid`].
fn show_name_and_pid(name: &str, pid: u32) -> (r: String)
    ensures
        r@ == name_and_pid(name@, pid),
{
    let mut r = concat(name, " (PID ");
    let shown = to_decimal(pid as u64);
    r.append(shown.as_str());
    r.append(")");
    r
}

/// The question before a process is ended.
pub open spec fn kill_asked(name: Seq<char>, pid: u32) -> Seq<char> {
    "确认终止进程 "@ + name_and_pid(name, pid) + "? [y/N]: "@
}

/// Builds [`kill_asked`].
pub fn kill_question(name: &str, pid: u32) -> (r: String)
    ensures
        r@ == kill_asked(name@, pid),
{
    let shown = show_name_and_pid(name, pid);
    let mut r = concat("确认终止进程 ", shown.as_str());
    r.append("? [y/N]: ");
    r
}

/// What is told after an attempt to end a process, which may have failed for a reason.
pub open spec fn kill_text(name: Seq<char>, pid: u32, failure: Option<String>) -> Seq<char> {
    match failure {
        None => "已发送 SIGTERM 到进程 "@ + name_and_pid(name, pid),
        Some(cause) => "终止失败: "@ + cause@,
    }
}

/// Builds [`kill_text`].
pub fn kill_report(name: &str, pid: u32, failure: &Option<String>) -> (r: String)
    ensures
        r@ == kill_text(name@, pid, *failure),
{
    match failure {
        None => {
            let shown = show_name_and_pid(name, pid);
            concat("已发送 SIGTERM 到进程 ", shown.as_str())
        },
        Some(cause) => concat("终止失败: ", cause.as_str()),
    }
}

/// The question before several processes are ended.
pub open spec fn batch_asked(name: Seq<char>, pids: Seq<u32>) -> Seq<char> {
    "确认终止当前列表中 NAME 相同的 "@ + text::decimal(pids.len()) + " 个进程 \""@ + name
        + "\"? PIDs: "@ + text::joined(text::decimals(pids), ", "@) + " [y/N]: "@
}

/// Builds [`batch_asked`].
pub fn batch_question(name: &str, pids: &Vec<u32>) -> (r: String)
    ensures
        r@ == batch_asked(name@, pids@),
{
    let count = to_decimal(pids.len() as u64);
    let mut r = concat("确认终止当前列表中 NAME 相同的 ", count.as_str());
    r.append(" 个进程 \"");
    r.append(name);
    r.append("\"? PIDs: ");
    let list = number_list(pids);
    r.append(list.as_str());
    r.append(" [y/N]: ");
    r
}

/// The failures among the attempts to end processes, as they are shown.
pub open spec fn failures(pids: Seq<u32>, causes: Seq<Option<String>>, n: int) -> Seq<Seq<char>>
    decreases n,
{
    if n <= 0 {
        Seq::empty()
    } else {
        let rest = failures(pids, causes, n - 1);
        match causes[n - 1] {
            Some(cause) => rest.push("PID "@ + text::decimal(pids[n - 1] as nat) + ": "@ + cause@),
            None => rest,
        }
    }
}

/// What is told after an attempt to end several processes, each of which may have failed for a
/// reason.
pub open spec fn batch_text(pids: Seq<u32>, causes: Seq<Option<String>>) -> Seq<char> {
    let failed = failures(pids, causes, pids.len() as int);
    let sent = "已发送 SIGTERM 到 "@ + text::decimal((pids.len() - failed.len()) as nat)
        + " 个进程"@;
    if failed.len() == 0 {
        sent
    } else {
        sent + "，失败 "@ + text::decimal(failed.len()) + " 个: "@ + text::joined(failed, "; "@)
    }
}

/// Builds [`batch_text`].
pub fn batch_report(pids: &Vec<u32>, causes: &Vec<Option<String>>) -> (r: String)
    requires
        causes@.len() == pids@.len(),
    ensures
        r@ == batch_text(pids@, causes@),
{
    let mut failed: Vec<String> = Vec::new();
    let mut stopped: usize = 0;
    let mut i: usize = 0;
    assert(text::texts(failed@) =~= Seq::empty());
    while i < pids.len()
        invariant
            i <= pids.len(),
            causes@.len() == pids@.len(),
            text::texts(failed@) == failures(pids@, causes@, i as int),
            stopped + failed@.len() == i,
        decreases pids.len() - i,
    {
        match &causes[i] {
            Some(cause) => {
                let pid = to_decimal(pids[i] as u64);
                let mut line = concat("PID ", pid.as_str());
                line.append(": ");
                line.append(cause.as_str());
                let ghost before = failed@;
                failed.push(line);
                assert(text::texts(failed@) =~= text::texts(before).push(line@));
            },
            None => {
                stopped += 1;
            },
        }
        i += 1;
    }
    assert(text::texts(failed@).len() == failed@.len());
    let count = to_decimal(stopped as u64);
    let mut r = concat("已发送 SIGTERM 到 ", count.as_str());
    r.append(" 个进程");
    if failed.len() > 0 {
        r.append("，失败 ");
        let n = to_decimal(failed.len() as u64);
        r.append(n.as_str());
        r.append(" 个: ");
        assert(text::texts(failed@).skip(0) =~= text::texts(failed@));
        let list = text::join_from(&failed, 0, "; ");
        r.append(list.as_str());
    }
    r
}

/// The widths of the columns before the name.
pub open spec fn top_widths() -> Seq<usize> {
    seq![4usize, 8, 7, 8]
}

/// Builds [`top_widths`].
fn make_top_widths() -> (r: Vec<usize>)
    ensures
        r@ == top_widths(),
{
    let mut w: Vec<usize> = Vec::new();
    w.push(4);
    w.push(8);
    w.push(7);
    w.push(8);
    assert(w@ =~= top_widths());
    w
}

/// The line above the list.
pub fn top_header() -> (r: String)
    ensures
        r@ == output::row_of(seq!["#"@, "PID"@, "CPU"@, "LIMITED"@], top_widths()) + "  "@
            + output::fitted("RISK"@, 8) + "  NAME"@,
{
    let mut cells: Vec<String> = Vec::new();
    cells.push(owned("#"));
    cells.push(owned("PID"));
    cells.push(owned("CPU"));
    cells.push(owned("LIMITED"));
    assert(text::texts(cells@) =~= seq!["#"@, "PID"@, "CPU"@, "LIMITED"@]);
    let widths = make_top_widths();
    let mut r = row(&cells, &widths);
    r.append("  ");
    let risk = fit_col("RISK", 8);
    r.append(risk.as_str());
    r.append("  NAME");
    r
}

/// A line of the list: its number, the process, its load as text, and whether it is limited and
/// counts as a risk.
pub fn top_row(
    number: usize,
    entry: &ProcessEntry,
    cpu: &str,
    limited: bool,
    risky: bool,
) -> (r: String)
    ensures
        r@ == output::row_of(
            seq![
                text::decimal(number as nat),
                text::decimal(entry@.pid as nat),
                cpu@,
                if limited {
                    "YES"@
                } else {
                    Seq::empty()
                },
            ],
            top_widths(),
        ) + "  "@ + (if risky {
            "\u{1b}[33mHIGH\u{1b}[0m"@
        } else {
            output::fitted(Seq::empty(), 8)
        }) + "  "@ + entry@.name,
{
    let mut cells: Vec<String> = Vec::new();
    cells.push(to_decimal(number as u64));
    cells.push(to_decimal(entry.pid as u64));
    cells.push(owned(cpu));
    cells.push(
        if limited {
            owned("YES")
        } else {
            String::new()
        },
    );
    assert(text::texts(cells@) =~= seq![
        text::decimal(number as nat),
        text::decimal(entry@.pid as nat),
        cpu@,
        if limited {
            "YES"@
        } else {
            Seq::empty()
        },
    ]);
    let widths = make_top_widths();
    let mut r = row(&cells, &widths);
    r.append("  ");
    if risky {
        r.append("\u{1b}[33mHIGH\u{1b}[0m");
    } else {
        let blank = String::new();
        let pad = fit_col(blank.as_str(), 8);
        r.append(pad.as_str());
    }
    r.append("  ");
    r.append(entry.name.as_str());
    r
}

} // verus!
