//! Laws of what a user is told when something fails, and of what the operations begin with.

use vstd::prelude::*;

use crate::app::clean::{CleanAllStageView, CleanAllView, CleanManagedView, CleanStageView};
use crate::app::dialogue::{ErrorView, ReplyView};
use crate::app::limit::{LimitOnceView, LimitStageView};
use crate::app::limiters::Limiter;
use crate::app::plan;
use crate::app::plan::CommandLine;
use crate::app::service;
use crate::app::service::WatchOptions;
use crate::app::unwatch::{UnwatchStageView, UnwatchView};
use crate::app::watch::{WatchStageView, WatchView};
use crate::clock::Timestamp;
use crate::infra::jobs::JobErrorView;
use crate::infra::process_snapshot::ProcessEntry;
use crate::model::{Domain, ManagedInstance, Rule};
use crate::text;
use crate::text_laws::parts_stand_where_they_were_put;

verus! {

/// A message tells what went wrong: the cause and, where one limiter is concerned, its process id
/// before it; the name of the process, where that is in the way; all limiters that could not be
/// stopped.
pub proof fn messages_tell_the_cause(pid: u32, cause: Seq<char>, name: Seq<char>, pids: Seq<u32>)
    ensures
        ErrorView::Step(cause).message() == cause,
        text::has_part(
            (ErrorView::StopAdhoc { cpulimit_pid: pid, cause }).message(),
            text::decimal(pid as nat) + ": "@ + cause,
        ),
        text::has_part(
            (ErrorView::RemoveAdhoc { cpulimit_pid: pid, cause }).message(),
            text::decimal(pid as nat) + ": "@ + cause,
        ),
        text::has_part(
            (ErrorView::StopWatch { cpulimit_pid: pid, cause }).message(),
            text::decimal(pid as nat) + ": "@ + cause,
        ),
        text::has_part(ErrorView::ManyManaged(name).message(), name),
        text::has_part(ErrorView::Conflict(name).message(), name),
        text::has_part(
            ErrorView::NotStopped(pids).message(),
            text::joined(text::decimals(pids), ", "@),
        ),
{
    let shown = text::decimal(pid as nat);
    lemma_tail("stop managed ad-hoc cpulimit "@, shown, ": "@, cause);
    lemma_tail("remove managed ad-hoc state "@, shown, ": "@, cause);
    lemma_tail("stop watch cpulimit "@, shown, ": "@, cause);
    parts_stand_where_they_were_put(
        "multiple managed ad-hoc cpulimit instances match "@,
        name,
        ". run clean or stop them first"@,
    );
    parts_stand_where_they_were_put(
        "external cpulimit conflict detected for "@,
        name,
        ". stop it first or use --once"@,
    );
    lemma_at_end(
        "failed to stop managed cpulimit instance(s): "@,
        text::joined(text::decimals(pids), ", "@),
    );
}

/// What stands at the end of a text is a part of it.
proof fn lemma_at_end(a: Seq<char>, p: Seq<char>)
    ensures
        text::has_part(a + p, p),
{
    let none: Seq<char> = Seq::empty();
    parts_stand_where_they_were_put(a, p, none);
    assert(a + p + none =~= a + p);
}

/// The last three parts of a text are a part of it.
proof fn lemma_tail(a: Seq<char>, x: Seq<char>, y: Seq<char>, z: Seq<char>)
    ensures
        text::has_part(a + x + y + z, x + y + z),
{
    lemma_at_end(a, x + y + z);
    lemma_regroup(a, x + y, z);
    lemma_regroup(a, x, y);
}

proof fn lemma_regroup(a: Seq<char>, b: Seq<char>, c: Seq<char>)
    ensures
        a + (b + c) == a + b + c,
{
    assert(a + (b + c) =~= a + b + c);
}

/// A cause is a part of every message about it.
proof fn lemma_cause(pid: u32, cause: Seq<char>)
    ensures
        text::has_part(ErrorView::Step(cause).message(), cause),
        text::has_part((ErrorView::StopAdhoc { cpulimit_pid: pid, cause }).message(), cause),
        text::has_part((ErrorView::RemoveAdhoc { cpulimit_pid: pid, cause }).message(), cause),
        text::has_part((ErrorView::StopWatch { cpulimit_pid: pid, cause }).message(), cause),
{
    let none: Seq<char> = Seq::empty();
    lemma_at_end(none, cause);
    assert(none + cause =~= cause);
    lemma_at_end("stop managed ad-hoc cpulimit "@ + text::decimal(pid as nat) + ": "@, cause);
    lemma_at_end("remove managed ad-hoc state "@ + text::decimal(pid as nat) + ": "@, cause);
    lemma_at_end("stop watch cpulimit "@ + text::decimal(pid as nat) + ": "@, cause);
}

/// What a failure of launchd is told with: the agent's label and the cause.
pub proof fn job_messages_tell_the_cause(label: Seq<char>, cause: Seq<char>)
    ensures
        JobErrorView::Step(cause).message() == cause,
        text::has_part(
            (JobErrorView::Refresh { label, cause }).message(),
            label + ": "@ + cause,
        ),
        text::has_part((JobErrorView::Remove { label, cause }).message(), label + ": "@ + cause),
{
    lemma_tail("refresh launchd agent "@, label, ": "@, cause);
    lemma_tail("remove launchd agent "@, label, ": "@, cause);
}

/// A watch that a failure ends, at once or once the rules are put back, tells the cause of the
/// failure. A process that cannot be asked for its name or its command line is no failure.
pub proof fn failed_watches_tell_the_cause(v: WatchView, cause: Seq<char>, now: Timestamp)
    requires
        v.asks() is Some,
        v.stage !is Restore,
        v.stage !is Match,
    ensures
        ({
            let u = v.answered(ReplyView::Failed(cause), now);
            match u.stage {
                WatchStageView::Over(Err(e)) => text::has_part(e.message(), cause),
                WatchStageView::Restore { before, error } => text::has_part(error.message(), cause),
                _ => false,
            }
        }),
{
    match v.stage {
        WatchStageView::Stop { before, cpulimit_pid, rule } => {
            lemma_cause(cpulimit_pid, cause);
        },
        WatchStageView::ReloadState { before, cpulimit_pid, rule } => {
            lemma_cause(cpulimit_pid, cause);
        },
        WatchStageView::SaveState { before, cpulimit_pid, state, rule } => {
            lemma_cause(cpulimit_pid, cause);
        },
        _ => {
            lemma_cause(0, cause);
        },
    }
}

/// The end of a watch that a failure ends, at once or once the rules are put back, tells the cause
/// of the failure. A process that cannot be asked for its name is no failure.
pub proof fn failed_unwatches_tell_the_cause(v: UnwatchView, cause: Seq<char>)
    requires
        v.asks() is Some,
        v.stage !is Restore,
        v.stage !is Match,
        v.stage !is Rematch,
    ensures
        match v.answered(ReplyView::Failed(cause)).stage {
            UnwatchStageView::Over(Err(e)) => text::has_part(e.message(), cause),
            UnwatchStageView::Restore { before, error } => text::has_part(error.message(), cause),
            _ => false,
        },
{
    match v.stage {
        UnwatchStageView::Stop { before, state, pids, stopped } => {
            lemma_cause(pids[stopped as int], cause);
        },
        _ => {
            lemma_cause(0, cause);
        },
    }
}

/// A one-time limit that a failure ends tells its cause; so does a clean-up that cannot read or save.
pub proof fn other_failures_tell_the_cause(
    v: LimitOnceView,
    c: CleanManagedView,
    a: CleanAllView,
    cause: Seq<char>,
    named_at: Timestamp,
    started_at: Timestamp,
)
    ensures
        v.asks() is Some ==> v.answered(ReplyView::Failed(cause), named_at, started_at).stage
            == LimitStageView::Over(Err(ErrorView::Step(cause))),
        c.stage is Load || c.stage is Save ==> c.answered(ReplyView::Failed(cause)).stage
            == CleanStageView::Over(Err(ErrorView::Step(cause))),
        a.stage is LoadRules || a.stage is Reload || a.stage is SaveRules || a.stage
            is CleanWatches ==> a.answered(ReplyView::Failed(cause)).stage
            == CleanAllStageView::Over(Err(ErrorView::Step(cause))),
        a.stage is RemoveAgent ==> (a.answered(ReplyView::Failed(cause)).stage matches
            CleanAllStageView::Restore { before, error } && error == ErrorView::Step(cause)),
{
}

/// The rule that is written for a watch is the one that the user wants, in the domain given.
pub proof fn wishes_become_rules(options: WatchOptions<'_>, domain: Domain)
    ensures
        ({
            let u = service::wanted_rule(options, domain);
            &&& u.name == options.name@
            &&& u.limit == options.limit
            &&& u.trigger_cpu == options.trigger_cpu
            &&& u.release_cpu == options.release_cpu
            &&& u.domain == domain
            &&& options.args_contains is None ==> u.args_contains is None
            &&& options.args_contains matches Some(part) ==> u.args_contains == Some(part@)
        }),
{
}

/// A tick goes by everything that was read for it: every rule, every process, every instance, every
/// limiter and every command line, in their order.
pub proof fn ticks_see_everything(
    domain: Domain,
    rules: Seq<Rule>,
    snapshot: Seq<ProcessEntry>,
    instances: Seq<ManagedInstance>,
    running: Seq<Limiter>,
    lines: Seq<CommandLine>,
)
    ensures
        ({
            let seen = plan::sighting(domain, rules, snapshot, instances, running, lines);
            &&& seen.domain == domain
            &&& seen.rules.len() == rules.len()
            &&& forall|i: int| 0 <= i < rules.len() ==> #[trigger] seen.rules[i] == rules[i]@
            &&& seen.snapshot.len() == snapshot.len()
            &&& forall|i: int|
                0 <= i < snapshot.len() ==> #[trigger] seen.snapshot[i] == snapshot[i]@
            &&& seen.instances.len() == instances.len()
            &&& forall|i: int|
                0 <= i < instances.len() ==> #[trigger] seen.instances[i] == instances[i]@
            &&& seen.limiters == running
            &&& seen.lines.len() == lines.len()
            &&& forall|i: int| 0 <= i < lines.len() ==> #[trigger] seen.lines[i] == lines[i]@
        }),
{
}

} // verus!
