//! What every tick of the agent keeps, whatever it is told.

use vstd::prelude::*;

use crate::app::agent;
use crate::app::agent::{
    AgentTickActivity, TargetRuntime, COLD_REQUIRED_SAMPLES, HOT_REQUIRED_SAMPLES,
    MAX_WATCH_INSTANCES,
};
use crate::app::limiters;
use crate::app::plan;
use crate::app::plan::{PlanView, Sighting};
use crate::app::tick;
use crate::app::tick::{Stage, TickReply, TickRequestView, TickView};
use crate::clock::Moment;
use crate::lists;
use crate::model::{InstanceView, RuleView};

verus! {

/// A tick after a series of replies.
pub open spec fn after(
    plan: PlanView,
    targets: Map<u32, TargetRuntime>,
    replies: Seq<TickReply>,
) -> TickView
    decreases replies.len(),
{
    if replies.len() == 0 {
        tick::begun(plan, targets)
    } else {
        after(plan, targets, replies.drop_last()).answered(replies.last())
    }
}

/// What justifies a limiter on the candidate at hand: it is hot, has none, is not left alone, and
/// has been hot often enough; and the agent can keep another one.
pub open spec fn is_justified(t: TickView) -> bool {
    &&& t.is_hot()
    &&& t.is_free()
    &&& !t.is_backed_off()
    &&& t.recalled(t.candidate().pid).hot_samples >= HOT_REQUIRED_SAMPLES
}

/// What justifies letting the target at hand go: it is no longer what its rule names, or it has
/// been cold often enough.
pub open spec fn is_released(t: TickView) -> bool {
    &&& t.item().load is Some
    &&& t.item().hold is Some
    &&& t.item().hold->0.still_matches ==> t.recalled(t.item().target_pid).cold_samples
        >= COLD_REQUIRED_SAMPLES && t.item().load->0.is_at_most(t.item().hold->0.release_cpu)
}

/// Whether no candidate before position `n` is the process `pid`.
pub open spec fn unseen(plan: PlanView, pid: u32, n: int) -> bool {
    forall|j: int| 0 <= j < n && j < plan.candidates.len() ==> (#[trigger] plan.candidates[j]).pid != pid
}

/// Whether every candidate before position `n` is below its trigger.
pub open spec fn all_quiet(plan: PlanView, n: int) -> bool {
    forall|j: int|
        0 <= j < n && j < plan.candidates.len() ==> (#[trigger] plan.candidates[j]).cpu.is_below(
            plan.candidates[j].trigger_cpu,
        )
}

/// Hot samples of `pid` at this point of a tick that began with `before` of them, when the process
/// was not a candidate earlier.
pub open spec fn expected_hot(t: TickView, pid: u32, before: u8) -> u8 {
    if t.on_candidates() && t.candidate().pid == pid {
        agent::one_more(before)
    } else {
        before
    }
}

/// What holds of a tick under way that began with `targets`.
pub open spec fn sound(t: TickView, plan: PlanView, targets: Map<u32, TargetRuntime>) -> bool {
    &&& t.plan == plan
    &&& t.well_formed()
    &&& t.active <= plan.items.len() || t.active <= MAX_WATCH_INSTANCES
    &&& t.on_candidates() ==> is_justified(t) && t.activity is Hot
    &&& t.stage is StopReleased || t.stage is ForgetReleased ==> is_released(t)
    &&& t.stage is StopLost ==> t.item().load is None || t.item().hold is None
    &&& t.stage is Over ==> forall|pid: u32| #[trigger]
        t.targets.contains_key(pid) ==> plan.present.contains(pid) || agent::backed_off(
            t.targets[pid],
            plan.now,
        )
    &&& !t.on_items() && t.activity is Idle ==> all_quiet(plan, t.at as int)
    &&& forall|pid: u32|
        #![trigger t.recalled(pid)]
        !(t.stage is Over) && (t.on_items() || unseen(plan, pid, t.at as int)) ==> t.recalled(
            pid,
        ).hot_samples == expected_hot(t, pid, agent::recalled(targets, pid).hot_samples)
}

/// What looking for the next candidate keeps and finds.
pub proof fn lemma_to_candidate(t: TickView, c: nat)
    requires
        c <= t.plan.candidates.len(),
    ensures
        ({
            let u = t.to_candidate(c);
            &&& u.plan == t.plan
            &&& u.active == t.active
            &&& u.limited == t.limited
            &&& u.well_formed()
            &&& u.stage is Start || u.stage is Over
            &&& c <= u.at
            &&& u.stage is Start ==> is_justified(u) && u.activity is Hot
            &&& u.activity is Idle ==> t.activity is Idle && (forall|j: int|
                c <= j < u.at && j < t.plan.candidates.len() ==> (
                #[trigger] t.plan.candidates[j]).cpu.is_below(t.plan.candidates[j].trigger_cpu))
            &&& u.stage is Over ==> forall|pid: u32| #[trigger]
                u.targets.contains_key(pid) ==> t.plan.present.contains(pid) || agent::backed_off(
                    u.targets[pid],
                    t.plan.now,
                )
            &&& forall|pid: u32|
                #![trigger u.recalled(pid)]
                u.stage is Start && (forall|j: int|
                    c <= j < u.at ==> (#[trigger] t.plan.candidates[j]).pid != pid)
                    ==> u.recalled(pid).hot_samples == expected_hot(
                    u,
                    pid,
                    t.recalled(pid).hot_samples,
                )
            &&& forall|pid: u32|
                #![trigger u.recalled(pid)]
                agent::backed_off(t.recalled(pid), t.plan.now) ==> u.recalled(pid).backoff_until
                    == t.recalled(pid).backoff_until
        }),
    decreases t.plan.candidates.len() - c,
{
    let here = TickView { at: c, ..t };
    let u = t.to_candidate(c);
    if c < t.plan.candidates.len() && !here.is_due() {
        lemma_to_candidate(here.sampled(), c + 1);
        let next = here.sampled();
        assert forall|pid: u32|
            #![trigger u.recalled(pid)]
            u.stage is Start && (forall|j: int|
                c <= j < u.at ==> (#[trigger] t.plan.candidates[j]).pid
                    != pid) implies u.recalled(pid).hot_samples == expected_hot(
            u,
            pid,
            t.recalled(pid).hot_samples,
        ) by {
            assert(t.plan.candidates[c as int].pid != pid);
            assert(next.recalled(pid) == t.recalled(pid));
        }
        assert forall|pid: u32|
            #![trigger u.recalled(pid)]
            agent::backed_off(t.recalled(pid), t.plan.now) implies u.recalled(pid).backoff_until
            == t.recalled(pid).backoff_until by {
            assert(next.recalled(pid).backoff_until == t.recalled(pid).backoff_until);
        }
    }
}

/// Going to a recorded limiter keeps a tick sound.
proof fn lemma_to_item(t: TickView, i: nat, plan: PlanView, targets: Map<u32, TargetRuntime>)
    requires
        t.plan == plan,
        i <= plan.items.len(),
        t.active <= i,
        forall|pid: u32| #[trigger]
            t.recalled(pid).hot_samples == agent::recalled(targets, pid).hot_samples,
    ensures
        sound(t.to_item(i), plan, targets),
{
    let u = t.to_item(i);
    if i < plan.items.len() {
        assert forall|pid: u32| #[trigger] u.recalled(pid) == t.recalled(pid) by {}
    } else {
        lemma_to_candidate(t, 0);
        assert forall|pid: u32|
            #![trigger u.recalled(pid)]
            !(u.stage is Over) && unseen(plan, pid, u.at as int) implies u.recalled(
            pid,
        ).hot_samples == expected_hot(u, pid, agent::recalled(targets, pid).hot_samples) by {
            assert(t.recalled(pid).hot_samples == agent::recalled(targets, pid).hot_samples);
        }
    }
}

/// A reply keeps a tick sound.
proof fn lemma_answered(
    t: TickView,
    reply: TickReply,
    plan: PlanView,
    targets: Map<u32, TargetRuntime>,
)
    requires
        sound(t, plan, targets),
    ensures
        sound(t.answered(reply), plan, targets),
{
    let u = t.answered(reply);
    if t.on_items() {
        assert forall|pid: u32| true implies #[trigger] t.recalled(pid).hot_samples
            == agent::recalled(targets, pid).hot_samples by {}
        let pushed = TickView { outcomes: t.outcomes.push(reply is Done), ..t };
        let cleared = TickView { outcomes: Seq::empty(), ..t };
        lemma_same_memory(t, pushed, plan, targets);
        lemma_same_memory(t, cleared, plan, targets);
        if t.stage is Probe {
            lemma_cleared(cleared, plan, targets);
        } else if t.stage is ClearOrphans || t.stage is ClearDuplicates {
            lemma_cleared(pushed, plan, targets);
        }
        match t.stage {
            Stage::StopLost | Stage::StopReleased => {
                lemma_same_memory(t, t, plan, targets);
                lemma_to_item(t, t.at + 1, plan, targets);
            },
            Stage::ForgetLost => {
                lemma_same_memory(t, t.without_one(), plan, targets);
                lemma_to_item(t.without_one(), t.at + 1, plan, targets);
            },
            Stage::ForgetReleased => {
                lemma_same_memory(t, t.without_one().freed(), plan, targets);
                lemma_to_item(t.without_one().freed(), t.at + 1, plan, targets);
            },
            Stage::Record => {
                lemma_recorded(t, plan, targets);
            },
            _ => {},
        }
    } else if t.on_candidates() {
        let pid = t.candidate().pid;
        match t.stage {
            Stage::Start => {
                if !(reply is Started) {
                    lemma_next_candidate(t, t.leaving_alone(pid, 0), plan, targets);
                }
            },
            Stage::Remember(_) => {
                if reply is Done {
                    lemma_next_candidate(t, t.with_new(), plan, targets);
                }
            },
            _ => {
                lemma_next_candidate(t, t.leaving_alone(pid, 0), plan, targets);
            },
        }
    }
    if u.stage !is Over && (t.stage is Probe || t.stage is StopLost || t.stage is StopReleased
        || t.stage is Start || t.stage is Remember) && u.at == t.at && u.targets == t.targets {
        assert forall|p: u32| #[trigger] u.recalled(p) == t.recalled(p) by {}
    }
}

/// Clearing limiters away keeps a tick sound.
proof fn lemma_cleared(t: TickView, plan: PlanView, targets: Map<u32, TargetRuntime>)
    requires
        t.plan == plan,
        t.at < plan.items.len(),
        t.active <= t.at + 1,
        t.outcomes.len() <= t.item().duplicates.len(),
        forall|pid: u32| #[trigger]
            t.recalled(pid).hot_samples == agent::recalled(targets, pid).hot_samples,
    ensures
        sound(t.clearing_orphans(), plan, targets),
        t.item().load is Some && t.item().hold is Some ==> sound(
            t.clearing_duplicates(),
            plan,
            targets,
        ),
{
    let failed = limiters::failed_pids(t.item().duplicates, t.outcomes);
    let warned = TickView {
        warnings: t.warnings.push(tick::cleanup_warning(t.item().target_pid, failed)),
        ..t
    };
    assert forall|pid: u32| #[trigger] warned.recalled(pid) == t.recalled(pid) by {}
    lemma_to_item(t, t.at + 1, plan, targets);
    lemma_to_item(warned, t.at + 1, plan, targets);
    let o = t.clearing_orphans();
    let d = t.clearing_duplicates();
    assert forall|pid: u32| t.recalled(pid).hot_samples == #[trigger] t.leaving_alone(
        t.item().target_pid,
        t.recalled(t.item().target_pid).hot_samples,
    ).recalled(pid).hot_samples by {}
    assert(o.on_items() ==> forall|pid: u32| #[trigger]
        o.recalled(pid).hot_samples == t.recalled(pid).hot_samples);
    assert(d.on_items() ==> forall|pid: u32| #[trigger]
        d.recalled(pid).hot_samples == t.recalled(pid).hot_samples);
}

/// Recording a load keeps a tick sound.
proof fn lemma_recorded(t: TickView, plan: PlanView, targets: Map<u32, TargetRuntime>)
    requires
        sound(t, plan, targets),
        t.stage is Record,
    ensures
        sound(t.recorded(), plan, targets),
{
    let pid = t.item().target_pid;
    let known = t.recalled(pid);
    let counted = TickView {
        activity: if t.item().load->0.is_at_most(t.item().hold->0.release_cpu) {
            t.activity
        } else {
            AgentTickActivity::Hot
        },
        ..t.keeping(pid, TargetRuntime { cold_samples: t.cold_samples(), ..known })
    };
    assert forall|p: u32| #[trigger] counted.recalled(p).hot_samples == agent::recalled(
        targets,
        p,
    ).hot_samples by {
        assert(counted.recalled(p).hot_samples == t.recalled(p).hot_samples);
    }
    lemma_to_item(counted, t.at + 1, plan, targets);
    let u = t.recorded();
    assert(u.stage is StopReleased ==> forall|p: u32| #[trigger]
        u.recalled(p).hot_samples == t.recalled(p).hot_samples);
}

/// Leaving the candidate at hand keeps a tick sound.
proof fn lemma_next_candidate(
    t: TickView,
    u: TickView,
    plan: PlanView,
    targets: Map<u32, TargetRuntime>,
)
    requires
        sound(t, plan, targets),
        t.on_candidates(),
        u.plan == plan,
        u.at == t.at,
        u.activity == t.activity,
        u.active <= MAX_WATCH_INSTANCES,
        forall|pid: u32|
            pid != t.candidate().pid ==> #[trigger] u.recalled(pid) == t.recalled(pid),
    ensures
        sound(u.next_candidate(), plan, targets),
{
    lemma_to_candidate(u, u.at + 1);
    let v = u.next_candidate();
    assert forall|pid: u32|
        #![trigger v.recalled(pid)]
        !(v.stage is Over) && unseen(plan, pid, v.at as int) implies v.recalled(pid).hot_samples
        == expected_hot(v, pid, agent::recalled(targets, pid).hot_samples) by {
        assert(plan.candidates[t.at as int].pid != pid);
        assert(u.recalled(pid) == t.recalled(pid));
        assert(unseen(plan, pid, t.at as int));
    }
}

/// Ticks with the same memory agree on what they recall.
proof fn lemma_same_memory(
    t: TickView,
    u: TickView,
    plan: PlanView,
    targets: Map<u32, TargetRuntime>,
)
    requires
        sound(t, plan, targets),
        t.on_items(),
        u.targets == t.targets,
    ensures
        forall|pid: u32| #[trigger]
            u.recalled(pid).hot_samples == agent::recalled(targets, pid).hot_samples,
{
    assert forall|pid: u32| #[trigger] u.recalled(pid).hot_samples == agent::recalled(
        targets,
        pid,
    ).hot_samples by {
        assert(u.recalled(pid) == t.recalled(pid));
    }
}

/// Every tick under way is sound.
pub proof fn lemma_always_sound(
    plan: PlanView,
    targets: Map<u32, TargetRuntime>,
    replies: Seq<TickReply>,
)
    ensures
        sound(after(plan, targets, replies), plan, targets),
    decreases replies.len(),
{
    if replies.len() == 0 {
        let t = TickView {
            plan,
            targets,
            limited: Set::empty(),
            active: 0,
            activity: AgentTickActivity::Idle,
            stage: Stage::Over,
            at: 0,
            outcomes: Seq::empty(),
            warnings: Seq::empty(),
        };
        assert forall|pid: u32| #[trigger] t.recalled(pid) == agent::recalled(targets, pid) by {}
        lemma_to_item(t, 0, plan, targets);
    } else {
        lemma_always_sound(plan, targets, replies.drop_last());
        lemma_answered(
            after(plan, targets, replies.drop_last()),
            replies.last(),
            plan,
            targets,
        );
    }
}

/// Whatever a tick is told, it starts a limiter only on a candidate that is hot, has no limiter,
/// is not left alone and has been hot often enough, and only while the agent keeps fewer limiters
/// than it may.
pub proof fn limiters_start_with_cause(
    plan: PlanView,
    targets: Map<u32, TargetRuntime>,
    replies: Seq<TickReply>,
)
    ensures
        ({
            let t = after(plan, targets, replies);
            t.asks() matches Some(TickRequestView::Start { target_pid, limit }) ==> {
                &&& t.at < plan.candidates.len()
                &&& t.candidate() == plan.candidates[t.at as int]
                &&& t.candidate().pid == target_pid
                &&& t.candidate().limit == limit
                &&& is_justified(t)
            }
        }),
{
    lemma_always_sound(plan, targets, replies);
}

/// A process gets a limiter the first time that a tick meets it as a candidate only if the agent
/// remembers a hot sample of it from an earlier tick: one hot sample starts nothing.
pub proof fn one_hot_sample_starts_nothing(
    plan: PlanView,
    targets: Map<u32, TargetRuntime>,
    replies: Seq<TickReply>,
)
    ensures
        ({
            let t = after(plan, targets, replies);
            t.stage is Start && unseen(plan, t.candidate().pid, t.at as int) ==> agent::recalled(
                targets,
                t.candidate().pid,
            ).hot_samples >= 1
        }),
{
    lemma_always_sound(plan, targets, replies);
    let t = after(plan, targets, replies);
    let pid = t.candidate().pid;
    if t.stage is Start && unseen(plan, pid, t.at as int) {
        assert(t.recalled(pid).hot_samples == expected_hot(
            t,
            pid,
            agent::recalled(targets, pid).hot_samples,
        ));
    }
}

/// The agent never counts more limiters than it found recorded, or than it may keep.
pub proof fn limiters_stay_bounded(
    plan: PlanView,
    targets: Map<u32, TargetRuntime>,
    replies: Seq<TickReply>,
)
    ensures
        after(plan, targets, replies).active <= plan.items.len() || after(
            plan,
            targets,
            replies,
        ).active <= MAX_WATCH_INSTANCES,
{
    lemma_always_sound(plan, targets, replies);
}

/// A tick stops only the limiter that it looks after, one that doubles it, or one that it has just
/// started. It stops the first only when the limiter has lost its target or its rule, or when the
/// target is released: no longer what the rule names, or cold often enough.
pub proof fn limiters_stop_with_cause(
    plan: PlanView,
    targets: Map<u32, TargetRuntime>,
    replies: Seq<TickReply>,
)
    ensures
        ({
            let t = after(plan, targets, replies);
            t.asks() matches Some(TickRequestView::Stop { cpulimit_pid }) ==> {
                ||| t.on_items() && t.item().duplicates.contains(cpulimit_pid)
                ||| t.stage == Stage::Undo(cpulimit_pid)
                ||| t.on_items() && t.item().cpulimit_pid == cpulimit_pid && (t.item().load is None
                    || t.item().hold is None || is_released(t))
            }
        }),
{
    lemma_always_sound(plan, targets, replies);
    let t = after(plan, targets, replies);
    if t.stage is ClearOrphans || t.stage is ClearDuplicates {
        assert(t.item().duplicates.contains(t.item().duplicates[t.outcomes.len() as int]));
    }
}

/// A limiter that could not be stopped stays recorded: the tick goes on to the next one.
pub proof fn failed_stop_keeps_the_record(t: TickView, reply: TickReply)
    requires
        t.stage is StopLost || t.stage is StopReleased,
        t.well_formed(),
        !(reply is Done),
    ensures
        t.answered(reply) == t.next_item(),
        !(t.answered(reply).asks() is Some && t.answered(reply).asks()->0 is Forget),
{
    if t.at + 1 >= t.plan.items.len() {
        lemma_to_candidate(t, 0);
    }
}

/// A process on which no limiter could be started is left alone until the deadline.
pub proof fn failed_start_backs_off(t: TickView, reply: TickReply)
    requires
        t.stage is Start,
        t.well_formed(),
        !(reply is Started),
        t.plan.deadline.is_after(t.plan.now),
    ensures
        t.answered(reply).recalled(t.candidate().pid).backoff_until == Some(t.plan.deadline),
        t.answered(reply).stage is Start ==> t.answered(reply).candidate().pid
            != t.candidate().pid,
{
    let u = t.leaving_alone(t.candidate().pid, 0);
    lemma_to_candidate(u, t.at + 1);
    assert(u.recalled(t.candidate().pid).backoff_until == Some(t.plan.deadline));
    let v = u.next_candidate();
    assert(v.recalled(t.candidate().pid).backoff_until == Some(t.plan.deadline));
}

// ---------------------------------------------------------------------------
// Several ticks
// ---------------------------------------------------------------------------

/// A tick, and the replies that it got.
pub struct TickRun {
    pub plan: PlanView,
    pub replies: Seq<TickReply>,
}

/// What the agent remembers after a series of ticks that began with `targets`.
pub open spec fn remembered(targets: Map<u32, TargetRuntime>, runs: Seq<TickRun>) -> Map<
    u32,
    TargetRuntime,
>
    decreases runs.len(),
{
    if runs.len() == 0 {
        targets
    } else {
        after(
            runs.last().plan,
            remembered(targets, runs.drop_last()),
            runs.last().replies,
        ).targets
    }
}

/// Whether a process is to be left alone until `until` at least.
pub open spec fn is_left_alone(
    targets: Map<u32, TargetRuntime>,
    pid: u32,
    until: Moment,
) -> bool {
    agent::recalled(targets, pid).backoff_until matches Some(u) && !until.is_after(u)
}

/// Whether a tick takes place before `until`, and leaves alone what it leaves alone until then at
/// least. The second can fail only when the clock was set back, or in a leap second.
pub open spec fn is_before(plan: PlanView, until: Moment) -> bool {
    until.is_after(plan.now) && !until.is_after(plan.deadline)
}

/// Whether a tick leaves a process alone.
spec fn leaves(t: TickView, pid: u32, until: Moment) -> bool {
    &&& is_left_alone(t.targets, pid, until)
    &&& t.stage is Start ==> t.candidate().pid != pid
}

/// Going to a candidate leaves a process alone.
proof fn lemma_candidate_leaves(t: TickView, c: nat, pid: u32, until: Moment)
    requires
        c <= t.plan.candidates.len(),
        is_left_alone(t.targets, pid, until),
        is_before(t.plan, until),
    ensures
        leaves(t.to_candidate(c), pid, until),
{
    lemma_to_candidate(t, c);
    let u = t.to_candidate(c);
    assert(agent::backed_off(t.recalled(pid), t.plan.now));
    assert(u.recalled(pid).backoff_until == t.recalled(pid).backoff_until);
}

/// Going to a recorded limiter leaves a process alone.
proof fn lemma_item_leaves(t: TickView, i: nat, pid: u32, until: Moment)
    requires
        is_left_alone(t.targets, pid, until),
        is_before(t.plan, until),
    ensures
        leaves(t.to_item(i), pid, until),
{
    if i >= t.plan.items.len() {
        lemma_candidate_leaves(t, 0, pid, until);
    }
}

/// A reply lets a tick leave a process alone.
proof fn lemma_reply_leaves(t: TickView, reply: TickReply, pid: u32, until: Moment)
    requires
        t.well_formed(),
        leaves(t, pid, until),
        is_before(t.plan, until),
    ensures
        leaves(t.answered(reply), pid, until),
{
    if t.on_items() {
        let next = t.at + 1;
        let target = t.item().target_pid;
        let pushed = TickView { outcomes: t.outcomes.push(reply is Done), ..t };
        let cleared = TickView { outcomes: Seq::empty(), ..t };
        let failed = limiters::failed_pids(t.item().duplicates, pushed.outcomes);
        let none = limiters::failed_pids(t.item().duplicates, cleared.outcomes);
        let warning = tick::cleanup_warning(target, failed);
        let counted = t.keeping(
            target,
            TargetRuntime { cold_samples: t.cold_samples(), ..t.recalled(target) },
        );
        lemma_item_leaves(t, next, pid, until);
        lemma_item_leaves(pushed, next, pid, until);
        lemma_item_leaves(cleared, next, pid, until);
        lemma_item_leaves(t.without_one(), next, pid, until);
        lemma_item_leaves(t.without_one().freed(), next, pid, until);
        lemma_item_leaves(counted, next, pid, until);
        lemma_item_leaves(
            TickView { activity: AgentTickActivity::Hot, ..counted },
            next,
            pid,
            until,
        );
        lemma_item_leaves(
            TickView { warnings: t.warnings.push(warning), ..pushed },
            next,
            pid,
            until,
        );
        lemma_item_leaves(
            TickView {
                warnings: t.warnings.push(tick::cleanup_warning(target, none)),
                ..cleared
            },
            next,
            pid,
            until,
        );
    } else if t.on_candidates() {
        lemma_candidate_leaves(t.leaving_alone(t.candidate().pid, 0), t.at + 1, pid, until);
        lemma_candidate_leaves(t.with_new(), t.at + 1, pid, until);
    }
}

/// A tick leaves a process alone that it is to leave alone.
proof fn lemma_tick_leaves(
    plan: PlanView,
    targets: Map<u32, TargetRuntime>,
    replies: Seq<TickReply>,
    pid: u32,
    until: Moment,
)
    requires
        is_left_alone(targets, pid, until),
        is_before(plan, until),
    ensures
        leaves(after(plan, targets, replies), pid, until),
    decreases replies.len(),
{
    if replies.len() == 0 {
        let t = TickView {
            plan,
            targets,
            limited: Set::empty(),
            active: 0,
            activity: AgentTickActivity::Idle,
            stage: Stage::Over,
            at: 0,
            outcomes: Seq::empty(),
            warnings: Seq::empty(),
        };
        lemma_item_leaves(t, 0, pid, until);
    } else {
        lemma_tick_leaves(plan, targets, replies.drop_last(), pid, until);
        lemma_always_sound(plan, targets, replies.drop_last());
        lemma_reply_leaves(
            after(plan, targets, replies.drop_last()),
            replies.last(),
            pid,
            until,
        );
    }
}

/// A process that is to be left alone is left alone by every tick until that time, whether it is
/// there in between or not, and whatever the ticks are told, as long as none of them has an earlier
/// deadline.
pub proof fn targets_stay_left_alone(
    targets: Map<u32, TargetRuntime>,
    runs: Seq<TickRun>,
    pid: u32,
    until: Moment,
)
    requires
        is_left_alone(targets, pid, until),
        forall|i: int| 0 <= i < runs.len() ==> is_before((#[trigger] runs[i]).plan, until),
    ensures
        is_left_alone(remembered(targets, runs), pid, until),
        runs.len() > 0 ==> !is_tried(
            after(
                runs.last().plan,
                remembered(targets, runs.drop_last()),
                runs.last().replies,
            ),
            pid,
        ),
    decreases runs.len(),
{
    if runs.len() > 0 {
        let before = runs.drop_last();
        assert forall|i: int| 0 <= i < before.len() implies is_before(
            (#[trigger] before[i]).plan,
            until,
        ) by {
            assert(before[i] == runs[i]);
        }
        targets_stay_left_alone(targets, before, pid, until);
        assert(runs.last() == runs[runs.len() - 1]);
        lemma_tick_leaves(
            runs.last().plan,
            remembered(targets, before),
            runs.last().replies,
            pid,
            until,
        );
    }
}

/// Whether a reply makes a tick give a process up for now: no limiter could be started on it, or the
/// one that was could not be recorded; or its recorded limiter was found dead, with the process
/// there, and no other one is left on it.
pub open spec fn is_given_up(t: TickView, reply: TickReply, pid: u32) -> bool {
    match t.stage {
        Stage::Start => t.candidate().pid == pid && !(reply is Started),
        Stage::Undo(_) => t.candidate().pid == pid,
        Stage::Probe => t.item().target_pid == pid && t.item().load is Some && !(reply is Done)
            && t.item().duplicates.len() == 0,
        Stage::ClearOrphans => t.item().target_pid == pid && t.answered(reply).stage is ForgetLost,
        _ => false,
    }
}

/// Whether a tick asks for a limiter on a process.
pub open spec fn is_tried(t: TickView, pid: u32) -> bool {
    t.asks() matches Some(TickRequestView::Start { target_pid, limit }) && target_pid == pid
}

/// A process that a tick gives up, by its reply at position `n`, is not tried again before the
/// deadline, neither in the rest of that tick nor in any tick after it, whether it is there in
/// between or not, as long as none of the ticks has an earlier deadline.
pub proof fn targets_given_up_are_not_tried_again(
    targets: Map<u32, TargetRuntime>,
    first: TickRun,
    n: int,
    later: Seq<TickRun>,
    pid: u32,
)
    requires
        0 <= n < first.replies.len(),
        is_given_up(after(first.plan, targets, first.replies.take(n)), first.replies[n], pid),
        first.plan.deadline.is_after(first.plan.now),
        forall|i: int|
            0 <= i < later.len() ==> is_before((#[trigger] later[i]).plan, first.plan.deadline),
    ensures
        ({
            let t = after(first.plan, targets, first.replies);
            let memory = remembered(t.targets, later.drop_last());
            let u = after(later.last().plan, memory, later.last().replies);
            &&& !is_tried(t, pid)
            &&& later.len() > 0 ==> !is_tried(u, pid)
        }),
{
    lemma_rest_leaves(targets, first, n, pid);
    let t = after(first.plan, targets, first.replies);
    targets_stay_left_alone(t.targets, later, pid, first.plan.deadline);
}

/// A process on which no limiter could be started in one tick, when that tick got its reply at
/// position `n`, is not tried again before the deadline, neither in the rest of that tick nor in
/// any tick after it, as long as none of them has an earlier deadline.
pub proof fn failed_targets_are_not_tried_again(
    targets: Map<u32, TargetRuntime>,
    first: TickRun,
    n: int,
    later: Seq<TickRun>,
    pid: u32,
)
    requires
        0 <= n < first.replies.len(),
        is_tried(after(first.plan, targets, first.replies.take(n)), pid),
        !(first.replies[n] is Started),
        first.plan.deadline.is_after(first.plan.now),
        forall|i: int|
            0 <= i < later.len() ==> is_before((#[trigger] later[i]).plan, first.plan.deadline),
    ensures
        ({
            let t = after(first.plan, targets, first.replies);
            let memory = remembered(t.targets, later.drop_last());
            let u = after(later.last().plan, memory, later.last().replies);
            &&& !is_tried(t, pid)
            &&& later.len() > 0 ==> !is_tried(u, pid)
        }),
{
    targets_given_up_are_not_tried_again(targets, first, n, later, pid);
}

/// A process whose recorded limiter was found dead in one tick, by its reply at position `n`, while
/// the process was there and no other limiter on it, gets no new one before the deadline, neither in
/// the rest of that tick nor in any tick after it, as long as none of them has an earlier deadline.
pub proof fn targets_of_dead_limiters_are_not_tried_again(
    targets: Map<u32, TargetRuntime>,
    first: TickRun,
    n: int,
    later: Seq<TickRun>,
    pid: u32,
)
    requires
        0 <= n < first.replies.len(),
        ({
            let t = after(first.plan, targets, first.replies.take(n));
            &&& t.asks() is Some && t.asks()->0 is Probe
            &&& t.item().target_pid == pid
            &&& t.item().load is Some
            &&& t.item().duplicates.len() == 0
        }),
        !(first.replies[n] is Done),
        first.plan.deadline.is_after(first.plan.now),
        forall|i: int|
            0 <= i < later.len() ==> is_before((#[trigger] later[i]).plan, first.plan.deadline),
    ensures
        ({
            let t = after(first.plan, targets, first.replies);
            let memory = remembered(t.targets, later.drop_last());
            let u = after(later.last().plan, memory, later.last().replies);
            &&& !is_tried(t, pid)
            &&& later.len() > 0 ==> !is_tried(u, pid)
        }),
{
    targets_given_up_are_not_tried_again(targets, first, n, later, pid);
}

/// A tick leaves a process alone that it has just given up.
proof fn lemma_given_up(t: TickView, reply: TickReply, pid: u32)
    requires
        t.well_formed(),
        is_given_up(t, reply, pid),
        t.plan.deadline.is_after(t.plan.now),
    ensures
        leaves(t.answered(reply), pid, t.plan.deadline),
{
    let until = t.plan.deadline;
    match t.stage {
        Stage::Start | Stage::Undo(_) => {
            lemma_candidate_leaves(t.leaving_alone(pid, 0), t.at + 1, pid, until);
        },
        Stage::Probe => {
            let cleared = TickView { outcomes: Seq::empty(), ..t };
            let failed = limiters::failed_pids(t.item().duplicates, cleared.outcomes);
            assert(failed.len() == 0);
            assert(t.answered(reply) == cleared.clearing_orphans());
        },
        Stage::ClearOrphans => {
            let pushed = TickView { outcomes: t.outcomes.push(reply is Done), ..t };
            if pushed.outcomes.len() >= t.item().duplicates.len() && t.at + 1
                >= t.plan.items.len() {
                lemma_to_candidate(pushed, 0);
            }
            assert(t.answered(reply) == pushed.clearing_orphans());
        },
        _ => {},
    }
}

/// The rest of a tick leaves a process alone that it has given up.
proof fn lemma_rest_leaves(
    targets: Map<u32, TargetRuntime>,
    first: TickRun,
    n: int,
    pid: u32,
)
    requires
        0 <= n < first.replies.len(),
        is_given_up(after(first.plan, targets, first.replies.take(n)), first.replies[n], pid),
        first.plan.deadline.is_after(first.plan.now),
    ensures
        leaves(after(first.plan, targets, first.replies), pid, first.plan.deadline),
    decreases first.replies.len() - n,
{
    let replies = first.replies;
    let before = replies.drop_last();
    let t = after(first.plan, targets, before);
    lemma_always_sound(first.plan, targets, before);
    if n == before.len() {
        assert(replies.take(n) == before);
        lemma_given_up(t, replies.last(), pid);
    } else {
        assert(before.take(n) == replies.take(n));
        lemma_rest_leaves(targets, TickRun { replies: before, ..first }, n, pid);
        lemma_reply_leaves(t, replies.last(), pid, first.plan.deadline);
    }
}

// ---------------------------------------------------------------------------
// The end of a tick
// ---------------------------------------------------------------------------

/// When a tick is over, the agent remembers only processes that exist or are left alone.
pub proof fn memory_stays_small(
    plan: PlanView,
    targets: Map<u32, TargetRuntime>,
    replies: Seq<TickReply>,
    pid: u32,
)
    ensures
        ({
            let t = after(plan, targets, replies);
            t.stage is Over && t.targets.contains_key(pid) ==> plan.present.contains(pid)
                || agent::backed_off(t.targets[pid], plan.now)
        }),
{
    lemma_always_sound(plan, targets, replies);
}

/// A tick that ends idle has seen every candidate below its trigger.
pub proof fn idle_means_quiet(
    plan: PlanView,
    targets: Map<u32, TargetRuntime>,
    replies: Seq<TickReply>,
)
    ensures
        ({
            let t = after(plan, targets, replies);
            t.stage is Over && t.activity is Idle ==> all_quiet(
                plan,
                plan.candidates.len() as int,
            )
        }),
{
    lemma_always_sound(plan, targets, replies);
}

/// The most requests that the recorded limiters from position `i` on can take.
pub open spec fn item_work(plan: PlanView, i: nat) -> nat
    decreases plan.items.len() - i,
{
    if i >= plan.items.len() {
        0
    } else {
        4 + plan.items[i as int].duplicates.len() + item_work(plan, i + 1)
    }
}

/// The most requests that a tick can make: for each recorded limiter four and one for each of
/// those that double it, and three for each candidate.
pub open spec fn work(plan: PlanView) -> nat {
    item_work(plan, 0) + 3 * plan.candidates.len()
}

/// The most requests that a tick under way can still make.
spec fn work_left(t: TickView) -> nat {
    let cleared = (t.item().duplicates.len() - t.outcomes.len()) as nat;
    let here: nat = match t.stage {
        Stage::Probe => 4 + t.item().duplicates.len(),
        Stage::ClearOrphans | Stage::ClearDuplicates => 3 + cleared,
        Stage::Record => 3,
        Stage::StopLost | Stage::StopReleased => 2,
        Stage::ForgetLost | Stage::ForgetReleased => 1,
        Stage::Start => 3,
        Stage::Remember(_) => 2,
        Stage::Undo(_) => 1,
        Stage::Over => 0,
    };
    if t.on_items() {
        here + item_work(t.plan, t.at + 1) + 3 * t.plan.candidates.len()
    } else if t.on_candidates() {
        here + 3 * (t.plan.candidates.len() - t.at - 1) as nat
    } else {
        0
    }
}

/// Going to a recorded limiter takes no work of its own.
proof fn lemma_work_to_item(t: TickView, i: nat)
    requires
        i <= t.plan.items.len(),
    ensures
        work_left(t.to_item(i)) <= item_work(t.plan, i) + 3 * t.plan.candidates.len(),
{
    if i >= t.plan.items.len() {
        lemma_to_candidate(t, 0);
    }
}

/// Every reply takes a tick nearer to its end.
proof fn lemma_work_shrinks(t: TickView, reply: TickReply)
    requires
        t.well_formed(),
        !(t.stage is Over),
    ensures
        work_left(t.answered(reply)) < work_left(t),
{
    let done = reply is Done;
    if t.on_items() {
        let pushed = TickView { outcomes: t.outcomes.push(done), ..t };
        let cleared = TickView { outcomes: Seq::empty(), ..t };
        lemma_work_next(t);
        lemma_work_next(pushed);
        lemma_work_next(cleared);
        lemma_work_next(t.without_one());
        lemma_work_next(t.without_one().freed());
        let pid = t.item().target_pid;
        let counted = t.keeping(
            pid,
            TargetRuntime { cold_samples: t.cold_samples(), ..t.recalled(pid) },
        );
        lemma_work_next(counted);
        lemma_work_next(TickView { activity: AgentTickActivity::Hot, ..counted });
        lemma_work_warned(pushed);
        lemma_work_warned(cleared);
    } else {
        let pid = t.candidate().pid;
        lemma_to_candidate(t.leaving_alone(pid, 0), t.at + 1);
        lemma_to_candidate(t.with_new(), t.at + 1);
    }
}

/// Going to the next recorded limiter takes no work of its own.
proof fn lemma_work_next(t: TickView)
    requires
        t.at < t.plan.items.len(),
    ensures
        work_left(t.next_item()) <= item_work(t.plan, t.at + 1) + 3 * t.plan.candidates.len(),
{
    lemma_work_to_item(t, t.at + 1);
}

/// Leaving a warning and going to the next recorded limiter takes no work of its own.
proof fn lemma_work_warned(t: TickView)
    requires
        t.at < t.plan.items.len(),
    ensures
        ({
            let failed = limiters::failed_pids(t.item().duplicates, t.outcomes);
            work_left(
                (TickView {
                    warnings: t.warnings.push(tick::cleanup_warning(t.item().target_pid, failed)),
                    ..t
                }).next_item(),
            ) <= item_work(t.plan, t.at + 1) + 3 * t.plan.candidates.len()
        }),
{
    let failed = limiters::failed_pids(t.item().duplicates, t.outcomes);
    lemma_work_next(
        TickView {
            warnings: t.warnings.push(tick::cleanup_warning(t.item().target_pid, failed)),
            ..t
        },
    );
}

/// A tick is over after at most [`work`] replies, whatever they are.
pub proof fn ticks_end(
    plan: PlanView,
    targets: Map<u32, TargetRuntime>,
    replies: Seq<TickReply>,
)
    requires
        replies.len() >= work(plan),
    ensures
        after(plan, targets, replies).stage is Over,
{
    lemma_work_done(plan, targets, replies);
    lemma_always_sound(plan, targets, replies);
}

/// A tick that is not over has used as much work as it got replies.
proof fn lemma_work_done(
    plan: PlanView,
    targets: Map<u32, TargetRuntime>,
    replies: Seq<TickReply>,
)
    ensures
        ({
            let t = after(plan, targets, replies);
            t.stage is Over || work_left(t) + replies.len() <= work(plan)
        }),
        ({
            let t = after(plan, targets, replies);
            t.stage is Over || work_left(t) > 0
        }),
    decreases replies.len(),
{
    lemma_always_sound(plan, targets, replies);
    if replies.len() == 0 {
        let t = TickView {
            plan,
            targets,
            limited: Set::empty(),
            active: 0,
            activity: AgentTickActivity::Idle,
            stage: Stage::Over,
            at: 0,
            outcomes: Seq::empty(),
            warnings: Seq::empty(),
        };
        lemma_work_to_item(t, 0);
    } else {
        let before = after(plan, targets, replies.drop_last());
        lemma_work_done(plan, targets, replies.drop_last());
        lemma_always_sound(plan, targets, replies.drop_last());
        if !(before.stage is Over) {
            lemma_work_shrinks(before, replies.last());
        }
    }
}

/// The rules of other domains do not matter to an agent.
pub proof fn other_domains_do_not_matter(s: Sighting, now: Moment, deadline: Moment)
    ensures
        (Sighting { rules: s.domain_rules(), ..s }).plan(now, deadline) == s.plan(now, deadline),
{
    let keep = plan::in_domain(s.domain);
    let narrowed = Sighting { rules: s.domain_rules(), ..s };
    lists::lemma_filter_filter(s.rules, keep, keep);
    lists::lemma_filter_agree(s.rules, |r: RuleView| keep(r) && keep(r), keep);
    assert(narrowed.domain_rules() == s.domain_rules());
    lemma_same_candidates(narrowed, s, s.domain_rules());
    assert forall|i: InstanceView| #[trigger] narrowed.item(i) == s.item(i) by {}
    assert(narrowed.items() =~= s.items());
}

/// Candidates depend on the processes, the limiters and the command lines alone.
proof fn lemma_same_candidates(a: Sighting, b: Sighting, rules: Seq<RuleView>)
    requires
        a.snapshot == b.snapshot,
        a.limiters == b.limiters,
        a.lines == b.lines,
    ensures
        a.candidates(rules) == b.candidates(rules),
    decreases rules.len(),
{
    if rules.len() > 0 {
        lemma_same_candidates(a, b, rules.drop_last());
        let rule = rules.last();
        assert(a.is_about(rule) =~= b.is_about(rule));
        assert(a.candidates_for(rule) =~= b.candidates_for(rule));
    }
}

/// Of the limiters that are recorded, an agent stops only those of watches in its own domain,
/// and one that it has just started itself.
pub proof fn recorded_limiters_of_others_are_spared(
    s: Sighting,
    now: Moment,
    deadline: Moment,
    targets: Map<u32, TargetRuntime>,
    replies: Seq<TickReply>,
)
    ensures
        ({
            let t = after(s.plan(now, deadline), targets, replies);
            t.asks() matches Some(TickRequestView::Stop { cpulimit_pid }) ==> {
                ||| t.stage == Stage::Undo(cpulimit_pid)
                ||| !plan::managed_pids(s.instances).contains(cpulimit_pid)
                ||| exists|k: int|
                    0 <= k < s.instances.len() && (#[trigger] s.instances[k]).cpulimit_pid
                        == cpulimit_pid && s.instances[k].mode is Watch && s.instances[k].domain
                        == s.domain
            }
        }),
{
    let t = after(s.plan(now, deadline), targets, replies);
    lemma_always_sound(s.plan(now, deadline), targets, replies);
    if t.asks() is Some && t.asks()->0 is Stop && t.on_items() {
        let watched = s.instances.filter(plan::is_watched(s.domain));
        let instance = watched[t.at as int];
        lists::lemma_filter_member(s.instances, plan::is_watched(s.domain), t.at as int);
        assert(t.item() == s.item(instance));
        let k = choose|k: int| 0 <= k < s.instances.len() && s.instances[k] == instance;
        if t.stage is ClearOrphans || t.stage is ClearDuplicates {
            lists::lemma_filter_member(
                limiters::limiters_on(s.limiters, t.item().target_pid),
                limiters::is_duplicate(instance.cpulimit_pid, plan::managed_pids(s.instances)),
                t.outcomes.len() as int,
            );
        } else {
            assert(s.instances[k].cpulimit_pid == instance.cpulimit_pid);
        }
    }
}

} // verus!
