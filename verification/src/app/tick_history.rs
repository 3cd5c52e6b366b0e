//! Laws of what a tick has asked for by the time that it asks for something else.

use vstd::prelude::*;

use crate::app::agent;
use crate::app::agent::TargetRuntime;
use crate::app::agent_laws;
use crate::app::agent_laws::{lemma_hold, lemma_item, lemma_last_entry};
use crate::app::limiters;
use crate::app::plan;
use crate::app::plan::{PlanView, Sighting};
use crate::app::survey_laws::lemma_picked_keeps;
use crate::app::tick;
use crate::app::tick::{Stage, TickReply, TickRequestView, TickView};
use crate::app::tick_laws;
use crate::app::tick_laws::{lemma_always_sound, lemma_to_candidate};
use crate::clock::Moment;
use crate::lists;
use crate::model::InstanceView;

verus! {

/// What a tick asks for after a series of replies.
#[verifier::opaque]
pub open spec fn asks_after(
    plan: PlanView,
    targets: Map<u32, TargetRuntime>,
    replies: Seq<TickReply>,
) -> Option<TickRequestView> {
    tick_laws::after(plan, targets, replies).asks()
}

/// Whether a tick asks for this after the first `m` replies.
pub open spec fn is_asked_at(
    plan: PlanView,
    targets: Map<u32, TargetRuntime>,
    replies: Seq<TickReply>,
    request: TickRequestView,
    m: int,
) -> bool {
    0 <= m <= replies.len() && asks_after(plan, targets, replies.take(m)) == Some(request)
}

/// Whether a tick asks for this, or has asked for it.
pub open spec fn was_asked(
    plan: PlanView,
    targets: Map<u32, TargetRuntime>,
    replies: Seq<TickReply>,
    request: TickRequestView,
) -> bool {
    exists|m: int| #[trigger] is_asked_at(plan, targets, replies, request, m)
}

/// Whether a tick has asked for this, and whether it was told that it is done.
pub open spec fn was_told(
    plan: PlanView,
    targets: Map<u32, TargetRuntime>,
    replies: Seq<TickReply>,
    request: TickRequestView,
    done: bool,
) -> bool {
    exists|m: int| #[trigger]
        is_asked_at(plan, targets, replies, request, m) && m < replies.len() && (replies[m] is Done)
            == done
}

proof fn lemma_asked_stays(
    plan: PlanView,
    targets: Map<u32, TargetRuntime>,
    replies: Seq<TickReply>,
    reply: TickReply,
    request: TickRequestView,
)
    ensures
        was_asked(plan, targets, replies, request) ==> was_asked(
            plan,
            targets,
            replies.push(reply),
            request,
        ),
        was_told(plan, targets, replies, request, true) ==> was_told(
            plan,
            targets,
            replies.push(reply),
            request,
            true,
        ),
        was_told(plan, targets, replies, request, false) ==> was_told(
            plan,
            targets,
            replies.push(reply),
            request,
            false,
        ),
        asks_after(plan, targets, replies) == Some(request) ==> was_told(
            plan,
            targets,
            replies.push(reply),
            request,
            reply is Done,
        ) && was_asked(plan, targets, replies.push(reply), request),
        asks_after(plan, targets, replies.push(reply)) == Some(request) ==> was_asked(
            plan,
            targets,
            replies.push(reply),
            request,
        ),
{
    let more = replies.push(reply);
    assert forall|m: int| #[trigger]
        is_asked_at(plan, targets, replies, request, m) implies is_asked_at(
        plan,
        targets,
        more,
        request,
        m,
    ) by {
        assert(more.take(m) =~= replies.take(m));
    }
    if asks_after(plan, targets, replies) == Some(request) {
        assert(more.take(replies.len() as int) =~= replies);
        assert(is_asked_at(plan, targets, more, request, replies.len() as int));
        assert(more[replies.len() as int] == reply);
    }
    if asks_after(plan, targets, more) == Some(request) {
        assert(more.take(more.len() as int) =~= more);
        assert(is_asked_at(plan, targets, more, request, more.len() as int));
    }
    if was_told(plan, targets, replies, request, true) {
        let m = choose|m: int| #[trigger]
            is_asked_at(plan, targets, replies, request, m) && m < replies.len()
                && replies[m] is Done;
        assert(is_asked_at(plan, targets, more, request, m));
        assert(more[m] == replies[m]);
    }
    if was_told(plan, targets, replies, request, false) {
        let m = choose|m: int| #[trigger]
            is_asked_at(plan, targets, replies, request, m) && m < replies.len() && !(
            replies[m] is Done);
        assert(is_asked_at(plan, targets, more, request, m));
        assert(more[m] == replies[m]);
    }
}

/// The number of recorded limiters that a tick has come to.
spec fn reached(t: TickView) -> int {
    if t.on_items() {
        t.at as int + 1
    } else {
        t.plan.items.len() as int
    }
}

/// The probe of the recorded limiter at a position.
spec fn probe(plan: PlanView, q: int) -> TickRequestView {
    TickRequestView::Probe { cpulimit_pid: plan.items[q].cpulimit_pid }
}

/// The stop of a limiter.
spec fn stop(pid: u32) -> TickRequestView {
    TickRequestView::Stop { cpulimit_pid: pid }
}

/// What a tick has asked for by now.
spec fn recounts(
    t: TickView,
    plan: PlanView,
    targets: Map<u32, TargetRuntime>,
    replies: Seq<TickReply>,
) -> bool {
    let own = t.item().cpulimit_pid;
    let own_probe = TickRequestView::Probe { cpulimit_pid: own };
    &&& forall|q: int|
        0 <= q < reached(t) ==> was_asked(plan, targets, replies, #[trigger] probe(plan, q))
    &&& t.stage is ClearOrphans || t.stage is ClearDuplicates || t.stage is Record
        ==> forall|i: int|
        0 <= i < t.outcomes.len() && i < t.item().duplicates.len() ==> was_told(
            plan,
            targets,
            replies,
            stop(#[trigger] t.item().duplicates[i]),
            t.outcomes[i],
        )
    &&& t.stage is ClearDuplicates || t.stage is Record || t.stage is StopLost || t.stage
        is StopReleased ==> was_told(plan, targets, replies, own_probe, true)
    &&& t.stage is ClearOrphans ==> was_told(plan, targets, replies, own_probe, false)
    &&& t.stage is Record ==> t.outcomes.len() == t.item().duplicates.len()
        && limiters::failed_pids(t.item().duplicates, t.outcomes).len() == 0
    &&& t.stage is ForgetLost ==> was_told(plan, targets, replies, own_probe, false) || was_told(
        plan,
        targets,
        replies,
        stop(own),
        true,
    )
    &&& t.stage is ForgetReleased ==> was_told(plan, targets, replies, stop(own), true)
}

/// Going to the next recorded limiter, or past them, keeps account.
proof fn lemma_to_item(
    t: TickView,
    i: nat,
    plan: PlanView,
    targets: Map<u32, TargetRuntime>,
    replies: Seq<TickReply>,
)
    requires
        t.plan == plan,
        i <= plan.items.len(),
        t.to_item(i).asks() == asks_after(plan, targets, replies),
        forall|q: int| 0 <= q < i ==> was_asked(plan, targets, replies, #[trigger] probe(plan, q)),
    ensures
        recounts(t.to_item(i), plan, targets, replies),
{
    let u = t.to_item(i);
    if i < plan.items.len() {
        assert(replies.take(replies.len() as int) =~= replies);
        assert(u.asks() == Some(probe(plan, i as int)));
        assert(is_asked_at(plan, targets, replies, probe(plan, i as int), replies.len() as int));
    } else {
        lemma_to_candidate(t, 0);
    }
}

proof fn lemma_recounts(
    plan: PlanView,
    targets: Map<u32, TargetRuntime>,
    replies: Seq<TickReply>,
)
    ensures
        recounts(tick_laws::after(plan, targets, replies), plan, targets, replies),
    decreases replies.len(),
{
    if replies.len() == 0 {
        let t = TickView {
            plan,
            targets,
            limited: Set::empty(),
            active: 0,
            activity: agent::AgentTickActivity::Idle,
            stage: Stage::Over,
            at: 0,
            outcomes: Seq::empty(),
            warnings: Seq::empty(),
        };
        reveal(asks_after);
        lemma_to_item(t, 0, plan, targets, replies);
    } else {
        let before = replies.drop_last();
        let reply = replies.last();
        lemma_recounts(plan, targets, before);
        lemma_always_sound(plan, targets, before);
        assert(before.push(reply) =~= replies);
        let t = tick_laws::after(plan, targets, before);
        assert(asks_after(plan, targets, before) == t.asks() && asks_after(plan, targets, replies)
            == t.answered(reply).asks()) by {
            reveal(asks_after);
        }
        lemma_recount_step(t, plan, targets, before, reply);
    }
}

proof fn lemma_recount_step(
    t: TickView,
    plan: PlanView,
    targets: Map<u32, TargetRuntime>,
    before: Seq<TickReply>,
    reply: TickReply,
)
    requires
        asks_after(plan, targets, before) == t.asks(),
        asks_after(plan, targets, before.push(reply)) == t.answered(reply).asks(),
        t.plan == plan,
        t.well_formed(),
        recounts(t, plan, targets, before),
    ensures
        recounts(t.answered(reply), plan, targets, before.push(reply)),
{
    let replies = before.push(reply);
    let u = t.answered(reply);
    assert forall|q: int| 0 <= q < reached(t) implies was_asked(
        plan,
        targets,
        replies,
        #[trigger] probe(plan, q),
    ) by {
        lemma_asked_stays(plan, targets, before, reply, probe(plan, q));
    }
    if t.on_items() {
        lemma_recount_item(t, plan, targets, before, reply);
    } else if t.on_candidates() {
        let pid = t.candidate().pid;
        lemma_to_candidate(t.leaving_alone(pid, 0), t.at + 1);
        lemma_to_candidate(t.with_new(), t.at + 1);
    }
}

proof fn lemma_recount_item(
    t: TickView,
    plan: PlanView,
    targets: Map<u32, TargetRuntime>,
    before: Seq<TickReply>,
    reply: TickReply,
)
    requires
        asks_after(plan, targets, before) == t.asks(),
        asks_after(plan, targets, before.push(reply)) == t.answered(reply).asks(),
        t.plan == plan,
        t.well_formed(),
        t.on_items(),
        recounts(t, plan, targets, before),
        forall|q: int|
            0 <= q < t.at + 1 ==> was_asked(
                plan,
                targets,
                before.push(reply),
                #[trigger] probe(plan, q),
            ),
    ensures
        recounts(t.answered(reply), plan, targets, before.push(reply)),
{
    let replies = before.push(reply);
    let u = t.answered(reply);
    let own = t.item().cpulimit_pid;
    let d = t.item().duplicates;
    let own_probe = TickRequestView::Probe { cpulimit_pid: own };
    lemma_asked_stays(plan, targets, before, reply, own_probe);
    lemma_asked_stays(plan, targets, before, reply, stop(own));
    let pushed = TickView { outcomes: t.outcomes.push(reply is Done), ..t };
    let cleared = TickView { outcomes: Seq::empty(), ..t };
    if t.stage is ClearOrphans || t.stage is ClearDuplicates {
        let n = t.outcomes.len() as int;
        lemma_asked_stays(plan, targets, before, reply, stop(d[n]));
        assert forall|i: int| 0 <= i < pushed.outcomes.len() && i < d.len() implies was_told(
            plan,
            targets,
            replies,
            stop(#[trigger] d[i]),
            pushed.outcomes[i],
        ) by {
            if i < n {
                lemma_asked_stays(plan, targets, before, reply, stop(d[i]));
                assert(was_told(plan, targets, before, stop(d[i]), t.outcomes[i]));
                assert(t.outcomes[i] == true || t.outcomes[i] == false);
            }
        }
    }
    match t.stage {
        Stage::Probe => {
            lemma_clearing(cleared, t, plan, targets, replies, reply);
        },
        Stage::ClearOrphans | Stage::ClearDuplicates => {
            lemma_clearing(pushed, t, plan, targets, replies, reply);
        },
        Stage::StopLost | Stage::StopReleased => {
            if !(reply is Done) {
                lemma_to_item(t, t.at + 1, plan, targets, replies);
            } else {
                assert(u.item() == t.item());
                assert(was_told(plan, targets, replies, stop(own), true));
            }
        },
        Stage::ForgetLost => {
            lemma_to_item(t.without_one(), t.at + 1, plan, targets, replies);
        },
        Stage::ForgetReleased => {
            lemma_to_item(t.without_one().freed(), t.at + 1, plan, targets, replies);
        },
        _ => {
            let pid = t.item().target_pid;
            let known = t.recalled(pid);
            let counted = TickView {
                activity: if t.item().load->0.is_at_most(t.item().hold->0.release_cpu) {
                    t.activity
                } else {
                    agent::AgentTickActivity::Hot
                },
                ..t.keeping(pid, TargetRuntime { cold_samples: t.cold_samples(), ..known })
            };
            if !t.item().hold->0.still_matches || t.cold_samples() >= agent::COLD_REQUIRED_SAMPLES {
                assert(u.item() == t.item());
                assert(was_told(plan, targets, replies, own_probe, true));
            } else {
                lemma_to_item(counted, t.at + 1, plan, targets, replies);
            }
        },
    }
}

/// Clearing limiters away keeps account.
proof fn lemma_clearing(
    v: TickView,
    t: TickView,
    plan: PlanView,
    targets: Map<u32, TargetRuntime>,
    replies: Seq<TickReply>,
    reply: TickReply,
)
    requires
        t.plan == plan,
        t.on_items(),
        t.at < plan.items.len(),
        t.answered(reply).asks() == asks_after(plan, targets, replies),
        t.stage is Probe ==> v == (TickView { outcomes: Seq::empty(), ..t }),
        t.stage is Probe || t.stage is ClearOrphans || t.stage is ClearDuplicates,
        !(t.stage is Probe) ==> v == (TickView { outcomes: t.outcomes.push(reply is Done), ..t }),
        !(t.stage is Probe) ==> v.outcomes.len() <= t.item().duplicates.len(),
        forall|q: int|
            0 <= q < t.at + 1 ==> was_asked(plan, targets, replies, #[trigger] probe(plan, q)),
        forall|i: int|
            0 <= i < v.outcomes.len() && i < t.item().duplicates.len() ==> was_told(
                plan,
                targets,
                replies,
                stop(#[trigger] t.item().duplicates[i]),
                v.outcomes[i],
            ),
        ({
            let own_probe = TickRequestView::Probe { cpulimit_pid: t.item().cpulimit_pid };
            &&& t.stage is Probe ==> was_told(plan, targets, replies, own_probe, reply is Done)
            &&& t.stage is ClearOrphans ==> was_told(plan, targets, replies, own_probe, false)
            &&& t.stage is ClearDuplicates ==> was_told(plan, targets, replies, own_probe, true)
        }),
    ensures
        recounts(t.answered(reply), plan, targets, replies),
{
    let u = t.answered(reply);
    let failed = limiters::failed_pids(t.item().duplicates, v.outcomes);
    let warned = TickView {
        warnings: v.warnings.push(tick::cleanup_warning(t.item().target_pid, failed)),
        ..v
    };
    assert(v.item() == t.item());
    if u == v.to_item(v.at + 1) {
        lemma_to_item(v, v.at + 1, plan, targets, replies);
    } else if u == warned.to_item(v.at + 1) {
        lemma_to_item(warned, v.at + 1, plan, targets, replies);
    } else {
        assert(u.at == t.at && u.item() == t.item());
    }
}

/// A tick that is over has asked for every recorded limiter of its domain that has a process for a
/// target whether it is alive.
pub proof fn every_recorded_limiter_is_probed(
    seen: Sighting,
    now: Moment,
    deadline: Moment,
    targets: Map<u32, TargetRuntime>,
    replies: Seq<TickReply>,
    k: int,
    target: u32,
)
    requires
        0 <= k < seen.instances.len(),
        agent_laws::is_kept(seen, seen.instances[k], target),
        tick_laws::after(seen.plan(now, deadline), targets, replies).asks() is None,
    ensures
        was_asked(
            seen.plan(now, deadline),
            targets,
            replies,
            TickRequestView::Probe { cpulimit_pid: seen.instances[k].cpulimit_pid },
        ),
{
    let plan = seen.plan(now, deadline);
    lemma_recounts(plan, targets, replies);
    let keep = plan::is_watched(seen.domain);
    let own = seen.instances.filter(keep);
    lists::lemma_filter_keeps(seen.instances, keep, k);
    let q = choose|q: int| 0 <= q < own.len() && own[q] == seen.instances[k];
    assert(plan.items[q] == seen.item(own[q]));
    let t = tick_laws::after(plan, targets, replies);
    assert(t.stage is Over);
    assert(t.plan == plan) by {
        lemma_always_sound(plan, targets, replies);
    }
    assert(reached(t) == plan.items.len());
    assert(was_asked(plan, targets, replies, probe(plan, q)));
}

/// A tick takes a limiter off the record only after it was told that the limiter is not alive, or
/// that its stop is done.
pub proof fn limiters_are_forgotten_when_gone(
    plan: PlanView,
    targets: Map<u32, TargetRuntime>,
    replies: Seq<TickReply>,
)
    ensures
        ({
            let t = tick_laws::after(plan, targets, replies);
            t.asks() matches Some(TickRequestView::Forget { cpulimit_pid }) ==> was_told(
                plan,
                targets,
                replies,
                TickRequestView::Probe { cpulimit_pid },
                false,
            ) || was_told(plan, targets, replies, TickRequestView::Stop { cpulimit_pid }, true)
        }),
{
    lemma_recounts(plan, targets, replies);
}

/// Before a tick records the load of a recorded limiter's target, it was told that the limiter is
/// alive, and that every other limiter that runs on the target and is recorded nowhere is stopped.
pub proof fn duplicates_are_stopped_first(
    seen: Sighting,
    now: Moment,
    deadline: Moment,
    targets: Map<u32, TargetRuntime>,
    replies: Seq<TickReply>,
    l: int,
)
    requires
        0 <= l < seen.limiters.len(),
        forall|q: int|
            0 <= q < seen.instances.len() ==> (#[trigger] seen.instances[q]).cpulimit_pid
                != seen.limiters[l].cpulimit_pid,
    ensures
        ({
            let plan = seen.plan(now, deadline);
            let t = tick_laws::after(plan, targets, replies);
            t.asks() matches Some(TickRequestView::Record { cpulimit_pid, cpu }) ==> {
                &&& was_told(plan, targets, replies, TickRequestView::Probe { cpulimit_pid }, true)
                &&& t.item().target_pid == seen.limiters[l].target_pid ==> was_told(
                    plan,
                    targets,
                    replies,
                    TickRequestView::Stop { cpulimit_pid: seen.limiters[l].cpulimit_pid },
                    true,
                )
            }
        }),
{
    let plan = seen.plan(now, deadline);
    lemma_recounts(plan, targets, replies);
    lemma_always_sound(plan, targets, replies);
    let t = tick_laws::after(plan, targets, replies);
    let pid = seen.limiters[l].cpulimit_pid;
    if t.stage is Record && t.item().target_pid == seen.limiters[l].target_pid {
        let k = lemma_item(seen, now, deadline, t.at as int);
        let d = t.item().duplicates;
        lemma_has_duplicate(seen, k, l);
        let n = choose|n: int| 0 <= n < d.len() && d[n] == pid;
        lemma_picked_keeps(d, t.outcomes, n);
        if !t.outcomes[n] {
            assert(limiters::failed_pids(d, t.outcomes).contains(d[n]));
        }
        assert(was_told(plan, targets, replies, stop(d[n]), t.outcomes[n]));
    }
}

/// A limiter that is recorded nowhere and runs on the target of a recorded one doubles it.
proof fn lemma_has_duplicate(seen: Sighting, k: int, l: int)
    requires
        0 <= k < seen.instances.len(),
        0 <= l < seen.limiters.len(),
        seen.item(seen.instances[k]).target_pid == seen.limiters[l].target_pid,
        forall|q: int|
            0 <= q < seen.instances.len() ==> (#[trigger] seen.instances[q]).cpulimit_pid
                != seen.limiters[l].cpulimit_pid,
    ensures
        seen.item(seen.instances[k]).duplicates.contains(seen.limiters[l].cpulimit_pid),
{
    let i = seen.instances[k];
    let target = seen.limiters[l].target_pid;
    let pid = seen.limiters[l].cpulimit_pid;
    let held = seen.limiters.filter(limiters::holds(target));
    lists::lemma_filter_keeps(seen.limiters, limiters::holds(target), l);
    let n = choose|n: int| 0 <= n < held.len() && held[n] == seen.limiters[l];
    let on = limiters::limiters_on(seen.limiters, target);
    assert(on[n] == pid);
    let managed = plan::managed_pids(seen.instances);
    assert(!managed.contains(pid)) by {
        if managed.contains(pid) {
            let q = choose|q: int| 0 <= q < managed.len() && managed[q] == pid;
            assert(seen.instances[q].cpulimit_pid == pid);
        }
    }
    assert(i.cpulimit_pid != pid);
    lists::lemma_filter_keeps(on, limiters::is_duplicate(i.cpulimit_pid, managed), n);
}

/// Whether every limiter that runs on a process is recorded.
pub open spec fn has_no_stray(seen: Sighting, target: u32) -> bool {
    forall|l: int|
        0 <= l < seen.limiters.len() && (#[trigger] seen.limiters[l]).target_pid == target
            ==> exists|q: int|
            0 <= q < seen.instances.len() && (#[trigger] seen.instances[q]).cpulimit_pid
                == seen.limiters[l].cpulimit_pid
}

proof fn lemma_no_stray(seen: Sighting, k: int)
    requires
        0 <= k < seen.instances.len(),
    ensures
        has_no_stray(seen, seen.item(seen.instances[k]).target_pid) <==> seen.item(
            seen.instances[k],
        ).duplicates.len() == 0,
{
    let i = seen.instances[k];
    let target = seen.item(i).target_pid;
    let d = seen.item(i).duplicates;
    if d.len() > 0 && has_no_stray(seen, target) {
        let managed = plan::managed_pids(seen.instances);
        let on = limiters::limiters_on(seen.limiters, target);
        lists::lemma_filter_member(on, limiters::is_duplicate(i.cpulimit_pid, managed), 0);
        let n = choose|n: int| 0 <= n < on.len() && on[n] == d[0];
        let held = seen.limiters.filter(limiters::holds(target));
        lists::lemma_filter_member(seen.limiters, limiters::holds(target), n);
        let l = choose|l: int| 0 <= l < seen.limiters.len() && seen.limiters[l] == held[n];
        assert(seen.limiters[l].target_pid == target);
        let q = choose|q: int|
            0 <= q < seen.instances.len() && (#[trigger] seen.instances[q]).cpulimit_pid
                == seen.limiters[l].cpulimit_pid;
        assert(managed[q] == d[0]);
    }
    if d.len() == 0 && !has_no_stray(seen, target) {
        let l = choose|l: int|
            0 <= l < seen.limiters.len() && (#[trigger] seen.limiters[l]).target_pid == target && !(
            exists|q: int|
                0 <= q < seen.instances.len() && (#[trigger] seen.instances[q]).cpulimit_pid
                    == seen.limiters[l].cpulimit_pid);
        lemma_has_duplicate(seen, k, l);
    }
}

/// Whether a tick goes on in the right way once it knows whether the recorded limiter at `k` is
/// alive, in a snapshot that has its target or not. A limiter that is alive and has lost its target
/// or its rule is stopped. A dead one whose target is gone is forgotten, and so is one whose target
/// is there and has no other limiter; then the target is left alone until the deadline. Limiters on
/// the target that are recorded nowhere are stopped before anything else; where there are none, the
/// load of the target is recorded.
pub open spec fn goes_on(
    seen: Sighting,
    deadline: Moment,
    u: TickView,
    alive: bool,
    k: int,
    target: u32,
) -> bool {
    let i = seen.instances[k];
    let gone = agent_laws::is_absent(seen.snapshot, target);
    let lost = agent_laws::is_lost(seen, i, target);
    let own = i.cpulimit_pid;
    &&& alive && lost ==> u.asks() == Some(TickRequestView::Stop { cpulimit_pid: own })
    &&& !alive && gone ==> u.asks() == Some(TickRequestView::Forget { cpulimit_pid: own })
    &&& !alive && !gone && has_no_stray(seen, target) ==> u.asks() == Some(
        TickRequestView::Forget { cpulimit_pid: own },
    ) && agent::recalled(u.targets, target).backoff_until == Some(deadline)
    &&& alive && !lost && has_no_stray(seen, target) ==> exists|j: int| #[trigger]
        agent_laws::is_last_at(seen.snapshot, target, j) && u.asks() == Some(
            TickRequestView::Record { cpulimit_pid: own, cpu: seen.snapshot[j].cpu },
        )
    &&& !has_no_stray(seen, target) && !(alive && lost) && !(!alive && gone) ==> (u.asks() matches
        Some(TickRequestView::Stop { cpulimit_pid }) && agent_laws::is_stray(seen, cpulimit_pid))
}

/// What a tick does when it knows whether a recorded limiter is alive is settled by the rules, the
/// snapshot and the limiters that run.
pub proof fn probes_decide(
    seen: Sighting,
    now: Moment,
    deadline: Moment,
    targets: Map<u32, TargetRuntime>,
    replies: Seq<TickReply>,
    reply: TickReply,
)
    ensures
        ({
            let t = tick_laws::after(seen.plan(now, deadline), targets, replies);
            let u = tick_laws::after(seen.plan(now, deadline), targets, replies.push(reply));
            t.asks() matches Some(TickRequestView::Probe { cpulimit_pid }) ==> exists|
                k: int,
                target: u32,
            |
                0 <= k < seen.instances.len() && (#[trigger] seen.instances[k]).cpulimit_pid
                    == cpulimit_pid && #[trigger] agent_laws::is_kept(
                    seen,
                    seen.instances[k],
                    target,
                ) && goes_on(seen, deadline, u, reply is Done, k, target)
        }),
{
    let plan = seen.plan(now, deadline);
    lemma_always_sound(plan, targets, replies);
    let t = tick_laws::after(plan, targets, replies);
    assert(replies.push(reply).drop_last() =~= replies);
    if t.stage is Probe {
        let k = lemma_item(seen, now, deadline, t.at as int);
        lemma_goes_on(seen, deadline, t, reply, k);
    }
}

proof fn lemma_goes_on(seen: Sighting, deadline: Moment, t: TickView, reply: TickReply, k: int)
    requires
        0 <= k < seen.instances.len(),
        t.stage is Probe,
        t.item() == seen.item(seen.instances[k]),
        t.plan.deadline == deadline,
        agent_laws::is_kept(seen, seen.instances[k], t.item().target_pid),
    ensures
        goes_on(seen, deadline, t.answered(reply), reply is Done, k, t.item().target_pid),
{
    let i = seen.instances[k];
    let u = t.answered(reply);
    let target = t.item().target_pid;
    let e = plan::last_entry(seen.snapshot, target);
    let d = t.item().duplicates;
    lemma_last_entry(seen.snapshot, target);
    lemma_hold(seen.rules, seen.domain, i, e, seen.lines);
    lemma_no_stray(seen, k);
    lemma_lost(seen, i, target);
    if d.len() > 0 {
        assert(d.contains(d[0]));
        agent_laws::lemma_duplicate(seen, k, d[0]);
    }
}

/// A recorded limiter is lost when its target is not in the snapshot, or no rule stands behind it.
proof fn lemma_lost(seen: Sighting, i: InstanceView, target: u32)
    ensures
        ({
            let e = plan::last_entry(seen.snapshot, target);
            agent_laws::is_lost(seen, i, target) <==> (e is None || plan::hold_of(
                seen.domain_rules(),
                i,
                e,
                seen.lines,
            ) is None)
        }),
        plan::last_entry(seen.snapshot, target) is None <==> agent_laws::is_absent(
            seen.snapshot,
            target,
        ),
{
    let e = plan::last_entry(seen.snapshot, target);
    lemma_last_entry(seen.snapshot, target);
    lemma_hold(seen.rules, seen.domain, i, e, seen.lines);
    if e is Some {
        let j = choose|j: int| #[trigger]
            agent_laws::is_last_at(seen.snapshot, target, j) && seen.snapshot[j] == e->0;
        assert(seen.snapshot[j].pid == target);
        assert forall|m: int| #[trigger]
            agent_laws::is_last_at(seen.snapshot, target, m) implies m == j by {
            if m < j {
                assert(seen.snapshot[j].pid != target);
            }
            if j < m {
                assert(seen.snapshot[m].pid != target);
            }
        }
    }
}

// ---------------------------------------------------------------------------
// Counting
// ---------------------------------------------------------------------------

/// A limiter that is taken off the record makes room for another; one that is put on record takes
/// up room; and each recorded limiter that the tick comes to does.
pub proof fn limiters_are_counted(t: TickView, reply: TickReply)
    requires
        t.well_formed(),
        t.active > 0 || t.stage is Remember,
        t.stage is ForgetLost || t.stage is ForgetReleased || t.stage is Remember,
    ensures
        ({
            let u = t.answered(reply);
            let come = if u.on_items() {
                1int
            } else {
                0
            };
            &&& t.stage is ForgetLost || t.stage is ForgetReleased ==> u.active == t.active - 1
                + come
            &&& t.stage is Remember && reply is Done ==> u.active == t.active + 1
            &&& t.stage is Remember && !(reply is Done) ==> u.active == t.active
        }),
{
    if t.on_items() {
        lemma_to_candidate(t.without_one(), 0);
        lemma_to_candidate(t.without_one().freed(), 0);
    } else {
        lemma_to_candidate(t.with_new(), t.at + 1);
    }
}

/// Whether a limiter on a process was taken off the record in this tick.
pub open spec fn was_freed(
    plan: PlanView,
    targets: Map<u32, TargetRuntime>,
    replies: Seq<TickReply>,
    target: u32,
) -> bool {
    exists|q: int|
        0 <= q < plan.items.len() && (#[trigger] plan.items[q]).target_pid == target && was_asked(
            plan,
            targets,
            replies,
            TickRequestView::Forget { cpulimit_pid: plan.items[q].cpulimit_pid },
        )
}

/// Whether the target of each recorded limiter that the tick has come to is limited, unless one on
/// it was taken off the record.
spec fn are_limited(
    plan: PlanView,
    targets: Map<u32, TargetRuntime>,
    replies: Seq<TickReply>,
    limited: Set<u32>,
    n: int,
) -> bool {
    forall|q: int|
        0 <= q < n && q < plan.items.len() ==> limited.contains(
            (#[trigger] plan.items[q]).target_pid,
        ) || was_freed(plan, targets, replies, plan.items[q].target_pid)
}

proof fn lemma_freed_stays(
    plan: PlanView,
    targets: Map<u32, TargetRuntime>,
    replies: Seq<TickReply>,
    reply: TickReply,
    target: u32,
)
    ensures
        was_freed(plan, targets, replies, target) ==> was_freed(
            plan,
            targets,
            replies.push(reply),
            target,
        ),
{
    if was_freed(plan, targets, replies, target) {
        let q = choose|q: int|
            0 <= q < plan.items.len() && (#[trigger] plan.items[q]).target_pid == target
                && was_asked(
                plan,
                targets,
                replies,
                TickRequestView::Forget { cpulimit_pid: plan.items[q].cpulimit_pid },
            );
        lemma_asked_stays(
            plan,
            targets,
            replies,
            reply,
            TickRequestView::Forget { cpulimit_pid: plan.items[q].cpulimit_pid },
        );
        assert(plan.items[q].target_pid == target);
    }
}

/// Which targets a reply leaves limited.
proof fn lemma_limited_step(t: TickView, reply: TickReply)
    requires
        t.well_formed(),
    ensures
        ({
            let u = t.answered(reply);
            &&& u.plan == t.plan
            &&& t.stage !is ForgetReleased ==> t.limited.subset_of(u.limited)
            &&& t.stage is ForgetReleased ==> t.limited.remove(t.item().target_pid).subset_of(
                u.limited,
            )
            &&& u.on_items() ==> u.limited.contains(u.item().target_pid) || (u.at == t.at
                && t.on_items() && u.limited == t.limited)
            &&& t.on_items() && u.on_items() ==> u.at == t.at || u.at == t.at + 1
            &&& t.on_items() && !u.on_items() ==> t.at + 1 >= t.plan.items.len()
            &&& !t.on_items() ==> !u.on_items()
        }),
{
    if t.on_items() {
        let pid = t.item().target_pid;
        let pushed = TickView { outcomes: t.outcomes.push(reply is Done), ..t };
        let cleared = TickView { outcomes: Seq::empty(), ..t };
        let failed = limiters::failed_pids(t.item().duplicates, pushed.outcomes);
        let none = limiters::failed_pids(t.item().duplicates, cleared.outcomes);
        let known = t.recalled(pid);
        let kept = t.keeping(pid, TargetRuntime { cold_samples: t.cold_samples(), ..known });
        lemma_to_candidate(t, 0);
        lemma_to_candidate(pushed, 0);
        lemma_to_candidate(cleared, 0);
        lemma_to_candidate(t.without_one(), 0);
        lemma_to_candidate(t.without_one().freed(), 0);
        lemma_to_candidate(
            TickView { warnings: t.warnings.push(tick::cleanup_warning(pid, failed)), ..pushed },
            0,
        );
        lemma_to_candidate(
            TickView { warnings: t.warnings.push(tick::cleanup_warning(pid, none)), ..cleared },
            0,
        );
        lemma_to_candidate(kept, 0);
        lemma_to_candidate(TickView { activity: agent::AgentTickActivity::Hot, ..kept }, 0);
    } else if t.on_candidates() {
        let pid = t.candidate().pid;
        lemma_to_candidate(t.leaving_alone(pid, 0), t.at + 1);
        lemma_to_candidate(t.with_new(), t.at + 1);
    }
}

proof fn lemma_limited(
    plan: PlanView,
    targets: Map<u32, TargetRuntime>,
    replies: Seq<TickReply>,
)
    ensures
        ({
            let t = tick_laws::after(plan, targets, replies);
            are_limited(plan, targets, replies, t.limited, reached(t))
        }),
    decreases replies.len(),
{
    let u = tick_laws::after(plan, targets, replies);
    lemma_always_sound(plan, targets, replies);
    if replies.len() == 0 {
        let t = TickView {
            plan,
            targets,
            limited: Set::empty(),
            active: 0,
            activity: agent::AgentTickActivity::Idle,
            stage: Stage::Over,
            at: 0,
            outcomes: Seq::empty(),
            warnings: Seq::empty(),
        };
        lemma_to_candidate(t, 0);
    } else {
        let before = replies.drop_last();
        let reply = replies.last();
        lemma_limited(plan, targets, before);
        lemma_always_sound(plan, targets, before);
        let t = tick_laws::after(plan, targets, before);
        lemma_limited_step(t, reply);
        assert(before.push(reply) =~= replies);
        assert forall|q: int| 0 <= q < reached(u) && q < plan.items.len() implies u.limited.contains(
            (#[trigger] plan.items[q]).target_pid,
        ) || was_freed(plan, targets, replies, plan.items[q].target_pid) by {
            let target = plan.items[q].target_pid;
            lemma_freed_stays(plan, targets, before, reply, target);
            if q < reached(t) {
                if t.stage is ForgetReleased && target == t.item().target_pid {
                    let request = TickRequestView::Forget { cpulimit_pid: t.item().cpulimit_pid };
                    assert(asks_after(plan, targets, before) == Some(request)) by {
                        reveal(asks_after);
                    }
                    lemma_asked_stays(plan, targets, before, reply, request);
                    assert(plan.items[t.at as int].target_pid == target);
                    assert(was_freed(plan, targets, replies, target));
                }
            }
        }
    }
}

/// No limiter is started on the target of a recorded limiter that the agent looks after, unless a
/// limiter on that target was taken off the record in the same tick.
pub proof fn recorded_targets_get_no_second_limiter(
    seen: Sighting,
    now: Moment,
    deadline: Moment,
    targets: Map<u32, TargetRuntime>,
    replies: Seq<TickReply>,
    k: int,
    target: u32,
)
    requires
        0 <= k < seen.instances.len(),
        agent_laws::is_kept(seen, seen.instances[k], target),
    ensures
        ({
            let plan = seen.plan(now, deadline);
            let t = tick_laws::after(plan, targets, replies);
            t.asks() matches Some(TickRequestView::Start { target_pid, limit }) ==> (target_pid
                == target ==> was_freed(plan, targets, replies, target))
        }),
{
    let plan = seen.plan(now, deadline);
    lemma_limited(plan, targets, replies);
    lemma_always_sound(plan, targets, replies);
    let t = tick_laws::after(plan, targets, replies);
    let keep = plan::is_watched(seen.domain);
    let own = seen.instances.filter(keep);
    lists::lemma_filter_keeps(seen.instances, keep, k);
    let q = choose|q: int| 0 <= q < own.len() && own[q] == seen.instances[k];
    assert(plan.items[q] == seen.item(own[q]));
    assert(plan.items[q].target_pid == target);
}

} // verus!
