//! Laws of what a tick owes to hot processes.

use vstd::prelude::*;

use crate::app::agent;
use crate::app::agent::{AgentTickActivity, TargetRuntime};
use crate::app::agent_laws;
use crate::app::agent_laws::{
    lemma_candidate, lemma_domain_rules, lemma_item, rules_concern_what_they_name,
};
use crate::app::limiters;
use crate::app::plan;
use crate::app::plan::{PlanView, Sighting};
use crate::app::tick;
use crate::app::tick::{Stage, TickReply, TickRequestView, TickView};
use crate::app::tick_history;
use crate::app::tick_laws;
use crate::app::tick_laws::{idle_means_quiet, lemma_to_candidate};
use crate::clock::Moment;
use crate::infra::process_snapshot::EntryView;
use crate::lists;
use crate::model::{Domain, RuleView};
use crate::paths;

verus! {

// ---------------------------------------------------------------------------
// Candidates
// ---------------------------------------------------------------------------

/// Every rule and every process that it is about make a candidate.
proof fn lemma_has_candidate(seen: Sighting, rules: Seq<RuleView>, q: int, j: int) -> (n: int)
    requires
        0 <= q < rules.len(),
        0 <= j < seen.snapshot.len(),
        plan::matched(rules[q], seen.snapshot[j], seen.lines),
    ensures
        0 <= n < seen.candidates(rules).len(),
        seen.candidates(rules)[n] == seen.candidate(rules[q], seen.snapshot[j]),
    decreases rules.len(),
{
    let most = rules.drop_last();
    let earlier = seen.candidates(most);
    if q < most.len() {
        let n = lemma_has_candidate(seen, most, q, j);
        assert(seen.candidates(rules)[n] == earlier[n]);
        n
    } else {
        let rule = rules.last();
        let keep = seen.is_about(rule);
        let own = seen.snapshot.filter(keep);
        lists::lemma_filter_keeps(seen.snapshot, keep, j);
        let m = choose|m: int| 0 <= m < own.len() && own[m] == seen.snapshot[j];
        assert(seen.candidates_for(rule)[m] == seen.candidate(rule, own[m]));
        earlier.len() as int + m
    }
}

/// A rule of the domain that is about a process makes a candidate of it.
proof fn lemma_rule_has_candidate(seen: Sighting, r: int, j: int) -> (n: int)
    requires
        0 <= r < seen.rules.len(),
        seen.rules[r].domain == seen.domain,
        0 <= j < seen.snapshot.len(),
        agent_laws::concerns(seen.rules[r], seen.snapshot[j], seen.lines),
    ensures
        ({
            let all = seen.candidates(seen.domain_rules());
            &&& 0 <= n < all.len()
            &&& all[n] == seen.candidate(seen.rules[r], seen.snapshot[j])
        }),
{
    let keep = plan::in_domain(seen.domain);
    let own = seen.domain_rules();
    lists::lemma_filter_keeps(seen.rules, keep, r);
    let q = choose|q: int| 0 <= q < own.len() && own[q] == seen.rules[r];
    rules_concern_what_they_name(seen.rules[r], seen.snapshot[j], seen.lines);
    lemma_has_candidate(seen, own, q, j)
}

/// A tick that ends idle has seen no process at or above the trigger load of a rule that is about
/// it.
pub proof fn idle_ticks_saw_nothing_hot(
    seen: Sighting,
    now: Moment,
    deadline: Moment,
    targets: Map<u32, TargetRuntime>,
    replies: Seq<TickReply>,
    r: int,
    j: int,
)
    requires
        agent_laws::gives_cause(seen, r, j),
        tick_laws::after(seen.plan(now, deadline), targets, replies).asks() is None,
    ensures
        tick_laws::after(seen.plan(now, deadline), targets, replies).activity is Hot,
{
    let plan = seen.plan(now, deadline);
    let n = lemma_rule_has_candidate(seen, r, j);
    idle_means_quiet(plan, targets, replies);
    let t = tick_laws::after(plan, targets, replies);
    assert(t.stage is Over);
    if t.activity is Idle {
        assert(plan.candidates[n].cpu.is_below(plan.candidates[n].trigger_cpu));
    }
}

/// The command line of a process is asked for when a rule of the domain with a part of a command
/// line has the process's file name for its name, and only then.
pub proof fn deciding_command_lines_are_asked_for(
    rules: Seq<RuleView>,
    domain: Domain,
    snapshot: Seq<EntryView>,
    j: int,
)
    requires
        0 <= j < snapshot.len(),
    ensures
        plan::wants_args(rules, domain)(snapshot[j]) <==> exists|r: int|
            0 <= r < rules.len() && (#[trigger] rules[r]).domain == domain && rules[r].args_contains
                is Some && match paths::base_name(snapshot[j].name) {
                Some(n) => n == rules[r].name,
                None => rules[r].name.len() == 0,
            },
        plan::wants_args(rules, domain)(snapshot[j]) ==> plan::entry_pids(
            snapshot.filter(plan::wants_args(rules, domain)),
        ).contains(snapshot[j].pid),
{
    let e = snapshot[j];
    let keep = plan::wants_args(rules, domain);
    assert forall|r: int| 0 <= r < rules.len() implies plan::name_matches(#[trigger] rules[r], e)
        == match paths::base_name(e.name) {
        Some(n) => n == rules[r].name,
        None => rules[r].name.len() == 0,
    } by {
        if paths::base_name(e.name) is None {
            assert(rules[r].name.len() == 0 <==> rules[r].name =~= Seq::<char>::empty());
        }
    }
    if keep(e) {
        lists::lemma_filter_keeps(snapshot, keep, j);
        let own = snapshot.filter(keep);
        let m = choose|m: int| 0 <= m < own.len() && own[m] == e;
        assert(plan::entry_pids(own)[m] == e.pid);
    }
}

/// What is remembered of a process stays as it is as long as the process is there, or is left alone.
pub proof fn present_processes_are_remembered(
    targets: Map<u32, TargetRuntime>,
    present: Seq<u32>,
    now: Moment,
    pid: u32,
)
    requires
        targets.contains_key(pid),
    ensures
        present.contains(pid) || (targets[pid].backoff_until is Some
            && targets[pid].backoff_until->0.is_after(now)) <==> agent::retained(
            targets,
            present,
            now,
        ).contains_key(pid),
        agent::retained(targets, present, now).contains_key(pid) ==> agent::retained(
            targets,
            present,
            now,
        )[pid] == targets[pid],
{
}

// ---------------------------------------------------------------------------
// Hot processes
// ---------------------------------------------------------------------------

/// Whether a process is ready for a limiter at this point: it has been hot before, is not left
/// alone, and is not limited.
spec fn is_ready(t: TickView, plan: PlanView, pid: u32) -> bool {
    &&& t.plan == plan
    &&& t.recalled(pid).hot_samples >= 1
    &&& !agent::backed_off(t.recalled(pid), plan.now)
    &&& !t.limited.contains(pid)
}

/// Whether the candidate at `c` is the first for its process, hot, and has no limiter.
spec fn is_first_hot(plan: PlanView, c: int) -> bool {
    &&& 0 <= c < plan.candidates.len()
    &&& !plan.candidates[c].cpu.is_below(plan.candidates[c].trigger_cpu)
    &&& !plan.candidates[c].taken
    &&& forall|i: int| 0 <= i < c ==> (#[trigger] plan.candidates[i]).pid != plan.candidates[c].pid
    &&& forall|i: int| 0 <= i < plan.items.len() ==> (#[trigger] plan.items[i]).target_pid
        != plan.candidates[c].pid
    &&& plan.items.len() + plan.candidates.len() <= 8
}

/// The start of a limiter on a candidate.
spec fn start_of(plan: PlanView, c: int) -> TickRequestView {
    TickRequestView::Start {
        target_pid: plan.candidates[c].pid,
        limit: plan.candidates[c].limit,
    }
}

/// Going on from a candidate that is not behind `c` does not pass `c` by.
proof fn lemma_scan(t: TickView, c0: nat, plan: PlanView, c: int)
    requires
        is_first_hot(plan, c),
        is_ready(t, plan, plan.candidates[c].pid),
        c0 <= c,
        t.active <= plan.items.len() + c0,
    ensures
        ({
            let u = t.to_candidate(c0);
            &&& u.stage is Start
            &&& u.plan == plan
            &&& c0 <= u.at <= c
            &&& u.active == t.active
            &&& u.at < c ==> is_ready(u, plan, plan.candidates[c].pid)
        }),
    decreases c - c0,
{
    let here = TickView { at: c0, ..t };
    let pid = plan.candidates[c].pid;
    if c0 < c {
        assert(plan.candidates[c0 as int].pid != pid);
        let next = here.sampled();
        assert(next.recalled(pid) == t.recalled(pid));
        if !here.is_due() {
            lemma_scan(next, c0 + 1, plan, c);
        }
    } else {
        assert(here.recalled(pid) == t.recalled(pid));
        assert(here.is_due());
    }
}

/// What holds of a tick that has not come to the candidate at `c` yet.
spec fn is_on_the_way(t: TickView, plan: PlanView, c: int) -> bool {
    &&& is_ready(t, plan, plan.candidates[c].pid)
    &&& t.well_formed()
    &&& t.on_items() || (t.on_candidates() && t.at < c && t.active <= plan.items.len() + t.at)
}

/// Whether a tick is on its way, or starts a limiter on the candidate at `c`.
spec fn is_there(t: TickView, plan: PlanView, c: int) -> bool {
    is_on_the_way(t, plan, c) || t.asks() == Some(start_of(plan, c))
}

proof fn lemma_to_item(t: TickView, i: nat, plan: PlanView, c: int)
    requires
        is_first_hot(plan, c),
        is_ready(t, plan, plan.candidates[c].pid),
        i <= plan.items.len(),
        t.active <= i,
    ensures
        is_there(t.to_item(i), plan, c),
{
    let u = t.to_item(i);
    let pid = plan.candidates[c].pid;
    if i < plan.items.len() {
        assert(plan.items[i as int].target_pid != pid);
        assert(u.recalled(pid) == t.recalled(pid));
    } else {
        lemma_scan(t, 0, plan, c);
    }
}

/// As long as the tick is about the same recorded limiter, nothing changes for another process.
proof fn lemma_stays(t: TickView, reply: TickReply, pid: u32)
    requires
        t.well_formed(),
        t.on_items(),
        t.item().target_pid != pid,
    ensures
        ({
            let u = t.answered(reply);
            u.on_items() && u.at == t.at ==> u.recalled(pid) == t.recalled(pid) && u.limited
                == t.limited && u.plan == t.plan && u.well_formed()
        }),
{
    let u = t.answered(reply);
    if u.on_items() && u.at == t.at {
        lemma_kept(t, u, pid, reply);
    }
}

proof fn lemma_kept(t: TickView, u: TickView, pid: u32, reply: TickReply)
    requires
        t.well_formed(),
        t.on_items(),
        t.item().target_pid != pid,
        u == t.answered(reply),
        u.on_items() && u.at == t.at,
    ensures
        u.recalled(pid) == t.recalled(pid),
        u.limited == t.limited,
        u.plan == t.plan,
        u.well_formed(),
{
    let target = t.item().target_pid;
    let pushed = TickView { outcomes: t.outcomes.push(reply is Done), ..t };
    let cleared = TickView { outcomes: Seq::empty(), ..t };
    let failed = limiters::failed_pids(t.item().duplicates, pushed.outcomes);
    let none = limiters::failed_pids(t.item().duplicates, cleared.outcomes);
    let known = t.recalled(target);
    let kept = t.keeping(target, TargetRuntime { cold_samples: t.cold_samples(), ..known });
    lemma_to_candidate(t, 0);
    lemma_to_candidate(pushed, 0);
    lemma_to_candidate(cleared, 0);
    lemma_to_candidate(t.without_one(), 0);
    lemma_to_candidate(t.without_one().freed(), 0);
    lemma_to_candidate(
        TickView { warnings: t.warnings.push(tick::cleanup_warning(target, failed)), ..pushed },
        0,
    );
    lemma_to_candidate(
        TickView { warnings: t.warnings.push(tick::cleanup_warning(target, none)), ..cleared },
        0,
    );
    lemma_to_candidate(kept, 0);
    lemma_to_candidate(TickView { activity: AgentTickActivity::Hot, ..kept }, 0);
    match t.stage {
        Stage::Probe => {
            assert(u.targets == t.targets || u.targets == cleared.leaving_alone(
                target,
                cleared.recalled(target).hot_samples,
            ).targets);
        },
        Stage::ClearOrphans => {
            assert(u.targets == t.targets || u.targets == pushed.leaving_alone(
                target,
                pushed.recalled(target).hot_samples,
            ).targets);
        },
        Stage::Record => {
            assert(u.targets == t.targets || u.targets == t.keeping(
                target,
                TargetRuntime { cold_samples: t.cold_samples(), ..t.recalled(target) },
            ).targets);
        },
        _ => {
            assert(u.targets == t.targets);
        },
    }
    assert(u.recalled(pid) == t.recalled(pid));
}

proof fn lemma_answered(t: TickView, reply: TickReply, plan: PlanView, c: int)
    requires
        is_first_hot(plan, c),
        is_on_the_way(t, plan, c),
    ensures
        is_there(t.answered(reply), plan, c),
{
    let u = t.answered(reply);
    let pid = plan.candidates[c].pid;
    if t.on_items() {
        let target = t.item().target_pid;
        assert(target != pid);
        let pushed = TickView { outcomes: t.outcomes.push(reply is Done), ..t };
        let cleared = TickView { outcomes: Seq::empty(), ..t };
        let failed = limiters::failed_pids(t.item().duplicates, pushed.outcomes);
        let none = limiters::failed_pids(t.item().duplicates, cleared.outcomes);
        let known = t.recalled(target);
        let kept = t.keeping(target, TargetRuntime { cold_samples: t.cold_samples(), ..known });
        let hot = TickView { activity: AgentTickActivity::Hot, ..kept };
        let warned = TickView {
            warnings: t.warnings.push(tick::cleanup_warning(target, failed)),
            ..pushed
        };
        let told = TickView {
            warnings: t.warnings.push(tick::cleanup_warning(target, none)),
            ..cleared
        };
        let next = t.at + 1;
        assert(kept.recalled(pid) == t.recalled(pid));
        assert(hot.recalled(pid) == t.recalled(pid));
        assert(pushed.recalled(pid) == t.recalled(pid));
        assert(cleared.recalled(pid) == t.recalled(pid));
        assert(warned.recalled(pid) == t.recalled(pid));
        assert(told.recalled(pid) == t.recalled(pid));
        assert(t.without_one().recalled(pid) == t.recalled(pid));
        assert(t.without_one().freed().recalled(pid) == t.recalled(pid));
        lemma_to_item(t, next, plan, c);
        lemma_to_item(pushed, next, plan, c);
        lemma_to_item(cleared, next, plan, c);
        lemma_to_item(warned, next, plan, c);
        lemma_to_item(told, next, plan, c);
        lemma_to_item(t.without_one(), next, plan, c);
        lemma_to_item(t.without_one().freed(), next, plan, c);
        lemma_to_item(kept, next, plan, c);
        lemma_to_item(hot, next, plan, c);
        lemma_stays(t, reply, pid);
    } else {
        let other = t.candidate().pid;
        assert(other != pid);
        let left = t.leaving_alone(other, 0);
        let more = t.with_new();
        assert(left.recalled(pid) == t.recalled(pid));
        assert(more.recalled(pid) == t.recalled(pid));
        lemma_scan(left, t.at + 1, plan, c);
        lemma_scan(more, t.at + 1, plan, c);
        if u.on_candidates() && u.at == t.at {
            assert(u.recalled(pid) == t.recalled(pid));
        }
    }
}

proof fn lemma_gets_there(
    plan: PlanView,
    targets: Map<u32, TargetRuntime>,
    replies: Seq<TickReply>,
    c: int,
)
    requires
        is_first_hot(plan, c),
        agent::recalled(targets, plan.candidates[c].pid).hot_samples >= 1,
        !agent::backed_off(agent::recalled(targets, plan.candidates[c].pid), plan.now),
    ensures
        is_on_the_way(tick_laws::after(plan, targets, replies), plan, c)
            || tick_history::was_asked(plan, targets, replies, start_of(plan, c)),
    decreases replies.len(),
{
    let u = tick_laws::after(plan, targets, replies);
    if replies.len() == 0 {
        let t = TickView {
            plan,
            targets,
            limited: Set::empty(),
            active: 0,
            activity: AgentTickActivity::Idle,
            stage: Stage::Over,
            at: 0,
            outcomes: Seq::empty(),
            warnings: Seq::empty(),
        };
        lemma_to_item(t, 0, plan, c);
    } else {
        let before = replies.drop_last();
        lemma_gets_there(plan, targets, before, c);
        let t = tick_laws::after(plan, targets, before);
        if tick_history::was_asked(plan, targets, before, start_of(plan, c)) {
            let m = choose|m: int| #[trigger]
                tick_history::is_asked_at(plan, targets, before, start_of(plan, c), m);
            assert(replies.take(m) =~= before.take(m));
            assert(tick_history::is_asked_at(plan, targets, replies, start_of(plan, c), m));
        } else {
            lemma_answered(t, replies.last(), plan, c);
        }
    }
    if u.asks() == Some(start_of(plan, c)) {
        let n = replies.len() as int;
        assert(replies.take(n) =~= replies);
        assert(tick_history::asks_after(plan, targets, replies) == u.asks()) by {
            reveal(tick_history::asks_after);
        }
        assert(tick_history::is_asked_at(plan, targets, replies, start_of(plan, c), n));
    }
}

/// Whether a process of the snapshot is hot by every rule of the domain that is about it, and there
/// is such a rule; no other entry is for the process, no limiter runs on it, and none that the agent
/// looks after is recorded for it.
pub open spec fn is_hot_and_free(seen: Sighting, j: int) -> bool {
    &&& 0 <= j < seen.snapshot.len()
    &&& exists|r: int| #[trigger] agent_laws::gives_cause(seen, r, j)
    &&& forall|r: int|
        0 <= r < seen.rules.len() && (#[trigger] seen.rules[r]).domain == seen.domain
            && agent_laws::concerns(seen.rules[r], seen.snapshot[j], seen.lines)
            ==> agent_laws::gives_cause(seen, r, j)
    &&& forall|i: int|
        0 <= i < seen.snapshot.len() && i != j ==> (#[trigger] seen.snapshot[i]).pid
            != seen.snapshot[j].pid
    &&& agent_laws::is_unlimited(seen, seen.snapshot[j].pid)
    &&& forall|k: int|
        0 <= k < seen.instances.len() ==> !agent_laws::is_kept(
            seen,
            #[trigger] seen.instances[k],
            seen.snapshot[j].pid,
        )
}

/// A process that is hot, and of which the agent remembers a hot sample, is given a limiter by the
/// time that the tick is over, with the limit of a rule that gives cause for it; unless it is left
/// alone, or the recorded limiters and the candidates are more than eight.
pub proof fn second_hot_sample_starts_a_limiter(
    seen: Sighting,
    now: Moment,
    deadline: Moment,
    targets: Map<u32, TargetRuntime>,
    replies: Seq<TickReply>,
    j: int,
)
    requires
        is_hot_and_free(seen, j),
        agent::recalled(targets, seen.snapshot[j].pid).hot_samples >= 1,
        agent::recalled(targets, seen.snapshot[j].pid).backoff_until matches Some(until)
            ==> !until.is_after(now),
        seen.plan(now, deadline).items.len() + seen.plan(now, deadline).candidates.len() <= 8,
        tick_laws::after(seen.plan(now, deadline), targets, replies).asks() is None,
    ensures
        exists|r: int| #[trigger]
            agent_laws::gives_cause(seen, r, j) && tick_history::was_asked(
                seen.plan(now, deadline),
                targets,
                replies,
                TickRequestView::Start {
                    target_pid: seen.snapshot[j].pid,
                    limit: seen.rules[r].limit,
                },
            ),
{
    let plan = seen.plan(now, deadline);
    let pid = seen.snapshot[j].pid;
    let r0 = choose|r: int| #[trigger] agent_laws::gives_cause(seen, r, j);
    let n = lemma_rule_has_candidate(seen, r0, j);
    let c = lemma_first(plan, pid, n);
    lemma_domain_rules(seen);
    lemma_candidate(seen, seen.domain_rules(), c);
    let (r, i) = choose|r: int, i: int| #[trigger]
        agent_laws::is_candidate_of(seen, plan.candidates[c], r, i);
    assert(i == j);
    assert(agent_laws::gives_cause(seen, r, j));
    assert forall|q: int| 0 <= q < plan.items.len() implies (#[trigger] plan.items[q]).target_pid
        != pid by {
        let k = lemma_item(seen, now, deadline, q);
        assert(agent_laws::is_kept(seen, seen.instances[k], plan.items[q].target_pid));
    }
    assert(is_first_hot(plan, c));
    lemma_gets_there(plan, targets, replies, c);
    let t = tick_laws::after(plan, targets, replies);
    assert(t.stage is Over);
}

/// The first candidate for a process.
proof fn lemma_first(plan: PlanView, pid: u32, n: int) -> (c: int)
    requires
        0 <= n < plan.candidates.len(),
        plan.candidates[n].pid == pid,
    ensures
        0 <= c <= n,
        plan.candidates[c].pid == pid,
        forall|i: int| 0 <= i < c ==> (#[trigger] plan.candidates[i]).pid != pid,
    decreases n,
{
    if exists|i: int| 0 <= i < n && (#[trigger] plan.candidates[i]).pid == pid {
        let i = choose|i: int| 0 <= i < n && (#[trigger] plan.candidates[i]).pid == pid;
        lemma_first(plan, pid, i)
    } else {
        n
    }
}

// ---------------------------------------------------------------------------
// Samples
// ---------------------------------------------------------------------------

/// Whether the candidate at `c` is the only one for its process, and no recorded limiter is on it.
spec fn is_only(plan: PlanView, c: int) -> bool {
    &&& 0 <= c < plan.candidates.len()
    &&& forall|i: int|
        0 <= i < plan.candidates.len() && i != c ==> (#[trigger] plan.candidates[i]).pid
            != plan.candidates[c].pid
    &&& forall|i: int| 0 <= i < plan.items.len() ==> (#[trigger] plan.items[i]).target_pid
        != plan.candidates[c].pid
    &&& plan.present.contains(plan.candidates[c].pid)
}

/// Whether the candidate at `c` gets no limiter, and `then` is what is remembered of its process
/// after it was looked at: no hot sample of one that is not hot; one of one that is hot, may get a
/// limiter, and had none before.
spec fn is_sample(plan: PlanView, c: int, first: TargetRuntime, then: TargetRuntime) -> bool {
    let cold = plan.candidates[c].cpu.is_below(plan.candidates[c].trigger_cpu);
    &&& then.cold_samples == first.cold_samples
    &&& then.backoff_until == first.backoff_until
    &&& cold ==> then.hot_samples == 0
    &&& !cold ==> {
        &&& !plan.candidates[c].taken
        &&& plan.items.len() + plan.candidates.len() <= 8
        &&& !agent::backed_off(first, plan.now)
        &&& first.hot_samples == 0
        &&& then.hot_samples == 1
    }
}

/// What holds of a tick with regard to the process of the candidate at `c`.
spec fn is_counting(
    t: TickView,
    plan: PlanView,
    c: int,
    first: TargetRuntime,
    then: TargetRuntime,
) -> bool {
    let pid = plan.candidates[c].pid;
    &&& t.plan == plan
    &&& t.well_formed()
    &&& !t.limited.contains(pid)
    &&& t.on_items() ==> t.recalled(pid) == first
    &&& t.on_candidates() ==> t.at != c && t.active <= plan.items.len() + t.at && t.recalled(pid)
        == if t.at < c {
        first
    } else {
        then
    } && (t.at > c ==> t.targets.contains_key(pid))
    &&& t.stage is Over ==> t.targets.contains_key(pid) && t.targets[pid] == then
}

proof fn lemma_count_scan(
    t: TickView,
    c0: nat,
    plan: PlanView,
    c: int,
    first: TargetRuntime,
    then: TargetRuntime,
)
    requires
        is_only(plan, c),
        is_sample(plan, c, first, then),
        t.plan == plan,
        c0 <= plan.candidates.len(),
        t.active <= plan.items.len() + c0,
        !t.limited.contains(plan.candidates[c].pid),
        c0 <= c ==> t.recalled(plan.candidates[c].pid) == first,
        c0 > c ==> t.recalled(plan.candidates[c].pid) == then && t.targets.contains_key(
            plan.candidates[c].pid,
        ),
    ensures
        is_counting(t.to_candidate(c0), plan, c, first, then),
    decreases plan.candidates.len() - c0,
{
    let here = TickView { at: c0, ..t };
    let pid = plan.candidates[c].pid;
    let u = t.to_candidate(c0);
    if c0 < plan.candidates.len() {
        let next = here.sampled();
        if c0 == c {
            assert(here.recalled(pid) == first);
            assert(!here.is_due());
            assert(next.targets.contains_key(pid));
            assert(next.recalled(pid) == then);
            lemma_count_scan(next, c0 + 1, plan, c, first, then);
        } else {
            assert(plan.candidates[c0 as int].pid != pid);
            assert(next.recalled(pid) == t.recalled(pid));
            assert(t.targets.contains_key(pid) ==> next.targets.contains_key(pid));
            if here.is_due() {
                lemma_to_candidate(t, c0);
                assert(u.recalled(pid) == t.recalled(pid));
            } else {
                lemma_count_scan(next, c0 + 1, plan, c, first, then);
            }
        }
    } else {
        assert(plan.present.contains(pid));
        assert(u.targets.contains_key(pid));
    }
}

proof fn lemma_count_item(
    t: TickView,
    i: nat,
    plan: PlanView,
    c: int,
    first: TargetRuntime,
    then: TargetRuntime,
)
    requires
        is_only(plan, c),
        is_sample(plan, c, first, then),
        t.plan == plan,
        i <= plan.items.len(),
        t.active <= i,
        !t.limited.contains(plan.candidates[c].pid),
        t.recalled(plan.candidates[c].pid) == first,
    ensures
        is_counting(t.to_item(i), plan, c, first, then),
{
    let u = t.to_item(i);
    let pid = plan.candidates[c].pid;
    if i < plan.items.len() {
        assert(plan.items[i as int].target_pid != pid);
        assert(u.recalled(pid) == t.recalled(pid));
    } else {
        lemma_count_scan(t, 0, plan, c, first, then);
    }
}

proof fn lemma_count_answered(
    t: TickView,
    reply: TickReply,
    plan: PlanView,
    c: int,
    first: TargetRuntime,
    then: TargetRuntime,
)
    requires
        is_only(plan, c),
        is_sample(plan, c, first, then),
        is_counting(t, plan, c, first, then),
    ensures
        is_counting(t.answered(reply), plan, c, first, then),
{
    let u = t.answered(reply);
    let pid = plan.candidates[c].pid;
    if t.on_items() {
        let target = t.item().target_pid;
        assert(target != pid);
        let pushed = TickView { outcomes: t.outcomes.push(reply is Done), ..t };
        let cleared = TickView { outcomes: Seq::empty(), ..t };
        let failed = limiters::failed_pids(t.item().duplicates, pushed.outcomes);
        let none = limiters::failed_pids(t.item().duplicates, cleared.outcomes);
        let known = t.recalled(target);
        let kept = t.keeping(target, TargetRuntime { cold_samples: t.cold_samples(), ..known });
        let hot = TickView { activity: AgentTickActivity::Hot, ..kept };
        let warned = TickView {
            warnings: t.warnings.push(tick::cleanup_warning(target, failed)),
            ..pushed
        };
        let told = TickView {
            warnings: t.warnings.push(tick::cleanup_warning(target, none)),
            ..cleared
        };
        let alone = cleared.leaving_alone(target, cleared.recalled(target).hot_samples);
        let left = pushed.leaving_alone(target, pushed.recalled(target).hot_samples);
        let next = t.at + 1;
        assert(kept.recalled(pid) == first && hot.recalled(pid) == first && pushed.recalled(pid)
            == first && cleared.recalled(pid) == first && warned.recalled(pid) == first
            && told.recalled(pid) == first && alone.recalled(pid) == first && left.recalled(pid)
            == first);
        assert(t.without_one().recalled(pid) == first);
        assert(t.without_one().freed().recalled(pid) == first);
        lemma_count_item(t, next, plan, c, first, then);
        lemma_count_item(pushed, next, plan, c, first, then);
        lemma_count_item(cleared, next, plan, c, first, then);
        lemma_count_item(warned, next, plan, c, first, then);
        lemma_count_item(told, next, plan, c, first, then);
        lemma_count_item(t.without_one(), next, plan, c, first, then);
        lemma_count_item(t.without_one().freed(), next, plan, c, first, then);
        lemma_count_item(kept, next, plan, c, first, then);
        lemma_count_item(hot, next, plan, c, first, then);
        lemma_stays(t, reply, pid);
    } else if t.on_candidates() {
        let other = t.candidate().pid;
        assert(other != pid);
        let left = t.leaving_alone(other, 0);
        let more = t.with_new();
        assert(left.recalled(pid) == t.recalled(pid));
        assert(more.recalled(pid) == t.recalled(pid));
        lemma_count_scan(left, t.at + 1, plan, c, first, then);
        lemma_count_scan(more, t.at + 1, plan, c, first, then);
        if u.on_candidates() && u.at == t.at {
            assert(u.recalled(pid) == t.recalled(pid));
        }
    }
}

proof fn lemma_counts(
    plan: PlanView,
    targets: Map<u32, TargetRuntime>,
    replies: Seq<TickReply>,
    c: int,
    then: TargetRuntime,
)
    requires
        is_only(plan, c),
        is_sample(plan, c, agent::recalled(targets, plan.candidates[c].pid), then),
    ensures
        is_counting(
            tick_laws::after(plan, targets, replies),
            plan,
            c,
            agent::recalled(targets, plan.candidates[c].pid),
            then,
        ),
    decreases replies.len(),
{
    let first = agent::recalled(targets, plan.candidates[c].pid);
    if replies.len() == 0 {
        let t = TickView {
            plan,
            targets,
            limited: Set::empty(),
            active: 0,
            activity: AgentTickActivity::Idle,
            stage: Stage::Over,
            at: 0,
            outcomes: Seq::empty(),
            warnings: Seq::empty(),
        };
        lemma_count_item(t, 0, plan, c, first, then);
    } else {
        let before = replies.drop_last();
        lemma_counts(plan, targets, before, c, then);
        let t = tick_laws::after(plan, targets, before);
        lemma_count_answered(t, replies.last(), plan, c, first, then);
    }
}

/// Whether the rule at `r`, of the domain, is about the process at `j`, which no other entry is for
/// and no limiter that the agent looks after is recorded for.
pub open spec fn is_rule_for(seen: Sighting, r: int, j: int) -> bool {
    &&& 0 <= r < seen.rules.len()
    &&& seen.rules[r].domain == seen.domain
    &&& 0 <= j < seen.snapshot.len()
    &&& agent_laws::concerns(seen.rules[r], seen.snapshot[j], seen.lines)
    &&& forall|i: int|
        0 <= i < seen.snapshot.len() && i != j ==> (#[trigger] seen.snapshot[i]).pid
            != seen.snapshot[j].pid
    &&& forall|k: int|
        0 <= k < seen.instances.len() ==> !agent_laws::is_kept(
            seen,
            #[trigger] seen.instances[k],
            seen.snapshot[j].pid,
        )
}

/// A tick counts the samples of a process that is a candidate once. When the process is below the
/// trigger load, no hot sample of it is remembered any more; when it is not, no limiter runs on it,
/// it is not left alone and no hot sample of it was remembered, one is.
pub proof fn hot_samples_count_in_a_row(
    seen: Sighting,
    now: Moment,
    deadline: Moment,
    targets: Map<u32, TargetRuntime>,
    replies: Seq<TickReply>,
    r: int,
    j: int,
    n: int,
)
    requires
        is_rule_for(seen, r, j),
        0 <= n < seen.plan(now, deadline).candidates.len(),
        seen.plan(now, deadline).candidates[n].pid == seen.snapshot[j].pid,
        forall|i: int|
            0 <= i < seen.plan(now, deadline).candidates.len() && i != n ==> (
            #[trigger] seen.plan(now, deadline).candidates[i]).pid != seen.snapshot[j].pid,
        tick_laws::after(seen.plan(now, deadline), targets, replies).asks() is None,
    ensures
        ({
            let pid = seen.snapshot[j].pid;
            let first = agent::recalled(targets, pid);
            let last = tick_laws::after(seen.plan(now, deadline), targets, replies).targets;
            let cold = seen.snapshot[j].cpu.is_below(seen.rules[r].trigger_cpu);
            let few = seen.plan(now, deadline).items.len() + seen.plan(
                now,
                deadline,
            ).candidates.len() <= 8;
            let alone = first.backoff_until is Some && first.backoff_until->0.is_after(now);
            &&& cold ==> last.contains_key(pid) && last[pid].hot_samples == 0
            &&& !cold && few && !alone && first.hot_samples == 0 && agent_laws::is_unlimited(
                seen,
                pid,
            ) ==> last.contains_key(pid) && last[pid].hot_samples == 1
        }),
{
    let plan = seen.plan(now, deadline);
    let pid = seen.snapshot[j].pid;
    let first = agent::recalled(targets, pid);
    let m = lemma_rule_has_candidate(seen, r, j);
    assert(plan.candidates[m].pid == pid);
    assert(m == n);
    agent_laws::lemma_taken(seen, pid);
    assert forall|q: int| 0 <= q < plan.items.len() implies (#[trigger] plan.items[q]).target_pid
        != pid by {
        let k = lemma_item(seen, now, deadline, q);
        assert(agent_laws::is_kept(seen, seen.instances[k], plan.items[q].target_pid));
    }
    assert(plan.present[j] == pid);
    assert(is_only(plan, n));
    let t = tick_laws::after(plan, targets, replies);
    assert(t.stage is Over);
    let cold = plan.candidates[n].cpu.is_below(plan.candidates[n].trigger_cpu);
    let then = TargetRuntime { hot_samples: if cold { 0 } else { 1 }, ..first };
    if is_sample(plan, n, first, then) {
        lemma_counts(plan, targets, replies, n, then);
    }
}

} // verus!
