//! Laws of the agent: what a tick does with the rules, the processes and the limiters that it sees.

use vstd::prelude::*;

use crate::app::agent;
use crate::app::agent::TargetRuntime;
use crate::app::limiters;
use crate::app::plan;
use crate::app::plan::{Hold, LineView, Sighting};
use crate::app::tick;
use crate::app::tick::{Stage, TickReply, TickRequestView, TickView};
use crate::app::tick_laws;
use crate::app::tick_laws::{lemma_always_sound, lemma_to_candidate};
use crate::clock::Moment;
use crate::infra::process_snapshot::EntryView;
use crate::lists;
use crate::model::{Domain, InstanceView, ManagedMode, RuleView, TargetView};
use crate::paths;
use crate::text;

verus! {

// ---------------------------------------------------------------------------
// Rules and processes
// ---------------------------------------------------------------------------

/// Whether the command line that is known of a process, the first that is listed for it, holds a
/// part.
pub open spec fn shows_part(lines: Seq<LineView>, pid: u32, part: Seq<char>, k: int) -> bool {
    &&& 0 <= k < lines.len()
    &&& lines[k].pid == pid
    &&& forall|j: int| 0 <= j < k ==> (#[trigger] lines[j]).pid != pid
    &&& lines[k].args is Some
    &&& exists|i: int| #[trigger] text::occurs_at(lines[k].args->0, part, i)
}

/// Whether a rule is about a process: the file name of the process is the rule's name and, if the
/// rule names a part of the command line, the process shows it.
pub open spec fn concerns(rule: RuleView, e: EntryView, lines: Seq<LineView>) -> bool {
    &&& match paths::base_name(e.name) {
        Some(n) => n == rule.name,
        None => rule.name.len() == 0,
    }
    &&& rule.args_contains matches Some(part) ==> exists|k: int| #[trigger]
        shows_part(lines, e.pid, part, k)
}

proof fn lemma_args_of(lines: Seq<LineView>, pid: u32, part: Seq<char>)
    ensures
        (plan::args_of(lines, pid) is Some && text::has_part(plan::args_of(lines, pid)->0, part))
            <==> (exists|k: int| #[trigger] shows_part(lines, pid, part, k)),
    decreases lines.len(),
{
    if lines.len() > 0 {
        let rest = lines.skip(1);
        lemma_args_of(rest, pid, part);
        if lines[0].pid == pid {
            if text::has_part(lines[0].args->0, part) && lines[0].args is Some {
                assert(shows_part(lines, pid, part, 0));
            }
            if exists|k: int| #[trigger] shows_part(lines, pid, part, k) {
                let k = choose|k: int| #[trigger] shows_part(lines, pid, part, k);
                assert(k == 0) by {
                    if k > 0 {
                        assert(lines[0].pid != pid);
                    }
                }
            }
        } else {
            if exists|k: int| #[trigger] shows_part(rest, pid, part, k) {
                let k = choose|k: int| #[trigger] shows_part(rest, pid, part, k);
                assert forall|j: int| 0 <= j < k + 1 implies (#[trigger] lines[j]).pid != pid by {
                    if j > 0 {
                        assert(rest[j - 1].pid != pid);
                    }
                }
                assert(rest[k] == lines[k + 1]);
                assert(shows_part(lines, pid, part, k + 1));
            }
            if exists|k: int| #[trigger] shows_part(lines, pid, part, k) {
                let k = choose|k: int| #[trigger] shows_part(lines, pid, part, k);
                assert forall|j: int| 0 <= j < k - 1 implies (#[trigger] rest[j]).pid != pid by {
                    assert(lines[j + 1].pid != pid);
                }
                assert(rest[k - 1] == lines[k]);
                assert(shows_part(rest, pid, part, k - 1));
            }
        }
    }
}

/// A rule is about a process by the file name of the process and, if the rule names one, by a part
/// of its command line.
pub proof fn rules_concern_what_they_name(rule: RuleView, e: EntryView, lines: Seq<LineView>)
    ensures
        plan::matched(rule, e, lines) <==> concerns(rule, e, lines),
{
    if rule.args_contains is Some {
        lemma_args_of(lines, e.pid, rule.args_contains->0);
    }
    if paths::base_name(e.name) is None {
        assert(rule.name.len() == 0 <==> rule.name =~= Seq::<char>::empty());
    }
}

/// Whether the last entry of a snapshot for a process stands at `j`.
pub open spec fn is_last_at(snapshot: Seq<EntryView>, pid: u32, j: int) -> bool {
    &&& 0 <= j < snapshot.len()
    &&& snapshot[j].pid == pid
    &&& forall|i: int| j < i < snapshot.len() ==> (#[trigger] snapshot[i]).pid != pid
}

/// Whether a process is not in a snapshot.
pub open spec fn is_absent(snapshot: Seq<EntryView>, pid: u32) -> bool {
    forall|i: int| 0 <= i < snapshot.len() ==> (#[trigger] snapshot[i]).pid != pid
}

/// The entry of a process is the last one for it.
pub proof fn lemma_last_entry(snapshot: Seq<EntryView>, pid: u32)
    ensures
        match plan::last_entry(snapshot, pid) {
            Some(e) => exists|j: int| #[trigger] is_last_at(snapshot, pid, j) && snapshot[j] == e,
            None => is_absent(snapshot, pid),
        },
    decreases snapshot.len(),
{
    if snapshot.len() > 0 {
        let t = snapshot.drop_last();
        if snapshot.last().pid == pid {
            assert(is_last_at(snapshot, pid, snapshot.len() - 1));
        } else {
            lemma_last_entry(t, pid);
            match plan::last_entry(t, pid) {
                Some(e) => {
                    let j = choose|j: int| #[trigger] is_last_at(t, pid, j) && t[j] == e;
                    assert(snapshot[j] == t[j]);
                    assert forall|i: int| j < i < snapshot.len() implies (
                    #[trigger] snapshot[i]).pid != pid by {
                        if i < t.len() {
                            assert(t[i].pid != pid);
                        }
                    }
                    assert(is_last_at(snapshot, pid, j));
                },
                None => {
                    assert forall|i: int| 0 <= i < snapshot.len() implies (
                    #[trigger] snapshot[i]).pid != pid by {
                        if i < t.len() {
                            assert(t[i].pid != pid);
                        }
                    }
                },
            }
        }
    }
}

// ---------------------------------------------------------------------------
// The rule behind a limiter
// ---------------------------------------------------------------------------

/// Whether a rule stands behind a recorded limiter: it has the recorded name or, where none was
/// recorded, it is about the target.
pub open spec fn backs(
    rule: RuleView,
    i: InstanceView,
    e: Option<EntryView>,
    lines: Seq<LineView>,
) -> bool {
    match i.rule_name {
        Some(name) => name == rule.name,
        None => e is Some && concerns(rule, e->0, lines),
    }
}

/// Whether the first rule of a domain that stands behind a recorded limiter stands at `r`.
pub open spec fn is_first_behind(
    rules: Seq<RuleView>,
    domain: Domain,
    i: InstanceView,
    e: Option<EntryView>,
    lines: Seq<LineView>,
    r: int,
) -> bool {
    &&& 0 <= r < rules.len()
    &&& rules[r].domain == domain
    &&& backs(rules[r], i, e, lines)
    &&& forall|q: int|
        0 <= q < r && (#[trigger] rules[q]).domain == domain ==> !backs(rules[q], i, e, lines)
}

/// Whether no rule of a domain stands behind a recorded limiter.
pub open spec fn has_no_rule(
    rules: Seq<RuleView>,
    domain: Domain,
    i: InstanceView,
    e: Option<EntryView>,
    lines: Seq<LineView>,
) -> bool {
    forall|q: int|
        0 <= q < rules.len() && (#[trigger] rules[q]).domain == domain ==> !backs(
            rules[q],
            i,
            e,
            lines,
        )
}

/// What a hold says of a rule.
pub open spec fn is_hold_of(h: Hold, rule: RuleView, e: Option<EntryView>, lines: Seq<LineView>) -> bool {
    &&& h.release_cpu == rule.release_cpu
    &&& h.still_matches <==> e is Some && concerns(rule, e->0, lines)
}

/// What holds a limiter is the first rule of the domain behind it.
pub proof fn lemma_hold(
    rules: Seq<RuleView>,
    domain: Domain,
    i: InstanceView,
    e: Option<EntryView>,
    lines: Seq<LineView>,
)
    ensures
        match plan::hold_of(rules.filter(plan::in_domain(domain)), i, e, lines) {
            Some(h) => exists|r: int| #[trigger]
                is_first_behind(rules, domain, i, e, lines, r) && is_hold_of(h, rules[r], e, lines),
            None => has_no_rule(rules, domain, i, e, lines),
        },
    decreases rules.len(),
{
    let keep = plan::in_domain(domain);
    if rules.len() == 0 {
        reveal(Seq::filter);
    } else {
        let rest = rules.skip(1);
        let own = rules.filter(keep);
        lists::lemma_filter_first(rules, keep);
        lemma_hold(rest, domain, i, e, lines);
        if e is Some {
            rules_concern_what_they_name(rules[0], e->0, lines);
        }
        let h = plan::hold_of(own, i, e, lines);
        if keep(rules[0]) && backs(rules[0], i, e, lines) {
            assert(own[0] == rules[0]);
            assert(is_first_behind(rules, domain, i, e, lines, 0));
        } else {
            if keep(rules[0]) {
                assert(own[0] == rules[0]);
                assert(own.skip(1) =~= rest.filter(keep));
            }
            assert(h == plan::hold_of(rest.filter(keep), i, e, lines));
            match h {
                Some(found) => {
                    let r = choose|r: int| #[trigger]
                        is_first_behind(rest, domain, i, e, lines, r) && is_hold_of(
                            found,
                            rest[r],
                            e,
                            lines,
                        );
                    assert(rest[r] == rules[r + 1]);
                    assert forall|q: int|
                        0 <= q < r + 1 && (#[trigger] rules[q]).domain == domain implies !backs(
                        rules[q],
                        i,
                        e,
                        lines,
                    ) by {
                        if q > 0 {
                            assert(rest[q - 1] == rules[q]);
                        }
                    }
                    assert(is_first_behind(rules, domain, i, e, lines, r + 1));
                },
                None => {
                    assert forall|q: int|
                        0 <= q < rules.len() && (#[trigger] rules[q]).domain
                            == domain implies !backs(rules[q], i, e, lines) by {
                        if q > 0 {
                            assert(rest[q - 1] == rules[q]);
                        }
                    }
                },
            }
        }
    }
}

// ---------------------------------------------------------------------------
// Letting go
// ---------------------------------------------------------------------------

/// Whether an instance is a limiter that the agent looks after, on this process.
pub open spec fn is_kept(seen: Sighting, i: InstanceView, target: u32) -> bool {
    i.mode == ManagedMode::Watch && i.domain == seen.domain && i.target == TargetView::Pid(target)
}

/// Whether a recorded limiter has no target or no rule any more, when its target is `target`.
pub open spec fn is_lost(seen: Sighting, i: InstanceView, target: u32) -> bool {
    ||| is_absent(seen.snapshot, target)
    ||| exists|j: int| #[trigger]
        is_last_at(seen.snapshot, target, j) && has_no_rule(
            seen.rules,
            seen.domain,
            i,
            Some(seen.snapshot[j]),
            seen.lines,
        )
}

/// Whether a recorded limiter may be let go by its rule: its target, which stands at `j` in the
/// snapshot, is not what the first rule behind the limiter, which stands at `r`, is about; or its
/// load there is at most the load at which that rule lets go.
pub open spec fn may_let_go(seen: Sighting, i: InstanceView, target: u32, j: int, r: int) -> bool {
    &&& is_last_at(seen.snapshot, target, j)
    &&& is_first_behind(seen.rules, seen.domain, i, Some(seen.snapshot[j]), seen.lines, r)
    &&& concerns(seen.rules[r], seen.snapshot[j], seen.lines) ==> seen.snapshot[j].cpu.is_at_most(
        seen.rules[r].release_cpu,
    )
}

/// Whether a limiter is recorded by no instance, and runs on the target of one that the agent looks
/// after.
pub open spec fn is_stray(seen: Sighting, pid: u32) -> bool {
    &&& forall|k: int|
        0 <= k < seen.instances.len() ==> (#[trigger] seen.instances[k]).cpulimit_pid != pid
    &&& exists|k: int, l: int|
        0 <= k < seen.instances.len() && 0 <= l < seen.limiters.len() && (
        #[trigger] seen.limiters[l]).cpulimit_pid == pid && is_kept(
            seen,
            #[trigger] seen.instances[k],
            seen.limiters[l].target_pid,
        )
}

/// The instance that the item at a position of a plan comes from.
pub proof fn lemma_item(seen: Sighting, now: Moment, deadline: Moment, n: int) -> (k: int)
    requires
        0 <= n < seen.plan(now, deadline).items.len(),
    ensures
        0 <= k < seen.instances.len(),
        seen.plan(now, deadline).items[n] == seen.item(seen.instances[k]),
        is_kept(seen, seen.instances[k], seen.item(seen.instances[k]).target_pid),
{
    let keep = plan::is_watched(seen.domain);
    let own = seen.instances.filter(keep);
    lists::lemma_filter_member(seen.instances, keep, n);
    let k = choose|k: int| 0 <= k < seen.instances.len() && seen.instances[k] == own[n];
    assert(seen.items()[n] == seen.item(own[n]));
    k
}

/// What doubles a recorded limiter is recorded nowhere, and runs on its target.
pub proof fn lemma_duplicate(seen: Sighting, k: int, pid: u32)
    requires
        0 <= k < seen.instances.len(),
        is_kept(seen, seen.instances[k], seen.item(seen.instances[k]).target_pid),
        seen.item(seen.instances[k]).duplicates.contains(pid),
    ensures
        is_stray(seen, pid),
{
    let i = seen.instances[k];
    let target = seen.item(i).target_pid;
    let on = limiters::limiters_on(seen.limiters, target);
    let managed = plan::managed_pids(seen.instances);
    let d = seen.item(i).duplicates;
    let m = choose|m: int| 0 <= m < d.len() && d[m] == pid;
    lists::lemma_filter_member(on, limiters::is_duplicate(i.cpulimit_pid, managed), m);
    assert forall|q: int| 0 <= q < seen.instances.len() implies (
    #[trigger] seen.instances[q]).cpulimit_pid != pid by {
        assert(managed[q] == seen.instances[q].cpulimit_pid);
    }
    let n = choose|n: int| 0 <= n < on.len() && on[n] == pid;
    lists::lemma_filter_member(seen.limiters, limiters::holds(target), n);
    let held = seen.limiters.filter(limiters::holds(target));
    let l = choose|l: int| 0 <= l < seen.limiters.len() && seen.limiters[l] == held[n];
    assert(seen.limiters[l].cpulimit_pid == pid);
    assert(is_kept(seen, seen.instances[k], seen.limiters[l].target_pid));
}

/// A tick stops a limiter that it has started itself, or one that is recorded nowhere and runs on
/// the target of a recorded one; or a recorded limiter of its domain. It stops the last only if the
/// target is gone, or no rule of the domain stands behind the limiter, or if the target, as the
/// snapshot shows it, is not what the first rule of the domain behind the limiter is about, or its
/// load there is at most the load at which that rule lets go.
pub proof fn limiters_are_stopped_by_the_release_load(
    seen: Sighting,
    now: Moment,
    deadline: Moment,
    targets: Map<u32, TargetRuntime>,
    replies: Seq<TickReply>,
)
    ensures
        ({
            let t = tick_laws::after(seen.plan(now, deadline), targets, replies);
            t.asks() matches Some(TickRequestView::Stop { cpulimit_pid }) ==> {
                ||| replies.contains(TickReply::Started(cpulimit_pid))
                ||| is_stray(seen, cpulimit_pid)
                ||| exists|k: int, target: u32|
                    0 <= k < seen.instances.len() && (#[trigger] seen.instances[k]).cpulimit_pid
                        == cpulimit_pid && #[trigger] is_kept(seen, seen.instances[k], target) && (
                    is_lost(seen, seen.instances[k], target) || exists|j: int, r: int| #[trigger]
                        may_let_go(seen, seen.instances[k], target, j, r))
            }
        }),
{
    let plan = seen.plan(now, deadline);
    lemma_always_sound(plan, targets, replies);
    let t = tick_laws::after(plan, targets, replies);
    lemma_started(plan, targets, replies);
    if t.on_items() {
        let k = lemma_item(seen, now, deadline, t.at as int);
        let i = seen.instances[k];
        let target = t.item().target_pid;
        assert(t.item() == seen.item(i));
        let e = plan::last_entry(seen.snapshot, target);
        lemma_last_entry(seen.snapshot, target);
        lemma_hold(seen.rules, seen.domain, i, e, seen.lines);
        if t.stage is ClearOrphans || t.stage is ClearDuplicates {
            let pid = t.item().duplicates[t.outcomes.len() as int];
            assert(t.item().duplicates.contains(pid));
            lemma_duplicate(seen, k, pid);
        }
        if t.stage is StopLost || t.stage is StopReleased {
            assert(is_kept(seen, seen.instances[k], target));
            if e is None {
                assert(is_lost(seen, i, target));
            } else {
                let j = choose|j: int| #[trigger]
                    is_last_at(seen.snapshot, target, j) && seen.snapshot[j] == e->0;
                if t.item().hold is None {
                    assert(is_lost(seen, i, target));
                } else {
                    let h = t.item().hold->0;
                    let r = choose|r: int| #[trigger]
                        is_first_behind(seen.rules, seen.domain, i, e, seen.lines, r) && is_hold_of(
                            h,
                            seen.rules[r],
                            e,
                            seen.lines,
                        );
                    assert(may_let_go(seen, i, target, j, r));
                }
            }
        }
    }
}

/// What a tick has just started was started by a reply.
proof fn lemma_started(
    plan: plan::PlanView,
    targets: Map<u32, TargetRuntime>,
    replies: Seq<TickReply>,
)
    ensures
        ({
            let t = tick_laws::after(plan, targets, replies);
            &&& t.stage matches Stage::Remember(pid) ==> replies.contains(TickReply::Started(pid))
            &&& t.stage matches Stage::Undo(pid) ==> replies.contains(TickReply::Started(pid))
        }),
    decreases replies.len(),
{
    if replies.len() == 0 {
        let t = TickView {
            plan,
            targets,
            limited: Set::empty(),
            active: 0,
            activity: agent::AgentTickActivity::Idle,
            stage: Stage::Over,
            at: 0,
            outcomes: Seq::empty(),
            warnings: Seq::empty(),
        };
        lemma_to_candidate(t, 0);
    } else {
        let before = replies.drop_last();
        lemma_started(plan, targets, before);
        lemma_always_sound(plan, targets, before);
        let t = tick_laws::after(plan, targets, before);
        let u = t.answered(replies.last());
        lemma_new_stage(t, replies.last());
        match u.stage {
            Stage::Remember(pid) => {
                assert(replies[replies.len() - 1] == TickReply::Started(pid));
            },
            Stage::Undo(pid) => {
                assert(before.contains(TickReply::Started(pid)));
                let m = choose|m: int| 0 <= m < before.len() && before[m] == TickReply::Started(pid);
                assert(replies[m] == TickReply::Started(pid));
            },
            _ => {},
        }
    }
}

/// A limiter is remembered right after its start, and undone right after that.
pub proof fn lemma_new_stage(t: TickView, reply: TickReply)
    requires
        t.well_formed(),
    ensures
        t.answered(reply).stage matches Stage::Remember(pid) ==> t.stage is Start && reply
            == TickReply::Started(pid),
        t.answered(reply).stage matches Stage::Undo(pid) ==> t.stage == Stage::Remember(pid),
{
    if t.on_items() {
        let pid = t.item().target_pid;
        let pushed = TickView { outcomes: t.outcomes.push(reply is Done), ..t };
        let cleared = TickView { outcomes: Seq::empty(), ..t };
        let failed = limiters::failed_pids(t.item().duplicates, pushed.outcomes);
        let none = limiters::failed_pids(t.item().duplicates, cleared.outcomes);
        let known = t.recalled(pid);
        let kept = t.keeping(pid, TargetRuntime { cold_samples: t.cold_samples(), ..known });
        lemma_to_candidate(t, 0);
        lemma_to_candidate(pushed, 0);
        lemma_to_candidate(cleared, 0);
        lemma_to_candidate(t.without_one(), 0);
        lemma_to_candidate(t.without_one().freed(), 0);
        lemma_to_candidate(
            TickView { warnings: t.warnings.push(tick::cleanup_warning(pid, failed)), ..pushed },
            0,
        );
        lemma_to_candidate(
            TickView { warnings: t.warnings.push(tick::cleanup_warning(pid, none)), ..cleared },
            0,
        );
        lemma_to_candidate(kept, 0);
        lemma_to_candidate(TickView { activity: agent::AgentTickActivity::Hot, ..kept }, 0);
    } else if t.on_candidates() {
        let pid = t.candidate().pid;
        lemma_to_candidate(t.leaving_alone(pid, 0), t.at + 1);
        lemma_to_candidate(t.with_new(), t.at + 1);
    }
}

/// Ordering candidates and going to one of them leaves the cold samples alone.
proof fn lemma_cold(t: TickView, c: nat)
    requires
        c <= t.plan.candidates.len(),
    ensures
        forall|pid: u32| #[trigger]
            t.to_candidate(c).targets.contains_key(pid) ==> t.to_candidate(
                c,
            ).targets[pid].cold_samples == t.recalled(pid).cold_samples,
    decreases t.plan.candidates.len() - c,
{
    let here = TickView { at: c, ..t };
    let u = t.to_candidate(c);
    if c < t.plan.candidates.len() {
        let next = here.sampled();
        assert forall|pid: u32| #[trigger]
            next.recalled(pid).cold_samples == t.recalled(pid).cold_samples by {}
        if here.is_due() {
            assert forall|pid: u32| #[trigger] u.targets.contains_key(pid) implies u.targets[pid].cold_samples
                == t.recalled(pid).cold_samples by {
                assert(next.recalled(pid).cold_samples == t.recalled(pid).cold_samples);
            }
        } else {
            lemma_cold(next, c + 1);
            assert forall|pid: u32| #[trigger] u.targets.contains_key(pid) implies u.targets[pid].cold_samples
                == t.recalled(pid).cold_samples by {
                assert(next.recalled(pid).cold_samples == t.recalled(pid).cold_samples);
            }
        }
    }
}

/// Whether a load was recorded for the recorded limiter at `k`, whose target stands at `j` in the
/// snapshot and whose rule stands at `r`; and the limiter is then stopped if, and only if, the
/// target is not what the rule is about, or its load is at most the load at which the rule lets go
/// for the second time in a row. Else the agent remembers one more such sample, or none; and a
/// target above that load makes for a hot tick.
pub open spec fn is_decided(
    seen: Sighting,
    t: TickView,
    u: TickView,
    k: int,
    target: u32,
    j: int,
    r: int,
) -> bool {
    let rule = seen.rules[r];
    let e = seen.snapshot[j];
    let i = seen.instances[k];
    let cold = e.cpu.is_at_most(rule.release_cpu);
    let before = agent::recalled(t.targets, target).cold_samples;
    &&& 0 <= k < seen.instances.len()
    &&& is_kept(seen, i, target)
    &&& is_last_at(seen.snapshot, target, j)
    &&& is_first_behind(seen.rules, seen.domain, i, Some(e), seen.lines, r)
    &&& t.asks() == Some(
        TickRequestView::Record { cpulimit_pid: i.cpulimit_pid, cpu: e.cpu },
    )
    &&& u.asks() == Some(TickRequestView::Stop { cpulimit_pid: i.cpulimit_pid }) <==> (!concerns(
        rule,
        e,
        seen.lines,
    ) || (cold && before >= 1))
    &&& concerns(rule, e, seen.lines) && !cold ==> u.activity is Hot
    &&& concerns(rule, e, seen.lines) && u.targets.contains_key(target)
        ==> u.targets[target].cold_samples == if !cold {
        0
    } else if before < 255 {
        before + 1
    } else {
        255
    }
}

/// When a tick records a load, that is the load of a recorded limiter's target in the snapshot; and
/// it then stops the limiter if, and only if, the target is not what the first rule behind the
/// limiter is about, or has been at most at that rule's release load twice in a row.
pub proof fn second_cold_sample_releases(
    seen: Sighting,
    now: Moment,
    deadline: Moment,
    targets: Map<u32, TargetRuntime>,
    replies: Seq<TickReply>,
    reply: TickReply,
)
    ensures
        ({
            let t = tick_laws::after(seen.plan(now, deadline), targets, replies);
            let u = tick_laws::after(seen.plan(now, deadline), targets, replies.push(reply));
            t.asks() is Some && t.asks()->0 is Record ==> exists|
                k: int,
                target: u32,
                j: int,
                r: int,
            | #[trigger] is_decided(seen, t, u, k, target, j, r)
        }),
{
    let plan = seen.plan(now, deadline);
    lemma_always_sound(plan, targets, replies);
    let t = tick_laws::after(plan, targets, replies);
    let u = tick_laws::after(plan, targets, replies.push(reply));
    assert(replies.push(reply).drop_last() =~= replies);
    assert(u == t.answered(reply));
    if t.stage is Record {
        let k = lemma_item(seen, now, deadline, t.at as int);
        let i = seen.instances[k];
        let target = t.item().target_pid;
        assert(t.item() == seen.item(i));
        let e = plan::last_entry(seen.snapshot, target);
        lemma_last_entry(seen.snapshot, target);
        lemma_hold(seen.rules, seen.domain, i, e, seen.lines);
        let j = choose|j: int| #[trigger]
            is_last_at(seen.snapshot, target, j) && seen.snapshot[j] == e->0;
        let h = t.item().hold->0;
        let r = choose|r: int| #[trigger]
            is_first_behind(seen.rules, seen.domain, i, e, seen.lines, r) && is_hold_of(
                h,
                seen.rules[r],
                e,
                seen.lines,
            );
        let known = t.recalled(target);
        let kept = t.keeping(target, TargetRuntime { cold_samples: t.cold_samples(), ..known });
        let counted = TickView {
            activity: if t.item().load->0.is_at_most(h.release_cpu) {
                t.activity
            } else {
                agent::AgentTickActivity::Hot
            },
            ..kept
        };
        lemma_to_candidate(counted, 0);
        lemma_cold(counted, 0);
        assert(counted.recalled(target).cold_samples == t.cold_samples());
        assert(is_decided(seen, t, u, k, target, j, r));
    }
}

// ---------------------------------------------------------------------------
// Starting
// ---------------------------------------------------------------------------

/// Whether the rule at `r` gives cause for a limiter on the process at `j` of the snapshot: it is a
/// rule of the domain, it is about the process, and the process's load is not below the load at
/// which the rule starts to limit.
pub open spec fn gives_cause(seen: Sighting, r: int, j: int) -> bool {
    &&& 0 <= r < seen.rules.len()
    &&& seen.rules[r].domain == seen.domain
    &&& 0 <= j < seen.snapshot.len()
    &&& concerns(seen.rules[r], seen.snapshot[j], seen.lines)
    &&& !seen.snapshot[j].cpu.is_below(seen.rules[r].trigger_cpu)
}

/// Whether no limiter runs on a process.
pub open spec fn is_unlimited(seen: Sighting, pid: u32) -> bool {
    forall|l: int| 0 <= l < seen.limiters.len() ==> (#[trigger] seen.limiters[l]).target_pid != pid
}

/// Whether a candidate comes from the rule at `r` and the process at `j`.
pub open spec fn is_candidate_of(seen: Sighting, c: plan::CandidateView, r: int, j: int) -> bool {
    &&& 0 <= r < seen.rules.len()
    &&& seen.rules[r].domain == seen.domain
    &&& 0 <= j < seen.snapshot.len()
    &&& concerns(seen.rules[r], seen.snapshot[j], seen.lines)
    &&& c.pid == seen.snapshot[j].pid
    &&& c.cpu == seen.snapshot[j].cpu
    &&& c.trigger_cpu == seen.rules[r].trigger_cpu
    &&& c.limit == seen.rules[r].limit
    &&& c.rule_name == seen.rules[r].name
    &&& c.taken <==> !is_unlimited(seen, c.pid)
}

/// A process has a limiter when one runs on it.
pub proof fn lemma_taken(seen: Sighting, pid: u32)
    ensures
        limiters::limiters_on(seen.limiters, pid).len() > 0 <==> !is_unlimited(seen, pid),
{
    let keep = limiters::holds(pid);
    let held = seen.limiters.filter(keep);
    if held.len() > 0 {
        lists::lemma_filter_member(seen.limiters, keep, 0);
        let l = choose|l: int| 0 <= l < seen.limiters.len() && seen.limiters[l] == held[0];
        assert(seen.limiters[l].target_pid == pid);
    }
    if !is_unlimited(seen, pid) {
        let l = choose|l: int|
            0 <= l < seen.limiters.len() && (#[trigger] seen.limiters[l]).target_pid == pid;
        lists::lemma_filter_keeps(seen.limiters, keep, l);
    }
}

/// Whether a rule is one of the domain.
pub open spec fn is_own_rule(seen: Sighting, rule: RuleView) -> bool {
    exists|r: int|
        0 <= r < seen.rules.len() && seen.rules[r].domain == seen.domain && #[trigger] seen.rules[r]
            == rule
}

/// Every candidate comes from a rule of the domain and a process that it is about.
pub proof fn lemma_candidate(seen: Sighting, rules: Seq<RuleView>, n: int)
    requires
        0 <= n < seen.candidates(rules).len(),
        forall|q: int| 0 <= q < rules.len() ==> is_own_rule(seen, #[trigger] rules[q]),
    ensures
        exists|r: int, j: int| #[trigger]
            is_candidate_of(seen, seen.candidates(rules)[n], r, j),
    decreases rules.len(),
{
    let most = rules.drop_last();
    let earlier = seen.candidates(most);
    if n < earlier.len() {
        assert forall|q: int| 0 <= q < most.len() implies is_own_rule(seen, #[trigger] most[q]) by {
            assert(most[q] == rules[q]);
        }
        lemma_candidate(seen, most, n);
        assert(seen.candidates(rules)[n] == earlier[n]);
    } else {
        let rule = rules.last();
        assert(rule == rules[rules.len() - 1]);
        assert(is_own_rule(seen, rule));
        let r = choose|r: int|
            0 <= r < seen.rules.len() && seen.rules[r].domain == seen.domain
                && #[trigger] seen.rules[r] == rule;
        let m = n - earlier.len();
        let keep = seen.is_about(rule);
        let own = seen.snapshot.filter(keep);
        lists::lemma_filter_member(seen.snapshot, keep, m);
        let j = choose|j: int| 0 <= j < seen.snapshot.len() && seen.snapshot[j] == own[m];
        assert(seen.candidates(rules)[n] == seen.candidate(rule, own[m]));
        rules_concern_what_they_name(rule, own[m], seen.lines);
        lemma_taken(seen, own[m].pid);
        assert(is_candidate_of(seen, seen.candidates(rules)[n], r, j));
    }
}

/// The rules of the domain are among the rules.
pub proof fn lemma_domain_rules(seen: Sighting)
    ensures
        forall|q: int|
            0 <= q < seen.domain_rules().len() ==> is_own_rule(
                seen,
                #[trigger] seen.domain_rules()[q],
            ),
{
    let keep = plan::in_domain(seen.domain);
    let own = seen.domain_rules();
    assert forall|q: int| 0 <= q < own.len() implies is_own_rule(seen, #[trigger] own[q]) by {
        lists::lemma_filter_member(seen.rules, keep, q);
        let r = choose|r: int| 0 <= r < seen.rules.len() && seen.rules[r] == own[q];
        assert(seen.rules[r] == own[q]);
    }
}

/// Whether the rule at `r` and the process at `j` are what a start is about.
pub open spec fn is_started_for(
    seen: Sighting,
    target_pid: u32,
    limit: u16,
    r: int,
    j: int,
) -> bool {
    &&& gives_cause(seen, r, j)
    &&& seen.snapshot[j].pid == target_pid
    &&& seen.rules[r].limit == limit
}

/// Whether some rule and some process give cause for a limiter with this limit on this process.
pub open spec fn has_cause(seen: Sighting, target_pid: u32, limit: u16) -> bool {
    exists|r: int, j: int| #[trigger] is_started_for(seen, target_pid, limit, r, j)
}

/// Whether a tick asks for a limiter only where a rule gives cause for it, no limiter runs, fewer
/// than eight are kept, and the process is not left alone.
pub open spec fn starts_with_cause(seen: Sighting, now: Moment, t: TickView) -> bool {
    match t.asks() {
        Some(TickRequestView::Start { target_pid, limit }) => {
            &&& has_cause(seen, target_pid, limit)
            &&& is_unlimited(seen, target_pid)
            &&& t.active < 8
            &&& match agent::recalled(t.targets, target_pid).backoff_until {
                Some(until) => !until.is_after(now),
                None => true,
            }
        },
        _ => true,
    }
}

/// A tick starts a limiter only on a process of the snapshot that a rule of its domain is about,
/// whose load is not below that rule's trigger load, on which no limiter runs and which is not left
/// alone, while fewer than eight limiters are kept; and it starts it with that rule's limit.
pub proof fn limiters_are_started_by_the_trigger_load(
    seen: Sighting,
    now: Moment,
    deadline: Moment,
    targets: Map<u32, TargetRuntime>,
    replies: Seq<TickReply>,
)
    ensures
        starts_with_cause(
            seen,
            now,
            tick_laws::after(seen.plan(now, deadline), targets, replies),
        ),
{
    let plan = seen.plan(now, deadline);
    lemma_always_sound(plan, targets, replies);
    lemma_start(seen, plan, tick_laws::after(plan, targets, replies));
}

proof fn lemma_start(seen: Sighting, plan: plan::PlanView, t: TickView)
    requires
        t.plan == plan,
        plan.candidates == seen.candidates(seen.domain_rules()),
        t.stage is Start ==> t.at < plan.candidates.len() && tick_laws::is_justified(t),
    ensures
        starts_with_cause(seen, plan.now, t),
{
    if t.stage is Start {
        lemma_domain_rules(seen);
        lemma_candidate(seen, seen.domain_rules(), t.at as int);
        let (r, j) = choose|r: int, j: int| #[trigger]
            is_candidate_of(seen, t.candidate(), r, j);
        assert(is_started_for(seen, t.candidate().pid, t.candidate().limit, r, j));
        assert(has_cause(seen, t.candidate().pid, t.candidate().limit));
        assert(is_unlimited(seen, t.candidate().pid));
        assert(t.active < 8);
        assert(match t.recalled(t.candidate().pid).backoff_until {
            Some(until) => !until.is_after(plan.now),
            None => true,
        });
        assert(starts_with_cause(seen, plan.now, t));
    } else {
        assert(!(t.asks() is Some && t.asks()->0 is Start));
    }
}

/// A limiter that was started is put on record under the process id of its start, with the rule, the
/// limit, the process and the load that gave cause for it.
pub proof fn started_limiters_are_remembered(
    seen: Sighting,
    now: Moment,
    deadline: Moment,
    targets: Map<u32, TargetRuntime>,
    replies: Seq<TickReply>,
    reply: TickReply,
)
    ensures
        ({
            let t = tick_laws::after(seen.plan(now, deadline), targets, replies);
            let u = tick_laws::after(seen.plan(now, deadline), targets, replies.push(reply));
            t.asks() matches Some(TickRequestView::Start { target_pid, limit }) ==> (reply matches
                TickReply::Started(pid) ==> exists|r: int, j: int| #[trigger]
                    gives_cause(seen, r, j) && seen.snapshot[j].pid == target_pid
                        && seen.rules[r].limit == limit && u.asks() == Some(
                        TickRequestView::Remember {
                            cpulimit_pid: pid,
                            target_pid,
                            rule_name: seen.rules[r].name,
                            limit,
                            cpu: seen.snapshot[j].cpu,
                        },
                    ))
        }),
{
    let plan = seen.plan(now, deadline);
    lemma_always_sound(plan, targets, replies);
    let t = tick_laws::after(plan, targets, replies);
    assert(replies.push(reply).drop_last() =~= replies);
    if t.stage is Start {
        lemma_domain_rules(seen);
        lemma_candidate(seen, seen.domain_rules(), t.at as int);
        let (r, j) = choose|r: int, j: int| #[trigger]
            is_candidate_of(seen, t.candidate(), r, j);
        assert(gives_cause(seen, r, j));
    }
}

} // verus!
