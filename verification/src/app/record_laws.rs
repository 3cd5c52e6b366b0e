//! Laws of what is on record: what each change writes, and what it leaves as it was.

use vstd::prelude::*;

use crate::app::agent;
use crate::app::clean;
use crate::app::limit;
use crate::app::plan;
use crate::app::tick::TickRequestView;
use crate::app::unwatch;
use crate::clock::{Moment, Timestamp};
use crate::cpu::CpuPercent;
use crate::lists;
use crate::model::{
    Domain, InstanceView, ManagedMode, RuleView, RulesView, StateView, TargetView,
};
use crate::store;
use crate::store::UpdateView;
use crate::text;
use crate::text_laws::{parts_are_put_together, parts_stand_where_they_were_put};

verus! {

// ---------------------------------------------------------------------------
// Rules
// ---------------------------------------------------------------------------

/// Whether a rule says what an update asks for, and was updated at `now`.
pub open spec fn is_as_asked(r: RuleView, u: UpdateView, now: Timestamp) -> bool {
    &&& r.name == u.name
    &&& r.domain == u.domain
    &&& r.limit == u.limit
    &&& r.trigger_cpu == u.trigger_cpu
    &&& r.release_cpu == u.release_cpu
    &&& r.args_contains == u.args_contains
    &&& r.updated_at == now
}

/// Whether the first rule of a name in a domain stands at `k`.
pub open spec fn is_first_rule(f: RulesView, name: Seq<char>, domain: Domain, k: int) -> bool {
    &&& 0 <= k < f.rules.len()
    &&& f.rules[k].name == name && f.rules[k].domain == domain
    &&& forall|j: int|
        0 <= j < k ==> !((#[trigger] f.rules[j]).name == name && f.rules[j].domain == domain)
}

/// Whether there is a rule of a name in a domain.
pub open spec fn is_known(f: RulesView, name: Seq<char>, domain: Domain) -> bool {
    exists|j: int|
        0 <= j < f.rules.len() && (#[trigger] f.rules[j]).name == name && f.rules[j].domain
            == domain
}

/// An update rewrites the first rule of its name and domain in its place, keeps when it was created,
/// and touches no other rule; where there is none, it adds one behind the others that was created at
/// that time. The rule says what was asked for.
pub proof fn updates_write_one_rule(f: RulesView, u: UpdateView, now: Timestamp, k: int)
    ensures
        ({
            let g = store::upserted(f, u, now);
            let r = store::upserted_rule(f, u, now);
            &&& g.version == 2
            &&& is_as_asked(r, u, now)
            &&& is_first_rule(f, u.name, u.domain, k) ==> {
                &&& g.rules.len() == f.rules.len()
                &&& g.rules[k] == r
                &&& r.created_at == f.rules[k].created_at
                &&& forall|j: int|
                    0 <= j < f.rules.len() && j != k ==> #[trigger] g.rules[j] == f.rules[j]
            }
            &&& !is_known(f, u.name, u.domain) ==> {
                &&& g.rules == f.rules.push(r)
                &&& r.created_at == now
            }
        }),
{
    store::lemma_rule_position(f.rules, u.name, u.domain);
    let m = store::rule_position(f.rules, u.name, u.domain) as int;
    if is_first_rule(f, u.name, u.domain, k) {
        assert(store::is_rule(f.rules[k], u.name, u.domain));
        if m < k {
            assert(!(f.rules[m].name == u.name && f.rules[m].domain == u.domain));
        }
        assert(m == k);
    }
    if !is_known(f, u.name, u.domain) && m < f.rules.len() {
        assert(f.rules[m].name == u.name);
    }
}

/// The rules without those of a name in a domain are all the others, in their order; the rules
/// outside a domain are those of the other domain, in their order.
pub proof fn removal_takes_one_name(f: RulesView, name: Seq<char>, domain: Domain)
    ensures
        unwatch::without_rule(f, name, domain).rules == f.rules.filter(
            |r: RuleView| r.name != name || r.domain != domain,
        ),
        unwatch::without_rule(f, name, domain).version == f.version,
        unwatch::has_rule(f, name, domain) == is_known(f, name, domain),
        clean::rules_outside(f, domain).rules == f.rules.filter(|r: RuleView| r.domain != domain),
        clean::rules_outside(f, domain).version == f.version,
{
    lists::lemma_filter_agree(
        f.rules,
        store::is_other_rule(name, domain),
        |r: RuleView| r.name != name || r.domain != domain,
    );
    lists::lemma_filter_agree(
        f.rules,
        store::is_rule_outside(domain),
        |r: RuleView| r.domain != domain,
    );
    if is_known(f, name, domain) {
        let j = choose|j: int|
            0 <= j < f.rules.len() && (#[trigger] f.rules[j]).name == name && f.rules[j].domain
                == domain;
        assert(store::is_rule(f.rules[j], name, domain));
    }
    if unwatch::has_rule(f, name, domain) {
        let i = choose|i: int|
            0 <= i < f.rules.len() && store::is_rule(#[trigger] f.rules[i], name, domain);
        assert(f.rules[i].name == name);
    }
}

/// A domain has a single rule when one of its rules is there and no second one.
pub proof fn single_rules_stand_alone(f: RulesView, domain: Domain, k: int)
    requires
        0 <= k < f.rules.len(),
        f.rules[k].domain == domain,
    ensures
        unwatch::is_single_rule(f, domain) <==> forall|j: int|
            0 <= j < f.rules.len() && j != k ==> (#[trigger] f.rules[j]).domain != domain,
{
    lemma_count(f.rules, domain, k);
}

/// How many rules a domain has, when one of them stands at `k`.
proof fn lemma_count(rules: Seq<RuleView>, domain: Domain, k: int)
    requires
        0 <= k < rules.len(),
        rules[k].domain == domain,
    ensures
        rules.filter(plan::in_domain(domain)).len() >= 1,
        rules.filter(plan::in_domain(domain)).len() == 1 <==> forall|j: int|
            0 <= j < rules.len() && j != k ==> (#[trigger] rules[j]).domain != domain,
    decreases rules.len(),
{
    let keep = plan::in_domain(domain);
    let t = rules.drop_last();
    let n = rules.len() - 1;
    assert(rules =~= t.push(rules.last()));
    lists::lemma_filter_push(t, rules.last(), keep);
    if k < n {
        lemma_count(t, domain, k);
        if forall|j: int| 0 <= j < rules.len() && j != k ==> (#[trigger] rules[j]).domain != domain {
            assert(rules[n].domain != domain);
            assert forall|j: int| 0 <= j < t.len() && j != k implies (#[trigger] t[j]).domain
                != domain by {
                assert(rules[j].domain != domain);
            }
        }
        if rules.filter(keep).len() == 1 {
            assert forall|j: int| 0 <= j < rules.len() && j != k implies (
            #[trigger] rules[j]).domain != domain by {
                if j < n {
                    assert(t[j].domain != domain);
                }
            }
        }
    } else {
        if t.filter(keep).len() > 0 {
            lists::lemma_filter_member(t, keep, 0);
            let j = choose|j: int| 0 <= j < t.len() && t[j] == t.filter(keep)[0];
            assert(rules[j].domain == domain);
        } else {
            assert forall|j: int| 0 <= j < rules.len() && j != k implies (
            #[trigger] rules[j]).domain != domain by {
                if t[j].domain == domain {
                    lists::lemma_filter_keeps(t, keep, j);
                }
            }
        }
    }
}

// ---------------------------------------------------------------------------
// Instances
// ---------------------------------------------------------------------------

/// Whether an instance got its id from the time at which it was named: the prefix and, where they
/// fit into 64 bits, the nanoseconds between that time and the epoch.
pub open spec fn is_named_at(i: InstanceView, at: Moment) -> bool {
    let nanos = 1_000_000_000 * at.secs + at.nanos;
    &&& 0 <= nanos <= 0x7fff_ffff_ffff_ffff ==> i.id == "ins_"@ + text::decimal(nanos as nat)
    &&& -0x8000_0000_0000_0000 <= nanos < 0 ==> i.id == "ins_"@ + text::decimal(-nanos as nat)
    &&& !(-0x8000_0000_0000_0000 <= nanos <= 0x7fff_ffff_ffff_ffff) ==> i.id == "ins_"@
        + text::decimal(0)
}

/// A one-time limiter is put on record behind what is there, with its process, its domain and
/// nothing that belongs to a watch.
pub proof fn one_time_limiters_are_added(
    s: StateView,
    cpulimit_pid: u32,
    target_pid: u32,
    domain: Domain,
    named_at: Timestamp,
    started_at: Timestamp,
)
    ensures
        ({
            let g = limit::with_adhoc(s, cpulimit_pid, target_pid, domain, named_at, started_at);
            let i = g.instances.last();
            &&& g.version == 2
            &&& g.instances.len() == s.instances.len() + 1
            &&& g.instances.drop_last() == s.instances
            &&& is_named_at(i, named_at.at)
            &&& i.mode == ManagedMode::Adhoc
            &&& i.cpulimit_pid == cpulimit_pid
            &&& i.target == TargetView::Pid(target_pid)
            &&& i.domain == domain
            &&& i.started_at == started_at
            &&& i.rule_name is None && i.limit is None && i.last_observed_cpu is None
                && i.owner_label is None
        }),
{
    let g = limit::with_adhoc(s, cpulimit_pid, target_pid, domain, named_at, started_at);
    assert(g.instances.drop_last() =~= s.instances);
}

/// What a tick asks to be put on record is there with all that was said of it, owned by the agent,
/// in place of any other watch of the domain on its process, and beside everything else.
pub proof fn remembered_limiters_are_added(
    domain: Domain,
    s: StateView,
    cpulimit_pid: u32,
    target_pid: u32,
    rule_name: Seq<char>,
    limit: u16,
    cpu: CpuPercent,
    named_at: Timestamp,
    started_at: Timestamp,
)
    ensures
        ({
            let request = TickRequestView::Remember {
                cpulimit_pid,
                target_pid,
                rule_name,
                limit,
                cpu,
            };
            let g = agent::entered(domain, s, request, named_at, started_at);
            let i = g.instances.last();
            &&& agent::needs_saving(s, request)
            &&& g.version == 2
            &&& g.instances.len() > 0
            &&& g.instances.drop_last() == s.instances.filter(
                |o: InstanceView|
                    o.mode != ManagedMode::Watch || o.domain != domain || o.target
                        != TargetView::Pid(target_pid),
            )
            &&& is_named_at(i, named_at.at)
            &&& i.mode == ManagedMode::Watch
            &&& i.cpulimit_pid == cpulimit_pid
            &&& i.target == TargetView::Pid(target_pid)
            &&& i.rule_name == Some(rule_name)
            &&& i.limit == Some(limit)
            &&& i.last_observed_cpu == Some(cpu)
            &&& i.domain == domain
            &&& i.started_at == started_at
            &&& i.owner_label == Some("com.cpuguard.agent"@)
        }),
{
    let request = TickRequestView::Remember { cpulimit_pid, target_pid, rule_name, limit, cpu };
    let g = agent::entered(domain, s, request, named_at, started_at);
    let kept = s.instances.filter(store::is_not_watch_on(target_pid, domain));
    lists::lemma_filter_agree(
        s.instances,
        store::is_not_watch_on(target_pid, domain),
        |o: InstanceView|
            o.mode != ManagedMode::Watch || o.domain != domain || o.target != TargetView::Pid(
                target_pid,
            ),
    );
    assert(g.instances.drop_last() =~= kept);
}

/// A load that is recorded is noted at every instance of the limiter, and changes nothing else.
pub proof fn recorded_loads_change_nothing_else(
    domain: Domain,
    s: StateView,
    cpulimit_pid: u32,
    cpu: CpuPercent,
    named_at: Timestamp,
    started_at: Timestamp,
    k: int,
)
    requires
        0 <= k < s.instances.len(),
    ensures
        ({
            let request = TickRequestView::Record { cpulimit_pid, cpu };
            let g = agent::entered(domain, s, request, named_at, started_at);
            let i = g.instances[k];
            let o = s.instances[k];
            &&& g.instances.len() == s.instances.len()
            &&& o.cpulimit_pid != cpulimit_pid ==> i == o
            &&& o.cpulimit_pid == cpulimit_pid ==> agent::needs_saving(s, request)
                && i.last_observed_cpu == Some(cpu) && i.id == o.id && i.mode == o.mode
                && i.cpulimit_pid == o.cpulimit_pid && i.target == o.target && i.rule_name
                == o.rule_name && i.limit == o.limit && i.domain == o.domain && i.started_at
                == o.started_at && i.owner_label == o.owner_label
        }),
{
}

/// A load of a limiter that is not on record changes nothing, and needs no saving.
pub proof fn loads_of_unknown_limiters_are_dropped(
    domain: Domain,
    s: StateView,
    cpulimit_pid: u32,
    cpu: CpuPercent,
    named_at: Timestamp,
    started_at: Timestamp,
)
    requires
        forall|k: int|
            0 <= k < s.instances.len() ==> (#[trigger] s.instances[k]).cpulimit_pid != cpulimit_pid,
    ensures
        ({
            let request = TickRequestView::Record { cpulimit_pid, cpu };
            let g = agent::entered(domain, s, request, named_at, started_at);
            &&& g.instances == s.instances
            &&& g.version == s.version
            &&& !agent::needs_saving(s, request)
        }),
{
    let request = TickRequestView::Record { cpulimit_pid, cpu };
    let g = agent::entered(domain, s, request, named_at, started_at);
    assert(g.instances =~= s.instances);
}

/// A limiter that is forgotten is taken off the record wherever it stands there; the others stay, in
/// their order.
pub proof fn forgotten_limiters_leave_the_others(
    domain: Domain,
    s: StateView,
    cpulimit_pid: u32,
    named_at: Timestamp,
    started_at: Timestamp,
)
    ensures
        ({
            let request = TickRequestView::Forget { cpulimit_pid };
            let g = agent::entered(domain, s, request, named_at, started_at);
            &&& g.instances == s.instances.filter(
                |i: InstanceView| i.cpulimit_pid != cpulimit_pid,
            )
            &&& agent::needs_saving(s, request) <==> exists|k: int|
                0 <= k < s.instances.len() && (#[trigger] s.instances[k]).cpulimit_pid
                    == cpulimit_pid
        }),
{
    lists::lemma_filter_agree(
        s.instances,
        store::is_other_limiter(cpulimit_pid),
        |i: InstanceView| i.cpulimit_pid != cpulimit_pid,
    );
}

/// What a tick asks of the operating system leaves the record as it is.
pub proof fn other_requests_leave_the_record(
    domain: Domain,
    s: StateView,
    request: TickRequestView,
    named_at: Timestamp,
    started_at: Timestamp,
)
    requires
        request is Probe || request is Stop || request is Start,
    ensures
        agent::entered(domain, s, request, named_at, started_at) == s,
        !agent::needs_saving(s, request),
{
}

/// The positions of the one-time limiters for a name.
pub open spec fn is_adhoc_at(
    instances: Seq<InstanceView>,
    process_names: Seq<Option<String>>,
    name: Seq<char>,
) -> spec_fn(int) -> bool {
    |k: int|
        instances[k].mode == ManagedMode::Adhoc && (instances[k].target == TargetView::Name(name)
            || (instances[k].target is Pid && process_names[k] is Some && process_names[k]->0@
            == name))
}

/// The one-time limiters for a name are those that were started for the name, or for a process that
/// has it, in their order.
pub proof fn one_time_limiters_are_found_by_name(
    instances: Seq<InstanceView>,
    process_names: Seq<Option<String>>,
    name: Seq<char>,
    n: nat,
)
    requires
        n <= instances.len(),
        process_names.len() == instances.len(),
    ensures
        store::adhoc_for(instances, process_names, name, n as int) == Seq::new(
            n,
            |k: int| k,
        ).filter(is_adhoc_at(instances, process_names, name)).map_values(|k: int| instances[k]),
    decreases n,
{
    let keep = is_adhoc_at(instances, process_names, name);
    let all = Seq::new(n, |k: int| k);
    reveal(Seq::filter);
    if n > 0 {
        let m = (n - 1) as nat;
        let most = Seq::new(m, |k: int| k);
        one_time_limiters_are_found_by_name(instances, process_names, name, m);
        assert(all =~= most.push(m as int));
        lists::lemma_filter_push(most, m as int, keep);
        assert(store::adhoc_for(instances, process_names, name, n as int) =~= all.filter(
            keep,
        ).map_values(|k: int| instances[k]));
    } else {
        assert(all.filter(keep).map_values(|k: int| instances[k]) =~= Seq::empty());
    }
}

// ---------------------------------------------------------------------------
// Cleaning up
// ---------------------------------------------------------------------------

/// Whether an instance is not known to belong to someone else: it has no label, or one that starts
/// with that of this program.
pub open spec fn is_ours(i: InstanceView) -> bool {
    i.owner_label is None || exists|rest: Seq<char>|
        i.owner_label->0 == #[trigger] ("com.cpuguard."@ + rest)
}

/// A label confirms an instance when it is missing, or starts with that of this program.
pub proof fn labels_confirm_by_their_start(i: InstanceView)
    ensures
        clean::is_confirmed(i) <==> is_ours(i),
{
    if i.owner_label is Some {
        let label = i.owner_label->0;
        let start = "com.cpuguard."@;
        parts_are_put_together(label, start);
        if exists|rest: Seq<char>| label == #[trigger] (start + rest) {
            let rest = choose|rest: Seq<char>| label == #[trigger] (start + rest);
            parts_stand_where_they_were_put(Seq::empty(), start, rest);
        }
    }
}

/// The limiters that a clean-up of a domain stops are those that an instance of the domain which is
/// ours records, and none that is not ours.
pub proof fn clean_ups_stop_what_is_ours(s: StateView, domain: Domain, pid: u32)
    ensures
        clean::domain_limiters(s, domain).contains(pid) <==> (exists|k: int|
            0 <= k < s.instances.len() && (#[trigger] s.instances[k]).domain == domain && is_ours(
                s.instances[k],
            ) && s.instances[k].cpulimit_pid == pid) && (forall|k: int|
            0 <= k < s.instances.len() && (#[trigger] s.instances[k]).domain == domain && !is_ours(
                s.instances[k],
            ) ==> s.instances[k].cpulimit_pid != pid),
{
    let keep = clean::belongs(s.instances, domain);
    let mine = s.instances.filter(keep);
    let pids = clean::domain_limiters(s, domain);
    assert forall|k: int| 0 <= k < s.instances.len() implies clean::is_confirmed(
        #[trigger] s.instances[k],
    ) == is_ours(s.instances[k]) by {
        labels_confirm_by_their_start(s.instances[k]);
    }
    if pids.contains(pid) {
        let m = choose|m: int| 0 <= m < pids.len() && pids[m] == pid;
        lists::lemma_filter_member(s.instances, keep, m);
        let k = choose|k: int| 0 <= k < s.instances.len() && s.instances[k] == mine[m];
        assert(s.instances[k].cpulimit_pid == pid);
        assert(!clean::is_contested(s.instances, domain, pid));
    }
    if (exists|k: int|
        0 <= k < s.instances.len() && (#[trigger] s.instances[k]).domain == domain && is_ours(
            s.instances[k],
        ) && s.instances[k].cpulimit_pid == pid) && (forall|k: int|
        0 <= k < s.instances.len() && (#[trigger] s.instances[k]).domain == domain && !is_ours(
            s.instances[k],
        ) ==> s.instances[k].cpulimit_pid != pid) {
        let k = choose|k: int|
            0 <= k < s.instances.len() && (#[trigger] s.instances[k]).domain == domain && is_ours(
                s.instances[k],
            ) && s.instances[k].cpulimit_pid == pid;
        assert(keep(s.instances[k]));
        lists::lemma_filter_keeps(s.instances, keep, k);
        let m = choose|m: int| 0 <= m < mine.len() && mine[m] == s.instances[k];
        assert(pids[m] == pid);
    }
}

/// After a clean-up of a domain the record is what it was without the instances of the domain that
/// are ours and whose limiters were stopped.
pub proof fn clean_ups_leave_the_rest(s: StateView, domain: Domain, stopped: Seq<u32>)
    ensures
        clean::cleaned(s, domain, stopped).version == 2,
        clean::cleaned(s, domain, stopped).instances == s.instances.filter(
            |i: InstanceView| i.domain != domain || !is_ours(i) || !stopped.contains(i.cpulimit_pid),
        ),
{
    assert forall|k: int| 0 <= k < s.instances.len() implies clean::is_confirmed(
        #[trigger] s.instances[k],
    ) == is_ours(s.instances[k]) by {
        labels_confirm_by_their_start(s.instances[k]);
    }
    let rest = |i: InstanceView|
        i.domain != domain || !is_ours(i) || !stopped.contains(i.cpulimit_pid);
    assert forall|k: int| 0 <= k < s.instances.len() implies clean::stays(domain, stopped)(
        #[trigger] s.instances[k],
    ) == rest(s.instances[k]) by {}
    lists::lemma_filter_agree(s.instances, clean::stays(domain, stopped), rest);
}

} // verus!
