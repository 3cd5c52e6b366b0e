//! What is kept on disk, and how each operation changes it.

use vstd::prelude::*;

use crate::clock;
use crate::clock::{instance_number_of, local_now, Timestamp};
use crate::cpu::CpuPercent;
use crate::lists;
use crate::lists::retain;
use crate::model;
use crate::model::{
    Domain, InstanceView, ManagedInstance, ManagedMode, ManagedTarget, Rule, RuleView, RulesFile,
    RulesView, StateFile, StateView, TargetView,
};
use crate::text;
use crate::text::{copy_opt, is_text, owned, same, to_decimal};

verus! {

/// What a user wants a rule to say.
#[derive(Debug)]
pub struct RuleUpdate {
    pub name: String,
    pub limit: u16,
    pub trigger_cpu: CpuPercent,
    pub release_cpu: CpuPercent,
    pub args_contains: Option<String>,
    pub domain: Domain,
}

/// What a [`RuleUpdate`] holds.
pub struct UpdateView {
    pub name: Seq<char>,
    pub limit: u16,
    pub trigger_cpu: CpuPercent,
    pub release_cpu: CpuPercent,
    pub args_contains: Option<Seq<char>>,
    pub domain: Domain,
}

impl View for RuleUpdate {
    type V = UpdateView;

    open spec fn view(&self) -> UpdateView {
        UpdateView {
            name: self.name@,
            limit: self.limit,
            trigger_cpu: self.trigger_cpu,
            release_cpu: self.release_cpu,
            args_contains: text::opt_text(self.args_contains),
            domain: self.domain,
        }
    }
}

impl Clone for RuleUpdate {
    fn clone(&self) -> (r: RuleUpdate)
        ensures
            r@ == self@,
    {
        RuleUpdate {
            name: self.name.clone(),
            limit: self.limit,
            trigger_cpu: self.trigger_cpu,
            release_cpu: self.release_cpu,
            args_contains: copy_opt(&self.args_contains),
            domain: self.domain,
        }
    }
}

/// What the agent records of a limiter that it started.
#[derive(Clone, Copy, Debug)]
pub struct WatchInstanceUpdate<'a> {
    pub cpulimit_pid: u32,
    pub target_pid: u32,
    pub rule_name: &'a str,
    pub limit: u16,
    pub last_observed_cpu: CpuPercent,
    pub domain: Domain,
    pub owner_label: &'a str,
}

/// What a [`WatchInstanceUpdate`] holds.
pub struct WatchUpdateView {
    pub cpulimit_pid: u32,
    pub target_pid: u32,
    pub rule_name: Seq<char>,
    pub limit: u16,
    pub last_observed_cpu: CpuPercent,
    pub domain: Domain,
    pub owner_label: Seq<char>,
}

impl<'a> View for WatchInstanceUpdate<'a> {
    type V = WatchUpdateView;

    open spec fn view(&self) -> WatchUpdateView {
        WatchUpdateView {
            cpulimit_pid: self.cpulimit_pid,
            target_pid: self.target_pid,
            rule_name: self.rule_name@,
            limit: self.limit,
            last_observed_cpu: self.last_observed_cpu,
            domain: self.domain,
            owner_label: self.owner_label@,
        }
    }
}

// ---------------------------------------------------------------------------
// Rules
// ---------------------------------------------------------------------------

/// The rules that a file holds: none when there is no file.
pub fn load_rules(stored: Option<RulesFile>) -> (r: RulesFile)
    ensures
        match stored {
            Some(f) => r == f,
            None => r@ == (RulesView { version: 2, rules: Seq::empty() }),
        },
{
    match stored {
        Some(f) => f,
        None => RulesFile::default(),
    }
}

/// Whether `r` is the rule of this name in this domain.
pub open spec fn is_rule(r: RuleView, name: Seq<char>, domain: Domain) -> bool {
    r.name == name && r.domain == domain
}

/// The position of the first rule of this name in this domain, or the number of rules.
pub open spec fn rule_position(rules: Seq<RuleView>, name: Seq<char>, domain: Domain) -> nat
    decreases rules.len(),
{
    if rules.len() == 0 || is_rule(rules[0], name, domain) {
        0
    } else {
        1 + rule_position(rules.skip(1), name, domain)
    }
}

/// What [`rule_position`] means, element by element.
pub proof fn lemma_rule_position(rules: Seq<RuleView>, name: Seq<char>, domain: Domain)
    ensures
        rule_position(rules, name, domain) <= rules.len(),
        forall|i: int|
            0 <= i < rule_position(rules, name, domain) ==> !is_rule(
                #[trigger] rules[i],
                name,
                domain,
            ),
        rule_position(rules, name, domain) < rules.len() ==> is_rule(
            rules[rule_position(rules, name, domain) as int],
            name,
            domain,
        ),
    decreases rules.len(),
{
    if rules.len() > 0 && !is_rule(rules[0], name, domain) {
        lemma_rule_position(rules.skip(1), name, domain);
        assert forall|i: int| 0 <= i < rule_position(rules, name, domain) implies !is_rule(
            #[trigger] rules[i],
            name,
            domain,
        ) by {
            if i > 0 {
                assert(rules.skip(1)[i - 1] == rules[i]);
            }
        }
    }
}

/// Finds the first rule of this name in this domain.
pub fn find_rule(rules: &Vec<Rule>, name: &str, domain: Domain) -> (r: usize)
    ensures
        r == rule_position(model::rules_of(rules@), name@, domain),
        r <= rules.len(),
{
    let ghost all = model::rules_of(rules@);
    let mut i: usize = 0;
    assert(all.skip(0) == all);
    while i < rules.len()
        invariant
            i <= rules.len(),
            all == model::rules_of(rules@),
            rule_position(all, name@, domain) == i + rule_position(
                all.skip(i as int),
                name@,
                domain,
            ),
        decreases rules.len() - i,
    {
        assert(all.skip(i as int)[0] == rules@[i as int]@);
        if rules[i].domain == domain && same(rules[i].name.as_str(), name) {
            return i;
        }
        assert(all.skip(i as int).skip(1) == all.skip(i + 1));
        i += 1;
    }
    i
}

/// The rule that an update makes of an existing one.
pub open spec fn refreshed(old_rule: RuleView, u: UpdateView, now: Timestamp) -> RuleView {
    RuleView {
        name: old_rule.name,
        limit: u.limit,
        trigger_cpu: u.trigger_cpu,
        release_cpu: u.release_cpu,
        args_contains: u.args_contains,
        domain: u.domain,
        created_at: old_rule.created_at,
        updated_at: now,
    }
}

/// The rule that an update creates.
pub open spec fn created(u: UpdateView, now: Timestamp) -> RuleView {
    RuleView {
        name: u.name,
        limit: u.limit,
        trigger_cpu: u.trigger_cpu,
        release_cpu: u.release_cpu,
        args_contains: u.args_contains,
        domain: u.domain,
        created_at: now,
        updated_at: now,
    }
}

/// The rule that an update leads to.
pub open spec fn upserted_rule(f: RulesView, u: UpdateView, now: Timestamp) -> RuleView {
    let k = rule_position(f.rules, u.name, u.domain);
    if k < f.rules.len() {
        refreshed(f.rules[k as int], u, now)
    } else {
        created(u, now)
    }
}

/// The rules after an update: the first rule of its name and domain is rewritten in place, or a
/// new rule is added at the end.
pub open spec fn upserted(f: RulesView, u: UpdateView, now: Timestamp) -> RulesView {
    let k = rule_position(f.rules, u.name, u.domain);
    RulesView {
        version: 2,
        rules: if k < f.rules.len() {
            f.rules.update(k as int, upserted_rule(f, u, now))
        } else {
            f.rules.push(upserted_rule(f, u, now))
        },
    }
}

/// Creates or rewrites a rule at the time `now`.
pub fn upsert_rule_at(rules: &mut RulesFile, update: RuleUpdate, now: Timestamp) -> (r: Rule)
    ensures
        final(rules)@ == upserted(old(rules)@, update@, now),
        r@ == upserted_rule(old(rules)@, update@, now),
{
    let ghost before = rules@;
    let k = find_rule(&rules.rules, update.name.as_str(), update.domain);
    rules.version = 2;
    if k < rules.rules.len() {
        let rule = Rule {
            name: rules.rules[k].name.clone(),
            limit: update.limit,
            trigger_cpu: update.trigger_cpu,
            release_cpu: update.release_cpu,
            args_contains: update.args_contains,
            domain: update.domain,
            created_at: rules.rules[k].created_at,
            updated_at: now,
        };
        assert(before.rules[k as int] == rules.rules@[k as int]@);
        rules.rules[k] = rule.clone();
        assert(rules@.rules =~= before.rules.update(k as int, rule@));
        return rule;
    }
    let rule = Rule {
        name: update.name,
        limit: update.limit,
        trigger_cpu: update.trigger_cpu,
        release_cpu: update.release_cpu,
        args_contains: update.args_contains,
        domain: update.domain,
        created_at: now,
        updated_at: now,
    };
    rules.rules.push(rule.clone());
    assert(rules@.rules =~= before.rules.push(rule@));
    rule
}

/// Creates or rewrites a rule now.
pub fn upsert_rule(rules: &mut RulesFile, update: RuleUpdate) -> (r: Rule)
    ensures
        final(rules)@ == upserted(old(rules)@, update@, r.updated_at),
        r@ == upserted_rule(old(rules)@, update@, r.updated_at),
        r.updated_at.at.on_calendar(),
{
    let now = local_now();
    upsert_rule_at(rules, update, now)
}

/// The rules but that of this name in this domain.
pub open spec fn is_other_rule(name: Seq<char>, domain: Domain) -> spec_fn(RuleView) -> bool {
    |r: RuleView| !is_rule(r, name, domain)
}

/// The rules outside a domain.
pub open spec fn is_rule_outside(domain: Domain) -> spec_fn(RuleView) -> bool {
    |r: RuleView| r.domain != domain
}

/// Removes the rules of this name in this domain. Says whether there were any.
pub fn remove_rule(rules: &mut RulesFile, name: &str, domain: Domain) -> (r: bool)
    ensures
        final(rules)@ == (RulesView {
            version: old(rules)@.version,
            rules: old(rules)@.rules.filter(is_other_rule(name@, domain)),
        }),
        r == (exists|i: int|
            0 <= i < old(rules)@.rules.len() && is_rule(
                #[trigger] old(rules)@.rules[i],
                name@,
                domain,
            )),
{
    let ghost before = rules@;
    let count = rules.rules.len();
    let ghost pred = is_other_rule(name@, domain);
    assert(lists::views(rules.rules@) =~= before.rules);
    let keep = |r: &Rule| -> (b: bool)
        ensures
            b == !is_rule(r@, name@, domain),
    {
        !(r.domain == domain && same(r.name.as_str(), name))
    };
    retain(&mut rules.rules, keep, Ghost(pred));
    proof {
        assert(model::rules_of(rules.rules@) =~= lists::views(rules.rules@));
        lists::lemma_filter_len(before.rules, pred);
        if exists|i: int|
            0 <= i < before.rules.len() && is_rule(#[trigger] before.rules[i], name@, domain) {
            let i = choose|i: int|
                0 <= i < before.rules.len() && is_rule(#[trigger] before.rules[i], name@, domain);
            assert(!pred(before.rules[i]));
        }
    }
    count != rules.rules.len()
}

/// Removes every rule of a domain. Returns how many there were.
pub fn remove_rules_by_domain(rules: &mut RulesFile, domain: Domain) -> (r: usize)
    ensures
        final(rules)@ == (RulesView {
            version: old(rules)@.version,
            rules: old(rules)@.rules.filter(is_rule_outside(domain)),
        }),
        r == old(rules)@.rules.len() - final(rules)@.rules.len(),
{
    let ghost before = rules@;
    let count = rules.rules.len();
    let ghost pred = is_rule_outside(domain);
    assert(lists::views(rules.rules@) =~= before.rules);
    let keep = |r: &Rule| -> (b: bool)
        ensures
            b == (r@.domain != domain),
    {
        r.domain != domain
    };
    retain(&mut rules.rules, keep, Ghost(pred));
    proof {
        assert(model::rules_of(rules.rules@) =~= lists::views(rules.rules@));
        lists::lemma_filter_len(before.rules, pred);
    }
    count - rules.rules.len()
}

// ---------------------------------------------------------------------------
// Instances
// ---------------------------------------------------------------------------

/// The instances that a file holds: none when there is no file.
pub fn load_state(stored: Option<StateFile>) -> (r: StateFile)
    ensures
        match stored {
            Some(f) => r == f,
            None => r@ == (StateView { version: 2, instances: Seq::empty() }),
        },
{
    match stored {
        Some(f) => f,
        None => StateFile::default(),
    }
}

/// The identifier of an instance created at `at`.
pub open spec fn instance_id(at: Timestamp) -> Seq<char> {
    "ins_"@ + text::decimal(clock::instance_number(at.at))
}

fn make_instance_id(at: Timestamp) -> (r: String)
    requires
        at.at.on_calendar(),
    ensures
        r@ == instance_id(at),
{
    text::concat("ins_", to_decimal(instance_number_of(at.at)).as_str())
}

/// An instance that a user started.
pub open spec fn adhoc_instance(
    cpulimit_pid: u32,
    target_pid: u32,
    domain: Domain,
    named_at: Timestamp,
    started_at: Timestamp,
) -> InstanceView {
    InstanceView {
        id: instance_id(named_at),
        mode: ManagedMode::Adhoc,
        cpulimit_pid,
        target: TargetView::Pid(target_pid),
        rule_name: None,
        limit: None,
        last_observed_cpu: None,
        domain,
        started_at,
        owner_label: None,
    }
}

/// Records an instance that a user started: it is named by `named_at`.
pub fn add_adhoc_instance_at(
    state: &mut StateFile,
    cpulimit_pid: u32,
    target_pid: u32,
    domain: Domain,
    named_at: Timestamp,
    started_at: Timestamp,
)
    requires
        named_at.at.on_calendar(),
    ensures
        final(state)@ == (StateView {
            version: 2,
            instances: old(state)@.instances.push(
                adhoc_instance(cpulimit_pid, target_pid, domain, named_at, started_at),
            ),
        }),
{
    let ghost before = state@;
    state.version = 2;
    let instance = ManagedInstance {
        id: make_instance_id(named_at),
        mode: ManagedMode::Adhoc,
        cpulimit_pid,
        target: ManagedTarget::Pid(target_pid),
        rule_name: None,
        limit: None,
        last_observed_cpu: None,
        domain,
        started_at,
        owner_label: None,
    };
    let ghost added = instance@;
    state.instances.push(instance);
    assert(state@.instances =~= before.instances.push(added));
}

/// Records an instance that a user started now.
pub fn add_adhoc_instance(
    state: &mut StateFile,
    cpulimit_pid: u32,
    target_pid: u32,
    domain: Domain,
)
    ensures
        exists|named_at: Timestamp, started_at: Timestamp|
            named_at.at.on_calendar() && started_at.at.on_calendar() && final(state)@ == (StateView {
                version: 2,
                instances: old(state)@.instances.push(
                    #[trigger] adhoc_instance(
                        cpulimit_pid,
                        target_pid,
                        domain,
                        named_at,
                        started_at,
                    ),
                ),
            }),
{
    let named_at = local_now();
    let started_at = local_now();
    add_adhoc_instance_at(state, cpulimit_pid, target_pid, domain, named_at, started_at);
}

/// An instance that the agent started.
pub open spec fn watch_instance(
    u: WatchUpdateView,
    named_at: Timestamp,
    started_at: Timestamp,
) -> InstanceView {
    InstanceView {
        id: instance_id(named_at),
        mode: ManagedMode::Watch,
        cpulimit_pid: u.cpulimit_pid,
        target: TargetView::Pid(u.target_pid),
        rule_name: Some(u.rule_name),
        limit: Some(u.limit),
        last_observed_cpu: Some(u.last_observed_cpu),
        domain: u.domain,
        started_at,
        owner_label: Some(u.owner_label),
    }
}

/// Whether `i` is a watch on this process in this domain.
pub open spec fn is_watch_on(i: InstanceView, target_pid: u32, domain: Domain) -> bool {
    i.mode == ManagedMode::Watch && i.domain == domain && i.target == TargetView::Pid(target_pid)
}

/// The instances but the watches on this process in this domain.
pub open spec fn is_not_watch_on(target_pid: u32, domain: Domain) -> spec_fn(InstanceView) -> bool {
    |i: InstanceView| !is_watch_on(i, target_pid, domain)
}

fn watches_on(i: &ManagedInstance, target_pid: u32, domain: Domain) -> (r: bool)
    ensures
        r == is_watch_on(i@, target_pid, domain),
{
    i.mode == ManagedMode::Watch && i.domain == domain && match &i.target {
        ManagedTarget::Pid(p) => *p == target_pid,
        ManagedTarget::Name(_) => false,
    }
}

/// The instances after a watch was recorded: it replaces what watched the same process in the same
/// domain.
pub open spec fn with_watch(
    s: StateView,
    u: WatchUpdateView,
    named_at: Timestamp,
    started_at: Timestamp,
) -> StateView {
    StateView {
        version: 2,
        instances: s.instances.filter(is_not_watch_on(u.target_pid, u.domain)).push(
            watch_instance(u, named_at, started_at),
        ),
    }
}

/// Records an instance that the agent started: it is named by `named_at`.
pub fn add_watch_instance_at(
    state: &mut StateFile,
    update: WatchInstanceUpdate<'_>,
    named_at: Timestamp,
    started_at: Timestamp,
)
    requires
        named_at.at.on_calendar(),
    ensures
        final(state)@ == with_watch(old(state)@, update@, named_at, started_at),
{
    let ghost before = state@;
    let target_pid = update.target_pid;
    let domain = update.domain;
    let ghost pred = is_not_watch_on(target_pid, domain);
    state.version = 2;
    assert(lists::views(state.instances@) =~= before.instances);
    let keep = |i: &ManagedInstance| -> (b: bool)
        ensures
            b == !is_watch_on(i@, target_pid, domain),
    {
        !watches_on(i, target_pid, domain)
    };
    retain(&mut state.instances, keep, Ghost(pred));
    let ghost kept = model::instances_of(state.instances@);
    assert(kept =~= lists::views(state.instances@));
    let instance = ManagedInstance {
        id: make_instance_id(named_at),
        mode: ManagedMode::Watch,
        cpulimit_pid: update.cpulimit_pid,
        target: ManagedTarget::Pid(target_pid),
        rule_name: Some(owned(update.rule_name)),
        limit: Some(update.limit),
        last_observed_cpu: Some(update.last_observed_cpu),
        domain,
        started_at,
        owner_label: Some(owned(update.owner_label)),
    };
    let ghost added = instance@;
    state.instances.push(instance);
    assert(state@.instances =~= kept.push(added));
}

/// Records an instance that the agent started now.
pub fn add_watch_instance(state: &mut StateFile, update: WatchInstanceUpdate<'_>)
    ensures
        exists|named_at: Timestamp, started_at: Timestamp|
            named_at.at.on_calendar() && started_at.at.on_calendar() && final(state)@
                == #[trigger] with_watch(old(state)@, update@, named_at, started_at),
{
    let named_at = local_now();
    let started_at = local_now();
    add_watch_instance_at(state, update, named_at, started_at);
}

/// An instance after its target's load was observed.
pub open spec fn observed(i: InstanceView, cpulimit_pid: u32, cpu: CpuPercent) -> InstanceView {
    if i.cpulimit_pid == cpulimit_pid {
        InstanceView { last_observed_cpu: Some(cpu), ..i }
    } else {
        i
    }
}

/// Whether a limiter of this process id is recorded.
pub open spec fn is_recorded(s: StateView, cpulimit_pid: u32) -> bool {
    exists|i: int| 0 <= i < s.instances.len() && (#[trigger] s.instances[i]).cpulimit_pid == cpulimit_pid
}

/// The instances after a limiter's target was observed.
pub open spec fn with_observation(s: StateView, cpulimit_pid: u32, cpu: CpuPercent) -> StateView {
    StateView {
        version: if is_recorded(s, cpulimit_pid) {
            2
        } else {
            s.version
        },
        instances: s.instances.map_values(|i: InstanceView| observed(i, cpulimit_pid, cpu)),
    }
}

/// Records the load of the process that a limiter holds. Says whether the limiter is known.
pub fn update_instance_cpu(state: &mut StateFile, cpulimit_pid: u32, cpu: CpuPercent) -> (r: bool)
    ensures
        final(state)@ == with_observation(old(state)@, cpulimit_pid, cpu),
        r == is_recorded(old(state)@, cpulimit_pid),
{
    let ghost before = state@;
    let mut changed = false;
    let mut i: usize = 0;
    while i < state.instances.len()
        invariant
            i <= state.instances.len(),
            state.instances.len() == before.instances.len(),
            state.version == before.version,
            forall|j: int|
                0 <= j < i ==> (#[trigger] state.instances@[j])@ == observed(
                    before.instances[j],
                    cpulimit_pid,
                    cpu,
                ),
            forall|j: int|
                i <= j < before.instances.len() ==> (#[trigger] state.instances@[j])@
                    == before.instances[j],
            changed == (exists|j: int|
                0 <= j < i && (#[trigger] before.instances[j]).cpulimit_pid == cpulimit_pid),
        decreases state.instances.len() - i,
    {
        assert(state.instances@[i as int]@ == before.instances[i as int]);
        if state.instances[i].cpulimit_pid == cpulimit_pid {
            let mut instance = state.instances[i].clone();
            instance.last_observed_cpu = Some(cpu);
            state.instances[i] = instance;
            changed = true;
        }
        i += 1;
    }
    if changed {
        state.version = 2;
    }
    assert(state@.instances =~= with_observation(before, cpulimit_pid, cpu).instances);
    changed
}

/// The instances but those of this limiter.
pub open spec fn is_other_limiter(cpulimit_pid: u32) -> spec_fn(InstanceView) -> bool {
    |i: InstanceView| i.cpulimit_pid != cpulimit_pid
}

/// The instances after a limiter was forgotten.
pub open spec fn without_limiter(s: StateView, cpulimit_pid: u32) -> StateView {
    StateView {
        version: s.version,
        instances: s.instances.filter(is_other_limiter(cpulimit_pid)),
    }
}

/// Forgets a limiter. Says whether it was known.
pub fn remove_instance_by_pid(state: &mut StateFile, cpulimit_pid: u32) -> (r: bool)
    ensures
        final(state)@ == without_limiter(old(state)@, cpulimit_pid),
        r == is_recorded(old(state)@, cpulimit_pid),
{
    let ghost before = state@;
    let count = state.instances.len();
    let ghost pred = is_other_limiter(cpulimit_pid);
    assert(lists::views(state.instances@) =~= before.instances);
    let keep = |i: &ManagedInstance| -> (b: bool)
        ensures
            b == (i@.cpulimit_pid != cpulimit_pid),
    {
        i.cpulimit_pid != cpulimit_pid
    };
    retain(&mut state.instances, keep, Ghost(pred));
    proof {
        assert(model::instances_of(state.instances@) =~= lists::views(state.instances@));
        lists::lemma_filter_len(before.instances, pred);
        if is_recorded(before, cpulimit_pid) {
            let i = choose|i: int|
                0 <= i < before.instances.len() && (#[trigger] before.instances[i]).cpulimit_pid
                    == cpulimit_pid;
            assert(!pred(before.instances[i]));
        }
    }
    count != state.instances.len()
}

/// Whether an instance was started by a user and limits a process of this name. A process id
/// stands for the name that its process has, if it has one.
pub open spec fn is_adhoc_for(
    i: InstanceView,
    process_name: Option<Seq<char>>,
    name: Seq<char>,
) -> bool {
    i.mode == ManagedMode::Adhoc && match i.target {
        TargetView::Pid(_) => process_name == Some(name),
        TargetView::Name(n) => n == name,
    }
}

/// The instances among the first `n` that a user started on processes of this name.
pub open spec fn adhoc_for(
    instances: Seq<InstanceView>,
    process_names: Seq<Option<String>>,
    name: Seq<char>,
    n: int,
) -> Seq<InstanceView>
    decreases n,
{
    if n <= 0 {
        Seq::empty()
    } else {
        let rest = adhoc_for(instances, process_names, name, n - 1);
        if is_adhoc_for(instances[n - 1], text::opt_text(process_names[n - 1]), name) {
            rest.push(instances[n - 1])
        } else {
            rest
        }
    }
}

/// The instances that a user started on processes of this name. `process_names` holds, for each
/// instance, the name of the process that its target's process id has, where there is one.
pub fn list_adhoc_instances_by_target_name(
    state: &StateFile,
    process_names: &Vec<Option<String>>,
    name: &str,
) -> (r: Vec<ManagedInstance>)
    requires
        process_names.len() == state.instances.len(),
    ensures
        model::instances_of(r@) == adhoc_for(
            state@.instances,
            process_names@,
            name@,
            state@.instances.len() as int,
        ),
{
    let mut out: Vec<ManagedInstance> = Vec::new();
    let mut i: usize = 0;
    assert(model::instances_of(out@) =~= Seq::empty());
    while i < state.instances.len()
        invariant
            i <= state.instances.len(),
            process_names.len() == state.instances.len(),
            model::instances_of(out@) == adhoc_for(
                state@.instances,
                process_names@,
                name@,
                i as int,
            ),
        decreases state.instances.len() - i,
    {
        let ghost before = out@;
        let instance = &state.instances[i];
        assert(state@.instances[i as int] == instance@);
        let wanted = instance.mode == ManagedMode::Adhoc && match &instance.target {
            ManagedTarget::Pid(_) => is_text(&process_names[i], name),
            ManagedTarget::Name(n) => same(n.as_str(), name),
        };
        if wanted {
            out.push(instance.clone());
            assert(model::instances_of(out@) =~= model::instances_of(before).push(instance@));
        }
        i += 1;
    }
    out
}

/// Forgets every instance. Returns how many there were.
pub fn clear_all_instances(state: &mut StateFile) -> (r: usize)
    ensures
        final(state)@ == (StateView { version: 2, instances: Seq::empty() }),
        r == old(state)@.instances.len(),
{
    let count = state.instances.len();
    *state = StateFile::default();
    count
}

// ---------------------------------------------------------------------------
// Laws
// ---------------------------------------------------------------------------

/// Whether no two rules have the same name in the same domain.
pub open spec fn unique_rules(rules: Seq<RuleView>) -> bool {
    forall|i: int, j: int|
        0 <= i < j < rules.len() ==> !is_rule(
            #[trigger] rules[j],
            (#[trigger] rules[i]).name,
            rules[i].domain,
        )
}

/// An update is found again under its name and domain, and says what was asked for.
pub proof fn upserted_rule_is_found(f: RulesView, u: UpdateView, now: Timestamp)
    ensures
        rule_position(upserted(f, u, now).rules, u.name, u.domain) < upserted(f, u, now).rules.len(),
        upserted(f, u, now).rules[rule_position(
            upserted(f, u, now).rules,
            u.name,
            u.domain,
        ) as int] == upserted_rule(f, u, now),
        is_rule(upserted_rule(f, u, now), u.name, u.domain),
        upserted_rule(f, u, now).limit == u.limit,
        upserted_rule(f, u, now).trigger_cpu == u.trigger_cpu,
        upserted_rule(f, u, now).release_cpu == u.release_cpu,
        upserted_rule(f, u, now).args_contains == u.args_contains,
        upserted_rule(f, u, now).updated_at == now,
{
    let k = rule_position(f.rules, u.name, u.domain) as int;
    let after = upserted(f, u, now).rules;
    let m = rule_position(after, u.name, u.domain) as int;
    lemma_rule_position(f.rules, u.name, u.domain);
    lemma_rule_position(after, u.name, u.domain);
    assert(after[k] == upserted_rule(f, u, now));
    assert(is_rule(after[k], u.name, u.domain));
    if m < k {
        assert(after[m] == f.rules[m]);
    }
}

/// An update leaves every rule of another name or domain as it was, in its order.
pub proof fn upsert_keeps_other_rules(f: RulesView, u: UpdateView, now: Timestamp)
    ensures
        upserted(f, u, now).rules.filter(is_other_rule(u.name, u.domain)) == f.rules.filter(
            is_other_rule(u.name, u.domain),
        ),
{
    let k = rule_position(f.rules, u.name, u.domain) as int;
    let keep = is_other_rule(u.name, u.domain);
    let r = upserted_rule(f, u, now);
    lemma_rule_position(f.rules, u.name, u.domain);
    if k < f.rules.len() {
        lemma_update_dropped(f.rules, k, r, keep);
    } else {
        lists::lemma_filter_push(f.rules, r, keep);
    }
}

/// Rewriting an element that a filter drops into another that it drops changes nothing of what it
/// keeps.
proof fn lemma_update_dropped(s: Seq<RuleView>, k: int, r: RuleView, keep: spec_fn(RuleView) -> bool)
    requires
        0 <= k < s.len(),
        !keep(s[k]),
        !keep(r),
    ensures
        s.update(k, r).filter(keep) == s.filter(keep),
    decreases s.len(),
{
    reveal(Seq::filter);
    let t = s.drop_last();
    if k < t.len() {
        lemma_update_dropped(t, k, r, keep);
        assert(s.update(k, r).drop_last() == t.update(k, r));
    } else {
        assert(s.update(k, r).drop_last() == t);
    }
}

/// Updates keep the names unique in each domain.
pub proof fn upsert_keeps_rules_unique(f: RulesView, u: UpdateView, now: Timestamp)
    requires
        unique_rules(f.rules),
    ensures
        unique_rules(upserted(f, u, now).rules),
{
    let k = rule_position(f.rules, u.name, u.domain) as int;
    let after = upserted(f, u, now).rules;
    lemma_rule_position(f.rules, u.name, u.domain);
    assert forall|i: int, j: int| 0 <= i < j < after.len() implies !is_rule(
        #[trigger] after[j],
        (#[trigger] after[i]).name,
        after[i].domain,
    ) by {
        if k < f.rules.len() {
            assert(!is_rule(f.rules[j], f.rules[i].name, f.rules[i].domain));
        } else if j < f.rules.len() {
            assert(!is_rule(f.rules[j], f.rules[i].name, f.rules[i].domain));
        } else {
            assert(!is_rule(f.rules[i], u.name, u.domain));
        }
    }
}

/// Removal keeps the names unique in each domain.
pub proof fn removal_keeps_rules_unique(rules: Seq<RuleView>, keep: spec_fn(RuleView) -> bool)
    requires
        unique_rules(rules),
    ensures
        unique_rules(rules.filter(keep)),
    decreases rules.len(),
{
    reveal(Seq::filter);
    if rules.len() > 0 {
        let t = rules.drop_last();
        assert forall|i: int, j: int| 0 <= i < j < t.len() implies !is_rule(
            #[trigger] t[j],
            (#[trigger] t[i]).name,
            t[i].domain,
        ) by {
            assert(!is_rule(rules[j], rules[i].name, rules[i].domain));
        }
        removal_keeps_rules_unique(t, keep);
        let kept = rules.filter(keep);
        if keep(rules.last()) {
            assert forall|i: int, j: int| 0 <= i < j < kept.len() implies !is_rule(
                #[trigger] kept[j],
                (#[trigger] kept[i]).name,
                kept[i].domain,
            ) by {
                if j < t.filter(keep).len() {
                    assert(!is_rule(
                        t.filter(keep)[j],
                        t.filter(keep)[i].name,
                        t.filter(keep)[i].domain,
                    ));
                } else {
                    lists::lemma_filter_member(t, keep, i);
                    let m = choose|m: int| 0 <= m < t.len() && t[m] == t.filter(keep)[i];
                    assert(!is_rule(rules[rules.len() - 1], rules[m].name, rules[m].domain));
                }
            }
        }
    }
}

/// After its removal no rule of a name is left in its domain.
pub proof fn removed_rule_is_gone(rules: Seq<RuleView>, name: Seq<char>, domain: Domain)
    ensures
        forall|i: int|
            0 <= i < rules.filter(is_other_rule(name, domain)).len() ==> !is_rule(
                #[trigger] rules.filter(is_other_rule(name, domain))[i],
                name,
                domain,
            ),
{
    let keep = is_other_rule(name, domain);
    assert forall|i: int| 0 <= i < rules.filter(keep).len() implies !is_rule(
        #[trigger] rules.filter(keep)[i],
        name,
        domain,
    ) by {
        lists::lemma_filter_member(rules, keep, i);
    }
}

/// Removing a rule that was not there before its creation leads back to the rules before.
pub proof fn removal_undoes_creation(f: RulesView, u: UpdateView, now: Timestamp)
    requires
        rule_position(f.rules, u.name, u.domain) == f.rules.len(),
    ensures
        upserted(f, u, now).rules.filter(is_other_rule(u.name, u.domain)) == f.rules,
{
    let keep = is_other_rule(u.name, u.domain);
    upsert_keeps_other_rules(f, u, now);
    lemma_rule_position(f.rules, u.name, u.domain);
    lists::lemma_filter_len(f.rules, keep);
    assert forall|i: int| 0 <= i < f.rules.len() implies keep(#[trigger] f.rules[i]) by {
        assert(!is_rule(f.rules[i], u.name, u.domain));
    }
}

/// Removing a rule, or all rules of a domain, leaves the rules of the other domain as they were.
pub proof fn removal_is_scoped_to_its_domain(rules: Seq<RuleView>, name: Seq<char>, domain: Domain)
    ensures
        rules.filter(is_other_rule(name, domain)).filter(is_rule_outside(domain)) == rules.filter(
            is_rule_outside(domain),
        ),
        rules.filter(is_rule_outside(domain)).filter(is_rule_outside(domain)) == rules.filter(
            is_rule_outside(domain),
        ),
{
    let outside = is_rule_outside(domain);
    let other = is_other_rule(name, domain);
    lists::lemma_filter_filter(rules, other, outside);
    lists::lemma_filter_agree(rules, |r: RuleView| other(r) && outside(r), outside);
    lists::lemma_filter_filter(rules, outside, outside);
    lists::lemma_filter_agree(rules, |r: RuleView| outside(r) && outside(r), outside);
}

/// A watch is the only one on its process in its domain, however often it is recorded; what else
/// was recorded stays.
pub proof fn one_watch_per_target(
    s: StateView,
    u: WatchUpdateView,
    named_at: Timestamp,
    started_at: Timestamp,
)
    ensures
        ({
            let after = with_watch(s, u, named_at, started_at).instances;
            &&& is_watch_on(after.last(), u.target_pid, u.domain)
            &&& after.last().cpulimit_pid == u.cpulimit_pid
            &&& forall|i: int|
                0 <= i < after.len() - 1 ==> !is_watch_on(
                    #[trigger] after[i],
                    u.target_pid,
                    u.domain,
                )
            &&& after.filter(is_not_watch_on(u.target_pid, u.domain)) == s.instances.filter(
                is_not_watch_on(u.target_pid, u.domain),
            )
        }),
{
    let keep = is_not_watch_on(u.target_pid, u.domain);
    let kept = s.instances.filter(keep);
    let after = with_watch(s, u, named_at, started_at).instances;
    assert forall|i: int| 0 <= i < after.len() - 1 implies !is_watch_on(
        #[trigger] after[i],
        u.target_pid,
        u.domain,
    ) by {
        lists::lemma_filter_member(s.instances, keep, i);
        assert(after[i] == kept[i]);
    }
    lists::lemma_filter_push(kept, after.last(), keep);
    lists::lemma_filter_filter(s.instances, keep, keep);
    lists::lemma_filter_agree(s.instances, |i: InstanceView| keep(i) && keep(i), keep);
}

/// A forgotten limiter is not recorded any more; the others still are.
pub proof fn forgotten_limiter_is_gone(s: StateView, cpulimit_pid: u32, other: u32)
    requires
        other != cpulimit_pid,
    ensures
        !is_recorded(without_limiter(s, cpulimit_pid), cpulimit_pid),
        is_recorded(without_limiter(s, cpulimit_pid), other) == is_recorded(s, other),
{
    let keep = is_other_limiter(cpulimit_pid);
    let after = without_limiter(s, cpulimit_pid);
    if is_recorded(after, cpulimit_pid) {
        let i = choose|i: int|
            0 <= i < after.instances.len() && (#[trigger] after.instances[i]).cpulimit_pid
                == cpulimit_pid;
        lists::lemma_filter_member(s.instances, keep, i);
    }
    if is_recorded(after, other) {
        let i = choose|i: int|
            0 <= i < after.instances.len() && (#[trigger] after.instances[i]).cpulimit_pid == other;
        lists::lemma_filter_member(s.instances, keep, i);
        let j = choose|j: int|
            0 <= j < s.instances.len() && s.instances[j] == s.instances.filter(keep)[i];
        assert(s.instances[j].cpulimit_pid == other);
    }
    if is_recorded(s, other) {
        let i = choose|i: int|
            0 <= i < s.instances.len() && (#[trigger] s.instances[i]).cpulimit_pid == other;
        lists::lemma_filter_keeps(s.instances, keep, i);
        let j = choose|j: int|
            0 <= j < s.instances.filter(keep).len() && s.instances.filter(keep)[j]
                == s.instances[i];
        assert(after.instances[j].cpulimit_pid == other);
    }
}

} // verus!
