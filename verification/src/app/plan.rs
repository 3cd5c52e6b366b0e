//! What a tick of the agent has to decide on, as plain values.

use vstd::prelude::*;

use crate::app::limiters;
use crate::app::limiters::{cpulimit_pids_for_target, duplicates, Limiter};
use crate::clock::Moment;
use crate::cpu::CpuPercent;
use crate::infra::process_snapshot;
use crate::infra::process_snapshot::{EntryView, ProcessEntry};
use crate::lists;
use crate::model;
use crate::model::{
    Domain, InstanceView, ManagedInstance, ManagedMode, ManagedTarget, Rule, RuleView,
};
use crate::paths;
use crate::paths::file_name_or_empty;
use crate::text;
use crate::text::{contains, same};

verus! {

/// The rule behind a recorded limiter: the load at which it lets go, and whether its target still
/// is what the rule names.
#[derive(Clone, Copy, Debug, PartialEq, Eq, Structural)]
pub struct Hold {
    pub release_cpu: CpuPercent,
    pub still_matches: bool,
}

/// A recorded limiter to look after: the load of its target, if that exists; the rule behind it,
/// if there is one; and the limiters that double it.
#[derive(Debug)]
pub struct WatchItem {
    pub cpulimit_pid: u32,
    pub target_pid: u32,
    pub load: Option<CpuPercent>,
    pub hold: Option<Hold>,
    pub duplicates: Vec<u32>,
}

/// What a [`WatchItem`] holds.
pub struct ItemView {
    pub cpulimit_pid: u32,
    pub target_pid: u32,
    pub load: Option<CpuPercent>,
    pub hold: Option<Hold>,
    pub duplicates: Seq<u32>,
}

impl View for WatchItem {
    type V = ItemView;

    open spec fn view(&self) -> ItemView {
        ItemView {
            cpulimit_pid: self.cpulimit_pid,
            target_pid: self.target_pid,
            load: self.load,
            hold: self.hold,
            duplicates: self.duplicates@,
        }
    }
}

/// A process that a rule names. It is taken if a limiter is running on it.
#[derive(Debug)]
pub struct Candidate {
    pub pid: u32,
    pub cpu: CpuPercent,
    pub trigger_cpu: CpuPercent,
    pub limit: u16,
    pub rule_name: String,
    pub taken: bool,
}

/// What a [`Candidate`] holds.
pub struct CandidateView {
    pub pid: u32,
    pub cpu: CpuPercent,
    pub trigger_cpu: CpuPercent,
    pub limit: u16,
    pub rule_name: Seq<char>,
    pub taken: bool,
}

impl View for Candidate {
    type V = CandidateView;

    open spec fn view(&self) -> CandidateView {
        CandidateView {
            pid: self.pid,
            cpu: self.cpu,
            trigger_cpu: self.trigger_cpu,
            limit: self.limit,
            rule_name: self.rule_name@,
            taken: self.taken,
        }
    }
}

/// All that a tick looks at: the recorded limiters, the candidates for new ones, the processes
/// that exist, the time, and the time until which a target is left alone when something fails.
#[derive(Debug)]
pub struct TickPlan {
    pub items: Vec<WatchItem>,
    pub candidates: Vec<Candidate>,
    pub present: Vec<u32>,
    pub now: Moment,
    pub deadline: Moment,
}

/// What a [`TickPlan`] holds.
pub struct PlanView {
    pub items: Seq<ItemView>,
    pub candidates: Seq<CandidateView>,
    pub present: Seq<u32>,
    pub now: Moment,
    pub deadline: Moment,
}

impl View for TickPlan {
    type V = PlanView;

    open spec fn view(&self) -> PlanView {
        PlanView {
            items: lists::views(self.items@),
            candidates: lists::views(self.candidates@),
            present: self.present@,
            now: self.now,
            deadline: self.deadline,
        }
    }
}

/// The command line of a process, if it could be read.
#[derive(Debug)]
pub struct CommandLine {
    pub pid: u32,
    pub args: Option<String>,
}

/// What a [`CommandLine`] holds.
pub struct LineView {
    pub pid: u32,
    pub args: Option<Seq<char>>,
}

impl View for CommandLine {
    type V = LineView;

    open spec fn view(&self) -> LineView {
        LineView { pid: self.pid, args: text::opt_text(self.args) }
    }
}

/// The command line of `pid` among `lines`.
pub open spec fn args_of(lines: Seq<LineView>, pid: u32) -> Option<Seq<char>>
    decreases lines.len(),
{
    if lines.len() == 0 {
        None
    } else if lines[0].pid == pid {
        lines[0].args
    } else {
        args_of(lines.skip(1), pid)
    }
}

/// Whether the file name of a process is the one that a rule names.
pub open spec fn name_matches(rule: RuleView, entry: EntryView) -> bool {
    paths::base_or_empty(entry.name) == rule.name
}

/// Whether a rule is about a process: by its file name and, if the rule says so, by a part of its
/// command line.
pub open spec fn matched(rule: RuleView, entry: EntryView, lines: Seq<LineView>) -> bool {
    &&& name_matches(rule, entry)
    &&& rule.args_contains is Some ==> args_of(lines, entry.pid) is Some && text::has_part(
        args_of(lines, entry.pid)->0,
        rule.args_contains->0,
    )
}

/// Whether the command line of `pid` is known and holds `needle`.
fn args_contain(lines: &Vec<CommandLine>, pid: u32, needle: &str) -> (r: bool)
    ensures
        r == (args_of(lists::views(lines@), pid) is Some && text::has_part(
            args_of(lists::views(lines@), pid)->0,
            needle@,
        )),
{
    let ghost all = lists::views(lines@);
    let mut i: usize = 0;
    assert(all.skip(0) == all);
    while i < lines.len()
        invariant
            i <= lines.len(),
            all == lists::views(lines@),
            args_of(all, pid) == args_of(all.skip(i as int), pid),
        decreases lines.len() - i,
    {
        assert(all.skip(i as int)[0] == lines@[i as int]@);
        assert(all.skip(i as int).skip(1) == all.skip(i + 1));
        if lines[i].pid == pid {
            return match &lines[i].args {
                Some(args) => contains(args.as_str(), needle),
                None => false,
            };
        }
        i += 1;
    }
    false
}

/// Whether a rule is about a process.
pub fn rule_matches(rule: &Rule, entry: &ProcessEntry, lines: &Vec<CommandLine>) -> (r: bool)
    ensures
        r == matched(rule@, entry@, lists::views(lines@)),
{
    let base = file_name_or_empty(entry.name.as_str());
    if !same(base.as_str(), rule.name.as_str()) {
        return false;
    }
    match &rule.args_contains {
        Some(needle) => args_contain(lines, entry.pid, needle.as_str()),
        None => true,
    }
}

/// Whether a rule belongs to a domain.
pub open spec fn in_domain(domain: Domain) -> spec_fn(RuleView) -> bool {
    |r: RuleView| r.domain == domain
}

/// Whether a command line decides if a rule of the domain is about this process.
pub open spec fn wants_args(rules: Seq<RuleView>, domain: Domain) -> spec_fn(EntryView) -> bool {
    |e: EntryView|
        exists|i: int|
            0 <= i < rules.len() && (#[trigger] rules[i]).domain == domain && name_matches(
                rules[i],
                e,
            ) && rules[i].args_contains is Some
}

/// The process ids of entries.
pub open spec fn entry_pids(entries: Seq<EntryView>) -> Seq<u32> {
    entries.map_values(|e: EntryView| e.pid)
}

/// Whether a command line decides if a rule of the domain is about this process.
fn wants_command_line(rules: &Vec<Rule>, domain: Domain, entry: &ProcessEntry) -> (r: bool)
    ensures
        r == wants_args(model::rules_of(rules@), domain)(entry@),
{
    let ghost all = model::rules_of(rules@);
    let base = file_name_or_empty(entry.name.as_str());
    let mut i: usize = 0;
    while i < rules.len()
        invariant
            i <= rules.len(),
            all == model::rules_of(rules@),
            base@ == paths::base_or_empty(entry@.name),
            forall|j: int|
                0 <= j < i ==> !((#[trigger] all[j]).domain == domain && name_matches(
                    all[j],
                    entry@,
                ) && all[j].args_contains is Some),
        decreases rules.len() - i,
    {
        assert(all[i as int] == rules@[i as int]@);
        if rules[i].domain == domain && same(base.as_str(), rules[i].name.as_str())
            && rules[i].args_contains.is_some() {
            return true;
        }
        i += 1;
    }
    false
}

/// The processes whose command lines decide whether rules of the domain are about them.
pub fn command_lines_wanted(
    rules: &Vec<Rule>,
    domain: Domain,
    snapshot: &Vec<ProcessEntry>,
) -> (r: Vec<u32>)
    ensures
        r@ == entry_pids(
            process_snapshot::entries_of(snapshot@).filter(
                wants_args(model::rules_of(rules@), domain),
            ),
        ),
{
    let ghost all = process_snapshot::entries_of(snapshot@);
    let ghost wanted = wants_args(model::rules_of(rules@), domain);
    let mut out: Vec<u32> = Vec::new();
    let mut i: usize = 0;
    proof {
        reveal(Seq::filter);
        assert(entry_pids(all.take(0).filter(wanted)) =~= Seq::empty());
    }
    while i < snapshot.len()
        invariant
            i <= snapshot.len(),
            all == process_snapshot::entries_of(snapshot@),
            wanted == wants_args(model::rules_of(rules@), domain),
            out@ == entry_pids(all.take(i as int).filter(wanted)),
        decreases snapshot.len() - i,
    {
        proof {
            assert(all.take(i + 1) == all.take(i as int).push(snapshot@[i as int]@));
            lists::lemma_filter_push(all.take(i as int), snapshot@[i as int]@, wanted);
        }
        if wants_command_line(rules, domain, &snapshot[i]) {
            out.push(snapshot[i].pid);
        }
        assert(out@ =~= entry_pids(all.take(i + 1).filter(wanted)));
        i += 1;
    }
    assert(all.take(i as int) == all);
    out
}

/// The process `pid` in a snapshot: the last entry for it.
pub open spec fn last_entry(entries: Seq<EntryView>, pid: u32) -> Option<EntryView>
    decreases entries.len(),
{
    if entries.len() == 0 {
        None
    } else if entries.last().pid == pid {
        Some(entries.last())
    } else {
        last_entry(entries.drop_last(), pid)
    }
}

/// Finds the process `pid` in a snapshot.
fn find_entry(snapshot: &Vec<ProcessEntry>, pid: u32) -> (r: Option<&ProcessEntry>)
    ensures
        match r {
            Some(e) => last_entry(process_snapshot::entries_of(snapshot@), pid) == Some(e@),
            None => last_entry(process_snapshot::entries_of(snapshot@), pid) is None,
        },
{
    let ghost all = process_snapshot::entries_of(snapshot@);
    let mut n: usize = snapshot.len();
    assert(all.take(n as int) == all);
    while n > 0
        invariant
            n <= snapshot.len(),
            all == process_snapshot::entries_of(snapshot@),
            last_entry(all, pid) == last_entry(all.take(n as int), pid),
        decreases n,
    {
        assert(all.take(n as int).last() == snapshot@[n - 1]@);
        assert(all.take(n as int).drop_last() == all.take(n - 1));
        if snapshot[n - 1].pid == pid {
            return Some(&snapshot[n - 1]);
        }
        n -= 1;
    }
    None
}

/// Whether a rule stands behind a recorded limiter: it has the recorded name. A limiter that was
/// recorded without one belongs to a rule that is about its target.
pub open spec fn stands_behind(
    rule: RuleView,
    instance: InstanceView,
    entry: Option<EntryView>,
    lines: Seq<LineView>,
) -> bool {
    match instance.rule_name {
        Some(name) => name == rule.name,
        None => entry is Some && matched(rule, entry->0, lines),
    }
}

/// Whether a rule stands behind a recorded limiter, whose target is `entry`.
pub fn watch_instance_matches_rule(
    instance: &ManagedInstance,
    entry: Option<&ProcessEntry>,
    rule: &Rule,
    lines: &Vec<CommandLine>,
) -> (r: bool)
    ensures
        r == stands_behind(rule@, instance@, viewed(entry), lists::views(lines@)),
{
    match &instance.rule_name {
        Some(name) => same(name.as_str(), rule.name.as_str()),
        None => match entry {
            Some(e) => rule_matches(rule, e, lines),
            None => false,
        },
    }
}

/// What an entry holds, if there is one.
pub open spec fn viewed(entry: Option<&ProcessEntry>) -> Option<EntryView> {
    match entry {
        Some(e) => Some(e@),
        None => None,
    }
}

/// What the first of these rules that stands behind a recorded limiter demands.
pub open spec fn hold_of(
    rules: Seq<RuleView>,
    instance: InstanceView,
    entry: Option<EntryView>,
    lines: Seq<LineView>,
) -> Option<Hold>
    decreases rules.len(),
{
    if rules.len() == 0 {
        None
    } else if stands_behind(rules[0], instance, entry, lines) {
        Some(
            Hold {
                release_cpu: rules[0].release_cpu,
                still_matches: entry is Some && matched(rules[0], entry->0, lines),
            },
        )
    } else {
        hold_of(rules.skip(1), instance, entry, lines)
    }
}

/// Finds what the first rule of the domain that stands behind a recorded limiter demands.
fn find_hold(
    rules: &Vec<Rule>,
    domain: Domain,
    instance: &ManagedInstance,
    entry: Option<&ProcessEntry>,
    lines: &Vec<CommandLine>,
) -> (r: Option<Hold>)
    ensures
        r == hold_of(
            model::rules_of(rules@).filter(in_domain(domain)),
            instance@,
            viewed(entry),
            lists::views(lines@),
        ),
{
    let ghost all = model::rules_of(rules@);
    let ghost keep = in_domain(domain);
    let ghost shown = lists::views(lines@);
    let mut i: usize = 0;
    assert(all.skip(0) == all);
    while i < rules.len()
        invariant
            i <= rules.len(),
            all == model::rules_of(rules@),
            keep == in_domain(domain),
            shown == lists::views(lines@),
            hold_of(all.filter(keep), instance@, viewed(entry), shown) == hold_of(
                all.skip(i as int).filter(keep),
                instance@,
                viewed(entry),
                shown,
            ),
        decreases rules.len() - i,
    {
        proof {
            let rest = all.skip(i as int);
            assert(rest[0] == rules@[i as int]@);
            assert(rest.skip(1) == all.skip(i + 1));
            lists::lemma_filter_first(rest, keep);
        }
        if rules[i].domain == domain {
            if watch_instance_matches_rule(instance, entry, &rules[i], lines) {
                let still_matches = match entry {
                    Some(e) => rule_matches(&rules[i], e, lines),
                    None => false,
                };
                return Some(Hold { release_cpu: rules[i].release_cpu, still_matches });
            }
            assert(all.skip(i as int).filter(keep).skip(1) =~= all.skip(i + 1).filter(keep));
        }
        i += 1;
    }
    proof {
        reveal(Seq::filter);
        assert(all.skip(i as int).filter(keep) =~= Seq::empty());
    }
    None
}

/// Whether the agent of a domain looks after a recorded limiter: it was started for a rule of the
/// domain, on a process id.
pub open spec fn is_watched(domain: Domain) -> spec_fn(InstanceView) -> bool {
    |i: InstanceView| i.mode is Watch && i.domain == domain && i.target is Pid
}

/// The process ids of the limiters that are recorded, for whatever reason.
pub open spec fn managed_pids(instances: Seq<InstanceView>) -> Seq<u32> {
    instances.map_values(|i: InstanceView| i.cpulimit_pid)
}

/// All that is known when a tick begins.
pub struct Sighting {
    pub domain: Domain,
    pub rules: Seq<RuleView>,
    pub snapshot: Seq<EntryView>,
    pub instances: Seq<InstanceView>,
    pub limiters: Seq<Limiter>,
    pub lines: Seq<LineView>,
}

impl Sighting {
    /// The rules of the domain.
    pub open spec fn domain_rules(self) -> Seq<RuleView> {
        self.rules.filter(in_domain(self.domain))
    }

    /// What a tick has to know of a recorded limiter.
    pub open spec fn item(self, instance: InstanceView) -> ItemView {
        let target_pid = instance.target->Pid_0;
        let entry = last_entry(self.snapshot, target_pid);
        ItemView {
            cpulimit_pid: instance.cpulimit_pid,
            target_pid,
            load: match entry {
                Some(e) => Some(e.cpu),
                None => None,
            },
            hold: hold_of(self.domain_rules(), instance, entry, self.lines),
            duplicates: limiters::limiters_on(self.limiters, target_pid).filter(
                limiters::is_duplicate(instance.cpulimit_pid, managed_pids(self.instances)),
            ),
        }
    }

    /// What a tick has to know of each recorded limiter.
    pub open spec fn to_item(self) -> spec_fn(InstanceView) -> ItemView {
        |i: InstanceView| self.item(i)
    }

    /// The recorded limiters that the agent looks after.
    pub open spec fn items(self) -> Seq<ItemView> {
        self.instances.filter(is_watched(self.domain)).map_values(self.to_item())
    }

    /// What a tick has to know of a process that a rule is about.
    pub open spec fn candidate(self, rule: RuleView, entry: EntryView) -> CandidateView {
        CandidateView {
            pid: entry.pid,
            cpu: entry.cpu,
            trigger_cpu: rule.trigger_cpu,
            limit: rule.limit,
            rule_name: rule.name,
            taken: limiters::limiters_on(self.limiters, entry.pid).len() > 0,
        }
    }

    /// Whether a rule is about a process.
    pub open spec fn is_about(self, rule: RuleView) -> spec_fn(EntryView) -> bool {
        |e: EntryView| matched(rule, e, self.lines)
    }

    /// What a tick has to know of each process that a rule is about.
    pub open spec fn to_candidate(self, rule: RuleView) -> spec_fn(EntryView) -> CandidateView {
        |e: EntryView| self.candidate(rule, e)
    }

    /// The processes that a rule is about.
    pub open spec fn candidates_for(self, rule: RuleView) -> Seq<CandidateView> {
        self.snapshot.filter(self.is_about(rule)).map_values(self.to_candidate(rule))
    }

    /// The processes that these rules are about, rule by rule.
    pub open spec fn candidates(self, rules: Seq<RuleView>) -> Seq<CandidateView>
        decreases rules.len(),
    {
        if rules.len() == 0 {
            Seq::empty()
        } else {
            self.candidates(rules.drop_last()) + self.candidates_for(rules.last())
        }
    }

    /// What a tick has to decide on.
    pub open spec fn plan(self, now: Moment, deadline: Moment) -> PlanView {
        PlanView {
            items: self.items(),
            candidates: self.candidates(self.domain_rules()),
            present: entry_pids(self.snapshot),
            now,
            deadline,
        }
    }
}

/// The process ids of recorded limiters.
pub(crate) fn recorded_pids(instances: &Vec<ManagedInstance>) -> (r: Vec<u32>)
    ensures
        r@ == managed_pids(model::instances_of(instances@)),
{
    let mut out: Vec<u32> = Vec::new();
    let mut i: usize = 0;
    while i < instances.len()
        invariant
            i <= instances.len(),
            out@ == managed_pids(model::instances_of(instances@)).take(i as int),
        decreases instances.len() - i,
    {
        out.push(instances[i].cpulimit_pid);
        i += 1;
    }
    out
}

/// What is known when a tick begins, in the values that it is read from.
pub open spec fn sighting(
    domain: Domain,
    rules: Seq<Rule>,
    snapshot: Seq<ProcessEntry>,
    instances: Seq<ManagedInstance>,
    running: Seq<Limiter>,
    lines: Seq<CommandLine>,
) -> Sighting {
    Sighting {
        domain,
        rules: model::rules_of(rules),
        snapshot: process_snapshot::entries_of(snapshot),
        instances: model::instances_of(instances),
        limiters: running,
        lines: lists::views(lines),
    }
}

/// Gathers the recorded limiters that the agent looks after.
fn plan_items(
    domain: Domain,
    rules: &Vec<Rule>,
    snapshot: &Vec<ProcessEntry>,
    instances: &Vec<ManagedInstance>,
    running: &Vec<Limiter>,
    lines: &Vec<CommandLine>,
) -> (r: Vec<WatchItem>)
    ensures
        lists::views(r@) == sighting(
            domain,
            rules@,
            snapshot@,
            instances@,
            running@,
            lines@,
        ).items(),
{
    let ghost seen = sighting(domain, rules@, snapshot@, instances@, running@, lines@);
    let ghost keep = is_watched(domain);
    let ghost to_item = seen.to_item();
    let managed = recorded_pids(instances);
    let mut out: Vec<WatchItem> = Vec::new();
    let mut k: usize = 0;
    proof {
        reveal(Seq::filter);
        assert(lists::views(out@) =~= seen.instances.take(0).filter(keep).map_values(to_item));
    }
    while k < instances.len()
        invariant
            k <= instances.len(),
            seen == sighting(domain, rules@, snapshot@, instances@, running@, lines@),
            keep == is_watched(domain),
            to_item == seen.to_item(),
            managed@ == managed_pids(seen.instances),
            lists::views(out@) == seen.instances.take(k as int).filter(keep).map_values(to_item),
        decreases instances.len() - k,
    {
        let ghost before = out@;
        proof {
            let here = instances@[k as int]@;
            assert(seen.instances.take(k + 1) == seen.instances.take(k as int).push(here));
            lists::lemma_filter_push(seen.instances.take(k as int), here, keep);
        }
        if matches!(instances[k].mode, ManagedMode::Watch) && instances[k].domain == domain {
            match instances[k].target {
                ManagedTarget::Pid(target_pid) => {
                    let entry = find_entry(snapshot, target_pid);
                    let hold = find_hold(rules, domain, &instances[k], entry, lines);
                    let load = match entry {
                        Some(e) => Some(e.cpu),
                        None => None,
                    };
                    let on_target = cpulimit_pids_for_target(running, target_pid);
                    let cpulimit_pid: u32 = instances[k].cpulimit_pid;
                    let item = WatchItem {
                        cpulimit_pid,
                        target_pid,
                        load,
                        hold,
                        duplicates: duplicates(&on_target, cpulimit_pid, &managed),
                    };
                    assert(item@ == seen.item(instances@[k as int]@));
                    out.push(item);
                    assert(lists::views(out@) =~= lists::views(before).push(item@));
                },
                ManagedTarget::Name(_) => {},
            }
        }
        assert(lists::views(out@) =~= seen.instances.take(k + 1).filter(keep).map_values(
            to_item,
        ));
        k += 1;
    }
    assert(seen.instances.take(k as int) == seen.instances);
    out
}

/// Gathers the processes that a rule is about.
fn plan_candidates_for(
    rule: &Rule,
    snapshot: &Vec<ProcessEntry>,
    running: &Vec<Limiter>,
    lines: &Vec<CommandLine>,
    out: &mut Vec<Candidate>,
    Ghost(seen): Ghost<Sighting>,
)
    requires
        seen.snapshot == process_snapshot::entries_of(snapshot@),
        seen.limiters == running@,
        seen.lines == lists::views(lines@),
    ensures
        lists::views(final(out)@) == lists::views(old(out)@) + seen.candidates_for(rule@),
{
    let ghost begun = lists::views(out@);
    let ghost keep = seen.is_about(rule@);
    let ghost to_candidate = seen.to_candidate(rule@);
    let mut k: usize = 0;
    proof {
        reveal(Seq::filter);
        assert(lists::views(out@) =~= begun + seen.snapshot.take(0).filter(keep).map_values(
            to_candidate,
        ));
    }
    while k < snapshot.len()
        invariant
            k <= snapshot.len(),
            seen.snapshot == process_snapshot::entries_of(snapshot@),
            seen.limiters == running@,
            seen.lines == lists::views(lines@),
            keep == seen.is_about(rule@),
            to_candidate == seen.to_candidate(rule@),
            lists::views(out@) == begun + seen.snapshot.take(k as int).filter(keep).map_values(
                to_candidate,
            ),
        decreases snapshot.len() - k,
    {
        proof {
            let here = snapshot@[k as int]@;
            assert(seen.snapshot.take(k + 1) == seen.snapshot.take(k as int).push(here));
            lists::lemma_filter_push(seen.snapshot.take(k as int), here, keep);
        }
        if rule_matches(rule, &snapshot[k], lines) {
            let on_target = cpulimit_pids_for_target(running, snapshot[k].pid);
            let candidate = Candidate {
                pid: snapshot[k].pid,
                cpu: snapshot[k].cpu,
                trigger_cpu: rule.trigger_cpu,
                limit: rule.limit,
                rule_name: rule.name.clone(),
                taken: on_target.len() > 0,
            };
            assert(candidate@ == seen.candidate(rule@, snapshot@[k as int]@));
            let ghost before = out@;
            out.push(candidate);
            assert(lists::views(out@) =~= lists::views(before).push(candidate@));
        }
        assert(lists::views(out@) =~= begun + seen.snapshot.take(k + 1).filter(keep).map_values(
            to_candidate,
        ));
        k += 1;
    }
    assert(seen.snapshot.take(k as int) == seen.snapshot);
}

/// Gathers all that a tick has to decide on.
pub fn plan_tick(
    domain: Domain,
    rules: &Vec<Rule>,
    snapshot: &Vec<ProcessEntry>,
    instances: &Vec<ManagedInstance>,
    running: &Vec<Limiter>,
    lines: &Vec<CommandLine>,
    now: Moment,
    deadline: Moment,
) -> (r: TickPlan)
    ensures
        r@ == sighting(domain, rules@, snapshot@, instances@, running@, lines@).plan(
            now,
            deadline,
        ),
{
    let ghost seen = sighting(domain, rules@, snapshot@, instances@, running@, lines@);
    let ghost keep = in_domain(domain);
    let items = plan_items(domain, rules, snapshot, instances, running, lines);
    let mut candidates: Vec<Candidate> = Vec::new();
    let mut k: usize = 0;
    proof {
        reveal(Seq::filter);
        assert(lists::views(candidates@) =~= seen.candidates(seen.rules.take(0).filter(keep)));
    }
    while k < rules.len()
        invariant
            k <= rules.len(),
            seen == sighting(domain, rules@, snapshot@, instances@, running@, lines@),
            keep == in_domain(domain),
            lists::views(candidates@) == seen.candidates(seen.rules.take(k as int).filter(keep)),
        decreases rules.len() - k,
    {
        proof {
            let here = rules@[k as int]@;
            let taken = seen.rules.take(k as int);
            assert(seen.rules.take(k + 1) == taken.push(here));
            lists::lemma_filter_push(taken, here, keep);
            assert(taken.filter(keep).push(here).drop_last() == taken.filter(keep));
        }
        if rules[k].domain == domain {
            plan_candidates_for(&rules[k], snapshot, running, lines, &mut candidates, Ghost(seen));
        }
        k += 1;
    }
    assert(seen.rules.take(k as int) == seen.rules);
    let mut present: Vec<u32> = Vec::new();
    let mut j: usize = 0;
    while j < snapshot.len()
        invariant
            j <= snapshot.len(),
            present@ == entry_pids(process_snapshot::entries_of(snapshot@)).take(j as int),
        decreases snapshot.len() - j,
    {
        present.push(snapshot[j].pid);
        j += 1;
    }
    let plan = TickPlan { items, candidates, present, now, deadline };
    assert(plan@.present =~= entry_pids(seen.snapshot));
    plan
}

} // verus!
