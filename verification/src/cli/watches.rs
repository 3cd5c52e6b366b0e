//! The list of watch rules.

use vstd::prelude::*;

use crate::app::plan;
use crate::app::plan::{rule_matches, CommandLine, LineView};
use crate::cli::output;
use crate::cli::output::row;
use crate::infra::process_snapshot;
use crate::infra::process_snapshot::{EntryView, ProcessEntry};
use crate::lists;
use crate::model;
use crate::model::{
    Domain, InstanceView, ManagedInstance, ManagedMode, ManagedTarget, Rule, RuleView, TargetView,
};
use crate::text;
use crate::text::{concat, owned, same, to_decimal};

verus! {

/// Whether a job is loaded, as it is shown.
pub open spec fn launchd_status(loaded: Option<bool>) -> Seq<char> {
    match loaded {
        Some(true) => "loaded"@,
        Some(false) => "missing"@,
        None => "skipped"@,
    }
}

/// Builds [`launchd_status`].
pub fn launchd_status_text(loaded: Option<bool>) -> (r: &'static str)
    ensures
        r@ == launchd_status(loaded),
{
    match loaded {
        Some(true) => "loaded",
        Some(false) => "missing",
        None => "skipped",
    }
}

/// Picks the rules of a domain.
pub fn domain_rules(rules: &Vec<Rule>, domain: Domain) -> (r: Vec<Rule>)
    ensures
        model::rules_of(r@) == model::rules_of(rules@).filter(plan::in_domain(domain)),
{
    let ghost all = model::rules_of(rules@);
    let ghost keep = plan::in_domain(domain);
    let mut out: Vec<Rule> = Vec::new();
    let mut i: usize = 0;
    proof {
        reveal(Seq::filter);
        assert(model::rules_of(out@) =~= all.take(0).filter(keep));
    }
    while i < rules.len()
        invariant
            i <= rules.len(),
            all == model::rules_of(rules@),
            keep == plan::in_domain(domain),
            model::rules_of(out@) == all.take(i as int).filter(keep),
        decreases rules.len() - i,
    {
        proof {
            assert(all.take(i + 1) == all.take(i as int).push(rules@[i as int]@));
            lists::lemma_filter_push(all.take(i as int), rules@[i as int]@, keep);
        }
        if rules[i].domain == domain {
            let ghost before = out@;
            out.push(rules[i].clone());
            assert(model::rules_of(out@) =~= model::rules_of(before).push(rules@[i as int]@));
        }
        i += 1;
    }
    assert(all.take(i as int) == all);
    out
}

// ---------------------------------------------------------------------------
// Rules with a running limiter
// ---------------------------------------------------------------------------

/// What a rule is known by.
#[derive(Debug)]
pub struct RuleKey {
    pub domain: Domain,
    pub name: String,
}

/// What a [`RuleKey`] holds.
pub struct KeyView {
    pub domain: Domain,
    pub name: Seq<char>,
}

impl View for RuleKey {
    type V = KeyView;

    open spec fn view(&self) -> KeyView {
        KeyView { domain: self.domain, name: self.name@ }
    }
}

/// The rule behind an instance, given the name of its target: one that was recorded without its
/// rule is told by its target.
pub open spec fn rule_key(i: InstanceView, target_name: Option<Seq<char>>) -> Option<KeyView> {
    let name = match i.rule_name {
        Some(name) => Some(name),
        None => match i.target {
            TargetView::Pid(_) => target_name,
            TargetView::Name(name) => Some(name),
        },
    };
    match name {
        Some(name) => Some(KeyView { domain: i.domain, name }),
        None => None,
    }
}

/// Tells the rule behind an instance, given the name of its target.
pub fn running_watch_rule_key(instance: &ManagedInstance, target_name: &Option<String>) -> (r:
    Option<RuleKey>)
    ensures
        match r {
            Some(key) => rule_key(instance@, text::opt_text(*target_name)) == Some(key@),
            None => rule_key(instance@, text::opt_text(*target_name)) is None,
        },
{
    let domain = instance.domain;
    match &instance.rule_name {
        Some(name) => Some(RuleKey { domain, name: name.clone() }),
        None => match &instance.target {
            ManagedTarget::Pid(_) => match target_name {
                Some(name) => Some(RuleKey { domain, name: name.clone() }),
                None => None,
            },
            ManagedTarget::Name(name) => Some(RuleKey { domain, name: name.clone() }),
        },
    }
}

/// What is known of an instance: whether its limiter is alive, and the name of its target.
#[derive(Debug)]
pub struct Sign {
    pub alive: bool,
    pub target_name: Option<String>,
}

/// Whether a rule has a running limiter: one that was started for a watch, is alive, and is the
/// rule's.
pub open spec fn is_running(
    instances: Seq<InstanceView>,
    signs: Seq<Sign>,
    domain: Domain,
    name: Seq<char>,
) -> bool {
    exists|i: int|
        0 <= i < instances.len() && (#[trigger] instances[i]).mode is Watch && signs[i].alive
            && rule_key(instances[i], text::opt_text(signs[i].target_name)) == Some(
            KeyView { domain, name },
        )
}

/// Whether a rule has a running limiter.
pub fn has_running_instance(
    instances: &Vec<ManagedInstance>,
    signs: &Vec<Sign>,
    rule: &Rule,
) -> (r: bool)
    requires
        signs@.len() == instances@.len(),
    ensures
        r == is_running(model::instances_of(instances@), signs@, rule@.domain, rule@.name),
{
    let ghost all = model::instances_of(instances@);
    let mut i: usize = 0;
    while i < instances.len()
        invariant
            i <= instances.len(),
            signs@.len() == instances@.len(),
            all == model::instances_of(instances@),
            forall|j: int|
                0 <= j < i ==> !((#[trigger] all[j]).mode is Watch && signs@[j].alive && rule_key(
                    all[j],
                    text::opt_text(signs@[j].target_name),
                ) == Some(KeyView { domain: rule@.domain, name: rule@.name })),
        decreases instances.len() - i,
    {
        assert(all[i as int] == instances@[i as int]@);
        if matches!(instances[i].mode, ManagedMode::Watch) && signs[i].alive {
            match running_watch_rule_key(&instances[i], &signs[i].target_name) {
                Some(key) => {
                    if key.domain == rule.domain && same(key.name.as_str(), rule.name.as_str()) {
                        return true;
                    }
                },
                None => {},
            }
        }
        i += 1;
    }
    false
}

// ---------------------------------------------------------------------------
// Targets and hints
// ---------------------------------------------------------------------------

/// The first process in a snapshot that a rule is about.
pub open spec fn first_match(
    rule: RuleView,
    snapshot: Seq<EntryView>,
    lines: Seq<LineView>,
) -> Option<u32>
    decreases snapshot.len(),
{
    if snapshot.len() == 0 {
        None
    } else if plan::matched(rule, snapshot[0], lines) {
        Some(snapshot[0].pid)
    } else {
        first_match(rule, snapshot.skip(1), lines)
    }
}

/// Finds the first process in a snapshot that a rule is about.
fn find_first_match(rule: &Rule, snapshot: &Vec<ProcessEntry>, lines: &Vec<CommandLine>) -> (r:
    Option<u32>)
    ensures
        r == first_match(
            rule@,
            process_snapshot::entries_of(snapshot@),
            lists::views(lines@),
        ),
{
    let ghost all = process_snapshot::entries_of(snapshot@);
    let ghost shown = lists::views(lines@);
    let mut i: usize = 0;
    assert(all.skip(0) == all);
    while i < snapshot.len()
        invariant
            i <= snapshot.len(),
            all == process_snapshot::entries_of(snapshot@),
            shown == lists::views(lines@),
            first_match(rule@, all, shown) == first_match(rule@, all.skip(i as int), shown),
        decreases snapshot.len() - i,
    {
        assert(all.skip(i as int)[0] == snapshot@[i as int]@);
        assert(all.skip(i as int).skip(1) == all.skip(i + 1));
        if rule_matches(rule, &snapshot[i], lines) {
            return Some(snapshot[i].pid);
        }
        i += 1;
    }
    None
}

/// Finds a process that a rule is about. A rule that asks for no command line takes the first
/// process of its name, as `pgrep` lists them; another one the first match in the snapshot.
pub fn first_matching_pid_for_rule(
    rule: &Rule,
    by_name: Option<u32>,
    snapshot: &Vec<ProcessEntry>,
    lines: &Vec<CommandLine>,
) -> (r: Option<u32>)
    ensures
        r == if rule@.args_contains is None {
            by_name
        } else {
            first_match(
                rule@,
                process_snapshot::entries_of(snapshot@),
                lists::views(lines@),
            )
        },
{
    if rule.args_contains.is_none() {
        by_name
    } else {
        find_first_match(rule, snapshot, lines)
    }
}

/// The target of a rule, as it is shown.
pub open spec fn target_text(target: Option<u32>) -> Seq<char> {
    match target {
        Some(pid) => "PID "@ + text::decimal(pid as nat),
        None => "waiting"@,
    }
}

/// Builds [`target_text`].
fn show_target(target: Option<u32>) -> (r: String)
    ensures
        r@ == target_text(target),
{
    match target {
        Some(pid) => {
            let shown = to_decimal(pid as u64);
            concat("PID ", shown.as_str())
        },
        None => owned("waiting"),
    }
}

/// Whether a rule of a user can do nothing: its agent is loaded and its target exists, but it is
/// not limited and belongs to someone else.
pub open spec fn is_out_of_reach(
    domain: Domain,
    status: Seq<char>,
    target_exists: bool,
    has_running_instance: bool,
    owner: Option<Seq<char>>,
    current_user: Option<Seq<char>>,
) -> bool {
    &&& domain is User
    &&& status == "loaded"@
    &&& target_exists
    &&& !has_running_instance
    &&& owner is Some && current_user is Some && owner != current_user
}

/// Hints at the other domain where a rule of a user can do nothing.
pub fn watch_hint_for_owner(
    domain: Domain,
    launchd_status: &str,
    target_exists: bool,
    has_running_instance: bool,
    owner: Option<&str>,
    current_user: Option<&str>,
) -> (r: String)
    ensures
        r@ == if is_out_of_reach(
            domain,
            launchd_status@,
            target_exists,
            has_running_instance,
            text::opt_str(owner),
            text::opt_str(current_user),
        ) {
            "use --domain system"@
        } else {
            Seq::empty()
        },
{
    let foreign = match (owner, current_user) {
        (Some(a), Some(b)) => !same(a, b),
        _ => false,
    };
    if domain == Domain::User && same(launchd_status, "loaded") && target_exists
        && !has_running_instance && foreign {
        owned("use --domain system")
    } else {
        String::new()
    }
}

// ---------------------------------------------------------------------------
// The table
// ---------------------------------------------------------------------------

/// What is shown in place of an empty table.
pub fn no_rules_text() -> (r: &'static str)
    ensures
        r@ == "no watch rules"@,
{
    "no watch rules"
}

/// The widths of the columns.
pub open spec fn watch_widths() -> Seq<usize> {
    seq![28usize, 8, 8, 10, 22, 20]
}

/// Builds a row of the table.
fn watch_cells(cells: Vec<String>) -> (r: String)
    requires
        cells@.len() == 6,
    ensures
        r@ == output::row_of(text::texts(cells@), watch_widths()),
{
    let mut w: Vec<usize> = Vec::new();
    w.push(28);
    w.push(8);
    w.push(8);
    w.push(10);
    w.push(22);
    w.push(20);
    assert(w@ =~= watch_widths());
    row(&cells, &w)
}

/// The line above the table.
pub fn watch_header() -> (r: String)
    ensures
        r@ == output::row_of(
            seq!["NAME"@, "LIMIT"@, "DOMAIN"@, "LAUNCHD"@, "TARGET"@, "HINT"@],
            watch_widths(),
        ),
{
    let mut cells: Vec<String> = Vec::new();
    cells.push(owned("NAME"));
    cells.push(owned("LIMIT"));
    cells.push(owned("DOMAIN"));
    cells.push(owned("LAUNCHD"));
    cells.push(owned("TARGET"));
    cells.push(owned("HINT"));
    assert(text::texts(cells@) =~= seq![
        "NAME"@,
        "LIMIT"@,
        "DOMAIN"@,
        "LAUNCHD"@,
        "TARGET"@,
        "HINT"@,
    ]);
    watch_cells(cells)
}

/// A line of the table: the rule, whether the agent is loaded, a process that the rule is about,
/// and a hint.
pub fn watch_row(rule: &Rule, loaded: Option<bool>, target: Option<u32>, hint: &str) -> (r: String)
    ensures
        r@ == output::row_of(
            seq![
                rule@.name,
                text::decimal(rule@.limit as nat) + "%"@,
                model::domain_name(rule@.domain),
                launchd_status(loaded),
                target_text(target),
                hint@,
            ],
            watch_widths(),
        ),
{
    let mut cells: Vec<String> = Vec::new();
    let limit = to_decimal(rule.limit as u64);
    cells.push(rule.name.clone());
    cells.push(concat(limit.as_str(), "%"));
    cells.push(owned(rule.domain.name()));
    cells.push(owned(launchd_status_text(loaded)));
    cells.push(show_target(target));
    cells.push(owned(hint));
    assert(text::texts(cells@) =~= seq![
        rule@.name,
        text::decimal(rule@.limit as nat) + "%"@,
        model::domain_name(rule@.domain),
        launchd_status(loaded),
        target_text(target),
        hint@,
    ]);
    watch_cells(cells)
}

/// The lines that show whether the agent of a domain is loaded.
pub fn agent_rows(domain: Domain, loaded: Option<bool>) -> (r: (String, String))
    ensures
        r.0@ == output::row_of(seq!["DOMAIN"@, "LAUNCHD"@], seq![8usize, 10]),
        r.1@ == output::row_of(
            seq![model::domain_name(domain), launchd_status(loaded)],
            seq![8usize, 10],
        ),
{
    let mut w: Vec<usize> = Vec::new();
    w.push(8);
    w.push(10);
    assert(w@ =~= seq![8usize, 10]);
    let mut head: Vec<String> = Vec::new();
    head.push(owned("DOMAIN"));
    head.push(owned("LAUNCHD"));
    assert(text::texts(head@) =~= seq!["DOMAIN"@, "LAUNCHD"@]);
    let mut cells: Vec<String> = Vec::new();
    cells.push(owned(domain.name()));
    cells.push(owned(launchd_status_text(loaded)));
    assert(text::texts(cells@) =~= seq![model::domain_name(domain), launchd_status(loaded)]);
    (row(&head, &w), row(&cells, &w))
}

} // verus!
