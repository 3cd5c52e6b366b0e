//! The list of limited processes.

use vstd::prelude::*;

use crate::cli::output;
use crate::cli::output::row;
use crate::lists;
use crate::model;
use crate::model::{Domain, InstanceView, ManagedInstance, ManagedTarget, TargetView};
use crate::text;
use crate::text::{concat, owned, to_decimal};

verus! {

/// Whether an instance is shown: it belongs to the domain.
pub open spec fn is_shown(domain: Domain) -> spec_fn(InstanceView) -> bool {
    |i: InstanceView| i.domain == domain
}

/// Picks the instances of a domain.
pub fn domain_instances(instances: &Vec<ManagedInstance>, domain: Domain) -> (r: Vec<
    ManagedInstance,
>)
    ensures
        model::instances_of(r@) == model::instances_of(instances@).filter(is_shown(domain)),
{
    let ghost all = model::instances_of(instances@);
    let ghost keep = is_shown(domain);
    let mut out: Vec<ManagedInstance> = Vec::new();
    let mut i: usize = 0;
    proof {
        reveal(Seq::filter);
        assert(model::instances_of(out@) =~= all.take(0).filter(keep));
    }
    while i < instances.len()
        invariant
            i <= instances.len(),
            all == model::instances_of(instances@),
            keep == is_shown(domain),
            model::instances_of(out@) == all.take(i as int).filter(keep),
        decreases instances.len() - i,
    {
        proof {
            assert(all.take(i + 1) == all.take(i as int).push(instances@[i as int]@));
            lists::lemma_filter_push(all.take(i as int), instances@[i as int]@, keep);
        }
        if instances[i].domain == domain {
            let ghost before = out@;
            out.push(instances[i].clone());
            assert(model::instances_of(out@) =~= model::instances_of(before).push(
                instances@[i as int]@,
            ));
        }
        i += 1;
    }
    assert(all.take(i as int) == all);
    out
}

/// What was found of a target: the name of a process, or a process of a name.
#[derive(Debug)]
pub struct Found {
    pub name: Option<String>,
    pub pid: Option<u32>,
}

/// A process id and a name, as they are shown.
pub open spec fn pid_and_name(pid: u32, name: Seq<char>) -> Seq<char> {
    "PID "@ + text::decimal(pid as nat) + " "@ + name
}

/// Builds [`pid_and_name`].
fn show_pid_and_name(pid: u32, name: &str) -> (r: String)
    ensures
        r@ == pid_and_name(pid, name@),
{
    let shown = to_decimal(pid as u64);
    let mut r = concat("PID ", shown.as_str());
    r.append(" ");
    r.append(name);
    r
}

/// A target, as it is shown: a process id without a name belongs to a process that has ended, and a
/// name without a process id to one that has not started.
pub open spec fn described(
    target: TargetView,
    name: Option<Seq<char>>,
    pid: Option<u32>,
) -> Seq<char> {
    match target {
        TargetView::Pid(p) => match name {
            Some(n) => pid_and_name(p, n),
            None => pid_and_name(p, "(exited)"@),
        },
        TargetView::Name(n) => match pid {
            Some(p) => pid_and_name(p, n),
            None => n + " (waiting)"@,
        },
    }
}

/// Describes a target, given what was found of it.
pub fn target_description(target: &ManagedTarget, found: &Found) -> (r: String)
    ensures
        r@ == described(target@, text::opt_text(found.name), found.pid),
{
    match target {
        ManagedTarget::Pid(p) => match &found.name {
            Some(n) => show_pid_and_name(*p, n.as_str()),
            None => show_pid_and_name(*p, "(exited)"),
        },
        ManagedTarget::Name(n) => match found.pid {
            Some(p) => show_pid_and_name(p, n.as_str()),
            None => concat(n.as_str(), " (waiting)"),
        },
    }
}

/// What is shown in place of an empty table.
pub fn no_instances_text() -> (r: &'static str)
    ensures
        r@ == "no managed instances"@,
{
    "no managed instances"
}

/// The widths of the columns.
pub open spec fn status_widths() -> Seq<usize> {
    seq![16usize, 8, 24, 8, 10, 42, 8, 8]
}

/// Builds a row of the table.
fn status_cells(cells: Vec<String>) -> (r: String)
    requires
        cells@.len() == 8,
    ensures
        r@ == output::row_of(text::texts(cells@), status_widths()),
{
    let mut w: Vec<usize> = Vec::new();
    w.push(16);
    w.push(8);
    w.push(24);
    w.push(8);
    w.push(10);
    w.push(42);
    w.push(8);
    w.push(8);
    assert(w@ =~= status_widths());
    row(&cells, &w)
}

/// The line above the table.
pub fn status_header() -> (r: String)
    ensures
        r@ == output::row_of(
            seq![
                "ID"@,
                "DOMAIN"@,
                "RULE"@,
                "MODE"@,
                "CPULIMIT"@,
                "TARGET"@,
                "CPU"@,
                "STATE"@,
            ],
            status_widths(),
        ),
{
    let mut cells: Vec<String> = Vec::new();
    cells.push(owned("ID"));
    cells.push(owned("DOMAIN"));
    cells.push(owned("RULE"));
    cells.push(owned("MODE"));
    cells.push(owned("CPULIMIT"));
    cells.push(owned("TARGET"));
    cells.push(owned("CPU"));
    cells.push(owned("STATE"));
    assert(text::texts(cells@) =~= seq![
        "ID"@,
        "DOMAIN"@,
        "RULE"@,
        "MODE"@,
        "CPULIMIT"@,
        "TARGET"@,
        "CPU"@,
        "STATE"@,
    ]);
    status_cells(cells)
}

/// A text, or a dash when there is none.
pub open spec fn or_dash(t: Option<Seq<char>>) -> Seq<char> {
    match t {
        Some(s) => s,
        None => "-"@,
    }
}

/// Builds [`or_dash`].
fn show_or_dash(t: &Option<String>) -> (r: String)
    ensures
        r@ == or_dash(text::opt_text(*t)),
{
    match t {
        Some(s) => s.clone(),
        None => owned("-"),
    }
}

/// A line of the table: the instance, what was found of its target, its last load as text, and
/// whether its limiter is alive.
pub fn status_row(
    instance: &ManagedInstance,
    found: &Found,
    cpu: &Option<String>,
    alive: bool,
) -> (r: String)
    ensures
        r@ == output::row_of(
            seq![
                instance@.id,
                model::domain_name(instance@.domain),
                or_dash(instance@.rule_name),
                model::mode_name(instance@.mode),
                text::decimal(instance@.cpulimit_pid as nat),
                described(instance@.target, text::opt_text(found.name), found.pid),
                or_dash(text::opt_text(*cpu)),
                if alive {
                    "running"@
                } else {
                    "stale"@
                },
            ],
            status_widths(),
        ),
{
    let mut cells: Vec<String> = Vec::new();
    cells.push(instance.id.clone());
    cells.push(owned(instance.domain.name()));
    cells.push(show_or_dash(&instance.rule_name));
    cells.push(owned(instance.mode.name()));
    cells.push(to_decimal(instance.cpulimit_pid as u64));
    cells.push(target_description(&instance.target, found));
    cells.push(show_or_dash(cpu));
    cells.push(
        owned(
            if alive {
                "running"
            } else {
                "stale"
            },
        ),
    );
    assert(text::texts(cells@) =~= seq![
        instance@.id,
        model::domain_name(instance@.domain),
        or_dash(instance@.rule_name),
        model::mode_name(instance@.mode),
        text::decimal(instance@.cpulimit_pid as nat),
        described(instance@.target, text::opt_text(found.name), found.pid),
        or_dash(text::opt_text(*cpu)),
        if alive {
            "running"@
        } else {
            "stale"@
        },
    ]);
    status_cells(cells)
}

} // verus!
