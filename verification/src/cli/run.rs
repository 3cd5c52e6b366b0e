//! The commands: which are accepted, and what is told when they are done.

use vstd::prelude::*;

use crate::cli::validate;
use crate::cli::validate::{validate_cpu_threshold, validate_limit, validate_thresholds, MAX_LIMIT};
use crate::cpu;
use crate::cpu::CpuPercent;
use crate::model;
use crate::model::{default_release_cpu, default_trigger_cpu, Rule, RuleView};
use crate::text;
use crate::text::{concat, owned, to_decimal};

verus! {

/// What the user wants.
#[derive(Debug)]
pub enum Command {
    /// An overview.
    Dashboard,
    /// Watch a process.
    Watch {
        name: String,
        limit: u16,
        trigger_cpu: CpuPercent,
        release_cpu: CpuPercent,
        args_contains: Option<String>,
    },
    /// End a watch.
    Unwatch { name: String },
    /// The watch rules.
    Watches,
    /// Limit a process that is picked from a list, or given.
    Top {
        limit: u16,
        count: usize,
        refresh: u64,
        once: bool,
        pid: Option<u32>,
        risk_cpu: CpuPercent,
        allow_kill: bool,
    },
    /// The limited processes.
    Status,
    /// Clean up.
    Clean { yes: bool },
    /// Set up the agent.
    InstallAgent,
    /// Be the agent.
    Agent { config_dir: String, cpulimit_bin: String },
}

/// What is told of a limit that is out of range.
pub open spec fn limit_fault(limit: u16) -> Option<Seq<char>> {
    if 1 <= limit <= MAX_LIMIT {
        None
    } else {
        Some("limit must be between 1 and 1200"@)
    }
}

/// What is wrong with a command, if anything.
pub open spec fn fault(command: Command) -> Option<Seq<char>> {
    match command {
        Command::Watch { name, limit, trigger_cpu, release_cpu, args_contains } => if limit_fault(
            limit,
        ) is Some {
            limit_fault(limit)
        } else {
            validate::threshold_fault(trigger_cpu, release_cpu)
        },
        Command::Top { limit, count, refresh, once, pid, risk_cpu, allow_kill } => if limit_fault(
            limit,
        ) is Some {
            limit_fault(limit)
        } else if validate::is_threshold(risk_cpu) {
            None
        } else {
            Some(validate::range_message("risk-cpu"@))
        },
        Command::Clean { yes } => if yes {
            None
        } else {
            Some("clean requires --yes"@)
        },
        _ => None,
    }
}

/// Accepts a command.
pub fn check(command: &Command) -> (r: Result<(), String>)
    ensures
        match r {
            Ok(_) => fault(*command) is None,
            Err(message) => fault(*command) == Some(message@),
        },
{
    match command {
        Command::Watch { name, limit, trigger_cpu, release_cpu, args_contains } => {
            match validate_limit(*limit) {
                Err(message) => Err(message),
                Ok(_) => validate_thresholds(*trigger_cpu, *release_cpu),
            }
        },
        Command::Top { limit, count, refresh, once, pid, risk_cpu, allow_kill } => {
            match validate_limit(*limit) {
                Err(message) => Err(message),
                Ok(_) => validate_cpu_threshold("risk-cpu", *risk_cpu),
            }
        },
        Command::Clean { yes } => if *yes {
            Ok(())
        } else {
            Err(owned("clean requires --yes"))
        },
        _ => Ok(()),
    }
}

/// What is done with a process that was picked from the list, or given.
#[derive(Debug)]
pub enum TopChoice {
    /// Limit it once.
    LimitOnce { target_pid: u32, limit: u16 },
    /// Watch processes of its name.
    Watch {
        name: String,
        limit: u16,
        trigger_cpu: CpuPercent,
        release_cpu: CpuPercent,
        args_contains: Option<String>,
    },
}

/// What a [`TopChoice`] says.
pub enum ChoiceView {
    LimitOnce { target_pid: u32, limit: u16 },
    Watch {
        name: Seq<char>,
        limit: u16,
        trigger_cpu: CpuPercent,
        release_cpu: CpuPercent,
        args_contains: Option<Seq<char>>,
    },
}

impl View for TopChoice {
    type V = ChoiceView;

    open spec fn view(&self) -> ChoiceView {
        match *self {
            TopChoice::LimitOnce { target_pid, limit } => ChoiceView::LimitOnce {
                target_pid,
                limit,
            },
            TopChoice::Watch { name, limit, trigger_cpu, release_cpu, args_contains } =>
                ChoiceView::Watch {
                    name: name@,
                    limit,
                    trigger_cpu,
                    release_cpu,
                    args_contains: text::opt_text(args_contains),
                },
        }
    }
}

/// What is done with a process: it is limited once if that is wanted. Otherwise its name is watched,
/// with the thresholds that rules have by default, whatever the arguments; a process without a name
/// is not there.
pub open spec fn choice_after(
    once: bool,
    target_pid: u32,
    limit: u16,
    name: Option<Seq<char>>,
) -> Result<ChoiceView, Seq<char>> {
    if once {
        Ok(ChoiceView::LimitOnce { target_pid, limit })
    } else {
        match name {
            Some(name) => Ok(
                ChoiceView::Watch {
                    name,
                    limit,
                    trigger_cpu: CpuPercent { bits: cpu::DEFAULT_TRIGGER_CPU_BITS },
                    release_cpu: CpuPercent { bits: cpu::DEFAULT_RELEASE_CPU_BITS },
                    args_contains: None,
                },
            ),
            None => Err("target process not found"@),
        }
    }
}

/// Decides what is done with a process that was picked. Its name matters only where it is not to be
/// limited once.
pub fn after_pick(once: bool, target_pid: u32, limit: u16, name: Option<String>) -> (r: Result<
    TopChoice,
    String,
>)
    ensures
        match r {
            Ok(choice) => choice_after(once, target_pid, limit, text::opt_text(name)) == Ok::<
                ChoiceView,
                Seq<char>,
            >(choice@),
            Err(message) => choice_after(once, target_pid, limit, text::opt_text(name)) == Err::<
                ChoiceView,
                Seq<char>,
            >(message@),
        },
{
    if once {
        return Ok(TopChoice::LimitOnce { target_pid, limit });
    }
    match name {
        Some(name) => Ok(
            TopChoice::Watch {
                name,
                limit,
                trigger_cpu: default_trigger_cpu(),
                release_cpu: default_release_cpu(),
                args_contains: None,
            },
        ),
        None => Err(owned("target process not found")),
    }
}

/// What is told of a watch, given its thresholds as text.
pub open spec fn watch_text(
    rule: RuleView,
    trigger_cpu: Seq<char>,
    release_cpu: Seq<char>,
) -> Seq<char> {
    "watch active: "@ + rule.name + " "@ + text::decimal(rule.limit as nat) + "% trigger="@
        + trigger_cpu + " release="@ + release_cpu + " ("@ + model::domain_name(rule.domain) + ")"@
}

/// Builds [`watch_text`].
pub fn watch_message(rule: &Rule, trigger_cpu: &str, release_cpu: &str) -> (r: String)
    ensures
        r@ == watch_text(rule@, trigger_cpu@, release_cpu@),
{
    let mut r = concat("watch active: ", rule.name.as_str());
    r.append(" ");
    let limit = to_decimal(rule.limit as u64);
    r.append(limit.as_str());
    r.append("% trigger=");
    r.append(trigger_cpu);
    r.append(" release=");
    r.append(release_cpu);
    r.append(" (");
    r.append(rule.domain.name());
    r.append(")");
    r
}

/// What is told of the end of a watch.
pub fn unwatch_message(name: &str, removed: bool) -> (r: String)
    ensures
        r@ == (if removed {
            "watch removed: "@
        } else {
            "watch not found: "@
        }) + name@,
{
    if removed {
        concat("watch removed: ", name)
    } else {
        concat("watch not found: ", name)
    }
}

/// What is told of a one-time limit.
pub fn limit_message(target_pid: u32, cpulimit_pid: u32) -> (r: String)
    ensures
        r@ == "one-shot limit started: target="@ + text::decimal(target_pid as nat)
            + " cpulimit_pid="@ + text::decimal(cpulimit_pid as nat),
{
    let target = to_decimal(target_pid as u64);
    let mut r = concat("one-shot limit started: target=", target.as_str());
    r.append(" cpulimit_pid=");
    let limiter = to_decimal(cpulimit_pid as u64);
    r.append(limiter.as_str());
    r
}

/// What is told of a watch on a process that was picked from the list.
pub fn picked_message(name: &str, limit: u16) -> (r: String)
    ensures
        r@ == "top default action applied as watch: "@ + name@ + " "@ + text::decimal(limit as nat)
            + "%"@,
{
    let mut r = concat("top default action applied as watch: ", name);
    r.append(" ");
    let shown = to_decimal(limit as u64);
    r.append(shown.as_str());
    r.append("%");
    r
}

/// What is told of a clean-up.
pub fn clean_message(rules_removed: usize, stopped: usize) -> (r: String)
    ensures
        r@ == "cleaned watch rules: "@ + text::decimal(rules_removed as nat)
            + ", managed instances: "@ + text::decimal(stopped as nat),
{
    let rules = to_decimal(rules_removed as u64);
    let mut r = concat("cleaned watch rules: ", rules.as_str());
    r.append(", managed instances: ");
    let instances = to_decimal(stopped as u64);
    r.append(instances.as_str());
    r
}

/// What is told of the setup of the agent.
pub fn agent_message(label: &str) -> (r: String)
    ensures
        r@ == "agent active: "@ + label@,
{
    concat("agent active: ", label)
}

} // verus!
