//! The operations that a user asks for. Each is a dialogue: it asks for one action at a time, and
//! goes on by the reply.

use vstd::prelude::*;

use crate::app::clean::{
    CleanAll, CleanAllStage, CleanAllStageView, CleanAllView, CleanManaged, CleanManagedView,
    CleanStage, CleanStageView,
};
use crate::app::limit::{LimitOnce, LimitOnceView, LimitStage, LimitStageView};
use crate::app::unwatch::{Unwatch, UnwatchStage, UnwatchStageView, UnwatchView};
use crate::app::watch::{Watch, WatchStage, WatchStageView, WatchView};
use crate::cpu::CpuPercent;
use crate::model::Domain;
use crate::store::{RuleUpdate, UpdateView};
use crate::text;
use crate::text::owned;

verus! {

/// The operations that a user asks for.
#[derive(Clone, Copy, Debug)]
pub struct Service {}

/// What the agent runs with.
#[derive(Clone, Copy, Debug)]
pub struct WatchRuntime<'a> {
    pub cpuguard_bin: &'a str,
    pub cpulimit_bin: &'a str,
    pub config_dir: &'a str,
}

/// What a user wants to watch.
#[derive(Debug)]
pub struct WatchOptions<'a> {
    pub name: &'a str,
    pub limit: u16,
    pub trigger_cpu: CpuPercent,
    pub release_cpu: CpuPercent,
    pub args_contains: Option<String>,
}

/// The rule that a user wants.
pub open spec fn wanted_rule(options: WatchOptions, domain: Domain) -> UpdateView {
    UpdateView {
        name: options.name@,
        limit: options.limit,
        trigger_cpu: options.trigger_cpu,
        release_cpu: options.release_cpu,
        args_contains: text::opt_text(options.args_contains),
        domain,
    }
}

impl Service {
    /// Watches a process.
    pub fn watch(
        &self,
        options: WatchOptions<'_>,
        domain: Domain,
        runtime: WatchRuntime<'_>,
    ) -> (r: Watch)
        ensures
            r@ == (WatchView {
                update: wanted_rule(options, domain),
                cpuguard_bin: runtime.cpuguard_bin@,
                cpulimit_bin: runtime.cpulimit_bin@,
                config_dir: runtime.config_dir@,
                stage: WatchStageView::Available,
            }),
            r@.well_formed(),
    {
        Watch {
            update: RuleUpdate {
                name: owned(options.name),
                limit: options.limit,
                trigger_cpu: options.trigger_cpu,
                release_cpu: options.release_cpu,
                args_contains: options.args_contains,
                domain,
            },
            cpuguard_bin: owned(runtime.cpuguard_bin),
            cpulimit_bin: owned(runtime.cpulimit_bin),
            config_dir: owned(runtime.config_dir),
            stage: WatchStage::Available,
        }
    }

    /// Ends a watch.
    pub fn unwatch(&self, name: &str, domain: Domain) -> (r: Unwatch)
        ensures
            r@ == (UnwatchView { name: name@, domain, stage: UnwatchStageView::LoadRules }),
            r@.well_formed(),
    {
        Unwatch { name: owned(name), domain, stage: UnwatchStage::LoadRules }
    }

    /// Limits a process once.
    pub fn limit_once(&self, target_pid: u32, limit: u16, domain: Domain) -> (r: LimitOnce)
        ensures
            r@ == (LimitOnceView { target_pid, limit, domain, stage: LimitStageView::Available }),
    {
        LimitOnce { target_pid, limit, domain, stage: LimitStage::Available }
    }

    /// Stops the recorded limiters of a domain.
    pub fn clean_managed_only(&self, domain: Domain) -> (r: CleanManaged)
        ensures
            r@ == (CleanManagedView { domain, stage: CleanStageView::Load }),
            r@.well_formed(),
    {
        CleanManaged { domain, stage: CleanStage::Load }
    }

    /// Cleans up a domain.
    pub fn clean_all(&self, domain: Domain) -> (r: CleanAll)
        ensures
            r@ == (CleanAllView { domain, stage: CleanAllStageView::LoadRules }),
            r@.well_formed(),
    {
        CleanAll { domain, stage: CleanAllStage::LoadRules }
    }
}

} // verus!
