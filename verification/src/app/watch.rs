//! Watching a process: its rule is written and the agent set up. A recorded one-time limiter on
//! the process is stopped; one that someone else has started is in the way.

use vstd::prelude::*;

use crate::app::conflict;
use crate::app::conflict::has_external_adhoc_conflict;
use crate::app::dialogue;
use crate::app::dialogue::{
    cause, error_of, ErrorView, Reply, ReplyView, Request, RequestView, ServiceError,
};
use crate::app::plan;
use crate::app::plan::recorded_pids;
use crate::app::survey;
use crate::app::survey::{Probe, Survey, SurveyView};
use crate::app::unwatch;
use crate::app::unwatch::pick_limiters;
use crate::clock::{local_now, Timestamp};
use crate::model;
use crate::model::{
    InstanceView, ManagedInstance, ManagedMode, ManagedTarget, Rule, RuleView, RulesFile,
    RulesView, StateFile, StateView, TargetView,
};
use crate::store;
use crate::store::{remove_instance_by_pid, upsert_rule_at, RuleUpdate, UpdateView};
use crate::text;
use crate::text::{copy_opt, owned, same};

verus! {

/// What there is to find out whether an instance is a one-time limiter on the process to watch.
pub open spec fn adhoc_probe(i: InstanceView, u: UpdateView) -> Probe {
    if i.mode != ManagedMode::Adhoc || i.domain != u.domain {
        Probe::Known(false)
    } else {
        match i.target {
            TargetView::Pid(pid) => Probe::Ask(pid),
            TargetView::Name(name) => Probe::Known(name == u.name),
        }
    }
}

/// What there is to find out of each instance.
pub open spec fn adhoc_probes(instances: Seq<InstanceView>, u: UpdateView) -> Seq<Probe> {
    instances.map_values(|i: InstanceView| adhoc_probe(i, u))
}

/// The survey for the one-time limiters on the process to watch.
pub open spec fn adhoc_survey(s: StateView, u: UpdateView) -> SurveyView {
    survey::begun(u.name, u.args_contains, adhoc_probes(s.instances, u))
}

/// The survey for the limiters of someone else on the process to watch.
pub open spec fn conflict_survey(listing: Seq<char>, managed: Seq<u32>, u: UpdateView) -> SurveyView {
    conflict::conflict_survey(u.name, u.args_contains, managed, listing)
}

/// Says what there is to find out whether an instance is a one-time limiter on the process.
fn target_pid_matches_options(i: &ManagedInstance, u: &RuleUpdate) -> (r: Probe)
    ensures
        r == adhoc_probe(i@, u@),
{
    if i.mode != ManagedMode::Adhoc || i.domain != u.domain {
        return Probe::Known(false);
    }
    match &i.target {
        ManagedTarget::Pid(pid) => Probe::Ask(*pid),
        ManagedTarget::Name(name) => Probe::Known(same(name.as_str(), u.name.as_str())),
    }
}

/// Begins the survey for the one-time limiters on the process to watch.
fn begin_adhoc_survey(state: &StateFile, u: &RuleUpdate) -> (r: Survey)
    ensures
        r@ == adhoc_survey(state@, u@),
        r@.well_formed(),
        r@.probes.len() == state@.instances.len(),
{
    let mut probes: Vec<Probe> = Vec::new();
    let mut i: usize = 0;
    while i < state.instances.len()
        invariant
            i <= state.instances.len(),
            probes@ == adhoc_probes(state@.instances, u@).take(i as int),
        decreases state.instances.len() - i,
    {
        probes.push(target_pid_matches_options(&state.instances[i], u));
        i += 1;
    }
    assert(probes@ =~= adhoc_probes(state@.instances, u@));
    proof {
        survey::lemma_settled(
            SurveyView {
                name: u@.name,
                needle: u@.args_contains,
                probes: probes@,
                verdicts: Seq::empty(),
                named: false,
            },
        );
    }
    Survey::begin(owned(u.name.as_str()), copy_opt(&u.args_contains), probes)
}

/// What watching a process is waiting for. `before` are the rules as they were, `to_stop` is the
/// recorded one-time limiter on the process.
#[derive(Debug)]
pub enum WatchStage {
    /// Whether the limiter program is available.
    Available,
    /// The state, to find the one-time limiters on the process.
    LoadState,
    /// The names and command lines of processes, to find them.
    Match { state: StateFile, survey: Survey },
    /// The command lines of all processes, to find limiters of someone else.
    List { managed: Vec<u32>, to_stop: Option<u32> },
    /// The names and command lines of processes, to find them.
    Check { to_stop: Option<u32>, survey: Survey },
    /// The rules as they are.
    LoadRules { to_stop: Option<u32> },
    /// The rules, to write the one of the watch.
    Reload { before: RulesFile, to_stop: Option<u32> },
    /// The save of the rules.
    SaveRules { before: RulesFile, to_stop: Option<u32>, rules: RulesFile, rule: Rule },
    /// The setup of the agent.
    EnsureAgent { before: RulesFile, to_stop: Option<u32>, rule: Rule },
    /// The stop of the one-time limiter.
    Stop { before: RulesFile, cpulimit_pid: u32, rule: Rule },
    /// The state, to take the one-time limiter off the record.
    ReloadState { before: RulesFile, cpulimit_pid: u32, rule: Rule },
    /// The save of the state without it.
    SaveState { before: RulesFile, cpulimit_pid: u32, state: StateFile, rule: Rule },
    /// The save of the rules as they were, after this failure.
    Restore { before: RulesFile, error: ServiceError },
    /// Nothing: this is the result.
    Over(Result<Rule, ServiceError>),
}

/// What a [`WatchStage`] holds.
pub enum WatchStageView {
    Available,
    LoadState,
    Match { state: StateView, survey: SurveyView },
    List { managed: Seq<u32>, to_stop: Option<u32> },
    Check { to_stop: Option<u32>, survey: SurveyView },
    LoadRules { to_stop: Option<u32> },
    Reload { before: RulesView, to_stop: Option<u32> },
    SaveRules { before: RulesView, to_stop: Option<u32>, rules: RulesView, rule: RuleView },
    EnsureAgent { before: RulesView, to_stop: Option<u32>, rule: RuleView },
    Stop { before: RulesView, cpulimit_pid: u32, rule: RuleView },
    ReloadState { before: RulesView, cpulimit_pid: u32, rule: RuleView },
    SaveState { before: RulesView, cpulimit_pid: u32, state: StateView, rule: RuleView },
    Restore { before: RulesView, error: ErrorView },
    Over(Result<RuleView, ErrorView>),
}

impl View for WatchStage {
    type V = WatchStageView;

    open spec fn view(&self) -> WatchStageView {
        match *self {
            WatchStage::Available => WatchStageView::Available,
            WatchStage::LoadState => WatchStageView::LoadState,
            WatchStage::Match { state, survey } => WatchStageView::Match {
                state: state@,
                survey: survey@,
            },
            WatchStage::List { managed, to_stop } => WatchStageView::List {
                managed: managed@,
                to_stop,
            },
            WatchStage::Check { to_stop, survey } => WatchStageView::Check {
                to_stop,
                survey: survey@,
            },
            WatchStage::LoadRules { to_stop } => WatchStageView::LoadRules { to_stop },
            WatchStage::Reload { before, to_stop } => WatchStageView::Reload {
                before: before@,
                to_stop,
            },
            WatchStage::SaveRules { before, to_stop, rules, rule } => WatchStageView::SaveRules {
                before: before@,
                to_stop,
                rules: rules@,
                rule: rule@,
            },
            WatchStage::EnsureAgent { before, to_stop, rule } => WatchStageView::EnsureAgent {
                before: before@,
                to_stop,
                rule: rule@,
            },
            WatchStage::Stop { before, cpulimit_pid, rule } => WatchStageView::Stop {
                before: before@,
                cpulimit_pid,
                rule: rule@,
            },
            WatchStage::ReloadState { before, cpulimit_pid, rule } => WatchStageView::ReloadState {
                before: before@,
                cpulimit_pid,
                rule: rule@,
            },
            WatchStage::SaveState { before, cpulimit_pid, state, rule } =>
                WatchStageView::SaveState {
                    before: before@,
                    cpulimit_pid,
                    state: state@,
                    rule: rule@,
                },
            WatchStage::Restore { before, error } => WatchStageView::Restore {
                before: before@,
                error: error@,
            },
            WatchStage::Over(r) => WatchStageView::Over(dialogue::result_of(r)),
        }
    }
}

/// Watching a process: the rule to write, and what the agent runs with.
#[derive(Debug)]
pub struct Watch {
    pub update: RuleUpdate,
    pub cpuguard_bin: String,
    pub cpulimit_bin: String,
    pub config_dir: String,
    pub stage: WatchStage,
}

/// What a [`Watch`] holds.
pub struct WatchView {
    pub update: UpdateView,
    pub cpuguard_bin: Seq<char>,
    pub cpulimit_bin: Seq<char>,
    pub config_dir: Seq<char>,
    pub stage: WatchStageView,
}

impl View for Watch {
    type V = WatchView;

    open spec fn view(&self) -> WatchView {
        WatchView {
            update: self.update@,
            cpuguard_bin: self.cpuguard_bin@,
            cpulimit_bin: self.cpulimit_bin@,
            config_dir: self.config_dir@,
            stage: self.stage@,
        }
    }
}

/// The first number of a list.
pub open spec fn first(ns: Seq<u32>) -> Option<u32> {
    if ns.len() == 0 {
        None
    } else {
        Some(ns[0])
    }
}

/// The stage with a survey under way, for the one-time limiters on the process. There may be at
/// most one.
pub open spec fn matching(u: UpdateView, state: StateView, survey: SurveyView) -> WatchStageView {
    let pids = unwatch::picked_limiters(state.instances, survey.verdicts);
    if !survey.is_done() {
        WatchStageView::Match { state, survey }
    } else if pids.len() > 1 {
        WatchStageView::Over(Err(ErrorView::ManyManaged(u.name)))
    } else {
        WatchStageView::List { managed: plan::managed_pids(state.instances), to_stop: first(pids) }
    }
}

/// The stage with a survey under way, for limiters of someone else on the process. There may be
/// none.
pub open spec fn checking(
    u: UpdateView,
    to_stop: Option<u32>,
    survey: SurveyView,
) -> WatchStageView {
    if survey.verdicts.contains(true) {
        WatchStageView::Over(Err(ErrorView::Conflict(u.name)))
    } else if !survey.is_done() {
        WatchStageView::Check { to_stop, survey }
    } else {
        WatchStageView::LoadRules { to_stop }
    }
}

impl WatchView {
    /// Whether the surveys have someone left to ask.
    pub open spec fn well_formed(self) -> bool {
        match self.stage {
            WatchStageView::Match { state, survey } => survey.well_formed() && !survey.is_done()
                && survey.probes.len() == state.instances.len(),
            WatchStageView::Check { to_stop, survey } => survey.well_formed()
                && !survey.is_done(),
            _ => true,
        }
    }

    /// The operation after a reply. A rule that is written now is dated `now`.
    pub open spec fn answered(self, reply: ReplyView, now: Timestamp) -> WatchView {
        let u = self.update;
        let error = dialogue::step_error(reply);
        let cause = dialogue::cause_of(reply);
        let gone_wrong = WatchStageView::Over(Err(error));
        let stage = match self.stage {
            WatchStageView::Available => if reply is Done {
                WatchStageView::LoadState
            } else {
                gone_wrong
            },
            WatchStageView::LoadState => match reply {
                ReplyView::State(state) => matching(u, state, adhoc_survey(state, u)),
                _ => gone_wrong,
            },
            WatchStageView::Match { state, survey } => matching(u, state, survey.answered(reply)),
            WatchStageView::List { managed, to_stop } => match reply {
                ReplyView::Text(Some(listing)) => checking(
                    u,
                    to_stop,
                    conflict_survey(listing, managed, u),
                ),
                ReplyView::Text(None) => WatchStageView::LoadRules { to_stop },
                _ => gone_wrong,
            },
            WatchStageView::Check { to_stop, survey } => if reply is Failed {
                gone_wrong
            } else {
                checking(u, to_stop, survey.answered(reply))
            },
            WatchStageView::LoadRules { to_stop } => match reply {
                ReplyView::Rules(before) => WatchStageView::Reload { before, to_stop },
                _ => gone_wrong,
            },
            WatchStageView::Reload { before, to_stop } => match reply {
                ReplyView::Rules(f) => WatchStageView::SaveRules {
                    before,
                    to_stop,
                    rules: store::upserted(f, u, now),
                    rule: store::upserted_rule(f, u, now),
                },
                _ => gone_wrong,
            },
            WatchStageView::SaveRules { before, to_stop, rules, rule } => if reply is Done {
                WatchStageView::EnsureAgent { before, to_stop, rule }
            } else {
                gone_wrong
            },
            WatchStageView::EnsureAgent { before, to_stop, rule } => if !(reply is Done) {
                WatchStageView::Restore { before, error }
            } else {
                match to_stop {
                    Some(cpulimit_pid) => WatchStageView::Stop { before, cpulimit_pid, rule },
                    None => WatchStageView::Over(Ok(rule)),
                }
            },
            WatchStageView::Stop { before, cpulimit_pid, rule } => if reply is Done {
                WatchStageView::ReloadState { before, cpulimit_pid, rule }
            } else {
                WatchStageView::Restore {
                    before,
                    error: ErrorView::StopAdhoc { cpulimit_pid, cause },
                }
            },
            WatchStageView::ReloadState { before, cpulimit_pid, rule } => match reply {
                ReplyView::State(s) => if store::is_recorded(s, cpulimit_pid) {
                    WatchStageView::SaveState {
                        before,
                        cpulimit_pid,
                        state: store::without_limiter(s, cpulimit_pid),
                        rule,
                    }
                } else {
                    WatchStageView::Over(Ok(rule))
                },
                _ => WatchStageView::Restore {
                    before,
                    error: ErrorView::RemoveAdhoc { cpulimit_pid, cause },
                },
            },
            WatchStageView::SaveState { before, cpulimit_pid, state, rule } => if reply is Done {
                WatchStageView::Over(Ok(rule))
            } else {
                WatchStageView::Restore {
                    before,
                    error: ErrorView::RemoveAdhoc { cpulimit_pid, cause },
                }
            },
            WatchStageView::Restore { before, error } => WatchStageView::Over(Err(error)),
            WatchStageView::Over(r) => WatchStageView::Over(r),
        };
        WatchView { stage, ..self }
    }

    /// What the operation asks for; nothing when it is over.
    pub open spec fn asks(self) -> Option<RequestView> {
        match self.stage {
            WatchStageView::Available => Some(RequestView::EnsureAvailable),
            WatchStageView::LoadState => Some(RequestView::LoadState),
            WatchStageView::Match { state, survey } => survey.asks(),
            WatchStageView::List { managed, to_stop } => Some(RequestView::ListCommandLines),
            WatchStageView::Check { to_stop, survey } => survey.asks(),
            WatchStageView::LoadRules { to_stop } => Some(RequestView::LoadRules),
            WatchStageView::Reload { before, to_stop } => Some(RequestView::LoadRules),
            WatchStageView::SaveRules { before, to_stop, rules, rule } => Some(
                RequestView::SaveRules(rules),
            ),
            WatchStageView::EnsureAgent { before, to_stop, rule } => Some(
                RequestView::EnsureAgent {
                    domain: self.update.domain,
                    cpuguard_bin: self.cpuguard_bin,
                    cpulimit_bin: self.cpulimit_bin,
                    config_dir: self.config_dir,
                },
            ),
            WatchStageView::Stop { before, cpulimit_pid, rule } => Some(
                RequestView::Stop(cpulimit_pid),
            ),
            WatchStageView::ReloadState { before, cpulimit_pid, rule } => Some(
                RequestView::LoadState,
            ),
            WatchStageView::SaveState { before, cpulimit_pid, state, rule } => Some(
                RequestView::SaveState(state),
            ),
            WatchStageView::Restore { before, error } => Some(RequestView::SaveRules(before)),
            WatchStageView::Over(_) => None,
        }
    }
}

/// Whether one of the verdicts is a yes.
fn any_yes(verdicts: &Vec<bool>) -> (r: bool)
    ensures
        r == verdicts@.contains(true),
{
    let mut i: usize = 0;
    while i < verdicts.len()
        invariant
            i <= verdicts.len(),
            forall|j: int| 0 <= j < i ==> !(#[trigger] verdicts@[j]),
        decreases verdicts.len() - i,
    {
        if verdicts[i] {
            return true;
        }
        i += 1;
    }
    false
}

impl WatchStage {
    /// Goes on with a survey for the one-time limiters on the process.
    fn matching(u: &RuleUpdate, state: StateFile, survey: Survey) -> (r: WatchStage)
        requires
            survey@.well_formed(),
            survey@.probes.len() == state@.instances.len(),
        ensures
            r@ == matching(u@, state@, survey@),
    {
        if !survey.done() {
            return WatchStage::Match { state, survey };
        }
        let pids = pick_limiters(&state.instances, &survey.verdicts);
        if pids.len() > 1 {
            return WatchStage::Over(Err(ServiceError::ManyManaged(owned(u.name.as_str()))));
        }
        let to_stop = if pids.len() == 0 {
            None
        } else {
            Some(pids[0])
        };
        WatchStage::List { managed: recorded_pids(&state.instances), to_stop }
    }

    /// Goes on with a survey for limiters of someone else on the process.
    fn checking(u: &RuleUpdate, to_stop: Option<u32>, survey: Survey) -> (r: WatchStage)
        ensures
            r@ == checking(u@, to_stop, survey@),
    {
        if any_yes(&survey.verdicts) {
            WatchStage::Over(Err(ServiceError::Conflict(owned(u.name.as_str()))))
        } else if !survey.done() {
            WatchStage::Check { to_stop, survey }
        } else {
            WatchStage::LoadRules { to_stop }
        }
    }
}

impl Watch {
    /// Goes on by a reply. A rule that is written now is dated `now`.
    pub fn answer_at(self, reply: Reply, now: Timestamp) -> (r: Watch)
        requires
            self@.well_formed(),
        ensures
            r@ == self@.answered(reply@, now),
            r@.well_formed(),
    {
        let Watch { update, cpuguard_bin, cpulimit_bin, config_dir, stage } = self;
        let next = match stage {
            WatchStage::Available => match reply {
                Reply::Done => WatchStage::LoadState,
                _ => WatchStage::Over(Err(error_of(reply))),
            },
            WatchStage::LoadState => match reply {
                Reply::State(state) => {
                    let survey = begin_adhoc_survey(&state, &update);
                    WatchStage::matching(&update, state, survey)
                },
                _ => WatchStage::Over(Err(error_of(reply))),
            },
            WatchStage::Match { state, survey } => {
                let mut survey = survey;
                proof {
                    survey::lemma_answered(survey@, reply@);
                }
                survey.answer(reply);
                WatchStage::matching(&update, state, survey)
            },
            WatchStage::List { managed, to_stop } => match reply {
                Reply::Text(Some(listing)) => {
                    let survey = has_external_adhoc_conflict(
                        update.name.as_str(),
                        &update.args_contains,
                        &managed,
                        listing.as_str(),
                    );
                    WatchStage::checking(&update, to_stop, survey)
                },
                Reply::Text(None) => WatchStage::LoadRules { to_stop },
                _ => WatchStage::Over(Err(error_of(reply))),
            },
            WatchStage::Check { to_stop, survey } => match reply {
                Reply::Failed(_) => WatchStage::Over(Err(error_of(reply))),
                _ => {
                    let mut survey = survey;
                    survey.answer(reply);
                    WatchStage::checking(&update, to_stop, survey)
                },
            },
            WatchStage::LoadRules { to_stop } => match reply {
                Reply::Rules(before) => WatchStage::Reload { before, to_stop },
                _ => WatchStage::Over(Err(error_of(reply))),
            },
            WatchStage::Reload { before, to_stop } => match reply {
                Reply::Rules(rules) => {
                    let mut rules = rules;
                    let rule = upsert_rule_at(&mut rules, update.clone(), now);
                    WatchStage::SaveRules { before, to_stop, rules, rule }
                },
                _ => WatchStage::Over(Err(error_of(reply))),
            },
            WatchStage::SaveRules { before, to_stop, rules, rule } => match reply {
                Reply::Done => WatchStage::EnsureAgent { before, to_stop, rule },
                _ => WatchStage::Over(Err(error_of(reply))),
            },
            WatchStage::EnsureAgent { before, to_stop, rule } => match reply {
                Reply::Done => match to_stop {
                    Some(cpulimit_pid) => WatchStage::Stop { before, cpulimit_pid, rule },
                    None => WatchStage::Over(Ok(rule)),
                },
                _ => WatchStage::Restore { before, error: error_of(reply) },
            },
            WatchStage::Stop { before, cpulimit_pid, rule } => match reply {
                Reply::Done => WatchStage::ReloadState { before, cpulimit_pid, rule },
                _ => WatchStage::Restore {
                    before,
                    error: ServiceError::StopAdhoc { cpulimit_pid, cause: cause(reply) },
                },
            },
            WatchStage::ReloadState { before, cpulimit_pid, rule } => match reply {
                Reply::State(state) => {
                    let mut state = state;
                    if remove_instance_by_pid(&mut state, cpulimit_pid) {
                        WatchStage::SaveState { before, cpulimit_pid, state, rule }
                    } else {
                        WatchStage::Over(Ok(rule))
                    }
                },
                _ => WatchStage::Restore {
                    before,
                    error: ServiceError::RemoveAdhoc { cpulimit_pid, cause: cause(reply) },
                },
            },
            WatchStage::SaveState { before, cpulimit_pid, state, rule } => match reply {
                Reply::Done => WatchStage::Over(Ok(rule)),
                _ => WatchStage::Restore {
                    before,
                    error: ServiceError::RemoveAdhoc { cpulimit_pid, cause: cause(reply) },
                },
            },
            WatchStage::Restore { before, error } => WatchStage::Over(Err(error)),
            WatchStage::Over(r) => WatchStage::Over(r),
        };
        Watch { update, cpuguard_bin, cpulimit_bin, config_dir, stage: next }
    }

    /// Goes on by a reply, with the time of now.
    pub fn answer(self, reply: Reply) -> (r: Watch)
        requires
            self@.well_formed(),
        ensures
            exists|now: Timestamp|
                now.at.on_calendar() && r@ == #[trigger] self@.answered(reply@, now),
            r@.well_formed(),
    {
        let now = local_now();
        self.answer_at(reply, now)
    }

    /// What the operation asks for; nothing when it is over.
    pub fn request(&self) -> (r: Option<Request>)
        requires
            self@.well_formed(),
        ensures
            match r {
                Some(request) => self@.asks() == Some(request@),
                None => self@.asks() is None,
            },
    {
        match &self.stage {
            WatchStage::Available => Some(Request::EnsureAvailable),
            WatchStage::LoadState => Some(Request::LoadState),
            WatchStage::Match { state, survey } => survey.request(),
            WatchStage::List { managed, to_stop } => Some(Request::ListCommandLines),
            WatchStage::Check { to_stop, survey } => survey.request(),
            WatchStage::LoadRules { to_stop } => Some(Request::LoadRules),
            WatchStage::Reload { before, to_stop } => Some(Request::LoadRules),
            WatchStage::SaveRules { before, to_stop, rules, rule } => Some(
                Request::SaveRules(rules.clone()),
            ),
            WatchStage::EnsureAgent { before, to_stop, rule } => Some(
                Request::EnsureAgent {
                    domain: self.update.domain,
                    cpuguard_bin: self.cpuguard_bin.clone(),
                    cpulimit_bin: self.cpulimit_bin.clone(),
                    config_dir: self.config_dir.clone(),
                },
            ),
            WatchStage::Stop { before, cpulimit_pid, rule } => Some(Request::Stop(*cpulimit_pid)),
            WatchStage::ReloadState { before, cpulimit_pid, rule } => Some(Request::LoadState),
            WatchStage::SaveState { before, cpulimit_pid, state, rule } => Some(
                Request::SaveState(state.clone()),
            ),
            WatchStage::Restore { before, error } => Some(Request::SaveRules(before.clone())),
            WatchStage::Over(_) => None,
        }
    }

    /// The result, once the operation is over: the rule as it was written.
    pub fn finish(self) -> (r: Option<Result<Rule, ServiceError>>)
        ensures
            match r {
                Some(result) => self@.stage == WatchStageView::Over(dialogue::result_of(result)),
                None => !(self@.stage is Over),
            },
    {
        match self.stage {
            WatchStage::Over(result) => Some(result),
            _ => None,
        }
    }
}

} // verus!
