//! Ending a watch: its limiters are stopped and its rule is removed, and with the last rule of a
//! domain its agent.

use vstd::prelude::*;

use crate::app::dialogue;
use crate::app::dialogue::{
    cause, error_of, ErrorView, Reply, ReplyView, Request, RequestView, ServiceError,
};
use crate::app::plan;
use crate::app::survey;
use crate::app::survey::{Probe, Survey, SurveyView};
use crate::lists;
use crate::model;
use crate::model::{
    Domain, InstanceView, ManagedInstance, ManagedMode, ManagedTarget, Rule, RulesFile, RulesView,
    StateFile, StateView, TargetView,
};
use crate::store;
use crate::store::{find_rule, remove_rule};
use crate::text;
use crate::text::{owned, same};

verus! {

/// What there is to find out whether an instance is a watch of this rule: one that was recorded
/// without its rule is told by the name of its target.
pub open spec fn watch_probe(i: InstanceView, rule_name: Seq<char>, domain: Domain) -> Probe {
    if i.mode != ManagedMode::Watch || i.domain != domain {
        Probe::Known(false)
    } else {
        match i.rule_name {
            Some(name) => Probe::Known(name == rule_name),
            None => match i.target {
                TargetView::Pid(pid) => Probe::Ask(pid),
                TargetView::Name(name) => Probe::Known(name == rule_name),
            },
        }
    }
}

/// What there is to find out of each instance.
pub open spec fn watch_probes(
    instances: Seq<InstanceView>,
    rule_name: Seq<char>,
    domain: Domain,
) -> Seq<Probe> {
    instances.map_values(|i: InstanceView| watch_probe(i, rule_name, domain))
}

/// The survey for the watches of this rule.
pub open spec fn watch_survey(s: StateView, rule_name: Seq<char>, domain: Domain) -> SurveyView {
    survey::begun(rule_name, None, watch_probes(s.instances, rule_name, domain))
}

/// Says what there is to find out whether an instance is a watch of this rule.
fn watch_instance_matches_rule_name(
    i: &ManagedInstance,
    rule_name: &str,
    domain: Domain,
) -> (r: Probe)
    ensures
        r == watch_probe(i@, rule_name@, domain),
{
    if i.mode != ManagedMode::Watch || i.domain != domain {
        return Probe::Known(false);
    }
    match &i.rule_name {
        Some(name) => Probe::Known(same(name.as_str(), rule_name)),
        None => match &i.target {
            ManagedTarget::Pid(pid) => Probe::Ask(*pid),
            ManagedTarget::Name(name) => Probe::Known(same(name.as_str(), rule_name)),
        },
    }
}

/// Begins the survey for the watches of this rule.
fn begin_watch_survey(state: &StateFile, rule_name: &str, domain: Domain) -> (r: Survey)
    ensures
        r@ == watch_survey(state@, rule_name@, domain),
        r@.well_formed(),
{
    let mut probes: Vec<Probe> = Vec::new();
    let mut i: usize = 0;
    while i < state.instances.len()
        invariant
            i <= state.instances.len(),
            probes@ == watch_probes(state@.instances, rule_name@, domain).take(i as int),
        decreases state.instances.len() - i,
    {
        probes.push(watch_instance_matches_rule_name(&state.instances[i], rule_name, domain));
        i += 1;
    }
    assert(probes@ =~= watch_probes(state@.instances, rule_name@, domain));
    Survey::begin(owned(rule_name), None, probes)
}

/// The limiters of the instances that a survey picked.
pub open spec fn picked_limiters(instances: Seq<InstanceView>, verdicts: Seq<bool>) -> Seq<u32> {
    lists::picked(plan::managed_pids(instances), verdicts, true)
}

/// Lists the limiters of the instances that a survey picked.
pub(crate) fn pick_limiters(instances: &Vec<ManagedInstance>, verdicts: &Vec<bool>) -> (r: Vec<
    u32,
>)
    requires
        verdicts@.len() == instances@.len(),
    ensures
        r@ == picked_limiters(model::instances_of(instances@), verdicts@),
{
    let ghost all = plan::managed_pids(model::instances_of(instances@));
    let mut out: Vec<u32> = Vec::new();
    let mut i: usize = 0;
    while i < instances.len()
        invariant
            i <= instances.len(),
            verdicts@.len() == instances@.len(),
            all == plan::managed_pids(model::instances_of(instances@)),
            out@ == lists::picked(all.take(i as int), verdicts@.take(i as int), true),
        decreases instances.len() - i,
    {
        proof {
            assert(all.take(i + 1).drop_last() == all.take(i as int));
            assert(verdicts@.take(i + 1).drop_last() == verdicts@.take(i as int));
        }
        if verdicts[i] {
            out.push(instances[i].cpulimit_pid);
        }
        i += 1;
    }
    assert(all.take(i as int) == all && verdicts@.take(i as int) == verdicts@);
    out
}

/// The state without the instances that a survey picked.
pub open spec fn without_picked(s: StateView, verdicts: Seq<bool>) -> StateView {
    StateView { version: 2, instances: lists::picked(s.instances, verdicts, false) }
}

/// Drops the instances that a survey picked.
fn drop_picked(state: &StateFile, verdicts: &Vec<bool>) -> (r: StateFile)
    requires
        verdicts@.len() == state.instances@.len(),
    ensures
        r@ == without_picked(state@, verdicts@),
{
    let ghost all = state@.instances;
    let mut out: Vec<ManagedInstance> = Vec::new();
    let mut i: usize = 0;
    assert(model::instances_of(out@) =~= Seq::empty());
    while i < state.instances.len()
        invariant
            i <= state.instances.len(),
            verdicts@.len() == state.instances@.len(),
            all == state@.instances,
            model::instances_of(out@) == lists::picked(
                all.take(i as int),
                verdicts@.take(i as int),
                false,
            ),
        decreases state.instances.len() - i,
    {
        proof {
            assert(all.take(i + 1).drop_last() == all.take(i as int));
            assert(verdicts@.take(i + 1).drop_last() == verdicts@.take(i as int));
        }
        if !verdicts[i] {
            let ghost before = out@;
            out.push(state.instances[i].clone());
            assert(model::instances_of(out@) =~= model::instances_of(before).push(all[i as int]));
        }
        i += 1;
    }
    assert(all.take(i as int) == all && verdicts@.take(i as int) == verdicts@);
    StateFile { version: 2, instances: out }
}

/// What ending a watch is waiting for. `before` are the rules as they were.
#[derive(Debug)]
pub enum UnwatchStage {
    /// The rules as they are.
    LoadRules,
    /// The state, to find the limiters of the watch.
    LoadState { before: RulesFile },
    /// The names of processes, to find the limiters of the watch.
    Match { before: RulesFile, state: StateFile, survey: Survey },
    /// The stop of a limiter, after so many were stopped.
    Stop { before: RulesFile, state: StateFile, pids: Vec<u32>, stopped: usize },
    /// The names of processes, to take the limiters of the watch off the record.
    Rematch { before: RulesFile, state: StateFile, survey: Survey },
    /// The save of the state without them.
    SaveState { before: RulesFile, state: StateFile },
    /// The rules, to remove the one of the watch.
    Reload { before: RulesFile },
    /// The save of the other rules.
    SaveRules { before: RulesFile, rules: RulesFile },
    /// The removal of the agent.
    RemoveAgent { before: RulesFile },
    /// The save of the rules as they were, after this failure.
    Restore { before: RulesFile, error: ServiceError },
    /// Nothing: this is the result.
    Over(Result<bool, ServiceError>),
}

/// What an [`UnwatchStage`] holds.
pub enum UnwatchStageView {
    LoadRules,
    LoadState { before: RulesView },
    Match { before: RulesView, state: StateView, survey: SurveyView },
    Stop { before: RulesView, state: StateView, pids: Seq<u32>, stopped: nat },
    Rematch { before: RulesView, state: StateView, survey: SurveyView },
    SaveState { before: RulesView, state: StateView },
    Reload { before: RulesView },
    SaveRules { before: RulesView, rules: RulesView },
    RemoveAgent { before: RulesView },
    Restore { before: RulesView, error: ErrorView },
    Over(Result<bool, ErrorView>),
}

impl View for UnwatchStage {
    type V = UnwatchStageView;

    open spec fn view(&self) -> UnwatchStageView {
        match *self {
            UnwatchStage::LoadRules => UnwatchStageView::LoadRules,
            UnwatchStage::LoadState { before } => UnwatchStageView::LoadState { before: before@ },
            UnwatchStage::Match { before, state, survey } => UnwatchStageView::Match {
                before: before@,
                state: state@,
                survey: survey@,
            },
            UnwatchStage::Stop { before, state, pids, stopped } => UnwatchStageView::Stop {
                before: before@,
                state: state@,
                pids: pids@,
                stopped: stopped as nat,
            },
            UnwatchStage::Rematch { before, state, survey } => UnwatchStageView::Rematch {
                before: before@,
                state: state@,
                survey: survey@,
            },
            UnwatchStage::SaveState { before, state } => UnwatchStageView::SaveState {
                before: before@,
                state: state@,
            },
            UnwatchStage::Reload { before } => UnwatchStageView::Reload { before: before@ },
            UnwatchStage::SaveRules { before, rules } => UnwatchStageView::SaveRules {
                before: before@,
                rules: rules@,
            },
            UnwatchStage::RemoveAgent { before } => UnwatchStageView::RemoveAgent {
                before: before@,
            },
            UnwatchStage::Restore { before, error } => UnwatchStageView::Restore {
                before: before@,
                error: error@,
            },
            UnwatchStage::Over(r) => UnwatchStageView::Over(dialogue::result_of(r)),
        }
    }
}

/// Ending a watch.
#[derive(Debug)]
pub struct Unwatch {
    pub name: String,
    pub domain: Domain,
    pub stage: UnwatchStage,
}

/// What an [`Unwatch`] holds.
pub struct UnwatchView {
    pub name: Seq<char>,
    pub domain: Domain,
    pub stage: UnwatchStageView,
}

impl View for Unwatch {
    type V = UnwatchView;

    open spec fn view(&self) -> UnwatchView {
        UnwatchView { name: self.name@, domain: self.domain, stage: self.stage@ }
    }
}

/// Whether there is a rule of this name in this domain.
pub open spec fn has_rule(f: RulesView, name: Seq<char>, domain: Domain) -> bool {
    exists|i: int| 0 <= i < f.rules.len() && store::is_rule(#[trigger] f.rules[i], name, domain)
}

/// The rules without those of this name in this domain.
pub open spec fn without_rule(f: RulesView, name: Seq<char>, domain: Domain) -> RulesView {
    RulesView { version: f.version, rules: f.rules.filter(store::is_other_rule(name, domain)) }
}

/// Whether a domain has a single rule.
pub open spec fn is_single_rule(f: RulesView, domain: Domain) -> bool {
    f.rules.filter(plan::in_domain(domain)).len() == 1
}

impl UnwatchView {
    /// Whether the stages that go through a list have something left to do.
    pub open spec fn well_formed(self) -> bool {
        match self.stage {
            UnwatchStageView::Match { before, state, survey } => survey.well_formed()
                && !survey.is_done() && survey.probes.len() == state.instances.len(),
            UnwatchStageView::Rematch { before, state, survey } => survey.well_formed()
                && !survey.is_done() && survey.probes.len() == state.instances.len(),
            UnwatchStageView::Stop { before, state, pids, stopped } => stopped < pids.len(),
            _ => true,
        }
    }

    /// The operation at another stage.
    pub open spec fn at(self, stage: UnwatchStageView) -> UnwatchView {
        UnwatchView { stage, ..self }
    }

    /// The operation with a survey under way, for the limiters to stop.
    pub open spec fn matching(
        self,
        before: RulesView,
        state: StateView,
        survey: SurveyView,
    ) -> UnwatchView {
        if survey.is_done() {
            self.stopping(before, state, picked_limiters(state.instances, survey.verdicts), 0)
        } else {
            self.at(UnwatchStageView::Match { before, state, survey })
        }
    }

    /// The operation with so many limiters stopped.
    pub open spec fn stopping(
        self,
        before: RulesView,
        state: StateView,
        pids: Seq<u32>,
        stopped: nat,
    ) -> UnwatchView {
        if stopped < pids.len() {
            self.at(UnwatchStageView::Stop { before, state, pids, stopped })
        } else {
            self.rematching(before, state, watch_survey(state, self.name, self.domain))
        }
    }

    /// The operation with a survey under way, for the limiters to take off the record.
    pub open spec fn rematching(
        self,
        before: RulesView,
        state: StateView,
        survey: SurveyView,
    ) -> UnwatchView {
        if survey.is_done() {
            self.at(
                UnwatchStageView::SaveState {
                    before,
                    state: without_picked(state, survey.verdicts),
                },
            )
        } else {
            self.at(UnwatchStageView::Rematch { before, state, survey })
        }
    }

    /// The operation with the rule removed.
    pub open spec fn removed(self, before: RulesView) -> UnwatchView {
        if is_single_rule(before, self.domain) {
            self.at(UnwatchStageView::RemoveAgent { before })
        } else {
            self.at(UnwatchStageView::Over(Ok(true)))
        }
    }

    /// The operation after a reply.
    pub open spec fn answered(self, reply: ReplyView) -> UnwatchView {
        let error = dialogue::step_error(reply);
        let gone_wrong = self.at(UnwatchStageView::Over(Err(error)));
        match self.stage {
            UnwatchStageView::LoadRules => match reply {
                ReplyView::Rules(before) => if has_rule(before, self.name, self.domain) {
                    self.at(UnwatchStageView::LoadState { before })
                } else {
                    self.at(UnwatchStageView::Reload { before })
                },
                _ => gone_wrong,
            },
            UnwatchStageView::LoadState { before } => match reply {
                ReplyView::State(state) => self.matching(
                    before,
                    state,
                    watch_survey(state, self.name, self.domain),
                ),
                _ => gone_wrong,
            },
            UnwatchStageView::Match { before, state, survey } => self.matching(
                before,
                state,
                survey.answered(reply),
            ),
            UnwatchStageView::Stop { before, state, pids, stopped } => if reply is Done {
                self.stopping(before, state, pids, stopped + 1)
            } else {
                self.at(
                    UnwatchStageView::Over(
                        Err(
                            ErrorView::StopWatch {
                                cpulimit_pid: pids[stopped as int],
                                cause: dialogue::cause_of(reply),
                            },
                        ),
                    ),
                )
            },
            UnwatchStageView::Rematch { before, state, survey } => self.rematching(
                before,
                state,
                survey.answered(reply),
            ),
            UnwatchStageView::SaveState { before, state } => if reply is Done {
                self.at(UnwatchStageView::Reload { before })
            } else {
                gone_wrong
            },
            UnwatchStageView::Reload { before } => match reply {
                ReplyView::Rules(f) => if has_rule(f, self.name, self.domain) {
                    self.at(
                        UnwatchStageView::SaveRules {
                            before,
                            rules: without_rule(f, self.name, self.domain),
                        },
                    )
                } else {
                    self.at(UnwatchStageView::Over(Ok(false)))
                },
                _ => gone_wrong,
            },
            UnwatchStageView::SaveRules { before, rules } => if reply is Done {
                self.removed(before)
            } else {
                gone_wrong
            },
            UnwatchStageView::RemoveAgent { before } => if reply is Done {
                self.at(UnwatchStageView::Over(Ok(true)))
            } else {
                self.at(UnwatchStageView::Restore { before, error })
            },
            UnwatchStageView::Restore { before, error } => self.at(
                UnwatchStageView::Over(Err(error)),
            ),
            UnwatchStageView::Over(_) => self,
        }
    }

    /// What the operation asks for; nothing when it is over.
    pub open spec fn asks(self) -> Option<RequestView> {
        match self.stage {
            UnwatchStageView::LoadRules => Some(RequestView::LoadRules),
            UnwatchStageView::LoadState { before } => Some(RequestView::LoadState),
            UnwatchStageView::Match { before, state, survey } => survey.asks(),
            UnwatchStageView::Stop { before, state, pids, stopped } => Some(
                RequestView::Stop(pids[stopped as int]),
            ),
            UnwatchStageView::Rematch { before, state, survey } => survey.asks(),
            UnwatchStageView::SaveState { before, state } => Some(RequestView::SaveState(state)),
            UnwatchStageView::Reload { before } => Some(RequestView::LoadRules),
            UnwatchStageView::SaveRules { before, rules } => Some(RequestView::SaveRules(rules)),
            UnwatchStageView::RemoveAgent { before } => Some(RequestView::RemoveAgent(self.domain)),
            UnwatchStageView::Restore { before, error } => Some(RequestView::SaveRules(before)),
            UnwatchStageView::Over(_) => None,
        }
    }
}

/// Whether a domain has a single rule.
fn single_rule(rules: &Vec<Rule>, domain: Domain) -> (r: bool)
    ensures
        r == (model::rules_of(rules@).filter(plan::in_domain(domain)).len() == 1),
{
    let ghost all = model::rules_of(rules@);
    let ghost keep = plan::in_domain(domain);
    let mut count: usize = 0;
    let mut i: usize = 0;
    proof {
        reveal(Seq::filter);
        assert(all.take(0).filter(keep) =~= Seq::empty());
    }
    while i < rules.len()
        invariant
            i <= rules.len(),
            all == model::rules_of(rules@),
            keep == plan::in_domain(domain),
            count == all.take(i as int).filter(keep).len(),
            count <= i,
        decreases rules.len() - i,
    {
        proof {
            assert(all.take(i + 1) == all.take(i as int).push(rules@[i as int]@));
            lists::lemma_filter_push(all.take(i as int), rules@[i as int]@, keep);
        }
        if rules[i].domain == domain {
            count += 1;
        }
        i += 1;
    }
    assert(all.take(i as int) == all);
    count == 1
}

impl UnwatchStage {
    /// Goes on with a survey for the limiters to stop.
    fn matching(
        name: &str,
        domain: Domain,
        before: RulesFile,
        state: StateFile,
        survey: Survey,
    ) -> (r: UnwatchStage)
        requires
            survey@.well_formed(),
            survey@.probes.len() == state@.instances.len(),
        ensures
            forall|v: UnwatchView|
                v.name == name@ && v.domain == domain ==> v.at(r@) == #[trigger] v.matching(
                    before@,
                    state@,
                    survey@,
                ) && v.at(r@).well_formed(),
    {
        if survey.done() {
            let pids = pick_limiters(&state.instances, &survey.verdicts);
            UnwatchStage::stopping(name, domain, before, state, pids, 0)
        } else {
            UnwatchStage::Match { before, state, survey }
        }
    }

    /// Goes on with so many limiters stopped.
    fn stopping(
        name: &str,
        domain: Domain,
        before: RulesFile,
        state: StateFile,
        pids: Vec<u32>,
        stopped: usize,
    ) -> (r: UnwatchStage)
        ensures
            forall|v: UnwatchView|
                v.name == name@ && v.domain == domain ==> v.at(r@) == #[trigger] v.stopping(
                    before@,
                    state@,
                    pids@,
                    stopped as nat,
                ) && v.at(r@).well_formed(),
    {
        if stopped < pids.len() {
            UnwatchStage::Stop { before, state, pids, stopped }
        } else {
            let survey = begin_watch_survey(&state, name, domain);
            proof {
                survey::lemma_settled(
                    SurveyView {
                        name: name@,
                        needle: None,
                        probes: watch_probes(state@.instances, name@, domain),
                        verdicts: Seq::empty(),
                        named: false,
                    },
                );
            }
            UnwatchStage::rematching(before, state, survey)
        }
    }

    /// Goes on with a survey for the limiters to take off the record.
    fn rematching(before: RulesFile, state: StateFile, survey: Survey) -> (r: UnwatchStage)
        requires
            survey@.well_formed(),
            survey@.probes.len() == state@.instances.len(),
        ensures
            forall|v: UnwatchView|
                v.at(r@) == #[trigger] v.rematching(before@, state@, survey@) && v.at(
                    r@,
                ).well_formed(),
    {
        if survey.done() {
            let state = drop_picked(&state, &survey.verdicts);
            UnwatchStage::SaveState { before, state }
        } else {
            UnwatchStage::Rematch { before, state, survey }
        }
    }
}

impl Unwatch {
    /// Goes on by a reply.
    pub fn answer(self, reply: Reply) -> (r: Unwatch)
        requires
            self@.well_formed(),
        ensures
            r@ == self@.answered(reply@),
            r@.well_formed(),
    {
        let ghost v = self@;
        let Unwatch { name, domain, stage } = self;
        let next = match stage {
            UnwatchStage::LoadRules => match reply {
                Reply::Rules(before) => {
                    proof {
                        store::lemma_rule_position(before@.rules, name@, domain);
                    }
                    let found = find_rule(&before.rules, name.as_str(), domain);
                    if found < before.rules.len() {
                        UnwatchStage::LoadState { before }
                    } else {
                        UnwatchStage::Reload { before }
                    }
                },
                _ => UnwatchStage::Over(Err(error_of(reply))),
            },
            UnwatchStage::LoadState { before } => match reply {
                Reply::State(state) => {
                    let survey = begin_watch_survey(&state, name.as_str(), domain);
                    proof {
                        survey::lemma_settled(
                            SurveyView {
                                name: name@,
                                needle: None,
                                probes: watch_probes(state@.instances, name@, domain),
                                verdicts: Seq::empty(),
                                named: false,
                            },
                        );
                    }
                    UnwatchStage::matching(name.as_str(), domain, before, state, survey)
                },
                _ => UnwatchStage::Over(Err(error_of(reply))),
            },
            UnwatchStage::Match { before, state, survey } => {
                let mut survey = survey;
                proof {
                    survey::lemma_answered(survey@, reply@);
                }
                survey.answer(reply);
                UnwatchStage::matching(name.as_str(), domain, before, state, survey)
            },
            UnwatchStage::Stop { before, state, pids, stopped } => match reply {
                Reply::Done => {
                    assert(stopped < pids.len());
                    UnwatchStage::stopping(
                        name.as_str(),
                        domain,
                        before,
                        state,
                        pids,
                        stopped + 1,
                    )
                },
                _ => UnwatchStage::Over(
                    Err(
                        ServiceError::StopWatch {
                            cpulimit_pid: pids[stopped],
                            cause: cause(reply),
                        },
                    ),
                ),
            },
            UnwatchStage::Rematch { before, state, survey } => {
                let mut survey = survey;
                proof {
                    survey::lemma_answered(survey@, reply@);
                }
                survey.answer(reply);
                UnwatchStage::rematching(before, state, survey)
            },
            UnwatchStage::SaveState { before, state } => match reply {
                Reply::Done => UnwatchStage::Reload { before },
                _ => UnwatchStage::Over(Err(error_of(reply))),
            },
            UnwatchStage::Reload { before } => match reply {
                Reply::Rules(rules) => {
                    let mut rules = rules;
                    if remove_rule(&mut rules, name.as_str(), domain) {
                        UnwatchStage::SaveRules { before, rules }
                    } else {
                        UnwatchStage::Over(Ok(false))
                    }
                },
                _ => UnwatchStage::Over(Err(error_of(reply))),
            },
            UnwatchStage::SaveRules { before, rules } => match reply {
                Reply::Done => if single_rule(&before.rules, domain) {
                    UnwatchStage::RemoveAgent { before }
                } else {
                    UnwatchStage::Over(Ok(true))
                },
                _ => UnwatchStage::Over(Err(error_of(reply))),
            },
            UnwatchStage::RemoveAgent { before } => match reply {
                Reply::Done => UnwatchStage::Over(Ok(true)),
                _ => UnwatchStage::Restore { before, error: error_of(reply) },
            },
            UnwatchStage::Restore { before, error } => UnwatchStage::Over(Err(error)),
            UnwatchStage::Over(r) => UnwatchStage::Over(r),
        };
        assert(v.at(next@) == v.answered(reply@));
        Unwatch { name, domain, stage: next }
    }

    /// What the operation asks for; nothing when it is over.
    pub fn request(&self) -> (r: Option<Request>)
        requires
            self@.well_formed(),
        ensures
            match r {
                Some(request) => self@.asks() == Some(request@),
                None => self@.asks() is None,
            },
    {
        match &self.stage {
            UnwatchStage::LoadRules => Some(Request::LoadRules),
            UnwatchStage::LoadState { before } => Some(Request::LoadState),
            UnwatchStage::Match { before, state, survey } => survey.request(),
            UnwatchStage::Stop { before, state, pids, stopped } => Some(
                Request::Stop(pids[*stopped]),
            ),
            UnwatchStage::Rematch { before, state, survey } => survey.request(),
            UnwatchStage::SaveState { before, state } => Some(Request::SaveState(state.clone())),
            UnwatchStage::Reload { before } => Some(Request::LoadRules),
            UnwatchStage::SaveRules { before, rules } => Some(Request::SaveRules(rules.clone())),
            UnwatchStage::RemoveAgent { before } => Some(
                Request::RemoveAgent(self.domain),
            ),
            UnwatchStage::Restore { before, error } => Some(Request::SaveRules(before.clone())),
            UnwatchStage::Over(_) => None,
        }
    }

    /// The result, once the operation is over: whether there was a rule to remove.
    pub fn finish(self) -> (r: Option<Result<bool, ServiceError>>)
        ensures
            match r {
                Some(result) => self@.stage == UnwatchStageView::Over(dialogue::result_of(result)),
                None => !(self@.stage is Over),
            },
    {
        match self.stage {
            UnwatchStage::Over(result) => Some(result),
            _ => None,
        }
    }
}

} // verus!
