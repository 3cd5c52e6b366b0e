//! The dialogues that set up and remove the agent as a launchd job. When they fail they put the
//! agent's property list back.

use vstd::prelude::*;

use crate::infra::jobs;
use crate::infra::jobs::{
    cause_of, judge_unloading, ClearJobs, ClearJobsView, ClearStage, JobError, JobErrorView,
    JobReply, JobReplyView, JobRequest, JobRequestView,
};
use crate::infra::labels;
use crate::infra::launchd;
use crate::infra::launchd::{
    agent_loaded_status, bootout_args, bootout_label_allow_missing, bootstrap_agent,
    bootstrap_args, plist_content, print_args, RealLaunchdManager,
};
use crate::model::Domain;
use crate::text;
use crate::text::owned;

verus! {

/// A copy of what a file held.
fn copy_bytes(bytes: &Vec<u8>) -> (r: Vec<u8>)
    ensures
        r@ == bytes@,
{
    let mut out: Vec<u8> = Vec::new();
    let mut i: usize = 0;
    while i < bytes.len()
        invariant
            i <= bytes.len(),
            out@ == bytes@.take(i as int),
        decreases bytes.len() - i,
    {
        out.push(bytes[i]);
        i += 1;
    }
    assert(out@ =~= bytes@);
    out
}

/// What puts a property list back as it was.
pub open spec fn restoring(plist: Seq<char>, previous: Option<Seq<u8>>) -> JobRequestView {
    match previous {
        Some(bytes) => JobRequestView::WriteBytes { path: plist, bytes },
        None => JobRequestView::RemoveIfPresent(plist),
    }
}

/// Asks for a property list to be put back as it was.
pub fn restore_plist(plist: &str, previous: &Option<Vec<u8>>) -> (r: JobRequest)
    ensures
        r@ == restoring(plist@, jobs::opt_bytes(*previous)),
{
    match previous {
        Some(bytes) => JobRequest::WriteBytes { path: owned(plist), bytes: copy_bytes(bytes) },
        None => JobRequest::RemoveIfPresent(owned(plist)),
    }
}

/// How the loading of a job went.
pub open spec fn loaded(reply: JobReplyView) -> Result<(), Seq<char>> {
    match reply {
        JobReplyView::Ran { success, stderr } => if success {
            Ok(())
        } else {
            Err("launchctl bootstrap failed: "@ + text::trimmed(stderr))
        },
        _ => Err(jobs::job_cause(reply)),
    }
}

/// Judges the loading of a job.
fn judge_loading(reply: JobReply) -> (r: Result<(), String>)
    ensures
        match r {
            Ok(()) => loaded(reply@) is Ok,
            Err(cause) => loaded(reply@) == Err::<(), Seq<char>>(cause@),
        },
{
    match reply {
        JobReply::Ran(ran) => bootstrap_agent(&ran),
        _ => Err(cause_of(reply)),
    }
}

// ---------------------------------------------------------------------------
// Setting up the agent
// ---------------------------------------------------------------------------

/// What setting up the agent is waiting for. `previous` is the property list as it was.
#[derive(Debug)]
pub enum RefreshStage {
    /// Whether the agent is loaded.
    Print,
    /// The property list as it is.
    Read { was_loaded: bool },
    /// The writing of the property list.
    Write { was_loaded: bool, previous: Option<Vec<u8>> },
    /// The unloading of the agent.
    Bootout { previous: Option<Vec<u8>> },
    /// The loading of the agent.
    Bootstrap { was_loaded: bool, previous: Option<Vec<u8>> },
    /// The property list's being put back, after this failure. The agent is loaded `again` if it
    /// was.
    Restore { again: bool, previous: Option<Vec<u8>>, error: JobError },
    /// The loading of the agent as it was, after this failure.
    Reload { error: JobError },
    /// The clearing away of jobs of earlier watches.
    Clear(ClearJobs),
    /// Nothing: this is the result.
    Over(Result<String, JobError>),
}

/// What a [`RefreshStage`] holds.
pub enum RefreshStageView {
    Print,
    Read { was_loaded: bool },
    Write { was_loaded: bool, previous: Option<Seq<u8>> },
    Bootout { previous: Option<Seq<u8>> },
    Bootstrap { was_loaded: bool, previous: Option<Seq<u8>> },
    Restore { again: bool, previous: Option<Seq<u8>>, error: JobErrorView },
    Reload { error: JobErrorView },
    Clear(ClearJobsView),
    Over(Result<Seq<char>, JobErrorView>),
}

impl View for RefreshStage {
    type V = RefreshStageView;

    open spec fn view(&self) -> RefreshStageView {
        match *self {
            RefreshStage::Print => RefreshStageView::Print,
            RefreshStage::Read { was_loaded } => RefreshStageView::Read { was_loaded },
            RefreshStage::Write { was_loaded, previous } => RefreshStageView::Write {
                was_loaded,
                previous: jobs::opt_bytes(previous),
            },
            RefreshStage::Bootout { previous } => RefreshStageView::Bootout {
                previous: jobs::opt_bytes(previous),
            },
            RefreshStage::Bootstrap { was_loaded, previous } => RefreshStageView::Bootstrap {
                was_loaded,
                previous: jobs::opt_bytes(previous),
            },
            RefreshStage::Restore { again, previous, error } => RefreshStageView::Restore {
                again,
                previous: jobs::opt_bytes(previous),
                error: error@,
            },
            RefreshStage::Reload { error } => RefreshStageView::Reload { error: error@ },
            RefreshStage::Clear(c) => RefreshStageView::Clear(c@),
            RefreshStage::Over(r) => RefreshStageView::Over(jobs::job_result(r)),
        }
    }
}

/// Setting up the agent of a domain. `disabled` says that `launchctl` is not to be run.
#[derive(Debug)]
pub struct RefreshAgent {
    pub manager: RealLaunchdManager,
    pub domain: Domain,
    pub uid: u32,
    pub disabled: bool,
    pub content: String,
    pub stage: RefreshStage,
}

/// What a [`RefreshAgent`] holds.
pub struct RefreshView {
    pub manager: RealLaunchdManager,
    pub domain: Domain,
    pub uid: u32,
    pub disabled: bool,
    pub content: Seq<char>,
    pub stage: RefreshStageView,
}

impl View for RefreshAgent {
    type V = RefreshView;

    open spec fn view(&self) -> RefreshView {
        RefreshView {
            manager: self.manager,
            domain: self.domain,
            uid: self.uid,
            disabled: self.disabled,
            content: self.content@,
            stage: self.stage@,
        }
    }
}

impl RefreshView {
    /// The label of the agent.
    pub open spec fn label(self) -> Seq<char> {
        labels::agent_label_of(self.manager.label_prefix@)
    }

    /// The property list of the agent.
    pub open spec fn plist(self) -> Seq<char> {
        launchd::plist_path(self.manager, self.domain)
    }

    /// Whether the clearing away is under way properly.
    pub open spec fn well_formed(self) -> bool {
        match self.stage {
            RefreshStageView::Clear(c) => c.well_formed(),
            _ => true,
        }
    }

    /// The failure for this reason.
    pub open spec fn error(self, cause: Seq<char>) -> JobErrorView {
        JobErrorView::Refresh { label: self.label(), cause }
    }

    /// The setup after a reply.
    pub open spec fn answered(self, reply: JobReplyView) -> RefreshView {
        let stage = match self.stage {
            RefreshStageView::Print => RefreshStageView::Read {
                was_loaded: match reply {
                    JobReplyView::Printed(p) => launchd::loaded_by(self.disabled, p) == Some(true),
                    _ => false,
                },
            },
            RefreshStageView::Read { was_loaded } => RefreshStageView::Write {
                was_loaded,
                previous: match reply {
                    JobReplyView::Bytes(b) => b,
                    _ => None,
                },
            },
            RefreshStageView::Write { was_loaded, previous } => if !(reply is Done) {
                RefreshStageView::Over(Err(JobErrorView::Step(jobs::job_cause(reply))))
            } else if self.disabled {
                RefreshStageView::Over(Ok(self.label()))
            } else if was_loaded {
                RefreshStageView::Bootout { previous }
            } else {
                RefreshStageView::Bootstrap { was_loaded, previous }
            },
            RefreshStageView::Bootout { previous } => match jobs::unloaded(self.label(), reply) {
                Ok(_) => RefreshStageView::Bootstrap { was_loaded: true, previous },
                Err(cause) => RefreshStageView::Restore {
                    again: false,
                    previous,
                    error: self.error(cause),
                },
            },
            RefreshStageView::Bootstrap { was_loaded, previous } => match loaded(reply) {
                Ok(_) => RefreshStageView::Clear(
                    jobs::clear_begun(self.manager, self.domain, self.uid, self.disabled),
                ),
                Err(cause) => RefreshStageView::Restore {
                    again: was_loaded,
                    previous,
                    error: self.error(cause),
                },
            },
            RefreshStageView::Restore { again, previous, error } => if again {
                RefreshStageView::Reload { error }
            } else {
                RefreshStageView::Over(Err(error))
            },
            RefreshStageView::Reload { error } => RefreshStageView::Over(Err(error)),
            RefreshStageView::Clear(c) => {
                let next = c.answered(reply);
                if next.stage is Over {
                    RefreshStageView::Over(Ok(self.label()))
                } else {
                    RefreshStageView::Clear(next)
                }
            },
            RefreshStageView::Over(r) => RefreshStageView::Over(r),
        };
        RefreshView { stage, ..self }
    }

    /// What the setup asks for; nothing when it is over.
    pub open spec fn asks(self) -> Option<JobRequestView> {
        let load = JobRequestView::Launchctl(
            seq!["bootstrap"@, launchd::domain_target(self.domain, self.uid), self.plist()],
        );
        let service = launchd::service_target(self.label(), self.domain, self.uid);
        match self.stage {
            RefreshStageView::Print => Some(JobRequestView::Print(seq!["print"@, service])),
            RefreshStageView::Read { was_loaded } => Some(
                JobRequestView::ReadBytes(self.plist()),
            ),
            RefreshStageView::Write { was_loaded, previous } => Some(
                JobRequestView::WriteText { path: self.plist(), content: self.content },
            ),
            RefreshStageView::Bootout { previous } => Some(
                JobRequestView::Launchctl(seq!["bootout"@, service]),
            ),
            RefreshStageView::Bootstrap { was_loaded, previous } => Some(load),
            RefreshStageView::Restore { again, previous, error } => Some(
                restoring(self.plist(), previous),
            ),
            RefreshStageView::Reload { error } => Some(load),
            RefreshStageView::Clear(c) => c.asks(),
            RefreshStageView::Over(_) => None,
        }
    }
}

impl RealLaunchdManager {
    /// Begins to set up the agent of a domain.
    pub fn ensure_agent(
        &self,
        domain: Domain,
        cpuguard_bin: &str,
        cpulimit_bin: &str,
        config_dir: &str,
        uid: u32,
        disabled: bool,
    ) -> (r: RefreshAgent)
        ensures
            r@ == (RefreshView {
                manager: *self,
                domain,
                uid,
                disabled,
                content: launchd::plist_text(
                    labels::agent_label_of(self.label_prefix@),
                    cpuguard_bin@,
                    cpulimit_bin@,
                    config_dir@,
                    domain,
                ),
                stage: if disabled {
                    RefreshStageView::Read { was_loaded: false }
                } else {
                    RefreshStageView::Print
                },
            }),
            r@.well_formed(),
    {
        let label = self.agent_label();
        let content = plist_content(
            label.as_str(),
            cpuguard_bin,
            cpulimit_bin,
            config_dir,
            domain,
        );
        let stage = if disabled {
            RefreshStage::Read { was_loaded: false }
        } else {
            RefreshStage::Print
        };
        RefreshAgent { manager: self.clone(), domain, uid, disabled, content, stage }
    }

    /// Begins to remove the agent of a domain.
    pub fn remove_agent(&self, domain: Domain, uid: u32, disabled: bool) -> (r: RemoveAgent)
        ensures
            r@ == (RemoveView {
                manager: *self,
                domain,
                uid,
                disabled,
                stage: RemoveStageView::Read,
            }),
    {
        RemoveAgent { manager: self.clone(), domain, uid, disabled, stage: RemoveStage::Read }
    }
}

impl RefreshAgent {
    /// Goes on by a reply.
    pub fn answer(self, reply: JobReply) -> (r: RefreshAgent)
        requires
            self@.well_formed(),
        ensures
            r@ == self@.answered(reply@),
            r@.well_formed(),
    {
        let RefreshAgent { manager, domain, uid, disabled, content, stage } = self;
        let label = manager.agent_label();
        let next = match stage {
            RefreshStage::Print => {
                let status = match reply {
                    JobReply::Printed(p) => agent_loaded_status(disabled, p),
                    _ => None,
                };
                RefreshStage::Read { was_loaded: matches!(status, Some(true)) }
            },
            RefreshStage::Read { was_loaded } => {
                let previous = match reply {
                    JobReply::Bytes(b) => b,
                    _ => None,
                };
                RefreshStage::Write { was_loaded, previous }
            },
            RefreshStage::Write { was_loaded, previous } => match reply {
                JobReply::Done => if disabled {
                    RefreshStage::Over(Ok(label))
                } else if was_loaded {
                    RefreshStage::Bootout { previous }
                } else {
                    RefreshStage::Bootstrap { was_loaded, previous }
                },
                _ => RefreshStage::Over(Err(JobError::Step(cause_of(reply)))),
            },
            RefreshStage::Bootout { previous } => match judge_unloading(label.as_str(), reply) {
                Ok(()) => RefreshStage::Bootstrap { was_loaded: true, previous },
                Err(cause) => RefreshStage::Restore {
                    again: false,
                    previous,
                    error: JobError::Refresh { label, cause },
                },
            },
            RefreshStage::Bootstrap { was_loaded, previous } => match judge_loading(reply) {
                Ok(()) => RefreshStage::Clear(
                    manager.clean_managed_watches(domain, uid, disabled),
                ),
                Err(cause) => RefreshStage::Restore {
                    again: was_loaded,
                    previous,
                    error: JobError::Refresh { label, cause },
                },
            },
            RefreshStage::Restore { again, previous, error } => if again {
                RefreshStage::Reload { error }
            } else {
                RefreshStage::Over(Err(error))
            },
            RefreshStage::Reload { error } => RefreshStage::Over(Err(error)),
            RefreshStage::Clear(c) => {
                let cleared = c.answer(reply);
                if matches!(cleared.stage, ClearStage::Over(_)) {
                    RefreshStage::Over(Ok(label))
                } else {
                    RefreshStage::Clear(cleared)
                }
            },
            RefreshStage::Over(r) => RefreshStage::Over(r),
        };
        RefreshAgent { manager, domain, uid, disabled, content, stage: next }
    }

    /// What the setup asks for; nothing when it is over.
    pub fn request(&self) -> (r: Option<JobRequest>)
        requires
            self@.well_formed(),
        ensures
            match r {
                Some(request) => self@.asks() == Some(request@),
                None => self@.asks() is None,
            },
    {
        let label = self.manager.agent_label();
        let plist = self.manager.agent_plist_path(self.domain);
        match &self.stage {
            RefreshStage::Print => Some(
                JobRequest::Print(print_args(label.as_str(), self.domain, self.uid)),
            ),
            RefreshStage::Read { was_loaded } => Some(JobRequest::ReadBytes(plist)),
            RefreshStage::Write { was_loaded, previous } => Some(
                JobRequest::WriteText { path: plist, content: self.content.clone() },
            ),
            RefreshStage::Bootout { previous } => Some(
                JobRequest::Launchctl(bootout_args(label.as_str(), self.domain, self.uid)),
            ),
            RefreshStage::Bootstrap { was_loaded, previous } => Some(
                JobRequest::Launchctl(bootstrap_args(plist.as_str(), self.domain, self.uid)),
            ),
            RefreshStage::Restore { again, previous, error } => Some(
                restore_plist(plist.as_str(), previous),
            ),
            RefreshStage::Reload { error } => Some(
                JobRequest::Launchctl(bootstrap_args(plist.as_str(), self.domain, self.uid)),
            ),
            RefreshStage::Clear(c) => c.request(),
            RefreshStage::Over(_) => None,
        }
    }

    /// The result, once the setup is over: the label of the agent.
    pub fn finish(self) -> (r: Option<Result<String, JobError>>)
        ensures
            match r {
                Some(result) => self@.stage == RefreshStageView::Over(jobs::job_result(result)),
                None => !(self@.stage is Over),
            },
    {
        match self.stage {
            RefreshStage::Over(result) => Some(result),
            _ => None,
        }
    }
}

// ---------------------------------------------------------------------------
// Removing the agent
// ---------------------------------------------------------------------------

/// What removing the agent is waiting for. `previous` is the property list as it was.
#[derive(Debug)]
pub enum RemoveStage {
    /// The property list as it is.
    Read,
    /// The removal of the property list.
    Remove { previous: Option<Vec<u8>> },
    /// The unloading of the agent.
    Bootout { previous: Option<Vec<u8>> },
    /// The property list's being put back, after this failure.
    Restore { previous: Option<Vec<u8>>, error: JobError },
    /// Nothing: this is the result.
    Over(Result<(), JobError>),
}

/// What a [`RemoveStage`] holds.
pub enum RemoveStageView {
    Read,
    Remove { previous: Option<Seq<u8>> },
    Bootout { previous: Option<Seq<u8>> },
    Restore { previous: Option<Seq<u8>>, error: JobErrorView },
    Over(Result<(), JobErrorView>),
}

impl View for RemoveStage {
    type V = RemoveStageView;

    open spec fn view(&self) -> RemoveStageView {
        match *self {
            RemoveStage::Read => RemoveStageView::Read,
            RemoveStage::Remove { previous } => RemoveStageView::Remove {
                previous: jobs::opt_bytes(previous),
            },
            RemoveStage::Bootout { previous } => RemoveStageView::Bootout {
                previous: jobs::opt_bytes(previous),
            },
            RemoveStage::Restore { previous, error } => RemoveStageView::Restore {
                previous: jobs::opt_bytes(previous),
                error: error@,
            },
            RemoveStage::Over(Ok(_)) => RemoveStageView::Over(Ok(())),
            RemoveStage::Over(Err(e)) => RemoveStageView::Over(Err(e@)),
        }
    }
}

/// Removing the agent of a domain. `disabled` says that `launchctl` is not to be run.
#[derive(Debug)]
pub struct RemoveAgent {
    pub manager: RealLaunchdManager,
    pub domain: Domain,
    pub uid: u32,
    pub disabled: bool,
    pub stage: RemoveStage,
}

/// What a [`RemoveAgent`] holds.
pub struct RemoveView {
    pub manager: RealLaunchdManager,
    pub domain: Domain,
    pub uid: u32,
    pub disabled: bool,
    pub stage: RemoveStageView,
}

impl View for RemoveAgent {
    type V = RemoveView;

    open spec fn view(&self) -> RemoveView {
        RemoveView {
            manager: self.manager,
            domain: self.domain,
            uid: self.uid,
            disabled: self.disabled,
            stage: self.stage@,
        }
    }
}

/// How the unloading of a job went that need not be loaded.
pub open spec fn gone(label: Seq<char>, reply: JobReplyView) -> Result<(), Seq<char>> {
    match reply {
        JobReplyView::Ran { success, stderr } => if success || launchd::says_missing(stderr) {
            Ok(())
        } else {
            Err(launchd::bootout_failure(label, stderr))
        },
        _ => Err(jobs::job_cause(reply)),
    }
}

/// Judges the unloading of a job that need not be loaded.
fn judge_gone(label: &str, reply: JobReply) -> (r: Result<(), String>)
    ensures
        match r {
            Ok(()) => gone(label@, reply@) is Ok,
            Err(cause) => gone(label@, reply@) == Err::<(), Seq<char>>(cause@),
        },
{
    match reply {
        JobReply::Ran(ran) => bootout_label_allow_missing(label, &ran),
        _ => Err(cause_of(reply)),
    }
}

impl RemoveView {
    /// The label of the agent.
    pub open spec fn label(self) -> Seq<char> {
        labels::agent_label_of(self.manager.label_prefix@)
    }

    /// The property list of the agent.
    pub open spec fn plist(self) -> Seq<char> {
        launchd::plist_path(self.manager, self.domain)
    }

    /// The removal after a reply.
    pub open spec fn answered(self, reply: JobReplyView) -> RemoveView {
        let stage = match self.stage {
            RemoveStageView::Read => RemoveStageView::Remove {
                previous: match reply {
                    JobReplyView::Bytes(b) => b,
                    _ => None,
                },
            },
            RemoveStageView::Remove { previous } => if !(reply is Done) {
                RemoveStageView::Over(Err(JobErrorView::Step(jobs::job_cause(reply))))
            } else if self.disabled {
                RemoveStageView::Over(Ok(()))
            } else {
                RemoveStageView::Bootout { previous }
            },
            RemoveStageView::Bootout { previous } => match gone(self.label(), reply) {
                Ok(_) => RemoveStageView::Over(Ok(())),
                Err(cause) => RemoveStageView::Restore {
                    previous,
                    error: JobErrorView::Remove { label: self.label(), cause },
                },
            },
            RemoveStageView::Restore { previous, error } => RemoveStageView::Over(Err(error)),
            RemoveStageView::Over(r) => RemoveStageView::Over(r),
        };
        RemoveView { stage, ..self }
    }

    /// What the removal asks for; nothing when it is over.
    pub open spec fn asks(self) -> Option<JobRequestView> {
        match self.stage {
            RemoveStageView::Read => Some(JobRequestView::ReadBytes(self.plist())),
            RemoveStageView::Remove { previous } => Some(
                JobRequestView::RemoveIfPresent(self.plist()),
            ),
            RemoveStageView::Bootout { previous } => Some(
                JobRequestView::Launchctl(
                    seq![
                        "bootout"@,
                        launchd::service_target(self.label(), self.domain, self.uid),
                    ],
                ),
            ),
            RemoveStageView::Restore { previous, error } => Some(
                restoring(self.plist(), previous),
            ),
            RemoveStageView::Over(_) => None,
        }
    }
}

impl RemoveAgent {
    /// Goes on by a reply.
    pub fn answer(self, reply: JobReply) -> (r: RemoveAgent)
        ensures
            r@ == self@.answered(reply@),
    {
        let RemoveAgent { manager, domain, uid, disabled, stage } = self;
        let label = manager.agent_label();
        let next = match stage {
            RemoveStage::Read => {
                let previous = match reply {
                    JobReply::Bytes(b) => b,
                    _ => None,
                };
                RemoveStage::Remove { previous }
            },
            RemoveStage::Remove { previous } => match reply {
                JobReply::Done => if disabled {
                    RemoveStage::Over(Ok(()))
                } else {
                    RemoveStage::Bootout { previous }
                },
                _ => RemoveStage::Over(Err(JobError::Step(cause_of(reply)))),
            },
            RemoveStage::Bootout { previous } => match judge_gone(label.as_str(), reply) {
                Ok(()) => RemoveStage::Over(Ok(())),
                Err(cause) => RemoveStage::Restore {
                    previous,
                    error: JobError::Remove { label, cause },
                },
            },
            RemoveStage::Restore { previous, error } => RemoveStage::Over(Err(error)),
            RemoveStage::Over(r) => RemoveStage::Over(r),
        };
        RemoveAgent { manager, domain, uid, disabled, stage: next }
    }

    /// What the removal asks for; nothing when it is over.
    pub fn request(&self) -> (r: Option<JobRequest>)
        ensures
            match r {
                Some(request) => self@.asks() == Some(request@),
                None => self@.asks() is None,
            },
    {
        let label = self.manager.agent_label();
        let plist = self.manager.agent_plist_path(self.domain);
        match &self.stage {
            RemoveStage::Read => Some(JobRequest::ReadBytes(plist)),
            RemoveStage::Remove { previous } => Some(JobRequest::RemoveIfPresent(plist)),
            RemoveStage::Bootout { previous } => Some(
                JobRequest::Launchctl(bootout_args(label.as_str(), self.domain, self.uid)),
            ),
            RemoveStage::Restore { previous, error } => Some(
                restore_plist(plist.as_str(), previous),
            ),
            RemoveStage::Over(_) => None,
        }
    }

    /// The result, once the removal is over.
    pub fn finish(self) -> (r: Option<Result<(), JobError>>)
        ensures
            match r {
                Some(Ok(_)) => self@.stage == RemoveStageView::Over(Ok(())),
                Some(Err(e)) => self@.stage == RemoveStageView::Over(Err(e@)),
                None => !(self@.stage is Over),
            },
    {
        match self.stage {
            RemoveStage::Over(result) => Some(result),
            _ => None,
        }
    }
}

} // verus!
