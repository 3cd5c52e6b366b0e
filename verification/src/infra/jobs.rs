//! What the dialogues about launchd jobs ask for, what they are told, and how they fail; and the
//! dialogue that clears away jobs of earlier watches.

use vstd::prelude::*;

use crate::infra::command::CommandReply;
use crate::infra::labels;
use crate::infra::labels::agent_label_for;
use crate::infra::launchd;
use crate::infra::launchd::{
    bootout_args, bootout_label_strict, print_args, read_managed_label, RealLaunchdManager,
};
use crate::lists;
use crate::model::Domain;
use crate::paths;
use crate::paths::extension;
use crate::text;
use crate::text::{concat, is_text, owned, same};

verus! {

// ---------------------------------------------------------------------------
// Requests and replies
// ---------------------------------------------------------------------------

/// What a dialogue about launchd jobs asks for.
#[derive(Debug)]
pub enum JobRequest {
    /// Run `launchctl` with these arguments: did it succeed?
    Print(Vec<String>),
    /// Run `launchctl` with these arguments.
    Launchctl(Vec<String>),
    /// Read a file.
    ReadBytes(String),
    /// Read a file of text.
    ReadText(String),
    /// Write a text to a file in one go, in a directory that is created if need be.
    WriteText { path: String, content: String },
    /// Write a file.
    WriteBytes { path: String, bytes: Vec<u8> },
    /// Remove a file.
    Remove(String),
    /// Remove a file, if there is one.
    RemoveIfPresent(String),
    /// List a directory, if there is one.
    List(String),
}

/// What a [`JobRequest`] says.
pub enum JobRequestView {
    Print(Seq<Seq<char>>),
    Launchctl(Seq<Seq<char>>),
    ReadBytes(Seq<char>),
    ReadText(Seq<char>),
    WriteText { path: Seq<char>, content: Seq<char> },
    WriteBytes { path: Seq<char>, bytes: Seq<u8> },
    Remove(Seq<char>),
    RemoveIfPresent(Seq<char>),
    List(Seq<char>),
}

impl View for JobRequest {
    type V = JobRequestView;

    open spec fn view(&self) -> JobRequestView {
        match *self {
            JobRequest::Print(args) => JobRequestView::Print(text::texts(args@)),
            JobRequest::Launchctl(args) => JobRequestView::Launchctl(text::texts(args@)),
            JobRequest::ReadBytes(path) => JobRequestView::ReadBytes(path@),
            JobRequest::ReadText(path) => JobRequestView::ReadText(path@),
            JobRequest::WriteText { path, content } => JobRequestView::WriteText {
                path: path@,
                content: content@,
            },
            JobRequest::WriteBytes { path, bytes } => JobRequestView::WriteBytes {
                path: path@,
                bytes: bytes@,
            },
            JobRequest::Remove(path) => JobRequestView::Remove(path@),
            JobRequest::RemoveIfPresent(path) => JobRequestView::RemoveIfPresent(path@),
            JobRequest::List(path) => JobRequestView::List(path@),
        }
    }
}

/// An entry of a directory: its path, or why it could not be read.
#[derive(Debug)]
pub enum DirEntry {
    Path(String),
    Broken(String),
}

/// What a [`DirEntry`] says.
pub enum DirEntryView {
    Path(Seq<char>),
    Broken(Seq<char>),
}

impl View for DirEntry {
    type V = DirEntryView;

    open spec fn view(&self) -> DirEntryView {
        match *self {
            DirEntry::Path(path) => DirEntryView::Path(path@),
            DirEntry::Broken(cause) => DirEntryView::Broken(cause@),
        }
    }
}

/// What a dialogue about launchd jobs is told.
#[derive(Debug)]
pub enum JobReply {
    /// It is done.
    Done,
    /// It failed, for this reason.
    Failed(String),
    /// Whether `launchctl` succeeded, if it could be run.
    Printed(Option<bool>),
    /// What `launchctl` left behind.
    Ran(CommandReply),
    /// The file, if it could be read.
    Bytes(Option<Vec<u8>>),
    /// The text, if it could be read.
    Text(Option<String>),
    /// The entries of the directory, if there is one.
    Entries(Option<Vec<DirEntry>>),
}

/// What a [`JobReply`] says.
pub enum JobReplyView {
    Done,
    Failed(Seq<char>),
    Printed(Option<bool>),
    Ran { success: bool, stderr: Seq<char> },
    Bytes(Option<Seq<u8>>),
    Text(Option<Seq<char>>),
    Entries(Option<Seq<DirEntryView>>),
}

/// What a file holds, if there is one.
pub open spec fn opt_bytes(o: Option<Vec<u8>>) -> Option<Seq<u8>> {
    match o {
        Some(v) => Some(v@),
        None => None,
    }
}

/// What a directory holds, if there is one.
pub open spec fn opt_entries(o: Option<Vec<DirEntry>>) -> Option<Seq<DirEntryView>> {
    match o {
        Some(v) => Some(lists::views(v@)),
        None => None,
    }
}

impl View for JobReply {
    type V = JobReplyView;

    open spec fn view(&self) -> JobReplyView {
        match *self {
            JobReply::Done => JobReplyView::Done,
            JobReply::Failed(cause) => JobReplyView::Failed(cause@),
            JobReply::Printed(p) => JobReplyView::Printed(p),
            JobReply::Ran(r) => JobReplyView::Ran { success: r.success, stderr: r.stderr@ },
            JobReply::Bytes(b) => JobReplyView::Bytes(opt_bytes(b)),
            JobReply::Text(t) => JobReplyView::Text(text::opt_text(t)),
            JobReply::Entries(e) => JobReplyView::Entries(opt_entries(e)),
        }
    }
}

/// Why a dialogue about launchd jobs failed.
#[derive(Debug)]
pub enum JobError {
    /// A step failed, for this reason.
    Step(String),
    /// The agent with this label could not be set up.
    Refresh { label: String, cause: String },
    /// The agent with this label could not be removed.
    Remove { label: String, cause: String },
}

/// What a [`JobError`] says.
pub enum JobErrorView {
    Step(Seq<char>),
    Refresh { label: Seq<char>, cause: Seq<char> },
    Remove { label: Seq<char>, cause: Seq<char> },
}

impl View for JobError {
    type V = JobErrorView;

    open spec fn view(&self) -> JobErrorView {
        match *self {
            JobError::Step(cause) => JobErrorView::Step(cause@),
            JobError::Refresh { label, cause } => JobErrorView::Refresh {
                label: label@,
                cause: cause@,
            },
            JobError::Remove { label, cause } => JobErrorView::Remove {
                label: label@,
                cause: cause@,
            },
        }
    }
}

impl JobErrorView {
    /// What the user is told.
    pub open spec fn message(self) -> Seq<char> {
        match self {
            JobErrorView::Step(cause) => cause,
            JobErrorView::Refresh { label, cause } => "refresh launchd agent "@ + label + ": "@
                + cause,
            JobErrorView::Remove { label, cause } => "remove launchd agent "@ + label + ": "@
                + cause,
        }
    }
}

impl JobError {
    /// What the user is told.
    pub fn message(&self) -> (r: String)
        ensures
            r@ == self@.message(),
    {
        match self {
            JobError::Step(cause) => owned(cause.as_str()),
            JobError::Refresh { label, cause } => {
                let mut r = concat("refresh launchd agent ", label.as_str());
                r.append(": ");
                r.append(cause.as_str());
                r
            },
            JobError::Remove { label, cause } => {
                let mut r = concat("remove launchd agent ", label.as_str());
                r.append(": ");
                r.append(cause.as_str());
                r
            },
        }
    }
}

/// The reason why a step got this reply instead of what it asked for.
pub open spec fn job_cause(reply: JobReplyView) -> Seq<char> {
    match reply {
        JobReplyView::Failed(cause) => cause,
        _ => "unexpected reply"@,
    }
}

/// The reason why a step got this reply instead of what it asked for.
pub(crate) fn cause_of(reply: JobReply) -> (r: String)
    ensures
        r@ == job_cause(reply@),
{
    match reply {
        JobReply::Failed(cause) => cause,
        _ => owned("unexpected reply"),
    }
}

/// The result of a dialogue, by its views.
pub open spec fn job_result<T: View>(r: Result<T, JobError>) -> Result<T::V, JobErrorView> {
    match r {
        Ok(v) => Ok(v@),
        Err(e) => Err(e@),
    }
}

/// How the unloading of a loaded job went.
pub open spec fn unloaded(label: Seq<char>, reply: JobReplyView) -> Result<(), Seq<char>> {
    match reply {
        JobReplyView::Ran { success, stderr } => if success {
            Ok(())
        } else {
            Err(launchd::bootout_failure(label, text::trimmed(stderr)))
        },
        _ => Err(job_cause(reply)),
    }
}

/// Judges the unloading of a loaded job.
pub(crate) fn judge_unloading(label: &str, reply: JobReply) -> (r: Result<(), String>)
    ensures
        match r {
            Ok(()) => unloaded(label@, reply@) is Ok,
            Err(cause) => unloaded(label@, reply@) == Err::<(), Seq<char>>(cause@),
        },
{
    match reply {
        JobReply::Ran(ran) => bootout_label_strict(label, &ran),
        _ => Err(cause_of(reply)),
    }
}

// ---------------------------------------------------------------------------
// Clearing away jobs of earlier watches
// ---------------------------------------------------------------------------

/// What clearing away jobs is waiting for. `at` is the entry at hand, and `removed` counts the
/// jobs that are cleared away.
#[derive(Debug)]
pub enum ClearStage {
    /// The entries of the directory.
    List,
    /// The property list at hand.
    Read,
    /// Whether the job at hand is loaded.
    Print(String),
    /// The unloading of the job at hand.
    Bootout(String),
    /// The removal of the property list at hand.
    Remove,
    /// Nothing: this is the result.
    Over(Result<usize, JobError>),
}

/// What a [`ClearStage`] holds.
pub enum ClearStageView {
    List,
    Read,
    Print(Seq<char>),
    Bootout(Seq<char>),
    Remove,
    Over(Result<usize, JobErrorView>),
}

impl View for ClearStage {
    type V = ClearStageView;

    open spec fn view(&self) -> ClearStageView {
        match *self {
            ClearStage::List => ClearStageView::List,
            ClearStage::Read => ClearStageView::Read,
            ClearStage::Print(label) => ClearStageView::Print(label@),
            ClearStage::Bootout(label) => ClearStageView::Bootout(label@),
            ClearStage::Remove => ClearStageView::Remove,
            ClearStage::Over(r) => ClearStageView::Over(job_result(r)),
        }
    }
}

/// Clearing away the jobs of earlier watches in a domain. `disabled` says that `launchctl` is not
/// to be run.
#[derive(Debug)]
pub struct ClearJobs {
    pub label_prefix: String,
    pub dir: String,
    pub domain: Domain,
    pub uid: u32,
    pub disabled: bool,
    pub entries: Vec<DirEntry>,
    pub at: usize,
    pub removed: usize,
    pub stage: ClearStage,
}

/// What a [`ClearJobs`] holds.
#[verifier::ext_equal]
pub struct ClearJobsView {
    pub label_prefix: Seq<char>,
    pub dir: Seq<char>,
    pub domain: Domain,
    pub uid: u32,
    pub disabled: bool,
    pub entries: Seq<DirEntryView>,
    pub at: nat,
    pub removed: nat,
    pub stage: ClearStageView,
}

impl View for ClearJobs {
    type V = ClearJobsView;

    open spec fn view(&self) -> ClearJobsView {
        ClearJobsView {
            label_prefix: self.label_prefix@,
            dir: self.dir@,
            domain: self.domain,
            uid: self.uid,
            disabled: self.disabled,
            entries: lists::views(self.entries@),
            at: self.at as nat,
            removed: self.removed as nat,
            stage: self.stage@,
        }
    }
}

impl ClearJobsView {
    /// Whether an entry is at hand.
    pub open spec fn on_entry(self) -> bool {
        match self.stage {
            ClearStageView::Read | ClearStageView::Print(_) | ClearStageView::Bootout(_)
            | ClearStageView::Remove => true,
            _ => false,
        }
    }

    /// What holds of every clearing under way.
    pub open spec fn well_formed(self) -> bool {
        &&& self.on_entry() ==> self.at < self.entries.len() && self.entries[self.at as int]
            is Path && self.removed <= self.at
        &&& self.stage is List ==> self.removed == 0
    }

    /// The property list at hand.
    pub open spec fn path(self) -> Seq<char> {
        self.entries[self.at as int]->Path_0
    }

    /// The clearing at the first property list from position `i` on. An entry that could not be
    /// read ends it.
    pub open spec fn seeking(self, i: nat) -> ClearJobsView
        decreases self.entries.len() - i,
    {
        if i >= self.entries.len() {
            ClearJobsView {
                at: i,
                stage: ClearStageView::Over(Ok(self.removed as usize)),
                ..self
            }
        } else {
            match self.entries[i as int] {
                DirEntryView::Broken(cause) => ClearJobsView {
                    at: i,
                    stage: ClearStageView::Over(Err(JobErrorView::Step(cause))),
                    ..self
                },
                DirEntryView::Path(path) => if paths::extension_of(path) == Some("plist"@) {
                    ClearJobsView { at: i, stage: ClearStageView::Read, ..self }
                } else {
                    self.seeking(i + 1)
                },
            }
        }
    }

    /// The label of the job at hand, if it is to be cleared away: one of this program's, and not
    /// the agent's.
    pub open spec fn stale_label(self, plist: Option<Seq<char>>) -> Option<Seq<char>> {
        match plist {
            Some(t) => match launchd::managed_label(self.label_prefix, t) {
                Some(label) => if label == labels::agent_label_of(self.label_prefix) {
                    None
                } else {
                    Some(label)
                },
                None => None,
            },
            None => None,
        }
    }

    /// The clearing at another stage.
    pub open spec fn on(self, stage: ClearStageView) -> ClearJobsView {
        ClearJobsView { stage, ..self }
    }

    /// The clearing after a reply.
    pub open spec fn answered(self, reply: JobReplyView) -> ClearJobsView {
        let failed = self.on(ClearStageView::Over(Err(JobErrorView::Step(job_cause(reply)))));
        match self.stage {
            ClearStageView::List => match reply {
                JobReplyView::Entries(Some(entries)) => (ClearJobsView {
                    entries,
                    ..self
                }).seeking(0),
                JobReplyView::Entries(None) => self.on(ClearStageView::Over(Ok(0))),
                _ => failed,
            },
            ClearStageView::Read => {
                let plist = match reply {
                    JobReplyView::Text(t) => t,
                    _ => None,
                };
                match self.stale_label(plist) {
                    Some(label) => if self.disabled {
                        self.on(ClearStageView::Remove)
                    } else {
                        self.on(ClearStageView::Print(label))
                    },
                    None => self.seeking(self.at + 1),
                }
            },
            ClearStageView::Print(label) => if reply == JobReplyView::Printed(Some(true)) {
                self.on(ClearStageView::Bootout(label))
            } else {
                self.on(ClearStageView::Remove)
            },
            ClearStageView::Bootout(label) => match unloaded(label, reply) {
                Ok(_) => self.on(ClearStageView::Remove),
                Err(cause) => self.on(ClearStageView::Over(Err(JobErrorView::Step(cause)))),
            },
            ClearStageView::Remove => if reply is Done {
                (ClearJobsView { removed: self.removed + 1, ..self }).seeking(self.at + 1)
            } else {
                failed
            },
            ClearStageView::Over(_) => self,
        }
    }

    /// What the clearing asks for; nothing when it is over.
    pub open spec fn asks(self) -> Option<JobRequestView> {
        match self.stage {
            ClearStageView::List => Some(JobRequestView::List(self.dir)),
            ClearStageView::Read => Some(JobRequestView::ReadText(self.path())),
            ClearStageView::Print(label) => Some(
                JobRequestView::Print(
                    seq!["print"@, launchd::service_target(label, self.domain, self.uid)],
                ),
            ),
            ClearStageView::Bootout(label) => Some(
                JobRequestView::Launchctl(
                    seq!["bootout"@, launchd::service_target(label, self.domain, self.uid)],
                ),
            ),
            ClearStageView::Remove => Some(JobRequestView::Remove(self.path())),
            ClearStageView::Over(_) => None,
        }
    }
}

/// A clearing that has just begun.
pub open spec fn clear_begun(
    m: RealLaunchdManager,
    domain: Domain,
    uid: u32,
    disabled: bool,
) -> ClearJobsView {
    ClearJobsView {
        label_prefix: m.label_prefix@,
        dir: launchd::plist_dir(m, domain),
        domain,
        uid,
        disabled,
        entries: Seq::empty(),
        at: 0,
        removed: 0,
        stage: ClearStageView::List,
    }
}

impl RealLaunchdManager {
    /// Begins to clear away the jobs of earlier watches in a domain.
    pub fn clean_managed_watches(&self, domain: Domain, uid: u32, disabled: bool) -> (r: ClearJobs)
        ensures
            r@ == clear_begun(*self, domain, uid, disabled),
            r@.well_formed(),
    {
        let r = ClearJobs {
            label_prefix: self.label_prefix.clone(),
            dir: self.domain_plist_dir(domain),
            domain,
            uid,
            disabled,
            entries: Vec::new(),
            at: 0,
            removed: 0,
            stage: ClearStage::List,
        };
        assert(r@ =~= clear_begun(*self, domain, uid, disabled));
        r
    }
}

impl ClearJobs {
    /// Goes to the first property list from position `i` on.
    fn seek(&mut self, i: usize)
        requires
            i <= old(self)@.entries.len(),
            old(self)@.removed <= i,
        ensures
            final(self)@ == old(self)@.seeking(i as nat),
            final(self)@.well_formed(),
    {
        let ghost goal = self@.seeking(i as nat);
        let mut k: usize = i;
        while k < self.entries.len()
            invariant
                i <= k <= self@.entries.len(),
                self@ == old(self)@,
                old(self)@.removed <= i,
                goal == old(self)@.seeking(i as nat),
                self@.seeking(k as nat) == goal,
            decreases self.entries.len() - k,
        {
            assert(self@.entries[k as int] == self.entries@[k as int]@);
            match &self.entries[k] {
                DirEntry::Broken(cause) => {
                    let cause = owned(cause.as_str());
                    self.at = k;
                    self.stage = ClearStage::Over(Err(JobError::Step(cause)));
                    assert(self@ =~= goal);
                    return ;
                },
                DirEntry::Path(path) => {
                    if is_text(&extension(path.as_str()), "plist") {
                        self.at = k;
                        self.stage = ClearStage::Read;
                        assert(self@ =~= goal);
                        return ;
                    }
                },
            }
            k += 1;
        }
        self.at = k;
        self.stage = ClearStage::Over(Ok(self.removed));
        assert(self@ =~= goal);
    }

    /// The label of the job at hand, if it is to be cleared away.
    fn find_stale_label(&self, plist: &Option<String>) -> (r: Option<String>)
        ensures
            text::opt_text(r) == self@.stale_label(text::opt_text(*plist)),
    {
        match plist {
            Some(t) => match read_managed_label(self.label_prefix.as_str(), t.as_str()) {
                Some(label) => {
                    let own = agent_label_for(self.label_prefix.as_str());
                    if same(label.as_str(), own.as_str()) {
                        None
                    } else {
                        Some(label)
                    }
                },
                None => None,
            },
            None => None,
        }
    }

    /// Goes on by a reply.
    pub fn answer(self, reply: JobReply) -> (r: ClearJobs)
        requires
            self@.well_formed(),
        ensures
            r@ == self@.answered(reply@),
            r@.well_formed(),
    {
        let ghost v = self@;
        let mut next = self;
        match &next.stage {
            ClearStage::List => match reply {
                JobReply::Entries(Some(entries)) => {
                    next.entries = entries;
                    assert(next@ =~= ClearJobsView { entries: lists::views(entries@), ..v });
                    next.seek(0);
                },
                JobReply::Entries(None) => {
                    next.stage = ClearStage::Over(Ok(0));
                },
                _ => {
                    next.stage = ClearStage::Over(Err(JobError::Step(cause_of(reply))));
                },
            },
            ClearStage::Read => {
                let plist = match reply {
                    JobReply::Text(t) => t,
                    _ => None,
                };
                match next.find_stale_label(&plist) {
                    Some(label) => if next.disabled {
                        next.stage = ClearStage::Remove;
                    } else {
                        next.stage = ClearStage::Print(label);
                    },
                    None => {
                        assert(next.at < next.entries.len());
                        next.seek(next.at + 1);
                    },
                }
            },
            ClearStage::Print(label) => match reply {
                JobReply::Printed(Some(true)) => {
                    next.stage = ClearStage::Bootout(label.clone());
                },
                _ => {
                    next.stage = ClearStage::Remove;
                },
            },
            ClearStage::Bootout(label) => match judge_unloading(label.as_str(), reply) {
                Ok(()) => {
                    next.stage = ClearStage::Remove;
                },
                Err(cause) => {
                    next.stage = ClearStage::Over(Err(JobError::Step(cause)));
                },
            },
            ClearStage::Remove => match reply {
                JobReply::Done => {
                    assert(next.at < next.entries.len());
                    next.removed = next.removed + 1;
                    assert(next@ =~= ClearJobsView { removed: v.removed + 1, ..v });
                    next.seek(next.at + 1);
                },
                _ => {
                    next.stage = ClearStage::Over(Err(JobError::Step(cause_of(reply))));
                },
            },
            ClearStage::Over(_) => {},
        }
        assert(next@ =~= v.answered(reply@));
        next
    }

    /// What the clearing asks for; nothing when it is over.
    pub fn request(&self) -> (r: Option<JobRequest>)
        requires
            self@.well_formed(),
        ensures
            match r {
                Some(request) => self@.asks() == Some(request@),
                None => self@.asks() is None,
            },
    {
        match &self.stage {
            ClearStage::List => Some(JobRequest::List(self.dir.clone())),
            ClearStage::Read => {
                assert(self@.entries[self.at as int] == self.entries@[self.at as int]@);
                match &self.entries[self.at] {
                    DirEntry::Path(path) => Some(JobRequest::ReadText(path.clone())),
                    DirEntry::Broken(_) => None,
                }
            },
            ClearStage::Print(label) => Some(
                JobRequest::Print(print_args(label.as_str(), self.domain, self.uid)),
            ),
            ClearStage::Bootout(label) => Some(
                JobRequest::Launchctl(bootout_args(label.as_str(), self.domain, self.uid)),
            ),
            ClearStage::Remove => {
                assert(self@.entries[self.at as int] == self.entries@[self.at as int]@);
                match &self.entries[self.at] {
                    DirEntry::Path(path) => Some(JobRequest::Remove(path.clone())),
                    DirEntry::Broken(_) => None,
                }
            },
            ClearStage::Over(_) => None,
        }
    }

    /// The result, once the clearing is over: the number of jobs that were cleared away.
    pub fn finish(self) -> (r: Option<Result<usize, JobError>>)
        ensures
            match r {
                Some(result) => self@.stage == ClearStageView::Over(job_result(result)),
                None => !(self@.stage is Over),
            },
    {
        match self.stage {
            ClearStage::Over(result) => Some(result),
            _ => None,
        }
    }
}

} // verus!
