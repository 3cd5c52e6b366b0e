//! What the operations ask of the system, what they are told, and how they fail.

use vstd::prelude::*;

use crate::model::{Domain, RulesFile, RulesView, StateFile, StateView};
use crate::text;
use crate::text::{concat, number_list, owned, to_decimal};

verus! {

/// What an operation asks for.
#[derive(Debug)]
pub enum Request {
    /// Is the limiter program available?
    EnsureAvailable,
    /// Read the rules.
    LoadRules,
    /// Write the rules.
    SaveRules(RulesFile),
    /// Read the state.
    LoadState,
    /// Write the state.
    SaveState(StateFile),
    /// Read the name of a process.
    NameOf(u32),
    /// Read the command line of a process.
    ArgsOf(u32),
    /// List the command lines of all processes.
    ListCommandLines,
    /// Start a limiter.
    Start { target_pid: u32, limit: u16 },
    /// Stop a limiter.
    Stop(u32),
    /// Set up the agent of a domain, with these programs and this directory.
    EnsureAgent { domain: Domain, cpuguard_bin: String, cpulimit_bin: String, config_dir: String },
    /// Remove the agent of a domain.
    RemoveAgent(Domain),
    /// Remove the launchd jobs that are left of earlier watches in a domain.
    CleanWatches(Domain),
}

/// What a [`Request`] says.
pub enum RequestView {
    EnsureAvailable,
    LoadRules,
    SaveRules(RulesView),
    LoadState,
    SaveState(StateView),
    NameOf(u32),
    ArgsOf(u32),
    ListCommandLines,
    Start { target_pid: u32, limit: u16 },
    Stop(u32),
    EnsureAgent {
        domain: Domain,
        cpuguard_bin: Seq<char>,
        cpulimit_bin: Seq<char>,
        config_dir: Seq<char>,
    },
    RemoveAgent(Domain),
    CleanWatches(Domain),
}

impl View for Request {
    type V = RequestView;

    open spec fn view(&self) -> RequestView {
        match *self {
            Request::EnsureAvailable => RequestView::EnsureAvailable,
            Request::LoadRules => RequestView::LoadRules,
            Request::SaveRules(f) => RequestView::SaveRules(f@),
            Request::LoadState => RequestView::LoadState,
            Request::SaveState(f) => RequestView::SaveState(f@),
            Request::NameOf(pid) => RequestView::NameOf(pid),
            Request::ArgsOf(pid) => RequestView::ArgsOf(pid),
            Request::ListCommandLines => RequestView::ListCommandLines,
            Request::Start { target_pid, limit } => RequestView::Start { target_pid, limit },
            Request::Stop(pid) => RequestView::Stop(pid),
            Request::EnsureAgent { domain, cpuguard_bin, cpulimit_bin, config_dir } =>
                RequestView::EnsureAgent {
                    domain,
                    cpuguard_bin: cpuguard_bin@,
                    cpulimit_bin: cpulimit_bin@,
                    config_dir: config_dir@,
                },
            Request::RemoveAgent(domain) => RequestView::RemoveAgent(domain),
            Request::CleanWatches(domain) => RequestView::CleanWatches(domain),
        }
    }
}

/// What an operation is told.
#[derive(Debug)]
pub enum Reply {
    /// It is done.
    Done,
    /// It failed, for this reason.
    Failed(String),
    /// The rules that were read.
    Rules(RulesFile),
    /// The state that was read.
    State(StateFile),
    /// The text that was read, if there was one.
    Text(Option<String>),
    /// The limiter was started under this process id.
    Started(u32),
    /// So many were removed.
    Count(usize),
}

/// What a [`Reply`] says.
pub enum ReplyView {
    Done,
    Failed(Seq<char>),
    Rules(RulesView),
    State(StateView),
    Text(Option<Seq<char>>),
    Started(u32),
    Count(usize),
}

impl View for Reply {
    type V = ReplyView;

    open spec fn view(&self) -> ReplyView {
        match *self {
            Reply::Done => ReplyView::Done,
            Reply::Failed(cause) => ReplyView::Failed(cause@),
            Reply::Rules(f) => ReplyView::Rules(f@),
            Reply::State(f) => ReplyView::State(f@),
            Reply::Text(t) => ReplyView::Text(text::opt_text(t)),
            Reply::Started(pid) => ReplyView::Started(pid),
            Reply::Count(n) => ReplyView::Count(n),
        }
    }
}

/// Why an operation failed.
#[derive(Debug)]
pub enum ServiceError {
    /// A step failed, for this reason.
    Step(String),
    /// A one-time limiter that a watch replaces could not be stopped.
    StopAdhoc { cpulimit_pid: u32, cause: String },
    /// A one-time limiter that a watch replaces could not be taken off the record.
    RemoveAdhoc { cpulimit_pid: u32, cause: String },
    /// A limiter of a watch could not be stopped.
    StopWatch { cpulimit_pid: u32, cause: String },
    /// More than one recorded one-time limiter is on a process of this name.
    ManyManaged(String),
    /// A limiter that is not recorded is on a process of this name.
    Conflict(String),
    /// Recorded limiters could not be stopped.
    NotStopped(Vec<u32>),
    /// A reply was not to the request.
    UnexpectedReply,
}

/// What a [`ServiceError`] says.
pub enum ErrorView {
    Step(Seq<char>),
    StopAdhoc { cpulimit_pid: u32, cause: Seq<char> },
    RemoveAdhoc { cpulimit_pid: u32, cause: Seq<char> },
    StopWatch { cpulimit_pid: u32, cause: Seq<char> },
    ManyManaged(Seq<char>),
    Conflict(Seq<char>),
    NotStopped(Seq<u32>),
    UnexpectedReply,
}

impl View for ServiceError {
    type V = ErrorView;

    open spec fn view(&self) -> ErrorView {
        match *self {
            ServiceError::Step(cause) => ErrorView::Step(cause@),
            ServiceError::StopAdhoc { cpulimit_pid, cause } => ErrorView::StopAdhoc {
                cpulimit_pid,
                cause: cause@,
            },
            ServiceError::RemoveAdhoc { cpulimit_pid, cause } => ErrorView::RemoveAdhoc {
                cpulimit_pid,
                cause: cause@,
            },
            ServiceError::StopWatch { cpulimit_pid, cause } => ErrorView::StopWatch {
                cpulimit_pid,
                cause: cause@,
            },
            ServiceError::ManyManaged(name) => ErrorView::ManyManaged(name@),
            ServiceError::Conflict(name) => ErrorView::Conflict(name@),
            ServiceError::NotStopped(pids) => ErrorView::NotStopped(pids@),
            ServiceError::UnexpectedReply => ErrorView::UnexpectedReply,
        }
    }
}

/// A cause, with what was being done to a limiter when it came up.
pub open spec fn in_context(doing: Seq<char>, cpulimit_pid: u32, cause: Seq<char>) -> Seq<char> {
    doing + text::decimal(cpulimit_pid as nat) + ": "@ + cause
}

impl ErrorView {
    /// What the user is told.
    pub open spec fn message(self) -> Seq<char> {
        match self {
            ErrorView::Step(cause) => cause,
            ErrorView::StopAdhoc { cpulimit_pid, cause } => in_context(
                "stop managed ad-hoc cpulimit "@,
                cpulimit_pid,
                cause,
            ),
            ErrorView::RemoveAdhoc { cpulimit_pid, cause } => in_context(
                "remove managed ad-hoc state "@,
                cpulimit_pid,
                cause,
            ),
            ErrorView::StopWatch { cpulimit_pid, cause } => in_context(
                "stop watch cpulimit "@,
                cpulimit_pid,
                cause,
            ),
            ErrorView::ManyManaged(name) => "multiple managed ad-hoc cpulimit instances match "@
                + name + ". run clean or stop them first"@,
            ErrorView::Conflict(name) => "external cpulimit conflict detected for "@ + name
                + ". stop it first or use --once"@,
            ErrorView::NotStopped(pids) => "failed to stop managed cpulimit instance(s): "@
                + text::joined(text::decimals(pids), ", "@),
            ErrorView::UnexpectedReply => "unexpected reply"@,
        }
    }
}

/// Writes [`in_context`].
fn say_in_context(doing: &str, cpulimit_pid: u32, cause: &str) -> (r: String)
    ensures
        r@ == in_context(doing@, cpulimit_pid, cause@),
{
    let mut r = owned(doing);
    let pid = to_decimal(cpulimit_pid as u64);
    r.append(pid.as_str());
    r.append(": ");
    r.append(cause);
    r
}

impl ServiceError {
    /// What the user is told.
    pub fn message(&self) -> (r: String)
        ensures
            r@ == self@.message(),
    {
        match self {
            ServiceError::Step(cause) => owned(cause.as_str()),
            ServiceError::StopAdhoc { cpulimit_pid, cause } => say_in_context(
                "stop managed ad-hoc cpulimit ",
                *cpulimit_pid,
                cause.as_str(),
            ),
            ServiceError::RemoveAdhoc { cpulimit_pid, cause } => say_in_context(
                "remove managed ad-hoc state ",
                *cpulimit_pid,
                cause.as_str(),
            ),
            ServiceError::StopWatch { cpulimit_pid, cause } => say_in_context(
                "stop watch cpulimit ",
                *cpulimit_pid,
                cause.as_str(),
            ),
            ServiceError::ManyManaged(name) => {
                let mut r = concat(
                    "multiple managed ad-hoc cpulimit instances match ",
                    name.as_str(),
                );
                r.append(". run clean or stop them first");
                r
            },
            ServiceError::Conflict(name) => {
                let mut r = concat("external cpulimit conflict detected for ", name.as_str());
                r.append(". stop it first or use --once");
                r
            },
            ServiceError::NotStopped(pids) => concat(
                "failed to stop managed cpulimit instance(s): ",
                number_list(pids).as_str(),
            ),
            ServiceError::UnexpectedReply => owned("unexpected reply"),
        }
    }
}

/// The error when a step got this reply instead of what it asked for.
pub open spec fn step_error(reply: ReplyView) -> ErrorView {
    match reply {
        ReplyView::Failed(cause) => ErrorView::Step(cause),
        _ => ErrorView::UnexpectedReply,
    }
}

/// The error when a step got this reply instead of what it asked for.
pub(crate) fn error_of(reply: Reply) -> (r: ServiceError)
    ensures
        r@ == step_error(reply@),
{
    match reply {
        Reply::Failed(cause) => ServiceError::Step(cause),
        _ => ServiceError::UnexpectedReply,
    }
}

/// The reason why a step got this reply instead of what it asked for.
pub open spec fn cause_of(reply: ReplyView) -> Seq<char> {
    match reply {
        ReplyView::Failed(cause) => cause,
        _ => "unexpected reply"@,
    }
}

/// The reason why a step got this reply instead of what it asked for.
pub(crate) fn cause(reply: Reply) -> (r: String)
    ensures
        r@ == cause_of(reply@),
{
    match reply {
        Reply::Failed(cause) => cause,
        _ => owned("unexpected reply"),
    }
}

/// The result of an operation, by its views.
pub open spec fn result_of<T: View>(r: Result<T, ServiceError>) -> Result<T::V, ErrorView> {
    match r {
        Ok(v) => Ok(v@),
        Err(e) => Err(e@),
    }
}

} // verus!
