//! A session with the list of the busiest processes, as a dialogue: it asks for the list once, shows
//! it, and goes on by what the user says, until a process is picked or the session is left. Each time
//! that the list is shown, it is marked anew which processes are limited.

use vstd::prelude::*;

use crate::cli::top;
use crate::cli::top::{
    batch_question, batch_report, cancel_text, decide_next, kill_question, kill_report,
    limited_target_pids, read_answer, refresh_interval, top_prompt, Answer, Heard, TopAction,
    TopActionView, CONFIRM_SECS, RISK_ELAPSED_THRESHOLD_SECS,
};
use crate::cpu::CpuPercent;
use crate::infra::process_snapshot;
use crate::infra::process_snapshot::{is_suspicious_orphan, EntryView, ProcessEntry};
use crate::lists;
use crate::lists::has_number;
use crate::model;
use crate::model::{InstanceView, ManagedInstance};
use crate::text;
use crate::text::owned;

verus! {

// ---------------------------------------------------------------------------
// Lines
// ---------------------------------------------------------------------------

/// A line of the list.
#[derive(Debug)]
pub struct TopLine {
    pub number: usize,
    pub entry: ProcessEntry,
    pub limited: bool,
    pub risky: bool,
}

/// What a [`TopLine`] holds.
pub struct LineView {
    pub number: nat,
    pub entry: EntryView,
    pub limited: bool,
    pub risky: bool,
}

impl View for TopLine {
    type V = LineView;

    open spec fn view(&self) -> LineView {
        LineView {
            number: self.number as nat,
            entry: self.entry@,
            limited: self.limited,
            risky: self.risky,
        }
    }
}

/// Which processes of a list count as a risk.
pub open spec fn risk_flags(list: Seq<EntryView>, risk_cpu: CpuPercent) -> Seq<bool> {
    Seq::new(
        list.len(),
        |i: int| process_snapshot::suspicious(list[i], risk_cpu, RISK_ELAPSED_THRESHOLD_SECS),
    )
}

/// Which processes of a list are limited.
pub open spec fn limited_flags(
    list: Seq<EntryView>,
    instances: Seq<InstanceView>,
    alive: Seq<bool>,
) -> Seq<bool> {
    Seq::new(list.len(), |i: int| top::is_limited(instances, alive, list[i].pid))
}

/// The lines of a list, counted from one.
pub open spec fn lines_of(
    list: Seq<EntryView>,
    limited: Seq<bool>,
    risky: Seq<bool>,
) -> Seq<LineView> {
    Seq::new(
        list.len(),
        |i: int|
            LineView {
                number: (i + 1) as nat,
                entry: list[i],
                limited: limited[i],
                risky: risky[i],
            },
    )
}

/// Says which processes of a list count as a risk.
fn flag_risks(list: &Vec<ProcessEntry>, risk_cpu: CpuPercent) -> (r: Vec<bool>)
    ensures
        r@ == risk_flags(process_snapshot::entries_of(list@), risk_cpu),
{
    let mut out: Vec<bool> = Vec::new();
    let mut i: usize = 0;
    while i < list.len()
        invariant
            i <= list.len(),
            out@ == risk_flags(process_snapshot::entries_of(list@), risk_cpu).take(i as int),
        decreases list.len() - i,
    {
        out.push(is_suspicious_orphan(&list[i], risk_cpu, RISK_ELAPSED_THRESHOLD_SECS));
        i += 1;
    }
    out
}

/// Says which processes of a list are limited.
fn flag_limited(list: &Vec<ProcessEntry>, instances: &Vec<ManagedInstance>, alive: &Vec<bool>) -> (r:
    Vec<bool>)
    requires
        alive@.len() == instances@.len(),
    ensures
        r@ == limited_flags(
            process_snapshot::entries_of(list@),
            model::instances_of(instances@),
            alive@,
        ),
{
    let ghost goal = limited_flags(
        process_snapshot::entries_of(list@),
        model::instances_of(instances@),
        alive@,
    );
    let pids = limited_target_pids(instances, alive);
    let mut out: Vec<bool> = Vec::new();
    let mut i: usize = 0;
    while i < list.len()
        invariant
            i <= list.len(),
            goal == limited_flags(
                process_snapshot::entries_of(list@),
                model::instances_of(instances@),
                alive@,
            ),
            forall|pid: u32| #[trigger]
                pids@.contains(pid) <==> top::is_limited(
                    model::instances_of(instances@),
                    alive@,
                    pid,
                ),
            out@ == goal.take(i as int),
        decreases list.len() - i,
    {
        out.push(has_number(&pids, list[i].pid));
        i += 1;
    }
    out
}

/// Builds [`lines_of`].
fn make_lines(list: &Vec<ProcessEntry>, limited: &Vec<bool>, risky: &Vec<bool>) -> (r: Vec<TopLine>)
    requires
        limited@.len() == list@.len(),
        risky@.len() == list@.len(),
    ensures
        lists::views(r@) == lines_of(process_snapshot::entries_of(list@), limited@, risky@),
{
    let ghost goal = lines_of(process_snapshot::entries_of(list@), limited@, risky@);
    let mut out: Vec<TopLine> = Vec::new();
    let mut i: usize = 0;
    assert(lists::views(out@) =~= goal.take(0));
    while i < list.len()
        invariant
            i <= list.len(),
            limited@.len() == list@.len(),
            risky@.len() == list@.len(),
            goal == lines_of(process_snapshot::entries_of(list@), limited@, risky@),
            lists::views(out@) == goal.take(i as int),
        decreases list.len() - i,
    {
        let ghost before = out@;
        let line = TopLine {
            number: i + 1,
            entry: list[i].clone(),
            limited: limited[i],
            risky: risky[i],
        };
        assert(line@ == goal[i as int]);
        out.push(line);
        assert(lists::views(out@) =~= lists::views(before).push(line@));
        assert(goal.take(i + 1) =~= goal.take(i as int).push(goal[i as int]));
        i += 1;
    }
    assert(goal.take(i as int) =~= goal);
    out
}

// ---------------------------------------------------------------------------
// The dialogue
// ---------------------------------------------------------------------------

/// What a session asks for.
#[derive(Debug)]
pub enum TopRequest {
    /// So many of the busiest processes.
    List(usize),
    /// The recorded limiters, and which of them are alive.
    Instances,
    /// Show these lines and the prompt, and wait so many seconds for a line of input.
    Show { lines: Vec<TopLine>, prompt: String, secs: u64 },
    /// Ask the question, and wait so many seconds for a line of input.
    Ask { question: String, secs: u64 },
    /// Send the signal to end this process.
    Terminate(u32),
    /// Tell this, and let it be read.
    Tell(String),
}

/// What a [`TopRequest`] says.
pub enum TopRequestView {
    List(usize),
    Instances,
    Show { lines: Seq<LineView>, prompt: Seq<char>, secs: u64 },
    Ask { question: Seq<char>, secs: u64 },
    Terminate(u32),
    Tell(Seq<char>),
}

impl View for TopRequest {
    type V = TopRequestView;

    open spec fn view(&self) -> TopRequestView {
        match *self {
            TopRequest::List(n) => TopRequestView::List(n),
            TopRequest::Instances => TopRequestView::Instances,
            TopRequest::Show { lines, prompt, secs } => TopRequestView::Show {
                lines: lists::views(lines@),
                prompt: prompt@,
                secs,
            },
            TopRequest::Ask { question, secs } => TopRequestView::Ask { question: question@, secs },
            TopRequest::Terminate(pid) => TopRequestView::Terminate(pid),
            TopRequest::Tell(told) => TopRequestView::Tell(told@),
        }
    }
}

/// The reply to a request.
#[derive(Debug)]
pub enum TopReply {
    /// The busiest processes.
    Processes(Vec<ProcessEntry>),
    /// The recorded limiters, and for each whether it is alive.
    Instances(Vec<ManagedInstance>, Vec<bool>),
    /// What came of waiting for the user.
    Heard(Heard),
    /// The signal was sent, or was not, for a reason.
    Ended(Option<String>),
    /// It was told.
    Told,
    /// It could not be done.
    Failed(String),
}

/// What a [`TopReply`] says.
pub enum TopReplyView {
    Processes(Seq<EntryView>),
    Instances(Seq<InstanceView>, Seq<bool>),
    Heard(Heard),
    Ended(Option<String>),
    Told,
    Failed(Seq<char>),
}

impl View for TopReply {
    type V = TopReplyView;

    open spec fn view(&self) -> TopReplyView {
        match *self {
            TopReply::Processes(list) => TopReplyView::Processes(
                process_snapshot::entries_of(list@),
            ),
            TopReply::Instances(instances, alive) => TopReplyView::Instances(
                model::instances_of(instances@),
                alive@,
            ),
            TopReply::Heard(heard) => TopReplyView::Heard(heard),
            TopReply::Ended(cause) => TopReplyView::Ended(cause),
            TopReply::Told => TopReplyView::Told,
            TopReply::Failed(cause) => TopReplyView::Failed(cause@),
        }
    }
}

/// The error that a reply ends a session with, where another one was asked for.
pub open spec fn session_error(reply: TopReplyView) -> Seq<char> {
    match reply {
        TopReplyView::Failed(cause) => cause,
        _ => "unexpected reply"@,
    }
}

/// Gives [`session_error`].
fn error_in(reply: TopReply) -> (r: String)
    ensures
        r@ == session_error(reply@),
{
    match reply {
        TopReply::Failed(cause) => cause,
        _ => owned("unexpected reply"),
    }
}

/// What a session is waiting for.
#[derive(Debug)]
pub enum TopStage {
    /// The list.
    List,
    /// The recorded limiters, to mark the processes that are limited.
    Mark { list: Vec<ProcessEntry> },
    /// Input below the list.
    Wait { list: Vec<ProcessEntry>, limited: Vec<bool> },
    /// The answer whether to end the process at position `at`, or all of its name.
    Confirm { list: Vec<ProcessEntry>, at: usize, batch: bool, pids: Vec<u32> },
    /// The end of these processes, of which the first few have an outcome.
    Terminate {
        list: Vec<ProcessEntry>,
        at: usize,
        batch: bool,
        pids: Vec<u32>,
        causes: Vec<Option<String>>,
    },
    /// The telling of something, before the list is shown anew.
    Tell { list: Vec<ProcessEntry>, told: String },
    /// Nothing: this is the result.
    Over(Result<Option<u32>, String>),
}

/// What a [`TopStage`] holds.
pub enum TopStageView {
    List,
    Mark { list: Seq<EntryView> },
    Wait { list: Seq<EntryView>, limited: Seq<bool> },
    Confirm { list: Seq<EntryView>, at: usize, batch: bool, pids: Seq<u32> },
    Terminate {
        list: Seq<EntryView>,
        at: usize,
        batch: bool,
        pids: Seq<u32>,
        causes: Seq<Option<String>>,
    },
    Tell { list: Seq<EntryView>, told: Seq<char> },
    Over(Result<Option<u32>, Seq<char>>),
}

/// The result of a session, with its error as text.
pub open spec fn outcome_of(r: Result<Option<u32>, String>) -> Result<Option<u32>, Seq<char>> {
    match r {
        Ok(pid) => Ok(pid),
        Err(cause) => Err(cause@),
    }
}

impl View for TopStage {
    type V = TopStageView;

    open spec fn view(&self) -> TopStageView {
        match *self {
            TopStage::List => TopStageView::List,
            TopStage::Mark { list } => TopStageView::Mark {
                list: process_snapshot::entries_of(list@),
            },
            TopStage::Wait { list, limited } => TopStageView::Wait {
                list: process_snapshot::entries_of(list@),
                limited: limited@,
            },
            TopStage::Confirm { list, at, batch, pids } => TopStageView::Confirm {
                list: process_snapshot::entries_of(list@),
                at,
                batch,
                pids: pids@,
            },
            TopStage::Terminate { list, at, batch, pids, causes } => TopStageView::Terminate {
                list: process_snapshot::entries_of(list@),
                at,
                batch,
                pids: pids@,
                causes: causes@,
            },
            TopStage::Tell { list, told } => TopStageView::Tell {
                list: process_snapshot::entries_of(list@),
                told: told@,
            },
            TopStage::Over(r) => TopStageView::Over(outcome_of(r)),
        }
    }
}

/// A session with the list.
#[derive(Debug)]
pub struct TopSession {
    pub count: usize,
    pub refresh_secs: u64,
    pub risk_cpu: CpuPercent,
    pub allow_kill: bool,
    pub stage: TopStage,
}

/// What a [`TopSession`] holds.
pub struct SessionView {
    pub count: usize,
    pub refresh_secs: u64,
    pub risk_cpu: CpuPercent,
    pub allow_kill: bool,
    pub stage: TopStageView,
}

impl View for TopSession {
    type V = SessionView;

    open spec fn view(&self) -> SessionView {
        SessionView {
            count: self.count,
            refresh_secs: self.refresh_secs,
            risk_cpu: self.risk_cpu,
            allow_kill: self.allow_kill,
            stage: self.stage@,
        }
    }
}

/// The processes to end: the one at position `at`, or all of its name in the list.
pub open spec fn chosen(list: Seq<EntryView>, at: usize, batch: bool) -> Seq<u32> {
    if batch {
        top::named_pids(list, list[at as int].name)
    } else {
        seq![list[at as int].pid]
    }
}

/// What is told after an attempt to end processes.
pub open spec fn told_after(
    list: Seq<EntryView>,
    at: usize,
    batch: bool,
    pids: Seq<u32>,
    causes: Seq<Option<String>>,
) -> Seq<char> {
    if batch {
        top::batch_text(pids, causes)
    } else {
        top::kill_text(list[at as int].name, list[at as int].pid, causes[0])
    }
}

impl SessionView {
    /// Whether these processes may be ended: that is allowed, and the one at position `at` counts
    /// as a risk, or several of its name are to be ended and it is not one of the system's.
    pub open spec fn may_end(
        self,
        list: Seq<EntryView>,
        at: usize,
        batch: bool,
        pids: Seq<u32>,
    ) -> bool {
        &&& self.allow_kill
        &&& at < list.len()
        &&& pids == chosen(list, at, batch)
        &&& if batch {
            !process_snapshot::protected(list[at as int].name)
        } else {
            risk_flags(list, self.risk_cpu)[at as int]
        }
    }

    /// What holds of every session.
    pub open spec fn well_formed(self) -> bool {
        match self.stage {
            TopStageView::Mark { list } => 0 < list.len() <= usize::MAX,
            TopStageView::Wait { list, limited } => 0 < list.len() <= usize::MAX && limited.len()
                == list.len(),
            TopStageView::Confirm { list, at, batch, pids } => list.len() <= usize::MAX
                && self.may_end(list, at, batch, pids),
            TopStageView::Terminate { list, at, batch, pids, causes } => list.len() <= usize::MAX
                && self.may_end(list, at, batch, pids) && causes.len() < pids.len(),
            TopStageView::Tell { list, told } => 0 < list.len() <= usize::MAX,
            _ => true,
        }
    }

    /// The session at another stage.
    pub open spec fn on(self, stage: TopStageView) -> SessionView {
        SessionView { stage, ..self }
    }

    /// The session at the next process to end. When each has an outcome, that is told.
    pub open spec fn ending(
        self,
        list: Seq<EntryView>,
        at: usize,
        batch: bool,
        pids: Seq<u32>,
        causes: Seq<Option<String>>,
    ) -> SessionView {
        if causes.len() < pids.len() {
            self.on(TopStageView::Terminate { list, at, batch, pids, causes })
        } else {
            self.on(
                TopStageView::Tell { list, told: told_after(list, at, batch, pids, causes) },
            )
        }
    }

    /// The session after input below the list. It keeps the list that it has.
    pub open spec fn acting(self, list: Seq<EntryView>, heard: Heard) -> SessionView {
        match top::next_action(heard, list, risk_flags(list, self.risk_cpu), self.allow_kill) {
            TopActionView::Quit => self.on(TopStageView::Over(Ok(None))),
            TopActionView::Refresh => self.on(TopStageView::Mark { list }),
            TopActionView::Refuse(why) => self.on(
                TopStageView::Tell { list, told: top::refusal_text(why) },
            ),
            TopActionView::ConfirmKill(at) => self.on(
                TopStageView::Confirm { list, at, batch: false, pids: chosen(list, at, false) },
            ),
            TopActionView::ConfirmBatch(at, pids) => self.on(
                TopStageView::Confirm { list, at, batch: true, pids },
            ),
            TopActionView::Pick(pid) => self.on(TopStageView::Over(Ok(Some(pid)))),
        }
    }

    /// The session after a reply. An empty list ends it.
    pub open spec fn answered(self, reply: TopReplyView) -> SessionView {
        let gone_wrong = self.on(TopStageView::Over(Err(session_error(reply))));
        match self.stage {
            TopStageView::List => match reply {
                TopReplyView::Processes(list) => if list.len() == 0 {
                    self.on(TopStageView::Over(Ok(None)))
                } else {
                    self.on(TopStageView::Mark { list })
                },
                _ => gone_wrong,
            },
            TopStageView::Mark { list } => match reply {
                TopReplyView::Instances(instances, alive) => if alive.len() == instances.len() {
                    self.on(
                        TopStageView::Wait {
                            list,
                            limited: limited_flags(list, instances, alive),
                        },
                    )
                } else {
                    gone_wrong
                },
                _ => gone_wrong,
            },
            TopStageView::Wait { list, limited } => match reply {
                TopReplyView::Heard(heard) => self.acting(list, heard),
                _ => gone_wrong,
            },
            TopStageView::Confirm { list, at, batch, pids } => match reply {
                TopReplyView::Heard(heard) => if top::answer_in(heard) is Yes {
                    self.ending(list, at, batch, pids, Seq::empty())
                } else {
                    self.on(
                        TopStageView::Tell { list, told: top::cancelled(top::answer_in(heard)) },
                    )
                },
                _ => gone_wrong,
            },
            TopStageView::Terminate { list, at, batch, pids, causes } => match reply {
                TopReplyView::Ended(cause) => self.ending(
                    list,
                    at,
                    batch,
                    pids,
                    causes.push(cause),
                ),
                _ => gone_wrong,
            },
            TopStageView::Tell { list, told } => if reply is Told {
                self.on(TopStageView::Mark { list })
            } else {
                gone_wrong
            },
            TopStageView::Over(_) => self,
        }
    }

    /// The seconds after which the list is shown anew.
    pub open spec fn interval(self) -> u64 {
        if self.refresh_secs < 1 {
            1
        } else {
            self.refresh_secs
        }
    }

    /// What the session asks for; nothing when it is over.
    pub open spec fn asks(self) -> Option<TopRequestView> {
        match self.stage {
            TopStageView::List => Some(TopRequestView::List(self.count)),
            TopStageView::Mark { list } => Some(TopRequestView::Instances),
            TopStageView::Wait { list, limited } => Some(
                TopRequestView::Show {
                    lines: lines_of(list, limited, risk_flags(list, self.risk_cpu)),
                    prompt: top::prompt(self.interval(), self.allow_kill),
                    secs: self.interval(),
                },
            ),
            TopStageView::Confirm { list, at, batch, pids } => Some(
                TopRequestView::Ask {
                    question: if batch {
                        top::batch_asked(list[at as int].name, pids)
                    } else {
                        top::kill_asked(list[at as int].name, list[at as int].pid)
                    },
                    secs: CONFIRM_SECS,
                },
            ),
            TopStageView::Terminate { list, at, batch, pids, causes } => Some(
                TopRequestView::Terminate(pids[causes.len() as int]),
            ),
            TopStageView::Tell { list, told } => Some(TopRequestView::Tell(told)),
            TopStageView::Over(_) => None,
        }
    }
}

/// Begins a session, to pick a process from the list.
pub fn pick_pid_from_live_top(
    count: usize,
    refresh_secs: u64,
    risk_cpu: CpuPercent,
    allow_kill: bool,
) -> (r: TopSession)
    ensures
        r@ == (SessionView {
            count,
            refresh_secs,
            risk_cpu,
            allow_kill,
            stage: TopStageView::List,
        }),
        r@.well_formed(),
{
    TopSession { count, refresh_secs, risk_cpu, allow_kill, stage: TopStage::List }
}

/// Goes to the next process to end, or tells what became of them.
fn go_on_ending(
    list: Vec<ProcessEntry>,
    at: usize,
    batch: bool,
    pids: Vec<u32>,
    causes: Vec<Option<String>>,
) -> (r: TopStage)
    requires
        at < list@.len(),
        pids@ == chosen(process_snapshot::entries_of(list@), at, batch),
        causes@.len() <= pids@.len(),
    ensures
        forall|v: SessionView|
            r@ == (#[trigger] v.ending(
                process_snapshot::entries_of(list@),
                at,
                batch,
                pids@,
                causes@,
            )).stage,
{
    let ghost all = process_snapshot::entries_of(list@);
    assert(all[at as int] == list@[at as int]@);
    if causes.len() < pids.len() {
        return TopStage::Terminate { list, at, batch, pids, causes };
    }
    let told = if batch {
        batch_report(&pids, &causes)
    } else {
        kill_report(list[at].name.as_str(), list[at].pid, &causes[0])
    };
    TopStage::Tell { list, told }
}

impl TopSession {
    /// Acts on input below the list.
    fn act(&self, list: Vec<ProcessEntry>, heard: &Heard) -> (r: TopStage)
        requires
            0 < list@.len(),
        ensures
            r@ == self@.acting(process_snapshot::entries_of(list@), *heard).stage,
            self@.on(r@).well_formed(),
    {
        let ghost all = process_snapshot::entries_of(list@);
        let risky = flag_risks(&list, self.risk_cpu);
        assert(all.len() == list.len());
        proof {
            match heard {
                Heard::Line(line) => {
                    top::ending_processes_needs_leave(line@, all, risky@, self.allow_kill);
                },
                _ => {},
            }
        }
        match decide_next(heard, &list, &risky, self.allow_kill) {
            TopAction::Quit => TopStage::Over(Ok(None)),
            TopAction::Refresh => TopStage::Mark { list },
            TopAction::Refuse(why) => TopStage::Tell { list, told: owned(why.message()) },
            TopAction::ConfirmKill(at) => {
                assert(all[at as int] == list@[at as int]@);
                let mut pids: Vec<u32> = Vec::new();
                pids.push(list[at].pid);
                assert(pids@ =~= chosen(all, at, false));
                TopStage::Confirm { list, at, batch: false, pids }
            },
            TopAction::ConfirmBatch(at, pids) => {
                TopStage::Confirm { list, at, batch: true, pids }
            },
            TopAction::Pick(pid) => TopStage::Over(Ok(Some(pid))),
        }
    }

    /// Goes on by a reply.
    pub fn answer(self, reply: TopReply) -> (r: TopSession)
        requires
            self@.well_formed(),
        ensures
            r@ == self@.answered(reply@),
            r@.well_formed(),
    {
        let TopSession { count, refresh_secs, risk_cpu, allow_kill, stage } = self;
        let bare = TopSession { count, refresh_secs, risk_cpu, allow_kill, stage: TopStage::List };
        let next = match stage {
            TopStage::List => match reply {
                TopReply::Processes(list) => if list.len() == 0 {
                    TopStage::Over(Ok(None))
                } else {
                    TopStage::Mark { list }
                },
                _ => TopStage::Over(Err(error_in(reply))),
            },
            TopStage::Mark { list } => match reply {
                TopReply::Instances(instances, alive) => if alive.len() == instances.len() {
                    let limited = flag_limited(&list, &instances, &alive);
                    TopStage::Wait { list, limited }
                } else {
                    TopStage::Over(Err(owned("unexpected reply")))
                },
                _ => TopStage::Over(Err(error_in(reply))),
            },
            TopStage::Wait { list, limited } => match reply {
                TopReply::Heard(heard) => bare.act(list, &heard),
                _ => TopStage::Over(Err(error_in(reply))),
            },
            TopStage::Confirm { list, at, batch, pids } => match reply {
                TopReply::Heard(heard) => match read_answer(&heard) {
                    Answer::Yes => go_on_ending(list, at, batch, pids, Vec::new()),
                    other => TopStage::Tell { list, told: owned(cancel_text(other)) },
                },
                _ => TopStage::Over(Err(error_in(reply))),
            },
            TopStage::Terminate { list, at, batch, pids, causes } => match reply {
                TopReply::Ended(cause) => {
                    let mut causes = causes;
                    causes.push(cause);
                    go_on_ending(list, at, batch, pids, causes)
                },
                _ => TopStage::Over(Err(error_in(reply))),
            },
            TopStage::Tell { list, told } => match reply {
                TopReply::Told => TopStage::Mark { list },
                _ => TopStage::Over(Err(error_in(reply))),
            },
            TopStage::Over(result) => TopStage::Over(result),
        };
        TopSession { count, refresh_secs, risk_cpu, allow_kill, stage: next }
    }

    /// What the session asks for; nothing when it is over.
    pub fn request(&self) -> (r: Option<TopRequest>)
        requires
            self@.well_formed(),
        ensures
            match r {
                Some(request) => self@.asks() == Some(request@),
                None => self@.asks() is None,
            },
    {
        match &self.stage {
            TopStage::List => Some(TopRequest::List(self.count)),
            TopStage::Mark { list } => Some(TopRequest::Instances),
            TopStage::Wait { list, limited } => {
                let risky = flag_risks(list, self.risk_cpu);
                let secs: u64 = refresh_interval(self.refresh_secs);
                Some(
                    TopRequest::Show {
                        lines: make_lines(list, limited, &risky),
                        prompt: top_prompt(secs, self.allow_kill),
                        secs,
                    },
                )
            },
            TopStage::Confirm { list, at, batch, pids } => {
                let ghost all = process_snapshot::entries_of(list@);
                assert(all[*at as int] == list@[*at as int]@);
                let name = list[*at].name.as_str();
                let question = if *batch {
                    batch_question(name, pids)
                } else {
                    kill_question(name, list[*at].pid)
                };
                Some(TopRequest::Ask { question, secs: CONFIRM_SECS })
            },
            TopStage::Terminate { list, at, batch, pids, causes } => Some(
                TopRequest::Terminate(pids[causes.len()]),
            ),
            TopStage::Tell { list, told } => Some(TopRequest::Tell(told.clone())),
            TopStage::Over(_) => None,
        }
    }

    /// The result, once the session is over: the process that was picked, if one was.
    pub fn finish(self) -> (r: Option<Result<Option<u32>, String>>)
        ensures
            match r {
                Some(result) => self@.stage == TopStageView::Over(outcome_of(result)),
                None => !(self@.stage is Over),
            },
    {
        match self.stage {
            TopStage::Over(result) => Some(result),
            _ => None,
        }
    }
}

// ---------------------------------------------------------------------------
// What every session keeps
// ---------------------------------------------------------------------------

/// A session after a series of replies.
pub open spec fn session_after(v: SessionView, replies: Seq<TopReplyView>) -> SessionView
    decreases replies.len(),
{
    if replies.len() == 0 {
        v
    } else {
        session_after(v, replies.drop_last()).answered(replies.last())
    }
}

/// Whether the lists in these replies can be held.
pub open spec fn can_be_held(replies: Seq<TopReplyView>) -> bool {
    forall|i: int|
        0 <= i < replies.len() ==> (#[trigger] replies[i] matches TopReplyView::Processes(list)
            ==> list.len() <= usize::MAX)
}

/// Whether the end of these processes was granted by the reply at position `j`: the user was asked
/// about them, has said yes, and since then only they were ended, one by one.
pub open spec fn is_granted_at(
    v: SessionView,
    replies: Seq<TopReplyView>,
    j: int,
    list: Seq<EntryView>,
    at: usize,
    batch: bool,
    pids: Seq<u32>,
) -> bool {
    &&& 0 <= j < replies.len()
    &&& session_after(v, replies.take(j)).stage == TopStageView::Confirm { list, at, batch, pids }
    &&& replies[j] matches TopReplyView::Heard(heard) && top::answer_in(heard) is Yes
    &&& forall|k: int| j < k <= replies.len() ==> (#[trigger] session_after(
        v,
        replies.take(k),
    )).stage is Terminate
}

/// A reply keeps a session well-formed, if its list can be held.
proof fn lemma_well_formed(v: SessionView, reply: TopReplyView)
    requires
        v.well_formed(),
        reply matches TopReplyView::Processes(list) ==> list.len() <= usize::MAX,
    ensures
        v.answered(reply).well_formed(),
        v.answered(reply).allow_kill == v.allow_kill,
        v.answered(reply).risk_cpu == v.risk_cpu,
{
    match v.stage {
        TopStageView::Wait { list, limited } => {
            match reply {
                TopReplyView::Heard(Heard::Line(line)) => {
                    top::ending_processes_needs_leave(
                        line@,
                        list,
                        risk_flags(list, v.risk_cpu),
                        v.allow_kill,
                    );
                },
                _ => {},
            }
        },
        _ => {},
    }
}

/// Whatever a session is told, it ends a process only where that is allowed and the user has said
/// yes to the last question, which was about this process: the one that counts as a risk, or those
/// in the list under one name that is not one of the system's. Each of them gets one signal.
pub proof fn processes_end_only_by_leave(v: SessionView, replies: Seq<TopReplyView>)
    requires
        v.stage is List,
        can_be_held(replies),
    ensures
        ({
            let u = session_after(v, replies);
            u.asks() matches Some(TopRequestView::Terminate(pid)) ==> {
                &&& u.stage matches TopStageView::Terminate { list, at, batch, pids, causes }
                &&& v.may_end(list, at, batch, pids)
                &&& causes.len() < pids.len()
                &&& pid == pids[causes.len() as int]
                &&& is_granted_at(v, replies, replies.len() - 1 - causes.len(), list, at, batch, pids)
            }
        }),
{
    lemma_session(v, replies);
}

/// What holds of a session, by induction over the replies.
proof fn lemma_session(v: SessionView, replies: Seq<TopReplyView>)
    requires
        v.stage is List,
        can_be_held(replies),
    ensures
        ({
            let u = session_after(v, replies);
            &&& u.well_formed()
            &&& u.allow_kill == v.allow_kill
            &&& u.risk_cpu == v.risk_cpu
            &&& u.stage matches TopStageView::Terminate { list, at, batch, pids, causes }
                ==> is_granted_at(
                v,
                replies,
                replies.len() - 1 - causes.len(),
                list,
                at,
                batch,
                pids,
            )
        }),
    decreases replies.len(),
{
    if replies.len() > 0 {
        let before = replies.drop_last();
        assert forall|i: int| 0 <= i < before.len() implies (#[trigger] before[i] matches
            TopReplyView::Processes(list) ==> list.len() <= usize::MAX) by {
            assert(before[i] == replies[i]);
        }
        lemma_session(v, before);
        let t = session_after(v, before);
        let u = session_after(v, replies);
        assert(replies.last() == replies[replies.len() - 1]);
        lemma_well_formed(t, replies.last());
        assert(replies.take(before.len() as int) == before);
        assert(replies.take(replies.len() as int) == replies);
        match u.stage {
            TopStageView::Terminate { list, at, batch, pids, causes } => {
                let j = replies.len() - 1 - causes.len();
                match t.stage {
                    TopStageView::Confirm { .. } => {
                        assert forall|k: int| j < k <= replies.len() implies (
                        #[trigger] session_after(v, replies.take(k))).stage is Terminate by {
                            assert(k == replies.len());
                        }
                    },
                    TopStageView::Terminate { causes: earlier, .. } => {
                        assert(causes.len() == earlier.len() + 1);
                        assert(replies.take(j) == before.take(j));
                        assert forall|k: int| j < k <= replies.len() implies (
                        #[trigger] session_after(v, replies.take(k))).stage is Terminate by {
                            if k < replies.len() {
                                assert(replies.take(k) == before.take(k));
                            }
                        }
                    },
                    _ => {},
                }
            },
            _ => {},
        }
    }
}

/// An empty list ends a session with nothing picked, and so do `q` and the end of the input. A
/// number picks the process on the line of that number, if there is one; nothing else picks any.
pub proof fn picks_are_lines(v: SessionView, reply: TopReplyView)
    requires
        v.well_formed(),
    ensures
        v.stage is List ==> (reply matches TopReplyView::Processes(list) ==> (list.len() == 0
            <==> v.answered(reply).stage == TopStageView::Over(Ok::<Option<u32>, Seq<char>>(None)))),
        v.stage matches TopStageView::Wait { list, limited } ==> match reply {
            TopReplyView::Heard(Heard::Line(line)) => {
                let input = text::trimmed(line@);
                let number = text::number_up_to(input, usize::MAX as nat);
                let over = v.answered(reply).stage;
                if number is Some && 1 <= number->0 <= list.len() {
                    over == TopStageView::Over(Ok(Some(list[number->0 - 1].pid)))
                } else if top::is_letter(input, 'q') {
                    over == TopStageView::Over(Ok::<Option<u32>, Seq<char>>(None))
                } else {
                    !(over is Over)
                }
            },
            TopReplyView::Heard(Heard::Nothing) => v.answered(reply).stage
                == (TopStageView::Mark { list }),
            TopReplyView::Heard(Heard::End) => v.answered(reply).stage == TopStageView::Over(
                Ok::<Option<u32>, Seq<char>>(None),
            ),
            _ => v.answered(reply).stage == TopStageView::Over(
                Err::<Option<u32>, Seq<char>>(session_error(reply)),
            ),
        },
        !(v.stage is List || v.stage is Wait || v.stage is Over) ==> !(v.answered(
            reply,
        ).stage matches TopStageView::Over(r) && r is Ok),
{
    match v.stage {
        TopStageView::Wait { list, limited } => {
            match reply {
                TopReplyView::Heard(Heard::Line(line)) => {
                    let input = text::trimmed(line@);
                    if text::number_up_to(input, usize::MAX as nat) is Some {
                        lemma_number_is_no_letter(input);
                    }
                },
                _ => {},
            }
        },
        _ => {},
    }
}

/// A number does not start with a letter.
proof fn lemma_number_is_no_letter(input: Seq<char>)
    requires
        text::number_up_to(input, usize::MAX as nat) is Some,
    ensures
        input.len() > 0,
        !top::is_letter(input, 'q'),
        top::prefixed_choice(input, 'k') is None,
        top::prefixed_choice(input, 'x') is None,
{
    let body = text::number_body(input);
    assert(text::is_digit(body[0]));
    assert(input[0] == '+' || text::is_digit(input[0]));
    assert(seq!['q'][0] == 'q' && seq![top::upper('q')][0] == top::upper('q'));
}

/// A session asks for the list once: whatever it is told, after its first reply it never asks for it
/// again.
pub proof fn one_list_is_read(v: SessionView, replies: Seq<TopReplyView>, n: int)
    requires
        v.stage is List,
        0 < n <= replies.len(),
    ensures
        !(session_after(v, replies.take(n)).asks() matches Some(TopRequestView::List(_))),
{
    let first = replies.take(n);
    let u = session_after(v, first.drop_last());
    assert(session_after(v, first) == u.answered(first.last()));
}

/// Whether a reply picks `pid` from the list: it is a line that holds the number of its line.
pub open spec fn is_picked_by(reply: TopReplyView, list: Seq<EntryView>, pid: u32) -> bool {
    &&& reply matches TopReplyView::Heard(Heard::Line(line))
    &&& text::number_up_to(text::trimmed(line@), usize::MAX as nat) matches Some(number)
    &&& 1 <= number <= list.len()
    &&& pid == list[number - 1].pid
}

/// Whether a session that has read `list` goes by it.
pub open spec fn goes_by(stage: TopStageView, list: Seq<EntryView>) -> bool {
    match stage {
        TopStageView::List => false,
        TopStageView::Mark { list: l } => l == list,
        TopStageView::Wait { list: l, limited } => l == list,
        TopStageView::Confirm { list: l, at, batch, pids } => l == list,
        TopStageView::Terminate { list: l, at, batch, pids, causes } => l == list,
        TopStageView::Tell { list: l, told } => l == list,
        TopStageView::Over(_) => true,
    }
}

/// A session goes by the one list that it has read. If that is empty, the session is over with
/// nothing picked. A number on one of its lines picks that line's process, and a process is picked
/// in no other way.
pub proof fn picks_come_from_the_one_list(
    v: SessionView,
    replies: Seq<TopReplyView>,
    list: Seq<EntryView>,
)
    requires
        v.stage is List,
        can_be_held(replies),
        replies.len() > 0,
        replies[0] == TopReplyView::Processes(list),
    ensures
        ({
            let u = session_after(v, replies);
            let t = session_after(v, replies.drop_last());
            &&& goes_by(u.stage, list)
            &&& list.len() == 0 ==> u.stage == TopStageView::Over(
                Ok::<Option<u32>, Seq<char>>(None),
            )
            &&& forall|pid: u32|
                t.stage is Wait && #[trigger] is_picked_by(replies.last(), list, pid) ==> u.stage
                    == TopStageView::Over(Ok(Some(pid)))
            &&& u.stage matches TopStageView::Over(Ok(Some(pid))) ==> exists|j: int|
                0 < j < replies.len() && is_picked_by(#[trigger] replies[j], list, pid)
        }),
    decreases replies.len(),
{
    let before = replies.drop_last();
    let t = session_after(v, before);
    let u = session_after(v, replies);
    assert(replies.last() == replies[replies.len() - 1]);
    if before.len() > 0 {
        assert forall|i: int| 0 <= i < before.len() implies (#[trigger] before[i] matches
            TopReplyView::Processes(l) ==> l.len() <= usize::MAX) by {
            assert(before[i] == replies[i]);
        }
        picks_come_from_the_one_list(v, before, list);
        lemma_session(v, before);
        picks_are_lines(t, replies.last());
        if u.stage is Over && u.stage->Over_0 is Ok && u.stage->Over_0->Ok_0 is Some {
            let pid = u.stage->Over_0->Ok_0->0;
            if t.stage is Over {
                let j = choose|j: int|
                    0 < j < before.len() && is_picked_by(#[trigger] before[j], list, pid);
                assert(replies[j] == before[j]);
            } else {
                assert(is_picked_by(replies[replies.len() - 1], list, pid));
            }
        }
    } else {
        assert(before =~= Seq::empty());
        assert(t == v);
    }
}

} // verus!
