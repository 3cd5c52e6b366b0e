//! Limiting a process once: the limiter is started and put on record.

use vstd::prelude::*;

use crate::app::dialogue;
use crate::app::dialogue::{
    error_of, ErrorView, Reply, ReplyView, Request, RequestView, ServiceError,
};
use crate::clock::{local_now, Timestamp};
use crate::model::{Domain, StateFile, StateView};
use crate::store;
use crate::store::add_adhoc_instance_at;

verus! {

/// What the operation is waiting for.
#[derive(Debug)]
pub enum LimitStage {
    /// Whether the limiter program is available.
    Available,
    /// The start of the limiter.
    Start,
    /// The state, to put the limiter on record.
    Load(u32),
    /// The save of the state with the limiter on record.
    Save(u32, StateFile),
    /// Nothing: this is the result.
    Over(Result<u32, ServiceError>),
}

/// What a [`LimitStage`] holds.
pub enum LimitStageView {
    Available,
    Start,
    Load(u32),
    Save(u32, StateView),
    Over(Result<u32, ErrorView>),
}

impl View for LimitStage {
    type V = LimitStageView;

    open spec fn view(&self) -> LimitStageView {
        match *self {
            LimitStage::Available => LimitStageView::Available,
            LimitStage::Start => LimitStageView::Start,
            LimitStage::Load(pid) => LimitStageView::Load(pid),
            LimitStage::Save(pid, state) => LimitStageView::Save(pid, state@),
            LimitStage::Over(r) => LimitStageView::Over(dialogue::result_of(r)),
        }
    }
}

/// A one-time limit under way.
#[derive(Debug)]
pub struct LimitOnce {
    pub target_pid: u32,
    pub limit: u16,
    pub domain: Domain,
    pub stage: LimitStage,
}

/// What a [`LimitOnce`] holds.
pub struct LimitOnceView {
    pub target_pid: u32,
    pub limit: u16,
    pub domain: Domain,
    pub stage: LimitStageView,
}

impl View for LimitOnce {
    type V = LimitOnceView;

    open spec fn view(&self) -> LimitOnceView {
        LimitOnceView {
            target_pid: self.target_pid,
            limit: self.limit,
            domain: self.domain,
            stage: self.stage@,
        }
    }
}

/// The state with a one-time limiter on record.
pub open spec fn with_adhoc(
    s: StateView,
    cpulimit_pid: u32,
    target_pid: u32,
    domain: Domain,
    named_at: Timestamp,
    started_at: Timestamp,
) -> StateView {
    StateView {
        version: 2,
        instances: s.instances.push(
            store::adhoc_instance(cpulimit_pid, target_pid, domain, named_at, started_at),
        ),
    }
}

impl LimitOnceView {
    /// The operation after a reply. A limiter that is put on record now is named by `named_at`.
    pub open spec fn answered(
        self,
        reply: ReplyView,
        named_at: Timestamp,
        started_at: Timestamp,
    ) -> LimitOnceView {
        let failed = LimitStageView::Over(Err(dialogue::step_error(reply)));
        let stage = match self.stage {
            LimitStageView::Available => if reply is Done {
                LimitStageView::Start
            } else {
                failed
            },
            LimitStageView::Start => match reply {
                ReplyView::Started(pid) => LimitStageView::Load(pid),
                _ => failed,
            },
            LimitStageView::Load(pid) => match reply {
                ReplyView::State(s) => LimitStageView::Save(
                    pid,
                    with_adhoc(s, pid, self.target_pid, self.domain, named_at, started_at),
                ),
                _ => failed,
            },
            LimitStageView::Save(pid, _) => if reply is Done {
                LimitStageView::Over(Ok(pid))
            } else {
                failed
            },
            LimitStageView::Over(r) => LimitStageView::Over(r),
        };
        LimitOnceView { stage, ..self }
    }

    /// What the operation asks for; nothing when it is over.
    pub open spec fn asks(self) -> Option<RequestView> {
        match self.stage {
            LimitStageView::Available => Some(RequestView::EnsureAvailable),
            LimitStageView::Start => Some(
                RequestView::Start { target_pid: self.target_pid, limit: self.limit },
            ),
            LimitStageView::Load(_) => Some(RequestView::LoadState),
            LimitStageView::Save(_, s) => Some(RequestView::SaveState(s)),
            LimitStageView::Over(_) => None,
        }
    }
}

impl LimitOnce {
    /// Goes on by a reply. A limiter that is put on record now is named by `named_at`.
    pub fn answer_at(self, reply: Reply, named_at: Timestamp, started_at: Timestamp) -> (r:
        LimitOnce)
        requires
            named_at.at.on_calendar(),
        ensures
            r@ == self@.answered(reply@, named_at, started_at),
    {
        let LimitOnce { target_pid, limit, domain, stage } = self;
        let next = match stage {
            LimitStage::Available => match reply {
                Reply::Done => LimitStage::Start,
                _ => LimitStage::Over(Err(error_of(reply))),
            },
            LimitStage::Start => match reply {
                Reply::Started(pid) => LimitStage::Load(pid),
                _ => LimitStage::Over(Err(error_of(reply))),
            },
            LimitStage::Load(pid) => match reply {
                Reply::State(state) => {
                    let mut state = state;
                    add_adhoc_instance_at(
                        &mut state,
                        pid,
                        target_pid,
                        domain,
                        named_at,
                        started_at,
                    );
                    LimitStage::Save(pid, state)
                },
                _ => LimitStage::Over(Err(error_of(reply))),
            },
            LimitStage::Save(pid, _) => match reply {
                Reply::Done => LimitStage::Over(Ok(pid)),
                _ => LimitStage::Over(Err(error_of(reply))),
            },
            LimitStage::Over(r) => LimitStage::Over(r),
        };
        LimitOnce { target_pid, limit, domain, stage: next }
    }

    /// Goes on by a reply, with the time of now.
    pub fn answer(self, reply: Reply) -> (r: LimitOnce)
        ensures
            exists|named_at: Timestamp, started_at: Timestamp|
                named_at.at.on_calendar() && started_at.at.on_calendar() && r@
                    == #[trigger] self@.answered(reply@, named_at, started_at),
    {
        let named_at = local_now();
        let started_at = local_now();
        self.answer_at(reply, named_at, started_at)
    }

    /// What the operation asks for; nothing when it is over.
    pub fn request(&self) -> (r: Option<Request>)
        ensures
            match r {
                Some(request) => self@.asks() == Some(request@),
                None => self@.asks() is None,
            },
    {
        match &self.stage {
            LimitStage::Available => Some(Request::EnsureAvailable),
            LimitStage::Start => Some(
                Request::Start { target_pid: self.target_pid, limit: self.limit },
            ),
            LimitStage::Load(_) => Some(Request::LoadState),
            LimitStage::Save(_, state) => Some(Request::SaveState(state.clone())),
            LimitStage::Over(_) => None,
        }
    }

    /// The result, once the operation is over: the limiter's process id.
    pub fn finish(self) -> (r: Option<Result<u32, ServiceError>>)
        ensures
            match r {
                Some(result) => self@.stage == LimitStageView::Over(dialogue::result_of(result)),
                None => !(self@.stage is Over),
            },
    {
        match self.stage {
            LimitStage::Over(result) => Some(result),
            _ => None,
        }
    }
}

} // verus!
