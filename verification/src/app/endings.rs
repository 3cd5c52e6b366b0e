//! Every operation ends: each reply brings it nearer to its end, whatever it says.

use vstd::prelude::*;

use crate::app::clean::{CleanAllStageView, CleanAllView, CleanManagedView, CleanStageView};
use crate::app::dialogue::ReplyView;
use crate::app::limit::{LimitOnceView, LimitStageView};
use crate::app::survey;
use crate::app::survey::{Probe, SurveyView};
use crate::app::unwatch::{UnwatchStageView, UnwatchView};
use crate::app::watch::{WatchStageView, WatchView};
use crate::clock::Timestamp;
use crate::progress::Left;

verus! {

// ---------------------------------------------------------------------------
// Surveys
// ---------------------------------------------------------------------------

/// The most replies that a survey can still take.
pub open spec fn survey_left(s: SurveyView) -> nat {
    let open = s.probes.len() - s.verdicts.len();
    (if s.named {
        2 * open - 1
    } else {
        2 * open
    }) as nat
}

/// Filling in what is known takes back no verdict.
proof fn lemma_settled_grows(s: SurveyView)
    requires
        s.verdicts.len() <= s.probes.len(),
    ensures
        s.verdicts.len() <= s.settled().verdicts.len() <= s.probes.len(),
        s.settled().named == s.named,
    decreases s.probes.len() - s.verdicts.len(),
{
    if !s.is_done() {
        match s.probes[s.verdicts.len() as int] {
            Probe::Known(b) => {
                lemma_settled_grows(SurveyView { verdicts: s.verdicts.push(b), ..s });
            },
            Probe::Ask(_) => {},
        }
    }
}

/// Each reply brings a survey nearer to its end.
proof fn lemma_survey_left(s: SurveyView, reply: ReplyView)
    requires
        s.well_formed(),
        !s.is_done(),
    ensures
        survey_left(s.answered(reply)) < survey_left(s),
{
    survey::lemma_answered(s, reply);
    lemma_settled_grows(SurveyView { verdicts: s.verdicts.push(true), named: false, ..s });
    lemma_settled_grows(SurveyView { verdicts: s.verdicts.push(false), named: false, ..s });
    survey::lemma_settled(SurveyView { verdicts: s.verdicts.push(true), named: false, ..s });
    survey::lemma_settled(SurveyView { verdicts: s.verdicts.push(false), named: false, ..s });
}

// ---------------------------------------------------------------------------
// The operations
// ---------------------------------------------------------------------------

/// What is left of a watch.
pub open spec fn watch_left(v: WatchView) -> Left {
    match v.stage {
        WatchStageView::Available => Left { stages: 13, steps: 0 },
        WatchStageView::LoadState => Left { stages: 12, steps: 0 },
        WatchStageView::Match { state, survey } => Left { stages: 11, steps: survey_left(survey) },
        WatchStageView::List { managed, to_stop } => Left { stages: 10, steps: 0 },
        WatchStageView::Check { to_stop, survey } => Left { stages: 9, steps: survey_left(survey) },
        WatchStageView::LoadRules { to_stop } => Left { stages: 8, steps: 0 },
        WatchStageView::Reload { before, to_stop } => Left { stages: 7, steps: 0 },
        WatchStageView::SaveRules { before, to_stop, rules, rule } => Left { stages: 6, steps: 0 },
        WatchStageView::EnsureAgent { before, to_stop, rule } => Left { stages: 5, steps: 0 },
        WatchStageView::Stop { before, cpulimit_pid, rule } => Left { stages: 4, steps: 0 },
        WatchStageView::ReloadState { before, cpulimit_pid, rule } => Left { stages: 3, steps: 0 },
        WatchStageView::SaveState { before, cpulimit_pid, state, rule } => Left {
            stages: 2,
            steps: 0,
        },
        WatchStageView::Restore { before, error } => Left { stages: 1, steps: 0 },
        WatchStageView::Over(_) => Left { stages: 0, steps: 0 },
    }
}

/// Each reply brings a watch nearer to its end.
pub proof fn watches_end(v: WatchView, reply: ReplyView, now: Timestamp)
    requires
        v.well_formed(),
        v.asks() is Some,
    ensures
        watch_left(v.answered(reply, now)).is_less(watch_left(v)),
{
    match v.stage {
        WatchStageView::Match { state, survey } => {
            lemma_survey_left(survey, reply);
        },
        WatchStageView::Check { to_stop, survey } => {
            lemma_survey_left(survey, reply);
        },
        _ => {},
    }
}

/// What is left of the end of a watch.
pub open spec fn unwatch_left(v: UnwatchView) -> Left {
    match v.stage {
        UnwatchStageView::LoadRules => Left { stages: 10, steps: 0 },
        UnwatchStageView::LoadState { before } => Left { stages: 9, steps: 0 },
        UnwatchStageView::Match { before, state, survey } => Left {
            stages: 8,
            steps: survey_left(survey),
        },
        UnwatchStageView::Stop { before, state, pids, stopped } => Left {
            stages: 7,
            steps: (pids.len() - stopped) as nat,
        },
        UnwatchStageView::Rematch { before, state, survey } => Left {
            stages: 6,
            steps: survey_left(survey),
        },
        UnwatchStageView::SaveState { before, state } => Left { stages: 5, steps: 0 },
        UnwatchStageView::Reload { before } => Left { stages: 4, steps: 0 },
        UnwatchStageView::SaveRules { before, rules } => Left { stages: 3, steps: 0 },
        UnwatchStageView::RemoveAgent { before } => Left { stages: 2, steps: 0 },
        UnwatchStageView::Restore { before, error } => Left { stages: 1, steps: 0 },
        UnwatchStageView::Over(_) => Left { stages: 0, steps: 0 },
    }
}

/// Each reply brings the end of a watch nearer to its own.
pub proof fn unwatches_end(v: UnwatchView, reply: ReplyView)
    requires
        v.well_formed(),
        v.asks() is Some,
    ensures
        unwatch_left(v.answered(reply)).is_less(unwatch_left(v)),
{
    match v.stage {
        UnwatchStageView::Match { before, state, survey } => {
            lemma_survey_left(survey, reply);
        },
        UnwatchStageView::Rematch { before, state, survey } => {
            lemma_survey_left(survey, reply);
        },
        _ => {},
    }
}

/// What is left of a one-time limit.
pub open spec fn limit_left(v: LimitOnceView) -> Left {
    match v.stage {
        LimitStageView::Available => Left { stages: 4, steps: 0 },
        LimitStageView::Start => Left { stages: 3, steps: 0 },
        LimitStageView::Load(_) => Left { stages: 2, steps: 0 },
        LimitStageView::Save(_, _) => Left { stages: 1, steps: 0 },
        LimitStageView::Over(_) => Left { stages: 0, steps: 0 },
    }
}

/// Each reply brings a one-time limit nearer to its end.
pub proof fn limits_end(
    v: LimitOnceView,
    reply: ReplyView,
    named_at: Timestamp,
    started_at: Timestamp,
)
    requires
        v.asks() is Some,
    ensures
        limit_left(v.answered(reply, named_at, started_at)).is_less(limit_left(v)),
{
}

/// What is left of stopping the limiters of a domain.
pub open spec fn clean_left(v: CleanManagedView) -> Left {
    match v.stage {
        CleanStageView::Load => Left { stages: 3, steps: 0 },
        CleanStageView::Stop { state, pids, outcomes } => Left {
            stages: 2,
            steps: (pids.len() - outcomes.len()) as nat,
        },
        CleanStageView::Save { state, stopped, failed } => Left { stages: 1, steps: 0 },
        CleanStageView::Over(_) => Left { stages: 0, steps: 0 },
    }
}

/// What is left of cleaning up a domain.
pub open spec fn clean_all_left(v: CleanAllView) -> Left {
    match v.stage {
        CleanAllStageView::LoadRules => Left { stages: 9, steps: 0 },
        CleanAllStageView::Stop { before, managed } => Left {
            stages: 5 + clean_left(managed).stages,
            steps: clean_left(managed).steps,
        },
        CleanAllStageView::Reload { before, stopped } => Left { stages: 4, steps: 0 },
        CleanAllStageView::SaveRules { before, rules, removed, stopped } => Left {
            stages: 3,
            steps: 0,
        },
        CleanAllStageView::RemoveAgent { before, removed, stopped } => Left {
            stages: 2,
            steps: 0,
        },
        CleanAllStageView::Restore { before, error } => Left { stages: 1, steps: 0 },
        CleanAllStageView::CleanWatches { removed, stopped } => Left { stages: 1, steps: 0 },
        CleanAllStageView::Over(_) => Left { stages: 0, steps: 0 },
    }
}

/// Each reply brings cleaning up a domain nearer to its end, and the stop of its limiters.
pub proof fn clean_ups_end(v: CleanAllView, managed: CleanManagedView, reply: ReplyView)
    requires
        v.well_formed(),
        managed.well_formed(),
    ensures
        v.asks() is Some ==> clean_all_left(v.answered(reply)).is_less(clean_all_left(v)),
        managed.asks() is Some ==> clean_left(managed.answered(reply)).is_less(clean_left(managed)),
{
}

} // verus!
