//! Laws of what a clean-up reports.

use vstd::prelude::*;

use crate::app::clean;
use crate::app::clean::{CleanAllStageView, CleanAllView, CleanManagedView, CleanStageView};
use crate::app::dialogue::{ErrorView, ReplyView, RequestView};
use crate::app::limiters;
use crate::app::service_laws;
use crate::app::service_laws::World;
use crate::app::survey_laws::{lemma_picked_keeps, lemma_picked_member};
use crate::lists;
use crate::model::{Domain, RuleView, RulesView, StateView};
use crate::store;

verus! {

/// What has a flag and what does not make up the whole.
proof fn lemma_picked_parts(s: Seq<u32>, flags: Seq<bool>)
    requires
        s.len() == flags.len(),
    ensures
        lists::picked(s, flags, true).len() + lists::picked(s, flags, false).len() == s.len(),
    decreases s.len(),
{
    if s.len() > 0 {
        lemma_picked_parts(s.drop_last(), flags.drop_last());
    }
}

/// Whether outcomes are those of the limiters that a clean-up is to stop.
spec fn are_outcomes(v: CleanManagedView, s: StateView, outcomes: Seq<bool>) -> bool {
    outcomes.len() == clean::domain_limiters(s, v.domain).len()
}

/// Whether a clean-up with these outcomes saves this state, and reports this.
spec fn is_saving(
    domain: Domain,
    x: World,
    s: StateView,
    state: StateView,
    stopped: usize,
    failed: Seq<u32>,
    outcomes: Seq<bool>,
) -> bool {
    let pids = clean::domain_limiters(s, domain);
    let gone = limiters::stopped_pids(pids, outcomes);
    &&& outcomes.len() == pids.len()
    &&& state == clean::cleaned(s, domain, gone)
    &&& gone.len() > 0
    &&& stopped == gone.len() as usize
    &&& failed == limiters::failed_pids(pids, outcomes)
    &&& forall|i: int| 0 <= i < outcomes.len() && outcomes[i] ==> x.stopped.contains(
        #[trigger] pids[i],
    )
}

/// Whether some outcomes lead to this.
spec fn can_save(
    domain: Domain,
    x: World,
    s: StateView,
    state: StateView,
    stopped: usize,
    failed: Seq<u32>,
) -> bool {
    exists|outcomes: Seq<bool>| #[trigger]
        is_saving(domain, x, s, state, stopped, failed, outcomes)
}

/// What holds of a clean-up that goes by the state `s`.
spec fn goes_by(v: CleanManagedView, x: World, s: StateView) -> bool {
    let pids = clean::domain_limiters(s, v.domain);
    match v.stage {
        CleanStageView::Load => true,
        CleanStageView::Stop { state, pids: ps, outcomes } => {
            &&& state == s
            &&& ps == pids
            &&& outcomes.len() < pids.len()
            &&& forall|i: int| 0 <= i < outcomes.len() && outcomes[i] ==> x.stopped.contains(
                #[trigger] pids[i],
            )
        },
        CleanStageView::Save { state, stopped, failed } => can_save(
            v.domain,
            x,
            s,
            state,
            stopped,
            failed,
        ),
        CleanStageView::Over(Ok(n)) => n == pids.len() as usize && forall|i: int|
            0 <= i < pids.len() ==> x.stopped.contains(#[trigger] pids[i]),
        CleanStageView::Over(Err(ErrorView::NotStopped(failed))) => failed.len() > 0
            && forall|i: int| 0 <= i < failed.len() ==> pids.contains(#[trigger] failed[i]),
        CleanStageView::Over(Err(_)) => true,
    }
}

proof fn lemma_result(
    v: CleanManagedView,
    x: World,
    s: StateView,
    outcomes: Seq<bool>,
    stopped: usize,
)
    requires
        are_outcomes(v, s, outcomes),
        stopped == limiters::stopped_pids(clean::domain_limiters(s, v.domain), outcomes).len()
            as usize,
        forall|i: int|
            0 <= i < outcomes.len() && outcomes[i] ==> x.stopped.contains(
                #[trigger] clean::domain_limiters(s, v.domain)[i],
            ),
    ensures
        goes_by(
            (CleanManagedView {
                stage: CleanStageView::Over(
                    clean::clean_result(
                        stopped as int,
                        limiters::failed_pids(clean::domain_limiters(s, v.domain), outcomes),
                    ),
                ),
                ..v
            }),
            x,
            s,
        ),
{
    let pids = clean::domain_limiters(s, v.domain);
    let failed = limiters::failed_pids(pids, outcomes);
    lemma_picked_parts(pids, outcomes);
    if failed.len() == 0 {
        assert forall|i: int| 0 <= i < pids.len() implies x.stopped.contains(#[trigger] pids[i]) by {
            lemma_picked_keeps(pids, outcomes, i);
            if !outcomes[i] {
                assert(failed.contains(pids[i]));
            }
        }
    } else {
        assert forall|i: int| 0 <= i < failed.len() implies pids.contains(#[trigger] failed[i]) by {
            lemma_picked_member(pids, outcomes, false, i);
        }
    }
}

proof fn lemma_stopping(v: CleanManagedView, x: World, s: StateView, outcomes: Seq<bool>)
    requires
        outcomes.len() <= clean::domain_limiters(s, v.domain).len(),
        forall|i: int|
            0 <= i < outcomes.len() && outcomes[i] ==> x.stopped.contains(
                #[trigger] clean::domain_limiters(s, v.domain)[i],
            ),
    ensures
        goes_by(v.stopping(s, clean::domain_limiters(s, v.domain), outcomes), x, s),
        v.stopping(s, clean::domain_limiters(s, v.domain), outcomes).domain == v.domain,
{
    let pids = clean::domain_limiters(s, v.domain);
    if outcomes.len() == pids.len() {
        let stopped = limiters::stopped_pids(pids, outcomes);
        let u = v.stopping(s, pids, outcomes);
        if stopped.len() > 0 {
            let state = clean::cleaned(s, v.domain, stopped);
            let failed = limiters::failed_pids(pids, outcomes);
            let count = stopped.len() as usize;
            assert(u.stage == CleanStageView::Save { state, stopped: count, failed });
            assert(u.domain == v.domain);
            assert(is_saving(u.domain, x, s, state, count, failed, outcomes));
            assert(can_save(u.domain, x, s, state, count, failed));
            assert(goes_by(u, x, s));
        } else {
            lemma_result(v, x, s, outcomes, 0);
            assert(u.stage == CleanStageView::Over(
                clean::clean_result(0, limiters::failed_pids(pids, outcomes)),
            ));
            assert(goes_by(u, x, s));
        }
    }
}

proof fn lemma_step(v: CleanManagedView, x: World, s: StateView, reply: ReplyView)
    requires
        goes_by(v, x, s),
        v.asks() is Some,
        reply matches ReplyView::State(t) ==> t == s,
    ensures
        goes_by(v.answered(reply), x.changed(v.asks()->0, reply), s),
        v.answered(reply).domain == v.domain,
{
    let y = x.changed(v.asks()->0, reply);
    let pids = clean::domain_limiters(s, v.domain);
    match v.stage {
        CleanStageView::Load => {
            if reply is State {
                lemma_stopping(v, y, s, Seq::empty());
            }
        },
        CleanStageView::Stop { state, pids: ps, outcomes } => {
            let more = outcomes.push(reply is Done);
            assert forall|i: int| 0 <= i < more.len() && more[i] implies y.stopped.contains(
                #[trigger] pids[i],
            ) by {
                if i < outcomes.len() {
                    assert(outcomes[i]);
                    assert(x.stopped.contains(pids[i]));
                }
            }
            lemma_stopping(v, y, s, more);
        },
        CleanStageView::Save { state, stopped, failed } => {
            if reply is Done {
                let outcomes = choose|outcomes: Seq<bool>| #[trigger]
                    is_saving(v.domain, x, s, state, stopped, failed, outcomes);
                lemma_result(v, y, s, outcomes, stopped);
            }
        },
        _ => {},
    }
}

proof fn lemma_run(v: CleanManagedView, w: World, s: StateView, replies: Seq<ReplyView>)
    requires
        v.stage is Load,
        service_laws::tells(replies, s),
    ensures
        ({
            let (u, x) = service_laws::clean_run(v, w, replies);
            goes_by(u, x, s) && u.domain == v.domain
        }),
    decreases replies.len(),
{
    if replies.len() > 0 {
        let before = replies.drop_last();
        assert forall|i: int| 0 <= i < before.len() implies (#[trigger] before[i] matches
            ReplyView::State(t) ==> t == s) by {
            assert(before[i] == replies[i]);
        }
        lemma_run(v, w, s, before);
        let (u, x) = service_laws::clean_run(v, w, before);
        assert(replies.last() == replies[replies.len() - 1]);
        if u.asks() is Some {
            lemma_step(u, x, s, replies.last());
        }
    }
}

/// A clean-up that succeeds has stopped every limiter that it is to stop, and says how many those
/// are; one that could not stop some names them, and they are among those. What it saves is the
/// record without limiters that were stopped. `s` is the state that is loaded.
pub proof fn clean_ups_report_what_they_stopped(
    v: CleanManagedView,
    w: World,
    s: StateView,
    replies: Seq<ReplyView>,
)
    requires
        v.stage is Load,
        service_laws::tells(replies, s),
    ensures
        ({
            let (u, x) = service_laws::clean_run(v, w, replies);
            let pids = clean::domain_limiters(s, v.domain);
            &&& u.stage matches CleanStageView::Over(Ok(n)) ==> n == pids.len() as usize && forall|
                i: int,
            |
                0 <= i < pids.len() ==> x.stopped.contains(#[trigger] pids[i])
            &&& u.stage matches CleanStageView::Over(Err(ErrorView::NotStopped(failed)))
                ==> failed.len() > 0 && forall|i: int|
                0 <= i < failed.len() ==> pids.contains(#[trigger] failed[i])
            &&& u.asks() matches Some(RequestView::SaveState(f)) ==> exists|gone: Seq<u32>|
                f == #[trigger] clean::cleaned(s, v.domain, gone) && gone.len() > 0 && forall|i: int|
                    0 <= i < gone.len() ==> pids.contains(#[trigger] gone[i]) && x.stopped.contains(
                        gone[i],
                    )
        }),
{
    lemma_run(v, w, s, replies);
    let (u, x) = service_laws::clean_run(v, w, replies);
    let pids = clean::domain_limiters(s, v.domain);
    match u.stage {
        CleanStageView::Save { state, stopped, failed } => {
            lemma_saving(v, w, s, replies);
        },
        _ => {},
    }
}

/// What a clean-up saves.
proof fn lemma_saving(v: CleanManagedView, w: World, s: StateView, replies: Seq<ReplyView>)
    requires
        v.stage is Load,
        service_laws::tells(replies, s),
        service_laws::clean_run(v, w, replies).0.stage is Save,
    ensures
        ({
            let (u, x) = service_laws::clean_run(v, w, replies);
            let pids = clean::domain_limiters(s, v.domain);
            exists|gone: Seq<u32>|
                u.stage->Save_state == #[trigger] clean::cleaned(s, v.domain, gone) && gone.len()
                    > 0 && forall|i: int|
                    0 <= i < gone.len() ==> pids.contains(#[trigger] gone[i]) && x.stopped.contains(
                        gone[i],
                    )
        }),
{
    lemma_run(v, w, s, replies);
    let (u, x) = service_laws::clean_run(v, w, replies);
    let pids = clean::domain_limiters(s, v.domain);
    let outcomes = choose|outcomes: Seq<bool>| #[trigger]
        is_saving(
            u.domain,
            x,
            s,
            u.stage->Save_state,
            u.stage->Save_stopped,
            u.stage->Save_failed,
            outcomes,
        );
    let gone = limiters::stopped_pids(pids, outcomes);
    assert forall|i: int| 0 <= i < gone.len() implies pids.contains(#[trigger] gone[i])
        && x.stopped.contains(gone[i]) by {
        lemma_picked_member(pids, outcomes, true, i);
        let k = choose|k: int|
            0 <= k < pids.len() && outcomes[k] == true && #[trigger] pids[k] == gone[i];
        assert(outcomes[k]);
        assert(x.stopped.contains(pids[k]));
    }
}

/// A clean-up of a domain removes the rules of the domain, says how many those were together with
/// the jobs that were cleared away, and how many limiters it stopped.
pub proof fn clean_ups_count_what_they_removed(
    v: CleanAllView,
    before: RulesView,
    stopped: usize,
    f: RulesView,
    n: usize,
)
    requires
        v.stage == (CleanAllStageView::Reload { before, stopped }),
        f.rules.len() <= usize::MAX,
    ensures
        ({
            let gone = f.rules.len() - f.rules.filter(|r: RuleView| r.domain != v.domain).len();
            let u = v.answered(ReplyView::Rules(f));
            let saved = u.answered(ReplyView::Done);
            &&& gone >= 0
            &&& gone > 0 ==> (u.asks() matches Some(RequestView::SaveRules(g)) && g.rules
                == f.rules.filter(|r: RuleView| r.domain != v.domain)) && saved.asks() == Some(
                RequestView::RemoveAgent(v.domain),
            ) && saved.answered(ReplyView::Done).asks() == Some(
                RequestView::CleanWatches(v.domain),
            ) && (gone + n <= usize::MAX ==> saved.answered(ReplyView::Done).answered(
                ReplyView::Count(n),
            ).stage == CleanAllStageView::Over(Ok(((gone + n) as usize, stopped))))
            &&& gone == 0 ==> u.asks() == Some(RequestView::RemoveAgent(v.domain))
                && saved.asks() == Some(RequestView::CleanWatches(v.domain)) && saved.answered(
                ReplyView::Count(n),
            ).stage == CleanAllStageView::Over(Ok((n, stopped)))
        }),
{
    lists::lemma_filter_agree(
        f.rules,
        store::is_rule_outside(v.domain),
        |r: RuleView| r.domain != v.domain,
    );
    lists::lemma_filter_len(f.rules, |r: RuleView| r.domain != v.domain);
}

} // verus!
