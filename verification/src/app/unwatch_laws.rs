//! Laws of ending a watch: whose limiters it stops, and what it leaves on record.

use vstd::prelude::*;

use crate::app::dialogue::{ReplyView, RequestView};
use crate::app::plan;
use crate::app::record_laws::removal_takes_one_name;
use crate::app::service_laws;
use crate::app::service_laws::World;
use crate::app::survey::SurveyView;
use crate::app::survey_laws;
use crate::app::survey_laws::{
    lemma_answered_right, lemma_begun, lemma_picked_filters, lemma_picked_keeps,
    lemma_picked_member, lemma_picked_spares, Processes,
};
use crate::app::unwatch;
use crate::app::unwatch::{UnwatchStageView, UnwatchView};
use crate::model::{Domain, InstanceView, ManagedMode, RulesView, StateView, TargetView};

verus! {

/// Whether an instance may be a watch of this name: it is a watch of the domain, and if it was
/// recorded with a rule's name, that is the name. One that was recorded without, on a name, has
/// that name.
pub open spec fn may_be_watch(i: InstanceView, name: Seq<char>, domain: Domain) -> bool {
    &&& i.mode == ManagedMode::Watch
    &&& i.domain == domain
    &&& i.rule_name is Some ==> i.rule_name == Some(name)
    &&& i.rule_name is None && i.target is Name ==> i.target == TargetView::Name(name)
}

/// Whether an instance is a watch of this name: one that was recorded without a rule's name, on a
/// process, is one if the process has the name.
pub open spec fn is_watch(i: InstanceView, name: Seq<char>, domain: Domain, p: Processes) -> bool {
    &&& may_be_watch(i, name, domain)
    &&& i.rule_name is None ==> (i.target matches TargetView::Pid(pid) ==> (p.names)(pid) == Some(
        name,
    ))
}

/// Whether an instance has another rule's name, another domain or another mode.
pub open spec fn is_of_another(name: Seq<char>, domain: Domain) -> spec_fn(InstanceView) -> bool {
    |i: InstanceView|
        i.mode != ManagedMode::Watch || i.domain != domain || (i.rule_name is Some && i.rule_name
            != Some(name))
}

/// Whether an instance is not a watch of this name.
pub open spec fn is_no_watch(name: Seq<char>, domain: Domain, p: Processes) -> spec_fn(
    InstanceView,
) -> bool {
    |i: InstanceView| !is_watch(i, name, domain, p)
}

/// Whether a verdict says whether an instance is a watch of this name. When the replies need not be
/// true, it is only known that it may be one where the verdict is yes.
spec fn is_found(
    verdict: bool,
    i: InstanceView,
    name: Seq<char>,
    domain: Domain,
    p: Option<Processes>,
) -> bool {
    match p {
        Some(all) => verdict == is_watch(i, name, domain, all),
        None => verdict ==> may_be_watch(i, name, domain),
    }
}

/// Whether verdicts say which instances are watches of this name.
spec fn are_found(
    verdicts: Seq<bool>,
    s: StateView,
    name: Seq<char>,
    domain: Domain,
    p: Option<Processes>,
) -> bool {
    &&& verdicts.len() == s.instances.len()
    &&& forall|k: int|
        0 <= k < verdicts.len() ==> is_found(#[trigger] verdicts[k], s.instances[k], name, domain, p)
}

/// Whether a survey looks for the watches of this name.
spec fn is_looking(
    survey: SurveyView,
    s: StateView,
    name: Seq<char>,
    domain: Domain,
    p: Option<Processes>,
) -> bool {
    &&& survey_laws::is_right_so_far(survey, p)
    &&& survey.well_formed()
    &&& survey.name == name
    &&& survey.needle is None
    &&& survey.probes == unwatch::watch_probes(s.instances, name, domain)
}

proof fn lemma_found(
    survey: SurveyView,
    s: StateView,
    name: Seq<char>,
    domain: Domain,
    p: Option<Processes>,
)
    requires
        is_looking(survey, s, name, domain, p),
        survey.is_done(),
    ensures
        are_found(survey.verdicts, s, name, domain, p),
{
    assert forall|k: int| 0 <= k < survey.verdicts.len() implies is_found(
        #[trigger] survey.verdicts[k],
        s.instances[k],
        name,
        domain,
        p,
    ) by {
        assert(survey_laws::is_right(survey.verdicts[k], survey.probes[k], survey, p));
        assert(survey.probes[k] == unwatch::watch_probe(s.instances[k], name, domain));
    }
}

/// What holds of the end of a watch that goes by the state `s`.
spec fn goes_by(v: UnwatchView, x: World, s: StateView, p: Option<Processes>) -> bool {
    match v.stage {
        UnwatchStageView::Match { before, state, survey } => state == s && is_looking(
            survey,
            s,
            v.name,
            v.domain,
            p,
        ),
        UnwatchStageView::Stop { before, state, pids, stopped } => {
            &&& state == s
            &&& stopped < pids.len()
            &&& forall|j: int| 0 <= j < stopped ==> x.stopped.contains(#[trigger] pids[j])
            &&& exists|verdicts: Seq<bool>| #[trigger]
                are_found(verdicts, s, v.name, v.domain, p) && pids == unwatch::picked_limiters(
                    s.instances,
                    verdicts,
                )
        },
        UnwatchStageView::Rematch { before, state, survey } => state == s && is_looking(
            survey,
            s,
            v.name,
            v.domain,
            p,
        ) && all_are_stopped(v, x, s, p),
        UnwatchStageView::SaveState { before, state } => {
            &&& all_are_stopped(v, x, s, p)
            &&& exists|verdicts: Seq<bool>| #[trigger]
                are_found(verdicts, s, v.name, v.domain, p) && state == unwatch::without_picked(
                    s,
                    verdicts,
                )
        },
        _ => true,
    }
}

/// Whether the limiter of each watch of the name was stopped.
spec fn all_are_stopped(v: UnwatchView, x: World, s: StateView, p: Option<Processes>) -> bool {
    p matches Some(all) ==> forall|k: int|
        0 <= k < s.instances.len() && is_watch(#[trigger] s.instances[k], v.name, v.domain, all)
            ==> x.stopped.contains(s.instances[k].cpulimit_pid)
}

proof fn lemma_rematching(
    v: UnwatchView,
    x: World,
    before: RulesView,
    s: StateView,
    survey: SurveyView,
    p: Option<Processes>,
)
    requires
        is_looking(survey, s, v.name, v.domain, p),
        all_are_stopped(v, x, s, p),
    ensures
        goes_by(v.rematching(before, s, survey), x, s, p),
{
    let u = v.rematching(before, s, survey);
    assert(all_are_stopped(u, x, s, p));
    if survey.is_done() {
        lemma_found(survey, s, v.name, v.domain, p);
        assert(are_found(survey.verdicts, s, u.name, u.domain, p));
    }
}

proof fn lemma_stopping(
    v: UnwatchView,
    x: World,
    before: RulesView,
    s: StateView,
    verdicts: Seq<bool>,
    stopped: nat,
    p: Option<Processes>,
)
    requires
        are_found(verdicts, s, v.name, v.domain, p),
        stopped <= unwatch::picked_limiters(s.instances, verdicts).len(),
        forall|j: int|
            0 <= j < stopped ==> x.stopped.contains(
                #[trigger] unwatch::picked_limiters(s.instances, verdicts)[j],
            ),
    ensures
        goes_by(
            v.stopping(before, s, unwatch::picked_limiters(s.instances, verdicts), stopped),
            x,
            s,
            p,
        ),
{
    let pids = unwatch::picked_limiters(s.instances, verdicts);
    let all = plan::managed_pids(s.instances);
    if stopped >= pids.len() {
        if p is Some {
            assert forall|k: int|
                0 <= k < s.instances.len() && is_watch(
                    #[trigger] s.instances[k],
                    v.name,
                    v.domain,
                    p->0,
                ) implies x.stopped.contains(s.instances[k].cpulimit_pid) by {
                assert(is_found(verdicts[k], s.instances[k], v.name, v.domain, p));
                lemma_picked_keeps(all, verdicts, k);
                assert(all[k] == s.instances[k].cpulimit_pid);
                let j = choose|j: int| 0 <= j < pids.len() && pids[j] == all[k];
                assert(x.stopped.contains(pids[j]));
            }
        }
        let survey = unwatch::watch_survey(s, v.name, v.domain);
        lemma_begun(v.name, None, unwatch::watch_probes(s.instances, v.name, v.domain), p);
        lemma_rematching(v, x, before, s, survey, p);
    } else {
        let u = v.stopping(before, s, pids, stopped);
        assert(are_found(verdicts, s, u.name, u.domain, p));
    }
}

proof fn lemma_goes_by(
    v: UnwatchView,
    x: World,
    s: StateView,
    reply: ReplyView,
    p: Option<Processes>,
)
    requires
        goes_by(v, x, s, p),
        v.asks() is Some,
        reply matches ReplyView::State(t) ==> t == s,
        p matches Some(all) ==> all.bear_out(v.asks(), reply),
    ensures
        goes_by(v.answered(reply), x.changed(v.asks()->0, reply), s, p),
        v.answered(reply).name == v.name,
        v.answered(reply).domain == v.domain,
{
    let y = x.changed(v.asks()->0, reply);
    match v.stage {
        UnwatchStageView::LoadState { before } => {
            if reply is State {
                let survey = unwatch::watch_survey(s, v.name, v.domain);
                lemma_begun(v.name, None, unwatch::watch_probes(s.instances, v.name, v.domain), p);
                if survey.is_done() {
                    lemma_found(survey, s, v.name, v.domain, p);
                    lemma_stopping(v, y, before, s, survey.verdicts, 0, p);
                }
            }
        },
        UnwatchStageView::Match { before, state, survey } => {
            lemma_answered_right(survey, reply, p);
            let next = survey.answered(reply);
            if next.is_done() {
                lemma_found(next, s, v.name, v.domain, p);
                lemma_stopping(v, y, before, s, next.verdicts, 0, p);
            }
        },
        UnwatchStageView::Stop { before, state, pids, stopped } => {
            if reply is Done {
                let verdicts = choose|verdicts: Seq<bool>| #[trigger]
                    are_found(verdicts, s, v.name, v.domain, p) && pids == unwatch::picked_limiters(
                        s.instances,
                        verdicts,
                    );
                assert forall|j: int| 0 <= j < stopped + 1 implies y.stopped.contains(
                    #[trigger] pids[j],
                ) by {
                    if j < stopped {
                        assert(x.stopped.contains(pids[j]));
                    }
                }
                lemma_stopping(v, y, before, s, verdicts, stopped + 1, p);
            }
        },
        UnwatchStageView::Rematch { before, state, survey } => {
            lemma_answered_right(survey, reply, p);
            assert(y.stopped == x.stopped);
            lemma_rematching(v, y, before, s, survey.answered(reply), p);
        },
        _ => {},
    }
}

/// Whether the end of a watch is told of the processes what is so.
pub open spec fn is_told_truly(
    v: UnwatchView,
    w: World,
    replies: Seq<ReplyView>,
    p: Processes,
) -> bool
    decreases replies.len(),
{
    replies.len() > 0 ==> is_told_truly(v, w, replies.drop_last(), p) && p.bear_out(
        service_laws::unwatch_run(v, w, replies.drop_last()).0.asks(),
        replies.last(),
    )
}

proof fn lemma_run(
    v: UnwatchView,
    w: World,
    s: StateView,
    replies: Seq<ReplyView>,
    p: Option<Processes>,
)
    requires
        v.stage is LoadRules,
        service_laws::tells(replies, s),
        p matches Some(all) ==> is_told_truly(v, w, replies, all),
    ensures
        ({
            let (u, x) = service_laws::unwatch_run(v, w, replies);
            goes_by(u, x, s, p) && u.name == v.name && u.domain == v.domain
        }),
    decreases replies.len(),
{
    if replies.len() > 0 {
        let before = replies.drop_last();
        assert forall|i: int| 0 <= i < before.len() implies (#[trigger] before[i] matches
            ReplyView::State(t) ==> t == s) by {
            assert(before[i] == replies[i]);
        }
        lemma_run(v, w, s, before, p);
        let (u, x) = service_laws::unwatch_run(v, w, before);
        assert(replies.last() == replies[replies.len() - 1]);
        if u.asks() is Some {
            lemma_goes_by(u, x, s, replies.last(), p);
        }
    }
}

/// Whatever the end of a watch is told, it asks to stop a limiter only if it is recorded as a watch
/// of the domain whose recorded rule name, where there is one, is the name given; and every state
/// that it saves keeps all instances that have another rule name, another domain or another mode,
/// in their order. `s` is the state that is loaded.
pub proof fn unwatch_spares_other_instances(
    v: UnwatchView,
    w: World,
    s: StateView,
    replies: Seq<ReplyView>,
)
    requires
        v.stage is LoadRules,
        service_laws::tells(replies, s),
    ensures
        ({
            let asked = service_laws::unwatch_run(v, w, replies).0.asks();
            &&& asked matches Some(RequestView::Stop(pid)) ==> exists|k: int|
                0 <= k < s.instances.len() && (#[trigger] s.instances[k]).cpulimit_pid == pid
                    && s.instances[k].mode == ManagedMode::Watch && s.instances[k].domain
                    == v.domain && (s.instances[k].rule_name is Some ==> s.instances[k].rule_name
                    == Some(v.name))
            &&& asked matches Some(RequestView::SaveState(f)) ==> {
                &&& f.version == 2
                &&& f.instances.filter(is_of_another(v.name, v.domain)) == s.instances.filter(
                    is_of_another(v.name, v.domain),
                )
            }
        }),
{
    lemma_run(v, w, s, replies, None);
    let (u, x) = service_laws::unwatch_run(v, w, replies);
    match u.stage {
        UnwatchStageView::Stop { before, state, pids, stopped } => {
            let verdicts = choose|verdicts: Seq<bool>| #[trigger]
                are_found(verdicts, s, u.name, u.domain, None) && pids == unwatch::picked_limiters(
                    s.instances,
                    verdicts,
                );
            let all = plan::managed_pids(s.instances);
            lemma_picked_member(all, verdicts, true, stopped as int);
            let k = choose|k: int|
                0 <= k < all.len() && verdicts[k] == true && #[trigger] all[k]
                    == pids[stopped as int];
            assert(is_found(verdicts[k], s.instances[k], u.name, u.domain, None));
            assert(s.instances[k].cpulimit_pid == all[k]);
        },
        UnwatchStageView::SaveState { before, state } => {
            let verdicts = choose|verdicts: Seq<bool>| #[trigger]
                are_found(verdicts, s, u.name, u.domain, None) && state == unwatch::without_picked(
                    s,
                    verdicts,
                );
            let keep = is_of_another(v.name, v.domain);
            assert forall|i: int|
                0 <= i < s.instances.len() && keep(#[trigger] s.instances[i]) implies !verdicts[i] by {
                assert(is_found(verdicts[i], s.instances[i], u.name, u.domain, None));
            }
            lemma_picked_spares(s.instances, verdicts, keep);
        },
        UnwatchStageView::Match { before, state, survey } => {
            assert(survey.asks() is None || survey.asks()->0 is NameOf || survey.asks()->0 is ArgsOf);
        },
        UnwatchStageView::Rematch { before, state, survey } => {
            assert(survey.asks() is None || survey.asks()->0 is NameOf || survey.asks()->0 is ArgsOf);
        },
        _ => {},
    }
}

/// The end of a watch that is told of the processes what is so stops only limiters of watches of
/// the name; before it saves the state it has stopped all of them, and the state that it saves is
/// the one loaded without them.
pub proof fn unwatch_ends_all_its_watches(
    v: UnwatchView,
    w: World,
    s: StateView,
    replies: Seq<ReplyView>,
    p: Processes,
)
    requires
        v.stage is LoadRules,
        service_laws::tells(replies, s),
        is_told_truly(v, w, replies, p),
    ensures
        ({
            let (u, x) = service_laws::unwatch_run(v, w, replies);
            &&& u.asks() matches Some(RequestView::Stop(pid)) ==> exists|k: int|
                0 <= k < s.instances.len() && (#[trigger] s.instances[k]).cpulimit_pid == pid
                    && is_watch(s.instances[k], v.name, v.domain, p)
            &&& u.asks() matches Some(RequestView::SaveState(f)) ==> {
                &&& f.instances == s.instances.filter(is_no_watch(v.name, v.domain, p))
                &&& forall|k: int|
                    0 <= k < s.instances.len() && is_watch(
                        #[trigger] s.instances[k],
                        v.name,
                        v.domain,
                        p,
                    ) ==> x.stopped.contains(s.instances[k].cpulimit_pid)
            }
        }),
{
    lemma_run(v, w, s, replies, Some(p));
    let (u, x) = service_laws::unwatch_run(v, w, replies);
    match u.stage {
        UnwatchStageView::Stop { before, state, pids, stopped } => {
            let verdicts = choose|verdicts: Seq<bool>| #[trigger]
                are_found(verdicts, s, u.name, u.domain, Some(p)) && pids
                    == unwatch::picked_limiters(s.instances, verdicts);
            let all = plan::managed_pids(s.instances);
            lemma_picked_member(all, verdicts, true, stopped as int);
            let k = choose|k: int|
                0 <= k < all.len() && verdicts[k] == true && #[trigger] all[k]
                    == pids[stopped as int];
            assert(is_found(verdicts[k], s.instances[k], u.name, u.domain, Some(p)));
            assert(s.instances[k].cpulimit_pid == all[k]);
        },
        UnwatchStageView::SaveState { before, state } => {
            let verdicts = choose|verdicts: Seq<bool>| #[trigger]
                are_found(verdicts, s, u.name, u.domain, Some(p)) && state
                    == unwatch::without_picked(s, verdicts);
            let keep = is_no_watch(v.name, v.domain, p);
            assert forall|i: int| 0 <= i < s.instances.len() implies (keep(
                #[trigger] s.instances[i],
            ) <==> verdicts[i] == false) by {
                assert(is_found(verdicts[i], s.instances[i], u.name, u.domain, Some(p)));
            }
            lemma_picked_filters(s.instances, verdicts, false, keep);
        },
        UnwatchStageView::Match { before, state, survey } => {
            assert(survey.asks() is None || survey.asks()->0 is NameOf || survey.asks()->0 is ArgsOf);
        },
        UnwatchStageView::Rematch { before, state, survey } => {
            assert(survey.asks() is None || survey.asks()->0 is NameOf || survey.asks()->0 is ArgsOf);
        },
        _ => {},
    }
}

/// What holds of the end of a watch in a world that was `w0`.
spec fn is_cleared_by_rule(u: UnwatchView, x: World, w0: World, p: Processes) -> bool {
    let known = unwatch::has_rule(w0.rules, u.name, u.domain);
    let rest = w0.state.instances.filter(is_no_watch(u.name, u.domain, p));
    match u.stage {
        UnwatchStageView::LoadRules => x.rules == w0.rules && x.state == w0.state,
        UnwatchStageView::LoadState { .. } | UnwatchStageView::Match { .. }
        | UnwatchStageView::Stop { .. } | UnwatchStageView::Rematch { .. } => known && x.state
            == w0.state,
        UnwatchStageView::SaveState { before, state } => known && x.state == w0.state
            && state.instances == rest,
        UnwatchStageView::Reload { .. } | UnwatchStageView::SaveRules { .. }
        | UnwatchStageView::RemoveAgent { .. } | UnwatchStageView::Over(Ok(_)) => if known {
            x.state.instances == rest
        } else {
            x.state == w0.state
        },
        _ => true,
    }
}

proof fn lemma_cleared(
    v: UnwatchView,
    w: World,
    replies: Seq<ReplyView>,
    p: Processes,
)
    requires
        v.stage is LoadRules,
        service_laws::unwatch_is_served(v, w, replies),
        service_laws::tells(replies, w.state),
        is_told_truly(v, w, replies, p),
    ensures
        ({
            let (u, x) = service_laws::unwatch_run(v, w, replies);
            is_cleared_by_rule(u, x, w, p) && u.name == v.name && u.domain == v.domain
        }),
    decreases replies.len(),
{
    if replies.len() > 0 {
        let before = replies.drop_last();
        assert forall|i: int| 0 <= i < before.len() implies (#[trigger] before[i] matches
            ReplyView::State(t) ==> t == w.state) by {
            assert(before[i] == replies[i]);
        }
        lemma_cleared(v, w, before, p);
        let (u, x) = service_laws::unwatch_run(v, w, before);
        let (n, y) = service_laws::unwatch_run(v, w, replies);
        assert(replies.last() == replies[replies.len() - 1]);
        lemma_run(v, w, w.state, replies, Some(p));
        if n.stage is SaveState {
            unwatch_ends_all_its_watches(v, w, w.state, replies, p);
        }
    }
}

/// The end of a watch stops limiters only if there is a rule of the name in the domain. When there
/// is one, and it is told what is so, it does not succeed without having taken every watch of the
/// name off the record, and nothing else; when there is none, it leaves the record as it is.
pub proof fn ended_watches_are_off_the_record(
    v: UnwatchView,
    w: World,
    replies: Seq<ReplyView>,
    p: Processes,
)
    requires
        v.stage is LoadRules,
        service_laws::unwatch_is_served(v, w, replies),
        service_laws::tells(replies, w.state),
        is_told_truly(v, w, replies, p),
    ensures
        ({
            let (u, x) = service_laws::unwatch_run(v, w, replies);
            let known = exists|j: int|
                0 <= j < w.rules.rules.len() && (#[trigger] w.rules.rules[j]).name == v.name
                    && w.rules.rules[j].domain == v.domain;
            &&& u.asks() is Some && u.asks()->0 is Stop ==> known
            &&& u.stage is Over && u.stage->Over_0 is Ok && known ==> x.state.instances
                == w.state.instances.filter(is_no_watch(v.name, v.domain, p))
            &&& u.stage is Over && u.stage->Over_0 is Ok && !known ==> x.state == w.state
        }),
{
    lemma_cleared(v, w, replies, p);
    removal_takes_one_name(w.rules, v.name, v.domain);
    let (u, x) = service_laws::unwatch_run(v, w, replies);
    match u.stage {
        UnwatchStageView::Match { before, state, survey } => {
            assert(survey.asks() is None || survey.asks()->0 is NameOf || survey.asks()->0 is ArgsOf);
        },
        UnwatchStageView::Rematch { before, state, survey } => {
            assert(survey.asks() is None || survey.asks()->0 is NameOf || survey.asks()->0 is ArgsOf);
        },
        _ => {},
    }
}

} // verus!
