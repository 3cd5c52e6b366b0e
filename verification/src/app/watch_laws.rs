//! Laws of watching a process: which limiters are in its way, which one it replaces, and which rule
//! it writes.

use vstd::prelude::*;

use crate::app::conflict;
use crate::app::dialogue::{ReplyView, RequestView};
use crate::app::limiter_laws;
use crate::app::limiter_laws::foreign_limiters_are_suspected;
use crate::app::plan;
use crate::app::service_laws;
use crate::app::service_laws::{Timed, World};
use crate::app::survey::{Probe, SurveyView};
use crate::app::survey_laws;
use crate::app::survey_laws::{
    lemma_answered_right, lemma_begun, lemma_picked_member, Processes,
};
use crate::app::unwatch;
use crate::app::watch;
use crate::app::watch::{WatchStageView, WatchView};
use crate::lists;
use crate::model::{InstanceView, ManagedMode, StateView, TargetView};
use crate::store::UpdateView;
use crate::text;

verus! {

/// What a watch is told: the state, the list of command lines, and the processes as they are.
pub struct Outside {
    pub state: StateView,
    pub listing: Option<Seq<char>>,
    pub processes: Processes,
}

impl Outside {
    /// Whether a reply says what is so.
    pub open spec fn bears_out(self, asked: Option<RequestView>, reply: ReplyView) -> bool {
        &&& self.processes.bear_out(asked, reply)
        &&& reply matches ReplyView::State(s) ==> s == self.state
        &&& asked == Some(RequestView::ListCommandLines) ==> reply == ReplyView::Text(self.listing)
    }
}

/// Whether an instance is a one-time limiter of the domain on the process to watch: by its name or,
/// where it is on a process, by what the process is called.
pub open spec fn is_adhoc_on(i: InstanceView, u: UpdateView, p: Processes) -> bool {
    &&& i.mode == ManagedMode::Adhoc
    &&& i.domain == u.domain
    &&& match i.target {
        TargetView::Name(n) => n == u.name,
        TargetView::Pid(pid) => p.is_called(pid, u.name, u.args_contains),
    }
}

/// Whether the recorded instance at `k` is the only one-time limiter on the process to watch.
pub open spec fn is_only_adhoc(o: Outside, u: UpdateView, k: int) -> bool {
    &&& 0 <= k < o.state.instances.len()
    &&& is_adhoc_on(o.state.instances[k], u, o.processes)
    &&& forall|m: int|
        0 <= m < o.state.instances.len() && m != k ==> !is_adhoc_on(
            #[trigger] o.state.instances[m],
            u,
            o.processes,
        )
}

/// Whether no one-time limiter on the process to watch is recorded.
pub open spec fn has_no_adhoc(o: Outside, u: UpdateView) -> bool {
    forall|m: int|
        0 <= m < o.state.instances.len() ==> !is_adhoc_on(
            #[trigger] o.state.instances[m],
            u,
            o.processes,
        )
}

/// Whether a listed line shows that someone else, whose limiter is not recorded, limits the process
/// to watch.
pub open spec fn is_in_the_way(o: Outside, u: UpdateView, l: int, t: u32) -> bool {
    let lines = text::lines(o.listing->0);
    &&& o.listing is Some
    &&& 0 <= l < lines.len()
    &&& limiter_laws::is_foreign_line(lines[l], plan::managed_pids(o.state.instances), t)
    &&& o.processes.is_called(t, u.name, u.args_contains)
}

/// Whether no one else limits the process to watch.
pub open spec fn is_clear(o: Outside, u: UpdateView) -> bool {
    forall|l: int, t: u32| !#[trigger] is_in_the_way(o, u, l, t)
}

/// Whether a limiter is the one to replace.
spec fn is_to_replace(o: Outside, u: UpdateView, to_stop: Option<u32>) -> bool {
    match to_stop {
        Some(pid) => exists|k: int| #[trigger]
            is_only_adhoc(o, u, k) && o.state.instances[k].cpulimit_pid == pid,
        None => has_no_adhoc(o, u),
    }
}

/// Whether a survey looks for the one-time limiters on the process.
spec fn is_matching(survey: SurveyView, o: Outside, u: UpdateView) -> bool {
    &&& survey_laws::is_right_so_far(survey, Some(o.processes))
    &&& survey.well_formed()
    &&& survey.name == u.name
    &&& survey.needle == u.args_contains
    &&& survey.probes == watch::adhoc_probes(o.state.instances, u)
}

/// The suspects of a listing.
spec fn probes_of(o: Outside) -> Seq<Probe> {
    conflict::suspects(o.listing->0, plan::managed_pids(o.state.instances)).map_values(
        |pid: u32| Probe::Ask(pid),
    )
}

/// Whether a survey looks for limiters of someone else on the process.
spec fn is_checking(survey: SurveyView, o: Outside, u: UpdateView) -> bool {
    &&& survey_laws::is_right_so_far(survey, Some(o.processes))
    &&& survey.well_formed()
    &&& survey.name == u.name
    &&& survey.needle == u.args_contains
    &&& survey.probes == probes_of(o)
    &&& o.listing is Some
}

/// What holds of a watch that goes by what is outside.
spec fn goes_by(v: WatchView, x: World, o: Outside) -> bool {
    let u = v.update;
    match v.stage {
        WatchStageView::Match { state, survey } => state == o.state && is_matching(survey, o, u),
        WatchStageView::List { managed, to_stop } => managed == plan::managed_pids(
            o.state.instances,
        ) && is_to_replace(o, u, to_stop),
        WatchStageView::Check { to_stop, survey } => is_checking(survey, o, u) && is_to_replace(
            o,
            u,
            to_stop,
        ),
        WatchStageView::LoadRules { to_stop } => is_clear(o, u) && is_to_replace(o, u, to_stop),
        WatchStageView::Reload { before, to_stop } => is_clear(o, u) && is_to_replace(
            o,
            u,
            to_stop,
        ),
        WatchStageView::SaveRules { before, to_stop, rules, rule } => is_clear(o, u)
            && is_to_replace(o, u, to_stop),
        WatchStageView::EnsureAgent { before, to_stop, rule } => is_clear(o, u) && is_to_replace(
            o,
            u,
            to_stop,
        ),
        WatchStageView::Stop { before, cpulimit_pid, rule } => is_clear(o, u) && is_to_replace(
            o,
            u,
            Some(cpulimit_pid),
        ),
        WatchStageView::ReloadState { before, cpulimit_pid, rule } => is_clear(o, u)
            && is_to_replace(o, u, Some(cpulimit_pid)) && x.stopped.contains(cpulimit_pid),
        WatchStageView::SaveState { before, cpulimit_pid, state, rule } => is_clear(o, u)
            && is_to_replace(o, u, Some(cpulimit_pid)) && x.stopped.contains(cpulimit_pid),
        WatchStageView::Restore { before, error } => !(error is ManyManaged) && !(
        error is Conflict) && is_clear(o, u),
        WatchStageView::Over(Ok(_)) => is_clear(o, u) && (has_no_adhoc(o, u) || exists|k: int|
            #[trigger] is_only_adhoc(o, u, k) && x.stopped.contains(
                o.state.instances[k].cpulimit_pid,
            )),
        WatchStageView::Over(Err(e)) => {
            &&& e is ManyManaged ==> exists|k: int, m: int|
                0 <= k < m < o.state.instances.len() && is_adhoc_on(
                    #[trigger] o.state.instances[k],
                    u,
                    o.processes,
                ) && is_adhoc_on(#[trigger] o.state.instances[m], u, o.processes)
            &&& e is Conflict ==> !is_clear(o, u)
        },
        _ => true,
    }
}

/// More than one element is picked when two have the flag, and only then.
proof fn lemma_picked_two<A>(s: Seq<A>, flags: Seq<bool>)
    requires
        s.len() == flags.len(),
    ensures
        lists::picked(s, flags, true).len() > 1 <==> exists|i: int, j: int|
            0 <= i < j < flags.len() && #[trigger] flags[i] && #[trigger] flags[j],
        lists::picked(s, flags, true).len() > 0 <==> exists|i: int|
            0 <= i < flags.len() && #[trigger] flags[i],
    decreases s.len(),
{
    if s.len() > 0 {
        let t = s.drop_last();
        let f = flags.drop_last();
        let n = flags.len() - 1;
        lemma_picked_two(t, f);
        let two = lists::picked(s, flags, true).len() > 1;
        if lists::picked(t, f, true).len() > 0 {
            let i = choose|i: int| 0 <= i < f.len() && #[trigger] f[i];
            assert(flags[i]);
            if flags[n] {
                assert(flags[i] && flags[n]);
            }
        }
        if lists::picked(t, f, true).len() > 1 {
            let (i, j) = choose|i: int, j: int|
                0 <= i < j < f.len() && #[trigger] f[i] && #[trigger] f[j];
            assert(flags[i] && flags[j]);
        }
        if flags[n] {
            assert(lists::picked(s, flags, true).len() == lists::picked(t, f, true).len() + 1);
        }
        if exists|i: int, j: int|
            0 <= i < j < flags.len() && #[trigger] flags[i] && #[trigger] flags[j] {
            let (i, j) = choose|i: int, j: int|
                0 <= i < j < flags.len() && #[trigger] flags[i] && #[trigger] flags[j];
            assert(f[i] == flags[i]);
            if j < n {
                assert(f[j] == flags[j]);
            }
        }
        if exists|i: int| 0 <= i < flags.len() && #[trigger] flags[i] {
            let i = choose|i: int| 0 <= i < flags.len() && #[trigger] flags[i];
            if i < n {
                assert(f[i]);
            }
        }
    }
}

proof fn lemma_matched(v: WatchView, x: World, survey: SurveyView, o: Outside)
    requires
        is_matching(survey, o, v.update),
    ensures
        goes_by(
            (WatchView { stage: watch::matching(v.update, o.state, survey), ..v }),
            x,
            o,
        ),
{
    let u = v.update;
    let all = plan::managed_pids(o.state.instances);
    let flags = survey.verdicts;
    let pids = unwatch::picked_limiters(o.state.instances, flags);
    if survey.is_done() {
        assert forall|k: int| 0 <= k < flags.len() implies #[trigger] flags[k] == is_adhoc_on(
            o.state.instances[k],
            u,
            o.processes,
        ) by {
            assert(survey_laws::is_right(flags[k], survey.probes[k], survey, Some(o.processes)));
            assert(survey.probes[k] == watch::adhoc_probe(o.state.instances[k], u));
        }
        lemma_picked_two(all, flags);
        if pids.len() > 1 {
            let (i, j) = choose|i: int, j: int|
                0 <= i < j < flags.len() && #[trigger] flags[i] && #[trigger] flags[j];
            assert(is_adhoc_on(o.state.instances[i], u, o.processes));
            assert(is_adhoc_on(o.state.instances[j], u, o.processes));
        } else if pids.len() == 1 {
            lemma_picked_member(all, flags, true, 0);
            let k = choose|k: int| 0 <= k < all.len() && flags[k] == true && #[trigger] all[k] == pids[0];
            assert(flags[k]);
            assert forall|m: int| 0 <= m < o.state.instances.len() && m != k implies !is_adhoc_on(
                #[trigger] o.state.instances[m],
                u,
                o.processes,
            ) by {
                if flags[m] {
                    if m < k {
                        assert(flags[m] && flags[k]);
                    } else {
                        assert(flags[k] && flags[m]);
                    }
                }
            }
            assert(is_only_adhoc(o, u, k));
        } else {
            assert forall|m: int| 0 <= m < o.state.instances.len() implies !is_adhoc_on(
                #[trigger] o.state.instances[m],
                u,
                o.processes,
            ) by {
                assert(!flags[m]);
            }
        }
    }
}

proof fn lemma_checked(v: WatchView, x: World, to_stop: Option<u32>, survey: SurveyView, o: Outside)
    requires
        is_checking(survey, o, v.update),
        is_to_replace(o, v.update, to_stop),
    ensures
        goes_by((WatchView { stage: watch::checking(v.update, to_stop, survey), ..v }), x, o),
{
    let u = v.update;
    let flags = survey.verdicts;
    let managed = plan::managed_pids(o.state.instances);
    let pids = conflict::suspects(o.listing->0, managed);
    if flags.contains(true) {
        let k = choose|k: int| 0 <= k < flags.len() && flags[k] == true;
        assert(survey_laws::is_right(flags[k], survey.probes[k], survey, Some(o.processes)));
        assert(survey.probes[k] == Probe::Ask(pids[k]));
        let t = pids[k];
        assert(pids.contains(t));
        foreign_limiters_are_suspected(o.listing->0, managed, t);
        let lines = text::lines(o.listing->0);
        let l = choose|l: int|
            0 <= l < lines.len() && limiter_laws::is_foreign_line(#[trigger] lines[l], managed, t);
        assert(is_in_the_way(o, u, l, t));
    } else if survey.is_done() {
        assert forall|l: int, t: u32| !#[trigger] is_in_the_way(o, u, l, t) by {
            if is_in_the_way(o, u, l, t) {
                let lines = text::lines(o.listing->0);
                assert(limiter_laws::is_foreign_line(lines[l], managed, t));
                foreign_limiters_are_suspected(o.listing->0, managed, t);
                let k = choose|k: int| 0 <= k < pids.len() && pids[k] == t;
                assert(survey.probes[k] == Probe::Ask(t));
                assert(survey_laws::is_right(flags[k], survey.probes[k], survey, Some(o.processes)));
                assert(flags[k] == true);
            }
        }
    }
}

proof fn lemma_goes_by(
    v: WatchView,
    x: World,
    o: Outside,
    reply: ReplyView,
    now: crate::clock::Timestamp,
)
    requires
        goes_by(v, x, o),
        v.asks() is Some,
        o.bears_out(v.asks(), reply),
    ensures
        goes_by(v.answered(reply, now), x.changed(v.asks()->0, reply), o),
        v.answered(reply, now).update == v.update,
{
    let y = x.changed(v.asks()->0, reply);
    let u = v.update;
    match v.stage {
        WatchStageView::LoadState => {
            if reply is State {
                lemma_begun(
                    u.name,
                    u.args_contains,
                    watch::adhoc_probes(o.state.instances, u),
                    Some(o.processes),
                );
                lemma_matched(v, y, watch::adhoc_survey(o.state, u), o);
            }
        },
        WatchStageView::Match { state, survey } => {
            lemma_answered_right(survey, reply, Some(o.processes));
            lemma_matched(v, y, survey.answered(reply), o);
        },
        WatchStageView::List { managed, to_stop } => {
            if o.listing is Some {
                lemma_begun(u.name, u.args_contains, probes_of(o), Some(o.processes));
                lemma_checked(
                    v,
                    y,
                    to_stop,
                    watch::conflict_survey(o.listing->0, managed, u),
                    o,
                );
            }
        },
        WatchStageView::Check { to_stop, survey } => {
            if !(reply is Failed) {
                lemma_answered_right(survey, reply, Some(o.processes));
                lemma_checked(v, y, to_stop, survey.answered(reply), o);
            }
        },
        _ => {},
    }
}

/// Whether a watch is told what is so.
pub open spec fn is_told_truly(v: WatchView, w: World, replies: Seq<Timed>, o: Outside) -> bool
    decreases replies.len(),
{
    replies.len() > 0 ==> is_told_truly(v, w, replies.drop_last(), o) && o.bears_out(
        service_laws::watch_run(v, w, replies.drop_last()).0.asks(),
        replies.last().reply,
    )
}

proof fn lemma_run(v: WatchView, w: World, replies: Seq<Timed>, o: Outside)
    requires
        v.stage is Available,
        is_told_truly(v, w, replies, o),
    ensures
        ({
            let (u, x) = service_laws::watch_run(v, w, replies);
            goes_by(u, x, o) && u.update == v.update
        }),
    decreases replies.len(),
{
    if replies.len() > 0 {
        lemma_run(v, w, replies.drop_last(), o);
        let (u, x) = service_laws::watch_run(v, w, replies.drop_last());
        if u.asks() is Some {
            lemma_goes_by(u, x, o, replies.last().reply, replies.last().now);
        }
    }
}

/// A watch that is told what is so writes no rule and sets up no agent while someone else, whose
/// limiter is not recorded, limits the process; and it refuses for that reason only if so.
pub proof fn watches_yield_to_foreign_limiters(
    v: WatchView,
    w: World,
    replies: Seq<Timed>,
    o: Outside,
    l: int,
    t: u32,
)
    requires
        v.stage is Available,
        is_told_truly(v, w, replies, o),
    ensures
        ({
            let u = service_laws::watch_run(v, w, replies).0;
            &&& is_in_the_way(o, v.update, l, t) ==> !(u.asks() is Some && (u.asks()->0 is SaveRules
                || u.asks()->0 is EnsureAgent || u.asks()->0 is Stop)) && !(
            u.stage is Over && u.stage->Over_0 is Ok)
            &&& u.stage matches WatchStageView::Over(Err(e)) ==> (e is Conflict ==> exists|
                line: int,
                target: u32,
            | #[trigger] is_in_the_way(o, v.update, line, target))
        }),
{
    lemma_run(v, w, replies, o);
    let u = service_laws::watch_run(v, w, replies).0;
    match u.stage {
        WatchStageView::Match { state, survey } => {
            assert(survey.asks() is None || survey.asks()->0 is NameOf || survey.asks()->0 is ArgsOf);
        },
        WatchStageView::Check { to_stop, survey } => {
            assert(survey.asks() is None || survey.asks()->0 is NameOf || survey.asks()->0 is ArgsOf);
        },
        _ => {},
    }
}

/// A watch that is told what is so stops a limiter only if it is the only one-time limiter of the
/// domain on record for the process. When there is one, it has stopped it by the time that it
/// succeeds; it never succeeds when there are two, and complains of several only then.
pub proof fn watches_replace_the_only_one_time_limiter(
    v: WatchView,
    w: World,
    replies: Seq<Timed>,
    o: Outside,
    k: int,
    m: int,
)
    requires
        v.stage is Available,
        is_told_truly(v, w, replies, o),
    ensures
        ({
            let (u, x) = service_laws::watch_run(v, w, replies);
            let all = o.state.instances;
            &&& u.asks() matches Some(RequestView::Stop(pid)) ==> exists|i: int| #[trigger]
                is_only_adhoc(o, v.update, i) && all[i].cpulimit_pid == pid
            &&& u.stage is Over && u.stage->Over_0 is Ok && 0 <= k < all.len() && is_adhoc_on(
                all[k],
                v.update,
                o.processes,
            ) ==> x.stopped.contains(all[k].cpulimit_pid)
            &&& 0 <= k < m < all.len() && is_adhoc_on(all[k], v.update, o.processes) && is_adhoc_on(
                all[m],
                v.update,
                o.processes,
            ) ==> !(u.stage is Over && u.stage->Over_0 is Ok)
            &&& u.stage matches WatchStageView::Over(Err(e)) ==> (e is ManyManaged ==> exists|
                i: int,
                j: int,
            |
                0 <= i < j < all.len() && is_adhoc_on(#[trigger] all[i], v.update, o.processes)
                    && is_adhoc_on(#[trigger] all[j], v.update, o.processes))
        }),
{
    lemma_run(v, w, replies, o);
    let (u, x) = service_laws::watch_run(v, w, replies);
    match u.stage {
        WatchStageView::Match { state, survey } => {
            assert(survey.asks() is None || survey.asks()->0 is NameOf || survey.asks()->0 is ArgsOf);
        },
        WatchStageView::Check { to_stop, survey } => {
            assert(survey.asks() is None || survey.asks()->0 is NameOf || survey.asks()->0 is ArgsOf);
        },
        WatchStageView::Over(Ok(_)) => {
            if !has_no_adhoc(o, v.update) {
                let i = choose|i: int| #[trigger]
                    is_only_adhoc(o, v.update, i) && x.stopped.contains(
                        o.state.instances[i].cpulimit_pid,
                    );
                assert(is_only_adhoc(o, v.update, i));
            }
        },
        _ => {},
    }
}

/// A watch asks for the agent of its domain, with the programs and the directory that it was given.
pub proof fn watches_set_up_their_own_agent(v: WatchView, w: World, replies: Seq<Timed>)
    ensures
        service_laws::watch_run(v, w, replies).0.asks() matches Some(
            RequestView::EnsureAgent { domain, cpuguard_bin, cpulimit_bin, config_dir },
        ) ==> domain == v.update.domain && cpuguard_bin == v.cpuguard_bin && cpulimit_bin
            == v.cpulimit_bin && config_dir == v.config_dir,
{
    lemma_same(v, w, replies);
    let u = service_laws::watch_run(v, w, replies).0;
    match u.stage {
        WatchStageView::Match { state, survey } => {
            assert(survey.asks() is None || survey.asks()->0 is NameOf || survey.asks()->0 is ArgsOf);
        },
        WatchStageView::Check { to_stop, survey } => {
            assert(survey.asks() is None || survey.asks()->0 is NameOf || survey.asks()->0 is ArgsOf);
        },
        _ => {},
    }
}

proof fn lemma_same(v: WatchView, w: World, replies: Seq<Timed>)
    ensures
        ({
            let u = service_laws::watch_run(v, w, replies).0;
            u.update == v.update && u.cpuguard_bin == v.cpuguard_bin && u.cpulimit_bin
                == v.cpulimit_bin && u.config_dir == v.config_dir
        }),
    decreases replies.len(),
{
    if replies.len() > 0 {
        lemma_same(v, w, replies.drop_last());
    }
}

} // verus!
