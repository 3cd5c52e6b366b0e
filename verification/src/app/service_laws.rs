//! What every operation keeps, whatever it is told.

use vstd::prelude::*;

use crate::app::clean;
use crate::app::clean::{
    CleanAllStageView, CleanAllView, CleanManagedView, CleanStageView,
};
use crate::app::dialogue::{ReplyView, RequestView};
use crate::app::limit;
use crate::app::limit::{LimitOnceView, LimitStageView};
use crate::app::limiters;
use crate::app::record_laws::single_rules_stand_alone;
use crate::app::survey::SurveyView;
use crate::app::unwatch;
use crate::app::unwatch::{UnwatchStageView, UnwatchView};
use crate::app::watch;
use crate::app::watch::{WatchStageView, WatchView};
use crate::clock::Timestamp;
use crate::lists;
use crate::model::{Domain, InstanceView, RuleView, RulesView, StateView, TargetView};
use crate::store;

verus! {

/// What the operations act on: the rules and the state as they are stored, the limiters that were
/// stopped, and whether the agent was removed.
pub struct World {
    pub rules: RulesView,
    pub state: StateView,
    pub stopped: Set<u32>,
    pub agent_removed: bool,
}

impl World {
    /// The world after a request got a reply: what is done has taken effect.
    pub open spec fn changed(self, request: RequestView, reply: ReplyView) -> World {
        if !(reply is Done) {
            self
        } else {
            match request {
                RequestView::SaveRules(f) => World { rules: f, ..self },
                RequestView::SaveState(f) => World { state: f, ..self },
                RequestView::Stop(pid) => World { stopped: self.stopped.insert(pid), ..self },
                RequestView::RemoveAgent(_) => World { agent_removed: true, ..self },
                _ => self,
            }
        }
    }

    /// Whether a reply is true: what is read is what is stored.
    pub open spec fn is_true(self, request: RequestView, reply: ReplyView) -> bool {
        match reply {
            ReplyView::Rules(f) => request is LoadRules ==> f == self.rules,
            ReplyView::State(f) => request is LoadState ==> f == self.state,
            _ => true,
        }
    }
}

// ---------------------------------------------------------------------------
// Watching
// ---------------------------------------------------------------------------

/// A reply, and the time at which it came.
pub struct Timed {
    pub reply: ReplyView,
    pub now: Timestamp,
}

/// A watch and its world after a series of replies.
pub open spec fn watch_run(v: WatchView, w: World, replies: Seq<Timed>) -> (WatchView, World)
    decreases replies.len(),
{
    if replies.len() == 0 {
        (v, w)
    } else {
        let (u, x) = watch_run(v, w, replies.drop_last());
        let r = replies.last();
        match u.asks() {
            Some(request) => (u.answered(r.reply, r.now), x.changed(request, r.reply)),
            None => (u, x),
        }
    }
}

/// Whether the replies that a watch gets are true, and the rules can be put back.
pub open spec fn watch_is_served(v: WatchView, w: World, replies: Seq<Timed>) -> bool
    decreases replies.len(),
{
    replies.len() > 0 ==> {
        let (u, x) = watch_run(v, w, replies.drop_last());
        &&& watch_is_served(v, w, replies.drop_last())
        &&& u.asks() is Some ==> x.is_true(u.asks()->0, replies.last().reply)
        &&& u.stage is Restore ==> replies.last().reply is Done
    }
}

/// Whether the rules are those of `w0` with the rule of a watch written into them.
pub open spec fn is_rule_written(v: WatchView, w: World, w0: World, rule: RuleView) -> bool {
    exists|now: Timestamp|
        w.rules == #[trigger] store::upserted(w0.rules, v.update, now) && rule
            == store::upserted_rule(w0.rules, v.update, now)
}

/// What holds of a watch under way in a world that was `w0`.
spec fn watch_inv(v: WatchView, w: World, w0: World) -> bool {
    match v.stage {
        WatchStageView::Available | WatchStageView::LoadState | WatchStageView::Match { .. }
        | WatchStageView::List { .. } | WatchStageView::Check { .. }
        | WatchStageView::LoadRules { .. } => w.rules == w0.rules && w.state == w0.state,
        WatchStageView::Reload { before, .. } => before == w0.rules && w.rules == w0.rules
            && w.state == w0.state,
        WatchStageView::SaveRules { before, rules, rule, .. } => before == w0.rules && w.rules
            == w0.rules && w.state == w0.state && is_rule_written(v, World { rules, ..w }, w0, rule),
        WatchStageView::EnsureAgent { before, rule, .. } => before == w0.rules && w.state
            == w0.state && is_rule_written(v, w, w0, rule),
        WatchStageView::Stop { before, rule, .. } => before == w0.rules && w.state == w0.state
            && is_rule_written(v, w, w0, rule),
        WatchStageView::ReloadState { before, cpulimit_pid, rule } => before == w0.rules && w.state
            == w0.state && is_rule_written(v, w, w0, rule) && w.stopped.contains(cpulimit_pid),
        WatchStageView::SaveState { before, cpulimit_pid, state, rule } => before == w0.rules
            && w.state == w0.state && is_rule_written(v, w, w0, rule) && w.stopped.contains(
            cpulimit_pid,
        ) && state == store::without_limiter(w0.state, cpulimit_pid),
        WatchStageView::Restore { before, .. } => before == w0.rules && w.state == w0.state,
        WatchStageView::Over(Ok(rule)) => is_rule_written(v, w, w0, rule) && (w.state == w0.state
            || exists|pid: u32| #[trigger]
            w.stopped.contains(pid) && w.state == store::without_limiter(w0.state, pid)),
        WatchStageView::Over(Err(_)) => w.rules == w0.rules && w.state == w0.state,
    }
}

/// A reply keeps what holds of a watch.
proof fn lemma_watch_step(v: WatchView, w: World, w0: World, r: Timed)
    requires
        watch_inv(v, w, w0),
        v.asks() is Some,
        w.is_true(v.asks()->0, r.reply),
        v.stage is Restore ==> r.reply is Done,
    ensures
        watch_inv(v.answered(r.reply, r.now), w.changed(v.asks()->0, r.reply), w0),
{
    let u = v.answered(r.reply, r.now);
    let x = w.changed(v.asks()->0, r.reply);
    match v.stage {
        WatchStageView::Reload { before, to_stop } => {
            if r.reply is Rules {
                assert(store::upserted(w0.rules, v.update, r.now) == (World {
                    rules: store::upserted(w0.rules, v.update, r.now),
                    ..x
                }).rules);
            }
        },
        WatchStageView::SaveRules { before, to_stop, rules, rule } => {
            if r.reply is Done {
                let now = choose|now: Timestamp|
                    rules == #[trigger] store::upserted(w0.rules, v.update, now) && rule
                        == store::upserted_rule(w0.rules, v.update, now);
                assert(x.rules == store::upserted(w0.rules, u.update, now));
            }
        },
        _ => {},
    }
}

/// Every watch under way keeps what holds of it.
proof fn lemma_watch(v: WatchView, w: World, replies: Seq<Timed>)
    requires
        v.stage is Available,
        watch_is_served(v, w, replies),
    ensures
        ({
            let (u, x) = watch_run(v, w, replies);
            watch_inv(u, x, w) && u.update == v.update
        }),
    decreases replies.len(),
{
    if replies.len() > 0 {
        lemma_watch(v, w, replies.drop_last());
        let (u, x) = watch_run(v, w, replies.drop_last());
        if u.asks() is Some {
            lemma_watch_step(u, x, w, replies.last());
        }
    }
}

/// A watch that fails leaves the rules and the state as they were, as long as rules that it has
/// written can be put back.
pub proof fn failed_watch_changes_nothing(v: WatchView, w: World, replies: Seq<Timed>)
    requires
        v.stage is Available,
        watch_is_served(v, w, replies),
    ensures
        ({
            let (u, x) = watch_run(v, w, replies);
            u.stage matches WatchStageView::Over(Err(_)) ==> x.rules == w.rules && x.state
                == w.state
        }),
{
    lemma_watch(v, w, replies);
}

/// A watch that succeeds has written its rule into the rules as they were, and has taken at most
/// one limiter off the record, which it has stopped.
pub proof fn watch_writes_its_rule(v: WatchView, w: World, replies: Seq<Timed>)
    requires
        v.stage is Available,
        watch_is_served(v, w, replies),
    ensures
        ({
            let (u, x) = watch_run(v, w, replies);
            u.stage matches WatchStageView::Over(Ok(rule)) ==> {
                &&& is_rule_written(v, x, w, rule)
                &&& x.state == w.state || exists|pid: u32| #[trigger]
                    x.stopped.contains(pid) && x.state == store::without_limiter(w.state, pid)
            }
        }),
{
    lemma_watch(v, w, replies);
    let (u, x) = watch_run(v, w, replies);
    if u.stage is Over && u.stage->Over_0 is Ok {
        let rule = u.stage->Over_0->Ok_0;
        let now = choose|now: Timestamp|
            x.rules == #[trigger] store::upserted(w.rules, u.update, now) && rule
                == store::upserted_rule(w.rules, u.update, now);
        assert(x.rules == store::upserted(w.rules, v.update, now));
    }
}

/// Whether a watch has yet to look for limiters of someone else.
pub open spec fn is_before_guard(v: WatchView) -> bool {
    v.stage is Available || v.stage is LoadState || v.stage is Match
}

/// Whether a survey found that no process is limited by someone else.
pub open spec fn is_clear(survey: SurveyView) -> bool {
    survey.is_done() && !survey.verdicts.contains(true)
}

/// No watch goes on to write its rule without having looked for limiters of someone else; and it
/// goes on only when there are none on its process, or none could be listed.
pub proof fn watches_pass_the_guard(v: WatchView, reply: ReplyView, now: Timestamp)
    ensures
        ({
            let u = v.answered(reply, now);
            &&& is_before_guard(v) ==> is_before_guard(u) || u.stage is List || (
            u.stage matches WatchStageView::Over(r) && r is Err)
            &&& v.stage matches WatchStageView::List { managed, to_stop } ==> u.stage is LoadRules
                ==> match reply {
                ReplyView::Text(Some(listing)) => is_clear(
                    watch::conflict_survey(listing, managed, v.update),
                ),
                ReplyView::Text(None) => true,
                _ => false,
            }
            &&& v.stage matches WatchStageView::Check { to_stop, survey } ==> u.stage is LoadRules
                ==> is_clear(survey.answered(reply))
            &&& v.stage is List || v.stage is Check ==> u.stage is Check || u.stage is LoadRules
                || (u.stage matches WatchStageView::Over(r) && r is Err)
        }),
{
}

// ---------------------------------------------------------------------------
// Ending a watch
// ---------------------------------------------------------------------------

/// The end of a watch and its world after a series of replies.
pub open spec fn unwatch_run(v: UnwatchView, w: World, replies: Seq<ReplyView>) -> (
    UnwatchView,
    World,
)
    decreases replies.len(),
{
    if replies.len() == 0 {
        (v, w)
    } else {
        let (u, x) = unwatch_run(v, w, replies.drop_last());
        match u.asks() {
            Some(request) => (
                u.answered(replies.last()),
                x.changed(request, replies.last()),
            ),
            None => (u, x),
        }
    }
}

/// Whether the replies that the end of a watch gets are true, and the rules can be put back.
pub open spec fn unwatch_is_served(v: UnwatchView, w: World, replies: Seq<ReplyView>) -> bool
    decreases replies.len(),
{
    replies.len() > 0 ==> {
        let (u, x) = unwatch_run(v, w, replies.drop_last());
        &&& unwatch_is_served(v, w, replies.drop_last())
        &&& u.asks() is Some ==> x.is_true(u.asks()->0, replies.last())
        &&& u.stage is Restore ==> replies.last() is Done
    }
}

/// What holds of the end of a watch under way in a world that was `w0`.
spec fn unwatch_inv(v: UnwatchView, w: World, w0: World) -> bool {
    match v.stage {
        UnwatchStageView::LoadRules => w.rules == w0.rules && w.state == w0.state,
        UnwatchStageView::LoadState { before } => before == w0.rules && w.rules == w0.rules
            && w.state == w0.state,
        UnwatchStageView::Match { before, state, .. } => before == w0.rules && w.rules == w0.rules
            && w.state == w0.state,
        UnwatchStageView::Stop { before, state, .. } => before == w0.rules && w.rules == w0.rules
            && w.state == w0.state,
        UnwatchStageView::Rematch { before, state, .. } => before == w0.rules && w.rules
            == w0.rules && w.state == w0.state,
        UnwatchStageView::SaveState { before, state } => before == w0.rules && w.rules == w0.rules
            && w.state == w0.state,
        UnwatchStageView::Reload { before } => before == w0.rules && w.rules == w0.rules,
        UnwatchStageView::SaveRules { before, rules } => before == w0.rules && w.rules == w0.rules
            && rules == unwatch::without_rule(w0.rules, v.name, v.domain) && unwatch::has_rule(
            w0.rules,
            v.name,
            v.domain,
        ),
        UnwatchStageView::RemoveAgent { before } => before == w0.rules && w.rules
            == unwatch::without_rule(w0.rules, v.name, v.domain) && unwatch::has_rule(
            w0.rules,
            v.name,
            v.domain,
        ) && unwatch::is_single_rule(w0.rules, v.domain),
        UnwatchStageView::Restore { before, error } => before == w0.rules && !(error is StopWatch),
        UnwatchStageView::Over(Ok(removed)) => {
            &&& removed == unwatch::has_rule(w0.rules, v.name, v.domain)
            &&& w.rules == if removed {
                unwatch::without_rule(w0.rules, v.name, v.domain)
            } else {
                w0.rules
            }
            &&& removed && unwatch::is_single_rule(w0.rules, v.domain) ==> w.agent_removed
        },
        UnwatchStageView::Over(Err(e)) => w.rules == w0.rules && (e is StopWatch ==> w.state
            == w0.state),
    }
}

/// A reply keeps what holds of the end of a watch.
proof fn lemma_unwatch_step(v: UnwatchView, w: World, w0: World, reply: ReplyView)
    requires
        unwatch_inv(v, w, w0),
        v.asks() is Some,
        w.is_true(v.asks()->0, reply),
        v.stage is Restore ==> reply is Done,
    ensures
        unwatch_inv(v.answered(reply), w.changed(v.asks()->0, reply), w0),
{
}

/// Every end of a watch under way keeps what holds of it.
proof fn lemma_unwatch(v: UnwatchView, w: World, replies: Seq<ReplyView>)
    requires
        v.stage is LoadRules,
        unwatch_is_served(v, w, replies),
    ensures
        ({
            let (u, x) = unwatch_run(v, w, replies);
            unwatch_inv(u, x, w) && u.name == v.name && u.domain == v.domain
        }),
    decreases replies.len(),
{
    if replies.len() > 0 {
        lemma_unwatch(v, w, replies.drop_last());
        let (u, x) = unwatch_run(v, w, replies.drop_last());
        if u.asks() is Some {
            lemma_unwatch_step(u, x, w, replies.last());
        }
    }
}

/// The end of a watch that fails leaves the rules as they were, as long as they can be put back; and
/// the state too, if what failed was the stop of a limiter.
pub proof fn failed_unwatch_keeps_the_rules(v: UnwatchView, w: World, replies: Seq<ReplyView>)
    requires
        v.stage is LoadRules,
        unwatch_is_served(v, w, replies),
    ensures
        ({
            let (u, x) = unwatch_run(v, w, replies);
            u.stage matches UnwatchStageView::Over(Err(e)) ==> x.rules == w.rules && (
            e is StopWatch ==> x.state == w.state)
        }),
{
    lemma_unwatch(v, w, replies);
}

/// The end of a watch that succeeds says whether there was a rule of this name in this domain, and
/// has removed it and no other.
pub proof fn unwatch_removes_its_rule(v: UnwatchView, w: World, replies: Seq<ReplyView>)
    requires
        v.stage is LoadRules,
        unwatch_is_served(v, w, replies),
    ensures
        ({
            let (u, x) = unwatch_run(v, w, replies);
            u.stage matches UnwatchStageView::Over(Ok(removed)) ==> {
                &&& removed == unwatch::has_rule(w.rules, v.name, v.domain)
                &&& x.rules == if removed {
                    unwatch::without_rule(w.rules, v.name, v.domain)
                } else {
                    w.rules
                }
            }
        }),
{
    lemma_unwatch(v, w, replies);
}

/// The agent of a domain is removed with the last rule of the domain, and only then: the end of a
/// watch asks for it only if the rule is there and no other rule of the domain is; and if so, it
/// does not succeed without.
pub proof fn agents_leave_with_the_last_rule(
    v: UnwatchView,
    w: World,
    replies: Seq<ReplyView>,
    k: int,
)
    requires
        v.stage is LoadRules,
        unwatch_is_served(v, w, replies),
    ensures
        ({
            let (u, x) = unwatch_run(v, w, replies);
            let all = w.rules.rules;
            let alone = forall|j: int|
                0 <= j < all.len() && j != k ==> (#[trigger] all[j]).domain != v.domain;
            &&& u.asks() matches Some(RequestView::RemoveAgent(domain)) ==> domain == v.domain
                && unwatch::has_rule(w.rules, v.name, v.domain) && (0 <= k < all.len()
                && all[k].domain == v.domain ==> alone)
            &&& u.stage == UnwatchStageView::Over(Ok(true)) && 0 <= k < all.len() && all[k].domain
                == v.domain && alone ==> x.agent_removed
        }),
{
    lemma_unwatch(v, w, replies);
    let (u, x) = unwatch_run(v, w, replies);
    if 0 <= k < w.rules.rules.len() && w.rules.rules[k].domain == v.domain {
        single_rules_stand_alone(w.rules, v.domain, k);
    }
    match u.stage {
        UnwatchStageView::Match { before, state, survey } => {
            assert(survey.asks() is None || survey.asks()->0 is NameOf || survey.asks()->0 is ArgsOf);
        },
        UnwatchStageView::Rematch { before, state, survey } => {
            assert(survey.asks() is None || survey.asks()->0 is NameOf || survey.asks()->0 is ArgsOf);
        },
        _ => {},
    }
}

// ---------------------------------------------------------------------------
// Cleaning up
// ---------------------------------------------------------------------------

/// A clean-up of limiters and its world after a series of replies.
pub open spec fn clean_run(v: CleanManagedView, w: World, replies: Seq<ReplyView>) -> (
    CleanManagedView,
    World,
)
    decreases replies.len(),
{
    if replies.len() == 0 {
        (v, w)
    } else {
        let (u, x) = clean_run(v, w, replies.drop_last());
        match u.asks() {
            Some(request) => (
                u.answered(replies.last()),
                x.changed(request, replies.last()),
            ),
            None => (u, x),
        }
    }
}

/// Whether the replies that a clean-up of limiters gets are true.
pub open spec fn clean_is_served(v: CleanManagedView, w: World, replies: Seq<ReplyView>) -> bool
    decreases replies.len(),
{
    replies.len() > 0 ==> {
        let (u, x) = clean_run(v, w, replies.drop_last());
        &&& clean_is_served(v, w, replies.drop_last())
        &&& u.asks() is Some ==> x.is_true(u.asks()->0, replies.last())
    }
}

/// Whether all of these limiters were stopped.
pub open spec fn all_stopped(w: World, pids: Seq<u32>) -> bool {
    forall|i: int| 0 <= i < pids.len() ==> w.stopped.contains(#[trigger] pids[i])
}

/// Whether the state is that of `w0`, or that without limiters of the domain that were stopped.
pub open spec fn is_cleaned(w: World, w0: World, domain: Domain) -> bool {
    w.state == w0.state || exists|pids: Seq<u32>| #[trigger]
        all_stopped(w, pids) && w.state == clean::cleaned(w0.state, domain, pids)
}

/// Whether no limiter of the domain is left on record that its label confirms, but for those that
/// are contested.
pub open spec fn is_empty_of(s: StateView, domain: Domain) -> bool {
    forall|i: int|
        0 <= i < s.instances.len() ==> (#[trigger] s.instances[i]).domain != domain
            || !clean::is_confirmed(s.instances[i]) || clean::is_contested(
            s.instances,
            domain,
            s.instances[i].cpulimit_pid,
        )
}

/// What holds of a clean-up of limiters under way in a world that was `w0`.
spec fn clean_inv(v: CleanManagedView, w: World, w0: World) -> bool {
    &&& w.rules == w0.rules
    &&& w.agent_removed == w0.agent_removed
    &&& match v.stage {
        CleanStageView::Load => w.state == w0.state,
        CleanStageView::Stop { state, pids, outcomes } => w.state == w0.state && state == w0.state
            && pids == clean::domain_limiters(w0.state, v.domain) && outcomes.len() < pids.len()
            && (forall|i: int|
            0 <= i < outcomes.len() && outcomes[i] ==> w.stopped.contains(#[trigger] pids[i])),
        CleanStageView::Save { state, stopped, failed } => w.state == w0.state && (exists|
            pids: Seq<u32>,
        | #[trigger]
            all_stopped(w, pids) && state == clean::cleaned(w0.state, v.domain, pids)) && (
        failed.len() == 0 ==> is_empty_of(state, v.domain)),
        CleanStageView::Over(r) => is_cleaned(w, w0, v.domain) && (r is Ok ==> is_empty_of(
            w.state,
            v.domain,
        )),
    }
}

/// The picked elements are among the elements with that flag.
proof fn lemma_picked(s: Seq<u32>, flags: Seq<bool>, flag: bool, k: int)
    requires
        s.len() == flags.len(),
        0 <= k < lists::picked(s, flags, flag).len(),
    ensures
        exists|i: int|
            0 <= i < s.len() && flags[i] == flag && #[trigger] s[i] == lists::picked(
                s,
                flags,
                flag,
            )[k],
    decreases s.len(),
{
    if s.len() > 0 {
        let t = s.drop_last();
        let f = flags.drop_last();
        if k < lists::picked(t, f, flag).len() {
            lemma_picked(t, f, flag, k);
            let i = choose|i: int|
                0 <= i < t.len() && f[i] == flag && #[trigger] t[i] == lists::picked(
                    t,
                    f,
                    flag,
                )[k];
            assert(s[i] == t[i] && flags[i] == f[i]);
        } else {
            assert(s[s.len() - 1] == lists::picked(s, flags, flag)[k]);
        }
    }
}

/// Each element is picked by its flag.
proof fn lemma_picked_has(s: Seq<u32>, flags: Seq<bool>, i: int)
    requires
        s.len() == flags.len(),
        0 <= i < s.len(),
    ensures
        lists::picked(s, flags, flags[i]).contains(s[i]),
    decreases s.len(),
{
    let t = s.drop_last();
    let f = flags.drop_last();
    let flag = flags[i];
    if i < t.len() {
        lemma_picked_has(t, f, i);
        let k = choose|k: int|
            0 <= k < lists::picked(t, f, flag).len() && lists::picked(t, f, flag)[k] == t[i];
        assert(lists::picked(s, flags, flag)[k] == s[i]);
    } else {
        assert(lists::picked(s, flags, flag).last() == s[i]);
    }
}

/// When each limiter of a domain that its label confirms was stopped, none is left on record.
proof fn lemma_cleaned_empty(s: StateView, domain: Domain, outcomes: Seq<bool>)
    requires
        outcomes.len() == clean::domain_limiters(s, domain).len(),
        limiters::failed_pids(clean::domain_limiters(s, domain), outcomes).len() == 0,
    ensures
        is_empty_of(
            clean::cleaned(
                s,
                domain,
                limiters::stopped_pids(clean::domain_limiters(s, domain), outcomes),
            ),
            domain,
        ),
        clean::domain_limiters(s, domain).len() == 0 ==> is_empty_of(s, domain),
{
    let pids = clean::domain_limiters(s, domain);
    let stopped = limiters::stopped_pids(pids, outcomes);
    let mine = s.instances.filter(clean::belongs(s.instances, domain));
    let after = clean::cleaned(s, domain, stopped);
    assert forall|i: int| 0 <= i < s.instances.len() && clean::belongs(s.instances, domain)(
        #[trigger] s.instances[i],
    ) implies stopped.contains(s.instances[i].cpulimit_pid) by {
        lists::lemma_filter_keeps(s.instances, clean::belongs(s.instances, domain), i);
        let k = choose|k: int| 0 <= k < mine.len() && mine[k] == s.instances[i];
        assert(pids[k] == s.instances[i].cpulimit_pid);
        lemma_picked_has(pids, outcomes, k);
        if !outcomes[k] {
            assert(limiters::failed_pids(pids, outcomes).contains(pids[k]));
        }
    }
    assert forall|j: int| 0 <= j < after.instances.len() implies (
    #[trigger] after.instances[j]).domain != domain || !clean::is_confirmed(after.instances[j])
        || clean::is_contested(after.instances, domain, after.instances[j].cpulimit_pid) by {
        lists::lemma_filter_member(s.instances, clean::stays(domain, stopped), j);
        let i = choose|i: int| 0 <= i < s.instances.len() && s.instances[i] == after.instances[j];
        let pid = s.instances[i].cpulimit_pid;
        if clean::is_contested(s.instances, domain, pid) {
            let k = choose|k: int|
                0 <= k < s.instances.len() && (#[trigger] s.instances[k]).domain == domain
                    && !clean::is_confirmed(s.instances[k]) && s.instances[k].cpulimit_pid == pid;
            lists::lemma_filter_keeps(s.instances, clean::stays(domain, stopped), k);
            let l = choose|l: int|
                0 <= l < after.instances.len() && after.instances[l] == s.instances[k];
            assert(after.instances[l].cpulimit_pid == pid);
        }
        assert(clean::belongs(s.instances, domain)(s.instances[i]) ==> stopped.contains(
            s.instances[i].cpulimit_pid,
        ));
    }
    if pids.len() == 0 {
        assert forall|i: int| 0 <= i < s.instances.len() implies (
        #[trigger] s.instances[i]).domain != domain || !clean::is_confirmed(s.instances[i])
            || clean::is_contested(s.instances, domain, s.instances[i].cpulimit_pid) by {
            if clean::belongs(s.instances, domain)(s.instances[i]) {
                lists::lemma_filter_keeps(s.instances, clean::belongs(s.instances, domain), i);
            }
        }
    }
}

/// Going to the next limiter keeps what holds of a clean-up.
proof fn lemma_stopping(
    v: CleanManagedView,
    w: World,
    w0: World,
    outcomes: Seq<bool>,
)
    requires
        w.rules == w0.rules,
        w.agent_removed == w0.agent_removed,
        w.state == w0.state,
        outcomes.len() <= clean::domain_limiters(w0.state, v.domain).len(),
        forall|i: int|
            0 <= i < outcomes.len() && outcomes[i] ==> w.stopped.contains(
                #[trigger] clean::domain_limiters(w0.state, v.domain)[i],
            ),
    ensures
        clean_inv(
            v.stopping(w0.state, clean::domain_limiters(w0.state, v.domain), outcomes),
            w,
            w0,
        ),
{
    let pids = clean::domain_limiters(w0.state, v.domain);
    if outcomes.len() == pids.len() {
        let stopped = limiters::stopped_pids(pids, outcomes);
        let failed = limiters::failed_pids(pids, outcomes);
        assert forall|k: int| 0 <= k < stopped.len() implies w.stopped.contains(
            #[trigger] stopped[k],
        ) by {
            lemma_picked(pids, outcomes, true, k);
            let i = choose|i: int|
                0 <= i < pids.len() && outcomes[i] == true && #[trigger] pids[i] == stopped[k];
            assert(w.stopped.contains(pids[i]));
        }
        assert(all_stopped(w, stopped));
        if failed.len() == 0 {
            lemma_cleaned_empty(w0.state, v.domain, outcomes);
            if stopped.len() == 0 && pids.len() > 0 {
                lemma_picked_has(pids, outcomes, 0);
            }
        }
    }
}

/// A reply keeps what holds of a clean-up of limiters.
proof fn lemma_clean_step(v: CleanManagedView, w: World, w0: World, reply: ReplyView)
    requires
        clean_inv(v, w, w0),
        v.asks() is Some,
        w.is_true(v.asks()->0, reply),
    ensures
        clean_inv(v.answered(reply), w.changed(v.asks()->0, reply), w0),
{
    let x = w.changed(v.asks()->0, reply);
    match v.stage {
        CleanStageView::Load => {
            if reply is State {
                lemma_stopping(v, x, w0, Seq::empty());
            }
        },
        CleanStageView::Stop { state, pids, outcomes } => {
            lemma_stopping(v, x, w0, outcomes.push(reply is Done));
        },
        CleanStageView::Save { state, stopped, failed } => {
            let pids = choose|pids: Seq<u32>| #[trigger]
                all_stopped(w, pids) && state == clean::cleaned(w0.state, v.domain, pids);
            assert(all_stopped(x, pids));
        },
        CleanStageView::Over(_) => {},
    }
}

/// Every clean-up of limiters under way keeps what holds of it.
proof fn lemma_clean(v: CleanManagedView, w: World, replies: Seq<ReplyView>)
    requires
        v.stage is Load,
        clean_is_served(v, w, replies),
    ensures
        ({
            let (u, x) = clean_run(v, w, replies);
            clean_inv(u, x, w) && u.domain == v.domain
        }),
    decreases replies.len(),
{
    if replies.len() > 0 {
        lemma_clean(v, w, replies.drop_last());
        let (u, x) = clean_run(v, w, replies.drop_last());
        if u.asks() is Some {
            lemma_clean_step(u, x, w, replies.last());
        }
    }
}

/// A clean-up of limiters takes only those off the record that belong to the domain and were
/// stopped; when it succeeds, none of the domain is left that its label confirms and that is not
/// contested.
pub proof fn clean_forgets_only_what_was_stopped(
    v: CleanManagedView,
    w: World,
    replies: Seq<ReplyView>,
)
    requires
        v.stage is Load,
        clean_is_served(v, w, replies),
    ensures
        ({
            let (u, x) = clean_run(v, w, replies);
            u.stage matches CleanStageView::Over(r) ==> {
                &&& is_cleaned(x, w, v.domain)
                &&& r is Ok ==> is_empty_of(x.state, v.domain)
                &&& x.rules == w.rules
            }
        }),
{
    lemma_clean(v, w, replies);
}

/// A clean-up of limiters stops only those that are on record for its domain, that their labels
/// confirm, and that are not contested.
pub proof fn clean_stops_only_its_own(v: CleanManagedView, w: World, replies: Seq<ReplyView>)
    requires
        v.stage is Load,
        clean_is_served(v, w, replies),
    ensures
        ({
            let (u, x) = clean_run(v, w, replies);
            u.asks() matches Some(RequestView::Stop(pid)) ==> exists|k: int|
                0 <= k < w.state.instances.len() && (#[trigger] w.state.instances[k]).cpulimit_pid
                    == pid && clean::belongs(w.state.instances, v.domain)(w.state.instances[k])
        }),
{
    lemma_clean(v, w, replies);
    let (u, x) = clean_run(v, w, replies);
    match u.stage {
        CleanStageView::Stop { state, pids, outcomes } => {
            let mine = w.state.instances.filter(clean::belongs(w.state.instances, v.domain));
            let i = outcomes.len() as int;
            lists::lemma_filter_member(
                w.state.instances,
                clean::belongs(w.state.instances, v.domain),
                i,
            );
            let k = choose|k: int| 0 <= k < w.state.instances.len() && w.state.instances[k] == mine[i];
            assert(w.state.instances[k].cpulimit_pid == pids[i]);
        },
        _ => {},
    }
}

/// What a clean-up of a domain leaves of the others is what was there.
pub proof fn clean_is_scoped_to_its_domain(s: StateView, domain: Domain, stopped: Seq<u32>)
    ensures
        clean::cleaned(s, domain, stopped).instances.filter(
            |i: InstanceView| i.domain != domain,
        ) == s.instances.filter(|i: InstanceView| i.domain != domain),
{
    let outside = |i: InstanceView| i.domain != domain;
    let stays = clean::stays(domain, stopped);
    lists::lemma_filter_filter(s.instances, stays, outside);
    lists::lemma_filter_agree(
        s.instances,
        |i: InstanceView| stays(i) && outside(i),
        outside,
    );
}

/// A clean-up of a domain and its world after a series of replies.
pub open spec fn clean_all_run(v: CleanAllView, w: World, replies: Seq<ReplyView>) -> (
    CleanAllView,
    World,
)
    decreases replies.len(),
{
    if replies.len() == 0 {
        (v, w)
    } else {
        let (u, x) = clean_all_run(v, w, replies.drop_last());
        match u.asks() {
            Some(request) => (
                u.answered(replies.last()),
                x.changed(request, replies.last()),
            ),
            None => (u, x),
        }
    }
}

/// Whether the replies that a clean-up of a domain gets are true, and the rules can be put back.
pub open spec fn clean_all_is_served(v: CleanAllView, w: World, replies: Seq<ReplyView>) -> bool
    decreases replies.len(),
{
    replies.len() > 0 ==> {
        let (u, x) = clean_all_run(v, w, replies.drop_last());
        &&& clean_all_is_served(v, w, replies.drop_last())
        &&& u.asks() is Some ==> {
            &&& x.is_true(u.asks()->0, replies.last())
            &&& u.stage is Restore ==> replies.last() is Done
            &&& u.accepts(replies.last())
        }
    }
}

/// Whether the limiters of the domain were cleaned up and none is left.
spec fn is_clean_of_limiters(w: World, w0: World, domain: Domain) -> bool {
    is_cleaned(w, w0, domain) && is_empty_of(w.state, domain)
}

/// What holds of a clean-up of a domain under way in a world that was `w0`.
spec fn clean_all_inv(v: CleanAllView, w: World, w0: World) -> bool {
    let gone = clean::rules_outside(w0.rules, v.domain);
    let removed_rules = w0.rules.rules.len() - gone.rules.len();
    let kept = w.agent_removed == w0.agent_removed;
    match v.stage {
        CleanAllStageView::LoadRules => w.rules == w0.rules && w.state == w0.state && kept,
        CleanAllStageView::Stop { before, managed } => before == w0.rules && managed.domain
            == v.domain && clean_inv(managed, w, w0) && !(managed.stage is Over),
        CleanAllStageView::Reload { before, stopped } => before == w0.rules && w.rules == w0.rules
            && kept && is_clean_of_limiters(w, w0, v.domain),
        CleanAllStageView::SaveRules { before, rules, removed, stopped } => before == w0.rules
            && w.rules == w0.rules && rules == gone && removed as int == removed_rules && kept
            && is_clean_of_limiters(w, w0, v.domain),
        CleanAllStageView::RemoveAgent { before, removed, stopped } => before == w0.rules
            && w.rules == gone && removed as int == removed_rules && kept && is_clean_of_limiters(
            w,
            w0,
            v.domain,
        ),
        CleanAllStageView::Restore { before, error } => before == w0.rules && kept && is_cleaned(
            w,
            w0,
            v.domain,
        ),
        CleanAllStageView::CleanWatches { removed, stopped } => w.rules == gone && removed as int
            == removed_rules && w.agent_removed && is_clean_of_limiters(w, w0, v.domain),
        CleanAllStageView::Over(Ok((removed, stopped))) => w.rules == gone && removed as int
            >= removed_rules && w.agent_removed && is_clean_of_limiters(w, w0, v.domain),
        CleanAllStageView::Over(Err(_)) => is_cleaned(w, w0, v.domain) && (kept
            && !w.agent_removed ==> w.rules == w0.rules),
    }
}

/// Rules that lose nothing stay as they are.
proof fn lemma_nothing_removed(f: RulesView, domain: Domain)
    ensures
        clean::rules_outside(f, domain).rules.len() <= f.rules.len(),
        clean::rules_outside(f, domain).rules.len() == f.rules.len() ==> clean::rules_outside(
            f,
            domain,
        ) == f,
{
    lists::lemma_filter_len(f.rules, store::is_rule_outside(domain));
}

/// A reply keeps what holds of a clean-up of a domain.
proof fn lemma_clean_all_step(v: CleanAllView, w: World, w0: World, reply: ReplyView)
    requires
        clean_all_inv(v, w, w0),
        v.asks() is Some,
        w.is_true(v.asks()->0, reply),
        v.stage is Restore ==> reply is Done,
        v.accepts(reply),
        w0.rules.rules.len() <= usize::MAX,
    ensures
        clean_all_inv(v.answered(reply), w.changed(v.asks()->0, reply), w0),
{
    let x = w.changed(v.asks()->0, reply);
    lemma_nothing_removed(w0.rules, v.domain);
    if is_cleaned(w, w0, v.domain) && !(v.stage is Stop) && x.state == w.state {
        if w.state != w0.state {
            let pids = choose|pids: Seq<u32>| #[trigger]
                all_stopped(w, pids) && w.state == clean::cleaned(w0.state, v.domain, pids);
            assert(all_stopped(x, pids));
        }
        assert(is_cleaned(x, w0, v.domain));
    }
    match v.stage {
        CleanAllStageView::Stop { before, managed } => {
            lemma_clean_step(managed, w, w0, reply);
        },
        _ => {},
    }
}

/// Every clean-up of a domain under way keeps what holds of it.
proof fn lemma_clean_all(v: CleanAllView, w: World, replies: Seq<ReplyView>)
    requires
        v.stage is LoadRules,
        clean_all_is_served(v, w, replies),
        w.rules.rules.len() <= usize::MAX,
    ensures
        ({
            let (u, x) = clean_all_run(v, w, replies);
            clean_all_inv(u, x, w) && u.domain == v.domain
        }),
    decreases replies.len(),
{
    if replies.len() > 0 {
        lemma_clean_all(v, w, replies.drop_last());
        let (u, x) = clean_all_run(v, w, replies.drop_last());
        if u.asks() is Some {
            lemma_clean_all_step(u, x, w, replies.last());
        }
    }
}

/// A clean-up of a domain that fails before the agent is removed leaves the rules as they were, as
/// long as they can be put back. Of the limiters, only those of the domain that were stopped are
/// taken off the record.
pub proof fn failed_clean_all_keeps_the_rules(v: CleanAllView, w: World, replies: Seq<ReplyView>)
    requires
        v.stage is LoadRules,
        clean_all_is_served(v, w, replies),
        w.rules.rules.len() <= usize::MAX,
        !w.agent_removed,
    ensures
        ({
            let (u, x) = clean_all_run(v, w, replies);
            u.stage matches CleanAllStageView::Over(Err(_)) ==> {
                &&& !x.agent_removed ==> x.rules == w.rules
                &&& is_cleaned(x, w, v.domain)
            }
        }),
{
    lemma_clean_all(v, w, replies);
}

/// A clean-up of a domain that succeeds has removed the domain's rules and its agent, has taken the
/// limiters that their labels confirm and that are not contested off the record, each of which it
/// stopped, and has left the other domain alone.
pub proof fn clean_all_clears_its_domain(v: CleanAllView, w: World, replies: Seq<ReplyView>)
    requires
        v.stage is LoadRules,
        clean_all_is_served(v, w, replies),
        w.rules.rules.len() <= usize::MAX,
    ensures
        ({
            let (u, x) = clean_all_run(v, w, replies);
            u.stage matches CleanAllStageView::Over(Ok((removed, stopped))) ==> {
                &&& x.rules == clean::rules_outside(w.rules, v.domain)
                &&& removed as int >= w.rules.rules.len() - x.rules.rules.len()
                &&& x.agent_removed
                &&& is_cleaned(x, w, v.domain)
                &&& is_empty_of(x.state, v.domain)
            }
        }),
{
    lemma_clean_all(v, w, replies);
}

/// Whether an instance of a domain is not confirmed by its label.
pub open spec fn is_foreign(domain: Domain) -> spec_fn(InstanceView) -> bool {
    |i: InstanceView| i.domain == domain && !clean::is_confirmed(i)
}

/// Whether a request spares the instances of a domain in the state `s` that their labels do not
/// confirm: their limiters are not stopped, and all of them stay on record. A limiter is stopped only
/// for an instance that is confirmed.
pub open spec fn is_sparing(asked: Option<RequestView>, s: StateView, domain: Domain) -> bool {
    match asked {
        Some(RequestView::Stop(pid)) => {
            &&& forall|k: int|
                0 <= k < s.instances.len() && is_foreign(domain)(#[trigger] s.instances[k])
                    ==> s.instances[k].cpulimit_pid != pid
            &&& exists|k: int|
                0 <= k < s.instances.len() && (#[trigger] s.instances[k]).cpulimit_pid == pid
                    && s.instances[k].domain == domain && clean::is_confirmed(s.instances[k])
        },
        Some(RequestView::SaveState(f)) => f.instances.filter(is_foreign(domain))
            == s.instances.filter(is_foreign(domain)),
        _ => true,
    }
}

/// Whether the state is `s` wherever these replies tell it.
pub open spec fn tells(replies: Seq<ReplyView>, s: StateView) -> bool {
    forall|i: int| 0 <= i < replies.len() ==> (#[trigger] replies[i] matches ReplyView::State(t)
        ==> t == s)
}

/// What a clean-up of limiters that was told the state `s` goes by.
spec fn goes_by(v: CleanManagedView, s: StateView) -> bool {
    match v.stage {
        CleanStageView::Stop { state, pids, outcomes } => state == s && pids
            == clean::domain_limiters(s, v.domain) && outcomes.len() < pids.len(),
        CleanStageView::Save { state, stopped, failed } => exists|pids: Seq<u32>|
            state == #[trigger] clean::cleaned(s, v.domain, pids),
        _ => true,
    }
}

/// A clean-up of limiters goes on by the state that it was told.
proof fn lemma_goes_by(v: CleanManagedView, s: StateView, reply: ReplyView)
    requires
        goes_by(v, s),
        reply matches ReplyView::State(t) ==> t == s,
    ensures
        goes_by(v.answered(reply), s),
        v.answered(reply).domain == v.domain,
{
    let u = v.answered(reply);
    match u.stage {
        CleanStageView::Save { state, stopped, failed } => {
            match v.stage {
                CleanStageView::Stop { state: before, pids, outcomes } => {
                    let gone = limiters::stopped_pids(pids, outcomes.push(reply is Done));
                    assert(state == clean::cleaned(s, v.domain, gone));
                },
                CleanStageView::Load => {
                    let pids = clean::domain_limiters(s, v.domain);
                    let gone = limiters::stopped_pids(pids, Seq::empty());
                    assert(state == clean::cleaned(s, v.domain, gone));
                },
                _ => {},
            }
        },
        _ => {},
    }
}

/// What goes by the state asks for nothing that does not spare.
proof fn lemma_sparing(v: CleanManagedView, s: StateView)
    requires
        goes_by(v, s),
    ensures
        is_sparing(v.asks(), s, v.domain),
{
    match v.stage {
        CleanStageView::Stop { state, pids, outcomes } => {
            let mine = s.instances.filter(clean::belongs(s.instances, v.domain));
            let i = outcomes.len() as int;
            lists::lemma_filter_member(s.instances, clean::belongs(s.instances, v.domain), i);
            let k = choose|k: int| 0 <= k < s.instances.len() && s.instances[k] == mine[i];
            assert(s.instances[k].cpulimit_pid == pids[i]);
        },
        CleanStageView::Save { state, stopped, failed } => {
            let pids = choose|pids: Seq<u32>| state == #[trigger] clean::cleaned(s, v.domain, pids);
            let stays = clean::stays(v.domain, pids);
            let foreign = is_foreign(v.domain);
            lists::lemma_filter_filter(s.instances, stays, foreign);
            lists::lemma_filter_agree(
                s.instances,
                |i: InstanceView| stays(i) && foreign(i),
                foreign,
            );
        },
        _ => {},
    }
}

/// A clean-up of limiters goes by the state that it is told, whatever else it is told.
proof fn lemma_clean_goes_by(
    v: CleanManagedView,
    w: World,
    s: StateView,
    replies: Seq<ReplyView>,
)
    requires
        v.stage is Load,
        tells(replies, s),
    ensures
        goes_by(clean_run(v, w, replies).0, s),
        clean_run(v, w, replies).0.domain == v.domain,
    decreases replies.len(),
{
    if replies.len() > 0 {
        let before = replies.drop_last();
        assert forall|i: int| 0 <= i < before.len() implies (#[trigger] before[i] matches
            ReplyView::State(t) ==> t == s) by {
            assert(before[i] == replies[i]);
        }
        lemma_clean_goes_by(v, w, s, before);
        assert(replies.last() == replies[replies.len() - 1]);
        lemma_goes_by(clean_run(v, w, before).0, s, replies.last());
    }
}

/// A clean-up of a domain goes by the state that it is told, whatever else it is told.
proof fn lemma_clean_all_goes_by(
    v: CleanAllView,
    w: World,
    s: StateView,
    replies: Seq<ReplyView>,
)
    requires
        v.stage is LoadRules,
        tells(replies, s),
    ensures
        ({
            let u = clean_all_run(v, w, replies).0;
            &&& u.domain == v.domain
            &&& u.stage matches CleanAllStageView::Stop { before, managed } ==> goes_by(managed, s)
                && managed.domain == v.domain
        }),
    decreases replies.len(),
{
    if replies.len() > 0 {
        let before = replies.drop_last();
        assert forall|i: int| 0 <= i < before.len() implies (#[trigger] before[i] matches
            ReplyView::State(t) ==> t == s) by {
            assert(before[i] == replies[i]);
        }
        lemma_clean_all_goes_by(v, w, s, before);
        assert(replies.last() == replies[replies.len() - 1]);
        match clean_all_run(v, w, before).0.stage {
            CleanAllStageView::Stop { before, managed } => {
                lemma_goes_by(managed, s, replies.last());
            },
            _ => {},
        }
    }
}

/// Whatever a clean-up is told, the limiter of an instance of its domain that its label does not
/// confirm is never stopped, and the instance stays in every state that is saved. `s` is the state
/// that is loaded.
pub proof fn clean_spares_what_no_label_confirms(
    managed: CleanManagedView,
    all: CleanAllView,
    w: World,
    s: StateView,
    replies: Seq<ReplyView>,
)
    requires
        managed.stage is Load,
        all.stage is LoadRules,
        tells(replies, s),
    ensures
        is_sparing(clean_run(managed, w, replies).0.asks(), s, managed.domain),
        is_sparing(clean_all_run(all, w, replies).0.asks(), s, all.domain),
{
    lemma_clean_goes_by(managed, w, s, replies);
    lemma_sparing(clean_run(managed, w, replies).0, s);
    lemma_clean_all_goes_by(all, w, s, replies);
    match clean_all_run(all, w, replies).0.stage {
        CleanAllStageView::Stop { before, managed } => {
            lemma_sparing(managed, s);
        },
        _ => {},
    }
}

// ---------------------------------------------------------------------------
// Limiting once
// ---------------------------------------------------------------------------

/// A reply, and the times by which a limiter is put on record.
pub struct Dated {
    pub reply: ReplyView,
    pub named_at: Timestamp,
    pub started_at: Timestamp,
}

/// A one-time limit and its world after a series of replies.
pub open spec fn limit_run(v: LimitOnceView, w: World, replies: Seq<Dated>) -> (
    LimitOnceView,
    World,
)
    decreases replies.len(),
{
    if replies.len() == 0 {
        (v, w)
    } else {
        let (u, x) = limit_run(v, w, replies.drop_last());
        let r = replies.last();
        match u.asks() {
            Some(request) => (
                u.answered(r.reply, r.named_at, r.started_at),
                x.changed(request, r.reply),
            ),
            None => (u, x),
        }
    }
}

/// Whether the replies that a one-time limit gets are true.
pub open spec fn limit_is_served(v: LimitOnceView, w: World, replies: Seq<Dated>) -> bool
    decreases replies.len(),
{
    replies.len() > 0 ==> {
        let (u, x) = limit_run(v, w, replies.drop_last());
        &&& limit_is_served(v, w, replies.drop_last())
        &&& u.asks() is Some ==> x.is_true(u.asks()->0, replies.last().reply)
    }
}

/// Whether the state is that of `w0` with the limiter on record.
pub open spec fn is_put_on_record(v: LimitOnceView, s: StateView, w0: World, pid: u32) -> bool {
    exists|named_at: Timestamp, started_at: Timestamp|
        s == #[trigger] limit::with_adhoc(
            w0.state,
            pid,
            v.target_pid,
            v.domain,
            named_at,
            started_at,
        )
}

/// What holds of a one-time limit under way in a world that was `w0`.
spec fn limit_inv(v: LimitOnceView, w: World, w0: World) -> bool {
    match v.stage {
        LimitStageView::Save(pid, s) => w.state == w0.state && is_put_on_record(v, s, w0, pid),
        LimitStageView::Over(Ok(pid)) => is_put_on_record(v, w.state, w0, pid),
        _ => w.state == w0.state,
    }
}

/// A reply keeps what holds of a one-time limit.
proof fn lemma_limit_step(v: LimitOnceView, w: World, w0: World, r: Dated)
    requires
        limit_inv(v, w, w0),
        v.asks() is Some,
        w.is_true(v.asks()->0, r.reply),
    ensures
        limit_inv(
            v.answered(r.reply, r.named_at, r.started_at),
            w.changed(v.asks()->0, r.reply),
            w0,
        ),
{
    let u = v.answered(r.reply, r.named_at, r.started_at);
    let x = w.changed(v.asks()->0, r.reply);
    match v.stage {
        LimitStageView::Load(pid) => {
            if r.reply is State {
                let s = limit::with_adhoc(
                    w0.state,
                    pid,
                    u.target_pid,
                    u.domain,
                    r.named_at,
                    r.started_at,
                );
                assert(is_put_on_record(u, s, w0, pid));
                assert(u.stage == LimitStageView::Save(pid, s));
            }
        },
        LimitStageView::Save(pid, s) => {
            let (named_at, started_at) = choose|named_at: Timestamp, started_at: Timestamp|
                s == #[trigger] limit::with_adhoc(
                    w0.state,
                    pid,
                    v.target_pid,
                    v.domain,
                    named_at,
                    started_at,
                );
            assert(s == limit::with_adhoc(
                w0.state,
                pid,
                u.target_pid,
                u.domain,
                named_at,
                started_at,
            ));
            assert(is_put_on_record(u, s, w0, pid));
        },
        _ => {},
    }
}

/// Every one-time limit under way keeps what holds of it.
proof fn lemma_limit(v: LimitOnceView, w: World, replies: Seq<Dated>)
    requires
        v.stage is Available,
        limit_is_served(v, w, replies),
    ensures
        ({
            let (u, x) = limit_run(v, w, replies);
            limit_inv(u, x, w) && u.target_pid == v.target_pid && u.domain == v.domain && x.rules
                == w.rules
        }),
    decreases replies.len(),
{
    if replies.len() > 0 {
        lemma_limit(v, w, replies.drop_last());
        let (u, x) = limit_run(v, w, replies.drop_last());
        if u.asks() is Some {
            lemma_limit_step(u, x, w, replies.last());
        }
    }
}

/// A one-time limit that succeeds has put its limiter on record beside what was there; one that
/// fails has left the record alone. The rules stay as they are.
pub proof fn limit_once_is_recorded(v: LimitOnceView, w: World, replies: Seq<Dated>)
    requires
        v.stage is Available,
        limit_is_served(v, w, replies),
    ensures
        ({
            let (u, x) = limit_run(v, w, replies);
            &&& x.rules == w.rules
            &&& u.stage matches LimitStageView::Over(Ok(pid)) ==> is_put_on_record(
                v,
                x.state,
                w,
                pid,
            )
            &&& u.stage matches LimitStageView::Over(Err(_)) ==> x.state == w.state
        }),
{
    lemma_limit(v, w, replies);
    let (u, x) = limit_run(v, w, replies);
    if u.stage is Over && u.stage->Over_0 is Ok {
        let pid = u.stage->Over_0->Ok_0;
        let (named_at, started_at) = choose|named_at: Timestamp, started_at: Timestamp|
            x.state == #[trigger] limit::with_adhoc(
                w.state,
                pid,
                u.target_pid,
                u.domain,
                named_at,
                started_at,
            );
        assert(x.state == limit::with_adhoc(
            w.state,
            pid,
            v.target_pid,
            v.domain,
            named_at,
            started_at,
        ));
    }
}

/// A one-time limit first makes sure that the limiter program is there, then has a limiter started on
/// its process with its limit, once, and puts on record the one that was started.
pub proof fn limits_start_one_limiter(v: LimitOnceView, w: World, replies: Seq<Dated>)
    requires
        v.stage is Available,
    ensures
        ({
            let u = limit_run(v, w, replies).0;
            &&& v.asks() == Some(RequestView::EnsureAvailable)
            &&& u.asks() matches Some(RequestView::Start { target_pid, limit }) ==> target_pid
                == v.target_pid && limit == v.limit && replies.len() == 1 && replies[0].reply
                is Done
            &&& u.asks() matches Some(RequestView::SaveState(s)) ==> replies.len() == 3 && (
            replies[1].reply matches ReplyView::Started(pid) && s.instances.last().cpulimit_pid
                == pid && s.instances.last().target == TargetView::Pid(v.target_pid))
            &&& u.stage matches LimitStageView::Over(Ok(pid)) ==> replies.len() >= 4
                && replies[1].reply == ReplyView::Started(pid)
        }),
{
    lemma_limit_stages(v, w, replies);
}

proof fn lemma_limit_stages(v: LimitOnceView, w: World, replies: Seq<Dated>)
    requires
        v.stage is Available,
    ensures
        ({
            let u = limit_run(v, w, replies).0;
            &&& u.target_pid == v.target_pid
            &&& u.limit == v.limit
            &&& u.stage is Available ==> replies.len() == 0
            &&& u.stage is Start ==> replies.len() == 1 && replies[0].reply is Done
            &&& u.stage matches LimitStageView::Load(pid) ==> replies.len() == 2
                && replies[1].reply == ReplyView::Started(pid)
            &&& u.stage matches LimitStageView::Save(pid, s) ==> replies.len() == 3
                && replies[1].reply == ReplyView::Started(pid) && s.instances.len() > 0
                && s.instances.last().cpulimit_pid == pid && s.instances.last().target
                == TargetView::Pid(v.target_pid)
            &&& u.stage matches LimitStageView::Over(Ok(pid)) ==> replies.len() >= 4
                && replies[1].reply == ReplyView::Started(pid)
        }),
    decreases replies.len(),
{
    if replies.len() > 0 {
        let before = replies.drop_last();
        lemma_limit_stages(v, w, before);
        assert(replies[replies.len() - 1] == replies.last());
        if before.len() > 1 {
            assert(before[1] == replies[1]);
        }
        if before.len() > 0 {
            assert(before[0] == replies[0]);
        }
    }
}

} // verus!
