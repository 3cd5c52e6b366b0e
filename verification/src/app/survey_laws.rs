//! Laws of surveys: what each verdict says of the process that was asked.

use vstd::prelude::*;

use crate::app::dialogue::{ReplyView, RequestView};
use crate::app::survey;
use crate::app::survey::{Probe, SurveyView};
use crate::lists;
use crate::text;

verus! {

/// The processes as they are: the name and the command line of each, where it has one.
pub struct Processes {
    pub names: spec_fn(u32) -> Option<Seq<char>>,
    pub args: spec_fn(u32) -> Option<Seq<char>>,
}

impl Processes {
    /// Whether a process has this name and, if there is a needle, this part of its command line.
    pub open spec fn is_called(self, pid: u32, name: Seq<char>, needle: Option<Seq<char>>) -> bool {
        &&& (self.names)(pid) == Some(name)
        &&& needle matches Some(part) ==> {
            &&& (self.args)(pid) is Some
            &&& exists|i: int| #[trigger] text::occurs_at((self.args)(pid)->0, part, i)
        }
    }

    /// Whether a reply says of a process what is so.
    pub open spec fn bear_out(self, asked: Option<RequestView>, reply: ReplyView) -> bool {
        match asked {
            Some(RequestView::NameOf(pid)) => reply == ReplyView::Text((self.names)(pid)),
            Some(RequestView::ArgsOf(pid)) => reply == ReplyView::Text((self.args)(pid)),
            _ => true,
        }
    }
}

/// Whether a verdict is right. When the replies need not be true, it is only known that what is no
/// is not turned into yes.
pub open spec fn is_right(verdict: bool, probe: Probe, s: SurveyView, p: Option<Processes>) -> bool {
    match probe {
        Probe::Known(b) => verdict == b,
        Probe::Ask(pid) => p matches Some(all) ==> verdict == all.is_called(pid, s.name, s.needle),
    }
}

/// Whether the verdicts of a survey are right so far.
pub open spec fn is_right_so_far(s: SurveyView, p: Option<Processes>) -> bool {
    &&& s.verdicts.len() <= s.probes.len()
    &&& forall|k: int|
        0 <= k < s.verdicts.len() ==> is_right(#[trigger] s.verdicts[k], s.probes[k], s, p)
    &&& s.named && !s.is_done() ==> s.needle is Some && (p matches Some(all) ==> (all.names)(s.pid())
        == Some(s.name))
}

proof fn lemma_settled_right(s: SurveyView, p: Option<Processes>)
    requires
        is_right_so_far(s, p),
        !s.named,
    ensures
        is_right_so_far(s.settled(), p),
        !s.settled().named,
        s.settled().well_formed(),
    decreases s.probes.len() - s.verdicts.len(),
{
    if !s.is_done() {
        match s.probes[s.verdicts.len() as int] {
            Probe::Known(b) => {
                let t = SurveyView { verdicts: s.verdicts.push(b), ..s };
                assert forall|k: int| 0 <= k < t.verdicts.len() implies is_right(
                    #[trigger] t.verdicts[k],
                    t.probes[k],
                    t,
                    p,
                ) by {
                    if k < s.verdicts.len() {
                        assert(is_right(s.verdicts[k], s.probes[k], s, p));
                    }
                }
                lemma_settled_right(t, p);
            },
            Probe::Ask(_) => {},
        }
    }
}

/// A survey that has just begun has no wrong verdict.
pub proof fn lemma_begun(
    name: Seq<char>,
    needle: Option<Seq<char>>,
    probes: Seq<Probe>,
    p: Option<Processes>,
)
    ensures
        ({
            let s = survey::begun(name, needle, probes);
            &&& is_right_so_far(s, p)
            &&& s.name == name
            &&& s.needle == needle
            &&& s.probes == probes
            &&& s.well_formed()
        }),
{
    let s = SurveyView { name, needle, probes, verdicts: Seq::empty(), named: false };
    lemma_settled_right(s, p);
    survey::lemma_settled(s);
}

/// A reply leads to no wrong verdict.
pub proof fn lemma_answered_right(s: SurveyView, reply: ReplyView, p: Option<Processes>)
    requires
        is_right_so_far(s, p),
        s.well_formed(),
        p matches Some(all) ==> all.bear_out(s.asks(), reply),
    ensures
        is_right_so_far(s.answered(reply), p),
        s.answered(reply).well_formed(),
        s.answered(reply).name == s.name,
        s.answered(reply).needle == s.needle,
        s.answered(reply).probes == s.probes,
{
    survey::lemma_answered(s, reply);
    if !s.is_done() {
        let told = match reply {
            ReplyView::Text(t) => t,
            _ => None,
        };
        let verdict = if s.named {
            told is Some && text::has_part(told->0, s.needle->0)
        } else {
            told == Some(s.name)
        };
        let t = SurveyView { verdicts: s.verdicts.push(verdict), named: false, ..s };
        if s.named || told != Some(s.name) || s.needle is None {
            assert(s.answered(reply) == t.settled());
            assert(is_right(verdict, s.probes[s.verdicts.len() as int], t, p)) by {
                if p is Some && s.named {
                    assert(text::has_part(told->0, s.needle->0) == exists|i: int| #[trigger]
                        text::occurs_at(told->0, s.needle->0, i));
                }
            }
            assert forall|k: int| 0 <= k < t.verdicts.len() implies is_right(
                #[trigger] t.verdicts[k],
                t.probes[k],
                t,
                p,
            ) by {
                if k < s.verdicts.len() {
                    assert(is_right(s.verdicts[k], s.probes[k], s, p));
                }
            }
            lemma_settled_right(t, p);
        }
    }
}

/// A survey after a series of replies.
pub open spec fn survey_after(s: SurveyView, replies: Seq<ReplyView>) -> SurveyView
    decreases replies.len(),
{
    if replies.len() == 0 {
        s
    } else {
        survey_after(s, replies.drop_last()).answered(replies.last())
    }
}

/// Whether the replies of a survey say of the processes what is so.
pub open spec fn is_told_truly(s: SurveyView, replies: Seq<ReplyView>, p: Processes) -> bool
    decreases replies.len(),
{
    replies.len() > 0 ==> is_told_truly(s, replies.drop_last(), p) && p.bear_out(
        survey_after(s, replies.drop_last()).asks(),
        replies.last(),
    )
}

/// A survey that is told the truth says of each process that it asks whether it has the name and,
/// if there is a needle, whether its command line holds it; what was known beforehand stays as it
/// was.
pub proof fn surveys_find_out_what_is_so(
    name: Seq<char>,
    needle: Option<Seq<char>>,
    probes: Seq<Probe>,
    replies: Seq<ReplyView>,
    p: Processes,
)
    requires
        is_told_truly(survey::begun(name, needle, probes), replies, p),
    ensures
        ({
            let s = survey_after(survey::begun(name, needle, probes), replies);
            &&& s.verdicts.len() <= probes.len()
            &&& s.asks() is None ==> s.verdicts.len() == probes.len()
            &&& forall|k: int|
                0 <= k < s.verdicts.len() ==> #[trigger] s.verdicts[k] == match probes[k] {
                    Probe::Known(b) => b,
                    Probe::Ask(pid) => p.is_called(pid, name, needle),
                }
        }),
{
    lemma_survey_after(name, needle, probes, replies, p);
    let s = survey_after(survey::begun(name, needle, probes), replies);
    assert forall|k: int| 0 <= k < s.verdicts.len() implies #[trigger] s.verdicts[k] == match probes[k] {
        Probe::Known(b) => b,
        Probe::Ask(pid) => p.is_called(pid, name, needle),
    } by {
        assert(is_right(s.verdicts[k], s.probes[k], s, Some(p)));
    }
}

proof fn lemma_survey_after(
    name: Seq<char>,
    needle: Option<Seq<char>>,
    probes: Seq<Probe>,
    replies: Seq<ReplyView>,
    p: Processes,
)
    requires
        is_told_truly(survey::begun(name, needle, probes), replies, p),
    ensures
        ({
            let s = survey_after(survey::begun(name, needle, probes), replies);
            &&& is_right_so_far(s, Some(p))
            &&& s.well_formed()
            &&& s.name == name
            &&& s.needle == needle
            &&& s.probes == probes
        }),
    decreases replies.len(),
{
    if replies.len() == 0 {
        lemma_begun(name, needle, probes, Some(p));
    } else {
        lemma_survey_after(name, needle, probes, replies.drop_last(), p);
        let s = survey_after(survey::begun(name, needle, probes), replies.drop_last());
        lemma_answered_right(s, replies.last(), Some(p));
    }
}

/// Each picked element stood where its flag is.
pub proof fn lemma_picked_member<A>(s: Seq<A>, flags: Seq<bool>, flag: bool, k: int)
    requires
        s.len() == flags.len(),
        0 <= k < lists::picked(s, flags, flag).len(),
    ensures
        exists|i: int|
            0 <= i < s.len() && flags[i] == flag && #[trigger] s[i] == lists::picked(
                s,
                flags,
                flag,
            )[k],
    decreases s.len(),
{
    if s.len() > 0 {
        let t = s.drop_last();
        let f = flags.drop_last();
        if k < lists::picked(t, f, flag).len() {
            lemma_picked_member(t, f, flag, k);
            let i = choose|i: int|
                0 <= i < t.len() && f[i] == flag && #[trigger] t[i] == lists::picked(
                    t,
                    f,
                    flag,
                )[k];
            assert(s[i] == t[i] && flags[i] == f[i]);
        } else {
            assert(s[s.len() - 1] == lists::picked(s, flags, flag)[k]);
        }
    }
}

/// Each element with its flag is picked.
pub proof fn lemma_picked_keeps<A>(s: Seq<A>, flags: Seq<bool>, i: int)
    requires
        s.len() == flags.len(),
        0 <= i < s.len(),
    ensures
        lists::picked(s, flags, flags[i]).contains(s[i]),
    decreases s.len(),
{
    let t = s.drop_last();
    let f = flags.drop_last();
    let flag = flags[i];
    if i < t.len() {
        lemma_picked_keeps(t, f, i);
        let k = choose|k: int|
            0 <= k < lists::picked(t, f, flag).len() && lists::picked(t, f, flag)[k] == t[i];
        assert(lists::picked(s, flags, flag)[k] == s[i]);
    } else {
        assert(lists::picked(s, flags, flag).last() == s[i]);
    }
}

/// What a filter keeps stays when nothing of it is picked out.
pub proof fn lemma_picked_spares<A>(s: Seq<A>, flags: Seq<bool>, keep: spec_fn(A) -> bool)
    requires
        s.len() == flags.len(),
        forall|i: int| 0 <= i < s.len() && keep(#[trigger] s[i]) ==> !flags[i],
    ensures
        lists::picked(s, flags, false).filter(keep) == s.filter(keep),
    decreases s.len(),
{
    reveal(Seq::filter);
    if s.len() > 0 {
        let t = s.drop_last();
        let f = flags.drop_last();
        assert forall|i: int| 0 <= i < t.len() && keep(#[trigger] t[i]) implies !f[i] by {
            assert(keep(s[i]));
        }
        lemma_picked_spares(t, f, keep);
        assert(s =~= t.push(s.last()));
        assert(s[s.len() - 1] == s.last());
        lists::lemma_filter_push(t, s.last(), keep);
        lists::lemma_filter_push(lists::picked(t, f, false), s.last(), keep);
    }
}

/// Picking by a condition is filtering by it.
pub proof fn lemma_picked_filters<A>(s: Seq<A>, flags: Seq<bool>, flag: bool, keep: spec_fn(A) -> bool)
    requires
        s.len() == flags.len(),
        forall|i: int| 0 <= i < s.len() ==> (keep(#[trigger] s[i]) <==> flags[i] == flag),
    ensures
        lists::picked(s, flags, flag) == s.filter(keep),
    decreases s.len(),
{
    reveal(Seq::filter);
    if s.len() > 0 {
        let t = s.drop_last();
        let f = flags.drop_last();
        assert forall|i: int| 0 <= i < t.len() implies (keep(#[trigger] t[i]) <==> f[i] == flag) by {
            assert(keep(s[i]) <==> flags[i] == flag);
        }
        lemma_picked_filters(t, f, flag, keep);
        assert(s[s.len() - 1] == s.last());
        assert(s =~= t.push(s.last()));
        lists::lemma_filter_push(t, s.last(), keep);
    }
}

} // verus!
