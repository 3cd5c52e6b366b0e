//! Laws of the view of the busiest processes: what each line shows, and what comes of an answer.

use vstd::prelude::*;

use crate::cli::cli_laws;
use crate::cli::session::{SessionView, TopReplyView, TopRequestView, TopStageView};
use crate::cli::top;
use crate::cli::top::{Answer, Heard};
use crate::infra::process_snapshot;
use crate::infra::process_snapshot::EntryView;
use crate::model::{InstanceView, TargetView};
use crate::text;
use crate::text_laws;
use crate::text_laws::trimming_takes_the_ends;

verus! {

/// Whether a living limiter is recorded for a process.
pub open spec fn has_living_limiter(
    instances: Seq<InstanceView>,
    alive: Seq<bool>,
    pid: u32,
) -> bool {
    exists|k: int|
        0 <= k < instances.len() && alive[k] && (#[trigger] instances[k]).target == TargetView::Pid(
            pid,
        )
}

/// Whether a process counts as a risk: its parent is process 1, its load is at least the risk load,
/// it has been running for half an hour, and it is not protected.
pub open spec fn is_risky(v: SessionView, e: EntryView) -> bool {
    &&& e.ppid == 1
    &&& v.risk_cpu.is_at_most(e.cpu)
    &&& e.elapsed_secs >= 1800
    &&& !process_snapshot::protected(e.name)
}

/// The view shows every process of the list on a line of its own, numbered from 1 on, and says
/// whether a living limiter is recorded for it and whether it counts as a risk. It waits for as many
/// seconds as it was told, one at least.
pub proof fn lines_show_their_process(
    v: SessionView,
    list: Seq<EntryView>,
    instances: Seq<InstanceView>,
    alive: Seq<bool>,
)
    requires
        v.stage == (TopStageView::Mark { list }),
        alive.len() == instances.len(),
    ensures
        ({
            let asked = v.answered(TopReplyView::Instances(instances, alive)).asks();
            asked matches Some(TopRequestView::Show { lines, prompt, secs }) && lines.len()
                == list.len() && secs == (if v.refresh_secs == 0 {
                1
            } else {
                v.refresh_secs
            }) && forall|i: int|
                0 <= i < list.len() ==> (#[trigger] lines[i]).number == i + 1 && lines[i].entry
                    == list[i] && lines[i].limited == has_living_limiter(
                    instances,
                    alive,
                    list[i].pid,
                ) && lines[i].risky == is_risky(v, list[i])
        }),
{
}

/// A session begins with the list of as many processes as it was told to show, and goes on with the
/// record.
pub proof fn sessions_begin_with_the_list(v: SessionView, list: Seq<EntryView>)
    requires
        v.stage is List,
    ensures
        v.asks() == Some(TopRequestView::List(v.count)),
        list.len() > 0 ==> v.answered(TopReplyView::Processes(list)).asks() == Some(
            TopRequestView::Instances,
        ),
        list.len() == 0 ==> v.answered(TopReplyView::Processes(list)).asks() is None,
{
}

/// A `y` is a yes, in either case and with white space around it; any other line is a no, and
/// without a line there is no answer.
pub proof fn yes_is_one_letter(heard: Heard, a: Seq<char>, s: Seq<char>, b: Seq<char>)
    requires
        cli_laws::is_blank_text(a),
        cli_laws::is_blank_text(b),
        s.len() > 0 ==> !text_laws::is_blank(s[0]) && !text_laws::is_blank(s.last()),
    ensures
        heard matches Heard::Line(line) ==> (line@ == a + s + b ==> top::answer_in(heard) == if s
            == seq!['y'] || s == seq!['Y'] {
            Answer::Yes
        } else {
            Answer::No
        }),
        !(heard is Line) ==> top::answer_in(heard) == Answer::Missing,
{
    trimming_takes_the_ends(a, s, b);
    assert(top::upper('y') == 'Y');
}

/// After a yes the processes that were asked about get their signals one by one, and the outcome is
/// told; after anything else none does. The question waits for thirty seconds.
pub proof fn signals_follow_a_yes(
    v: SessionView,
    list: Seq<EntryView>,
    at: usize,
    batch: bool,
    pids: Seq<u32>,
    heard: Heard,
)
    requires
        v.stage == (TopStageView::Confirm { list, at, batch, pids }),
        pids.len() > 0,
    ensures
        v.asks() matches Some(TopRequestView::Ask { question, secs }) && secs == 30,
        top::answer_in(heard) is Yes ==> v.answered(TopReplyView::Heard(heard)).asks() == Some(
            TopRequestView::Terminate(pids[0]),
        ),
        !(top::answer_in(heard) is Yes) ==> (v.answered(
            TopReplyView::Heard(heard),
        ).asks() matches Some(TopRequestView::Tell(told))),
{
}

/// One signal follows the other, until each process has got its own; then the outcome is told.
pub proof fn every_process_gets_its_signal(
    v: SessionView,
    list: Seq<EntryView>,
    at: usize,
    batch: bool,
    pids: Seq<u32>,
    causes: Seq<Option<String>>,
    cause: Option<String>,
)
    requires
        v.stage == (TopStageView::Terminate { list, at, batch, pids, causes }),
        causes.len() < pids.len(),
    ensures
        ({
            let next = v.answered(TopReplyView::Ended(cause)).asks();
            &&& v.asks() == Some(TopRequestView::Terminate(pids[causes.len() as int]))
            &&& causes.len() + 1 < pids.len() ==> next == Some(
                TopRequestView::Terminate(pids[causes.len() as int + 1]),
            )
            &&& causes.len() + 1 == pids.len() ==> (next matches Some(TopRequestView::Tell(told)))
        }),
{
}

/// The failures that are told are those of the processes that could not be signalled, each with its
/// process id and its cause, in their order.
pub proof fn failures_are_told(
    pids: Seq<u32>,
    causes: Seq<Option<String>>,
    pid: u32,
    cause: Option<String>,
)
    requires
        causes.len() == pids.len(),
    ensures
        ({
            let before = top::failures(pids, causes, pids.len() as int);
            let after = top::failures(pids.push(pid), causes.push(cause), pids.len() as int + 1);
            after == match cause {
                Some(why) => before.push("PID "@ + text::decimal(pid as nat) + ": "@ + why@),
                None => before,
            }
        }),
        top::failures(Seq::empty(), Seq::empty(), 0) == Seq::<Seq<char>>::empty(),
{
    lemma_failures(pids, causes, pids.push(pid), causes.push(cause), pids.len() as int);
}

proof fn lemma_failures(
    pids: Seq<u32>,
    causes: Seq<Option<String>>,
    more: Seq<u32>,
    others: Seq<Option<String>>,
    n: int,
)
    requires
        n <= pids.len(),
        causes.len() == pids.len(),
        forall|i: int| 0 <= i < n ==> pids[i] == more[i] && causes[i] == others[i],
    ensures
        top::failures(pids, causes, n) == top::failures(more, others, n),
    decreases n,
{
    if n > 0 {
        lemma_failures(pids, causes, more, others, n - 1);
    }
}

} // verus!
