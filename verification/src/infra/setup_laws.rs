//! Laws of what launchd is asked when the agent is set up or removed.

use vstd::prelude::*;

use crate::infra::agent_job::{RefreshStageView, RefreshView, RemoveStageView, RemoveView};
use crate::infra::job_laws;
use crate::infra::job_laws::Files;
use crate::infra::jobs::{
    ClearJobsView, ClearStageView, DirEntryView, JobReplyView, JobRequestView,
};
use crate::infra::launchd;
use crate::infra::launchd::RealLaunchdManager;
use crate::model::Domain;
use crate::paths;
use crate::text;

verus! {

/// The request to load the agent of a domain.
pub open spec fn load_agent(m: RealLaunchdManager, domain: Domain, uid: u32) -> JobRequestView {
    JobRequestView::Launchctl(
        seq![
            "bootstrap"@,
            if domain is User {
                "gui/"@ + text::decimal(uid as nat)
            } else {
                "system"@
            },
            launchd::plist_path(m, domain),
        ],
    )
}

/// The request to unload a job of a domain.
pub open spec fn unload(label: Seq<char>, domain: Domain, uid: u32) -> JobRequestView {
    JobRequestView::Launchctl(
        seq![
            "bootout"@,
            (if domain is User {
                "gui/"@ + text::decimal(uid as nat)
            } else {
                "system"@
            }) + "/"@ + label,
        ],
    )
}

/// The label of the agent.
pub open spec fn agent_label(m: RealLaunchdManager) -> Seq<char> {
    m.label_prefix@ + ".agent"@
}

/// Whether a label is that of another job of this program.
pub open spec fn is_other_job(m: RealLaunchdManager, label: Seq<char>) -> bool {
    text::has_prefix(label, m.label_prefix@ + "."@) && label != agent_label(m)
}

// ---------------------------------------------------------------------------
// Setting up
// ---------------------------------------------------------------------------

/// Whether a setup asks for this after its first `m` replies and is told that it worked.
pub open spec fn is_granted(
    v: RefreshView,
    files: Files,
    replies: Seq<JobReplyView>,
    request: JobRequestView,
    m: int,
) -> bool {
    &&& 0 <= m < replies.len()
    &&& job_laws::refresh_run(v, files, replies.take(m)).0.asks() == Some(request)
    &&& replies[m] matches JobReplyView::Ran { success, stderr } && success
}

/// Whether a setup was told that a request worked.
pub open spec fn was_granted(
    v: RefreshView,
    files: Files,
    replies: Seq<JobReplyView>,
    request: JobRequestView,
) -> bool {
    exists|m: int| #[trigger] is_granted(v, files, replies, request, m)
}

proof fn lemma_granted(
    v: RefreshView,
    files: Files,
    replies: Seq<JobReplyView>,
    reply: JobReplyView,
    request: JobRequestView,
)
    ensures
        was_granted(v, files, replies, request) ==> was_granted(
            v,
            files,
            replies.push(reply),
            request,
        ),
        job_laws::refresh_run(v, files, replies).0.asks() == Some(request) && (reply matches
            JobReplyView::Ran { success, stderr } && success) ==> was_granted(
            v,
            files,
            replies.push(reply),
            request,
        ),
{
    let more = replies.push(reply);
    if was_granted(v, files, replies, request) {
        let m = choose|m: int| #[trigger] is_granted(v, files, replies, request, m);
        assert(more.take(m) =~= replies.take(m));
        assert(is_granted(v, files, more, request, m));
    }
    let n = replies.len() as int;
    assert(more.take(n) =~= replies);
    if job_laws::refresh_run(v, files, replies).0.asks() == Some(request) && (reply matches
        JobReplyView::Ran { success, stderr } && success) {
        assert(is_granted(v, files, more, request, n));
    }
}

/// Whether a setup was told at its start that the agent is loaded.
pub open spec fn had_loaded(v: RefreshView, replies: Seq<JobReplyView>) -> bool {
    !v.disabled && replies.len() > 0 && replies[0] == JobReplyView::Printed(Some(true))
}

/// Whether a setup is at its start: launchd is asked for the agent, unless it is not to be used.
pub open spec fn is_at_its_start(v: RefreshView) -> bool {
    v.stage == if v.disabled {
        RefreshStageView::Read { was_loaded: false }
    } else {
        RefreshStageView::Print
    }
}

/// What holds of a setup under way.
spec fn recounts(
    u: RefreshView,
    v: RefreshView,
    files: Files,
    replies: Seq<JobReplyView>,
) -> bool {
    let load = load_agent(v.manager, v.domain, v.uid);
    let drop = unload(agent_label(v.manager), v.domain, v.uid);
    &&& u.manager == v.manager
    &&& u.domain == v.domain
    &&& u.uid == v.uid
    &&& u.disabled == v.disabled
    &&& u.content == v.content
    &&& v.disabled ==> u.stage is Read || u.stage is Write || u.stage is Over
    &&& u.stage is Print ==> replies.len() == 0
    &&& u.stage matches RefreshStageView::Read { was_loaded } ==> was_loaded == had_loaded(
        v,
        replies,
    )
    &&& u.stage matches RefreshStageView::Write { was_loaded, previous } ==> was_loaded
        == had_loaded(v, replies)
    &&& u.stage matches RefreshStageView::Bootstrap { was_loaded, previous } ==> was_loaded
        == had_loaded(v, replies) && (was_loaded ==> was_granted(v, files, replies, drop))
    &&& u.stage is Bootout ==> had_loaded(v, replies)
    &&& u.stage matches RefreshStageView::Clear(c) ==> was_granted(v, files, replies, load)
        && c.label_prefix == v.manager.label_prefix@ && c.domain == v.domain && c.uid == v.uid
        && c.disabled == v.disabled && is_after_others(c)
    &&& u.stage matches RefreshStageView::Over(Ok(label)) ==> label == agent_label(v.manager) && (
    !v.disabled ==> was_granted(v, files, replies, load))
}

/// Whether a clearing is about jobs other than the agent.
spec fn is_after_others(c: ClearJobsView) -> bool {
    let agent = c.label_prefix + ".agent"@;
    let start = c.label_prefix + "."@;
    &&& c.stage matches ClearStageView::Print(label) ==> label != agent && text::has_prefix(
        label,
        start,
    ) && !c.disabled
    &&& c.stage matches ClearStageView::Bootout(label) ==> label != agent && text::has_prefix(
        label,
        start,
    ) && !c.disabled
}

proof fn lemma_seeking(v: ClearJobsView, i: nat)
    ensures
        ({
            let u = v.seeking(i);
            &&& u.label_prefix == v.label_prefix
            &&& u.domain == v.domain
            &&& u.uid == v.uid
            &&& u.disabled == v.disabled
            &&& u.stage is Read || u.stage is Over
        }),
    decreases v.entries.len() - i,
{
    if i < v.entries.len() {
        match v.entries[i as int] {
            DirEntryView::Path(path) => {
                if paths::extension_of(path) != Some("plist"@) {
                    lemma_seeking(v, i + 1);
                }
            },
            DirEntryView::Broken(_) => {},
        }
    }
}

proof fn lemma_clear(c: ClearJobsView, reply: JobReplyView)
    requires
        is_after_others(c),
    ensures
        ({
            let d = c.answered(reply);
            &&& is_after_others(d)
            &&& d.label_prefix == c.label_prefix
            &&& d.domain == c.domain
            &&& d.uid == c.uid
            &&& d.disabled == c.disabled
        }),
{
    lemma_seeking(c, c.at + 1);
    lemma_seeking(ClearJobsView { removed: c.removed + 1, ..c }, c.at + 1);
    match reply {
        JobReplyView::Entries(Some(entries)) => {
            lemma_seeking(ClearJobsView { entries, ..c }, 0);
        },
        _ => {},
    }
    if c.stage is Read {
        let plist = match reply {
            JobReplyView::Text(t) => t,
            _ => None,
        };
        if plist is Some {
            lemma_managed_label(c.label_prefix, plist->0);
        }
    }
}

/// The label that is read off a property list starts with the prefix and a dot.
proof fn lemma_managed_label(prefix: Seq<char>, plist: Seq<char>)
    ensures
        launchd::managed_label(prefix, plist) matches Some(label) ==> text::has_prefix(
            label,
            prefix + "."@,
        ),
{
}

proof fn lemma_step(
    u: RefreshView,
    v: RefreshView,
    files: Files,
    before: Seq<JobReplyView>,
    reply: JobReplyView,
)
    requires
        recounts(u, v, files, before),
        u == job_laws::refresh_run(v, files, before).0,
        before.len() == 0 ==> u == v,
        is_at_its_start(v),
    ensures
        recounts(
            if u.asks() is Some {
                u.answered(reply)
            } else {
                u
            },
            v,
            files,
            before.push(reply),
        ),
{
    let replies = before.push(reply);
    let load = load_agent(v.manager, v.domain, v.uid);
    let drop = unload(agent_label(v.manager), v.domain, v.uid);
    lemma_granted(v, files, before, reply, load);
    lemma_granted(v, files, before, reply, drop);
    assert(before.len() > 0 ==> had_loaded(v, replies) == had_loaded(v, before));
    match u.stage {
        RefreshStageView::Clear(c) => {
            lemma_clear(c, reply);
        },
        RefreshStageView::Bootout { previous } => {
            assert(u.asks() == Some(drop));
        },
        RefreshStageView::Bootstrap { was_loaded, previous } => {
            assert(u.asks() == Some(load));
        },
        _ => {},
    }
}

proof fn lemma_recounts(v: RefreshView, files: Files, replies: Seq<JobReplyView>)
    requires
        is_at_its_start(v),
    ensures
        recounts(job_laws::refresh_run(v, files, replies).0, v, files, replies),
    decreases replies.len(),
{
    if replies.len() > 0 {
        let before = replies.drop_last();
        let reply = replies.last();
        lemma_recounts(v, files, before);
        let u = job_laws::refresh_run(v, files, before).0;
        assert(before.push(reply) =~= replies);
        lemma_granted(v, files, before, reply, load_agent(v.manager, v.domain, v.uid));
        lemma_granted(
            v,
            files,
            before,
            reply,
            unload(agent_label(v.manager), v.domain, v.uid),
        );
        if before.len() > 0 {
            assert(before[0] == replies[0]);
        } else {
            assert(u == v);
            assert(replies[0] == reply);
        }
        lemma_step(u, v, files, before, reply);
    }
}

/// A setup of the agent that succeeds says the agent's label; and unless launchd is not to be used,
/// it was told that the agent is loaded from its property list in its domain. Where the agent had
/// been loaded before, it was told first that the old one is unloaded.
pub proof fn setups_load_the_agent(v: RefreshView, files: Files, replies: Seq<JobReplyView>)
    requires
        is_at_its_start(v),
    ensures
        ({
            let u = job_laws::refresh_run(v, files, replies).0;
            &&& u.stage matches RefreshStageView::Over(Ok(label)) ==> {
                &&& label == agent_label(v.manager)
                &&& !v.disabled ==> was_granted(
                    v,
                    files,
                    replies,
                    load_agent(v.manager, v.domain, v.uid),
                )
            }
            &&& u.stage is Bootstrap && replies.len() > 0 && replies[0] == JobReplyView::Printed(
                Some(true),
            ) ==> was_granted(
                v,
                files,
                replies,
                unload(agent_label(v.manager), v.domain, v.uid),
            )
        }),
{
    lemma_recounts(v, files, replies);
}

/// A setup asks launchd only to load the agent from its property list, to unload the agent, or to
/// unload another job of this program; and for nothing if launchd is not to be used. It writes what
/// it was given into the agent's property list.
pub proof fn setups_touch_no_foreign_job(v: RefreshView, files: Files, replies: Seq<JobReplyView>)
    requires
        is_at_its_start(v),
    ensures
        ({
            let asked = job_laws::refresh_run(v, files, replies).0.asks();
            &&& asked matches Some(JobRequestView::Launchctl(args)) ==> {
                &&& !v.disabled
                &&& asked == Some(load_agent(v.manager, v.domain, v.uid)) || asked == Some(
                    unload(agent_label(v.manager), v.domain, v.uid),
                ) || exists|label: Seq<char>|
                    asked == Some(#[trigger] unload(label, v.domain, v.uid)) && is_other_job(
                        v.manager,
                        label,
                    )
            }
            &&& asked matches Some(JobRequestView::WriteText { path, content }) ==> path
                == launchd::plist_path(v.manager, v.domain) && content == v.content
        }),
{
    lemma_recounts(v, files, replies);
    let u = job_laws::refresh_run(v, files, replies).0;
    match u.stage {
        RefreshStageView::Clear(c) => {
            match c.stage {
                ClearStageView::Bootout(label) => {
                    assert(u.asks() == Some(unload(label, v.domain, v.uid)));
                    assert(is_other_job(v.manager, label));
                },
                _ => {},
            }
        },
        _ => {},
    }
}

// ---------------------------------------------------------------------------
// Removing
// ---------------------------------------------------------------------------

/// Whether launchd has unloaded a job, or does not know it.
pub open spec fn is_gone_by(reply: JobReplyView) -> bool {
    reply matches JobReplyView::Ran { success, stderr } && (success || text::has_part(
        stderr,
        "No such process"@,
    ) || text::has_part(stderr, "Could not find service"@) || text::has_part(
        stderr,
        "does not exist"@,
    ))
}

/// What holds of a removal under way.
spec fn removal_recounts(u: RemoveView, v: RemoveView, replies: Seq<JobReplyView>) -> bool {
    &&& u.manager == v.manager
    &&& u.domain == v.domain
    &&& u.uid == v.uid
    &&& u.disabled == v.disabled
    &&& v.disabled ==> !(u.stage is Bootout) && !(u.stage is Restore)
    &&& u.stage is Remove ==> replies.len() == 1
    &&& u.stage is Bootout ==> replies.len() == 2
    &&& u.stage matches RemoveStageView::Over(Ok(_)) ==> (!v.disabled ==> replies.len() >= 3
        && is_gone_by(replies[2]))
}

proof fn lemma_removal(v: RemoveView, files: Files, replies: Seq<JobReplyView>)
    requires
        v.stage is Read,
    ensures
        removal_recounts(job_laws::remove_run(v, files, replies).0, v, replies),
        job_laws::remove_run(v, files, replies).0.stage is Read ==> replies.len() == 0,
    decreases replies.len(),
{
    if replies.len() > 0 {
        let before = replies.drop_last();
        lemma_removal(v, files, before);
        if before.len() >= 3 {
            assert(before[2] == replies[2]);
        }
        assert(replies[replies.len() - 1] == replies.last());
    }
}

/// A removal asks for the agent's property list, has it removed, and then has the agent of its
/// domain unloaded, unless launchd is not to be used. It succeeds only once launchd has unloaded the
/// agent or does not know it.
pub proof fn removals_unload_the_agent(v: RemoveView, files: Files, replies: Seq<JobReplyView>)
    requires
        v.stage is Read,
    ensures
        ({
            let u = job_laws::remove_run(v, files, replies).0;
            let plist = launchd::plist_path(v.manager, v.domain);
            &&& v.asks() == Some(JobRequestView::ReadBytes(plist))
            &&& u.asks() matches Some(JobRequestView::Launchctl(args)) ==> !v.disabled && u.asks()
                == Some(unload(agent_label(v.manager), v.domain, v.uid))
            &&& replies.len() == 1 ==> u.asks() == Some(JobRequestView::RemoveIfPresent(plist))
            &&& replies.len() == 2 && replies[1] is Done && !v.disabled ==> u.asks() == Some(
                unload(agent_label(v.manager), v.domain, v.uid),
            )
            &&& u.stage matches RemoveStageView::Over(Ok(_)) ==> (!v.disabled ==> replies.len()
                >= 3 && is_gone_by(replies[2]))
        }),
{
    lemma_removal(v, files, replies);
    if replies.len() == 1 {
        assert(replies.drop_last() =~= Seq::empty());
        assert(job_laws::remove_run(v, files, Seq::empty()).0 == v);
    }
    if replies.len() == 2 {
        let before = replies.drop_last();
        lemma_removal(v, files, before);
        assert(before.drop_last() =~= Seq::empty());
        assert(job_laws::remove_run(v, files, Seq::empty()).0 == v);
        assert(job_laws::remove_run(v, files, before).0 == v.answered(before.last()));
        assert(replies.last() == replies[1]);
    }
}

} // verus!
