//! What the dialogues about launchd jobs keep, whatever they are told.

use vstd::prelude::*;
use vstd::utf8;

use crate::infra::agent_job::{RefreshStageView, RefreshView, RemoveStageView, RemoveView};
use crate::infra::jobs::{
    ClearJobsView, ClearStageView, DirEntryView, JobReplyView, JobRequestView,
};
use crate::infra::labels;
use crate::infra::launchd;
use crate::paths;
use crate::progress::Left;

verus! {

/// The files, by their paths: the bytes that each holds.
pub type Files = Map<Seq<char>, Seq<u8>>;

/// The files after a request got a reply: what is done has taken effect.
pub open spec fn changed(files: Files, request: JobRequestView, reply: JobReplyView) -> Files {
    if !(reply is Done) {
        files
    } else {
        match request {
            JobRequestView::WriteText { path, content } => files.insert(
                path,
                utf8::encode_utf8(content),
            ),
            JobRequestView::WriteBytes { path, bytes } => files.insert(path, bytes),
            JobRequestView::Remove(path) => files.remove(path),
            JobRequestView::RemoveIfPresent(path) => files.remove(path),
            _ => files,
        }
    }
}

/// Whether a reply is true: what is read is what the file holds, and a file that is there can be
/// read.
pub open spec fn is_true(files: Files, request: JobRequestView, reply: JobReplyView) -> bool {
    match request {
        JobRequestView::ReadBytes(path) => match reply {
            JobReplyView::Bytes(Some(b)) => files.contains_key(path) && files[path] == b,
            _ => !files.contains_key(path),
        },
        JobRequestView::ReadText(path) => match reply {
            JobReplyView::Text(Some(t)) => files.contains_key(path) && files[path]
                == utf8::encode_utf8(t),
            _ => true,
        },
        _ => true,
    }
}

/// Whether a request to put a file back is granted.
pub open spec fn is_put_back(request: JobRequestView, reply: JobReplyView) -> bool {
    request is WriteBytes || request is RemoveIfPresent ==> reply is Done
}

// ---------------------------------------------------------------------------
// Clearing away jobs of earlier watches
// ---------------------------------------------------------------------------

/// A clearing and the files after a series of replies.
pub open spec fn clear_run(v: ClearJobsView, files: Files, replies: Seq<JobReplyView>) -> (
    ClearJobsView,
    Files,
)
    decreases replies.len(),
{
    if replies.len() == 0 {
        (v, files)
    } else {
        let (u, f) = clear_run(v, files, replies.drop_last());
        match u.asks() {
            Some(request) => (
                u.answered(replies.last()),
                changed(f, request, replies.last()),
            ),
            None => (u, f),
        }
    }
}

/// Whether the replies that a clearing gets are true.
pub open spec fn clear_is_served(
    v: ClearJobsView,
    files: Files,
    replies: Seq<JobReplyView>,
) -> bool
    decreases replies.len(),
{
    replies.len() > 0 ==> {
        let (u, f) = clear_run(v, files, replies.drop_last());
        &&& clear_is_served(v, files, replies.drop_last())
        &&& u.asks() is Some ==> is_true(f, u.asks()->0, replies.last())
    }
}

/// Whether a file is a property list of a job that is to be cleared away: one of this program's,
/// and not the agent's.
pub open spec fn is_stale(label_prefix: Seq<char>, path: Seq<char>, file: Seq<u8>) -> bool {
    &&& paths::extension_of(path) == Some("plist"@)
    &&& utf8::valid_utf8(file)
    &&& launchd::managed_label(label_prefix, utf8::decode_utf8(file)) is Some
    &&& launchd::managed_label(label_prefix, utf8::decode_utf8(file)) != Some(
        labels::agent_label_of(label_prefix),
    )
}

/// Whether `files` are what was there before, `files0`, less some that were to be cleared away.
pub open spec fn is_cleared(label_prefix: Seq<char>, files: Files, files0: Files) -> bool {
    &&& forall|path: Seq<char>| #[trigger]
        files0.contains_key(path) ==> files.contains_key(path) || is_stale(
            label_prefix,
            path,
            files0[path],
        )
    &&& forall|path: Seq<char>| #[trigger]
        files.contains_key(path) ==> files0.contains_key(path) && files[path] == files0[path]
}

/// What seeking keeps and finds.
proof fn lemma_seeking(v: ClearJobsView, i: nat)
    ensures
        ({
            let u = v.seeking(i);
            &&& u.label_prefix == v.label_prefix
            &&& u.entries == v.entries
            &&& u.at >= i
            &&& u.stage is Read || u.stage is Over
            &&& u.stage is Read ==> u.at < u.entries.len() && u.entries[u.at as int] is Path
                && paths::extension_of(u.path()) == Some("plist"@)
        }),
    decreases v.entries.len() - i,
{
    if i < v.entries.len() {
        match v.entries[i as int] {
            DirEntryView::Path(path) => {
                if paths::extension_of(path) != Some("plist"@) {
                    lemma_seeking(v, i + 1);
                }
            },
            DirEntryView::Broken(_) => {},
        }
    }
}

/// What holds of a clearing under way with files that were `files0`.
spec fn clear_inv(v: ClearJobsView, files: Files, files0: Files) -> bool {
    &&& is_cleared(v.label_prefix, files, files0)
    &&& v.on_entry() ==> paths::extension_of(v.path()) == Some("plist"@)
    &&& v.stage is Print || v.stage is Bootout || v.stage is Remove ==> {
        &&& files.contains_key(v.path())
        &&& is_stale(v.label_prefix, v.path(), files0[v.path()])
    }
}

/// A reply keeps what holds of a clearing.
proof fn lemma_clear_step(v: ClearJobsView, files: Files, files0: Files, reply: JobReplyView)
    requires
        clear_inv(v, files, files0),
        v.asks() is Some,
        is_true(files, v.asks()->0, reply),
    ensures
        clear_inv(v.answered(reply), changed(files, v.asks()->0, reply), files0),
        v.answered(reply).label_prefix == v.label_prefix,
{
    broadcast use {utf8::encode_utf8_valid_utf8, utf8::encode_utf8_decode_utf8};

    lemma_seeking(v, v.at + 1);
    lemma_seeking(ClearJobsView { removed: v.removed + 1, ..v }, v.at + 1);
    match reply {
        JobReplyView::Entries(Some(entries)) => {
            lemma_seeking(ClearJobsView { entries, ..v }, 0);
        },
        _ => {},
    }
}

/// Every clearing under way keeps what holds of it.
proof fn lemma_clear(v: ClearJobsView, files: Files, replies: Seq<JobReplyView>)
    requires
        v.stage is List,
        clear_is_served(v, files, replies),
    ensures
        ({
            let (u, f) = clear_run(v, files, replies);
            clear_inv(u, f, files) && u.label_prefix == v.label_prefix
        }),
    decreases replies.len(),
{
    if replies.len() > 0 {
        lemma_clear(v, files, replies.drop_last());
        let (u, f) = clear_run(v, files, replies.drop_last());
        if u.asks() is Some {
            lemma_clear_step(u, f, files, replies.last());
        }
    }
}

/// A clearing removes only property lists of this program's jobs, and never the agent's; all other
/// files stay as they are, and none is added.
pub proof fn clearing_spares_the_agent(
    v: ClearJobsView,
    files: Files,
    replies: Seq<JobReplyView>,
)
    requires
        v.stage is List,
        clear_is_served(v, files, replies),
    ensures
        is_cleared(v.label_prefix, clear_run(v, files, replies).1, files),
{
    lemma_clear(v, files, replies);
}

/// Whether a clearing gets to read every text that is there.
pub open spec fn clear_is_read(v: ClearJobsView, files: Files, replies: Seq<JobReplyView>) -> bool
    decreases replies.len(),
{
    replies.len() > 0 ==> {
        let (u, f) = clear_run(v, files, replies.drop_last());
        &&& clear_is_read(v, files, replies.drop_last())
        &&& u.asks() matches Some(JobRequestView::ReadText(path)) ==> (f.contains_key(path)
            && utf8::valid_utf8(f[path]) ==> replies.last() is Text && replies.last()->Text_0
            is Some)
    }
}

/// The number of entries that a clearing is done with.
spec fn done_with(v: ClearJobsView) -> int {
    match v.stage {
        ClearStageView::Over(Ok(_)) => v.entries.len() as int,
        ClearStageView::List => 0,
        ClearStageView::Over(Err(_)) => 0,
        _ => v.at as int,
    }
}

/// Whether the entry at a position names a property list that is to be cleared away.
pub open spec fn is_stale_entry(
    label_prefix: Seq<char>,
    entries: Seq<DirEntryView>,
    files: Files,
    i: int,
) -> bool {
    &&& 0 <= i < entries.len()
    &&& entries[i] is Path
    &&& files.contains_key(entries[i]->Path_0)
    &&& is_stale(label_prefix, entries[i]->Path_0, files[entries[i]->Path_0])
}

/// Whether what a clearing is done with is cleared away.
spec fn is_done_so_far(v: ClearJobsView, files: Files, files0: Files) -> bool {
    forall|i: int|
        0 <= i < done_with(v) && #[trigger] is_stale_entry(v.label_prefix, v.entries, files0, i)
            ==> !files.contains_key(v.entries[i]->Path_0)
}

proof fn lemma_seeking_done(v: ClearJobsView, i: nat, files: Files, files0: Files)
    requires
        i <= v.entries.len(),
        forall|k: int|
            0 <= k < i && #[trigger] is_stale_entry(v.label_prefix, v.entries, files0, k)
                ==> !files.contains_key(v.entries[k]->Path_0),
    ensures
        is_done_so_far(v.seeking(i), files, files0),
    decreases v.entries.len() - i,
{
    lemma_seeking(v, i);
    if i < v.entries.len() {
        match v.entries[i as int] {
            DirEntryView::Path(path) => {
                if paths::extension_of(path) != Some("plist"@) {
                    assert forall|k: int|
                        0 <= k < i + 1 && #[trigger] is_stale_entry(
                            v.label_prefix,
                            v.entries,
                            files0,
                            k,
                        ) implies !files.contains_key(v.entries[k]->Path_0) by {
                        assert(k < i);
                    }
                    lemma_seeking_done(v, i + 1, files, files0);
                }
            },
            DirEntryView::Broken(_) => {},
        }
    }
}

proof fn lemma_done_step(v: ClearJobsView, files: Files, files0: Files, reply: JobReplyView)
    requires
        clear_inv(v, files, files0),
        v.well_formed(),
        is_done_so_far(v, files, files0),
        v.stage is List ==> v.entries.len() == 0,
        v.asks() is Some,
        is_true(files, v.asks()->0, reply),
        v.asks() matches Some(JobRequestView::ReadText(path)) ==> (files.contains_key(path)
            && utf8::valid_utf8(files[path]) ==> reply is Text && reply->Text_0 is Some),
    ensures
        is_done_so_far(v.answered(reply), changed(files, v.asks()->0, reply), files0),
        v.stage !is List ==> v.answered(reply).entries == v.entries,
{
    broadcast use {utf8::encode_utf8_valid_utf8, utf8::encode_utf8_decode_utf8};

    let after = changed(files, v.asks()->0, reply);
    lemma_seeking(v, v.at + 1);
    lemma_seeking(ClearJobsView { removed: v.removed + 1, ..v }, v.at + 1);
    match v.stage {
        ClearStageView::List => {
            match reply {
                JobReplyView::Entries(Some(entries)) => {
                    lemma_seeking_done(ClearJobsView { entries, ..v }, 0, after, files0);
                },
                _ => {},
            }
        },
        ClearStageView::Read => {
            assert(after == files);
            let plist = match reply {
                JobReplyView::Text(t) => t,
                _ => None,
            };
            if v.stale_label(plist) is None {
                assert forall|k: int|
                    0 <= k < v.at + 1 && #[trigger] is_stale_entry(
                        v.label_prefix,
                        v.entries,
                        files0,
                        k,
                    ) implies !files.contains_key(v.entries[k]->Path_0) by {
                    if k == v.at && files.contains_key(v.path()) {
                        assert(files[v.path()] == files0[v.path()]);
                        assert(plist is Some);
                        assert(files[v.path()] == utf8::encode_utf8(plist->0));
                    }
                }
                lemma_seeking_done(v, v.at + 1, files, files0);
            }
        },
        ClearStageView::Remove => {
            if reply is Done {
                assert forall|k: int|
                    0 <= k < v.at + 1 && #[trigger] is_stale_entry(
                        v.label_prefix,
                        v.entries,
                        files0,
                        k,
                    ) implies !after.contains_key(v.entries[k]->Path_0) by {
                    if k < v.at {
                        assert(!files.contains_key(v.entries[k]->Path_0));
                    }
                }
                lemma_seeking_done(
                    ClearJobsView { removed: v.removed + 1, ..v },
                    v.at + 1,
                    after,
                    files0,
                );
            }
        },
        _ => {},
    }
}

proof fn lemma_done(v: ClearJobsView, files: Files, replies: Seq<JobReplyView>)
    requires
        v.stage is List,
        v.removed == 0,
        v.entries.len() == 0,
        clear_is_served(v, files, replies),
        clear_is_read(v, files, replies),
    ensures
        ({
            let (u, f) = clear_run(v, files, replies);
            &&& is_done_so_far(u, f, files)
            &&& u.well_formed()
            &&& u.stage is List ==> u.entries.len() == 0
            &&& replies.len() > 0 ==> u.stage !is List && (replies[0] matches
                JobReplyView::Entries(Some(entries)) ==> u.entries == entries)
            &&& replies.len() == 0 ==> u == v
        }),
    decreases replies.len(),
{
    if replies.len() > 0 {
        let before = replies.drop_last();
        lemma_done(v, files, before);
        lemma_clear(v, files, before);
        let (u, f) = clear_run(v, files, before);
        assert(replies[replies.len() - 1] == replies.last());
        if before.len() > 0 {
            assert(before[0] == replies[0]);
        }
        if u.asks() is Some {
            lemma_done_step(u, f, files, replies.last());
            lemma_well_formed(u, replies.last());
        }
    }
}

/// A reply keeps a clearing well formed.
proof fn lemma_well_formed(v: ClearJobsView, reply: JobReplyView)
    requires
        v.well_formed(),
    ensures
        v.answered(reply).well_formed(),
        v.answered(reply).stage !is List,
        v.stage is List ==> (reply matches JobReplyView::Entries(Some(entries)) ==> v.answered(
            reply,
        ).entries == entries),
{
    if v.on_entry() {
        lemma_seeking_formed(v, v.at + 1);
        lemma_seeking_formed(ClearJobsView { removed: v.removed + 1, ..v }, v.at + 1);
    }
    match reply {
        JobReplyView::Entries(Some(entries)) => {
            if v.stage is List {
                lemma_seeking_formed(ClearJobsView { entries, ..v }, 0);
            }
        },
        _ => {},
    }
}

proof fn lemma_seeking_formed(v: ClearJobsView, i: nat)
    requires
        v.removed <= i,
    ensures
        v.seeking(i).well_formed(),
        v.seeking(i).entries == v.entries,
        v.seeking(i).stage !is List,
    decreases v.entries.len() - i,
{
    if i < v.entries.len() {
        match v.entries[i as int] {
            DirEntryView::Path(path) => {
                if paths::extension_of(path) != Some("plist"@) {
                    lemma_seeking_formed(v, i + 1);
                }
            },
            DirEntryView::Broken(_) => {},
        }
    }
}

/// A clearing that succeeds, and gets to read every text that is there, has removed every property
/// list of this program's jobs in the directory but the agent's.
pub proof fn clearing_removes_every_stale_list(
    v: ClearJobsView,
    files: Files,
    replies: Seq<JobReplyView>,
    entries: Seq<DirEntryView>,
    i: int,
)
    requires
        v.stage is List,
        v.removed == 0,
        v.entries.len() == 0,
        clear_is_served(v, files, replies),
        clear_is_read(v, files, replies),
        replies.len() > 0,
        replies[0] == JobReplyView::Entries(Some(entries)),
        is_stale_entry(v.label_prefix, entries, files, i),
    ensures
        ({
            let (u, f) = clear_run(v, files, replies);
            u.stage is Over && u.stage->Over_0 is Ok ==> !f.contains_key(entries[i]->Path_0)
        }),
{
    lemma_done(v, files, replies);
    lemma_clear(v, files, replies);
    let (u, f) = clear_run(v, files, replies);
    assert(is_stale_entry(u.label_prefix, u.entries, files, i));
}

// ---------------------------------------------------------------------------
// Setting up the agent
// ---------------------------------------------------------------------------

/// A setup of the agent and the files after a series of replies.
pub open spec fn refresh_run(v: RefreshView, files: Files, replies: Seq<JobReplyView>) -> (
    RefreshView,
    Files,
)
    decreases replies.len(),
{
    if replies.len() == 0 {
        (v, files)
    } else {
        let (u, f) = refresh_run(v, files, replies.drop_last());
        match u.asks() {
            Some(request) => (
                u.answered(replies.last()),
                changed(f, request, replies.last()),
            ),
            None => (u, f),
        }
    }
}

/// Whether the replies that a setup gets are true, and the property list can be put back.
pub open spec fn refresh_is_served(
    v: RefreshView,
    files: Files,
    replies: Seq<JobReplyView>,
) -> bool
    decreases replies.len(),
{
    replies.len() > 0 ==> {
        let (u, f) = refresh_run(v, files, replies.drop_last());
        &&& refresh_is_served(v, files, replies.drop_last())
        &&& u.asks() is Some ==> is_true(f, u.asks()->0, replies.last()) && is_put_back(
            u.asks()->0,
            replies.last(),
        )
    }
}

/// Whether `previous` is what the agent's property list held.
spec fn is_previous(files: Files, plist: Seq<char>, previous: Option<Seq<u8>>) -> bool {
    match previous {
        Some(b) => files.contains_key(plist) && files[plist] == b,
        None => !files.contains_key(plist),
    }
}

/// What holds of a setup under way with files that were `files0`.
spec fn refresh_inv(v: RefreshView, files: Files, files0: Files) -> bool {
    let written = files0.insert(v.plist(), utf8::encode_utf8(v.content));
    match v.stage {
        RefreshStageView::Print => files == files0,
        RefreshStageView::Read { .. } => files == files0,
        RefreshStageView::Write { previous, .. } => files == files0 && is_previous(
            files0,
            v.plist(),
            previous,
        ),
        RefreshStageView::Bootout { previous } => files == written && is_previous(
            files0,
            v.plist(),
            previous,
        ),
        RefreshStageView::Bootstrap { previous, .. } => files == written && is_previous(
            files0,
            v.plist(),
            previous,
        ),
        RefreshStageView::Restore { previous, .. } => files == written && is_previous(
            files0,
            v.plist(),
            previous,
        ),
        RefreshStageView::Reload { .. } => files == files0,
        RefreshStageView::Clear(c) => c.label_prefix == v.manager.label_prefix@ && clear_inv(
            c,
            files,
            written,
        ),
        RefreshStageView::Over(Ok(_)) => is_cleared(v.manager.label_prefix@, files, written),
        RefreshStageView::Over(Err(_)) => files == files0,
    }
}

/// A reply keeps what holds of a setup.
proof fn lemma_refresh_step(v: RefreshView, files: Files, files0: Files, reply: JobReplyView)
    requires
        refresh_inv(v, files, files0),
        v.asks() is Some,
        is_true(files, v.asks()->0, reply),
        is_put_back(v.asks()->0, reply),
    ensures
        refresh_inv(v.answered(reply), changed(files, v.asks()->0, reply), files0),
{
    match v.stage {
        RefreshStageView::Restore { again, previous, error } => {
            assert(changed(files, v.asks()->0, reply) =~= files0);
        },
        RefreshStageView::Clear(c) => {
            lemma_clear_step(
                c,
                files,
                files0.insert(v.plist(), utf8::encode_utf8(v.content)),
                reply,
            );
        },
        _ => {},
    }
}

/// A setup of the agent that fails leaves every file as it was, as long as the agent's property
/// list can be put back.
pub proof fn failed_setup_changes_no_file(
    v: RefreshView,
    files: Files,
    replies: Seq<JobReplyView>,
)
    requires
        v.stage is Print || v.stage is Read,
        refresh_is_served(v, files, replies),
    ensures
        ({
            let (u, f) = refresh_run(v, files, replies);
            u.stage matches RefreshStageView::Over(Err(_)) ==> f == files
        }),
{
    lemma_refresh(v, files, replies);
}

/// Every setup under way keeps what holds of it.
proof fn lemma_refresh(v: RefreshView, files: Files, replies: Seq<JobReplyView>)
    requires
        v.stage is Print || v.stage is Read,
        refresh_is_served(v, files, replies),
    ensures
        ({
            let (u, f) = refresh_run(v, files, replies);
            &&& refresh_inv(u, f, files)
            &&& u.manager == v.manager && u.domain == v.domain && u.content == v.content
        }),
    decreases replies.len(),
{
    if replies.len() > 0 {
        lemma_refresh(v, files, replies.drop_last());
        let (u, f) = refresh_run(v, files, replies.drop_last());
        if u.asks() is Some {
            lemma_refresh_step(u, f, files, replies.last());
        }
    }
}

/// A setup of the agent that succeeds leaves its property list as it was written, and every other
/// file as it was, but for property lists of this program's other jobs.
pub proof fn setup_writes_the_property_list(
    v: RefreshView,
    cpuguard_bin: Seq<char>,
    cpulimit_bin: Seq<char>,
    config_dir: Seq<char>,
    files: Files,
    replies: Seq<JobReplyView>,
)
    requires
        v.stage is Print || v.stage is Read,
        v.content == launchd::plist_text(
            v.label(),
            cpuguard_bin,
            cpulimit_bin,
            config_dir,
            v.domain,
        ),
        refresh_is_served(v, files, replies),
    ensures
        ({
            let (u, f) = refresh_run(v, files, replies);
            u.stage matches RefreshStageView::Over(Ok(_)) ==> {
                let written = files.insert(v.plist(), utf8::encode_utf8(v.content));
                &&& f.contains_key(v.plist())
                &&& f[v.plist()] == utf8::encode_utf8(v.content)
                &&& is_cleared(v.manager.label_prefix@, f, written)
            }
        }),
{
    broadcast use {utf8::encode_utf8_valid_utf8, utf8::encode_utf8_decode_utf8};

    let prefix = v.manager.label_prefix@;
    lemma_refresh(v, files, replies);
    launchd::agent_plist_names_no_other_job(
        prefix,
        cpuguard_bin,
        cpulimit_bin,
        config_dir,
        v.domain,
    );
    let written = files.insert(v.plist(), utf8::encode_utf8(v.content));
    assert(written.contains_key(v.plist()));
}

// ---------------------------------------------------------------------------
// Removing the agent
// ---------------------------------------------------------------------------

/// A removal of the agent and the files after a series of replies.
pub open spec fn remove_run(v: RemoveView, files: Files, replies: Seq<JobReplyView>) -> (
    RemoveView,
    Files,
)
    decreases replies.len(),
{
    if replies.len() == 0 {
        (v, files)
    } else {
        let (u, f) = remove_run(v, files, replies.drop_last());
        match u.asks() {
            Some(request) => (
                u.answered(replies.last()),
                changed(f, request, replies.last()),
            ),
            None => (u, f),
        }
    }
}

/// Whether the replies that a removal gets are true, and the property list can be put back.
pub open spec fn remove_is_served(
    v: RemoveView,
    files: Files,
    replies: Seq<JobReplyView>,
) -> bool
    decreases replies.len(),
{
    replies.len() > 0 ==> {
        let (u, f) = remove_run(v, files, replies.drop_last());
        &&& remove_is_served(v, files, replies.drop_last())
        &&& u.asks() is Some ==> is_true(f, u.asks()->0, replies.last()) && (
        u.stage is Restore ==> replies.last() is Done)
    }
}

/// What holds of a removal under way with files that were `files0`.
spec fn remove_inv(v: RemoveView, files: Files, files0: Files) -> bool {
    match v.stage {
        RemoveStageView::Read => files == files0,
        RemoveStageView::Remove { previous } => files == files0 && is_previous(
            files0,
            v.plist(),
            previous,
        ),
        RemoveStageView::Bootout { previous } => files == files0.remove(v.plist()) && is_previous(
            files0,
            v.plist(),
            previous,
        ),
        RemoveStageView::Restore { previous, .. } => files == files0.remove(v.plist())
            && is_previous(files0, v.plist(), previous),
        RemoveStageView::Over(Ok(_)) => files == files0.remove(v.plist()),
        RemoveStageView::Over(Err(_)) => files == files0,
    }
}

/// Every removal under way keeps what holds of it.
proof fn lemma_remove(v: RemoveView, files: Files, replies: Seq<JobReplyView>)
    requires
        v.stage is Read,
        remove_is_served(v, files, replies),
    ensures
        ({
            let (u, f) = remove_run(v, files, replies);
            remove_inv(u, f, files) && u.plist() == v.plist()
        }),
    decreases replies.len(),
{
    if replies.len() > 0 {
        lemma_remove(v, files, replies.drop_last());
        let (u, f) = remove_run(v, files, replies.drop_last());
        match u.stage {
            RemoveStageView::Restore { previous, error } => {
                assert(changed(f, u.asks()->0, replies.last()) =~= files);
            },
            _ => {},
        }
    }
}

/// A removal of the agent that succeeds removes its property list and no other file; one that fails
/// leaves every file as it was, as long as the property list can be put back.
pub proof fn removal_removes_the_property_list(
    v: RemoveView,
    files: Files,
    replies: Seq<JobReplyView>,
)
    requires
        v.stage is Read,
        remove_is_served(v, files, replies),
    ensures
        ({
            let (u, f) = remove_run(v, files, replies);
            &&& u.stage matches RemoveStageView::Over(Ok(_)) ==> f == files.remove(v.plist())
            &&& u.stage matches RemoveStageView::Over(Err(_)) ==> f == files
        }),
{
    lemma_remove(v, files, replies);
}

// ---------------------------------------------------------------------------
// Coming to an end
// ---------------------------------------------------------------------------

/// What is left of a clearing.
pub open spec fn clear_left(v: ClearJobsView) -> Left {
    let entries = 4 * (v.entries.len() - v.at);
    match v.stage {
        ClearStageView::List => Left { stages: 2, steps: 0 },
        ClearStageView::Read => Left { stages: 1, steps: (entries + 3) as nat },
        ClearStageView::Print(_) => Left { stages: 1, steps: (entries + 2) as nat },
        ClearStageView::Bootout(_) => Left { stages: 1, steps: (entries + 1) as nat },
        ClearStageView::Remove => Left { stages: 1, steps: entries as nat },
        ClearStageView::Over(_) => Left { stages: 0, steps: 0 },
    }
}

/// Each reply brings a clearing nearer to its end.
pub proof fn clearings_end(v: ClearJobsView, reply: JobReplyView)
    requires
        v.well_formed(),
        v.asks() is Some,
    ensures
        clear_left(v.answered(reply)).is_less(clear_left(v)),
{
    lemma_seeking(v, v.at + 1);
    lemma_seeking(ClearJobsView { removed: v.removed + 1, ..v }, v.at + 1);
    match reply {
        JobReplyView::Entries(Some(entries)) => {
            lemma_seeking(ClearJobsView { entries, ..v }, 0);
        },
        _ => {},
    }
}

/// What is left of a setup.
pub open spec fn refresh_left(v: RefreshView) -> Left {
    match v.stage {
        RefreshStageView::Print => Left { stages: 8, steps: 0 },
        RefreshStageView::Read { was_loaded } => Left { stages: 7, steps: 0 },
        RefreshStageView::Write { was_loaded, previous } => Left { stages: 6, steps: 0 },
        RefreshStageView::Bootout { previous } => Left { stages: 5, steps: 0 },
        RefreshStageView::Bootstrap { was_loaded, previous } => Left { stages: 4, steps: 0 },
        RefreshStageView::Restore { again, previous, error } => Left { stages: 2, steps: 0 },
        RefreshStageView::Reload { error } => Left { stages: 1, steps: 0 },
        RefreshStageView::Clear(c) => Left {
            stages: 1 + clear_left(c).stages,
            steps: clear_left(c).steps,
        },
        RefreshStageView::Over(_) => Left { stages: 0, steps: 0 },
    }
}

/// Each reply brings a setup nearer to its end.
pub proof fn setups_end(v: RefreshView, reply: JobReplyView)
    requires
        v.well_formed(),
        v.asks() is Some,
    ensures
        refresh_left(v.answered(reply)).is_less(refresh_left(v)),
{
    match v.stage {
        RefreshStageView::Clear(c) => {
            clearings_end(c, reply);
        },
        _ => {},
    }
}

/// What is left of a removal.
pub open spec fn remove_left(v: RemoveView) -> Left {
    match v.stage {
        RemoveStageView::Read => Left { stages: 4, steps: 0 },
        RemoveStageView::Remove { previous } => Left { stages: 3, steps: 0 },
        RemoveStageView::Bootout { previous } => Left { stages: 2, steps: 0 },
        RemoveStageView::Restore { previous, error } => Left { stages: 1, steps: 0 },
        RemoveStageView::Over(_) => Left { stages: 0, steps: 0 },
    }
}

/// Each reply brings a removal nearer to its end.
pub proof fn removals_end(v: RemoveView, reply: JobReplyView)
    requires
        v.asks() is Some,
    ensures
        remove_left(v.answered(reply)).is_less(remove_left(v)),
{
}

} // verus!
