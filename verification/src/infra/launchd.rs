//! The agent as a launchd job: its label, its property list and the `launchctl` commands.

use vstd::prelude::*;

use crate::infra::command::CommandReply;
use crate::infra::labels;
use crate::infra::labels::agent_label_for;
use crate::model;
use crate::model::Domain;
use crate::paths;
use crate::paths::join_path;
use crate::text;
use crate::text::{concat, contains, owned, split_once, starts_with, to_decimal, trim};

verus! {

// ---------------------------------------------------------------------------
// Names, paths and commands
// ---------------------------------------------------------------------------

/// The launchd jobs of this program: their labels start with a prefix, and their property lists
/// are kept in one directory per domain.
#[derive(Debug)]
pub struct RealLaunchdManager {
    pub label_prefix: String,
    pub launch_agents_dir: String,
    pub launch_daemons_dir: String,
}

impl Clone for RealLaunchdManager {
    fn clone(&self) -> (r: RealLaunchdManager)
        ensures
            r == *self,
    {
        RealLaunchdManager {
            label_prefix: self.label_prefix.clone(),
            launch_agents_dir: self.launch_agents_dir.clone(),
            launch_daemons_dir: self.launch_daemons_dir.clone(),
        }
    }
}

/// A system without launchd jobs.
#[derive(Debug)]
pub struct NoopLaunchdManager {
    pub label_prefix: String,
}

impl NoopLaunchdManager {
    /// Names the agent that would be set up.
    pub fn ensure_agent(&self) -> (r: String)
        ensures
            r@ == labels::agent_label_of(self.label_prefix@),
    {
        agent_label_for(self.label_prefix.as_str())
    }

    /// Removes nothing.
    pub fn clean_managed_watches(&self) -> (r: usize)
        ensures
            r == 0,
    {
        0
    }
}

/// The directory of a domain's property lists.
pub open spec fn plist_dir(m: RealLaunchdManager, domain: Domain) -> Seq<char> {
    match domain {
        Domain::User => m.launch_agents_dir@,
        Domain::System => m.launch_daemons_dir@,
    }
}

/// The property list of a domain's agent.
pub open spec fn plist_path(m: RealLaunchdManager, domain: Domain) -> Seq<char> {
    paths::joined_path(
        plist_dir(m, domain),
        labels::agent_label_of(m.label_prefix@) + ".plist"@,
    )
}

impl RealLaunchdManager {
    /// The label of the agent.
    pub fn agent_label(&self) -> (r: String)
        ensures
            r@ == labels::agent_label_of(self.label_prefix@),
    {
        agent_label_for(self.label_prefix.as_str())
    }

    /// The directory of a domain's property lists.
    pub fn domain_plist_dir(&self, domain: Domain) -> (r: String)
        ensures
            r@ == plist_dir(*self, domain),
    {
        match domain {
            Domain::User => self.launch_agents_dir.clone(),
            Domain::System => self.launch_daemons_dir.clone(),
        }
    }

    /// The property list of a domain's agent.
    pub fn agent_plist_path(&self, domain: Domain) -> (r: String)
        ensures
            r@ == plist_path(*self, domain),
    {
        let label = self.agent_label();
        let file = concat(label.as_str(), ".plist");
        let dir = self.domain_plist_dir(domain);
        join_path(dir.as_str(), file.as_str())
    }

    /// Reads the label off a property list, if the job is one of this program's.
    pub fn managed_label_from_plist(&self, plist: &str) -> (r: Option<String>)
        ensures
            text::opt_text(r) == managed_label(self.label_prefix@, plist@),
    {
        read_managed_label(self.label_prefix.as_str(), plist)
    }
}

/// The label that a property list names, if it starts with the prefix and a dot.
pub open spec fn managed_label(prefix: Seq<char>, plist: Seq<char>) -> Option<Seq<char>> {
    match text::parted(plist, "<key>Label</key><string>"@) {
        Some((_, rest)) => match text::parted(rest, "</string>"@) {
            Some((label, _)) => if text::has_prefix(label, prefix + "."@) {
                Some(label)
            } else {
                None
            },
            None => None,
        },
        None => None,
    }
}

/// Reads the label off a property list, if it starts with the prefix and a dot.
pub(crate) fn read_managed_label(prefix: &str, plist: &str) -> (r: Option<String>)
    ensures
        text::opt_text(r) == managed_label(prefix@, plist@),
{
    match split_once(plist, "<key>Label</key><string>") {
        Some((_, rest)) => match split_once(rest.as_str(), "</string>") {
            Some((label, _)) => {
                let own = concat(prefix, ".");
                if starts_with(label.as_str(), own.as_str()) {
                    Some(label)
                } else {
                    None
                }
            },
            None => None,
        },
        None => None,
    }
}

/// The launchd domain that a domain's jobs live in.
pub open spec fn domain_target(domain: Domain, uid: u32) -> Seq<char> {
    match domain {
        Domain::User => "gui/"@ + text::decimal(uid as nat),
        Domain::System => "system"@,
    }
}

/// A job, as `launchctl` names it.
pub open spec fn service_target(label: Seq<char>, domain: Domain, uid: u32) -> Seq<char> {
    domain_target(domain, uid) + "/"@ + label
}

/// Builds [`domain_target`].
fn make_domain_target(domain: Domain, uid: u32) -> (r: String)
    ensures
        r@ == domain_target(domain, uid),
{
    match domain {
        Domain::User => {
            let shown = to_decimal(uid as u64);
            concat("gui/", shown.as_str())
        },
        Domain::System => owned("system"),
    }
}

/// Builds [`service_target`].
fn make_service_target(label: &str, domain: Domain, uid: u32) -> (r: String)
    ensures
        r@ == service_target(label@, domain, uid),
{
    let mut r = make_domain_target(domain, uid);
    r.append("/");
    r.append(label);
    r
}

/// The arguments with which `launchctl` is asked whether a job is loaded.
pub fn print_args(label: &str, domain: Domain, uid: u32) -> (r: Vec<String>)
    ensures
        text::texts(r@) == seq!["print"@, service_target(label@, domain, uid)],
{
    let mut out: Vec<String> = Vec::new();
    out.push(owned("print"));
    out.push(make_service_target(label, domain, uid));
    assert(text::texts(out@) =~= seq!["print"@, service_target(label@, domain, uid)]);
    out
}

/// The arguments with which `launchctl` unloads a job.
pub fn bootout_args(label: &str, domain: Domain, uid: u32) -> (r: Vec<String>)
    ensures
        text::texts(r@) == seq!["bootout"@, service_target(label@, domain, uid)],
{
    let mut out: Vec<String> = Vec::new();
    out.push(owned("bootout"));
    out.push(make_service_target(label, domain, uid));
    assert(text::texts(out@) =~= seq!["bootout"@, service_target(label@, domain, uid)]);
    out
}

/// The arguments with which `launchctl` loads the job of a property list.
pub fn bootstrap_args(plist: &str, domain: Domain, uid: u32) -> (r: Vec<String>)
    ensures
        text::texts(r@) == seq!["bootstrap"@, domain_target(domain, uid), plist@],
{
    let mut out: Vec<String> = Vec::new();
    out.push(owned("bootstrap"));
    out.push(make_domain_target(domain, uid));
    out.push(owned(plist));
    assert(text::texts(out@) =~= seq!["bootstrap"@, domain_target(domain, uid), plist@]);
    out
}

/// Whether a job is loaded, given how `launchctl print` ended: not known when launchd is not to be
/// used, or could not be asked.
pub open spec fn loaded_by(disabled: bool, printed: Option<bool>) -> Option<bool> {
    if disabled {
        None
    } else {
        printed
    }
}

/// Whether the agent is loaded, given how `launchctl print` ended for it.
pub fn agent_loaded_status(disabled: bool, printed: Option<bool>) -> (r: Option<bool>)
    ensures
        r == loaded_by(disabled, printed),
{
    if disabled {
        None
    } else {
        printed
    }
}

/// What is told when a job could not be unloaded.
pub open spec fn bootout_failure(label: Seq<char>, why: Seq<char>) -> Seq<char> {
    "launchctl bootout failed for "@ + label + ": "@ + why
}

/// Builds [`bootout_failure`].
fn say_bootout_failure(label: &str, why: &str) -> (r: String)
    ensures
        r@ == bootout_failure(label@, why@),
{
    let mut r = concat("launchctl bootout failed for ", label);
    r.append(": ");
    r.append(why);
    r
}

/// Judges the unloading of a job that was loaded.
pub fn bootout_label_strict(label: &str, reply: &CommandReply) -> (r: Result<(), String>)
    ensures
        match r {
            Ok(()) => reply.success,
            Err(message) => !reply.success && message@ == bootout_failure(
                label@,
                text::trimmed(reply.stderr@),
            ),
        },
{
    if reply.success {
        Ok(())
    } else {
        let why = trim(reply.stderr.as_str());
        Err(say_bootout_failure(label, why.as_str()))
    }
}

/// Whether `launchctl` says that there is no such job.
pub open spec fn says_missing(stderr: Seq<char>) -> bool {
    text::has_part(stderr, "No such process"@) || text::has_part(
        stderr,
        "Could not find service"@,
    ) || text::has_part(stderr, "does not exist"@)
}

/// Judges the unloading of a job that need not be loaded.
pub fn bootout_label_allow_missing(label: &str, reply: &CommandReply) -> (r: Result<(), String>)
    ensures
        match r {
            Ok(()) => reply.success || says_missing(reply.stderr@),
            Err(message) => !reply.success && !says_missing(reply.stderr@) && message@
                == bootout_failure(label@, reply.stderr@),
        },
{
    let stderr = reply.stderr.as_str();
    if reply.success || contains(stderr, "No such process") || contains(
        stderr,
        "Could not find service",
    ) || contains(stderr, "does not exist") {
        Ok(())
    } else {
        Err(say_bootout_failure(label, stderr))
    }
}

/// Judges the loading of a job.
pub fn bootstrap_agent(reply: &CommandReply) -> (r: Result<(), String>)
    ensures
        match r {
            Ok(()) => reply.success,
            Err(message) => !reply.success && message@ == "launchctl bootstrap failed: "@
                + text::trimmed(reply.stderr@),
        },
{
    if reply.success {
        Ok(())
    } else {
        let why = trim(reply.stderr.as_str());
        Err(concat("launchctl bootstrap failed: ", why.as_str()))
    }
}

// ---------------------------------------------------------------------------
// The property list
// ---------------------------------------------------------------------------

/// What comes before the label in the property list of the agent.
pub open spec fn plist_head() -> Seq<char> {
    "<?xml version=\"1.0\" encoding=\"UTF-8\"?>\n"@
        + "<!DOCTYPE plist PUBLIC \"-//Apple//DTD PLIST 1.0//EN\" "@
        + "\"http://www.apple.com/DTDs/PropertyList-1.0.dtd\">\n"@
        + "<plist version=\"1.0\">\n<dict>\n  "@
}

/// The property list of the agent: it runs at load, is kept alive, and is not restarted more than
/// twice a minute.
pub open spec fn plist_text(
    label: Seq<char>,
    cpuguard_bin: Seq<char>,
    cpulimit_bin: Seq<char>,
    config_dir: Seq<char>,
    domain: Domain,
) -> Seq<char> {
    plist_head() + "<key>Label</key><string>"@ + label + "</string>"@
        + "\n  <key>ProgramArguments</key>\n  <array>\n    <string>"@ + cpuguard_bin + "</string>\n    <string>--domain</string><string>"@
        + model::domain_name(domain)
        + "</string>\n    <string>__agent</string>\n    <string>--config-dir</string><string>"@
        + config_dir + "</string>\n    <string>--cpulimit-bin</string><string>"@ + cpulimit_bin
        + "</string>\n  </array>\n  <key>RunAtLoad</key><true/>\n  <key>KeepAlive</key><true/>\n  <key>ThrottleInterval</key><integer>30</integer>\n</dict>\n</plist>\n"@
}

/// Builds [`plist_text`].
pub fn plist_content(
    label: &str,
    cpuguard_bin: &str,
    cpulimit_bin: &str,
    config_dir: &str,
    domain: Domain,
) -> (r: String)
    ensures
        r@ == plist_text(label@, cpuguard_bin@, cpulimit_bin@, config_dir@, domain),
{
    let mut r = owned("<?xml version=\"1.0\" encoding=\"UTF-8\"?>\n");
    r.append("<!DOCTYPE plist PUBLIC \"-//Apple//DTD PLIST 1.0//EN\" ");
    r.append("\"http://www.apple.com/DTDs/PropertyList-1.0.dtd\">\n");
    r.append("<plist version=\"1.0\">\n<dict>\n  ");
    r.append("<key>Label</key><string>");
    r.append(label);
    r.append("</string>");
    r.append("\n  <key>ProgramArguments</key>\n  <array>\n    <string>");
    r.append(cpuguard_bin);
    r.append("</string>\n    <string>--domain</string><string>");
    r.append(domain.name());
    r.append(
        "</string>\n    <string>__agent</string>\n    <string>--config-dir</string><string>",
    );
    r.append(config_dir);
    r.append("</string>\n    <string>--cpulimit-bin</string><string>");
    r.append(cpulimit_bin);
    r.append(
        "</string>\n  </array>\n  <key>RunAtLoad</key><true/>\n  <key>KeepAlive</key><true/>\n  <key>ThrottleInterval</key><integer>30</integer>\n</dict>\n</plist>\n",
    );
    r
}

// ---------------------------------------------------------------------------
// Reading the property list back
// ---------------------------------------------------------------------------

/// Whether none of the first `n` characters of `s` starts a key.
spec fn starts_no_key(s: Seq<char>, n: nat) -> bool
    decreases n,
{
    n == 0 || (starts_no_key(s, (n - 1) as nat) && (s[n - 1] == '<' ==> n < s.len() && s[n as int]
        != 'k'))
}

/// What [`starts_no_key`] means, character by character.
proof fn lemma_starts_no_key(s: Seq<char>, n: nat)
    requires
        starts_no_key(s, n),
    ensures
        forall|i: int| 0 <= i < n && #[trigger] s[i] == '<' ==> i + 1 < s.len() && s[i + 1] != 'k',
    decreases n,
{
    if n > 0 {
        lemma_starts_no_key(s, (n - 1) as nat);
    }
}

/// Texts in which nothing starts a key can be put together.
proof fn lemma_no_key_in_both(a: Seq<char>, b: Seq<char>)
    requires
        forall|i: int|
            0 <= i < a.len() && #[trigger] a[i] == '<' ==> i + 1 < a.len() && a[i + 1] != 'k',
        forall|i: int|
            0 <= i < b.len() && #[trigger] b[i] == '<' ==> i + 1 < b.len() && b[i + 1] != 'k',
    ensures
        forall|i: int|
            0 <= i < (a + b).len() && #[trigger] (a + b)[i] == '<' ==> i + 1 < (a + b).len() && (a
                + b)[i + 1] != 'k',
{
    let s = a + b;
    assert forall|i: int| 0 <= i < s.len() && #[trigger] s[i] == '<' implies i + 1 < s.len() && s[i
        + 1] != 'k' by {
        if i < a.len() {
            assert(a[i] == '<');
        } else {
            assert(b[i - a.len()] == '<');
        }
    }
}

/// No key starts before the label's.
proof fn lemma_head()
    ensures
        forall|i: int|
            0 <= i < plist_head().len() && #[trigger] plist_head()[i] == '<' ==> i + 1
                < plist_head().len() && plist_head()[i + 1] != 'k',
{
    let a = "<?xml version=\"1.0\" encoding=\"UTF-8\"?>\n"@;
    let b = "<!DOCTYPE plist PUBLIC \"-//Apple//DTD PLIST 1.0//EN\" "@;
    let c = "\"http://www.apple.com/DTDs/PropertyList-1.0.dtd\">\n"@;
    let d = "<plist version=\"1.0\">\n<dict>\n  "@;
    reveal_strlit("<?xml version=\"1.0\" encoding=\"UTF-8\"?>\n");
    reveal_strlit("<!DOCTYPE plist PUBLIC \"-//Apple//DTD PLIST 1.0//EN\" ");
    reveal_strlit("\"http://www.apple.com/DTDs/PropertyList-1.0.dtd\">\n");
    reveal_strlit("<plist version=\"1.0\">\n<dict>\n  ");
    reveal_with_fuel(starts_no_key, 64);
    assert(starts_no_key(a, a.len()));
    assert(starts_no_key(b, b.len()));
    assert(starts_no_key(c, c.len()));
    assert(starts_no_key(d, d.len()));
    lemma_starts_no_key(a, a.len());
    lemma_starts_no_key(b, b.len());
    lemma_starts_no_key(c, c.len());
    lemma_starts_no_key(d, d.len());
    lemma_no_key_in_both(a, b);
    lemma_no_key_in_both(a + b, c);
    lemma_no_key_in_both(a + b + c, d);
}

/// What stands behind the label's key in a property list: the label, the tag that ends it, and more.
proof fn lemma_label_follows(
    label: Seq<char>,
    cpuguard_bin: Seq<char>,
    cpulimit_bin: Seq<char>,
    config_dir: Seq<char>,
    domain: Domain,
) -> (rest: Seq<char>)
    ensures
        ({
            let plist = plist_text(label, cpuguard_bin, cpulimit_bin, config_dir, domain);
            let m = label.len() as int;
            &&& text::parted(plist, "<key>Label</key><string>"@) == Some((plist_head(), rest))
            &&& m <= rest.len()
            &&& rest.take(m) == label
            &&& text::occurs_at(rest, "</string>"@, m)
        }),
{
    let key = "<key>Label</key><string>"@;
    let end = "</string>"@;
    let plist = plist_text(label, cpuguard_bin, cpulimit_bin, config_dir, domain);
    let head = plist_head();
    let n = head.len() as int;
    let m = label.len() as int;
    let rest = plist.skip(n + key.len());
    assert(text::first_part_at(plist, key, n)) by {
        reveal_strlit("<key>Label</key><string>");
        assert(plist.subrange(n, n + key.len()) =~= key);
        lemma_head();
        assert forall|j: int| 0 <= j < n implies !text::occurs_at(plist, key, j) by {
            if text::occurs_at(plist, key, j) {
                assert(plist.subrange(j, j + key.len())[0] == '<');
                assert(plist.subrange(j, j + key.len())[1] == 'k');
                assert(head[j] == '<');
            }
        }
    }
    text::lemma_parted(plist, key, n);
    assert(plist.take(n) =~= head);
    assert(rest.subrange(m, m + end.len()) =~= end);
    assert(rest.take(m) =~= label);
    rest
}

/// The agent's property list names the agent's label: a label with the prefix that is written into
/// a property list is the label that is read off it. It must not hold the tag that ends it.
pub proof fn written_label_is_read_back(
    prefix: Seq<char>,
    label: Seq<char>,
    cpuguard_bin: Seq<char>,
    cpulimit_bin: Seq<char>,
    config_dir: Seq<char>,
    domain: Domain,
)
    requires
        text::has_prefix(label, prefix + "."@),
        !text::has_part(label, "</string>"@),
    ensures
        managed_label(prefix, plist_text(label, cpuguard_bin, cpulimit_bin, config_dir, domain))
            == Some(label),
{
    let end = "</string>"@;
    let m = label.len() as int;
    let rest = lemma_label_follows(label, cpuguard_bin, cpulimit_bin, config_dir, domain);
    assert(text::first_part_at(rest, end, m)) by {
        reveal_strlit("</string>");
        assert(rest.subrange(m, m + end.len())[0] == rest[m]);
        assert forall|j: int| 0 <= j < m implies !text::occurs_at(rest, end, j) by {
            if text::occurs_at(rest, end, j) {
                let here = rest.subrange(j, j + end.len());
                if j + end.len() <= m {
                    assert(label.subrange(j, j + end.len()) =~= here);
                    assert(text::occurs_at(label, end, j));
                } else {
                    assert(here[m - j] == rest[m]);
                    assert(end[m - j] != '<');
                }
            }
        }
    }
    text::lemma_parted(rest, end, m);
}

/// The agent's property list is never taken for that of another job, whatever the prefix: what is
/// read off it is the agent's label, or nothing.
pub proof fn agent_plist_names_no_other_job(
    prefix: Seq<char>,
    cpuguard_bin: Seq<char>,
    cpulimit_bin: Seq<char>,
    config_dir: Seq<char>,
    domain: Domain,
)
    ensures
        ({
            let label = labels::agent_label_of(prefix);
            let read = managed_label(
                prefix,
                plist_text(label, cpuguard_bin, cpulimit_bin, config_dir, domain),
            );
            read is None || read == Some(label)
        }),
{
    let label = labels::agent_label_of(prefix);
    let end = "</string>"@;
    reveal_strlit(".");
    reveal_strlit(".agent");
    if text::has_part(label, end) {
        let rest = lemma_label_follows(label, cpuguard_bin, cpulimit_bin, config_dir, domain);
        let i = choose|i: int| text::occurs_at(label, end, i);
        reveal_strlit("</string>");
        assert(rest.subrange(i, i + end.len()) =~= label.subrange(i, i + end.len()));
        assert(text::occurs_at(rest, end, i));
        if text::parted(rest, end) is Some {
            let k = choose|k: int| text::first_part_at(rest, end, k);
            assert(k <= i);
            assert(rest.subrange(k, k + end.len())[0] == rest[k]);
            assert(rest.take(label.len() as int)[k] == rest[k]);
            assert(label[k] == '<');
            assert(k < prefix.len());
            assert(rest.take(k).len() == k);
        }
    } else {
        assert(label.subrange(0, (prefix + "."@).len() as int) =~= prefix + "."@);
        written_label_is_read_back(prefix, label, cpuguard_bin, cpulimit_bin, config_dir, domain);
    }
}

} // verus!
