use std::collections::BTreeMap;

use cpuguard::infra::agent_job::{restore_plist, RefreshAgent, RemoveAgent};
use cpuguard::infra::command::CommandReply;
use cpuguard::infra::jobs::{ClearJobs, DirEntry, JobError, JobReply, JobRequest};
use cpuguard::infra::labels::{watch_label, watch_label_with_hash};
use cpuguard::infra::launchd::{
    agent_loaded_status, bootout_args, bootout_label_allow_missing, bootout_label_strict,
    bootstrap_args, plist_content, print_args, NoopLaunchdManager, RealLaunchdManager,
};
use cpuguard::model::Domain;

fn manager() -> RealLaunchdManager {
    RealLaunchdManager {
        label_prefix: "com.cpuguard".to_string(),
        launch_agents_dir: "/agents".to_string(),
        launch_daemons_dir: "/daemons/".to_string(),
    }
}

fn plist_naming(label: &str) -> String {
    format!("<plist><dict><key>Label</key><string>{label}</string></dict></plist>")
}

/// The files and the loaded jobs of a pretended system.
struct Bench {
    files: BTreeMap<String, Vec<u8>>,
    no_dir: bool,
    broken: Option<String>,
    loaded: bool,
    bootout: CommandReply,
    bootstraps: Vec<bool>,
    commands: Vec<Vec<String>>,
    fail_write: bool,
    fail_remove: bool,
}

fn ran(success: bool, stderr: &str) -> CommandReply {
    CommandReply { success, stdout: String::new(), stderr: stderr.to_string() }
}

impl Bench {
    fn new() -> Bench {
        Bench {
            files: BTreeMap::new(),
            no_dir: false,
            broken: None,
            loaded: false,
            bootout: ran(true, ""),
            bootstraps: vec![],
            commands: vec![],
            fail_write: false,
            fail_remove: false,
        }
    }

    fn with_file(mut self, path: &str, text: &str) -> Bench {
        self.files.insert(path.to_string(), text.as_bytes().to_vec());
        self
    }

    fn text(&self, path: &str) -> Option<String> {
        self.files.get(path).map(|b| String::from_utf8(b.clone()).expect("text"))
    }

    fn serve(&mut self, request: JobRequest) -> JobReply {
        match request {
            JobRequest::Print(_) => JobReply::Printed(Some(self.loaded)),
            JobRequest::Launchctl(args) => {
                let first = args[0].clone();
                self.commands.push(args);
                if first == "bootout" {
                    JobReply::Ran(CommandReply {
                        success: self.bootout.success,
                        stdout: String::new(),
                        stderr: self.bootout.stderr.clone(),
                    })
                } else {
                    let ok = if self.bootstraps.is_empty() {
                        true
                    } else {
                        self.bootstraps.remove(0)
                    };
                    JobReply::Ran(ran(ok, " bootstrap trouble\n"))
                }
            }
            JobRequest::ReadBytes(path) => JobReply::Bytes(self.files.get(&path).cloned()),
            JobRequest::ReadText(path) => JobReply::Text(self.text(&path)),
            JobRequest::WriteText { .. } if self.fail_write => {
                JobReply::Failed("write plist".to_string())
            }
            JobRequest::WriteText { path, content } => {
                self.files.insert(path, content.into_bytes());
                JobReply::Done
            }
            JobRequest::WriteBytes { path, bytes } => {
                self.files.insert(path, bytes);
                JobReply::Done
            }
            JobRequest::Remove(_) | JobRequest::RemoveIfPresent(_) if self.fail_remove => {
                JobReply::Failed("remove".to_string())
            }
            JobRequest::Remove(path) | JobRequest::RemoveIfPresent(path) => {
                self.files.remove(&path);
                JobReply::Done
            }
            JobRequest::List(_) if self.no_dir => JobReply::Entries(None),
            JobRequest::List(dir) => {
                let mut entries: Vec<DirEntry> = self
                    .files
                    .keys()
                    .filter(|p| p.starts_with(dir.as_str()))
                    .map(|p| DirEntry::Path(p.clone()))
                    .collect();
                if let Some(cause) = &self.broken {
                    entries.push(DirEntry::Broken(cause.clone()));
                }
                JobReply::Entries(Some(entries))
            }
        }
    }

    fn refresh(&mut self, mut op: RefreshAgent) -> Result<String, JobError> {
        while let Some(request) = op.request() {
            let reply = self.serve(request);
            op = op.answer(reply);
        }
        op.finish().expect("over")
    }

    fn remove(&mut self, mut op: RemoveAgent) -> Result<(), JobError> {
        while let Some(request) = op.request() {
            let reply = self.serve(request);
            op = op.answer(reply);
        }
        op.finish().expect("over")
    }

    fn clear(&mut self, mut op: ClearJobs) -> Result<usize, JobError> {
        while let Some(request) = op.request() {
            let reply = self.serve(request);
            op = op.answer(reply);
        }
        op.finish().expect("over")
    }
}

fn setup(disabled: bool) -> RefreshAgent {
    manager().ensure_agent(
        Domain::User,
        "/usr/local/bin/cpuguard",
        "/opt/homebrew/bin/cpulimit",
        "/Users/demo/.config/cpuguard",
        501,
        disabled,
    )
}

const PLIST: &str = "/agents/com.cpuguard.agent.plist";

#[test]
fn generated_plist_uses_single_cpuguard_agent() {
    let text = plist_content(
        "com.cpuguard.agent",
        "/usr/local/bin/cpuguard",
        "/opt/homebrew/bin/cpulimit",
        "/Users/demo/.config/cpuguard",
        Domain::User,
    );
    assert!(text.contains("/usr/local/bin/cpuguard"));
    assert!(text.contains("__agent"));
    assert!(text.contains("--config-dir"));
    assert!(text.contains("--cpulimit-bin"));
    assert!(text.contains("ThrottleInterval"));
    assert!(!text.contains("__watch-runner"));
    assert!(!text.contains("<string>-e</string>"));
    assert_eq!(
        text,
        "<?xml version=\"1.0\" encoding=\"UTF-8\"?>\n<!DOCTYPE plist PUBLIC \
         \"-//Apple//DTD PLIST 1.0//EN\" \"http://www.apple.com/DTDs/PropertyList-1.0.dtd\">\n\
         <plist version=\"1.0\">\n<dict>\n  \
         <key>Label</key><string>com.cpuguard.agent</string>\n  \
         <key>ProgramArguments</key>\n  <array>\n    \
         <string>/usr/local/bin/cpuguard</string>\n    \
         <string>--domain</string><string>user</string>\n    \
         <string>__agent</string>\n    \
         <string>--config-dir</string><string>/Users/demo/.config/cpuguard</string>\n    \
         <string>--cpulimit-bin</string><string>/opt/homebrew/bin/cpulimit</string>\n  \
         </array>\n  <key>RunAtLoad</key><true/>\n  <key>KeepAlive</key><true/>\n  \
         <key>ThrottleInterval</key><integer>30</integer>\n</dict>\n</plist>\n"
    );
}

#[test]
fn managed_label_from_plist_requires_cpuguard_prefix() {
    assert_eq!(
        manager().managed_label_from_plist(&plist_naming("com.cpuguard.demo")).as_deref(),
        Some("com.cpuguard.demo")
    );
    assert_eq!(manager().managed_label_from_plist(&plist_naming("com.example.demo")), None);
    assert_eq!(manager().managed_label_from_plist(&plist_naming("com.cpuguardian")), None);
    assert_eq!(manager().managed_label_from_plist("<key>Label</key><string>com.cpuguard.x"), None);
}

#[test]
fn clean_managed_watches_keeps_single_agent_plist() {
    let mut bench = Bench::new()
        .with_file(PLIST, &plist_naming("com.cpuguard.agent"))
        .with_file("/agents/com.cpuguard.legacy.plist", &plist_naming("com.cpuguard.legacy"))
        .with_file("/agents/com.example.plist", &plist_naming("com.example.demo"))
        .with_file("/agents/notes.txt", &plist_naming("com.cpuguard.notes"));
    let removed = bench
        .clear(manager().clean_managed_watches(Domain::User, 501, true))
        .expect("clean legacy");

    assert_eq!(removed, 1);
    let left: Vec<&String> = bench.files.keys().collect();
    assert_eq!(left, vec![PLIST, "/agents/com.example.plist", "/agents/notes.txt"]);
    assert!(bench.commands.is_empty());
}

#[test]
fn loaded_jobs_are_unloaded_before_they_are_cleared_away() {
    let legacy = plist_naming("com.cpuguard.legacy");
    let mut bench = Bench::new().with_file("/agents/a.plist", &legacy);
    bench.loaded = true;
    assert_eq!(bench.clear(manager().clean_managed_watches(Domain::User, 501, false)).unwrap(), 1);
    assert_eq!(bench.commands, vec![vec!["bootout", "gui/501/com.cpuguard.legacy"]]);

    let mut bench = Bench::new().with_file("/agents/a.plist", &legacy);
    bench.loaded = true;
    bench.bootout = ran(false, " busy \n");
    let error = bench.clear(manager().clean_managed_watches(Domain::User, 501, false)).unwrap_err();
    assert_eq!(error.message(), "launchctl bootout failed for com.cpuguard.legacy: busy");
    assert_eq!(bench.files.len(), 1);
}

#[test]
fn clearing_needs_a_readable_directory() {
    let mut bench = Bench::new();
    bench.no_dir = true;
    assert_eq!(bench.clear(manager().clean_managed_watches(Domain::User, 501, true)).unwrap(), 0);
    let mut bench = Bench::new();
    bench.broken = Some("bad entry".to_string());
    let error = bench.clear(manager().clean_managed_watches(Domain::User, 501, true)).unwrap_err();
    assert_eq!(error.message(), "bad entry");
    let mut bench =
        Bench::new().with_file("/agents/a.plist", &plist_naming("com.cpuguard.legacy"));
    bench.fail_remove = true;
    let error = bench.clear(manager().clean_managed_watches(Domain::User, 501, true)).unwrap_err();
    assert_eq!(error.message(), "remove");
}

#[test]
fn restore_plist_restores_previous_contents() {
    let mut bench = Bench::new().with_file(PLIST, "new broken plist");
    let request = restore_plist(PLIST, &Some(b"previous good plist".to_vec()));
    bench.serve(request);
    assert_eq!(bench.text(PLIST).as_deref(), Some("previous good plist"));
    let request = restore_plist(PLIST, &None);
    bench.serve(request);
    assert!(bench.files.is_empty());
}

#[test]
fn the_agent_is_set_up() {
    let mut bench = Bench::new();
    assert_eq!(bench.refresh(setup(false)).expect("set up"), "com.cpuguard.agent");
    assert_eq!(bench.commands, vec![vec!["bootstrap", "gui/501", PLIST]]);
    assert!(bench.text(PLIST).expect("written").contains("com.cpuguard.agent"));

    bench.loaded = true;
    bench.commands.clear();
    bench.refresh(setup(false)).expect("set up again");
    assert_eq!(bench.commands[0], vec!["bootout", "gui/501/com.cpuguard.agent"]);
    assert_eq!(bench.commands.len(), 2);

    let mut bench = Bench::new();
    bench.refresh(setup(true)).expect("set up without launchd");
    assert!(bench.commands.is_empty() && bench.files.len() == 1);
}

#[test]
fn a_written_label_is_read_back() {
    let plist = plist_content("com.cpuguard.agent", "/bin/g", "/bin/l", "/etc", Domain::System);
    assert_eq!(manager().managed_label_from_plist(&plist).as_deref(), Some("com.cpuguard.agent"));

    let plist = plist_content("com.cpuguard.a</string>b", "/bin/g", "/bin/l", "/etc", Domain::User);
    assert_eq!(manager().managed_label_from_plist(&plist).as_deref(), Some("com.cpuguard.a"));
}

#[test]
fn a_setup_clears_away_earlier_jobs_and_spares_its_own() {
    let mut bench = Bench::new()
        .with_file(PLIST, "old")
        .with_file("/agents/com.cpuguard.legacy.plist", &plist_naming("com.cpuguard.legacy"))
        .with_file("/agents/com.example.plist", &plist_naming("com.example"));
    bench.refresh(setup(false)).expect("set up");
    assert_eq!(bench.files.keys().collect::<Vec<_>>(), vec![PLIST, "/agents/com.example.plist"]);
    assert_eq!(
        bench.text(PLIST).expect("kept"),
        plist_content(
            "com.cpuguard.agent",
            "/usr/local/bin/cpuguard",
            "/opt/homebrew/bin/cpulimit",
            "/Users/demo/.config/cpuguard",
            Domain::User,
        )
    );
}

#[test]
fn a_setup_keeps_its_property_list_whatever_the_prefix() {
    let odd = RealLaunchdManager { label_prefix: "a</string>b".to_string(), ..manager() };
    let op = odd.ensure_agent(Domain::User, "/bin/g", "/bin/l", "/etc", 501, false);
    let mut bench = Bench::new();
    bench.refresh(op).expect("set up");
    let label = "a</string>b.agent";
    let plist = plist_content(label, "/bin/g", "/bin/l", "/etc", Domain::User);
    assert_eq!(odd.managed_label_from_plist(&plist), None);
    assert_eq!(bench.files.values().collect::<Vec<_>>(), vec![&plist.into_bytes()]);
}

#[test]
fn dialogues_about_jobs_end() {
    for reply in [JobReply::Done, JobReply::Printed(Some(true)), JobReply::Failed(String::new())] {
        let again = || match &reply {
            JobReply::Done => JobReply::Done,
            JobReply::Printed(p) => JobReply::Printed(*p),
            _ => JobReply::Failed("no".to_string()),
        };
        let mut op = setup(false);
        let mut replies = 0;
        while op.request().is_some() {
            op = op.answer(again());
            replies += 1;
        }
        assert!(replies <= 8);
    }
    let entries: Vec<DirEntry> =
        (0..5).map(|i| DirEntry::Path(format!("/agents/{i}.plist"))).collect();
    let mut op = manager().clean_managed_watches(Domain::User, 501, false);
    op = op.answer(JobReply::Entries(Some(entries)));
    let mut replies = 0;
    while op.request().is_some() {
        op = op.answer(JobReply::Text(None));
        replies += 1;
    }
    assert_eq!(replies, 5);
}

#[test]
fn a_failed_setup_puts_the_property_list_back() {
    let mut bench = Bench::new().with_file(PLIST, "old");
    bench.loaded = true;
    bench.bootstraps = vec![false];
    let error = bench.refresh(setup(false)).unwrap_err();
    assert_eq!(
        error.message(),
        "refresh launchd agent com.cpuguard.agent: launchctl bootstrap failed: bootstrap trouble"
    );
    assert_eq!(bench.text(PLIST).as_deref(), Some("old"));
    assert_eq!(bench.commands.len(), 3);

    let mut bench = Bench::new();
    bench.bootstraps = vec![false];
    assert!(bench.refresh(setup(false)).is_err());
    assert!(bench.files.is_empty());
    assert_eq!(bench.commands.len(), 1);

    let mut bench = Bench::new().with_file(PLIST, "old");
    bench.loaded = true;
    bench.bootout = ran(false, "busy");
    assert!(bench.refresh(setup(false)).is_err());
    assert_eq!(bench.text(PLIST).as_deref(), Some("old"));

    bench.fail_write = true;
    assert_eq!(bench.refresh(setup(false)).unwrap_err().message(), "write plist");
}

#[test]
fn the_agent_is_removed() {
    let mut bench = Bench::new().with_file("/daemons/com.cpuguard.agent.plist", "old");
    bench.bootout = ran(false, "Could not find service");
    bench.remove(manager().remove_agent(Domain::System, 0, false)).expect("removed");
    assert!(bench.files.is_empty());
    assert_eq!(bench.commands, vec![vec!["bootout", "system/com.cpuguard.agent"]]);

    let mut bench = Bench::new().with_file(PLIST, "old");
    bench.bootout = ran(false, "busy");
    let error = bench.remove(manager().remove_agent(Domain::User, 501, false)).unwrap_err();
    assert_eq!(
        error.message(),
        "remove launchd agent com.cpuguard.agent: \
         launchctl bootout failed for com.cpuguard.agent: busy"
    );
    assert_eq!(bench.text(PLIST).as_deref(), Some("old"));

    bench.fail_remove = true;
    assert!(bench.remove(manager().remove_agent(Domain::User, 501, true)).is_err());
    bench.fail_remove = false;
    bench.remove(manager().remove_agent(Domain::User, 501, true)).expect("removed");
    assert!(bench.files.is_empty());
}

#[test]
fn labels_show_the_process_name() {
    assert_eq!(
        watch_label_with_hash("com.cpuguard", "Google Chrome (GPU)", 0x1_0000_00ab),
        "com.cpuguard.google-chrome-gpu-000000ab"
    );
    assert_eq!(watch_label_with_hash("p", "--A--b__c--", 0xdead_beef), "p.a-b-c-deadbeef");
    assert_eq!(watch_label_with_hash("p", "序号", 0), "p.proc-00000000");
}

#[test]
fn labels_depend_on_the_name_alone() {
    let a = watch_label("com.cpuguard", "demo app");
    assert!(a.starts_with("com.cpuguard.demo-app-"));
    assert_eq!(a, watch_label("com.cpuguard", "demo app"));
    assert_ne!(a, watch_label("com.cpuguard", "demo_app"));
    assert_eq!(a.len(), "com.cpuguard.demo-app-".len() + 8);
}

#[test]
fn paths_and_commands_follow_the_domain() {
    let m = manager();
    assert_eq!(m.agent_label(), "com.cpuguard.agent");
    assert_eq!(m.agent_plist_path(Domain::User), PLIST);
    assert_eq!(m.agent_plist_path(Domain::System), "/daemons/com.cpuguard.agent.plist");
    assert_eq!(print_args("x", Domain::User, 501), vec!["print", "gui/501/x"]);
    assert_eq!(bootout_args("x", Domain::System, 501), vec!["bootout", "system/x"]);
    assert_eq!(bootstrap_args("/p", Domain::System, 501), vec!["bootstrap", "system", "/p"]);
    assert_eq!(agent_loaded_status(true, Some(true)), None);
    assert_eq!(agent_loaded_status(false, Some(false)), Some(false));
    let noop = NoopLaunchdManager { label_prefix: "p".to_string() };
    assert_eq!(noop.ensure_agent(), "p.agent");
    assert_eq!(noop.clean_managed_watches(), 0);
}

#[test]
fn a_missing_job_counts_as_unloaded_where_it_may_be_missing() {
    let missing = ran(false, "3: No such process\n");
    assert!(bootout_label_allow_missing("x", &missing).is_ok());
    assert_eq!(
        bootout_label_strict("x", &missing),
        Err("launchctl bootout failed for x: 3: No such process".to_string())
    );
    assert_eq!(
        bootout_label_allow_missing("x", &ran(false, "busy\n")),
        Err("launchctl bootout failed for x: busy\n".to_string())
    );
}
