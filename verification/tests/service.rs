use std::collections::{HashMap, HashSet, VecDeque};

use cpuguard::app::clean::{CleanAll, CleanManaged};
use cpuguard::app::conflict::{find_suspects, has_external_adhoc_conflict};
use cpuguard::app::dialogue::{Reply, Request, ServiceError};
use cpuguard::app::limit::LimitOnce;
use cpuguard::app::service::{Service, WatchOptions, WatchRuntime};
use cpuguard::app::survey::{Probe, Survey};
use cpuguard::app::unwatch::Unwatch;
use cpuguard::app::watch::Watch;
use cpuguard::clock::{Moment, Timestamp};
use cpuguard::cpu::CpuPercent;
use cpuguard::model::{
    default_release_cpu, default_trigger_cpu, Domain, ManagedInstance, ManagedMode, ManagedTarget,
    Rule, RulesFile, StateFile,
};
use cpuguard::store::{
    add_adhoc_instance, add_watch_instance, upsert_rule, RuleUpdate, WatchInstanceUpdate,
};

const SELF: u32 = 6000;
const SELF_NAME: &str = "service_test";

fn load(value: f32) -> CpuPercent {
    CpuPercent { bits: value.to_bits() }
}

/// The files, the processes and the launchd jobs of a pretended system.
struct Bench {
    rules: RulesFile,
    state: StateFile,
    names: HashMap<u32, String>,
    args: HashMap<u32, String>,
    listing: Option<String>,
    available: bool,
    started: Vec<(u32, u16)>,
    stopped: Vec<u32>,
    next_pids: VecDeque<u32>,
    fail_stop: HashSet<u32>,
    ensured: Vec<(Domain, String)>,
    removed: Vec<(String, Domain)>,
    fail_ensure: bool,
    fail_remove: bool,
    fail_clean: bool,
    fail_save_state: bool,
    left_over: usize,
}

impl Bench {
    fn new() -> Bench {
        Bench {
            rules: RulesFile::default(),
            state: StateFile::default(),
            names: HashMap::from([(SELF, SELF_NAME.to_string())]),
            args: HashMap::from([(SELF, "service_test --quiet".to_string())]),
            listing: Some(String::new()),
            available: true,
            started: vec![],
            stopped: vec![],
            next_pids: VecDeque::new(),
            fail_stop: HashSet::new(),
            ensured: vec![],
            removed: vec![],
            fail_ensure: false,
            fail_remove: false,
            fail_clean: false,
            fail_save_state: false,
            left_over: 0,
        }
    }

    fn serve(&mut self, request: Request) -> Reply {
        match request {
            Request::EnsureAvailable if self.available => Reply::Done,
            Request::EnsureAvailable => Reply::Failed("no cpulimit".to_string()),
            Request::LoadRules => Reply::Rules(self.rules.clone()),
            Request::SaveRules(rules) => {
                self.rules = rules;
                Reply::Done
            }
            Request::LoadState => Reply::State(self.state.clone()),
            Request::SaveState(_) if self.fail_save_state => {
                Reply::Failed("disk full".to_string())
            }
            Request::SaveState(state) => {
                self.state = state;
                Reply::Done
            }
            Request::NameOf(pid) => Reply::Text(self.names.get(&pid).cloned()),
            Request::ArgsOf(pid) => Reply::Text(self.args.get(&pid).cloned()),
            Request::ListCommandLines => Reply::Text(self.listing.clone()),
            Request::Start { target_pid, limit } => {
                self.started.push((target_pid, limit));
                Reply::Started(self.next_pids.pop_front().unwrap_or(9999))
            }
            Request::Stop(pid) => {
                if self.fail_stop.contains(&pid) {
                    return Reply::Failed(format!("injected stop failure for {pid}"));
                }
                self.stopped.push(pid);
                Reply::Done
            }
            Request::EnsureAgent { domain, cpuguard_bin, cpulimit_bin, config_dir } => {
                if self.fail_ensure {
                    return Reply::Failed("injected ensure failure".to_string());
                }
                self.ensured.push((domain, format!("{cpuguard_bin}:{cpulimit_bin}:{config_dir}")));
                Reply::Done
            }
            Request::RemoveAgent(domain) => {
                if self.fail_remove {
                    return Reply::Failed("injected remove failure".to_string());
                }
                self.removed.push(("agent".to_string(), domain));
                Reply::Done
            }
            Request::CleanWatches(_) if self.fail_clean => Reply::Failed("stuck".to_string()),
            Request::CleanWatches(domain) => {
                self.removed.push(("*managed*".to_string(), domain));
                Reply::Count(self.left_over)
            }
        }
    }

    fn watch(&mut self, mut op: Watch) -> Result<Rule, ServiceError> {
        while let Some(request) = op.request() {
            let reply = self.serve(request);
            op = op.answer(reply);
        }
        op.finish().expect("over")
    }

    fn unwatch(&mut self, mut op: Unwatch) -> Result<bool, ServiceError> {
        while let Some(request) = op.request() {
            let reply = self.serve(request);
            op = op.answer(reply);
        }
        op.finish().expect("over")
    }

    fn limit(&mut self, mut op: LimitOnce) -> Result<u32, ServiceError> {
        while let Some(request) = op.request() {
            let reply = self.serve(request);
            op = op.answer(reply);
        }
        op.finish().expect("over")
    }

    fn clean(&mut self, mut op: CleanManaged) -> Result<usize, ServiceError> {
        while let Some(request) = op.request() {
            let reply = self.serve(request);
            op = op.answer(reply);
        }
        op.finish().expect("over")
    }

    fn clean_all(&mut self, mut op: CleanAll) -> Result<(usize, usize), ServiceError> {
        while let Some(request) = op.request() {
            let reply = self.serve(request);
            assert!(op.takes(&reply));
            op = op.answer(reply);
        }
        op.finish().expect("over")
    }

    fn write_rule(&mut self, name: &str, domain: Domain) {
        upsert_rule(&mut self.rules, update(name, 20, domain));
    }

    fn record_watch(&mut self, cpulimit_pid: u32, rule_name: &str, domain: Domain) {
        add_watch_instance(
            &mut self.state,
            WatchInstanceUpdate {
                cpulimit_pid,
                target_pid: SELF,
                rule_name,
                limit: 20,
                last_observed_cpu: load(30.0),
                domain,
                owner_label: "com.cpuguard.agent",
            },
        );
    }
}

fn update(name: &str, limit: u16, domain: Domain) -> RuleUpdate {
    RuleUpdate {
        name: name.to_string(),
        limit,
        trigger_cpu: default_trigger_cpu(),
        release_cpu: default_release_cpu(),
        args_contains: None,
        domain,
    }
}

fn service() -> Service {
    Service {}
}

fn watch_of(name: &str, args_contains: Option<&str>) -> Watch {
    service().watch(
        WatchOptions {
            name,
            limit: 20,
            trigger_cpu: default_trigger_cpu(),
            release_cpu: default_release_cpu(),
            args_contains: args_contains.map(|a| a.to_string()),
        },
        Domain::User,
        WatchRuntime {
            cpuguard_bin: "/mock/cpuguard",
            cpulimit_bin: "/mock/cpulimit",
            config_dir: "/mock/config",
        },
    )
}

#[test]
fn top_once_records_adhoc_instance() {
    let mut bench = Bench::new();
    bench.next_pids.push_back(4321);
    let pid = bench
        .limit(service().limit_once(1234, 20, Domain::User))
        .expect("limit once should succeed");

    assert_eq!(pid, 4321);
    assert_eq!(bench.started, vec![(1234, 20)]);
    assert_eq!(bench.state.instances.len(), 1);
    assert_eq!(bench.state.instances[0].cpulimit_pid, 4321);
    assert!(matches!(bench.state.instances[0].target, ManagedTarget::Pid(1234)));
    assert_eq!(bench.state.instances[0].mode, ManagedMode::Adhoc);
}

#[test]
fn limit_once_needs_the_limiter_program() {
    let mut bench = Bench::new();
    bench.available = false;
    let error = bench.limit(service().limit_once(1234, 20, Domain::User)).unwrap_err();
    assert_eq!(error.message(), "no cpulimit");
    assert!(bench.started.is_empty() && bench.state.instances.is_empty());
}

#[test]
fn limit_once_that_cannot_be_recorded_fails() {
    let mut bench = Bench::new();
    bench.fail_save_state = true;
    let error = bench.limit(service().limit_once(1234, 20, Domain::User)).unwrap_err();
    assert_eq!(error.message(), "disk full");
    assert!(bench.state.instances.is_empty());
}

#[test]
fn watch_writes_rule_and_calls_launchd() {
    let mut bench = Bench::new();
    let rule = bench.watch(watch_of("demo-proc", None)).expect("watch should succeed");

    assert_eq!(rule.name, "demo-proc");
    assert_eq!(bench.rules.rules.len(), 1);
    assert_eq!(bench.rules.rules[0].name, "demo-proc");
    assert_eq!(
        bench.ensured,
        vec![(Domain::User, "/mock/cpuguard:/mock/cpulimit:/mock/config".to_string())]
    );
}

#[test]
fn watch_does_not_persist_rule_when_agent_ensure_fails() {
    let mut bench = Bench::new();
    add_adhoc_instance(&mut bench.state, 4321, SELF, Domain::User);
    bench.fail_ensure = true;
    let result = bench.watch(watch_of(SELF_NAME, None));

    assert!(result.is_err());
    assert!(bench.rules.rules.is_empty());
    assert_eq!(bench.state.instances.len(), 1);
    assert_eq!(bench.state.instances[0].cpulimit_pid, 4321);
    assert!(bench.stopped.is_empty());
}

#[test]
fn clean_all_removes_rules_and_instances() {
    let mut bench = Bench::new();
    bench.write_rule("demo-proc", Domain::User);
    add_adhoc_instance(&mut bench.state, 4321, SELF, Domain::User);
    let (rules_removed, instances_stopped) =
        bench.clean_all(service().clean_all(Domain::User)).expect("clean all");
    assert_eq!(rules_removed, 1);
    assert_eq!(instances_stopped, 1);
    assert!(bench.rules.rules.is_empty());
    assert!(bench.state.instances.is_empty());
}

#[test]
fn same_rule_name_can_exist_in_different_domains() {
    let mut rules = RulesFile::default();
    upsert_rule(&mut rules, update("demo-proc", 20, Domain::User));
    upsert_rule(
        &mut rules,
        RuleUpdate {
            trigger_cpu: load(30.0),
            release_cpu: load(10.0),
            ..update("demo-proc", 30, Domain::System)
        },
    );

    assert_eq!(rules.rules.len(), 2);
    assert!(rules
        .rules
        .iter()
        .any(|r| r.name == "demo-proc" && r.domain == Domain::User && r.limit == 20));
    assert!(rules
        .rules
        .iter()
        .any(|r| r.name == "demo-proc" && r.domain == Domain::System && r.limit == 30));
}

#[test]
fn unwatch_removes_only_current_domain_rule_and_agent() {
    let mut bench = Bench::new();
    bench.write_rule("demo-proc", Domain::User);
    bench.write_rule("demo-proc", Domain::System);
    bench.record_watch(3333, "demo-proc", Domain::User);
    let removed = bench.unwatch(service().unwatch("demo-proc", Domain::User)).expect("unwatch");
    assert!(removed);

    assert_eq!(bench.rules.rules.len(), 1);
    assert_eq!(bench.rules.rules[0].domain, Domain::System);
    assert_eq!(bench.removed, vec![("agent".to_string(), Domain::User)]);
    assert_eq!(bench.stopped, vec![3333]);
    assert!(bench.state.instances.is_empty());
}

#[test]
fn unwatch_keeps_rule_and_state_when_stop_fails() {
    let mut bench = Bench::new();
    bench.write_rule("demo-proc", Domain::User);
    bench.record_watch(3333, "demo-proc", Domain::User);
    bench.fail_stop.insert(3333);
    let result = bench.unwatch(service().unwatch("demo-proc", Domain::User));

    assert!(result.is_err());
    assert_eq!(
        result.unwrap_err().message(),
        "stop watch cpulimit 3333: injected stop failure for 3333"
    );
    assert_eq!(bench.rules.rules.len(), 1);
    assert_eq!(bench.state.instances.len(), 1);
    assert_eq!(bench.state.instances[0].cpulimit_pid, 3333);
    assert!(bench.removed.is_empty());
}

#[test]
fn unwatch_keeps_last_rule_when_agent_remove_fails() {
    let mut bench = Bench::new();
    bench.write_rule("demo-proc", Domain::User);
    bench.fail_remove = true;
    let result = bench.unwatch(service().unwatch("demo-proc", Domain::User));

    assert!(result.is_err());
    assert_eq!(bench.rules.rules.len(), 1);
    assert_eq!(bench.rules.rules[0].name, "demo-proc");
}

#[test]
fn unwatch_keeps_the_agent_for_other_rules() {
    let mut bench = Bench::new();
    bench.write_rule("a", Domain::User);
    bench.write_rule("b", Domain::User);
    assert!(bench.unwatch(service().unwatch("a", Domain::User)).expect("unwatch"));
    assert!(bench.removed.is_empty());
    assert!(!bench.unwatch(service().unwatch("a", Domain::User)).expect("unwatch again"));
    assert_eq!(bench.rules.rules.len(), 1);
}

#[test]
fn unwatch_stops_legacy_watch_instance_without_rule_name() {
    let mut bench = Bench::new();
    bench.write_rule(SELF_NAME, Domain::User);
    bench.state = StateFile {
        version: 1,
        instances: vec![ManagedInstance {
            id: "legacy_watch".to_string(),
            mode: ManagedMode::Watch,
            cpulimit_pid: 3333,
            target: ManagedTarget::Pid(SELF),
            rule_name: None,
            limit: Some(20),
            last_observed_cpu: Some(load(30.0)),
            domain: Domain::User,
            started_at: Timestamp { at: Moment { secs: 0, nanos: 0 }, offset_secs: 0 },
            owner_label: Some("com.cpuguard.agent".to_string()),
        }],
    };
    let removed = bench.unwatch(service().unwatch(SELF_NAME, Domain::User)).expect("unwatch");

    assert!(removed);
    assert_eq!(bench.stopped, vec![3333]);
    assert!(bench.state.instances.is_empty());
    assert_eq!(bench.state.version, 2);
}

#[test]
fn clean_all_is_scoped_to_requested_domain() {
    let mut bench = Bench::new();
    for domain in [Domain::User, Domain::System] {
        bench.write_rule(&format!("demo-{}", domain.name()), domain);
        let pid = match domain {
            Domain::User => 1111,
            Domain::System => 2222,
        };
        add_adhoc_instance(&mut bench.state, pid, SELF, domain);
    }
    let (rules_removed, instances_stopped) =
        bench.clean_all(service().clean_all(Domain::User)).expect("clean all");

    assert_eq!(rules_removed, 1);
    assert_eq!(instances_stopped, 1);
    assert_eq!(bench.stopped, vec![1111]);
    assert_eq!(bench.rules.rules.len(), 1);
    assert_eq!(bench.rules.rules[0].domain, Domain::System);
    assert_eq!(bench.state.instances.len(), 1);
    assert_eq!(bench.state.instances[0].domain, Domain::System);
    assert_eq!(bench.state.instances[0].cpulimit_pid, 2222);
}

#[test]
fn clean_all_keeps_rules_and_state_when_stop_fails() {
    let mut bench = Bench::new();
    bench.write_rule("demo-proc", Domain::User);
    add_adhoc_instance(&mut bench.state, 4321, SELF, Domain::User);
    bench.fail_stop.insert(4321);
    let result = bench.clean_all(service().clean_all(Domain::User));

    assert!(result.is_err());
    assert_eq!(bench.rules.rules.len(), 1);
    assert_eq!(bench.state.instances.len(), 1);
    assert_eq!(bench.state.instances[0].cpulimit_pid, 4321);
    assert!(bench.removed.is_empty());
}

#[test]
fn clean_all_reports_agent_remove_failure() {
    let mut bench = Bench::new();
    bench.write_rule("demo-proc", Domain::User);
    bench.fail_remove = true;
    let result = bench.clean_all(service().clean_all(Domain::User));

    assert!(result.is_err());
    assert_eq!(bench.rules.rules.len(), 1);
    assert_eq!(bench.rules.rules[0].name, "demo-proc");
}

#[test]
fn clean_all_counts_left_over_jobs() {
    let mut bench = Bench::new();
    bench.write_rule("demo-proc", Domain::User);
    bench.left_over = 2;
    assert_eq!(bench.clean_all(service().clean_all(Domain::User)).expect("clean all"), (3, 0));
    bench.fail_clean = true;
    assert_eq!(
        bench.clean_all(service().clean_all(Domain::User)).unwrap_err().message(),
        "stuck"
    );
}

#[test]
fn clean_forgets_what_was_stopped_and_reports_the_rest() {
    let mut bench = Bench::new();
    add_adhoc_instance(&mut bench.state, 1, SELF, Domain::User);
    add_adhoc_instance(&mut bench.state, 2, SELF, Domain::User);
    add_adhoc_instance(&mut bench.state, 3, SELF, Domain::User);
    bench.fail_stop.insert(2);
    let error = bench.clean(service().clean_managed_only(Domain::User)).unwrap_err();
    assert_eq!(error.message(), "failed to stop managed cpulimit instance(s): 2");
    let left: Vec<u32> = bench.state.instances.iter().map(|i| i.cpulimit_pid).collect();
    assert_eq!(left, vec![2]);
    bench.fail_stop.clear();
    assert_eq!(bench.clean(service().clean_managed_only(Domain::User)).expect("clean"), 1);
    assert_eq!(bench.clean(service().clean_managed_only(Domain::User)).expect("clean"), 0);
}

#[test]
fn clean_spares_what_no_label_confirms() {
    let mut bench = Bench::new();
    bench.record_watch(7001, "own", Domain::User);
    for (pid, label) in [(7002, "com.example.agent"), (7003, "com.cpuguard")] {
        let mut foreign = bench.state.instances[0].clone();
        foreign.cpulimit_pid = pid;
        foreign.owner_label = Some(label.to_string());
        bench.state.instances.push(foreign);
    }
    let op = service().clean_all(Domain::User);
    assert_eq!(bench.clean_all(op).expect("clean"), (0, 1));
    assert_eq!(bench.stopped, vec![7001]);
    let left: Vec<u32> = bench.state.instances.iter().map(|i| i.cpulimit_pid).collect();
    assert_eq!(left, vec![7002, 7003]);

    let op = service().clean_managed_only(Domain::User);
    assert_eq!(bench.clean(op).expect("nothing to clean"), 0);
    assert_eq!(bench.state.instances.len(), 2);
}

#[test]
fn clean_leaves_a_contested_limiter_alone() {
    let mut bench = Bench::new();
    bench.record_watch(7001, "own", Domain::User);
    let mut foreign = bench.state.instances[0].clone();
    foreign.owner_label = Some("com.example.agent".to_string());
    bench.state.instances.push(foreign);
    let op = service().clean_managed_only(Domain::User);
    assert_eq!(bench.clean(op).expect("nothing to clean"), 0);
    assert!(bench.stopped.is_empty());
    assert_eq!(bench.state.instances.len(), 2);
}

#[test]
fn operations_that_cannot_write_the_rules_leave_them() {
    let refuse = |request: &Request| matches!(request, Request::SaveRules(_));
    let mut bench = Bench::new();
    bench.write_rule("demo", Domain::User);
    let mut op = service().unwatch("demo", Domain::User);
    while let Some(request) = op.request() {
        let refused = refuse(&request);
        let reply = if refused { Reply::Failed("disk full".to_string()) } else { bench.serve(request) };
        op = op.answer(reply);
    }
    assert_eq!(op.finish().expect("over").unwrap_err().message(), "disk full");
    assert_eq!(bench.rules.rules.len(), 1);

    let mut op = watch_of("other", None);
    while let Some(request) = op.request() {
        let refused = refuse(&request);
        let reply = if refused { Reply::Failed("disk full".to_string()) } else { bench.serve(request) };
        op = op.answer(reply);
    }
    assert!(op.finish().expect("over").is_err());
    assert_eq!(bench.rules.rules.len(), 1);
    assert!(bench.ensured.is_empty());
}

#[test]
fn watch_conflict_cleanup_respects_args_contains() {
    let mut bench = Bench::new();
    add_adhoc_instance(&mut bench.state, 4321, SELF, Domain::User);
    bench
        .watch(watch_of(SELF_NAME, Some("definitely-not-in-current-test-args")))
        .expect("watch");

    assert!(bench.stopped.is_empty());
    assert_eq!(bench.state.instances.len(), 1);
    assert_eq!(bench.state.instances[0].cpulimit_pid, 4321);
}

#[test]
fn watch_replaces_a_matching_one_time_limiter() {
    let mut bench = Bench::new();
    add_adhoc_instance(&mut bench.state, 4321, SELF, Domain::User);
    bench.watch(watch_of(SELF_NAME, Some("--quiet"))).expect("watch");
    assert_eq!(bench.stopped, vec![4321]);
    assert!(bench.state.instances.is_empty());
}

#[test]
fn watch_fails_if_matching_managed_adhoc_cannot_be_stopped() {
    let mut bench = Bench::new();
    add_adhoc_instance(&mut bench.state, 4321, SELF, Domain::User);
    bench.fail_stop.insert(4321);
    let result = bench.watch(watch_of(SELF_NAME, None));

    assert!(result.is_err());
    assert_eq!(
        result.unwrap_err().message(),
        "stop managed ad-hoc cpulimit 4321: injected stop failure for 4321"
    );
    assert_eq!(bench.state.instances.len(), 1);
    assert_eq!(bench.state.instances[0].cpulimit_pid, 4321);
    assert!(bench.rules.rules.is_empty());
}

#[test]
fn watch_fails_if_matching_managed_adhoc_cannot_be_forgotten() {
    let mut bench = Bench::new();
    add_adhoc_instance(&mut bench.state, 4321, SELF, Domain::User);
    bench.fail_save_state = true;
    let error = bench.watch(watch_of(SELF_NAME, None)).unwrap_err();
    assert_eq!(error.message(), "remove managed ad-hoc state 4321: disk full");
    assert!(bench.rules.rules.is_empty());
}

#[test]
fn watch_refuses_several_matching_one_time_limiters() {
    let mut bench = Bench::new();
    add_adhoc_instance(&mut bench.state, 4321, SELF, Domain::User);
    add_adhoc_instance(&mut bench.state, 4322, SELF, Domain::User);
    let error = bench.watch(watch_of(SELF_NAME, None)).unwrap_err();
    assert_eq!(
        error.message(),
        "multiple managed ad-hoc cpulimit instances match service_test. \
         run clean or stop them first"
    );
    assert!(bench.rules.rules.is_empty() && bench.stopped.is_empty());
}

#[test]
fn watch_does_not_treat_other_domain_managed_adhoc_as_external_conflict() {
    let mut bench = Bench::new();
    add_adhoc_instance(&mut bench.state, 4321, SELF, Domain::System);
    bench.listing = Some(format!("4321 cpulimit -p {SELF} -l 20\n"));
    bench.watch(watch_of(SELF_NAME, None)).expect("watch");

    assert!(bench.stopped.is_empty());
    assert_eq!(bench.state.instances.len(), 1);
    assert_eq!(bench.state.instances[0].domain, Domain::System);
}

#[test]
fn watch_refuses_a_limiter_of_someone_else() {
    let mut bench = Bench::new();
    bench.listing = Some(format!("77 cpulimit -p 1\n78 /x/cpulimit -p {SELF} -l 20\n"));
    let error = bench.watch(watch_of(SELF_NAME, None)).unwrap_err();
    assert_eq!(
        error.message(),
        "external cpulimit conflict detected for service_test. stop it first or use --once"
    );
    assert!(bench.rules.rules.is_empty());
    bench.watch(watch_of(SELF_NAME, Some("--loud"))).expect("another command line");
    bench.listing = None;
    bench.watch(watch_of(SELF_NAME, None)).expect("no listing");
}

#[test]
fn suspects_are_limited_by_someone_else() {
    let listing = "7 cpulimit -p 100\n8 cpulimit -p 200\n9 grep cpulimit -p x -p 300\nx cpulimit -p 4\n";
    assert_eq!(find_suspects(listing, &vec![7]), vec![200]);
}

#[test]
fn a_conflict_is_found_by_name_and_command_line() {
    let listing = "10 /bin/cpulimit -p 20 -l 5\n11 cpulimit -p 21\n12 cpulimit -p 22\n";
    let needle = Some("--x".to_string());
    let mut survey = has_external_adhoc_conflict("demo", &needle, &vec![11], listing);
    assert_eq!(survey.probes, vec![Probe::Ask(20), Probe::Ask(22)]);
    survey.answer(Reply::Text(Some("demo".to_string())));
    survey.answer(Reply::Text(Some("demo --y".to_string())));
    survey.answer(Reply::Text(Some("demo".to_string())));
    survey.answer(Reply::Text(Some("demo --x".to_string())));
    assert_eq!(survey.verdicts, vec![false, true]);
}

#[test]
fn a_reply_that_was_not_asked_for_is_an_error() {
    let op = service().limit_once(1, 20, Domain::User).answer(Reply::Count(1));
    let error = op.finish().expect("over").unwrap_err();
    assert!(matches!(error, ServiceError::UnexpectedReply));
    assert_eq!(error.message(), "unexpected reply");
}

#[test]
fn a_survey_asks_only_what_it_has_to() {
    let probes = vec![Probe::Known(true), Probe::Ask(1), Probe::Known(false), Probe::Ask(2)];
    let mut survey = Survey::begin("demo".to_string(), Some("--x".to_string()), probes);
    assert!(matches!(survey.request(), Some(Request::NameOf(1))));
    survey.answer(Reply::Text(Some("demo".to_string())));
    assert!(matches!(survey.request(), Some(Request::ArgsOf(1))));
    survey.answer(Reply::Text(Some("demo --xyz".to_string())));
    assert!(matches!(survey.request(), Some(Request::NameOf(2))));
    survey.answer(Reply::Failed("gone".to_string()));
    assert!(survey.done() && survey.request().is_none());
    assert_eq!(survey.verdicts, vec![true, true, false, false]);
}

#[test]
fn operations_end_whatever_they_are_told() {
    let rules = || {
        let mut rules = RulesFile::default();
        upsert_rule(&mut rules, update("demo", 20, Domain::User));
        Reply::Rules(rules)
    };
    let state = || Reply::State(StateFile::default());
    for kind in 0..4 {
        let told = || match kind {
            0 => Reply::Done,
            1 => Reply::Text(None),
            2 => rules(),
            _ => state(),
        };
        let mut watch = watch_of("demo", None);
        let mut unwatch = service().unwatch("demo", Domain::User);
        let mut limit = service().limit_once(1, 20, Domain::User);
        let mut clean = service().clean_all(Domain::User);
        let mut rounds = 0;
        while watch.request().is_some()
            || unwatch.request().is_some()
            || limit.request().is_some()
            || clean.request().is_some()
        {
            watch = watch.answer(told());
            unwatch = unwatch.answer(told());
            limit = limit.answer(told());
            clean = clean.answer(told());
            rounds += 1;
        }
        assert!(rounds <= 13);
    }
}
