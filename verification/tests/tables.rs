use cpuguard::app::plan::CommandLine;
use cpuguard::cli::run::{
    after_pick, agent_message, check, clean_message, limit_message, picked_message,
    unwatch_message, watch_message, Command, TopChoice,
};
use cpuguard::cli::status::{
    domain_instances, no_instances_text, status_header, status_row, target_description, Found,
};
use cpuguard::cli::validate::{validate_cpu_threshold, validate_limit, validate_thresholds};
use cpuguard::cli::watches::{
    agent_rows, domain_rules, first_matching_pid_for_rule, has_running_instance,
    launchd_status_text, no_rules_text, running_watch_rule_key, watch_header,
    watch_hint_for_owner, watch_row, Sign,
};
use cpuguard::clock::{Moment, Timestamp};
use cpuguard::cpu::CpuPercent;
use cpuguard::infra::process_snapshot::ProcessEntry;
use cpuguard::model::{
    default_release_cpu, default_trigger_cpu, Domain, ManagedInstance, ManagedMode, ManagedTarget,
    Rule,
};

fn load(value: f32) -> CpuPercent {
    CpuPercent { bits: value.to_bits() }
}

fn stamp() -> Timestamp {
    Timestamp { at: Moment { secs: 1_770_000_000, nanos: 0 }, offset_secs: 28_800 }
}

fn rule(name: &str, domain: Domain) -> Rule {
    Rule {
        name: name.to_string(),
        limit: 21,
        trigger_cpu: default_trigger_cpu(),
        release_cpu: default_release_cpu(),
        args_contains: None,
        domain,
        created_at: stamp(),
        updated_at: stamp(),
    }
}

fn instance(id: &str, target: ManagedTarget, rule_name: Option<&str>) -> ManagedInstance {
    ManagedInstance {
        id: id.to_string(),
        mode: ManagedMode::Watch,
        cpulimit_pid: 4321,
        target,
        rule_name: rule_name.map(|n| n.to_string()),
        limit: None,
        last_observed_cpu: None,
        domain: Domain::User,
        started_at: stamp(),
        owner_label: None,
    }
}

#[test]
fn watch_hint_suggests_system_domain_for_other_owner() {
    assert_eq!(
        watch_hint_for_owner(Domain::User, "loaded", true, false, Some("root"), Some("demo")),
        "use --domain system"
    );
    assert_eq!(
        watch_hint_for_owner(Domain::User, "loaded", true, true, Some("root"), Some("demo")),
        ""
    );
    assert_eq!(
        watch_hint_for_owner(Domain::System, "loaded", true, false, Some("root"), Some("demo")),
        ""
    );
}

#[test]
fn no_hint_without_a_foreign_target() {
    let hint = |status: &str, exists: bool, owner: Option<&str>, user: Option<&str>| {
        watch_hint_for_owner(Domain::User, status, exists, false, owner, user)
    };
    assert_eq!(hint("missing", true, Some("root"), Some("demo")), "");
    assert_eq!(hint("loaded", false, Some("root"), Some("demo")), "");
    assert_eq!(hint("loaded", true, Some("demo"), Some("demo")), "");
    assert_eq!(hint("loaded", true, None, Some("demo")), "");
    assert_eq!(hint("loaded", true, Some("root"), None), "");
}

#[test]
fn watches_are_shown_as_a_table() {
    let header = watch_header();
    assert!(header.contains("NAME"));
    assert!(header.contains("LAUNCHD"));
    let row = watch_row(&rule("definitely_not_running_proc_123", Domain::User), None, None, "");
    assert_eq!(
        row,
        format!(
            "{:<28}  {:<8}  {:<8}  {:<10}  {:<22}  {:<20}",
            "definitely_not_running_pr...", "21%", "user", "skipped", "waiting", ""
        )
    );
    let row = watch_row(&rule("node", Domain::System), Some(true), Some(77), "hint");
    assert!(row.contains("PID 77") && row.contains("loaded") && row.contains("hint"));
    assert_eq!(launchd_status_text(Some(false)), "missing");
    assert_eq!(no_rules_text(), "no watch rules");
}

#[test]
fn only_rules_of_the_domain_are_shown() {
    let rules = vec![rule("a", Domain::User), rule("b", Domain::System), rule("c", Domain::User)];
    let names: Vec<String> =
        domain_rules(&rules, Domain::User).iter().map(|r| r.name.clone()).collect();
    assert_eq!(names, vec!["a", "c"]);
}

#[test]
fn a_limiter_belongs_to_its_rule() {
    let named = instance("1", ManagedTarget::Pid(7), Some("demo"));
    assert_eq!(running_watch_rule_key(&named, &None).unwrap().name, "demo");
    let legacy = instance("2", ManagedTarget::Pid(7), None);
    assert!(running_watch_rule_key(&legacy, &None).is_none());
    assert_eq!(running_watch_rule_key(&legacy, &Some("node".to_string())).unwrap().name, "node");
    let by_name = instance("3", ManagedTarget::Name("java".to_string()), None);
    assert_eq!(running_watch_rule_key(&by_name, &None).unwrap().name, "java");

    let sign = |alive: bool| Sign { alive, target_name: None };
    let demo = rule("demo", Domain::User);
    let instances = vec![named];
    assert!(has_running_instance(&instances, &vec![sign(true)], &demo));
    assert!(!has_running_instance(&instances, &vec![sign(false)], &demo));
    assert!(!has_running_instance(&instances, &vec![sign(true)], &rule("demo", Domain::System)));
}

#[test]
fn a_target_is_found_by_name_or_command_line() {
    let plain = rule("java", Domain::User);
    assert_eq!(first_matching_pid_for_rule(&plain, Some(5), &vec![], &vec![]), Some(5));
    let mut narrow = rule("java", Domain::User);
    narrow.args_contains = Some("b.jar".to_string());
    let entry = |pid: u32| ProcessEntry {
        pid,
        ppid: 1,
        name: "/usr/bin/java".to_string(),
        cpu: load(1.0),
        elapsed_secs: 1,
    };
    let lines = vec![
        CommandLine { pid: 1, args: Some("java a.jar".to_string()) },
        CommandLine { pid: 2, args: Some("java b.jar".to_string()) },
    ];
    let snapshot = vec![entry(1), entry(2), entry(3)];
    assert_eq!(first_matching_pid_for_rule(&narrow, Some(5), &snapshot, &lines), Some(2));
    assert_eq!(first_matching_pid_for_rule(&narrow, Some(5), &snapshot, &vec![]), None);
}

#[test]
fn limited_processes_are_shown_as_a_table() {
    assert!(status_header().contains("CPULIMIT"));
    let mut shown = instance("ins_test", ManagedTarget::Pid(4321), None);
    shown.mode = ManagedMode::Adhoc;
    let found = Found { name: Some("demo".to_string()), pid: None };
    assert_eq!(
        status_row(&shown, &found, &None, true),
        format!(
            "{:<16}  {:<8}  {:<24}  {:<8}  {:<10}  {:<42}  {:<8}  {:<8}",
            "ins_test", "user", "-", "adhoc", "4321", "PID 4321 demo", "-", "running"
        )
    );
    let row = status_row(&shown, &found, &Some("12.3".to_string()), false);
    assert!(row.contains("12.3") && row.contains("stale"));
    assert_eq!(no_instances_text(), "no managed instances");
    assert_eq!(domain_instances(&vec![shown], Domain::System).len(), 0);
}

#[test]
fn targets_are_described() {
    let none = Found { name: None, pid: None };
    let both = Found { name: Some("node".to_string()), pid: Some(9) };
    let by_pid = ManagedTarget::Pid(7);
    let by_name = ManagedTarget::Name("java".to_string());
    assert_eq!(target_description(&by_pid, &both), "PID 7 node");
    assert_eq!(target_description(&by_pid, &none), "PID 7 (exited)");
    assert_eq!(target_description(&by_name, &both), "PID 9 java");
    assert_eq!(target_description(&by_name, &none), "java (waiting)");
}

#[test]
fn the_agent_is_shown() {
    let (head, row) = agent_rows(Domain::System, Some(true));
    assert_eq!(head, "DOMAIN    LAUNCHD   ");
    assert_eq!(row, "system    loaded    ");
}

#[test]
fn limits_and_thresholds_have_a_range() {
    assert!(validate_limit(1).is_ok() && validate_limit(1200).is_ok());
    assert_eq!(validate_limit(0), Err("limit must be between 1 and 1200".to_string()));
    assert!(validate_limit(1201).is_err());
    for good in [0.0f32, -0.0, 25.0, 1200.0] {
        assert!(validate_cpu_threshold("risk-cpu", load(good)).is_ok());
    }
    for bad in [-0.1f32, 1200.1, f32::NAN, f32::INFINITY, f32::NEG_INFINITY] {
        assert_eq!(
            validate_cpu_threshold("risk-cpu", load(bad)),
            Err("risk-cpu must be between 0 and 1200".to_string())
        );
    }
    assert!(validate_thresholds(load(25.0), load(25.0)).is_ok());
    assert_eq!(
        validate_thresholds(load(8.0), load(25.0)),
        Err("release-cpu must be less than or equal to trigger-cpu".to_string())
    );
    assert_eq!(
        validate_thresholds(load(-1.0), load(25.0)),
        Err("trigger-cpu must be between 0 and 1200".to_string())
    );
    assert_eq!(
        validate_thresholds(load(8.0), load(f32::NAN)),
        Err("release-cpu must be between 0 and 1200".to_string())
    );
    assert_eq!(default_trigger_cpu(), load(25.0));
    assert_eq!(default_release_cpu(), load(8.0));
}

#[test]
fn commands_are_checked() {
    let watch = |limit: u16, release: f32| Command::Watch {
        name: "demo".to_string(),
        limit,
        trigger_cpu: load(25.0),
        release_cpu: load(release),
        args_contains: None,
    };
    assert!(check(&watch(20, 8.0)).is_ok());
    assert_eq!(check(&watch(0, 80.0)), Err("limit must be between 1 and 1200".to_string()));
    assert!(check(&watch(20, 80.0)).is_err());
    let top = |limit: u16, risk: f32| Command::Top {
        limit,
        count: 10,
        refresh: 5,
        once: false,
        pid: None,
        risk_cpu: load(risk),
        allow_kill: false,
    };
    assert!(check(&top(20, 50.0)).is_ok());
    assert_eq!(check(&top(20, -5.0)), Err("risk-cpu must be between 0 and 1200".to_string()));
    assert!(check(&top(1300, 50.0)).is_err());
    assert_eq!(check(&Command::Clean { yes: false }), Err("clean requires --yes".to_string()));
    assert!(check(&Command::Clean { yes: true }).is_ok());
    assert!(check(&Command::Dashboard).is_ok());
}

#[test]
fn results_are_told() {
    assert_eq!(
        watch_message(&rule("demo", Domain::User), "25.0", "8.0"),
        "watch active: demo 21% trigger=25.0 release=8.0 (user)"
    );
    assert_eq!(unwatch_message("demo", true), "watch removed: demo");
    assert_eq!(unwatch_message("demo", false), "watch not found: demo");
    assert_eq!(limit_message(7, 8), "one-shot limit started: target=7 cpulimit_pid=8");
    assert_eq!(picked_message("demo", 33), "top default action applied as watch: demo 33%");
    assert_eq!(clean_message(1, 2), "cleaned watch rules: 1, managed instances: 2");
    assert_eq!(agent_message("x"), "agent active: x");
}

#[test]
fn a_picked_process_is_watched_by_default() {
    match after_pick(false, 42, 30, Some("demo".to_string())).expect("named") {
        TopChoice::Watch { name, limit, trigger_cpu, release_cpu, args_contains } => {
            assert_eq!((name.as_str(), limit, args_contains), ("demo", 30, None));
            assert_eq!((trigger_cpu, release_cpu), (load(25.0), load(8.0)));
        }
        other => panic!("{other:?}"),
    }
    assert_eq!(after_pick(false, 42, 30, None).unwrap_err(), "target process not found");
    for name in [None, Some("demo".to_string())] {
        assert!(matches!(
            after_pick(true, 42, 30, name),
            Ok(TopChoice::LimitOnce { target_pid: 42, limit: 30 })
        ));
    }
}
