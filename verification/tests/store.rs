use cpuguard::clock::{instance_number_of, Moment, Timestamp, MAX_SECS, MIN_SECS};
use cpuguard::cpu::CpuPercent;
use cpuguard::model::{
    Domain, ManagedInstance, ManagedMode, ManagedTarget, RulesFile, StateFile,
};
use cpuguard::store::{
    add_adhoc_instance, add_adhoc_instance_at, add_watch_instance, add_watch_instance_at,
    clear_all_instances, list_adhoc_instances_by_target_name, load_rules, load_state,
    remove_instance_by_pid, remove_rule, remove_rules_by_domain, update_instance_cpu, upsert_rule,
    upsert_rule_at, RuleUpdate, WatchInstanceUpdate,
};

fn load(value: f32) -> CpuPercent {
    CpuPercent { bits: value.to_bits() }
}

fn at(secs: i64, nanos: u32) -> Timestamp {
    Timestamp { at: Moment { secs, nanos }, offset_secs: 0 }
}

fn update(name: &str, limit: u16, domain: Domain) -> RuleUpdate {
    RuleUpdate {
        name: name.to_string(),
        limit,
        trigger_cpu: load(25.0),
        release_cpu: load(8.0),
        args_contains: None,
        domain,
    }
}

fn watch(cpulimit_pid: u32, target_pid: u32, domain: Domain) -> WatchInstanceUpdate<'static> {
    WatchInstanceUpdate {
        cpulimit_pid,
        target_pid,
        rule_name: "demo",
        limit: 20,
        last_observed_cpu: load(30.0),
        domain,
        owner_label: "com.cpuguard.agent",
    }
}

#[test]
fn missing_files_hold_nothing() {
    assert_eq!(load_rules(None).version, 2);
    assert!(load_rules(None).rules.is_empty());
    assert_eq!(load_state(None).version, 2);
    assert!(load_state(None).instances.is_empty());
    assert_eq!(load_state(Some(StateFile { version: 1, instances: vec![] })).version, 1);
}

#[test]
fn a_rule_is_written_and_rewritten() {
    let mut rules = RulesFile { version: 1, rules: vec![] };
    let first = upsert_rule_at(&mut rules, update("a", 20, Domain::User), at(10, 0));
    assert_eq!(first.created_at, at(10, 0));
    upsert_rule_at(&mut rules, update("b", 20, Domain::User), at(11, 0));
    let again = RuleUpdate { args_contains: Some("x".to_string()), ..update("a", 30, Domain::User) };
    let second = upsert_rule_at(&mut rules, again, at(12, 0));
    assert_eq!(second.created_at, at(10, 0));
    assert_eq!(second.updated_at, at(12, 0));
    assert_eq!(second.limit, 30);
    assert_eq!(second.args_contains.as_deref(), Some("x"));
    assert_eq!(rules.version, 2);
    assert_eq!(rules.rules.len(), 2);
    assert_eq!(rules.rules[0].limit, 30);
    assert_eq!(rules.rules[1].name, "b");
}

#[test]
fn a_rule_is_dated_now() {
    let mut rules = RulesFile::default();
    let before = chrono::Local::now();
    let rule = upsert_rule(&mut rules, update("a", 20, Domain::User));
    let after = chrono::Local::now();
    assert!((before.timestamp()..=after.timestamp()).contains(&rule.created_at.at.secs));
    assert_eq!(rule.created_at.offset_secs, after.offset().local_minus_utc());
    assert_eq!(rule.created_at, rule.updated_at);
    assert!(rule.created_at.offset_secs.abs() < 86_400);
}

#[test]
fn rules_are_removed_in_their_domain() {
    let mut rules = RulesFile::default();
    for domain in [Domain::User, Domain::System] {
        upsert_rule(&mut rules, update("a", 20, domain));
        upsert_rule(&mut rules, update("b", 20, domain));
    }
    assert!(remove_rule(&mut rules, "a", Domain::User));
    assert!(!remove_rule(&mut rules, "a", Domain::User));
    assert_eq!(rules.rules.len(), 3);
    assert_eq!(remove_rules_by_domain(&mut rules, Domain::System), 2);
    assert_eq!(rules.rules.len(), 1);
    assert_eq!(rules.rules[0].name, "b");
}

#[test]
fn removal_undoes_a_new_rule() {
    let mut rules = RulesFile::default();
    upsert_rule(&mut rules, update("a", 20, Domain::User));
    let names = |r: &RulesFile| r.rules.iter().map(|x| x.name.clone()).collect::<Vec<_>>();
    let before = names(&rules);
    upsert_rule(&mut rules, update("b", 20, Domain::User));
    assert!(remove_rule(&mut rules, "b", Domain::User));
    assert_eq!(names(&rules), before);
}

#[test]
fn instances_are_named_by_the_time() {
    let mut state = StateFile { version: 1, instances: vec![] };
    add_adhoc_instance_at(&mut state, 7, 100, Domain::User, at(2, 5), at(3, 0));
    let i = &state.instances[0];
    assert_eq!(i.id, "ins_2000000005");
    assert_eq!(i.started_at, at(3, 0));
    assert_eq!(i.mode, ManagedMode::Adhoc);
    assert_eq!((i.rule_name.as_deref(), i.owner_label.as_deref()), (None, None));
    assert_eq!(state.version, 2);
    add_adhoc_instance(&mut state, 8, 100, Domain::User);
    assert!(state.instances[1].id.starts_with("ins_1"));
    assert!(state.instances[1].id.len() >= 20);
}

#[test]
fn instance_numbers_are_nanoseconds_without_sign() {
    assert_eq!(instance_number_of(Moment { secs: 1, nanos: 7 }), 1_000_000_007);
    assert_eq!(instance_number_of(Moment { secs: -1, nanos: 7 }), 999_999_993);
    assert_eq!(instance_number_of(Moment { secs: MAX_SECS, nanos: 0 }), 0);
    assert_eq!(instance_number_of(Moment { secs: MIN_SECS, nanos: 0 }), 0);
    assert_eq!(
        instance_number_of(Moment { secs: -9_223_372_037, nanos: 145_224_192 }),
        9_223_372_036_854_775_808
    );
    assert_eq!(
        instance_number_of(Moment { secs: 9_223_372_036, nanos: 854_775_808 }),
        0
    );
}

#[test]
fn a_watch_replaces_the_one_on_its_target() {
    let mut state = StateFile::default();
    add_watch_instance(&mut state, watch(1, 100, Domain::User));
    add_watch_instance(&mut state, watch(2, 100, Domain::System));
    add_adhoc_instance(&mut state, 3, 100, Domain::User);
    add_watch_instance_at(&mut state, watch(4, 100, Domain::User), at(5, 6), at(7, 8));
    let pids: Vec<u32> = state.instances.iter().map(|i| i.cpulimit_pid).collect();
    assert_eq!(pids, vec![2, 3, 4]);
    let last = &state.instances[2];
    assert_eq!(last.id, "ins_5000000006");
    assert_eq!(last.rule_name.as_deref(), Some("demo"));
    assert_eq!(last.last_observed_cpu, Some(load(30.0)));
}

#[test]
fn loads_are_recorded_and_limiters_forgotten() {
    let mut state = StateFile { version: 1, instances: vec![] };
    assert!(!update_instance_cpu(&mut state, 1, load(1.0)));
    assert_eq!(state.version, 1);
    add_watch_instance(&mut state, watch(1, 100, Domain::User));
    assert!(update_instance_cpu(&mut state, 1, load(1.0)));
    assert_eq!(state.instances[0].last_observed_cpu, Some(load(1.0)));
    assert!(!remove_instance_by_pid(&mut state, 2));
    assert!(remove_instance_by_pid(&mut state, 1));
    assert!(state.instances.is_empty());
}

#[test]
fn everything_is_forgotten() {
    let mut state = StateFile { version: 1, instances: vec![] };
    add_watch_instance(&mut state, watch(1, 100, Domain::User));
    add_watch_instance(&mut state, watch(2, 101, Domain::System));
    assert_eq!(clear_all_instances(&mut state), 2);
    assert!(state.instances.is_empty());
    assert_eq!(state.version, 2);
}

#[test]
fn one_time_limiters_are_found_by_the_name_of_their_target() {
    let mut state = StateFile::default();
    add_adhoc_instance(&mut state, 1, 100, Domain::User);
    add_watch_instance(&mut state, watch(2, 101, Domain::User));
    state.instances.push(ManagedInstance {
        id: "x".to_string(),
        mode: ManagedMode::Adhoc,
        cpulimit_pid: 3,
        target: ManagedTarget::Name("node".to_string()),
        rule_name: None,
        limit: None,
        last_observed_cpu: None,
        domain: Domain::System,
        started_at: at(0, 0),
        owner_label: None,
    });
    let names = vec![Some("node".to_string()), Some("node".to_string()), None];
    let found = list_adhoc_instances_by_target_name(&state, &names, "node");
    let pids: Vec<u32> = found.iter().map(|i| i.cpulimit_pid).collect();
    assert_eq!(pids, vec![1, 3]);
    assert!(list_adhoc_instances_by_target_name(&state, &names, "java").is_empty());
}
