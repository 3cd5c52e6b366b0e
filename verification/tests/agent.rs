use std::collections::{HashSet, VecDeque};

use cpuguard::app::agent::{
    backoff_deadline, Agent, AgentRuntime, AgentTickActivity, AGENT_LABEL,
};
use cpuguard::app::limiters::{
    cpulimit_pids_by_target, cpulimit_pids_for_target_from_ps, duplicates,
    parse_cpulimit_process_line, stop_cpulimit_pids,
};
use cpuguard::app::plan::{command_lines_wanted, CommandLine};
use cpuguard::app::tick::{Tick, TickReply, TickRequest};
use cpuguard::clock::{Moment, Timestamp, MAX_SECS};
use cpuguard::cpu::CpuPercent;
use cpuguard::infra::command::CommandReply;
use cpuguard::infra::process_snapshot::ProcessEntry;
use cpuguard::model::{
    default_release_cpu, default_trigger_cpu, Domain, ManagedInstance, ManagedMode, ManagedTarget,
    Rule, StateFile,
};
use cpuguard::store::{add_watch_instance, WatchInstanceUpdate};

const LIMITER: u32 = 7001;

fn load(value: f32) -> CpuPercent {
    CpuPercent { bits: value.to_bits() }
}

fn stamp() -> Timestamp {
    Timestamp { at: Moment { secs: 1_770_000_000, nanos: 5 }, offset_secs: 0 }
}

fn rule(name: &str) -> Rule {
    Rule {
        name: name.to_string(),
        limit: 20,
        trigger_cpu: default_trigger_cpu(),
        release_cpu: default_release_cpu(),
        args_contains: None,
        domain: Domain::User,
        created_at: stamp(),
        updated_at: stamp(),
    }
}

fn rule_in_domain(name: &str, domain: Domain) -> Rule {
    Rule { domain, ..rule(name) }
}

fn entry(pid: u32, name: &str, cpu: f32) -> ProcessEntry {
    ProcessEntry { pid, ppid: 1, name: name.to_string(), cpu: load(cpu), elapsed_secs: 60 }
}

struct Bench {
    state: StateFile,
    started: Vec<(u32, u16)>,
    stopped: Vec<u32>,
    next_pids: VecDeque<u32>,
    alive: HashSet<u32>,
    fail_start: HashSet<u32>,
    fail_stop: HashSet<u32>,
    fail_remember: bool,
    ps: Option<CommandReply>,
    lines: Vec<CommandLine>,
    now: Moment,
    warnings: Vec<String>,
}

impl Bench {
    fn new() -> Bench {
        Bench {
            state: StateFile::default(),
            started: vec![],
            stopped: vec![],
            next_pids: VecDeque::new(),
            alive: HashSet::from([LIMITER]),
            fail_start: HashSet::new(),
            fail_stop: HashSet::new(),
            fail_remember: false,
            ps: None,
            lines: vec![],
            now: Moment { secs: 1_770_000_000, nanos: 0 },
            warnings: vec![],
        }
    }

    fn with_next_pids(pids: Vec<u32>) -> Bench {
        Bench { next_pids: VecDeque::from(pids), ..Bench::new() }
    }

    fn record(&mut self, cpulimit_pid: u32, target_pid: u32, rule_name: &str, domain: Domain) {
        add_watch_instance(
            &mut self.state,
            WatchInstanceUpdate {
                cpulimit_pid,
                target_pid,
                rule_name,
                limit: 20,
                last_observed_cpu: load(30.0),
                domain,
                owner_label: AGENT_LABEL,
            },
        );
    }

    fn serve(&mut self, agent: &Agent, request: &TickRequest) -> TickReply {
        match request {
            TickRequest::Probe { cpulimit_pid } => {
                if self.alive.contains(cpulimit_pid) {
                    TickReply::Done
                } else {
                    TickReply::Failed
                }
            }
            TickRequest::Stop { cpulimit_pid } => {
                if self.fail_stop.contains(cpulimit_pid) {
                    TickReply::Failed
                } else {
                    self.stopped.push(*cpulimit_pid);
                    TickReply::Done
                }
            }
            TickRequest::Start { target_pid, limit } => {
                if self.fail_start.contains(target_pid) {
                    TickReply::Failed
                } else {
                    self.started.push((*target_pid, *limit));
                    TickReply::Started(self.next_pids.pop_front().unwrap_or(9999))
                }
            }
            TickRequest::Remember { .. } if self.fail_remember => TickReply::Failed,
            _ => {
                agent.enter(&mut self.state, request);
                TickReply::Done
            }
        }
    }

    fn run(&mut self, agent: &Agent, mut tick: Tick) -> (AgentRuntime, AgentTickActivity) {
        while let Some(request) = tick.request() {
            let reply = self.serve(agent, &request);
            tick.answer(reply);
        }
        for w in tick.warnings() {
            self.warnings.push(w.clone());
        }
        tick.finish()
    }

    fn tick(
        &mut self,
        runtime: AgentRuntime,
        rules: &Vec<Rule>,
        snapshot: &Vec<ProcessEntry>,
    ) -> (AgentRuntime, AgentTickActivity) {
        let agent = Agent { domain: Domain::User };
        let deadline = Moment { secs: self.now.secs + 60, nanos: self.now.nanos };
        let tick = agent.tick_with_snapshot_at(
            runtime,
            rules,
            snapshot,
            &self.state,
            &self.ps,
            &self.lines,
            self.now,
            deadline,
        );
        self.run(&agent, tick)
    }
}

#[test]
fn hot_matching_pid_starts_cpulimit_and_records_state() {
    let mut bench = Bench::with_next_pids(vec![4321]);
    let rules = vec![rule("ztsmedr")];
    let snapshot = vec![entry(100, "/Applications/foo/ztsmedr", 80.0)];
    let (runtime, _) = bench.tick(AgentRuntime::new(), &rules, &snapshot);
    assert!(bench.started.is_empty());
    let (_, activity) = bench.tick(runtime, &rules, &snapshot);

    assert_eq!(activity, AgentTickActivity::Hot);
    assert_eq!(bench.started, vec![(100, 20)]);
    assert_eq!(bench.state.instances.len(), 1);
    assert_eq!(bench.state.instances[0].rule_name.as_deref(), Some("ztsmedr"));
    assert_eq!(bench.state.instances[0].cpulimit_pid, 4321);
    assert_eq!(bench.state.instances[0].limit, Some(20));
    assert_eq!(bench.state.instances[0].owner_label.as_deref(), Some("com.cpuguard.agent"));
}

#[test]
fn a_tick_reads_the_clock() {
    let mut bench = Bench::with_next_pids(vec![4321]);
    let agent = Agent { domain: Domain::User };
    let rules = vec![rule("ztsmedr")];
    let snapshot = vec![entry(100, "ztsmedr", 80.0)];
    bench.fail_start.insert(100);
    let before = chrono::Local::now().timestamp();
    let mut runtime = AgentRuntime::new();
    for _ in 0..2 {
        let tick = agent
            .tick_with_snapshot(runtime, &rules, &snapshot, &bench.state, &None, &vec![])
            .expect("the calendar goes on");
        runtime = bench.run(&agent, tick).0;
    }
    let until = runtime.recall(100).backoff_until.expect("left alone");
    let after = chrono::Local::now().timestamp();
    assert!((before + 60..=after + 60).contains(&until.secs));
}

#[test]
fn failing_targets_are_left_alone_for_a_minute() {
    let at = |secs: i64, nanos: u32| Moment { secs, nanos };
    assert_eq!(backoff_deadline(at(100, 5)), Some(at(160, 5)));
    assert_eq!(backoff_deadline(at(-30, 7)), Some(at(30, 7)));
    assert_eq!(backoff_deadline(at(59, 1_500_000_000)), Some(at(119, 500_000_000)));
    assert_eq!(backoff_deadline(at(MAX_SECS - 60, 0)), Some(at(MAX_SECS, 0)));
    assert_eq!(backoff_deadline(at(MAX_SECS - 59, 0)), None);
}

#[test]
fn there_is_no_tick_where_the_calendar_ends() {
    let agent = Agent { domain: Domain::User };
    let state = StateFile::default();
    let begin = |secs: i64| {
        let now = Moment { secs, nanos: 0 };
        agent.begin_tick_at(AgentRuntime::new(), &vec![], &vec![], &state, &None, &vec![], now)
    };
    assert!(begin(0).expect("a tick").request().is_none());
    assert!(begin(MAX_SECS - 60).is_ok());
    assert!(begin(MAX_SECS - 59).is_err());
}

#[test]
fn a_target_whose_limiter_died_is_left_alone_over_several_ticks() {
    let mut bench = Bench::with_next_pids(vec![4321]);
    bench.record(7777, 100, "ztsmedr", Domain::User);
    let rules = vec![rule("ztsmedr")];
    let snapshot = vec![entry(100, "ztsmedr", 80.0)];
    let (mut runtime, _) = bench.tick(AgentRuntime::new(), &rules, &snapshot);
    assert!(bench.state.instances.is_empty());
    assert!(runtime.recall(100).backoff_until.is_some());
    for (secs, there) in [(10, true), (20, false), (29, true)] {
        bench.now.secs += secs;
        let seen = if there { vec![entry(100, "ztsmedr", 80.0)] } else { vec![] };
        runtime = bench.tick(runtime, &rules, &seen).0;
    }
    assert!(bench.started.is_empty());
    bench.now.secs += 1;
    runtime = bench.tick(runtime, &rules, &snapshot).0;
    bench.tick(runtime, &rules, &snapshot);
    assert_eq!(bench.started, vec![(100, 20)]);
}

#[test]
fn a_failed_target_is_left_alone_over_several_ticks() {
    let mut bench = Bench::with_next_pids(vec![4321]);
    bench.fail_start.insert(100);
    let rules = vec![rule("ztsmedr")];
    let snapshot = vec![entry(100, "ztsmedr", 80.0)];
    let (runtime, _) = bench.tick(AgentRuntime::new(), &rules, &snapshot);
    let (mut runtime, _) = bench.tick(runtime, &rules, &snapshot);
    assert!(runtime.recall(100).backoff_until.is_some());
    bench.fail_start.clear();
    for (secs, there) in [(10, true), (20, false), (29, true)] {
        bench.now.secs += secs;
        let seen = if there { vec![entry(100, "ztsmedr", 80.0)] } else { vec![] };
        runtime = bench.tick(runtime, &rules, &seen).0;
    }
    assert!(bench.started.is_empty());
    bench.now.secs += 1;
    runtime = bench.tick(runtime, &rules, &snapshot).0;
    bench.tick(runtime, &rules, &snapshot);
    assert_eq!(bench.started, vec![(100, 20)]);
}

#[test]
fn cold_limited_pid_is_stopped_after_required_samples() {
    let mut bench = Bench::new();
    bench.record(LIMITER, 100, "ztsmedr", Domain::User);
    let rules = vec![rule("ztsmedr")];
    let snapshot = vec![entry(100, "ztsmedr", 0.5)];
    let (runtime, first) = bench.tick(AgentRuntime::new(), &rules, &snapshot);
    assert!(bench.stopped.is_empty());
    assert_eq!(first, AgentTickActivity::Idle);
    assert_eq!(bench.state.instances[0].last_observed_cpu, Some(load(0.5)));
    bench.tick(runtime, &rules, &snapshot);

    assert_eq!(bench.stopped, vec![LIMITER]);
    assert!(bench.state.instances.is_empty());
}

#[test]
fn cold_limited_pid_keeps_state_when_stop_fails() {
    let mut bench = Bench::new();
    bench.record(LIMITER, 100, "ztsmedr", Domain::User);
    bench.fail_stop.insert(LIMITER);
    let rules = vec![rule("ztsmedr")];
    let snapshot = vec![entry(100, "ztsmedr", 0.5)];
    let mut runtime = AgentRuntime::new();
    for _ in 0..2 {
        runtime = bench.tick(runtime, &rules, &snapshot).0;
    }

    assert_eq!(bench.state.instances.len(), 1);
    assert_eq!(bench.state.instances[0].cpulimit_pid, LIMITER);
}

#[test]
fn agent_ignores_rules_from_other_domain() {
    let mut bench = Bench::with_next_pids(vec![4321]);
    let rules = vec![rule_in_domain("ztsmedr", Domain::System)];
    let snapshot = vec![entry(100, "ztsmedr", 80.0)];
    let (_, activity) = bench.tick(AgentRuntime::new(), &rules, &snapshot);

    assert_eq!(activity, AgentTickActivity::Idle);
    assert!(bench.started.is_empty());
    assert!(bench.state.instances.is_empty());
}

#[test]
fn agent_ignores_instances_from_other_domain() {
    let mut bench = Bench::new();
    bench.record(LIMITER, 100, "ztsmedr", Domain::System);
    bench.tick(AgentRuntime::new(), &vec![], &vec![]);

    assert!(bench.stopped.is_empty());
    assert_eq!(bench.state.instances.len(), 1);
    assert_eq!(bench.state.instances[0].domain, Domain::System);
}

#[test]
fn legacy_watch_instance_without_rule_name_uses_target_rule_match() {
    let mut bench = Bench::new();
    bench.state = StateFile {
        version: 1,
        instances: vec![ManagedInstance {
            id: "legacy_watch".to_string(),
            mode: ManagedMode::Watch,
            cpulimit_pid: LIMITER,
            target: ManagedTarget::Pid(100),
            rule_name: None,
            limit: None,
            last_observed_cpu: Some(load(30.0)),
            domain: Domain::User,
            started_at: stamp(),
            owner_label: Some(AGENT_LABEL.to_string()),
        }],
    };
    bench.tick(AgentRuntime::new(), &vec![rule("ztsmedr")], &vec![entry(100, "ztsmedr", 80.0)]);

    assert!(bench.stopped.is_empty());
    assert_eq!(bench.state.instances.len(), 1);
    assert_eq!(bench.state.instances[0].rule_name, None);
}

#[test]
fn target_start_failure_does_not_abort_other_rules() {
    let mut bench = Bench::with_next_pids(vec![4321]);
    bench.fail_start.insert(100);
    let rules = vec![rule("bad-target"), rule("good-target")];
    let snapshot = vec![entry(100, "bad-target", 80.0), entry(200, "good-target", 80.0)];
    let (runtime, _) = bench.tick(AgentRuntime::new(), &rules, &snapshot);
    let (_, activity) = bench.tick(runtime, &rules, &snapshot);

    assert_eq!(activity, AgentTickActivity::Hot);
    assert_eq!(bench.started, vec![(200, 20)]);
    assert_eq!(bench.state.instances.len(), 1);
    assert_eq!(bench.state.instances[0].rule_name.as_deref(), Some("good-target"));
}

#[test]
fn existing_instance_is_stopped_when_rule_selector_no_longer_matches() {
    let mut bench = Bench::new();
    bench.record(LIMITER, 100, "iOABiz", Domain::User);
    let mut narrowed_rule = rule("iOABiz");
    narrowed_rule.args_contains = Some("NGNAuditXPCClient".to_string());
    bench.tick(
        AgentRuntime::new(),
        &vec![narrowed_rule],
        &vec![entry(100, "/Applications/iOA/iOABiz", 80.0)],
    );

    assert_eq!(bench.stopped, vec![LIMITER]);
    assert!(bench.state.instances.is_empty());
}

#[test]
fn parses_cpulimit_targets_from_ps_output() {
    let ps_output = r#"
13178 /opt/homebrew/bin/cpulimit -p 21495 -l 20 -i
21878 /opt/homebrew/bin/cpulimit -p 21243 -l 20 -i
38719 /opt/homebrew/bin/cpulimit -p 21243 -l 20 -i
50000 /bin/zsh -lc grep cpulimit
"#;

    let matches = cpulimit_pids_for_target_from_ps(ps_output, 21243);
    assert_eq!(matches, vec![21878, 38719]);
}

#[test]
fn parse_cpulimit_process_line_ignores_non_cpulimit_commands() {
    assert_eq!(
        parse_cpulimit_process_line("50000 /bin/zsh -lc grep cpulimit -p 21243"),
        None
    );
    assert_eq!(
        parse_cpulimit_process_line("21878 /opt/homebrew/bin/cpulimit -p 21243 -l 20 -i"),
        Some((21878, 21243))
    );
}

#[test]
fn a_limiter_line_may_name_its_target_late() {
    assert_eq!(parse_cpulimit_process_line("7 cpulimit -p nobody -p 12"), Some((7, 12)));
    assert_eq!(parse_cpulimit_process_line("7 cpulimit -l 20 -p"), None);
    assert_eq!(parse_cpulimit_process_line("x cpulimit -p 12"), None);
    assert_eq!(parse_cpulimit_process_line(""), None);
}

#[test]
fn stop_cpulimit_pids_reports_partial_failure() {
    let result = stop_cpulimit_pids(&vec![111, 222], &vec![true, false]);
    assert!(result.is_err());
    assert_eq!(
        result,
        Err("failed to stop duplicate cpulimit instance(s): 222".to_string())
    );
    assert_eq!(stop_cpulimit_pids(&vec![111, 222], &vec![true, true]), Ok(2));
}

#[test]
fn failed_listing_shows_no_limiters() {
    let reply = CommandReply {
        success: false,
        stdout: "7 cpulimit -p 12".to_string(),
        stderr: String::new(),
    };
    assert!(cpulimit_pids_by_target(&Some(reply)).is_empty());
    assert!(cpulimit_pids_by_target(&None).is_empty());
}

#[test]
fn recorded_limiters_are_no_duplicates() {
    assert_eq!(duplicates(&vec![1, 2, 3, 4], 2, &vec![3]), vec![1, 4]);
}

fn listing(text: &str) -> Option<CommandReply> {
    Some(CommandReply { success: true, stdout: text.to_string(), stderr: String::new() })
}

#[test]
fn duplicates_of_a_recorded_limiter_are_stopped() {
    let mut bench = Bench::new();
    bench.record(LIMITER, 100, "demo", Domain::User);
    bench.ps = listing("7001 cpulimit -p 100 -l 20\n7002 /x/cpulimit -p 100 -l 5\n");
    bench.tick(AgentRuntime::new(), &vec![rule("demo")], &vec![entry(100, "demo", 80.0)]);
    assert_eq!(bench.stopped, vec![7002]);
    assert_eq!(bench.state.instances.len(), 1);
}

#[test]
fn a_duplicate_that_stays_leaves_a_warning() {
    let mut bench = Bench::new();
    bench.record(LIMITER, 100, "demo", Domain::User);
    bench.ps = listing("7002 /x/cpulimit -p 100 -l 5\n7003 cpulimit -p 100\n");
    bench.fail_stop.insert(7002);
    bench.tick(AgentRuntime::new(), &vec![rule("demo")], &vec![entry(100, "demo", 80.0)]);
    assert_eq!(bench.stopped, vec![7003]);
    assert_eq!(
        bench.warnings,
        vec![
            "cpuguard agent duplicate cleanup failed for PID 100: \
             failed to stop duplicate cpulimit instance(s): 7002"
                .to_string()
        ]
    );
    assert_eq!(bench.state.instances[0].last_observed_cpu, Some(load(30.0)));
}

#[test]
fn a_lost_limiter_is_forgotten_and_its_target_left_alone() {
    let mut bench = Bench::with_next_pids(vec![4321]);
    bench.record(7005, 100, "demo", Domain::User);
    bench.ps = listing("7006 cpulimit -p 100\n");
    let rules = vec![rule("demo")];
    let snapshot = vec![entry(100, "demo", 80.0)];
    let (runtime, _) = bench.tick(AgentRuntime::new(), &rules, &snapshot);
    assert_eq!(bench.stopped, vec![7006]);
    assert!(bench.state.instances.is_empty());
    let until = Moment { secs: bench.now.secs + 60, nanos: 0 };
    assert_eq!(runtime.recall(100).backoff_until, Some(until));

    bench.ps = None;
    let mut runtime = runtime;
    for _ in 0..3 {
        bench.now.secs += 19;
        runtime = bench.tick(runtime, &rules, &snapshot).0;
        assert!(bench.started.is_empty());
    }
    for _ in 0..2 {
        bench.now.secs += 19;
        runtime = bench.tick(runtime, &rules, &snapshot).0;
    }
    assert_eq!(bench.started, vec![(100, 20)]);
}

#[test]
fn a_limiter_without_target_or_rule_is_stopped() {
    let mut bench = Bench::new();
    bench.record(LIMITER, 100, "demo", Domain::User);
    bench.tick(AgentRuntime::new(), &vec![rule("demo")], &vec![]);
    assert_eq!(bench.stopped, vec![LIMITER]);
    assert!(bench.state.instances.is_empty());

    bench.record(LIMITER, 100, "demo", Domain::User);
    bench.fail_stop.insert(LIMITER);
    bench.tick(AgentRuntime::new(), &vec![], &vec![entry(100, "demo", 80.0)]);
    assert_eq!(bench.state.instances.len(), 1);
}

#[test]
fn a_limiter_that_cannot_be_recorded_is_stopped_again() {
    let mut bench = Bench::with_next_pids(vec![4321]);
    bench.fail_remember = true;
    let rules = vec![rule("demo")];
    let snapshot = vec![entry(100, "demo", 80.0)];
    let (runtime, _) = bench.tick(AgentRuntime::new(), &rules, &snapshot);
    let (runtime, _) = bench.tick(runtime, &rules, &snapshot);
    assert_eq!(bench.started, vec![(100, 20)]);
    assert_eq!(bench.stopped, vec![4321]);
    assert_eq!(runtime.recall(100).hot_samples, 0);
    assert!(runtime.recall(100).backoff_until.is_some());
}

#[test]
fn the_agent_keeps_at_most_eight_limiters() {
    let mut bench = Bench::new();
    let rules: Vec<Rule> = vec![rule("demo")];
    let snapshot: Vec<ProcessEntry> = (1..=10).map(|pid| entry(pid, "demo", 80.0)).collect();
    let (runtime, _) = bench.tick(AgentRuntime::new(), &rules, &snapshot);
    bench.tick(runtime, &rules, &snapshot);
    assert_eq!(bench.started.len(), 8);
}

#[test]
fn a_foreign_limiter_keeps_the_agent_away() {
    let mut bench = Bench::new();
    bench.ps = listing("9 cpulimit -p 100\n");
    let rules = vec![rule("demo")];
    let snapshot = vec![entry(100, "demo", 80.0)];
    let (runtime, _) = bench.tick(AgentRuntime::new(), &rules, &snapshot);
    let (_, activity) = bench.tick(runtime, &rules, &snapshot);
    assert!(bench.started.is_empty());
    assert_eq!(activity, AgentTickActivity::Hot);
}

#[test]
fn a_cool_sample_starts_the_count_anew() {
    let mut bench = Bench::new();
    let rules = vec![rule("demo")];
    let hot = vec![entry(100, "demo", 25.0)];
    let cool = vec![entry(100, "demo", 24.9)];
    let (runtime, _) = bench.tick(AgentRuntime::new(), &rules, &hot);
    assert_eq!(runtime.recall(100).hot_samples, 1);
    let (runtime, activity) = bench.tick(runtime, &rules, &cool);
    assert_eq!(activity, AgentTickActivity::Idle);
    let (runtime, _) = bench.tick(runtime, &rules, &hot);
    assert!(bench.started.is_empty());
    bench.tick(runtime, &rules, &hot);
    assert_eq!(bench.started, vec![(100, 20)]);
}

#[test]
fn processes_that_are_gone_are_forgotten() {
    let mut bench = Bench::new();
    let rules = vec![rule("demo")];
    let (runtime, _) = bench.tick(AgentRuntime::new(), &rules, &vec![entry(100, "demo", 80.0)]);
    assert_eq!(runtime.recall(100).hot_samples, 1);
    let (runtime, _) = bench.tick(runtime, &rules, &vec![]);
    assert_eq!(runtime.recall(100).hot_samples, 0);
}

#[test]
fn a_rule_may_ask_for_a_command_line() {
    let mut wanted = rule("java");
    wanted.args_contains = Some("server.jar".to_string());
    let rules = vec![wanted, rule("node")];
    let snapshot = vec![
        entry(1, "/usr/bin/java", 80.0),
        entry(2, "/usr/bin/java", 80.0),
        entry(3, "node", 80.0),
    ];
    assert_eq!(command_lines_wanted(&rules, Domain::User, &snapshot), vec![1, 2]);
    assert!(command_lines_wanted(&rules, Domain::System, &snapshot).is_empty());

    let mut bench = Bench::new();
    bench.lines = vec![
        CommandLine { pid: 1, args: Some("java -jar client.jar".to_string()) },
        CommandLine { pid: 2, args: Some("java -jar server.jar".to_string()) },
    ];
    let (runtime, _) = bench.tick(AgentRuntime::new(), &rules, &snapshot);
    bench.tick(runtime, &rules, &snapshot);
    assert_eq!(bench.started, vec![(2, 20), (3, 20)]);
}

#[test]
fn the_agent_looks_more_often_when_it_is_hot() {
    assert_eq!(AgentTickActivity::Idle.next_sleep(), 30);
    assert_eq!(AgentTickActivity::Hot.next_sleep(), 5);
}
