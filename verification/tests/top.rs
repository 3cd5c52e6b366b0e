use cpuguard::cli::output::fit_col;
use cpuguard::cli::session::{pick_pid_from_live_top, TopReply, TopRequest, TopSession};
use cpuguard::cli::top::{
    batch_question, batch_report, cancel_text, choice_index, current_snapshot_name_matches,
    decide_next, kill_question, kill_report, limited_target_pids, parse_prefixed_choice,
    read_answer, refresh_interval, top_header, top_prompt, top_row, Answer, Heard, Refusal,
    TopAction,
};
use cpuguard::clock::{Moment, Timestamp};
use cpuguard::cpu::CpuPercent;
use cpuguard::infra::process_snapshot::ProcessEntry;
use cpuguard::model::{Domain, ManagedInstance, ManagedMode, ManagedTarget};

fn load(value: f32) -> CpuPercent {
    CpuPercent { bits: value.to_bits() }
}

fn sample_entry(pid: u32, name: &str) -> ProcessEntry {
    ProcessEntry {
        pid,
        ppid: 1,
        name: name.to_string(),
        cpu: load(80.0),
        elapsed_secs: 3600,
    }
}

fn sample_list() -> Vec<ProcessEntry> {
    vec![
        sample_entry(101, "/Users/demo/bin/codex"),
        sample_entry(102, "/Users/demo/bin/codex"),
        sample_entry(103, "/Users/demo/bin/codex-helper"),
        sample_entry(104, "/usr/libexec/syspolicyd"),
    ]
}

fn heard(line: &str) -> Heard {
    Heard::Line(line.to_string())
}

#[test]
fn parse_prefixed_choice_supports_uppercase_and_spaces() {
    assert_eq!(parse_prefixed_choice("x3", 'x'), Some(3));
    assert_eq!(parse_prefixed_choice("X 12", 'x'), Some(12));
    assert_eq!(parse_prefixed_choice("k7", 'k'), Some(7));
    assert_eq!(parse_prefixed_choice("z1", 'x'), None);
}

#[test]
fn choice_index_rejects_out_of_range_values() {
    assert_eq!(choice_index(1, 3), Some(0));
    assert_eq!(choice_index(3, 3), Some(2));
    assert_eq!(choice_index(0, 3), None);
    assert_eq!(choice_index(4, 3), None);
}

#[test]
fn current_snapshot_name_matches_use_exact_name() {
    let pids = current_snapshot_name_matches(&sample_list(), "/Users/demo/bin/codex");
    assert_eq!(pids, vec![101, 102]);
}

#[test]
fn top_prompt_hides_kill_commands_by_default() {
    let prompt = top_prompt(5, false);
    assert!(!prompt.contains("k<序号>"));
    assert!(!prompt.contains("x<序号>"));
    assert!(prompt.contains("--allow-kill"));
    assert!(prompt.starts_with("每5秒自动刷新"));

    let kill_prompt = top_prompt(5, true);
    assert!(kill_prompt.contains("k<序号>"));
    assert!(kill_prompt.contains("x<序号>"));
}

#[test]
fn limited_target_pids_includes_running_managed_pid_targets() {
    let instance = |id: &str, mode: ManagedMode, pid: u32| ManagedInstance {
        id: id.to_string(),
        mode,
        cpulimit_pid: 7000 + pid,
        target: ManagedTarget::Pid(pid),
        rule_name: None,
        limit: None,
        last_observed_cpu: None,
        domain: Domain::User,
        started_at: Timestamp { at: Moment { secs: 0, nanos: 0 }, offset_secs: 0 },
        owner_label: None,
    };
    let mut by_name = instance("by_name", ManagedMode::Watch, 104);
    by_name.target = ManagedTarget::Name("demo".to_string());
    let instances = vec![
        instance("watch_running", ManagedMode::Watch, 101),
        instance("adhoc_running", ManagedMode::Adhoc, 102),
        instance("watch_stale", ManagedMode::Watch, 103),
        by_name,
    ];
    let pids = limited_target_pids(&instances, &vec![true, true, false, true]);
    assert!(pids.contains(&101));
    assert!(pids.contains(&102));
    assert!(!pids.contains(&103));
    assert!(!pids.contains(&104));
}

#[test]
fn input_is_understood() {
    let list = sample_list();
    let risky = vec![true, false, false, false];
    let ask = |line: &str, allow: bool| decide_next(&heard(line), &list, &risky, allow);
    assert!(matches!(ask(" Q \n", false), TopAction::Quit));
    assert!(matches!(ask("\n", false), TopAction::Refresh));
    assert!(matches!(ask("2\n", false), TopAction::Pick(102)));
    assert!(matches!(ask("5\n", false), TopAction::Refresh));
    assert!(matches!(ask("0\n", false), TopAction::Refresh));
    assert!(matches!(ask("what\n", false), TopAction::Refresh));
    assert!(matches!(ask("k1", false), TopAction::Refuse(Refusal::NotAllowed)));
    assert!(matches!(ask("X1", false), TopAction::Refuse(Refusal::NotAllowed)));
    assert!(matches!(ask("k1", true), TopAction::ConfirmKill(0)));
    assert!(matches!(ask("k2", true), TopAction::Refuse(Refusal::NotRisky)));
    assert!(matches!(ask("k9", true), TopAction::Refuse(Refusal::OutOfRange)));
    assert!(matches!(ask("x0", true), TopAction::Refuse(Refusal::OutOfRange)));
    assert!(matches!(ask("x4", true), TopAction::Refuse(Refusal::Protected)));
    match ask("x1", true) {
        TopAction::ConfirmBatch(0, pids) => assert_eq!(pids, vec![101, 102]),
        other => panic!("{other:?}"),
    }
    assert!(matches!(decide_next(&Heard::Nothing, &list, &risky, true), TopAction::Refresh));
    assert!(matches!(decide_next(&Heard::End, &list, &risky, true), TopAction::Quit));
}

#[test]
fn only_yes_is_yes() {
    assert_eq!(read_answer(&heard(" Y\n")), Answer::Yes);
    assert_eq!(read_answer(&heard("yes\n")), Answer::No);
    assert_eq!(read_answer(&Heard::Nothing), Answer::Missing);
    assert_eq!(cancel_text(Answer::No), "已取消");
    assert_eq!(cancel_text(Answer::Missing), "确认超时，已取消");
}

#[test]
fn refusals_have_their_texts() {
    assert_eq!(Refusal::NotAllowed.message(), "终止命令需要显式传入 --allow-kill");
    assert_eq!(Refusal::OutOfRange.message(), "序号超出范围");
    assert_eq!(Refusal::NotRisky.message(), "该进程未被标记为高风险，无法通过 k 命令终止");
    assert_eq!(Refusal::Protected.message(), "系统进程不允许通过 x 命令批量终止");
}

#[test]
fn questions_and_reports_have_their_texts() {
    assert_eq!(kill_question("node", 7), "确认终止进程 node (PID 7)? [y/N]: ");
    assert_eq!(kill_report("node", 7, &None), "已发送 SIGTERM 到进程 node (PID 7)");
    assert_eq!(kill_report("node", 7, &Some("no".to_string())), "终止失败: no");
    assert_eq!(
        batch_question("node", &vec![7, 8]),
        "确认终止当前列表中 NAME 相同的 2 个进程 \"node\"? PIDs: 7, 8 [y/N]: "
    );
    assert_eq!(batch_report(&vec![7, 8], &vec![None, None]), "已发送 SIGTERM 到 2 个进程");
    assert_eq!(
        batch_report(
            &vec![7, 8, 9],
            &vec![Some("a".to_string()), None, Some("b".to_string())]
        ),
        "已发送 SIGTERM 到 1 个进程，失败 2 个: PID 7: a; PID 9: b"
    );
}

#[test]
fn columns_are_padded_and_cut() {
    assert_eq!(fit_col("abc", 5), "abc  ");
    assert_eq!(fit_col("abcde", 5), "abcde");
    assert_eq!(fit_col("abcdef", 5), "ab...");
    assert_eq!(fit_col("abcdef", 3), "...");
    assert_eq!(fit_col("abcdef", 2), "..");
    assert_eq!(fit_col("abc", 0), "");
    assert_eq!(fit_col("序号", 4), "序号  ");
}

#[test]
fn the_list_has_its_columns() {
    assert_eq!(top_header(), "#     PID       CPU      LIMITED   RISK      NAME");
    let entry = sample_entry(101, "node");
    assert_eq!(
        top_row(1, &entry, "80.0", true, false),
        "1     101       80.0     YES                 node"
    );
    assert_eq!(
        top_row(12, &entry, "80.0", false, true),
        "12    101       80.0               \x1B[33mHIGH\x1B[0m  node"
    );
}

#[test]
fn the_list_is_shown_at_most_every_second() {
    assert_eq!(refresh_interval(0), 1);
    assert_eq!(refresh_interval(5), 5);
}

/// A session in front of the sample list: the signals it sends, what it tells, and its result.
struct Seat {
    allow_kill: bool,
    lines: Vec<&'static str>,
    lists: usize,
    marked: usize,
    fail: Option<u32>,
    signals: Vec<u32>,
    told: Vec<String>,
    questions: Vec<String>,
}

impl Seat {
    fn new(allow_kill: bool, lines: Vec<&'static str>) -> Seat {
        Seat {
            allow_kill,
            lines,
            lists: 0,
            marked: 0,
            fail: None,
            signals: vec![],
            told: vec![],
            questions: vec![],
        }
    }

    fn hear(&mut self) -> TopReply {
        if self.lines.is_empty() {
            return TopReply::Heard(Heard::End);
        }
        match self.lines.remove(0) {
            "-" => TopReply::Heard(Heard::Nothing),
            line => TopReply::Heard(heard(line)),
        }
    }

    fn serve(&mut self, request: TopRequest) -> TopReply {
        match request {
            TopRequest::List(count) => {
                self.lists += 1;
                TopReply::Processes(sample_list().into_iter().take(count).collect())
            }
            TopRequest::Instances => {
                self.marked += 1;
                TopReply::Instances(vec![], vec![])
            }
            TopRequest::Show { lines, secs, .. } => {
                assert_eq!((lines[0].number, lines[0].entry.pid, secs), (1, 101, 1));
                assert!(lines[0].risky && !lines[3].risky && !lines[0].limited);
                self.hear()
            }
            TopRequest::Ask { question, secs } => {
                assert_eq!(secs, 30);
                self.questions.push(question);
                self.hear()
            }
            TopRequest::Terminate(pid) => {
                self.signals.push(pid);
                TopReply::Ended(self.fail.filter(|p| *p == pid).map(|_| "no leave".to_string()))
            }
            TopRequest::Tell(text) => {
                self.told.push(text);
                TopReply::Told
            }
        }
    }

    fn sit(&mut self, count: usize) -> Result<Option<u32>, String> {
        let mut op: TopSession = pick_pid_from_live_top(count, 0, load(50.0), self.allow_kill);
        while let Some(request) = op.request() {
            let reply = self.serve(request);
            op = op.answer(reply);
        }
        op.finish().expect("over")
    }
}

#[test]
fn a_session_picks_by_number() {
    assert_eq!(Seat::new(false, vec!["-", "", "9", "0", "what", " 2 \n"]).sit(10), Ok(Some(102)));
    assert_eq!(Seat::new(false, vec!["q"]).sit(10), Ok(None));
    assert_eq!(Seat::new(false, vec![" Q\n"]).sit(10), Ok(None));
    assert_eq!(Seat::new(false, vec![]).sit(10), Ok(None));
    assert_eq!(Seat::new(false, vec!["1"]).sit(0), Ok(None));
}

#[test]
fn a_session_reads_the_list_once() {
    let mut seat = Seat::new(true, vec!["-", "", "9", "k4", "k1", "n", "x1", "y", "2"]);
    assert_eq!(seat.sit(10), Ok(Some(102)));
    assert_eq!(seat.lists, 1);
    assert_eq!(seat.marked, 7);
    let mut seat = Seat::new(false, vec!["1"]);
    assert_eq!(seat.sit(0), Ok(None));
    assert_eq!((seat.lists, seat.marked), (1, 0));
}

#[test]
fn a_session_ends_processes_only_after_a_yes() {
    let mut seat = Seat::new(true, vec!["k1", "n", "k1", "-", "k2", "Y", "q"]);
    assert_eq!(seat.sit(10), Ok(None));
    assert_eq!(seat.signals, vec![102]);
    assert_eq!(seat.questions.len(), 3);
    assert_eq!(
        seat.told,
        vec!["已取消", "确认超时，已取消", "已发送 SIGTERM 到进程 /Users/demo/bin/codex (PID 102)"]
    );

    let mut seat = Seat::new(true, vec!["x1", "y"]);
    seat.fail = Some(102);
    assert_eq!(seat.sit(10), Ok(None));
    assert_eq!(seat.signals, vec![101, 102]);
    assert_eq!(seat.told, vec!["已发送 SIGTERM 到 1 个进程，失败 1 个: PID 102: no leave"]);

    let mut seat = Seat::new(true, vec!["k4", "x4", "k9"]);
    assert_eq!(seat.sit(10), Ok(None));
    assert!(seat.signals.is_empty() && seat.questions.is_empty());
    assert_eq!(seat.told.len(), 3);

    let mut seat = Seat::new(false, vec!["k1", "y", "x1", "y"]);
    assert_eq!(seat.sit(10), Ok(None));
    assert!(seat.signals.is_empty() && seat.questions.is_empty());
}

#[test]
fn a_session_marks_limited_processes() {
    let op = pick_pid_from_live_top(10, 5, load(50.0), false);
    let op = op.answer(TopReply::Processes(sample_list()));
    let instance = ManagedInstance {
        id: "ins_1".to_string(),
        mode: ManagedMode::Watch,
        cpulimit_pid: 7,
        target: ManagedTarget::Pid(102),
        rule_name: None,
        limit: None,
        last_observed_cpu: None,
        domain: Domain::User,
        started_at: Timestamp { at: Moment { secs: 0, nanos: 0 }, offset_secs: 0 },
        owner_label: None,
    };
    let op = op.answer(TopReply::Instances(vec![instance], vec![true]));
    match op.request() {
        Some(TopRequest::Show { lines, prompt, secs }) => {
            let marks: Vec<bool> = lines.iter().map(|line| line.limited).collect();
            assert_eq!(marks, vec![false, true, false, false]);
            assert_eq!((prompt, secs), (top_prompt(5, false), 5));
        }
        other => panic!("{other:?}"),
    }
}

#[test]
fn a_session_ends_with_its_error() {
    let begin = || pick_pid_from_live_top(10, 5, load(50.0), false);
    let failed = begin().answer(TopReply::Failed("no ps".to_string()));
    assert_eq!(failed.finish(), Some(Err("no ps".to_string())));
    let wrong = begin().answer(TopReply::Told);
    assert_eq!(wrong.finish(), Some(Err("unexpected reply".to_string())));
    let listed = begin().answer(TopReply::Processes(sample_list()));
    let wrong = listed.answer(TopReply::Instances(vec![], vec![true]));
    assert_eq!(wrong.finish(), Some(Err("unexpected reply".to_string())));
}
