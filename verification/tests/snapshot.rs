use cpuguard::cpu::CpuPercent;
use cpuguard::infra::command::{
    args_query, command_lines_query, loads_query, name_query, owner_query, printed_text,
    stat_query, terminate_args, CommandReply,
};
use cpuguard::infra::process_snapshot::{
    all_processes, is_parsable_etime, is_parsable_line, is_parsable_snapshot,
    is_protected_system_process, is_suspicious_orphan, load_text, load_texts, parse_etime,
    parse_ps_line, process_args, process_name, top_processes, ProcessEntry,
};
use cpuguard::infra::runtime::{exact_name_query, first_pid_by_name, kill_process, process_alive};

fn load(value: f32) -> CpuPercent {
    CpuPercent { bits: value.to_bits() }
}

fn read_load(text: Option<String>) -> Option<CpuPercent> {
    text.and_then(|t| t.parse::<f32>().ok()).map(load)
}

fn read_line(line: &str) -> Option<ProcessEntry> {
    let cpu = read_load(load_text(line));
    assert!(is_parsable_line(line, cpu));
    parse_ps_line(line, cpu)
}

fn suspicious(entry: &ProcessEntry, cpu_threshold: f32, elapsed: u64) -> bool {
    is_suspicious_orphan(entry, load(cpu_threshold), elapsed)
}

fn sample(pid: u32, ppid: u32, name: &str, cpu: f32, elapsed_secs: u64) -> ProcessEntry {
    ProcessEntry { pid, ppid, name: name.to_string(), cpu: load(cpu), elapsed_secs }
}

fn reply(success: bool, stdout: &str) -> CommandReply {
    CommandReply { success, stdout: stdout.to_string(), stderr: String::new() }
}

#[test]
fn parse_etime_minutes_seconds() {
    assert_eq!(parse_etime("01:23"), Some(83));
    assert_eq!(parse_etime("00:00"), Some(0));
    assert_eq!(parse_etime("59:59"), Some(3599));
}

#[test]
fn parse_etime_hours_minutes_seconds() {
    assert_eq!(parse_etime("02:01:23"), Some(7283));
    assert_eq!(parse_etime("00:00:01"), Some(1));
    assert_eq!(parse_etime("23:59:59"), Some(86399));
}

#[test]
fn parse_etime_days() {
    assert_eq!(parse_etime("1-02:01:23"), Some(93683));
    assert_eq!(parse_etime("0-00:00"), Some(0));
    assert_eq!(parse_etime("7-00:00:00"), Some(604800));
}

#[test]
fn parse_etime_invalid() {
    assert_eq!(parse_etime(""), None);
    assert_eq!(parse_etime("abc"), None);
    assert_eq!(parse_etime("1:2:3:4"), None);
}

#[test]
fn an_elapsed_time_may_be_too_long_to_count() {
    assert!(is_parsable_etime("7-00:00:00"));
    assert!(is_parsable_etime("abc"));
    assert!(!is_parsable_etime("18446744073709551615-00:00:00"));
}

#[test]
fn parse_ps_line_valid() {
    let line = "  1234    1  99.5     02:30 node";
    let entry = read_line(line).unwrap();
    assert_eq!(entry.pid, 1234);
    assert_eq!(entry.ppid, 1);
    assert!((f32::from_bits(entry.cpu.bits) - 99.5).abs() < 0.01);
    assert_eq!(entry.elapsed_secs, 150);
    assert_eq!(entry.name, "node");
}

#[test]
fn parse_ps_line_with_spaces_in_name() {
    let line = "  5678    100  12.3     1-00:00:00 Google Chrome Helper";
    let entry = read_line(line).unwrap();
    assert_eq!(entry.pid, 5678);
    assert_eq!(entry.ppid, 100);
    assert_eq!(entry.elapsed_secs, 86400);
    assert_eq!(entry.name, "Google Chrome Helper");
}

#[test]
fn broken_lines_are_no_processes() {
    assert!(read_line("x 1 1.0 00:01 node").is_none());
    assert!(read_line("1 1 busy 00:01 node").is_none());
    assert!(read_line("1 1 1.0 soon node").is_none());
    assert!(read_line("1 1 1.0").is_none());
    assert_eq!(read_line("1 1 1.0 00:01").unwrap().name, "");
}

#[test]
fn suspicious_orphan_all_conditions_met() {
    assert!(suspicious(&sample(1234, 1, "node", 100.0, 3600), 50.0, 1800));
}

#[test]
fn suspicious_orphan_ppid_not_1() {
    assert!(!suspicious(&sample(1234, 500, "node", 100.0, 3600), 50.0, 1800));
}

#[test]
fn suspicious_orphan_cpu_below_threshold() {
    assert!(!suspicious(&sample(1234, 1, "node", 49.9, 3600), 50.0, 1800));
}

#[test]
fn suspicious_orphan_cpu_at_threshold() {
    assert!(suspicious(&sample(1234, 1, "node", 50.0, 3600), 50.0, 1800));
}

#[test]
fn suspicious_orphan_elapsed_below_threshold() {
    assert!(!suspicious(&sample(1234, 1, "node", 100.0, 1799), 50.0, 1800));
}

#[test]
fn suspicious_orphan_system_process_excluded() {
    assert!(!suspicious(&sample(1234, 1, "WindowServer", 100.0, 3600), 50.0, 1800));
}

#[test]
fn suspicious_orphan_system_process_full_path_excluded() {
    let entry = sample(
        164,
        1,
        "/System/Library/PrivateFrameworks/SkyLight.framework/Resources/WindowServer",
        100.0,
        86400,
    );
    assert!(!suspicious(&entry, 50.0, 1800));
}

#[test]
fn suspicious_orphan_system_path_excluded() {
    let entry = sample(
        5000,
        1,
        "/System/Library/Frameworks/SomeNew.framework/SomeNewDaemon",
        100.0,
        7200,
    );
    assert!(!suspicious(&entry, 50.0, 1800));
}

#[test]
fn suspicious_orphan_usr_libexec_excluded() {
    let entry = sample(6000, 1, "/usr/libexec/some_daemon", 80.0, 7200);
    assert!(!suspicious(&entry, 50.0, 1800));
}

#[test]
fn protected_system_process_matches_known_name_and_system_path() {
    assert!(is_protected_system_process("WindowServer"));
    assert!(is_protected_system_process("/usr/libexec/syspolicyd"));
    assert!(!is_protected_system_process("/Users/demo/bin/codex"));
}

#[test]
fn suspicious_orphan_user_app_not_excluded() {
    let entry = sample(
        7000,
        1,
        "/Applications/SomeApp.app/Contents/MacOS/SomeApp",
        100.0,
        7200,
    );
    assert!(suspicious(&entry, 50.0, 1800));
}

#[test]
fn the_busiest_come_first() {
    let output = "10 1 5.0 00:01 a\n11 1 99.5 00:01 b\n12 1 5.0 00:01 c\nnoise\n13 1 50.0 00:01 d\n";
    let cpus: Vec<Option<CpuPercent>> = load_texts(output).into_iter().map(read_load).collect();
    assert!(is_parsable_snapshot(output, &cpus));
    let all: Vec<u32> = all_processes(output, &cpus).iter().map(|e| e.pid).collect();
    assert_eq!(all, vec![10, 11, 12, 13]);
    let top: Vec<u32> = top_processes(output, &cpus, 3).iter().map(|e| e.pid).collect();
    assert_eq!(top, vec![11, 13, 10]);
    assert!(top_processes(output, &cpus, 0).is_empty());
}

#[test]
fn loads_compare_as_numbers() {
    assert!(load(1.5).below(load(2.0)));
    assert!(!load(2.0).below(load(2.0)));
    assert!(load(2.0).at_most(load(2.0)));
    assert!(load(-1.0).below(load(0.0)));
    assert!(load(-0.0).at_most(load(0.0)) && load(0.0).at_most(load(-0.0)));
    assert!(!load(f32::NAN).below(load(1.0)) && !load(1.0).at_most(load(f32::NAN)));
    assert!(load(f32::MAX).below(load(f32::INFINITY)));
    assert!(load(f32::NAN).not_a_number() && !load(f32::INFINITY).not_a_number());
}

#[test]
fn names_and_command_lines_are_read() {
    assert_eq!(process_name(&reply(true, "/usr/bin/node\n")), Some("node".to_string()));
    assert_eq!(process_name(&reply(true, "  \n")), None);
    assert_eq!(process_name(&reply(false, "node")), None);
    assert_eq!(process_name(&reply(true, "/")), Some("/".to_string()));
    assert_eq!(process_args(&reply(true, " node a.js \n")), Some("node a.js".to_string()));
    assert_eq!(process_args(&reply(true, "")), None);
    assert_eq!(printed_text(&reply(true, " demo\n")), Some("demo".to_string()));
}

#[test]
fn zombies_are_not_alive() {
    assert!(process_alive(&Some(reply(true, "S+\n"))));
    assert!(!process_alive(&Some(reply(true, " Z\n"))));
    assert!(!process_alive(&Some(reply(false, ""))));
    assert!(process_alive(&None));
}

#[test]
fn the_first_listed_process_counts() {
    assert_eq!(first_pid_by_name(&reply(true, "41\n42\n")), Some(41));
    assert_eq!(first_pid_by_name(&reply(true, "none\n")), None);
    assert_eq!(first_pid_by_name(&reply(false, "41\n")), None);
    assert_eq!(exact_name_query("node"), vec!["-x".to_string(), "node".to_string()]);
}

#[test]
fn ending_a_process_may_fail() {
    assert_eq!(kill_process(7, true), Ok(()));
    assert_eq!(kill_process(7, false), Err("kill -TERM 7 failed".to_string()));
}

#[test]
fn commands_have_their_arguments() {
    assert_eq!(name_query(7), vec!["-p", "7", "-o", "comm="]);
    assert_eq!(args_query(7), vec!["-p", "7", "-o", "args="]);
    assert_eq!(stat_query(7), vec!["-p", "7", "-o", "stat="]);
    assert_eq!(owner_query(7), vec!["-p", "7", "-o", "user="]);
    assert_eq!(command_lines_query(), vec!["-eo", "pid=,args="]);
    assert_eq!(loads_query(), vec!["-Ao", "pid=,ppid=,pcpu=,etime=,comm="]);
    assert_eq!(terminate_args(7), vec!["-TERM", "7"]);
}
