use cpuguard::infra::command::CommandReply;
use cpuguard::infra::config::{
    default_config_dir, detect_cpulimit_bin, AppConfig, Environment, KnownPrograms,
};
use cpuguard::infra::cpulimit::{
    pid_limit_args, RealCpulimitExecutor, StartError, StopInstance, StopRequest,
};
use cpuguard::model::Domain;

fn executor() -> RealCpulimitExecutor {
    RealCpulimitExecutor { bin: "/opt/bin/cpulimit".to_string() }
}

fn reply(success: bool, stdout: &str, stderr: &str) -> CommandReply {
    CommandReply { success, stdout: stdout.to_string(), stderr: stderr.to_string() }
}

#[test]
fn default_config_dir_uses_system_wide_path_for_system_domain() {
    assert_eq!(
        default_config_dir(Domain::System, "/Users/demo"),
        "/Library/Application Support/cpuguard"
    );
}

#[test]
fn default_config_dir_uses_home_path_for_user_domain() {
    assert_eq!(default_config_dir(Domain::User, "/Users/demo"), "/Users/demo/.config/cpuguard");
}

#[test]
fn settings_take_the_place_of_defaults() {
    let unset = Environment {
        home: None,
        config_dir: None,
        launch_agents_dir: None,
        launch_daemons_dir: None,
        cpulimit_bin: None,
    };
    let nothing = KnownPrograms { in_homebrew: false, in_usr_local: false };
    let config = AppConfig::load(Domain::User, unset, nothing);
    assert_eq!(config.config_dir, "./.config/cpuguard");
    assert_eq!(config.rules_file, "./.config/cpuguard/rules.toml");
    assert_eq!(config.state_file, "./.config/cpuguard/state.json");
    assert_eq!(config.launch_agents_dir, "./Library/LaunchAgents");
    assert_eq!(config.launch_daemons_dir, "/Library/LaunchDaemons");
    assert_eq!(config.cpulimit_bin, "cpulimit");
    assert_eq!(config.label_prefix, "com.cpuguard");

    let set = Environment {
        home: Some("/Users/demo".to_string()),
        config_dir: Some("/cfg/".to_string()),
        launch_agents_dir: Some("/a".to_string()),
        launch_daemons_dir: Some("/d".to_string()),
        cpulimit_bin: Some("/b".to_string()),
    };
    let config = AppConfig::load(Domain::System, set, nothing);
    assert_eq!(config.config_dir, "/cfg/");
    assert_eq!(config.rules_file, "/cfg/rules.toml");
    assert_eq!(config.launch_agents_dir, "/a");
    assert_eq!(config.launch_daemons_dir, "/d");
    assert_eq!(config.cpulimit_bin, "/b");
}

#[test]
fn the_limiter_program_is_looked_for() {
    let known = |in_homebrew: bool, in_usr_local: bool| {
        detect_cpulimit_bin(KnownPrograms { in_homebrew, in_usr_local })
    };
    assert_eq!(known(true, true), "/opt/homebrew/bin/cpulimit");
    assert_eq!(known(false, true), "/usr/local/bin/cpulimit");
    assert_eq!(known(false, false), "cpulimit");
}

#[test]
fn the_limiter_program_is_told_by_its_usage() {
    let usage = "Usage: cpulimit [OPTIONS...] TARGET\n";
    assert!(executor().ensure_available(&reply(false, usage, "")).is_ok());
    assert!(executor().ensure_available(&reply(false, "", usage)).is_ok());
    assert_eq!(
        executor().ensure_available(&reply(true, "hello", "")),
        Err("cpulimit not available: /opt/bin/cpulimit".to_string())
    );
}

#[test]
fn limiters_are_started_with_their_arguments() {
    assert_eq!(pid_limit_args(12, 20), vec!["-p", "12", "-l", "20", "-i"]);
    assert_eq!(
        executor().start_adhoc_args(12, 20),
        vec![
            "-c",
            "\"$1\" -p \"$2\" -l \"$3\" -i >/dev/null 2>&1 & echo $!",
            "cpuguard-cpulimit",
            "/opt/bin/cpulimit",
            "12",
            "20"
        ]
    );
    assert!(matches!(executor().start_adhoc(12, &reply(true, "4321\n", "")), Ok(4321)));
    assert!(matches!(
        executor().start_adhoc(12, &reply(false, "4321\n", "")),
        Err(StartError::NotStarted(12))
    ));
    match executor().start_adhoc(12, &reply(true, "oops\n", "")) {
        Err(StartError::NotAPid(printed)) => assert_eq!(printed, "oops\n"),
        other => panic!("{other:?}"),
    }
}

/// Stops a limiter that takes the signal as told, and ends after so many looks.
fn stop(takes_signal: bool, looks: u32) -> (Option<Result<(), String>>, u32) {
    let mut op = StopInstance::begin(7);
    let mut looked: u32 = 0;
    while let Some(request) = op.request() {
        let yes = match request {
            StopRequest::Terminate(pid) => {
                assert_eq!(pid, 7);
                takes_signal
            }
            StopRequest::Probe(_) => {
                looked += 1;
                looked <= looks
            }
            StopRequest::Wait(millis) => {
                assert_eq!(millis, 50);
                true
            }
        };
        op = op.answer(yes);
    }
    (op.finish(), looked)
}

#[test]
fn a_limiter_is_stopped_once_it_is_gone() {
    assert_eq!(stop(true, 0), (Some(Ok(())), 1));
    assert_eq!(stop(true, 19), (Some(Ok(())), 20));
    assert_eq!(
        stop(true, 20),
        (Some(Err("cpulimit pid 7 did not exit after SIGTERM".to_string())), 20)
    );
    assert_eq!(stop(false, 0), (Some(Ok(())), 1));
    assert_eq!(stop(false, 1), (Some(Err("failed to stop cpulimit pid 7".to_string())), 1));
}
