//! Where the files and programs are.

use vstd::prelude::*;

use crate::model::Domain;
use crate::paths;
use crate::paths::join_path;
use crate::text;
use crate::text::{concat, owned};

verus! {

/// The environment variables that decide where things are, as far as they are set.
#[derive(Debug)]
pub struct Environment {
    pub home: Option<String>,
    pub config_dir: Option<String>,
    pub launch_agents_dir: Option<String>,
    pub launch_daemons_dir: Option<String>,
    pub cpulimit_bin: Option<String>,
}

/// Which of the usual places hold the limiter program.
#[derive(Clone, Copy, Debug, PartialEq, Eq, Structural)]
pub struct KnownPrograms {
    pub in_homebrew: bool,
    pub in_usr_local: bool,
}

/// Where the files and programs are.
#[derive(Debug)]
pub struct AppConfig {
    pub config_dir: String,
    pub rules_file: String,
    pub state_file: String,
    pub launch_agents_dir: String,
    pub launch_daemons_dir: String,
    pub cpulimit_bin: String,
    pub label_prefix: String,
}

/// The directory that holds the rules and the state of a domain, unless another is set.
pub open spec fn usual_config_dir(domain: Domain, home: Seq<char>) -> Seq<char> {
    match domain {
        Domain::User => home + "/.config/cpuguard"@,
        Domain::System => "/Library/Application Support/cpuguard"@,
    }
}

/// Builds [`usual_config_dir`].
pub fn default_config_dir(domain: Domain, home: &str) -> (r: String)
    ensures
        r@ == usual_config_dir(domain, home@),
{
    match domain {
        Domain::User => concat(home, "/.config/cpuguard"),
        Domain::System => owned("/Library/Application Support/cpuguard"),
    }
}

/// The limiter program, unless another is set.
pub open spec fn usual_cpulimit_bin(known: KnownPrograms) -> Seq<char> {
    if known.in_homebrew {
        "/opt/homebrew/bin/cpulimit"@
    } else if known.in_usr_local {
        "/usr/local/bin/cpulimit"@
    } else {
        "cpulimit"@
    }
}

/// Picks the limiter program from the usual places.
pub fn detect_cpulimit_bin(known: KnownPrograms) -> (r: String)
    ensures
        r@ == usual_cpulimit_bin(known),
{
    if known.in_homebrew {
        owned("/opt/homebrew/bin/cpulimit")
    } else if known.in_usr_local {
        owned("/usr/local/bin/cpulimit")
    } else {
        owned("cpulimit")
    }
}

/// A setting, or what stands for it when it is not set.
pub open spec fn set_or(setting: Option<Seq<char>>, usual: Seq<char>) -> Seq<char> {
    match setting {
        Some(s) => s,
        None => usual,
    }
}

/// Picks a setting, or what stands for it when it is not set.
fn or_usual(setting: Option<String>, usual: String) -> (r: String)
    ensures
        r@ == set_or(text::opt_text(setting), usual@),
{
    match setting {
        Some(s) => s,
        None => usual,
    }
}

impl AppConfig {
    /// Finds where the files and programs of a domain are.
    pub fn load(domain: Domain, env: Environment, known: KnownPrograms) -> (r: AppConfig)
        ensures
            ({
                let home = set_or(text::opt_text(env.home), "."@);
                &&& r.config_dir@ == set_or(
                    text::opt_text(env.config_dir),
                    usual_config_dir(domain, home),
                )
                &&& r.rules_file@ == paths::joined_path(r.config_dir@, "rules.toml"@)
                &&& r.state_file@ == paths::joined_path(r.config_dir@, "state.json"@)
                &&& r.launch_agents_dir@ == set_or(
                    text::opt_text(env.launch_agents_dir),
                    home + "/Library/LaunchAgents"@,
                )
                &&& r.launch_daemons_dir@ == set_or(
                    text::opt_text(env.launch_daemons_dir),
                    "/Library/LaunchDaemons"@,
                )
                &&& r.cpulimit_bin@ == set_or(
                    text::opt_text(env.cpulimit_bin),
                    usual_cpulimit_bin(known),
                )
                &&& r.label_prefix@ == "com.cpuguard"@
            }),
    {
        let home = or_usual(env.home, owned("."));
        let config_dir = or_usual(env.config_dir, default_config_dir(domain, home.as_str()));
        let launch_agents_dir = or_usual(
            env.launch_agents_dir,
            concat(home.as_str(), "/Library/LaunchAgents"),
        );
        let launch_daemons_dir = or_usual(env.launch_daemons_dir, owned("/Library/LaunchDaemons"));
        let cpulimit_bin = or_usual(env.cpulimit_bin, detect_cpulimit_bin(known));
        let rules_file = join_path(config_dir.as_str(), "rules.toml");
        let state_file = join_path(config_dir.as_str(), "state.json");
        AppConfig {
            config_dir,
            rules_file,
            state_file,
            launch_agents_dir,
            launch_daemons_dir,
            cpulimit_bin,
            label_prefix: owned("com.cpuguard"),
        }
    }
}

} // verus!
