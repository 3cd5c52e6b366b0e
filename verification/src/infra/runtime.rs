//! Single processes: are they alive, which is the first of a name, how are they ended.

use vstd::prelude::*;

use crate::infra::command::CommandReply;
use crate::text;
use crate::text::{parse_u32, split_lines, starts_with, trim, trim_start};

verus! {

/// Whether a process is alive, by what `ps` says of its state. A process counts as alive when
/// `ps` could not be asked, and as dead when it is a zombie.
pub open spec fn alive_by(reply: Option<CommandReply>) -> bool {
    match reply {
        None => true,
        Some(r) => r.success && !text::has_prefix(text::trimmed_start(r.stdout@), seq!['Z']),
    }
}

/// Decides from the reply of `ps` whether a process is alive.
pub fn process_alive(reply: &Option<CommandReply>) -> (r: bool)
    ensures
        r == alive_by(*reply),
{
    match reply {
        None => true,
        Some(reply) => {
            proof {
                reveal_strlit("Z");
                assert("Z"@ =~= seq!['Z']);
            }
            reply.success && !starts_with(trim_start(reply.stdout.as_str()).as_str(), "Z")
        },
    }
}

/// The process id that the first line of a list names.
pub open spec fn first_listed(success: bool, stdout: Seq<char>) -> Option<nat> {
    if success && text::lines(stdout).len() > 0 {
        text::number_up_to(text::trimmed(text::lines(stdout)[0]), u32::MAX as nat)
    } else {
        None
    }
}

/// The arguments with which `pgrep` is asked for the processes of exactly this name.
pub fn exact_name_query(name: &str) -> (r: Vec<String>)
    ensures
        text::texts(r@) == seq!["-x"@, name@],
{
    let mut out: Vec<String> = Vec::new();
    out.push(text::owned("-x"));
    out.push(text::owned(name));
    assert(text::texts(out@) =~= seq!["-x"@, name@]);
    out
}

/// The first process that `pgrep` listed.
pub fn first_pid_by_name(reply: &CommandReply) -> (r: Option<u32>)
    ensures
        match r {
            Some(p) => first_listed(reply.success, reply.stdout@) == Some(p as nat),
            None => first_listed(reply.success, reply.stdout@) is None,
        },
{
    if !reply.success {
        return None;
    }
    let lines = split_lines(reply.stdout.as_str());
    if lines.len() == 0 {
        return None;
    }
    assert(text::lines(reply.stdout@)[0] == lines@[0]@);
    parse_u32(trim(lines[0].as_str()).as_str())
}

/// Whether asking process `pid` to end worked; if not, what to report.
pub fn kill_process(pid: u32, success: bool) -> (r: Result<(), String>)
    ensures
        r is Ok <==> success,
        r matches Err(e) ==> e@ == "kill -TERM "@ + text::decimal(pid as nat) + " failed"@,
{
    if success {
        Ok(())
    } else {
        let mut e = text::concat("kill -TERM ", text::to_decimal(pid as u64).as_str());
        e.append(" failed");
        Err(e)
    }
}

} // verus!
