//! Commands of the operating system: their arguments, and what came back.

use vstd::prelude::*;

use crate::text;
use crate::text::{owned, to_decimal};

verus! {

/// What a finished command left behind.
#[derive(Debug)]
pub struct CommandReply {
    pub success: bool,
    pub stdout: String,
    pub stderr: String,
}

/// The arguments with which `ps` is asked for one column of one process.
pub open spec fn ps_query(pid: u32, column: Seq<char>) -> Seq<Seq<char>> {
    seq!["-p"@, text::decimal(pid as nat), "-o"@, column]
}

/// Builds [`ps_query`].
pub fn ps_query_args(pid: u32, column: &str) -> (r: Vec<String>)
    ensures
        text::texts(r@) == ps_query(pid, column@),
{
    let mut out: Vec<String> = Vec::new();
    out.push(owned("-p"));
    out.push(to_decimal(pid as u64));
    out.push(owned("-o"));
    out.push(owned(column));
    assert(text::texts(out@) =~= ps_query(pid, column@));
    out
}

/// The arguments with which `ps` is asked for a process's command name.
pub fn name_query(pid: u32) -> (r: Vec<String>)
    ensures
        text::texts(r@) == ps_query(pid, "comm="@),
{
    ps_query_args(pid, "comm=")
}

/// The arguments with which `ps` is asked for a process's command line.
pub fn args_query(pid: u32) -> (r: Vec<String>)
    ensures
        text::texts(r@) == ps_query(pid, "args="@),
{
    ps_query_args(pid, "args=")
}

/// The arguments with which `ps` is asked for a process's state.
pub fn stat_query(pid: u32) -> (r: Vec<String>)
    ensures
        text::texts(r@) == ps_query(pid, "stat="@),
{
    ps_query_args(pid, "stat=")
}

/// The arguments with which `ps` is asked for a process's owner.
pub fn owner_query(pid: u32) -> (r: Vec<String>)
    ensures
        text::texts(r@) == ps_query(pid, "user="@),
{
    ps_query_args(pid, "user=")
}

/// The arguments with which `ps` lists every process with its command line.
pub fn command_lines_query() -> (r: Vec<String>)
    ensures
        text::texts(r@) == seq!["-eo"@, "pid=,args="@],
{
    let mut out: Vec<String> = Vec::new();
    out.push(owned("-eo"));
    out.push(owned("pid=,args="));
    assert(text::texts(out@) =~= seq!["-eo"@, "pid=,args="@]);
    out
}

/// The arguments with which `ps` lists every process with its load.
pub fn loads_query() -> (r: Vec<String>)
    ensures
        text::texts(r@) == seq!["-Ao"@, "pid=,ppid=,pcpu=,etime=,comm="@],
{
    let mut out: Vec<String> = Vec::new();
    out.push(owned("-Ao"));
    out.push(owned("pid=,ppid=,pcpu=,etime=,comm="));
    assert(text::texts(out@) =~= seq!["-Ao"@, "pid=,ppid=,pcpu=,etime=,comm="@]);
    out
}

/// The arguments with which `kill` asks a process to end.
pub fn terminate_args(pid: u32) -> (r: Vec<String>)
    ensures
        text::texts(r@) == seq!["-TERM"@, text::decimal(pid as nat)],
{
    let mut out: Vec<String> = Vec::new();
    out.push(owned("-TERM"));
    out.push(to_decimal(pid as u64));
    assert(text::texts(out@) =~= seq!["-TERM"@, text::decimal(pid as nat)]);
    out
}

/// What a command printed, without white space at its ends: nothing when it failed or printed
/// nothing.
pub open spec fn printed(success: bool, stdout: Seq<char>) -> Option<Seq<char>> {
    if success && text::trimmed(stdout).len() > 0 {
        Some(text::trimmed(stdout))
    } else {
        None
    }
}

/// Reads [`printed`] off a reply.
pub fn printed_text(reply: &CommandReply) -> (r: Option<String>)
    ensures
        text::opt_text(r) == printed(reply.success, reply.stdout@),
{
    if !reply.success {
        return None;
    }
    let raw = text::trim(reply.stdout.as_str());
    if raw.as_str().is_empty() {
        None
    } else {
        Some(raw)
    }
}

} // verus!
