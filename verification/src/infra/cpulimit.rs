//! The limiter program: how it is run, and how a running limiter is stopped.

use vstd::prelude::*;

use crate::infra::command::CommandReply;
use crate::text;
use crate::text::{concat, contains, owned, parse_u32, to_decimal, trim};

verus! {

/// How often a limiter is looked at after it was asked to end.
pub const STOP_POLLS: u32 = 20;

/// Milliseconds between two looks.
pub const STOP_POLL_MILLIS: u64 = 50;

/// The limiter program.
#[derive(Debug)]
pub struct RealCpulimitExecutor {
    pub bin: String,
}

/// Why no limiter was started.
#[derive(Debug)]
pub enum StartError {
    /// The shell failed for this target.
    NotStarted(u32),
    /// The shell printed this in place of a process id.
    NotAPid(String),
}

/// The arguments with which the program limits a process.
pub open spec fn limit_args(target_pid: u32, limit: u16) -> Seq<Seq<char>> {
    seq!["-p"@, text::decimal(target_pid as nat), "-l"@, text::decimal(limit as nat), "-i"@]
}

/// Builds [`limit_args`].
pub fn pid_limit_args(target_pid: u32, limit: u16) -> (r: Vec<String>)
    ensures
        text::texts(r@) == limit_args(target_pid, limit),
{
    let mut out: Vec<String> = Vec::new();
    out.push(owned("-p"));
    out.push(to_decimal(target_pid as u64));
    out.push(owned("-l"));
    out.push(to_decimal(limit as u64));
    out.push(owned("-i"));
    assert(text::texts(out@) =~= limit_args(target_pid, limit));
    out
}

/// Whether what the program prints on `--help` shows that it is the limiter program.
pub open spec fn shows_usage(stdout: Seq<char>, stderr: Seq<char>) -> bool {
    text::has_part(stdout, "Usage: cpulimit"@) || text::has_part(stderr, "Usage: cpulimit"@)
}

impl RealCpulimitExecutor {
    /// Judges the program by its reply to `--help`. It may print its usage on either stream, and
    /// need not succeed.
    pub fn ensure_available(&self, reply: &CommandReply) -> (r: Result<(), String>)
        ensures
            match r {
                Ok(()) => shows_usage(reply.stdout@, reply.stderr@),
                Err(message) => !shows_usage(reply.stdout@, reply.stderr@) && message@
                    == "cpulimit not available: "@ + self.bin@,
            },
    {
        if contains(reply.stdout.as_str(), "Usage: cpulimit") || contains(
            reply.stderr.as_str(),
            "Usage: cpulimit",
        ) {
            Ok(())
        } else {
            Err(concat("cpulimit not available: ", self.bin.as_str()))
        }
    }

    /// The arguments with which `/bin/sh` starts a limiter that outlives this program, and prints
    /// its process id.
    pub fn start_adhoc_args(&self, target_pid: u32, limit: u16) -> (r: Vec<String>)
        ensures
            text::texts(r@) == seq![
                "-c"@,
                "\"$1\" -p \"$2\" -l \"$3\" -i >/dev/null 2>&1 & echo $!"@,
                "cpuguard-cpulimit"@,
                self.bin@,
                text::decimal(target_pid as nat),
                text::decimal(limit as nat),
            ],
    {
        let mut out: Vec<String> = Vec::new();
        out.push(owned("-c"));
        out.push(owned("\"$1\" -p \"$2\" -l \"$3\" -i >/dev/null 2>&1 & echo $!"));
        out.push(owned("cpuguard-cpulimit"));
        out.push(self.bin.clone());
        out.push(to_decimal(target_pid as u64));
        out.push(to_decimal(limit as u64));
        assert(text::texts(out@) =~= seq![
            "-c"@,
            "\"$1\" -p \"$2\" -l \"$3\" -i >/dev/null 2>&1 & echo $!"@,
            "cpuguard-cpulimit"@,
            self.bin@,
            text::decimal(target_pid as nat),
            text::decimal(limit as nat),
        ]);
        out
    }

    /// Reads the process id of the limiter that the shell started.
    pub fn start_adhoc(&self, target_pid: u32, reply: &CommandReply) -> (r: Result<
        u32,
        StartError,
    >)
        ensures
            ({
                let pid = text::number_up_to(text::trimmed(reply.stdout@), u32::MAX as nat);
                match r {
                    Ok(p) => reply.success && pid == Some(p as nat),
                    Err(StartError::NotStarted(t)) => !reply.success && t == target_pid,
                    Err(StartError::NotAPid(printed)) => reply.success && pid is None && printed@
                        == reply.stdout@,
                }
            }),
    {
        if !reply.success {
            return Err(StartError::NotStarted(target_pid));
        }
        let printed = trim(reply.stdout.as_str());
        match parse_u32(printed.as_str()) {
            Some(pid) => Ok(pid),
            None => Err(StartError::NotAPid(owned(reply.stdout.as_str()))),
        }
    }
}

/// What stopping a limiter asks for.
#[derive(Clone, Copy, Debug, PartialEq, Eq, Structural)]
pub enum StopRequest {
    /// Ask the limiter to end.
    Terminate(u32),
    /// Is the limiter alive?
    Probe(u32),
    /// Wait for so many milliseconds.
    Wait(u64),
}

/// What stopping a limiter is waiting for.
#[derive(Clone, Copy, Debug, PartialEq, Eq, Structural)]
pub enum StopStage {
    /// The limiter's being asked to end.
    Terminate,
    /// Whether a limiter that could not be asked is alive.
    Check,
    /// Whether the limiter is alive, after so many looks.
    Poll(u32),
    /// The next look, after so many.
    Wait(u32),
    /// Nothing: the limiter is gone.
    Gone,
    /// Nothing: the limiter could not be asked, and is alive.
    Refused,
    /// Nothing: the limiter is still alive.
    Stuck,
}

/// Stopping a limiter.
#[derive(Clone, Copy, Debug, PartialEq, Eq, Structural)]
pub struct StopInstance {
    pub cpulimit_pid: u32,
    pub stage: StopStage,
}

impl StopInstance {
    /// Whether no more looks were taken than may be.
    pub open spec fn well_formed(self) -> bool {
        match self.stage {
            StopStage::Poll(n) => n < STOP_POLLS,
            StopStage::Wait(n) => 1 <= n <= STOP_POLLS,
            _ => true,
        }
    }

    /// The operation after a reply: yes says that the limiter could be asked to end, or that it is
    /// alive.
    pub open spec fn answered(self, yes: bool) -> StopInstance {
        let stage = match self.stage {
            StopStage::Terminate => if yes {
                StopStage::Poll(0)
            } else {
                StopStage::Check
            },
            StopStage::Check => if yes {
                StopStage::Refused
            } else {
                StopStage::Gone
            },
            StopStage::Poll(n) => if yes {
                StopStage::Wait((n + 1) as u32)
            } else {
                StopStage::Gone
            },
            StopStage::Wait(n) => if n < STOP_POLLS {
                StopStage::Poll(n)
            } else {
                StopStage::Stuck
            },
            other => other,
        };
        StopInstance { stage, ..self }
    }

    /// What the operation asks for; nothing when it is over.
    pub open spec fn asks(self) -> Option<StopRequest> {
        match self.stage {
            StopStage::Terminate => Some(StopRequest::Terminate(self.cpulimit_pid)),
            StopStage::Check | StopStage::Poll(_) => Some(StopRequest::Probe(self.cpulimit_pid)),
            StopStage::Wait(_) => Some(StopRequest::Wait(STOP_POLL_MILLIS)),
            _ => None,
        }
    }

    /// Begins to stop a limiter.
    pub fn begin(cpulimit_pid: u32) -> (r: StopInstance)
        ensures
            r.cpulimit_pid == cpulimit_pid,
            r.stage == StopStage::Terminate,
            r.well_formed(),
    {
        StopInstance { cpulimit_pid, stage: StopStage::Terminate }
    }

    /// Goes on by a reply.
    pub fn answer(self, yes: bool) -> (r: StopInstance)
        requires
            self.well_formed(),
        ensures
            r == self.answered(yes),
            r.well_formed(),
    {
        let stage = match self.stage {
            StopStage::Terminate => if yes {
                StopStage::Poll(0)
            } else {
                StopStage::Check
            },
            StopStage::Check => if yes {
                StopStage::Refused
            } else {
                StopStage::Gone
            },
            StopStage::Poll(n) => if yes {
                StopStage::Wait(n + 1)
            } else {
                StopStage::Gone
            },
            StopStage::Wait(n) => if n < STOP_POLLS {
                StopStage::Poll(n)
            } else {
                StopStage::Stuck
            },
            other => other,
        };
        StopInstance { cpulimit_pid: self.cpulimit_pid, stage }
    }

    /// What the operation asks for; nothing when it is over.
    pub fn request(self) -> (r: Option<StopRequest>)
        ensures
            r == self.asks(),
    {
        match self.stage {
            StopStage::Terminate => Some(StopRequest::Terminate(self.cpulimit_pid)),
            StopStage::Check | StopStage::Poll(_) => Some(StopRequest::Probe(self.cpulimit_pid)),
            StopStage::Wait(_) => Some(StopRequest::Wait(STOP_POLL_MILLIS)),
            _ => None,
        }
    }

    /// The result, once the operation is over.
    pub fn finish(self) -> (r: Option<Result<(), String>>)
        ensures
            r is None <==> self.asks() is Some,
            r matches Some(Ok(_)) <==> self.stage is Gone,
            r matches Some(Err(message)) ==> message@ == if self.stage is Refused {
                "failed to stop cpulimit pid "@ + text::decimal(self.cpulimit_pid as nat)
            } else {
                "cpulimit pid "@ + text::decimal(self.cpulimit_pid as nat)
                    + " did not exit after SIGTERM"@
            },
    {
        match self.stage {
            StopStage::Gone => Some(Ok(())),
            StopStage::Refused => {
                let pid = to_decimal(self.cpulimit_pid as u64);
                Some(Err(concat("failed to stop cpulimit pid ", pid.as_str())))
            },
            StopStage::Stuck => {
                let pid = to_decimal(self.cpulimit_pid as u64);
                let mut message = concat("cpulimit pid ", pid.as_str());
                message.append(" did not exit after SIGTERM");
                Some(Err(message))
            },
            _ => None,
        }
    }
}

/// Stopping a limiter, after a series of replies.
pub open spec fn stop_after(s: StopInstance, replies: Seq<bool>) -> StopInstance
    decreases replies.len(),
{
    if replies.len() == 0 {
        s
    } else {
        stop_after(s, replies.drop_last()).answered(replies.last())
    }
}

/// The most replies that stopping a limiter can still take.
spec fn stop_left(s: StopInstance) -> int {
    match s.stage {
        StopStage::Terminate => 2 * STOP_POLLS + 1,
        StopStage::Check => 1,
        StopStage::Poll(n) => 2 * (STOP_POLLS - n),
        StopStage::Wait(n) => 2 * (STOP_POLLS - n) + 1,
        _ => 0,
    }
}

/// A limiter counts as stopped only once it was looked at and not alive, and stopping it is over
/// after it was looked at as often as may be.
pub proof fn stopped_means_gone(s: StopInstance, replies: Seq<bool>)
    requires
        s.stage is Terminate,
    ensures
        stop_after(s, replies).well_formed(),
        stop_after(s, replies).stage is Gone ==> exists|i: int|
            0 <= i < replies.len() && !replies[i] && #[trigger] stop_after(
                s,
                replies.take(i),
            ).asks() == Some(StopRequest::Probe(s.cpulimit_pid)),
        replies.len() > 2 * STOP_POLLS ==> stop_after(s, replies).asks() is None,
{
    lemma_stop(s, replies);
}

/// What holds of stopping a limiter, by induction over the replies.
proof fn lemma_stop(s: StopInstance, replies: Seq<bool>)
    requires
        s.stage is Terminate,
    ensures
        stop_after(s, replies).well_formed(),
        stop_after(s, replies).cpulimit_pid == s.cpulimit_pid,
        stop_after(s, replies).asks() is Some ==> stop_left(stop_after(s, replies))
            + replies.len() <= 2 * STOP_POLLS + 1 && stop_left(stop_after(s, replies)) > 0,
        stop_after(s, replies).stage is Gone ==> exists|i: int|
            0 <= i < replies.len() && !replies[i] && #[trigger] stop_after(
                s,
                replies.take(i),
            ).asks() == Some(StopRequest::Probe(s.cpulimit_pid)),
    decreases replies.len(),
{
    if replies.len() > 0 {
        let before = replies.drop_last();
        lemma_stop(s, before);
        assert(replies.take(before.len() as int) == before);
        let t = stop_after(s, before);
        if t.stage is Gone {
            let i = choose|i: int|
                0 <= i < before.len() && !before[i] && #[trigger] stop_after(
                    s,
                    before.take(i),
                ).asks() == Some(StopRequest::Probe(s.cpulimit_pid));
            assert(before.take(i) == replies.take(i));
            assert(!replies[i]);
        } else if stop_after(s, replies).stage is Gone {
            assert(stop_after(s, replies.take(before.len() as int)).asks() == Some(
                StopRequest::Probe(s.cpulimit_pid),
            ));
            assert(!replies[before.len() as int]);
        }
    }
}

} // verus!
