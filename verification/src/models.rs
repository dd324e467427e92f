//! The recorded data: time spans, command events, sessions, and the per-session
//! file of commands that a running recording accumulates.

use vstd::prelude::*;

verus! {

/// Nanoseconds in one second.
pub const NANOS_PER_SEC: u32 = 1_000_000_000;

/// A span of time: whole seconds and the nanoseconds of the last, partial second.
#[derive(Debug, Clone, Copy, PartialEq, Eq, Structural)]
pub struct Duration {
    secs: u64,
    nanos: u32,
}

impl Duration {
    #[verifier::type_invariant]
    spec fn nanos_below_one_second(self) -> bool {
        self.nanos < NANOS_PER_SEC
    }

    /// Whole seconds of the span.
    pub closed spec fn secs_part(self) -> u64 {
        self.secs
    }

    /// Nanoseconds beyond the whole seconds.
    pub closed spec fn nanos_part(self) -> u32 {
        self.nanos
    }

    /// The span of `secs` seconds and `nanos` nanoseconds; nanoseconds of one
    /// second or more carry into the seconds.
    pub fn new(secs: u64, nanos: u32) -> (d: Duration)
        requires
            secs + nanos / NANOS_PER_SEC <= u64::MAX,
        ensures
            d.secs_part() == secs + nanos / NANOS_PER_SEC,
            d.nanos_part() == nanos % NANOS_PER_SEC,
    {
        Duration { secs: secs + (nanos / NANOS_PER_SEC) as u64, nanos: nanos % NANOS_PER_SEC }
    }

    /// The span of `secs` whole seconds.
    pub fn from_secs(secs: u64) -> (d: Duration)
        ensures
            d.secs_part() == secs,
            d.nanos_part() == 0,
    {
        Duration { secs, nanos: 0 }
    }

    /// The empty span.
    pub fn zero() -> (d: Duration)
        ensures
            d.secs_part() == 0,
            d.nanos_part() == 0,
    {
        Duration { secs: 0, nanos: 0 }
    }

    /// Whole seconds of the span.
    pub fn as_secs(&self) -> (s: u64)
        ensures
            s == self.secs_part(),
    {
        self.secs
    }

    /// Nanoseconds beyond the whole seconds; always below one second.
    pub fn subsec_nanos(&self) -> (n: u32)
        ensures
            n == self.nanos_part(),
            n < NANOS_PER_SEC,
    {
        proof {
            use_type_invariant(self);
        }
        self.nanos
    }
}

/// A single command execution event within a session.
#[derive(Debug, Clone)]
pub struct CommandEvent {
    pub sequence: u64,
    pub command: String,
    pub cwd: String,
    pub start_time: String,
    pub end_time: String,
    pub duration: Duration,
    pub exit_code: i32,
    pub stdout_truncated: bool,
    pub stderr_truncated: bool,
    pub stdout_preview: String,
    pub stderr_preview: String,
    /// Optional metadata tags added by the user.
    pub tags: Vec<String>,
}

/// A recorded terminal session.
#[derive(Debug, Clone)]
pub struct Session {
    pub id: String,
    pub name: String,
    pub start_time: String,
    pub end_time: String,
    pub duration: Duration,
    pub hostname: String,
    pub username: String,
    pub commands: Vec<CommandEvent>,
    pub tags: Vec<String>,
}

/// The commands recorded so far for a session that is still being recorded.
#[derive(Debug, Clone)]
pub struct CommandsFile {
    pub session_id: String,
    pub commands: Vec<CommandEvent>,
}

impl CommandsFile {
    /// The file after `cmd` is appended: the existing file of the session, or a
    /// new one for `session_id` when there is none yet.
    pub fn with_appended(existing: Option<CommandsFile>, session_id: &str, cmd: CommandEvent) -> (f: CommandsFile)
        ensures
            f.session_id@ == (match existing {
                Some(e) => e.session_id@,
                None => session_id@,
            }),
            f.commands@ == (match existing {
                Some(e) => e.commands@,
                None => Seq::empty(),
            }).push(cmd),
    {
        let mut file = match existing {
            Some(e) => e,
            None => CommandsFile { session_id: String::from_str(session_id), commands: Vec::new() },
        };
        file.commands.push(cmd);
        file
    }
}

} // verus!
