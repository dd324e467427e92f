//! The recorder's decisions: what a new session is called, what a recorded
//! command holds, and what a stopped session is made of.

use vstd::prelude::*;

use crate::models::{CommandEvent, Duration, Session};
use crate::storage::{self, SessionStorage, StorageError};
use crate::text::{self, push_decimal};

verus! {

/// Why a recorder operation failed.
#[derive(Debug)]
pub enum RecorderError {
    NoActiveSession,
    AlreadyActive,
    IoError(std::io::Error),
    SerializationError(String),
}

/// Whether `m` is the message of `e`.
pub open spec fn is_recorder_message(e: RecorderError, m: Seq<char>) -> bool {
    match e {
        RecorderError::NoActiveSession => m == "No active recording session"@,
        RecorderError::AlreadyActive => m == "A session is already being recorded"@,
        RecorderError::IoError(io) => exists|d: String|
            #[trigger] vstd::string::to_string_from_display_ensures::<std::io::Error>(&io, d) && m
                == "IO error: "@ + d@,
        RecorderError::SerializationError(t) => m == "Serialization error: "@ + t@,
    }
}

impl RecorderError {
    /// The human-readable message of the error.
    pub fn message(&self) -> (m: String)
        ensures
            is_recorder_message(*self, m@),
    {
        match self {
            RecorderError::NoActiveSession => String::from_str("No active recording session"),
            RecorderError::AlreadyActive => String::from_str("A session is already being recorded"),
            RecorderError::IoError(e) => {
                let mut m = String::from_str("IO error: ");
                let detail = e.to_string();
                m.append(detail.as_str());
                m
            },
            RecorderError::SerializationError(e) => {
                let mut m = String::from_str("Serialization error: ");
                m.append(e.as_str());
                m
            },
        }
    }

    /// The error that starting a session reports when the active-session file
    /// cannot be written: the storage error's message, as a serialization error.
    pub fn start_failure(e: StorageError) -> (r: RecorderError)
        ensures
            r matches RecorderError::SerializationError(m) && storage::is_storage_message(e, m@),
    {
        RecorderError::SerializationError(e.message())
    }
}

impl From<std::io::Error> for RecorderError {
    fn from(e: std::io::Error) -> (r: RecorderError)
        ensures
            r == RecorderError::IoError(e),
    {
        RecorderError::IoError(e)
    }
}

impl vstd::std_specs::convert::FromSpecImpl<std::io::Error> for RecorderError {
    open spec fn obeys_from_spec() -> bool {
        true
    }

    open spec fn from_spec(e: std::io::Error) -> RecorderError {
        RecorderError::IoError(e)
    }
}

/// How a storage error reaches the caller of a recorder operation: I/O errors
/// stay I/O errors; serialization and not-found errors both become
/// serialization errors carrying the same text.
pub open spec fn recorder_error_of(e: StorageError) -> RecorderError {
    match e {
        StorageError::IoError(io) => RecorderError::IoError(io),
        StorageError::SerializationError(msg) => RecorderError::SerializationError(msg),
        StorageError::NotFound(msg) => RecorderError::SerializationError(msg),
    }
}

impl From<StorageError> for RecorderError {
    fn from(e: StorageError) -> (r: RecorderError)
        ensures
            r == recorder_error_of(e),
    {
        match e {
            StorageError::IoError(io) => RecorderError::IoError(io),
            StorageError::SerializationError(msg) => RecorderError::SerializationError(msg),
            StorageError::NotFound(msg) => RecorderError::SerializationError(msg),
        }
    }
}

impl vstd::std_specs::convert::FromSpecImpl<StorageError> for RecorderError {
    open spec fn obeys_from_spec() -> bool {
        true
    }

    open spec fn from_spec(e: StorageError) -> RecorderError {
        recorder_error_of(e)
    }
}


/// The size in bytes above which recorded command output is cut down.
pub const PREVIEW_LIMIT: usize = 4096;

/// The length in bytes of the UTF-8 encoding of `s`.
pub open spec fn byte_len(s: Seq<char>) -> nat {
    vstd::utf8::encode_utf8(s).len()
}

/// The largest position at most `k` at which the UTF-8 bytes `bytes` start a
/// character: `k` itself unless byte `k` continues a character.
pub open spec fn cut_point(bytes: Seq<u8>, k: nat) -> nat
    decreases k,
{
    if k == 0 || k >= bytes.len() || !vstd::utf8::is_continuation_byte(bytes[k as int]) {
        k
    } else {
        cut_point(bytes, (k - 1) as nat)
    }
}

/// The characters that a cut-down preview keeps of `output`: the longest run of
/// whole leading characters whose UTF-8 encoding fits in `max_len` bytes.
pub open spec fn kept_prefix(output: Seq<char>, max_len: nat) -> Seq<char> {
    let bytes = vstd::utf8::encode_utf8(output);
    vstd::utf8::decode_utf8(bytes.take(cut_point(bytes, max_len) as int))
}

/// `output` cut down for storage: unchanged when its UTF-8 encoding has at most
/// `max_len` bytes; otherwise the whole leading characters that fit in
/// `max_len` bytes, followed by a note of the total byte count.
pub open spec fn truncated(output: Seq<char>, max_len: nat) -> Seq<char> {
    if byte_len(output) <= max_len {
        output
    } else {
        kept_prefix(output, max_len) + truncation_note(byte_len(output))
    }
}

proof fn lemma_cut_point_bounds(bytes: Seq<u8>, k: nat)
    ensures
        cut_point(bytes, k) <= k,
        cut_point(bytes, k) == 0 || cut_point(bytes, k) >= bytes.len()
            || !vstd::utf8::is_continuation_byte(bytes[cut_point(bytes, k) as int]),
    decreases k,
{
    if !(k == 0 || k >= bytes.len() || !vstd::utf8::is_continuation_byte(bytes[k as int])) {
        lemma_cut_point_bounds(bytes, (k - 1) as nat);
    }
}

/// The cut point depends only on the bytes up to it.
proof fn lemma_cut_point_prefix(a: Seq<u8>, b: Seq<u8>, k: nat)
    requires
        k < a.len(),
        k < b.len(),
        a.take(k as int + 1) == b.take(k as int + 1),
    ensures
        cut_point(a, k) == cut_point(b, k),
    decreases k,
{
    assert(a[k as int] == a.take(k as int + 1)[k as int]);
    assert(b[k as int] == b.take(k as int + 1)[k as int]);
    if k > 0 {
        assert(a.take(k as int) =~= a.take(k as int + 1).take(k as int));
        assert(b.take(k as int) =~= b.take(k as int + 1).take(k as int));
        lemma_cut_point_prefix(a, b, (k - 1) as nat);
    }
}

/// Cuts `output` down to the whole leading characters that fit in `max_len`
/// bytes, noting how many bytes it had.
pub fn truncate_output(output: &str, max_len: usize) -> (r: String)
    ensures
        r@ == truncated(output@, max_len as nat),
{
    broadcast use vstd::utf8::encode_utf8_valid_utf8, vstd::utf8::encode_utf8_decode_utf8;

    let bytes = output.as_bytes();
    let total = bytes.len();
    if total <= max_len {
        String::from_str(output)
    } else {
        let ghost b = vstd::utf8::encode_utf8(output@);
        let mut k: usize = max_len;
        while k > 0 && 0x80 <= bytes[k] && bytes[k] <= 0xbf
            invariant
                bytes@ == b,
                k <= max_len,
                max_len < b.len(),
                cut_point(b, k as nat) == cut_point(b, max_len as nat),
            decreases k,
        {
            k = k - 1;
        }
        assert(cut_point(b, k as nat) == k);
        assert(vstd::utf8::is_char_boundary(b, k as int)) by {
            vstd::utf8::is_char_boundary_iff_not_is_continuation_byte(b, k as int);
        }
        let (head, _rest) = output.split_at(k);
        proof {
            assert(vstd::utf8::encode_utf8(head@) =~= b.take(k as int));
            vstd::utf8::encode_utf8_decode_utf8(head@);
        }
        let mut r = String::from_str(head);
        r.append("\n... [truncated, ");
        push_decimal(&mut r, total as u64);
        r.append(" total bytes]");
        r
    }
}

/// The note that ends a cut-down output of `total` bytes.
pub open spec fn truncation_note(total: nat) -> Seq<char> {
    "\n... [truncated, "@ + text::nat_text(total) + " total bytes]"@
}

/// A cut-down preview reveals nothing of the output beyond its first bytes and
/// its byte count: two outputs of the same size that agree on their first
/// `max_len + 1` bytes (the last of which only decides where a character
/// starts) give the same preview.
pub proof fn lemma_preview_reveals_only_prefix(a: Seq<char>, b: Seq<char>, max_len: nat)
    requires
        byte_len(a) > max_len,
        byte_len(b) == byte_len(a),
        vstd::utf8::encode_utf8(a).take(max_len as int + 1) == vstd::utf8::encode_utf8(b).take(
            max_len as int + 1,
        ),
    ensures
        truncated(a, max_len) == truncated(b, max_len),
{
    let ba = vstd::utf8::encode_utf8(a);
    let bb = vstd::utf8::encode_utf8(b);
    lemma_cut_point_prefix(ba, bb, max_len);
    lemma_cut_point_bounds(ba, max_len);
    let c = cut_point(ba, max_len) as int;
    assert(ba.take(c) =~= ba.take(max_len as int + 1).take(c));
    assert(bb.take(c) =~= bb.take(max_len as int + 1).take(c));
}

/// An output within the limit is stored as it is; of a longer one the preview
/// keeps whole leading characters whose UTF-8 encoding is the first bytes of
/// the output, at most `max_len` of them, followed by the note of its byte count.
pub proof fn lemma_preview_shape(output: Seq<char>, max_len: nat)
    ensures
        byte_len(output) <= max_len ==> truncated(output, max_len) == output,
        byte_len(output) > max_len ==> truncated(output, max_len) == kept_prefix(output, max_len)
            + truncation_note(byte_len(output)),
        byte_len(output) > max_len ==> byte_len(kept_prefix(output, max_len)) <= max_len
            && vstd::utf8::encode_utf8(kept_prefix(output, max_len)) == vstd::utf8::encode_utf8(
            output,
        ).take(byte_len(kept_prefix(output, max_len)) as int),
{
    broadcast use vstd::utf8::encode_utf8_valid_utf8;

    if byte_len(output) > max_len {
        let b = vstd::utf8::encode_utf8(output);
        lemma_cut_point_bounds(b, max_len);
        let c = cut_point(b, max_len) as int;
        assert(vstd::utf8::is_char_boundary(b, c)) by {
            if c > 0 {
                vstd::utf8::is_char_boundary_iff_not_is_continuation_byte(b, c);
            }
        }
        vstd::utf8::valid_utf8_split(b, c);
        assert(b.subrange(0, c) =~= b.take(c));
        vstd::utf8::decode_utf8_encode_utf8(b.take(c));
    }
}

/// Commands `cmds` are numbered 1, 2, 3, ... in the order they were recorded.
pub open spec fn consecutively_numbered(cmds: Seq<CommandEvent>) -> bool {
    forall|i: int| 0 <= i < cmds.len() ==> #[trigger] cmds[i].sequence == i + 1
}

/// Recording a command keeps a session's commands numbered 1, 2, 3, ...: the
/// event numbered after the commands so far, appended to them.
pub proof fn lemma_recording_keeps_numbering(cmds: Seq<CommandEvent>, e: CommandEvent)
    requires
        consecutively_numbered(cmds),
        e.sequence == cmds.len() + 1,
    ensures
        consecutively_numbered(cmds.push(e)),
{
    assert forall|i: int| 0 <= i < cmds.push(e).len() implies #[trigger] cmds.push(e)[i].sequence
        == i + 1 by {
        if i < cmds.len() {
            assert(cmds.push(e)[i] == cmds[i]);
        }
    }
}

/// Lower-case hexadecimal digits.
pub open spec fn is_lower_hex(c: char) -> bool {
    ('0' <= c && c <= '9') || ('a' <= c && c <= 'f')
}

/// The hyphenated text of a random (version 4) UUID: 36 characters, hyphens at
/// positions 8, 13, 18 and 23, lower-case hexadecimal digits elsewhere, the
/// version digit `4` at position 14 and a variant digit of `8`, `9`, `a` or `b`
/// at position 19.
pub open spec fn is_uuid_v4_text(s: Seq<char>) -> bool {
    &&& s.len() == 36
    &&& forall|i: int|
        0 <= i < 36 ==> if i == 8 || i == 13 || i == 18 || i == 23 {
            #[trigger] s[i] == '-'
        } else {
            is_lower_hex(s[i])
        }
    &&& s[14] == '4'
    &&& (s[19] == '8' || s[19] == '9' || s[19] == 'a' || s[19] == 'b')
}

/// A fresh random session id: `uuid::Uuid::new_v4`, written out by its
/// `Display` impl. The contract states the shape that the uuid crate's source
/// gives every such text; which random digits come out is left unsaid.
#[verifier::external_body]
fn new_session_id() -> (id: String)
    ensures
        is_uuid_v4_text(id@),
{
    uuid::Uuid::new_v4().to_string()
}

/// The latest second since the Unix epoch at which chrono can represent a UTC
/// time: the last second of year 262142, chrono's last year.
pub const MAX_UTC_SECS: i64 = 8_210_266_876_799;

/// Whether `(secs, nanos)` is an instant that the clock can report: whole
/// seconds since the Unix epoch, not before it and within chrono's range, and
/// nanoseconds below one second.
pub open spec fn is_clock_reading(secs: i64, nanos: u32) -> bool {
    0 <= secs <= MAX_UTC_SECS && nanos < crate::models::NANOS_PER_SEC
}

/// The current UTC time as seconds and nanoseconds since the Unix epoch:
/// `chrono::Utc::now()`, read back with `timestamp` and
/// `timestamp_subsec_nanos`. `Utc::now` builds its value with
/// `DateTime::from_timestamp` from the system time's seconds and sub-second
/// nanoseconds since the epoch and panics when the clock is before the epoch
/// or out of chrono's range, so every reading it returns is a clock reading in
/// the sense of [`is_clock_reading`]. Which instant is read depends on the
/// clock and is left unsaid.
#[verifier::external_body]
fn utc_now() -> (t: (i64, u32))
    ensures
        is_clock_reading(t.0, t.1),
{
    let now = chrono::Utc::now();
    (now.timestamp(), now.timestamp_subsec_nanos())
}

/// The RFC 3339 text that chrono writes for the UTC instant `(secs, nanos)`.
pub uninterp spec fn rfc3339_text(secs: i64, nanos: u32) -> Seq<char>;

/// Writes the UTC instant `(secs, nanos)` as RFC 3339 text: the instant made
/// by `chrono::DateTime::from_timestamp` (which succeeds for every clock
/// reading) written by `DateTime::to_rfc3339`. The result is named
/// [`rfc3339_text`].
#[verifier::external_body]
fn rfc3339_at(secs: i64, nanos: u32) -> (t: String)
    requires
        is_clock_reading(secs, nanos),
    ensures
        t@ == rfc3339_text(secs, nanos),
{
    chrono::DateTime::from_timestamp(secs, nanos).map(|d| d.to_rfc3339()).unwrap_or_default()
}

/// The pattern of a dated session name: `session-`, then the date and time.
pub open spec fn session_name_pattern() -> Seq<char> {
    "session-%Y%m%d-%H%M%S"@
}

/// The text that chrono's `DateTime::format` writes for the UTC instant
/// `(secs, nanos)` with the strftime-like `pattern`.
pub uninterp spec fn utc_formatted(secs: i64, nanos: u32, pattern: Seq<char>) -> Seq<char>;

/// Formats the UTC instant `(secs, nanos)` (made by
/// `chrono::DateTime::from_timestamp`, which succeeds for every clock reading)
/// with `DateTime::format` and `pattern`, written out by `to_string`. The
/// result is named [`utc_formatted`]. Only the session-name pattern is
/// admitted: chrono's `to_string` panics on patterns it cannot parse, and that
/// pattern holds only the valid specifiers `%Y`, `%m`, `%d`, `%H`, `%M`, `%S`
/// after the literal `session-`, which the text therefore begins with.
#[verifier::external_body]
fn format_utc(secs: i64, nanos: u32, pattern: &str) -> (t: String)
    requires
        is_clock_reading(secs, nanos),
        pattern@ == session_name_pattern(),
    ensures
        t@ == utc_formatted(secs, nanos, pattern@),
        "session-"@.is_prefix_of(t@),
{
    chrono::DateTime::from_timestamp(secs, nanos).map(|d| d.format(pattern).to_string()).unwrap_or_default()
}

/// The session name for a session started at the UTC instant `(secs, nanos)`:
/// `session-` followed by its date and time (`session-%Y%m%d-%H%M%S`).
pub fn dated_session_name(secs: i64, nanos: u32) -> (n: String)
    requires
        is_clock_reading(secs, nanos),
    ensures
        n@ == utc_formatted(secs, nanos, session_name_pattern()),
        "session-"@.is_prefix_of(n@),
{
    format_utc(secs, nanos, "session-%Y%m%d-%H%M%S")
}

/// The time from instant `start` to instant `end`, both RFC 3339 texts, as
/// `(seconds, nanoseconds)`: `None` when either text is not RFC 3339 or `end`
/// lies before `start`.
pub uninterp spec fn rfc3339_elapsed(start: Seq<char>, end: Seq<char>) -> Option<(u64, u32)>;

/// Parses both texts with `chrono::DateTime::parse_from_rfc3339`, subtracts
/// the instants (`Sub` of `DateTime`) and turns the difference into a
/// `std::time::Duration` with `TimeDelta::to_std`, which fails for negative
/// differences. The result is named [`rfc3339_elapsed`]; that the nanoseconds
/// stay below one second is what `Duration::subsec_nanos` documents.
#[verifier::external_body]
fn elapsed_between(start: &str, end: &str) -> (r: Option<(u64, u32)>)
    ensures
        r == rfc3339_elapsed(start@, end@),
        r matches Some(p) ==> p.1 < crate::models::NANOS_PER_SEC,
{
    let s = chrono::DateTime::parse_from_rfc3339(start).ok()?;
    let e = chrono::DateTime::parse_from_rfc3339(end).ok()?;
    let d = (e - s).to_std().ok()?;
    Some((d.as_secs(), d.subsec_nanos()))
}

/// The machine's host name: `hostname::get`, converted lossily to text;
/// `None` when the call fails. What it reports depends on the machine and is
/// left unsaid.
#[verifier::external_body]
fn host_name() -> Option<String> {
    hostname::get().ok().map(|h| h.to_string_lossy().to_string())
}

/// The current user's name: `whoami::username`, which falls back to `unknown`
/// itself. What it reports depends on the machine and is left unsaid.
#[verifier::external_body]
fn user_name() -> String {
    whoami::username()
}

/// The time a stopped session spans: from its start to the end of its last
/// command, zero when it has no commands or the times do not give a
/// non-negative span.
pub open spec fn session_span(start_time: Seq<char>, commands: Seq<CommandEvent>) -> (u64, u32) {
    if commands.len() == 0 {
        (0, 0)
    } else {
        match rfc3339_elapsed(start_time, commands.last().end_time@) {
            Some(p) => p,
            None => (0, 0),
        }
    }
}

/// Whether `r` is the session to stop when the active-session lookup gave
/// `active`: the session found, or no active session when the lookup failed.
pub open spec fn stop_outcome(
    active: Result<(String, String), StorageError>,
    r: Result<(String, String), RecorderError>,
) -> bool {
    match active {
        Ok(p) => r matches Ok(q) && q.0@ == p.0@ && q.1@ == p.1@,
        Err(_) => r matches Err(RecorderError::NoActiveSession),
    }
}

/// Stopping twice: once a stop has removed the active-session file, the next
/// stop finds no active session.
pub proof fn lemma_stop_after_stop(
    active: Result<(String, String), StorageError>,
    r: Result<(String, String), RecorderError>,
)
    requires
        storage::active_content_outcome(None, active),
        stop_outcome(active, r),
    ensures
        r matches Err(RecorderError::NoActiveSession),
{
}

/// The commands read back for a session: none when reading failed.
pub open spec fn commands_read(commands: Result<Vec<CommandEvent>, StorageError>) -> Seq<CommandEvent> {
    match commands {
        Ok(c) => c@,
        Err(_) => Seq::empty(),
    }
}

/// Whether `s` is the stopped session `session_id` named `name` with commands
/// `commands`, stamped with time `now`, host name `host` and user name `user`:
/// it starts at its first command (at `now` when it has none), ends at `now`,
/// spans [`session_span`], names the host (`unknown` when there is none) and the
/// user, and carries no tags.
pub open spec fn is_assembled_session(
    s: Session,
    session_id: Seq<char>,
    name: Seq<char>,
    commands: Seq<CommandEvent>,
    now: Seq<char>,
    host: Option<Seq<char>>,
    user: Seq<char>,
) -> bool {
    &&& s.id@ == session_id
    &&& s.name@ == name
    &&& s.commands@ == commands
    &&& s.start_time@ == (if commands.len() > 0 {
        commands[0].start_time@
    } else {
        now
    })
    &&& s.end_time@ == now
    &&& s.duration.secs_part() == session_span(s.start_time@, commands).0
    &&& s.duration.nanos_part() == session_span(s.start_time@, commands).1
    &&& s.hostname@ == (match host {
        Some(h) => h,
        None => "unknown"@,
    })
    &&& s.username@ == user
    &&& s.tags@.len() == 0
}

/// Whether `e` is the event of command `command`, run in `cwd`, that exited
/// with `exit_code` after `duration` and wrote `stdout` and `stderr`, recorded
/// at time `now` after `count` earlier commands: numbered `count + 1`, starting
/// and ending at `now`, its outputs flagged as cut down exactly when they
/// exceed [`PREVIEW_LIMIT`] bytes and kept as [`truncated`] previews, with no tags.
pub open spec fn is_command_event(
    e: CommandEvent,
    count: nat,
    command: Seq<char>,
    cwd: Seq<char>,
    exit_code: i32,
    stdout: Seq<char>,
    stderr: Seq<char>,
    duration: Duration,
    now: Seq<char>,
) -> bool {
    &&& e.sequence == count + 1
    &&& e.command@ == command
    &&& e.cwd@ == cwd
    &&& e.start_time@ == now
    &&& e.end_time@ == now
    &&& e.duration == duration
    &&& e.exit_code == exit_code
    &&& e.stdout_truncated == (byte_len(stdout) > PREVIEW_LIMIT)
    &&& e.stderr_truncated == (byte_len(stderr) > PREVIEW_LIMIT)
    &&& e.stdout_preview@ == truncated(stdout, PREVIEW_LIMIT as nat)
    &&& e.stderr_preview@ == truncated(stderr, PREVIEW_LIMIT as nat)
    &&& e.tags@.len() == 0
}

/// Records terminal sessions into a [`SessionStorage`].
pub struct SessionRecorder {
    storage: SessionStorage,
}

impl SessionRecorder {
    /// A recorder that keeps its sessions in `storage`.
    pub fn new(storage: SessionStorage) -> (r: SessionRecorder)
        ensures
            r.storage()@ == storage@,
    {
        SessionRecorder { storage }
    }

    /// The storage the recorder writes to.
    pub closed spec fn storage(&self) -> SessionStorage {
        self.storage
    }

    /// The storage the recorder writes to.
    pub fn storage_ref(&self) -> (s: &SessionStorage)
        ensures
            *s == self.storage(),
    {
        &self.storage
    }

    /// The id and name of a session about to start: a fresh random id, and the
    /// given name or, without one, the dated name of the current UTC time as
    /// read during the call.
    pub fn new_session_identity(name: Option<String>) -> (r: (String, String))
        ensures
            is_uuid_v4_text(r.0@),
            name matches Some(n) ==> r.1@ == n@,
            name is None ==> "session-"@.is_prefix_of(r.1@) && exists|secs: i64, nanos: u32|
                is_clock_reading(secs, nanos) && r.1@ == #[trigger] utc_formatted(
                    secs,
                    nanos,
                    session_name_pattern(),
                ),
    {
        let id = new_session_id();
        let name = match name {
            Some(n) => n,
            None => {
                let (secs, nanos) = utc_now();
                dated_session_name(secs, nanos)
            },
        };
        (id, name)
    }

    /// The session to stop, from the active-session lookup: any failure of the
    /// lookup means there is no active session.
    pub fn stop_target(active: Result<(String, String), StorageError>) -> (r: Result<(String, String), RecorderError>)
        ensures
            stop_outcome(active, r),
    {
        match active {
            Ok(p) => Ok(p),
            Err(_) => Err(RecorderError::NoActiveSession),
        }
    }

    /// The stopped session `session_id` named `name`, from the commands read
    /// back for it (none when reading failed), stamped with the time `now`, the
    /// host name `host` (`unknown` when there is none) and the user name `user`.
    pub fn assemble_session(
        session_id: String,
        name: String,
        commands: Result<Vec<CommandEvent>, StorageError>,
        now: String,
        host: Option<String>,
        user: String,
    ) -> (s: Session)
        ensures
            is_assembled_session(
                s,
                session_id@,
                name@,
                commands_read(commands),
                now@,
                storage::text_of(host),
                user@,
            ),
    {
        let commands = match commands {
            Ok(c) => c,
            Err(_) => Vec::new(),
        };
        let start_time = if commands.len() > 0 {
            commands[0].start_time.clone()
        } else {
            now.clone()
        };
        let duration = if commands.len() > 0 {
            let last = commands.len() - 1;
            match elapsed_between(start_time.as_str(), commands[last].end_time.as_str()) {
                Some(p) => Duration::new(p.0, p.1),
                None => Duration::zero(),
            }
        } else {
            Duration::zero()
        };
        let hostname = match host {
            Some(h) => h,
            None => String::from_str("unknown"),
        };
        Session {
            id: session_id,
            name,
            start_time,
            end_time: now,
            duration,
            hostname,
            username: user,
            commands,
            tags: Vec::new(),
        }
    }

    /// The stopped session `session_id` named `name`, from the commands read
    /// back for it, stamped with the RFC 3339 text of the current UTC time, the
    /// machine's host name and the current user's name as read during the call.
    pub fn stamp_session(session_id: String, name: String, commands: Result<Vec<CommandEvent>, StorageError>) -> (s: Session)
        ensures
            exists|secs: i64, nanos: u32, host: Option<Seq<char>>, user: Seq<char>|
                is_clock_reading(secs, nanos) && #[trigger] is_assembled_session(
                    s,
                    session_id@,
                    name@,
                    commands_read(commands),
                    rfc3339_text(secs, nanos),
                    host,
                    user,
                ),
    {
        let (secs, nanos) = utc_now();
        let now = rfc3339_at(secs, nanos);
        let host = host_name();
        let user = user_name();
        let ghost (nv, hv, uv) = (now@, storage::text_of(host), user@);
        let s = Self::assemble_session(session_id, name, commands, now, host, user);
        assert(is_assembled_session(
            s,
            session_id@,
            name@,
            commands_read(commands),
            nv,
            hv,
            uv,
        ));
        s
    }

    /// The report of a stopped session, its total duration reading `total_secs`.
    pub fn stop_report(session: &Session, total_secs: &str) -> (r: String)
        ensures
            r@ == "Session '"@ + session.name@ + "' ("@ + session.id@ + ") \u{2014} "@
                + text::nat_text(session.commands@.len()) + " commands, "@ + total_secs@
                + "s total"@,
    {
        let mut r = String::from_str("Session '");
        r.append(session.name.as_str());
        r.append("' (");
        r.append(session.id.as_str());
        r.append(") \u{2014} ");
        push_decimal(&mut r, session.commands.len() as u64);
        r.append(" commands, ");
        r.append(total_secs);
        r.append("s total");
        r
    }

    /// The event of a command recorded at time `now` into a session whose
    /// commands so far are `commands`: numbered after them, its output cut down
    /// to [`PREVIEW_LIMIT`] bytes.
    pub fn command_event_at(
        commands: &Vec<CommandEvent>,
        command: &str,
        cwd: &str,
        exit_code: i32,
        stdout: &str,
        stderr: &str,
        duration: Duration,
        now: &str,
    ) -> (e: CommandEvent)
        requires
            commands@.len() < u64::MAX,
        ensures
            is_command_event(e, commands@.len(), command@, cwd@, exit_code, stdout@, stderr@, duration, now@),
    {
        CommandEvent {
            sequence: commands.len() as u64 + 1,
            command: String::from_str(command),
            cwd: String::from_str(cwd),
            start_time: String::from_str(now),
            end_time: String::from_str(now),
            duration,
            exit_code,
            stdout_truncated: stdout.as_bytes().len() > PREVIEW_LIMIT,
            stderr_truncated: stderr.as_bytes().len() > PREVIEW_LIMIT,
            stdout_preview: truncate_output(stdout, PREVIEW_LIMIT),
            stderr_preview: truncate_output(stderr, PREVIEW_LIMIT),
            tags: Vec::new(),
        }
    }

    /// The event of a command recorded now (the RFC 3339 text of the current
    /// UTC time as read during the call) into a session whose commands so far
    /// are `commands`.
    pub fn new_command_event(
        commands: &Vec<CommandEvent>,
        command: &str,
        cwd: &str,
        exit_code: i32,
        stdout: &str,
        stderr: &str,
        duration: Duration,
    ) -> (e: CommandEvent)
        requires
            commands@.len() < u64::MAX,
        ensures
            exists|secs: i64, nanos: u32|
                is_clock_reading(secs, nanos) && #[trigger] is_command_event(
                    e,
                    commands@.len(),
                    command@,
                    cwd@,
                    exit_code,
                    stdout@,
                    stderr@,
                    duration,
                    rfc3339_text(secs, nanos),
                ),
    {
        let (secs, nanos) = utc_now();
        let now = rfc3339_at(secs, nanos);
        Self::command_event_at(commands, command, cwd, exit_code, stdout, stderr, duration, now.as_str())
    }
}

} // verus!
