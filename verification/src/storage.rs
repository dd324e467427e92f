//! Where sessions live on disk and how stored sessions are read back, rendered
//! and listed. The file operations themselves belong to the program around this
//! library; the layout, the error rules and the renderings are stated here.

use vstd::prelude::*;

use crate::models::{CommandEvent, CommandsFile, Session};
use crate::text::{self, bytes_le_exec, first_line_of, padded_int_text, push_decimal};

verus! {

/// `std::io::Error`, carried through unchanged.
#[verifier::external_type_specification]
#[verifier::external_body]
pub struct ExIoError(std::io::Error);

/// Why a storage operation failed.
#[derive(Debug)]
pub enum StorageError {
    IoError(std::io::Error),
    SerializationError(String),
    NotFound(String),
}

/// Whether `m` is the message of `e`: the I/O error's own text (what its
/// `to_string` gives) after `IO error: `, or the carried text after
/// `Serialization error: ` or `Not found: `.
pub open spec fn is_storage_message(e: StorageError, m: Seq<char>) -> bool {
    match e {
        StorageError::IoError(io) => exists|d: String|
            #[trigger] vstd::string::to_string_from_display_ensures::<std::io::Error>(&io, d) && m
                == "IO error: "@ + d@,
        StorageError::SerializationError(t) => m == "Serialization error: "@ + t@,
        StorageError::NotFound(t) => m == "Not found: "@ + t@,
    }
}

impl StorageError {
    /// The human-readable message of the error.
    pub fn message(&self) -> (m: String)
        ensures
            is_storage_message(*self, m@),
    {
        match self {
            StorageError::IoError(e) => {
                let mut m = String::from_str("IO error: ");
                let detail = e.to_string();
                m.append(detail.as_str());
                m
            },
            StorageError::SerializationError(e) => {
                let mut m = String::from_str("Serialization error: ");
                m.append(e.as_str());
                m
            },
            StorageError::NotFound(msg) => {
                let mut m = String::from_str("Not found: ");
                m.append(msg.as_str());
                m
            },
        }
    }
}

impl From<std::io::Error> for StorageError {
    fn from(e: std::io::Error) -> (r: StorageError)
        ensures
            r == StorageError::IoError(e),
    {
        StorageError::IoError(e)
    }
}

impl vstd::std_specs::convert::FromSpecImpl<std::io::Error> for StorageError {
    open spec fn obeys_from_spec() -> bool {
        true
    }

    open spec fn from_spec(e: std::io::Error) -> StorageError {
        StorageError::IoError(e)
    }
}


/// `base` joined with the relative or absolute path `comp`, as `Path::join`
/// does on Unix: an absolute `comp` replaces `base`; otherwise a `/` separates
/// the two unless `base` is empty or already ends with one.
pub open spec fn path_join(base: Seq<char>, comp: Seq<char>) -> Seq<char> {
    if comp.len() > 0 && comp[0] == '/' {
        comp
    } else if base.len() > 0 && base.last() != '/' {
        base + seq!['/'] + comp
    } else {
        base + comp
    }
}

/// Joins two paths; see [`path_join`].
pub fn join_path(base: &str, comp: &str) -> (p: String)
    ensures
        p@ == path_join(base@, comp@),
{
    let comp_len = comp.unicode_len();
    if comp_len > 0 && comp.get_char(0) == '/' {
        return String::from_str(comp);
    }
    let base_len = base.unicode_len();
    let mut p = String::from_str(base);
    if base_len > 0 && base.get_char(base_len - 1) != '/' {
        crate::text::push_char(&mut p, '/');
    }
    p.append(comp);
    p
}

/// The text of an optional string.
pub open spec fn text_of(s: Option<String>) -> Option<Seq<char>> {
    match s {
        Some(t) => Some(t@),
        None => None,
    }
}

/// The directory under which the recorder keeps its data, for a user data
/// directory `data_dir` (`/tmp` when there is none).
pub open spec fn storage_base(data_dir: Option<Seq<char>>) -> Seq<char> {
    path_join(
        match data_dir {
            Some(d) => d,
            None => "/tmp"@,
        },
        "session-recorder"@,
    )
}

/// The user's local data directory, as `dirs::data_local_dir` finds it from
/// the environment; the path is handed back as text, with any bytes that are
/// not UTF-8 replaced. What it holds depends on the environment and is left
/// unsaid.
#[verifier::external_body]
fn local_data_dir() -> Option<String> {
    dirs::data_local_dir().map(|p| p.to_string_lossy().into_owned())
}

/// File-based session storage: its base directory, under which `sessions/`
/// holds one JSON file per session and `active/active.json` names the session
/// being recorded.
#[derive(Clone)]
pub struct SessionStorage {
    base_dir: String,
}

impl View for SessionStorage {
    type V = Seq<char>;

    /// The base directory.
    closed spec fn view(&self) -> Seq<char> {
        self.base_dir@
    }
}

/// The directory of the session files under base directory `base`.
pub open spec fn sessions_dir_of(base: Seq<char>) -> Seq<char> {
    path_join(base, "sessions"@)
}

/// The file of session `session_id` under base directory `base`.
pub open spec fn commands_path_of(base: Seq<char>, session_id: Seq<char>) -> Seq<char> {
    path_join(sessions_dir_of(base), session_id + ".json"@)
}

/// The active-session file under base directory `base`.
pub open spec fn active_path_of(base: Seq<char>) -> Seq<char> {
    path_join(path_join(base, "active"@), "active.json"@)
}

/// Distinct sessions are kept in distinct files, as long as their ids are not
/// absolute paths.
pub proof fn lemma_session_files_distinct(base: Seq<char>, a: Seq<char>, b: Seq<char>)
    requires
        a.len() == 0 || a[0] != '/',
        b.len() == 0 || b[0] != '/',
        commands_path_of(base, a) == commands_path_of(base, b),
    ensures
        a == b,
{
    reveal_strlit(".json");
    reveal_strlit("sessions");
    let dir = sessions_dir_of(base);
    let ca = a + ".json"@;
    let cb = b + ".json"@;
    assert(ca[0] != '/');
    assert(cb[0] != '/');
    if dir.len() > 0 && dir.last() != '/' {
        assert(commands_path_of(base, a) == dir + seq!['/'] + ca);
        assert(commands_path_of(base, b) == dir + seq!['/'] + cb);
        assert(ca =~= commands_path_of(base, a).skip(dir.len() as int + 1));
        assert(cb =~= commands_path_of(base, b).skip(dir.len() as int + 1));
    } else {
        assert(ca =~= commands_path_of(base, a).skip(dir.len() as int));
        assert(cb =~= commands_path_of(base, b).skip(dir.len() as int));
    }
    assert(ca.len() == cb.len());
    assert(a =~= ca.take(a.len() as int));
    assert(b =~= cb.take(b.len() as int));
}

/// The active-session file is never the file of a session whose id is not an
/// absolute path.
pub proof fn lemma_active_file_apart(base: Seq<char>, session_id: Seq<char>)
    requires
        session_id.len() == 0 || session_id[0] != '/',
    ensures
        active_path_of(base) != commands_path_of(base, session_id),
{
    reveal_strlit(".json");
    reveal_strlit("sessions");
    reveal_strlit("active");
    reveal_strlit("active.json");
    let c = session_id + ".json"@;
    assert(c[0] != '/');
    let act = path_join(base, "active"@);
    let ses = sessions_dir_of(base);
    let at = if base.len() > 0 && base.last() != '/' {
        base.len() as int + 1
    } else {
        base.len() as int
    };
    assert(act[at] == 'a');
    assert(ses[at] == 's');
    assert(act.len() > at && ses.len() > at);
    assert(act.len() > 0 && act.last() != '/');
    assert(ses.len() > 0 && ses.last() != '/');
    assert(active_path_of(base) == act + seq!['/'] + "active.json"@);
    assert(commands_path_of(base, session_id) == ses + seq!['/'] + c);
    assert(active_path_of(base)[at] == 'a');
    assert(commands_path_of(base, session_id)[at] == 's');
}

/// The message of a lookup that found no active session.
pub open spec fn no_active_session_text() -> Seq<char> {
    "No active session"@
}

/// The message of a lookup of a session that is not stored.
pub open spec fn session_not_found_text(session_id: Seq<char>) -> Seq<char> {
    "Session "@ + session_id + " not found"@
}

/// Whether `r` is what reading the active session gives when the
/// active-session file gave `file` (see [`SessionStorage::resolve_active`]).
pub open spec fn active_outcome(
    file: Option<Result<Option<(String, String)>, String>>,
    r: Result<(String, String), StorageError>,
) -> bool {
    match file {
        None => r matches Err(StorageError::NotFound(m)) && m@ == no_active_session_text(),
        Some(Err(reason)) => r matches Err(StorageError::SerializationError(m)) && m@
            == "Invalid active session: "@ + reason@,
        Some(Ok(None)) => r matches Err(StorageError::NotFound(m)) && m@ == no_active_session_text(),
        Some(Ok(Some(p))) => r matches Ok(q) && q.0@ == p.0@ && q.1@ == p.1@,
    }
}

/// What a serde call on an active-session record gave, as text: the record
/// read, or the text written, or the text of the error.
pub ghost enum ActiveText {
    Record(Option<(Seq<char>, Seq<char>)>),
    Text(Seq<char>),
    Failed(Seq<char>),
}

/// What a serde call on an active-session record gave: the record read, or
/// the text written, or the text of the error.
pub enum ActiveFileText {
    Record(Option<(String, String)>),
    Text(String),
    Failed(String),
}

impl View for ActiveFileText {
    type V = ActiveText;

    open spec fn view(&self) -> ActiveText {
        match self {
            ActiveFileText::Record(Some(p)) => ActiveText::Record(Some((p.0@, p.1@))),
            ActiveFileText::Record(None) => ActiveText::Record(None),
            ActiveFileText::Text(t) => ActiveText::Text(t@),
            ActiveFileText::Failed(m) => ActiveText::Failed(m@),
        }
    }
}

/// What `serde_json::from_str` finds, as an optional pair of strings, in the
/// active-session file text `content`, or the text of its error.
pub uninterp spec fn parsed_active(content: Seq<char>) -> ActiveText;

/// Parses the active-session file text with `serde_json::from_str` into an
/// optional pair of strings; a failure is handed back as the text of the
/// error. The result is named [`parsed_active`].
#[verifier::external_body]
fn parse_active(content: &str) -> (r: ActiveFileText)
    ensures
        r@ == parsed_active(content@),
        !(r is Text),
{
    match serde_json::from_str::<Option<(String, String)>>(content) {
        Ok(record) => ActiveFileText::Record(record),
        Err(e) => ActiveFileText::Failed(e.to_string()),
    }
}

/// What `serde_json::to_string_pretty` writes for the active-session record
/// `Some((session_id, name))`, or the text of its error.
pub uninterp spec fn rendered_active(session_id: Seq<char>, name: Seq<char>) -> ActiveText;

/// Writes the active-session record `Some((session_id, name))` with
/// `serde_json::to_string_pretty`; a failure would be handed back as the text
/// of the error. The result is named [`rendered_active`]. Two facts of
/// serde_json's source stand beside the name: writing a pair of strings does
/// not fail (its documented failures are `Serialize` impls that fail and maps
/// with non-string keys), and `serde_json::from_str` reads the written text
/// back as the same record (strings are written escaped and parsed unescaped).
#[verifier::external_body]
fn render_active(session_id: &str, name: &str) -> (r: ActiveFileText)
    ensures
        r@ == rendered_active(session_id@, name@),
        r is Text,
        r matches ActiveFileText::Text(t) ==> parsed_active(t@) == ActiveText::Record(
            Some((session_id@, name@)),
        ),
{
    match serde_json::to_string_pretty(&Some((session_id, name))) {
        Ok(t) => ActiveFileText::Text(t),
        Err(e) => ActiveFileText::Failed(e.to_string()),
    }
}

/// Whether `r` is what reading the active session gives when the file's text
/// is `content` (`None` when there is no file): the record found in it, or
/// `No active session` when there is none, or the parse error's text after
/// `Invalid active session: `.
pub open spec fn active_content_outcome(content: Option<&str>, r: Result<(String, String), StorageError>) -> bool {
    match content {
        None => r matches Err(StorageError::NotFound(m)) && m@ == no_active_session_text(),
        Some(c) => match parsed_active(c@) {
            ActiveText::Failed(reason) => r matches Err(StorageError::SerializationError(m)) && m@
                == "Invalid active session: "@ + reason,
            ActiveText::Record(None) => r matches Err(StorageError::NotFound(m)) && m@
                == no_active_session_text(),
            ActiveText::Record(Some(p)) => r matches Ok(q) && q.0@ == p.0 && q.1@ == p.1,
            ActiveText::Text(_) => false,
        },
    }
}

/// The active-session file's text read back gives the session that was
/// written: when `content` is text that `serde_json` parses to the record
/// `Some((session_id, name))` (as [`SessionStorage::active_file_content`]
/// promises of what it writes), reading the active session from it gives back
/// `session_id` and `name`.
pub proof fn lemma_active_file_round_trip(
    content: &str,
    session_id: Seq<char>,
    name: Seq<char>,
    r: Result<(String, String), StorageError>,
)
    requires
        parsed_active(content@) == ActiveText::Record(Some((session_id, name))),
        active_content_outcome(Some(content), r),
    ensures
        r matches Ok(q) && q.0@ == session_id && q.1@ == name,
{
}

impl SessionStorage {
    /// Storage rooted under the user data directory `data_dir`, or under `/tmp`
    /// when there is none.
    pub fn from_data_dir(data_dir: Option<String>) -> (s: SessionStorage)
        ensures
            s@ == storage_base(text_of(data_dir)),
    {
        let dir = match data_dir {
            Some(d) => d,
            None => String::from_str("/tmp"),
        };
        SessionStorage { base_dir: join_path(dir.as_str(), "session-recorder") }
    }

    /// Storage rooted under the user's local data directory (`/tmp` when the
    /// environment names none).
    pub fn locate() -> (s: SessionStorage)
        ensures
            exists|d: Option<Seq<char>>| s@ == storage_base(d),
    {
        let dir = local_data_dir();
        let ghost d = text_of(dir);
        let s = Self::from_data_dir(dir);
        assert(s@ == storage_base(d));
        s
    }

    /// The base directory.
    pub fn base_dir(&self) -> (b: &String)
        ensures
            b@ == self@,
    {
        &self.base_dir
    }

    /// The directory of the session files.
    pub fn sessions_dir(&self) -> (p: String)
        ensures
            p@ == sessions_dir_of(self@),
    {
        join_path(self.base_dir.as_str(), "sessions")
    }

    /// The directory of the active-session marker.
    pub fn active_dir(&self) -> (p: String)
        ensures
            p@ == path_join(self@, "active"@),
    {
        join_path(self.base_dir.as_str(), "active")
    }

    /// The file that names the session being recorded.
    pub fn active_path(&self) -> (p: String)
        ensures
            p@ == active_path_of(self@),
    {
        let dir = self.active_dir();
        join_path(dir.as_str(), "active.json")
    }

    /// The file of the session `session_id`: its commands while it is being
    /// recorded, the whole session once it is stopped.
    pub fn commands_path(&self, session_id: &str) -> (p: String)
        ensures
            p@ == commands_path_of(self@, session_id@),
    {
        let dir = self.sessions_dir();
        let mut file_name = String::from_str(session_id);
        file_name.append(".json");
        join_path(dir.as_str(), file_name.as_str())
    }

    /// The outcome of reading the active session from what the active-session
    /// file gave: `None` when the file does not exist, `Some(Err(reason))` when
    /// its content does not parse, `Some(Ok(record))` otherwise.
    pub fn resolve_active(file: Option<Result<Option<(String, String)>, String>>) -> (r: Result<(String, String), StorageError>)
        ensures
            active_outcome(file, r),
    {
        match file {
            None => Err(StorageError::NotFound(String::from_str("No active session"))),
            Some(Err(reason)) => {
                let mut m = String::from_str("Invalid active session: ");
                m.append(reason.as_str());
                Err(StorageError::SerializationError(m))
            },
            Some(Ok(None)) => Err(StorageError::NotFound(String::from_str("No active session"))),
            Some(Ok(Some(p))) => Ok(p),
        }
    }

    /// What the active-session file holds after `set_active_session(session_id,
    /// name)`: the JSON text of the record, which reads back as that record.
    pub fn active_file_content(session_id: &str, name: &str) -> (r: Result<String, StorageError>)
        ensures
            r matches Ok(x) && rendered_active(session_id@, name@) == ActiveText::Text(x@)
                && parsed_active(x@) == ActiveText::Record(Some((session_id@, name@))),
    {
        match render_active(session_id, name) {
            ActiveFileText::Text(t) => Ok(t),
            ActiveFileText::Failed(m) => Err(StorageError::SerializationError(m)),
            ActiveFileText::Record(_) => Err(StorageError::SerializationError(String::new())),
        }
    }

    /// The active session read from the active-session file: `content` is
    /// `None` when the file does not exist and its text otherwise.
    pub fn active_from_content(content: Option<&str>) -> (r: Result<(String, String), StorageError>)
        ensures
            active_content_outcome(content, r),
    {
        match content {
            None => Self::resolve_active(None),
            Some(c) => match parse_active(c) {
                ActiveFileText::Record(record) => Self::resolve_active(Some(Ok(record))),
                ActiveFileText::Failed(m) => Self::resolve_active(Some(Err(m))),
                ActiveFileText::Text(_) => Self::resolve_active(Some(Err(String::new()))),
            },
        }
    }

    /// The error of a lookup of the session `session_id` that is not stored.
    pub fn session_not_found(session_id: &str) -> (e: StorageError)
        ensures
            e matches StorageError::NotFound(m) && m@ == session_not_found_text(session_id@),
    {
        let mut m = String::from_str("Session ");
        m.append(session_id);
        m.append(" not found");
        StorageError::NotFound(m)
    }
}


/// The lower-case form of `s` under Unicode rules, as `str::to_lowercase`
/// computes it.
pub uninterp spec fn lowercase(s: Seq<char>) -> Seq<char>;

/// Calls `str::to_lowercase`; its result is named [`lowercase`].
#[verifier::external_body]
fn to_lowercase(s: &str) -> (r: String)
    ensures
        r@ == lowercase(s@),
{
    s.to_lowercase()
}

/// How a stored session or a listing is rendered.
#[derive(Debug, Clone, Copy, PartialEq, Eq, Structural)]
pub enum SessionFormat {
    Json,
    Yaml,
    Text,
}

/// The rendering that the format name `name` selects: `json` or `yaml` in any
/// letter case, plain text for every other name.
pub open spec fn format_named(name: Seq<char>) -> SessionFormat {
    if lowercase(name) == "json"@ {
        SessionFormat::Json
    } else if lowercase(name) == "yaml"@ {
        SessionFormat::Yaml
    } else {
        SessionFormat::Text
    }
}

/// Format names that differ only in letter case select the same rendering: names
/// with the same lower-case form select the same format.
pub proof fn lemma_format_case_insensitive(a: Seq<char>, b: Seq<char>)
    requires
        lowercase(a) == lowercase(b),
    ensures
        format_named(a) == format_named(b),
{
}

impl SessionFormat {
    /// The rendering that the format name `name` selects.
    pub fn from_name(name: &str) -> (f: SessionFormat)
        ensures
            f == format_named(name@),
    {
        let lowered = to_lowercase(name);
        if lowered == String::from_str("json") {
            SessionFormat::Json
        } else if lowered == String::from_str("yaml") {
            SessionFormat::Yaml
        } else {
            SessionFormat::Text
        }
    }
}

/// The header of the text rendering of `s`, whose total duration reads `total`.
pub open spec fn session_header(s: Session, total: Seq<char>) -> Seq<char> {
    "Session: "@ + s.name@ + "\n"@ + "ID: "@ + s.id@ + "\n"@ + "Started: "@ + s.start_time@ + "\n"@
        + "Ended: "@ + s.end_time@ + "\n"@ + "Duration: "@ + total + "s\n"@ + "Host: "@
        + s.username@ + "@"@ + s.hostname@ + "\n"@ + "Commands: "@ + text::nat_text(s.commands@.len())
        + "\n"@ + "\n--- Commands ---\n"@
}

/// The text rendering of one command whose duration reads `d`.
pub open spec fn command_entry(c: CommandEvent, d: Seq<char>) -> Seq<char> {
    "\n["@ + text::nat_text(c.sequence as nat) + "] #"@ + c.command@ + " exit="@ + text::pad_left(
        text::int_text(c.exit_code as int),
        3,
    ) + " "@ + d + "s\n  "@ + text::first_line(c.stdout_preview@) + "\n"@
}

/// The text renderings of the commands `cs`, the duration of `cs[i]` reading `ds[i]`.
pub open spec fn command_entries(cs: Seq<CommandEvent>, ds: Seq<Seq<char>>) -> Seq<char>
    decreases cs.len(),
{
    if cs.len() == 0 {
        Seq::empty()
    } else {
        command_entries(cs.drop_last(), ds) + command_entry(cs.last(), ds[cs.len() - 1])
    }
}

/// Appending a command appends its entry: the rendering of `cs` followed by
/// `c` is the rendering of `cs` followed by the entry of `c`, whatever `c` holds.
pub proof fn lemma_command_entries_push(cs: Seq<CommandEvent>, c: CommandEvent, ds: Seq<Seq<char>>)
    ensures
        command_entries(cs.push(c), ds) == command_entries(cs, ds) + command_entry(c, ds[cs.len() as int]),
{
    assert(cs.push(c).drop_last() =~= cs);
}

/// Every command has its entry, in order: for each position `i`, the
/// renderings of the commands before `i`, then the entry of command `i`, form
/// the beginning of the rendering of all the commands.
pub proof fn lemma_command_entries_in_order(cs: Seq<CommandEvent>, ds: Seq<Seq<char>>, i: int)
    requires
        0 <= i < cs.len(),
    ensures
        (command_entries(cs.take(i), ds) + command_entry(cs[i], ds[i])).is_prefix_of(
            command_entries(cs, ds),
        ),
    decreases cs.len(),
{
    if i == cs.len() - 1 {
        assert(cs.take(i) =~= cs.drop_last());
        assert(command_entries(cs, ds) == command_entries(cs.take(i), ds) + command_entry(cs[i], ds[i]));
    } else {
        let init = cs.drop_last();
        lemma_command_entries_in_order(init, ds, i);
        assert(init.take(i) =~= cs.take(i));
        assert(init[i] == cs[i]);
        let p = command_entries(cs.take(i), ds) + command_entry(cs[i], ds[i]);
        assert(command_entries(cs, ds) == command_entries(init, ds) + command_entry(cs.last(), ds[cs.len() - 1]));
        assert forall|j: int| 0 <= j < p.len() implies p[j] == command_entries(cs, ds)[j] by {
            assert(p[j] == command_entries(init, ds)[j]);
        }
    }
}

/// The rendering of a session holds, after its header, the entry of every
/// command in order: for each position `i`, the header, the entries before
/// `i` and the entry of command `i` form the beginning of the text.
pub proof fn lemma_session_text_lists_every_command(s: Session, total: Seq<char>, ds: Seq<Seq<char>>, i: int)
    requires
        0 <= i < s.commands@.len(),
    ensures
        (session_header(s, total) + command_entries(s.commands@.take(i), ds) + command_entry(
            s.commands@[i],
            ds[i],
        )).is_prefix_of(session_text(s, total, ds)),
{
    lemma_command_entries_in_order(s.commands@, ds, i);
    let h = session_header(s, total);
    let p = command_entries(s.commands@.take(i), ds) + command_entry(s.commands@[i], ds[i]);
    let whole = command_entries(s.commands@, ds);
    assert(h + command_entries(s.commands@.take(i), ds) + command_entry(s.commands@[i], ds[i]) =~= h + p);
    assert forall|j: int| 0 <= j < (h + p).len() implies (h + p)[j] == (h + whole)[j] by {
        if j >= h.len() {
            assert(p[j - h.len()] == whole[j - h.len()]);
        }
    }
}

/// The texts of a list of strings.
pub open spec fn texts(v: Seq<String>) -> Seq<Seq<char>> {
    v.map_values(|t: String| t@)
}

/// The text rendering of session `s`, with the total duration reading `total`
/// and the duration of command `i` reading `ds[i]`.
pub open spec fn session_text(s: Session, total: Seq<char>, ds: Seq<Seq<char>>) -> Seq<char> {
    session_header(s, total) + command_entries(s.commands@, ds)
}

impl SessionStorage {
    /// The text rendering of `session`. Durations are shown in seconds with the
    /// digits that `total_secs` (for the session) and `command_secs[i]` (for
    /// command `i`) hold.
    pub fn format_text_session(&self, session: &Session, total_secs: &str, command_secs: &Vec<String>) -> (out: String)
        requires
            command_secs@.len() == session.commands@.len(),
        ensures
            out@ == session_text(*session, total_secs@, texts(command_secs@)),
    {
        let mut out = String::new();
        out.append("Session: ");
        out.append(session.name.as_str());
        out.append("\n");
        out.append("ID: ");
        out.append(session.id.as_str());
        out.append("\n");
        out.append("Started: ");
        out.append(session.start_time.as_str());
        out.append("\n");
        out.append("Ended: ");
        out.append(session.end_time.as_str());
        out.append("\n");
        out.append("Duration: ");
        out.append(total_secs);
        out.append("s\n");
        out.append("Host: ");
        out.append(session.username.as_str());
        out.append("@");
        out.append(session.hostname.as_str());
        out.append("\n");
        out.append("Commands: ");
        push_decimal(&mut out, session.commands.len() as u64);
        out.append("\n");
        out.append("\n--- Commands ---\n");
        assert(out@ =~= session_header(*session, total_secs@));
        let ghost ds = texts(command_secs@);
        let n = session.commands.len();
        let mut i: usize = 0;
        while i < n
            invariant
                n == session.commands@.len(),
                n == command_secs@.len(),
                ds == texts(command_secs@),
                i <= n,
                out@ == session_header(*session, total_secs@) + command_entries(
                    session.commands@.take(i as int),
                    ds,
                ),
            decreases n - i,
        {
            let cmd = &session.commands[i];
            let ghost before = out@;
            out.append("\n[");
            push_decimal(&mut out, cmd.sequence);
            out.append("] #");
            out.append(cmd.command.as_str());
            out.append(" exit=");
            let exit = padded_int_text(cmd.exit_code, 3);
            out.append(exit.as_str());
            out.append(" ");
            out.append(command_secs[i].as_str());
            out.append("s\n  ");
            let line = first_line_of(cmd.stdout_preview.as_str());
            out.append(line.as_str());
            out.append("\n");
            assert(out@ =~= before + command_entry(*cmd, ds[i as int]));
            assert(session.commands@.take(i + 1).drop_last() =~= session.commands@.take(i as int));
            i = i + 1;
        }
        assert(session.commands@.take(n as int) =~= session.commands@);
        out
    }
}


/// The bytes by which session `i` of `sessions` is ordered: those of its start time.
pub open spec fn start_key(sessions: Seq<Session>, i: int) -> Seq<u8> {
    vstd::utf8::encode_utf8(sessions[i].start_time@)
}

/// `order` lists the positions of `sessions` newest first: each position once,
/// start times descending in byte order, and sessions with equal start times
/// in the order in which they were given.
pub open spec fn is_newest_first(sessions: Seq<Session>, order: Seq<usize>) -> bool {
    &&& order.len() == sessions.len()
    &&& forall|i: int| 0 <= i < order.len() ==> #[trigger] order[i] < sessions.len()
    &&& forall|i: int, j: int| 0 <= i < j < order.len() ==> order[i] != order[j]
    &&& forall|i: int, j: int|
        0 <= i < j < order.len() ==> text::bytes_le(
            start_key(sessions, order[j] as int),
            start_key(sessions, order[i] as int),
        )
    &&& forall|i: int, j: int|
        0 <= i < j < order.len() && start_key(sessions, order[i] as int) == start_key(
            sessions,
            order[j] as int,
        ) ==> order[i] < order[j]
}

/// Whether position `v` occurs in `order`.
spec fn occurs_in(order: Seq<usize>, v: int) -> bool {
    exists|i: int| 0 <= i < order.len() && order[i] == v
}

/// A list of `n` distinct positions below `n` names every position below `n`.
proof fn lemma_order_covers(order: Seq<usize>, n: nat)
    requires
        order.len() == n,
        forall|i: int| 0 <= i < order.len() ==> #[trigger] order[i] < n,
        forall|i: int, j: int| 0 <= i < j < order.len() ==> order[i] != order[j],
    ensures
        forall|v: int| 0 <= v < n ==> #[trigger] occurs_in(order, v),
{
    let s = order.map_values(|x: usize| x as int);
    assert forall|i: int, j: int| 0 <= i < s.len() && 0 <= j < s.len() && i != j implies s[i]
        != s[j] by {
        if i < j {
            assert(order[i] != order[j]);
        } else {
            assert(order[j] != order[i]);
        }
    }
    assert(s.no_duplicates());
    s.unique_seq_to_set();
    vstd::set_lib::lemma_int_range(0, n as int);
    vstd::seq_lib::seq_to_set_is_finite(s);
    assert forall|v: int| s.to_set().contains(v) implies vstd::set_lib::set_int_range(
        0,
        n as int,
    ).contains(v) by {
        let i = choose|i: int| 0 <= i < s.len() && s[i] == v;
        assert(order[i] < n);
    }
    vstd::set_lib::lemma_subset_equality(s.to_set(), vstd::set_lib::set_int_range(0, n as int));
    assert forall|v: int| 0 <= v < n implies #[trigger] occurs_in(order, v) by {
        assert(vstd::set_lib::set_int_range(0, n as int).contains(v));
        assert(s.to_set().contains(v));
        let i = choose|i: int| 0 <= i < s.len() && s[i] == v;
        assert(order[i] == v);
    }
}

proof fn lemma_newest_first_prefix(sessions: Seq<Session>, o1: Seq<usize>, o2: Seq<usize>, k: int)
    requires
        is_newest_first(sessions, o1),
        is_newest_first(sessions, o2),
        0 <= k <= o1.len(),
    ensures
        forall|i: int| 0 <= i < k ==> o1[i] == o2[i],
    decreases k,
{
    if k > 0 {
        let i = k - 1;
        lemma_newest_first_prefix(sessions, o1, o2, i);
        let n = sessions.len();
        lemma_order_covers(o1, n);
        lemma_order_covers(o2, n);
        let x = o1[i];
        let y = o2[i];
        if x != y {
            assert(o1[i] < n);
            assert(o2[i] < n);
            assert(occurs_in(o2, x as int));
            assert(occurs_in(o1, y as int));
            let j = choose|j: int| 0 <= j < o2.len() && o2[j] == x as int;
            let l = choose|l: int| 0 <= l < o1.len() && o1[l] == y as int;
            if j < i {
                assert(o1[j] == o2[j]);
            }
            if l < i {
                assert(o1[l] == o2[l]);
            }
            assert(j > i);
            assert(l > i);
            let kx = start_key(sessions, x as int);
            let ky = start_key(sessions, y as int);
            assert(text::bytes_le(ky, kx));
            assert(text::bytes_le(kx, ky));
            text::lemma_bytes_le_antisymmetric(kx, ky);
            assert(x < y);
            assert(y < x);
        }
    }
}

/// The newest-first order of a list of sessions is unique: any two orders
/// that both list the sessions newest first, stably, are the same.
pub proof fn lemma_newest_first_unique(sessions: Seq<Session>, o1: Seq<usize>, o2: Seq<usize>)
    requires
        is_newest_first(sessions, o1),
        is_newest_first(sessions, o2),
    ensures
        o1 == o2,
{
    lemma_newest_first_prefix(sessions, o1, o2, o1.len() as int);
    assert(o1 =~= o2);
}

/// Whether the start time of `a` is at most that of `b`.
fn starts_no_later(a: &Session, b: &Session) -> (r: bool)
    ensures
        r == text::bytes_le(vstd::utf8::encode_utf8(a.start_time@), vstd::utf8::encode_utf8(b.start_time@)),
{
    bytes_le_exec(a.start_time.as_str().as_bytes(), b.start_time.as_str().as_bytes())
}

/// The order in which sessions are listed: newest start time first, a stable
/// sort by start time descending.
pub fn newest_first(sessions: &Vec<Session>) -> (order: Vec<usize>)
    ensures
        is_newest_first(sessions@, order@),
{
    let n = sessions.len();
    let mut order: Vec<usize> = Vec::new();
    let mut k: usize = 0;
    while k < n
        invariant
            n == sessions@.len(),
            k <= n,
            order@.len() == k,
            forall|i: int| 0 <= i < order@.len() ==> #[trigger] order@[i] < k,
            forall|i: int, j: int| 0 <= i < j < order@.len() ==> order@[i] != order@[j],
            forall|i: int, j: int|
                0 <= i < j < order@.len() ==> text::bytes_le(
                    start_key(sessions@, order@[j] as int),
                    start_key(sessions@, order@[i] as int),
                ),
            forall|i: int, j: int|
                0 <= i < j < order@.len() && start_key(sessions@, order@[i] as int) == start_key(
                    sessions@,
                    order@[j] as int,
                ) ==> order@[i] < order@[j],
        decreases n - k,
    {
        let mut p: usize = 0;
        while p < order.len() && starts_no_later(&sessions[k], &sessions[order[p]])
            invariant
                n == sessions@.len(),
                k < n,
                p <= order@.len(),
                forall|i: int| 0 <= i < order@.len() ==> #[trigger] order@[i] < k,
                forall|i: int|
                    0 <= i < p ==> text::bytes_le(
                        start_key(sessions@, k as int),
                        start_key(sessions@, #[trigger] order@[i] as int),
                    ),
            decreases order@.len() - p,
        {
            p = p + 1;
        }
        let ghost old_order = order@;
        let ghost kk = start_key(sessions@, k as int);
        proof {
            if p < old_order.len() {
                text::lemma_bytes_le_total(kk, start_key(sessions@, old_order[p as int] as int));
                assert forall|i: int| p <= i < old_order.len() implies text::bytes_le(
                    start_key(sessions@, #[trigger] old_order[i] as int),
                    kk,
                ) && start_key(sessions@, old_order[i] as int) != kk by {
                    if i > p {
                        text::lemma_bytes_le_transitive(
                            start_key(sessions@, old_order[i] as int),
                            start_key(sessions@, old_order[p as int] as int),
                            kk,
                        );
                    }
                    if start_key(sessions@, old_order[i] as int) == kk {
                        if i > p {
                            text::lemma_bytes_le_transitive(
                                kk,
                                start_key(sessions@, old_order[i] as int),
                                start_key(sessions@, old_order[p as int] as int),
                            );
                        }
                    }
                }
            }
        }
        order.insert(p, k);
        proof {
            let o = order@;
            assert(o == old_order.insert(p as int, k));
            assert forall|i: int| 0 <= i < o.len() implies #[trigger] o[i] < k + 1 by {
                if i < p {
                    assert(o[i] == old_order[i]);
                } else if i > p {
                    assert(o[i] == old_order[i - 1]);
                }
            }
            assert forall|i: int, j: int| 0 <= i < j < o.len() implies o[i] != o[j] by {
                if i < p && j < p {
                } else if i < p && j == p {
                    assert(o[i] == old_order[i]);
                } else if i < p {
                    assert(o[j] == old_order[j - 1]);
                } else if i == p {
                    assert(o[j] == old_order[j - 1]);
                } else {
                    assert(o[i] == old_order[i - 1]);
                    assert(o[j] == old_order[j - 1]);
                }
            }
            assert forall|i: int, j: int| 0 <= i < j < o.len() implies text::bytes_le(
                start_key(sessions@, o[j] as int),
                start_key(sessions@, o[i] as int),
            ) && (start_key(sessions@, o[i] as int) == start_key(sessions@, o[j] as int) ==> o[i]
                < o[j]) by {
                if j < p {
                    assert(o[i] == old_order[i] && o[j] == old_order[j]);
                } else if j == p {
                    assert(o[i] == old_order[i]);
                    assert(old_order[i] < k);
                } else if i < p {
                    assert(o[i] == old_order[i]);
                    assert(o[j] == old_order[j - 1]);
                    assert(text::bytes_le(kk, start_key(sessions@, old_order[i] as int)));
                    assert(text::bytes_le(start_key(sessions@, old_order[j - 1] as int), kk));
                    text::lemma_bytes_le_transitive(
                        start_key(sessions@, old_order[j - 1] as int),
                        kk,
                        start_key(sessions@, old_order[i] as int),
                    );
                    if start_key(sessions@, o[i] as int) == start_key(sessions@, o[j] as int) {
                        assert(i < j - 1 || i == j - 1);
                        if i == j - 1 {
                            assert(false);
                        }
                    }
                } else if i == p {
                    assert(o[j] == old_order[j - 1]);
                    assert(o[i] == k);
                } else {
                    assert(o[i] == old_order[i - 1]);
                    assert(o[j] == old_order[j - 1]);
                }
            }
        }
        k = k + 1;
    }
    order
}

} // verus!
