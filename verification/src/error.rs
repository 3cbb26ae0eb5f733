//! What can go wrong in a tmux operation, and how it reads.

use crate::number::{decimal, decimal_text};
use crate::version::{
    min_supported_version, minimum_release, printed_release, Release, TmuxVersion,
};
use vstd::prelude::*;

verus! {

/// What `{:?}` writes for a text: the text in double quotes, with escapes.
pub uninterp spec fn debug_quoted(text: Seq<char>) -> Seq<char>;

/// `format!` with `{:?}` on a `str`. The contract claims that what it writes
/// depends on the text alone; which characters it escapes is left unsaid.
#[verifier::external_body]
fn debug_text(text: &str) -> (s: String)
    ensures
        s@ == debug_quoted(text@),
{
    format!("{:?}", text)
}

/// Why a tmux operation failed.
#[derive(Debug)]
pub enum TmuxError {
    /// A slug that is not small letters and digits in hyphen-separated parts.
    InvalidSlug { slug: String },
    /// An agent session without an id.
    EmptySessionId,
    /// `tmux -V` output that names no release.
    UnrecognizedVersion { output: String },
    /// A release below the supported minimum.
    VersionTooOld { version: TmuxVersion },
    /// No `tmux` on the search path.
    NotInstalled,
    /// A configured socket that is no absolute path.
    SocketPath { path: String },
    /// A process record without exactly four fields.
    ProcessFieldCount { count: usize },
    /// A `pane_dead` field that is neither `0` nor `1`.
    PaneDead { value: String },
    /// A `pane_dead_status` field that is no exit code.
    PaneDeadStatus { value: String },
    /// A metadata record without a pane id.
    MetadataPaneId,
    /// A metadata record without a start command.
    MetadataStartCommand,
    /// A metadata record without a current path.
    MetadataCurrentPath,
    /// A session record without an activity field.
    SessionActivityMissing,
    /// A session record without an attached-client field.
    SessionAttachedMissing,
    /// A session record without a name.
    SessionNameEmpty,
    /// A `session_attached` field that is no count.
    SessionAttached { value: String },
    /// A `session_activity` field that is no time.
    SessionActivity { value: String },
    /// A tmux command that could not be run; `cause` says why.
    Launch { what: String, cause: String },
    /// A tmux command that exited with a failure.
    CommandFailed { what: String, status: String, stderr: String },
    /// A second attempt to create a session that exited with a failure.
    PrepareRetryFailed { stderr: String },
    /// A tmux command whose output is no UTF-8 text.
    NotUtf8 { what: String },
    /// A working directory that is no UTF-8 text.
    WorkdirNotUtf8,
    /// A tmux session name without a character.
    NameEmpty,
    /// A tmux session name in the owned namespace.
    NameReserved,
    /// A session that is not there any more.
    SessionGone { name: String },
    /// A session whose panes show no single agent.
    NoDetectedAgent { name: String },
    /// Process and metadata listings of different length.
    PaneCountsDiffer,
    /// Two process records of one pane.
    DuplicateProcessIds,
    /// Two metadata records of one pane.
    DuplicateMetadataIds,
    /// A pane with a process record and no metadata record.
    PaneIdsDiffer,
}

/// A [`TmuxError`] over mathematical values.
pub enum Failure {
    /// A slug that is not small letters and digits in hyphen-separated parts.
    InvalidSlug { slug: Seq<char> },
    /// An agent session without an id.
    EmptySessionId,
    /// `tmux -V` output that names no release.
    UnrecognizedVersion { output: Seq<char> },
    /// A release below the supported minimum.
    VersionTooOld { version: Release },
    /// No `tmux` on the search path.
    NotInstalled,
    /// A configured socket that is no absolute path.
    SocketPath { path: Seq<char> },
    /// A process record without exactly four fields.
    ProcessFieldCount { count: nat },
    /// A `pane_dead` field that is neither `0` nor `1`.
    PaneDead { value: Seq<char> },
    /// A `pane_dead_status` field that is no exit code.
    PaneDeadStatus { value: Seq<char> },
    /// A metadata record without a pane id.
    MetadataPaneId,
    /// A metadata record without a start command.
    MetadataStartCommand,
    /// A metadata record without a current path.
    MetadataCurrentPath,
    /// A session record without an activity field.
    SessionActivityMissing,
    /// A session record without an attached-client field.
    SessionAttachedMissing,
    /// A session record without a name.
    SessionNameEmpty,
    /// A `session_attached` field that is no count.
    SessionAttached { value: Seq<char> },
    /// A `session_activity` field that is no time.
    SessionActivity { value: Seq<char> },
    /// A tmux command that could not be run; `cause` says why.
    Launch { what: Seq<char>, cause: Seq<char> },
    /// A tmux command that exited with a failure.
    CommandFailed { what: Seq<char>, status: Seq<char>, stderr: Seq<char> },
    /// A second attempt to create a session that exited with a failure.
    PrepareRetryFailed { stderr: Seq<char> },
    /// A tmux command whose output is no UTF-8 text.
    NotUtf8 { what: Seq<char> },
    /// A working directory that is no UTF-8 text.
    WorkdirNotUtf8,
    /// A tmux session name without a character.
    NameEmpty,
    /// A tmux session name in the owned namespace.
    NameReserved,
    /// A session that is not there any more.
    SessionGone { name: Seq<char> },
    /// A session whose panes show no single agent.
    NoDetectedAgent { name: Seq<char> },
    /// Process and metadata listings of different length.
    PaneCountsDiffer,
    /// Two process records of one pane.
    DuplicateProcessIds,
    /// Two metadata records of one pane.
    DuplicateMetadataIds,
    /// A pane with a process record and no metadata record.
    PaneIdsDiffer,
}

impl View for TmuxError {
    type V = Failure;

    open spec fn view(&self) -> Failure {
        match *self {
            TmuxError::InvalidSlug { slug } => Failure::InvalidSlug { slug: slug@ },
            TmuxError::EmptySessionId => Failure::EmptySessionId,
            TmuxError::UnrecognizedVersion { output } => Failure::UnrecognizedVersion {
                output: output@,
            },
            TmuxError::VersionTooOld { version } => Failure::VersionTooOld { version: version@ },
            TmuxError::NotInstalled => Failure::NotInstalled,
            TmuxError::SocketPath { path } => Failure::SocketPath { path: path@ },
            TmuxError::ProcessFieldCount { count } => Failure::ProcessFieldCount {
                count: count as nat,
            },
            TmuxError::PaneDead { value } => Failure::PaneDead { value: value@ },
            TmuxError::PaneDeadStatus { value } => Failure::PaneDeadStatus { value: value@ },
            TmuxError::MetadataPaneId => Failure::MetadataPaneId,
            TmuxError::MetadataStartCommand => Failure::MetadataStartCommand,
            TmuxError::MetadataCurrentPath => Failure::MetadataCurrentPath,
            TmuxError::SessionActivityMissing => Failure::SessionActivityMissing,
            TmuxError::SessionAttachedMissing => Failure::SessionAttachedMissing,
            TmuxError::SessionNameEmpty => Failure::SessionNameEmpty,
            TmuxError::SessionAttached { value } => Failure::SessionAttached { value: value@ },
            TmuxError::SessionActivity { value } => Failure::SessionActivity { value: value@ },
            TmuxError::Launch { what, cause } => Failure::Launch { what: what@, cause: cause@ },
            TmuxError::CommandFailed { what, status, stderr } => Failure::CommandFailed {
                what: what@,
                status: status@,
                stderr: stderr@,
            },
            TmuxError::PrepareRetryFailed { stderr } => Failure::PrepareRetryFailed {
                stderr: stderr@,
            },
            TmuxError::NotUtf8 { what } => Failure::NotUtf8 { what: what@ },
            TmuxError::WorkdirNotUtf8 => Failure::WorkdirNotUtf8,
            TmuxError::NameEmpty => Failure::NameEmpty,
            TmuxError::NameReserved => Failure::NameReserved,
            TmuxError::SessionGone { name } => Failure::SessionGone { name: name@ },
            TmuxError::NoDetectedAgent { name } => Failure::NoDetectedAgent { name: name@ },
            TmuxError::PaneCountsDiffer => Failure::PaneCountsDiffer,
            TmuxError::DuplicateProcessIds => Failure::DuplicateProcessIds,
            TmuxError::DuplicateMetadataIds => Failure::DuplicateMetadataIds,
            TmuxError::PaneIdsDiffer => Failure::PaneIdsDiffer,
        }
    }
}

/// How a failure reads.
pub open spec fn message(failure: Failure) -> Seq<char> {
    match failure {
        Failure::InvalidSlug { slug } => "invalid agent slug: "@ + debug_quoted(slug),
        Failure::EmptySessionId => "empty agent session id"@,
        Failure::UnrecognizedVersion { output } => "unrecognized `tmux -V` output: "@
            + debug_quoted(output),
        Failure::VersionTooOld { version } => "tmux "@ + printed_release(version)
            + " is too old; shared agent sessions require tmux "@
            + printed_release(minimum_release()) + " or newer"@,
        Failure::NotInstalled => "tmux is not installed or not on PATH; install tmux "@
            + printed_release(minimum_release()) + " or newer for shared agent sessions"@,
        Failure::SocketPath { path } => "tmux.socket must be a non-empty absolute path: "@ + path,
        Failure::ProcessFieldCount { count } => "malformed pane process record: expected 4 fields, got "@
            + decimal(count),
        Failure::PaneDead { value } => "malformed pane_dead value "@ + debug_quoted(value),
        Failure::PaneDeadStatus { value } => "malformed pane_dead_status value "@
            + debug_quoted(value),
        Failure::MetadataPaneId => "malformed pane metadata record: no pane id"@,
        Failure::MetadataStartCommand => "malformed pane metadata record: missing start command"@,
        Failure::MetadataCurrentPath => "malformed pane metadata record: missing current path"@,
        Failure::SessionActivityMissing => "malformed tmux session record: missing activity"@,
        Failure::SessionAttachedMissing =>
            "malformed tmux session record: missing attached-client count"@,
        Failure::SessionNameEmpty => "malformed tmux session record: empty name"@,
        Failure::SessionAttached { value } => "malformed session_attached value "@
            + debug_quoted(value),
        Failure::SessionActivity { value } => "malformed session_activity value "@
            + debug_quoted(value),
        Failure::Launch { what, .. } => "tmux "@ + what,
        Failure::CommandFailed { what, status, stderr } => "tmux "@ + what + " failed with "@
            + status + ": "@ + stderr,
        Failure::PrepareRetryFailed { stderr } =>
            "tmux prepare the shared session failed (retry): "@ + stderr,
        Failure::NotUtf8 { what } => "tmux "@ + what + " produced non-UTF-8 output"@,
        Failure::WorkdirNotUtf8 => "workdir is not UTF-8"@,
        Failure::NameEmpty => "empty tmux session name"@,
        Failure::NameReserved => "tmux session names beginning with \"zedra-\" are reserved"@,
        Failure::SessionGone { name } => "tmux session "@ + debug_quoted(name)
            + " no longer exists"@,
        Failure::NoDetectedAgent { name } => "tmux session "@ + debug_quoted(name)
            + " no longer contains a detected agent"@,
        Failure::PaneCountsDiffer => "tmux pane process and metadata counts differ"@,
        Failure::DuplicateProcessIds => "tmux pane process records contain duplicate ids"@,
        Failure::DuplicateMetadataIds => "tmux pane metadata records contain duplicate ids"@,
        Failure::PaneIdsDiffer => "tmux pane process and metadata ids differ"@,
    }
}

impl TmuxError {
    /// The failure in words.
    pub fn to_string(&self) -> (s: String)
        ensures
            s@ == message(self@),
    {
        match self {
            TmuxError::InvalidSlug { slug } => {
                let mut s = "invalid agent slug: ".to_string();
                s.append(debug_text(slug.as_str()).as_str());
                s
            },
            TmuxError::EmptySessionId => "empty agent session id".to_string(),
            TmuxError::UnrecognizedVersion { output } => {
                let mut s = "unrecognized `tmux -V` output: ".to_string();
                s.append(debug_text(output.as_str()).as_str());
                s
            },
            TmuxError::VersionTooOld { version } => {
                let mut s = "tmux ".to_string();
                s.append(version.to_string().as_str());
                s.append(" is too old; shared agent sessions require tmux ");
                s.append(min_supported_version().to_string().as_str());
                s.append(" or newer");
                s
            },
            TmuxError::NotInstalled => {
                let mut s = "tmux is not installed or not on PATH; install tmux ".to_string();
                s.append(min_supported_version().to_string().as_str());
                s.append(" or newer for shared agent sessions");
                s
            },
            TmuxError::SocketPath { path } => {
                let mut s = "tmux.socket must be a non-empty absolute path: ".to_string();
                s.append(path.as_str());
                s
            },
            TmuxError::ProcessFieldCount { count } => {
                let mut s = "malformed pane process record: expected 4 fields, got ".to_string();
                s.append(decimal_text(*count as u64).as_str());
                s
            },
            TmuxError::PaneDead { value } => {
                let mut s = "malformed pane_dead value ".to_string();
                s.append(debug_text(value.as_str()).as_str());
                s
            },
            TmuxError::PaneDeadStatus { value } => {
                let mut s = "malformed pane_dead_status value ".to_string();
                s.append(debug_text(value.as_str()).as_str());
                s
            },
            TmuxError::MetadataPaneId => "malformed pane metadata record: no pane id".to_string(),
            TmuxError::MetadataStartCommand =>
                "malformed pane metadata record: missing start command".to_string(),
            TmuxError::MetadataCurrentPath =>
                "malformed pane metadata record: missing current path".to_string(),
            TmuxError::SessionActivityMissing =>
                "malformed tmux session record: missing activity".to_string(),
            TmuxError::SessionAttachedMissing =>
                "malformed tmux session record: missing attached-client count".to_string(),
            TmuxError::SessionNameEmpty => "malformed tmux session record: empty name".to_string(),
            TmuxError::SessionAttached { value } => {
                let mut s = "malformed session_attached value ".to_string();
                s.append(debug_text(value.as_str()).as_str());
                s
            },
            TmuxError::SessionActivity { value } => {
                let mut s = "malformed session_activity value ".to_string();
                s.append(debug_text(value.as_str()).as_str());
                s
            },
            TmuxError::Launch { what, .. } => {
                let mut s = "tmux ".to_string();
                s.append(what.as_str());
                s
            },
            TmuxError::CommandFailed { what, status, stderr } => {
                let mut s = "tmux ".to_string();
                s.append(what.as_str());
                s.append(" failed with ");
                s.append(status.as_str());
                s.append(": ");
                s.append(stderr.as_str());
                s
            },
            TmuxError::PrepareRetryFailed { stderr } => {
                let mut s = "tmux prepare the shared session failed (retry): ".to_string();
                s.append(stderr.as_str());
                s
            },
            TmuxError::NotUtf8 { what } => {
                let mut s = "tmux ".to_string();
                s.append(what.as_str());
                s.append(" produced non-UTF-8 output");
                s
            },
            TmuxError::WorkdirNotUtf8 => "workdir is not UTF-8".to_string(),
            TmuxError::NameEmpty => "empty tmux session name".to_string(),
            TmuxError::NameReserved =>
                "tmux session names beginning with \"zedra-\" are reserved".to_string(),
            TmuxError::SessionGone { name } => {
                let mut s = "tmux session ".to_string();
                s.append(debug_text(name.as_str()).as_str());
                s.append(" no longer exists");
                s
            },
            TmuxError::NoDetectedAgent { name } => {
                let mut s = "tmux session ".to_string();
                s.append(debug_text(name.as_str()).as_str());
                s.append(" no longer contains a detected agent");
                s
            },
            TmuxError::PaneCountsDiffer =>
                "tmux pane process and metadata counts differ".to_string(),
            TmuxError::DuplicateProcessIds =>
                "tmux pane process records contain duplicate ids".to_string(),
            TmuxError::DuplicateMetadataIds =>
                "tmux pane metadata records contain duplicate ids".to_string(),
            TmuxError::PaneIdsDiffer => "tmux pane process and metadata ids differ".to_string(),
        }
    }
}

// ---------------------------------------------------------------------------
// Laws
// ---------------------------------------------------------------------------

/// A failure that rests on a value names the value: text that was not understood
/// in quotes with escapes, and text that a command or a user gave as it is.
pub proof fn lemma_messages_name_their_value(
    text: Seq<char>,
    what: Seq<char>,
    status: Seq<char>,
    version: Release,
    count: nat,
)
    ensures
        message(Failure::InvalidSlug { slug: text }) == "invalid agent slug: "@ + debug_quoted(
            text,
        ),
        message(Failure::UnrecognizedVersion { output: text })
            == "unrecognized `tmux -V` output: "@ + debug_quoted(text),
        message(Failure::VersionTooOld { version }) == "tmux "@ + printed_release(version)
            + " is too old; shared agent sessions require tmux 3.3a or newer"@,
        message(Failure::SocketPath { path: text })
            == "tmux.socket must be a non-empty absolute path: "@ + text,
        message(Failure::ProcessFieldCount { count })
            == "malformed pane process record: expected 4 fields, got "@ + decimal(count),
        message(Failure::PaneDead { value: text }) == "malformed pane_dead value "@ + debug_quoted(
            text,
        ),
        message(Failure::PaneDeadStatus { value: text }) == "malformed pane_dead_status value "@
            + debug_quoted(text),
        message(Failure::SessionAttached { value: text }) == "malformed session_attached value "@
            + debug_quoted(text),
        message(Failure::SessionActivity { value: text }) == "malformed session_activity value "@
            + debug_quoted(text),
        message(Failure::Launch { what, cause: text }) == "tmux "@ + what,
        message(Failure::CommandFailed { what, status, stderr: text }) == "tmux "@ + what
            + " failed with "@ + status + ": "@ + text,
        message(Failure::PrepareRetryFailed { stderr: text })
            == "tmux prepare the shared session failed (retry): "@ + text,
        message(Failure::NotUtf8 { what }) == "tmux "@ + what + " produced non-UTF-8 output"@,
        message(Failure::SessionGone { name: text }) == "tmux session "@ + debug_quoted(text)
            + " no longer exists"@,
        message(Failure::NoDetectedAgent { name: text }) == "tmux session "@ + debug_quoted(text)
            + " no longer contains a detected agent"@,
{
    let minimum = printed_release(minimum_release());
    crate::version::lemma_supported_minimum();
    reveal_strlit("3.3a");
    reveal_strlit(" is too old; shared agent sessions require tmux ");
    reveal_strlit(" or newer");
    reveal_strlit(" is too old; shared agent sessions require tmux 3.3a or newer");
    assert(" is too old; shared agent sessions require tmux "@ + minimum + " or newer"@
        =~= " is too old; shared agent sessions require tmux 3.3a or newer"@);
    assert(message(Failure::VersionTooOld { version }) =~= "tmux "@ + printed_release(version) + (
    " is too old; shared agent sessions require tmux "@ + minimum + " or newer"@));
}

/// A failure that rests on no value always reads the same.
pub proof fn lemma_messages_without_value()
    ensures
        message(Failure::EmptySessionId) == "empty agent session id"@,
        message(Failure::NotInstalled)
            == "tmux is not installed or not on PATH; install tmux 3.3a or newer for shared agent sessions"@,
        message(Failure::MetadataPaneId) == "malformed pane metadata record: no pane id"@,
        message(Failure::MetadataStartCommand)
            == "malformed pane metadata record: missing start command"@,
        message(Failure::MetadataCurrentPath)
            == "malformed pane metadata record: missing current path"@,
        message(Failure::SessionActivityMissing)
            == "malformed tmux session record: missing activity"@,
        message(Failure::SessionAttachedMissing)
            == "malformed tmux session record: missing attached-client count"@,
        message(Failure::SessionNameEmpty) == "malformed tmux session record: empty name"@,
        message(Failure::WorkdirNotUtf8) == "workdir is not UTF-8"@,
        message(Failure::NameEmpty) == "empty tmux session name"@,
        message(Failure::NameReserved)
            == "tmux session names beginning with \"zedra-\" are reserved"@,
        message(Failure::PaneCountsDiffer) == "tmux pane process and metadata counts differ"@,
        message(Failure::DuplicateProcessIds) == "tmux pane process records contain duplicate ids"@,
        message(Failure::DuplicateMetadataIds)
            == "tmux pane metadata records contain duplicate ids"@,
        message(Failure::PaneIdsDiffer) == "tmux pane process and metadata ids differ"@,
{
    let minimum = printed_release(minimum_release());
    crate::version::lemma_supported_minimum();
    reveal_strlit("3.3a");
    reveal_strlit("tmux is not installed or not on PATH; install tmux ");
    reveal_strlit(" or newer for shared agent sessions");
    reveal_strlit(
        "tmux is not installed or not on PATH; install tmux 3.3a or newer for shared agent sessions",
    );
    assert(message(Failure::NotInstalled)
        =~= "tmux is not installed or not on PATH; install tmux 3.3a or newer for shared agent sessions"@);
}

/// A failure over mathematical values keeps what it carries.
pub proof fn lemma_failures_keep_what_they_carry(error: TmuxError)
    ensures
        error matches TmuxError::InvalidSlug { slug } ==> error@ == (Failure::InvalidSlug {
            slug: slug@,
        }),
        error matches TmuxError::UnrecognizedVersion { output } ==> error@
            == (Failure::UnrecognizedVersion { output: output@ }),
        error matches TmuxError::VersionTooOld { version } ==> error@ == (Failure::VersionTooOld {
            version: version@,
        }),
        error matches TmuxError::SocketPath { path } ==> error@ == (Failure::SocketPath {
            path: path@,
        }),
        error matches TmuxError::ProcessFieldCount { count } ==> error@
            == (Failure::ProcessFieldCount { count: count as nat }),
        error matches TmuxError::PaneDead { value } ==> error@ == (Failure::PaneDead {
            value: value@,
        }),
        error matches TmuxError::PaneDeadStatus { value } ==> error@ == (Failure::PaneDeadStatus {
            value: value@,
        }),
        error matches TmuxError::SessionAttached { value } ==> error@
            == (Failure::SessionAttached { value: value@ }),
        error matches TmuxError::SessionActivity { value } ==> error@
            == (Failure::SessionActivity { value: value@ }),
        error matches TmuxError::Launch { what, cause } ==> error@ == (Failure::Launch {
            what: what@,
            cause: cause@,
        }),
        error matches TmuxError::CommandFailed { what, status, stderr } ==> error@
            == (Failure::CommandFailed { what: what@, status: status@, stderr: stderr@ }),
        error matches TmuxError::PrepareRetryFailed { stderr } ==> error@
            == (Failure::PrepareRetryFailed { stderr: stderr@ }),
        error matches TmuxError::NotUtf8 { what } ==> error@ == (Failure::NotUtf8 { what: what@ }),
        error matches TmuxError::SessionGone { name } ==> error@ == (Failure::SessionGone {
            name: name@,
        }),
        error matches TmuxError::NoDetectedAgent { name } ==> error@
            == (Failure::NoDetectedAgent { name: name@ }),
{
}

} // verus!
