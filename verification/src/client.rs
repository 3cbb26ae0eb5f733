//! The tmux client: how its commands are written, what their replies mean, and
//! the operations on owned sessions.
//!
//! An operation is a function of its arguments and of the replies to the
//! commands it has asked for so far. It answers with the next command to run,
//! or with its result. To carry an operation out, run each command it asks for,
//! add the reply to the list, and ask again.

use crate::encoding::{decode_lossy, string_from_utf8, string_from_utf8_lossy};
use crate::error::{Failure, TmuxError};
use crate::identity::{owned_name, owned_session_name, valid_slug};
use crate::shell::{shell_quote, shell_word};
use crate::text::{contains_text, has_part, starts_with, trim, trimmed};
use crate::version::{
    compare_releases, min_supported_version, minimum_release, parsed_release, supported_version,
    Age, Release, TmuxVersion,
};
use vstd::prelude::*;
use vstd::utf8::{decode_utf8, valid_utf8};

verus! {

/// Subprocess deadline in seconds for every tmux client call; tmux calls are
/// local and fast, so a hung binary must never stall a resume or listing.
pub const COMMAND_TIMEOUT: u64 = 5;

// ---------------------------------------------------------------------------
// The client
// ---------------------------------------------------------------------------

/// How a tmux client selects its server.
#[derive(Debug, PartialEq, Eq)]
pub enum TmuxSocket {
    Default,
    Name(String),
    Path(String),
}

/// A [`TmuxSocket`] over mathematical text.
pub enum Socket {
    Default,
    Name(Seq<char>),
    Path(Seq<char>),
}

impl View for TmuxSocket {
    type V = Socket;

    open spec fn view(&self) -> Socket {
        match *self {
            TmuxSocket::Default => Socket::Default,
            TmuxSocket::Name(name) => Socket::Name(name@),
            TmuxSocket::Path(path) => Socket::Path(path@),
        }
    }
}

impl Clone for TmuxSocket {
    fn clone(&self) -> (copy: Self)
        ensures
            copy@ == self@,
    {
        match self {
            TmuxSocket::Default => TmuxSocket::Default,
            TmuxSocket::Name(name) => TmuxSocket::Name(name.clone()),
            TmuxSocket::Path(path) => TmuxSocket::Path(path.clone()),
        }
    }
}

/// A discovered tmux client.
#[derive(Debug)]
pub struct TmuxClient {
    pub binary: String,
    pub socket: TmuxSocket,
    pub version: TmuxVersion,
}

/// A [`TmuxClient`] over mathematical text.
pub struct Client {
    pub binary: Seq<char>,
    pub socket: Socket,
    pub version: Release,
}

impl View for TmuxClient {
    type V = Client;

    open spec fn view(&self) -> Client {
        Client { binary: self.binary@, socket: self.socket@, version: self.version@ }
    }
}

impl Clone for TmuxClient {
    fn clone(&self) -> (copy: Self)
        ensures
            copy@ == self@,
    {
        TmuxClient {
            binary: self.binary.clone(),
            socket: self.socket.clone(),
            version: self.version.clone(),
        }
    }
}

// ---------------------------------------------------------------------------
// Commands, replies and steps
// ---------------------------------------------------------------------------

/// A tmux command to run: the program and its arguments, and what it is for.
#[derive(Debug, PartialEq, Eq)]
pub struct TmuxCommand {
    pub argv: Vec<String>,
    pub what: String,
}

/// A [`TmuxCommand`] over mathematical text.
pub struct Command {
    pub argv: Seq<Seq<char>>,
    pub what: Seq<char>,
}

impl View for TmuxCommand {
    type V = Command;

    open spec fn view(&self) -> Command {
        Command { argv: crate::text::texts(self.argv@), what: self.what@ }
    }
}

/// What a command that ran has left: its exit status, whether that is success,
/// its exit code unless a signal ended it, and its output.
#[derive(Debug)]
pub struct CommandOutput {
    pub success: bool,
    pub code: Option<i32>,
    pub status: String,
    pub stdout: Vec<u8>,
    pub stderr: Vec<u8>,
}

/// A [`CommandOutput`] over mathematical values.
pub struct Output {
    pub success: bool,
    pub code: Option<i32>,
    pub status: Seq<char>,
    pub stdout: Seq<u8>,
    pub stderr: Seq<u8>,
}

impl View for CommandOutput {
    type V = Output;

    open spec fn view(&self) -> Output {
        Output {
            success: self.success,
            code: self.code,
            status: self.status@,
            stdout: self.stdout@,
            stderr: self.stderr@,
        }
    }
}

/// The reply to a command: what it has left, or why it could not be run.
pub type CommandReply = Result<CommandOutput, String>;

/// A [`CommandReply`] over mathematical values.
pub type Reply = Result<Output, Seq<char>>;

pub open spec fn reply_of(reply: CommandReply) -> Reply {
    match reply {
        Ok(output) => Ok(output@),
        Err(cause) => Err(cause@),
    }
}

pub open spec fn replies_of(replies: Seq<CommandReply>) -> Seq<Reply> {
    Seq::new(replies.len(), |i: int| reply_of(replies[i]))
}

/// What an operation needs next: a command's reply, the agent that a command
/// line starts, or nothing more.
#[derive(Debug)]
pub enum Step<T> {
    Run(TmuxCommand),
    Identify(String),
    Done(T),
}

/// A [`Step`] over mathematical values.
pub enum Stage<T> {
    Run(Command),
    Identify(Seq<char>),
    Done(T),
}

/// The arguments of a command as mathematical text.
pub open spec fn arguments(args: Seq<&str>) -> Seq<Seq<char>> {
    Seq::new(args.len(), |i: int| args[i]@)
}

/// The arguments that select the server.
pub open spec fn socket_arguments(socket: Socket) -> Seq<Seq<char>> {
    match socket {
        Socket::Default => seq![],
        Socket::Name(name) => seq!["-L"@, name],
        Socket::Path(path) => seq!["-S"@, path],
    }
}

/// The whole argument list of a tmux subcommand.
pub open spec fn argument_list(client: Client, args: Seq<Seq<char>>) -> Seq<Seq<char>> {
    seq![client.binary] + socket_arguments(client.socket) + args
}

/// The command that runs a tmux subcommand.
pub open spec fn command(client: Client, args: Seq<Seq<char>>, what: Seq<char>) -> Command {
    Command { argv: argument_list(client, args), what }
}

// ---------------------------------------------------------------------------
// What replies mean
// ---------------------------------------------------------------------------

/// What a command has written to its standard error, as text.
pub open spec fn error_text(output: Output) -> Seq<char> {
    decode_lossy(output.stderr)
}

/// The failure of a command that has exited with one.
pub open spec fn exit_failure(output: Output, what: Seq<char>) -> Failure {
    Failure::CommandFailed { what, status: output.status, stderr: trimmed(error_text(output)) }
}

/// What a command has left, or the failure to run it.
pub open spec fn reply_output(reply: Reply, what: Seq<char>) -> Result<Output, Failure> {
    match reply {
        Ok(output) => Ok(output),
        Err(cause) => Err(Failure::Launch { what, cause }),
    }
}

/// What a command has written, if that is text.
pub open spec fn decoded(output: Output, what: Seq<char>) -> Result<Seq<char>, Failure> {
    if valid_utf8(output.stdout) {
        Ok(decode_utf8(output.stdout))
    } else {
        Err(Failure::NotUtf8 { what })
    }
}

/// What a successful command has written.
pub open spec fn output_text(output: Output, what: Seq<char>) -> Result<Seq<char>, Failure> {
    if output.success {
        decoded(output, what)
    } else {
        Err(exit_failure(output, what))
    }
}

/// What a command that ran and succeeded has written.
pub open spec fn reply_text(reply: Reply, what: Seq<char>) -> Result<Seq<char>, Failure> {
    match reply_output(reply, what) {
        Ok(output) => output_text(output, what),
        Err(failure) => Err(failure),
    }
}

/// Whether tmux has said that no server runs.
pub open spec fn no_server(stderr: Seq<char>) -> bool {
    ||| has_part(stderr, "no server running on "@)
    ||| has_part(stderr, "error connecting to "@) && has_part(
        stderr,
        "No such file or directory"@,
    )
}

fn copy_bytes(bytes: &Vec<u8>) -> (copy: Vec<u8>)
    ensures
        copy@ == bytes@,
{
    let copy = bytes.clone();
    assert(copy@ =~= bytes@);
    copy
}

/// The failure of a command that has exited with one.
pub fn exit_error(output: &CommandOutput, what: &str) -> (error: TmuxError)
    ensures
        error@ == exit_failure(output@, what@),
{
    let stderr = string_from_utf8_lossy(&output.stderr);
    TmuxError::CommandFailed {
        what: what.to_string(),
        status: output.status.clone(),
        stderr: trim(stderr.as_str()),
    }
}

/// What a command has written, if that is text.
pub fn decode_output(output: &CommandOutput, what: &str) -> (text: Result<String, TmuxError>)
    ensures
        match text {
            Ok(t) => decoded(output@, what@) == Ok::<Seq<char>, Failure>(t@),
            Err(e) => decoded(output@, what@) == Err::<Seq<char>, Failure>(e@),
        },
{
    match string_from_utf8(copy_bytes(&output.stdout)) {
        Some(text) => Ok(text),
        None => Err(TmuxError::NotUtf8 { what: what.to_string() }),
    }
}

/// What a command has left, or the failure to run it.
pub fn run_output<'a>(reply: &'a CommandReply, what: &str) -> (output: Result<
    &'a CommandOutput,
    TmuxError,
>)
    ensures
        match output {
            Ok(o) => reply_output(reply_of(*reply), what@) == Ok::<Output, Failure>(o@),
            Err(e) => reply_output(reply_of(*reply), what@) == Err::<Output, Failure>(e@),
        },
{
    match reply {
        Ok(output) => Ok(output),
        Err(cause) => Err(TmuxError::Launch { what: what.to_string(), cause: cause.clone() }),
    }
}

impl TmuxClient {
    /// The text of a successful run; failures carry stderr context.
    pub fn text(output: &CommandOutput, what: &str) -> (text: Result<String, TmuxError>)
        ensures
            match text {
                Ok(t) => output_text(output@, what@) == Ok::<Seq<char>, Failure>(t@),
                Err(e) => output_text(output@, what@) == Err::<Seq<char>, Failure>(e@),
            },
    {
        if !output.success {
            return Err(exit_error(output, what));
        }
        decode_output(output, what)
    }

    /// A successful run's decoded stdout; failures carry stderr context.
    pub fn run_ok(reply: &CommandReply, what: &str) -> (text: Result<String, TmuxError>)
        ensures
            match text {
                Ok(t) => reply_text(reply_of(*reply), what@) == Ok::<Seq<char>, Failure>(t@),
                Err(e) => reply_text(reply_of(*reply), what@) == Err::<Seq<char>, Failure>(e@),
            },
    {
        match run_output(reply, what) {
            Ok(output) => Self::text(output, what),
            Err(error) => Err(error),
        }
    }

    /// Both proven fresh-socket stderr variants mean no server, not a broken
    /// client: "no server running on <path>" and "error connecting to <path>
    /// (No such file or directory)".
    pub fn is_no_server(stderr: &str) -> (absent: bool)
        ensures
            absent == no_server(stderr@),
    {
        contains_text(stderr, "no server running on ") || contains_text(
            stderr,
            "error connecting to ",
        ) && contains_text(stderr, "No such file or directory")
    }

    /// Exact argv for a tmux subcommand: binary, socket selection, then the
    /// subcommand and its arguments.
    pub fn argv(&self, args: &[&str]) -> (argv: Vec<String>)
        ensures
            crate::text::texts(argv@) == argument_list(self@, arguments(args@)),
    {
        let mut argv: Vec<String> = Vec::new();
        argv.push(self.binary.clone());
        match &self.socket {
            TmuxSocket::Default => {},
            TmuxSocket::Name(name) => {
                argv.push("-L".to_string());
                argv.push(name.clone());
            },
            TmuxSocket::Path(path) => {
                argv.push("-S".to_string());
                argv.push(path.clone());
            },
        }
        let ghost head = crate::text::texts(argv@);
        assert(head =~= seq![self.binary@] + socket_arguments(self.socket@));
        let mut i: usize = 0;
        assert(arguments(args@).take(0) =~= seq![]);
        while i < args.len()
            invariant
                i <= args@.len(),
                crate::text::texts(argv@) == head + arguments(args@).take(i as int),
            decreases args@.len() - i,
        {
            let ghost before = argv@;
            argv.push(args[i].to_string());
            i += 1;
            assert(crate::text::texts(argv@) =~= crate::text::texts(before).push(
                argv@[before.len() as int]@,
            ));
            assert(arguments(args@).take(i as int) =~= arguments(args@).take(i - 1).push(
                arguments(args@)[i - 1],
            ));
        }
        assert(arguments(args@).take(i as int) =~= arguments(args@));
        argv
    }

    /// The command that runs a tmux subcommand.
    pub fn command(&self, args: &[&str], what: &str) -> (result: TmuxCommand)
        ensures
            result@ == command(self@, arguments(args@), what@),
    {
        TmuxCommand { argv: self.argv(args), what: what.to_string() }
    }
}


// ---------------------------------------------------------------------------
// Attaching
// ---------------------------------------------------------------------------

/// The socket selection of an attach command, with a space behind it.
pub open spec fn socket_words(socket: Socket) -> Seq<char> {
    match socket {
        Socket::Default => seq![],
        Socket::Name(name) => "-L "@ + shell_word(name) + " "@,
        Socket::Path(path) => "-S "@ + shell_word(path) + " "@,
    }
}

/// The command line that attaches to a target, written as a shell word.
pub open spec fn attach_line(client: Client, target: Seq<char>) -> Seq<char> {
    "exec "@ + shell_word(client.binary) + " "@ + socket_words(client.socket)
        + "attach-session -t "@ + target + " || exit $?"@
}

impl TmuxClient {
    /// The command a terminal runs to attach: exec tmux, select the configured
    /// server, attach the supplied target, and exit with tmux's status so a
    /// failed attach does not leave a login shell behind.
    pub fn attach_command(&self, name: &str) -> (line: String)
        ensures
            line@ == attach_line(self@, shell_word(name@)),
    {
        self.attach_command_with_shell_target(shell_quote(name).as_str())
    }

    /// The attach command for a target that is a shell word already.
    pub fn attach_command_with_shell_target(&self, target: &str) -> (line: String)
        ensures
            line@ == attach_line(self@, target@),
    {
        let mut socket = String::new();
        match &self.socket {
            TmuxSocket::Default => {
                assert(socket@ =~= socket_words(self.socket@));
            },
            TmuxSocket::Name(name) => {
                socket = "-L ".to_string();
                socket.append(shell_quote(name.as_str()).as_str());
                socket.append(" ");
            },
            TmuxSocket::Path(path) => {
                socket = "-S ".to_string();
                socket.append(shell_quote(path.as_str()).as_str());
                socket.append(" ");
            },
        }
        let mut line = "exec ".to_string();
        line.append(shell_quote(self.binary.as_str()).as_str());
        line.append(" ");
        line.append(socket.as_str());
        line.append("attach-session -t ");
        line.append(target);
        line.append(" || exit $?");
        line
    }
}

// ---------------------------------------------------------------------------
// Discovery
// ---------------------------------------------------------------------------

/// The server that the configuration selects, if it selects one by an absolute
/// path.
pub open spec fn selected_socket(configured: Option<Seq<char>>) -> Result<Socket, Failure> {
    match configured {
        None => Ok(Socket::Default),
        Some(path) => if path.len() > 0 && path[0] == '/' {
            Ok(Socket::Path(path))
        } else {
            Err(Failure::SocketPath { path })
        },
    }
}

/// The release in a reply to `-V`, if it is supported.
pub open spec fn probed_version(reply: Reply) -> Result<Release, Failure> {
    match reply_output(reply, "probe the tmux version"@) {
        Err(failure) => Err(failure),
        Ok(output) => match output_text(output, "-V"@) {
            Err(failure) => Err(failure),
            Ok(text) => match parsed_release(text) {
                None => Err(Failure::UnrecognizedVersion { output: text }),
                Some(version) => if compare_releases(version, minimum_release()) == Age::Earlier {
                    Err(Failure::VersionTooOld { version })
                } else {
                    Ok(version)
                },
            },
        },
    }
}

/// How far the probe of a client has come.
pub open spec fn probe_stage(
    binary: Seq<char>,
    socket: Socket,
    replies: Seq<Reply>,
) -> Stage<Result<Client, Failure>> {
    let client = Client { binary, socket, version: minimum_release() };
    if replies.len() == 0 {
        Stage::Run(command(client, seq!["-V"@], "probe the tmux version"@))
    } else {
        match probed_version(replies[0]) {
            Ok(version) => Stage::Done(Ok(Client { binary, socket, version })),
            Err(failure) => Stage::Done(Err(failure)),
        }
    }
}

/// How far discovery has come.
pub open spec fn discover_stage(
    configured: Option<Seq<char>>,
    on_path: bool,
    replies: Seq<Reply>,
) -> Stage<Result<Client, Failure>> {
    match selected_socket(configured) {
        Err(failure) => Stage::Done(Err(failure)),
        Ok(socket) => if !on_path {
            Stage::Done(Err(Failure::NotInstalled))
        } else {
            probe_stage("tmux"@, socket, replies)
        },
    }
}

pub open spec fn optional_str(text: Option<&str>) -> Option<Seq<char>> {
    match text {
        Some(t) => Some(t@),
        None => None,
    }
}

/// Whether a step of a client's construction is at a stage.
pub open spec fn client_step(
    step: Step<Result<TmuxClient, TmuxError>>,
    stage: Stage<Result<Client, Failure>>,
) -> bool {
    match step {
        Step::Run(c) => stage == Stage::<Result<Client, Failure>>::Run(c@),
        Step::Identify(c) => stage == Stage::<Result<Client, Failure>>::Identify(c@),
        Step::Done(Ok(c)) => stage == Stage::Done(Ok::<Client, Failure>(c@)),
        Step::Done(Err(e)) => stage == Stage::Done(Err::<Client, Failure>(e@)),
    }
}

impl TmuxClient {
    /// The server that the configured socket path selects.
    pub fn configured_socket(socket: Option<&str>) -> (result: Result<TmuxSocket, TmuxError>)
        ensures
            match result {
                Ok(s) => selected_socket(optional_str(socket)) == Ok::<Socket, Failure>(s@),
                Err(e) => selected_socket(optional_str(socket)) == Err::<Socket, Failure>(e@),
            },
    {
        match socket {
            None => Ok(TmuxSocket::Default),
            Some(path) => {
                proof {
                    reveal_strlit("/");
                    if path@.len() > 0 {
                        assert(path@.subrange(0, 1)[0] == path@[0]);
                        assert(path@.subrange(0, 1) =~= seq![path@[0]]);
                        assert("/"@ =~= seq!['/']);
                    }
                }
                if starts_with(path, "/") {
                    Ok(TmuxSocket::Path(path.to_string()))
                } else {
                    Err(TmuxError::SocketPath { path: path.to_string() })
                }
            },
        }
    }

    fn probe_version(binary: String, socket: TmuxSocket, replies: &Vec<CommandReply>) -> (step:
        Step<Result<TmuxClient, TmuxError>>)
        ensures
            client_step(step, probe_stage(binary@, socket@, replies_of(replies@))),
    {
        let mut client = TmuxClient { binary, socket, version: min_supported_version() };
        if replies.len() == 0 {
            let run = client.command(&["-V"], "probe the tmux version");
            assert(run@.argv =~= argument_list(client@, seq!["-V"@]));
            return Step::Run(run);
        }
        assert(replies_of(replies@)[0] == reply_of(replies@[0]));
        let output = match run_output(&replies[0], "probe the tmux version") {
            Ok(output) => output,
            Err(error) => {
                return Step::Done(Err(error));
            },
        };
        let text = match Self::text(output, "-V") {
            Ok(text) => text,
            Err(error) => {
                return Step::Done(Err(error));
            },
        };
        match supported_version(text.as_str()) {
            Ok(version) => {
                client.version = version;
                Step::Done(Ok(client))
            },
            Err(error) => Step::Done(Err(error)),
        }
    }

    /// Discover `tmux` on the search path and verify it supports shared
    /// sessions. `configured` is the configured socket path, and `on_path` says
    /// whether the search path has a `tmux`.
    ///
    /// Returns the exact error a caller can surface, covering an invalid
    /// configured socket, missing binary, unparsable `tmux -V` output, and
    /// releases below the minimum.
    pub fn discover(configured: Option<&str>, on_path: bool, replies: &Vec<CommandReply>) -> (step:
        Step<Result<TmuxClient, TmuxError>>)
        ensures
            client_step(
                step,
                discover_stage(optional_str(configured), on_path, replies_of(replies@)),
            ),
    {
        let socket = match Self::configured_socket(configured) {
            Ok(socket) => socket,
            Err(error) => {
                return Step::Done(Err(error));
            },
        };
        if !on_path {
            return Step::Done(Err(TmuxError::NotInstalled));
        }
        Self::probe_version("tmux".to_string(), socket, replies)
    }

    /// Construct with an explicit binary path and optional private socket name.
    pub fn with_socket(binary: &str, socket: Option<&str>, replies: &Vec<CommandReply>) -> (step:
        Step<Result<TmuxClient, TmuxError>>)
        ensures
            client_step(
                step,
                probe_stage(
                    binary@,
                    match socket {
                        Some(name) => Socket::Name(name@),
                        None => Socket::Default,
                    },
                    replies_of(replies@),
                ),
            ),
    {
        let socket = match socket {
            Some(name) => TmuxSocket::Name(name.to_string()),
            None => TmuxSocket::Default,
        };
        Self::probe_version(binary.to_string(), socket, replies)
    }

    /// Verified tmux release, from the discovery probe.
    pub fn version(&self) -> (version: &TmuxVersion)
        ensures
            version@ == self@.version,
    {
        &self.version
    }
}

// ---------------------------------------------------------------------------
// Owned sessions
// ---------------------------------------------------------------------------

/// The arguments that create a session, or attach to it where it is there.
pub open spec fn create_arguments(
    name: Seq<char>,
    workdir: Seq<char>,
    resume_command: Seq<char>,
) -> Seq<Seq<char>> {
    seq!["new-session"@, "-d"@, "-A"@, "-s"@, name, "-c"@, workdir, resume_command]
}

/// The arguments that set one option of a session.
pub open spec fn option_arguments(
    name: Seq<char>,
    option: Seq<char>,
    value: Seq<char>,
) -> Seq<Seq<char>> {
    seq!["set-option"@, "-t"@, name, option, value]
}

/// Whether tmux has refused to attach without a terminal: the session is there.
pub open spec fn already_prepared(output: Output) -> bool {
    &&& !output.success
    &&& output.code == Some(1i32)
    &&& has_part(error_text(output), "open terminal failed: not a terminal"@)
}

/// Whether a first attempt to create a session is made once more: it exited with
/// a failure that is no refusal to attach to a session that is there. One retry
/// resolves a fresh-socket connect race.
pub open spec fn needs_retry(reply: Reply) -> bool {
    reply matches Ok(output) && !output.success && !already_prepared(output)
}

/// Why a second attempt to create a session has failed, if it has.
pub open spec fn retry_failure(reply: Reply) -> Option<Failure> {
    match reply_output(reply, "prepare the shared session (retry)"@) {
        Err(failure) => Some(failure),
        Ok(output) => if output.success {
            None
        } else {
            Some(Failure::PrepareRetryFailed { stderr: trimmed(error_text(output)) })
        },
    }
}

/// How far the options of a prepared session are set.
pub open spec fn options_stage(client: Client, name: Seq<char>, replies: Seq<Reply>) -> Stage<
    Result<Seq<char>, Failure>,
> {
    if replies.len() == 0 {
        Stage::Run(command(client, option_arguments(name, "mouse"@, "on"@), "set mouse"@))
    } else if reply_text(replies[0], "set mouse"@) is Err {
        Stage::Done(Err(reply_text(replies[0], "set mouse"@)->Err_0))
    } else if replies.len() == 1 {
        Stage::Run(
            command(
                client,
                option_arguments(name, "window-size"@, "largest"@),
                "set window-size"@,
            ),
        )
    } else if reply_text(replies[1], "set window-size"@) is Err {
        Stage::Done(Err(reply_text(replies[1], "set window-size"@)->Err_0))
    } else {
        Stage::Done(Ok(attach_line(client, shell_word(name))))
    }
}

/// Why an identity has no owned name, if it has none.
pub open spec fn identity_failure(slug: Seq<char>, session_id: Seq<char>) -> Option<Failure> {
    if !valid_slug(slug) {
        Some(Failure::InvalidSlug { slug })
    } else if session_id.len() == 0 {
        Some(Failure::EmptySessionId)
    } else {
        None
    }
}

/// How far the preparation of a session has come.
pub open spec fn prepare_stage(
    client: Client,
    slug: Seq<char>,
    session_id: Seq<char>,
    workdir: Option<Seq<char>>,
    resume_command: Seq<char>,
    replies: Seq<Reply>,
) -> Stage<Result<Seq<char>, Failure>> {
    let name = owned_name(slug, session_id);
    if identity_failure(slug, session_id) is Some {
        Stage::Done(Err(identity_failure(slug, session_id)->0))
    } else if workdir is None {
        Stage::Done(Err(Failure::WorkdirNotUtf8))
    } else if replies.len() == 0 {
        Stage::Run(
            command(
                client,
                create_arguments(name, workdir->0, resume_command),
                "prepare the shared session"@,
            ),
        )
    } else if reply_output(replies[0], "prepare the shared session"@) is Err {
        Stage::Done(Err(reply_output(replies[0], "prepare the shared session"@)->Err_0))
    } else if !needs_retry(replies[0]) {
        options_stage(client, name, replies.skip(1))
    } else if replies.len() == 1 {
        Stage::Run(
            command(
                client,
                create_arguments(name, workdir->0, resume_command),
                "prepare the shared session (retry)"@,
            ),
        )
    } else if retry_failure(replies[1]) is Some {
        Stage::Done(Err(retry_failure(replies[1])->0))
    } else {
        options_stage(client, name, replies.skip(2))
    }
}

/// Whether a kill has left the session gone: it succeeded, or the session or
/// the whole server was gone before.
pub open spec fn killed(output: Output) -> bool {
    output.success || has_part(error_text(output), "can't find session:"@) || no_server(
        error_text(output),
    )
}

/// The outcome of a kill.
pub open spec fn kill_result(reply: Reply, what: Seq<char>) -> Result<(), Failure> {
    match reply_output(reply, what) {
        Err(failure) => Err(failure),
        Ok(output) => if killed(output) {
            Ok(())
        } else {
            Err(exit_failure(output, what))
        },
    }
}

/// The arguments that kill a session.
pub open spec fn kill_arguments(target: Seq<char>) -> Seq<Seq<char>> {
    seq!["kill-session"@, "-t"@, target]
}

/// How far the termination of an owned session has come.
pub open spec fn terminate_stage(
    client: Client,
    slug: Seq<char>,
    session_id: Seq<char>,
    replies: Seq<Reply>,
) -> Stage<Result<(), Failure>> {
    let what = "terminate the shared session"@;
    if identity_failure(slug, session_id) is Some {
        Stage::Done(Err(identity_failure(slug, session_id)->0))
    } else if replies.len() == 0 {
        Stage::Run(command(client, kill_arguments(owned_name(slug, session_id)), what))
    } else {
        Stage::Done(kill_result(replies[0], what))
    }
}

/// Whether a step of an operation with a text as its result is at a stage.
pub open spec fn text_step(
    step: Step<Result<String, TmuxError>>,
    stage: Stage<Result<Seq<char>, Failure>>,
) -> bool {
    match step {
        Step::Run(c) => stage == Stage::<Result<Seq<char>, Failure>>::Run(c@),
        Step::Identify(c) => stage == Stage::<Result<Seq<char>, Failure>>::Identify(c@),
        Step::Done(Ok(t)) => stage == Stage::Done(Ok::<Seq<char>, Failure>(t@)),
        Step::Done(Err(e)) => stage == Stage::Done(Err::<Seq<char>, Failure>(e@)),
    }
}

/// Whether a step of an operation without a result is at a stage.
pub open spec fn unit_step(
    step: Step<Result<(), TmuxError>>,
    stage: Stage<Result<(), Failure>>,
) -> bool {
    match step {
        Step::Run(c) => stage == Stage::<Result<(), Failure>>::Run(c@),
        Step::Identify(c) => stage == Stage::<Result<(), Failure>>::Identify(c@),
        Step::Done(Ok(_)) => stage == Stage::Done(Ok::<(), Failure>(())),
        Step::Done(Err(e)) => stage == Stage::Done(Err::<(), Failure>(e@)),
    }
}

fn is_already_prepared(output: &CommandOutput) -> (prepared: bool)
    ensures
        prepared == already_prepared(output@),
{
    let refused = match output.code {
        Some(code) => code == 1,
        None => false,
    };
    !output.success && refused && contains_text(
        string_from_utf8_lossy(&output.stderr).as_str(),
        "open terminal failed: not a terminal",
    )
}

/// The outcome of a kill.
pub fn kill_outcome(reply: &CommandReply, what: &str) -> (result: Result<(), TmuxError>)
    ensures
        match result {
            Ok(_) => kill_result(reply_of(*reply), what@) == Ok::<(), Failure>(()),
            Err(e) => kill_result(reply_of(*reply), what@) == Err::<(), Failure>(e@),
        },
{
    let output = match run_output(reply, what) {
        Ok(output) => output,
        Err(error) => {
            return Err(error);
        },
    };
    if !output.success {
        let stderr = string_from_utf8_lossy(&output.stderr);
        if !(contains_text(stderr.as_str(), "can't find session:") || TmuxClient::is_no_server(
            stderr.as_str(),
        )) {
            return Err(exit_error(output, what));
        }
    }
    Ok(())
}

impl TmuxClient {
    /// The command that kills the session that `target` selects.
    pub fn kill_command(&self, target: &str, what: &str) -> (result: TmuxCommand)
        ensures
            result@ == command(self@, kill_arguments(target@), what@),
    {
        let result = self.command(&["kill-session", "-t", target], what);
        assert(result@.argv =~= argument_list(self@, kill_arguments(target@)));
        result
    }

    fn option_command(&self, name: &str, option: &str, value: &str, what: &str) -> (result:
        TmuxCommand)
        ensures
            result@ == command(self@, option_arguments(name@, option@, value@), what@),
    {
        let result = self.command(&["set-option", "-t", name, option, value], what);
        assert(result@.argv =~= argument_list(self@, option_arguments(name@, option@, value@)));
        result
    }

    fn create_command(
        &self,
        name: &str,
        workdir: &str,
        resume_command: &str,
        what: &str,
    ) -> (result: TmuxCommand)
        ensures
            result@ == command(
                self@,
                create_arguments(name@, workdir@, resume_command@),
                what@,
            ),
    {
        let result = self.command(
            &["new-session", "-d", "-A", "-s", name, "-c", workdir, resume_command],
            what,
        );
        assert(result@.argv =~= argument_list(
            self@,
            create_arguments(name@, workdir@, resume_command@),
        ));
        result
    }

    /// Set the options of a prepared session, with the replies from `at` on.
    fn set_options(&self, name: &str, replies: &Vec<CommandReply>, at: usize) -> (step: Step<
        Result<String, TmuxError>,
    >)
        requires
            at <= replies@.len(),
        ensures
            text_step(step, options_stage(self@, name@, replies_of(replies@).skip(at as int))),
    {
        let ghost rest = replies_of(replies@).skip(at as int);
        // Session-scoped options: other sessions keep their own values.
        if at == replies.len() {
            return Step::Run(self.option_command(name, "mouse", "on", "set mouse"));
        }
        assert(rest[0] == reply_of(replies@[at as int]));
        if let Err(error) = Self::run_ok(&replies[at], "set mouse") {
            return Step::Done(Err(error));
        }
        if at + 1 == replies.len() {
            return Step::Run(
                self.option_command(name, "window-size", "largest", "set window-size"),
            );
        }
        assert(rest[1] == reply_of(replies@[at + 1]));
        if let Err(error) = Self::run_ok(&replies[at + 1], "set window-size") {
            return Step::Done(Err(error));
        }
        Step::Done(Ok(self.attach_command(name)))
    }

    /// Prepare or attach to the owned session for `(slug, session_id)`. A
    /// `workdir` that is no UTF-8 text is `None`.
    ///
    /// Runs `new-session -d -A` headless: an existing target ignores the inner
    /// command, so concurrent prepares start exactly one inner process. A first
    /// failure that is no sign of an existing session is retried once. Sets
    /// session-scoped `mouse on` and `window-size largest` afterwards.
    /// Returns the command a terminal should run to attach.
    pub fn prepare_session(
        &self,
        slug: &str,
        session_id: &str,
        workdir: Option<&str>,
        resume_command: &str,
        replies: &Vec<CommandReply>,
    ) -> (step: Step<Result<String, TmuxError>>)
        ensures
            text_step(
                step,
                prepare_stage(
                    self@,
                    slug@,
                    session_id@,
                    optional_str(workdir),
                    resume_command@,
                    replies_of(replies@),
                ),
            ),
    {
        let name = match owned_session_name(slug, session_id) {
            Ok(name) => name,
            Err(error) => {
                return Step::Done(Err(error));
            },
        };
        let workdir = match workdir {
            Some(workdir) => workdir,
            None => {
                return Step::Done(Err(TmuxError::WorkdirNotUtf8));
            },
        };
        if replies.len() == 0 {
            return Step::Run(
                self.create_command(
                    name.as_str(),
                    workdir,
                    resume_command,
                    "prepare the shared session",
                ),
            );
        }
        assert(replies_of(replies@)[0] == reply_of(replies@[0]));
        let output = match run_output(&replies[0], "prepare the shared session") {
            Ok(output) => output,
            Err(error) => {
                return Step::Done(Err(error));
            },
        };
        // Headless attach races on an existing session fail with exactly this
        // message; the winner already created or attached the session.
        if output.success || is_already_prepared(output) {
            return self.set_options(name.as_str(), replies, 1);
        }
        // One retry resolves a fresh-socket connect race; an already-prepared
        // target answers identically on every call and must not be retried.

        if replies.len() == 1 {
            return Step::Run(
                self.create_command(
                    name.as_str(),
                    workdir,
                    resume_command,
                    "prepare the shared session (retry)",
                ),
            );
        }
        assert(replies_of(replies@)[1] == reply_of(replies@[1]));
        let retry = match run_output(&replies[1], "prepare the shared session (retry)") {
            Ok(retry) => retry,
            Err(error) => {
                return Step::Done(Err(error));
            },
        };
        if !retry.success {
            let stderr = string_from_utf8_lossy(&retry.stderr);
            return Step::Done(
                Err(TmuxError::PrepareRetryFailed { stderr: trim(stderr.as_str()) }),
            );
        }
        self.set_options(name.as_str(), replies, 2)
    }

    /// Terminate the owned session rebuilt from `(slug, session_id)`.
    ///
    /// Accepts only an owned-namespace target derived by the codec — never a
    /// raw tmux name. An already-vanished session counts as terminated.
    pub fn terminate_session(
        &self,
        slug: &str,
        session_id: &str,
        replies: &Vec<CommandReply>,
    ) -> (step: Step<Result<(), TmuxError>>)
        ensures
            unit_step(
                step,
                terminate_stage(self@, slug@, session_id@, replies_of(replies@)),
            ),
    {
        let name = match owned_session_name(slug, session_id) {
            Ok(name) => name,
            Err(error) => {
                return Step::Done(Err(error));
            },
        };
        if replies.len() == 0 {
            return Step::Run(self.kill_command(name.as_str(), "terminate the shared session"));
        }
        assert(replies_of(replies@)[0] == reply_of(replies@[0]));
        Step::Done(kill_outcome(&replies[0], "terminate the shared session"))
    }
}

// ---------------------------------------------------------------------------
// Laws
// ---------------------------------------------------------------------------

/// An operation on an owned session runs nothing for an identity that has no
/// owned name, whatever the replies.
pub proof fn lemma_invalid_identity_runs_nothing(
    client: Client,
    slug: Seq<char>,
    session_id: Seq<char>,
    workdir: Option<Seq<char>>,
    resume_command: Seq<char>,
    replies: Seq<Reply>,
)
    requires
        !valid_slug(slug) || session_id.len() == 0,
    ensures
        identity_failure(slug, session_id) is Some,
        prepare_stage(client, slug, session_id, workdir, resume_command, replies) == Stage::Done(
            Err::<Seq<char>, Failure>(identity_failure(slug, session_id)->0),
        ),
        terminate_stage(client, slug, session_id, replies) == Stage::Done(
            Err::<(), Failure>(identity_failure(slug, session_id)->0),
        ),
{
}

/// How many replies the attempts to create a session have taken: two where the
/// first was made once more.
pub open spec fn attempts(replies: Seq<Reply>) -> int {
    if replies.len() > 0 && needs_retry(replies[0]) {
        2
    } else {
        1
    }
}

/// Preparing a session runs four commands at most, each on the owned session of
/// the identity: create or attach, once more where that is retried, then its two
/// options.
pub proof fn lemma_prepare_stays_on_its_session(
    client: Client,
    slug: Seq<char>,
    session_id: Seq<char>,
    workdir: Option<Seq<char>>,
    resume_command: Seq<char>,
    replies: Seq<Reply>,
)
    ensures
        prepare_stage(client, slug, session_id, workdir, resume_command, replies) matches Stage::Run(
            next,
        ) ==> {
            let name = owned_name(slug, session_id);
            &&& replies.len() < 4
            &&& workdir is Some
            &&& next.argv == argument_list(
                client,
                if replies.len() < attempts(replies) {
                    create_arguments(name, workdir->0, resume_command)
                } else if replies.len() == attempts(replies) {
                    option_arguments(name, "mouse"@, "on"@)
                } else {
                    option_arguments(name, "window-size"@, "largest"@)
                },
            )
        },
        !(prepare_stage(
            client,
            slug,
            session_id,
            workdir,
            resume_command,
            replies,
        ) is Identify),
{
}

/// A first attempt that fails, and is no refusal to attach to a session that is
/// there, is made once more with the same arguments. Where that one and both
/// options succeed, the session is prepared; where it fails, its own failure is
/// the outcome.
pub proof fn lemma_failed_creation_is_retried_once(
    client: Client,
    slug: Seq<char>,
    session_id: Seq<char>,
    workdir: Seq<char>,
    resume_command: Seq<char>,
    replies: Seq<Reply>,
)
    requires
        valid_slug(slug),
        session_id.len() > 0,
        replies.len() > 0,
        needs_retry(replies[0]),
    ensures
        ({
            let name = owned_name(slug, session_id);
            let stage = prepare_stage(
                client,
                slug,
                session_id,
                Some(workdir),
                resume_command,
                replies,
            );
            &&& replies.len() == 1 ==> stage == Stage::<Result<Seq<char>, Failure>>::Run(
                command(
                    client,
                    create_arguments(name, workdir, resume_command),
                    "prepare the shared session (retry)"@,
                ),
            )
            &&& replies.len() > 1 && retry_failure(replies[1]) is Some ==> stage == Stage::Done(
                Err::<Seq<char>, Failure>(retry_failure(replies[1])->0),
            )
            &&& replies.len() > 3 && (replies[1] matches Ok(output) && output.success)
                && reply_text(replies[2], "set mouse"@) is Ok && reply_text(
                replies[3],
                "set window-size"@,
            ) is Ok ==> stage == Stage::Done(
                Ok::<Seq<char>, Failure>(attach_line(client, shell_word(name))),
            )
        }),
{
    let rest = replies.skip(2);
    assert(replies.len() > 2 ==> rest[0] == replies[2]);
    assert(replies.len() > 3 ==> rest[1] == replies[3]);
}

/// A prepared session is attached to by its owned name, which a shell reads in
/// the attach command as it is.
pub proof fn lemma_prepared_session_attaches_by_owned_name(
    client: Client,
    slug: Seq<char>,
    session_id: Seq<char>,
    workdir: Option<Seq<char>>,
    resume_command: Seq<char>,
    replies: Seq<Reply>,
    line: Seq<char>,
)
    requires
        prepare_stage(client, slug, session_id, workdir, resume_command, replies) == Stage::Done(
            Ok::<Seq<char>, Failure>(line),
        ),
    ensures
        exists|word: Seq<char>|
            line == #[trigger] attach_line(client, word) && crate::shell::shell_reads(word, false)
                == Some(owned_name(slug, session_id)),
        crate::shell::shell_reads(shell_word(client.binary), false) == Some(client.binary),
{
    crate::shell::lemma_word_reads_back(owned_name(slug, session_id));
    crate::shell::lemma_word_reads_back(client.binary);
    assert(line == attach_line(client, shell_word(owned_name(slug, session_id))));
}

/// A prepared session that is already there answers with a refusal to attach
/// without a terminal. That refusal counts as prepared and is not retried.
pub proof fn lemma_already_prepared_is_prepared(
    client: Client,
    slug: Seq<char>,
    session_id: Seq<char>,
    workdir: Seq<char>,
    resume_command: Seq<char>,
    replies: Seq<Reply>,
    output: Output,
)
    requires
        valid_slug(slug),
        session_id.len() > 0,
        already_prepared(output),
        replies.len() > 0,
        replies[0] == Ok::<Output, Seq<char>>(output),
    ensures
        prepare_stage(
            client,
            slug,
            session_id,
            Some(workdir),
            resume_command,
            replies,
        ) == options_stage(client, owned_name(slug, session_id), replies.skip(1)),
{
}

/// Terminating runs one command, a kill whose target decodes to exactly the
/// identity that was given.
pub proof fn lemma_terminate_targets_only_its_identity(
    client: Client,
    slug: Seq<char>,
    session_id: Seq<char>,
    replies: Seq<Reply>,
)
    ensures
        terminate_stage(client, slug, session_id, replies) matches Stage::Run(next) ==> {
            let name = owned_name(slug, session_id);
            &&& replies.len() == 0
            &&& next.argv == argument_list(client, kill_arguments(name))
            &&& crate::identity::ownership(name) == (crate::identity::Ownership::Owned {
                slug,
                session_id,
            })
        },
        !(terminate_stage(client, slug, session_id, replies) is Identify),
{
    if valid_slug(slug) && session_id.len() > 0 {
        crate::identity::lemma_owned_name_round_trip(slug, session_id);
    }
}

/// A session that has vanished, alone or with its server, counts as terminated.
pub proof fn lemma_vanished_counts_as_terminated(output: Output, what: Seq<char>)
    requires
        has_part(error_text(output), "can't find session:"@) || no_server(error_text(output)),
    ensures
        kill_result(Ok(output), what) == Ok::<(), Failure>(()),
{
}

/// A client that discovery yields has at least the supported release.
pub proof fn lemma_discovered_release_is_supported(
    configured: Option<Seq<char>>,
    on_path: bool,
    replies: Seq<Reply>,
    client: Client,
)
    requires
        discover_stage(configured, on_path, replies) == Stage::Done(
            Ok::<Client, Failure>(client),
        ),
    ensures
        compare_releases(client.version, minimum_release()) != Age::Earlier,
        client.binary == "tmux"@,
        configured is None ==> client.socket == Socket::Default,
        configured is Some ==> client.socket == Socket::Path(configured->0),
{
}

/// An operation on an owned session that is done stays done with the same
/// result, whatever further replies there are.
pub proof fn lemma_owned_operations_stay_done(
    client: Client,
    slug: Seq<char>,
    session_id: Seq<char>,
    workdir: Option<Seq<char>>,
    resume_command: Seq<char>,
    replies: Seq<Reply>,
    more: Seq<Reply>,
)
    ensures
        prepare_stage(client, slug, session_id, workdir, resume_command, replies) is Done
            ==> prepare_stage(client, slug, session_id, workdir, resume_command, replies + more)
            == prepare_stage(client, slug, session_id, workdir, resume_command, replies),
        terminate_stage(client, slug, session_id, replies) is Done ==> terminate_stage(
            client,
            slug,
            session_id,
            replies + more,
        ) == terminate_stage(client, slug, session_id, replies),
{
    let all = replies + more;
    assert(replies.len() > 0 ==> all[0] == replies[0]);
    assert(replies.len() > 1 ==> all[1] == replies[1]);
    assert(replies.len() > 0 ==> all.skip(1) =~= replies.skip(1) + more);
    assert(replies.len() > 1 ==> all.skip(2) =~= replies.skip(2) + more);
    lemma_options_stay_done(client, owned_name(slug, session_id), replies.skip(1), more);
    lemma_options_stay_done(client, owned_name(slug, session_id), replies.skip(2), more);
}

proof fn lemma_options_stay_done(
    client: Client,
    name: Seq<char>,
    replies: Seq<Reply>,
    more: Seq<Reply>,
)
    ensures
        options_stage(client, name, replies) is Done ==> options_stage(client, name, replies + more)
            == options_stage(client, name, replies),
{
    let all = replies + more;
    assert(replies.len() > 0 ==> all[0] == replies[0]);
    assert(replies.len() > 1 ==> all[1] == replies[1]);
}

/// Where every command succeeds, preparing a session yields its attach command
/// after three commands.
pub proof fn lemma_prepare_succeeds(
    client: Client,
    slug: Seq<char>,
    session_id: Seq<char>,
    workdir: Option<Seq<char>>,
    resume_command: Seq<char>,
    replies: Seq<Reply>,
)
    requires
        valid_slug(slug),
        session_id.len() > 0,
        workdir is Some,
        replies.len() >= 3,
        forall|i: int|
            0 <= i < 3 ==> (#[trigger] replies[i] matches Ok(output) && output.success
                && valid_utf8(output.stdout)),
    ensures
        prepare_stage(client, slug, session_id, workdir, resume_command, replies) == Stage::Done(
            Ok::<Seq<char>, Failure>(
                attach_line(client, shell_word(owned_name(slug, session_id))),
            ),
        ),
{
    assert(replies[0] is Ok && replies[1] is Ok && replies[2] is Ok);
    let rest = replies.skip(1);
    assert(rest[0] == replies[1] && rest[1] == replies[2]);
}

/// What a command has written, where it ran, succeeded and wrote text.
pub open spec fn written(reply: Reply) -> Option<Seq<char>> {
    match reply {
        Ok(output) => if output.success && valid_utf8(output.stdout) {
            Some(decode_utf8(output.stdout))
        } else {
            None
        },
        Err(_) => None,
    }
}

/// The text of a reply is what the command wrote, exactly where it ran,
/// succeeded and wrote text. A command that could not be run, one that failed,
/// whatever it wrote, and one that succeeded without writing text each fail in
/// their own way, under the name of what the command was for.
pub proof fn lemma_reply_texts(reply: Reply, what: Seq<char>)
    ensures
        match written(reply) {
            Some(text) => reply_text(reply, what) == Ok::<Seq<char>, Failure>(text),
            None => reply_text(reply, what) is Err,
        },
        reply matches Err(cause) ==> reply_text(reply, what) == Err::<Seq<char>, Failure>(
            Failure::Launch { what, cause },
        ),
        reply matches Ok(output) ==> {
            &&& !output.success ==> reply_text(reply, what) == Err::<Seq<char>, Failure>(
                Failure::CommandFailed {
                    what,
                    status: output.status,
                    stderr: trimmed(decode_lossy(output.stderr)),
                },
            )
            &&& output.success && !valid_utf8(output.stdout) ==> reply_text(reply, what) == Err::<
                Seq<char>,
                Failure,
            >(Failure::NotUtf8 { what })
        },
{
}

/// A command runs the client's program. Its arguments come last and as they
/// are; before them stands the choice of the server, which is none for the
/// default server.
pub proof fn lemma_commands_in_full(client: Client, args: Seq<Seq<char>>, what: Seq<char>, i: int)
    ensures
        ({
            let run = command(client, args, what);
            let before: int = if client.socket is Default {
                1
            } else {
                3
            };
            &&& run.what == what
            &&& run.argv.len() == before + args.len()
            &&& run.argv[0] == client.binary
            &&& 0 <= i < args.len() ==> run.argv[before + i] == args[i]
            &&& client.socket matches Socket::Name(name) ==> run.argv[1] == "-L"@ && run.argv[2]
                == name
            &&& client.socket matches Socket::Path(path) ==> run.argv[1] == "-S"@ && run.argv[2]
                == path
        }),
{
}

/// No server runs exactly where tmux has said so in one of two ways, wherever
/// in its words.
pub proof fn lemma_no_server_words(stderr: Seq<char>, before: Seq<char>, behind: Seq<char>)
    ensures
        no_server(before + "no server running on "@ + behind),
        has_part(stderr, "error connecting to "@) && has_part(stderr, "No such file or directory"@)
            ==> no_server(stderr),
        !has_part(stderr, "no server running on "@) && no_server(stderr) ==> has_part(
            stderr,
            "error connecting to "@,
        ) && has_part(stderr, "No such file or directory"@),
{
    crate::text::lemma_part_is_found(before, "no server running on "@, behind);
}

/// The shell line that attaches: the shell is replaced by the client's program,
/// which selects the client's server as every command does and attaches to the
/// target; where that cannot be, the shell exits with the status.
pub proof fn lemma_attach_lines(
    binary: Seq<char>,
    version: Release,
    server: Seq<char>,
    target: Seq<char>,
)
    ensures
        attach_line(Client { binary, socket: Socket::Default, version }, target) == "exec "@
            + shell_word(binary) + " attach-session -t "@ + target + " || exit $?"@,
        attach_line(Client { binary, socket: Socket::Name(server), version }, target) == "exec "@
            + shell_word(binary) + " -L "@ + shell_word(server) + " attach-session -t "@ + target
            + " || exit $?"@,
        attach_line(Client { binary, socket: Socket::Path(server), version }, target) == "exec "@
            + shell_word(binary) + " -S "@ + shell_word(server) + " attach-session -t "@ + target
            + " || exit $?"@,
{
    reveal_strlit(" ");
    reveal_strlit("-L ");
    reveal_strlit("-S ");
    reveal_strlit(" -L ");
    reveal_strlit(" -S ");
    reveal_strlit("attach-session -t ");
    reveal_strlit(" attach-session -t ");
    assert(" "@ + "-L "@ =~= " -L "@);
    assert(" "@ + "-S "@ =~= " -S "@);
    assert(" "@ + "attach-session -t "@ =~= " attach-session -t "@);
    let word = shell_word(server);
    let tail = target + " || exit $?"@;
    assert(attach_line(Client { binary, socket: Socket::Default, version }, target) =~= "exec "@
        + shell_word(binary) + (" "@ + "attach-session -t "@) + target + " || exit $?"@);
    assert(attach_line(Client { binary, socket: Socket::Name(server), version }, target)
        =~= "exec "@ + shell_word(binary) + (" "@ + "-L "@) + word + (" "@ + "attach-session -t "@)
        + target + " || exit $?"@);
    assert(attach_line(Client { binary, socket: Socket::Path(server), version }, target)
        =~= "exec "@ + shell_word(binary) + (" "@ + "-S "@) + word + (" "@ + "attach-session -t "@)
        + target + " || exit $?"@);
}

/// A configured socket is a path from the root, which is taken as it is; any
/// other text is refused, the empty one too.
pub proof fn lemma_configured_sockets(rest: Seq<char>, path: Seq<char>)
    ensures
        selected_socket(None) == Ok::<Socket, Failure>(Socket::Default),
        selected_socket(Some("/"@ + rest)) == Ok::<Socket, Failure>(Socket::Path("/"@ + rest)),
        !"/"@.is_prefix_of(path) ==> selected_socket(Some(path)) == Err::<Socket, Failure>(
            Failure::SocketPath { path },
        ),
{
    reveal_strlit("/");
    if path.len() > 0 && path[0] == '/' {
        assert("/"@ =~= path.subrange(0, 1));
    }
}

/// A probe asks the program for its release on the chosen server, and yields a
/// client with that release exactly where it is supported. A release that
/// cannot be read, or is too old, is named in the failure.
pub proof fn lemma_probe_outcomes(
    binary: Seq<char>,
    socket: Socket,
    text: Seq<char>,
    replies: Seq<Reply>,
    release: Release,
)
    ensures
        replies.len() == 0 ==> probe_stage(binary, socket, replies) == Stage::<
            Result<Client, Failure>,
        >::Run(
            command(
                Client { binary, socket, version: release },
                seq!["-V"@],
                "probe the tmux version"@,
            ),
        ),
        replies.len() > 0 && written(replies[0]) == Some(text) ==> probe_stage(
            binary,
            socket,
            replies,
        ) == Stage::Done(
            match parsed_release(text) {
                None => Err(Failure::UnrecognizedVersion { output: text }),
                Some(version) => if compare_releases(version, minimum_release()) == Age::Earlier {
                    Err(Failure::VersionTooOld { version })
                } else {
                    Ok(Client { binary, socket, version })
                },
            },
        ),
        replies.len() > 0 && (replies[0] matches Err(cause)) ==> probe_stage(
            binary,
            socket,
            replies,
        ) == Stage::Done(
            Err::<Client, Failure>(
                Failure::Launch { what: "probe the tmux version"@, cause: replies[0]->Err_0 },
            ),
        ),
        replies.len() > 0 && replies[0] is Ok && written(replies[0]) is None ==> probe_stage(
            binary,
            socket,
            replies,
        ) == Stage::Done(Err::<Client, Failure>(reply_text(replies[0], "-V"@)->Err_0)),
{
}

/// Discovery looks at the configured socket first and for the program next. It
/// then probes the program under its plain name.
pub proof fn lemma_discovery_outcomes(
    configured: Option<Seq<char>>,
    on_path: bool,
    replies: Seq<Reply>,
)
    ensures
        selected_socket(configured) matches Err(failure) ==> discover_stage(
            configured,
            on_path,
            replies,
        ) == Stage::Done(Err::<Client, Failure>(failure)),
        selected_socket(configured) is Ok && !on_path ==> discover_stage(
            configured,
            on_path,
            replies,
        ) == Stage::Done(Err::<Client, Failure>(Failure::NotInstalled)),
        selected_socket(configured) is Ok && on_path ==> discover_stage(
            configured,
            on_path,
            replies,
        ) == probe_stage("tmux"@, selected_socket(configured)->Ok_0, replies),
{
}

/// Whether a first attempt to create a session has left it there: it succeeded,
/// or it exited with status 1 because tmux refused to attach to the session
/// without a terminal.
pub open spec fn session_is_there(reply: Reply) -> bool {
    reply matches Ok(output) && (output.success || output.code == Some(1i32) && has_part(
        decode_lossy(output.stderr),
        "open terminal failed: not a terminal"@,
    ))
}

/// A refused identity, and a working directory that is no text, fail before any
/// command.
pub proof fn lemma_refused_preparations(
    client: Client,
    slug: Seq<char>,
    session_id: Seq<char>,
    workdir: Option<Seq<char>>,
    resume_command: Seq<char>,
    replies: Seq<Reply>,
)
    ensures
        ({
            let stage = prepare_stage(client, slug, session_id, workdir, resume_command, replies);
            let ended = terminate_stage(client, slug, session_id, replies);
            &&& !valid_slug(slug) ==> stage == Stage::Done(
                Err::<Seq<char>, Failure>(Failure::InvalidSlug { slug }),
            ) && ended == Stage::Done(Err::<(), Failure>(Failure::InvalidSlug { slug }))
            &&& valid_slug(slug) && session_id.len() == 0 ==> stage == Stage::Done(
                Err::<Seq<char>, Failure>(Failure::EmptySessionId),
            ) && ended == Stage::Done(Err::<(), Failure>(Failure::EmptySessionId))
            &&& valid_slug(slug) && session_id.len() > 0 && workdir is None ==> stage
                == Stage::Done(Err::<Seq<char>, Failure>(Failure::WorkdirNotUtf8))
        }),
{
}

/// A session is created under its owned name, in the working directory, with
/// the command that resumes it. An attempt that leaves no session there is made
/// once more, unless it could not be run at all; the second has to succeed.
pub proof fn lemma_sessions_are_created(
    client: Client,
    slug: Seq<char>,
    session_id: Seq<char>,
    workdir: Seq<char>,
    resume_command: Seq<char>,
    replies: Seq<Reply>,
)
    requires
        valid_slug(slug),
        session_id.len() > 0,
    ensures
        ({
            let stage = prepare_stage(
                client,
                slug,
                session_id,
                Some(workdir),
                resume_command,
                replies,
            );
            let args = seq![
                "new-session"@,
                "-d"@,
                "-A"@,
                "-s"@,
                owned_name(slug, session_id),
                "-c"@,
                workdir,
                resume_command,
            ];
            let first = "prepare the shared session"@;
            let second = "prepare the shared session (retry)"@;
            &&& replies.len() == 0 ==> stage == Stage::<Result<Seq<char>, Failure>>::Run(
                command(client, args, first),
            )
            &&& replies.len() > 0 && (replies[0] is Err) ==> stage == Stage::Done(
                Err::<Seq<char>, Failure>(
                    Failure::Launch { what: first, cause: replies[0]->Err_0 },
                ),
            )
            &&& replies.len() == 1 && replies[0] is Ok && !session_is_there(replies[0]) ==> stage
                == Stage::<Result<Seq<char>, Failure>>::Run(command(client, args, second))
            &&& replies.len() > 1 && replies[0] is Ok && !session_is_there(replies[0])
                && replies[1] is Err ==> stage == Stage::Done(
                Err::<Seq<char>, Failure>(
                    Failure::Launch { what: second, cause: replies[1]->Err_0 },
                ),
            )
            &&& replies.len() > 1 && replies[0] is Ok && !session_is_there(replies[0])
                && replies[1] is Ok && !replies[1]->Ok_0.success ==> stage == Stage::Done(
                Err::<Seq<char>, Failure>(
                    Failure::PrepareRetryFailed {
                        stderr: trimmed(decode_lossy(replies[1]->Ok_0.stderr)),
                    },
                ),
            )
        }),
{
}

/// A session that was created, at the first attempt or at the second, has its
/// mouse switched on and then its window fitted to the largest client. Where
/// both succeed the session is attached to by its owned name; the first that
/// fails is the outcome.
pub proof fn lemma_created_sessions_are_set_up(
    client: Client,
    slug: Seq<char>,
    session_id: Seq<char>,
    workdir: Seq<char>,
    resume_command: Seq<char>,
    attempts: Seq<Reply>,
    replies: Seq<Reply>,
)
    requires
        valid_slug(slug),
        session_id.len() > 0,
        attempts.len() == 1 && session_is_there(attempts[0]) || attempts.len() == 2 && attempts[0]
            is Ok && !session_is_there(attempts[0]) && attempts[1] is Ok
            && attempts[1]->Ok_0.success,
    ensures
        ({
            let stage = prepare_stage(
                client,
                slug,
                session_id,
                Some(workdir),
                resume_command,
                attempts + replies,
            );
            let name = owned_name(slug, session_id);
            &&& replies.len() == 0 ==> stage == Stage::<Result<Seq<char>, Failure>>::Run(
                command(client, seq!["set-option"@, "-t"@, name, "mouse"@, "on"@], "set mouse"@),
            )
            &&& replies.len() > 0 && written(replies[0]) is None ==> stage == Stage::Done(
                Err::<Seq<char>, Failure>(reply_text(replies[0], "set mouse"@)->Err_0),
            )
            &&& replies.len() == 1 && written(replies[0]) is Some ==> stage == Stage::<
                Result<Seq<char>, Failure>,
            >::Run(
                command(
                    client,
                    seq!["set-option"@, "-t"@, name, "window-size"@, "largest"@],
                    "set window-size"@,
                ),
            )
            &&& replies.len() > 1 && written(replies[0]) is Some && written(replies[1]) is None
                ==> stage == Stage::Done(
                Err::<Seq<char>, Failure>(reply_text(replies[1], "set window-size"@)->Err_0),
            )
            &&& replies.len() > 1 && written(replies[0]) is Some && written(replies[1]) is Some
                ==> stage == Stage::Done(
                Ok::<Seq<char>, Failure>(attach_line(client, shell_word(name))),
            )
        }),
{
    let all = attempts + replies;
    assert(all[0] == attempts[0]);
    if attempts.len() == 1 {
        assert(all.skip(1) =~= replies);
    } else {
        assert(all[1] == attempts[1]);
        assert(all.skip(2) =~= replies);
    }
}

/// Terminating kills the owned session. A kill that succeeds has terminated it,
/// and so has one that finds no such session or no server; any other failure is
/// the outcome.
pub proof fn lemma_terminate_outcomes(
    client: Client,
    slug: Seq<char>,
    session_id: Seq<char>,
    replies: Seq<Reply>,
)
    requires
        valid_slug(slug),
        session_id.len() > 0,
    ensures
        ({
            let stage = terminate_stage(client, slug, session_id, replies);
            let what = "terminate the shared session"@;
            &&& replies.len() == 0 ==> stage == Stage::<Result<(), Failure>>::Run(
                command(client, seq!["kill-session"@, "-t"@, owned_name(slug, session_id)], what),
            )
            &&& replies.len() > 0 ==> stage is Done && outcome_of_kill(
                replies[0],
                what,
                stage->Done_0,
            )
        }),
{
}

/// Whether an outcome is the one of a kill with this reply: success where the
/// kill succeeded or tmux has said that there is no such session or no server,
/// and else the failure of the command.
pub open spec fn outcome_of_kill(
    reply: Reply,
    what: Seq<char>,
    outcome: Result<(), Failure>,
) -> bool {
    match reply {
        Err(cause) => outcome == Err::<(), Failure>(Failure::Launch { what, cause }),
        Ok(output) => {
            let said = decode_lossy(output.stderr);
            if output.success || has_part(said, "can't find session:"@) || has_part(
                said,
                "no server running on "@,
            ) || has_part(said, "error connecting to "@) && has_part(
                said,
                "No such file or directory"@,
            ) {
                outcome is Ok
            } else {
                outcome == Err::<(), Failure>(
                    Failure::CommandFailed { what, status: output.status, stderr: trimmed(said) },
                )
            }
        },
    }
}

/// Clients, commands and replies over mathematical values keep every field.
pub proof fn lemma_clients_and_commands_keep_fields(
    client: TmuxClient,
    run: TmuxCommand,
    output: CommandOutput,
    replies: Seq<CommandReply>,
    i: int,
)
    ensures
        client@.binary == client.binary@,
        client@.version == client.version@,
        client.socket is Default <==> client@.socket is Default,
        client.socket matches TmuxSocket::Name(name) ==> client@.socket == Socket::Name(name@),
        client.socket matches TmuxSocket::Path(path) ==> client@.socket == Socket::Path(path@),
        run@.what == run.what@,
        run@.argv.len() == run.argv@.len(),
        0 <= i < run.argv@.len() ==> run@.argv[i] == run.argv@[i]@,
        output@.success == output.success,
        output@.code == output.code,
        output@.status == output.status@,
        output@.stdout == output.stdout@,
        output@.stderr == output.stderr@,
        replies_of(replies).len() == replies.len(),
        0 <= i < replies.len() ==> match replies[i] {
            Ok(o) => replies_of(replies)[i] == Ok::<Output, Seq<char>>(o@),
            Err(cause) => replies_of(replies)[i] == Err::<Output, Seq<char>>(cause@),
        },
{
}

/// A step at a stage is that stage: it runs the same command, asks about the
/// same command line, or is done with the same outcome.
pub proof fn lemma_steps_are_their_stages(
    made: Step<Result<TmuxClient, TmuxError>>,
    client: Stage<Result<Client, Failure>>,
    written: Step<Result<String, TmuxError>>,
    text: Stage<Result<Seq<char>, Failure>>,
    ended: Step<Result<(), TmuxError>>,
    end: Stage<Result<(), Failure>>,
)
    ensures
        client_step(made, client) ==> {
            &&& made matches Step::Run(c) ==> client is Run && client->Run_0 == c@
            &&& made matches Step::Identify(c) ==> client is Identify && client->Identify_0 == c@
            &&& made matches Step::Done(Ok(c)) ==> client is Done && client->Done_0 is Ok
                && client->Done_0->Ok_0 == c@
            &&& made matches Step::Done(Err(e)) ==> client is Done && client->Done_0 is Err
                && client->Done_0->Err_0 == e@
        },
        text_step(written, text) ==> {
            &&& written matches Step::Run(c) ==> text is Run && text->Run_0 == c@
            &&& written matches Step::Identify(c) ==> text is Identify && text->Identify_0 == c@
            &&& written matches Step::Done(Ok(t)) ==> text is Done && text->Done_0 is Ok
                && text->Done_0->Ok_0 == t@
            &&& written matches Step::Done(Err(e)) ==> text is Done && text->Done_0 is Err
                && text->Done_0->Err_0 == e@
        },
        unit_step(ended, end) ==> {
            &&& ended matches Step::Run(c) ==> end is Run && end->Run_0 == c@
            &&& ended matches Step::Identify(c) ==> end is Identify && end->Identify_0 == c@
            &&& ended matches Step::Done(Ok(_)) ==> end is Done && end->Done_0 is Ok
            &&& ended matches Step::Done(Err(e)) ==> end is Done && end->Done_0 is Err
                && end->Done_0->Err_0 == e@
        },
{
}

} // verus!
