use zedra_sessions::client::{
    CommandOutput, CommandReply, Step, TmuxClient, TmuxSocket, COMMAND_TIMEOUT,
};
use zedra_sessions::detect::{detect_panes, DetectedTmuxSession, KnownAgent};
use zedra_sessions::error::TmuxError;
use zedra_sessions::identity::{owned_session_name, session_ownership, SessionOwnership};
use zedra_sessions::records::TmuxSessionRecord;
use zedra_sessions::shell::{shell_quote, shell_quote_always};
use zedra_sessions::version::min_supported_version;

const UUID: &str = "3f9d3b52-6a1d-4c4f-9a2b-8f0e5d1c7a10";

fn client(binary: &str, socket: TmuxSocket) -> TmuxClient {
    TmuxClient {
        binary: binary.to_string(),
        socket,
        version: min_supported_version(),
    }
}

fn stub_client() -> TmuxClient {
    client("/tmp/stub-tmux", TmuxSocket::Name("stub".to_string()))
}

fn ok(stdout: &str) -> CommandReply {
    Ok(CommandOutput {
        success: true,
        code: Some(0),
        status: "exit status: 0".to_string(),
        stdout: stdout.as_bytes().to_vec(),
        stderr: Vec::new(),
    })
}

fn fail(code: i32, stderr: &str) -> CommandReply {
    Ok(CommandOutput {
        success: false,
        code: Some(code),
        status: format!("exit status: {code}"),
        stdout: Vec::new(),
        stderr: stderr.as_bytes().to_vec(),
    })
}

fn missing() -> CommandReply {
    Err("No such file or directory (os error 2)".to_string())
}

fn detect_command(line: &str) -> Option<String> {
    match line.split(' ').next() {
        Some("pi") => Some("pi".to_string()),
        Some("omp") => Some("omp".to_string()),
        Some("codex") => Some("codex".to_string()),
        _ => None,
    }
}

/// Carries an operation out against a tmux that `run` stands for.
fn drive<T>(
    operation: impl Fn(&Vec<CommandReply>, &Vec<KnownAgent>) -> Step<T>,
    mut run: impl FnMut(&[String]) -> CommandReply,
) -> T {
    let mut replies: Vec<CommandReply> = Vec::new();
    let mut known: Vec<KnownAgent> = Vec::new();
    loop {
        match operation(&replies, &known) {
            Step::Run(command) => replies.push(run(&command.argv)),
            Step::Identify(line) => {
                assert!(known.iter().all(|answer| answer.command != line));
                let agent = detect_command(&line);
                known.push(KnownAgent { command: line, agent });
            }
            Step::Done(result) => return result,
        }
    }
}

fn is_process_format(argv: &[String]) -> bool {
    argv.iter().any(|arg| arg.contains("pane_current_command"))
}

#[test]
fn argv_construction_carries_socket_and_subcommand() {
    let default = client("/usr/bin/tmux", TmuxSocket::Default);
    assert_eq!(
        default.argv(&["list-sessions"]),
        ["/usr/bin/tmux", "list-sessions"]
    );

    let private = client("/usr/bin/tmux", TmuxSocket::Name("proof".to_string()));
    assert_eq!(
        private.argv(&["kill-session", "-t", "zedra-pi-61"]),
        [
            "/usr/bin/tmux",
            "-L",
            "proof",
            "kill-session",
            "-t",
            "zedra-pi-61"
        ]
    );
}

#[test]
fn configured_path_argv_uses_server_socket() {
    let client = client(
        "/usr/bin/tmux",
        TmuxSocket::Path("/run/zedra/tmux.sock".to_string()),
    );
    assert_eq!(
        client.argv(&["-V"]),
        ["/usr/bin/tmux", "-S", "/run/zedra/tmux.sock", "-V"]
    );
    assert_eq!(
        client.argv(&["kill-session", "-t", "zedra-pi-61"]),
        [
            "/usr/bin/tmux",
            "-S",
            "/run/zedra/tmux.sock",
            "kill-session",
            "-t",
            "zedra-pi-61"
        ]
    );
}

#[test]
fn configured_socket_rejects_empty_and_relative_paths() {
    for path in ["", "relative/tmux.sock"] {
        let error = TmuxClient::configured_socket(Some(path)).unwrap_err();
        assert_eq!(
            error.to_string(),
            format!("tmux.socket must be a non-empty absolute path: {path}")
        );
    }
    assert_eq!(
        TmuxClient::configured_socket(None).unwrap(),
        TmuxSocket::Default
    );
    assert_eq!(
        TmuxClient::configured_socket(Some("/run/tmux.sock")).unwrap(),
        TmuxSocket::Path("/run/tmux.sock".to_string())
    );
}

#[test]
fn prepare_session_argv_is_exact() {
    let client = client("/opt/tmux", TmuxSocket::Name("private".to_string()));
    let args = [
        "new-session",
        "-d",
        "-A",
        "-s",
        &owned_session_name("pi", "session-1").unwrap(),
        "-c",
        "/tmp/proof/workdir",
        "pi resume abc",
    ];
    assert_eq!(
        client.argv(&args),
        [
            "/opt/tmux",
            "-L",
            "private",
            "new-session",
            "-d",
            "-A",
            "-s",
            "zedra-pi-73657373696f6e2d31",
            "-c",
            "/tmp/proof/workdir",
            "pi resume abc"
        ]
    );
    let Step::Run(command) = client.prepare_session(
        "pi",
        "session-1",
        Some("/tmp/proof/workdir"),
        "pi resume abc",
        &Vec::new(),
    ) else {
        panic!("a valid identity is prepared by a command");
    };
    assert_eq!(command.argv, client.argv(&args));
    assert_eq!(command.what, "prepare the shared session");
}

#[test]
fn set_option_argv_matches_proven_forms() {
    let client = client("/usr/bin/tmux", TmuxSocket::Name("proof".to_string()));
    assert_eq!(
        client.argv(&["set-option", "-t", "zedra-pi-61", "mouse", "on"]),
        [
            "/usr/bin/tmux",
            "-L",
            "proof",
            "set-option",
            "-t",
            "zedra-pi-61",
            "mouse",
            "on"
        ]
    );
    assert_eq!(
        client.argv(&["set-option", "-t", "zedra-pi-61", "window-size", "largest"]),
        [
            "/usr/bin/tmux",
            "-L",
            "proof",
            "set-option",
            "-t",
            "zedra-pi-61",
            "window-size",
            "largest"
        ]
    );
}

#[test]
fn attach_command_quotes_binary_socket_and_target() {
    let default = client("/usr/bin/tmux", TmuxSocket::Default);
    assert_eq!(
        default.attach_command("zedra-pi-61"),
        "exec /usr/bin/tmux attach-session -t zedra-pi-61 || exit $?"
    );

    let spaced_binary = client(
        "/opt/My Tmux/tmux",
        TmuxSocket::Name("private socket".to_string()),
    );
    assert_eq!(
        spaced_binary.attach_command("zedra-pi-61"),
        "exec '/opt/My Tmux/tmux' -L 'private socket' attach-session -t zedra-pi-61 || exit $?"
    );

    let quoted = client("/usr/bin/tmux", TmuxSocket::Default);
    assert_eq!(
        quoted.attach_command("zedra-pi-6f'27"),
        "exec /usr/bin/tmux attach-session -t 'zedra-pi-6f'\\''27' || exit $?"
    );
    let path_socket = client(
        "/usr/bin/tmux",
        TmuxSocket::Path("/tmp/Zedra's Socket/tmux.sock".to_string()),
    );
    assert_eq!(
        path_socket.attach_command("zedra-pi-61"),
        "exec /usr/bin/tmux -S '/tmp/Zedra'\\''s Socket/tmux.sock' attach-session -t zedra-pi-61 || exit $?"
    );
}

#[test]
fn quoting_leaves_plain_words_and_quotes_the_rest() {
    assert_eq!(shell_quote("a-b_c./d=9Z"), "a-b_c./d=9Z");
    assert_eq!(shell_quote(""), "''");
    assert_eq!(shell_quote("a b"), "'a b'");
    assert_eq!(shell_quote("é"), "'é'");
    assert_eq!(shell_quote_always("plain"), "'plain'");
    assert_eq!(shell_quote_always("it's"), "'it'\\''s'");
}

#[test]
fn no_server_detection_covers_both_proven_variants() {
    assert!(TmuxClient::is_no_server(
        "no server running on /tmp/tmux-0/proof"
    ));
    assert!(TmuxClient::is_no_server(
        "error connecting to /tmp/tmux-0/proof (No such file or directory)"
    ));
    assert!(!TmuxClient::is_no_server("can't find session: zedra-pi-61"));
    assert!(!TmuxClient::is_no_server("socket corrupted"));
}

#[test]
fn list_sessions_skips_foreign_and_malformed_names() {
    let names = [
        "zedra-pi-73657373696f6e",
        "zedra-omp-73657373696f6e",
        "main",
        "zedra-pi-",
        "ZEDRA-PI-73657373696F6E",
        "zedra-pi-zzz",
    ];
    let owned: Vec<(&str, &str)> = names
        .iter()
        .filter_map(|name| match session_ownership(name) {
            SessionOwnership::Owned { slug, .. } => Some((
                *name,
                match slug.as_str() {
                    "pi" => "pi",
                    "omp" => "omp",
                    _ => unreachable!(),
                },
            )),
            SessionOwnership::Untracked => None,
        })
        .collect();
    assert_eq!(
        owned,
        [
            ("zedra-pi-73657373696f6e", "pi"),
            ("zedra-omp-73657373696f6e", "omp"),
        ]
    );
}

fn done<T: std::fmt::Debug>(step: Step<Result<T, TmuxError>>) -> Result<T, TmuxError> {
    match step {
        Step::Done(result) => result,
        other => panic!("the operation wants more: {other:?}"),
    }
}

#[test]
fn tmux_operations_reject_invalid_identity_before_spawn() {
    let client = client("/nonexistent/tmux-for-zedra-test", TmuxSocket::Default);
    let none = Vec::new();
    assert!(
        done(client.prepare_session("Pi", UUID, Some("/tmp/workdir"), "pi resume x", &none))
            .unwrap_err()
            .to_string()
            .contains("invalid agent slug")
    );
    assert!(
        done(client.prepare_session("pi", "", Some("/tmp/workdir"), "pi resume x", &none))
            .unwrap_err()
            .to_string()
            .contains("empty agent session id")
    );
    assert!(done(client.list_sessions("pi--omp", &none))
        .unwrap_err()
        .to_string()
        .contains("invalid agent slug"));
    assert!(done(client.terminate_session("-pi", UUID, &none))
        .unwrap_err()
        .to_string()
        .contains("invalid agent slug"));
    assert!(done(client.terminate_session("omp", "", &none))
        .unwrap_err()
        .to_string()
        .contains("empty agent session id"));
    assert_eq!(
        done(client.prepare_session("pi", UUID, None, "pi resume x", &none))
            .unwrap_err()
            .to_string(),
        "workdir is not UTF-8"
    );
}

#[test]
fn list_sessions_error_propagates_when_binary_missing() {
    let binaryless = client(
        "/nonexistent/tmux-for-zedra-test",
        TmuxSocket::Name("definitely-missing-socket".to_string()),
    );
    let error = drive(
        |replies, _| binaryless.list_sessions("pi", replies),
        |_| missing(),
    )
    .unwrap_err();
    assert!(error.to_string().contains("list sessions"));
    assert!(matches!(
        error,
        TmuxError::Launch { ref cause, .. } if cause.contains("os error 2")
    ));
}

#[test]
fn list_sessions_classifies_proven_no_server_stderr() {
    for stderr in [
        "no server running on /tmp/tmux-0/proof",
        "error connecting to /tmp/tmux-0/proof (No such file or directory)",
    ] {
        assert!(TmuxClient::is_no_server(stderr), "stderr: {stderr:?}");
        let panes = drive(
            |replies, _| stub_client().list_sessions("pi", replies),
            |_| fail(1, stderr),
        );
        assert!(panes.expect("no server is an empty list").is_empty());
    }
}

#[test]
fn list_sessions_filters_slug_before_pane_calls() {
    let pi_name = owned_session_name("pi", "same-id").unwrap();
    let omp_name = owned_session_name("omp", "same-id").unwrap();
    let panes = drive(
        |replies, _| stub_client().list_sessions("pi", replies),
        |argv| match argv[3].as_str() {
            "list-sessions" => ok(&format!("{pi_name}\n{omp_name}\n")),
            "list-panes" => {
                assert_ne!(argv[5], omp_name, "another agent namespace reached list-panes");
                if is_process_format(argv) {
                    ok("%1|sh|0|\n")
                } else {
                    ok("%1|title|/tmp|sh\n")
                }
            }
            _ => ok(""),
        },
    )
    .expect("list Pi sessions");
    assert_eq!(panes.len(), 1);
    assert_eq!(panes[0].slug, "pi");
    assert_eq!(panes[0].session_id, "same-id");
    assert_eq!(panes[0].metadata.title, "title");
}

#[test]
fn list_sessions_passes_over_sessions_that_cannot_be_read() {
    let names: Vec<String> = ["gone", "half", "empty", "bad", "good"]
        .iter()
        .map(|id| owned_session_name("pi", id).unwrap())
        .collect();
    let panes = drive(
        |replies, _| stub_client().list_sessions("pi", replies),
        |argv| {
            if argv[3] == "list-sessions" {
                return ok(&format!("  {}  \r\nmain\n", names.join("\n")));
            }
            let at = names.iter().position(|name| *name == argv[5]).unwrap();
            match (at, is_process_format(argv)) {
                (0, _) | (1, false) => fail(1, "can't find session"),
                (2, true) => ok(""),
                (3, true) => ok("%1|sh|maybe|"),
                (_, true) => ok("%1|sh|1|2\n%2|sh|0|\n"),
                (_, false) => ok("%1|title|/tmp|sh"),
            }
        },
    )
    .unwrap();
    assert_eq!(panes.len(), 1);
    assert_eq!(panes[0].session_id, "good");
    assert_eq!(panes[0].process.exit_code, Some(2));
}

#[test]
fn listing_errors_carry_status_and_stderr() {
    let list = |reply: fn() -> CommandReply| {
        drive(
            |replies, _| stub_client().list_sessions("pi", replies),
            |_| reply(),
        )
        .unwrap_err()
        .to_string()
    };
    assert_eq!(
        list(|| fail(2, " socket corrupted\n")),
        "tmux list sessions failed with exit status: 2: socket corrupted"
    );
    assert_eq!(
        list(|| {
            Ok(CommandOutput {
                success: true,
                code: Some(0),
                status: "exit status: 0".to_string(),
                stdout: vec![0xff, 0x0a],
                stderr: Vec::new(),
            })
        }),
        "tmux list sessions produced non-UTF-8 output"
    );
    assert_eq!(
        list(|| {
            Ok(CommandOutput {
                success: false,
                code: None,
                status: "signal: 9 (SIGKILL)".to_string(),
                stdout: Vec::new(),
                stderr: vec![0x61, 0xff, 0x62],
            })
        }),
        "tmux list sessions failed with signal: 9 (SIGKILL): a\u{fffd}b"
    );
}

#[test]
fn discovery_checks_socket_then_binary_then_release() {
    let none = Vec::new();
    assert_eq!(
        done(TmuxClient::discover(Some("tmux.sock"), false, &none))
            .unwrap_err()
            .to_string(),
        "tmux.socket must be a non-empty absolute path: tmux.sock"
    );
    assert_eq!(
        done(TmuxClient::discover(None, false, &none))
            .unwrap_err()
            .to_string(),
        "tmux is not installed or not on PATH; install tmux 3.3a or newer for shared agent sessions"
    );
    let found = drive(
        |replies, _| TmuxClient::discover(Some("/run/t.sock"), true, replies),
        |argv| {
            assert_eq!(argv, ["tmux", "-S", "/run/t.sock", "-V"]);
            ok("tmux 3.5a\n")
        },
    )
    .unwrap();
    assert_eq!(found.version().to_string(), "3.5a");
    assert_eq!(found.socket, TmuxSocket::Path("/run/t.sock".to_string()));
    for (reply, message) in [
        (ok("tmux 3.2"), "tmux 3.2 is too old; shared agent sessions require tmux 3.3a or newer"),
        (fail(1, "boom"), "tmux -V failed with exit status: 1: boom"),
        (missing(), "tmux probe the tmux version"),
    ] {
        let replies = vec![reply];
        assert_eq!(
            done(TmuxClient::with_socket("/bin/tmux", None, &replies))
                .unwrap_err()
                .to_string(),
            message
        );
    }
    assert_eq!(COMMAND_TIMEOUT, 5);
}

#[test]
fn prepare_session_accepts_already_prepared_session() {
    let client = drive(
        |replies, _| TmuxClient::with_socket("/tmp/stub-tmux", Some("stub"), replies),
        |_| ok("tmux 3.5\n"),
    )
    .expect("stub probes -V");
    let mut seen: Vec<String> = Vec::new();
    let attach = drive(
        |replies, _| {
            client.prepare_session("pi", UUID, Some("/tmp/workdir"), "pi resume", replies)
        },
        |argv| {
            seen.push(argv[3..].join(" "));
            match argv[3].as_str() {
                "new-session" => fail(1, "open terminal failed: not a terminal\n"),
                _ => ok(""),
            }
        },
    )
    .expect("already-prepared prepare must succeed");
    assert!(attach.contains("attach-session -t zedra-pi-"));
    let name = owned_session_name("pi", UUID).unwrap();
    assert_eq!(
        seen,
        [
            format!("new-session -d -A -s {name} -c /tmp/workdir pi resume"),
            format!("set-option -t {name} mouse on"),
            format!("set-option -t {name} window-size largest"),
        ]
    );
}

#[test]
fn prepare_session_retries_a_failed_creation_once() {
    let name = owned_session_name("pi", UUID).unwrap();
    for (code, stderr) in [(2, "open terminal failed: not a terminal"), (1, "no server")] {
        let mut seen: Vec<String> = Vec::new();
        let attach = drive(
            |replies, _| {
                stub_client().prepare_session("pi", UUID, Some("/tmp"), "pi resume", replies)
            },
            |argv| {
                seen.push(argv[3..].join(" "));
                if seen.len() == 1 {
                    fail(code, stderr)
                } else {
                    ok("")
                }
            },
        )
        .expect("one retry resolves a connect race");
        assert_eq!(attach, stub_client().attach_command(&name));
        let create = format!("new-session -d -A -s {name} -c /tmp pi resume");
        assert_eq!(
            seen,
            [
                create.clone(),
                create,
                format!("set-option -t {name} mouse on"),
                format!("set-option -t {name} window-size largest"),
            ]
        );
    }
    let Step::Run(retry) = stub_client().prepare_session(
        "pi",
        UUID,
        Some("/tmp"),
        "pi",
        &vec![fail(1, "no server")],
    ) else {
        panic!("a failed creation is made once more");
    };
    assert_eq!(retry.what, "prepare the shared session (retry)");
}

#[test]
fn prepare_session_surfaces_other_failures() {
    for (code, stderr) in [
        (2, "open terminal failed: not a terminal"),
        (1, "no space"),
    ] {
        let mut runs = 0;
        let error = drive(
            |replies, _| {
                stub_client().prepare_session("pi", UUID, Some("/tmp"), "pi resume", replies)
            },
            |_| {
                runs += 1;
                fail(code, &format!(" {stderr}\n"))
            },
        )
        .unwrap_err();
        assert_eq!(runs, 2);
        assert_eq!(
            error.to_string(),
            format!("tmux prepare the shared session failed (retry): {stderr}")
        );
    }
    // A second refusal to attach is a failure like any other.
    let prepare = |replies: Vec<CommandReply>| {
        done(stub_client().prepare_session("pi", UUID, Some("/tmp"), "pi", &replies))
            .unwrap_err()
            .to_string()
    };
    assert_eq!(
        prepare(vec![
            fail(1, "lost server"),
            fail(1, "open terminal failed: not a terminal"),
        ]),
        "tmux prepare the shared session failed (retry): open terminal failed: not a terminal"
    );
    assert_eq!(prepare(vec![missing()]), "tmux prepare the shared session");
    assert_eq!(
        prepare(vec![fail(1, "lost server"), missing()]),
        "tmux prepare the shared session (retry)"
    );
    let error = drive(
        |replies, _| stub_client().prepare_session("pi", UUID, Some("/tmp"), "pi", replies),
        |argv| match argv[3].as_str() {
            "set-option" => fail(3, "bad option"),
            _ => ok(""),
        },
    )
    .unwrap_err();
    assert_eq!(
        error.to_string(),
        "tmux set mouse failed with exit status: 3: bad option"
    );
}

#[test]
fn terminate_session_accepts_no_server_as_terminated() {
    for stderr in [
        "no server running on /tmp/tmux-0/stub",
        "can't find session: zedra-pi-61",
    ] {
        drive(
            |replies, _| stub_client().terminate_session("pi", UUID, replies),
            |argv| {
                assert_eq!(
                    argv[3..],
                    [
                        "kill-session".to_string(),
                        "-t".to_string(),
                        owned_session_name("pi", UUID).unwrap()
                    ]
                );
                fail(1, stderr)
            },
        )
        .expect("no-server terminate must count as already terminated");
    }
    assert_eq!(
        drive(
            |replies, _| stub_client().terminate_session("pi", UUID, replies),
            |_| fail(4, "permission denied"),
        )
        .unwrap_err()
        .to_string(),
        "tmux terminate the shared session failed with exit status: 4: permission denied"
    );
}

#[test]
fn detected_sessions_scan_all_live_panes_and_exclude_reserved_names() {
    let sessions = drive(
        |replies, known| stub_client().list_detected_sessions(replies, known),
        |argv| {
            if argv[3] == "list-sessions" {
                return ok("cars_us|2|1726000001\nsingle|3|1726000002\nshell-only|0|1726000003\nzedra-malformed|0|1726000004\nzedra-pi-61|0|1726000005\nbad-query|0|1726000006\nbad-record|0|1726000007\n");
            }
            let target = argv[6].as_str();
            assert!(
                !target.starts_with("=zedra-"),
                "reserved namespace reached list-panes"
            );
            match (target, is_process_format(argv)) {
                ("=bad-query", _) => fail(9, "pane query failed"),
                ("=cars_us", true) => ok("%1|pi|0|\n%2|sh|0|\n%3|codex|1|0\n%4|pi|0|\n"),
                ("=cars_us", false) => ok("%2|two|/tmp|omp --resume session\n%1|one|/tmp|sh\n%4|four|/tmp|sh\n%3|dead|/tmp|codex\n"),
                ("=single", true) => ok("%5|sh|0|\n%6|codex|0|\n"),
                ("=single", false) => ok("%5|five|/tmp|codex --continue\n%6|six|/tmp|omp --resume ignored\n"),
                ("=shell-only", true) => ok("%7|zsh|0|\n"),
                ("=shell-only", false) => ok("%7|shell|/tmp|zsh\n"),
                ("=bad-record", true) => ok("%8|pi|0|\n"),
                ("=bad-record", false) => ok("%9|bad|/tmp|pi\n"),
                _ => ok(""),
            }
        },
    )
    .expect("detected session listing");
    assert_eq!(
        sessions,
        [DetectedTmuxSession {
            name: "single".to_string(),
            agent_slug: "codex".to_string(),
            identity_command: "codex --continue".to_string(),
            pane_title: "five".to_string(),
            current_path: "/tmp".to_string(),
            start_command: "codex --continue".to_string(),
            attached_clients: 3,
            activity_unix_seconds: 1_726_000_002,
        }]
    );
}

fn one_pane(argv: &[String], command: &str) -> CommandReply {
    if is_process_format(argv) {
        ok(&format!("%1|{command}|0|\n"))
    } else {
        ok(&format!(
            "%1|title|/tmp|{}\n",
            if command == "pi" { "sh" } else { command }
        ))
    }
}

#[test]
fn detected_attach_always_quotes_simple_exact_target() {
    let (attach, identity) = drive(
        |replies, known| stub_client().prepare_detected_attach("cars_us", replies, known),
        |argv| match argv[3].as_str() {
            "list-sessions" => ok("cars_us\n"),
            "list-panes" => {
                assert_eq!(argv[6], "=cars_us");
                one_pane(argv, "pi")
            }
            _ => ok(""),
        },
    )
    .expect("prepare simple attach");

    assert_eq!(identity.as_deref(), Some("pi"));
    assert_eq!(
        attach,
        format!(
            "exec {} -L stub attach-session -t '=cars_us' || exit $?",
            shell_quote("/tmp/stub-tmux")
        )
    );
}

#[test]
fn detected_attach_and_terminate_use_exact_argv_targets() {
    let name = "cars us;$HOME'quoted";
    let target = format!("={name}");
    let client = client(
        "/tmp/stub-tmux",
        TmuxSocket::Name("private socket".to_string()),
    );
    let mut killed: Option<String> = None;
    let mut run = |argv: &[String]| match argv[3].as_str() {
        "list-sessions" => ok(&format!("{name}\n")),
        "list-panes" => {
            assert_eq!(argv[6], target);
            one_pane(argv, "pi")
        }
        "kill-session" => {
            killed = Some(argv[5].clone());
            ok("")
        }
        _ => ok(""),
    };

    let (attach, identity) = drive(
        |replies, known| client.prepare_detected_attach(name, replies, known),
        &mut run,
    )
    .expect("prepare exact attach");
    assert_eq!(identity.as_deref(), Some("pi"));
    assert_eq!(
        attach,
        format!(
            "exec {} -L 'private socket' attach-session -t '=cars us;$HOME'\\''quoted' || exit $?",
            shell_quote("/tmp/stub-tmux")
        )
    );
    drive(
        |replies, known| client.terminate_detected_session(name, replies, known),
        &mut run,
    )
    .expect("terminate exact target");
    assert_eq!(killed, Some(target));
}

#[test]
fn detected_targets_revalidate_presence_and_agent_identity() {
    let client = stub_client();
    let absent = |argv: &[String]| match argv[3].as_str() {
        "list-sessions" => ok("gone-suffix\n"),
        _ => ok(""),
    };
    assert!(drive(
        |replies, known| client.prepare_detected_attach("gone", replies, known),
        absent,
    )
    .unwrap_err()
    .to_string()
    .contains("no longer exists"));
    drive(
        |replies, known| client.terminate_detected_session("gone", replies, known),
        absent,
    )
    .expect("disappeared target is terminated");

    let unsupported = |argv: &[String]| match argv[3].as_str() {
        "list-sessions" => ok("plain-shell\n"),
        "list-panes" => one_pane(argv, "zsh"),
        "kill-session" => panic!("unsupported target reached kill-session"),
        _ => ok(""),
    };
    for result in [
        drive(
            |replies, known| client.prepare_detected_attach("plain-shell", replies, known),
            unsupported,
        )
        .map(|_| ()),
        drive(
            |replies, known| client.terminate_detected_session("plain-shell", replies, known),
            unsupported,
        ),
    ] {
        assert!(result
            .unwrap_err()
            .to_string()
            .contains("no longer contains a detected agent"));
    }
    for name in ["", "zedra-pi-61", "zedra-malformed"] {
        assert!(drive(
            |replies, known| client.prepare_detected_attach(name, replies, known),
            unsupported,
        )
        .is_err());
        assert!(drive(
            |replies, known| client.terminate_detected_session(name, replies, known),
            unsupported,
        )
        .is_err());
    }
    assert_eq!(
        TmuxClient::validate_detected_name("").unwrap_err().to_string(),
        "empty tmux session name"
    );
    assert_eq!(
        TmuxClient::validate_detected_name("zedra-x").unwrap_err().to_string(),
        "tmux session names beginning with \"zedra-\" are reserved"
    );
}

#[test]
fn detected_listing_treats_no_server_as_empty_and_surfaces_failures() {
    let client = stub_client();
    let no_server = |_: &[String]| fail(1, "no server running on /tmp/tmux-0/stub\n");
    assert_eq!(
        drive(
            |replies, known| client.list_detected_sessions(replies, known),
            no_server
        )
        .expect("no server is empty"),
        Vec::new()
    );

    assert!(drive(
        |replies, known| client.prepare_detected_attach("gone", replies, known),
        no_server
    )
    .is_err());
    drive(
        |replies, known| client.terminate_detected_session("gone", replies, known),
        no_server,
    )
    .expect("no server means the target is already terminated");

    let error = drive(
        |replies, known| client.list_detected_sessions(replies, known),
        |_| fail(2, "socket corrupted\n"),
    )
    .unwrap_err();
    assert!(error.to_string().contains("socket corrupted"));

    assert!(drive(
        |replies, known| client.list_detected_sessions(replies, known),
        |_| missing(),
    )
    .is_err());
}

#[test]
fn detected_targets_handle_disappearance_during_revalidation() {
    let client = stub_client();
    let mut live = true;
    let error = drive(
        |replies, known| client.prepare_detected_attach("racy", replies, known),
        |argv| match argv[3].as_str() {
            "list-sessions" => ok(if live { "racy\n" } else { "" }),
            "list-panes" => {
                live = false;
                fail(1, "can't find session: racy\n")
            }
            _ => ok(""),
        },
    )
    .unwrap_err();
    assert!(error.to_string().contains("no longer exists"));

    let mut live = true;
    drive(
        |replies, known| client.terminate_detected_session("racy", replies, known),
        |argv| match argv[3].as_str() {
            "list-sessions" => ok(if live { "racy\n" } else { "" }),
            "list-panes" => {
                live = false;
                fail(1, "can't find session: racy\n")
            }
            "kill-session" => panic!("disappeared target reached kill-session"),
            _ => ok(""),
        },
    )
    .expect("disappearance during termination counts as success");
}

#[test]
fn detected_termination_accepts_disappearance_at_kill() {
    drive(
        |replies, known| stub_client().terminate_detected_session("kill-race", replies, known),
        |argv| match argv[3].as_str() {
            "list-sessions" => ok("kill-race\n"),
            "list-panes" => one_pane(argv, "pi"),
            "kill-session" => {
                assert_eq!(argv[5], "=kill-race");
                fail(1, "can't find session: kill-race\n")
            }
            _ => ok(""),
        },
    )
    .expect("disappearance at kill counts as success");
}

#[test]
fn detected_termination_surfaces_unexpected_kill_failure() {
    let error = drive(
        |replies, known| stub_client().terminate_detected_session("kill-failure", replies, known),
        |argv| match argv[3].as_str() {
            "list-sessions" => ok("kill-failure\n"),
            "list-panes" => one_pane(argv, "pi"),
            "kill-session" => fail(4, "permission denied\n"),
            _ => ok(""),
        },
    )
    .unwrap_err();
    assert!(error.to_string().contains("permission denied"));
}

fn detect(processes: &str, metadata: &str) -> Result<Option<DetectedTmuxSession>, TmuxError> {
    let record = TmuxSessionRecord {
        name: "work".to_string(),
        attached_clients: 1,
        activity_unix_seconds: 2,
    };
    let mut known: Vec<KnownAgent> = Vec::new();
    loop {
        match detect_panes(&record, processes, metadata, &known) {
            Step::Identify(line) => {
                let agent = detect_command(&line);
                known.push(KnownAgent { command: line, agent });
            }
            Step::Done(outcome) => return outcome,
            other => panic!("detection in two listings runs nothing: {other:?}"),
        }
    }
}

#[test]
fn pane_listings_must_pair_up() {
    for (processes, metadata, message) in [
        ("%1|pi|0|", "", "tmux pane process and metadata counts differ"),
        ("%1|pi|0|\n%1|pi|0|", "%1|t|/|sh\n%2|t|/|sh", "tmux pane process records contain duplicate ids"),
        ("%1|pi|0|\n%2|pi|0|", "%1|t|/|sh\n%1|t|/|sh", "tmux pane metadata records contain duplicate ids"),
        ("%1|pi|0|\n%2|pi|0|", "%1|t|/|sh\n%3|t|/|sh", "tmux pane process and metadata ids differ"),
        ("%1|pi|2|", "nonsense", "malformed pane_dead value \"2\""),
        ("%1|pi|0|", "nonsense", "malformed pane metadata record: no pane id"),
    ] {
        assert_eq!(detect(processes, metadata).unwrap_err().to_string(), message);
    }
}

#[test]
fn the_first_live_pane_with_the_agent_describes_the_session() {
    let session = detect(
        "%1|codex|1|0\n%2| |0|\n%3|pi|0|\n%4|pi|0|",
        "%4|d|/d|x\n%3|c|/c|x\n%2|b|/b| pi --resume \n%1|a|/a|x",
    )
    .unwrap()
    .unwrap();
    assert_eq!(session.agent_slug, "pi");
    assert_eq!(session.identity_command, "pi --resume");
    assert_eq!(session.pane_title, "b");
    assert_eq!(session.start_command, " pi --resume ");
    assert_eq!(session.attached_clients, 1);
    assert_eq!(session.activity_unix_seconds, 2);
    assert_eq!(detect("%1|pi|0|\n%2|omp|0|", "%1|a|/|x\n%2|b|/|x").unwrap(), None);
    assert_eq!(detect("", "").unwrap(), None);
}

#[test]
fn finished_operations_stay_finished() {
    let client = stub_client();
    let name = owned_session_name("pi", "same-id").unwrap();
    let mut replies = vec![ok(&name), ok("%1|sh|0|"), ok("%1|title|/tmp|sh")];
    let first = done(client.list_sessions("pi", &replies)).unwrap();
    replies.push(fail(1, "late"));
    let again = done(client.list_sessions("pi", &replies)).unwrap();
    assert_eq!(first.len(), 1);
    assert_eq!(again.len(), 1);
    assert_eq!(first[0].process, again[0].process);

    let mut replies = vec![ok("work"), ok("%1|pi|0|"), ok("%1|title|/tmp|sh")];
    let mut known = vec![KnownAgent {
        command: "pi".to_string(),
        agent: Some("pi".to_string()),
    }];
    let first = done(client.prepare_detected_attach("work", &replies, &known)).unwrap();
    replies.push(ok(""));
    known.push(KnownAgent {
        command: "pi".to_string(),
        agent: None,
    });
    let again = done(client.prepare_detected_attach("work", &replies, &known)).unwrap();
    assert_eq!(first, again);
    assert_eq!(first.1.as_deref(), Some("pi"));
}

#[test]
fn prepared_sessions_are_found_again_under_their_slug_only() {
    let Step::Run(create) = stub_client().prepare_session(
        "pi",
        " id ",
        Some("/tmp"),
        "pi resume",
        &Vec::new(),
    ) else {
        panic!("a valid identity is prepared by a command");
    };
    let name = create.argv[7].clone();
    let list = |slug: &str| {
        drive(
            |replies, _| stub_client().list_sessions(slug, replies),
            |argv| match argv[3].as_str() {
                "list-sessions" => ok(&format!("{name}\n")),
                _ if is_process_format(argv) => ok("%1|sh|0|"),
                _ => ok("%1|title|/tmp|sh"),
            },
        )
        .unwrap()
    };
    assert_eq!(list("pi").len(), 1);
    assert_eq!(list("pi")[0].session_id, " id ");
    assert!(list("omp").is_empty());
}

/// Reads one word as a shell does: single quotes, and a backslash outside them.
fn shell_word(word: &str) -> Option<String> {
    let mut text = String::new();
    let mut inside = false;
    let mut chars = word.chars();
    while let Some(c) = chars.next() {
        match c {
            '\'' => inside = !inside,
            '\\' if !inside => text.push(chars.next()?),
            ' ' | '\t' | '\n' | ';' | '&' | '|' | '$' | '"' | '`' | '*' if !inside => return None,
            c => text.push(c),
        }
    }
    (!inside).then_some(text)
}

#[test]
fn quoted_words_read_back() {
    for value in ["", "plain", "=name", "a b", "it's", "''", "\\", "$HOME; `x` | \"y\" & *", "ü\n"] {
        assert_eq!(shell_word(&shell_quote(value)).as_deref(), Some(value));
        assert_eq!(shell_word(&shell_quote_always(value)).as_deref(), Some(value));
    }
}

#[test]
fn metadata_order_and_dead_panes_are_immaterial() {
    let processes = "%1|sh|0|\n%2|codex|1|0\n%3|pi|0|";
    let metadata = "%1|a|/a|pi --resume\n%2|b|/b|codex\n%3|c|/c|sh";
    let session = detect(processes, metadata).unwrap();
    assert_eq!(session.as_ref().unwrap().pane_title, "a");
    for permuted in [
        "%3|c|/c|sh\n%2|b|/b|codex\n%1|a|/a|pi --resume",
        "%2|b|/b|codex\n%1|a|/a|pi --resume\n%3|c|/c|sh",
    ] {
        assert_eq!(detect(processes, permuted).unwrap(), session);
    }
    assert_eq!(
        detect(
            "%1|sh|0|\n%3|pi|0|",
            "%3|c|/c|sh\n%1|a|/a|pi --resume"
        )
        .unwrap(),
        session
    );
}
