use zedra_sessions::identity::{owned_session_name, session_ownership, validate_slug, SessionOwnership};
use zedra_sessions::records::{
    parse_pane_metadata, parse_pane_process, parse_session_record, TmuxSessionRecord,
    METADATA_PANE_FORMAT, PROCESS_PANE_FORMAT, SESSION_FORMAT,
};
use zedra_sessions::version::{min_supported_version, parse_version, supported_version};

const UUID: &str = "3f9d3b52-6a1d-4c4f-9a2b-8f0e5d1c7a10";

#[test]
fn owned_names_round_trip_agent_and_arbitrary_session_ids() {
    for slug in ["pi", "omp", "agent-with-hyphen"] {
        for id in [
            UUID,
            "with space",
            "with\ttab",
            "quote'and\"double",
            "shell;$meta|chars&`",
            "ünïcödé-セッション-🚀",
            "0",
        ] {
            let name = owned_session_name(slug, id).unwrap();
            let SessionOwnership::Owned {
                slug: decoded_slug,
                session_id,
            } = session_ownership(&name)
            else {
                panic!("owned name must decode: {name}");
            };
            assert_eq!(decoded_slug, slug);
            assert_eq!(session_id, id);
            assert_eq!(
                owned_session_name(&decoded_slug, &session_id).unwrap(),
                name
            );
        }
    }
    assert_eq!(
        owned_session_name("pi", "session-1").unwrap(),
        "zedra-pi-73657373696f6e2d31"
    );
    assert_eq!(
        owned_session_name("omp", "session-1").unwrap(),
        "zedra-omp-73657373696f6e2d31"
    );
}

#[test]
fn owned_names_reject_invalid_slugs_and_empty_ids() {
    for slug in ["", "-pi", "pi-", "pi--omp", "Pi", "pi_omp", "π"] {
        assert!(owned_session_name(slug, UUID).is_err(), "slug: {slug:?}");
    }
    assert!(owned_session_name("pi", "").is_err());
}

#[test]
fn owned_names_are_collision_free() {
    let encoded = [
        owned_session_name("pi", "ab").unwrap(),
        owned_session_name("pi", "abc").unwrap(),
        owned_session_name("pi", "ba").unwrap(),
        owned_session_name("omp", "ab").unwrap(),
    ];
    for (index, name) in encoded.iter().enumerate() {
        assert!(!encoded[index + 1..].contains(name));
    }
}

#[test]
fn foreign_and_malformed_names_are_untracked() {
    for name in [
        "main",
        "zsh-0",
        "zedra",
        "zedra-pi",
        "zedra--61",
        "zedra--pi-61",
        "zedra-pi--61",
        "zedra-Pi-61",
        "zedra-pi_omp-61",
        "zedra-π-aaaa",
        " zedra-pi-61",
        "zedra-pi-61 ",
        "zedra-pi-",
        "zedra-pi-abc",
        "zedra-pi-zzzz",
        "zedra-pi-ABCD",
        "zedra-pi-ff",
        "zedra-pi-6 1",
    ] {
        assert_eq!(session_ownership(name), SessionOwnership::Untracked);
    }
}

#[test]
fn ownership_decodes_slug_and_session_id() {
    let name = owned_session_name("agent-with-hyphen", UUID).unwrap();
    assert_eq!(
        session_ownership(&name),
        SessionOwnership::Owned {
            slug: "agent-with-hyphen".to_string(),
            session_id: UUID.to_string(),
        }
    );
}

#[test]
fn long_session_ids_round_trip() {
    let id = "séance ".repeat(3000);
    let name = owned_session_name("pi", &id).unwrap();
    assert_eq!(name.len(), "zedra-pi-".len() + 2 * id.len());
    assert_eq!(
        session_ownership(&name),
        SessionOwnership::Owned {
            slug: "pi".to_string(),
            session_id: id,
        }
    );
}

#[test]
fn identity_errors_say_what_is_wrong() {
    assert_eq!(
        validate_slug("Pi \"x\"").unwrap_err().to_string(),
        "invalid agent slug: \"Pi \\\"x\\\"\""
    );
    assert_eq!(
        owned_session_name("pi", "").unwrap_err().to_string(),
        "empty agent session id"
    );
}

#[test]
fn listing_formats_match_the_proven_two_call_contract() {
    assert_eq!(
        PROCESS_PANE_FORMAT,
        "#{pane_id}|#{pane_current_command}|#{pane_dead}|#{pane_dead_status}"
    );
    assert_eq!(
        METADATA_PANE_FORMAT,
        "#{pane_id}|#{pane_title}|#{pane_current_path}|#{pane_start_command}"
    );
    assert_eq!(
        SESSION_FORMAT,
        "#{session_name}|#{session_attached}|#{session_activity}"
    );
}

#[test]
fn session_records_preserve_pipe_names_and_parse_presence() {
    assert_eq!(
        parse_session_record("cars|review|3|1726000000").unwrap(),
        TmuxSessionRecord {
            name: "cars|review".into(),
            attached_clients: 3,
            activity_unix_seconds: 1_726_000_000,
        }
    );
}

#[test]
fn session_records_reject_malformed_output() {
    for line in [
        "",
        "name",
        "name|1",
        "|1|1726000000",
        "name|many|1726000000",
        "name|1|recent",
    ] {
        assert!(parse_session_record(line).is_err(), "line: {line:?}");
    }
}

#[test]
fn session_record_errors_say_what_is_wrong() {
    for (line, message) in [
        ("", "malformed tmux session record: missing activity"),
        ("name|1", "malformed tmux session record: missing attached-client count"),
        ("|x|y", "malformed tmux session record: empty name"),
        ("name|many|recent", "malformed session_attached value \"many\""),
        ("name|4294967296|0", "malformed session_attached value \"4294967296\""),
        ("name|1|recent", "malformed session_activity value \"recent\""),
        ("name|1|9223372036854775808", "malformed session_activity value \"9223372036854775808\""),
    ] {
        assert_eq!(parse_session_record(line).unwrap_err().to_string(), message);
    }
    let record = parse_session_record("name|+1|-9223372036854775808").unwrap();
    assert_eq!(record.attached_clients, 1);
    assert_eq!(record.activity_unix_seconds, i64::MIN);
}

#[test]
fn version_ordering_matches_tmux_releases() {
    let min = min_supported_version();
    assert_eq!(parse_version("tmux 3.3a").unwrap(), min);
    assert!(parse_version("tmux 3.3").unwrap() < min);
    assert!(parse_version("tmux 3.3b").unwrap() > min);
    assert!(parse_version("tmux 3.4").unwrap() > min);
    assert!(parse_version("tmux 4.0").unwrap() > parse_version("tmux 3.10").unwrap());
    assert!(parse_version("tmux 3.10").unwrap() > parse_version("tmux 3.9").unwrap());
    assert_eq!(parse_version(" tmux 3.3a\n").unwrap(), min);
    assert_eq!(
        parse_version("tmux next-3.5").unwrap(),
        parse_version("tmux 3.5").unwrap()
    );
}

#[test]
fn version_rejects_unparseable_output() {
    for output in [
        "tmux master",
        "tmux 3.A",
        "tmux 3.a",
        "tmux 3.3a next",
        "",
        "open terminal failed: not a terminal",
    ] {
        assert!(parse_version(output).is_err(), "output: {output:?}");
    }
}

#[test]
fn supported_version_enforces_minimum() {
    assert_eq!(
        supported_version("tmux 3.3a").unwrap(),
        min_supported_version()
    );
    assert!(supported_version("tmux 3.4").is_ok());
    assert!(supported_version("tmux next-3.5").is_ok());
    assert!(supported_version("tmux 3.3").is_err());
    assert!(supported_version("tmux 3.2").is_err());
    assert!(supported_version("tmux 2.9").is_err());
    assert!(supported_version("tmux 3").is_err());
    assert!(supported_version("tmux master").is_err());
}

#[test]
fn derived_order_agrees_with_the_written_one() {
    let releases = ["tmux 2.9", "tmux 3", "tmux 3.3", "tmux 3.3a", "tmux 3.3b", "tmux 3.3.1", "tmux 10"];
    for a in releases {
        for b in releases {
            let (a, b) = (parse_version(a).unwrap(), parse_version(b).unwrap());
            assert_eq!(a.partial_cmp(&b), Some(a.cmp(&b)));
        }
    }
}

#[test]
fn development_builds_count_as_their_release() {
    for text in ["3.5", "3.5 \t\n", "3.5a", "master", "", "x next-3"] {
        let release = parse_version(&format!("tmux {text}")).ok();
        assert_eq!(parse_version(&format!("tmux next-{text}")).ok(), release);
    }
    assert!(parse_version("tmux next-next-3.5").is_err());
    assert!(parse_version("tmux next- 3.5").is_err());
}

#[test]
fn versions_print_as_they_are_read() {
    for text in ["3.3a", "3", "10.0.2z", "3.10"] {
        let version = parse_version(&format!("tmux {text}")).unwrap();
        assert_eq!(version.to_string(), text);
    }
    assert_eq!(
        supported_version("tmux 3.2c").unwrap_err().to_string(),
        "tmux 3.2c is too old; shared agent sessions require tmux 3.3a or newer"
    );
    assert_eq!(
        supported_version("screen 4").unwrap_err().to_string(),
        "unrecognized `tmux -V` output: \"screen 4\""
    );
}

#[test]
fn pane_process_records_parse_live_and_dead_panes() {
    let live = parse_pane_process("%0|zsh|0|").unwrap();
    assert_eq!(live.pane_id, "%0");
    assert_eq!(live.current_command, "zsh");
    assert!(!live.dead);
    assert_eq!(live.exit_code, None);

    let dead = parse_pane_process("%1|pi|1|7").unwrap();
    assert!(dead.dead);
    assert_eq!(dead.exit_code, Some(7));

    let signaled = parse_pane_process("%2|python3|1|137").unwrap();
    assert_eq!(signaled.exit_code, Some(137));
}

#[test]
fn pane_process_records_reject_malformed_input() {
    for line in [
        "",
        "%0|zsh",
        "%0|zsh|0",
        "%0|zsh|0||extra",
        "%0|zsh|true|",
        "%0|zsh|0|code",
    ] {
        assert!(parse_pane_process(line).is_err(), "line: {line:?}");
    }
}

#[test]
fn pane_process_errors_say_what_is_wrong() {
    for (line, message) in [
        ("%0|zsh|0||extra", "malformed pane process record: expected 4 fields, got 5"),
        ("%0|zsh|true|", "malformed pane_dead value \"true\""),
        ("%0|zsh|1|-1", "malformed pane_dead_status value \"-1\""),
    ] {
        assert_eq!(parse_pane_process(line).unwrap_err().to_string(), message);
    }
}

#[test]
fn pane_metadata_records_parse_with_pipe_titles() {
    let plain = parse_pane_metadata("%0|host|/tmp/proof|pi resume").unwrap();
    assert_eq!(plain.pane_id, "%0");
    assert_eq!(plain.title, "host");
    assert_eq!(plain.current_path, "/tmp/proof");
    assert_eq!(plain.start_command, "pi resume");

    let piped = parse_pane_metadata("%1|a|b|title|/home/u|\"pi resume\"").unwrap();
    assert_eq!(piped.title, "a|b|title");
    assert_eq!(piped.current_path, "/home/u");
    assert_eq!(piped.start_command, "\"pi resume\"");

    let empty = parse_pane_metadata("%2|||").unwrap();
    assert_eq!(empty.pane_id, "%2");
    assert_eq!(empty.title, "");
    assert_eq!(empty.current_path, "");
    assert_eq!(empty.start_command, "");
}

#[test]
fn pane_metadata_records_reject_malformed_input() {
    for line in ["", "%0", "%0|title", "%0|title|path"] {
        assert!(parse_pane_metadata(line).is_err(), "line: {line:?}");
    }
}

#[test]
fn pane_metadata_errors_say_what_is_wrong() {
    for (line, message) in [
        ("%0", "malformed pane metadata record: no pane id"),
        ("%0|title", "malformed pane metadata record: missing start command"),
        ("%0|title|path", "malformed pane metadata record: missing current path"),
    ] {
        assert_eq!(parse_pane_metadata(line).unwrap_err().to_string(), message);
    }
}
