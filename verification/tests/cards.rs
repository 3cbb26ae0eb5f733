use zedra_sessions::agents::{
    AgentCliSummary, AgentGitSummary, AgentInfoField, AgentResumeSummary, AgentSessionCounts,
    AgentSessionSummary, AgentSetupState, AgentShareSession, AgentSummary, AgentUsageLimits,
    TmuxClientCounts, TmuxSessionSummary,
};
use zedra_sessions::clock::Timestamp;
use zedra_sessions::display::{
    agent_card, cli_version_display, extra_lines, format_reset_duration_dh,
    format_reset_duration_hm, format_size, reset_duration_dh_at, reset_duration_hm_at,
    seconds_until_reset, session_card, session_card_actions, session_list_body, session_list_item_count, session_title,
    setup_label, short_id, tmux_agent_slugs, tmux_card_id, tmux_session_actions,
    tmux_session_row_model, usage_gauges_at, usage_row, virtual_item, AgentDisplay, ListBody,
    SessionCardProps, UsageGauge, VirtualItem,
};
use zedra_sessions::number::{decimal_text, parse_i64, parse_u32, parse_u64};
use zedra_sessions::sessions::{AgentSessionRow, SharedSessionStatus};
use zedra_sessions::text::{is_white_space, lines, to_ascii_lowercase, trim};

fn field(label: &str, value: &str) -> AgentInfoField {
    AgentInfoField {
        label: label.into(),
        value: value.into(),
    }
}

fn agent() -> AgentSummary {
    AgentSummary {
        slug: "pi".into(),
        display_name: "Pi".into(),
        shows_detail: true,
        cli: AgentCliSummary {
            available: true,
            version: Some("1.2".into()),
            error: Some("unused".into()),
        },
        sessions: AgentSessionCounts {
            resumable: 3,
            total: 12,
        },
        account_fields: vec![
            field("Default model", "m-1"),
            field("Plan", "PRO Max"),
            field("Plan", "second"),
            field("Default provider", "acme"),
        ],
        usage: None,
        highlight: "".into(),
    }
}

fn session() -> AgentSessionSummary {
    AgentSessionSummary {
        slug: "pi".into(),
        session_id: "séssion-0123".into(),
        title: Some("Fix the build".into()),
        cwd: None,
        created_at: Timestamp::new(60, 0),
        last_activity_at: Timestamp::new(3_660, 0),
        resume: AgentResumeSummary {
            available: true,
            unavailable_reason: None,
            action_id: None,
        },
        git: Some(AgentGitSummary {
            branch: Some("main".into()),
        }),
        transcript_size_bytes: Some(1536),
    }
}

#[test]
fn versions_fall_back_to_what_is_known() {
    let mut agent = agent();
    assert_eq!(cli_version_display(&agent), "1.2");
    agent.cli.version = None;
    assert_eq!(cli_version_display(&agent), "Checking…");
    agent.cli.available = false;
    assert_eq!(cli_version_display(&agent), "unused");
    agent.cli.error = None;
    assert_eq!(cli_version_display(&agent), "Not installed");
}

#[test]
fn setup_states_have_labels() {
    for (state, label) in [
        (AgentSetupState::MissingCli, "Missing CLI"),
        (AgentSetupState::NotConfigured, "Not configured"),
        (AgentSetupState::SkillsOnly, "Skills only"),
        (AgentSetupState::HooksReady, "Hooks ready"),
        (AgentSetupState::Error, "Error"),
    ] {
        assert_eq!(setup_label(state), label);
    }
}

#[test]
fn short_ids_are_eight_characters() {
    assert_eq!(short_id("0123456789"), "01234567");
    assert_eq!(short_id("éééééééééé"), "éééééééé");
    assert_eq!(short_id("abc"), "abc");
}

#[test]
fn agent_cards_show_counts_plan_and_model() {
    let mut agent = agent();
    let card = agent_card(&agent);
    assert_eq!(card.id, "agent-card-pi");
    assert_eq!(card.display_name, "Pi");
    assert_eq!(card.plan.as_deref(), Some("pro max"));
    assert_eq!(card.version, "1.2");
    assert_eq!(card.sessions_label, "12 sessions");
    assert_eq!(card.model_provider.as_deref(), Some("m-1 · acme"));
    assert_eq!(card.highlight, None);

    agent.sessions.resumable = 40;
    agent.highlight = "new".into();
    agent.account_fields = vec![field("Default provider", "acme")];
    let card = agent_card(&agent);
    assert_eq!(card.plan, None);
    assert_eq!(card.sessions_label, "40 sessions");
    assert_eq!(card.model_provider.as_deref(), Some("acme"));
    assert_eq!(card.highlight.as_deref(), Some("new"));

    agent.account_fields = vec![field("Default model", "m-1")];
    assert_eq!(agent_card(&agent).model_provider.as_deref(), Some("m-1"));
    agent.account_fields = Vec::new();
    assert_eq!(agent_card(&agent).model_provider, None);
}

#[test]
fn fields_become_lines() {
    assert_eq!(extra_lines(&Vec::new()), None);
    assert_eq!(
        extra_lines(&vec![field("a", "1"), field("b", "")]),
        Some(vec!["a: 1".to_string(), "b: ".to_string()])
    );
}

#[test]
fn resets_read_as_durations() {
    let now = 1_000_000;
    for (seconds, hm, dh) in [
        (1, "1m", "1m"),
        (59, "1m", "1m"),
        (60, "1m", "1m"),
        (119, "1m", "1m"),
        (120, "2m", "2m"),
        (3_599, "59m", "59m"),
        (3_600, "1h0m", "1h"),
        (9_000, "2h30m", "2h"),
        (86_399, "23h59m", "23h"),
        (86_400, "24h0m", "1d"),
        (277_200, "77h0m", "3d5h"),
    ] {
        assert_eq!(reset_duration_hm_at(now + seconds, now).as_deref(), Some(hm));
        assert_eq!(reset_duration_dh_at(now + seconds, now).as_deref(), Some(dh));
    }
    assert_eq!(reset_duration_hm_at(now, now), None);
    assert_eq!(reset_duration_dh_at(i64::MIN, now), None);
}

#[test]
fn resets_are_counted_from_the_clock() {
    let now = Timestamp::now().seconds();
    assert_eq!(seconds_until_reset(now - 1), None);
    let left = seconds_until_reset(now + 1000).unwrap();
    assert!(left > 900 && left <= 1000);
    assert_eq!(format_reset_duration_hm(0), None);
    assert!(seconds_until_reset(8_210_266_876_800).is_some());
    assert!(format_reset_duration_hm(i64::MAX).is_some());
    assert!(format_reset_duration_dh(i64::MAX).is_some());
    assert_eq!(format_reset_duration_dh(now + 200_000).as_deref(), Some("2d7h"));
    assert_eq!(format_reset_duration_hm(now + 7_230).as_deref(), Some("2h0m"));
}

#[test]
fn gauges_stand_for_reported_limits() {
    let mut limits = AgentUsageLimits {
        five_hour_reported: true,
        five_hour_resets_at: Some(9_010),
        seven_day_reported: true,
        seven_day_resets_at: None,
    };
    let gauge = |label: &str, resets_in: &str| UsageGauge {
        label: label.into(),
        resets_in: resets_in.into(),
    };
    assert_eq!(
        usage_gauges_at(&limits, 10, 10),
        Some(vec![gauge("5h", "2h30m"), gauge("7d", "")])
    );
    limits.five_hour_reported = false;
    limits.seven_day_resets_at = Some(100_000);
    assert_eq!(
        usage_gauges_at(&limits, 10, 0),
        Some(vec![gauge("7d", "1d3h")])
    );
    limits.seven_day_reported = false;
    assert_eq!(usage_gauges_at(&limits, 10, 0), None);
    assert_eq!(usage_row(&limits), None);
}

fn reference_size(bytes: u64) -> String {
    if bytes >= 1024 * 1024 {
        format!("{:.1} MB", bytes as f64 / (1024.0 * 1024.0))
    } else if bytes >= 1024 {
        format!("{:.1} KB", bytes as f64 / 1024.0)
    } else {
        format!("{bytes} B")
    }
}

#[test]
fn sizes_read_like_rounded_floating_point() {
    assert_eq!(format_size(0), "0 B");
    assert_eq!(format_size(1023), "1023 B");
    assert_eq!(format_size(1024), "1.0 KB");
    assert_eq!(format_size(1536), "1.5 KB");
    assert_eq!(format_size(1024 * 1024 - 1), "1024.0 KB");
    assert_eq!(format_size(5 * 1024 * 1024 + 300_000), "5.3 MB");
    for bytes in 0..4096_u64 {
        assert_eq!(format_size(bytes * 51), reference_size(bytes * 51));
    }
    // Halves of a tenth, around which rounding decides.
    for step in 0..200_u64 {
        let middle = 1024 * 1024 + step * 1024 * 1024 / 20;
        for bytes in middle - 2..middle + 3 {
            assert_eq!(format_size(bytes), reference_size(bytes));
        }
    }
    let mut seed: u64 = 7;
    for _ in 0..20_000 {
        seed = seed.wrapping_mul(6364136223846793005).wrapping_add(1442695040888963407);
        for shift in [0, 5, 9, 12, 30] {
            assert_eq!(format_size(seed >> shift), reference_size(seed >> shift));
        }
    }
    for shift in 50..64 {
        for offset in [-3_i64, -2, -1, 0, 1, 2, 3, 1024, 1025] {
            let bytes = (1_u64 << shift).wrapping_add(offset as u64);
            assert_eq!(format_size(bytes), reference_size(bytes));
        }
    }
    assert_eq!(format_size(u64::MAX), reference_size(u64::MAX));
}

#[test]
fn session_cards_show_what_is_known() {
    let shared = AgentShareSession {
        session_id: "x".into(),
        title: None,
        cwd: None,
        current_command: None,
        dead: true,
        exit_code: Some(2),
    };
    let full = session();
    let card = session_card(SessionCardProps {
        session: &full,
        shared: Some(&shared),
        resume_on_tap: true,
    });
    assert_eq!(card.id, "session-card-pi-séssion-");
    assert_eq!(card.meta_id, "session-card-meta-séssion-");
    assert_eq!(card.title, "Fix the build");
    assert_eq!(card.badge, Some(SharedSessionStatus::Ended(Some(2))));
    assert_eq!(card.time.as_deref(), Some("01:01"));
    assert_eq!(card.branch, "main");
    assert_eq!(card.tail.as_deref(), Some("1.5 KB"));
    assert!(card.resumes);
    assert!(card.terminates);

    let mut bare = session();
    bare.title = Some("".into());
    bare.last_activity_at = None;
    bare.git = Some(AgentGitSummary {
        branch: Some("".into()),
    });
    bare.transcript_size_bytes = None;
    bare.resume.available = false;
    let card = session_card(SessionCardProps {
        session: &bare,
        shared: None,
        resume_on_tap: true,
    });
    assert_eq!(card.title, "Unknown");
    assert_eq!(card.badge, None);
    assert_eq!(card.time.as_deref(), Some("00:01"));
    assert_eq!(card.branch, "unknown");
    assert_eq!(card.tail, None);
    assert!(!card.resumes);
    assert!(!card.terminates);
    bare.title = None;
    assert_eq!(session_title(&bare), "Unknown");
}

#[test]
fn session_card_actions_carry_the_full_identity() {
    let shared = AgentShareSession {
        session_id: "x".into(),
        title: None,
        cwd: None,
        current_command: None,
        dead: true,
        exit_code: None,
    };
    let full = session();
    for resume_on_tap in [true, false] {
        for available in [true, false] {
            for shared in [Some(&shared), None] {
                let mut session = full.clone();
                session.resume.available = available;
                let (resume, terminate) = session_card_actions(SessionCardProps {
                    session: &session,
                    shared,
                    resume_on_tap,
                });
                assert_eq!(resume.is_some(), resume_on_tap && available);
                assert_eq!(terminate.is_some(), shared.is_some());
                if let Some(resume) = resume {
                    assert_eq!(resume.slug, "pi");
                    assert_eq!(resume.session_id, "séssion-0123");
                }
                if let Some(terminate) = terminate {
                    assert_eq!(terminate.slug, "pi");
                    assert_eq!(terminate.session_id, "séssion-0123");
                }
            }
        }
    }
}

fn tmux_session(name: &str, slugs: Vec<String>) -> TmuxSessionSummary {
    TmuxSessionSummary {
        name: name.into(),
        agent_slugs: slugs,
        title: String::new(),
        last_activity_at: None,
        git_branch: None,
        transcript_size_bytes: None,
        clients: TmuxClientCounts::default(),
    }
}

fn displays(session: &TmuxSessionSummary) -> Vec<AgentDisplay> {
    tmux_agent_slugs(session)
        .iter()
        .map(|slug| AgentDisplay {
            name: match slug.as_str() {
                "pi" => "Pi".into(),
                _ => "Codex CLI".into(),
            },
            icon: format!("icons/{slug}.svg"),
        })
        .collect()
}

#[test]
fn tmux_row_uses_single_agent_label_icon_and_attach_identity() {
    let session = tmux_session("cars_us", vec!["pi".into()]);
    let model = tmux_session_row_model(&session, &displays(&session));
    let (attach, manage) = tmux_session_actions(&session, &model);

    assert_eq!(model.secondary_label, "Pi");
    assert_eq!(model.icon_path, "icons/pi.svg");
    assert_eq!(model.attach_agent_slug.as_deref(), Some("pi"));
    assert_eq!(attach.name, "cars_us");
    assert_eq!(attach.agent_slug.as_deref(), Some("pi"));
    assert_eq!(manage.name, "cars_us");
    assert_eq!(tmux_card_id(&session), "tmux-session-card-cars_us");
}

#[test]
fn tmux_row_uses_terminal_icon_and_all_distinct_agent_names_for_multiple_agents() {
    let session = tmux_session("review swarm", vec!["pi".into(), "codex".into(), "pi".into()]);
    let model = tmux_session_row_model(&session, &displays(&session));
    let (attach, manage) = tmux_session_actions(&session, &model);

    assert_eq!(model.secondary_label, "Pi · Codex CLI");
    assert_eq!(model.icon_path, "icons/terminal.svg");
    assert_eq!(model.attach_agent_slug, None);
    assert_eq!(attach.name, "review swarm");
    assert_eq!(attach.agent_slug, None);
    assert_eq!(manage.name, "review swarm");

    let empty = tmux_session("none", Vec::new());
    let model = tmux_session_row_model(&empty, &Vec::new());
    assert_eq!(model.secondary_label, "");
    assert_eq!(model.icon_path, "icons/terminal.svg");
}

#[test]
fn short_lists_show_messages_in_order() {
    let message = |text: &str| ListBody::Message(text.into());
    assert_eq!(
        session_list_body(3, true, Some("e".into()), "none"),
        message("Loading…")
    );
    assert_eq!(session_list_body(3, false, Some("e".into()), "none"), message("e"));
    assert_eq!(session_list_body(0, false, None, "none"), message("none"));
    assert_eq!(session_list_body(1, false, None, "none"), ListBody::Sections);
}

#[test]
fn virtual_lists_end_with_an_inset() {
    let rows = vec![AgentSessionRow::Header("Today".into())];
    assert_eq!(session_list_item_count(rows.len()), 2);
    assert!(matches!(virtual_item(&rows, 0), VirtualItem::Row(row) if *row == rows[0]));
    assert!(matches!(virtual_item(&rows, 1), VirtualItem::BottomInset));
    assert!(matches!(virtual_item(&rows, 2), VirtualItem::Nothing));
}

#[test]
fn white_space_is_what_unicode_says() {
    for code in 0..=0x10FFFF_u32 {
        if let Some(c) = char::from_u32(code) {
            assert_eq!(is_white_space(c), c.is_whitespace(), "{code:x}");
        }
    }
}

#[test]
fn texts_are_cut_like_strings() {
    for text in ["", "\n", "a", "a\n", "a\r\nb\r", "\r\n\r\n", "a\n\nb\rc\n", "é\n "] {
        assert_eq!(lines(text), text.lines().collect::<Vec<_>>());
        assert_eq!(trim(text), text.trim());
    }
    for text in ["", " \t a b\u{a0}", "\u{3000}x", "   "] {
        assert_eq!(trim(text), text.trim());
    }
    assert_eq!(to_ascii_lowercase("ÀBZ[a@"), "ÀBZ[a@".to_ascii_lowercase());
}

#[test]
fn numbers_are_read_like_std_reads_them() {
    for text in [
        "", "+", "-", "0", "-0", "+0", "007", "+42", "-42", "4294967295", "4294967296",
        "18446744073709551615", "18446744073709551616", "9223372036854775807",
        "9223372036854775808", "-9223372036854775808", "-9223372036854775809", " 1", "1 ", "1_0",
        "٣", "++1", "+-1", "99999999999999999999999999",
    ] {
        assert_eq!(parse_u32(text), text.parse::<u32>().ok(), "{text:?}");
        assert_eq!(parse_u64(text), text.parse::<u64>().ok(), "{text:?}");
        assert_eq!(parse_i64(text), text.parse::<i64>().ok(), "{text:?}");
    }
    for n in [0, 9, 10, 1234567890, u64::MAX] {
        assert_eq!(decimal_text(n), n.to_string());
    }
}
