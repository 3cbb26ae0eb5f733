use chrono::{DateTime, Duration, Utc};
use zedra_sessions::agents::{
    AgentResumeSummary, AgentSessionSummary, AgentShareSession, AgentSharedSessions,
    TmuxClientCounts, TmuxSessionListResult, TmuxSessionSummary,
};
use zedra_sessions::clock::{day_label, format_session_time, Timestamp};
use zedra_sessions::polling::{
    any_changed, apply_tmux_poll_result, distinct_slugs, tmux_listing_reply, PollAction, PollEvent, SharedSessionPoll,
    SharedSessionPollControl, SharedSessionPollState, TmuxPoll, SHARED_SESSION_POLL_INTERVAL,
    TMUX_SESSION_POLL_INTERVAL,
};
use zedra_sessions::sessions::{
    build_session_rows, build_session_rows_at, flatten_session_sections, group_sessions_at,
    group_sessions_by_day, merge_shared_sessions, offers_terminate, shared_session_status,
    AgentSessionItem, AgentSessionRow, SharedSessionStatus,
};
use zedra_sessions::view::{
    collect_load, load_targets, AgentHistory, AgentSessions, LoadState, ViewBody,
};

fn timestamp(at: DateTime<Utc>) -> Timestamp {
    Timestamp::new(at.timestamp(), at.timestamp_subsec_nanos()).unwrap()
}

fn instant(text: &str) -> Timestamp {
    timestamp(text.parse::<DateTime<Utc>>().unwrap())
}

fn session(slug: &str, id: &str, at: Option<Timestamp>) -> AgentSessionSummary {
    AgentSessionSummary {
        slug: slug.into(),
        session_id: id.into(),
        title: None,
        cwd: None,
        created_at: at,
        last_activity_at: at,
        resume: AgentResumeSummary {
            available: true,
            unavailable_reason: None,
            action_id: None,
        },
        git: None,
        transcript_size_bytes: None,
    }
}

fn summary(slug: &str, id: &str, hours_ago: i64) -> AgentSessionSummary {
    session(slug, id, Some(timestamp(Utc::now() - Duration::hours(hours_ago))))
}

fn share(id: &str, dead: bool) -> AgentShareSession {
    AgentShareSession {
        session_id: id.into(),
        title: Some("live".into()),
        cwd: None,
        current_command: None,
        dead,
        exit_code: dead.then_some(7),
    }
}

fn snapshot(slug: &str, available: bool, sessions: Vec<AgentShareSession>) -> AgentSharedSessions {
    AgentSharedSessions {
        slug: slug.into(),
        available,
        sessions,
    }
}

#[test]
fn merge_groups_by_persisted_times_and_matches_full_agent_identity() {
    let older = summary("pi", "old", 48);
    let newer = summary("pi", "new", 1);
    let omp_same_id = summary("omp", "old", 2);
    let foreign = summary("hermes", "old", 3);
    let snapshots = vec![
        snapshot("pi", true, vec![share("old", false)]),
        snapshot("omp", true, vec![share("old", true)]),
    ];

    let sections = group_sessions_by_day(merge_shared_sessions(
        vec![older, newer, omp_same_id, foreign],
        &snapshots,
    ));
    let items: Vec<&AgentSessionItem> = sections
        .iter()
        .flat_map(|section| section.sessions.iter())
        .collect();

    let identities: Vec<(&str, &str)> = items
        .iter()
        .map(|item| (item.session.slug.as_str(), item.session.session_id.as_str()))
        .collect();
    assert_eq!(
        identities,
        [
            ("pi", "new"),
            ("omp", "old"),
            ("hermes", "old"),
            ("pi", "old")
        ]
    );
    assert!(items[0].shared.is_none());
    assert!(items[1].shared.as_ref().unwrap().dead);
    assert!(items[2].shared.is_none());
    assert!(!items[3].shared.as_ref().unwrap().dead);
}

#[test]
fn merge_keeps_dead_panes_attached_with_exit_code() {
    let snapshots = vec![snapshot("pi", true, vec![share("dead", true)])];
    let items = merge_shared_sessions(vec![summary("pi", "dead", 3)], &snapshots);
    let shared = items[0].shared.as_ref().expect("dead pane still shared");
    assert!(shared.dead);
    assert_eq!(shared.exit_code, Some(7));
}

#[test]
fn merge_never_fabricates_history_for_unlisted_shares() {
    let row = summary("pi", "known", 3);
    let snapshots = vec![snapshot(
        "pi",
        true,
        vec![share("known", false), share("ghost", false)],
    )];
    let items = merge_shared_sessions(vec![row.clone()], &snapshots);

    assert_eq!(items.len(), 1);
    assert_eq!(items[0].session, row);
}

#[test]
fn merge_uses_first_duplicate_and_ignores_unavailable_snapshots() {
    let mut duplicate = share("dup", false);
    duplicate.title = Some("second".into());
    let snapshots = vec![
        snapshot(
            "pi",
            true,
            vec![share("dup", false), duplicate, share("other", false)],
        ),
        snapshot("omp", false, vec![share("dup", false)]),
    ];

    let items = merge_shared_sessions(
        vec![summary("pi", "dup", 3), summary("omp", "dup", 2)],
        &snapshots,
    );

    assert_eq!(
        items[0].shared.as_ref().unwrap().title.as_deref(),
        Some("live")
    );
    assert!(items[1].shared.is_none());
}

#[test]
fn merge_looks_on_in_later_snapshots_of_the_agent() {
    let mut late = share("late", true);
    late.exit_code = None;
    let snapshots = vec![
        snapshot("pi", true, vec![share("other", false)]),
        snapshot("pi", false, vec![share("late", false)]),
        snapshot("pi", true, vec![late.clone()]),
    ];
    let items = merge_shared_sessions(vec![summary("pi", "late", 1)], &snapshots);
    assert_eq!(items[0].shared, Some(late));
}

#[test]
fn terminate_is_offered_only_for_rows_with_a_shared_snapshot() {
    assert!(offers_terminate(Some(&share("s", false))));
    assert!(offers_terminate(Some(&share("s", true))));
    assert!(!offers_terminate(None));
}

#[test]
fn shared_status_is_live_for_running_panes() {
    let status = shared_session_status(&share("s", false));
    assert_eq!(status, SharedSessionStatus::Live);
    assert!(status.is_live());
    assert_eq!(status.label(), "Live");
}

#[test]
fn shared_status_reports_known_exit_codes_for_dead_panes() {
    let status = shared_session_status(&share("s", true));
    assert_eq!(status, SharedSessionStatus::Ended(Some(7)));
    assert!(!status.is_live());
    assert_eq!(status.label(), "Ended (code 7)");
}

#[test]
fn shared_status_stays_muted_when_exit_code_is_unknown() {
    let mut dead = share("s", true);
    dead.exit_code = None;

    let status = shared_session_status(&dead);
    assert_eq!(status, SharedSessionStatus::Ended(None));
    assert_eq!(status.label(), "Ended");
}

// Instants.

#[test]
fn timestamps_have_the_range_of_the_calendar() {
    for (seconds, nanos) in [
        (0, 0),
        (0, 999_999_999),
        (0, 1_000_000_000),
        (59, 1_999_999_999),
        (59, 2_000_000_000),
        (-1, 1_000_000_000),
        (-2, 1_000_000_000),
        (-8_334_601_228_800, 0),
        (-8_334_601_228_801, 0),
        (8_210_266_876_799, 0),
        (8_210_266_876_800, 0),
        (i64::MIN, 0),
        (i64::MAX, 0),
    ] {
        assert_eq!(
            Timestamp::new(seconds, nanos).is_some(),
            DateTime::from_timestamp(seconds, nanos).is_some(),
            "{seconds} {nanos}"
        );
    }
    assert_eq!(
        Timestamp::new(DateTime::<Utc>::MIN_UTC.timestamp(), 0).map(|at| at.seconds()),
        Some(-8_334_601_228_800)
    );
    assert_eq!(
        Timestamp::new(DateTime::<Utc>::MAX_UTC.timestamp(), 0).map(|at| at.seconds()),
        Some(8_210_266_876_799)
    );
}

#[test]
fn the_clock_reads_the_current_time() {
    let before = Utc::now().timestamp();
    let now = Timestamp::now();
    let after = Utc::now().timestamp();
    assert!(before <= now.seconds() && now.seconds() <= after);
    assert!(now.nanos() < 2_000_000_000);
}

#[test]
fn session_times_show_hours_and_minutes() {
    assert_eq!(format_session_time(instant("2024-02-29T23:05:59Z")), "23:05");
    assert_eq!(format_session_time(instant("1969-12-31T00:00:00Z")), "00:00");
    for seconds in [-1_i64, 0, 86_399, 86_400, 1_726_000_000, -62_135_596_801] {
        assert_eq!(
            format_session_time(Timestamp::new(seconds, 0).unwrap()),
            DateTime::from_timestamp(seconds, 0)
                .unwrap()
                .format("%H:%M")
                .to_string()
        );
    }
}

#[test]
fn days_are_labelled_from_now() {
    let now = instant("2024-03-01T00:30:00Z");
    for (at, label) in [
        ("2024-03-01T23:59:59Z", "Today"),
        ("2024-03-01T00:00:00Z", "Today"),
        ("2024-02-29T23:59:59Z", "Yesterday"),
        ("2024-02-28T23:59:59Z", "Wednesday, Feb 28"),
        ("2024-03-02T00:00:00Z", "Saturday, Mar 02"),
        ("1969-12-31T12:00:00Z", "Wednesday, Dec 31"),
    ] {
        assert_eq!(day_label(Some(instant(at)), now), label);
    }
    assert_eq!(day_label(None, now), "Unknown date");
    assert_eq!(
        day_label(Some(instant("1969-12-31T12:00:00Z")), instant("1970-01-01T00:00:00Z")),
        "Yesterday"
    );
}

// Grouping.

fn items(sessions: Vec<AgentSessionSummary>) -> Vec<AgentSessionItem> {
    merge_shared_sessions(sessions, &[])
}

#[test]
fn sections_hold_sessions_by_day_from_the_newest() {
    let now = instant("2024-03-01T12:00:00Z");
    let mut created_only = session("pi", "created", None);
    created_only.created_at = Some(instant("2024-03-01T11:00:00Z"));
    let mut early = session("pi", "early", Some(instant("2024-03-01T09:00:00Z")));
    early.created_at = None;
    let sessions = vec![
        session("pi", "unknown", None),
        early,
        session("pi", "tie", Some(instant("2024-03-01T09:00:00Z"))),
        session("omp", "tie", Some(instant("2024-03-01T09:00:00Z"))),
        session("pi", "yesterday", Some(instant("2024-02-29T09:00:00Z"))),
        created_only,
        session("pi", "sub", Some(instant("2024-03-01T09:00:00.000000001Z"))),
    ];
    let sections = group_sessions_at(items(sessions.clone()), &vec![now; 7]);
    let layout: Vec<(&str, Vec<(&str, &str)>)> = sections
        .iter()
        .map(|section| {
            (
                section.label.as_str(),
                section
                    .sessions
                    .iter()
                    .map(|item| (item.session.slug.as_str(), item.session.session_id.as_str()))
                    .collect(),
            )
        })
        .collect();
    assert_eq!(
        layout,
        [
            (
                "Today",
                vec![("pi", "sub"), ("pi", "tie"), ("omp", "tie"), ("pi", "early")]
            ),
            ("Yesterday", vec![("pi", "yesterday")]),
            ("Today", vec![("pi", "created")]),
            ("Unknown date", vec![("pi", "unknown")]),
        ]
    );

    // The same order as a stable sort by last activity and creation.
    let key = |item: &AgentSessionItem| {
        let of = |at: Option<Timestamp>| at.map(|at| (at.seconds(), at.nanos()));
        (of(item.session.last_activity_at), of(item.session.created_at))
    };
    let mut sorted = items(sessions);
    sorted.sort_by(|left, right| key(right).cmp(&key(left)));
    let flat: Vec<AgentSessionItem> = sections
        .into_iter()
        .flat_map(|section| section.sessions)
        .collect();
    assert_eq!(flat, sorted);
    assert!(group_sessions_by_day(Vec::new()).is_empty());
}

#[test]
fn each_session_is_seen_from_its_own_instant() {
    let at = instant("2024-03-01T12:00:00Z");
    let sessions = items(vec![session("pi", "a", Some(at)), session("pi", "b", Some(at))]);
    let sections = group_sessions_at(
        sessions,
        &vec![instant("2024-03-01T23:59:59Z"), instant("2024-03-02T00:00:00Z")],
    );
    let labels: Vec<&str> = sections.iter().map(|section| section.label.as_str()).collect();
    assert_eq!(labels, ["Today", "Yesterday"]);
}

#[test]
fn flat_rows_put_headers_before_their_sessions() {
    let now = instant("2024-03-01T12:00:00Z");
    let sessions = items(vec![
        session("pi", "a", Some(now)),
        session("pi", "b", Some(now)),
        session("pi", "c", None),
    ]);
    let rows = flatten_session_sections(group_sessions_at(sessions.clone(), &vec![now; 3]));
    assert_eq!(
        rows,
        [
            AgentSessionRow::Header("Today".into()),
            AgentSessionRow::Session(sessions[0].clone()),
            AgentSessionRow::Session(sessions[1].clone()),
            AgentSessionRow::Header("Unknown date".into()),
            AgentSessionRow::Session(sessions[2].clone()),
        ]
    );
}

// Custom tmux sessions.

fn tmux(name: &str, slug: &str) -> TmuxSessionSummary {
    TmuxSessionSummary {
        name: name.into(),
        agent_slugs: vec![slug.into()],
        title: format!("{name} title"),
        last_activity_at: Some(timestamp(Utc::now())),
        git_branch: None,
        transcript_size_bytes: None,
        clients: TmuxClientCounts::default(),
    }
}

fn list(available: bool, sessions: Vec<TmuxSessionSummary>) -> TmuxSessionListResult {
    TmuxSessionListResult {
        available,
        version: available.then_some("3.4").unwrap_or_default().into(),
        sessions,
        error: (!available).then(|| "tmux unavailable".into()),
    }
}

fn history(slug: &str, id: &str) -> AgentSessionSummary {
    session(slug, id, Some(timestamp(Utc::now())))
}

#[test]
fn tmux_poll_keeps_last_success_across_unchanged_transport_error_stretch() {
    let cars = tmux("cars_us", "pi");
    let mut sessions = Vec::new();
    let mut error_stretch = None;

    let applied = apply_tmux_poll_result(
        &mut sessions,
        &mut error_stretch,
        true,
        Ok(list(true, vec![cars.clone()])),
    );
    assert!(applied.rows_changed);
    assert!(applied.error_to_log.is_none());
    assert_eq!(sessions, [cars.clone()]);

    let first_error = apply_tmux_poll_result(
        &mut sessions,
        &mut error_stretch,
        true,
        Err("connection reset".into()),
    );
    assert_eq!(
        first_error.error_to_log.as_deref(),
        Some("connection reset")
    );
    assert_eq!(sessions, [cars.clone()]);

    let repeated_error = apply_tmux_poll_result(
        &mut sessions,
        &mut error_stretch,
        true,
        Err("connection reset".into()),
    );
    assert!(repeated_error.error_to_log.is_none());
    assert_eq!(sessions, [cars]);
}

#[test]
fn tmux_poll_success_unavailable_and_downgrade_replace_only_custom_state() {
    let mut sessions = vec![tmux("old", "pi")];
    let mut error_stretch = Some("offline".into());
    let codex = tmux("codex-work", "codex");

    let replacement = apply_tmux_poll_result(
        &mut sessions,
        &mut error_stretch,
        true,
        Ok(list(true, vec![codex.clone()])),
    );
    assert!(replacement.rows_changed);
    assert_eq!(sessions, [codex]);
    assert!(error_stretch.is_none());

    let unavailable = apply_tmux_poll_result(
        &mut sessions,
        &mut error_stretch,
        true,
        Ok(list(false, Vec::new())),
    );
    assert!(unavailable.rows_changed);
    assert!(sessions.is_empty());

    sessions.push(tmux("rediscovered", "omp"));
    error_stretch = Some("stale".into());
    let downgraded = apply_tmux_poll_result(
        &mut sessions,
        &mut error_stretch,
        false,
        Err("custom tmux sessions are unsupported by host".into()),
    );
    assert!(downgraded.rows_changed);
    assert!(downgraded.error_to_log.is_none());
    assert!(sessions.is_empty());
    assert!(error_stretch.is_none());
}

#[test]
fn tmux_poll_sees_a_change_in_any_field() {
    let base = tmux("one", "pi");
    let mut changes = vec![base.clone(); 7];
    changes[0].name = "two".into();
    changes[1].agent_slugs.push("omp".into());
    changes[2].title = "other".into();
    changes[3].last_activity_at = None;
    changes[4].git_branch = Some("main".into());
    changes[5].transcript_size_bytes = Some(1);
    changes[6].clients.attached = 1;
    for change in changes {
        let mut sessions = vec![base.clone()];
        let mut stretch = None;
        let same = apply_tmux_poll_result(
            &mut sessions,
            &mut stretch,
            true,
            Ok(list(true, vec![base.clone()])),
        );
        assert!(!same.rows_changed);
        let other = apply_tmux_poll_result(
            &mut sessions,
            &mut stretch,
            true,
            Ok(list(true, vec![change.clone()])),
        );
        assert!(other.rows_changed);
        assert_eq!(sessions, [change]);
    }
}

#[test]
fn rebuild_prepends_tmux_section_without_fabricating_history() {
    let persisted = history("pi", "persisted");
    let custom = vec![tmux("cars_us", "pi"), tmux("pair", "omp")];
    let rows = build_session_rows(vec![persisted.clone()], &[], &custom);

    match &rows[..] {
        [AgentSessionRow::Header(label), AgentSessionRow::Tmux(first), AgentSessionRow::Tmux(second), AgentSessionRow::Header(_), AgentSessionRow::Session(item)] =>
        {
            assert_eq!(label.to_string(), "Tmux sessions");
            assert_eq!(first, &custom[0]);
            assert_eq!(second, &custom[1]);
            assert_eq!(item.session, persisted);
        }
        _ => panic!("unexpected custom/history row structure"),
    }

    let custom_only = build_session_rows(Vec::new(), &[], &custom);
    assert_eq!(custom_only.len(), 3);
    assert!(custom_only
        .iter()
        .all(|row| !matches!(row, AgentSessionRow::Session(_))));

    let history_only = build_session_rows(vec![history("omp", "history")], &[], &[]);
    assert!(matches!(&history_only[0], AgentSessionRow::Header(_)));
    assert!(matches!(&history_only[1], AgentSessionRow::Session(_)));
}

// Polling.

const APPLIED: PollEvent = PollEvent::Applied {
    present: true,
    changed: false,
};
const CHANGED: PollEvent = PollEvent::Applied {
    present: true,
    changed: true,
};
const GONE: PollEvent = PollEvent::Applied {
    present: false,
    changed: true,
};

#[test]
fn downgraded_poll_targets_resume_on_refresh_or_target_change() {
    let mut control = SharedSessionPollControl::new(vec!["pi".into(), "omp".into(), "pi".into()]);
    let mut state = SharedSessionPollState::new(&control);
    assert_eq!(state.pollable_targets(), ["pi", "omp"]);

    state.park_all();
    assert!(state.pollable_targets().is_empty());
    assert!(!control.set_targets(vec!["pi".into(), "omp".into()]));
    state.sync(&control);
    assert!(state.pollable_targets().is_empty());

    control.request_refresh();
    state.sync(&control);
    assert_eq!(state.pollable_targets(), ["pi", "omp"]);

    state.park_all();
    assert!(state.pollable_targets().is_empty());
    assert!(control.set_targets(vec!["omp".into(), "codex".into()]));
    state.sync(&control);
    assert_eq!(state.pollable_targets(), ["omp", "codex"]);
}

#[test]
fn revisions_wrap_around() {
    let mut control = SharedSessionPollControl::new(Vec::new());
    control.target_revision = u64::MAX;
    control.refresh_revision = u64::MAX;
    assert!(control.set_targets(vec!["pi".into()]));
    control.request_refresh();
    assert_eq!(control.target_revision, 0);
    assert_eq!(control.refresh_revision, 0);
    assert_eq!(
        distinct_slugs(vec!["b".into(), "a".into(), "b".into(), "a".into()]),
        ["b", "a"]
    );
}

#[test]
fn a_cycle_queries_targets_in_order_and_applies_once() {
    let control = SharedSessionPollControl::new(vec!["pi".into(), "omp".into()]);
    let mut poll = SharedSessionPoll::new(&control);
    assert_eq!(poll.action(), PollAction::Probe);
    poll = poll.advance(&control, PollEvent::Supported(true));
    assert_eq!(poll.action(), PollAction::Query("pi".into()));
    poll = poll.advance(&control, PollEvent::Supported(true));
    assert_eq!(poll.action(), PollAction::Query("omp".into()));
    poll = poll.advance(&control, PollEvent::Supported(true));
    assert_eq!(
        poll.action(),
        PollAction::Apply(vec!["pi".into(), "omp".into()])
    );
    poll = poll.advance(&control, APPLIED);
    assert_eq!(poll.action(), PollAction::Pause);
    poll = poll.advance(&control, PollEvent::Elapsed);
    assert_eq!(poll.action(), PollAction::Probe);
    // An event that the phase does not wait for changes nothing.
    poll = poll.advance(&control, PollEvent::Woken);
    assert_eq!(poll.action(), PollAction::Probe);
    assert_eq!((SHARED_SESSION_POLL_INTERVAL, TMUX_SESSION_POLL_INTERVAL), (2, 2));
}

#[test]
fn the_view_is_told_once_after_a_cycle_that_changed_something() {
    assert!(!any_changed(&vec![]));
    assert!(!any_changed(&vec![false, false]));
    assert!(any_changed(&vec![false, true, false]));

    let control = SharedSessionPollControl::new(vec!["pi".into()]);
    let applying = || {
        SharedSessionPoll::new(&control)
            .advance(&control, PollEvent::Supported(true))
            .advance(&control, PollEvent::Supported(true))
    };
    let poll = applying().advance(&control, CHANGED);
    assert_eq!(poll.action(), PollAction::Notify);
    let poll = poll.advance(&control, CHANGED);
    assert_eq!(poll.action(), PollAction::Notify);
    let poll = poll.advance(&control, PollEvent::Notified);
    assert_eq!(poll.action(), PollAction::Pause);
    let poll = poll.advance(&control, PollEvent::Notified);
    assert_eq!(poll.action(), PollAction::Pause);

    assert_eq!(
        applying().advance(&control, APPLIED).action(),
        PollAction::Pause
    );
    assert_eq!(
        applying().advance(&control, GONE).action(),
        PollAction::Stop
    );

    let cleared = SharedSessionPoll::new(&control)
        .advance(&control, PollEvent::Supported(false))
        .advance(&control, CHANGED);
    assert_eq!(cleared.action(), PollAction::Notify);
    assert_eq!(
        cleared.advance(&control, PollEvent::Notified).action(),
        PollAction::WaitForWake
    );
}

#[test]
fn a_host_that_is_not_asked_stands_for_an_empty_error() {
    assert_eq!(tmux_listing_reply(None), Err(String::new()));
    assert_eq!(
        tmux_listing_reply(Some(Err("offline".into()))),
        Err("offline".into())
    );
    let answer = list(true, vec![]);
    assert_eq!(
        tmux_listing_reply(Some(Ok(list(true, vec![])))),
        Ok(answer)
    );
}

#[test]
fn answers_for_replaced_targets_are_dropped() {
    let mut control = SharedSessionPollControl::new(vec!["pi".into(), "omp".into()]);
    let mut poll = SharedSessionPoll::new(&control);
    poll = poll.advance(&control, PollEvent::Supported(true));
    poll = poll.advance(&control, PollEvent::Supported(true));
    control.set_targets(vec!["omp".into(), "hermes".into()]);
    poll = poll.advance(&control, PollEvent::Supported(true));
    assert_eq!(poll.action(), PollAction::Apply(vec!["omp".into()]));
}

#[test]
fn a_downgrade_clears_and_parks_until_asked_again() {
    let mut control = SharedSessionPollControl::new(vec!["pi".into(), "omp".into()]);
    let mut poll = SharedSessionPoll::new(&control);
    poll = poll.advance(&control, PollEvent::Supported(true));
    poll = poll.advance(&control, PollEvent::Supported(false));
    assert_eq!(poll.action(), PollAction::Clear);
    poll = poll.advance(&control, APPLIED);
    assert_eq!(poll.action(), PollAction::WaitForWake);
    poll = poll.advance(&control, PollEvent::Woken);
    assert_eq!(poll.action(), PollAction::WaitForWake);
    control.request_refresh();
    poll = poll.advance(&control, PollEvent::Woken);
    assert_eq!(poll.action(), PollAction::Probe);
    poll = poll.advance(&control, PollEvent::Supported(false));
    assert_eq!(poll.action(), PollAction::Clear);
    poll = poll.advance(&control, GONE);
    assert_eq!(poll.action(), PollAction::Stop);
    poll = poll.advance(&control, PollEvent::Woken);
    assert_eq!(poll.action(), PollAction::Stop);
}

#[test]
fn a_poll_without_targets_waits_and_ends_with_its_view() {
    let control = SharedSessionPollControl::new(Vec::new());
    let poll = SharedSessionPoll::new(&control);
    assert_eq!(poll.action(), PollAction::WaitForWake);
    assert_eq!(
        poll.advance(&control, PollEvent::Closed).action(),
        PollAction::Stop
    );
}

#[test]
fn the_custom_session_poll_ends_without_support() {
    let poll = TmuxPoll::Probing.advance(PollEvent::Supported(true));
    assert_eq!(poll, TmuxPoll::Listing);
    let poll = poll.advance(PollEvent::Supported(true));
    assert_eq!(poll, TmuxPoll::Applying { supported: true });
    let poll = poll.advance(APPLIED);
    assert_eq!(poll, TmuxPoll::Pausing);
    assert_eq!(poll.advance(PollEvent::Woken), TmuxPoll::Probing);
    assert_eq!(poll.advance(PollEvent::Closed), TmuxPoll::Stopped);
    let poll = TmuxPoll::Probing.advance(PollEvent::Supported(false));
    assert_eq!(poll, TmuxPoll::Skipping);
    let poll = poll.advance(PollEvent::Supported(false));
    assert_eq!(poll.advance(APPLIED), TmuxPoll::Stopped);
    assert_eq!(
        TmuxPoll::Applying { supported: true }.advance(GONE),
        TmuxPoll::Stopped
    );
}

// The sessions view.

#[test]
fn loads_gather_sessions_and_errors_of_all_agents() {
    let result = collect_load(Ok(vec![
        AgentHistory {
            slug: "pi".into(),
            result: Ok(vec![history("pi", "1"), history("pi", "2")]),
        },
        AgentHistory {
            slug: "omp".into(),
            result: Err("timeout".into()),
        },
        AgentHistory {
            slug: "hermes".into(),
            result: Ok(vec![history("hermes", "3")]),
        },
    ]));
    assert_eq!(
        result.targets,
        Some(vec!["pi".into(), "omp".into(), "hermes".into()])
    );
    assert_eq!(result.errors, ["omp: timeout"]);
    let ids: Vec<&str> = result.sessions.iter().map(|s| s.session_id.as_str()).collect();
    assert_eq!(ids, ["1", "2", "3"]);

    let mut view = AgentSessions::new();
    assert_eq!(view.body(), ViewBody::Message("Loading…".into()));
    let effects = view.finish_load(1, result, &[]);
    assert_eq!(effects.list_reset, Some(4));
    assert_eq!(
        effects.error_to_log.as_deref(),
        Some("agent sessions partial failure: omp: timeout")
    );
    assert_eq!(view.body(), ViewBody::Rows);
    assert_eq!(view.rows.len(), 4);
}

#[test]
fn overtaken_loads_change_nothing() {
    let mut view = AgentSessions::new();
    let mut control = SharedSessionPollControl::new(vec!["pi".into()]);
    let start = view.refresh(&mut control);
    assert_eq!(start.epoch, 2);
    assert_eq!(start.list_reset, 0);
    assert_eq!(control.refresh_revision, 1);
    let stale = collect_load(Err("offline".into()));
    let effects = view.finish_load(1, stale, &[]);
    assert_eq!(effects.list_reset, None);
    assert_eq!(view.load_state, LoadState::Loading);

    let failed = collect_load(Err("offline".into()));
    assert_eq!(failed.targets, None);
    let effects = view.finish_load(2, failed, &[]);
    assert_eq!(effects.targets, None);
    assert_eq!(effects.error_to_log, None);
    assert_eq!(view.body(), ViewBody::Message("offline".into()));

    let start = view.load();
    assert_eq!((start.epoch, start.list_reset), (3, 0));
    view.finish_load(start.epoch, collect_load(Ok(Vec::new())), &[]);
    assert_eq!(
        view.body(),
        ViewBody::Message("No sessions found for this workspace.".into())
    );
}

#[test]
fn two_failed_agents_are_shown_together() {
    let mut view = AgentSessions::new();
    let failed = collect_load(Ok(vec![
        AgentHistory {
            slug: "pi".into(),
            result: Err("a".into()),
        },
        AgentHistory {
            slug: "omp".into(),
            result: Err("b".into()),
        },
    ]));
    view.finish_load(1, failed, &[]);
    assert_eq!(view.body(), ViewBody::Message("pi: a; omp: b".into()));
}

#[test]
fn custom_sessions_join_the_view_without_touching_history() {
    let mut view = AgentSessions::new();
    view.finish_load(
        1,
        collect_load(Ok(vec![AgentHistory {
            slug: "pi".into(),
            result: Ok(vec![history("pi", "1")]),
        }])),
        &[],
    );
    let cars = tmux("cars_us", "pi");
    let effects = view.apply_tmux_poll(true, Ok(list(true, vec![cars.clone()])), &[]);
    assert!(effects.rows_changed);
    assert_eq!(effects.list_reset, Some(4));
    assert_eq!(view.rows[1], AgentSessionRow::Tmux(cars.clone()));
    let mut renamed = cars;
    renamed.title = "renamed".into();
    let effects = view.apply_tmux_poll(true, Ok(list(true, vec![renamed.clone()])), &[]);
    assert!(effects.rows_changed);
    assert_eq!(effects.list_reset, None);
    assert_eq!(view.rows[1], AgentSessionRow::Tmux(renamed));
    let effects = view.apply_tmux_poll(true, Err("reset".into()), &[]);
    assert!(!effects.rows_changed);
    assert_eq!(effects.error_to_log.as_deref(), Some("reset"));
    assert_eq!(view.rows.len(), 4);
    let effects = view.apply_tmux_poll(false, Err(String::new()), &[]);
    assert_eq!(effects.list_reset, Some(2));
    assert_eq!(view.sessions.len(), 1);

    let snapshots = [snapshot("pi", true, vec![share("1", false)])];
    assert_eq!(view.rebuild_rows(&snapshots), None);
    match &view.rows[1] {
        AgentSessionRow::Session(item) => assert_eq!(item.shared, Some(share("1", false))),
        other => panic!("unexpected row: {other:?}"),
    }
    let nows = vec![Timestamp::now()];
    let again = build_session_rows_at(view.sessions.clone(), &snapshots, &[], &nows);
    assert_eq!(again, view.rows);
}

#[test]
fn each_agent_with_details_is_loaded_once() {
    let agent = |slug: &str, shows_detail: bool| zedra_sessions::agents::AgentSummary {
        slug: slug.into(),
        display_name: slug.into(),
        shows_detail,
        cli: zedra_sessions::agents::AgentCliSummary {
            available: true,
            version: None,
            error: None,
        },
        sessions: zedra_sessions::agents::AgentSessionCounts {
            resumable: 0,
            total: 0,
        },
        account_fields: Vec::new(),
        usage: None,
        highlight: String::new(),
    };
    let agents = vec![
        agent("pi", true),
        agent("hidden", false),
        agent("omp", true),
        agent("pi", true),
    ];
    assert_eq!(load_targets(&agents), ["pi", "omp"]);
}
