//! What agent cards, session cards and session lists show.

use crate::agents::{
    copy_text, AgentInfoField, AgentSessionSummary, AgentSetupState, AgentShareSession,
    AgentSummary, AgentUsageLimits, TmuxSessionSummary,
};
use crate::clock::{clock_seconds, format_session_time, hour_minute, Timestamp};
use crate::number::{decimal, decimal_text, digit_char};
use crate::polling::{distinct, distinct_slugs};
use crate::sessions::{
    offers_terminate, share_status, shared_session_status, shown_at, shown_time,
    AgentSessionRow, SharedSessionStatus,
};
use crate::text::{
    ascii_lower, copy_texts, first_chars, join, joined, optional_text, same_text, texts,
    to_ascii_lowercase,
};
use vstd::prelude::*;

verus! {

// ---------------------------------------------------------------------------
// Display helpers
// ---------------------------------------------------------------------------

/// What stands for an agent's version.
pub open spec fn cli_version_text(agent: AgentSummary) -> Seq<char> {
    if agent.cli.available {
        match agent.cli.version {
            Some(version) => version@,
            None => "Checking…"@,
        }
    } else {
        match agent.cli.error {
            Some(error) => error@,
            None => "Not installed"@,
        }
    }
}

/// What stands for an agent's version: the version, or why there is none.
pub fn cli_version_display(agent: &AgentSummary) -> (text: String)
    ensures
        text@ == cli_version_text(*agent),
{
    if agent.cli.available {
        match &agent.cli.version {
            Some(version) => version.clone(),
            None => "Checking…".to_string(),
        }
    } else {
        match &agent.cli.error {
            Some(error) => error.clone(),
            None => "Not installed".to_string(),
        }
    }
}

/// How a setup state reads.
pub open spec fn setup_text(state: AgentSetupState) -> Seq<char> {
    match state {
        AgentSetupState::MissingCli => "Missing CLI"@,
        AgentSetupState::NotConfigured => "Not configured"@,
        AgentSetupState::SkillsOnly => "Skills only"@,
        AgentSetupState::HooksReady => "Hooks ready"@,
        AgentSetupState::Error => "Error"@,
    }
}

/// How a setup state reads.
pub fn setup_label(state: AgentSetupState) -> (label: &'static str)
    ensures
        label@ == setup_text(state),
{
    match state {
        AgentSetupState::MissingCli => "Missing CLI",
        AgentSetupState::NotConfigured => "Not configured",
        AgentSetupState::SkillsOnly => "Skills only",
        AgentSetupState::HooksReady => "Hooks ready",
        AgentSetupState::Error => "Error",
    }
}

/// The first eight characters of an id, or all where there are fewer.
pub open spec fn short(id: Seq<char>) -> Seq<char> {
    if id.len() <= 8 {
        id
    } else {
        id.take(8)
    }
}

/// The first eight characters of an id.
pub fn short_id(id: &str) -> (head: String)
    ensures
        head@ == short(id@),
{
    first_chars(id, 8)
}

// ---------------------------------------------------------------------------
// Sizes
// ---------------------------------------------------------------------------

/// A quotient rounded to the nearest number, and to the even one of two.
pub open spec fn half_even(n: nat, by: nat) -> nat {
    let quotient = n / by;
    let rest = n % by;
    if 2 * rest > by || 2 * rest == by && quotient % 2 == 1 {
        quotient + 1
    } else {
        quotient
    }
}

/// How far apart the numbers of double precision stand around `n`, and one
/// where they stand closer.
pub open spec fn double_step(n: nat) -> nat
    decreases n,
{
    if n < 0x20_0000_0000_0000 {
        1
    } else {
        2 * double_step(n / 2)
    }
}

/// The number of double precision that is nearest to `n`.
pub open spec fn nearest_double(n: nat) -> nat {
    half_even(n, double_step(n)) * double_step(n)
}

/// A number of tenths with one decimal.
pub open spec fn one_decimal(tenths: nat) -> Seq<char> {
    decimal(tenths / 10) + seq!['.', digit_char(tenths % 10)]
}

/// How a size reads: bytes, or kilobytes or megabytes with one decimal.
pub open spec fn size_text(bytes: nat) -> Seq<char> {
    if bytes >= 1048576 {
        one_decimal(half_even(10 * nearest_double(bytes), 1048576)) + " MB"@
    } else if bytes >= 1024 {
        one_decimal(half_even(10 * bytes, 1024)) + " KB"@
    } else {
        decimal(bytes) + " B"@
    }
}

fn round_half_even(n: u128, by: u128) -> (quotient: u128)
    requires
        0 < by <= 1048576,
        n < 0x1000_0000_0000_0000_0000_0000,
    ensures
        quotient == half_even(n as nat, by as nat),
        quotient <= n / by + 1,
{
    let quotient: u128 = n / by;
    let rest: u128 = n % by;
    proof {
        assert(quotient <= n) by (nonlinear_arith)
            requires
                quotient == n / by,
                by > 0,
        ;
    }
    if 2 * rest > by || 2 * rest == by && quotient % 2 == 1 {
        quotient + 1
    } else {
        quotient
    }
}

fn find_double_step(n: u64) -> (step: u64)
    ensures
        step == double_step(n as nat),
        step == 1 || step * 0x10_0000_0000_0000 <= n,
        step >= 1,
    decreases n,
{
    if n < 0x20_0000_0000_0000 {
        1
    } else {
        let half: u64 = find_double_step(n / 2);
        2 * half
    }
}

fn one_decimal_text(tenths: u128) -> (text: String)
    requires
        tenths < 0x1_0000_0000_0000_0000,
    ensures
        text@ == one_decimal(tenths as nat),
{
    let tenths: u64 = tenths as u64;
    let mut text = decimal_text(tenths / 10);
    text.push('.');
    text.append(decimal_text(tenths % 10).as_str());
    assert(decimal((tenths % 10) as nat) =~= seq![digit_char((tenths % 10) as nat)]);
    assert(text@ =~= one_decimal(tenths as nat));
    text
}

/// How a size reads.
pub fn format_size(bytes: u64) -> (text: String)
    ensures
        text@ == size_text(bytes as nat),
{
    if bytes >= 1048576 {
        let step: u64 = find_double_step(bytes);
        let count: u128 = round_half_even(bytes as u128, step as u128);
        proof {
            assert(count * step <= bytes + step) by (nonlinear_arith)
                requires
                    count <= bytes as int / step as int + 1,
                    step >= 1,
                    count >= 0,
            ;
        }
        let nearest: u128 = count * step as u128;
        let tenths: u128 = round_half_even(10 * nearest, 1048576);
        let mut text = one_decimal_text(tenths);
        text.append(" MB");
        text
    } else if bytes >= 1024 {
        let tenths: u128 = round_half_even(10 * bytes as u128, 1024);
        let mut text = one_decimal_text(tenths);
        text.append(" KB");
        text
    } else {
        let mut text = decimal_text(bytes);
        text.append(" B");
        text
    }
}

// ---------------------------------------------------------------------------
// Rate limits
// ---------------------------------------------------------------------------

/// The seconds until a reset, while it is to come.
pub open spec fn until_reset(resets_at: int, now: int) -> Option<int> {
    if resets_at > now {
        Some(resets_at - now)
    } else {
        None
    }
}

/// At least one minute.
pub open spec fn whole_minutes(seconds: int) -> Seq<char> {
    let minutes = seconds % 3600 / 60;
    decimal(
        if minutes < 1 {
            1
        } else {
            minutes as nat
        },
    ) + "m"@
}

/// A time in hours and minutes: `2h30m`, `45m`.
pub open spec fn hours_minutes(seconds: int) -> Seq<char> {
    if seconds >= 3600 {
        decimal((seconds / 3600) as nat) + "h"@ + decimal((seconds % 3600 / 60) as nat) + "m"@
    } else {
        whole_minutes(seconds)
    }
}

/// A time in days and hours: `3d5h`, `12h`.
pub open spec fn days_hours(seconds: int) -> Seq<char> {
    let hours = seconds / 3600;
    if hours >= 24 {
        decimal((hours / 24) as nat) + "d"@ + if hours % 24 > 0 {
            decimal((hours % 24) as nat) + "h"@
        } else {
            seq![]
        }
    } else if hours > 0 {
        decimal(hours as nat) + "h"@
    } else {
        whole_minutes(seconds)
    }
}

/// The seconds from `now` until a reset, while it is to come.
pub fn seconds_until_reset_at(resets_at: i64, now: i64) -> (seconds: Option<i64>)
    requires
        now >= 0,
    ensures
        match seconds {
            Some(s) => until_reset(resets_at as int, now as int) == Some(s as int),
            None => until_reset(resets_at as int, now as int) is None,
        },
{
    if resets_at > now {
        Some(resets_at - now)
    } else {
        None
    }
}

fn minutes_text(seconds: i64) -> (text: String)
    requires
        seconds >= 0,
    ensures
        text@ == whole_minutes(seconds as int),
{
    let minutes: i64 = seconds % 3600 / 60;
    let mut text = decimal_text(
        if minutes < 1 {
            1
        } else {
            minutes as u64
        },
    );
    text.append("m");
    text
}

/// A time in hours and minutes: `2h30m`, `45m`.
pub fn hours_minutes_text(seconds: i64) -> (text: String)
    requires
        seconds >= 0,
    ensures
        text@ == hours_minutes(seconds as int),
{
    if seconds >= 3600 {
        let mut text = decimal_text((seconds / 3600) as u64);
        text.append("h");
        text.append(decimal_text((seconds % 3600 / 60) as u64).as_str());
        text.append("m");
        text
    } else {
        minutes_text(seconds)
    }
}

/// A time in days and hours: `3d5h`, `12h`.
pub fn days_hours_text(seconds: i64) -> (text: String)
    requires
        seconds >= 0,
    ensures
        text@ == days_hours(seconds as int),
{
    let hours: i64 = seconds / 3600;
    if hours >= 24 {
        let mut text = decimal_text((hours / 24) as u64);
        text.append("d");
        let rest: i64 = hours % 24;
        if rest > 0 {
            text.append(decimal_text(rest as u64).as_str());
            text.append("h");
        }
        assert(text@ =~= days_hours(seconds as int));
        text
    } else if hours > 0 {
        let mut text = decimal_text(hours as u64);
        text.append("h");
        text
    } else {
        minutes_text(seconds)
    }
}

/// The reset of the five hour limit, seen from `now`.
pub open spec fn five_hour_reset(resets_at: Option<i64>, now: int) -> Option<Seq<char>> {
    match resets_at {
        Some(at) => match until_reset(at as int, now) {
            Some(seconds) => Some(hours_minutes(seconds)),
            None => None,
        },
        None => None,
    }
}

/// The reset of the seven day limit, seen from `now`.
pub open spec fn seven_day_reset(resets_at: Option<i64>, now: int) -> Option<Seq<char>> {
    match resets_at {
        Some(at) => match until_reset(at as int, now) {
            Some(seconds) => Some(days_hours(seconds)),
            None => None,
        },
        None => None,
    }
}

/// 5h window reset, seen from `now`.
pub fn reset_duration_hm_at(resets_at: i64, now: i64) -> (text: Option<String>)
    requires
        now >= 0,
    ensures
        optional_text(text) == five_hour_reset(Some(resets_at), now as int),
{
    match seconds_until_reset_at(resets_at, now) {
        Some(seconds) => Some(hours_minutes_text(seconds)),
        None => None,
    }
}

/// 7d window reset, seen from `now`.
pub fn reset_duration_dh_at(resets_at: i64, now: i64) -> (text: Option<String>)
    requires
        now >= 0,
    ensures
        optional_text(text) == seven_day_reset(Some(resets_at), now as int),
{
    match seconds_until_reset_at(resets_at, now) {
        Some(seconds) => Some(days_hours_text(seconds)),
        None => None,
    }
}

/// The seconds from the current time until a reset, while it is to come.
pub fn seconds_until_reset(resets_at: i64) -> (seconds: Option<i64>)
    ensures
        exists|now: int|
            clock_seconds(now) && #[trigger] until_reset(resets_at as int, now) == (match seconds {
                Some(s) => Some(s as int),
                None => None,
            }),
{
    let now: i64 = Timestamp::now().seconds();
    seconds_until_reset_at(resets_at, now)
}

/// 5h window reset: `2h30m`, `45m`.
pub fn format_reset_duration_hm(resets_at: i64) -> (text: Option<String>)
    ensures
        exists|now: int|
            clock_seconds(now)
                && optional_text(text) == #[trigger] five_hour_reset(Some(resets_at), now),
{
    let now: i64 = Timestamp::now().seconds();
    reset_duration_hm_at(resets_at, now)
}

/// 7d window reset: `3d5h`, `12h`.
pub fn format_reset_duration_dh(resets_at: i64) -> (text: Option<String>)
    ensures
        exists|now: int|
            clock_seconds(now)
                && optional_text(text) == #[trigger] seven_day_reset(Some(resets_at), now),
{
    let now: i64 = Timestamp::now().seconds();
    reset_duration_dh_at(resets_at, now)
}

/// A rate-limit gauge: its label and the text of its reset column.
#[derive(Debug, PartialEq, Eq)]
pub struct UsageGauge {
    pub label: String,
    pub resets_in: String,
}

/// A [`UsageGauge`] over mathematical text.
pub struct Gauge {
    pub label: Seq<char>,
    pub resets_in: Seq<char>,
}

impl View for UsageGauge {
    type V = Gauge;

    open spec fn view(&self) -> Gauge {
        Gauge { label: self.label@, resets_in: self.resets_in@ }
    }
}

pub open spec fn gauges_view(gauges: Seq<UsageGauge>) -> Seq<Gauge> {
    Seq::new(gauges.len(), |i: int| gauges[i]@)
}

/// A text, and an empty one where there is none.
pub open spec fn or_empty(text: Option<Seq<char>>) -> Seq<char> {
    match text {
        Some(t) => t,
        None => seq![],
    }
}

/// The gauges of the limits that are reported, and nothing where none is.
pub open spec fn usage_gauges(limits: AgentUsageLimits, five_now: int, seven_now: int) -> Option<
    Seq<Gauge>,
> {
    let five = Gauge {
        label: "5h"@,
        resets_in: or_empty(five_hour_reset(limits.five_hour_resets_at, five_now)),
    };
    let seven = Gauge {
        label: "7d"@,
        resets_in: or_empty(seven_day_reset(limits.seven_day_resets_at, seven_now)),
    };
    if limits.five_hour_reported && limits.seven_day_reported {
        Some(seq![five, seven])
    } else if limits.five_hour_reported {
        Some(seq![five])
    } else if limits.seven_day_reported {
        Some(seq![seven])
    } else {
        None
    }
}

/// The gauges of the limits that are reported, the two resets each seen from
/// an instant of its own; `None` when no limit is.
pub fn usage_gauges_at(limits: &AgentUsageLimits, five_now: i64, seven_now: i64) -> (gauges: Option<
    Vec<UsageGauge>,
>)
    requires
        five_now >= 0,
        seven_now >= 0,
    ensures
        match gauges {
            Some(g) => usage_gauges(*limits, five_now as int, seven_now as int) == Some(
                gauges_view(g@),
            ),
            None => usage_gauges(*limits, five_now as int, seven_now as int) is None,
        },
{
    if !limits.five_hour_reported && !limits.seven_day_reported {
        return None;
    }
    let mut gauges: Vec<UsageGauge> = Vec::new();
    if limits.five_hour_reported {
        let reset = match limits.five_hour_resets_at {
            Some(at) => reset_duration_hm_at(at, five_now),
            None => None,
        };
        let resets_in = match reset {
            Some(text) => text,
            None => String::new(),
        };
        assert(resets_in@ =~= or_empty(
            five_hour_reset(limits.five_hour_resets_at, five_now as int),
        ));
        gauges.push(UsageGauge { label: "5h".to_string(), resets_in });
    }
    if limits.seven_day_reported {
        let reset = match limits.seven_day_resets_at {
            Some(at) => reset_duration_dh_at(at, seven_now),
            None => None,
        };
        let resets_in = match reset {
            Some(text) => text,
            None => String::new(),
        };
        assert(resets_in@ =~= or_empty(
            seven_day_reset(limits.seven_day_resets_at, seven_now as int),
        ));
        gauges.push(UsageGauge { label: "7d".to_string(), resets_in });
    }
    proof {
        let shown = usage_gauges(*limits, five_now as int, seven_now as int)->0;
        assert(gauges_view(gauges@) =~= shown);
    }
    Some(gauges)
}

/// Rate-limit gauges (5h / 7d) with reset times; `None` when no live limits.
pub fn usage_row(limits: &AgentUsageLimits) -> (gauges: Option<Vec<UsageGauge>>)
    ensures
        exists|five_now: int, seven_now: int|
            clock_seconds(five_now) && clock_seconds(seven_now) && #[trigger] usage_gauges(
                *limits,
                five_now,
                seven_now,
            ) == (match gauges {
                Some(g) => Some(gauges_view(g@)),
                None => None,
            }),
{
    let five_now: i64 = Timestamp::now().seconds();
    let seven_now: i64 = Timestamp::now().seconds();
    usage_gauges_at(limits, five_now, seven_now)
}

/// A field as a line.
pub open spec fn field_line(field: AgentInfoField) -> Seq<char> {
    field.label@ + ": "@ + field.value@
}

/// Fields as `label: value` lines; `None` when there are none.
pub fn extra_lines(fields: &Vec<AgentInfoField>) -> (lines: Option<Vec<String>>)
    ensures
        match lines {
            Some(l) => fields@.len() > 0 && texts(l@) == fields@.map_values(
                |field: AgentInfoField| field_line(field),
            ),
            None => fields@.len() == 0,
        },
{
    if fields.len() == 0 {
        return None;
    }
    let mut lines: Vec<String> = Vec::new();
    let mut i: usize = 0;
    while i < fields.len()
        invariant
            i <= fields@.len(),
            lines@.len() == i,
            forall|j: int| 0 <= j < i ==> (#[trigger] lines@[j])@ == field_line(fields@[j]),
        decreases fields@.len() - i,
    {
        let mut line = fields[i].label.clone();
        line.append(": ");
        line.append(fields[i].value.as_str());
        lines.push(line);
        i += 1;
    }
    assert(texts(lines@) =~= fields@.map_values(|field: AgentInfoField| field_line(field)));
    Some(lines)
}

// ---------------------------------------------------------------------------
// Agent card
// ---------------------------------------------------------------------------

/// The value of the first field with a label.
pub open spec fn field_value(fields: Seq<AgentInfoField>, label: Seq<char>) -> Option<Seq<char>>
    decreases fields.len(),
{
    if fields.len() == 0 {
        None
    } else if fields[0].label@ == label {
        Some(fields[0].value@)
    } else {
        field_value(fields.skip(1), label)
    }
}

/// The default model and provider of an account, as far as there are any.
pub open spec fn model_provider(fields: Seq<AgentInfoField>) -> Option<Seq<char>> {
    match (field_value(fields, "Default model"@), field_value(fields, "Default provider"@)) {
        (Some(model), Some(provider)) => Some(model + " · "@ + provider),
        (Some(model), None) => Some(model),
        (None, provider) => provider,
    }
}

/// A text in small letters, as far as ASCII goes.
pub open spec fn lower_text(text: Seq<char>) -> Seq<char> {
    text.map_values(|c: char| ascii_lower(c))
}

/// What an agent card shows, apart from its icon and its gauges.
#[derive(Debug, PartialEq, Eq)]
pub struct AgentCard {
    pub id: String,
    pub display_name: String,
    pub plan: Option<String>,
    pub version: String,
    pub sessions_label: String,
    pub model_provider: Option<String>,
    pub highlight: Option<String>,
}

/// An [`AgentCard`] over mathematical text.
pub struct CardText {
    pub id: Seq<char>,
    pub display_name: Seq<char>,
    pub plan: Option<Seq<char>>,
    pub version: Seq<char>,
    pub sessions_label: Seq<char>,
    pub model_provider: Option<Seq<char>>,
    pub highlight: Option<Seq<char>>,
}

impl View for AgentCard {
    type V = CardText;

    open spec fn view(&self) -> CardText {
        CardText {
            id: self.id@,
            display_name: self.display_name@,
            plan: optional_text(self.plan),
            version: self.version@,
            sessions_label: self.sessions_label@,
            model_provider: optional_text(self.model_provider),
            highlight: optional_text(self.highlight),
        }
    }
}

/// What the card of an agent shows.
pub open spec fn agent_card_text(agent: AgentSummary) -> CardText {
    let count = if agent.sessions.resumable > agent.sessions.total {
        agent.sessions.resumable
    } else {
        agent.sessions.total
    };
    CardText {
        id: "agent-card-"@ + agent.slug@,
        display_name: agent.display_name@,
        plan: match field_value(agent.account_fields@, "Plan"@) {
            Some(plan) => Some(lower_text(plan)),
            None => None,
        },
        version: cli_version_text(agent),
        sessions_label: decimal(count as nat) + " sessions"@,
        model_provider: model_provider(agent.account_fields@),
        highlight: if agent.highlight@.len() > 0 {
            Some(agent.highlight@)
        } else {
            None
        },
    }
}

fn find_field(fields: &Vec<AgentInfoField>, label: &str) -> (value: Option<String>)
    ensures
        optional_text(value) == field_value(fields@, label@),
{
    let mut i: usize = 0;
    assert(fields@.skip(0) =~= fields@);
    while i < fields.len()
        invariant
            i <= fields@.len(),
            field_value(fields@, label@) == field_value(fields@.skip(i as int), label@),
        decreases fields@.len() - i,
    {
        assert(fields@.skip(i as int)[0] == fields@[i as int]);
        assert(fields@.skip(i as int).skip(1) =~= fields@.skip(i + 1));
        if same_text(fields[i].label.as_str(), label) {
            return Some(fields[i].value.clone());
        }
        i += 1;
    }
    None
}

fn find_model_provider(fields: &Vec<AgentInfoField>) -> (text: Option<String>)
    ensures
        optional_text(text) == model_provider(fields@),
{
    match (find_field(fields, "Default model"), find_field(fields, "Default provider")) {
        (Some(model), Some(provider)) => {
            let mut text = model;
            text.append(" · ");
            text.append(provider.as_str());
            Some(text)
        },
        (Some(model), None) => Some(model),
        (None, provider) => provider,
    }
}

/// What the card of an agent shows.
pub fn agent_card(agent: &AgentSummary) -> (card: AgentCard)
    ensures
        card@ == agent_card_text(*agent),
{
    let mut id = "agent-card-".to_string();
    id.append(agent.slug.as_str());
    let count: u64 = if agent.sessions.resumable > agent.sessions.total {
        agent.sessions.resumable
    } else {
        agent.sessions.total
    };
    let mut sessions_label = decimal_text(count);
    sessions_label.append(" sessions");
    let plan = match find_field(&agent.account_fields, "Plan") {
        Some(plan) => Some(to_ascii_lowercase(plan.as_str())),
        None => None,
    };
    let highlight = if agent.highlight.as_str().is_empty() {
        None
    } else {
        Some(agent.highlight.clone())
    };
    AgentCard {
        id,
        display_name: agent.display_name.clone(),
        plan,
        version: cli_version_display(agent),
        sessions_label,
        model_provider: find_model_provider(&agent.account_fields),
        highlight,
    }
}

// ---------------------------------------------------------------------------
// Session card
// ---------------------------------------------------------------------------

/// The title of a session, if it has one that is not empty.
pub open spec fn title_text(session: AgentSessionSummary) -> Seq<char> {
    match session.title {
        Some(title) => if title@.len() > 0 {
            title@
        } else {
            "Unknown"@
        },
        None => "Unknown"@,
    }
}

/// The title of a session.
pub fn session_title(session: &AgentSessionSummary) -> (title: String)
    ensures
        title@ == title_text(*session),
{
    match &session.title {
        Some(title) => {
            if title.as_str().is_empty() {
                "Unknown".to_string()
            } else {
                title.clone()
            }
        },
        None => "Unknown".to_string(),
    }
}

/// The branch of a session, if it has one that is not empty.
pub open spec fn branch_text(session: AgentSessionSummary) -> Seq<char> {
    match session.git {
        Some(git) => match git.branch {
            Some(branch) => if branch@.len() > 0 {
                branch@
            } else {
                "unknown"@
            },
            None => "unknown"@,
        },
        None => "unknown"@,
    }
}

fn session_branch(session: &AgentSessionSummary) -> (branch: String)
    ensures
        branch@ == branch_text(*session),
{
    if let Some(git) = &session.git {
        if let Some(branch) = &git.branch {
            if !branch.as_str().is_empty() {
                return branch.clone();
            }
        }
    }
    "unknown".to_string()
}

/// The size of a session's transcript, and nothing where it is not known.
pub open spec fn tail_text(session: AgentSessionSummary) -> Seq<char> {
    match session.transcript_size_bytes {
        Some(bytes) => size_text(bytes as nat),
        None => seq![],
    }
}

/// The right side of a session's meta row.
pub fn session_meta_tail(session: &AgentSessionSummary) -> (tail: String)
    ensures
        tail@ == tail_text(*session),
{
    match session.transcript_size_bytes {
        Some(bytes) => format_size(bytes),
        None => {
            let tail = String::new();
            assert(tail@ =~= tail_text(*session));
            tail
        },
    }
}

/// What a session card shows, apart from its icon, and what it offers.
#[derive(Debug, PartialEq, Eq)]
pub struct SessionCard {
    pub id: String,
    pub meta_id: String,
    pub title: String,
    pub badge: Option<SharedSessionStatus>,
    pub time: Option<String>,
    pub branch: String,
    pub tail: Option<String>,
    pub resumes: bool,
    pub terminates: bool,
}

/// A [`SessionCard`] over mathematical text.
pub struct SessionCardText {
    pub id: Seq<char>,
    pub meta_id: Seq<char>,
    pub title: Seq<char>,
    pub badge: Option<SharedSessionStatus>,
    pub time: Option<Seq<char>>,
    pub branch: Seq<char>,
    pub tail: Option<Seq<char>>,
    pub resumes: bool,
    pub terminates: bool,
}

impl View for SessionCard {
    type V = SessionCardText;

    open spec fn view(&self) -> SessionCardText {
        SessionCardText {
            id: self.id@,
            meta_id: self.meta_id@,
            title: self.title@,
            badge: self.badge,
            time: optional_text(self.time),
            branch: self.branch@,
            tail: optional_text(self.tail),
            resumes: self.resumes,
            terminates: self.terminates,
        }
    }
}

/// What the card of a session shows and offers. A press resumes the session
/// where the list allows it and the session can be resumed; a long press
/// terminates its share.
pub open spec fn session_card_text(
    session: AgentSessionSummary,
    shared: Option<AgentShareSession>,
    resume_on_tap: bool,
) -> SessionCardText {
    SessionCardText {
        id: "session-card-"@ + session.slug@ + "-"@ + short(session.session_id@),
        meta_id: "session-card-meta-"@ + short(session.session_id@),
        title: title_text(session),
        badge: match shared {
            Some(share) => Some(share_status(share)),
            None => None,
        },
        time: match shown_time(session) {
            Some(at) => Some(hour_minute(at@.seconds)),
            None => None,
        },
        branch: branch_text(session),
        tail: if session.transcript_size_bytes is Some {
            Some(tail_text(session))
        } else {
            None
        },
        resumes: resume_on_tap && session.resume.available,
        terminates: shared is Some,
    }
}

/// A session card to show.
#[derive(Clone, Copy)]
pub struct SessionCardProps<'a> {
    pub session: &'a AgentSessionSummary,
    pub shared: Option<&'a AgentShareSession>,
    pub resume_on_tap: bool,
}

pub open spec fn shared_of(shared: Option<&AgentShareSession>) -> Option<AgentShareSession> {
    match shared {
        Some(share) => Some(*share),
        None => None,
    }
}

/// A size in words is never empty.
proof fn lemma_size_text_not_empty(bytes: nat)
    ensures
        size_text(bytes).len() > 0,
{
    reveal_strlit(" MB");
    reveal_strlit(" KB");
    reveal_strlit(" B");
}

/// What the card of a session shows and offers.
pub fn session_card(props: SessionCardProps<'_>) -> (card: SessionCard)
    ensures
        card@ == session_card_text(*props.session, shared_of(props.shared), props.resume_on_tap),
{
    let session = props.session;
    let mut id = "session-card-".to_string();
    id.append(session.slug.as_str());
    id.append("-");
    id.append(short_id(session.session_id.as_str()).as_str());
    let mut meta_id = "session-card-meta-".to_string();
    meta_id.append(short_id(session.session_id.as_str()).as_str());
    let tail = session_meta_tail(session);
    proof {
        if let Some(bytes) = session.transcript_size_bytes {
            lemma_size_text_not_empty(bytes as nat);
        }
    }
    SessionCard {
        id,
        meta_id,
        title: session_title(session),
        badge: match props.shared {
            Some(shared) => Some(shared_session_status(shared)),
            None => None,
        },
        time: match shown_at(session) {
            Some(at) => Some(format_session_time(at)),
            None => None,
        },
        branch: session_branch(session),
        tail: if tail.as_str().is_empty() {
            None
        } else {
            Some(tail)
        },
        resumes: props.resume_on_tap && session.resume.available,
        terminates: offers_terminate(props.shared),
    }
}

/// Resume an agent session.
#[derive(Debug, PartialEq, Eq)]
pub struct ResumeAgentSession {
    pub slug: String,
    pub session_id: String,
}

/// Terminate the share of an agent session.
#[derive(Debug, PartialEq, Eq)]
pub struct TerminateSharedAgentSession {
    pub slug: String,
    pub session_id: String,
}

/// What a press and a long press on a session card do. Both name the session by
/// its agent's slug and its full id.
pub fn session_card_actions(props: SessionCardProps<'_>) -> (actions: (
    Option<ResumeAgentSession>,
    Option<TerminateSharedAgentSession>,
))
    ensures
        actions.0 is Some <==> props.resume_on_tap && props.session.resume.available,
        actions.0 matches Some(resume) ==> resume.slug@ == props.session.slug@ && resume.session_id@
            == props.session.session_id@,
        actions.1 is Some <==> props.shared is Some,
        actions.1 matches Some(terminate) ==> terminate.slug@ == props.session.slug@
            && terminate.session_id@ == props.session.session_id@,
{
    let session = props.session;
    let resume = if props.resume_on_tap && session.resume.available {
        Some(
            ResumeAgentSession {
                slug: session.slug.clone(),
                session_id: session.session_id.clone(),
            },
        )
    } else {
        None
    };
    let terminate = if offers_terminate(props.shared) {
        Some(
            TerminateSharedAgentSession {
                slug: session.slug.clone(),
                session_id: session.session_id.clone(),
            },
        )
    } else {
        None
    };
    (resume, terminate)
}

// ---------------------------------------------------------------------------
// Custom tmux session card
// ---------------------------------------------------------------------------

/// How an agent is shown: its name and its icon.
#[derive(Debug, PartialEq, Eq)]
pub struct AgentDisplay {
    pub name: String,
    pub icon: String,
}

/// The names of agents, in order.
pub open spec fn display_names(displays: Seq<AgentDisplay>) -> Seq<Seq<char>> {
    Seq::new(displays.len(), |i: int| displays[i].name@)
}

/// What the row of a custom tmux session shows beside its name.
#[derive(Debug, PartialEq, Eq)]
pub struct TmuxSessionRowModel {
    pub secondary_label: String,
    pub icon_path: String,
    pub attach_agent_slug: Option<String>,
}

/// The agents in a custom tmux session, each once.
pub fn tmux_agent_slugs(session: &TmuxSessionSummary) -> (slugs: Vec<String>)
    ensures
        texts(slugs@) == distinct(texts(session.agent_slugs@)),
{
    distinct_slugs(copy_texts(&session.agent_slugs))
}

/// The row of a custom tmux session, where `displays` says how each of its
/// distinct agents is shown. A single agent lends the row its icon and is
/// attached to by its slug; several have the terminal icon and no slug.
pub fn tmux_session_row_model(
    session: &TmuxSessionSummary,
    displays: &Vec<AgentDisplay>,
) -> (model: TmuxSessionRowModel)
    requires
        displays@.len() == distinct(texts(session.agent_slugs@)).len(),
    ensures
        model.secondary_label@ == joined(display_names(displays@), " · "@),
        displays@.len() == 1 ==> model.icon_path@ == displays@[0].icon@ && optional_text(
            model.attach_agent_slug,
        ) == Some(distinct(texts(session.agent_slugs@))[0]),
        displays@.len() != 1 ==> model.icon_path@ == "icons/terminal.svg"@
            && model.attach_agent_slug is None,
{
    let slugs = tmux_agent_slugs(session);
    assert(texts(slugs@).len() == slugs@.len());
    let mut names: Vec<String> = Vec::new();
    let mut i: usize = 0;
    while i < displays.len()
        invariant
            i <= displays@.len(),
            names@.len() == i,
            forall|j: int| 0 <= j < i ==> (#[trigger] names@[j])@ == displays@[j].name@,
        decreases displays@.len() - i,
    {
        names.push(displays[i].name.clone());
        i += 1;
    }
    assert(texts(names@) =~= display_names(displays@));
    let secondary_label = join(&names, " · ");
    if displays.len() == 1 {
        assert(texts(slugs@)[0] == slugs@[0]@);
        TmuxSessionRowModel {
            secondary_label,
            icon_path: displays[0].icon.clone(),
            attach_agent_slug: Some(slugs[0].clone()),
        }
    } else {
        TmuxSessionRowModel {
            secondary_label,
            icon_path: "icons/terminal.svg".to_string(),
            attach_agent_slug: None,
        }
    }
}

/// Attach to a custom tmux session.
#[derive(Debug, PartialEq, Eq)]
pub struct AttachTmuxSession {
    pub name: String,
    pub agent_slug: Option<String>,
}

/// Manage a custom tmux session.
#[derive(Debug, PartialEq, Eq)]
pub struct ManageTmuxSession {
    pub name: String,
}

/// What a press and a long press on a custom tmux session do.
pub fn tmux_session_actions(session: &TmuxSessionSummary, model: &TmuxSessionRowModel) -> (actions:
    (AttachTmuxSession, ManageTmuxSession))
    ensures
        actions.0.name@ == session.name@,
        optional_text(actions.0.agent_slug) == optional_text(model.attach_agent_slug),
        actions.1.name@ == session.name@,
{
    (
        AttachTmuxSession {
            name: session.name.clone(),
            agent_slug: copy_text(&model.attach_agent_slug),
        },
        ManageTmuxSession { name: session.name.clone() },
    )
}

/// The id of the card of a custom tmux session.
pub fn tmux_card_id(session: &TmuxSessionSummary) -> (id: String)
    ensures
        id@ == "tmux-session-card-"@ + session.name@,
{
    let mut id = "tmux-session-card-".to_string();
    id.append(session.name.as_str());
    id
}

// ---------------------------------------------------------------------------
// Session lists
// ---------------------------------------------------------------------------

/// What a short session list shows.
#[derive(Debug, PartialEq, Eq)]
pub enum ListBody {
    /// A text in place of sessions.
    Message(String),
    /// The sections.
    Sections,
}

/// The text that a short session list shows in place of sessions, if it does.
pub open spec fn list_message(
    section_count: int,
    loading: bool,
    error: Option<Seq<char>>,
    empty_message: Seq<char>,
) -> Option<Seq<char>> {
    if loading {
        Some("Loading…"@)
    } else if error is Some {
        error
    } else if section_count == 0 {
        Some(empty_message)
    } else {
        None
    }
}

/// What a short session list with a number of sections shows.
pub fn session_list_body(
    section_count: usize,
    loading: bool,
    error: Option<String>,
    empty_message: &str,
) -> (body: ListBody)
    ensures
        match body {
            ListBody::Message(text) => list_message(
                section_count as int,
                loading,
                optional_text(error),
                empty_message@,
            ) == Some(text@),
            ListBody::Sections => list_message(
                section_count as int,
                loading,
                optional_text(error),
                empty_message@,
            ) is None,
        },
{
    if loading {
        return ListBody::Message("Loading…".to_string());
    }
    if let Some(error) = error {
        return ListBody::Message(error);
    }
    if section_count == 0 {
        return ListBody::Message(empty_message.to_string());
    }
    ListBody::Sections
}

/// How many items a virtualized list has: its rows and the space below them.
pub fn session_list_item_count(row_count: usize) -> (count: usize)
    requires
        row_count < usize::MAX,
    ensures
        count == row_count + 1,
{
    row_count + 1
}

/// What a virtualized list shows at a place.
#[derive(Debug)]
pub enum VirtualItem<'a> {
    /// A row.
    Row(&'a AgentSessionRow),
    /// The space below the rows.
    BottomInset,
    /// Nothing.
    Nothing,
}

/// What a virtualized list shows at a place.
pub fn virtual_item(rows: &Vec<AgentSessionRow>, at: usize) -> (item: VirtualItem<'_>)
    ensures
        match item {
            VirtualItem::Row(row) => at < rows@.len() && *row == rows@[at as int],
            VirtualItem::BottomInset => at == rows@.len(),
            VirtualItem::Nothing => at > rows@.len(),
        },
{
    if at < rows.len() {
        VirtualItem::Row(&rows[at])
    } else if at == rows.len() {
        VirtualItem::BottomInset
    } else {
        VirtualItem::Nothing
    }
}

// ---------------------------------------------------------------------------
// Laws
// ---------------------------------------------------------------------------

/// The short id of an id starts it and is no longer than eight characters.
pub proof fn lemma_short_id_is_a_prefix(id: Seq<char>)
    ensures
        short(id).len() <= 8,
        short(id) == id.take(short(id).len() as int),
        id.len() <= 8 ==> short(id) == id,
{
    assert(short(id) =~= id.take(short(id).len() as int));
}

/// A card offers to terminate exactly where it shows a badge.
pub proof fn lemma_terminate_offered_with_badge(
    session: AgentSessionSummary,
    shared: Option<AgentShareSession>,
    resume_on_tap: bool,
)
    ensures
        session_card_text(session, shared, resume_on_tap).terminates <==> session_card_text(
            session,
            shared,
            resume_on_tap,
        ).badge is Some,
        session_card_text(session, shared, resume_on_tap).terminates <==> shared is Some,
{
}

/// Sizes below the precision of a double are rounded once, from the exact size.
pub proof fn lemma_small_sizes_are_exact(bytes: nat)
    requires
        bytes < 0x20_0000_0000_0000,
    ensures
        nearest_double(bytes) == bytes,
{
    assert(double_step(bytes) == 1);
    assert(half_even(bytes, 1) == bytes);
    assert(bytes * 1 == bytes);
}

/// No gauge is shown exactly where no limit is reported.
pub proof fn lemma_gauges_shown_where_reported(
    limits: AgentUsageLimits,
    five_now: int,
    seven_now: int,
)
    ensures
        usage_gauges(limits, five_now, seven_now) is None <==> !limits.five_hour_reported
            && !limits.seven_day_reported,
{
}

/// Rounding gives a quotient that is off by half a step at most, and the even
/// one where two are as near.
pub proof fn lemma_rounds_to_nearest(n: nat, by: nat)
    requires
        by > 0,
    ensures
        ({
            let off = 2 * (n - half_even(n, by) * by);
            &&& -by <= off <= by
            &&& off == by || off == -by ==> half_even(n, by) % 2 == 0
        }),
{
    let quotient = n / by;
    let rest = n % by;
    assert(n == quotient * by + rest && rest < by) by (nonlinear_arith)
        requires
            by > 0,
            quotient == n / by,
            rest == n % by,
    ;
    assert((quotient + 1) * by == quotient * by + by) by (nonlinear_arith);
    if half_even(n, by) == quotient + 1 {
        assert(n - half_even(n, by) * by == rest - by);
        if 2 * rest == by {
            assert(quotient % 2 == 1);
            assert((quotient + 1) % 2 == 0);
        }
    } else {
        assert(n - half_even(n, by) * by == rest);
    }
}

/// The step between doubles around a number: one where the number has 53 binary
/// digits at most, and else the power of two that leaves it 53.
pub proof fn lemma_steps_of_doubles(n: nat)
    ensures
        n < 0x20_0000_0000_0000 ==> double_step(n) == 1,
        n >= 0x20_0000_0000_0000 ==> 0x10_0000_0000_0000 * double_step(n) <= n
            < 0x20_0000_0000_0000 * double_step(n),
        exists|k: nat| double_step(n) == #[trigger] vstd::arithmetic::power2::pow2(k),
    decreases n,
{
    if n < 0x20_0000_0000_0000 {
        vstd::arithmetic::power2::lemma2_to64();
        assert(vstd::arithmetic::power2::pow2(0) == 1);
    } else {
        lemma_steps_of_doubles(n / 2);
        let k = choose|k: nat|
            double_step(n / 2) == #[trigger] vstd::arithmetic::power2::pow2(k);
        vstd::arithmetic::power2::lemma_pow2_unfold(k + 1);
        assert(double_step(n) == vstd::arithmetic::power2::pow2(k + 1));
    }
}

/// Sizes read in bytes below a kilobyte, in kilobytes below a megabyte, and else
/// in megabytes. Of the last two the text shows the nearest tenth, and the even
/// one of two that are as near; a size with more than 53 binary digits is first
/// taken to the nearest double.
pub proof fn lemma_sizes_read_in_their_unit(bytes: nat)
    ensures
        bytes < 1024 ==> size_text(bytes) == decimal(bytes) + " B"@,
        1024 <= bytes < 1024 * 1024 ==> exists|tenths: nat|
            {
                let off = 2 * (10 * bytes - 1024 * tenths);
                &&& size_text(bytes) == decimal(tenths / 10) + "."@ + #[trigger] decimal(
                    tenths % 10,
                ) + " KB"@
                &&& -1024 <= off <= 1024
                &&& off == 1024 || off == -1024 ==> tenths % 2 == 0
            },
        bytes >= 1024 * 1024 ==> exists|tenths: nat|
            {
                let off = 2 * (10 * nearest_double(bytes) - 1024 * 1024 * tenths);
                &&& size_text(bytes) == decimal(tenths / 10) + "."@ + #[trigger] decimal(
                    tenths % 10,
                ) + " MB"@
                &&& -1024 * 1024 <= off <= 1024 * 1024
                &&& off == 1024 * 1024 || off == -1024 * 1024 ==> tenths % 2 == 0
            },
        -double_step(bytes) <= 2 * (bytes - nearest_double(bytes)) <= double_step(bytes),
{
    reveal_strlit(".");
    lemma_steps_of_doubles(bytes);
    assert(double_step(bytes) > 0);
    lemma_rounds_to_nearest(bytes, double_step(bytes));
    if 1024 <= bytes < 1024 * 1024 {
        let tenths = half_even(10 * bytes, 1024);
        lemma_rounds_to_nearest(10 * bytes, 1024);
        assert(decimal(tenths % 10) =~= seq![digit_char(tenths % 10)]);
        assert(size_text(bytes) =~= decimal(tenths / 10) + "."@ + decimal(tenths % 10) + " KB"@);
    }
    if bytes >= 1024 * 1024 {
        let tenths = half_even(10 * nearest_double(bytes), 1048576);
        lemma_rounds_to_nearest(10 * nearest_double(bytes), 1048576);
        assert(decimal(tenths % 10) =~= seq![digit_char(tenths % 10)]);
        assert(size_text(bytes) =~= decimal(tenths / 10) + "."@ + decimal(tenths % 10) + " MB"@);
    }
}

/// Time left in days, hours and minutes. The shorter reset shows hours and
/// minutes; the longer one shows days and hours, or hours, and leaves out what is
/// zero behind days. Below an hour both show minutes, and one at least.
pub proof fn lemma_time_left(days: nat, hours: nat, minutes: nat, seconds: nat)
    requires
        hours < 24,
        minutes < 60,
        seconds < 60,
    ensures
        ({
            let total = 86400 * days + 3600 * hours + 60 * minutes + seconds;
            let m = decimal(minutes) + "m"@;
            let h = decimal(hours) + "h"@;
            let d = decimal(days) + "d"@;
            &&& days + hours > 0 ==> hours_minutes(total as int) == decimal(24 * days + hours)
                + "h"@ + m
            &&& days + hours == 0 && minutes > 0 ==> hours_minutes(total as int) == m
                && days_hours(total as int) == m
            &&& days + hours + minutes == 0 ==> hours_minutes(total as int) == decimal(1) + "m"@
                && days_hours(total as int) == decimal(1) + "m"@
            &&& days > 0 && hours > 0 ==> days_hours(total as int) == d + h
            &&& days > 0 && hours == 0 ==> days_hours(total as int) == d
            &&& days == 0 && hours > 0 ==> days_hours(total as int) == h
        }),
{
    let total = 86400 * days + 3600 * hours + 60 * minutes + seconds;
    assert(total / 3600 == 24 * days + hours);
    assert(total % 3600 == 60 * minutes + seconds);
    assert(total % 3600 / 60 == minutes);
    assert((total / 3600) / 24 == days);
    assert((total / 3600) % 24 == hours);
    let d = decimal(days) + "d"@;
    let h = decimal(hours) + "h"@;
    assert(d + Seq::<char>::empty() =~= d);
    assert(decimal(24 * days + hours) + "h"@ + (decimal(minutes) + "m"@) =~= decimal(
        24 * days + hours,
    ) + "h"@ + decimal(minutes) + "m"@);
    assert(d + h =~= decimal(days) + "d"@ + (decimal(hours) + "h"@));
}

/// A reset is shown exactly where it is still to come, with the time that is
/// left until it.
pub proof fn lemma_resets_to_come(resets_at: i64, now: int)
    ensures
        resets_at > now ==> until_reset(resets_at as int, now) == Some(resets_at - now),
        resets_at <= now ==> until_reset(resets_at as int, now) is None,
        resets_at > now ==> five_hour_reset(Some(resets_at), now) == Some(
            hours_minutes(resets_at - now),
        ) && seven_day_reset(Some(resets_at), now) == Some(days_hours(resets_at - now)),
        resets_at <= now ==> five_hour_reset(Some(resets_at), now) is None && seven_day_reset(
            Some(resets_at),
            now,
        ) is None,
        five_hour_reset(None, now) is None && seven_day_reset(None, now) is None,
{
}

/// Each limit that is reported has one gauge, the shorter one first, with the
/// time until its reset or no text.
pub proof fn lemma_gauges_of_limits(limits: AgentUsageLimits, five_now: int, seven_now: int)
    ensures
        ({
            let gauges = usage_gauges(limits, five_now, seven_now);
            let count: int = if limits.five_hour_reported && limits.seven_day_reported {
                2
            } else {
                1
            };
            &&& gauges is Some <==> limits.five_hour_reported || limits.seven_day_reported
            &&& gauges is Some ==> gauges->0.len() == count
            &&& limits.five_hour_reported ==> {
                let gauge = gauges->0[0];
                &&& gauge.label == "5h"@
                &&& match five_hour_reset(limits.five_hour_resets_at, five_now) {
                    Some(text) => gauge.resets_in == text,
                    None => gauge.resets_in.len() == 0,
                }
            }
            &&& limits.seven_day_reported ==> {
                let gauge = gauges->0[count - 1];
                &&& gauge.label == "7d"@
                &&& match seven_day_reset(limits.seven_day_resets_at, seven_now) {
                    Some(text) => gauge.resets_in == text,
                    None => gauge.resets_in.len() == 0,
                }
            }
        }),
{
}

/// The first field with a label gives its value.
pub proof fn lemma_first_field_counts(fields: Seq<AgentInfoField>, label: Seq<char>)
    ensures
        match field_value(fields, label) {
            Some(value) => exists|k: int|
                {
                    &&& 0 <= k < fields.len()
                    &&& (#[trigger] fields[k]).label@ == label
                    &&& fields[k].value@ == value
                    &&& forall|j: int| 0 <= j < k ==> (#[trigger] fields[j]).label@ != label
                },
            None => forall|j: int| 0 <= j < fields.len() ==> (#[trigger] fields[j]).label@ != label,
        },
    decreases fields.len(),
{
    if fields.len() > 0 && fields[0].label@ != label {
        let rest = fields.skip(1);
        lemma_first_field_counts(rest, label);
        if let Some(value) = field_value(rest, label) {
            let k = choose|k: int|
                {
                    &&& 0 <= k < rest.len()
                    &&& (#[trigger] rest[k]).label@ == label
                    &&& rest[k].value@ == value
                    &&& forall|j: int| 0 <= j < k ==> (#[trigger] rest[j]).label@ != label
                };
            assert(fields[k + 1] == rest[k]);
            assert forall|j: int| 0 <= j < k + 1 implies (#[trigger] fields[j]).label@ != label by {
                if j > 0 {
                    assert(rest[j - 1] == fields[j]);
                }
            }
        } else {
            assert forall|j: int| 0 <= j < fields.len() implies (#[trigger] fields[j]).label@
                != label by {
                if j > 0 {
                    assert(rest[j - 1] == fields[j]);
                }
            }
        }
    } else if fields.len() > 0 {
        assert(fields[0].label@ == label);
    }
}

/// A card names the default model, the default provider, or both with a dot
/// between them, as far as they are known.
pub proof fn lemma_model_and_provider(fields: Seq<AgentInfoField>)
    ensures
        ({
            let model = field_value(fields, "Default model"@);
            let provider = field_value(fields, "Default provider"@);
            &&& model is Some && provider is Some ==> model_provider(fields) == Some(
                model->0 + " · "@ + provider->0,
            )
            &&& provider is None ==> model_provider(fields) == model
            &&& model is None ==> model_provider(fields) == provider
        }),
{
}

/// What stands for an agent's version: the version of a program that is there,
/// or that it is being looked up; and why a program is not there, or that it is
/// not installed.
pub proof fn lemma_version_texts(agent: AgentSummary)
    ensures
        agent.cli.available && agent.cli.version is Some ==> cli_version_text(agent)
            == agent.cli.version->0@,
        agent.cli.available && agent.cli.version is None ==> cli_version_text(agent)
            == "Checking…"@,
        !agent.cli.available && agent.cli.error is Some ==> cli_version_text(agent)
            == agent.cli.error->0@,
        !agent.cli.available && agent.cli.error is None ==> cli_version_text(agent)
            == "Not installed"@,
{
}

/// What an agent card shows: the larger of the two session counts, the plan with
/// small letters in place of ASCII capitals, and a highlight where there is one.
pub proof fn lemma_agent_cards(agent: AgentSummary, i: int)
    ensures
        ({
            let card = agent_card_text(agent);
            let plan = field_value(agent.account_fields@, "Plan"@);
            &&& card.id == "agent-card-"@ + agent.slug@
            &&& card.display_name == agent.display_name@
            &&& card.version == cli_version_text(agent)
            &&& card.model_provider == model_provider(agent.account_fields@)
            &&& agent.sessions.resumable <= agent.sessions.total ==> card.sessions_label
                == decimal(agent.sessions.total as nat) + " sessions"@
            &&& agent.sessions.resumable >= agent.sessions.total ==> card.sessions_label
                == decimal(agent.sessions.resumable as nat) + " sessions"@
            &&& card.plan is Some <==> plan is Some
            &&& plan is Some ==> card.plan->0.len() == plan->0.len()
            &&& plan is Some && 0 <= i < plan->0.len() ==> {
                let from = plan->0[i];
                let to = card.plan->0[i];
                if 'A' <= from <= 'Z' {
                    to as u32 == from as u32 + 32
                } else {
                    to == from
                }
            }
            &&& agent.highlight@.len() > 0 ==> card.highlight == Some(agent.highlight@)
            &&& agent.highlight@.len() == 0 ==> card.highlight is None
        }),
{
}

/// What a session card shows of its session: the title and the branch where they
/// have text, the time of the last activity or else of the creation, and the
/// size of the transcript where it is known.
pub proof fn lemma_session_cards(
    session: AgentSessionSummary,
    shared: Option<AgentShareSession>,
    resume_on_tap: bool,
)
    ensures
        ({
            let card = session_card_text(session, shared, resume_on_tap);
            let titled = session.title is Some && session.title->0@.len() > 0;
            let branched = session.git is Some && session.git->0.branch is Some
                && session.git->0.branch->0@.len() > 0;
            let id = session.session_id@;
            let head = if id.len() > 8 {
                id.take(8)
            } else {
                id
            };
            &&& card.id == "session-card-"@ + session.slug@ + "-"@ + head
            &&& card.meta_id == "session-card-meta-"@ + head
            &&& titled ==> card.title == session.title->0@
            &&& !titled ==> card.title == "Unknown"@
            &&& branched ==> card.branch == session.git->0.branch->0@
            &&& !branched ==> card.branch == "unknown"@
            &&& session.last_activity_at is Some ==> card.time == Some(
                hour_minute(session.last_activity_at->0@.seconds),
            )
            &&& session.last_activity_at is None && session.created_at is Some ==> card.time
                == Some(hour_minute(session.created_at->0@.seconds))
            &&& session.last_activity_at is None && session.created_at is None ==> card.time is None
            &&& session.transcript_size_bytes is Some ==> card.tail == Some(
                size_text(session.transcript_size_bytes->0 as nat),
            ) && tail_text(session) == size_text(session.transcript_size_bytes->0 as nat)
            &&& session.transcript_size_bytes is None ==> card.tail is None && tail_text(
                session,
            ).len() == 0
            &&& card.resumes <==> resume_on_tap && session.resume.available
            &&& card.terminates <==> shared is Some
            &&& shared is None ==> card.badge is None
            &&& shared matches Some(share) ==> card.badge == Some(
                if share.dead {
                    SharedSessionStatus::Ended(share.exit_code)
                } else {
                    SharedSessionStatus::Live
                },
            )
        }),
{
}

/// The title and the branch of a session by themselves.
pub proof fn lemma_titles_and_branches(session: AgentSessionSummary)
    ensures
        title_text(session).len() > 0,
        branch_text(session).len() > 0,
        session.title is Some && session.title->0@.len() > 0 ==> title_text(session)
            == session.title->0@,
        session.title is None || session.title->0@.len() == 0 ==> title_text(session)
            == "Unknown"@,
        session.git is None ==> branch_text(session) == "unknown"@,
        session.git matches Some(git) ==> {
            &&& git.branch is Some && git.branch->0@.len() > 0 ==> branch_text(session)
                == git.branch->0@
            &&& git.branch is None || git.branch->0@.len() == 0 ==> branch_text(session)
                == "unknown"@
        },
{
    reveal_strlit("Unknown");
    reveal_strlit("unknown");
}

/// What stands for a setup state.
pub proof fn lemma_setup_labels(state: AgentSetupState)
    ensures
        state is MissingCli ==> setup_text(state) == "Missing CLI"@,
        state is NotConfigured ==> setup_text(state) == "Not configured"@,
        state is SkillsOnly ==> setup_text(state) == "Skills only"@,
        state is HooksReady ==> setup_text(state) == "Hooks ready"@,
        state is Error ==> setup_text(state) == "Error"@,
{
}

/// A list that loads says so, before any error; one with an error shows it,
/// before the note that there is nothing; and one without sections shows that
/// note. Only a list with sections, without an error, that does not load shows
/// its sections.
pub proof fn lemma_lists_show_sections_or_say_why(
    section_count: int,
    loading: bool,
    error: Option<Seq<char>>,
    empty_message: Seq<char>,
)
    ensures
        ({
            let shown = list_message(section_count, loading, error, empty_message);
            &&& shown is None <==> !loading && error is None && section_count != 0
            &&& loading ==> shown == Some("Loading…"@)
            &&& !loading && error is Some ==> shown == error
            &&& !loading && error is None && section_count == 0 ==> shown == Some(empty_message)
        }),
{
}

/// The line of a field shows its label, then its value.
pub proof fn lemma_field_lines(field: AgentInfoField)
    ensures
        field_line(field) == field.label@ + ": "@ + field.value@,
{
}

/// Cards and gauges over mathematical text keep every field.
pub proof fn lemma_cards_keep_fields(card: AgentCard, session: SessionCard, gauge: UsageGauge)
    ensures
        card@.id == card.id@,
        card@.display_name == card.display_name@,
        card@.plan == optional_text(card.plan),
        card@.version == card.version@,
        card@.sessions_label == card.sessions_label@,
        card@.model_provider == optional_text(card.model_provider),
        card@.highlight == optional_text(card.highlight),
        session@.id == session.id@,
        session@.meta_id == session.meta_id@,
        session@.title == session.title@,
        session@.badge == session.badge,
        session@.time == optional_text(session.time),
        session@.branch == session.branch@,
        session@.tail == optional_text(session.tail),
        session@.resumes == session.resumes,
        session@.terminates == session.terminates,
        gauge@.label == gauge.label@,
        gauge@.resets_in == gauge.resets_in@,
{
}

} // verus!
