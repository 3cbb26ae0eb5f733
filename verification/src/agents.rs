//! Agents, their sessions and their shared sessions, as a host reports them.

use crate::clock::Timestamp;
use crate::text::{copy_texts, texts};
use vstd::prelude::*;

verus! {

// ---------------------------------------------------------------------------
// Agents
// ---------------------------------------------------------------------------

/// An agent's command line tool.
#[derive(Debug, PartialEq, Eq)]
pub struct AgentCliSummary {
    pub available: bool,
    pub version: Option<String>,
    pub error: Option<String>,
}

/// How far an agent is set up.
#[derive(Debug, Clone, Copy, PartialEq, Eq, Structural)]
pub enum AgentSetupState {
    MissingCli,
    NotConfigured,
    SkillsOnly,
    HooksReady,
    Error,
}

/// How many sessions an agent has.
#[derive(Debug, Clone, Copy, PartialEq, Eq, Structural)]
pub struct AgentSessionCounts {
    pub resumable: u64,
    pub total: u64,
}

/// A named value of an agent's account or usage.
#[derive(Debug, PartialEq, Eq)]
pub struct AgentInfoField {
    pub label: String,
    pub value: String,
}

/// The rate limits of an agent: which of them are reported, and when each
/// resets, in seconds since the Unix epoch.
#[derive(Debug, Clone, Copy, PartialEq, Eq, Structural)]
pub struct AgentUsageLimits {
    pub five_hour_reported: bool,
    pub five_hour_resets_at: Option<i64>,
    pub seven_day_reported: bool,
    pub seven_day_resets_at: Option<i64>,
}

/// An agent that a host knows.
#[derive(Debug, PartialEq, Eq)]
pub struct AgentSummary {
    pub slug: String,
    pub display_name: String,
    pub shows_detail: bool,
    pub cli: AgentCliSummary,
    pub sessions: AgentSessionCounts,
    pub account_fields: Vec<AgentInfoField>,
    pub usage: Option<AgentUsageLimits>,
    pub highlight: String,
}

// ---------------------------------------------------------------------------
// Sessions
// ---------------------------------------------------------------------------

/// Whether and how a session can be resumed.
#[derive(Debug, PartialEq, Eq)]
pub struct AgentResumeSummary {
    pub available: bool,
    pub unavailable_reason: Option<String>,
    pub action_id: Option<String>,
}

/// The repository state of a session.
#[derive(Debug, PartialEq, Eq)]
pub struct AgentGitSummary {
    pub branch: Option<String>,
}

/// A persisted agent session.
#[derive(Debug, PartialEq, Eq)]
pub struct AgentSessionSummary {
    pub slug: String,
    pub session_id: String,
    pub title: Option<String>,
    pub cwd: Option<String>,
    pub created_at: Option<Timestamp>,
    pub last_activity_at: Option<Timestamp>,
    pub resume: AgentResumeSummary,
    pub git: Option<AgentGitSummary>,
    pub transcript_size_bytes: Option<u64>,
}

/// A live tmux share of an agent session.
#[derive(Debug, PartialEq, Eq)]
pub struct AgentShareSession {
    pub session_id: String,
    pub title: Option<String>,
    pub cwd: Option<String>,
    pub current_command: Option<String>,
    pub dead: bool,
    pub exit_code: Option<u32>,
}

/// The last snapshot of an agent's shares.
#[derive(Debug, PartialEq, Eq)]
pub struct AgentSharedSessions {
    pub slug: String,
    pub available: bool,
    pub sessions: Vec<AgentShareSession>,
}

pub fn copy_text(text: &Option<String>) -> (copy: Option<String>)
    ensures
        copy == *text,
{
    match text {
        Some(t) => Some(t.clone()),
        None => None,
    }
}

impl Clone for AgentResumeSummary {
    fn clone(&self) -> (copy: Self)
        ensures
            copy == *self,
    {
        AgentResumeSummary {
            available: self.available,
            unavailable_reason: copy_text(&self.unavailable_reason),
            action_id: copy_text(&self.action_id),
        }
    }
}

impl Clone for AgentGitSummary {
    fn clone(&self) -> (copy: Self)
        ensures
            copy == *self,
    {
        AgentGitSummary { branch: copy_text(&self.branch) }
    }
}

impl Clone for AgentSessionSummary {
    fn clone(&self) -> (copy: Self)
        ensures
            copy == *self,
    {
        AgentSessionSummary {
            slug: self.slug.clone(),
            session_id: self.session_id.clone(),
            title: copy_text(&self.title),
            cwd: copy_text(&self.cwd),
            created_at: self.created_at,
            last_activity_at: self.last_activity_at,
            resume: self.resume.clone(),
            git: match &self.git {
                Some(git) => Some(git.clone()),
                None => None,
            },
            transcript_size_bytes: self.transcript_size_bytes,
        }
    }
}

impl Clone for AgentShareSession {
    fn clone(&self) -> (copy: Self)
        ensures
            copy == *self,
    {
        AgentShareSession {
            session_id: self.session_id.clone(),
            title: copy_text(&self.title),
            cwd: copy_text(&self.cwd),
            current_command: copy_text(&self.current_command),
            dead: self.dead,
            exit_code: self.exit_code,
        }
    }
}

// ---------------------------------------------------------------------------
// Custom tmux sessions
// ---------------------------------------------------------------------------

/// How many clients are attached to a tmux session.
#[derive(Debug, Clone, Copy, PartialEq, Eq, Default, Structural)]
pub struct TmuxClientCounts {
    pub attached: u32,
}

/// A tmux session that Zedra does not own and in which agents run.
#[derive(Debug, PartialEq, Eq)]
pub struct TmuxSessionSummary {
    pub name: String,
    pub agent_slugs: Vec<String>,
    pub title: String,
    pub last_activity_at: Option<Timestamp>,
    pub git_branch: Option<String>,
    pub transcript_size_bytes: Option<u64>,
    pub clients: TmuxClientCounts,
}

/// A [`TmuxSessionSummary`] over mathematical values.
pub struct TmuxSession {
    pub name: Seq<char>,
    pub agent_slugs: Seq<Seq<char>>,
    pub title: Seq<char>,
    pub last_activity_at: Option<Timestamp>,
    pub git_branch: Option<Seq<char>>,
    pub transcript_size_bytes: Option<u64>,
    pub clients: TmuxClientCounts,
}

impl View for TmuxSessionSummary {
    type V = TmuxSession;

    open spec fn view(&self) -> TmuxSession {
        TmuxSession {
            name: self.name@,
            agent_slugs: texts(self.agent_slugs@),
            title: self.title@,
            last_activity_at: self.last_activity_at,
            git_branch: crate::text::optional_text(self.git_branch),
            transcript_size_bytes: self.transcript_size_bytes,
            clients: self.clients,
        }
    }
}

impl Clone for TmuxSessionSummary {
    fn clone(&self) -> (copy: Self)
        ensures
            copy@ == self@,
    {
        TmuxSessionSummary {
            name: self.name.clone(),
            agent_slugs: copy_texts(&self.agent_slugs),
            title: self.title.clone(),
            last_activity_at: self.last_activity_at,
            git_branch: copy_text(&self.git_branch),
            transcript_size_bytes: self.transcript_size_bytes,
            clients: self.clients,
        }
    }
}

pub open spec fn tmux_view(sessions: Seq<TmuxSessionSummary>) -> Seq<TmuxSession> {
    Seq::new(sessions.len(), |i: int| sessions[i]@)
}

/// The reply to a request for all custom tmux sessions.
#[derive(Debug, PartialEq, Eq)]
pub struct TmuxSessionListResult {
    pub available: bool,
    pub version: String,
    pub sessions: Vec<TmuxSessionSummary>,
    pub error: Option<String>,
}

fn same_time(a: &Option<Timestamp>, b: &Option<Timestamp>) -> (same: bool)
    ensures
        same == (*a == *b),
{
    match (a, b) {
        (Some(x), Some(y)) => *x == *y,
        (None, None) => true,
        _ => false,
    }
}

fn same_size(a: &Option<u64>, b: &Option<u64>) -> (same: bool)
    ensures
        same == (*a == *b),
{
    match (a, b) {
        (Some(x), Some(y)) => *x == *y,
        (None, None) => true,
        _ => false,
    }
}

/// Whether two custom sessions are the same in every field.
pub fn same_tmux_session(a: &TmuxSessionSummary, b: &TmuxSessionSummary) -> (same: bool)
    ensures
        same == (a@ == b@),
{
    crate::text::same_text(a.name.as_str(), b.name.as_str()) && crate::text::same_texts(
        &a.agent_slugs,
        &b.agent_slugs,
    ) && crate::text::same_text(a.title.as_str(), b.title.as_str()) && same_time(
        &a.last_activity_at,
        &b.last_activity_at,
    ) && crate::text::same_optional_text(&a.git_branch, &b.git_branch) && same_size(
        &a.transcript_size_bytes,
        &b.transcript_size_bytes,
    ) && a.clients.attached == b.clients.attached
}

/// Whether two listings of custom sessions are the same.
pub fn same_tmux_sessions(
    a: &Vec<TmuxSessionSummary>,
    b: &Vec<TmuxSessionSummary>,
) -> (same: bool)
    ensures
        same == (tmux_view(a@) == tmux_view(b@)),
{
    assert(tmux_view(a@).len() == a@.len() && tmux_view(b@).len() == b@.len());
    if a.len() != b.len() {
        return false;
    }
    let mut i: usize = 0;
    while i < a.len()
        invariant
            i <= a@.len(),
            a@.len() == b@.len(),
            forall|j: int| 0 <= j < i ==> (#[trigger] a@[j])@ == b@[j]@,
        decreases a@.len() - i,
    {
        if !same_tmux_session(&a[i], &b[i]) {
            assert(tmux_view(a@)[i as int] != tmux_view(b@)[i as int]);
            return false;
        }
        i += 1;
    }
    assert(tmux_view(a@) =~= tmux_view(b@));
    true
}

// ---------------------------------------------------------------------------
// Laws
// ---------------------------------------------------------------------------

/// Two custom sessions are the same exactly where every field is.
pub proof fn lemma_custom_sessions_compare_by_every_field(
    a: TmuxSessionSummary,
    b: TmuxSessionSummary,
)
    ensures
        a@ == b@ <==> {
            &&& a.name@ == b.name@
            &&& a.agent_slugs@.len() == b.agent_slugs@.len()
            &&& forall|i: int|
                0 <= i < a.agent_slugs@.len() ==> (#[trigger] a.agent_slugs@[i])@
                    == b.agent_slugs@[i]@
            &&& a.title@ == b.title@
            &&& a.last_activity_at == b.last_activity_at
            &&& a.git_branch is Some <==> b.git_branch is Some
            &&& a.git_branch is Some ==> a.git_branch->0@ == b.git_branch->0@
            &&& a.transcript_size_bytes == b.transcript_size_bytes
            &&& a.clients.attached == b.clients.attached
        },
{
    let one = texts(a.agent_slugs@);
    let two = texts(b.agent_slugs@);
    if a@ == b@ {
        assert(one.len() == two.len());
        assert forall|i: int| 0 <= i < a.agent_slugs@.len() implies (
        #[trigger] a.agent_slugs@[i])@ == b.agent_slugs@[i]@ by {
            assert(one[i] == two[i]);
        }
    }
    if a.agent_slugs@.len() == b.agent_slugs@.len() && forall|i: int|
        0 <= i < a.agent_slugs@.len() ==> (#[trigger] a.agent_slugs@[i])@ == b.agent_slugs@[i]@ {
        assert(one =~= two);
    }
}

} // verus!
