//! The sessions view across agents: loading history, keeping its rows in step
//! with live sessions, and what it shows.

use crate::agents::{
    tmux_view, AgentSessionSummary, AgentSharedSessions, AgentSummary, TmuxSession,
    TmuxSessionListResult, TmuxSessionSummary,
};
use crate::clock::{clock_readings, Timestamp};
use crate::polling::{
    apply_tmux_poll_result, distinct, error_after, next_revision, sessions_after, stretch_after,
    Control, SharedSessionPollControl,
};
use crate::sessions::{
    build_session_rows_at, read_clock, rows_view, session_rows, AgentSessionRow, Row,
};
use crate::text::{join, joined, list_contains, optional_text, texts};
use vstd::prelude::*;

verus! {

/// How far the history is loaded.
#[derive(Debug, PartialEq, Eq)]
pub enum LoadState {
    Loading,
    Ready,
    Error(String),
}

/// A [`LoadState`] over mathematical text.
pub enum Load {
    Loading,
    Ready,
    Error(Seq<char>),
}

impl View for LoadState {
    type V = Load;

    open spec fn view(&self) -> Load {
        match *self {
            LoadState::Loading => Load::Loading,
            LoadState::Ready => Load::Ready,
            LoadState::Error(message) => Load::Error(message@),
        }
    }
}

// ---------------------------------------------------------------------------
// The outcome of a load
// ---------------------------------------------------------------------------

/// The history of one agent, or why it could not be read.
#[derive(Debug)]
pub struct AgentHistory {
    pub slug: String,
    pub result: Result<Vec<AgentSessionSummary>, String>,
}

/// What a load has found: the slugs to poll, unless the agents themselves could
/// not be listed; the sessions of all agents; and what went wrong.
#[derive(Debug)]
pub struct LoadResult {
    pub targets: Option<Vec<String>>,
    pub sessions: Vec<AgentSessionSummary>,
    pub errors: Vec<String>,
}

/// A [`LoadResult`] over mathematical values.
pub struct Loaded {
    pub targets: Option<Seq<Seq<char>>>,
    pub sessions: Seq<AgentSessionSummary>,
    pub errors: Seq<Seq<char>>,
}

impl View for LoadResult {
    type V = Loaded;

    open spec fn view(&self) -> Loaded {
        Loaded {
            targets: match self.targets {
                Some(targets) => Some(texts(targets@)),
                None => None,
            },
            sessions: self.sessions@,
            errors: texts(self.errors@),
        }
    }
}

/// The slugs of the agents that show details, in order.
pub open spec fn detail_slugs(agents: Seq<AgentSummary>) -> Seq<Seq<char>>
    decreases agents.len(),
{
    if agents.len() == 0 {
        seq![]
    } else if agents.last().shows_detail {
        detail_slugs(agents.drop_last()).push(agents.last().slug@)
    } else {
        detail_slugs(agents.drop_last())
    }
}

/// The slugs of agents in the order of their histories.
pub open spec fn history_slugs(histories: Seq<AgentHistory>) -> Seq<Seq<char>> {
    Seq::new(histories.len(), |i: int| histories[i].slug@)
}

/// The sessions of the histories that could be read, one after the other.
pub open spec fn history_sessions(histories: Seq<AgentHistory>) -> Seq<AgentSessionSummary>
    decreases histories.len(),
{
    if histories.len() == 0 {
        seq![]
    } else {
        match histories.last().result {
            Ok(sessions) => history_sessions(histories.drop_last()) + sessions@,
            Err(_) => history_sessions(histories.drop_last()),
        }
    }
}

/// What went wrong with the histories that could not be read, each behind its
/// agent's slug.
pub open spec fn history_errors(histories: Seq<AgentHistory>) -> Seq<Seq<char>>
    decreases histories.len(),
{
    if histories.len() == 0 {
        seq![]
    } else {
        match histories.last().result {
            Ok(_) => history_errors(histories.drop_last()),
            Err(error) => history_errors(histories.drop_last()).push(
                histories.last().slug@ + ": "@ + error@,
            ),
        }
    }
}

/// What a load has found in the replies to it.
pub open spec fn collected(reply: Result<Vec<AgentHistory>, String>) -> Loaded {
    match reply {
        Ok(histories) => Loaded {
            targets: Some(history_slugs(histories@)),
            sessions: history_sessions(histories@),
            errors: history_errors(histories@),
        },
        Err(error) => Loaded { targets: None, sessions: seq![], errors: seq![error@] },
    }
}

/// The agents whose history is loaded: those that show details, each once.
pub fn load_targets(agents: &Vec<AgentSummary>) -> (slugs: Vec<String>)
    ensures
        texts(slugs@) == distinct(detail_slugs(agents@)),
{
    let mut slugs: Vec<String> = Vec::new();
    let mut i: usize = 0;
    assert(agents@.take(0) =~= seq![]);
    assert(texts(slugs@) =~= seq![]);
    while i < agents.len()
        invariant
            i <= agents@.len(),
            texts(slugs@) == distinct(detail_slugs(agents@.take(i as int))),
        decreases agents@.len() - i,
    {
        let ghost before = detail_slugs(agents@.take(i as int));
        proof {
            assert(agents@.take(i + 1).drop_last() =~= agents@.take(i as int));
            assert(agents@.take(i + 1).last() == agents@[i as int]);
        }
        if agents[i].shows_detail {
            assert(before.push(agents@[i as int].slug@).drop_last() =~= before);
            if !list_contains(&slugs, agents[i].slug.as_str()) {
                let ghost known = slugs@;
                slugs.push(agents[i].slug.clone());
                assert(texts(slugs@) =~= texts(known).push(agents@[i as int].slug@));
            }
        }
        i += 1;
    }
    assert(agents@.take(i as int) =~= agents@);
    slugs
}

/// Gather the replies to a load.
pub fn collect_load(reply: Result<Vec<AgentHistory>, String>) -> (result: LoadResult)
    ensures
        result@ == collected(reply),
{
    let histories = match reply {
        Ok(histories) => histories,
        Err(error) => {
            let mut errors: Vec<String> = Vec::new();
            errors.push(error);
            assert(texts(errors@) =~= seq![error@]);
            return LoadResult { targets: None, sessions: Vec::new(), errors };
        },
    };
    let mut targets: Vec<String> = Vec::new();
    let mut sessions: Vec<AgentSessionSummary> = Vec::new();
    let mut errors: Vec<String> = Vec::new();
    let mut i: usize = 0;
    proof {
        assert(histories@.take(0) =~= seq![]);
        assert(texts(targets@) =~= history_slugs(histories@.take(0)));
        assert(texts(errors@) =~= seq![]);
    }
    while i < histories.len()
        invariant
            i <= histories@.len(),
            texts(targets@) == history_slugs(histories@.take(i as int)),
            sessions@ == history_sessions(histories@.take(i as int)),
            texts(errors@) == history_errors(histories@.take(i as int)),
        decreases histories@.len() - i,
    {
        let history = &histories[i];
        let ghost known = targets@;
        proof {
            assert(histories@.take(i + 1).drop_last() =~= histories@.take(i as int));
            assert(histories@.take(i + 1).last() == *history);
        }
        targets.push(history.slug.clone());
        assert(texts(targets@) =~= texts(known).push(history.slug@));
        assert(texts(targets@) =~= history_slugs(histories@.take(i + 1)));
        match &history.result {
            Ok(rows) => {
                push_sessions(&mut sessions, rows);
            },
            Err(error) => {
                let ghost before = errors@;
                let mut line = history.slug.clone();
                line.append(": ");
                line.append(error.as_str());
                errors.push(line);
                assert(texts(errors@) =~= texts(before).push(line@));
            },
        }
        i += 1;
    }
    assert(histories@.take(i as int) =~= histories@);
    LoadResult { targets: Some(targets), sessions, errors }
}

fn push_sessions(sessions: &mut Vec<AgentSessionSummary>, more: &Vec<AgentSessionSummary>)
    ensures
        final(sessions)@ == old(sessions)@ + more@,
{
    let ghost first = sessions@;
    let mut i: usize = 0;
    assert(first + more@.take(0) =~= first);
    while i < more.len()
        invariant
            i <= more@.len(),
            sessions@ == first + more@.take(i as int),
        decreases more@.len() - i,
    {
        sessions.push(more[i].clone());
        i += 1;
        assert(sessions@ =~= first + more@.take(i as int));
    }
    assert(more@.take(i as int) =~= more@);
}

// ---------------------------------------------------------------------------
// The view
// ---------------------------------------------------------------------------

/// The sessions view across agents.
#[derive(Debug)]
pub struct AgentSessions {
    /// Persisted rows from the last load, for re-merging with fresh shares.
    pub sessions: Vec<AgentSessionSummary>,
    pub rows: Vec<AgentSessionRow>,
    pub load_state: LoadState,
    pub loading_epoch: u64,
    /// Last available custom-session listing, retained across transport errors.
    pub tmux_sessions: Vec<TmuxSessionSummary>,
    /// Transport error already logged for the current unchanged failure stretch.
    pub tmux_error_stretch: Option<String>,
}

/// An [`AgentSessions`] over mathematical values.
pub struct SessionsView {
    pub sessions: Seq<AgentSessionSummary>,
    pub rows: Seq<Row>,
    pub load_state: Load,
    pub loading_epoch: u64,
    pub tmux_sessions: Seq<TmuxSession>,
    pub tmux_error_stretch: Option<Seq<char>>,
}

impl View for AgentSessions {
    type V = SessionsView;

    open spec fn view(&self) -> SessionsView {
        SessionsView {
            sessions: self.sessions@,
            rows: rows_view(self.rows@),
            load_state: self.load_state@,
            loading_epoch: self.loading_epoch,
            tmux_sessions: tmux_view(self.tmux_sessions@),
            tmux_error_stretch: optional_text(self.tmux_error_stretch),
        }
    }
}

/// The view that a load has begun in.
pub open spec fn loading(view: SessionsView) -> SessionsView {
    SessionsView {
        rows: seq![],
        load_state: Load::Loading,
        loading_epoch: next_revision(view.loading_epoch),
        ..view
    }
}

/// The view with its rows built again.
pub open spec fn rebuilt(
    view: SessionsView,
    snapshots: Seq<AgentSharedSessions>,
    nows: Seq<Timestamp>,
) -> SessionsView {
    SessionsView {
        rows: session_rows(view.sessions, snapshots, view.tmux_sessions, nows),
        ..view
    }
}

/// The state that a load ends in: ready, unless something went wrong and no
/// session was found.
pub open spec fn load_end(loaded: Loaded) -> Load {
    if loaded.errors.len() > 0 && loaded.sessions.len() == 0 {
        Load::Error(joined(loaded.errors, "; "@))
    } else {
        Load::Ready
    }
}

/// The view that a load has ended in. A load that another has overtaken changes
/// nothing.
pub open spec fn load_finished(
    view: SessionsView,
    epoch: u64,
    loaded: Loaded,
    snapshots: Seq<AgentSharedSessions>,
    nows: Seq<Timestamp>,
) -> SessionsView {
    if epoch != view.loading_epoch {
        view
    } else {
        SessionsView {
            load_state: load_end(loaded),
            ..rebuilt(SessionsView { sessions: loaded.sessions, ..view }, snapshots, nows)
        }
    }
}

/// The view after a listing of custom tmux sessions: its rows are built again
/// where the listing has changed.
pub open spec fn tmux_applied(
    view: SessionsView,
    supported: bool,
    result: Result<TmuxSessionListResult, String>,
    snapshots: Seq<AgentSharedSessions>,
    nows: Seq<Timestamp>,
) -> SessionsView {
    let after = SessionsView {
        tmux_sessions: sessions_after(view.tmux_sessions, supported, result),
        tmux_error_stretch: stretch_after(supported, result),
        ..view
    };
    if after.tmux_sessions != view.tmux_sessions {
        rebuilt(after, snapshots, nows)
    } else {
        after
    }
}

/// The row count that a list's measurements are to be reset to. The list caches
/// row measurements, so it must be reset whenever the row count changes.
pub open spec fn list_reset(before: Seq<Row>, after: Seq<Row>) -> Option<nat> {
    if before.len() == after.len() {
        None
    } else {
        Some(after.len())
    }
}

pub open spec fn reset_of(reset: Option<usize>) -> Option<nat> {
    match reset {
        Some(count) => Some(count as nat),
        None => None,
    }
}

/// A load that has begun: the epoch that tells its replies from those of other
/// loads, and the row count that the list is to be reset to.
#[derive(Debug, Clone, Copy, PartialEq, Eq, Structural)]
pub struct LoadStart {
    pub epoch: u64,
    pub list_reset: usize,
}

/// What is to be done after a load: set these poll targets, reset the list to a
/// row count, and log an error.
#[derive(Debug, PartialEq, Eq)]
pub struct LoadEffects {
    pub targets: Option<Vec<String>>,
    pub list_reset: Option<usize>,
    pub error_to_log: Option<String>,
}

/// What is to be done after a listing of custom tmux sessions: reset the list
/// to a row count, and log an error.
#[derive(Debug, PartialEq, Eq)]
pub struct TmuxEffects {
    pub rows_changed: bool,
    pub list_reset: Option<usize>,
    pub error_to_log: Option<String>,
}

/// The error that a load gives to log: what went wrong while sessions were
/// found.
pub open spec fn partial_failure(loaded: Loaded) -> Option<Seq<char>> {
    if loaded.errors.len() > 0 && loaded.sessions.len() > 0 {
        Some("agent sessions partial failure: "@ + joined(loaded.errors, "; "@))
    } else {
        None
    }
}

/// What a view shows.
#[derive(Debug, PartialEq, Eq)]
pub enum ViewBody {
    /// A text in place of rows.
    Message(String),
    /// The rows.
    Rows,
}

/// The text that a view shows in place of rows, if it does.
pub open spec fn view_message(view: SessionsView) -> Option<Seq<char>> {
    match view.load_state {
        Load::Loading => Some("Loading…"@),
        Load::Error(message) => Some(message),
        Load::Ready => if view.rows.len() == 0 {
            Some("No sessions found for this workspace."@)
        } else {
            None
        },
    }
}

impl AgentSessions {
    /// A view whose first load has begun.
    pub fn new() -> (view: Self)
        ensures
            view@ == (SessionsView {
                sessions: seq![],
                rows: seq![],
                load_state: Load::Loading,
                loading_epoch: 1,
                tmux_sessions: seq![],
                tmux_error_stretch: None,
            }),
    {
        let mut view = AgentSessions {
            sessions: Vec::new(),
            rows: Vec::new(),
            load_state: LoadState::Loading,
            loading_epoch: 0,
            tmux_sessions: Vec::new(),
            tmux_error_stretch: None,
        };
        let _ = view.load();
        assert(view@.sessions =~= seq![]);
        assert(view@.tmux_sessions =~= seq![]);
        view
    }

    /// Begin a load. The list starts over without rows.
    pub fn load(&mut self) -> (start: LoadStart)
        ensures
            final(self)@ == loading(old(self)@),
            start == (LoadStart { epoch: final(self)@.loading_epoch, list_reset: 0 }),
    {
        self.loading_epoch = self.loading_epoch.wrapping_add(1);
        self.rows = Vec::new();
        self.load_state = LoadState::Loading;
        assert(rows_view(self.rows@) =~= seq![]);
        LoadStart { epoch: self.loading_epoch, list_reset: self.rows.len() }
    }

    /// Manual refresh: reload history and nudge the poll of live shares.
    pub fn refresh(&mut self, control: &mut SharedSessionPollControl) -> (start: LoadStart)
        ensures
            final(self)@ == loading(old(self)@),
            start == (LoadStart { epoch: final(self)@.loading_epoch, list_reset: 0 }),
            final(control)@ == (Control {
                refresh_revision: next_revision(old(control)@.refresh_revision),
                ..old(control)@
            }),
    {
        control.request_refresh();
        self.load()
    }

    /// Re-derive custom rows followed by persisted history and its live
    /// snapshot, where each session is seen from an instant of its own.
    pub fn rebuild_rows_at(
        &mut self,
        snapshots: &[AgentSharedSessions],
        nows: &Vec<Timestamp>,
    ) -> (reset: Option<usize>)
        requires
            nows@.len() == old(self)@.sessions.len(),
        ensures
            final(self)@ == rebuilt(old(self)@, snapshots@, nows@),
            reset_of(reset) == list_reset(old(self)@.rows, final(self)@.rows),
    {
        let mut sessions: Vec<AgentSessionSummary> = Vec::new();
        push_sessions(&mut sessions, &self.sessions);
        assert(sessions@ =~= self.sessions@);
        let rows = build_session_rows_at(
            sessions,
            snapshots,
            self.tmux_sessions.as_slice(),
            nows,
        );
        let reset = if rows.len() == self.rows.len() {
            None
        } else {
            Some(rows.len())
        };
        self.rows = rows;
        reset
    }

    /// Re-derive custom rows followed by persisted history and its live
    /// snapshot, seen from now.
    pub fn rebuild_rows(&mut self, snapshots: &[AgentSharedSessions]) -> (reset: Option<usize>)
        ensures
            exists|nows: Seq<Timestamp>|
                nows.len() == old(self)@.sessions.len() && clock_readings(nows)
                    && final(self)@ == #[trigger] rebuilt(
                    old(self)@,
                    snapshots@,
                    nows,
                ),
            reset_of(reset) == list_reset(old(self)@.rows, final(self)@.rows),
    {
        let nows = read_clock(self.sessions.len());
        self.rebuild_rows_at(snapshots, &nows)
    }

    /// End a load, where each session is seen from an instant of its own.
    pub fn finish_load_at(
        &mut self,
        epoch: u64,
        result: LoadResult,
        snapshots: &[AgentSharedSessions],
        nows: &Vec<Timestamp>,
    ) -> (effects: LoadEffects)
        requires
            nows@.len() == result@.sessions.len(),
        ensures
            final(self)@ == load_finished(old(self)@, epoch, result@, snapshots@, nows@),
            reset_of(effects.list_reset) == list_reset(old(self)@.rows, final(self)@.rows),
            epoch == old(self)@.loading_epoch ==> {
                &&& (match effects.targets {
                    Some(targets) => result@.targets == Some(texts(targets@)),
                    None => result@.targets is None,
                })
                &&& optional_text(effects.error_to_log) == partial_failure(result@)
            },
            epoch != old(self)@.loading_epoch ==> effects.targets is None
                && effects.error_to_log is None,
    {
        if self.loading_epoch != epoch {
            return LoadEffects { targets: None, list_reset: None, error_to_log: None };
        }
        assert(texts(result.errors@).len() == result.errors@.len());
        self.sessions = result.sessions;
        let list_reset = self.rebuild_rows_at(snapshots, nows);
        let mut error_to_log: Option<String> = None;
        if result.errors.len() == 0 {
            self.load_state = LoadState::Ready;
        } else if self.sessions.len() == 0 {
            self.load_state = LoadState::Error(join(&result.errors, "; "));
        } else {
            let mut message = "agent sessions partial failure: ".to_string();
            message.append(join(&result.errors, "; ").as_str());
            error_to_log = Some(message);
            self.load_state = LoadState::Ready;
        }
        LoadEffects { targets: result.targets, list_reset, error_to_log }
    }

    /// End a load, seen from now.
    pub fn finish_load(
        &mut self,
        epoch: u64,
        result: LoadResult,
        snapshots: &[AgentSharedSessions],
    ) -> (effects: LoadEffects)
        ensures
            exists|nows: Seq<Timestamp>|
                nows.len() == result@.sessions.len() && clock_readings(nows)
                    && final(self)@ == #[trigger] load_finished(
                    old(self)@,
                    epoch,
                    result@,
                    snapshots@,
                    nows,
                ),
            reset_of(effects.list_reset) == list_reset(old(self)@.rows, final(self)@.rows),
            epoch == old(self)@.loading_epoch ==> {
                &&& (match effects.targets {
                    Some(targets) => result@.targets == Some(texts(targets@)),
                    None => result@.targets is None,
                })
                &&& optional_text(effects.error_to_log) == partial_failure(result@)
            },
            epoch != old(self)@.loading_epoch ==> effects.targets is None
                && effects.error_to_log is None,
    {
        let nows = read_clock(result.sessions.len());
        self.finish_load_at(epoch, result, snapshots, &nows)
    }

    /// Apply a listing of custom tmux sessions, where each session is seen from
    /// an instant of its own.
    pub fn apply_tmux_poll_at(
        &mut self,
        supported: bool,
        result: Result<TmuxSessionListResult, String>,
        snapshots: &[AgentSharedSessions],
        nows: &Vec<Timestamp>,
    ) -> (effects: TmuxEffects)
        requires
            nows@.len() == old(self)@.sessions.len(),
        ensures
            final(self)@ == tmux_applied(old(self)@, supported, result, snapshots@, nows@),
            effects.rows_changed == (final(self)@.tmux_sessions != old(self)@.tmux_sessions),
            reset_of(effects.list_reset) == list_reset(old(self)@.rows, final(self)@.rows),
            optional_text(effects.error_to_log) == error_after(
                old(self)@.tmux_error_stretch,
                supported,
                result,
            ),
    {
        let apply = apply_tmux_poll_result(
            &mut self.tmux_sessions,
            &mut self.tmux_error_stretch,
            supported,
            result,
        );
        let list_reset = if apply.rows_changed {
            self.rebuild_rows_at(snapshots, nows)
        } else {
            None
        };
        TmuxEffects {
            rows_changed: apply.rows_changed,
            list_reset,
            error_to_log: apply.error_to_log,
        }
    }

    /// Apply a listing of custom tmux sessions, seen from now.
    pub fn apply_tmux_poll(
        &mut self,
        supported: bool,
        result: Result<TmuxSessionListResult, String>,
        snapshots: &[AgentSharedSessions],
    ) -> (effects: TmuxEffects)
        ensures
            exists|nows: Seq<Timestamp>|
                nows.len() == old(self)@.sessions.len() && clock_readings(nows)
                    && final(self)@ == #[trigger] tmux_applied(
                    old(self)@,
                    supported,
                    result,
                    snapshots@,
                    nows,
                ),
            effects.rows_changed == (final(self)@.tmux_sessions != old(self)@.tmux_sessions),
            reset_of(effects.list_reset) == list_reset(old(self)@.rows, final(self)@.rows),
            optional_text(effects.error_to_log) == error_after(
                old(self)@.tmux_error_stretch,
                supported,
                result,
            ),
    {
        let nows = read_clock(self.sessions.len());
        self.apply_tmux_poll_at(supported, result, snapshots, &nows)
    }

    /// What the view shows.
    pub fn body(&self) -> (body: ViewBody)
        ensures
            match body {
                ViewBody::Message(text) => view_message(self@) == Some(text@),
                ViewBody::Rows => view_message(self@) is None,
            },
    {
        match &self.load_state {
            LoadState::Loading => ViewBody::Message("Loading…".to_string()),
            LoadState::Error(message) => ViewBody::Message(message.clone()),
            LoadState::Ready => {
                if self.rows.len() == 0 {
                    ViewBody::Message("No sessions found for this workspace.".to_string())
                } else {
                    ViewBody::Rows
                }
            },
        }
    }
}

// ---------------------------------------------------------------------------
// Laws
// ---------------------------------------------------------------------------

/// A load that another has overtaken changes nothing.
pub proof fn lemma_overtaken_load_changes_nothing(
    view: SessionsView,
    loaded: Loaded,
    snapshots: Seq<AgentSharedSessions>,
    nows: Seq<Timestamp>,
)
    ensures
        ({
            let first = loading(view);
            let second = loading(first);
            load_finished(second, first.loading_epoch, loaded, snapshots, nows) == second
        }),
{
}

/// A load takes effect where no other has begun since.
pub proof fn lemma_latest_load_takes_effect(
    view: SessionsView,
    loaded: Loaded,
    snapshots: Seq<AgentSharedSessions>,
    nows: Seq<Timestamp>,
)
    ensures
        ({
            let begun = loading(view);
            let after = load_finished(begun, begun.loading_epoch, loaded, snapshots, nows);
            &&& after.sessions == loaded.sessions
            &&& after.rows == session_rows(
                loaded.sessions,
                snapshots,
                view.tmux_sessions,
                nows,
            )
            &&& after.load_state == load_end(loaded)
            &&& after.tmux_sessions == view.tmux_sessions
        }),
{
}

/// An error is shown only where nothing was found; where something was, the
/// error is logged.
pub proof fn lemma_partial_failures_keep_what_was_found(loaded: Loaded)
    ensures
        load_end(loaded) is Error ==> loaded.sessions.len() == 0 && partial_failure(
            loaded,
        ) is None,
        loaded.errors.len() > 0 <==> load_end(loaded) is Error || partial_failure(loaded) is Some,
{
}

/// A listing of custom tmux sessions never touches the persisted sessions, the
/// load, or its epoch.
pub proof fn lemma_tmux_poll_leaves_history_alone(
    view: SessionsView,
    supported: bool,
    result: Result<TmuxSessionListResult, String>,
    snapshots: Seq<AgentSharedSessions>,
    nows: Seq<Timestamp>,
)
    ensures
        ({
            let after = tmux_applied(view, supported, result, snapshots, nows);
            &&& after.sessions == view.sessions
            &&& after.load_state == view.load_state
            &&& after.loading_epoch == view.loading_epoch
            &&& result is Err && supported ==> after.rows == view.rows && after.tmux_sessions
                == view.tmux_sessions
        }),
{
}

/// A load polls each agent with details once.
pub proof fn lemma_load_targets_are_distinct(agents: Seq<AgentSummary>, i: int)
    requires
        0 <= i < agents.len(),
        agents[i].shows_detail,
    ensures
        distinct(detail_slugs(agents)).no_duplicates(),
        distinct(detail_slugs(agents)).contains(agents[i].slug@),
{
    crate::polling::lemma_distinct(detail_slugs(agents));
    lemma_detail_slugs(agents, i);
}

proof fn lemma_detail_slugs(agents: Seq<AgentSummary>, i: int)
    requires
        0 <= i < agents.len(),
        agents[i].shows_detail,
    ensures
        detail_slugs(agents).contains(agents[i].slug@),
    decreases agents.len(),
{
    let slugs = detail_slugs(agents);
    if i == agents.len() - 1 {
        assert(slugs[slugs.len() - 1] == agents[i].slug@);
    } else {
        let head = agents.drop_last();
        lemma_detail_slugs(head, i);
        let k = choose|k: int|
            0 <= k < detail_slugs(head).len() && detail_slugs(head)[k] == head[i].slug@;
        assert(slugs[k] == agents[i].slug@);
    }
}

proof fn lemma_filter_push<T>(list: Seq<T>, last: T, keep: spec_fn(T) -> bool)
    ensures
        list.push(last).filter(keep) == (if keep(last) {
            list.filter(keep).push(last)
        } else {
            list.filter(keep)
        }),
        Seq::<T>::empty().filter(keep).len() == 0,
{
    reveal(Seq::filter);
    assert(list.push(last).drop_last() =~= list);
}

/// A load asks for the history of the agents that show details, in their order,
/// and of no other.
pub proof fn lemma_agents_with_details_are_loaded(agents: Seq<AgentSummary>)
    ensures
        detail_slugs(agents) == agents.filter(|agent: AgentSummary| agent.shows_detail).map_values(
            |agent: AgentSummary| agent.slug@,
        ),
    decreases agents.len(),
{
    let shows = |agent: AgentSummary| agent.shows_detail;
    let slug = |agent: AgentSummary| agent.slug@;
    if agents.len() > 0 {
        let head = agents.drop_last();
        lemma_agents_with_details_are_loaded(head);
        lemma_filter_push(head, agents.last(), shows);
        assert(head.push(agents.last()) =~= agents);
    } else {
        lemma_filter_push(agents, arbitrary(), shows);
        assert(agents =~= seq![]);
    }
    assert(detail_slugs(agents) =~= agents.filter(shows).map_values(slug));
}

/// A load has the sessions of every history that could be read, one history
/// after the other and each in its order, whatever became of the others. Each
/// history that could not be read leaves one error, behind its agent's slug, and
/// every agent that was asked is polled.
pub proof fn lemma_load_collects_every_history(histories: Vec<AgentHistory>)
    ensures
        ({
            let loaded = collected(Ok(histories));
            &&& loaded.sessions == histories@.map_values(
                |history: AgentHistory|
                    match history.result {
                        Ok(sessions) => sessions@,
                        Err(_) => seq![],
                    },
            ).flatten()
            &&& loaded.errors == histories@.filter(
                |history: AgentHistory| history.result is Err,
            ).map_values(
                |history: AgentHistory| history.slug@ + ": "@ + history.result->Err_0@,
            )
            &&& loaded.targets == Some(
                histories@.map_values(|history: AgentHistory| history.slug@),
            )
        }),
{
    lemma_history_sessions(histories@);
    lemma_history_errors(histories@);
    assert(history_slugs(histories@) =~= histories@.map_values(
        |history: AgentHistory| history.slug@,
    ));
}

proof fn lemma_history_sessions(histories: Seq<AgentHistory>)
    ensures
        history_sessions(histories) == histories.map_values(
            |history: AgentHistory|
                match history.result {
                    Ok(sessions) => sessions@,
                    Err(_) => seq![],
                },
        ).flatten(),
    decreases histories.len(),
{
    let own = |history: AgentHistory|
        match history.result {
            Ok(sessions) => sessions@,
            Err(_) => seq![],
        };
    let lists = histories.map_values(own);
    if histories.len() > 0 {
        let head = histories.drop_last();
        lemma_history_sessions(head);
        assert(lists.drop_last() =~= head.map_values(own));
        lists.lemma_flatten_and_flatten_alt_are_equivalent();
        lists.drop_last().lemma_flatten_and_flatten_alt_are_equivalent();
        assert(lists.flatten_alt() == lists.drop_last().flatten_alt() + lists.last());
        assert(lists.last() == own(histories.last()));
        assert(history_sessions(histories) =~= lists.flatten());
    } else {
        assert(lists.flatten() =~= seq![]);
    }
}

proof fn lemma_history_errors(histories: Seq<AgentHistory>)
    ensures
        history_errors(histories) == histories.filter(
            |history: AgentHistory| history.result is Err,
        ).map_values(|history: AgentHistory| history.slug@ + ": "@ + history.result->Err_0@),
    decreases histories.len(),
{
    let failed = |history: AgentHistory| history.result is Err;
    let line = |history: AgentHistory| history.slug@ + ": "@ + history.result->Err_0@;
    if histories.len() > 0 {
        let head = histories.drop_last();
        lemma_history_errors(head);
        lemma_filter_push(head, histories.last(), failed);
        assert(head.push(histories.last()) =~= histories);
    } else {
        lemma_filter_push(histories, arbitrary(), failed);
        assert(histories =~= seq![]);
    }
    assert(history_errors(histories) =~= histories.filter(failed).map_values(line));
}

/// Where the agents cannot be listed, a load has found that error and nothing
/// else, and leaves the poll targets alone.
pub proof fn lemma_load_without_agents(error: String)
    ensures
        ({
            let loaded = collected(Err(error));
            &&& loaded.sessions.len() == 0
            &&& loaded.errors.len() == 1 && loaded.errors[0] == error@
            &&& loaded.targets is None
        }),
{
}

/// A load that begins empties the list and counts up, and keeps everything that
/// was found before.
pub proof fn lemma_loads_begin_empty(view: SessionsView)
    ensures
        ({
            let begun = loading(view);
            &&& begun.rows.len() == 0
            &&& begun.load_state is Loading
            &&& view.loading_epoch < u64::MAX ==> begun.loading_epoch == view.loading_epoch + 1
            &&& view.loading_epoch == u64::MAX ==> begun.loading_epoch == 0
            &&& begun.sessions == view.sessions
            &&& begun.tmux_sessions == view.tmux_sessions
            &&& begun.tmux_error_stretch == view.tmux_error_stretch
        }),
{
}

/// Building the rows again touches nothing but the rows, and they show the
/// custom sessions and the history of the view.
pub proof fn lemma_rows_are_built_from_the_view(
    view: SessionsView,
    snapshots: Seq<AgentSharedSessions>,
    nows: Seq<Timestamp>,
)
    ensures
        ({
            let after = rebuilt(view, snapshots, nows);
            &&& after.rows == session_rows(view.sessions, snapshots, view.tmux_sessions, nows)
            &&& after.sessions == view.sessions
            &&& after.load_state == view.load_state
            &&& after.loading_epoch == view.loading_epoch
            &&& after.tmux_sessions == view.tmux_sessions
            &&& after.tmux_error_stretch == view.tmux_error_stretch
        }),
{
}

/// A load changes the view exactly where its epoch is the view's. It then ends
/// ready where it has found a session or met no error, and else with all errors
/// in one line. Custom sessions stay as they are.
pub proof fn lemma_loads_end(
    view: SessionsView,
    epoch: u64,
    loaded: Loaded,
    snapshots: Seq<AgentSharedSessions>,
    nows: Seq<Timestamp>,
)
    ensures
        ({
            let after = load_finished(view, epoch, loaded, snapshots, nows);
            &&& epoch != view.loading_epoch ==> after == view
            &&& epoch == view.loading_epoch ==> {
                &&& after.sessions == loaded.sessions
                &&& after.rows == session_rows(
                    loaded.sessions,
                    snapshots,
                    view.tmux_sessions,
                    nows,
                )
                &&& loaded.sessions.len() > 0 || loaded.errors.len() == 0 ==> after.load_state
                    is Ready
                &&& loaded.sessions.len() == 0 && loaded.errors.len() > 0 ==> after.load_state
                    == Load::Error(joined(loaded.errors, "; "@))
                &&& after.loading_epoch == view.loading_epoch
                &&& after.tmux_sessions == view.tmux_sessions
                &&& after.tmux_error_stretch == view.tmux_error_stretch
            }
            &&& loaded.sessions.len() > 0 && loaded.errors.len() > 0 ==> partial_failure(loaded)
                == Some("agent sessions partial failure: "@ + joined(loaded.errors, "; "@))
            &&& loaded.sessions.len() == 0 || loaded.errors.len() == 0 ==> partial_failure(
                loaded,
            ) is None
        }),
{
}

/// A listing of custom sessions has the rows built again exactly where it is
/// another than the one shown, and they then show it.
pub proof fn lemma_new_listing_is_shown(
    view: SessionsView,
    supported: bool,
    result: Result<TmuxSessionListResult, String>,
    snapshots: Seq<AgentSharedSessions>,
    nows: Seq<Timestamp>,
)
    ensures
        ({
            let after = tmux_applied(view, supported, result, snapshots, nows);
            &&& after.tmux_sessions == sessions_after(view.tmux_sessions, supported, result)
            &&& after.tmux_error_stretch == stretch_after(supported, result)
            &&& after.tmux_sessions == view.tmux_sessions ==> after.rows == view.rows
            &&& after.tmux_sessions != view.tmux_sessions ==> after.rows == session_rows(
                view.sessions,
                snapshots,
                after.tmux_sessions,
                nows,
            )
        }),
{
}

/// The list is reset exactly where the number of rows has changed, to the new
/// one.
pub proof fn lemma_list_is_reset_on_new_count(before: Seq<Row>, after: Seq<Row>)
    ensures
        list_reset(before, after) is Some <==> before.len() != after.len(),
        list_reset(before, after) matches Some(count) ==> count == after.len(),
{
}

/// A view that loads says so, one that has failed says why, and one that is
/// ready shows its rows, or says that there are none.
pub proof fn lemma_view_shows_rows_or_says_why(view: SessionsView)
    ensures
        view_message(view) is None <==> view.load_state is Ready && view.rows.len() > 0,
        view.load_state is Loading ==> view_message(view) == Some("Loading…"@),
        view.load_state matches Load::Error(message) ==> view_message(view) == Some(message),
        view.load_state is Ready && view.rows.len() == 0 ==> view_message(view) == Some(
            "No sessions found for this workspace."@,
        ),
{
}

/// Views and loads over mathematical values keep every field.
pub proof fn lemma_views_and_loads_keep_fields(view: AgentSessions, result: LoadResult, i: int)
    ensures
        view@.sessions == view.sessions@,
        view@.rows.len() == view.rows@.len(),
        0 <= i < view.rows@.len() ==> view@.rows[i] == view.rows@[i]@,
        view.load_state is Loading <==> view@.load_state is Loading,
        view.load_state is Ready <==> view@.load_state is Ready,
        view.load_state matches LoadState::Error(message) ==> view@.load_state == Load::Error(
            message@,
        ),
        view@.loading_epoch == view.loading_epoch,
        view@.tmux_sessions.len() == view.tmux_sessions@.len(),
        0 <= i < view.tmux_sessions@.len() ==> view@.tmux_sessions[i] == view.tmux_sessions@[i]@,
        view@.tmux_error_stretch is Some <==> view.tmux_error_stretch is Some,
        view.tmux_error_stretch matches Some(error) ==> view@.tmux_error_stretch == Some(error@),
        result@.sessions == result.sessions@,
        result@.errors.len() == result.errors@.len(),
        0 <= i < result.errors@.len() ==> result@.errors[i] == result.errors@[i]@,
        result@.targets is Some <==> result.targets is Some,
        result.targets matches Some(targets) ==> {
            &&& result@.targets->0.len() == targets@.len()
            &&& 0 <= i < targets@.len() ==> result@.targets->0[i] == targets@[i]@
        },
{
}

} // verus!
