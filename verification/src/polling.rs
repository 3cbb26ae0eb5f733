//! Polling live shares of agents and custom tmux sessions while a sessions view
//! is open.

use crate::agents::{
    same_tmux_sessions, tmux_view, TmuxSession, TmuxSessionListResult, TmuxSessionSummary,
};
use crate::text::{copy_texts, list_contains, optional_text, same_text, same_texts, texts};
use vstd::prelude::*;

verus! {

/// Seconds between tmux snapshots while a sessions view is open.
pub const SHARED_SESSION_POLL_INTERVAL: u64 = 2;

/// Seconds between listings of custom tmux sessions.
pub const TMUX_SESSION_POLL_INTERVAL: u64 = 2;

// ---------------------------------------------------------------------------
// Targets
// ---------------------------------------------------------------------------

/// A list without its repetitions: each text where it stands first.
pub open spec fn distinct(slugs: Seq<Seq<char>>) -> Seq<Seq<char>>
    decreases slugs.len(),
{
    if slugs.len() == 0 {
        seq![]
    } else {
        let before = distinct(slugs.drop_last());
        if before.contains(slugs.last()) {
            before
        } else {
            before.push(slugs.last())
        }
    }
}

/// A list without its repetitions.
pub fn distinct_slugs(slugs: Vec<String>) -> (result: Vec<String>)
    ensures
        texts(result@) == distinct(texts(slugs@)),
{
    let ghost all = texts(slugs@);
    let mut result: Vec<String> = Vec::new();
    let mut i: usize = 0;
    assert(all.take(0) =~= seq![]);
    assert(texts(result@) =~= seq![]);
    while i < slugs.len()
        invariant
            i <= slugs@.len(),
            all == texts(slugs@),
            texts(result@) == distinct(all.take(i as int)),
        decreases slugs@.len() - i,
    {
        proof {
            assert(all.take(i + 1).drop_last() =~= all.take(i as int));
            assert(all.take(i + 1).last() == slugs@[i as int]@);
        }
        if !list_contains(&result, slugs[i].as_str()) {
            let ghost before = result@;
            result.push(slugs[i].clone());
            assert(texts(result@) =~= texts(before).push(slugs@[i as int]@));
        }
        i += 1;
    }
    assert(all.take(i as int) =~= all);
    result
}

/// Targets without repetition, without the parked ones.
pub open spec fn unparked(targets: Seq<Seq<char>>, parked: Set<Seq<char>>) -> Seq<Seq<char>> {
    targets.filter(|slug: Seq<char>| !parked.contains(slug))
}

/// What a view wants to be polled, and how often that has changed.
#[derive(Debug)]
pub struct SharedSessionPollControl {
    pub targets: Vec<String>,
    pub target_revision: u64,
    pub refresh_revision: u64,
}

/// A [`SharedSessionPollControl`] over mathematical text.
pub struct Control {
    pub targets: Seq<Seq<char>>,
    pub target_revision: u64,
    pub refresh_revision: u64,
}

impl View for SharedSessionPollControl {
    type V = Control;

    open spec fn view(&self) -> Control {
        Control {
            targets: texts(self.targets@),
            target_revision: self.target_revision,
            refresh_revision: self.refresh_revision,
        }
    }
}

/// The revision behind another, from the last one back to zero.
pub open spec fn next_revision(revision: u64) -> u64 {
    if revision == u64::MAX {
        0
    } else {
        (revision + 1) as u64
    }
}

impl SharedSessionPollControl {
    /// A control with its first targets.
    pub fn new(targets: Vec<String>) -> (control: Self)
        ensures
            control@ == (Control {
                targets: distinct(texts(targets@)),
                target_revision: 0,
                refresh_revision: 0,
            }),
    {
        SharedSessionPollControl {
            targets: distinct_slugs(targets),
            target_revision: 0,
            refresh_revision: 0,
        }
    }

    /// Replace the targets. The same targets in the same order change nothing.
    pub fn set_targets(&mut self, targets: Vec<String>) -> (changed: bool)
        ensures
            changed == (distinct(texts(targets@)) != old(self)@.targets),
            final(self)@ == (if changed {
                Control {
                    targets: distinct(texts(targets@)),
                    target_revision: next_revision(old(self)@.target_revision),
                    refresh_revision: old(self)@.refresh_revision,
                }
            } else {
                old(self)@
            }),
    {
        let targets = distinct_slugs(targets);
        if same_texts(&self.targets, &targets) {
            return false;
        }
        self.targets = targets;
        self.target_revision = self.target_revision.wrapping_add(1);
        true
    }

    /// Ask for a poll of all targets, parked ones too.
    pub fn request_refresh(&mut self)
        ensures
            final(self)@ == (Control {
                refresh_revision: next_revision(old(self)@.refresh_revision),
                ..old(self)@
            }),
    {
        self.refresh_revision = self.refresh_revision.wrapping_add(1);
    }
}

/// What a poll works on: the targets it has last seen, and which of them are
/// parked.
#[derive(Debug)]
pub struct SharedSessionPollState {
    pub targets: Vec<String>,
    pub target_revision: u64,
    pub refresh_revision: u64,
    pub parked: Vec<String>,
}

/// A [`SharedSessionPollState`] over mathematical text.
pub struct PollState {
    pub targets: Seq<Seq<char>>,
    pub target_revision: u64,
    pub refresh_revision: u64,
    pub parked: Set<Seq<char>>,
}

impl View for SharedSessionPollState {
    type V = PollState;

    open spec fn view(&self) -> PollState {
        PollState {
            targets: texts(self.targets@),
            target_revision: self.target_revision,
            refresh_revision: self.refresh_revision,
            parked: texts(self.parked@).to_set(),
        }
    }
}

/// The state of a poll that has seen a control and parked nothing.
pub open spec fn fresh_state(control: Control) -> PollState {
    PollState {
        targets: control.targets,
        target_revision: control.target_revision,
        refresh_revision: control.refresh_revision,
        parked: Set::empty(),
    }
}

/// The state of a poll after another look at its control: changed targets are
/// taken over, and changed targets or a refresh leave nothing parked.
pub open spec fn synced(state: PollState, control: Control) -> PollState {
    PollState {
        targets: if state.target_revision != control.target_revision {
            control.targets
        } else {
            state.targets
        },
        target_revision: control.target_revision,
        refresh_revision: control.refresh_revision,
        parked: if state.target_revision != control.target_revision || state.refresh_revision
            != control.refresh_revision {
            Set::empty()
        } else {
            state.parked
        },
    }
}

/// The targets of a state that are polled.
pub open spec fn pollable(state: PollState) -> Seq<Seq<char>> {
    unparked(state.targets, state.parked)
}

/// A state with all of its targets parked.
pub open spec fn all_parked(state: PollState) -> PollState {
    PollState { parked: state.parked.union(state.targets.to_set()), ..state }
}

proof fn lemma_no_texts()
    ensures
        texts(Seq::<String>::empty()).to_set() == Set::<Seq<char>>::empty(),
{
    assert(texts(Seq::<String>::empty()).to_set() =~= Set::<Seq<char>>::empty());
}

impl SharedSessionPollState {
    /// The state of a poll that has seen a control.
    pub fn new(control: &SharedSessionPollControl) -> (state: Self)
        ensures
            state@ == fresh_state(control@),
    {
        proof {
            lemma_no_texts();
        }
        SharedSessionPollState {
            targets: copy_texts(&control.targets),
            target_revision: control.target_revision,
            refresh_revision: control.refresh_revision,
            parked: Vec::new(),
        }
    }

    /// Look at the control again.
    pub fn sync(&mut self, control: &SharedSessionPollControl)
        ensures
            final(self)@ == synced(old(self)@, control@),
    {
        proof {
            lemma_no_texts();
        }
        if self.target_revision != control.target_revision {
            self.targets = copy_texts(&control.targets);
            self.target_revision = control.target_revision;
            self.parked = Vec::new();
        }
        if self.refresh_revision != control.refresh_revision {
            self.refresh_revision = control.refresh_revision;
            self.parked = Vec::new();
        }
    }

    /// The targets that are not parked.
    pub fn pollable_targets(&self) -> (targets: Vec<String>)
        ensures
            texts(targets@) == pollable(self@),
    {
        let ghost all = texts(self.targets@);
        let ghost parked = texts(self.parked@).to_set();
        let mut targets: Vec<String> = Vec::new();
        let mut i: usize = 0;
        proof {
            reveal(Seq::filter);
            assert(all.take(0) =~= seq![]);
            assert(texts(targets@) =~= unparked(all.take(0), parked));
        }
        while i < self.targets.len()
            invariant
                i <= self.targets@.len(),
                all == texts(self.targets@),
                parked == texts(self.parked@).to_set(),
                texts(targets@) == unparked(all.take(i as int), parked),
            decreases self.targets@.len() - i,
        {
            proof {
                reveal(Seq::filter);
                assert(all.take(i + 1).drop_last() =~= all.take(i as int));
                assert(all.take(i + 1).last() == self.targets@[i as int]@);
            }
            if !list_contains(&self.parked, self.targets[i].as_str()) {
                let ghost before = targets@;
                targets.push(self.targets[i].clone());
                assert(texts(targets@) =~= texts(before).push(self.targets@[i as int]@));
            }
            i += 1;
        }
        assert(all.take(i as int) =~= all);
        targets
    }

    /// Whether a slug is among the targets.
    pub fn contains_target(&self, slug: &str) -> (found: bool)
        ensures
            found == self@.targets.contains(slug@),
    {
        list_contains(&self.targets, slug)
    }

    /// Park all targets.
    pub fn park_all(&mut self)
        ensures
            final(self)@ == all_parked(old(self)@),
    {
        let ghost targets = texts(self.targets@);
        let ghost first = texts(self.parked@).to_set();
        let mut i: usize = 0;
        assert(first.union(targets.take(0).to_set()) =~= first);
        while i < self.targets.len()
            invariant
                i <= self.targets@.len(),
                targets == texts(self.targets@),
                self.targets == old(self).targets,
                self.target_revision == old(self).target_revision,
                self.refresh_revision == old(self).refresh_revision,
                texts(self.parked@).to_set() == first.union(targets.take(i as int).to_set()),
            decreases self.targets@.len() - i,
        {
            let ghost before = self.parked@;
            let slug = self.targets[i].clone();
            assert(targets.take(i + 1) =~= targets.take(i as int).push(slug@));
            if !list_contains(&self.parked, slug.as_str()) {
                self.parked.push(slug);
                assert(texts(self.parked@) =~= texts(before).push(slug@));
            } else {
                assert(texts(before).to_set().contains(slug@));
            }
            proof {
                lemma_set_push(targets.take(i as int), slug@);
                lemma_set_push(texts(before), slug@);
                assert(texts(self.parked@).to_set() =~= texts(before).to_set().insert(slug@));
                assert(first.union(targets.take(i + 1).to_set()) =~= texts(
                    before,
                ).to_set().insert(slug@));
            }
            i += 1;
        }
        assert(targets.take(i as int) =~= targets);
    }
}

proof fn lemma_set_push(list: Seq<Seq<char>>, text: Seq<char>)
    ensures
        list.push(text).to_set() == list.to_set().insert(text),
{
    let pushed = list.push(text);
    assert forall|t: Seq<char>| pushed.to_set().contains(t) == list.to_set().insert(
        text,
    ).contains(t) by {
        if list.contains(t) {
            let i = choose|i: int| 0 <= i < list.len() && list[i] == t;
            assert(pushed[i] == t);
        }
        assert(pushed[list.len() as int] == text);
    }
    assert(pushed.to_set() =~= list.to_set().insert(text));
}

// ---------------------------------------------------------------------------
// The poll of live shares
// ---------------------------------------------------------------------------

/// Where a poll stands in its cycle.
#[derive(Debug)]
pub enum PollPhase {
    /// About to ask whether the host supports shares, for these targets.
    Probing(Vec<String>),
    /// Asking for the shares of the targets one by one, at this place.
    Querying(Vec<String>, usize),
    /// Handing a finished cycle over: whether the host was found not to support
    /// shares, and the targets whose answers are to be applied.
    Applying(bool, Vec<String>),
    /// Telling the view that a finished cycle has changed what is shown.
    Notifying,
    /// Nothing to poll until the view wakes the poll.
    Waiting,
    /// Between two cycles.
    Pausing,
    /// At its end.
    Stopped,
}

/// A [`PollPhase`] over mathematical text.
pub enum Phase {
    Probing(Seq<Seq<char>>),
    Querying(Seq<Seq<char>>, nat),
    Applying(bool, Seq<Seq<char>>),
    Notifying,
    Waiting,
    Pausing,
    Stopped,
}

impl View for PollPhase {
    type V = Phase;

    open spec fn view(&self) -> Phase {
        match *self {
            PollPhase::Probing(targets) => Phase::Probing(texts(targets@)),
            PollPhase::Querying(targets, at) => Phase::Querying(texts(targets@), at as nat),
            PollPhase::Applying(downgraded, slugs) => Phase::Applying(downgraded, texts(slugs@)),
            PollPhase::Notifying => Phase::Notifying,
            PollPhase::Waiting => Phase::Waiting,
            PollPhase::Pausing => Phase::Pausing,
            PollPhase::Stopped => Phase::Stopped,
        }
    }
}

/// What a poll does next.
#[derive(Debug, PartialEq, Eq)]
pub enum PollAction {
    /// Ask whether the host supports shares.
    Probe,
    /// Ask for the shares of this target, keep the answer, and then ask whether
    /// the host still supports shares.
    Query(String),
    /// Forget all snapshots.
    Clear,
    /// Apply the answers for these targets in order, and forget all answers.
    Apply(Vec<String>),
    /// Tell the view that what is shown has changed.
    Notify,
    /// Wait until woken.
    WaitForWake,
    /// Wait until woken or until the interval is over.
    Pause,
    /// Nothing any more.
    Stop,
}

/// A [`PollAction`] over mathematical text.
pub enum Action {
    Probe,
    Query(Seq<char>),
    Clear,
    Apply(Seq<Seq<char>>),
    Notify,
    WaitForWake,
    Pause,
    Stop,
}

impl View for PollAction {
    type V = Action;

    open spec fn view(&self) -> Action {
        match *self {
            PollAction::Probe => Action::Probe,
            PollAction::Query(slug) => Action::Query(slug@),
            PollAction::Clear => Action::Clear,
            PollAction::Apply(slugs) => Action::Apply(texts(slugs@)),
            PollAction::Notify => Action::Notify,
            PollAction::WaitForWake => Action::WaitForWake,
            PollAction::Pause => Action::Pause,
            PollAction::Stop => Action::Stop,
        }
    }
}

/// What has come of an action.
#[derive(Debug, Clone, Copy, PartialEq, Eq, Structural)]
pub enum PollEvent {
    /// Whether the host supports shares, before the first query of a cycle or
    /// after a query.
    Supported(bool),
    /// Whether the view was still there for an outcome, and whether the outcome
    /// has changed what is shown.
    Applied { present: bool, changed: bool },
    /// The view was told.
    Notified,
    /// The view woke the poll.
    Woken,
    /// The interval is over.
    Elapsed,
    /// Nobody can wake the poll any more.
    Closed,
}

/// A poll over mathematical values.
pub struct Poll {
    pub state: PollState,
    pub phase: Phase,
}

/// A poll at the start of a cycle.
pub open spec fn cycle_start(state: PollState, control: Control) -> Poll {
    let state = synced(state, control);
    Poll {
        state,
        phase: if pollable(state).len() == 0 {
            Phase::Waiting
        } else {
            Phase::Probing(pollable(state))
        },
    }
}

/// A poll at the end of a cycle that has answers for these targets. A target
/// update may have arrived meanwhile: only answers for the latest targets stay.
pub open spec fn cycle_end(
    state: PollState,
    control: Control,
    downgraded: bool,
    answered: Seq<Seq<char>>,
) -> Poll {
    let state = synced(state, control);
    Poll {
        state: if downgraded {
            all_parked(state)
        } else {
            state
        },
        phase: Phase::Applying(
            downgraded,
            answered.filter(|slug: Seq<char>| state.targets.contains(slug)),
        ),
    }
}

/// Where a poll rests between two cycles.
pub open spec fn rest_phase(state: PollState) -> Phase {
    if pollable(state).len() == 0 {
        Phase::Waiting
    } else {
        Phase::Pausing
    }
}

/// Where an event takes a poll. An event that the phase does not wait for
/// changes nothing.
pub open spec fn advanced(poll: Poll, control: Control, event: PollEvent) -> Poll {
    match (poll.phase, event) {
        (Phase::Probing(targets), PollEvent::Supported(supported)) => if supported {
            Poll { phase: Phase::Querying(targets, 0), ..poll }
        } else {
            cycle_end(poll.state, control, true, seq![])
        },
        (Phase::Querying(targets, at), PollEvent::Supported(supported)) => if !supported {
            cycle_end(poll.state, control, true, targets.take(at as int))
        } else if at + 1 < targets.len() {
            Poll { phase: Phase::Querying(targets, at + 1), ..poll }
        } else {
            cycle_end(poll.state, control, false, targets)
        },
        (Phase::Applying(_, _), PollEvent::Applied { present, changed }) => Poll {
            phase: if !present {
                Phase::Stopped
            } else if changed {
                Phase::Notifying
            } else {
                rest_phase(poll.state)
            },
            ..poll
        },
        (Phase::Notifying, PollEvent::Notified) => Poll { phase: rest_phase(poll.state), ..poll },
        (Phase::Waiting, PollEvent::Woken) => cycle_start(poll.state, control),
        (Phase::Waiting, PollEvent::Closed) => Poll { phase: Phase::Stopped, ..poll },
        (Phase::Pausing, PollEvent::Woken) => cycle_start(poll.state, control),
        (Phase::Pausing, PollEvent::Elapsed) => cycle_start(poll.state, control),
        (Phase::Pausing, PollEvent::Closed) => Poll { phase: Phase::Stopped, ..poll },
        _ => poll,
    }
}

/// What a poll does in a phase.
pub open spec fn action_in(phase: Phase) -> Action {
    match phase {
        Phase::Probing(_) => Action::Probe,
        Phase::Querying(targets, at) => Action::Query(targets[at as int]),
        Phase::Applying(downgraded, slugs) => if downgraded {
            Action::Clear
        } else {
            Action::Apply(slugs)
        },
        Phase::Notifying => Action::Notify,
        Phase::Waiting => Action::WaitForWake,
        Phase::Pausing => Action::Pause,
        Phase::Stopped => Action::Stop,
    }
}

/// Whether a poll is in a phase that a cycle reaches.
pub open spec fn well_formed_poll(poll: Poll) -> bool {
    match poll.phase {
        Phase::Probing(targets) => targets.len() > 0,
        Phase::Querying(targets, at) => at < targets.len(),
        _ => true,
    }
}

/// Poll each target sequentially while the owning view lives. Whole cycles are
/// serialized, and each hands its outcome over once.
#[derive(Debug)]
pub struct SharedSessionPoll {
    state: SharedSessionPollState,
    phase: PollPhase,
}

impl View for SharedSessionPoll {
    type V = Poll;

    closed spec fn view(&self) -> Poll {
        Poll { state: self.state@, phase: self.phase@ }
    }
}

fn keep_targets(state: &SharedSessionPollState, answered: &Vec<String>, count: usize) -> (kept: Vec<
    String,
>)
    requires
        count <= answered@.len(),
    ensures
        texts(kept@) == texts(answered@).take(count as int).filter(
            |slug: Seq<char>| state@.targets.contains(slug),
        ),
{
    let ghost all = texts(answered@);
    let ghost wanted = |slug: Seq<char>| state@.targets.contains(slug);
    let mut kept: Vec<String> = Vec::new();
    let mut i: usize = 0;
    proof {
        reveal(Seq::filter);
        assert(all.take(0) =~= seq![]);
        assert(texts(kept@) =~= all.take(0).filter(wanted));
    }
    while i < count
        invariant
            i <= count <= answered@.len(),
            all == texts(answered@),
            wanted == (|slug: Seq<char>| state@.targets.contains(slug)),
            texts(kept@) == all.take(i as int).filter(wanted),
        decreases count - i,
    {
        proof {
            reveal(Seq::filter);
            assert(all.take(i + 1).drop_last() =~= all.take(i as int));
            assert(all.take(i + 1).last() == answered@[i as int]@);
        }
        if state.contains_target(answered[i].as_str()) {
            let ghost before = kept@;
            kept.push(answered[i].clone());
            assert(texts(kept@) =~= texts(before).push(answered@[i as int]@));
        }
        i += 1;
    }
    kept
}

fn rest(state: &SharedSessionPollState) -> (phase: PollPhase)
    ensures
        phase@ == rest_phase(state@),
{
    let open = state.pollable_targets();
    assert(texts(open@).len() == open@.len());
    if open.len() == 0 {
        PollPhase::Waiting
    } else {
        PollPhase::Pausing
    }
}

/// Whether any of the applications of a cycle has changed what is shown.
pub fn any_changed(changes: &Vec<bool>) -> (changed: bool)
    ensures
        changed == changes@.contains(true),
{
    let mut i: usize = 0;
    while i < changes.len()
        invariant
            i <= changes@.len(),
            forall|j: int| 0 <= j < i ==> !(#[trigger] changes@[j]),
        decreases changes@.len() - i,
    {
        if changes[i] {
            assert(changes@[i as int]);
            return true;
        }
        i += 1;
    }
    false
}

fn begin_cycle(state: &mut SharedSessionPollState, control: &SharedSessionPollControl) -> (phase:
    PollPhase)
    ensures
        cycle_start(old(state)@, control@) == (Poll { state: final(state)@, phase: phase@ }),
        well_formed_poll(Poll { state: final(state)@, phase: phase@ }),
{
    state.sync(control);
    let targets = state.pollable_targets();
    assert(texts(targets@).len() == targets@.len());
    if targets.len() == 0 {
        PollPhase::Waiting
    } else {
        PollPhase::Probing(targets)
    }
}

fn end_cycle(
    state: &mut SharedSessionPollState,
    control: &SharedSessionPollControl,
    downgraded: bool,
    answered: &Vec<String>,
    count: usize,
) -> (phase: PollPhase)
    requires
        count <= answered@.len(),
    ensures
        cycle_end(
            old(state)@,
            control@,
            downgraded,
            texts(answered@).take(count as int),
        ) == (Poll { state: final(state)@, phase: phase@ }),
{
    state.sync(control);
    let kept = keep_targets(state, answered, count);
    if downgraded {
        state.park_all();
    }
    PollPhase::Applying(downgraded, kept)
}

impl SharedSessionPoll {
    #[verifier::type_invariant]
    spec fn well_formed(self) -> bool {
        well_formed_poll(Poll { state: self.state@, phase: self.phase@ })
    }

    /// A poll at the start of its first cycle.
    pub fn new(control: &SharedSessionPollControl) -> (poll: Self)
        ensures
            poll@ == cycle_start(fresh_state(control@), control@),
    {
        let mut state = SharedSessionPollState::new(control);
        let phase = begin_cycle(&mut state, control);
        SharedSessionPoll { state, phase }
    }

    /// What the poll does next.
    pub fn action(&self) -> (action: PollAction)
        ensures
            action@ == action_in(self@.phase),
            well_formed_poll(self@),
    {
        proof {
            use_type_invariant(self);
        }
        match &self.phase {
            PollPhase::Probing(_) => PollAction::Probe,
            PollPhase::Querying(targets, at) => {
                assert(texts(targets@)[*at as int] == targets@[*at as int]@);
                PollAction::Query(targets[*at].clone())
            },
            PollPhase::Applying(downgraded, slugs) => {
                if *downgraded {
                    PollAction::Clear
                } else {
                    PollAction::Apply(copy_texts(slugs))
                }
            },
            PollPhase::Notifying => PollAction::Notify,
            PollPhase::Waiting => PollAction::WaitForWake,
            PollPhase::Pausing => PollAction::Pause,
            PollPhase::Stopped => PollAction::Stop,
        }
    }

    /// The poll after an event.
    pub fn advance(self, control: &SharedSessionPollControl, event: PollEvent) -> (next: Self)
        ensures
            next@ == advanced(self@, control@, event),
    {
        proof {
            use_type_invariant(&self);
        }
        let mut state = self.state;
        let phase = self.phase;
        let next = match (phase, event) {
            (PollPhase::Probing(targets), PollEvent::Supported(supported)) => {
                if supported {
                    PollPhase::Querying(targets, 0)
                } else {
                    assert(texts(targets@).take(0) =~= seq![]);
                    end_cycle(&mut state, control, true, &targets, 0)
                }
            },
            (PollPhase::Querying(targets, at), PollEvent::Supported(supported)) => {
                let count: usize = targets.len();
                assert(texts(targets@).len() == count);
                if !supported {
                    end_cycle(&mut state, control, true, &targets, at)
                } else if at + 1 < count {
                    PollPhase::Querying(targets, at + 1)
                } else {
                    assert(texts(targets@).take(count as int) =~= texts(targets@));
                    end_cycle(&mut state, control, false, &targets, count)
                }
            },
            (PollPhase::Applying(_, _), PollEvent::Applied { present, changed }) => {
                if !present {
                    PollPhase::Stopped
                } else if changed {
                    PollPhase::Notifying
                } else {
                    rest(&state)
                }
            },
            (PollPhase::Notifying, PollEvent::Notified) => rest(&state),
            (PollPhase::Waiting, PollEvent::Woken) => begin_cycle(&mut state, control),
            (PollPhase::Waiting, PollEvent::Closed) => PollPhase::Stopped,
            (PollPhase::Pausing, PollEvent::Woken) => begin_cycle(&mut state, control),
            (PollPhase::Pausing, PollEvent::Elapsed) => begin_cycle(&mut state, control),
            (PollPhase::Pausing, PollEvent::Closed) => PollPhase::Stopped,
            (phase, _) => phase,
        };
        SharedSessionPoll { state, phase: next }
    }
}

// ---------------------------------------------------------------------------
// The poll of custom tmux sessions
// ---------------------------------------------------------------------------

/// What a listing of custom tmux sessions has changed: whether the rows are to
/// be built again, and an error that has not been logged yet.
#[derive(Debug, PartialEq, Eq)]
pub struct TmuxPollApply {
    pub rows_changed: bool,
    pub error_to_log: Option<String>,
}

/// The sessions that a listing leaves.
pub open spec fn sessions_after(
    sessions: Seq<TmuxSession>,
    supported: bool,
    result: Result<TmuxSessionListResult, String>,
) -> Seq<TmuxSession> {
    if !supported {
        seq![]
    } else {
        match result {
            Ok(list) => if list.available {
                tmux_view(list.sessions@)
            } else {
                seq![]
            },
            Err(_) => sessions,
        }
    }
}

/// The error of an unchanged stretch of failures that a listing leaves.
pub open spec fn stretch_after(
    supported: bool,
    result: Result<TmuxSessionListResult, String>,
) -> Option<Seq<char>> {
    match result {
        Err(error) => if supported {
            Some(error@)
        } else {
            None
        },
        Ok(_) => None,
    }
}

/// The error that a listing gives to log: a failure that is not the one of the
/// stretch before.
pub open spec fn error_after(
    stretch: Option<Seq<char>>,
    supported: bool,
    result: Result<TmuxSessionListResult, String>,
) -> Option<Seq<char>> {
    let error = stretch_after(supported, result);
    if error == stretch {
        None
    } else {
        error
    }
}

/// Apply a listing to the sessions shown. A transport error keeps the last
/// listing, and is given to log once in an unchanged stretch.
pub fn apply_tmux_poll_result(
    sessions: &mut Vec<TmuxSessionSummary>,
    error_stretch: &mut Option<String>,
    supported: bool,
    result: Result<TmuxSessionListResult, String>,
) -> (apply: TmuxPollApply)
    ensures
        tmux_view(final(sessions)@) == sessions_after(tmux_view(old(sessions)@), supported, result),
        optional_text(*final(error_stretch)) == stretch_after(supported, result),
        apply.rows_changed == (tmux_view(final(sessions)@) != tmux_view(old(sessions)@)),
        optional_text(apply.error_to_log) == error_after(
            optional_text(*old(error_stretch)),
            supported,
            result,
        ),
{
    if !supported {
        let rows_changed = sessions.len() > 0;
        assert(tmux_view(sessions@).len() == sessions@.len());
        sessions.clear();
        assert(tmux_view(sessions@) =~= seq![]);
        assert(!rows_changed ==> tmux_view(old(sessions)@) =~= seq![]);
        *error_stretch = None;
        return TmuxPollApply { rows_changed, error_to_log: None };
    }
    match result {
        Ok(list) => {
            let next_sessions: Vec<TmuxSessionSummary> = if list.available {
                list.sessions
            } else {
                Vec::new()
            };
            assert(!list.available ==> tmux_view(next_sessions@) =~= seq![]);
            let rows_changed = !same_tmux_sessions(sessions, &next_sessions);
            *sessions = next_sessions;
            *error_stretch = None;
            TmuxPollApply { rows_changed, error_to_log: None }
        },
        Err(error) => {
            let known = match &*error_stretch {
                Some(stretch) => same_text(stretch.as_str(), error.as_str()),
                None => false,
            };
            let error_to_log = if known {
                None
            } else {
                Some(error.clone())
            };
            *error_stretch = Some(error);
            TmuxPollApply { rows_changed: false, error_to_log }
        },
    }
}

/// The reply that a listing of custom tmux sessions is applied with: the host's,
/// and an empty error where the host was not asked.
pub fn tmux_listing_reply(asked: Option<Result<TmuxSessionListResult, String>>) -> (reply: Result<
    TmuxSessionListResult,
    String,
>)
    ensures
        match asked {
            Some(result) => reply == result,
            None => reply matches Err(error) && error@.len() == 0,
        },
{
    match asked {
        Some(result) => result,
        None => Err(String::new()),
    }
}

/// Where the poll of custom tmux sessions stands.
#[derive(Debug, Clone, Copy, PartialEq, Eq, Structural)]
pub enum TmuxPoll {
    /// Asking whether the host supports custom sessions.
    Probing,
    /// Asking for the listing, and then again whether the host supports it.
    Listing,
    /// Passing the listing over, and asking again whether the host supports it.
    Skipping,
    /// Handing the listing over; without support nothing follows it.
    Applying { supported: bool },
    /// Between two listings.
    Pausing,
    /// At its end.
    Stopped,
}

/// Where an event takes the poll of custom tmux sessions. A host without
/// support is not asked for a listing; an empty error stands for its reply.
pub open spec fn tmux_advanced(poll: TmuxPoll, event: PollEvent) -> TmuxPoll {
    match (poll, event) {
        (TmuxPoll::Probing, PollEvent::Supported(supported)) => if supported {
            TmuxPoll::Listing
        } else {
            TmuxPoll::Skipping
        },
        (TmuxPoll::Listing, PollEvent::Supported(supported)) => TmuxPoll::Applying { supported },
        (TmuxPoll::Skipping, PollEvent::Supported(supported)) => TmuxPoll::Applying { supported },
        (TmuxPoll::Applying { supported }, PollEvent::Applied { present, .. }) => if present
            && supported {
            TmuxPoll::Pausing
        } else {
            TmuxPoll::Stopped
        },
        (TmuxPoll::Pausing, PollEvent::Elapsed) => TmuxPoll::Probing,
        (TmuxPoll::Pausing, PollEvent::Woken) => TmuxPoll::Probing,
        (TmuxPoll::Pausing, PollEvent::Closed) => TmuxPoll::Stopped,
        _ => poll,
    }
}

impl TmuxPoll {
    /// The poll after an event.
    pub fn advance(self, event: PollEvent) -> (next: TmuxPoll)
        ensures
            next == tmux_advanced(self, event),
    {
        match (self, event) {
            (TmuxPoll::Probing, PollEvent::Supported(supported)) => {
                if supported {
                    TmuxPoll::Listing
                } else {
                    TmuxPoll::Skipping
                }
            },
            (TmuxPoll::Listing, PollEvent::Supported(supported)) => TmuxPoll::Applying {
                supported,
            },
            (TmuxPoll::Skipping, PollEvent::Supported(supported)) => TmuxPoll::Applying {
                supported,
            },
            (TmuxPoll::Applying { supported }, PollEvent::Applied { present, .. }) => {
                if present && supported {
                    TmuxPoll::Pausing
                } else {
                    TmuxPoll::Stopped
                }
            },
            (TmuxPoll::Pausing, PollEvent::Elapsed) => TmuxPoll::Probing,
            (TmuxPoll::Pausing, PollEvent::Woken) => TmuxPoll::Probing,
            (TmuxPoll::Pausing, PollEvent::Closed) => TmuxPoll::Stopped,
            (poll, _) => poll,
        }
    }
}

// ---------------------------------------------------------------------------
// Laws
// ---------------------------------------------------------------------------

/// Targets are distinct, and no slug that was given is left out.
pub proof fn lemma_distinct(slugs: Seq<Seq<char>>)
    ensures
        distinct(slugs).no_duplicates(),
        forall|slug: Seq<char>| #[trigger] distinct(slugs).contains(slug) <==> slugs.contains(slug),
    decreases slugs.len(),
{
    if slugs.len() > 0 {
        let head = slugs.drop_last();
        let before = distinct(head);
        let after = distinct(slugs);
        lemma_distinct(head);
        assert(slugs[slugs.len() - 1] == slugs.last());
        assert forall|slug: Seq<char>| #[trigger] after.contains(slug) <==> slugs.contains(
            slug,
        ) by {
            if slugs.contains(slug) {
                let i = choose|i: int| 0 <= i < slugs.len() && slugs[i] == slug;
                if i < head.len() {
                    assert(head[i] == slug);
                    assert(before.contains(slug));
                }
                if before.contains(slug) {
                    let k = choose|k: int| 0 <= k < before.len() && before[k] == slug;
                    assert(after[k] == slug);
                } else {
                    assert(slug == slugs.last());
                    assert(after[before.len() as int] == slug);
                }
            }
            if after.contains(slug) {
                let k = choose|k: int| 0 <= k < after.len() && after[k] == slug;
                if k < before.len() {
                    assert(before[k] == slug);
                    assert(before.contains(slug));
                    let i = choose|i: int| 0 <= i < head.len() && head[i] == slug;
                    assert(slugs[i] == slug);
                }
            }
        }
        assert forall|i: int, j: int| 0 <= i < j < after.len() implies after[i] != after[j] by {
            if j == before.len() && !before.contains(slugs.last()) {
                assert(before.contains(after[i]));
            }
        }
    }
}

/// A list without repetitions is its own list of distinct slugs.
pub proof fn lemma_distinct_again(slugs: Seq<Seq<char>>)
    requires
        slugs.no_duplicates(),
    ensures
        distinct(slugs) == slugs,
    decreases slugs.len(),
{
    if slugs.len() > 0 {
        let head = slugs.drop_last();
        assert(head.no_duplicates());
        lemma_distinct_again(head);
        if head.contains(slugs.last()) {
            let i = choose|i: int| 0 <= i < head.len() && head[i] == slugs.last();
            assert(slugs[i] == slugs[slugs.len() - 1]);
        }
        assert(head.push(slugs.last()) =~= slugs);
    } else {
        assert(slugs =~= seq![]);
    }
}

proof fn lemma_filter_all<T>(list: Seq<T>, keep: spec_fn(T) -> bool)
    ensures
        (forall|i: int| 0 <= i < list.len() ==> keep(#[trigger] list[i])) ==> list.filter(keep)
            == list,
        (forall|i: int| 0 <= i < list.len() ==> !keep(#[trigger] list[i])) ==> list.filter(
            keep,
        ).len() == 0,
        forall|i: int|
            0 <= i < list.filter(keep).len() ==> keep(#[trigger] list.filter(keep)[i])
                && list.contains(list.filter(keep)[i]),
    decreases list.len(),
{
    reveal(Seq::filter);
    if list.len() > 0 {
        let head = list.drop_last();
        lemma_filter_all(head, keep);
        assert(head.push(list.last()) =~= list);
        assert(forall|i: int| 0 <= i < head.len() ==> head[i] == #[trigger] list[i]);
        if forall|i: int| 0 <= i < list.len() ==> keep(#[trigger] list[i]) {
            assert(forall|i: int| 0 <= i < head.len() ==> keep(#[trigger] head[i]));
            assert(keep(list[list.len() - 1]));
        }
        if forall|i: int| 0 <= i < list.len() ==> !keep(#[trigger] list[i]) {
            assert(forall|i: int| 0 <= i < head.len() ==> !keep(#[trigger] head[i]));
            assert(!keep(list[list.len() - 1]));
        }
        assert forall|i: int| 0 <= i < list.filter(keep).len() implies keep(
            #[trigger] list.filter(keep)[i],
        ) && list.contains(list.filter(keep)[i]) by {
            if i < head.filter(keep).len() {
                let x = head.filter(keep)[i];
                assert(head.contains(x));
                let k = choose|k: int| 0 <= k < head.len() && head[k] == x;
                assert(list[k] == x);
            } else {
                assert(list[list.len() - 1] == list.last());
            }
        }
    } else {
        assert(list.filter(keep) =~= list);
    }
}

/// Parking leaves nothing to poll, and a further look at a control that has not
/// changed keeps it so.
pub proof fn lemma_parked_targets_stay_parked(state: PollState, control: Control)
    requires
        state.target_revision == control.target_revision,
        state.refresh_revision == control.refresh_revision,
    ensures
        pollable(all_parked(state)).len() == 0,
        pollable(synced(all_parked(state), control)).len() == 0,
{
    let parked = all_parked(state);
    let open = |slug: Seq<char>| !parked.parked.contains(slug);
    assert forall|i: int| 0 <= i < parked.targets.len() implies !open(
        #[trigger] parked.targets[i],
    ) by {
        assert(parked.targets.to_set().contains(parked.targets[i]));
    }
    lemma_filter_all(parked.targets, open);
    assert(synced(parked, control).parked =~= parked.parked);
}

/// A refresh or a change of targets leaves nothing parked: all targets are
/// polled again.
pub proof fn lemma_refresh_or_change_unparks(state: PollState, control: Control)
    requires
        state.target_revision != control.target_revision || state.refresh_revision
            != control.refresh_revision,
    ensures
        pollable(synced(state, control)) == synced(state, control).targets,
        state.target_revision != control.target_revision ==> synced(state, control).targets
            == control.targets,
{
    let after = synced(state, control);
    lemma_filter_all(after.targets, |slug: Seq<char>| !after.parked.contains(slug));
}

/// Each request shows in its revision: the one after it is not the one before.
pub proof fn lemma_requests_show(revision: u64)
    ensures
        next_revision(revision) != revision,
{
}

/// A cycle hands over answers for the latest targets only, for which it has
/// asked.
pub proof fn lemma_applied_answers_are_wanted(
    state: PollState,
    control: Control,
    downgraded: bool,
    answered: Seq<Seq<char>>,
    i: int,
)
    requires
        cycle_end(state, control, downgraded, answered).phase is Applying,
        0 <= i < cycle_end(state, control, downgraded, answered).phase->Applying_1.len(),
    ensures
        ({
            let poll = cycle_end(state, control, downgraded, answered);
            let slug = poll.phase->Applying_1[i];
            &&& poll.state.targets.contains(slug)
            &&& answered.contains(slug)
            &&& state.target_revision != control.target_revision ==> control.targets.contains(slug)
        }),
{
    let after = synced(state, control);
    lemma_filter_all(answered, |slug: Seq<char>| after.targets.contains(slug));
}

/// A host that is found not to support shares has all snapshots cleared and is
/// left alone until the view asks again.
pub proof fn lemma_downgrade_clears_and_waits(poll: Poll, control: Control)
    requires
        poll.phase is Probing || poll.phase is Querying,
    ensures
        ({
            let ended = advanced(poll, control, PollEvent::Supported(false));
            &&& action_in(ended.phase) == Action::Clear
            &&& ended.phase is Applying
            &&& advanced(
                ended,
                control,
                PollEvent::Applied { present: true, changed: false },
            ).phase is Waiting
            &&& advanced(
                advanced(ended, control, PollEvent::Applied { present: true, changed: true }),
                control,
                PollEvent::Notified,
            ).phase is Waiting
        }),
{
    let after = synced(poll.state, control);
    lemma_parked_targets_stay_parked(after, control);
}

/// A cycle asks for its targets one by one and in order, and hands them over
/// only after the last.
pub proof fn lemma_queries_go_in_order(poll: Poll, control: Control)
    requires
        well_formed_poll(poll),
        poll.phase is Querying,
    ensures
        ({
            let targets = poll.phase->Querying_0;
            let at = poll.phase->Querying_1;
            let next = advanced(poll, control, PollEvent::Supported(true));
            &&& action_in(poll.phase) == Action::Query(targets[at as int])
            &&& if at + 1 < targets.len() {
                next.phase == Phase::Querying(targets, at + 1)
            } else {
                next == cycle_end(poll.state, control, false, targets)
            }
        }),
{
}

/// Every event keeps a poll in a phase that a cycle reaches.
pub proof fn lemma_poll_stays_well_formed(poll: Poll, control: Control, event: PollEvent)
    requires
        well_formed_poll(poll),
    ensures
        well_formed_poll(advanced(poll, control, event)),
{
}

/// The view is told after a cycle exactly where it is there and the cycle has
/// changed what is shown, and at no other time.
pub proof fn lemma_view_is_told_of_changes_only(poll: Poll, control: Control, event: PollEvent)
    ensures
        poll.phase is Applying ==> (advanced(poll, control, event).phase is Notifying <==> event
            == (PollEvent::Applied { present: true, changed: true })),
        !(poll.phase is Applying) && !(poll.phase is Notifying) ==> !(advanced(
            poll,
            control,
            event,
        ).phase is Notifying),
        action_in(poll.phase) == Action::Notify <==> poll.phase is Notifying,
{
}

/// Whether a poll rests between two cycles.
pub open spec fn resting(poll: Poll) -> bool {
    poll.phase is Waiting || poll.phase is Pausing
}

/// Whether these are the polls that events lead through, one after the other.
pub open spec fn course(
    polls: Seq<Poll>,
    controls: Seq<Control>,
    events: Seq<PollEvent>,
) -> bool {
    &&& polls.len() == events.len() + 1
    &&& controls.len() == events.len()
    &&& forall|i: int|
        0 <= i < events.len() ==> #[trigger] polls[i + 1] == advanced(
            polls[i],
            controls[i],
            events[i],
        )
}

/// A cycle tells the view once at most: two places at which the view is being
/// told, without a rest between them, are one and the same telling.
pub proof fn lemma_view_is_told_once_in_a_cycle(
    polls: Seq<Poll>,
    controls: Seq<Control>,
    events: Seq<PollEvent>,
    i: int,
    j: int,
    k: int,
)
    requires
        course(polls, controls, events),
        0 <= i <= k <= j < polls.len(),
        polls[i].phase is Notifying,
        polls[j].phase is Notifying,
        forall|m: int| i < m < j ==> !resting(#[trigger] polls[m]),
    ensures
        polls[k].phase is Notifying,
    decreases k - i,
{
    if i < k < j {
        lemma_view_is_told_once_in_a_cycle(polls, controls, events, i, j, k - 1);
        assert(polls[(k - 1) + 1] == advanced(polls[k - 1], controls[k - 1], events[k - 1]));
        assert(!resting(polls[k]));
    }
}

/// A poll that has stopped stays stopped.
pub proof fn lemma_stopped_poll_stays_stopped(poll: Poll, control: Control, event: PollEvent)
    requires
        poll.phase is Stopped,
    ensures
        advanced(poll, control, event) == poll,
        action_in(poll.phase) == Action::Stop,
{
}

/// A transport error changes no rows, and a second one in the same words is not
/// logged again.
pub proof fn lemma_unchanged_errors_are_logged_once(
    sessions: Seq<TmuxSession>,
    stretch: Option<Seq<char>>,
    error: String,
)
    ensures
        sessions_after(sessions, true, Err(error)) == sessions,
        stretch != Some(error@) ==> error_after(stretch, true, Err(error)) == Some(error@),
        error_after(stretch_after(true, Err(error)), true, Err(error)) is None,
{
}

/// A listing ends a stretch of errors: the same error is logged again after it.
pub proof fn lemma_success_ends_error_stretch(list: TmuxSessionListResult, error: String)
    ensures
        stretch_after(true, Ok(list)) is None,
        error_after(stretch_after(true, Ok(list)), true, Err(error)) == Some(error@),
{
}

/// Without support there are no custom sessions and nothing to log, whatever
/// came back.
pub proof fn lemma_downgrade_empties_custom_sessions(
    sessions: Seq<TmuxSession>,
    stretch: Option<Seq<char>>,
    result: Result<TmuxSessionListResult, String>,
)
    ensures
        sessions_after(sessions, false, result).len() == 0,
        stretch_after(false, result) is None,
        error_after(stretch, false, result) is None,
{
}

/// The poll of custom sessions asks for a listing only of a host that has said
/// that it supports them, and ends with the first outcome without support.
pub proof fn lemma_tmux_poll_ends_without_support(event: PollEvent)
    ensures
        tmux_advanced(TmuxPoll::Probing, PollEvent::Supported(false)) == TmuxPoll::Skipping,
        event is Applied ==> tmux_advanced(TmuxPoll::Applying { supported: false }, event)
            == TmuxPoll::Stopped,
        tmux_advanced(TmuxPoll::Stopped, event) == TmuxPoll::Stopped,
{
}

/// A poll of custom sessions begins a new cycle both when it is woken and when
/// its interval has passed, asks for a listing exactly where the host supports
/// it, and hands the outcome over with the host's second answer.
pub proof fn lemma_tmux_poll_goes_round(supported: bool, changed: bool)
    ensures
        tmux_advanced(TmuxPoll::Pausing, PollEvent::Elapsed) == TmuxPoll::Probing,
        tmux_advanced(TmuxPoll::Pausing, PollEvent::Woken) == TmuxPoll::Probing,
        tmux_advanced(TmuxPoll::Probing, PollEvent::Supported(supported)) is Listing <==> supported,
        tmux_advanced(TmuxPoll::Probing, PollEvent::Supported(supported)) is Skipping
            <==> !supported,
        tmux_advanced(TmuxPoll::Listing, PollEvent::Supported(supported)) == (TmuxPoll::Applying {
            supported,
        }),
        tmux_advanced(TmuxPoll::Skipping, PollEvent::Supported(supported)) == (TmuxPoll::Applying {
            supported,
        }),
        tmux_advanced(
            TmuxPoll::Applying { supported: true },
            PollEvent::Applied { present: true, changed },
        ) == TmuxPoll::Pausing,
{
}

/// A poll of custom sessions stops only when its wake channel is closed, its
/// view is gone, or the host has no support, and it does stop then.
pub proof fn lemma_tmux_poll_stops(poll: TmuxPoll, event: PollEvent)
    ensures
        tmux_advanced(poll, event) is Stopped <==> {
            ||| poll is Stopped
            ||| poll is Pausing && event is Closed
            ||| poll is Applying && event is Applied && !(event->present && poll->supported)
        },
{
}

/// A poll of custom sessions changes only on what it waits for: an answer of
/// the host, the outcome having been handed over, or the end of its rest.
pub proof fn lemma_tmux_poll_waits(poll: TmuxPoll, event: PollEvent)
    ensures
        tmux_advanced(poll, event) != poll ==> {
            ||| event is Supported && (poll is Probing || poll is Listing || poll is Skipping)
            ||| event is Applied && poll is Applying
            ||| (event is Elapsed || event is Woken || event is Closed) && poll is Pausing
        },
{
}

/// Each revision is one more than the one before, and the last is followed by
/// zero.
pub proof fn lemma_revisions_count_up(revision: u64)
    ensures
        revision < u64::MAX ==> next_revision(revision) == revision + 1,
        revision == u64::MAX ==> next_revision(revision) == 0,
{
}

/// Distinct slugs stand in the order in which they first occur.
pub proof fn lemma_distinct_keeps_first_order(slugs: Seq<Seq<char>>, i: int, j: int, k: int)
    requires
        0 <= i < j < distinct(slugs).len(),
        0 <= k < slugs.len(),
        slugs[k] == distinct(slugs)[j],
    ensures
        exists|m: int| 0 <= m < k && #[trigger] slugs[m] == distinct(slugs)[i],
    decreases slugs.len(),
{
    let head = slugs.drop_last();
    let before = distinct(head);
    lemma_distinct(head);
    if j < before.len() {
        if k < head.len() {
            lemma_distinct_keeps_first_order(head, i, j, k);
            let m = choose|m: int| 0 <= m < k && #[trigger] head[m] == before[i];
            assert(slugs[m] == before[i]);
        } else {
            assert(before.contains(before[i]));
            let m = choose|m: int| 0 <= m < head.len() && head[m] == before[i];
            assert(slugs[m] == before[i]);
        }
    } else {
        assert(before.contains(before[i]));
        let m = choose|m: int| 0 <= m < head.len() && head[m] == before[i];
        assert(slugs[m] == before[i]);
        if k < head.len() {
            assert(head[k] == slugs.last());
            assert(head.contains(slugs.last()));
            assert(before.contains(slugs.last()));
        }
    }
}

proof fn lemma_filter_has<T>(list: Seq<T>, keep: spec_fn(T) -> bool, x: T)
    ensures
        list.filter(keep).contains(x) <==> list.contains(x) && keep(x),
    decreases list.len(),
{
    reveal(Seq::filter);
    if list.len() > 0 {
        let head = list.drop_last();
        lemma_filter_has(head, keep, x);
        if list.contains(x) {
            let k = choose|k: int| 0 <= k < list.len() && list[k] == x;
            if k < head.len() {
                assert(head[k] == x);
            }
            if keep(x) {
                if head.contains(x) {
                    let m = choose|m: int|
                        0 <= m < head.filter(keep).len() && head.filter(keep)[m] == x;
                    assert(list.filter(keep)[m] == x);
                } else {
                    assert(list.filter(keep)[head.filter(keep).len() as int] == x);
                }
            }
        }
        if list.filter(keep).contains(x) {
            let m = choose|m: int| 0 <= m < list.filter(keep).len() && list.filter(keep)[m] == x;
            if m < head.filter(keep).len() {
                assert(head.filter(keep)[m] == x);
                let k = choose|k: int| 0 <= k < head.len() && head[k] == x;
                assert(list[k] == x);
            } else {
                assert(list[list.len() - 1] == x);
            }
        }
    }
}

/// A slug is polled exactly where it is a target that is not parked, and the
/// targets that are polled keep their order.
pub proof fn lemma_pollable_targets(state: PollState, slug: Seq<char>)
    ensures
        pollable(state).contains(slug) <==> state.targets.contains(slug) && !state.parked.contains(
            slug,
        ),
        pollable(state) == state.targets.filter(|target: Seq<char>| !state.parked.contains(target)),
{
    lemma_filter_has(
        state.targets,
        |target: Seq<char>| !state.parked.contains(target),
        slug,
    );
}

/// A poll begins with the targets of its control, and nothing parked. A later
/// look takes over both revisions; the targets stay as they were exactly where
/// the control's have not changed, and what is parked stays so exactly where no
/// refresh was asked for either.
pub proof fn lemma_look_at_control(state: PollState, control: Control, slug: Seq<char>)
    ensures
        fresh_state(control).targets == control.targets,
        !fresh_state(control).parked.contains(slug),
        fresh_state(control).target_revision == control.target_revision,
        fresh_state(control).refresh_revision == control.refresh_revision,
        synced(state, control).target_revision == control.target_revision,
        synced(state, control).refresh_revision == control.refresh_revision,
        state.target_revision == control.target_revision ==> synced(state, control).targets
            == state.targets,
        state.target_revision != control.target_revision ==> synced(state, control).targets
            == control.targets,
        synced(state, control).parked.contains(slug) <==> {
            &&& state.parked.contains(slug)
            &&& state.target_revision == control.target_revision
            &&& state.refresh_revision == control.refresh_revision
        },
{
}

/// Parking adds the targets to what is parked, and changes nothing else.
pub proof fn lemma_parking_adds_targets(state: PollState, slug: Seq<char>)
    ensures
        all_parked(state).parked.contains(slug) <==> state.parked.contains(slug)
            || state.targets.contains(slug),
        all_parked(state).targets == state.targets,
        all_parked(state).target_revision == state.target_revision,
        all_parked(state).refresh_revision == state.refresh_revision,
{
}

/// A poll that rests begins a new cycle when it is woken, and one with targets
/// also when its interval has passed: it looks at its control and asks the host
/// whether it supports shares, or waits where no target is to be polled.
pub proof fn lemma_poll_begins_again(poll: Poll, control: Control, event: PollEvent)
    requires
        poll.phase is Pausing && (event is Elapsed || event is Woken) || poll.phase is Waiting
            && event is Woken,
    ensures
        ({
            let next = advanced(poll, control, event);
            let open = next.state.targets.filter(
                |slug: Seq<char>| !next.state.parked.contains(slug),
            );
            &&& next.state == synced(poll.state, control)
            &&& open.len() > 0 ==> next.phase == Phase::Probing(open)
            &&& open.len() == 0 ==> next.phase is Waiting
        }),
{
}

/// A first cycle begins as every later one does.
pub proof fn lemma_poll_begins(control: Control)
    ensures
        control.targets.len() > 0 ==> cycle_start(fresh_state(control), control).phase
            == Phase::Probing(control.targets),
        control.targets.len() == 0 ==> cycle_start(fresh_state(control), control).phase is Waiting,
        cycle_start(fresh_state(control), control).state.targets == control.targets,
{
    let state = synced(fresh_state(control), control);
    lemma_filter_all(state.targets, |slug: Seq<char>| !state.parked.contains(slug));
}

/// A poll stops exactly when its view is gone as it hands over an outcome, or
/// when its wake channel is closed while it rests.
pub proof fn lemma_poll_stops(poll: Poll, control: Control, event: PollEvent)
    ensures
        advanced(poll, control, event).phase is Stopped <==> {
            ||| poll.phase is Stopped
            ||| poll.phase is Applying && event is Applied && !event->present
            ||| (poll.phase is Waiting || poll.phase is Pausing) && event is Closed
        },
{
}

/// An event that a phase does not wait for changes nothing.
pub proof fn lemma_poll_waits(poll: Poll, control: Control, event: PollEvent)
    ensures
        advanced(poll, control, event) != poll ==> {
            ||| event is Supported && (poll.phase is Probing || poll.phase is Querying)
            ||| event is Applied && poll.phase is Applying
            ||| event is Notified && poll.phase is Notifying
            ||| event is Woken && (poll.phase is Waiting || poll.phase is Pausing)
            ||| event is Elapsed && poll.phase is Pausing
            ||| event is Closed && (poll.phase is Waiting || poll.phase is Pausing)
        },
{
}

/// A supported host is asked for all targets of the cycle, from the first on.
pub proof fn lemma_supported_host_is_queried(poll: Poll, control: Control)
    requires
        poll.phase is Probing,
    ensures
        advanced(poll, control, PollEvent::Supported(true)) == (Poll {
            state: poll.state,
            phase: Phase::Querying(poll.phase->Probing_0, 0),
        }),
        action_in(poll.phase) is Probe,
{
}

/// After the answer for the last target a cycle hands over, in the order of its
/// queries, the answers for exactly those targets that are still wanted.
pub proof fn lemma_answers_are_handed_over(poll: Poll, control: Control, slug: Seq<char>)
    requires
        poll.phase is Querying,
        poll.phase->Querying_1 + 1 == poll.phase->Querying_0.len(),
    ensures
        ({
            let next = advanced(poll, control, PollEvent::Supported(true));
            let wanted = if poll.state.target_revision != control.target_revision {
                control.targets
            } else {
                poll.state.targets
            };
            let slugs = poll.phase->Querying_0.filter(|answered: Seq<char>| wanted.contains(answered));
            &&& next.phase == Phase::Applying(false, slugs)
            &&& action_in(next.phase) == Action::Apply(slugs)
            &&& slugs.contains(slug) <==> poll.phase->Querying_0.contains(slug) && wanted.contains(
                slug,
            )
            &&& next.state == synced(poll.state, control)
        }),
{
    let wanted = synced(poll.state, control).targets;
    lemma_filter_has(
        poll.phase->Querying_0,
        |answered: Seq<char>| wanted.contains(answered),
        slug,
    );
}

/// Whether a cycle has changed what is shown or not, a poll then rests: until
/// the interval has passed where a target is to be polled, else until it is
/// woken. Its state is as the cycle left it.
pub proof fn lemma_poll_rests_after_a_cycle(poll: Poll, control: Control, event: PollEvent)
    requires
        poll.phase is Applying && event == (PollEvent::Applied { present: true, changed: false })
            || poll.phase is Notifying && event is Notified,
    ensures
        ({
            let next = advanced(poll, control, event);
            let open = exists|slug: Seq<char>| #[trigger]
                poll.state.targets.contains(slug) && !poll.state.parked.contains(slug);
            &&& next.state == poll.state
            &&& open ==> next.phase is Pausing && action_in(next.phase) is Pause
            &&& !open ==> next.phase is Waiting && action_in(next.phase) is WaitForWake
        }),
{
    let state = poll.state;
    if pollable(state).len() > 0 {
        lemma_pollable_targets(state, pollable(state)[0]);
        assert(pollable(state).contains(pollable(state)[0]));
    }
    assert forall|slug: Seq<char>| #[trigger]
        state.targets.contains(slug) && !state.parked.contains(slug) implies pollable(
        state,
    ).len() > 0 by {
        lemma_pollable_targets(state, slug);
    }
}

/// With support, a listing that is available is shown as it came, one that is
/// not empties what is shown, and a failure keeps what is shown. A listing is
/// never logged; a failure in other words than the last is.
pub proof fn lemma_custom_listing_is_shown(
    sessions: Seq<TmuxSession>,
    stretch: Option<Seq<char>>,
    list: TmuxSessionListResult,
    error: String,
)
    ensures
        list.available ==> sessions_after(sessions, true, Ok(list)).len() == list.sessions@.len(),
        list.available ==> forall|i: int|
            0 <= i < list.sessions@.len() ==> #[trigger] sessions_after(sessions, true, Ok(list))[i]
                == list.sessions@[i]@,
        !list.available ==> sessions_after(sessions, true, Ok(list)).len() == 0,
        error_after(stretch, true, Ok(list)) is None,
        stretch_after(true, Err(error)) == Some(error@),
        error_after(stretch, true, Err(error)) is Some <==> stretch != Some(error@),
        error_after(stretch, true, Err(error)) matches Some(logged) ==> logged == error@,
{
}

/// What a poll does in each phase.
pub proof fn lemma_actions_of_phases(targets: Seq<Seq<char>>, at: nat, slugs: Seq<Seq<char>>)
    ensures
        action_in(Phase::Probing(targets)) is Probe,
        action_in(Phase::Querying(targets, at)) == Action::Query(targets[at as int]),
        action_in(Phase::Applying(true, slugs)) is Clear,
        action_in(Phase::Applying(false, slugs)) == Action::Apply(slugs),
        action_in(Phase::Notifying) is Notify,
        action_in(Phase::Waiting) is WaitForWake,
        action_in(Phase::Pausing) is Pause,
        action_in(Phase::Stopped) is Stop,
{
}

/// While a cycle asks for its targets nothing else about the poll changes.
pub proof fn lemma_queries_change_nothing_else(poll: Poll, control: Control)
    requires
        poll.phase is Querying,
        poll.phase->Querying_1 + 1 < poll.phase->Querying_0.len(),
    ensures
        advanced(poll, control, PollEvent::Supported(true)) == (Poll {
            state: poll.state,
            phase: Phase::Querying(poll.phase->Querying_0, poll.phase->Querying_1 + 1),
        }),
{
}

/// A host that is found not to support shares has every target of the latest
/// control parked, and nothing else about the state changes but what a look at
/// the control does.
pub proof fn lemma_downgrade_parks_latest_targets(poll: Poll, control: Control, slug: Seq<char>)
    requires
        poll.phase is Probing || poll.phase is Querying,
    ensures
        ({
            let seen = synced(poll.state, control);
            let ended = advanced(poll, control, PollEvent::Supported(false));
            &&& ended.phase matches Phase::Applying(downgraded, _) && downgraded
            &&& ended.state.targets == seen.targets
            &&& ended.state.target_revision == control.target_revision
            &&& ended.state.refresh_revision == control.refresh_revision
            &&& ended.state.parked.contains(slug) <==> seen.parked.contains(slug)
                || seen.targets.contains(slug)
        }),
{
}

/// A control over mathematical text keeps every field.
pub proof fn lemma_controls_keep_fields(control: SharedSessionPollControl, i: int)
    ensures
        control@.targets.len() == control.targets@.len(),
        0 <= i < control.targets@.len() ==> control@.targets[i] == control.targets@[i]@,
        control@.target_revision == control.target_revision,
        control@.refresh_revision == control.refresh_revision,
{
}

} // verus!
