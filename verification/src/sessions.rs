//! Session lists: persisted sessions paired with their live shares, grouped by
//! day, and laid out in rows.

use crate::agents::{
    tmux_view, AgentSessionSummary, AgentShareSession, AgentSharedSessions, TmuxSession,
    TmuxSessionSummary,
};
use crate::clock::{
    clock_readings, day_label, day_label_text, day_text, earlier_option, instant_of,
    is_earlier_option, lemma_earlier_or_not_before, not_before, Timestamp,
};
use crate::number::{decimal, decimal_text};
use crate::text::same_text;
use vstd::prelude::*;

verus! {

// ---------------------------------------------------------------------------
// Live shares
// ---------------------------------------------------------------------------

/// One persisted session row plus its live tmux share, when listed.
#[derive(Debug, PartialEq, Eq)]
pub struct AgentSessionItem {
    pub session: AgentSessionSummary,
    pub shared: Option<AgentShareSession>,
}

impl Clone for AgentSessionItem {
    fn clone(&self) -> (copy: Self)
        ensures
            copy == *self,
    {
        AgentSessionItem {
            session: self.session.clone(),
            shared: match &self.shared {
                Some(shared) => Some(shared.clone()),
                None => None,
            },
        }
    }
}

/// The first share of a session among an agent's shares.
pub open spec fn first_share(shares: Seq<AgentShareSession>, session_id: Seq<char>) -> Option<
    AgentShareSession,
>
    decreases shares.len(),
{
    if shares.len() == 0 {
        None
    } else if shares[0].session_id@ == session_id {
        Some(shares[0])
    } else {
        first_share(shares.skip(1), session_id)
    }
}

/// The first share of an agent's session in the available snapshots of that
/// agent.
pub open spec fn share_of(
    snapshots: Seq<AgentSharedSessions>,
    slug: Seq<char>,
    session_id: Seq<char>,
) -> Option<AgentShareSession>
    decreases snapshots.len(),
{
    if snapshots.len() == 0 {
        None
    } else {
        let here = if snapshots[0].available && snapshots[0].slug@ == slug {
            first_share(snapshots[0].sessions@, session_id)
        } else {
            None
        };
        if here is Some {
            here
        } else {
            share_of(snapshots.skip(1), slug, session_id)
        }
    }
}

/// Each session with its share, in the order of the sessions.
pub open spec fn merged(
    sessions: Seq<AgentSessionSummary>,
    snapshots: Seq<AgentSharedSessions>,
) -> Seq<AgentSessionItem> {
    Seq::new(
        sessions.len(),
        |i: int|
            AgentSessionItem {
                session: sessions[i],
                shared: share_of(snapshots, sessions[i].slug@, sessions[i].session_id@),
            },
    )
}

fn find_first_share(shares: &Vec<AgentShareSession>, session_id: &str) -> (found: Option<usize>)
    ensures
        match found {
            Some(i) => i < shares@.len() && first_share(shares@, session_id@) == Some(
                shares@[i as int],
            ),
            None => first_share(shares@, session_id@) is None,
        },
{
    let mut i: usize = 0;
    assert(shares@.skip(0) =~= shares@);
    while i < shares.len()
        invariant
            i <= shares@.len(),
            first_share(shares@, session_id@) == first_share(
                shares@.skip(i as int),
                session_id@,
            ),
        decreases shares@.len() - i,
    {
        assert(shares@.skip(i as int)[0] == shares@[i as int]);
        assert(shares@.skip(i as int).skip(1) =~= shares@.skip(i + 1));
        if same_text(shares[i].session_id.as_str(), session_id) {
            return Some(i);
        }
        i += 1;
    }
    None
}

fn find_share(snapshots: &[AgentSharedSessions], slug: &str, session_id: &str) -> (shared:
    Option<AgentShareSession>)
    ensures
        shared == share_of(snapshots@, slug@, session_id@),
{
    let mut i: usize = 0;
    assert(snapshots@.skip(0) =~= snapshots@);
    while i < snapshots.len()
        invariant
            i <= snapshots@.len(),
            share_of(snapshots@, slug@, session_id@) == share_of(
                snapshots@.skip(i as int),
                slug@,
                session_id@,
            ),
        decreases snapshots@.len() - i,
    {
        assert(snapshots@.skip(i as int)[0] == snapshots@[i as int]);
        assert(snapshots@.skip(i as int).skip(1) =~= snapshots@.skip(i + 1));
        if snapshots[i].available && same_text(snapshots[i].slug.as_str(), slug) {
            if let Some(at) = find_first_share(&snapshots[i].sessions, session_id) {
                return Some(snapshots[i].sessions[at].clone());
            }
        }
        i += 1;
    }
    None
}

/// Pair persisted history with live tmux snapshots by `(slug, session_id)`.
/// Rows keep their order and timestamps; unmatched shares are never fabricated.
pub fn merge_shared_sessions(
    sessions: Vec<AgentSessionSummary>,
    snapshots: &[AgentSharedSessions],
) -> (items: Vec<AgentSessionItem>)
    ensures
        items@ == merged(sessions@, snapshots@),
{
    let mut items: Vec<AgentSessionItem> = Vec::new();
    let mut i: usize = 0;
    while i < sessions.len()
        invariant
            i <= sessions@.len(),
            items@ == merged(sessions@, snapshots@).take(i as int),
        decreases sessions@.len() - i,
    {
        let session = sessions[i].clone();
        let shared = find_share(snapshots, session.slug.as_str(), session.session_id.as_str());
        items.push(AgentSessionItem { session, shared });
        i += 1;
        assert(items@ =~= merged(sessions@, snapshots@).take(i as int));
    }
    assert(items@ =~= merged(sessions@, snapshots@));
    items
}

/// Badge state for one shared tmux session.
#[derive(Debug, Clone, Copy, PartialEq, Eq, Structural)]
pub enum SharedSessionStatus {
    Live,
    Ended(Option<u32>),
}

/// How a status reads.
pub open spec fn status_label(status: SharedSessionStatus) -> Seq<char> {
    match status {
        SharedSessionStatus::Live => "Live"@,
        SharedSessionStatus::Ended(None) => "Ended"@,
        SharedSessionStatus::Ended(Some(code)) => "Ended (code "@ + decimal(code as nat) + ")"@,
    }
}

/// The status of a share.
pub open spec fn share_status(shared: AgentShareSession) -> SharedSessionStatus {
    if shared.dead {
        SharedSessionStatus::Ended(shared.exit_code)
    } else {
        SharedSessionStatus::Live
    }
}

impl SharedSessionStatus {
    /// The text of the badge.
    pub fn label(&self) -> (label: String)
        ensures
            label@ == status_label(*self),
    {
        match self {
            SharedSessionStatus::Live => "Live".to_string(),
            SharedSessionStatus::Ended(None) => "Ended".to_string(),
            SharedSessionStatus::Ended(Some(code)) => {
                let mut label = "Ended (code ".to_string();
                label.append(decimal_text(*code as u64).as_str());
                label.append(")");
                label
            },
        }
    }

    /// Whether the shared pane runs.
    pub fn is_live(&self) -> (live: bool)
        ensures
            live == (*self is Live),
    {
        match self {
            SharedSessionStatus::Live => true,
            SharedSessionStatus::Ended(_) => false,
        }
    }
}

/// Pure live/dead → badge mapping for a session card.
pub fn shared_session_status(shared: &AgentShareSession) -> (status: SharedSessionStatus)
    ensures
        status == share_status(*shared),
{
    if shared.dead {
        SharedSessionStatus::Ended(shared.exit_code)
    } else {
        SharedSessionStatus::Live
    }
}

/// Terminate is offered via long-press only for rows carrying a shared tmux
/// snapshot — never for plain past rows or foreign tmux sessions.
pub fn offers_terminate(shared: Option<&AgentShareSession>) -> (offered: bool)
    ensures
        offered == (shared is Some),
{
    shared.is_some()
}

// ---------------------------------------------------------------------------
// Newest first
// ---------------------------------------------------------------------------

/// Whether a session is older than another: by its last activity, and by its
/// creation where those are the same.
pub open spec fn older(a: AgentSessionItem, b: AgentSessionItem) -> bool {
    ||| earlier_option(
        instant_of(a.session.last_activity_at),
        instant_of(b.session.last_activity_at),
    )
    ||| instant_of(a.session.last_activity_at) == instant_of(b.session.last_activity_at)
        && earlier_option(instant_of(a.session.created_at), instant_of(b.session.created_at))
}

/// A session put behind those that are not older.
pub open spec fn placed(sorted: Seq<AgentSessionItem>, item: AgentSessionItem) -> Seq<
    AgentSessionItem,
>
    decreases sorted.len(),
{
    if sorted.len() > 0 && older(sorted.last(), item) {
        placed(sorted.drop_last(), item).push(sorted.last())
    } else {
        sorted.push(item)
    }
}

/// Sessions from the newest to the oldest; those of one age keep their order.
pub open spec fn newest_first(items: Seq<AgentSessionItem>) -> Seq<AgentSessionItem>
    decreases items.len(),
{
    if items.len() == 0 {
        seq![]
    } else {
        placed(newest_first(items.drop_last()), items.last())
    }
}

fn is_older(a: &AgentSessionItem, b: &AgentSessionItem) -> (is: bool)
    ensures
        is == older(*a, *b),
{
    is_earlier_option(&a.session.last_activity_at, &b.session.last_activity_at)
        || !is_earlier_option(&b.session.last_activity_at, &a.session.last_activity_at)
        && is_earlier_option(&a.session.created_at, &b.session.created_at)
}

fn place(sorted: &mut Vec<AgentSessionItem>, item: AgentSessionItem)
    ensures
        final(sorted)@ == placed(old(sorted)@, item),
{
    let ghost all = sorted@;
    let mut at: usize = sorted.len();
    assert(all.take(at as int) =~= all);
    assert(all.skip(at as int) =~= seq![]);
    assert(placed(all, item) =~= placed(all.take(at as int), item) + all.skip(at as int));
    while at > 0 && is_older(&sorted[at - 1], &item)
        invariant
            at <= sorted@.len(),
            sorted@ == all,
            placed(all, item) == placed(all.take(at as int), item) + all.skip(at as int),
        decreases at,
    {
        let ghost head = all.take(at as int);
        assert(head.drop_last() =~= all.take(at - 1));
        assert(placed(head.drop_last(), item).push(head.last()) + all.skip(at as int) =~= placed(
            all.take(at - 1),
            item,
        ) + all.skip(at - 1));
        at -= 1;
    }
    proof {
        let head = all.take(at as int);
        assert(at > 0 ==> head.last() == all[at - 1]);
        assert(placed(head, item) == head.push(item));
        assert(head.push(item) + all.skip(at as int) =~= all.insert(at as int, item));
    }
    sorted.insert(at, item);
}

fn sort_newest_first(items: &Vec<AgentSessionItem>) -> (sorted: Vec<AgentSessionItem>)
    ensures
        sorted@ == newest_first(items@),
{
    let mut sorted: Vec<AgentSessionItem> = Vec::new();
    let mut i: usize = 0;
    assert(items@.take(0) =~= seq![]);
    while i < items.len()
        invariant
            i <= items@.len(),
            sorted@ == newest_first(items@.take(i as int)),
        decreases items@.len() - i,
    {
        assert(items@.take(i + 1).drop_last() =~= items@.take(i as int));
        place(&mut sorted, items[i].clone());
        i += 1;
    }
    assert(items@.take(i as int) =~= items@);
    sorted
}

// ---------------------------------------------------------------------------
// Days
// ---------------------------------------------------------------------------

/// Sessions under the label of their day.
#[derive(Debug, PartialEq, Eq)]
pub struct AgentSessionSection {
    pub label: String,
    pub sessions: Vec<AgentSessionItem>,
}

/// An [`AgentSessionSection`] over mathematical values.
pub struct Section {
    pub label: Seq<char>,
    pub sessions: Seq<AgentSessionItem>,
}

impl View for AgentSessionSection {
    type V = Section;

    open spec fn view(&self) -> Section {
        Section { label: self.label@, sessions: self.sessions@ }
    }
}

pub open spec fn sections_view(sections: Seq<AgentSessionSection>) -> Seq<Section> {
    Seq::new(sections.len(), |i: int| sections[i]@)
}

/// The time that a session shows: its last activity, or else its creation.
pub open spec fn shown_time(session: AgentSessionSummary) -> Option<Timestamp> {
    if session.last_activity_at is Some {
        session.last_activity_at
    } else {
        session.created_at
    }
}

/// The label of each session's day, each seen from an instant of its own.
pub open spec fn labels(items: Seq<AgentSessionItem>, nows: Seq<Timestamp>) -> Seq<Seq<char>> {
    Seq::new(
        items.len(),
        |i: int| day_label_text(instant_of(shown_time(items[i].session)), nows[i]@),
    )
}

/// Sessions gathered under their labels, as long as the label stays the same.
pub open spec fn grouped(items: Seq<AgentSessionItem>, names: Seq<Seq<char>>) -> Seq<Section>
    decreases items.len(),
{
    if items.len() == 0 {
        seq![]
    } else {
        let before = grouped(items.drop_last(), names.drop_last());
        if before.len() > 0 && before.last().label == names.last() {
            before.drop_last().push(
                Section {
                    label: names.last(),
                    sessions: before.last().sessions.push(items.last()),
                },
            )
        } else {
            before.push(Section { label: names.last(), sessions: seq![items.last()] })
        }
    }
}

/// Sections of sessions by day, where each session is seen from an instant of
/// its own.
pub open spec fn sections_by_day(items: Seq<AgentSessionItem>, nows: Seq<Timestamp>) -> Seq<
    Section,
> {
    grouped(newest_first(items), labels(newest_first(items), nows))
}

/// The time that a session shows.
pub fn shown_at(session: &AgentSessionSummary) -> (at: Option<Timestamp>)
    ensures
        at == shown_time(*session),
{
    match session.last_activity_at {
        Some(at) => Some(at),
        None => session.created_at,
    }
}

/// Sessions from the newest to the oldest in sections by day, where the session
/// at each place is seen from the instant at the same place in `nows`.
pub fn group_sessions_at(sessions: Vec<AgentSessionItem>, nows: &Vec<Timestamp>) -> (sections: Vec<
    AgentSessionSection,
>)
    requires
        nows@.len() == sessions@.len(),
    ensures
        sections_view(sections@) == sections_by_day(sessions@, nows@),
{
    let sorted = sort_newest_first(&sessions);
    let ghost names = labels(sorted@, nows@);
    proof {
        lemma_newest_first_len(sessions@);
    }
    let mut sections: Vec<AgentSessionSection> = Vec::new();
    let mut i: usize = 0;
    assert(sections_view(sections@) =~= seq![]);
    while i < sorted.len()
        invariant
            i <= sorted@.len(),
            sorted@.len() == nows@.len(),
            names == labels(sorted@, nows@),
            sections_view(sections@) == grouped(sorted@.take(i as int), names.take(i as int)),
        decreases sorted@.len() - i,
    {
        let ghost before = sections_view(sections@);
        let item = sorted[i].clone();
        let label = day_label(shown_at(&item.session), nows[i]);
        proof {
            assert(sorted@.take(i + 1).drop_last() =~= sorted@.take(i as int));
            assert(names.take(i + 1).drop_last() =~= names.take(i as int));
            assert(label@ == names[i as int]);
        }
        let mut gathered = false;
        if sections.len() > 0 {
            let last: usize = sections.len() - 1;
            assert(before.last() == sections@[last as int]@);
            gathered = same_text(sections[last].label.as_str(), label.as_str());
        }
        if gathered {
            if let Some(mut section) = sections.pop() {
                section.sessions.push(item);
                sections.push(section);
                assert(sections_view(sections@) =~= before.drop_last().push(section@));
            }
        } else {
            let mut list: Vec<AgentSessionItem> = Vec::new();
            list.push(item);
            sections.push(AgentSessionSection { label, sessions: list });
            assert(list@ =~= seq![item]);
            assert(sections_view(sections@) =~= before.push(
                Section { label: label@, sessions: seq![item] },
            ));
        }
        i += 1;
    }
    assert(sorted@.take(i as int) =~= sorted@);
    assert(names.take(i as int) =~= names);
    sections
}

/// Sessions from the newest to the oldest in sections by day, seen from now.
/// The clock is read once for each session.
pub fn group_sessions_by_day(sessions: Vec<AgentSessionItem>) -> (sections: Vec<
    AgentSessionSection,
>)
    ensures
        exists|nows: Seq<Timestamp>|
            nows.len() == sessions@.len() && clock_readings(nows)
                && sections_view(sections@) == #[trigger] sections_by_day(
                sessions@,
                nows,
            ),
{
    let nows = read_clock(sessions.len());
    group_sessions_at(sessions, &nows)
}

/// The clock, read a number of times.
pub fn read_clock(count: usize) -> (nows: Vec<Timestamp>)
    ensures
        nows@.len() == count,
        clock_readings(nows@),
{
    let mut nows: Vec<Timestamp> = Vec::new();
    while nows.len() < count
        invariant
            nows@.len() <= count,
            clock_readings(nows@),
        decreases count - nows@.len(),
    {
        nows.push(Timestamp::now());
    }
    nows
}

// ---------------------------------------------------------------------------
// Rows
// ---------------------------------------------------------------------------

/// One virtualized row: a section header, custom tmux session, or history card.
#[derive(Debug, PartialEq, Eq)]
pub enum AgentSessionRow {
    Header(String),
    Tmux(TmuxSessionSummary),
    Session(AgentSessionItem),
}

/// An [`AgentSessionRow`] over mathematical values.
pub enum Row {
    Header(Seq<char>),
    Tmux(TmuxSession),
    Session(AgentSessionItem),
}

impl View for AgentSessionRow {
    type V = Row;

    open spec fn view(&self) -> Row {
        match *self {
            AgentSessionRow::Header(label) => Row::Header(label@),
            AgentSessionRow::Tmux(session) => Row::Tmux(session@),
            AgentSessionRow::Session(item) => Row::Session(item),
        }
    }
}

pub open spec fn rows_view(rows: Seq<AgentSessionRow>) -> Seq<Row> {
    Seq::new(rows.len(), |i: int| rows[i]@)
}

/// The rows of a section: its header, then its sessions.
pub open spec fn section_rows(section: Section) -> Seq<Row> {
    seq![Row::Header(section.label)] + section.sessions.map_values(
        |item: AgentSessionItem| Row::Session(item),
    )
}

/// The rows of sections, one section after the other.
pub open spec fn flat_rows(sections: Seq<Section>) -> Seq<Row>
    decreases sections.len(),
{
    if sections.len() == 0 {
        seq![]
    } else {
        flat_rows(sections.drop_last()) + section_rows(sections.last())
    }
}

/// The rows of custom tmux sessions: none without a session, and else a header
/// and the sessions.
pub open spec fn tmux_rows(sessions: Seq<TmuxSession>) -> Seq<Row> {
    if sessions.len() == 0 {
        seq![]
    } else {
        seq![Row::Header("Tmux sessions"@)] + sessions.map_values(
            |session: TmuxSession| Row::Tmux(session),
        )
    }
}

/// All rows of a session list: custom tmux sessions, then history by day.
pub open spec fn session_rows(
    sessions: Seq<AgentSessionSummary>,
    snapshots: Seq<AgentSharedSessions>,
    tmux: Seq<TmuxSession>,
    nows: Seq<Timestamp>,
) -> Seq<Row> {
    tmux_rows(tmux) + flat_rows(sections_by_day(merged(sessions, snapshots), nows))
}

/// Sections as rows.
pub fn flatten_session_sections(sections: Vec<AgentSessionSection>) -> (rows: Vec<
    AgentSessionRow,
>)
    ensures
        rows_view(rows@) == flat_rows(sections_view(sections@)),
{
    let mut rows: Vec<AgentSessionRow> = Vec::new();
    push_section_rows(&mut rows, &sections);
    assert(rows_view(rows@) =~= flat_rows(sections_view(sections@)));
    rows
}

fn push_section_rows(rows: &mut Vec<AgentSessionRow>, sections: &Vec<AgentSessionSection>)
    ensures
        rows_view(final(rows)@) == rows_view(old(rows)@) + flat_rows(sections_view(sections@)),
{
    let ghost first = rows_view(rows@);
    let ghost all = sections_view(sections@);
    let mut i: usize = 0;
    assert(all.take(0) =~= seq![]);
    assert(first + flat_rows(all.take(0)) =~= first);
    while i < sections.len()
        invariant
            i <= sections@.len(),
            all == sections_view(sections@),
            rows_view(rows@) == first + flat_rows(all.take(i as int)),
        decreases sections@.len() - i,
    {
        let section = &sections[i];
        let ghost before = rows_view(rows@);
        rows.push(AgentSessionRow::Header(section.label.clone()));
        let ghost headed = rows_view(rows@);
        assert(headed =~= before.push(Row::Header(section.label@)));
        let ghost cards = section.sessions@.map_values(
            |item: AgentSessionItem| Row::Session(item),
        );
        let mut k: usize = 0;
        assert(headed + cards.take(0) =~= headed);
        while k < section.sessions.len()
            invariant
                k <= section.sessions@.len(),
                cards == section.sessions@.map_values(
                    |item: AgentSessionItem| Row::Session(item),
                ),
                rows_view(rows@) == headed + cards.take(k as int),
            decreases section.sessions@.len() - k,
        {
            let ghost shown = rows_view(rows@);
            rows.push(AgentSessionRow::Session(section.sessions[k].clone()));
            assert(rows_view(rows@) =~= shown.push(cards[k as int]));
            k += 1;
            assert(headed + cards.take(k as int) =~= shown.push(cards[k - 1]));
        }
        proof {
            assert(cards.take(k as int) =~= cards);
            assert(all.take(i + 1).drop_last() =~= all.take(i as int));
            assert(all.take(i + 1).last() == section@);
            assert(rows_view(rows@) =~= before + section_rows(section@));
            assert(first + flat_rows(all.take(i + 1)) =~= before + section_rows(section@));
        }
        i += 1;
    }
    assert(all.take(i as int) =~= all);
}

/// All rows of a session list, where each session is seen from an instant of
/// its own.
pub fn build_session_rows_at(
    sessions: Vec<AgentSessionSummary>,
    snapshots: &[AgentSharedSessions],
    tmux_sessions: &[TmuxSessionSummary],
    nows: &Vec<Timestamp>,
) -> (rows: Vec<AgentSessionRow>)
    requires
        nows@.len() == sessions@.len(),
    ensures
        rows_view(rows@) == session_rows(
            sessions@,
            snapshots@,
            tmux_view(tmux_sessions@),
            nows@,
        ),
{
    let items = merge_shared_sessions(sessions, snapshots);
    let sections = group_sessions_at(items, nows);
    let ghost tmux = tmux_view(tmux_sessions@);
    let mut rows: Vec<AgentSessionRow> = Vec::new();
    assert(rows_view(rows@) =~= seq![]);
    if tmux_sessions.len() > 0 {
        rows.push(AgentSessionRow::Header("Tmux sessions".to_string()));
        let ghost headed = rows_view(rows@);
        assert(headed =~= seq![Row::Header("Tmux sessions"@)]);
        let ghost cards = tmux.map_values(|session: TmuxSession| Row::Tmux(session));
        let mut i: usize = 0;
        assert(headed + cards.take(0) =~= headed);
        while i < tmux_sessions.len()
            invariant
                i <= tmux_sessions@.len(),
                tmux == tmux_view(tmux_sessions@),
                cards == tmux.map_values(|session: TmuxSession| Row::Tmux(session)),
                rows_view(rows@) == headed + cards.take(i as int),
            decreases tmux_sessions@.len() - i,
        {
            let ghost shown = rows_view(rows@);
            rows.push(AgentSessionRow::Tmux(tmux_sessions[i].clone()));
            assert(rows_view(rows@) =~= shown.push(cards[i as int]));
            i += 1;
            assert(headed + cards.take(i as int) =~= shown.push(cards[i - 1]));
        }
        assert(cards.take(i as int) =~= cards);
    }
    assert(rows_view(rows@) =~= tmux_rows(tmux));
    push_section_rows(&mut rows, &sections);
    rows
}

/// All rows of a session list, seen from now.
pub fn build_session_rows(
    sessions: Vec<AgentSessionSummary>,
    snapshots: &[AgentSharedSessions],
    tmux_sessions: &[TmuxSessionSummary],
) -> (rows: Vec<AgentSessionRow>)
    ensures
        exists|nows: Seq<Timestamp>|
            nows.len() == sessions@.len() && clock_readings(nows)
                && rows_view(rows@) == #[trigger] session_rows(
                sessions@,
                snapshots@,
                tmux_view(tmux_sessions@),
                nows,
            ),
{
    let nows = read_clock(sessions.len());
    build_session_rows_at(sessions, snapshots, tmux_sessions, &nows)
}

// ---------------------------------------------------------------------------
// Laws
// ---------------------------------------------------------------------------

proof fn lemma_first_share(shares: Seq<AgentShareSession>, session_id: Seq<char>)
    ensures
        match first_share(shares, session_id) {
            Some(shared) => exists|i: int|
                {
                    &&& 0 <= i < shares.len()
                    &&& #[trigger] shares[i] == shared
                    &&& shared.session_id@ == session_id
                    &&& forall|j: int|
                        0 <= j < i ==> (#[trigger] shares[j]).session_id@ != session_id
                },
            None => forall|j: int|
                0 <= j < shares.len() ==> (#[trigger] shares[j]).session_id@ != session_id,
        },
    decreases shares.len(),
{
    if shares.len() > 0 {
        if shares[0].session_id@ == session_id {
            assert(shares[0] == first_share(shares, session_id)->0);
        } else {
            let rest = shares.skip(1);
            lemma_first_share(rest, session_id);
            if let Some(shared) = first_share(rest, session_id) {
                let i = choose|i: int|
                    {
                        &&& 0 <= i < rest.len()
                        &&& #[trigger] rest[i] == shared
                        &&& shared.session_id@ == session_id
                        &&& forall|j: int|
                            0 <= j < i ==> (#[trigger] rest[j]).session_id@ != session_id
                    };
                assert(shares[i + 1] == shared);
                assert forall|j: int| 0 <= j < i + 1 implies (#[trigger] shares[j]).session_id@
                    != session_id by {
                    if j > 0 {
                        assert(rest[j - 1] == shares[j]);
                    }
                }
            } else {
                assert forall|j: int| 0 <= j < shares.len() implies (
                #[trigger] shares[j]).session_id@ != session_id by {
                    if j > 0 {
                        assert(rest[j - 1] == shares[j]);
                    }
                }
            }
        }
    }
}

/// Whether an available snapshot of an agent holds a share of a session.
pub open spec fn shares_session(
    snapshot: AgentSharedSessions,
    slug: Seq<char>,
    session_id: Seq<char>,
) -> bool {
    &&& snapshot.available
    &&& snapshot.slug@ == slug
    &&& exists|i: int|
        0 <= i < snapshot.sessions@.len() && (#[trigger] snapshot.sessions@[i]).session_id@
            == session_id
}

/// A share that a row carries stands in an available snapshot of the row's own
/// agent, under the row's session id. It is the first such share there, and no
/// snapshot before holds one. A row carries none only where no snapshot holds
/// one.
pub proof fn lemma_share_matches_full_identity(
    snapshots: Seq<AgentSharedSessions>,
    slug: Seq<char>,
    session_id: Seq<char>,
)
    ensures
        match share_of(snapshots, slug, session_id) {
            Some(shared) => exists|k: int|
                {
                    &&& 0 <= k < snapshots.len()
                    &&& shares_session(#[trigger] snapshots[k], slug, session_id)
                    &&& first_share(snapshots[k].sessions@, session_id) == Some(shared)
                    &&& shared.session_id@ == session_id
                    &&& snapshots[k].sessions@.contains(shared)
                    &&& forall|j: int|
                        0 <= j < k ==> !shares_session(#[trigger] snapshots[j], slug, session_id)
                },
            None => forall|j: int|
                0 <= j < snapshots.len() ==> !shares_session(
                    #[trigger] snapshots[j],
                    slug,
                    session_id,
                ),
        },
    decreases snapshots.len(),
{
    if snapshots.len() > 0 {
        let rest = snapshots.skip(1);
        let list = snapshots[0].sessions@;
        lemma_first_share(list, session_id);
        if snapshots[0].available && snapshots[0].slug@ == slug && first_share(
            list,
            session_id,
        ) is Some {
            let shared = first_share(list, session_id)->0;
            assert(shares_session(snapshots[0], slug, session_id));
            assert(list.contains(shared));
        } else {
            assert(!shares_session(snapshots[0], slug, session_id));
            lemma_share_matches_full_identity(rest, slug, session_id);
            if let Some(shared) = share_of(rest, slug, session_id) {
                let k = choose|k: int|
                    {
                        &&& 0 <= k < rest.len()
                        &&& shares_session(#[trigger] rest[k], slug, session_id)
                        &&& first_share(rest[k].sessions@, session_id) == Some(shared)
                        &&& shared.session_id@ == session_id
                        &&& rest[k].sessions@.contains(shared)
                        &&& forall|j: int|
                            0 <= j < k ==> !shares_session(#[trigger] rest[j], slug, session_id)
                    };
                assert(rest[k] == snapshots[k + 1]);
                assert(shares_session(snapshots[k + 1], slug, session_id));
                assert forall|j: int| 0 <= j < k + 1 implies !shares_session(
                    #[trigger] snapshots[j],
                    slug,
                    session_id,
                ) by {
                    if j > 0 {
                        assert(rest[j - 1] == snapshots[j]);
                    }
                }
            } else {
                assert forall|j: int| 0 <= j < snapshots.len() implies !shares_session(
                    #[trigger] snapshots[j],
                    slug,
                    session_id,
                ) by {
                    if j > 0 {
                        assert(rest[j - 1] == snapshots[j]);
                    }
                }
            }
        }
    }
}

/// Merging keeps every row with its session unchanged and in its place, and
/// adds none.
pub proof fn lemma_merge_keeps_rows(
    sessions: Seq<AgentSessionSummary>,
    snapshots: Seq<AgentSharedSessions>,
)
    ensures
        merged(sessions, snapshots).len() == sessions.len(),
        forall|i: int|
            0 <= i < sessions.len() ==> (#[trigger] merged(sessions, snapshots)[i]).session
                == sessions[i],
{
}

/// A share is live exactly while its pane runs, and an ended one keeps what is
/// known of its exit code.
pub proof fn lemma_ended_shares_keep_their_exit_code(shared: AgentShareSession)
    ensures
        shared.dead ==> share_status(shared) == SharedSessionStatus::Ended(shared.exit_code),
        share_status(shared) is Live <==> !shared.dead,
{
}

/// Whether two sessions are of one age.
pub open spec fn same_age(a: AgentSessionItem, b: AgentSessionItem) -> bool {
    &&& instant_of(a.session.last_activity_at) == instant_of(b.session.last_activity_at)
    &&& instant_of(a.session.created_at) == instant_of(b.session.created_at)
}

proof fn lemma_placed_sorted(sorted: Seq<AgentSessionItem>, item: AgentSessionItem)
    requires
        forall|i: int, j: int|
            0 <= i < j < sorted.len() ==> !older(#[trigger] sorted[i], #[trigger] sorted[j]),
    ensures
        forall|i: int, j: int|
            0 <= i < j < placed(sorted, item).len() ==> !older(
                #[trigger] placed(sorted, item)[i],
                #[trigger] placed(sorted, item)[j],
            ),
        forall|i: int|
            0 <= i < placed(sorted, item).len() ==> #[trigger] placed(sorted, item)[i] == item
                || sorted.contains(placed(sorted, item)[i]),
    decreases sorted.len(),
{
    lemma_placed_len(sorted, item);
    if sorted.len() > 0 && older(sorted.last(), item) {
        let head = sorted.drop_last();
        let inner = placed(head, item);
        lemma_placed_sorted(head, item);
        lemma_placed_len(head, item);
        assert forall|i: int| 0 <= i < inner.len() implies !older(
            #[trigger] inner[i],
            sorted.last(),
        ) by {
            if inner[i] != item {
                let k = choose|k: int| 0 <= k < head.len() && head[k] == inner[i];
                assert(sorted[k] == inner[i]);
                assert(!older(sorted[k], sorted[sorted.len() - 1]));
            }
        }
        assert forall|i: int| 0 <= i < placed(sorted, item).len() implies #[trigger] placed(
            sorted,
            item,
        )[i] == item || sorted.contains(placed(sorted, item)[i]) by {
            if i < inner.len() && inner[i] != item {
                let k = choose|k: int| 0 <= k < head.len() && head[k] == inner[i];
                assert(sorted[k] == inner[i]);
            } else if i == inner.len() {
                assert(sorted[sorted.len() - 1] == placed(sorted, item)[i]);
            }
        }
    } else {
        assert forall|i: int| 0 <= i < placed(sorted, item).len() implies #[trigger] placed(
            sorted,
            item,
        )[i] == item || sorted.contains(placed(sorted, item)[i]) by {
            if i < sorted.len() {
                assert(sorted[i] == placed(sorted, item)[i]);
            }
        }
        assert forall|i: int| 0 <= i < sorted.len() implies !older(
            #[trigger] sorted[i],
            item,
        ) by {
            if i < sorted.len() - 1 {
                assert(!older(sorted[i], sorted[sorted.len() - 1]));
            }
        }
    }
}

/// No session in the order stands before a newer one.
pub proof fn lemma_newest_first_is_sorted(items: Seq<AgentSessionItem>)
    ensures
        newest_first(items).len() == items.len(),
        forall|i: int, j: int|
            0 <= i < j < items.len() ==> !older(
                #[trigger] newest_first(items)[i],
                #[trigger] newest_first(items)[j],
            ),
    decreases items.len(),
{
    lemma_newest_first_len(items);
    if items.len() > 0 {
        lemma_newest_first_is_sorted(items.drop_last());
        lemma_placed_sorted(newest_first(items.drop_last()), items.last());
    }
}

proof fn lemma_placed_multiset(sorted: Seq<AgentSessionItem>, item: AgentSessionItem)
    ensures
        placed(sorted, item).to_multiset() == sorted.to_multiset().insert(item),
    decreases sorted.len(),
{
    broadcast use vstd::seq_lib::group_to_multiset_ensures;

    if sorted.len() > 0 && older(sorted.last(), item) {
        let head = sorted.drop_last();
        lemma_placed_multiset(head, item);
        assert(head.push(sorted.last()) =~= sorted);
        assert(placed(sorted, item).to_multiset() =~= sorted.to_multiset().insert(item));
    }
}

/// The order holds the same sessions as often as they were given.
pub proof fn lemma_newest_first_keeps_sessions(items: Seq<AgentSessionItem>)
    ensures
        newest_first(items).to_multiset() == items.to_multiset(),
    decreases items.len(),
{
    broadcast use vstd::seq_lib::group_to_multiset_ensures;

    if items.len() > 0 {
        let head = items.drop_last();
        lemma_newest_first_keeps_sessions(head);
        lemma_placed_multiset(newest_first(head), items.last());
        assert(head.push(items.last()) =~= items);
    } else {
        assert(items =~= seq![]);
    }
}

proof fn lemma_placed_stable(
    sorted: Seq<AgentSessionItem>,
    item: AgentSessionItem,
    probe: AgentSessionItem,
)
    ensures
        placed(sorted, item).filter(|x: AgentSessionItem| same_age(x, probe)) == (if same_age(
            item,
            probe,
        ) {
            sorted.filter(|x: AgentSessionItem| same_age(x, probe)).push(item)
        } else {
            sorted.filter(|x: AgentSessionItem| same_age(x, probe))
        }),
    decreases sorted.len(),
{
    reveal(Seq::filter);
    let class = |x: AgentSessionItem| same_age(x, probe);
    if sorted.len() > 0 && older(sorted.last(), item) {
        let head = sorted.drop_last();
        lemma_placed_stable(head, item, probe);
        lemma_placed_len(head, item);
        let whole = placed(sorted, item);
        assert(whole.drop_last() =~= placed(head, item));
        assert(whole.last() == sorted.last());
    } else {
        let whole = placed(sorted, item);
        assert(whole.drop_last() =~= sorted);
        assert(whole.last() == item);
    }
}

/// Sessions of one age keep the order in which they were given.
pub proof fn lemma_newest_first_is_stable(items: Seq<AgentSessionItem>, probe: AgentSessionItem)
    ensures
        newest_first(items).filter(|x: AgentSessionItem| same_age(x, probe)) == items.filter(
            |x: AgentSessionItem| same_age(x, probe),
        ),
    decreases items.len(),
{
    reveal(Seq::filter);
    if items.len() > 0 {
        lemma_newest_first_is_stable(items.drop_last(), probe);
        lemma_placed_stable(newest_first(items.drop_last()), items.last(), probe);
    }
}

/// The sessions of all sections, one section after the other.
pub open spec fn all_sessions(sections: Seq<Section>) -> Seq<AgentSessionItem>
    decreases sections.len(),
{
    if sections.len() == 0 {
        seq![]
    } else {
        all_sessions(sections.drop_last()) + sections.last().sessions
    }
}

proof fn lemma_grouped(items: Seq<AgentSessionItem>, names: Seq<Seq<char>>)
    requires
        items.len() == names.len(),
    ensures
        all_sessions(grouped(items, names)) == items,
        forall|i: int|
            0 <= i < grouped(items, names).len() ==> (#[trigger] grouped(
                items,
                names,
            )[i]).sessions.len() > 0,
        forall|i: int, j: int|
            0 <= i && j == i + 1 && j < grouped(items, names).len() ==> (#[trigger] grouped(
                items,
                names,
            )[i]).label != (#[trigger] grouped(items, names)[j]).label,
        items.len() > 0 ==> grouped(items, names).len() > 0 && grouped(items, names).last().label
            == names.last(),
    decreases items.len(),
{
    if items.len() > 0 {
        let head = items.drop_last();
        let before = grouped(head, names.drop_last());
        let after = grouped(items, names);
        lemma_grouped(head, names.drop_last());
        if before.len() > 0 && before.last().label == names.last() {
            assert(after.drop_last() =~= before.drop_last());
            assert(all_sessions(after) =~= all_sessions(before).push(items.last()));
        } else {
            assert(after.drop_last() =~= before);
            assert(all_sessions(after) =~= all_sessions(before).push(items.last()));
            assert forall|i: int, j: int|
                0 <= i && j == i + 1 && j < after.len() implies (#[trigger] after[i]).label != (
            #[trigger] after[j]).label by {
                if j < before.len() {
                    assert(before[i].label != before[j].label);
                }
            }
        }
        assert(head.push(items.last()) =~= items);
    }
}

/// Sections by day hold all sessions from the newest to the oldest. No section
/// is empty, and neighbours have different labels.
pub proof fn lemma_sections_by_day(items: Seq<AgentSessionItem>, nows: Seq<Timestamp>)
    ensures
        all_sessions(sections_by_day(items, nows)) == newest_first(items),
        forall|i: int|
            0 <= i < sections_by_day(items, nows).len() ==> (#[trigger] sections_by_day(
                items,
                nows,
            )[i]).sessions.len() > 0,
        forall|i: int, j: int|
            0 <= i && j == i + 1 && j < sections_by_day(items, nows).len() ==> (
            #[trigger] sections_by_day(items, nows)[i]).label != (#[trigger] sections_by_day(
                items,
                nows,
            )[j]).label,
        items.len() == 0 <==> sections_by_day(items, nows).len() == 0,
{
    lemma_newest_first_len(items);
    lemma_grouped(newest_first(items), labels(newest_first(items), nows));
}

/// Every session in a section carries the section's label as its own day's.
pub proof fn lemma_section_labels_fit(
    items: Seq<AgentSessionItem>,
    names: Seq<Seq<char>>,
    k: int,
    i: int,
)
    requires
        items.len() == names.len(),
        0 <= k < grouped(items, names).len(),
        0 <= i < grouped(items, names)[k].sessions.len(),
    ensures
        exists|at: int|
            0 <= at < items.len() && #[trigger] items[at] == grouped(items, names)[k].sessions[i]
                && names[at] == grouped(items, names)[k].label,
    decreases items.len(),
{
    let head = items.drop_last();
    let names_head = names.drop_last();
    let before = grouped(head, names_head);
    let after = grouped(items, names);
    if k < before.len() && i < before[k].sessions.len() {
        lemma_section_labels_fit(head, names_head, k, i);
        let at = choose|at: int|
            0 <= at < head.len() && #[trigger] head[at] == before[k].sessions[i] && names_head[at]
                == before[k].label;
        assert(items[at] == after[k].sessions[i]);
        assert(names[at] == after[k].label);
    } else {
        assert(items[items.len() - 1] == after[k].sessions[i]);
    }
}

/// The sessions that rows show, in order.
pub open spec fn shown_sessions(rows: Seq<Row>) -> Seq<AgentSessionItem>
    decreases rows.len(),
{
    if rows.len() == 0 {
        seq![]
    } else {
        match rows.last() {
            Row::Session(item) => shown_sessions(rows.drop_last()).push(item),
            _ => shown_sessions(rows.drop_last()),
        }
    }
}

proof fn lemma_shown_concat(a: Seq<Row>, b: Seq<Row>)
    ensures
        shown_sessions(a + b) == shown_sessions(a) + shown_sessions(b),
    decreases b.len(),
{
    if b.len() == 0 {
        assert(a + b =~= a);
        assert(shown_sessions(a) + shown_sessions(b) =~= shown_sessions(a));
    } else {
        assert((a + b).drop_last() =~= a + b.drop_last());
        lemma_shown_concat(a, b.drop_last());
        assert(shown_sessions(a + b) =~= shown_sessions(a) + shown_sessions(b));
    }
}

proof fn lemma_shown_cards(items: Seq<AgentSessionItem>)
    ensures
        shown_sessions(items.map_values(|item: AgentSessionItem| Row::Session(item))) == items,
    decreases items.len(),
{
    let cards = items.map_values(|item: AgentSessionItem| Row::Session(item));
    if items.len() > 0 {
        lemma_shown_cards(items.drop_last());
        assert(cards.drop_last() =~= items.drop_last().map_values(
            |item: AgentSessionItem| Row::Session(item),
        ));
        assert(items.drop_last().push(items.last()) =~= items);
    } else {
        assert(items =~= seq![]);
    }
}

proof fn lemma_shown_tmux(sessions: Seq<TmuxSession>)
    ensures
        shown_sessions(sessions.map_values(|session: TmuxSession| Row::Tmux(session))).len() == 0,
    decreases sessions.len(),
{
    let cards = sessions.map_values(|session: TmuxSession| Row::Tmux(session));
    if sessions.len() > 0 {
        lemma_shown_tmux(sessions.drop_last());
        assert(cards.drop_last() =~= sessions.drop_last().map_values(
            |session: TmuxSession| Row::Tmux(session),
        ));
    }
}

proof fn lemma_shown_header(label: Seq<char>)
    ensures
        shown_sessions(seq![Row::Header(label)]).len() == 0,
{
    let rows = seq![Row::Header(label)];
    assert(rows.drop_last() =~= seq![]);
    assert(shown_sessions(rows.drop_last()) == Seq::<AgentSessionItem>::empty());
}

/// Flattening sections keeps all of their sessions, in order.
pub proof fn lemma_flat_rows_keep_sessions(sections: Seq<Section>)
    ensures
        shown_sessions(flat_rows(sections)) == all_sessions(sections),
    decreases sections.len(),
{
    if sections.len() > 0 {
        let last = sections.last();
        lemma_flat_rows_keep_sessions(sections.drop_last());
        lemma_shown_concat(flat_rows(sections.drop_last()), section_rows(last));
        lemma_shown_header(last.label);
        lemma_shown_cards(last.sessions);
        lemma_shown_concat(
            seq![Row::Header(last.label)],
            last.sessions.map_values(|item: AgentSessionItem| Row::Session(item)),
        );
        assert(shown_sessions(section_rows(last)) =~= last.sessions);
    }
}

/// The rows of a session list start with the custom tmux sessions under their
/// header, where there are any, and show each persisted session once for each
/// time it was given, from the newest to the oldest. Nothing else is shown as a
/// session.
pub proof fn lemma_rows_show_history_after_tmux(
    sessions: Seq<AgentSessionSummary>,
    snapshots: Seq<AgentSharedSessions>,
    tmux: Seq<TmuxSession>,
    nows: Seq<Timestamp>,
)
    ensures
        shown_sessions(session_rows(sessions, snapshots, tmux, nows)) == newest_first(
            merged(sessions, snapshots),
        ),
        tmux.len() > 0 ==> {
            let rows = session_rows(sessions, snapshots, tmux, nows);
            &&& rows.len() > tmux.len()
            &&& rows[0] == Row::Header("Tmux sessions"@)
            &&& forall|i: int| 0 <= i < tmux.len() ==> rows[i + 1] == Row::Tmux(#[trigger] tmux[i])
        },
        tmux.len() == 0 ==> session_rows(sessions, snapshots, tmux, nows) == flat_rows(
            sections_by_day(merged(sessions, snapshots), nows),
        ),
{
    let items = merged(sessions, snapshots);
    let history = flat_rows(sections_by_day(items, nows));
    lemma_sections_by_day(items, nows);
    lemma_flat_rows_keep_sessions(sections_by_day(items, nows));
    lemma_shown_concat(tmux_rows(tmux), history);
    if tmux.len() > 0 {
        let cards = tmux.map_values(|session: TmuxSession| Row::Tmux(session));
        lemma_shown_header("Tmux sessions"@);
        lemma_shown_tmux(tmux);
        lemma_shown_concat(seq![Row::Header("Tmux sessions"@)], cards);
        assert(shown_sessions(tmux_rows(tmux)) =~= seq![]);
    } else {
        assert(tmux_rows(tmux) + history =~= history);
    }
    assert(shown_sessions(session_rows(sessions, snapshots, tmux, nows)) =~= newest_first(items));
}

proof fn lemma_placed_len(sorted: Seq<AgentSessionItem>, item: AgentSessionItem)
    ensures
        placed(sorted, item).len() == sorted.len() + 1,
    decreases sorted.len(),
{
    if sorted.len() > 0 && older(sorted.last(), item) {
        lemma_placed_len(sorted.drop_last(), item);
    }
}

proof fn lemma_newest_first_len(items: Seq<AgentSessionItem>)
    ensures
        newest_first(items).len() == items.len(),
    decreases items.len(),
{
    if items.len() > 0 {
        lemma_newest_first_len(items.drop_last());
        lemma_placed_len(newest_first(items.drop_last()), items.last());
    }
}

/// In the order, the last activity of a session is not earlier than that of any
/// session behind it, where no activity counts as the earliest. Where the two
/// last activities are at the same instant, neither is its creation.
pub proof fn lemma_newest_first_by_activity_then_creation(
    items: Seq<AgentSessionItem>,
    i: int,
    j: int,
)
    requires
        0 <= i < j < newest_first(items).len(),
    ensures
        ({
            let a = newest_first(items)[i].session;
            let b = newest_first(items)[j].session;
            &&& not_before(a.last_activity_at, b.last_activity_at)
            &&& not_before(b.last_activity_at, a.last_activity_at) ==> not_before(
                a.created_at,
                b.created_at,
            )
        }),
{
    let a = newest_first(items)[i].session;
    let b = newest_first(items)[j].session;
    lemma_newest_first_is_sorted(items);
    lemma_earlier_or_not_before(a.last_activity_at, b.last_activity_at);
    lemma_earlier_or_not_before(a.created_at, b.created_at);
}

/// Sessions whose last activity is at one instant, and whose creation is too,
/// keep the order in which they were given.
pub proof fn lemma_newest_first_keeps_ties_in_order(
    items: Seq<AgentSessionItem>,
    activity: Option<Timestamp>,
    created: Option<Timestamp>,
)
    ensures
        ({
            let tie = |item: AgentSessionItem|
                {
                    &&& not_before(item.session.last_activity_at, activity)
                    &&& not_before(activity, item.session.last_activity_at)
                    &&& not_before(item.session.created_at, created)
                    &&& not_before(created, item.session.created_at)
                };
            newest_first(items).filter(tie) == items.filter(tie)
        }),
    decreases items.len(),
{
    reveal(Seq::filter);
    let tie = |item: AgentSessionItem|
        {
            &&& not_before(item.session.last_activity_at, activity)
            &&& not_before(activity, item.session.last_activity_at)
            &&& not_before(item.session.created_at, created)
            &&& not_before(created, item.session.created_at)
        };
    if items.len() > 0 {
        lemma_newest_first_keeps_ties_in_order(items.drop_last(), activity, created);
        lemma_placed_keeps_ties(
            newest_first(items.drop_last()),
            items.last(),
            activity,
            created,
        );
    }
}

proof fn lemma_placed_keeps_ties(
    sorted: Seq<AgentSessionItem>,
    item: AgentSessionItem,
    activity: Option<Timestamp>,
    created: Option<Timestamp>,
)
    ensures
        ({
            let tie = |item: AgentSessionItem|
                {
                    &&& not_before(item.session.last_activity_at, activity)
                    &&& not_before(activity, item.session.last_activity_at)
                    &&& not_before(item.session.created_at, created)
                    &&& not_before(created, item.session.created_at)
                };
            placed(sorted, item).filter(tie) == (if tie(item) {
                sorted.filter(tie).push(item)
            } else {
                sorted.filter(tie)
            })
        }),
    decreases sorted.len(),
{
    reveal(Seq::filter);
    let tie = |item: AgentSessionItem|
        {
            &&& not_before(item.session.last_activity_at, activity)
            &&& not_before(activity, item.session.last_activity_at)
            &&& not_before(item.session.created_at, created)
            &&& not_before(created, item.session.created_at)
        };
    let whole = placed(sorted, item);
    if sorted.len() > 0 && older(sorted.last(), item) {
        let head = sorted.drop_last();
        let last = sorted.last();
        lemma_placed_keeps_ties(head, item, activity, created);
        lemma_placed_len(head, item);
        assert(whole.drop_last() =~= placed(head, item));
        assert(whole.last() == last);
        assert(!(tie(item) && tie(last))) by {
            lemma_earlier_or_not_before(
                last.session.last_activity_at,
                item.session.last_activity_at,
            );
            lemma_earlier_or_not_before(last.session.created_at, item.session.created_at);
        }
    } else {
        assert(whole.drop_last() =~= sorted);
        assert(whole.last() == item);
    }
}

proof fn lemma_shown_at_row(rows: Seq<Row>, p: int)
    requires
        0 <= p < rows.len(),
        rows[p] is Session,
    ensures
        shown_sessions(rows.take(p)).len() < shown_sessions(rows.take(p + 1)).len()
            <= shown_sessions(rows).len(),
        shown_sessions(rows)[shown_sessions(rows.take(p)).len() as int] == rows[p]->Session_0,
{
    let head = rows.take(p + 1);
    assert(head.drop_last() =~= rows.take(p));
    assert(rows =~= head + rows.skip(p + 1));
    lemma_shown_concat(head, rows.skip(p + 1));
}

/// Of two session rows, the last activity of the upper one is not earlier than
/// that of the lower one, where no activity counts as the earliest. Where the
/// two last activities are at the same instant, neither is its creation.
pub proof fn lemma_rows_run_from_newest_to_oldest(
    sessions: Seq<AgentSessionSummary>,
    snapshots: Seq<AgentSharedSessions>,
    tmux: Seq<TmuxSession>,
    nows: Seq<Timestamp>,
    upper: int,
    lower: int,
)
    requires
        ({
            let rows = session_rows(sessions, snapshots, tmux, nows);
            0 <= upper < lower < rows.len() && rows[upper] is Session && rows[lower] is Session
        }),
    ensures
        ({
            let rows = session_rows(sessions, snapshots, tmux, nows);
            let a = rows[upper]->Session_0.session;
            let b = rows[lower]->Session_0.session;
            &&& not_before(a.last_activity_at, b.last_activity_at)
            &&& not_before(b.last_activity_at, a.last_activity_at) ==> not_before(
                a.created_at,
                b.created_at,
            )
        }),
{
    let rows = session_rows(sessions, snapshots, tmux, nows);
    lemma_rows_show_history_after_tmux(sessions, snapshots, tmux, nows);
    lemma_shown_at_row(rows, upper);
    lemma_shown_at_row(rows, lower);
    let head = rows.take(upper + 1);
    let between = rows.subrange(upper + 1, lower);
    assert(rows.take(lower) =~= head + between);
    lemma_shown_concat(head, between);
    lemma_newest_first_by_activity_then_creation(
        merged(sessions, snapshots),
        shown_sessions(rows.take(upper)).len() as int,
        shown_sessions(rows.take(lower)).len() as int,
    );
}

/// Every session that was given has a row for each time that it was given, and
/// no other session has one.
pub proof fn lemma_rows_show_each_session(
    sessions: Seq<AgentSessionSummary>,
    snapshots: Seq<AgentSharedSessions>,
    tmux: Seq<TmuxSession>,
    nows: Seq<Timestamp>,
)
    ensures
        shown_sessions(session_rows(sessions, snapshots, tmux, nows)).to_multiset() == merged(
            sessions,
            snapshots,
        ).to_multiset(),
{
    lemma_rows_show_history_after_tmux(sessions, snapshots, tmux, nows);
    lemma_newest_first_keeps_sessions(merged(sessions, snapshots));
}

/// The rows of a section stand behind all rows of the sections before it, one
/// header for each and one row for each session: first its own header, then its
/// sessions in order.
pub proof fn lemma_flat_rows_by_place(sections: Seq<Section>, k: int)
    requires
        0 <= k < sections.len(),
    ensures
        flat_rows(sections).len() == all_sessions(sections).len() + sections.len(),
        ({
            let start = all_sessions(sections.take(k)).len() + k;
            let own = sections[k].sessions;
            &&& start + own.len() < flat_rows(sections).len()
            &&& flat_rows(sections)[start] == Row::Header(sections[k].label)
            &&& forall|i: int|
                0 <= i < own.len() ==> flat_rows(sections)[start + 1 + i] == Row::Session(
                    #[trigger] own[i],
                )
        }),
    decreases sections.len(),
{
    let head = sections.drop_last();
    let start = all_sessions(sections.take(k)).len() + k;
    let own = sections[k].sessions;
    let rows = flat_rows(sections);
    lemma_flat_rows_len(head);
    lemma_flat_rows_len(sections);
    if k < head.len() {
        lemma_flat_rows_by_place(head, k);
        assert(head.take(k) =~= sections.take(k));
        assert forall|i: int| 0 <= i < own.len() implies rows[start + 1 + i] == Row::Session(
            #[trigger] own[i],
        ) by {
            assert(flat_rows(head)[start + 1 + i] == Row::Session(head[k].sessions[i]));
        }
    } else {
        assert(sections.take(k) =~= head);
        assert(section_rows(sections.last())[0] == Row::Header(sections[k].label));
        assert forall|i: int| 0 <= i < own.len() implies rows[start + 1 + i] == Row::Session(
            #[trigger] own[i],
        ) by {
            assert(rows[start + 1 + i] == section_rows(sections.last())[1 + i]);
        }
    }
}

proof fn lemma_flat_rows_len(sections: Seq<Section>)
    ensures
        flat_rows(sections).len() == all_sessions(sections).len() + sections.len(),
    decreases sections.len(),
{
    if sections.len() > 0 {
        lemma_flat_rows_len(sections.drop_last());
    }
}

proof fn lemma_grouped_by_place(
    items: Seq<AgentSessionItem>,
    names: Seq<Seq<char>>,
    k: int,
    i: int,
)
    requires
        items.len() == names.len(),
        0 <= k < grouped(items, names).len(),
        0 <= i < grouped(items, names)[k].sessions.len(),
    ensures
        ({
            let sections = grouped(items, names);
            let at = all_sessions(sections.take(k)).len() + i;
            &&& at < items.len()
            &&& items[at] == sections[k].sessions[i]
            &&& names[at] == sections[k].label
        }),
    decreases items.len(),
{
    let head = items.drop_last();
    let names_head = names.drop_last();
    let before = grouped(head, names_head);
    let after = grouped(items, names);
    lemma_grouped(head, names_head);
    if k < before.len() {
        assert(before.take(k) =~= after.take(k));
        if i < before[k].sessions.len() {
            lemma_grouped_by_place(head, names_head, k, i);
        } else {
            assert(before.take(k) =~= before.drop_last());
            assert(all_sessions(before).len() == head.len());
        }
    } else {
        assert(after.take(k) =~= before);
    }
}

/// The session at each place of a section is the one at the same place of the
/// order, counted through all sections, and the section's label is the one of
/// that session's day: the day of its last activity, or of its creation where it
/// has no activity, seen from the instant that stands for its place.
pub proof fn lemma_sections_carry_their_day(
    items: Seq<AgentSessionItem>,
    nows: Seq<Timestamp>,
    k: int,
    i: int,
)
    requires
        0 <= k < sections_by_day(items, nows).len(),
        0 <= i < sections_by_day(items, nows)[k].sessions.len(),
    ensures
        ({
            let sections = sections_by_day(items, nows);
            let at = all_sessions(sections.take(k)).len() + i;
            let session = sections[k].sessions[i].session;
            let label = sections[k].label;
            let today = nows[at]@.seconds / 86400;
            let time = if session.last_activity_at is Some {
                session.last_activity_at
            } else {
                session.created_at
            };
            &&& at < items.len()
            &&& newest_first(items)[at] == sections[k].sessions[i]
            &&& time is None ==> label == "Unknown date"@
            &&& time matches Some(t) ==> {
                let day = t@.seconds / 86400;
                &&& day == today ==> label == "Today"@
                &&& day == today - 1 ==> label == "Yesterday"@
                &&& day != today && day != today - 1 ==> label == day_text(day)
            }
        }),
{
    lemma_newest_first_len(items);
    lemma_grouped_by_place(newest_first(items), labels(newest_first(items), nows), k, i);
}

/// Where in the snapshots a share of a session stands: in an available snapshot
/// of its agent, under its id.
pub open spec fn share_stands_at(
    snapshots: Seq<AgentSharedSessions>,
    session: AgentSessionSummary,
    k: int,
    m: int,
) -> bool {
    &&& 0 <= k < snapshots.len()
    &&& 0 <= m < snapshots[k].sessions@.len()
    &&& snapshots[k].available
    &&& snapshots[k].slug@ == session.slug@
    &&& snapshots[k].sessions@[m].session_id@ == session.session_id@
}

proof fn lemma_first_share_place(shares: Seq<AgentShareSession>, session_id: Seq<char>)
    ensures
        match first_share(shares, session_id) {
            Some(shared) => exists|m: int|
                {
                    &&& 0 <= m < shares.len()
                    &&& #[trigger] shares[m] == shared
                    &&& shared.session_id@ == session_id
                    &&& forall|n: int|
                        0 <= n < m ==> (#[trigger] shares[n]).session_id@ != session_id
                },
            None => forall|n: int|
                0 <= n < shares.len() ==> (#[trigger] shares[n]).session_id@ != session_id,
        },
    decreases shares.len(),
{
    if shares.len() > 0 {
        if shares[0].session_id@ == session_id {
            assert(shares[0] == first_share(shares, session_id)->0);
        } else {
            let rest = shares.skip(1);
            lemma_first_share_place(rest, session_id);
            if let Some(shared) = first_share(rest, session_id) {
                let m = choose|m: int|
                    {
                        &&& 0 <= m < rest.len()
                        &&& #[trigger] rest[m] == shared
                        &&& shared.session_id@ == session_id
                        &&& forall|n: int|
                            0 <= n < m ==> (#[trigger] rest[n]).session_id@ != session_id
                    };
                assert(shares[m + 1] == shared);
                assert forall|n: int| 0 <= n < m + 1 implies (#[trigger] shares[n]).session_id@
                    != session_id by {
                    if n > 0 {
                        assert(rest[n - 1] == shares[n]);
                    }
                }
            } else {
                assert forall|n: int| 0 <= n < shares.len() implies (
                #[trigger] shares[n]).session_id@ != session_id by {
                    if n > 0 {
                        assert(rest[n - 1] == shares[n]);
                    }
                }
            }
        }
    }
}

/// A row carries the first share of its session, by agent and id: there is none
/// in a snapshot before, and none before it in the same snapshot. It carries
/// none only where none stands anywhere.
pub proof fn lemma_row_carries_first_share(
    sessions: Seq<AgentSessionSummary>,
    snapshots: Seq<AgentSharedSessions>,
    i: int,
)
    requires
        0 <= i < sessions.len(),
    ensures
        merged(sessions, snapshots)[i].session == sessions[i],
        match merged(sessions, snapshots)[i].shared {
            Some(shared) => exists|k: int, m: int|
                {
                    &&& #[trigger] share_stands_at(snapshots, sessions[i], k, m)
                    &&& snapshots[k].sessions@[m] == shared
                    &&& forall|j: int, n: int|
                        #[trigger] share_stands_at(snapshots, sessions[i], j, n) ==> k < j || k == j
                            && m <= n
                },
            None => forall|j: int, n: int|
                !(#[trigger] share_stands_at(snapshots, sessions[i], j, n)),
        },
{
    let session = sessions[i];
    let slug = session.slug@;
    let session_id = session.session_id@;
    lemma_share_matches_full_identity(snapshots, slug, session_id);
    if let Some(shared) = share_of(snapshots, slug, session_id) {
        let k = choose|k: int|
            {
                &&& 0 <= k < snapshots.len()
                &&& shares_session(#[trigger] snapshots[k], slug, session_id)
                &&& first_share(snapshots[k].sessions@, session_id) == Some(shared)
                &&& forall|j: int|
                    0 <= j < k ==> !shares_session(#[trigger] snapshots[j], slug, session_id)
            };
        let shares = snapshots[k].sessions@;
        lemma_first_share_place(shares, session_id);
        let m = choose|m: int|
            {
                &&& 0 <= m < shares.len()
                &&& #[trigger] shares[m] == shared
                &&& shared.session_id@ == session_id
                &&& forall|n: int| 0 <= n < m ==> (#[trigger] shares[n]).session_id@ != session_id
            };
        assert(share_stands_at(snapshots, session, k, m));
        assert forall|j: int, n: int| #[trigger]
            share_stands_at(snapshots, session, j, n) implies k < j || k == j && m <= n by {
            let other = snapshots[j].sessions@[n];
            assert(shares_session(snapshots[j], slug, session_id));
        }
    } else {
        assert forall|j: int, n: int| !(#[trigger] share_stands_at(snapshots, session, j, n)) by {
            if share_stands_at(snapshots, session, j, n) {
                let other = snapshots[j].sessions@[n];
                assert(shares_session(snapshots[j], slug, session_id));
            }
        }
    }
}

/// The text of a badge: a live share says so, and an ended one gives its exit
/// code in decimal where that is known.
pub proof fn lemma_badge_texts(code: u32)
    ensures
        status_label(SharedSessionStatus::Live) == "Live"@,
        status_label(SharedSessionStatus::Ended(None)) == "Ended"@,
        ({
            let label = status_label(SharedSessionStatus::Ended(Some(code)));
            &&& label == "Ended (code "@ + decimal(code as nat) + ")"@
            &&& label.len() == 13 + decimal(code as nat).len()
        }),
{
    reveal_strlit("Ended (code ");
    reveal_strlit(")");
}

/// The rows of a session list in full: without custom sessions the rows of the
/// history alone, and else one header, the custom sessions in order, and then
/// the rows of the history.
pub proof fn lemma_rows_in_full(
    sessions: Seq<AgentSessionSummary>,
    snapshots: Seq<AgentSharedSessions>,
    tmux: Seq<TmuxSession>,
    nows: Seq<Timestamp>,
)
    ensures
        ({
            let rows = session_rows(sessions, snapshots, tmux, nows);
            let history = flat_rows(sections_by_day(merged(sessions, snapshots), nows));
            &&& tmux.len() == 0 ==> rows == history
            &&& tmux.len() > 0 ==> rows == seq![Row::Header("Tmux sessions"@)] + Seq::new(
                tmux.len(),
                |i: int| Row::Tmux(tmux[i]),
            ) + history
        }),
{
    let history = flat_rows(sections_by_day(merged(sessions, snapshots), nows));
    assert(tmux.map_values(|session: TmuxSession| Row::Tmux(session)) =~= Seq::new(
        tmux.len(),
        |i: int| Row::Tmux(tmux[i]),
    ));
    if tmux.len() == 0 {
        assert(tmux_rows(tmux) + history =~= history);
    }
}

/// Sections and rows over mathematical values keep every field.
pub proof fn lemma_sections_and_rows_keep_fields(
    section: AgentSessionSection,
    row: AgentSessionRow,
    rows: Seq<AgentSessionRow>,
    i: int,
)
    ensures
        section@.label == section.label@,
        section@.sessions == section.sessions@,
        row matches AgentSessionRow::Header(label) ==> row@ == Row::Header(label@),
        row matches AgentSessionRow::Tmux(session) ==> row@ == Row::Tmux(session@),
        row matches AgentSessionRow::Session(item) ==> row@ == Row::Session(item),
        rows_view(rows).len() == rows.len(),
        0 <= i < rows.len() ==> rows_view(rows)[i] == rows[i]@,
{
}

} // verus!
