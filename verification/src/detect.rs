//! Sessions that Zedra does not own and whose live panes show one coherent
//! agent: detecting, listing, attaching to and terminating them.

use crate::client::{
    argument_list, attach_line, command, kill_arguments, kill_outcome, kill_result,
    lemma_reply_texts, outcome_of_kill, replies_of, reply_of, reply_text, unit_step, written,
    Client, Command, CommandReply, Reply, Stage, Step, TmuxClient, TmuxCommand,
};
use crate::error::{Failure, TmuxError};
use crate::identity::OWNED_SESSION_PREFIX;
use crate::listing::{lemma_session_listings, listed_text, name_list_command, session_listing};
use crate::records::{
    metadata_record, parse_pane_metadata, parse_pane_process, parse_session_record, process_record,
    session_record, MetadataRecord, PaneMetadata, PaneProcess, ProcessRecord, SessionRecord,
    TmuxSessionRecord, METADATA_PANE_FORMAT, PROCESS_PANE_FORMAT, SESSION_FORMAT,
};
use crate::shell::{quoted, shell_quote_always};
use crate::text::{
    has_prefix, lemma_prefix_and_rest, lines, lines_of, list_contains, optional_text, same_text, starts_with, texts, trim,
    trimmed,
};
use vstd::prelude::*;

verus! {

// ---------------------------------------------------------------------------
// Known agents
// ---------------------------------------------------------------------------

/// The answer to an identification: the agent that a command line starts, if it
/// starts one.
#[derive(Debug)]
pub struct KnownAgent {
    pub command: String,
    pub agent: Option<String>,
}

/// A [`KnownAgent`] over mathematical text.
pub struct Answer {
    pub command: Seq<char>,
    pub agent: Option<Seq<char>>,
}

impl View for KnownAgent {
    type V = Answer;

    open spec fn view(&self) -> Answer {
        Answer { command: self.command@, agent: optional_text(self.agent) }
    }
}

pub open spec fn answers_of(known: Seq<KnownAgent>) -> Seq<Answer> {
    Seq::new(known.len(), |i: int| known[i]@)
}

/// The first answer for a command line, if there is one.
pub open spec fn answer_for(known: Seq<Answer>, line: Seq<char>) -> Option<Option<Seq<char>>>
    decreases known.len(),
{
    if known.len() == 0 {
        None
    } else if known[0].command == line {
        Some(known[0].agent)
    } else {
        answer_for(known.skip(1), line)
    }
}

/// What is known of the agent in a pane.
pub enum PaneAgent {
    /// The answer for this command line is wanted.
    Unknown { line: Seq<char> },
    /// The pane shows no agent.
    Absent,
    /// The pane shows this agent, by this command line.
    Present { slug: Seq<char>, line: Seq<char> },
}

/// What is known of the agent that a command line starts.
pub open spec fn line_agent(known: Seq<Answer>, text: Seq<char>) -> PaneAgent {
    let line = trimmed(text);
    if line.len() == 0 {
        PaneAgent::Absent
    } else {
        match answer_for(known, line) {
            None => PaneAgent::Unknown { line },
            Some(None) => PaneAgent::Absent,
            Some(Some(slug)) => PaneAgent::Present { slug, line },
        }
    }
}

/// What is known of the agent in a pane: its current command decides, and its
/// start command where the current one starts no agent.
pub open spec fn pane_agent(
    known: Seq<Answer>,
    process: ProcessRecord,
    metadata: MetadataRecord,
) -> PaneAgent {
    match line_agent(known, process.current_command) {
        PaneAgent::Absent => line_agent(known, metadata.start_command),
        other => other,
    }
}

/// A [`PaneAgent`] with owned text.
pub enum FoundAgent {
    Unknown(String),
    Absent,
    Present(String, String),
}

impl View for FoundAgent {
    type V = PaneAgent;

    open spec fn view(&self) -> PaneAgent {
        match *self {
            FoundAgent::Unknown(line) => PaneAgent::Unknown { line: line@ },
            FoundAgent::Absent => PaneAgent::Absent,
            FoundAgent::Present(slug, line) => PaneAgent::Present { slug: slug@, line: line@ },
        }
    }
}

fn find_answer<'a>(known: &'a Vec<KnownAgent>, line: &str) -> (answer: Option<&'a KnownAgent>)
    ensures
        match answer {
            Some(a) => answer_for(answers_of(known@), line@) == Some(optional_text(a.agent)),
            None => answer_for(answers_of(known@), line@) is None,
        },
{
    let ghost all = answers_of(known@);
    let mut i: usize = 0;
    assert(all.skip(0) =~= all);
    while i < known.len()
        invariant
            i <= known@.len(),
            all == answers_of(known@),
            answer_for(all, line@) == answer_for(all.skip(i as int), line@),
        decreases known@.len() - i,
    {
        assert(all.skip(i as int)[0] == known@[i as int]@);
        assert(all.skip(i as int).skip(1) =~= all.skip(i + 1));
        if same_text(known[i].command.as_str(), line) {
            return Some(&known[i]);
        }
        i += 1;
    }
    None
}

fn find_line_agent(known: &Vec<KnownAgent>, text: &str) -> (agent: FoundAgent)
    ensures
        agent@ == line_agent(answers_of(known@), text@),
{
    let line = trim(text);
    if line.as_str().is_empty() {
        return FoundAgent::Absent;
    }
    match find_answer(known, line.as_str()) {
        None => FoundAgent::Unknown(line),
        Some(answer) => match &answer.agent {
            None => FoundAgent::Absent,
            Some(slug) => FoundAgent::Present(slug.clone(), line),
        },
    }
}

fn find_pane_agent(
    known: &Vec<KnownAgent>,
    process: &PaneProcess,
    metadata: &PaneMetadata,
) -> (agent: FoundAgent)
    ensures
        agent@ == pane_agent(answers_of(known@), process@, metadata@),
{
    match find_line_agent(known, process.current_command.as_str()) {
        FoundAgent::Absent => find_line_agent(known, metadata.start_command.as_str()),
        other => other,
    }
}

// ---------------------------------------------------------------------------
// Paired pane records
// ---------------------------------------------------------------------------

/// All process records in a listing, or the failure of the first bad line.
pub open spec fn process_records(listed: Seq<Seq<char>>) -> Result<Seq<ProcessRecord>, Failure>
    decreases listed.len(),
{
    if listed.len() == 0 {
        Ok(seq![])
    } else {
        match (process_records(listed.drop_last()), process_record(listed.last())) {
            (Err(failure), _) => Err(failure),
            (Ok(_), Err(failure)) => Err(failure),
            (Ok(records), Ok(record)) => Ok(records.push(record)),
        }
    }
}

/// All metadata records in a listing, or the failure of the first bad line.
pub open spec fn metadata_records(listed: Seq<Seq<char>>) -> Result<Seq<MetadataRecord>, Failure>
    decreases listed.len(),
{
    if listed.len() == 0 {
        Ok(seq![])
    } else {
        match (metadata_records(listed.drop_last()), metadata_record(listed.last())) {
            (Err(failure), _) => Err(failure),
            (Ok(_), Err(failure)) => Err(failure),
            (Ok(records), Ok(record)) => Ok(records.push(record)),
        }
    }
}

/// All session records in a listing, or the failure of the first bad line.
pub open spec fn session_records(listed: Seq<Seq<char>>) -> Result<Seq<SessionRecord>, Failure>
    decreases listed.len(),
{
    if listed.len() == 0 {
        Ok(seq![])
    } else {
        match (session_records(listed.drop_last()), session_record(listed.last())) {
            (Err(failure), _) => Err(failure),
            (Ok(_), Err(failure)) => Err(failure),
            (Ok(records), Ok(record)) => Ok(records.push(record)),
        }
    }
}

proof fn lemma_process_records_prefix(listed: Seq<Seq<char>>, i: int)
    requires
        0 <= i <= listed.len(),
        process_records(listed.take(i)) is Err,
    ensures
        process_records(listed) == process_records(listed.take(i)),
    decreases listed.len() - i,
{
    if i == listed.len() {
        assert(listed.take(i) =~= listed);
    } else {
        assert(listed.take(i + 1).drop_last() =~= listed.take(i));
        lemma_process_records_prefix(listed, i + 1);
    }
}

proof fn lemma_metadata_records_prefix(listed: Seq<Seq<char>>, i: int)
    requires
        0 <= i <= listed.len(),
        metadata_records(listed.take(i)) is Err,
    ensures
        metadata_records(listed) == metadata_records(listed.take(i)),
    decreases listed.len() - i,
{
    if i == listed.len() {
        assert(listed.take(i) =~= listed);
    } else {
        assert(listed.take(i + 1).drop_last() =~= listed.take(i));
        lemma_metadata_records_prefix(listed, i + 1);
    }
}

proof fn lemma_session_records_prefix(listed: Seq<Seq<char>>, i: int)
    requires
        0 <= i <= listed.len(),
        session_records(listed.take(i)) is Err,
    ensures
        session_records(listed) == session_records(listed.take(i)),
    decreases listed.len() - i,
{
    if i == listed.len() {
        assert(listed.take(i) =~= listed);
    } else {
        assert(listed.take(i + 1).drop_last() =~= listed.take(i));
        lemma_session_records_prefix(listed, i + 1);
    }
}

pub open spec fn processes_view(records: Seq<PaneProcess>) -> Seq<ProcessRecord> {
    Seq::new(records.len(), |i: int| records[i]@)
}

pub open spec fn metadata_view(records: Seq<PaneMetadata>) -> Seq<MetadataRecord> {
    Seq::new(records.len(), |i: int| records[i]@)
}

pub open spec fn sessions_view(records: Seq<TmuxSessionRecord>) -> Seq<SessionRecord> {
    Seq::new(records.len(), |i: int| records[i]@)
}

fn parse_processes(text: &str) -> (records: Result<Vec<PaneProcess>, TmuxError>)
    ensures
        match records {
            Ok(r) => process_records(lines_of(text@)) == Ok::<Seq<ProcessRecord>, Failure>(
                processes_view(r@),
            ),
            Err(e) => process_records(lines_of(text@)) == Err::<Seq<ProcessRecord>, Failure>(e@),
        },
{
    let list = lines(text);
    let ghost listed = lines_of(text@);
    let mut records: Vec<PaneProcess> = Vec::new();
    let mut i: usize = 0;
    assert(texts(list@).len() == list@.len());
    assert(listed.take(0) =~= seq![]);
    assert(processes_view(records@) =~= seq![]);
    while i < list.len()
        invariant
            i <= list@.len(),
            texts(list@) == listed,
            listed.len() == list@.len(),
            listed == lines_of(text@),
            process_records(listed.take(i as int)) == Ok::<Seq<ProcessRecord>, Failure>(
                processes_view(records@),
            ),
        decreases list@.len() - i,
    {
        assert(texts(list@)[i as int] == list@[i as int]@);
        assert(listed.take(i + 1).drop_last() =~= listed.take(i as int));
        assert(listed.take(i + 1).last() == list@[i as int]@);
        match parse_pane_process(list[i].as_str()) {
            Ok(record) => {
                let ghost before = records@;
                records.push(record);
                assert(processes_view(records@) =~= processes_view(before).push(record@));
            },
            Err(error) => {
                proof {
                    lemma_process_records_prefix(listed, i + 1);
                }
                return Err(error);
            },
        }
        i += 1;
    }
    assert(listed.take(i as int) =~= listed);
    Ok(records)
}

fn parse_metadata(text: &str) -> (records: Result<Vec<PaneMetadata>, TmuxError>)
    ensures
        match records {
            Ok(r) => metadata_records(lines_of(text@)) == Ok::<Seq<MetadataRecord>, Failure>(
                metadata_view(r@),
            ),
            Err(e) => metadata_records(lines_of(text@)) == Err::<Seq<MetadataRecord>, Failure>(e@),
        },
{
    let list = lines(text);
    let ghost listed = lines_of(text@);
    let mut records: Vec<PaneMetadata> = Vec::new();
    let mut i: usize = 0;
    assert(texts(list@).len() == list@.len());
    assert(listed.take(0) =~= seq![]);
    assert(metadata_view(records@) =~= seq![]);
    while i < list.len()
        invariant
            i <= list@.len(),
            texts(list@) == listed,
            listed.len() == list@.len(),
            listed == lines_of(text@),
            metadata_records(listed.take(i as int)) == Ok::<Seq<MetadataRecord>, Failure>(
                metadata_view(records@),
            ),
        decreases list@.len() - i,
    {
        assert(texts(list@)[i as int] == list@[i as int]@);
        assert(listed.take(i + 1).drop_last() =~= listed.take(i as int));
        assert(listed.take(i + 1).last() == list@[i as int]@);
        match parse_pane_metadata(list[i].as_str()) {
            Ok(record) => {
                let ghost before = records@;
                records.push(record);
                assert(metadata_view(records@) =~= metadata_view(before).push(record@));
            },
            Err(error) => {
                proof {
                    lemma_metadata_records_prefix(listed, i + 1);
                }
                return Err(error);
            },
        }
        i += 1;
    }
    assert(listed.take(i as int) =~= listed);
    Ok(records)
}

fn parse_sessions(text: &str) -> (records: Result<Vec<TmuxSessionRecord>, TmuxError>)
    ensures
        match records {
            Ok(r) => session_records(lines_of(text@)) == Ok::<Seq<SessionRecord>, Failure>(
                sessions_view(r@),
            ),
            Err(e) => session_records(lines_of(text@)) == Err::<Seq<SessionRecord>, Failure>(e@),
        },
{
    let list = lines(text);
    let ghost listed = lines_of(text@);
    let mut records: Vec<TmuxSessionRecord> = Vec::new();
    let mut i: usize = 0;
    assert(texts(list@).len() == list@.len());
    assert(listed.take(0) =~= seq![]);
    assert(sessions_view(records@) =~= seq![]);
    while i < list.len()
        invariant
            i <= list@.len(),
            texts(list@) == listed,
            listed.len() == list@.len(),
            listed == lines_of(text@),
            session_records(listed.take(i as int)) == Ok::<Seq<SessionRecord>, Failure>(
                sessions_view(records@),
            ),
        decreases list@.len() - i,
    {
        assert(texts(list@)[i as int] == list@[i as int]@);
        assert(listed.take(i + 1).drop_last() =~= listed.take(i as int));
        assert(listed.take(i + 1).last() == list@[i as int]@);
        match parse_session_record(list[i].as_str()) {
            Ok(record) => {
                let ghost before = records@;
                records.push(record);
                assert(sessions_view(records@) =~= sessions_view(before).push(record@));
            },
            Err(error) => {
                proof {
                    lemma_session_records_prefix(listed, i + 1);
                }
                return Err(error);
            },
        }
        i += 1;
    }
    assert(listed.take(i as int) =~= listed);
    Ok(records)
}

/// The ids of panes, in order.
pub open spec fn process_ids(records: Seq<ProcessRecord>) -> Seq<Seq<char>> {
    Seq::new(records.len(), |i: int| records[i].pane_id)
}

/// The ids of panes, in order.
pub open spec fn metadata_ids(records: Seq<MetadataRecord>) -> Seq<Seq<char>> {
    Seq::new(records.len(), |i: int| records[i].pane_id)
}

/// Two listings of the same panes, each pane once in both.
pub open spec fn paired(processes: Seq<ProcessRecord>, metadata: Seq<MetadataRecord>) -> bool {
    &&& processes.len() == metadata.len()
    &&& process_ids(processes).no_duplicates()
    &&& metadata_ids(metadata).no_duplicates()
    &&& forall|i: int|
        0 <= i < processes.len() ==> metadata_ids(metadata).contains(
            #[trigger] process_ids(processes)[i],
        )
}

/// What keeps two listings from being paired, if anything does.
pub open spec fn pairing_failure(
    processes: Seq<ProcessRecord>,
    metadata: Seq<MetadataRecord>,
) -> Option<Failure> {
    if processes.len() != metadata.len() {
        Some(Failure::PaneCountsDiffer)
    } else if !process_ids(processes).no_duplicates() {
        Some(Failure::DuplicateProcessIds)
    } else if !metadata_ids(metadata).no_duplicates() {
        Some(Failure::DuplicateMetadataIds)
    } else if !paired(processes, metadata) {
        Some(Failure::PaneIdsDiffer)
    } else {
        None
    }
}

/// The metadata of a pane.
pub open spec fn metadata_of(metadata: Seq<MetadataRecord>, pane_id: Seq<char>) -> MetadataRecord {
    let i = choose|i: int| 0 <= i < metadata.len() && (#[trigger] metadata[i]).pane_id == pane_id;
    metadata[i]
}

fn ids_repeat(ids: &Vec<String>) -> (repeat: bool)
    ensures
        repeat == !texts(ids@).no_duplicates(),
{
    let mut i: usize = 0;
    while i < ids.len()
        invariant
            i <= ids@.len(),
            forall|a: int, b: int|
                0 <= a < b < ids@.len() && a < i ==> texts(ids@)[a] != texts(ids@)[b],
        decreases ids@.len() - i,
    {
        let mut j: usize = i + 1;
        while j < ids.len()
            invariant
                i < j <= ids@.len(),
                forall|b: int| i < b < j ==> texts(ids@)[i as int] != #[trigger] texts(ids@)[b],
            decreases ids@.len() - j,
        {
            if same_text(ids[i].as_str(), ids[j].as_str()) {
                assert(texts(ids@)[i as int] == texts(ids@)[j as int]);
                return true;
            }
            j += 1;
        }
        i += 1;
    }
    false
}

fn find_metadata(metadata: &Vec<PaneMetadata>, pane_id: &str) -> (at: Option<usize>)
    ensures
        match at {
            Some(i) => i < metadata@.len() && metadata@[i as int].pane_id@ == pane_id@,
            None => !metadata_ids(metadata_view(metadata@)).contains(pane_id@),
        },
{
    let mut i: usize = 0;
    while i < metadata.len()
        invariant
            i <= metadata@.len(),
            forall|j: int| 0 <= j < i ==> (#[trigger] metadata@[j]).pane_id@ != pane_id@,
        decreases metadata@.len() - i,
    {
        if same_text(metadata[i].pane_id.as_str(), pane_id) {
            return Some(i);
        }
        i += 1;
    }
    proof {
        let ids = metadata_ids(metadata_view(metadata@));
        if ids.contains(pane_id@) {
            let j = choose|j: int| 0 <= j < ids.len() && ids[j] == pane_id@;
            assert(metadata@[j].pane_id@ == pane_id@);
        }
    }
    None
}

fn check_pairing(processes: &Vec<PaneProcess>, metadata: &Vec<PaneMetadata>) -> (result: Result<
    (),
    TmuxError,
>)
    ensures
        match result {
            Ok(_) => pairing_failure(
                processes_view(processes@),
                metadata_view(metadata@),
            ) is None,
            Err(e) => pairing_failure(processes_view(processes@), metadata_view(metadata@))
                == Some(e@),
        },
{
    if processes.len() != metadata.len() {
        return Err(TmuxError::PaneCountsDiffer);
    }
    let mut ids: Vec<String> = Vec::new();
    let mut others: Vec<String> = Vec::new();
    let mut i: usize = 0;
    while i < processes.len()
        invariant
            i <= processes@.len(),
            processes@.len() == metadata@.len(),
            ids@.len() == i,
            others@.len() == i,
            forall|j: int| 0 <= j < i ==> (#[trigger] ids@[j])@ == processes@[j].pane_id@,
            forall|j: int| 0 <= j < i ==> (#[trigger] others@[j])@ == metadata@[j].pane_id@,
        decreases processes@.len() - i,
    {
        ids.push(processes[i].pane_id.clone());
        others.push(metadata[i].pane_id.clone());
        i += 1;
    }
    assert(texts(ids@) =~= process_ids(processes_view(processes@)));
    assert(texts(others@) =~= metadata_ids(metadata_view(metadata@)));
    if ids_repeat(&ids) {
        return Err(TmuxError::DuplicateProcessIds);
    }
    if ids_repeat(&others) {
        return Err(TmuxError::DuplicateMetadataIds);
    }
    let mut k: usize = 0;
    while k < ids.len()
        invariant
            k <= ids@.len(),
            texts(ids@) == process_ids(processes_view(processes@)),
            texts(others@) == metadata_ids(metadata_view(metadata@)),
            processes@.len() == metadata@.len(),
            ids@.len() == processes@.len(),
            texts(ids@).no_duplicates(),
            texts(others@).no_duplicates(),
            forall|j: int|
                0 <= j < k ==> texts(others@).contains(
                    #[trigger] process_ids(processes_view(processes@))[j],
                ),
        decreases ids@.len() - k,
    {
        assert(texts(ids@)[k as int] == ids@[k as int]@);
        if !list_contains(&others, ids[k].as_str()) {
            assert(!metadata_ids(metadata_view(metadata@)).contains(
                process_ids(processes_view(processes@))[k as int],
            ));
            return Err(TmuxError::PaneIdsDiffer);
        }
        k += 1;
    }
    Ok(())
}

// ---------------------------------------------------------------------------
// Choosing the agent of a session
// ---------------------------------------------------------------------------

/// An agent found in a pane.
pub struct Selection {
    pub slug: Seq<char>,
    pub line: Seq<char>,
    pub metadata: MetadataRecord,
}

/// The one agent that these panes show beside the agent selected before them,
/// and nothing where they show none or different ones.
pub open spec fn selection(
    processes: Seq<ProcessRecord>,
    metadata: Seq<MetadataRecord>,
    known: Seq<Answer>,
    selected: Option<Selection>,
) -> Stage<Option<Selection>>
    decreases processes.len(),
{
    if processes.len() == 0 {
        Stage::Done(selected)
    } else if processes[0].dead {
        selection(processes.skip(1), metadata, known, selected)
    } else {
        let pane = metadata_of(metadata, processes[0].pane_id);
        match pane_agent(known, processes[0], pane) {
            PaneAgent::Unknown { line } => Stage::Identify(line),
            PaneAgent::Absent => selection(processes.skip(1), metadata, known, selected),
            PaneAgent::Present { slug, line } => match selected {
                None => selection(
                    processes.skip(1),
                    metadata,
                    known,
                    Some(Selection { slug, line, metadata: pane }),
                ),
                Some(s) => if s.slug == slug {
                    selection(processes.skip(1), metadata, known, selected)
                } else {
                    Stage::Done(None)
                },
            },
        }
    }
}

fn select_agent(
    processes: &Vec<PaneProcess>,
    metadata: &Vec<PaneMetadata>,
    known: &Vec<KnownAgent>,
) -> (step: Step<Option<(String, String, usize)>>)
    requires
        paired(processes_view(processes@), metadata_view(metadata@)),
    ensures
        match step {
            Step::Run(_) => false,
            Step::Identify(line) => selection(
                processes_view(processes@),
                metadata_view(metadata@),
                answers_of(known@),
                None,
            ) == Stage::<Option<Selection>>::Identify(line@),
            Step::Done(None) => selection(
                processes_view(processes@),
                metadata_view(metadata@),
                answers_of(known@),
                None,
            ) == Stage::<Option<Selection>>::Done(None),
            Step::Done(Some((slug, line, at))) => {
                &&& at < metadata@.len()
                &&& selection(
                    processes_view(processes@),
                    metadata_view(metadata@),
                    answers_of(known@),
                    None,
                ) == Stage::Done(
                    Some(Selection { slug: slug@, line: line@, metadata: metadata@[at as int]@ }),
                )
            },
        },
{
    let ghost all = processes_view(processes@);
    let ghost panes = metadata_view(metadata@);
    let ghost answers = answers_of(known@);
    let mut selected: Option<(String, String, usize)> = None;
    let ghost mut chosen: Option<Selection> = None;
    let mut k: usize = 0;
    assert(all.skip(0) =~= all);
    while k < processes.len()
        invariant
            k <= processes@.len(),
            all == processes_view(processes@),
            panes == metadata_view(metadata@),
            answers == answers_of(known@),
            paired(all, panes),
            match selected {
                None => chosen is None,
                Some((slug, line, at)) => at < metadata@.len() && chosen == Some(
                    Selection { slug: slug@, line: line@, metadata: metadata@[at as int]@ },
                ),
            },
            selection(all, panes, answers, None) == selection(
                all.skip(k as int),
                panes,
                answers,
                chosen,
            ),
        decreases processes@.len() - k,
    {
        let ghost rest = all.skip(k as int);
        assert(rest[0] == processes@[k as int]@);
        assert(rest.skip(1) =~= all.skip(k + 1));
        let process = &processes[k];
        k += 1;
        if process.dead {
            continue;
        }
        let at: usize = match find_metadata(metadata, process.pane_id.as_str()) {
            Some(at) => at,
            None => {
                assert(process_ids(all)[k - 1] == process.pane_id@);
                assert(false);
                continue;
            },
        };
        proof {
            let i = choose|i: int|
                0 <= i < panes.len() && (#[trigger] panes[i]).pane_id == process.pane_id@;
            assert(panes[at as int].pane_id == process.pane_id@);
            assert(metadata_ids(panes)[i] == metadata_ids(panes)[at as int]);
            assert(metadata_of(panes, process.pane_id@) == metadata@[at as int]@);
        }
        match find_pane_agent(known, process, &metadata[at]) {
            FoundAgent::Unknown(line) => {
                return Step::Identify(line);
            },
            FoundAgent::Absent => {},
            FoundAgent::Present(slug, line) => {
                let conflict = match &selected {
                    None => false,
                    Some(s) => !same_text(s.0.as_str(), slug.as_str()),
                };
                if conflict {
                    return Step::Done(None);
                }
                if selected.is_none() {
                    proof {
                        chosen = Some(
                            Selection {
                                slug: slug@,
                                line: line@,
                                metadata: metadata@[at as int]@,
                            },
                        );
                    }
                    selected = Some((slug, line, at));
                }
            },
        }
    }
    assert(all.skip(k as int) =~= seq![]);
    Step::Done(selected)
}

// ---------------------------------------------------------------------------
// Detecting a session
// ---------------------------------------------------------------------------

/// A non-owned tmux session containing one coherent registered agent kind.
#[derive(Debug, PartialEq, Eq)]
pub struct DetectedTmuxSession {
    pub name: String,
    pub agent_slug: String,
    pub identity_command: String,
    pub pane_title: String,
    pub current_path: String,
    pub start_command: String,
    pub attached_clients: u32,
    pub activity_unix_seconds: i64,
}

/// A [`DetectedTmuxSession`] over mathematical text.
pub struct DetectedRecord {
    pub name: Seq<char>,
    pub agent_slug: Seq<char>,
    pub identity_command: Seq<char>,
    pub pane_title: Seq<char>,
    pub current_path: Seq<char>,
    pub start_command: Seq<char>,
    pub attached_clients: u32,
    pub activity_unix_seconds: i64,
}

impl View for DetectedTmuxSession {
    type V = DetectedRecord;

    open spec fn view(&self) -> DetectedRecord {
        DetectedRecord {
            name: self.name@,
            agent_slug: self.agent_slug@,
            identity_command: self.identity_command@,
            pane_title: self.pane_title@,
            current_path: self.current_path@,
            start_command: self.start_command@,
            attached_clients: self.attached_clients,
            activity_unix_seconds: self.activity_unix_seconds,
        }
    }
}

/// The target that selects the session of exactly this name.
pub open spec fn exact_target(name: Seq<char>) -> Seq<char> {
    "="@ + name
}

/// The arguments that list all panes of exactly this session.
pub open spec fn session_pane_arguments(name: Seq<char>, format: Seq<char>) -> Seq<Seq<char>> {
    seq!["list-panes"@, "-s"@, "-t"@, exact_target(name), "-F"@, format]
}

/// A session with the agent selected in it.
pub open spec fn detected(record: SessionRecord, selected: Selection) -> DetectedRecord {
    DetectedRecord {
        name: record.name,
        agent_slug: selected.slug,
        identity_command: selected.line,
        pane_title: selected.metadata.title,
        current_path: selected.metadata.current_path,
        start_command: selected.metadata.start_command,
        attached_clients: record.attached_clients,
        activity_unix_seconds: record.activity_unix_seconds,
    }
}

/// The panes in two listings of a session, if the two pair up.
pub open spec fn session_panes(process_text: Seq<char>, metadata_text: Seq<char>) -> Result<
    (Seq<ProcessRecord>, Seq<MetadataRecord>),
    Failure,
> {
    match process_records(lines_of(process_text)) {
        Err(failure) => Err(failure),
        Ok(processes) => match metadata_records(lines_of(metadata_text)) {
            Err(failure) => Err(failure),
            Ok(metadata) => match pairing_failure(processes, metadata) {
                Some(failure) => Err(failure),
                None => Ok((processes, metadata)),
            },
        },
    }
}

/// The session that its pane listings show, as far as the answers tell.
pub open spec fn detection(
    record: SessionRecord,
    process_text: Seq<char>,
    metadata_text: Seq<char>,
    known: Seq<Answer>,
) -> Stage<Result<Option<DetectedRecord>, Failure>> {
    match session_panes(process_text, metadata_text) {
        Err(failure) => Stage::Done(Err(failure)),
        Ok((processes, metadata)) => match selection(processes, metadata, known, None) {
            Stage::Run(next) => Stage::Run(next),
            Stage::Identify(line) => Stage::Identify(line),
            Stage::Done(None) => Stage::Done(Ok(None)),
            Stage::Done(Some(selected)) => Stage::Done(Ok(Some(detected(record, selected)))),
        },
    }
}

/// How far the detection of a session has come: its outcome and how many
/// replies that has taken.
pub open spec fn detect_stage(
    client: Client,
    record: SessionRecord,
    replies: Seq<Reply>,
    known: Seq<Answer>,
) -> Stage<(Result<Option<DetectedRecord>, Failure>, nat)> {
    let what = "list detected session panes"@;
    if replies.len() == 0 {
        Stage::Run(
            command(client, session_pane_arguments(record.name, PROCESS_PANE_FORMAT@), what),
        )
    } else if reply_text(replies[0], what) is Err {
        Stage::Done((Err(reply_text(replies[0], what)->Err_0), 1))
    } else if replies.len() == 1 {
        Stage::Run(
            command(client, session_pane_arguments(record.name, METADATA_PANE_FORMAT@), what),
        )
    } else if reply_text(replies[1], what) is Err {
        Stage::Done((Err(reply_text(replies[1], what)->Err_0), 2))
    } else {
        match detection(
            record,
            reply_text(replies[0], what)->Ok_0,
            reply_text(replies[1], what)->Ok_0,
            known,
        ) {
            Stage::Run(next) => Stage::Run(next),
            Stage::Identify(line) => Stage::Identify(line),
            Stage::Done(outcome) => Stage::Done((outcome, 2)),
        }
    }
}

/// The outcome of a detection over mathematical text.
pub open spec fn outcome_of(outcome: Result<Option<DetectedTmuxSession>, TmuxError>) -> Result<
    Option<DetectedRecord>,
    Failure,
> {
    match outcome {
        Ok(Some(session)) => Ok(Some(session@)),
        Ok(None) => Ok(None),
        Err(error) => Err(error@),
    }
}

/// The session that its pane listings show, as far as the answers tell.
pub fn detect_panes(
    record: &TmuxSessionRecord,
    process_text: &str,
    metadata_text: &str,
    known: &Vec<KnownAgent>,
) -> (step: Step<Result<Option<DetectedTmuxSession>, TmuxError>>)
    ensures
        match step {
            Step::Run(_) => false,
            Step::Identify(line) => detection(
                record@,
                process_text@,
                metadata_text@,
                answers_of(known@),
            ) == Stage::<Result<Option<DetectedRecord>, Failure>>::Identify(line@),
            Step::Done(outcome) => detection(
                record@,
                process_text@,
                metadata_text@,
                answers_of(known@),
            ) == Stage::Done(outcome_of(outcome)),
        },
{
    let processes = match parse_processes(process_text) {
        Ok(processes) => processes,
        Err(error) => {
            return Step::Done(Err(error));
        },
    };
    let metadata = match parse_metadata(metadata_text) {
        Ok(metadata) => metadata,
        Err(error) => {
            return Step::Done(Err(error));
        },
    };
    if let Err(error) = check_pairing(&processes, &metadata) {
        return Step::Done(Err(error));
    }
    match select_agent(&processes, &metadata, known) {
        Step::Run(next) => Step::Run(next),
        Step::Identify(line) => Step::Identify(line),
        Step::Done(None) => Step::Done(Ok(None)),
        Step::Done(Some((agent_slug, identity_command, at))) => {
            let pane = &metadata[at];
            Step::Done(
                Ok(
                    Some(
                        DetectedTmuxSession {
                            name: record.name.clone(),
                            agent_slug,
                            identity_command,
                            pane_title: pane.title.clone(),
                            current_path: pane.current_path.clone(),
                            start_command: pane.start_command.clone(),
                            attached_clients: record.attached_clients,
                            activity_unix_seconds: record.activity_unix_seconds,
                        },
                    ),
                ),
            )
        },
    }
}

fn exact_target_text(name: &str) -> (target: String)
    ensures
        target@ == exact_target(name@),
{
    let mut target = "=".to_string();
    target.append(name);
    target
}

impl TmuxClient {
    fn session_pane_command(&self, name: &str, format: &str) -> (result: TmuxCommand)
        ensures
            result@ == command(
                self@,
                session_pane_arguments(name@, format@),
                "list detected session panes"@,
            ),
    {
        let target = exact_target_text(name);
        let result = self.command(
            &["list-panes", "-s", "-t", target.as_str(), "-F", format],
            "list detected session panes",
        );
        assert(result@.argv =~= argument_list(self@, session_pane_arguments(name@, format@)));
        result
    }

    /// Detect the agent in one session, with the replies from `at` on. The
    /// outcome comes with the place of the first reply behind those it has
    /// taken.
    pub fn detect_session(
        &self,
        record: &TmuxSessionRecord,
        replies: &Vec<CommandReply>,
        at: usize,
        known: &Vec<KnownAgent>,
    ) -> (step: Step<(Result<Option<DetectedTmuxSession>, TmuxError>, usize)>)
        requires
            at <= replies@.len(),
        ensures
            ({
                let stage = detect_stage(
                    self@,
                    record@,
                    replies_of(replies@).skip(at as int),
                    answers_of(known@),
                );
                match step {
                    Step::Run(c) => stage == Stage::<
                        (Result<Option<DetectedRecord>, Failure>, nat),
                    >::Run(c@),
                    Step::Identify(line) => stage == Stage::<
                        (Result<Option<DetectedRecord>, Failure>, nat),
                    >::Identify(line@),
                    Step::Done((outcome, next)) => {
                        &&& at <= next <= replies@.len()
                        &&& stage == Stage::Done((outcome_of(outcome), (next - at) as nat))
                    },
                }
            }),
    {
        let ghost rest = replies_of(replies@).skip(at as int);
        if at == replies.len() {
            return Step::Run(self.session_pane_command(record.name.as_str(), PROCESS_PANE_FORMAT));
        }
        assert(rest[0] == reply_of(replies@[at as int]));
        let process_text = match Self::run_ok(&replies[at], "list detected session panes") {
            Ok(text) => text,
            Err(error) => {
                return Step::Done((Err(error), at + 1));
            },
        };
        if at + 1 == replies.len() {
            return Step::Run(
                self.session_pane_command(record.name.as_str(), METADATA_PANE_FORMAT),
            );
        }
        assert(rest[1] == reply_of(replies@[at + 1]));
        let metadata_text = match Self::run_ok(&replies[at + 1], "list detected session panes") {
            Ok(text) => text,
            Err(error) => {
                return Step::Done((Err(error), at + 2));
            },
        };
        match detect_panes(record, process_text.as_str(), metadata_text.as_str(), known) {
            Step::Run(next) => Step::Run(next),
            Step::Identify(line) => Step::Identify(line),
            Step::Done(outcome) => Step::Done((outcome, at + 2)),
        }
    }
}

// ---------------------------------------------------------------------------
// Listing detected sessions
// ---------------------------------------------------------------------------

/// Whether a session name stands in the owned namespace.
pub open spec fn reserved(name: Seq<char>) -> bool {
    has_prefix(name, OWNED_SESSION_PREFIX@)
}

/// The arguments that list all sessions with their attributes.
pub open spec fn record_list_arguments() -> Seq<Seq<char>> {
    seq!["list-sessions"@, "-F"@, SESSION_FORMAT@]
}

/// The command that lists all sessions with their attributes.
pub open spec fn record_list_command(client: Client) -> Command {
    command(client, record_list_arguments(), "list sessions"@)
}

/// A stage behind sessions that were found before it.
pub open spec fn with_sessions(
    found: Seq<DetectedRecord>,
    stage: Stage<Seq<DetectedRecord>>,
) -> Stage<Seq<DetectedRecord>> {
    match stage {
        Stage::Done(more) => Stage::Done(found + more),
        _ => stage,
    }
}

/// How far the detection of these sessions has come. Reserved names are not
/// looked into; a session that cannot be read, or shows no coherent agent, is
/// passed over.
pub open spec fn sessions_stage(
    client: Client,
    records: Seq<SessionRecord>,
    replies: Seq<Reply>,
    known: Seq<Answer>,
) -> Stage<Seq<DetectedRecord>>
    decreases records.len(),
{
    if records.len() == 0 {
        Stage::Done(seq![])
    } else if reserved(records[0].name) {
        sessions_stage(client, records.skip(1), replies, known)
    } else {
        match detect_stage(client, records[0], replies, known) {
            Stage::Run(next) => Stage::Run(next),
            Stage::Identify(line) => Stage::Identify(line),
            Stage::Done((outcome, used)) => {
                let rest = sessions_stage(
                    client,
                    records.skip(1),
                    replies.skip(used as int),
                    known,
                );
                match outcome {
                    Ok(Some(session)) => with_sessions(seq![session], rest),
                    _ => rest,
                }
            },
        }
    }
}

/// How far the listing of detected sessions has come.
pub open spec fn detected_stage(client: Client, replies: Seq<Reply>, known: Seq<Answer>) -> Stage<
    Result<Seq<DetectedRecord>, Failure>,
> {
    if replies.len() == 0 {
        Stage::Run(record_list_command(client))
    } else {
        match session_listing(replies[0]) {
            Err(failure) => Stage::Done(Err(failure)),
            Ok(None) => Stage::Done(Ok(seq![])),
            Ok(Some(text)) => match session_records(lines_of(text)) {
                Err(failure) => Stage::Done(Err(failure)),
                Ok(records) => match sessions_stage(client, records, replies.skip(1), known) {
                    Stage::Run(next) => Stage::Run(next),
                    Stage::Identify(line) => Stage::Identify(line),
                    Stage::Done(sessions) => Stage::Done(Ok(sessions)),
                },
            },
        }
    }
}

pub open spec fn detected_view(sessions: Seq<DetectedTmuxSession>) -> Seq<DetectedRecord> {
    Seq::new(sessions.len(), |i: int| sessions[i]@)
}

impl TmuxClient {
    fn record_list_command(&self) -> (result: TmuxCommand)
        ensures
            result@ == record_list_command(self@),
    {
        let result = self.command(&["list-sessions", "-F", SESSION_FORMAT], "list sessions");
        assert(result@.argv =~= argument_list(self@, record_list_arguments()));
        result
    }

    /// List non-owned sessions whose live panes identify one coherent agent.
    pub fn list_detected_sessions(
        &self,
        replies: &Vec<CommandReply>,
        known: &Vec<KnownAgent>,
    ) -> (step: Step<Result<Vec<DetectedTmuxSession>, TmuxError>>)
        ensures
            ({
                let stage = detected_stage(self@, replies_of(replies@), answers_of(known@));
                match step {
                    Step::Run(c) => stage == Stage::<Result<Seq<DetectedRecord>, Failure>>::Run(
                        c@,
                    ),
                    Step::Identify(line) => stage == Stage::<
                        Result<Seq<DetectedRecord>, Failure>,
                    >::Identify(line@),
                    Step::Done(Ok(sessions)) => stage == Stage::Done(
                        Ok::<Seq<DetectedRecord>, Failure>(detected_view(sessions@)),
                    ),
                    Step::Done(Err(error)) => stage == Stage::Done(
                        Err::<Seq<DetectedRecord>, Failure>(error@),
                    ),
                }
            }),
    {
        if replies.len() == 0 {
            return Step::Run(self.record_list_command());
        }
        let ghost all = replies_of(replies@);
        let ghost answers = answers_of(known@);
        assert(all[0] == reply_of(replies@[0]));
        let text = match listed_text(&replies[0]) {
            Ok(Some(text)) => text,
            Ok(None) => {
                let none: Vec<DetectedTmuxSession> = Vec::new();
                assert(detected_view(none@) =~= seq![]);
                return Step::Done(Ok(none));
            },
            Err(error) => {
                return Step::Done(Err(error));
            },
        };
        let records = match parse_sessions(text.as_str()) {
            Ok(records) => records,
            Err(error) => {
                return Step::Done(Err(error));
            },
        };
        let ghost listed = sessions_view(records@);
        let ghost whole = sessions_stage(self@, listed, all.skip(1), answers);
        let mut sessions: Vec<DetectedTmuxSession> = Vec::new();
        let mut at: usize = 1;
        let mut k: usize = 0;
        proof {
            assert(listed.skip(0) =~= listed);
            assert(detected_view(sessions@) =~= seq![]);
            if let Stage::Done(more) = whole {
                assert(detected_view(sessions@) + more =~= more);
            }
        }
        while k < records.len()
            invariant
                k <= records@.len(),
                listed == sessions_view(records@),
                all == replies_of(replies@),
                answers == answers_of(known@),
                1 <= at <= replies@.len(),
                detected_stage(self@, all, answers) == (match whole {
                    Stage::Run(next) => Stage::<Result<Seq<DetectedRecord>, Failure>>::Run(next),
                    Stage::Identify(line) => Stage::Identify(line),
                    Stage::Done(sessions) => Stage::Done(Ok(sessions)),
                }),
                whole == with_sessions(
                    detected_view(sessions@),
                    sessions_stage(self@, listed.skip(k as int), all.skip(at as int), answers),
                ),
            decreases records@.len() - k,
        {
            let ghost before = detected_view(sessions@);
            proof {
                assert(listed.skip(k as int)[0] == records@[k as int]@);
                assert(listed.skip(k as int).skip(1) =~= listed.skip(k + 1));
            }
            let record = &records[k];
            k += 1;
            if starts_with(record.name.as_str(), OWNED_SESSION_PREFIX) {
                continue;
            }
            match self.detect_session(record, replies, at, known) {
                Step::Run(next) => {
                    return Step::Run(next);
                },
                Step::Identify(line) => {
                    return Step::Identify(line);
                },
                Step::Done((outcome, next)) => {
                    assert(all.skip(at as int).skip(next - at) =~= all.skip(next as int));
                    at = next;
                    if let Ok(Some(session)) = outcome {
                        sessions.push(session);
                        proof {
                            assert(detected_view(sessions@) =~= before + seq![session@]);
                            if let Stage::Done(more) = sessions_stage(
                                self@,
                                listed.skip(k as int),
                                all.skip(at as int),
                                answers,
                            ) {
                                assert(before + (seq![session@] + more) =~= detected_view(
                                    sessions@,
                                ) + more);
                            }
                        }
                    }
                },
            }
        }
        proof {
            assert(listed.skip(k as int) =~= seq![]);
            assert(detected_view(sessions@) + seq![] =~= detected_view(sessions@));
        }
        Step::Done(Ok(sessions))
    }
}

// ---------------------------------------------------------------------------
// Operations on one detected session
// ---------------------------------------------------------------------------

/// Why a name cannot be that of a detected session, if it cannot.
pub open spec fn name_failure(name: Seq<char>) -> Option<Failure> {
    if name.len() == 0 {
        Some(Failure::NameEmpty)
    } else if reserved(name) {
        Some(Failure::NameReserved)
    } else {
        None
    }
}

/// Whether a session listing has exactly this name on a line of its own.
pub open spec fn listed_name(reply: Reply, name: Seq<char>) -> Result<bool, Failure> {
    match session_listing(reply) {
        Err(failure) => Err(failure),
        Ok(None) => Ok(false),
        Ok(Some(text)) => Ok(lines_of(text).contains(name)),
    }
}

/// The record of a session of which only the name is known.
pub open spec fn name_record(name: Seq<char>) -> SessionRecord {
    SessionRecord { name, attached_clients: 0, activity_unix_seconds: 0 }
}

/// What a fresh look at a session has shown.
pub enum Look {
    /// It is not there.
    Gone,
    /// It shows this agent.
    Agent(DetectedRecord),
    /// It is there and shows no coherent agent.
    NoAgent,
    /// It is there and cannot be read.
    Unreadable(Failure),
}

/// How far a fresh look at a session has come, and how many replies that has
/// taken. Where no agent is found, the session is looked for once more.
pub open spec fn look_stage(
    client: Client,
    name: Seq<char>,
    replies: Seq<Reply>,
    known: Seq<Answer>,
) -> Stage<Result<(Look, nat), Failure>> {
    if replies.len() == 0 {
        Stage::Run(name_list_command(client))
    } else {
        match listed_name(replies[0], name) {
            Err(failure) => Stage::Done(Err(failure)),
            Ok(false) => Stage::Done(Ok((Look::Gone, 1))),
            Ok(true) => match detect_stage(client, name_record(name), replies.skip(1), known) {
                Stage::Run(next) => Stage::Run(next),
                Stage::Identify(line) => Stage::Identify(line),
                Stage::Done((Ok(Some(session)), used)) => Stage::Done(
                    Ok((Look::Agent(session), 1 + used)),
                ),
                Stage::Done((outcome, used)) => if replies.len() == 1 + used {
                    Stage::Run(name_list_command(client))
                } else {
                    match listed_name(replies[1 + used as int], name) {
                        Err(failure) => Stage::Done(Err(failure)),
                        Ok(false) => Stage::Done(Ok((Look::Gone, 2 + used))),
                        Ok(true) => match outcome {
                            Ok(_) => Stage::Done(Ok((Look::NoAgent, 2 + used))),
                            Err(failure) => Stage::Done(
                                Ok((Look::Unreadable(failure), 2 + used)),
                            ),
                        },
                    }
                },
            },
        }
    }
}

/// How far the preparation of an attach has come.
pub open spec fn attach_stage(
    client: Client,
    name: Seq<char>,
    replies: Seq<Reply>,
    known: Seq<Answer>,
) -> Stage<Result<(Seq<char>, Option<Seq<char>>), Failure>> {
    if name_failure(name) is Some {
        Stage::Done(Err(name_failure(name)->0))
    } else {
        match look_stage(client, name, replies, known) {
            Stage::Run(next) => Stage::Run(next),
            Stage::Identify(line) => Stage::Identify(line),
            Stage::Done(Err(failure)) => Stage::Done(Err(failure)),
            Stage::Done(Ok((look, _))) => Stage::Done(
                match look {
                    Look::Gone => Err(Failure::SessionGone { name }),
                    Look::NoAgent => Err(Failure::NoDetectedAgent { name }),
                    Look::Unreadable(failure) => Err(failure),
                    Look::Agent(session) => Ok(
                        (
                            attach_line(client, quoted(exact_target(session.name))),
                            Some(session.identity_command),
                        ),
                    ),
                },
            ),
        }
    }
}

/// How far the termination of a detected session has come. A session that is
/// gone counts as terminated; one that shows no agent is left alone.
pub open spec fn terminate_detected_stage(
    client: Client,
    name: Seq<char>,
    replies: Seq<Reply>,
    known: Seq<Answer>,
) -> Stage<Result<(), Failure>> {
    let what = "terminate the detected session"@;
    if name_failure(name) is Some {
        Stage::Done(Err(name_failure(name)->0))
    } else {
        match look_stage(client, name, replies, known) {
            Stage::Run(next) => Stage::Run(next),
            Stage::Identify(line) => Stage::Identify(line),
            Stage::Done(Err(failure)) => Stage::Done(Err(failure)),
            Stage::Done(Ok((look, used))) => match look {
                Look::Gone => Stage::Done(Ok(())),
                Look::NoAgent => Stage::Done(Err(Failure::NoDetectedAgent { name })),
                Look::Unreadable(failure) => Stage::Done(Err(failure)),
                Look::Agent(_) => if replies.len() == used {
                    Stage::Run(command(client, kill_arguments(exact_target(name)), what))
                } else {
                    Stage::Done(kill_result(replies[used as int], what))
                },
            },
        }
    }
}

/// What a fresh look at a session has shown.
#[derive(Debug)]
pub enum SessionLook {
    Gone,
    Agent(DetectedTmuxSession),
    NoAgent,
    Unreadable(TmuxError),
}

impl View for SessionLook {
    type V = Look;

    open spec fn view(&self) -> Look {
        match *self {
            SessionLook::Gone => Look::Gone,
            SessionLook::Agent(session) => Look::Agent(session@),
            SessionLook::NoAgent => Look::NoAgent,
            SessionLook::Unreadable(error) => Look::Unreadable(error@),
        }
    }
}

impl TmuxClient {
    /// Accept a name that a detected session can have.
    pub fn validate_detected_name(name: &str) -> (result: Result<(), TmuxError>)
        ensures
            match result {
                Ok(_) => name_failure(name@) is None,
                Err(e) => name_failure(name@) == Some(e@),
            },
    {
        if name.is_empty() {
            return Err(TmuxError::NameEmpty);
        }
        if starts_with(name, OWNED_SESSION_PREFIX) {
            return Err(TmuxError::NameReserved);
        }
        Ok(())
    }

    /// Whether a session listing has exactly this name on a line of its own.
    pub fn session_exists(reply: &CommandReply, name: &str) -> (result: Result<bool, TmuxError>)
        ensures
            match result {
                Ok(b) => listed_name(reply_of(*reply), name@) == Ok::<bool, Failure>(b),
                Err(e) => listed_name(reply_of(*reply), name@) == Err::<bool, Failure>(e@),
            },
    {
        match listed_text(reply) {
            Err(error) => Err(error),
            Ok(None) => Ok(false),
            Ok(Some(text)) => Ok(list_contains(&lines(text.as_str()), name)),
        }
    }

    /// Look at a session afresh. What is shown comes with the place of the
    /// first reply behind those the look has taken.
    pub fn look(&self, name: &str, replies: &Vec<CommandReply>, known: &Vec<KnownAgent>) -> (step:
        Step<Result<(SessionLook, usize), TmuxError>>)
        ensures
            ({
                let stage = look_stage(self@, name@, replies_of(replies@), answers_of(known@));
                match step {
                    Step::Run(c) => stage == Stage::<Result<(Look, nat), Failure>>::Run(c@),
                    Step::Identify(line) => stage == Stage::<
                        Result<(Look, nat), Failure>,
                    >::Identify(line@),
                    Step::Done(Ok((look, next))) => {
                        &&& next <= replies@.len()
                        &&& stage == Stage::Done(
                            Ok::<(Look, nat), Failure>((look@, next as nat)),
                        )
                    },
                    Step::Done(Err(error)) => stage == Stage::Done(
                        Err::<(Look, nat), Failure>(error@),
                    ),
                }
            }),
    {
        let ghost all = replies_of(replies@);
        if replies.len() == 0 {
            return Step::Run(self.name_list_command());
        }
        assert(all[0] == reply_of(replies@[0]));
        match Self::session_exists(&replies[0], name) {
            Ok(true) => {},
            Ok(false) => {
                return Step::Done(Ok((SessionLook::Gone, 1)));
            },
            Err(error) => {
                return Step::Done(Err(error));
            },
        }
        let record = TmuxSessionRecord {
            name: name.to_string(),
            attached_clients: 0,
            activity_unix_seconds: 0,
        };
        let (outcome, at) = match self.detect_session(&record, replies, 1, known) {
            Step::Run(next) => {
                return Step::Run(next);
            },
            Step::Identify(line) => {
                return Step::Identify(line);
            },
            Step::Done(done) => done,
        };
        if let Ok(Some(session)) = outcome {
            return Step::Done(Ok((SessionLook::Agent(session), at)));
        }
        if at == replies.len() {
            return Step::Run(self.name_list_command());
        }
        assert(all[at as int] == reply_of(replies@[at as int]));
        match Self::session_exists(&replies[at], name) {
            Ok(true) => {},
            Ok(false) => {
                return Step::Done(Ok((SessionLook::Gone, at + 1)));
            },
            Err(error) => {
                return Step::Done(Err(error));
            },
        }
        match outcome {
            Ok(_) => Step::Done(Ok((SessionLook::NoAgent, at + 1))),
            Err(error) => Step::Done(Ok((SessionLook::Unreadable(error), at + 1))),
        }
    }

    /// Revalidate a detected session and return its exact attach command.
    pub fn prepare_detected_attach(
        &self,
        name: &str,
        replies: &Vec<CommandReply>,
        known: &Vec<KnownAgent>,
    ) -> (step: Step<Result<(String, Option<String>), TmuxError>>)
        ensures
            ({
                let stage = attach_stage(self@, name@, replies_of(replies@), answers_of(known@));
                match step {
                    Step::Run(c) => stage == Stage::<
                        Result<(Seq<char>, Option<Seq<char>>), Failure>,
                    >::Run(c@),
                    Step::Identify(line) => stage == Stage::<
                        Result<(Seq<char>, Option<Seq<char>>), Failure>,
                    >::Identify(line@),
                    Step::Done(Ok((line, identity))) => stage == Stage::Done(
                        Ok::<(Seq<char>, Option<Seq<char>>), Failure>(
                            (line@, optional_text(identity)),
                        ),
                    ),
                    Step::Done(Err(error)) => stage == Stage::Done(
                        Err::<(Seq<char>, Option<Seq<char>>), Failure>(error@),
                    ),
                }
            }),
    {
        if let Err(error) = Self::validate_detected_name(name) {
            return Step::Done(Err(error));
        }
        match self.look(name, replies, known) {
            Step::Run(next) => Step::Run(next),
            Step::Identify(line) => Step::Identify(line),
            Step::Done(Err(error)) => Step::Done(Err(error)),
            Step::Done(Ok((look, _))) => Step::Done(
                match look {
                    SessionLook::Gone => Err(TmuxError::SessionGone { name: name.to_string() }),
                    SessionLook::NoAgent => Err(
                        TmuxError::NoDetectedAgent { name: name.to_string() },
                    ),
                    SessionLook::Unreadable(error) => Err(error),
                    SessionLook::Agent(session) => {
                        let target = exact_target_text(session.name.as_str());
                        let word = shell_quote_always(target.as_str());
                        Ok(
                            (
                                self.attach_command_with_shell_target(word.as_str()),
                                Some(session.identity_command),
                            ),
                        )
                    },
                },
            ),
        }
    }

    /// Revalidate and terminate one exact non-owned detected session.
    pub fn terminate_detected_session(
        &self,
        name: &str,
        replies: &Vec<CommandReply>,
        known: &Vec<KnownAgent>,
    ) -> (step: Step<Result<(), TmuxError>>)
        ensures
            unit_step(
                step,
                terminate_detected_stage(
                    self@,
                    name@,
                    replies_of(replies@),
                    answers_of(known@),
                ),
            ),
    {
        if let Err(error) = Self::validate_detected_name(name) {
            return Step::Done(Err(error));
        }
        let (look, at) = match self.look(name, replies, known) {
            Step::Run(next) => {
                return Step::Run(next);
            },
            Step::Identify(line) => {
                return Step::Identify(line);
            },
            Step::Done(Err(error)) => {
                return Step::Done(Err(error));
            },
            Step::Done(Ok(done)) => done,
        };
        match look {
            SessionLook::Gone => Step::Done(Ok(())),
            SessionLook::NoAgent => Step::Done(
                Err(TmuxError::NoDetectedAgent { name: name.to_string() }),
            ),
            SessionLook::Unreadable(error) => Step::Done(Err(error)),
            SessionLook::Agent(_) => {
                if at == replies.len() {
                    let target = exact_target_text(name);
                    return Step::Run(
                        self.kill_command(target.as_str(), "terminate the detected session"),
                    );
                }
                assert(replies_of(replies@)[at as int] == reply_of(replies@[at as int]));
                Step::Done(kill_outcome(&replies[at], "terminate the detected session"))
            },
        }
    }
}

// ---------------------------------------------------------------------------
// Laws
// ---------------------------------------------------------------------------

/// What is known of the agent in a pane of paired listings.
pub open spec fn known_agent(
    processes: Seq<ProcessRecord>,
    metadata: Seq<MetadataRecord>,
    known: Seq<Answer>,
    i: int,
) -> PaneAgent {
    pane_agent(known, processes[i], metadata_of(metadata, processes[i].pane_id))
}

proof fn lemma_selection_coherent(
    processes: Seq<ProcessRecord>,
    metadata: Seq<MetadataRecord>,
    known: Seq<Answer>,
    selected: Option<Selection>,
    found: Selection,
    i: int,
)
    requires
        selection(processes, metadata, known, selected) == Stage::Done(Some(found)),
        0 <= i < processes.len(),
        !processes[i].dead,
    ensures
        selected is Some ==> found == selected->0,
        match known_agent(processes, metadata, known, i) {
            PaneAgent::Unknown { .. } => false,
            PaneAgent::Absent => true,
            PaneAgent::Present { slug, .. } => slug == found.slug,
        },
    decreases processes.len(),
{
    let rest = processes.skip(1);
    let pane = metadata_of(metadata, processes[0].pane_id);
    let next = if processes[0].dead {
        selected
    } else {
        match pane_agent(known, processes[0], pane) {
            PaneAgent::Present { slug, line } => match selected {
                None => Some(Selection { slug, line, metadata: pane }),
                Some(_) => selected,
            },
            _ => selected,
        }
    };
    lemma_selection_kept(rest, metadata, known, next, found);
    if i > 0 {
        assert(rest[i - 1] == processes[i]);
        lemma_selection_coherent(rest, metadata, known, next, found, i - 1);
    }
}

proof fn lemma_selection_kept(
    processes: Seq<ProcessRecord>,
    metadata: Seq<MetadataRecord>,
    known: Seq<Answer>,
    selected: Option<Selection>,
    found: Selection,
)
    requires
        selection(processes, metadata, known, selected) == Stage::Done(Some(found)),
    ensures
        selected is Some ==> found == selected->0,
    decreases processes.len(),
{
    if processes.len() > 0 && selected is Some {
        lemma_selection_kept(processes.skip(1), metadata, known, selected, found);
    }
}

proof fn lemma_selection_source(
    processes: Seq<ProcessRecord>,
    metadata: Seq<MetadataRecord>,
    known: Seq<Answer>,
    found: Selection,
) -> (first: int)
    requires
        selection(processes, metadata, known, None) == Stage::Done(Some(found)),
    ensures
        0 <= first < processes.len(),
        !processes[first].dead,
        known_agent(processes, metadata, known, first) == (PaneAgent::Present {
            slug: found.slug,
            line: found.line,
        }),
        found.metadata == metadata_of(metadata, processes[first].pane_id),
        forall|j: int|
            0 <= j < first ==> (#[trigger] processes[j]).dead || known_agent(
                processes,
                metadata,
                known,
                j,
            ) is Absent,
    decreases processes.len(),
{
    let rest = processes.skip(1);
    if !processes[0].dead && known_agent(processes, metadata, known, 0) is Present {
        let pane = metadata_of(metadata, processes[0].pane_id);
        if let PaneAgent::Present { slug, line } = pane_agent(known, processes[0], pane) {
            lemma_selection_kept(
                rest,
                metadata,
                known,
                Some(Selection { slug, line, metadata: pane }),
                found,
            );
        }
        0
    } else {
        let first = lemma_selection_source(rest, metadata, known, found);
        assert forall|j: int| 0 <= j < first + 1 implies (#[trigger] processes[j]).dead
            || known_agent(processes, metadata, known, j) is Absent by {
            if j > 0 {
                assert(rest[j - 1] == processes[j]);
                assert(known_agent(rest, metadata, known, j - 1) == known_agent(
                    processes,
                    metadata,
                    known,
                    j,
                ));
            }
        }
        first + 1
    }
}

/// A session is detected only where every live pane is accounted for: each
/// shows the one detected agent or none.
pub proof fn lemma_detected_session_is_coherent(
    record: SessionRecord,
    process_text: Seq<char>,
    metadata_text: Seq<char>,
    known: Seq<Answer>,
    session: DetectedRecord,
    processes: Seq<ProcessRecord>,
    metadata: Seq<MetadataRecord>,
    i: int,
)
    requires
        detection(record, process_text, metadata_text, known) == Stage::Done(
            Ok::<Option<DetectedRecord>, Failure>(Some(session)),
        ),
        session_panes(process_text, metadata_text) == Ok::<
            (Seq<ProcessRecord>, Seq<MetadataRecord>),
            Failure,
        >((processes, metadata)),
        0 <= i < processes.len(),
        !processes[i].dead,
    ensures
        match known_agent(processes, metadata, known, i) {
            PaneAgent::Unknown { .. } => false,
            PaneAgent::Absent => true,
            PaneAgent::Present { slug, .. } => slug == session.agent_slug,
        },
{
    let found = selection(processes, metadata, known, None)->Done_0->0;
    lemma_selection_coherent(processes, metadata, known, None, found, i);
}

/// A detected session is described by the first live pane that shows the
/// agent.
pub proof fn lemma_detected_session_is_described_by_first_pane(
    record: SessionRecord,
    process_text: Seq<char>,
    metadata_text: Seq<char>,
    known: Seq<Answer>,
    session: DetectedRecord,
    processes: Seq<ProcessRecord>,
    metadata: Seq<MetadataRecord>,
)
    requires
        detection(record, process_text, metadata_text, known) == Stage::Done(
            Ok::<Option<DetectedRecord>, Failure>(Some(session)),
        ),
        session_panes(process_text, metadata_text) == Ok::<
            (Seq<ProcessRecord>, Seq<MetadataRecord>),
            Failure,
        >((processes, metadata)),
    ensures
        session.name == record.name,
        exists|first: int|
            {
                let pane = metadata_of(metadata, (#[trigger] processes[first]).pane_id);
                &&& 0 <= first < processes.len()
                &&& !processes[first].dead
                &&& pane_agent(known, processes[first], pane) == (PaneAgent::Present {
                    slug: session.agent_slug,
                    line: session.identity_command,
                })
                &&& session.pane_title == pane.title
                &&& session.current_path == pane.current_path
                &&& session.start_command == pane.start_command
                &&& forall|j: int|
                    0 <= j < first ==> (#[trigger] processes[j]).dead || known_agent(
                        processes,
                        metadata,
                        known,
                        j,
                    ) is Absent
            },
{
    let found = selection(processes, metadata, known, None)->Done_0->0;
    let first = lemma_selection_source(processes, metadata, known, found);
    assert(!processes[first].dead);
}

proof fn lemma_no_selection(
    processes: Seq<ProcessRecord>,
    metadata: Seq<MetadataRecord>,
    known: Seq<Answer>,
    selected: Option<Selection>,
) -> (shown: Option<(Seq<char>, int)>)
    requires
        selection(processes, metadata, known, selected) == Stage::<Option<Selection>>::Done(None),
    ensures
        match shown {
            Some((slug, j)) => {
                &&& 0 <= j < processes.len() && !processes[j].dead
                &&& known_agent(processes, metadata, known, j) is Present
                &&& known_agent(processes, metadata, known, j)->slug != slug
                &&& match selected {
                    Some(s) => s.slug == slug,
                    None => exists|i: int|
                        0 <= i < j && !(#[trigger] processes[i]).dead && known_agent(
                            processes,
                            metadata,
                            known,
                            i,
                        ) is Present && known_agent(processes, metadata, known, i)->slug == slug,
                }
            },
            None => selected is None && forall|j: int|
                0 <= j < processes.len() ==> (#[trigger] processes[j]).dead || known_agent(
                    processes,
                    metadata,
                    known,
                    j,
                ) is Absent,
        },
    decreases processes.len(),
{
    if processes.len() == 0 {
        None
    } else {
        let rest = processes.skip(1);
        let pane = metadata_of(metadata, processes[0].pane_id);
        assert forall|j: int| 0 <= j < rest.len() implies #[trigger] rest[j] == processes[j + 1] by {
        }
        assert forall|j: int| 0 <= j < rest.len() implies #[trigger] known_agent(
            rest,
            metadata,
            known,
            j,
        ) == known_agent(processes, metadata, known, j + 1) by {}
        let agent = pane_agent(known, processes[0], pane);
        if !processes[0].dead && agent is Present {
            let slug = agent->slug;
            match selected {
                Some(s) => {
                    if s.slug != slug {
                        Some((s.slug, 0))
                    } else {
                        let shown = lemma_no_selection(rest, metadata, known, selected);
                        let (other, j) = shown->0;
                        assert(processes[j + 1] == rest[j]);
                        Some((other, j + 1))
                    }
                },
                None => {
                    let next = Selection { slug, line: agent->Present_line, metadata: pane };
                    let shown = lemma_no_selection(rest, metadata, known, Some(next));
                    let (other, j) = shown->0;
                    assert(processes[j + 1] == rest[j]);
                    assert(!processes[0].dead);
                    Some((slug, j + 1))
                },
            }
        } else {
            let shown = lemma_no_selection(rest, metadata, known, selected);
            match shown {
                Some((slug, j)) => {
                    assert(processes[j + 1] == rest[j]);
                    if selected is None {
                        let i = choose|i: int|
                            0 <= i < j && !(#[trigger] rest[i]).dead && known_agent(
                                rest,
                                metadata,
                                known,
                                i,
                            ) is Present && known_agent(rest, metadata, known, i)->slug == slug;
                        assert(!processes[i + 1].dead);
                    }
                    Some((slug, j + 1))
                },
                None => {
                    assert forall|j: int|
                        0 <= j < processes.len() implies (#[trigger] processes[j]).dead
                        || known_agent(processes, metadata, known, j) is Absent by {
                        if j > 0 {
                            assert(rest[j - 1] == processes[j]);
                        }
                    }
                    None
                },
            }
        }
    }
}

/// Paired listings are without a detected session only where no live pane shows
/// an agent or two live panes show different ones.
pub proof fn lemma_undetected_session_has_no_single_agent(
    record: SessionRecord,
    process_text: Seq<char>,
    metadata_text: Seq<char>,
    known: Seq<Answer>,
    processes: Seq<ProcessRecord>,
    metadata: Seq<MetadataRecord>,
)
    requires
        detection(record, process_text, metadata_text, known) == Stage::Done(
            Ok::<Option<DetectedRecord>, Failure>(None),
        ),
        session_panes(process_text, metadata_text) == Ok::<
            (Seq<ProcessRecord>, Seq<MetadataRecord>),
            Failure,
        >((processes, metadata)),
    ensures
        (forall|j: int|
            0 <= j < processes.len() ==> (#[trigger] processes[j]).dead || known_agent(
                processes,
                metadata,
                known,
                j,
            ) is Absent) || (exists|i: int, j: int|
            {
                &&& 0 <= i < j < processes.len()
                &&& !(#[trigger] processes[i]).dead
                &&& !(#[trigger] processes[j]).dead
                &&& known_agent(processes, metadata, known, i) is Present
                &&& known_agent(processes, metadata, known, j) is Present
                &&& known_agent(processes, metadata, known, i)->slug != known_agent(
                    processes,
                    metadata,
                    known,
                    j,
                )->slug
            }),
{
    let shown = lemma_no_selection(processes, metadata, known, None);
    if let Some((slug, j)) = shown {
        let i = choose|i: int|
            0 <= i < j && !(#[trigger] processes[i]).dead && known_agent(
                processes,
                metadata,
                known,
                i,
            ) is Present && known_agent(processes, metadata, known, i)->slug == slug;
        assert(!processes[i].dead && !processes[j].dead);
    }
}

proof fn lemma_selection_asks_what_is_open(
    processes: Seq<ProcessRecord>,
    metadata: Seq<MetadataRecord>,
    known: Seq<Answer>,
    selected: Option<Selection>,
)
    ensures
        !(selection(processes, metadata, known, selected) is Run),
        selection(processes, metadata, known, selected) matches Stage::Identify(line) ==> line.len()
            > 0 && answer_for(known, line) is None,
    decreases processes.len(),
{
    if processes.len() > 0 {
        let pane = metadata_of(metadata, processes[0].pane_id);
        lemma_selection_asks_what_is_open(processes.skip(1), metadata, known, selected);
        if let PaneAgent::Present { slug, line } = pane_agent(known, processes[0], pane) {
            lemma_selection_asks_what_is_open(
                processes.skip(1),
                metadata,
                known,
                Some(Selection { slug, line, metadata: pane }),
            );
        }
    }
}

/// A detection asks about command lines that have no answer yet, and never
/// about an empty one.
pub proof fn lemma_detection_asks_what_is_open(
    client: Client,
    record: SessionRecord,
    replies: Seq<Reply>,
    known: Seq<Answer>,
)
    ensures
        detect_stage(client, record, replies, known) matches Stage::Identify(line) ==> line.len()
            > 0 && answer_for(known, line) is None,
        detect_stage(client, record, replies, known) matches Stage::Run(next) ==> {
            &&& replies.len() < 2
            &&& next.argv == argument_list(
                client,
                session_pane_arguments(
                    record.name,
                    if replies.len() == 0 {
                        PROCESS_PANE_FORMAT@
                    } else {
                        METADATA_PANE_FORMAT@
                    },
                ),
            )
        },
        detect_stage(client, record, replies, known) matches Stage::Done((_, used)) ==> used <= 2
            && used <= replies.len(),
{
    let what = "list detected session panes"@;
    if replies.len() >= 2 && reply_text(replies[0], what) is Ok && reply_text(
        replies[1],
        what,
    ) is Ok {
        if let Ok((processes, metadata)) = session_panes(
            reply_text(replies[0], what)->Ok_0,
            reply_text(replies[1], what)->Ok_0,
        ) {
            lemma_selection_asks_what_is_open(processes, metadata, known, None);
        }
    }
}

/// Whether a command lists the panes of exactly one session whose name is not
/// reserved.
pub open spec fn looks_outside(client: Client, next: Command) -> bool {
    exists|name: Seq<char>, format: Seq<char>|
        next.argv == argument_list(client, #[trigger] session_pane_arguments(name, format))
            && !reserved(name)
}

proof fn lemma_sessions_leave_reserved_alone(
    client: Client,
    records: Seq<SessionRecord>,
    replies: Seq<Reply>,
    known: Seq<Answer>,
)
    ensures
        sessions_stage(client, records, replies, known) matches Stage::Run(next) ==> looks_outside(
            client,
            next,
        ),
        sessions_stage(client, records, replies, known) matches Stage::Identify(line) ==> line.len()
            > 0 && answer_for(known, line) is None,
        sessions_stage(client, records, replies, known) matches Stage::Done(sessions) ==> forall|
            i: int,
        |
            0 <= i < sessions.len() ==> !reserved((#[trigger] sessions[i]).name),
    decreases records.len(),
{
    if records.len() > 0 {
        lemma_detection_asks_what_is_open(client, records[0], replies, known);
        lemma_sessions_leave_reserved_alone(client, records.skip(1), replies, known);
        lemma_sessions_leave_reserved_alone(client, records.skip(1), replies.skip(1), known);
        lemma_sessions_leave_reserved_alone(client, records.skip(1), replies.skip(2), known);
    }
}

/// Reserved names are never looked into and never listed as detected: every
/// command lists either all sessions or the panes of one session outside the
/// owned namespace.
pub proof fn lemma_detected_listing_leaves_reserved_alone(
    client: Client,
    replies: Seq<Reply>,
    known: Seq<Answer>,
)
    ensures
        detected_stage(client, replies, known) matches Stage::Run(next) ==> next
            == record_list_command(client) || looks_outside(client, next),
        detected_stage(client, replies, known) matches Stage::Identify(line) ==> line.len() > 0
            && answer_for(known, line) is None,
        detected_stage(client, replies, known) matches Stage::Done(Ok(sessions)) ==> forall|i: int|
            0 <= i < sessions.len() ==> !reserved((#[trigger] sessions[i]).name),
{
    if replies.len() > 0 {
        if let Ok(Some(text)) = session_listing(replies[0]) {
            if let Ok(records) = session_records(lines_of(text)) {
                lemma_sessions_leave_reserved_alone(client, records, replies.skip(1), known);
            }
        }
    }
}

proof fn lemma_look_stays_on_its_session(
    client: Client,
    name: Seq<char>,
    replies: Seq<Reply>,
    known: Seq<Answer>,
)
    ensures
        look_stage(client, name, replies, known) matches Stage::Run(next) ==> next
            == name_list_command(client) || exists|format: Seq<char>|
            next.argv == argument_list(client, #[trigger] session_pane_arguments(name, format)),
        look_stage(client, name, replies, known) matches Stage::Done(Ok((look, used))) ==> used
            <= replies.len(),
        look_stage(client, name, replies, known) matches Stage::Done(
            Ok((Look::Agent(session), _)),
        ) ==> session.name == name,
{
    if replies.len() > 0 {
        lemma_detection_asks_what_is_open(client, name_record(name), replies.skip(1), known);
    }
}

/// Before it kills, a termination of a detected session only lists: session
/// names, or the panes of exactly the named session. It kills exactly that
/// session, and only after a fresh look has shown an agent in it. A name in the
/// owned namespace runs nothing.
pub proof fn lemma_detected_termination_is_exact(
    client: Client,
    name: Seq<char>,
    replies: Seq<Reply>,
    known: Seq<Answer>,
)
    ensures
        terminate_detected_stage(client, name, replies, known) matches Stage::Run(next) ==> {
            &&& name.len() > 0 && !reserved(name)
            &&& {
                ||| next == name_list_command(client)
                ||| exists|format: Seq<char>|
                    next.argv == argument_list(
                        client,
                        #[trigger] session_pane_arguments(name, format),
                    )
                ||| next.argv == argument_list(client, kill_arguments(exact_target(name))) && (
                look_stage(client, name, replies, known) matches Stage::Done(
                    Ok((Look::Agent(_), _)),
                ))
            }
        },
{
    lemma_look_stays_on_its_session(client, name, replies, known);
}

/// A session that is gone counts as terminated, and one that is there and shows
/// no agent is refused and left alone.
pub proof fn lemma_detected_termination_outcomes(
    client: Client,
    name: Seq<char>,
    replies: Seq<Reply>,
    known: Seq<Answer>,
)
    requires
        name_failure(name) is None,
    ensures
        look_stage(client, name, replies, known) matches Stage::Done(Ok((Look::Gone, _)))
            ==> terminate_detected_stage(client, name, replies, known) == Stage::Done(
            Ok::<(), Failure>(()),
        ) && attach_stage(client, name, replies, known) == Stage::Done(
            Err::<(Seq<char>, Option<Seq<char>>), Failure>(Failure::SessionGone { name }),
        ),
        look_stage(client, name, replies, known) matches Stage::Done(Ok((Look::NoAgent, _)))
            ==> terminate_detected_stage(client, name, replies, known) == Stage::Done(
            Err::<(), Failure>(Failure::NoDetectedAgent { name }),
        ) && attach_stage(client, name, replies, known) == Stage::Done(
            Err::<(Seq<char>, Option<Seq<char>>), Failure>(Failure::NoDetectedAgent { name }),
        ),
{
}

/// An attach to a detected session names exactly that session, as a word that a
/// shell reads as it is, and comes only after a fresh look has shown an agent
/// in it.
pub proof fn lemma_detected_attach_is_exact(
    client: Client,
    name: Seq<char>,
    replies: Seq<Reply>,
    known: Seq<Answer>,
    line: Seq<char>,
    identity: Option<Seq<char>>,
)
    requires
        attach_stage(client, name, replies, known) == Stage::Done(
            Ok::<(Seq<char>, Option<Seq<char>>), Failure>((line, identity)),
        ),
    ensures
        name.len() > 0 && !reserved(name),
        identity is Some,
        look_stage(client, name, replies, known) matches Stage::Done(Ok((Look::Agent(_), _))),
        line == attach_line(client, quoted(exact_target(name))),
        crate::shell::shell_reads(quoted(exact_target(name)), false) == Some(exact_target(name)),
{
    lemma_look_stays_on_its_session(client, name, replies, known);
    crate::shell::lemma_quoted_reads_back(exact_target(name));
}

/// No session is both owned and detected: what decodes to an identity stands in
/// the namespace that detection leaves alone.
pub proof fn lemma_owned_sessions_are_never_detected(
    client: Client,
    replies: Seq<Reply>,
    known: Seq<Answer>,
    sessions: Seq<DetectedRecord>,
    i: int,
)
    requires
        detected_stage(client, replies, known) == Stage::Done(
            Ok::<Seq<DetectedRecord>, Failure>(sessions),
        ),
        0 <= i < sessions.len(),
    ensures
        crate::identity::ownership(sessions[i].name) is Untracked,
{
    lemma_detected_listing_leaves_reserved_alone(client, replies, known);
    let listed = detected_stage(client, replies, known)->Done_0->Ok_0;
    assert(listed == sessions);
    assert(!reserved(listed[i].name));
    if crate::identity::ownership(sessions[i].name) is Owned {
        crate::identity::lemma_owned_name_is_reserved(sessions[i].name);
    }
}

proof fn lemma_answer_stays(known: Seq<Answer>, more: Seq<Answer>, line: Seq<char>)
    requires
        answer_for(known, line) is Some,
    ensures
        answer_for(known + more, line) == answer_for(known, line),
    decreases known.len(),
{
    assert((known + more)[0] == known[0]);
    if known[0].command != line {
        assert((known + more).skip(1) =~= known.skip(1) + more);
        lemma_answer_stays(known.skip(1), more, line);
    }
}

proof fn lemma_line_agent_stays(known: Seq<Answer>, more: Seq<Answer>, text: Seq<char>)
    requires
        !(line_agent(known, text) is Unknown),
    ensures
        line_agent(known + more, text) == line_agent(known, text),
{
    if trimmed(text).len() > 0 {
        lemma_answer_stays(known, more, trimmed(text));
    }
}

proof fn lemma_selection_stays_done(
    processes: Seq<ProcessRecord>,
    metadata: Seq<MetadataRecord>,
    known: Seq<Answer>,
    more: Seq<Answer>,
    selected: Option<Selection>,
)
    requires
        selection(processes, metadata, known, selected) is Done,
    ensures
        selection(processes, metadata, known + more, selected) == selection(
            processes,
            metadata,
            known,
            selected,
        ),
    decreases processes.len(),
{
    if processes.len() > 0 {
        let rest = processes.skip(1);
        if processes[0].dead {
            lemma_selection_stays_done(rest, metadata, known, more, selected);
        } else {
            let pane = metadata_of(metadata, processes[0].pane_id);
            lemma_line_agent_stays(known, more, processes[0].current_command);
            if line_agent(known, processes[0].current_command) is Absent {
                lemma_line_agent_stays(known, more, pane.start_command);
            }
            match pane_agent(known, processes[0], pane) {
                PaneAgent::Unknown { .. } => {},
                PaneAgent::Absent => {
                    lemma_selection_stays_done(rest, metadata, known, more, selected);
                },
                PaneAgent::Present { slug, line } => match selected {
                    None => {
                        lemma_selection_stays_done(
                            rest,
                            metadata,
                            known,
                            more,
                            Some(Selection { slug, line, metadata: pane }),
                        );
                    },
                    Some(s) => {
                        if s.slug == slug {
                            lemma_selection_stays_done(rest, metadata, known, more, selected);
                        }
                    },
                },
            }
        }
    }
}

proof fn lemma_detection_stays_done(
    client: Client,
    record: SessionRecord,
    replies: Seq<Reply>,
    more: Seq<Reply>,
    known: Seq<Answer>,
    answers: Seq<Answer>,
)
    requires
        detect_stage(client, record, replies, known) is Done,
    ensures
        detect_stage(client, record, replies + more, known + answers) == detect_stage(
            client,
            record,
            replies,
            known,
        ),
{
    let all = replies + more;
    let what = "list detected session panes"@;
    assert(replies.len() > 0 ==> all[0] == replies[0]);
    assert(replies.len() > 1 ==> all[1] == replies[1]);
    if replies.len() >= 2 && reply_text(replies[0], what) is Ok && reply_text(
        replies[1],
        what,
    ) is Ok {
        if let Ok((processes, metadata)) = session_panes(
            reply_text(replies[0], what)->Ok_0,
            reply_text(replies[1], what)->Ok_0,
        ) {
            lemma_selection_stays_done(processes, metadata, known, answers, None);
        }
    }
}

proof fn lemma_sessions_stay_done(
    client: Client,
    records: Seq<SessionRecord>,
    replies: Seq<Reply>,
    more: Seq<Reply>,
    known: Seq<Answer>,
    answers: Seq<Answer>,
)
    requires
        sessions_stage(client, records, replies, known) is Done,
    ensures
        sessions_stage(client, records, replies + more, known + answers) == sessions_stage(
            client,
            records,
            replies,
            known,
        ),
    decreases records.len(),
{
    if records.len() > 0 {
        let rest = records.skip(1);
        if reserved(records[0].name) {
            lemma_sessions_stay_done(client, rest, replies, more, known, answers);
        } else {
            lemma_detection_asks_what_is_open(client, records[0], replies, known);
            lemma_detection_stays_done(client, records[0], replies, more, known, answers);
            let used = detect_stage(client, records[0], replies, known)->Done_0.1 as int;
            assert((replies + more).skip(used) =~= replies.skip(used) + more);
            lemma_sessions_stay_done(client, rest, replies.skip(used), more, known, answers);
        }
    }
}

/// A listing of detected sessions that is done stays done with the same result,
/// whatever further replies and answers there are.
pub proof fn lemma_detected_listing_stays_done(
    client: Client,
    replies: Seq<Reply>,
    more: Seq<Reply>,
    known: Seq<Answer>,
    answers: Seq<Answer>,
)
    requires
        detected_stage(client, replies, known) is Done,
    ensures
        detected_stage(client, replies + more, known + answers) == detected_stage(
            client,
            replies,
            known,
        ),
{
    let all = replies + more;
    assert(all[0] == replies[0]);
    assert(all.skip(1) =~= replies.skip(1) + more);
    if let Ok(Some(text)) = session_listing(replies[0]) {
        if let Ok(records) = session_records(lines_of(text)) {
            lemma_sessions_stay_done(client, records, replies.skip(1), more, known, answers);
        }
    }
}

proof fn lemma_look_stays_done(
    client: Client,
    name: Seq<char>,
    replies: Seq<Reply>,
    more: Seq<Reply>,
    known: Seq<Answer>,
    answers: Seq<Answer>,
)
    requires
        look_stage(client, name, replies, known) is Done,
    ensures
        look_stage(client, name, replies + more, known + answers) == look_stage(
            client,
            name,
            replies,
            known,
        ),
{
    let all = replies + more;
    assert(all[0] == replies[0]);
    assert(all.skip(1) =~= replies.skip(1) + more);
    if listed_name(replies[0], name) == Ok::<bool, Failure>(true) {
        let record = name_record(name);
        lemma_detection_asks_what_is_open(client, record, replies.skip(1), known);
        lemma_detection_stays_done(client, record, replies.skip(1), more, known, answers);
        let used = detect_stage(client, record, replies.skip(1), known)->Done_0.1 as int;
        assert(1 + used < replies.len() ==> all[1 + used] == replies[1 + used]);
    }
}

/// An operation on a detected session that is done stays done with the same
/// result, whatever further replies and answers there are.
pub proof fn lemma_detected_operations_stay_done(
    client: Client,
    name: Seq<char>,
    replies: Seq<Reply>,
    more: Seq<Reply>,
    known: Seq<Answer>,
    answers: Seq<Answer>,
)
    ensures
        attach_stage(client, name, replies, known) is Done ==> attach_stage(
            client,
            name,
            replies + more,
            known + answers,
        ) == attach_stage(client, name, replies, known),
        terminate_detected_stage(client, name, replies, known) is Done ==> terminate_detected_stage(
            client,
            name,
            replies + more,
            known + answers,
        ) == terminate_detected_stage(client, name, replies, known),
{
    if name_failure(name) is None && look_stage(client, name, replies, known) is Done {
        lemma_look_stays_done(client, name, replies, more, known, answers);
        lemma_look_stays_on_its_session(client, name, replies, known);
        if let Stage::Done(Ok((_, used))) = look_stage(client, name, replies, known) {
            assert(used < replies.len() ==> (replies + more)[used as int] == replies[used as int]);
        }
    }
}

/// Whether a detected session has the name and the presence of a record.
pub open spec fn describes(record: SessionRecord, session: DetectedRecord) -> bool {
    &&& session.name == record.name
    &&& session.attached_clients == record.attached_clients
    &&& session.activity_unix_seconds == record.activity_unix_seconds
}

proof fn lemma_sessions_stand_in_records(
    client: Client,
    records: Seq<SessionRecord>,
    replies: Seq<Reply>,
    known: Seq<Answer>,
    sessions: Seq<DetectedRecord>,
    i: int,
)
    requires
        sessions_stage(client, records, replies, known) == Stage::Done(sessions),
        0 <= i < sessions.len(),
    ensures
        exists|k: int| 0 <= k < records.len() && describes(#[trigger] records[k], sessions[i]),
    decreases records.len(),
{
    let rest = records.skip(1);
    assert forall|k: int| 0 <= k < rest.len() implies #[trigger] rest[k] == records[k + 1] by {}
    if reserved(records[0].name) {
        lemma_sessions_stand_in_records(client, rest, replies, known, sessions, i);
        let k = choose|k: int| 0 <= k < rest.len() && describes(#[trigger] rest[k], sessions[i]);
        assert(describes(records[k + 1], sessions[i]));
    } else {
        let (outcome, used) = detect_stage(client, records[0], replies, known)->Done_0;
        let later = replies.skip(used as int);
        let more = sessions_stage(client, rest, later, known)->Done_0;
        let found: int = match outcome {
            Ok(Some(_)) => 1,
            _ => 0,
        };
        if i < found {
            assert(describes(records[0], sessions[i]));
        } else {
            assert(sessions[i] == more[i - found]);
            lemma_sessions_stand_in_records(client, rest, later, known, more, i - found);
            let k = choose|k: int|
                0 <= k < rest.len() && describes(#[trigger] rest[k], more[i - found]);
            assert(describes(records[k + 1], sessions[i]));
        }
    }
}

/// Every detected session stands in tmux's own listing, under its exact name and
/// with its attached clients and its activity.
pub proof fn lemma_detected_sessions_are_listed(
    client: Client,
    replies: Seq<Reply>,
    known: Seq<Answer>,
    sessions: Seq<DetectedRecord>,
    i: int,
)
    requires
        detected_stage(client, replies, known) == Stage::Done(
            Ok::<Seq<DetectedRecord>, Failure>(sessions),
        ),
        0 <= i < sessions.len(),
    ensures
        replies.len() > 0,
        session_listing(replies[0]) matches Ok(Some(text)) && (session_records(
            lines_of(text),
        ) matches Ok(records) && exists|k: int|
            0 <= k < records.len() && describes(#[trigger] records[k], sessions[i])),
{
    let text = session_listing(replies[0])->Ok_0->0;
    let records = session_records(lines_of(text))->Ok_0;
    lemma_sessions_stand_in_records(client, records, replies.skip(1), known, sessions, i);
}

proof fn lemma_metadata_line_by_line(listed: Seq<Seq<char>>)
    ensures
        metadata_records(listed) is Ok <==> (forall|i: int|
            0 <= i < listed.len() ==> metadata_record(#[trigger] listed[i]) is Ok),
        metadata_records(listed) matches Ok(records) ==> records.len() == listed.len() && forall|
            i: int,
        |
            0 <= i < listed.len() ==> metadata_record(#[trigger] listed[i]) == Ok::<
                MetadataRecord,
                Failure,
            >(records[i]),
    decreases listed.len(),
{
    if listed.len() > 0 {
        let head = listed.drop_last();
        lemma_metadata_line_by_line(head);
        assert(forall|i: int| 0 <= i < head.len() ==> head[i] == #[trigger] listed[i]);
        if forall|i: int| 0 <= i < listed.len() ==> metadata_record(#[trigger] listed[i]) is Ok {
            assert forall|i: int| 0 <= i < head.len() implies metadata_record(
                #[trigger] head[i],
            ) is Ok by {
                assert(metadata_record(listed[i]) is Ok);
            }
            assert(metadata_record(listed[listed.len() - 1]) is Ok);
        }
        if let Ok(records) = metadata_records(listed) {
            assert forall|i: int| 0 <= i < listed.len() implies metadata_record(
                #[trigger] listed[i],
            ) == Ok::<MetadataRecord, Failure>(records[i]) by {
                if i < head.len() {
                    assert(metadata_record(head[i]) == Ok::<MetadataRecord, Failure>(records[i]));
                }
            }
        }
    }
}

proof fn lemma_process_line_by_line(listed: Seq<Seq<char>>)
    ensures
        process_records(listed) is Ok <==> (forall|i: int|
            0 <= i < listed.len() ==> process_record(#[trigger] listed[i]) is Ok),
        process_records(listed) matches Ok(records) ==> records.len() == listed.len() && forall|
            i: int,
        |
            0 <= i < listed.len() ==> process_record(#[trigger] listed[i]) == Ok::<
                ProcessRecord,
                Failure,
            >(records[i]),
    decreases listed.len(),
{
    if listed.len() > 0 {
        let head = listed.drop_last();
        lemma_process_line_by_line(head);
        assert(forall|i: int| 0 <= i < head.len() ==> head[i] == #[trigger] listed[i]);
        if forall|i: int| 0 <= i < listed.len() ==> process_record(#[trigger] listed[i]) is Ok {
            assert forall|i: int| 0 <= i < head.len() implies process_record(
                #[trigger] head[i],
            ) is Ok by {
                assert(process_record(listed[i]) is Ok);
            }
            assert(process_record(listed[listed.len() - 1]) is Ok);
        }
        if let Ok(records) = process_records(listed) {
            assert forall|i: int| 0 <= i < listed.len() implies process_record(
                #[trigger] listed[i],
            ) == Ok::<ProcessRecord, Failure>(records[i]) by {
                if i < head.len() {
                    assert(process_record(head[i]) == Ok::<ProcessRecord, Failure>(records[i]));
                }
            }
        }
    }
}

/// The metadata of a pane, wherever it stands in a listing without repetitions.
proof fn lemma_metadata_of(metadata: Seq<MetadataRecord>, at: int)
    requires
        metadata_ids(metadata).no_duplicates(),
        0 <= at < metadata.len(),
    ensures
        metadata_of(metadata, metadata[at].pane_id) == metadata[at],
{
    let id = metadata[at].pane_id;
    let i = choose|i: int| 0 <= i < metadata.len() && (#[trigger] metadata[i]).pane_id == id;
    assert(metadata[at].pane_id == id);
    assert(metadata_ids(metadata)[i] == metadata_ids(metadata)[at]);
}

/// A selection rests on the metadata of its panes alone, not on where it stands.
proof fn lemma_selection_by_pane(
    processes: Seq<ProcessRecord>,
    metadata: Seq<MetadataRecord>,
    other: Seq<MetadataRecord>,
    known: Seq<Answer>,
    selected: Option<Selection>,
)
    requires
        forall|i: int|
            0 <= i < processes.len() ==> metadata_of(
                metadata,
                (#[trigger] processes[i]).pane_id,
            ) == metadata_of(other, processes[i].pane_id),
    ensures
        selection(processes, metadata, known, selected) == selection(
            processes,
            other,
            known,
            selected,
        ),
    decreases processes.len(),
{
    if processes.len() > 0 {
        let rest = processes.skip(1);
        assert forall|i: int| 0 <= i < rest.len() implies metadata_of(
            metadata,
            (#[trigger] rest[i]).pane_id,
        ) == metadata_of(other, rest[i].pane_id) by {
            assert(rest[i] == processes[i + 1]);
        }
        let pane = metadata_of(metadata, processes[0].pane_id);
        lemma_selection_by_pane(rest, metadata, other, known, selected);
        if let PaneAgent::Present { slug, line } = pane_agent(known, processes[0], pane) {
            lemma_selection_by_pane(
                rest,
                metadata,
                other,
                known,
                Some(Selection { slug, line, metadata: pane }),
            );
        }
    }
}

/// A dead pane has no part in a selection.
proof fn lemma_selection_without_dead(
    processes: Seq<ProcessRecord>,
    metadata: Seq<MetadataRecord>,
    known: Seq<Answer>,
    selected: Option<Selection>,
    dead: int,
)
    requires
        0 <= dead < processes.len(),
        processes[dead].dead,
    ensures
        selection(processes, metadata, known, selected) == selection(
            processes.remove(dead),
            metadata,
            known,
            selected,
        ),
    decreases processes.len(),
{
    let rest = processes.skip(1);
    let less = processes.remove(dead);
    if dead == 0 {
        assert(less =~= rest);
    } else {
        let pane = metadata_of(metadata, processes[0].pane_id);
        assert(less[0] == processes[0]);
        assert(rest[dead - 1] == processes[dead]);
        assert(less.skip(1) =~= rest.remove(dead - 1));
        lemma_selection_without_dead(rest, metadata, known, selected, dead - 1);
        if let PaneAgent::Present { slug, line } = pane_agent(known, processes[0], pane) {
            lemma_selection_without_dead(
                rest,
                metadata,
                known,
                Some(Selection { slug, line, metadata: pane }),
                dead - 1,
            );
        }
    }
}

/// Listings that pair up are read the same in whatever order the metadata lines
/// stand.
pub proof fn lemma_metadata_order_is_immaterial(
    record: SessionRecord,
    process_text: Seq<char>,
    metadata_text: Seq<char>,
    permuted_text: Seq<char>,
    known: Seq<Answer>,
)
    requires
        session_panes(process_text, metadata_text) is Ok,
        lines_of(permuted_text).to_multiset() == lines_of(metadata_text).to_multiset(),
    ensures
        session_panes(process_text, permuted_text) is Ok,
        detection(record, process_text, permuted_text, known) == detection(
            record,
            process_text,
            metadata_text,
            known,
        ),
{
    broadcast use vstd::seq_lib::group_to_multiset_ensures;

    let listed = lines_of(metadata_text);
    let permuted = lines_of(permuted_text);
    let (processes, metadata) = session_panes(process_text, metadata_text)->Ok_0;
    lemma_metadata_line_by_line(listed);
    lemma_metadata_line_by_line(permuted);
    assert(listed.len() == listed.to_multiset().len());
    assert(permuted.len() == permuted.to_multiset().len());
    assert forall|i: int, j: int|
        0 <= i < listed.len() && 0 <= j < listed.len() && i != j implies listed[i]
        != listed[j] by {
        assert(metadata_ids(metadata)[i] != metadata_ids(metadata)[j]);
        assert(metadata_record(listed[i]) == Ok::<MetadataRecord, Failure>(metadata[i]));
        assert(metadata_record(listed[j]) == Ok::<MetadataRecord, Failure>(metadata[j]));
    }
    assert(listed.no_duplicates());
    listed.lemma_multiset_has_no_duplicates();
    permuted.lemma_multiset_has_no_duplicates_conv();
    // Where each permuted line stands in the listing.
    assert forall|i: int| 0 <= i < permuted.len() implies exists|k: int|
        0 <= k < listed.len() && listed[k] == #[trigger] permuted[i] by {
        assert(permuted.contains(permuted[i]));
        assert(permuted.to_multiset().contains(permuted[i]));
        assert(listed.contains(permuted[i]));
    }
    assert forall|i: int| 0 <= i < permuted.len() implies metadata_record(
        #[trigger] permuted[i],
    ) is Ok by {
        let k = choose|k: int| 0 <= k < listed.len() && listed[k] == permuted[i];
        assert(metadata_record(listed[k]) is Ok);
    }
    let other = metadata_records(permuted)->Ok_0;
    assert forall|i: int, j: int|
        0 <= i < other.len() && 0 <= j < other.len() && i != j implies metadata_ids(other)[i]
        != metadata_ids(other)[j] by {
        let a = choose|k: int| 0 <= k < listed.len() && listed[k] == permuted[i];
        let b = choose|k: int| 0 <= k < listed.len() && listed[k] == permuted[j];
        assert(permuted[i] != permuted[j]);
        assert(a != b);
        assert(metadata_record(permuted[i]) == Ok::<MetadataRecord, Failure>(other[i]));
        assert(metadata_record(permuted[j]) == Ok::<MetadataRecord, Failure>(other[j]));
        assert(other[i] == metadata[a] && other[j] == metadata[b]);
        assert(metadata_ids(metadata)[a] != metadata_ids(metadata)[b]);
    }
    assert(metadata_ids(other).no_duplicates());
    assert forall|i: int| 0 <= i < processes.len() implies metadata_ids(other).contains(
        #[trigger] process_ids(processes)[i],
    ) && metadata_of(other, processes[i].pane_id) == metadata_of(
        metadata,
        processes[i].pane_id,
    ) by {
        let id = process_ids(processes)[i];
        let k = choose|k: int| 0 <= k < metadata.len() && metadata_ids(metadata)[k] == id;
        assert(listed.contains(listed[k]));
        assert(permuted.to_multiset().count(listed[k]) > 0);
        assert(permuted.contains(listed[k]));
        let m = choose|m: int| 0 <= m < permuted.len() && permuted[m] == listed[k];
        assert(metadata_record(permuted[m]) == Ok::<MetadataRecord, Failure>(other[m]));
        assert(metadata_record(listed[k]) == Ok::<MetadataRecord, Failure>(metadata[k]));
        assert(other[m] == metadata[k]);
        assert(metadata_ids(other)[m] == id);
        lemma_metadata_of(other, m);
        lemma_metadata_of(metadata, k);
    }
    assert forall|i: int| 0 <= i < processes.len() implies metadata_of(
        metadata,
        (#[trigger] processes[i]).pane_id,
    ) == metadata_of(other, processes[i].pane_id) by {
        assert(process_ids(processes)[i] == processes[i].pane_id);
    }
    assert(paired(processes, other));
    lemma_selection_by_pane(processes, metadata, other, known, None);
}

/// Listings that pair up are read the same without the lines of a pane that is
/// dead.
pub proof fn lemma_dead_panes_are_immaterial(
    record: SessionRecord,
    process_text: Seq<char>,
    metadata_text: Seq<char>,
    less_process_text: Seq<char>,
    less_metadata_text: Seq<char>,
    known: Seq<Answer>,
    dead: int,
    at: int,
)
    requires
        session_panes(process_text, metadata_text) matches Ok((processes, metadata)) && {
            &&& 0 <= dead < processes.len() && processes[dead].dead
            &&& 0 <= at < metadata.len() && metadata[at].pane_id == processes[dead].pane_id
        },
        lines_of(less_process_text) == lines_of(process_text).remove(dead),
        lines_of(less_metadata_text) == lines_of(metadata_text).remove(at),
    ensures
        session_panes(less_process_text, less_metadata_text) is Ok,
        detection(record, less_process_text, less_metadata_text, known) == detection(
            record,
            process_text,
            metadata_text,
            known,
        ),
{
    let (processes, metadata) = session_panes(process_text, metadata_text)->Ok_0;
    let process_lines = lines_of(process_text);
    let metadata_lines = lines_of(metadata_text);
    let fewer_processes = processes.remove(dead);
    let fewer_metadata = metadata.remove(at);
    lemma_process_line_by_line(process_lines);
    lemma_process_line_by_line(process_lines.remove(dead));
    lemma_metadata_line_by_line(metadata_lines);
    lemma_metadata_line_by_line(metadata_lines.remove(at));
    assert forall|i: int| 0 <= i < fewer_processes.len() implies process_record(
        #[trigger] process_lines.remove(dead)[i],
    ) == Ok::<ProcessRecord, Failure>(fewer_processes[i]) by {
        let from = if i < dead {
            i
        } else {
            i + 1
        };
        assert(process_record(process_lines[from]) == Ok::<ProcessRecord, Failure>(
            processes[from],
        ));
    }
    assert forall|i: int| 0 <= i < fewer_metadata.len() implies metadata_record(
        #[trigger] metadata_lines.remove(at)[i],
    ) == Ok::<MetadataRecord, Failure>(fewer_metadata[i]) by {
        let from = if i < at {
            i
        } else {
            i + 1
        };
        assert(metadata_record(metadata_lines[from]) == Ok::<MetadataRecord, Failure>(
            metadata[from],
        ));
    }
    assert(process_records(process_lines.remove(dead)) is Ok);
    assert(metadata_records(metadata_lines.remove(at)) is Ok);
    let process_rest = process_records(process_lines.remove(dead))->Ok_0;
    let metadata_rest = metadata_records(metadata_lines.remove(at))->Ok_0;
    assert forall|i: int| 0 <= i < fewer_processes.len() implies process_rest[i]
        == fewer_processes[i] by {
        assert(process_record(process_lines.remove(dead)[i]) == Ok::<ProcessRecord, Failure>(
            process_rest[i],
        ));
    }
    assert forall|i: int| 0 <= i < fewer_metadata.len() implies metadata_rest[i]
        == fewer_metadata[i] by {
        assert(metadata_record(metadata_lines.remove(at)[i]) == Ok::<MetadataRecord, Failure>(
            metadata_rest[i],
        ));
    }
    assert(process_rest =~= fewer_processes);
    assert(metadata_rest =~= fewer_metadata);
    assert(process_ids(fewer_processes) =~= process_ids(processes).remove(dead));
    assert(metadata_ids(fewer_metadata) =~= metadata_ids(metadata).remove(at));
    assert forall|i: int| 0 <= i < fewer_processes.len() implies metadata_ids(
        fewer_metadata,
    ).contains(#[trigger] process_ids(fewer_processes)[i]) && metadata_of(
        fewer_metadata,
        fewer_processes[i].pane_id,
    ) == metadata_of(metadata, fewer_processes[i].pane_id) by {
        let from = if i < dead {
            i
        } else {
            i + 1
        };
        let id = process_ids(processes)[from];
        assert(process_ids(processes)[from] != process_ids(processes)[dead]);
        assert(metadata_ids(metadata).contains(id));
        let k = choose|k: int| 0 <= k < metadata.len() && metadata_ids(metadata)[k] == id;
        assert(k != at);
        let to = if k < at {
            k
        } else {
            k - 1
        };
        assert(fewer_metadata[to] == metadata[k]);
        assert(metadata_ids(fewer_metadata)[to] == id);
        lemma_metadata_of(fewer_metadata, to);
        lemma_metadata_of(metadata, k);
    }
    assert forall|i: int| 0 <= i < fewer_processes.len() implies metadata_of(
        metadata,
        (#[trigger] fewer_processes[i]).pane_id,
    ) == metadata_of(fewer_metadata, fewer_processes[i].pane_id) by {
        assert(process_ids(fewer_processes)[i] == fewer_processes[i].pane_id);
    }
    assert(paired(fewer_processes, fewer_metadata));
    lemma_selection_by_pane(fewer_processes, metadata, fewer_metadata, known, None);
    lemma_selection_without_dead(processes, metadata, known, None, dead);
}

/// The first answer for a command line counts. Without one the line is open.
pub proof fn lemma_first_answer_counts(known: Seq<Answer>, line: Seq<char>)
    ensures
        match answer_for(known, line) {
            Some(agent) => exists|k: int|
                {
                    &&& 0 <= k < known.len()
                    &&& (#[trigger] known[k]).command == line
                    &&& known[k].agent == agent
                    &&& forall|j: int| 0 <= j < k ==> (#[trigger] known[j]).command != line
                },
            None => forall|j: int| 0 <= j < known.len() ==> (#[trigger] known[j]).command != line,
        },
    decreases known.len(),
{
    if known.len() > 0 && known[0].command != line {
        let rest = known.skip(1);
        lemma_first_answer_counts(rest, line);
        if let Some(agent) = answer_for(rest, line) {
            let k = choose|k: int|
                {
                    &&& 0 <= k < rest.len()
                    &&& (#[trigger] rest[k]).command == line
                    &&& rest[k].agent == agent
                    &&& forall|j: int| 0 <= j < k ==> (#[trigger] rest[j]).command != line
                };
            assert(known[k + 1] == rest[k]);
            assert forall|j: int| 0 <= j < k + 1 implies (#[trigger] known[j]).command != line by {
                if j > 0 {
                    assert(rest[j - 1] == known[j]);
                }
            }
        } else {
            assert forall|j: int| 0 <= j < known.len() implies (#[trigger] known[j]).command
                != line by {
                if j > 0 {
                    assert(rest[j - 1] == known[j]);
                }
            }
        }
    } else if known.len() > 0 {
        assert(known[0].command == line);
    }
}

/// The agent of a pane is the one that its current command starts; where that
/// command is blank or starts none, the one that its start command starts. Both
/// are taken without white space around them, and a blank one is never asked
/// about.
pub proof fn lemma_agents_of_panes(
    known: Seq<Answer>,
    process: ProcessRecord,
    metadata: MetadataRecord,
)
    ensures
        ({
            let current = trimmed(process.current_command);
            let start = trimmed(metadata.start_command);
            let silent = current.len() == 0 || answer_for(known, current) == Some(
                None::<Seq<char>>,
            );
            let found = pane_agent(known, process, metadata);
            &&& !silent && answer_for(known, current) is None ==> found == (PaneAgent::Unknown {
                line: current,
            })
            &&& !silent && answer_for(known, current) is Some ==> found == (PaneAgent::Present {
                slug: answer_for(known, current)->0->0,
                line: current,
            })
            &&& silent && start.len() == 0 ==> found is Absent
            &&& silent && start.len() > 0 ==> match answer_for(known, start) {
                None => found == (PaneAgent::Unknown { line: start }),
                Some(None) => found is Absent,
                Some(Some(slug)) => found == (PaneAgent::Present { slug, line: start }),
            }
        }),
{
}

proof fn lemma_session_line_by_line(listed: Seq<Seq<char>>)
    ensures
        session_records(listed) is Ok <==> (forall|i: int|
            0 <= i < listed.len() ==> session_record(#[trigger] listed[i]) is Ok),
        session_records(listed) matches Ok(records) ==> records.len() == listed.len() && forall|
            i: int,
        |
            0 <= i < listed.len() ==> session_record(#[trigger] listed[i]) == Ok::<
                SessionRecord,
                Failure,
            >(records[i]),
    decreases listed.len(),
{
    if listed.len() > 0 {
        let head = listed.drop_last();
        lemma_session_line_by_line(head);
        assert(forall|i: int| 0 <= i < head.len() ==> head[i] == #[trigger] listed[i]);
        if forall|i: int| 0 <= i < listed.len() ==> session_record(#[trigger] listed[i]) is Ok {
            assert forall|i: int| 0 <= i < head.len() implies session_record(
                #[trigger] head[i],
            ) is Ok by {
                assert(session_record(listed[i]) is Ok);
            }
            assert(session_record(listed[listed.len() - 1]) is Ok);
        }
        if let Ok(records) = session_records(listed) {
            assert forall|i: int| 0 <= i < listed.len() implies session_record(
                #[trigger] listed[i],
            ) == Ok::<SessionRecord, Failure>(records[i]) by {
                if i < head.len() {
                    assert(session_record(head[i]) == Ok::<SessionRecord, Failure>(records[i]));
                }
            }
        }
    }
}

/// Lines that can all be read give one record each, in order.
pub proof fn lemma_readable_lines(
    listed: Seq<Seq<char>>,
    processes: Seq<ProcessRecord>,
    metadata: Seq<MetadataRecord>,
    sessions: Seq<SessionRecord>,
)
    ensures
        processes.len() == listed.len() && (forall|i: int|
            0 <= i < listed.len() ==> process_record(#[trigger] listed[i]) == Ok::<
                ProcessRecord,
                Failure,
            >(processes[i])) ==> process_records(listed) == Ok::<Seq<ProcessRecord>, Failure>(
            processes,
        ),
        metadata.len() == listed.len() && (forall|i: int|
            0 <= i < listed.len() ==> metadata_record(#[trigger] listed[i]) == Ok::<
                MetadataRecord,
                Failure,
            >(metadata[i])) ==> metadata_records(listed) == Ok::<Seq<MetadataRecord>, Failure>(
            metadata,
        ),
        sessions.len() == listed.len() && (forall|i: int|
            0 <= i < listed.len() ==> session_record(#[trigger] listed[i]) == Ok::<
                SessionRecord,
                Failure,
            >(sessions[i])) ==> session_records(listed) == Ok::<Seq<SessionRecord>, Failure>(
            sessions,
        ),
{
    lemma_process_line_by_line(listed);
    lemma_metadata_line_by_line(listed);
    lemma_session_line_by_line(listed);
    if processes.len() == listed.len() && (forall|i: int|
        0 <= i < listed.len() ==> process_record(#[trigger] listed[i]) == Ok::<
            ProcessRecord,
            Failure,
        >(processes[i])) {
        let read = process_records(listed)->Ok_0;
        assert forall|i: int| 0 <= i < listed.len() implies read[i] == processes[i] by {
            assert(process_record(listed[i]) == Ok::<ProcessRecord, Failure>(processes[i]));
        }
        assert(read =~= processes);
    }
    if metadata.len() == listed.len() && (forall|i: int|
        0 <= i < listed.len() ==> metadata_record(#[trigger] listed[i]) == Ok::<
            MetadataRecord,
            Failure,
        >(metadata[i])) {
        let read = metadata_records(listed)->Ok_0;
        assert forall|i: int| 0 <= i < listed.len() implies read[i] == metadata[i] by {
            assert(metadata_record(listed[i]) == Ok::<MetadataRecord, Failure>(metadata[i]));
        }
        assert(read =~= metadata);
    }
    if sessions.len() == listed.len() && (forall|i: int|
        0 <= i < listed.len() ==> session_record(#[trigger] listed[i]) == Ok::<
            SessionRecord,
            Failure,
        >(sessions[i])) {
        let read = session_records(listed)->Ok_0;
        assert forall|i: int| 0 <= i < listed.len() implies read[i] == sessions[i] by {
            assert(session_record(listed[i]) == Ok::<SessionRecord, Failure>(sessions[i]));
        }
        assert(read =~= sessions);
    }
}

/// The first line that cannot be read fails a whole listing, with the failure of
/// that line.
pub proof fn lemma_unreadable_line(listed: Seq<Seq<char>>, k: int)
    requires
        0 <= k < listed.len(),
    ensures
        process_record(listed[k]) is Err && (forall|i: int|
            0 <= i < k ==> process_record(#[trigger] listed[i]) is Ok) ==> process_records(listed)
            == Err::<Seq<ProcessRecord>, Failure>(process_record(listed[k])->Err_0),
        metadata_record(listed[k]) is Err && (forall|i: int|
            0 <= i < k ==> metadata_record(#[trigger] listed[i]) is Ok) ==> metadata_records(
            listed,
        ) == Err::<Seq<MetadataRecord>, Failure>(metadata_record(listed[k])->Err_0),
        session_record(listed[k]) is Err && (forall|i: int|
            0 <= i < k ==> session_record(#[trigger] listed[i]) is Ok) ==> session_records(listed)
            == Err::<Seq<SessionRecord>, Failure>(session_record(listed[k])->Err_0),
{
    let head = listed.take(k);
    let upto = listed.take(k + 1);
    assert(upto.drop_last() =~= head);
    assert(upto.last() == listed[k]);
    assert(forall|i: int| 0 <= i < k ==> #[trigger] head[i] == listed[i]);
    lemma_process_line_by_line(head);
    lemma_metadata_line_by_line(head);
    lemma_session_line_by_line(head);
    if process_records(upto) is Err {
        lemma_process_records_prefix(listed, k + 1);
    }
    if metadata_records(upto) is Err {
        lemma_metadata_records_prefix(listed, k + 1);
    }
    if session_records(upto) is Err {
        lemma_session_records_prefix(listed, k + 1);
    }
}

/// Whether a process listing has no pane twice.
pub open spec fn processes_once(processes: Seq<ProcessRecord>) -> bool {
    forall|i: int, j: int|
        0 <= i < j < processes.len() ==> (#[trigger] processes[i]).pane_id != (
        #[trigger] processes[j]).pane_id
}

/// Whether a metadata listing has no pane twice.
pub open spec fn metadata_once(metadata: Seq<MetadataRecord>) -> bool {
    forall|i: int, j: int|
        0 <= i < j < metadata.len() ==> (#[trigger] metadata[i]).pane_id != (
        #[trigger] metadata[j]).pane_id
}

/// Whether a metadata listing has a pane.
pub open spec fn has_pane(metadata: Seq<MetadataRecord>, pane_id: Seq<char>) -> bool {
    exists|k: int| 0 <= k < metadata.len() && (#[trigger] metadata[k]).pane_id == pane_id
}

/// Two pane listings pair up exactly where they are of one length, neither has a
/// pane twice, and every pane of the one stands in the other. The first of these
/// that fails is named.
pub proof fn lemma_panes_pair_up(processes: Seq<ProcessRecord>, metadata: Seq<MetadataRecord>)
    ensures
        processes.len() != metadata.len() ==> pairing_failure(processes, metadata) == Some(
            Failure::PaneCountsDiffer,
        ),
        processes.len() == metadata.len() && !processes_once(processes) ==> pairing_failure(
            processes,
            metadata,
        ) == Some(Failure::DuplicateProcessIds),
        processes.len() == metadata.len() && processes_once(processes) && !metadata_once(metadata)
            ==> pairing_failure(processes, metadata) == Some(Failure::DuplicateMetadataIds),
        processes.len() == metadata.len() && processes_once(processes) && metadata_once(metadata)
            ==> pairing_failure(processes, metadata) == (if forall|i: int|
            0 <= i < processes.len() ==> has_pane(metadata, (#[trigger] processes[i]).pane_id) {
            None
        } else {
            Some(Failure::PaneIdsDiffer)
        }),
{
    let ids = process_ids(processes);
    let others = metadata_ids(metadata);
    assert(ids.no_duplicates() <==> processes_once(processes)) by {
        if processes_once(processes) {
            assert forall|i: int, j: int| 0 <= i < ids.len() && 0 <= j < ids.len() && i != j implies
                ids[i] != ids[j] by {
                if i < j {
                    assert(processes[i].pane_id != processes[j].pane_id);
                } else {
                    assert(processes[j].pane_id != processes[i].pane_id);
                }
            }
        }
        if ids.no_duplicates() {
            assert forall|i: int, j: int| 0 <= i < j < processes.len() implies (
            #[trigger] processes[i]).pane_id != (#[trigger] processes[j]).pane_id by {
                assert(ids[i] != ids[j]);
            }
        }
    }
    assert(others.no_duplicates() <==> metadata_once(metadata)) by {
        if metadata_once(metadata) {
            assert forall|i: int, j: int|
                0 <= i < others.len() && 0 <= j < others.len() && i != j implies others[i]
                != others[j] by {
                if i < j {
                    assert(metadata[i].pane_id != metadata[j].pane_id);
                } else {
                    assert(metadata[j].pane_id != metadata[i].pane_id);
                }
            }
        }
        if others.no_duplicates() {
            assert forall|i: int, j: int| 0 <= i < j < metadata.len() implies (
            #[trigger] metadata[i]).pane_id != (#[trigger] metadata[j]).pane_id by {
                assert(others[i] != others[j]);
            }
        }
    }
    assert forall|i: int| 0 <= i < processes.len() implies has_pane(
        metadata,
        (#[trigger] processes[i]).pane_id,
    ) == others.contains(ids[i]) by {
        if others.contains(ids[i]) {
            let k = choose|k: int| 0 <= k < others.len() && others[k] == ids[i];
            assert(metadata[k].pane_id == processes[i].pane_id);
        }
        if has_pane(metadata, processes[i].pane_id) {
            let k = choose|k: int|
                0 <= k < metadata.len() && (#[trigger] metadata[k]).pane_id
                    == processes[i].pane_id;
            assert(others[k] == ids[i]);
        }
    }
    if forall|i: int|
        0 <= i < processes.len() ==> has_pane(metadata, (#[trigger] processes[i]).pane_id) {
        assert forall|i: int| 0 <= i < processes.len() implies others.contains(
            #[trigger] ids[i],
        ) by {
            assert(has_pane(metadata, processes[i].pane_id));
        }
    } else {
        let i = choose|i: int|
            0 <= i < processes.len() && !has_pane(metadata, (#[trigger] processes[i]).pane_id);
        assert(!others.contains(ids[i]));
    }
}

/// The panes of a session are those of both listings, where both can be read and
/// pair up. A listing of processes that cannot be read fails first, then one of
/// metadata, then the pairing.
pub proof fn lemma_panes_of_sessions(process_text: Seq<char>, metadata_text: Seq<char>)
    ensures
        ({
            let panes = session_panes(process_text, metadata_text);
            let processes = process_records(lines_of(process_text));
            let metadata = metadata_records(lines_of(metadata_text));
            &&& processes is Err ==> panes == Err::<
                (Seq<ProcessRecord>, Seq<MetadataRecord>),
                Failure,
            >(processes->Err_0)
            &&& processes is Ok && metadata is Err ==> panes == Err::<
                (Seq<ProcessRecord>, Seq<MetadataRecord>),
                Failure,
            >(metadata->Err_0)
            &&& processes is Ok && metadata is Ok ==> match pairing_failure(
                processes->Ok_0,
                metadata->Ok_0,
            ) {
                Some(failure) => panes == Err::<
                    (Seq<ProcessRecord>, Seq<MetadataRecord>),
                    Failure,
                >(failure),
                None => panes == Ok::<(Seq<ProcessRecord>, Seq<MetadataRecord>), Failure>(
                    (processes->Ok_0, metadata->Ok_0),
                ),
            }
        }),
{
}

/// A pane goes by the metadata with its own id, wherever that stands.
pub proof fn lemma_panes_go_by_their_own_metadata(
    processes: Seq<ProcessRecord>,
    metadata: Seq<MetadataRecord>,
    i: int,
    k: int,
)
    requires
        pairing_failure(processes, metadata) is None,
        0 <= i < processes.len(),
        0 <= k < metadata.len(),
        processes[i].pane_id == metadata[k].pane_id,
    ensures
        metadata_of(metadata, processes[i].pane_id) == metadata[k],
{
    lemma_metadata_of(metadata, k);
}

/// Whether every pane before one is dead, shows no agent, or shows this agent.
pub open spec fn agree_before(
    processes: Seq<ProcessRecord>,
    metadata: Seq<MetadataRecord>,
    known: Seq<Answer>,
    end: int,
    slug: Seq<char>,
) -> bool {
    forall|m: int|
        0 <= m < end ==> {
            ||| (#[trigger] processes[m]).dead
            ||| known_agent(processes, metadata, known, m) is Absent
            ||| (known_agent(processes, metadata, known, m) matches PaneAgent::Present {
                slug: shown,
                ..
            } && shown == slug)
        }
}

/// Whether every pane before one is dead or shows no agent.
pub open spec fn silent_before(
    processes: Seq<ProcessRecord>,
    metadata: Seq<MetadataRecord>,
    known: Seq<Answer>,
    end: int,
) -> bool {
    forall|m: int|
        0 <= m < end ==> (#[trigger] processes[m]).dead || known_agent(
            processes,
            metadata,
            known,
            m,
        ) is Absent
}

proof fn lemma_selection_passes(
    processes: Seq<ProcessRecord>,
    metadata: Seq<MetadataRecord>,
    known: Seq<Answer>,
    selected: Option<Selection>,
    end: int,
)
    requires
        0 <= end <= processes.len(),
        match selected {
            Some(s) => agree_before(processes, metadata, known, end, s.slug),
            None => silent_before(processes, metadata, known, end),
        },
    ensures
        selection(processes, metadata, known, selected) == selection(
            processes.skip(end),
            metadata,
            known,
            selected,
        ),
    decreases end,
{
    if end == 0 {
        assert(processes.skip(0) =~= processes);
    } else {
        let rest = processes.skip(1);
        assert(processes[0].dead || !processes[0].dead);
        assert forall|m: int| 0 <= m < end - 1 implies #[trigger] rest[m] == processes[m + 1] by {}
        assert forall|m: int| 0 <= m < end - 1 implies known_agent(rest, metadata, known, m)
            == #[trigger] known_agent(processes, metadata, known, m + 1) by {}
        match selected {
            Some(s) => {
                assert forall|m: int| 0 <= m < end - 1 implies {
                    ||| (#[trigger] rest[m]).dead
                    ||| known_agent(rest, metadata, known, m) is Absent
                    ||| (known_agent(rest, metadata, known, m) matches PaneAgent::Present {
                        slug: shown,
                        ..
                    } && shown == s.slug)
                } by {
                    assert(rest[m] == processes[m + 1]);
                    assert(known_agent(rest, metadata, known, m) == known_agent(
                        processes,
                        metadata,
                        known,
                        m + 1,
                    ));
                }
            },
            None => {
                assert forall|m: int| 0 <= m < end - 1 implies (#[trigger] rest[m]).dead
                    || known_agent(rest, metadata, known, m) is Absent by {
                    assert(rest[m] == processes[m + 1]);
                    assert(known_agent(rest, metadata, known, m) == known_agent(
                        processes,
                        metadata,
                        known,
                        m + 1,
                    ));
                }
            },
        }
        lemma_selection_passes(rest, metadata, known, selected, end - 1);
        assert(rest.skip(end - 1) =~= processes.skip(end));
    }
}

proof fn lemma_selection_after_first(
    processes: Seq<ProcessRecord>,
    metadata: Seq<MetadataRecord>,
    known: Seq<Answer>,
    first: int,
    end: int,
    slug: Seq<char>,
    line: Seq<char>,
)
    requires
        0 <= first < end <= processes.len(),
        !processes[first].dead,
        known_agent(processes, metadata, known, first) == (PaneAgent::Present { slug, line }),
        silent_before(processes, metadata, known, first),
        agree_before(processes, metadata, known, end, slug),
    ensures
        selection(processes, metadata, known, None) == selection(
            processes.skip(end),
            metadata,
            known,
            Some(
                Selection {
                    slug,
                    line,
                    metadata: metadata_of(metadata, processes[first].pane_id),
                },
            ),
        ),
{
    let pane = metadata_of(metadata, processes[first].pane_id);
    let found = Some(Selection { slug, line, metadata: pane });
    let here = processes.skip(first);
    let rest = processes.skip(first + 1);
    lemma_selection_passes(processes, metadata, known, None, first);
    assert(here[0] == processes[first]);
    assert(here.skip(1) =~= rest);
    assert(selection(here, metadata, known, None) == selection(rest, metadata, known, found));
    assert forall|m: int| 0 <= m < end - first - 1 implies {
        ||| (#[trigger] rest[m]).dead
        ||| known_agent(rest, metadata, known, m) is Absent
        ||| (known_agent(rest, metadata, known, m) matches PaneAgent::Present { slug: shown, .. }
            && shown == slug)
    } by {
        assert(rest[m] == processes[m + first + 1]);
        assert(known_agent(rest, metadata, known, m) == known_agent(
            processes,
            metadata,
            known,
            m + first + 1,
        ));
    }
    lemma_selection_passes(rest, metadata, known, found, end - first - 1);
    assert(rest.skip(end - first - 1) =~= processes.skip(end));
}

/// A session is detected wherever a live pane shows an agent and every live pane
/// shows that agent or none, however many clients are attached and whenever it
/// was active. It is described by the first pane that shows the agent.
pub proof fn lemma_one_agent_is_detected(
    record: SessionRecord,
    process_text: Seq<char>,
    metadata_text: Seq<char>,
    known: Seq<Answer>,
    processes: Seq<ProcessRecord>,
    metadata: Seq<MetadataRecord>,
    first: int,
    slug: Seq<char>,
    line: Seq<char>,
)
    requires
        session_panes(process_text, metadata_text) == Ok::<
            (Seq<ProcessRecord>, Seq<MetadataRecord>),
            Failure,
        >((processes, metadata)),
        0 <= first < processes.len(),
        !processes[first].dead,
        known_agent(processes, metadata, known, first) == (PaneAgent::Present { slug, line }),
        silent_before(processes, metadata, known, first),
        agree_before(processes, metadata, known, processes.len() as int, slug),
    ensures
        ({
            let pane = metadata_of(metadata, processes[first].pane_id);
            detection(record, process_text, metadata_text, known) == Stage::Done(
                Ok::<Option<DetectedRecord>, Failure>(
                    Some(
                        DetectedRecord {
                            name: record.name,
                            agent_slug: slug,
                            identity_command: line,
                            pane_title: pane.title,
                            current_path: pane.current_path,
                            start_command: pane.start_command,
                            attached_clients: record.attached_clients,
                            activity_unix_seconds: record.activity_unix_seconds,
                        },
                    ),
                ),
            )
        }),
{
    let end = processes.len() as int;
    lemma_selection_after_first(processes, metadata, known, first, end, slug, line);
    assert(processes.skip(end).len() == 0);
}

/// A session is not detected where every live pane shows no agent, and neither
/// where a live pane shows another agent than the live panes before it.
pub proof fn lemma_no_agent_or_two_are_not_detected(
    record: SessionRecord,
    process_text: Seq<char>,
    metadata_text: Seq<char>,
    known: Seq<Answer>,
    processes: Seq<ProcessRecord>,
    metadata: Seq<MetadataRecord>,
    first: int,
    second: int,
    slug: Seq<char>,
    line: Seq<char>,
)
    requires
        session_panes(process_text, metadata_text) == Ok::<
            (Seq<ProcessRecord>, Seq<MetadataRecord>),
            Failure,
        >((processes, metadata)),
        silent_before(processes, metadata, known, processes.len() as int) || {
            &&& 0 <= first < second < processes.len()
            &&& !processes[first].dead && !processes[second].dead
            &&& known_agent(processes, metadata, known, first) == (PaneAgent::Present {
                slug,
                line,
            })
            &&& silent_before(processes, metadata, known, first)
            &&& agree_before(processes, metadata, known, second, slug)
            &&& known_agent(processes, metadata, known, second) is Present
            &&& known_agent(processes, metadata, known, second)->slug != slug
        },
    ensures
        detection(record, process_text, metadata_text, known) == Stage::Done(
            Ok::<Option<DetectedRecord>, Failure>(None),
        ),
{
    let end = processes.len() as int;
    if silent_before(processes, metadata, known, end) {
        lemma_selection_passes(processes, metadata, known, None, end);
        assert(processes.skip(end).len() == 0);
    } else {
        lemma_selection_after_first(processes, metadata, known, first, second, slug, line);
        assert(processes.skip(second)[0] == processes[second]);
    }
}

/// A detection asks about the first live pane whose agent is open, where the
/// live panes before it show one agent at most.
pub proof fn lemma_open_pane_is_asked_about(
    record: SessionRecord,
    process_text: Seq<char>,
    metadata_text: Seq<char>,
    known: Seq<Answer>,
    processes: Seq<ProcessRecord>,
    metadata: Seq<MetadataRecord>,
    open: int,
    line: Seq<char>,
    slug: Seq<char>,
)
    requires
        session_panes(process_text, metadata_text) == Ok::<
            (Seq<ProcessRecord>, Seq<MetadataRecord>),
            Failure,
        >((processes, metadata)),
        0 <= open < processes.len(),
        !processes[open].dead,
        known_agent(processes, metadata, known, open) == (PaneAgent::Unknown { line }),
        agree_before(processes, metadata, known, open, slug),
    ensures
        detection(record, process_text, metadata_text, known) == Stage::<
            Result<Option<DetectedRecord>, Failure>,
        >::Identify(line),
{
    assert(processes.skip(open)[0] == processes[open]);
    if silent_before(processes, metadata, known, open) {
        lemma_selection_passes(processes, metadata, known, None, open);
    } else {
        let m = choose|m: int|
            0 <= m < open && !((#[trigger] processes[m]).dead || known_agent(
                processes,
                metadata,
                known,
                m,
            ) is Absent);
        let first = lemma_first_shown(processes, metadata, known, open, slug, m);
        let shown = known_agent(processes, metadata, known, first);
        lemma_selection_after_first(
            processes,
            metadata,
            known,
            first,
            open,
            slug,
            shown->Present_line,
        );
    }
}

proof fn lemma_first_shown(
    processes: Seq<ProcessRecord>,
    metadata: Seq<MetadataRecord>,
    known: Seq<Answer>,
    end: int,
    slug: Seq<char>,
    m: int,
) -> (first: int)
    requires
        0 <= m < end <= processes.len(),
        agree_before(processes, metadata, known, end, slug),
        !processes[m].dead,
        !(known_agent(processes, metadata, known, m) is Absent),
    ensures
        0 <= first < end,
        !processes[first].dead,
        known_agent(processes, metadata, known, first) is Present,
        known_agent(processes, metadata, known, first)->slug == slug,
        silent_before(processes, metadata, known, first),
    decreases m,
{
    if silent_before(processes, metadata, known, m) {
        m
    } else {
        let n = choose|n: int|
            0 <= n < m && !((#[trigger] processes[n]).dead || known_agent(
                processes,
                metadata,
                known,
                n,
            ) is Absent);
        lemma_first_shown(processes, metadata, known, end, slug, n)
    }
}

/// Whether a session is detected, and as what, does not rest on how many clients
/// are attached or when it was active: only those two facts themselves change.
pub proof fn lemma_presence_is_immaterial(
    record: SessionRecord,
    attached_clients: u32,
    activity_unix_seconds: i64,
    process_text: Seq<char>,
    metadata_text: Seq<char>,
    known: Seq<Answer>,
)
    ensures
        ({
            let other = SessionRecord { attached_clients, activity_unix_seconds, ..record };
            let found = detection(record, process_text, metadata_text, known);
            let instead = detection(other, process_text, metadata_text, known);
            match found {
                Stage::Done(Ok(Some(session))) => instead == Stage::Done(
                    Ok::<Option<DetectedRecord>, Failure>(
                        Some(DetectedRecord { attached_clients, activity_unix_seconds, ..session }),
                    ),
                ),
                _ => instead == found,
            }
        }),
{
}

/// A session is inspected with two commands, both exactly on it: its processes,
/// and then, where those gave a text, its metadata. The first that gives no text
/// fails the inspection.
pub proof fn lemma_inspections(
    client: Client,
    record: SessionRecord,
    replies: Seq<Reply>,
    known: Seq<Answer>,
)
    ensures
        ({
            let stage = detect_stage(client, record, replies, known);
            let what = "list detected session panes"@;
            let process_format = "#{pane_id}|#{pane_current_command}|#{pane_dead}|#{pane_dead_status}"@;
            let metadata_format = "#{pane_id}|#{pane_title}|#{pane_current_path}|#{pane_start_command}"@;
            let target = "="@ + record.name;
            &&& replies.len() == 0 ==> stage == Stage::<
                (Result<Option<DetectedRecord>, Failure>, nat),
            >::Run(
                command(
                    client,
                    seq!["list-panes"@, "-s"@, "-t"@, target, "-F"@, process_format],
                    what,
                ),
            )
            &&& replies.len() > 0 && written(replies[0]) is None ==> stage == Stage::Done(
                (Err::<Option<DetectedRecord>, Failure>(reply_text(replies[0], what)->Err_0), 1nat),
            )
            &&& replies.len() == 1 && written(replies[0]) is Some ==> stage == Stage::<
                (Result<Option<DetectedRecord>, Failure>, nat),
            >::Run(
                command(
                    client,
                    seq!["list-panes"@, "-s"@, "-t"@, target, "-F"@, metadata_format],
                    what,
                ),
            )
            &&& replies.len() > 1 && written(replies[0]) is Some && written(replies[1]) is None
                ==> stage == Stage::Done(
                (Err::<Option<DetectedRecord>, Failure>(reply_text(replies[1], what)->Err_0), 2nat),
            )
            &&& replies.len() > 1 && written(replies[0]) is Some && written(replies[1]) is Some
                ==> match detection(
                record,
                written(replies[0])->0,
                written(replies[1])->0,
                known,
            ) {
                Stage::Done(outcome) => stage == Stage::Done((outcome, 2nat)),
                Stage::Identify(line) => stage == Stage::<
                    (Result<Option<DetectedRecord>, Failure>, nat),
                >::Identify(line),
                Stage::Run(_) => false,
            }
        }),
{
    let what = "list detected session panes"@;
    if replies.len() > 0 {
        lemma_reply_texts(replies[0], what);
    }
    if replies.len() > 1 {
        lemma_reply_texts(replies[1], what);
        if let Ok((processes, metadata)) = session_panes(
            written(replies[0])->0,
            written(replies[1])->0,
        ) {
            lemma_selection_asks_what_is_open(processes, metadata, known, None);
        }
    }
}

/// What the replies to the commands for one listed session come to: no command
/// for a session in the reserved namespace; else a listing of its processes and,
/// where that gave a text, one of its metadata. The session is shown exactly
/// where both gave texts and the detection in them gives a session.
pub open spec fn inspected(
    record: SessionRecord,
    replies: Seq<Reply>,
    known: Seq<Answer>,
    shown: Seq<DetectedRecord>,
) -> bool {
    if "zedra-"@.is_prefix_of(record.name) {
        replies.len() == 0 && shown.len() == 0
    } else {
        &&& replies.len() == (if written(replies[0]) is Some {
            2int
        } else {
            1int
        })
        &&& if replies.len() == 2 && written(replies[1]) is Some {
            match detection(record, written(replies[0])->0, written(replies[1])->0, known) {
                Stage::Done(Ok(Some(session))) => shown.len() == 1 && shown[0] == session,
                Stage::Done(_) => shown.len() == 0,
                _ => false,
            }
        } else {
            shown.len() == 0
        }
    }
}

proof fn lemma_sessions_by_record(
    client: Client,
    records: Seq<SessionRecord>,
    further: Seq<SessionRecord>,
    replies: Seq<Seq<Reply>>,
    shown: Seq<Seq<DetectedRecord>>,
    more: Seq<Reply>,
    known: Seq<Answer>,
)
    requires
        replies.len() == records.len(),
        shown.len() == records.len(),
        forall|i: int|
            0 <= i < records.len() ==> inspected(
                #[trigger] records[i],
                replies[i],
                known,
                shown[i],
            ),
    ensures
        sessions_stage(client, records + further, replies.flatten() + more, known)
            == with_sessions(shown.flatten(), sessions_stage(client, further, more, known)),
    decreases records.len(),
{
    let all = records + further;
    let rest = sessions_stage(client, further, more, known);
    if records.len() == 0 {
        assert(all =~= further);
        assert(replies.flatten() + more =~= more);
        if let Stage::Done(sessions) = rest {
            assert(shown.flatten() + sessions =~= sessions);
        }
    } else {
        let record = records[0];
        let own = replies[0];
        let flat = replies.flatten() + more;
        let later = replies.drop_first().flatten() + more;
        assert(inspected(records[0], own, known, shown[0]));
        assert forall|i: int| 0 <= i < records.skip(1).len() implies inspected(
            #[trigger] records.skip(1)[i],
            replies.drop_first()[i],
            known,
            shown.drop_first()[i],
        ) by {
            assert(inspected(records[i + 1], replies[i + 1], known, shown[i + 1]));
        }
        lemma_sessions_by_record(
            client,
            records.skip(1),
            further,
            replies.drop_first(),
            shown.drop_first(),
            more,
            known,
        );
        assert(all.skip(1) =~= records.skip(1) + further);
        assert(all[0] == record);
        assert(flat =~= own + later);
        assert(shown.flatten() == shown[0] + shown.drop_first().flatten());
        let tail = sessions_stage(client, all.skip(1), later, known);
        assert(tail == with_sessions(shown.drop_first().flatten(), rest));
        lemma_prefix_and_rest(record.name, "zedra-"@, seq![]);
        if "zedra-"@.is_prefix_of(record.name) {
            assert(flat =~= later);
        } else {
            lemma_inspections(client, record, flat, known);
            assert(flat[0] == own[0]);
            assert(flat.skip(own.len() as int) =~= later);
            if own.len() == 2 {
                assert(flat[1] == own[1]);
            }
            if shown[0].len() == 1 {
                assert(shown[0] =~= seq![shown[0][0]]);
            }
        }
        assert(sessions_stage(client, all, flat, known) == with_sessions(shown[0], tail)) by {
            if shown[0].len() == 0 {
                if let Stage::Done(sessions) = tail {
                    assert(shown[0] + sessions =~= sessions);
                }
            }
        }
        if let Stage::Done(sessions) = rest {
            assert(shown[0] + (shown.drop_first().flatten() + sessions) =~= shown.flatten()
                + sessions);
        }
    }
}

/// Whether these are the records of a listing of sessions, line by line.
pub open spec fn listed_records(listing: Reply, records: Seq<SessionRecord>) -> bool {
    &&& written(listing) is Some
    &&& records.len() == lines_of(written(listing)->0).len()
    &&& forall|i: int|
        0 <= i < records.len() ==> session_record(#[trigger] lines_of(written(listing)->0)[i])
            == Ok::<SessionRecord, Failure>(records[i])
}

proof fn lemma_listed_records(listing: Reply, records: Seq<SessionRecord>)
    requires
        listed_records(listing, records),
    ensures
        session_listing(listing) == Ok::<Option<Seq<char>>, Failure>(written(listing)),
        session_records(lines_of(written(listing)->0)) == Ok::<Seq<SessionRecord>, Failure>(
            records,
        ),
{
    lemma_session_listings(listing);
    lemma_readable_lines(lines_of(written(listing)->0), seq![], seq![], records);
}

proof fn lemma_single_shown(shown: Seq<Seq<DetectedRecord>>)
    requires
        forall|i: int| 0 <= i < shown.len() ==> (#[trigger] shown[i]).len() <= 1,
    ensures
        shown.flatten().len() == shown.filter(|own: Seq<DetectedRecord>| own.len() == 1).len(),
    decreases shown.len(),
{
    reveal(Seq::filter);
    let single = |own: Seq<DetectedRecord>| own.len() == 1;
    if shown.len() > 0 {
        let head = shown.drop_last();
        lemma_single_shown(head);
        shown.lemma_flatten_and_flatten_alt_are_equivalent();
        head.lemma_flatten_and_flatten_alt_are_equivalent();
        assert(shown.flatten_alt() == head.flatten_alt() + shown.last());
        assert(shown[shown.len() - 1].len() <= 1);
    } else {
        assert(shown.flatten() =~= seq![]);
    }
}

/// A detected listing is complete: where every answer is known, it shows in
/// order the sessions of exactly those listed records that are not in the
/// reserved namespace and whose panes give a session, whatever their presence.
/// There are as many sessions as such records. A session whose panes cannot be
/// listed or do not pair up takes nothing from the others.
pub proof fn lemma_detected_listing_is_complete(
    client: Client,
    listing: Reply,
    records: Seq<SessionRecord>,
    replies: Seq<Seq<Reply>>,
    shown: Seq<Seq<DetectedRecord>>,
    known: Seq<Answer>,
)
    requires
        listed_records(listing, records),
        replies.len() == records.len(),
        shown.len() == records.len(),
        forall|i: int|
            0 <= i < records.len() ==> inspected(
                #[trigger] records[i],
                replies[i],
                known,
                shown[i],
            ),
    ensures
        detected_stage(client, seq![listing] + replies.flatten(), known) == Stage::Done(
            Ok::<Seq<DetectedRecord>, Failure>(shown.flatten()),
        ),
        shown.flatten().len() == shown.filter(|own: Seq<DetectedRecord>| own.len() == 1).len(),
{
    let all = seq![listing] + replies.flatten();
    let none: Seq<Reply> = seq![];
    lemma_listed_records(listing, records);
    lemma_sessions_by_record(client, records, seq![], replies, shown, none, known);
    assert(records + Seq::<SessionRecord>::empty() =~= records);
    assert(replies.flatten() + none =~= replies.flatten());
    assert(all.skip(1) =~= replies.flatten());
    assert(shown.flatten() + Seq::<DetectedRecord>::empty() =~= shown.flatten());
    assert forall|i: int| 0 <= i < shown.len() implies (#[trigger] shown[i]).len() <= 1 by {
        assert(inspected(records[i], replies[i], known, shown[i]));
    }
    lemma_single_shown(shown);
}

/// A detected listing asks for the sessions first. With the replies for all
/// records before one that is not reserved, it goes on as the inspection of that
/// record does: it runs its next command, or asks about its open command line.
pub proof fn lemma_detected_listing_goes_on(
    client: Client,
    listing: Reply,
    records: Seq<SessionRecord>,
    k: int,
    replies: Seq<Seq<Reply>>,
    shown: Seq<Seq<DetectedRecord>>,
    own: Seq<Reply>,
    known: Seq<Answer>,
)
    requires
        listed_records(listing, records),
        0 <= k < records.len(),
        !"zedra-"@.is_prefix_of(records[k].name),
        replies.len() == k,
        shown.len() == k,
        forall|i: int|
            0 <= i < k ==> inspected(#[trigger] records[i], replies[i], known, shown[i]),
    ensures
        detected_stage(client, seq![], known) == Stage::<Result<Seq<DetectedRecord>, Failure>>::Run(
            command(
                client,
                seq![
                    "list-sessions"@,
                    "-F"@,
                    "#{session_name}|#{session_attached}|#{session_activity}"@,
                ],
                "list sessions"@,
            ),
        ),
        match detect_stage(client, records[k], own, known) {
            Stage::Run(next) => detected_stage(
                client,
                seq![listing] + replies.flatten() + own,
                known,
            ) == Stage::<Result<Seq<DetectedRecord>, Failure>>::Run(next),
            Stage::Identify(line) => detected_stage(
                client,
                seq![listing] + replies.flatten() + own,
                known,
            ) == Stage::<Result<Seq<DetectedRecord>, Failure>>::Identify(line),
            Stage::Done(_) => true,
        },
{
    let done = records.take(k);
    let further = records.skip(k);
    let all = seq![listing] + replies.flatten() + own;
    lemma_listed_records(listing, records);
    assert(forall|i: int| 0 <= i < k ==> #[trigger] done[i] == records[i]);
    lemma_sessions_by_record(client, done, further, replies, shown, own, known);
    lemma_prefix_and_rest(records[k].name, "zedra-"@, seq![]);
    assert(done + further =~= records);
    assert(further[0] == records[k]);
    assert(all.skip(1) =~= replies.flatten() + own);
}

/// A detected listing without a server is empty, and one whose sessions cannot
/// be listed or read fails.
pub proof fn lemma_detected_listing_failures(
    client: Client,
    replies: Seq<Reply>,
    known: Seq<Answer>,
)
    requires
        replies.len() > 0,
    ensures
        session_listing(replies[0]) == Ok::<Option<Seq<char>>, Failure>(None) ==> detected_stage(
            client,
            replies,
            known,
        ) == Stage::Done(Ok::<Seq<DetectedRecord>, Failure>(seq![])),
        session_listing(replies[0]) is Err ==> detected_stage(client, replies, known)
            == Stage::Done(
            Err::<Seq<DetectedRecord>, Failure>(session_listing(replies[0])->Err_0),
        ),
        session_listing(replies[0]) matches Ok(Some(text)) ==> session_records(
            lines_of(text),
        ) is Err ==> detected_stage(client, replies, known) == Stage::Done(
            Err::<Seq<DetectedRecord>, Failure>(session_records(lines_of(text))->Err_0),
        ),
{
}

/// A fresh look takes a session as gone exactly where no line of the listing of
/// names is its name: with the name on any line it goes on to the panes of that
/// session, and with the name on none, or without a server, the session is gone.
/// A listing that fails fails the look.
pub proof fn lemma_look_finds_name_on_any_line(
    client: Client,
    name: Seq<char>,
    listing: Reply,
    known: Seq<Answer>,
)
    ensures
        ({
            let names = lines_of(written(listing)->0);
            let stage = look_stage(client, name, seq![listing], known);
            let process_format = "#{pane_id}|#{pane_current_command}|#{pane_dead}|#{pane_dead_status}"@;
            &&& look_stage(client, name, seq![], known) == Stage::<
                Result<(Look, nat), Failure>,
            >::Run(
                command(
                    client,
                    seq!["list-sessions"@, "-F"@, "#{session_name}"@],
                    "list sessions"@,
                ),
            )
            &&& written(listing) is Some && (exists|k: int|
                0 <= k < names.len() && #[trigger] names[k] == name) ==> stage == Stage::<
                Result<(Look, nat), Failure>,
            >::Run(
                command(
                    client,
                    seq!["list-panes"@, "-s"@, "-t"@, "="@ + name, "-F"@, process_format],
                    "list detected session panes"@,
                ),
            )
            &&& written(listing) is Some && !(exists|k: int|
                0 <= k < names.len() && #[trigger] names[k] == name) ==> stage == Stage::Done(
                Ok::<(Look, nat), Failure>((Look::Gone, 1)),
            )
            &&& session_listing(listing) == Ok::<Option<Seq<char>>, Failure>(None) ==> stage
                == Stage::Done(Ok::<(Look, nat), Failure>((Look::Gone, 1)))
            &&& session_listing(listing) is Err ==> stage == Stage::Done(
                Err::<(Look, nat), Failure>(session_listing(listing)->Err_0),
            )
        }),
{
    let replies = seq![listing];
    let names = lines_of(written(listing)->0);
    lemma_session_listings(listing);
    assert(replies[0] == listing);
    assert(replies.skip(1) =~= seq![]);
    if exists|k: int| 0 <= k < names.len() && #[trigger] names[k] == name {
        assert(names.contains(name));
    } else if names.contains(name) {
        let k = choose|k: int| 0 <= k < names.len() && names[k] == name;
        assert(names[k] == name);
    }
}

/// A look at a session whose name is listed goes on as its inspection does. An
/// inspection that finds an agent ends it. Any other is checked against a second
/// listing of names: the session is gone where no line of that one is its name,
/// and else it has no agent, or its panes cannot be read.
pub proof fn lemma_look_inspects_and_looks_again(
    client: Client,
    name: Seq<char>,
    listing: Reply,
    panes: Seq<Reply>,
    more: Seq<Reply>,
    known: Seq<Answer>,
    k: int,
)
    requires
        written(listing) is Some,
        0 <= k < lines_of(written(listing)->0).len(),
        lines_of(written(listing)->0)[k] == name,
    ensures
        ({
            let record = SessionRecord { name, attached_clients: 0, activity_unix_seconds: 0 };
            let stage = look_stage(client, name, seq![listing] + panes + more, known);
            let again = lines_of(written(more[0])->0);
            let listed = exists|m: int| 0 <= m < again.len() && #[trigger] again[m] == name;
            match detect_stage(client, record, panes, known) {
                Stage::Run(next) => more.len() == 0 ==> stage == Stage::<
                    Result<(Look, nat), Failure>,
                >::Run(next),
                Stage::Identify(line) => more.len() == 0 ==> stage == Stage::<
                    Result<(Look, nat), Failure>,
                >::Identify(line),
                Stage::Done((outcome, used)) => used == panes.len() ==> {
                    &&& outcome matches Ok(Some(session)) ==> stage == Stage::Done(
                        Ok::<(Look, nat), Failure>((Look::Agent(session), 1 + used)),
                    )
                    &&& !(outcome matches Ok(Some(_))) ==> {
                        &&& more.len() == 0 ==> stage == Stage::<
                            Result<(Look, nat), Failure>,
                        >::Run(
                            command(
                                client,
                                seq!["list-sessions"@, "-F"@, "#{session_name}"@],
                                "list sessions"@,
                            ),
                        )
                        &&& more.len() > 0 && session_listing(more[0]) is Err ==> stage
                            == Stage::Done(
                            Err::<(Look, nat), Failure>(session_listing(more[0])->Err_0),
                        )
                        &&& more.len() > 0 && session_listing(more[0]) == Ok::<
                            Option<Seq<char>>,
                            Failure,
                        >(None) ==> stage == Stage::Done(
                            Ok::<(Look, nat), Failure>((Look::Gone, 2 + used)),
                        )
                        &&& more.len() > 0 && written(more[0]) is Some && !listed ==> stage
                            == Stage::Done(Ok::<(Look, nat), Failure>((Look::Gone, 2 + used)))
                        &&& more.len() > 0 && written(more[0]) is Some && listed && outcome is Ok
                            ==> stage == Stage::Done(
                            Ok::<(Look, nat), Failure>((Look::NoAgent, 2 + used)),
                        )
                        &&& more.len() > 0 && written(more[0]) is Some && listed && outcome is Err
                            ==> stage == Stage::Done(
                            Ok::<(Look, nat), Failure>(
                                (Look::Unreadable(outcome->Err_0), 2 + used),
                            ),
                        )
                    }
                },
            }
        }),
{
    let record = name_record(name);
    let all = seq![listing] + panes + more;
    let names = lines_of(written(listing)->0);
    lemma_session_listings(listing);
    assert(names.contains(name));
    assert(all[0] == listing);
    assert(all.skip(1) =~= panes + more);
    if more.len() == 0 {
        assert(panes + more =~= panes);
    } else {
        let again = lines_of(written(more[0])->0);
        lemma_session_listings(more[0]);
        assert(all[1 + panes.len() as int] == more[0]);
        if exists|m: int| 0 <= m < again.len() && #[trigger] again[m] == name {
            assert(again.contains(name));
        } else if again.contains(name) {
            let m = choose|m: int| 0 <= m < again.len() && again[m] == name;
            assert(again[m] == name);
        }
    }
    if detect_stage(client, record, panes, known) is Done {
        lemma_detection_stays_done(client, record, panes, more, known, seq![]);
        assert(known + Seq::<Answer>::empty() =~= known);
    }
}

/// A name outside the reserved namespace is attached to and terminated as a
/// fresh look at it says. The empty name and reserved names are refused before
/// any command.
pub proof fn lemma_detected_operations_follow_the_look(
    client: Client,
    name: Seq<char>,
    replies: Seq<Reply>,
    known: Seq<Answer>,
)
    ensures
        ({
            let attach = attach_stage(client, name, replies, known);
            let end = terminate_detected_stage(client, name, replies, known);
            let what = "terminate the detected session"@;
            &&& name.len() == 0 ==> attach == Stage::Done(
                Err::<(Seq<char>, Option<Seq<char>>), Failure>(Failure::NameEmpty),
            ) && end == Stage::Done(Err::<(), Failure>(Failure::NameEmpty))
            &&& "zedra-"@.is_prefix_of(name) ==> attach == Stage::Done(
                Err::<(Seq<char>, Option<Seq<char>>), Failure>(Failure::NameReserved),
            ) && end == Stage::Done(Err::<(), Failure>(Failure::NameReserved))
            &&& name.len() > 0 && !"zedra-"@.is_prefix_of(name) ==> match look_stage(
                client,
                name,
                replies,
                known,
            ) {
                Stage::Run(next) => attach == Stage::<
                    Result<(Seq<char>, Option<Seq<char>>), Failure>,
                >::Run(next) && end == Stage::<Result<(), Failure>>::Run(next),
                Stage::Identify(line) => attach == Stage::<
                    Result<(Seq<char>, Option<Seq<char>>), Failure>,
                >::Identify(line) && end == Stage::<Result<(), Failure>>::Identify(line),
                Stage::Done(Err(failure)) => attach == Stage::Done(
                    Err::<(Seq<char>, Option<Seq<char>>), Failure>(failure),
                ) && end == Stage::Done(Err::<(), Failure>(failure)),
                Stage::Done(Ok((Look::Gone, _))) => attach == Stage::Done(
                    Err::<(Seq<char>, Option<Seq<char>>), Failure>(Failure::SessionGone { name }),
                ) && end == Stage::Done(Ok::<(), Failure>(())),
                Stage::Done(Ok((Look::NoAgent, _))) => attach == Stage::Done(
                    Err::<(Seq<char>, Option<Seq<char>>), Failure>(
                        Failure::NoDetectedAgent { name },
                    ),
                ) && end == Stage::Done(Err::<(), Failure>(Failure::NoDetectedAgent { name })),
                Stage::Done(Ok((Look::Unreadable(failure), _))) => attach == Stage::Done(
                    Err::<(Seq<char>, Option<Seq<char>>), Failure>(failure),
                ) && end == Stage::Done(Err::<(), Failure>(failure)),
                Stage::Done(Ok((Look::Agent(session), used))) => {
                    &&& attach == Stage::Done(
                        Ok::<(Seq<char>, Option<Seq<char>>), Failure>(
                            (
                                attach_line(client, quoted("="@ + name)),
                                Some(session.identity_command),
                            ),
                        ),
                    )
                    &&& replies.len() == used ==> end == Stage::<Result<(), Failure>>::Run(
                        command(client, seq!["kill-session"@, "-t"@, "="@ + name], what),
                    )
                    &&& replies.len() > used ==> end is Done && outcome_of_kill(
                        replies[used as int],
                        what,
                        end->Done_0,
                    )
                },
            }
        }),
{
    reveal_strlit("zedra-");
    lemma_prefix_and_rest(name, "zedra-"@, seq![]);
    lemma_look_stays_on_its_session(client, name, replies, known);
}

/// Detected sessions and answers over mathematical text keep every field.
pub proof fn lemma_detected_sessions_keep_fields(
    session: DetectedTmuxSession,
    sessions: Seq<DetectedTmuxSession>,
    answer: KnownAgent,
    known: Seq<KnownAgent>,
    i: int,
)
    ensures
        answers_of(known).len() == known.len(),
        0 <= i < known.len() ==> answers_of(known)[i] == known[i]@,
        session@.name == session.name@,
        session@.agent_slug == session.agent_slug@,
        session@.identity_command == session.identity_command@,
        session@.pane_title == session.pane_title@,
        session@.current_path == session.current_path@,
        session@.start_command == session.start_command@,
        session@.attached_clients == session.attached_clients,
        session@.activity_unix_seconds == session.activity_unix_seconds,
        detected_view(sessions).len() == sessions.len(),
        0 <= i < sessions.len() ==> detected_view(sessions)[i] == sessions[i]@,
        answer@.command == answer.command@,
        answer@.agent is Some <==> answer.agent is Some,
        answer.agent matches Some(slug) ==> answer@.agent == Some(slug@),
{
}

} // verus!
