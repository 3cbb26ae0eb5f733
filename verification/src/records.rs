//! The records that tmux listings print, one line each, with `|` between the
//! fields.

use crate::error::{Failure, TmuxError};
use crate::number::{parse_i64, parse_u32, signed_value, unsigned_value};
use crate::text::{
    cut_first, cut_last, pieces, rsplit_once, same_text, split, split_once, texts,
};
use vstd::prelude::*;

verus! {

/// Proven `list-panes` format for process fields: exactly 4 `|`-separated fields.
pub const PROCESS_PANE_FORMAT: &'static str =
    "#{pane_id}|#{pane_current_command}|#{pane_dead}|#{pane_dead_status}";

/// Proven `list-panes` format for display fields: id first, path/start command last,
/// title may contain `|`.
pub const METADATA_PANE_FORMAT: &'static str =
    "#{pane_id}|#{pane_title}|#{pane_current_path}|#{pane_start_command}";

/// Session name first; attached-client count and activity are parsed from the
/// right so names may contain `|`.
pub const SESSION_FORMAT: &'static str = "#{session_name}|#{session_attached}|#{session_activity}";

// ---------------------------------------------------------------------------
// Pane processes
// ---------------------------------------------------------------------------

/// Process fields for one pane, from the proven process listing format.
#[derive(Debug, PartialEq, Eq)]
pub struct PaneProcess {
    pub pane_id: String,
    pub current_command: String,
    pub dead: bool,
    pub exit_code: Option<u32>,
}

/// A [`PaneProcess`] over mathematical text.
pub struct ProcessRecord {
    pub pane_id: Seq<char>,
    pub current_command: Seq<char>,
    pub dead: bool,
    pub exit_code: Option<u32>,
}

impl View for PaneProcess {
    type V = ProcessRecord;

    open spec fn view(&self) -> ProcessRecord {
        ProcessRecord {
            pane_id: self.pane_id@,
            current_command: self.current_command@,
            dead: self.dead,
            exit_code: self.exit_code,
        }
    }
}

impl Clone for PaneProcess {
    fn clone(&self) -> (copy: Self)
        ensures
            copy@ == self@,
    {
        PaneProcess {
            pane_id: self.pane_id.clone(),
            current_command: self.current_command.clone(),
            dead: self.dead,
            exit_code: self.exit_code,
        }
    }
}

/// The pane that a process line describes, or what is wrong with the line.
pub open spec fn process_record(line: Seq<char>) -> Result<ProcessRecord, Failure> {
    let fields = pieces(line, '|');
    if fields.len() != 4 {
        Err(Failure::ProcessFieldCount { count: fields.len() })
    } else if fields[2] != "0"@ && fields[2] != "1"@ {
        Err(Failure::PaneDead { value: fields[2] })
    } else if fields[3].len() > 0 && unsigned_value(fields[3], u32::MAX as nat) is None {
        Err(Failure::PaneDeadStatus { value: fields[3] })
    } else {
        Ok(
            ProcessRecord {
                pane_id: fields[0],
                current_command: fields[1],
                dead: fields[2] != "0"@,
                exit_code: if fields[3].len() == 0 {
                    None
                } else {
                    Some(unsigned_value(fields[3], u32::MAX as nat)->0 as u32)
                },
            },
        )
    }
}

/// Parse one process record; live panes carry an empty `pane_dead_status`.
pub fn parse_pane_process(line: &str) -> (record: Result<PaneProcess, TmuxError>)
    ensures
        match record {
            Ok(r) => process_record(line@) == Ok::<ProcessRecord, Failure>(r@),
            Err(e) => process_record(line@) == Err::<ProcessRecord, Failure>(e@),
        },
{
    let fields = split(line, '|');
    assert(texts(fields@).len() == fields@.len());
    if fields.len() != 4 {
        return Err(TmuxError::ProcessFieldCount { count: fields.len() });
    }
    assert(texts(fields@)[0] == fields@[0]@);
    assert(texts(fields@)[1] == fields@[1]@);
    assert(texts(fields@)[2] == fields@[2]@);
    assert(texts(fields@)[3] == fields@[3]@);
    let dead = if same_text(fields[2].as_str(), "0") {
        false
    } else if same_text(fields[2].as_str(), "1") {
        true
    } else {
        return Err(TmuxError::PaneDead { value: fields[2].clone() });
    };
    let exit_code: Option<u32> = if fields[3].as_str().is_empty() {
        None
    } else {
        match parse_u32(fields[3].as_str()) {
            Some(code) => Some(code),
            None => {
                return Err(TmuxError::PaneDeadStatus { value: fields[3].clone() });
            },
        }
    };
    Ok(
        PaneProcess {
            pane_id: fields[0].clone(),
            current_command: fields[1].clone(),
            dead,
            exit_code,
        },
    )
}

// ---------------------------------------------------------------------------
// Pane metadata
// ---------------------------------------------------------------------------

/// Display metadata for one pane, from the proven metadata listing format.
#[derive(Debug, PartialEq, Eq)]
pub struct PaneMetadata {
    pub pane_id: String,
    pub title: String,
    pub current_path: String,
    pub start_command: String,
}

/// A [`PaneMetadata`] over mathematical text.
pub struct MetadataRecord {
    pub pane_id: Seq<char>,
    pub title: Seq<char>,
    pub current_path: Seq<char>,
    pub start_command: Seq<char>,
}

impl View for PaneMetadata {
    type V = MetadataRecord;

    open spec fn view(&self) -> MetadataRecord {
        MetadataRecord {
            pane_id: self.pane_id@,
            title: self.title@,
            current_path: self.current_path@,
            start_command: self.start_command@,
        }
    }
}

impl Clone for PaneMetadata {
    fn clone(&self) -> (copy: Self)
        ensures
            copy@ == self@,
    {
        PaneMetadata {
            pane_id: self.pane_id.clone(),
            title: self.title.clone(),
            current_path: self.current_path.clone(),
            start_command: self.start_command.clone(),
        }
    }
}

/// The pane that a metadata line describes, or what is wrong with the line.
pub open spec fn metadata_record(line: Seq<char>) -> Result<MetadataRecord, Failure> {
    match cut_first(line, '|') {
        None => Err(Failure::MetadataPaneId),
        Some((pane_id, tail)) => match cut_last(tail, '|') {
            None => Err(Failure::MetadataStartCommand),
            Some((head, start_command)) => match cut_last(head, '|') {
                None => Err(Failure::MetadataCurrentPath),
                Some((title, current_path)) => Ok(
                    MetadataRecord { pane_id, title, current_path, start_command },
                ),
            },
        },
    }
}

/// Parse one metadata record: id at the first `|`, path/start command at the last
/// two, and the pipe-tolerant title as the remainder. Fields may be empty.
pub fn parse_pane_metadata(line: &str) -> (record: Result<PaneMetadata, TmuxError>)
    ensures
        match record {
            Ok(r) => metadata_record(line@) == Ok::<MetadataRecord, Failure>(r@),
            Err(e) => metadata_record(line@) == Err::<MetadataRecord, Failure>(e@),
        },
{
    let (pane_id, tail) = match split_once(line, '|') {
        Some(parts) => parts,
        None => {
            return Err(TmuxError::MetadataPaneId);
        },
    };
    let (head, start_command) = match rsplit_once(tail.as_str(), '|') {
        Some(parts) => parts,
        None => {
            return Err(TmuxError::MetadataStartCommand);
        },
    };
    let (title, current_path) = match rsplit_once(head.as_str(), '|') {
        Some(parts) => parts,
        None => {
            return Err(TmuxError::MetadataCurrentPath);
        },
    };
    Ok(PaneMetadata { pane_id, title, current_path, start_command })
}

// ---------------------------------------------------------------------------
// Sessions
// ---------------------------------------------------------------------------

/// One tmux session, from the session listing format.
#[derive(Debug, PartialEq, Eq)]
pub struct TmuxSessionRecord {
    pub name: String,
    pub attached_clients: u32,
    pub activity_unix_seconds: i64,
}

/// A [`TmuxSessionRecord`] over mathematical text.
pub struct SessionRecord {
    pub name: Seq<char>,
    pub attached_clients: u32,
    pub activity_unix_seconds: i64,
}

impl View for TmuxSessionRecord {
    type V = SessionRecord;

    open spec fn view(&self) -> SessionRecord {
        SessionRecord {
            name: self.name@,
            attached_clients: self.attached_clients,
            activity_unix_seconds: self.activity_unix_seconds,
        }
    }
}

/// The session that a listing line describes, or what is wrong with the line.
pub open spec fn session_record(line: Seq<char>) -> Result<SessionRecord, Failure> {
    match cut_last(line, '|') {
        None => Err(Failure::SessionActivityMissing),
        Some((head, activity)) => match cut_last(head, '|') {
            None => Err(Failure::SessionAttachedMissing),
            Some((name, attached)) => if name.len() == 0 {
                Err(Failure::SessionNameEmpty)
            } else {
                match unsigned_value(attached, u32::MAX as nat) {
                    None => Err(Failure::SessionAttached { value: attached }),
                    Some(clients) => match signed_value(activity) {
                        None => Err(Failure::SessionActivity { value: activity }),
                        Some(seconds) => Ok(
                            SessionRecord {
                                name,
                                attached_clients: clients as u32,
                                activity_unix_seconds: seconds as i64,
                            },
                        ),
                    },
                }
            },
        },
    }
}

/// Parse one session record.
pub fn parse_session_record(line: &str) -> (record: Result<TmuxSessionRecord, TmuxError>)
    ensures
        match record {
            Ok(r) => session_record(line@) == Ok::<SessionRecord, Failure>(r@),
            Err(e) => session_record(line@) == Err::<SessionRecord, Failure>(e@),
        },
{
    let (head, activity) = match rsplit_once(line, '|') {
        Some(parts) => parts,
        None => {
            return Err(TmuxError::SessionActivityMissing);
        },
    };
    let (name, attached) = match rsplit_once(head.as_str(), '|') {
        Some(parts) => parts,
        None => {
            return Err(TmuxError::SessionAttachedMissing);
        },
    };
    if name.as_str().is_empty() {
        return Err(TmuxError::SessionNameEmpty);
    }
    let attached_clients = match parse_u32(attached.as_str()) {
        Some(clients) => clients,
        None => {
            return Err(TmuxError::SessionAttached { value: attached });
        },
    };
    let activity_unix_seconds = match parse_i64(activity.as_str()) {
        Some(seconds) => seconds,
        None => {
            return Err(TmuxError::SessionActivity { value: activity });
        },
    };
    Ok(TmuxSessionRecord { name, attached_clients, activity_unix_seconds })
}

// ---------------------------------------------------------------------------
// Laws
// ---------------------------------------------------------------------------

/// The line that tmux prints for fields in order.
pub open spec fn record_line(fields: Seq<Seq<char>>) -> Seq<char> {
    crate::text::joined(fields, seq!['|'])
}

/// The fields of a process line.
pub open spec fn process_fields(record: ProcessRecord) -> Seq<Seq<char>> {
    seq![
        record.pane_id,
        record.current_command,
        if record.dead {
            "1"@
        } else {
            "0"@
        },
        match record.exit_code {
            Some(code) => crate::number::decimal(code as nat),
            None => seq![],
        },
    ]
}

/// A process line is read back field by field, where the id and the command hold
/// no `|`.
pub proof fn lemma_process_line_round_trip(record: ProcessRecord)
    requires
        !record.pane_id.contains('|'),
        !record.current_command.contains('|'),
    ensures
        process_record(record_line(process_fields(record))) == Ok::<ProcessRecord, Failure>(record),
{
    reveal_strlit("0");
    reveal_strlit("1");
    let fields = process_fields(record);
    if let Some(code) = record.exit_code {
        crate::number::lemma_decimal_value(code as nat);
        crate::number::lemma_unsigned_decimal(code as nat, u32::MAX as nat);
    }
    assert forall|i: int| 0 <= i < fields.len() implies !(#[trigger] fields[i]).contains('|') by {
        if i == 3 && record.exit_code is Some {
            assert(crate::number::all_digits(fields[3]));
        }
    }
    crate::text::lemma_pieces_joined(fields, '|');
    assert("0"@[0] != "1"@[0]);
}

proof fn lemma_cut_last_push(head: Seq<char>, c: char, tail: Seq<char>)
    requires
        !tail.contains(c),
    ensures
        cut_last(head.push(c) + tail, c) == Some((head, tail)),
{
    let whole = head.push(c) + tail;
    assert forall|j: int| head.len() < j < whole.len() implies whole[j] != c by {
        assert(whole[j] == tail[j - head.len() - 1]);
        assert(tail.contains(tail[j - head.len() - 1]));
    }
    crate::text::lemma_last_at_is(whole, c, head.len() as int);
    assert(whole.take(head.len() as int) =~= head);
    assert(whole.skip(head.len() as int + 1) =~= tail);
}

/// A metadata line is read back field by field, whatever the title holds.
pub proof fn lemma_metadata_line_round_trip(
    pane_id: Seq<char>,
    title: Seq<char>,
    current_path: Seq<char>,
    start_command: Seq<char>,
)
    requires
        !pane_id.contains('|'),
        !current_path.contains('|'),
        !start_command.contains('|'),
    ensures
        metadata_record(record_line(seq![pane_id, title, current_path, start_command])) == Ok::<
            MetadataRecord,
            Failure,
        >(MetadataRecord { pane_id, title, current_path, start_command }),
{
    let fields = seq![pane_id, title, current_path, start_command];
    let tail = (title.push('|') + current_path).push('|') + start_command;
    lemma_line_of_four(fields);
    let line = record_line(fields);
    assert(line =~= pane_id.push('|') + tail);
    assert forall|j: int| 0 <= j < pane_id.len() implies line[j] != '|' by {
        assert(line[j] == pane_id[j]);
        assert(pane_id.contains(pane_id[j]));
    }
    crate::text::lemma_first_at_is(line, '|', pane_id.len() as int);
    assert(line.take(pane_id.len() as int) =~= pane_id);
    assert(line.skip(pane_id.len() as int + 1) =~= tail);
    lemma_cut_last_push(title.push('|') + current_path, '|', start_command);
    lemma_cut_last_push(title, '|', current_path);
}

proof fn lemma_line_of_four(fields: Seq<Seq<char>>)
    requires
        fields.len() == 4,
    ensures
        record_line(fields) == fields[0].push('|') + ((fields[1].push('|') + fields[2]).push('|')
            + fields[3]),
{
    reveal_with_fuel(crate::text::joined, 4);
    assert(fields.drop_last().drop_last().drop_last() =~= seq![fields[0]]);
    assert(fields.drop_last().drop_last() =~= seq![fields[0], fields[1]]);
    assert(fields.drop_last() =~= seq![fields[0], fields[1], fields[2]]);
    assert(record_line(fields) =~= fields[0].push('|') + ((fields[1].push('|') + fields[2]).push(
        '|',
    ) + fields[3]));
}

/// A session line is read back field by field, whatever the name holds.
pub proof fn lemma_session_line_round_trip(
    name: Seq<char>,
    attached: Seq<char>,
    activity: Seq<char>,
)
    requires
        name.len() > 0,
        unsigned_value(attached, u32::MAX as nat) is Some,
        signed_value(activity) is Some,
    ensures
        session_record(name.push('|') + attached.push('|') + activity) == Ok::<
            SessionRecord,
            Failure,
        >(
            SessionRecord {
                name,
                attached_clients: unsigned_value(attached, u32::MAX as nat)->0 as u32,
                activity_unix_seconds: signed_value(activity)->0 as i64,
            },
        ),
{
    let line = name.push('|') + attached.push('|') + activity;
    assert(line =~= (name.push('|') + attached).push('|') + activity);
    lemma_number_without_bar(attached);
    lemma_number_without_bar(activity);
    lemma_cut_last_push(name.push('|') + attached, '|', activity);
    lemma_cut_last_push(name, '|', attached);
}

proof fn lemma_number_without_bar(s: Seq<char>)
    requires
        unsigned_value(s, u32::MAX as nat) is Some || signed_value(s) is Some,
    ensures
        !s.contains('|'),
{
    if s.contains('|') {
        let i = choose|i: int| 0 <= i < s.len() && s[i] == '|';
        if i > 0 {
            assert(s.skip(1)[i - 1] == '|');
        }
    }
}

/// How a line of process fields is read: it has four fields; the third says
/// whether the pane is dead, and the fourth, where it is not empty, is the exit
/// code. The first of these that does not hold is named with what was found.
pub proof fn lemma_process_fields(fields: Seq<Seq<char>>)
    requires
        fields.len() > 0,
        forall|i: int| 0 <= i < fields.len() ==> !(#[trigger] fields[i]).contains('|'),
    ensures
        ({
            let read = process_record(record_line(fields));
            let code = unsigned_value(fields[3], 0xffff_ffff);
            &&& fields.len() != 4 ==> read == Err::<ProcessRecord, Failure>(
                Failure::ProcessFieldCount { count: fields.len() },
            )
            &&& fields.len() == 4 && fields[2] != seq!['0'] && fields[2] != seq!['1'] ==> read
                == Err::<ProcessRecord, Failure>(Failure::PaneDead { value: fields[2] })
            &&& fields.len() == 4 && (fields[2] == seq!['0'] || fields[2] == seq!['1']) ==> {
                &&& fields[3].len() > 0 && code is None ==> read == Err::<ProcessRecord, Failure>(
                    Failure::PaneDeadStatus { value: fields[3] },
                )
                &&& fields[3].len() == 0 || code is Some ==> read is Ok && {
                    let record = read->Ok_0;
                    &&& record.pane_id == fields[0]
                    &&& record.current_command == fields[1]
                    &&& record.dead <==> fields[2] == seq!['1']
                    &&& fields[3].len() == 0 ==> record.exit_code is None
                    &&& fields[3].len() > 0 ==> record.exit_code is Some
                        && record.exit_code->0 as nat == code->0
                }
            }
        }),
{
    reveal_strlit("0");
    reveal_strlit("1");
    crate::text::lemma_pieces_joined(fields, '|');
    assert("0"@ =~= seq!['0']);
    assert("1"@ =~= seq!['1']);
    assert(seq!['0'][0] != seq!['1'][0]);
}

/// A metadata line without a bar has no pane id, one with a single bar has no
/// start command, and one with two has no current path. With a third bar it has
/// all four fields: the title holds every further bar.
pub proof fn lemma_metadata_fields(
    first: Seq<char>,
    second: Seq<char>,
    title: Seq<char>,
    last: Seq<char>,
)
    requires
        !first.contains('|'),
        !second.contains('|'),
        !last.contains('|'),
    ensures
        metadata_record(first) == Err::<MetadataRecord, Failure>(Failure::MetadataPaneId),
        metadata_record(first + seq!['|'] + second) == Err::<MetadataRecord, Failure>(
            Failure::MetadataStartCommand,
        ),
        metadata_record(first + seq!['|'] + second + seq!['|'] + last) == Err::<
            MetadataRecord,
            Failure,
        >(Failure::MetadataCurrentPath),
        metadata_record(first + seq!['|'] + title + seq!['|'] + second + seq!['|'] + last) == Ok::<
            MetadataRecord,
            Failure,
        >(
            MetadataRecord {
                pane_id: first,
                title,
                current_path: second,
                start_command: last,
            },
        ),
{
    let bar = seq!['|'];
    crate::text::lemma_cuts(first, '|', second);
    crate::text::lemma_cuts(second, '|', last);
    let pair = second + bar + last;
    crate::text::lemma_cuts(first, '|', pair);
    assert(first + bar + second + bar + last =~= first + bar + pair);
    let tail = (title + bar + second) + bar + last;
    crate::text::lemma_cuts(first, '|', tail);
    crate::text::lemma_cuts(title + bar + second, '|', last);
    crate::text::lemma_cuts(title, '|', second);
    assert(first + bar + title + bar + second + bar + last =~= first + bar + tail);
}

/// How a session line is read: behind its last bar stands the activity, before
/// that the number of clients behind the next bar, and the rest is the name,
/// which is not empty. The first of these that does not hold is named.
pub proof fn lemma_session_fields(name: Seq<char>, attached: Seq<char>, activity: Seq<char>)
    requires
        !attached.contains('|'),
        !activity.contains('|'),
    ensures
        session_record(activity) == Err::<SessionRecord, Failure>(Failure::SessionActivityMissing),
        session_record(attached + seq!['|'] + activity) == Err::<SessionRecord, Failure>(
            Failure::SessionAttachedMissing,
        ),
        ({
            let read = session_record(name + seq!['|'] + attached + seq!['|'] + activity);
            let clients = unsigned_value(attached, 0xffff_ffff);
            let seconds = signed_value(activity);
            &&& name.len() == 0 ==> read == Err::<SessionRecord, Failure>(
                Failure::SessionNameEmpty,
            )
            &&& name.len() > 0 && clients is None ==> read == Err::<SessionRecord, Failure>(
                Failure::SessionAttached { value: attached },
            )
            &&& name.len() > 0 && clients is Some && seconds is None ==> read == Err::<
                SessionRecord,
                Failure,
            >(Failure::SessionActivity { value: activity })
            &&& name.len() > 0 && clients is Some && seconds is Some ==> read is Ok && {
                let record = read->Ok_0;
                &&& record.name == name
                &&& record.attached_clients as nat == clients->0
                &&& record.activity_unix_seconds as int == seconds->0
            }
        }),
{
    let bar = seq!['|'];
    crate::text::lemma_cuts(activity, '|', seq![]);
    crate::text::lemma_cuts(attached, '|', activity);
    crate::text::lemma_cuts(name + bar + attached, '|', activity);
    crate::text::lemma_cuts(name, '|', attached);
}

/// Records over mathematical text keep every field.
pub proof fn lemma_records_keep_fields(
    process: PaneProcess,
    metadata: PaneMetadata,
    session: TmuxSessionRecord,
)
    ensures
        process@.pane_id == process.pane_id@,
        process@.current_command == process.current_command@,
        process@.dead == process.dead,
        process@.exit_code == process.exit_code,
        metadata@.pane_id == metadata.pane_id@,
        metadata@.title == metadata.title@,
        metadata@.current_path == metadata.current_path@,
        metadata@.start_command == metadata.start_command@,
        session@.name == session.name@,
        session@.attached_clients == session.attached_clients,
        session@.activity_unix_seconds == session.activity_unix_seconds,
{
}

} // verus!
