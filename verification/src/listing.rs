//! Listing the sessions that Zedra owns.

use crate::client::{
    argument_list, command, decode_output, decoded, exit_error, exit_failure, lemma_reply_texts,
    replies_of, reply_of, reply_output, reply_text, error_text, no_server, run_output, written,
    Client, CommandReply, Reply, Stage, Step, TmuxClient, TmuxCommand,
};
use crate::encoding::{decode_lossy, string_from_utf8_lossy};
use crate::error::{Failure, TmuxError};
use crate::identity::{
    lemma_ownership_is_exact, owned_name, ownership, session_ownership, valid_slug, validate_slug,
    Ownership, SessionOwnership,
};
use crate::records::{
    metadata_record, parse_pane_metadata, parse_pane_process, process_record, MetadataRecord,
    PaneMetadata, PaneProcess, ProcessRecord, METADATA_PANE_FORMAT, PROCESS_PANE_FORMAT,
};
use crate::text::{lemma_lines_one_by_one, lines, lines_of, same_text, texts, trim, trimmed};
use vstd::prelude::*;

verus! {

/// One Zedra-owned session's live pane state, from [`TmuxClient::list_sessions`].
#[derive(Debug)]
pub struct OwnedPane {
    pub slug: String,
    pub session_id: String,
    pub process: PaneProcess,
    pub metadata: PaneMetadata,
}

/// An [`OwnedPane`] over mathematical text.
pub struct PaneRecord {
    pub slug: Seq<char>,
    pub session_id: Seq<char>,
    pub process: ProcessRecord,
    pub metadata: MetadataRecord,
}

impl View for OwnedPane {
    type V = PaneRecord;

    open spec fn view(&self) -> PaneRecord {
        PaneRecord {
            slug: self.slug@,
            session_id: self.session_id@,
            process: self.process@,
            metadata: self.metadata@,
        }
    }
}

pub open spec fn pane_records(panes: Seq<OwnedPane>) -> Seq<PaneRecord> {
    Seq::new(panes.len(), |i: int| panes[i]@)
}

// ---------------------------------------------------------------------------
// Session names
// ---------------------------------------------------------------------------

/// The arguments that list the names of all sessions.
pub open spec fn name_list_arguments() -> Seq<Seq<char>> {
    seq!["list-sessions"@, "-F"@, "#{session_name}"@]
}

/// The command that lists the names of all sessions.
pub open spec fn name_list_command(client: Client) -> crate::client::Command {
    command(client, name_list_arguments(), "list sessions"@)
}

/// What a session listing has written. No server is the documented "available
/// capability, empty list" signal, not an error.
pub open spec fn session_listing(reply: Reply) -> Result<Option<Seq<char>>, Failure> {
    match reply_output(reply, "list sessions"@) {
        Err(failure) => Err(failure),
        Ok(output) => if output.success {
            match decoded(output, "list sessions"@) {
                Ok(text) => Ok(Some(text)),
                Err(failure) => Err(failure),
            }
        } else if no_server(error_text(output)) {
            Ok(None)
        } else {
            Err(exit_failure(output, "list sessions"@))
        },
    }
}

/// What a session listing has written.
pub fn listed_text(reply: &CommandReply) -> (text: Result<Option<String>, TmuxError>)
    ensures
        match text {
            Ok(Some(t)) => session_listing(reply_of(*reply)) == Ok::<Option<Seq<char>>, Failure>(
                Some(t@),
            ),
            Ok(None) => session_listing(reply_of(*reply)) == Ok::<Option<Seq<char>>, Failure>(None),
            Err(e) => session_listing(reply_of(*reply)) == Err::<Option<Seq<char>>, Failure>(e@),
        },
{
    let output = match run_output(reply, "list sessions") {
        Ok(output) => output,
        Err(error) => {
            return Err(error);
        },
    };
    if !output.success {
        let stderr = string_from_utf8_lossy(&output.stderr);
        if TmuxClient::is_no_server(stderr.as_str()) {
            return Ok(None);
        }
        return Err(exit_error(output, "list sessions"));
    }
    match decode_output(output, "list sessions") {
        Ok(text) => Ok(Some(text)),
        Err(error) => Err(error),
    }
}

// ---------------------------------------------------------------------------
// Panes of one session
// ---------------------------------------------------------------------------

/// The arguments that list the panes of a session.
pub open spec fn pane_arguments(name: Seq<char>, format: Seq<char>) -> Seq<Seq<char>> {
    seq!["list-panes"@, "-t"@, name, "-F"@, format]
}

/// The first pane in two pane listings, if both have one that can be read.
pub open spec fn first_pane(process_text: Seq<char>, metadata_text: Seq<char>) -> Option<
    (ProcessRecord, MetadataRecord),
> {
    let processes = lines_of(process_text);
    let metadata = lines_of(metadata_text);
    if processes.len() == 0 || metadata.len() == 0 {
        None
    } else {
        match (process_record(processes[0]), metadata_record(metadata[0])) {
            (Ok(process), Ok(pane)) => Some((process, pane)),
            _ => None,
        }
    }
}

/// How far the inspection of a session's first pane has come: the pane, if it
/// can be read, and how many replies that has taken.
pub open spec fn pane_stage(client: Client, name: Seq<char>, replies: Seq<Reply>) -> Stage<
    (Option<(ProcessRecord, MetadataRecord)>, nat),
> {
    let what = "list panes"@;
    if replies.len() == 0 {
        Stage::Run(command(client, pane_arguments(name, PROCESS_PANE_FORMAT@), what))
    } else if reply_text(replies[0], what) is Err {
        Stage::Done((None, 1))
    } else if replies.len() == 1 {
        Stage::Run(command(client, pane_arguments(name, METADATA_PANE_FORMAT@), what))
    } else if reply_text(replies[1], what) is Err {
        Stage::Done((None, 2))
    } else {
        Stage::Done(
            (first_pane(reply_text(replies[0], what)->Ok_0, reply_text(replies[1], what)->Ok_0), 2),
        )
    }
}

fn read_first_pane(process_text: &str, metadata_text: &str) -> (pane: Option<
    (PaneProcess, PaneMetadata),
>)
    ensures
        match pane {
            Some(p) => first_pane(process_text@, metadata_text@) == Some((p.0@, p.1@)),
            None => first_pane(process_text@, metadata_text@) is None,
        },
{
    let processes = lines(process_text);
    let metadata = lines(metadata_text);
    assert(texts(processes@).len() == processes@.len());
    assert(texts(metadata@).len() == metadata@.len());
    if processes.len() == 0 || metadata.len() == 0 {
        return None;
    }
    assert(texts(processes@)[0] == processes@[0]@);
    assert(texts(metadata@)[0] == metadata@[0]@);
    match (
        parse_pane_process(processes[0].as_str()),
        parse_pane_metadata(metadata[0].as_str()),
    ) {
        (Ok(process), Ok(pane)) => Some((process, pane)),
        _ => None,
    }
}

// ---------------------------------------------------------------------------
// The listing
// ---------------------------------------------------------------------------

/// The session id in an owned name of this agent, if the name is one.
pub open spec fn wanted_session(name: Seq<char>, slug: Seq<char>) -> Option<Seq<char>> {
    match ownership(trimmed(name)) {
        Ownership::Owned { slug: owner, session_id } => if owner == slug {
            Some(session_id)
        } else {
            None
        },
        Ownership::Untracked => None,
    }
}

/// A stage behind panes that were found before it.
pub open spec fn with_panes(found: Seq<PaneRecord>, stage: Stage<Seq<PaneRecord>>) -> Stage<
    Seq<PaneRecord>,
> {
    match stage {
        Stage::Done(more) => Stage::Done(found + more),
        _ => stage,
    }
}

/// How far the inspection of the agent's sessions among these names has come.
pub open spec fn panes_stage(
    client: Client,
    slug: Seq<char>,
    names: Seq<Seq<char>>,
    replies: Seq<Reply>,
) -> Stage<Seq<PaneRecord>>
    decreases names.len(),
{
    if names.len() == 0 {
        Stage::Done(seq![])
    } else {
        match wanted_session(names[0], slug) {
            None => panes_stage(client, slug, names.skip(1), replies),
            Some(session_id) => match pane_stage(client, trimmed(names[0]), replies) {
                Stage::Run(next) => Stage::Run(next),
                Stage::Identify(next) => Stage::Identify(next),
                Stage::Done((pane, used)) => {
                    let rest = panes_stage(
                        client,
                        slug,
                        names.skip(1),
                        replies.skip(used as int),
                    );
                    match pane {
                        None => rest,
                        Some((process, metadata)) => with_panes(
                            seq![PaneRecord { slug, session_id, process, metadata }],
                            rest,
                        ),
                    }
                },
            },
        }
    }
}

/// How far the listing of an agent's sessions has come.
pub open spec fn list_stage(client: Client, slug: Seq<char>, replies: Seq<Reply>) -> Stage<
    Result<Seq<PaneRecord>, Failure>,
> {
    if !valid_slug(slug) {
        Stage::Done(Err(Failure::InvalidSlug { slug }))
    } else if replies.len() == 0 {
        Stage::Run(name_list_command(client))
    } else {
        match session_listing(replies[0]) {
            Err(failure) => Stage::Done(Err(failure)),
            Ok(None) => Stage::Done(Ok(seq![])),
            Ok(Some(text)) => match panes_stage(
                client,
                slug,
                lines_of(text),
                replies.skip(1),
            ) {
                Stage::Run(next) => Stage::Run(next),
                Stage::Identify(next) => Stage::Identify(next),
                Stage::Done(panes) => Stage::Done(Ok(panes)),
            },
        }
    }
}

/// Whether a step of a listing is at a stage.
pub open spec fn list_step(
    step: Step<Result<Vec<OwnedPane>, TmuxError>>,
    stage: Stage<Result<Seq<PaneRecord>, Failure>>,
) -> bool {
    match step {
        Step::Run(c) => stage == Stage::<Result<Seq<PaneRecord>, Failure>>::Run(c@),
        Step::Identify(c) => stage == Stage::<Result<Seq<PaneRecord>, Failure>>::Identify(c@),
        Step::Done(Ok(p)) => stage == Stage::Done(
            Ok::<Seq<PaneRecord>, Failure>(pane_records(p@)),
        ),
        Step::Done(Err(e)) => stage == Stage::Done(Err::<Seq<PaneRecord>, Failure>(e@)),
    }
}

impl TmuxClient {
    /// The command that lists the names of all sessions.
    pub fn name_list_command(&self) -> (result: TmuxCommand)
        ensures
            result@ == name_list_command(self@),
    {
        let result = self.command(&["list-sessions", "-F", "#{session_name}"], "list sessions");
        assert(result@.argv =~= argument_list(self@, name_list_arguments()));
        result
    }

    fn pane_command(&self, name: &str, format: &str) -> (result: TmuxCommand)
        ensures
            result@ == command(self@, pane_arguments(name@, format@), "list panes"@),
    {
        let result = self.command(&["list-panes", "-t", name, "-F", format], "list panes");
        assert(result@.argv =~= argument_list(self@, pane_arguments(name@, format@)));
        result
    }

    fn inspect_pane(&self, name: &str, replies: &Vec<CommandReply>, at: usize) -> (step: Step<
        (Option<(PaneProcess, PaneMetadata)>, usize),
    >)
        requires
            at <= replies@.len(),
        ensures
            match step {
                Step::Run(c) => pane_stage(self@, name@, replies_of(replies@).skip(at as int))
                    == Stage::<(Option<(ProcessRecord, MetadataRecord)>, nat)>::Run(c@),
                Step::Identify(_) => false,
                Step::Done((pane, next)) => {
                    &&& at <= next <= replies@.len()
                    &&& pane_stage(self@, name@, replies_of(replies@).skip(at as int))
                        == Stage::Done(
                        (
                            match pane {
                                Some(p) => Some((p.0@, p.1@)),
                                None => None,
                            },
                            (next - at) as nat,
                        ),
                    )
                },
            },
    {
        let ghost rest = replies_of(replies@).skip(at as int);
        if at == replies.len() {
            return Step::Run(self.pane_command(name, PROCESS_PANE_FORMAT));
        }
        assert(rest[0] == reply_of(replies@[at as int]));
        let process_text = match Self::run_ok(&replies[at], "list panes") {
            Ok(text) => text,
            Err(_) => {
                return Step::Done((None, at + 1));
            },
        };
        if at + 1 == replies.len() {
            return Step::Run(self.pane_command(name, METADATA_PANE_FORMAT));
        }
        assert(rest[1] == reply_of(replies@[at + 1]));
        let metadata_text = match Self::run_ok(&replies[at + 1], "list panes") {
            Ok(text) => text,
            Err(_) => {
                return Step::Done((None, at + 2));
            },
        };
        Step::Done((read_first_pane(process_text.as_str(), metadata_text.as_str()), at + 2))
    }

    /// List one agent's Zedra-owned sessions on this socket with their first
    /// pane's process and metadata state. Other agent namespaces, foreign
    /// sessions, and malformed sessions are skipped before pane inspection; an
    /// owned session whose pane data cannot be read is also skipped.
    pub fn list_sessions(&self, requested_slug: &str, replies: &Vec<CommandReply>) -> (step: Step<
        Result<Vec<OwnedPane>, TmuxError>,
    >)
        ensures
            list_step(step, list_stage(self@, requested_slug@, replies_of(replies@))),
    {
        if let Err(error) = validate_slug(requested_slug) {
            return Step::Done(Err(error));
        }
        if replies.len() == 0 {
            return Step::Run(self.name_list_command());
        }
        let ghost all = replies_of(replies@);
        assert(all[0] == reply_of(replies@[0]));
        let session_text = match listed_text(&replies[0]) {
            Ok(Some(text)) => text,
            Ok(None) => {
                let none: Vec<OwnedPane> = Vec::new();
                assert(pane_records(none@) =~= seq![]);
                return Step::Done(Ok(none));
            },
            Err(error) => {
                return Step::Done(Err(error));
            },
        };
        let names = lines(session_text.as_str());
        let ghost listed = lines_of(session_text@);
        let ghost whole = panes_stage(self@, requested_slug@, listed, all.skip(1));
        let mut sessions: Vec<OwnedPane> = Vec::new();
        let mut at: usize = 1;
        let mut k: usize = 0;
        proof {
            assert(listed.skip(0) =~= listed);
            assert(pane_records(sessions@) =~= seq![]);
            assert(texts(names@).len() == names@.len());
            if let Stage::Done(more) = whole {
                assert(pane_records(sessions@) + more =~= more);
            }
        }
        while k < names.len()
            invariant
                k <= names@.len(),
                texts(names@) == listed,
                names@.len() == listed.len(),
                all == replies_of(replies@),
                1 <= at <= replies@.len(),
                whole == panes_stage(self@, requested_slug@, listed, all.skip(1)),
                list_stage(self@, requested_slug@, all) == (match whole {
                    Stage::Run(next) => Stage::<Result<Seq<PaneRecord>, Failure>>::Run(next),
                    Stage::Identify(next) => Stage::Identify(next),
                    Stage::Done(panes) => Stage::Done(Ok(panes)),
                }),
                whole == with_panes(
                    pane_records(sessions@),
                    panes_stage(self@, requested_slug@, listed.skip(k as int), all.skip(at as int)),
                ),
            decreases names@.len() - k,
        {
            let ghost before = pane_records(sessions@);
            proof {
                assert(texts(names@)[k as int] == names@[k as int]@);
                assert(listed.skip(k as int)[0] == listed[k as int]);
                assert(listed.skip(k as int).skip(1) =~= listed.skip(k + 1));
            }
            let name = trim(names[k].as_str());
            k += 1;
            let (slug, session_id) = match session_ownership(name.as_str()) {
                SessionOwnership::Owned { slug, session_id } => (slug, session_id),
                SessionOwnership::Untracked => {
                    continue;
                },
            };
            if !same_text(slug.as_str(), requested_slug) {
                continue;
            }
            match self.inspect_pane(name.as_str(), replies, at) {
                Step::Run(next) => {
                    return Step::Run(next);
                },
                Step::Identify(next) => {
                    return Step::Identify(next);
                },
                Step::Done((pane, next)) => {
                    assert(all.skip(at as int).skip(next - at) =~= all.skip(next as int));
                    at = next;
                    if let Some((process, metadata)) = pane {
                        let ghost record = PaneRecord {
                            slug: slug@,
                            session_id: session_id@,
                            process: process@,
                            metadata: metadata@,
                        };
                        sessions.push(OwnedPane { slug, session_id, process, metadata });
                        proof {
                            assert(pane_records(sessions@) =~= before + seq![record]);
                            if let Stage::Done(more) = panes_stage(
                                self@,
                                requested_slug@,
                                listed.skip(k as int),
                                all.skip(at as int),
                            ) {
                                assert(before + (seq![record] + more) =~= pane_records(sessions@)
                                    + more);
                            }
                        }
                    }
                },
            }
        }
        proof {
            assert(listed.skip(k as int) =~= seq![]);
            assert(pane_records(sessions@) + seq![] =~= pane_records(sessions@));
        }
        Step::Done(Ok(sessions))
    }
}

// ---------------------------------------------------------------------------
// Laws
// ---------------------------------------------------------------------------

proof fn lemma_panes_stay_in_namespace(
    client: Client,
    slug: Seq<char>,
    names: Seq<Seq<char>>,
    replies: Seq<Reply>,
)
    ensures
        !(panes_stage(client, slug, names, replies) is Identify),
        panes_stage(client, slug, names, replies) matches Stage::Run(next) ==> exists|k: int|
            0 <= k < names.len() && wanted_session(#[trigger] names[k], slug) is Some && (next
                == command(
                client,
                pane_arguments(trimmed(names[k]), PROCESS_PANE_FORMAT@),
                "list panes"@,
            ) || next == command(
                client,
                pane_arguments(trimmed(names[k]), METADATA_PANE_FORMAT@),
                "list panes"@,
            )),
    decreases names.len(),
{
    if names.len() > 0 {
        let tail = names.skip(1);
        lemma_panes_stay_in_namespace(client, slug, tail, replies);
        lemma_panes_stay_in_namespace(client, slug, tail, replies.skip(1));
        lemma_panes_stay_in_namespace(client, slug, tail, replies.skip(2));
        assert forall|k: int| 0 <= k < tail.len() implies #[trigger] tail[k] == names[k + 1] by {}
        if let Stage::Run(next) = panes_stage(client, slug, names, replies) {
            if wanted_session(names[0], slug) is Some && pane_stage(
                client,
                trimmed(names[0]),
                replies,
            ) is Run {
                assert(wanted_session(names[0], slug) is Some);
            } else {
                let k = choose|k: int|
                    0 <= k < tail.len() && wanted_session(#[trigger] tail[k], slug) is Some && (next
                        == command(
                        client,
                        pane_arguments(trimmed(tail[k]), PROCESS_PANE_FORMAT@),
                        "list panes"@,
                    ) || next == command(
                        client,
                        pane_arguments(trimmed(tail[k]), METADATA_PANE_FORMAT@),
                        "list panes"@,
                    ));
                assert(wanted_session(names[k + 1], slug) is Some);
            }
        }
    }
}

/// A listing inspects the panes of the requested agent's own sessions only:
/// every command lists either the session names or the panes of a session whose
/// name decodes to the requested slug.
pub proof fn lemma_listing_stays_in_namespace(
    client: Client,
    slug: Seq<char>,
    replies: Seq<Reply>,
)
    ensures
        !(list_stage(client, slug, replies) is Identify),
        list_stage(client, slug, replies) matches Stage::Run(next) ==> next == name_list_command(
            client,
        ) || exists|name: Seq<char>, format: Seq<char>|
            next == command(client, #[trigger] pane_arguments(name, format), "list panes"@) && (
            ownership(name) matches Ownership::Owned { slug: owner, .. } && owner == slug),
{
    if valid_slug(slug) && replies.len() > 0 {
        if let Ok(Some(text)) = session_listing(replies[0]) {
            let names = lines_of(text);
            lemma_panes_stay_in_namespace(client, slug, names, replies.skip(1));
            if let Stage::Run(next) = panes_stage(client, slug, names, replies.skip(1)) {
                let k = choose|k: int|
                    0 <= k < names.len() && wanted_session(#[trigger] names[k], slug) is Some && (
                    next == command(
                        client,
                        pane_arguments(trimmed(names[k]), PROCESS_PANE_FORMAT@),
                        "list panes"@,
                    ) || next == command(
                        client,
                        pane_arguments(trimmed(names[k]), METADATA_PANE_FORMAT@),
                        "list panes"@,
                    ));
                assert(ownership(trimmed(names[k])) is Owned);
            }
        }
    }
}

proof fn lemma_panes_are_wanted(
    client: Client,
    slug: Seq<char>,
    names: Seq<Seq<char>>,
    replies: Seq<Reply>,
    panes: Seq<PaneRecord>,
    i: int,
)
    requires
        panes_stage(client, slug, names, replies) == Stage::Done(panes),
        0 <= i < panes.len(),
    ensures
        panes[i].slug == slug,
        exists|k: int|
            0 <= k < names.len() && wanted_session(#[trigger] names[k], slug) == Some(
                panes[i].session_id,
            ),
    decreases names.len(),
{
    let tail = names.skip(1);
    assert forall|k: int| 0 <= k < tail.len() implies #[trigger] tail[k] == names[k + 1] by {}
    match wanted_session(names[0], slug) {
        None => {
            lemma_panes_are_wanted(client, slug, tail, replies, panes, i);
            let k = choose|k: int|
                0 <= k < tail.len() && wanted_session(#[trigger] tail[k], slug) == Some(
                    panes[i].session_id,
                );
            assert(wanted_session(names[k + 1], slug) == Some(panes[i].session_id));
        },
        Some(session_id) => {
            let (pane, used) = pane_stage(client, trimmed(names[0]), replies)->Done_0;
            let rest = panes_stage(client, slug, tail, replies.skip(used as int));
            let more = rest->Done_0;
            let skipped: int = if pane is None {
                0
            } else {
                1
            };
            if i < skipped {
                assert(wanted_session(names[0], slug) == Some(panes[i].session_id));
            } else {
                assert(panes[i] == more[i - skipped]);
                lemma_panes_are_wanted(
                    client,
                    slug,
                    tail,
                    replies.skip(used as int),
                    more,
                    i - skipped,
                );
                let k = choose|k: int|
                    0 <= k < tail.len() && wanted_session(#[trigger] tail[k], slug) == Some(
                        panes[i].session_id,
                    );
                assert(wanted_session(names[k + 1], slug) == Some(panes[i].session_id));
            }
        },
    }
}

/// Every pane in a listing belongs to the requested agent, and to a session
/// that tmux has listed under its owned name.
pub proof fn lemma_listed_panes_are_owned(
    client: Client,
    slug: Seq<char>,
    replies: Seq<Reply>,
    panes: Seq<PaneRecord>,
    i: int,
)
    requires
        list_stage(client, slug, replies) == Stage::Done(
            Ok::<Seq<PaneRecord>, Failure>(panes),
        ),
        0 <= i < panes.len(),
    ensures
        panes[i].slug == slug,
        replies.len() > 0,
        session_listing(replies[0]) matches Ok(Some(text)) && exists|k: int|
            0 <= k < lines_of(text).len() && trimmed(#[trigger] lines_of(text)[k])
                == crate::identity::owned_name(slug, panes[i].session_id),
{
    let text = session_listing(replies[0])->Ok_0->0;
    let names = lines_of(text);
    lemma_panes_are_wanted(client, slug, names, replies.skip(1), panes, i);
    let k = choose|k: int|
        0 <= k < names.len() && wanted_session(#[trigger] names[k], slug) == Some(
            panes[i].session_id,
        );
    crate::identity::lemma_owned_name_is_unique(trimmed(names[k]));
    assert(trimmed(lines_of(text)[k]) == crate::identity::owned_name(slug, panes[i].session_id));
}

proof fn lemma_panes_need_two_replies_each(
    client: Client,
    slug: Seq<char>,
    names: Seq<Seq<char>>,
    replies: Seq<Reply>,
)
    requires
        replies.len() >= 2 * names.len(),
    ensures
        panes_stage(client, slug, names, replies) is Done,
    decreases names.len(),
{
    if names.len() > 0 {
        lemma_panes_need_two_replies_each(client, slug, names.skip(1), replies);
        lemma_panes_need_two_replies_each(client, slug, names.skip(1), replies.skip(1));
        lemma_panes_need_two_replies_each(client, slug, names.skip(1), replies.skip(2));
    }
}

/// A listing comes to its end: one command for the names, and two at most for
/// each name.
pub proof fn lemma_listing_ends(client: Client, slug: Seq<char>, replies: Seq<Reply>)
    requires
        replies.len() > 0,
        session_listing(replies[0]) matches Ok(Some(text)) ==> replies.len() > 2 * lines_of(
            text,
        ).len(),
    ensures
        list_stage(client, slug, replies) is Done,
{
    if let Ok(Some(text)) = session_listing(replies[0]) {
        lemma_panes_need_two_replies_each(client, slug, lines_of(text), replies.skip(1));
    }
}

/// Without a server there are no sessions, and that is no failure.
pub proof fn lemma_no_server_lists_nothing(
    client: Client,
    slug: Seq<char>,
    output: crate::client::Output,
)
    requires
        valid_slug(slug),
        !output.success,
        no_server(error_text(output)),
    ensures
        list_stage(client, slug, seq![Ok(output)]) == Stage::Done(
            Ok::<Seq<PaneRecord>, Failure>(seq![]),
        ),
{
    let replies: Seq<Reply> = seq![Ok(output)];
    assert(replies[0] == Ok::<crate::client::Output, Seq<char>>(output));
}

/// The session that an identity is prepared under is found again by its name
/// under the identity's slug, and under no other.
pub proof fn lemma_prepared_session_is_found_again(
    slug: Seq<char>,
    session_id: Seq<char>,
    other: Seq<char>,
)
    requires
        valid_slug(slug),
        session_id.len() > 0,
    ensures
        wanted_session(crate::identity::owned_name(slug, session_id), slug) == Some(session_id),
        other != slug ==> wanted_session(
            crate::identity::owned_name(slug, session_id),
            other,
        ) is None,
{
    let name = crate::identity::owned_name(slug, session_id);
    let bytes = vstd::utf8::encode_utf8(session_id);
    let code = crate::encoding::hex(bytes);
    crate::identity::lemma_owned_name_round_trip(slug, session_id);
    reveal_strlit("zedra-");
    assert(name[0] == 'z');
    vstd::utf8::encode_utf8_decode_utf8(session_id);
    assert(code.len() == 2 * bytes.len());
    if code.len() > 0 {
        crate::encoding::lemma_hex_chars(bytes, code.len() - 1);
        assert(name.last() == code[code.len() - 1]);
    } else {
        assert(name.last() == '-');
    }
    crate::text::lemma_trimmed_same(name);
}

/// The session ids of the agent's sessions among names, in order.
pub open spec fn wanted_ids(names: Seq<Seq<char>>, slug: Seq<char>) -> Seq<Seq<char>>
    decreases names.len(),
{
    if names.len() == 0 {
        seq![]
    } else {
        match wanted_session(names[0], slug) {
            Some(session_id) => seq![session_id] + wanted_ids(names.skip(1), slug),
            None => wanted_ids(names.skip(1), slug),
        }
    }
}

/// The first pane in the two replies for one session, if it can be read.
pub open spec fn replied_pane(replies: Seq<Reply>, i: int) -> Option<
    (ProcessRecord, MetadataRecord),
> {
    match (reply_text(replies[2 * i], "list panes"@), reply_text(replies[2 * i + 1], "list panes"@)) {
        (Ok(process_text), Ok(metadata_text)) => first_pane(process_text, metadata_text),
        _ => None,
    }
}

/// The record of an agent's session with this pane.
pub open spec fn pane_of_session(
    slug: Seq<char>,
    session_id: Seq<char>,
    pane: (ProcessRecord, MetadataRecord),
) -> PaneRecord {
    PaneRecord { slug, session_id, process: pane.0, metadata: pane.1 }
}

proof fn lemma_panes_of_readable_sessions(
    client: Client,
    slug: Seq<char>,
    names: Seq<Seq<char>>,
    replies: Seq<Reply>,
)
    requires
        replies.len() >= 2 * wanted_ids(names, slug).len(),
        forall|i: int|
            0 <= i < wanted_ids(names, slug).len() ==> #[trigger] replied_pane(replies, i) is Some,
    ensures
        panes_stage(client, slug, names, replies) == Stage::Done(
            Seq::new(
                wanted_ids(names, slug).len(),
                |i: int|
                    pane_of_session(slug, wanted_ids(names, slug)[i], replied_pane(replies, i)->0),
            ),
        ),
    decreases names.len(),
{
    let ids = wanted_ids(names, slug);
    let panes = Seq::new(
        ids.len(),
        |i: int| pane_of_session(slug, ids[i], replied_pane(replies, i)->0),
    );
    if names.len() == 0 {
        assert(panes =~= seq![]);
    } else {
        let tail = names.skip(1);
        match wanted_session(names[0], slug) {
            None => {
                lemma_panes_of_readable_sessions(client, slug, tail, replies);
            },
            Some(session_id) => {
                let later = replies.skip(2);
                let rest_ids = wanted_ids(tail, slug);
                assert(replied_pane(replies, 0) is Some);
                assert(ids.len() == 1 + rest_ids.len());
                assert forall|i: int| 0 <= i < rest_ids.len() implies #[trigger] replied_pane(
                    later,
                    i,
                ) == replied_pane(replies, i + 1) by {
                    assert(later[2 * i] == replies[2 * (i + 1)]);
                    assert(later[2 * i + 1] == replies[2 * (i + 1) + 1]);
                }
                assert forall|i: int| 0 <= i < rest_ids.len() implies #[trigger] replied_pane(
                    later,
                    i,
                ) is Some by {
                    assert(replied_pane(replies, i + 1) is Some);
                }
                lemma_panes_of_readable_sessions(client, slug, tail, later);
                let rest = panes_stage(client, slug, tail, later)->Done_0;
                let first = pane_of_session(slug, session_id, replied_pane(replies, 0)->0);
                assert(seq![first] + rest =~= panes) by {
                    assert forall|i: int| 0 <= i < panes.len() implies (seq![first] + rest)[i]
                        == #[trigger] panes[i] by {
                        if i > 0 {
                            assert(ids[i] == rest_ids[i - 1]);
                            assert(replied_pane(later, i - 1) == replied_pane(replies, i));
                        }
                    }
                }
            },
        }
    }
}

/// Where the panes of all of an agent's sessions can be read, the listing has
/// every one of them, in the order in which tmux lists them.
pub proof fn lemma_listing_finds_every_readable_session(
    client: Client,
    slug: Seq<char>,
    replies: Seq<Reply>,
    text: Seq<char>,
)
    requires
        valid_slug(slug),
        replies.len() > 2 * wanted_ids(lines_of(text), slug).len(),
        session_listing(replies[0]) == Ok::<Option<Seq<char>>, Failure>(Some(text)),
        forall|i: int|
            0 <= i < wanted_ids(lines_of(text), slug).len() ==> #[trigger] replied_pane(
                replies.skip(1),
                i,
            ) is Some,
    ensures
        list_stage(client, slug, replies) matches Stage::Done(Ok(panes)) && {
            let ids = wanted_ids(lines_of(text), slug);
            &&& panes.len() == ids.len()
            &&& forall|i: int|
                0 <= i < ids.len() ==> {
                    &&& (#[trigger] panes[i]).session_id == ids[i]
                    &&& Some((panes[i].process, panes[i].metadata)) == replied_pane(
                        replies.skip(1),
                        i,
                    )
                }
        },
{
    lemma_panes_of_readable_sessions(client, slug, lines_of(text), replies.skip(1));
}

proof fn lemma_panes_stay_done(
    client: Client,
    slug: Seq<char>,
    names: Seq<Seq<char>>,
    replies: Seq<Reply>,
    more: Seq<Reply>,
)
    requires
        panes_stage(client, slug, names, replies) is Done,
    ensures
        panes_stage(client, slug, names, replies + more) == panes_stage(
            client,
            slug,
            names,
            replies,
        ),
    decreases names.len(),
{
    if names.len() > 0 {
        let tail = names.skip(1);
        if wanted_session(names[0], slug) is Some {
            let all = replies + more;
            let name = trimmed(names[0]);
            assert(replies.len() > 0 ==> all[0] == replies[0]);
            assert(replies.len() > 1 ==> all[1] == replies[1]);
            let used = pane_stage(client, name, replies)->Done_0.1 as int;
            assert(pane_stage(client, name, all) == pane_stage(client, name, replies));
            assert(all.skip(used) =~= replies.skip(used) + more);
            lemma_panes_stay_done(client, slug, tail, replies.skip(used), more);
        } else {
            lemma_panes_stay_done(client, slug, tail, replies, more);
        }
    }
}

/// A listing that is done stays done with the same result, whatever further
/// replies there are.
pub proof fn lemma_listing_stays_done(
    client: Client,
    slug: Seq<char>,
    replies: Seq<Reply>,
    more: Seq<Reply>,
)
    requires
        list_stage(client, slug, replies) is Done,
    ensures
        list_stage(client, slug, replies + more) == list_stage(client, slug, replies),
{
    let all = replies + more;
    if valid_slug(slug) {
        assert(all[0] == replies[0]);
        assert(all.skip(1) =~= replies.skip(1) + more);
        if let Ok(Some(text)) = session_listing(replies[0]) {
            lemma_panes_stay_done(client, slug, lines_of(text), replies.skip(1), more);
        }
    }
}

/// A name is one of the agent's sessions exactly where, without white space
/// around it, it is the owned name of a session of that agent.
pub proof fn lemma_wanted_sessions(name: Seq<char>, slug: Seq<char>, session_id: Seq<char>)
    requires
        valid_slug(slug),
    ensures
        wanted_session(name, slug) == Some(session_id) <==> session_id.len() > 0 && trimmed(name)
            == owned_name(slug, session_id),
{
    lemma_ownership_is_exact(trimmed(name), slug, session_id);
}

/// What a listing of sessions has come to: its text where the command succeeded
/// and wrote text, nothing where it failed because no server runs, and else a
/// failure.
pub proof fn lemma_session_listings(reply: Reply)
    ensures
        written(reply) is Some ==> session_listing(reply) == Ok::<Option<Seq<char>>, Failure>(
            written(reply),
        ),
        reply matches Ok(output) && !output.success && no_server(decode_lossy(output.stderr))
            ==> session_listing(reply) == Ok::<Option<Seq<char>>, Failure>(None),
        written(reply) is None && !(reply matches Ok(output) && !output.success && no_server(
            decode_lossy(output.stderr),
        )) ==> session_listing(reply) == Err::<Option<Seq<char>>, Failure>(
            reply_text(reply, "list sessions"@)->Err_0,
        ),
{
}

/// A listed session carries the records of the first line of each of its two
/// pane listings, whatever follows them. Where a listing is empty, or its first
/// line cannot be read, the session has no pane.
pub proof fn lemma_first_lines_decide(process_text: Seq<char>, metadata_text: Seq<char>)
    ensures
        match first_pane(process_text, metadata_text) {
            Some((process, metadata)) => {
                &&& lines_of(process_text).len() > 0
                &&& lines_of(metadata_text).len() > 0
                &&& process_record(lines_of(process_text)[0]) == Ok::<ProcessRecord, Failure>(
                    process,
                )
                &&& metadata_record(lines_of(metadata_text)[0]) == Ok::<MetadataRecord, Failure>(
                    metadata,
                )
            },
            None => {
                ||| lines_of(process_text).len() == 0
                ||| lines_of(metadata_text).len() == 0
                ||| process_record(lines_of(process_text)[0]) is Err
                ||| metadata_record(lines_of(metadata_text)[0]) is Err
            },
        },
{
}

/// Further panes have no influence: two pairs of pane listings that begin with
/// the same lines show the same pane.
pub proof fn lemma_further_panes_are_immaterial(
    process_line: Seq<char>,
    metadata_line: Seq<char>,
    process_rest: Seq<char>,
    metadata_rest: Seq<char>,
)
    requires
        process_line.len() > 0,
        metadata_line.len() > 0,
        !process_line.contains('\n') && process_line.last() != '\r',
        !metadata_line.contains('\n') && metadata_line.last() != '\r',
    ensures
        first_pane(
            process_line + seq!['\n'] + process_rest,
            metadata_line + seq!['\n'] + metadata_rest,
        ) == first_pane(process_line, metadata_line),
{
    lemma_lines_one_by_one(process_line, process_rest);
    lemma_lines_one_by_one(metadata_line, metadata_rest);
}

/// What the replies to the commands for one listed name come to: no command for
/// a name that is not one of the agent's sessions; else a listing of processes
/// and, where that gave a text, one of metadata. The session is shown exactly
/// where both gave texts and the first lines of both can be read, with what
/// those lines say.
pub open spec fn answered(
    slug: Seq<char>,
    name: Seq<char>,
    replies: Seq<Reply>,
    shown: Seq<PaneRecord>,
) -> bool {
    if exists|session_id: Seq<char>|
        session_id.len() > 0 && trimmed(name) == #[trigger] owned_name(slug, session_id) {
        let processes = lines_of(written(replies[0])->0);
        let metadata = lines_of(written(replies[1])->0);
        &&& replies.len() == (if written(replies[0]) is Some {
            2int
        } else {
            1int
        })
        &&& if replies.len() == 2 && written(replies[1]) is Some && processes.len() > 0
            && metadata.len() > 0 && process_record(processes[0]) is Ok && metadata_record(
            metadata[0],
        ) is Ok {
            &&& shown.len() == 1
            &&& shown[0].slug == slug
            &&& shown[0].session_id.len() > 0
            &&& trimmed(name) == owned_name(slug, shown[0].session_id)
            &&& process_record(processes[0]) == Ok::<ProcessRecord, Failure>(shown[0].process)
            &&& metadata_record(metadata[0]) == Ok::<MetadataRecord, Failure>(shown[0].metadata)
        } else {
            shown.len() == 0
        }
    } else {
        replies.len() == 0 && shown.len() == 0
    }
}

proof fn lemma_panes_by_name(
    client: Client,
    slug: Seq<char>,
    names: Seq<Seq<char>>,
    further: Seq<Seq<char>>,
    replies: Seq<Seq<Reply>>,
    shown: Seq<Seq<PaneRecord>>,
    more: Seq<Reply>,
)
    requires
        valid_slug(slug),
        replies.len() == names.len(),
        shown.len() == names.len(),
        forall|i: int|
            0 <= i < names.len() ==> answered(slug, #[trigger] names[i], replies[i], shown[i]),
    ensures
        panes_stage(client, slug, names + further, replies.flatten() + more) == with_panes(
            shown.flatten(),
            panes_stage(client, slug, further, more),
        ),
    decreases names.len(),
{
    let all = names + further;
    let rest = panes_stage(client, slug, further, more);
    if names.len() == 0 {
        assert(all =~= further);
        assert(replies.flatten() + more =~= more);
        if let Stage::Done(panes) = rest {
            assert(shown.flatten() + panes =~= panes);
        }
    } else {
        let name = names[0];
        let own = replies[0];
        let flat = replies.flatten() + more;
        let later = replies.drop_first().flatten() + more;
        assert(answered(slug, names[0], own, shown[0]));
        assert forall|i: int| 0 <= i < names.skip(1).len() implies answered(
            slug,
            #[trigger] names.skip(1)[i],
            replies.drop_first()[i],
            shown.drop_first()[i],
        ) by {
            assert(answered(slug, names[i + 1], replies[i + 1], shown[i + 1]));
        }
        lemma_panes_by_name(
            client,
            slug,
            names.skip(1),
            further,
            replies.drop_first(),
            shown.drop_first(),
            more,
        );
        assert(all.skip(1) =~= names.skip(1) + further);
        assert(all[0] == name);
        assert(flat =~= own + later);
        assert(shown.flatten() == shown[0] + shown.drop_first().flatten());
        let tail = panes_stage(client, slug, all.skip(1), later);
        assert(tail == with_panes(shown.drop_first().flatten(), rest));
        if exists|session_id: Seq<char>|
            session_id.len() > 0 && trimmed(name) == #[trigger] owned_name(slug, session_id) {
            let session_id = choose|session_id: Seq<char>|
                session_id.len() > 0 && trimmed(name) == #[trigger] owned_name(slug, session_id);
            lemma_wanted_sessions(name, slug, session_id);
            lemma_reply_texts(own[0], "list panes"@);
            assert(flat[0] == own[0]);
            assert(flat.skip(own.len() as int) =~= later);
            if own.len() == 2 {
                lemma_reply_texts(own[1], "list panes"@);
                assert(flat[1] == own[1]);
            }
            if shown[0].len() == 1 {
                lemma_wanted_sessions(name, slug, shown[0][0].session_id);
                assert(shown[0] =~= seq![
                    PaneRecord {
                        slug,
                        session_id,
                        process: shown[0][0].process,
                        metadata: shown[0][0].metadata,
                    },
                ]);
            }
        } else {
            if let Some(session_id) = wanted_session(name, slug) {
                lemma_wanted_sessions(name, slug, session_id);
            }
            assert(flat =~= later);
        }
        assert(panes_stage(client, slug, all, flat) == with_panes(shown[0], tail)) by {
            if shown[0].len() == 0 {
                if let Stage::Done(panes) = tail {
                    assert(shown[0] + panes =~= panes);
                }
            }
        }
        if let Stage::Done(panes) = rest {
            assert(shown[0] + (shown.drop_first().flatten() + panes) =~= shown.flatten() + panes);
        }
    }
}

/// A listing shows, in the order of the names, every session of the agent whose
/// first pane can be read in both of its pane listings, and no other. A session
/// whose panes cannot be read takes nothing from the others.
pub proof fn lemma_listing_by_name(
    client: Client,
    slug: Seq<char>,
    listing: Reply,
    replies: Seq<Seq<Reply>>,
    shown: Seq<Seq<PaneRecord>>,
)
    requires
        valid_slug(slug),
        written(listing) is Some,
        ({
            let names = lines_of(written(listing)->0);
            &&& replies.len() == names.len()
            &&& shown.len() == names.len()
            &&& forall|i: int|
                0 <= i < names.len() ==> answered(slug, #[trigger] names[i], replies[i], shown[i])
        }),
    ensures
        list_stage(client, slug, seq![listing] + replies.flatten()) == Stage::Done(
            Ok::<Seq<PaneRecord>, Failure>(shown.flatten()),
        ),
{
    let names = lines_of(written(listing)->0);
    let all = seq![listing] + replies.flatten();
    let none: Seq<Reply> = seq![];
    lemma_session_listings(listing);
    lemma_panes_by_name(client, slug, names, seq![], replies, shown, none);
    assert(names + Seq::<Seq<char>>::empty() =~= names);
    assert(replies.flatten() + none =~= replies.flatten());
    assert(all.skip(1) =~= replies.flatten());
    assert(shown.flatten() + Seq::<PaneRecord>::empty() =~= shown.flatten());
}

/// A listing asks for the names first. With the answers for all names before
/// one of the agent's sessions, it asks for the processes of that session, and
/// then for the metadata.
pub proof fn lemma_listing_asks_in_order(
    client: Client,
    slug: Seq<char>,
    listing: Reply,
    k: int,
    session_id: Seq<char>,
    replies: Seq<Seq<Reply>>,
    shown: Seq<Seq<PaneRecord>>,
    processes: Reply,
)
    requires
        valid_slug(slug),
        session_id.len() > 0,
        written(listing) is Some,
        written(processes) is Some,
        ({
            let names = lines_of(written(listing)->0);
            &&& 0 <= k < names.len()
            &&& trimmed(names[k]) == owned_name(slug, session_id)
            &&& replies.len() == k
            &&& shown.len() == k
            &&& forall|i: int|
                0 <= i < k ==> answered(slug, #[trigger] names[i], replies[i], shown[i])
        }),
    ensures
        ({
            let name = owned_name(slug, session_id);
            let before = seq![listing] + replies.flatten();
            let process_format = "#{pane_id}|#{pane_current_command}|#{pane_dead}|#{pane_dead_status}"@;
            let metadata_format = "#{pane_id}|#{pane_title}|#{pane_current_path}|#{pane_start_command}"@;
            &&& list_stage(client, slug, seq![]) == Stage::<Result<Seq<PaneRecord>, Failure>>::Run(
                command(
                    client,
                    seq!["list-sessions"@, "-F"@, "#{session_name}"@],
                    "list sessions"@,
                ),
            )
            &&& list_stage(client, slug, before) == Stage::<Result<Seq<PaneRecord>, Failure>>::Run(
                command(
                    client,
                    seq!["list-panes"@, "-t"@, name, "-F"@, process_format],
                    "list panes"@,
                ),
            )
            &&& list_stage(client, slug, before.push(processes)) == Stage::<
                Result<Seq<PaneRecord>, Failure>,
            >::Run(
                command(
                    client,
                    seq!["list-panes"@, "-t"@, name, "-F"@, metadata_format],
                    "list panes"@,
                ),
            )
        }),
{
    let names = lines_of(written(listing)->0);
    let done = names.take(k);
    let further = names.skip(k);
    let before = seq![listing] + replies.flatten();
    let none: Seq<Reply> = seq![];
    lemma_session_listings(listing);
    lemma_wanted_sessions(names[k], slug, session_id);
    lemma_reply_texts(processes, "list panes"@);
    assert(forall|i: int| 0 <= i < k ==> #[trigger] done[i] == names[i]);
    lemma_panes_by_name(client, slug, done, further, replies, shown, none);
    lemma_panes_by_name(client, slug, done, further, replies, shown, seq![processes]);
    assert(done + further =~= names);
    assert(further[0] == names[k]);
    assert(replies.flatten() + none =~= replies.flatten());
    assert(before.skip(1) =~= replies.flatten());
    assert(before.push(processes).skip(1) =~= replies.flatten() + seq![processes]);
}

/// A listing of names that fails is the outcome of the listing, and so is a
/// slug that is refused, before any command.
pub proof fn lemma_failed_listings(client: Client, slug: Seq<char>, replies: Seq<Reply>)
    ensures
        !valid_slug(slug) ==> list_stage(client, slug, replies) == Stage::Done(
            Err::<Seq<PaneRecord>, Failure>(Failure::InvalidSlug { slug }),
        ),
        valid_slug(slug) && replies.len() > 0 && session_listing(replies[0]) is Err ==> list_stage(
            client,
            slug,
            replies,
        ) == Stage::Done(
            Err::<Seq<PaneRecord>, Failure>(session_listing(replies[0])->Err_0),
        ),
{
}

/// Panes over mathematical text keep every field.
pub proof fn lemma_panes_keep_fields(pane: OwnedPane, panes: Seq<OwnedPane>, i: int)
    ensures
        pane@.slug == pane.slug@,
        pane@.session_id == pane.session_id@,
        pane@.process == pane.process@,
        pane@.metadata == pane.metadata@,
        pane_records(panes).len() == panes.len(),
        0 <= i < panes.len() ==> pane_records(panes)[i] == panes[i]@,
{
}

/// A step of a listing at a stage is that stage: it runs the same command, or is
/// done with the same panes or the same failure.
pub proof fn lemma_listing_steps_are_their_stages(
    step: Step<Result<Vec<OwnedPane>, TmuxError>>,
    stage: Stage<Result<Seq<PaneRecord>, Failure>>,
)
    requires
        list_step(step, stage),
    ensures
        step matches Step::Run(c) ==> stage is Run && stage->Run_0 == c@,
        step matches Step::Identify(c) ==> stage is Identify && stage->Identify_0 == c@,
        step matches Step::Done(Ok(panes)) ==> stage is Done && stage->Done_0 is Ok
            && stage->Done_0->Ok_0 == pane_records(panes@),
        step matches Step::Done(Err(e)) ==> stage is Done && stage->Done_0 is Err
            && stage->Done_0->Err_0 == e@,
{
}

} // verus!
