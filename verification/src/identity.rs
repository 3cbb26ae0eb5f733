//! Names of the tmux sessions that Zedra owns: the agent's slug and the hex
//! text of the agent session id behind a reserved prefix.

use crate::encoding::{
    hex, hex_decode, hex_encode, lemma_hex_chars, lemma_hex_index, lemma_hex_injective,
    string_from_utf8,
};
use crate::error::{Failure, TmuxError};
use crate::text::{
    after_prefix, chars_of, cut_last, first_at, has_prefix, lemma_first_at, lemma_last_at,
    lemma_last_at_is, pieces, rsplit_once, split, strip_prefix, texts,
};
use vstd::prelude::*;
use vstd::utf8::{
    decode_utf8_encode_utf8, encode_utf8, encode_utf8_decode_utf8,
    encode_utf8_valid_utf8,
};

verus! {

/// Namespace prefix for tmux sessions created and terminated by Zedra.
pub const OWNED_SESSION_PREFIX: &'static str = "zedra-";

/// A small letter or a digit.
pub open spec fn slug_char(c: char) -> bool {
    'a' <= c <= 'z' || '0' <= c <= '9'
}

/// A part of a slug: one or more small letters and digits.
pub open spec fn slug_part(part: Seq<char>) -> bool {
    part.len() > 0 && forall|i: int| 0 <= i < part.len() ==> slug_char(#[trigger] part[i])
}

/// Parts of small letters and digits with single hyphens between them.
pub open spec fn valid_slug(slug: Seq<char>) -> bool {
    forall|i: int| 0 <= i < pieces(slug, '-').len() ==> slug_part(#[trigger] pieces(slug, '-')[i])
}

fn is_slug_part(part: &str) -> (valid: bool)
    ensures
        valid == slug_part(part@),
{
    let chars = chars_of(part);
    let mut i: usize = 0;
    while i < chars.len()
        invariant
            chars@ == part@,
            i <= chars@.len(),
            forall|j: int| 0 <= j < i ==> slug_char(#[trigger] part@[j]),
        decreases chars@.len() - i,
    {
        let c = chars[i];
        if !(('a' <= c && c <= 'z') || ('0' <= c && c <= '9')) {
            assert(!slug_char(part@[i as int]));
            return false;
        }
        i += 1;
    }
    chars.len() > 0
}

/// Accept an agent slug, or say that it is invalid.
pub fn validate_slug(slug: &str) -> (result: Result<(), TmuxError>)
    ensures
        match result {
            Ok(_) => valid_slug(slug@),
            Err(e) => !valid_slug(slug@) && e@ == (Failure::InvalidSlug { slug: slug@ }),
        },
{
    let parts = split(slug, '-');
    let mut i: usize = 0;
    while i < parts.len()
        invariant
            texts(parts@) == pieces(slug@, '-'),
            i <= parts@.len(),
            forall|j: int| 0 <= j < i ==> slug_part(#[trigger] pieces(slug@, '-')[j]),
        decreases parts@.len() - i,
    {
        assert(texts(parts@)[i as int] == parts@[i as int]@);
        if !is_slug_part(parts[i].as_str()) {
            assert(!slug_part(pieces(slug@, '-')[i as int]));
            return Err(TmuxError::InvalidSlug { slug: slug.to_string() });
        }
        i += 1;
    }
    assert(texts(parts@).len() == parts@.len());
    Ok(())
}

/// The owned name of an agent session.
pub open spec fn owned_name(slug: Seq<char>, session_id: Seq<char>) -> Seq<char> {
    OWNED_SESSION_PREFIX@ + slug + seq!['-'] + hex(encode_utf8(session_id))
}

/// Encode an agent/session identity into its owned tmux session name.
pub fn owned_session_name(slug: &str, session_id: &str) -> (name: Result<String, TmuxError>)
    ensures
        match name {
            Ok(n) => valid_slug(slug@) && session_id@.len() > 0 && n@ == owned_name(
                slug@,
                session_id@,
            ),
            Err(e) => if !valid_slug(slug@) {
                e@ == (Failure::InvalidSlug { slug: slug@ })
            } else {
                session_id@.len() == 0 && e@ == Failure::EmptySessionId
            },
        },
{
    validate_slug(slug)?;
    if session_id.is_empty() {
        return Err(TmuxError::EmptySessionId);
    }
    let mut name = OWNED_SESSION_PREFIX.to_string();
    name.append(slug);
    name.push('-');
    name.append(hex_encode(session_id.as_bytes()).as_str());
    assert(name@ =~= owned_name(slug@, session_id@));
    Ok(name)
}

/// Whether a tmux session name belongs to Zedra's owned namespace.
#[derive(Debug, PartialEq, Eq)]
pub enum SessionOwnership {
    Owned { slug: String, session_id: String },
    Untracked,
}

/// A [`SessionOwnership`] over mathematical text.
pub enum Ownership {
    Owned { slug: Seq<char>, session_id: Seq<char> },
    Untracked,
}

impl View for SessionOwnership {
    type V = Ownership;

    open spec fn view(&self) -> Ownership {
        match *self {
            SessionOwnership::Owned { slug, session_id } => Ownership::Owned {
                slug: slug@,
                session_id: session_id@,
            },
            SessionOwnership::Untracked => Ownership::Untracked,
        }
    }
}

impl Clone for SessionOwnership {
    fn clone(&self) -> (copy: Self)
        ensures
            copy@ == self@,
    {
        match self {
            SessionOwnership::Owned { slug, session_id } => SessionOwnership::Owned {
                slug: slug.clone(),
                session_id: session_id.clone(),
            },
            SessionOwnership::Untracked => SessionOwnership::Untracked,
        }
    }
}

/// Whether `name` is the owned name of this agent session.
pub open spec fn names(name: Seq<char>, slug: Seq<char>, session_id: Seq<char>) -> bool {
    valid_slug(slug) && session_id.len() > 0 && name == owned_name(slug, session_id)
}

/// The agent session that a tmux session name is the owned name of, if any.
pub open spec fn ownership(name: Seq<char>) -> Ownership {
    if exists|slug: Seq<char>, session_id: Seq<char>| names(name, slug, session_id) {
        let (slug, session_id) = choose|slug: Seq<char>, session_id: Seq<char>|
            names(name, slug, session_id);
        Ownership::Owned { slug, session_id }
    } else {
        Ownership::Untracked
    }
}

/// How an owned name is taken apart: the slug and the hex text are the two
/// sides of the last hyphen behind the prefix.
proof fn lemma_owned_parts(slug: Seq<char>, session_id: Seq<char>)
    ensures
        has_prefix(owned_name(slug, session_id), OWNED_SESSION_PREFIX@),
        after_prefix(owned_name(slug, session_id), OWNED_SESSION_PREFIX@) == Some(
            slug + seq!['-'] + hex(encode_utf8(session_id)),
        ),
        cut_last(slug + seq!['-'] + hex(encode_utf8(session_id)), '-') == Some(
            (slug, hex(encode_utf8(session_id))),
        ),
{
    let name = owned_name(slug, session_id);
    let code = hex(encode_utf8(session_id));
    let rest = slug + seq!['-'] + code;
    let count = OWNED_SESSION_PREFIX@.len() as int;
    assert(name.subrange(0, count) =~= OWNED_SESSION_PREFIX@);
    assert(name.skip(count) =~= rest);
    let at = slug.len() as int;
    assert forall|j: int| at < j < rest.len() implies rest[j] != '-' by {
        assert(rest[j] == code[j - at - 1]);
        lemma_hex_chars(encode_utf8(session_id), j - at - 1);
    }
    lemma_last_at_is(rest, '-', at);
    assert(rest.take(at) =~= slug);
    assert(rest.skip(at + 1) =~= code);
}

/// Different identities have different owned names.
pub proof fn lemma_owned_names_collision_free(
    slug: Seq<char>,
    session_id: Seq<char>,
    other_slug: Seq<char>,
    other_id: Seq<char>,
)
    requires
        owned_name(slug, session_id) == owned_name(other_slug, other_id),
    ensures
        slug == other_slug,
        session_id == other_id,
{
    lemma_owned_parts(slug, session_id);
    lemma_owned_parts(other_slug, other_id);
    lemma_hex_injective(encode_utf8(session_id), encode_utf8(other_id));
    encode_utf8_decode_utf8(session_id);
    encode_utf8_decode_utf8(other_id);
}

/// Decoding an owned name gives back the identity it was made from.
pub proof fn lemma_owned_name_round_trip(slug: Seq<char>, session_id: Seq<char>)
    requires
        valid_slug(slug),
        session_id.len() > 0,
    ensures
        ownership(owned_name(slug, session_id)) == (Ownership::Owned { slug, session_id }),
{
    let name = owned_name(slug, session_id);
    assert(names(name, slug, session_id));
    let (s, id) = choose|s: Seq<char>, id: Seq<char>| names(name, s, id);
    lemma_owned_names_collision_free(slug, session_id, s, id);
}

/// A name that decodes is exactly the owned name of what it decodes to.
pub proof fn lemma_owned_name_is_unique(name: Seq<char>)
    ensures
        ownership(name) matches Ownership::Owned { slug, session_id } ==> valid_slug(slug)
            && session_id.len() > 0 && name == owned_name(slug, session_id),
{
}

/// Every owned name stands in the reserved namespace.
pub proof fn lemma_owned_name_is_reserved(name: Seq<char>)
    requires
        ownership(name) is Owned,
    ensures
        has_prefix(name, OWNED_SESSION_PREFIX@),
{
    let (slug, session_id) = choose|slug: Seq<char>, session_id: Seq<char>|
        names(name, slug, session_id);
    lemma_owned_parts(slug, session_id);
}

/// Classify a tmux session name; every foreign or malformed name is untracked.
pub fn session_ownership(name: &str) -> (result: SessionOwnership)
    ensures
        result@ == ownership(name@),
{
    proof {
        assert forall|slug: Seq<char>, session_id: Seq<char>|
            names(name@, slug, session_id) implies has_prefix(name@, OWNED_SESSION_PREFIX@)
            && after_prefix(name@, OWNED_SESSION_PREFIX@) == Some(
            slug + seq!['-'] + hex(encode_utf8(session_id)),
        ) && cut_last(slug + seq!['-'] + hex(encode_utf8(session_id)), '-') == Some(
            (slug, hex(encode_utf8(session_id))),
        ) by {
            lemma_owned_parts(slug, session_id);
        }
    }
    let rest = match strip_prefix(name, OWNED_SESSION_PREFIX) {
        Some(r) => r,
        None => {
            return SessionOwnership::Untracked;
        },
    };
    let (slug, encoded) = match rsplit_once(rest.as_str(), '-') {
        Some(parts) => parts,
        None => {
            return SessionOwnership::Untracked;
        },
    };
    if validate_slug(slug.as_str()).is_err() {
        return SessionOwnership::Untracked;
    }
    let bytes = match hex_decode(encoded.as_str()) {
        Some(b) => b,
        None => {
            return SessionOwnership::Untracked;
        },
    };
    let ghost code = bytes@;
    proof {
        assert forall|s: Seq<char>, id: Seq<char>|
            names(name@, s, id) implies s == slug@ && encode_utf8(id) == code by {
            lemma_hex_injective(encode_utf8(id), code);
        }
        encode_utf8_valid_utf8_all();
    }
    let session_id = match string_from_utf8(bytes) {
        Some(id) => id,
        None => {
            return SessionOwnership::Untracked;
        },
    };
    proof {
        decode_utf8_encode_utf8(code);
        assert forall|s: Seq<char>, id: Seq<char>| names(name@, s, id) implies id
            == session_id@ by {
            encode_utf8_decode_utf8(id);
        }
    }
    if session_id.as_str().is_empty() {
        return SessionOwnership::Untracked;
    }
    proof {
        lemma_last_at(rest@, '-');
        let at = crate::text::last_at(rest@, '-');
        assert(rest@ =~= rest@.take(at) + seq!['-'] + rest@.skip(at + 1));
        let count = OWNED_SESSION_PREFIX@.len() as int;
        assert(name@ =~= name@.subrange(0, count) + name@.skip(count));
        assert(name@ =~= owned_name(slug@, session_id@));
        assert(names(name@, slug@, session_id@));
    }
    SessionOwnership::Owned { slug, session_id }
}

proof fn encode_utf8_valid_utf8_all()
    ensures
        forall|id: Seq<char>| vstd::utf8::valid_utf8(#[trigger] encode_utf8(id)),
{
    broadcast use encode_utf8_valid_utf8;

}

/// A slug holds small letters, digits and hyphens only. It is not empty, has no
/// hyphen at either end, and no two hyphens side by side. Every such text is a
/// slug.
pub proof fn lemma_slug_characters(slug: Seq<char>)
    ensures
        valid_slug(slug) <==> {
            &&& slug.len() > 0
            &&& slug[0] != '-'
            &&& slug.last() != '-'
            &&& forall|i: int|
                0 <= i < slug.len() ==> #[trigger] slug[i] == '-' || 'a' <= slug[i] <= 'z' || '0'
                    <= slug[i] <= '9'
            &&& forall|i: int, j: int|
                0 <= i && j == i + 1 && j < slug.len() ==> !(#[trigger] slug[i] == '-'
                    && #[trigger] slug[j] == '-')
        },
    decreases slug.len(),
{
    lemma_first_at(slug, '-');
    let at = first_at(slug, '-');
    let parts = pieces(slug, '-');
    if at == slug.len() {
        assert(parts[0] == slug);
        if valid_slug(slug) {
            assert(slug_part(parts[0]));
            assert(forall|i: int| 0 <= i < slug.len() ==> slug_char(#[trigger] slug[i]));
        }
    } else {
        let before = slug.take(at);
        let behind = slug.skip(at + 1);
        let rest = pieces(behind, '-');
        lemma_slug_characters(behind);
        assert(parts =~= seq![before] + rest);
        assert(parts[0] == before);
        assert(forall|i: int| 0 <= i < rest.len() ==> #[trigger] rest[i] == parts[i + 1]);
        assert(valid_slug(slug) <==> slug_part(before) && valid_slug(behind)) by {
            if slug_part(before) && valid_slug(behind) {
                assert forall|i: int| 0 <= i < parts.len() implies slug_part(
                    #[trigger] parts[i],
                ) by {
                    if i > 0 {
                        assert(rest[i - 1] == parts[i]);
                    }
                }
            }
            if valid_slug(slug) {
                assert(slug_part(parts[0]));
                assert forall|i: int| 0 <= i < rest.len() implies slug_part(
                    #[trigger] rest[i],
                ) by {
                    assert(slug_part(parts[i + 1]));
                }
            }
        }
        assert(forall|i: int| 0 <= i < at ==> #[trigger] before[i] == slug[i]);
        assert(forall|i: int| 0 <= i < behind.len() ==> #[trigger] behind[i] == slug[i + at + 1]);
        if valid_slug(slug) {
            assert forall|i: int| 0 <= i < slug.len() implies #[trigger] slug[i] == '-' || 'a'
                <= slug[i] <= 'z' || '0' <= slug[i] <= '9' by {
                if i < at {
                    assert(slug_char(before[i]));
                } else if i > at {
                    assert(behind[i - at - 1] == slug[i]);
                }
            }
            assert forall|i: int, j: int| 0 <= i && j == i + 1 && j < slug.len() implies !(
            #[trigger] slug[i] == '-' && #[trigger] slug[j] == '-') by {
                if i < at {
                    assert(slug[i] != '-');
                } else if i == at {
                    assert(behind[0] == slug[j]);
                } else {
                    assert(behind[i - at - 1] == slug[i]);
                    assert(behind[j - at - 1] == slug[j]);
                }
            }
            assert(slug_char(before[0]));
            assert(behind.last() == slug.last());
        }
        if slug.len() > 0 && slug[0] != '-' && slug.last() != '-' && (forall|i: int|
            0 <= i < slug.len() ==> #[trigger] slug[i] == '-' || 'a' <= slug[i] <= 'z' || '0'
                <= slug[i] <= '9') && (forall|i: int, j: int|
            0 <= i && j == i + 1 && j < slug.len() ==> !(#[trigger] slug[i] == '-'
                && #[trigger] slug[j] == '-')) {
            assert(at > 0);
            assert forall|i: int| 0 <= i < before.len() implies slug_char(
                #[trigger] before[i],
            ) by {
                assert(slug[i] != '-');
            }
            assert(at < slug.len() - 1);
            assert(slug[at + 1] != '-');
            assert(behind[0] == slug[at + 1]);
            assert(behind.last() == slug.last());
            assert forall|i: int| 0 <= i < behind.len() implies #[trigger] behind[i] == '-' || 'a'
                <= behind[i] <= 'z' || '0' <= behind[i] <= '9' by {
                assert(behind[i] == slug[i + at + 1]);
            }
            assert forall|i: int, j: int| 0 <= i && j == i + 1 && j < behind.len() implies !(
            #[trigger] behind[i] == '-' && #[trigger] behind[j] == '-') by {
                assert(behind[i] == slug[i + at + 1]);
                assert(behind[j] == slug[j + at + 1]);
            }
            assert(valid_slug(behind));
            assert(slug_part(before));
        }
    }
}

/// An owned name in full: the prefix, the slug, a hyphen, and two small
/// hexadecimal digits for each byte of the session id, the high half first.
pub proof fn lemma_owned_names_in_full(slug: Seq<char>, session_id: Seq<char>, i: int)
    ensures
        ({
            let name = owned_name(slug, session_id);
            let bytes = encode_utf8(session_id);
            let start = slug.len() + 7int;
            let digits = "0123456789abcdef"@;
            &&& "zedra-"@.is_prefix_of(name)
            &&& name.len() == start + 2 * bytes.len()
            &&& name.subrange(6, slug.len() + 6int) == slug
            &&& name[slug.len() + 6int] == '-'
            &&& 0 <= i < bytes.len() ==> name[start + 2 * i] == digits[bytes[i] as int / 16]
                && name[start + 2 * i + 1] == digits[bytes[i] as int % 16]
        }),
{
    reveal_strlit("zedra-");
    reveal_strlit("0123456789abcdef");
    let name = owned_name(slug, session_id);
    let bytes = encode_utf8(session_id);
    assert(name.subrange(0, 6) =~= "zedra-"@);
    assert(name.subrange(6, slug.len() + 6int) =~= slug);
    if 0 <= i < bytes.len() {
        let code = hex(bytes);
        assert(code.len() == 2 * bytes.len());
        lemma_hex_index(bytes, i);
        assert(name[7 + slug.len() + 2 * i] == code[2 * i]);
        assert(name[7 + slug.len() + 2 * i + 1] == code[2 * i + 1]);
    }
}

/// A name is owned exactly where it is the owned name of some identity, and it
/// is then owned by that one.
pub proof fn lemma_ownership_is_exact(name: Seq<char>, slug: Seq<char>, session_id: Seq<char>)
    ensures
        ownership(name) == (Ownership::Owned { slug, session_id }) <==> valid_slug(slug)
            && session_id.len() > 0 && name == owned_name(slug, session_id),
{
    if valid_slug(slug) && session_id.len() > 0 {
        lemma_owned_name_round_trip(slug, session_id);
    }
}

} // verus!
