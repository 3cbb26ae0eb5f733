//! Texts as single words of a shell command line.

use crate::text::chars_of;
use vstd::prelude::*;

verus! {

/// A character that stands for itself in a word without quotes: a letter or a
/// digit of ASCII, or one of `-`, `_`, `.`, `/` and `=`.
pub open spec fn plain_char(c: char) -> bool {
    ||| 'a' <= c <= 'z'
    ||| 'A' <= c <= 'Z'
    ||| '0' <= c <= '9'
    ||| c == '-'
    ||| c == '_'
    ||| c == '.'
    ||| c == '/'
    ||| c == '='
}

/// Whether a text is a word as it stands.
pub open spec fn plain_word(value: Seq<char>) -> bool {
    value.len() > 0 && forall|i: int| 0 <= i < value.len() ==> plain_char(#[trigger] value[i])
}

/// A text between two single quotes of a quoted word: each single quote in it
/// closes the quotes, stands escaped, and opens them again.
pub open spec fn escaped(value: Seq<char>) -> Seq<char>
    decreases value.len(),
{
    if value.len() == 0 {
        seq![]
    } else if value[0] == '\'' {
        seq!['\'', '\\', '\'', '\''] + escaped(value.skip(1))
    } else {
        seq![value[0]] + escaped(value.skip(1))
    }
}

/// A text in single quotes.
pub open spec fn quoted(value: Seq<char>) -> Seq<char> {
    seq!['\''] + escaped(value) + seq!['\'']
}

/// A text as one word: as it stands where it can, and else in single quotes.
pub open spec fn shell_word(value: Seq<char>) -> Seq<char> {
    if plain_word(value) {
        value
    } else {
        quoted(value)
    }
}

fn is_plain_char(c: char) -> (plain: bool)
    ensures
        plain == plain_char(c),
{
    ('a' <= c && c <= 'z') || ('A' <= c && c <= 'Z') || ('0' <= c && c <= '9') || c == '-' || c
        == '_' || c == '.' || c == '/' || c == '='
}

fn is_plain_word(value: &str) -> (plain: bool)
    ensures
        plain == plain_word(value@),
{
    let chars = chars_of(value);
    let mut i: usize = 0;
    while i < chars.len()
        invariant
            chars@ == value@,
            i <= chars@.len(),
            forall|j: int| 0 <= j < i ==> plain_char(#[trigger] value@[j]),
        decreases chars@.len() - i,
    {
        if !is_plain_char(chars[i]) {
            assert(!plain_char(value@[i as int]));
            return false;
        }
        i += 1;
    }
    chars.len() > 0
}

/// Quote a text for a shell, whether or not it needs quotes.
pub fn shell_quote_always(value: &str) -> (word: String)
    ensures
        word@ == quoted(value@),
{
    let chars = chars_of(value);
    let mut word = "'".to_string();
    let mut i: usize = 0;
    proof {
        reveal_strlit("'");
        reveal_strlit("'\\''");
        assert(chars@.skip(0) =~= chars@);
        assert(word@ =~= seq!['\'']);
    }
    while i < chars.len()
        invariant
            chars@ == value@,
            i <= chars@.len(),
            word@ + escaped(chars@.skip(i as int)) == seq!['\''] + escaped(value@),
        decreases chars@.len() - i,
    {
        let ghost before = word@;
        let ghost rest = chars@.skip(i as int);
        assert(rest.skip(1) =~= chars@.skip(i + 1));
        if chars[i] == '\'' {
            word.append("'\\''");
            proof {
                reveal_strlit("'\\''");
                assert("'\\''"@ =~= seq!['\'', '\\', '\'', '\'']);
                assert(word@ + escaped(rest.skip(1)) =~= before + escaped(rest));
            }
        } else {
            word.push(chars[i]);
            assert(word@ + escaped(rest.skip(1)) =~= before + escaped(rest));
        }
        i += 1;
    }
    assert(word@ + escaped(chars@.skip(i as int)) =~= word@);
    word.push('\'');
    assert(word@ =~= quoted(value@));
    word
}

/// Quote a text for a shell where it needs quotes.
pub fn shell_quote(value: &str) -> (word: String)
    ensures
        word@ == shell_word(value@),
{
    if is_plain_word(value) {
        value.to_string()
    } else {
        shell_quote_always(value)
    }
}

// ---------------------------------------------------------------------------
// Laws
// ---------------------------------------------------------------------------

/// What a shell makes of one word, read from inside or outside single quotes:
/// nothing where the word does not end, or where a character without quotes
/// could mean something else than itself.
pub open spec fn shell_reads(word: Seq<char>, inside: bool) -> Option<Seq<char>>
    decreases word.len(),
{
    if word.len() == 0 {
        if inside {
            None
        } else {
            Some(seq![])
        }
    } else if word[0] == '\'' {
        shell_reads(word.skip(1), !inside)
    } else if inside || plain_char(word[0]) {
        match shell_reads(word.skip(1), inside) {
            Some(rest) => Some(seq![word[0]] + rest),
            None => None,
        }
    } else if word[0] == '\\' && word.len() > 1 {
        match shell_reads(word.skip(2), false) {
            Some(rest) => Some(seq![word[1]] + rest),
            None => None,
        }
    } else {
        None
    }
}

proof fn lemma_escaped_reads(value: Seq<char>)
    ensures
        shell_reads(escaped(value) + seq!['\''], true) == Some(value),
    decreases value.len(),
{
    let word = escaped(value) + seq!['\''];
    if value.len() == 0 {
        assert(word.skip(1) =~= seq![]);
        assert(shell_reads(word.skip(1), false) == Some(Seq::<char>::empty()));
        assert(value =~= seq![]);
    } else {
        let rest = escaped(value.skip(1)) + seq!['\''];
        lemma_escaped_reads(value.skip(1));
        assert(value =~= seq![value[0]] + value.skip(1));
        if value[0] == '\'' {
            assert(word.skip(1).skip(2).skip(1) =~= rest);
            assert(shell_reads(word.skip(1).skip(2), false) == shell_reads(rest, true));
            assert(word.skip(1)[0] == '\\' && word.skip(1)[1] == '\'');
            assert(shell_reads(word.skip(1), false) == Some(value));
        } else {
            assert(word.skip(1) =~= rest);
        }
    }
}

proof fn lemma_plain_reads(value: Seq<char>)
    requires
        forall|i: int| 0 <= i < value.len() ==> plain_char(#[trigger] value[i]),
    ensures
        shell_reads(value, false) == Some(value),
    decreases value.len(),
{
    if value.len() == 0 {
        assert(value =~= seq![]);
    } else {
        assert(plain_char(value[0]));
        lemma_plain_reads(value.skip(1));
        assert(value =~= seq![value[0]] + value.skip(1));
    }
}

/// A shell reads a text in quotes back as the text, whatever it holds.
pub proof fn lemma_quoted_reads_back(value: Seq<char>)
    ensures
        shell_reads(quoted(value), false) == Some(value),
{
    lemma_escaped_reads(value);
    assert(quoted(value).skip(1) =~= escaped(value) + seq!['\'']);
}

/// A shell reads a quoted text back as the text, whatever it holds.
pub proof fn lemma_word_reads_back(value: Seq<char>)
    ensures
        shell_reads(shell_word(value), false) == Some(value),
{
    if plain_word(value) {
        lemma_plain_reads(value);
    } else {
        lemma_quoted_reads_back(value);
    }
}

/// A word goes without quotes exactly where it is not empty and holds nothing
/// but letters and digits of ASCII and five further characters, none of which a
/// shell gives a meaning of its own.
pub proof fn lemma_words_without_quotes(value: Seq<char>)
    ensures
        ({
            let plain = value.len() > 0 && forall|i: int|
                0 <= i < value.len() ==> {
                    ||| '0' <= #[trigger] value[i] <= '9'
                    ||| 'A' <= value[i] <= 'Z'
                    ||| 'a' <= value[i] <= 'z'
                    ||| "-_./="@.contains(value[i])
                };
            &&& plain ==> shell_word(value) == value
            &&& !plain ==> shell_word(value) == quoted(value)
        }),
{
    let others = "-_./="@;
    reveal_strlit("-_./=");
    assert(others[0] == '-' && others[1] == '_' && others[2] == '.' && others[3] == '/'
        && others[4] == '=');
    assert forall|c: char| #[trigger] plain_char(c) implies {
        ||| '0' <= c <= '9'
        ||| 'A' <= c <= 'Z'
        ||| 'a' <= c <= 'z'
        ||| "-_./="@.contains(c)
    } by {}
    if plain_word(value) {
        assert forall|i: int| 0 <= i < value.len() implies {
            ||| '0' <= #[trigger] value[i] <= '9'
            ||| 'A' <= value[i] <= 'Z'
            ||| 'a' <= value[i] <= 'z'
            ||| "-_./="@.contains(value[i])
        } by {
            assert(plain_char(value[i]));
        }
    }
}

/// Quotes stand around a text as it is, but for its single quotes: each of those
/// ends the quotes, stands behind a backslash, and begins them anew.
pub proof fn lemma_quotes_around_text(before: Seq<char>, behind: Seq<char>)
    requires
        !before.contains('\''),
    ensures
        quoted(before) == seq!['\''] + before + seq!['\''],
        quoted(before + seq!['\''] + behind) == seq!['\''] + before + "'\\'"@ + quoted(behind),
    decreases before.len(),
{
    let whole = before + seq!['\''] + behind;
    reveal_strlit("'\\'");
    assert("'\\'"@ =~= seq!['\'', '\\', '\'']);
    lemma_escaped_without_quotes(before, whole.skip(before.len() as int));
    lemma_escaped_without_quotes(before, seq![]);
    assert(before + Seq::<char>::empty() =~= before);
    assert(escaped(Seq::<char>::empty()) =~= seq![]);
    assert(before + escaped(Seq::<char>::empty()) =~= before);
    let rest = whole.skip(before.len() as int);
    assert(whole =~= before + rest);
    assert(rest[0] == '\'');
    assert(rest.skip(1) =~= behind);
    assert(quoted(whole) =~= seq!['\''] + before + "'\\'"@ + quoted(behind));
    assert(quoted(before) =~= seq!['\''] + before + seq!['\'']);
}

proof fn lemma_escaped_without_quotes(before: Seq<char>, behind: Seq<char>)
    requires
        !before.contains('\''),
    ensures
        escaped(before + behind) == before + escaped(behind),
    decreases before.len(),
{
    let whole = before + behind;
    if before.len() == 0 {
        assert(whole =~= behind);
        assert(before + escaped(behind) =~= escaped(behind));
    } else {
        assert(before.contains(before[0]));
        assert(whole.skip(1) =~= before.skip(1) + behind);
        assert forall|i: int| 0 <= i < before.skip(1).len() implies before.skip(1)[i] != '\'' by {
            assert(before.contains(before[i + 1]));
        }
        lemma_escaped_without_quotes(before.skip(1), behind);
        assert(escaped(whole) =~= before + escaped(behind));
    }
}

} // verus!
