//! Text as a sequence of characters: searching, splitting and trimming, each
//! stated over [`Seq<char>`] and computed on `&str`.

use vstd::prelude::*;

verus! {

/// `String::push` appends one character.
pub assume_specification[ String::push ](s: &mut String, c: char)
    ensures
        final(s)@ == old(s)@.push(c),
;

/// The characters of each string of a list.
pub open spec fn texts(list: Seq<String>) -> Seq<Seq<char>> {
    Seq::new(list.len(), |i: int| list[i]@)
}

/// The characters of an optional string.
pub open spec fn optional_text(text: Option<String>) -> Option<Seq<char>> {
    match text {
        Some(t) => Some(t@),
        None => None,
    }
}

// ---------------------------------------------------------------------------
// Conversions
// ---------------------------------------------------------------------------

/// The characters of a string, indexable.
pub fn chars_of(s: &str) -> (chars: Vec<char>)
    ensures
        chars@ == s@,
{
    let mut chars: Vec<char> = Vec::new();
    for c in it: s.chars()
        invariant
            it.seq() == s@,
            chars@ == s@.take(it.index() as int),
    {
        chars.push(c);
    }
    assert(s@.take(s@.len() as int) == s@);
    chars
}

/// The string made of `chars[from..to]`.
pub fn string_of(chars: &Vec<char>, from: usize, to: usize) -> (s: String)
    requires
        from <= to <= chars@.len(),
    ensures
        s@ == chars@.subrange(from as int, to as int),
{
    let mut s = String::new();
    let mut i: usize = from;
    while i < to
        invariant
            from <= i <= to <= chars@.len(),
            s@ == chars@.subrange(from as int, i as int),
        decreases to - i,
    {
        s.push(chars[i]);
        i += 1;
    }
    s
}

// ---------------------------------------------------------------------------
// Equality, prefixes and containment
// ---------------------------------------------------------------------------

/// Whether two character lists are the same.
fn same_chars(a: &Vec<char>, b: &Vec<char>) -> (same: bool)
    ensures
        same == (a@ == b@),
{
    if a.len() != b.len() {
        return false;
    }
    let mut i: usize = 0;
    while i < a.len()
        invariant
            i <= a@.len(),
            a@.len() == b@.len(),
            forall|j: int| 0 <= j < i ==> a@[j] == b@[j],
        decreases a@.len() - i,
    {
        if a[i] != b[i] {
            return false;
        }
        i += 1;
    }
    assert(a@ =~= b@);
    true
}

/// Whether two strings hold the same text.
pub fn same_text(a: &str, b: &str) -> (same: bool)
    ensures
        same == (a@ == b@),
{
    same_chars(&chars_of(a), &chars_of(b))
}

/// Whether two optional strings are both absent or hold the same text.
pub fn same_optional_text(a: &Option<String>, b: &Option<String>) -> (same: bool)
    ensures
        same == (optional_text(*a) == optional_text(*b)),
{
    match (a, b) {
        (Some(x), Some(y)) => same_text(x.as_str(), y.as_str()),
        (None, None) => true,
        _ => false,
    }
}

/// Whether `list` holds `wanted`.
pub fn list_contains(list: &Vec<String>, wanted: &str) -> (found: bool)
    ensures
        found == texts(list@).contains(wanted@),
{
    let mut i: usize = 0;
    while i < list.len()
        invariant
            i <= list@.len(),
            forall|j: int| 0 <= j < i ==> texts(list@)[j] != wanted@,
        decreases list@.len() - i,
    {
        if same_text(list[i].as_str(), wanted) {
            assert(texts(list@)[i as int] == wanted@);
            return true;
        }
        i += 1;
    }
    false
}

/// Whether two lists hold the same texts in the same order.
pub fn same_texts(a: &Vec<String>, b: &Vec<String>) -> (same: bool)
    ensures
        same == (texts(a@) == texts(b@)),
{
    if a.len() != b.len() {
        assert(texts(a@).len() != texts(b@).len());
        return false;
    }
    let mut i: usize = 0;
    while i < a.len()
        invariant
            i <= a@.len(),
            a@.len() == b@.len(),
            forall|j: int| 0 <= j < i ==> texts(a@)[j] == texts(b@)[j],
        decreases a@.len() - i,
    {
        if !same_text(a[i].as_str(), b[i].as_str()) {
            assert(texts(a@)[i as int] != texts(b@)[i as int]);
            return false;
        }
        i += 1;
    }
    assert(texts(a@) =~= texts(b@));
    true
}

/// A copy of a list of strings.
pub fn copy_texts(list: &Vec<String>) -> (copy: Vec<String>)
    ensures
        texts(copy@) == texts(list@),
{
    let mut copy: Vec<String> = Vec::new();
    let mut i: usize = 0;
    while i < list.len()
        invariant
            i <= list@.len(),
            copy@.len() == i,
            forall|j: int| 0 <= j < i ==> copy@[j]@ == list@[j]@,
        decreases list@.len() - i,
    {
        copy.push(list[i].clone());
        i += 1;
    }
    assert(texts(copy@) =~= texts(list@));
    copy
}

/// Whether `chars` continues with `part` at position `at`.
pub open spec fn found_at(s: Seq<char>, part: Seq<char>, at: int) -> bool {
    0 <= at && at + part.len() <= s.len() && s.subrange(at, at + part.len()) == part
}

fn occurs_at(chars: &Vec<char>, part: &Vec<char>, at: usize) -> (found: bool)
    requires
        at <= chars@.len(),
    ensures
        found == found_at(chars@, part@, at as int),
{
    let count: usize = chars.len();
    if count - at < part.len() {
        return false;
    }
    let mut i: usize = 0;
    while i < part.len()
        invariant
            i <= part@.len(),
            count == chars@.len(),
            at + part@.len() <= count,
            forall|j: int| 0 <= j < i ==> chars@[at + j] == part@[j],
        decreases part@.len() - i,
    {
        if chars[at + i] != part[i] {
            assert(chars@.subrange(at as int, at + part@.len())[i as int] != part@[i as int]);
            return false;
        }
        i += 1;
    }
    assert(chars@.subrange(at as int, at + part@.len()) =~= part@);
    true
}

/// Whether `s` begins with `prefix`.
pub open spec fn has_prefix(s: Seq<char>, prefix: Seq<char>) -> bool {
    found_at(s, prefix, 0)
}

/// Whether `s` holds `part` somewhere.
pub open spec fn has_part(s: Seq<char>, part: Seq<char>) -> bool {
    exists|at: int| found_at(s, part, at)
}

pub fn starts_with(s: &str, prefix: &str) -> (found: bool)
    ensures
        found == has_prefix(s@, prefix@),
{
    occurs_at(&chars_of(s), &chars_of(prefix), 0)
}

pub fn contains_text(s: &str, part: &str) -> (found: bool)
    ensures
        found == has_part(s@, part@),
{
    let chars = chars_of(s);
    let wanted = chars_of(part);
    let mut at: usize = 0;
    while at < chars.len()
        invariant
            at <= chars@.len(),
            chars@ == s@,
            wanted@ == part@,
            forall|j: int| 0 <= j < at ==> !found_at(s@, part@, j),
        decreases chars@.len() - at,
    {
        if occurs_at(&chars, &wanted, at) {
            return true;
        }
        at += 1;
    }
    let last = occurs_at(&chars, &wanted, at);
    proof {
        if has_part(s@, part@) && !last {
            let j = choose|j: int| found_at(s@, part@, j);
            assert(0 <= j <= s@.len());
            assert(false);
        }
    }
    last
}

/// What follows `prefix`, where `s` begins with it.
pub open spec fn after_prefix(s: Seq<char>, prefix: Seq<char>) -> Option<Seq<char>> {
    if has_prefix(s, prefix) {
        Some(s.skip(prefix.len() as int))
    } else {
        None
    }
}

pub fn strip_prefix(s: &str, prefix: &str) -> (rest: Option<String>)
    ensures
        optional_text(rest) == after_prefix(s@, prefix@),
{
    let chars = chars_of(s);
    let wanted = chars_of(prefix);
    if occurs_at(&chars, &wanted, 0) {
        Some(string_of(&chars, wanted.len(), chars.len()))
    } else {
        None
    }
}

// ---------------------------------------------------------------------------
// Splitting
// ---------------------------------------------------------------------------

/// Where `c` first stands in `s`; the length of `s` where it does not occur.
pub open spec fn first_at(s: Seq<char>, c: char) -> int
    decreases s.len(),
{
    if s.len() == 0 {
        0
    } else if s[0] == c {
        0
    } else {
        1 + first_at(s.skip(1), c)
    }
}

/// Where `c` last stands in `s`; `-1` where it does not occur.
pub open spec fn last_at(s: Seq<char>, c: char) -> int
    decreases s.len(),
{
    if s.len() == 0 {
        -1
    } else if s.last() == c {
        s.len() - 1
    } else {
        last_at(s.drop_last(), c)
    }
}

pub proof fn lemma_first_at(s: Seq<char>, c: char)
    ensures
        0 <= first_at(s, c) <= s.len(),
        first_at(s, c) < s.len() ==> s[first_at(s, c)] == c,
        forall|j: int| 0 <= j < first_at(s, c) ==> s[j] != c,
    decreases s.len(),
{
    if s.len() > 0 && s[0] != c {
        lemma_first_at(s.skip(1), c);
        assert forall|j: int| 0 <= j < first_at(s, c) implies s[j] != c by {
            if j > 0 {
                assert(s.skip(1)[j - 1] == s[j]);
            }
        }
    }
}

/// `first_at` is the only position with its two properties.
pub proof fn lemma_first_at_is(s: Seq<char>, c: char, i: int)
    requires
        0 <= i <= s.len(),
        i < s.len() ==> s[i] == c,
        forall|j: int| 0 <= j < i ==> s[j] != c,
    ensures
        first_at(s, c) == i,
{
    lemma_first_at(s, c);
}

pub proof fn lemma_last_at(s: Seq<char>, c: char)
    ensures
        -1 <= last_at(s, c) < s.len(),
        last_at(s, c) >= 0 ==> s[last_at(s, c)] == c,
        forall|j: int| last_at(s, c) < j < s.len() ==> s[j] != c,
    decreases s.len(),
{
    if s.len() > 0 && s.last() != c {
        lemma_last_at(s.drop_last(), c);
        assert forall|j: int| last_at(s, c) < j < s.len() implies s[j] != c by {
            if j < s.len() - 1 {
                assert(s.drop_last()[j] == s[j]);
            }
        }
    }
}

/// `last_at` is the only position with its two properties.
pub proof fn lemma_last_at_is(s: Seq<char>, c: char, i: int)
    requires
        -1 <= i < s.len(),
        i >= 0 ==> s[i] == c,
        forall|j: int| i < j < s.len() ==> s[j] != c,
    ensures
        last_at(s, c) == i,
{
    lemma_last_at(s, c);
}

/// The text before and after the first `c`.
pub open spec fn cut_first(s: Seq<char>, c: char) -> Option<(Seq<char>, Seq<char>)> {
    let i = first_at(s, c);
    if i < s.len() {
        Some((s.take(i), s.skip(i + 1)))
    } else {
        None
    }
}

/// The text before and after the last `c`.
pub open spec fn cut_last(s: Seq<char>, c: char) -> Option<(Seq<char>, Seq<char>)> {
    let i = last_at(s, c);
    if i >= 0 {
        Some((s.take(i), s.skip(i + 1)))
    } else {
        None
    }
}

/// The pieces of `s` between the occurrences of `c`: one more than there are
/// occurrences.
pub open spec fn pieces(s: Seq<char>, c: char) -> Seq<Seq<char>>
    decreases s.len(),
{
    let i = first_at(s, c);
    if 0 <= i < s.len() {
        seq![s.take(i)] + pieces(s.skip(i + 1), c)
    } else {
        seq![s]
    }
}

fn find_char(chars: &Vec<char>, c: char, from: usize) -> (at: usize)
    requires
        from <= chars@.len(),
    ensures
        from <= at <= chars@.len(),
        at == from + first_at(chars@.skip(from as int), c),
{
    let mut i: usize = from;
    while i < chars.len() && chars[i] != c
        invariant
            from <= i <= chars@.len(),
            forall|j: int| from <= j < i ==> chars@[j] != c,
        decreases chars@.len() - i,
    {
        i += 1;
    }
    proof {
        let rest = chars@.skip(from as int);
        assert forall|j: int| 0 <= j < i - from implies rest[j] != c by {
            assert(rest[j] == chars@[from + j]);
        }
        lemma_first_at_is(rest, c, i - from);
    }
    i
}

/// Both sides of the first `c` of `s`.
pub fn split_once(s: &str, c: char) -> (parts: Option<(String, String)>)
    ensures
        match parts {
            Some(p) => cut_first(s@, c) == Some((p.0@, p.1@)),
            None => cut_first(s@, c) is None,
        },
{
    let chars = chars_of(s);
    let at = find_char(&chars, c, 0);
    assert(chars@.skip(0) == s@);
    if at < chars.len() {
        let head = string_of(&chars, 0, at);
        let tail = string_of(&chars, at + 1, chars.len());
        Some((head, tail))
    } else {
        None
    }
}

/// Both sides of the last `c` of `s`.
pub fn rsplit_once(s: &str, c: char) -> (parts: Option<(String, String)>)
    ensures
        match parts {
            Some(p) => cut_last(s@, c) == Some((p.0@, p.1@)),
            None => cut_last(s@, c) is None,
        },
{
    let chars = chars_of(s);
    let mut end: usize = chars.len();
    while end > 0 && chars[end - 1] != c
        invariant
            end <= chars@.len(),
            forall|j: int| end <= j < chars@.len() ==> chars@[j] != c,
        decreases end,
    {
        end -= 1;
    }
    proof {
        lemma_last_at_is(s@, c, end - 1);
    }
    if end > 0 {
        let head = string_of(&chars, 0, end - 1);
        let tail = string_of(&chars, end, chars.len());
        Some((head, tail))
    } else {
        None
    }
}

/// The pieces of `s` between the occurrences of `c`.
pub fn split(s: &str, c: char) -> (parts: Vec<String>)
    ensures
        texts(parts@) == pieces(s@, c),
{
    let chars = chars_of(s);
    let mut parts: Vec<String> = Vec::new();
    let mut from: usize = 0;
    let mut at: usize = find_char(&chars, c, 0);
    assert(s@.skip(0) == s@);
    assert(texts(parts@) + pieces(s@, c) =~= pieces(s@, c));
    while at < chars.len()
        invariant
            chars@ == s@,
            from <= at <= chars@.len(),
            at == from + first_at(s@.skip(from as int), c),
            texts(parts@) + pieces(s@.skip(from as int), c) == pieces(s@, c),
        decreases chars@.len() - from,
    {
        let ghost before = texts(parts@);
        let piece = string_of(&chars, from, at);
        parts.push(piece);
        proof {
            let rest = s@.skip(from as int);
            assert(rest.take(at - from) =~= piece@);
            assert(rest.skip(at - from + 1) =~= s@.skip(at + 1));
            assert(texts(parts@) =~= before + seq![piece@]);
            assert(texts(parts@) + pieces(s@.skip(at + 1), c) =~= before + pieces(rest, c));
        }
        from = at + 1;
        at = find_char(&chars, c, from);
    }
    let ghost before = texts(parts@);
    let piece = string_of(&chars, from, chars.len());
    parts.push(piece);
    proof {
        assert(s@.skip(from as int) =~= piece@);
        assert(texts(parts@) =~= before + seq![piece@]);
    }
    parts
}

/// Text without `c` after the last `c` is the last piece.
pub proof fn lemma_pieces_append(head: Seq<char>, c: char, tail: Seq<char>)
    requires
        !tail.contains(c),
    ensures
        pieces(head.push(c) + tail, c) == pieces(head, c).push(tail),
    decreases head.len(),
{
    let whole = head.push(c) + tail;
    let i = first_at(head, c);
    lemma_first_at(head, c);
    lemma_first_at_is(whole, c, i);
    assert(whole.take(i) =~= head.take(i));
    if i < head.len() {
        let rest = head.skip(i + 1);
        lemma_pieces_append(rest, c, tail);
        assert(whole.skip(i + 1) =~= rest.push(c) + tail);
        assert(pieces(whole, c) =~= pieces(head, c).push(tail));
    } else {
        assert(whole.skip(i + 1) =~= tail);
        assert forall|j: int| 0 <= j < tail.len() implies tail[j] != c by {
            assert(tail.contains(tail[j]));
        }
        lemma_first_at_is(tail, c, tail.len() as int);
        assert(head.take(i) =~= head);
        assert(pieces(tail, c) =~= seq![tail]);
        assert(pieces(head, c) =~= seq![head]);
        assert(pieces(whole, c) =~= pieces(head, c).push(tail));
    }
}

/// Splitting at a separator undoes joining with it, where no text holds it.
pub proof fn lemma_pieces_joined(list: Seq<Seq<char>>, c: char)
    requires
        list.len() > 0,
        forall|i: int| 0 <= i < list.len() ==> !(#[trigger] list[i]).contains(c),
    ensures
        pieces(joined(list, seq![c]), c) == list,
    decreases list.len(),
{
    if list.len() == 1 {
        let only = list[0];
        assert forall|j: int| 0 <= j < only.len() implies only[j] != c by {
            assert(only.contains(only[j]));
        }
        lemma_first_at_is(only, c, only.len() as int);
        assert(pieces(only, c) =~= list);
    } else {
        let front = list.drop_last();
        assert forall|i: int| 0 <= i < front.len() implies !(#[trigger] front[i]).contains(c) by {
            assert(front[i] == list[i]);
        }
        lemma_pieces_joined(front, c);
        assert(!list[list.len() - 1].contains(c));
        lemma_pieces_append(joined(front, seq![c]), c, list.last());
        assert(joined(list, seq![c]) =~= joined(front, seq![c]).push(c) + list.last());
        assert(front.push(list.last()) =~= list);
    }
}

// ---------------------------------------------------------------------------
// Trimming and lines
// ---------------------------------------------------------------------------

/// The characters with Unicode's `White_Space` property.
pub open spec fn white_space(c: char) -> bool {
    ||| '\u{9}' <= c <= '\u{d}'
    ||| c == ' '
    ||| c == '\u{85}'
    ||| c == '\u{a0}'
    ||| c == '\u{1680}'
    ||| '\u{2000}' <= c <= '\u{200a}'
    ||| c == '\u{2028}'
    ||| c == '\u{2029}'
    ||| c == '\u{202f}'
    ||| c == '\u{205f}'
    ||| c == '\u{3000}'
}

pub fn is_white_space(c: char) -> (space: bool)
    ensures
        space == white_space(c),
{
    ('\u{9}' <= c && c <= '\u{d}') || c == ' ' || c == '\u{85}' || c == '\u{a0}' || c == '\u{1680}'
        || ('\u{2000}' <= c && c <= '\u{200a}') || c == '\u{2028}' || c == '\u{2029}' || c
        == '\u{202f}' || c == '\u{205f}' || c == '\u{3000}'
}

/// `s` without the white space it begins with.
pub open spec fn trimmed_start(s: Seq<char>) -> Seq<char>
    decreases s.len(),
{
    if s.len() > 0 && white_space(s[0]) {
        trimmed_start(s.skip(1))
    } else {
        s
    }
}

/// `s` without the white space it ends with.
pub open spec fn trimmed_end(s: Seq<char>) -> Seq<char>
    decreases s.len(),
{
    if s.len() > 0 && white_space(s.last()) {
        trimmed_end(s.drop_last())
    } else {
        s
    }
}

/// `s` without white space at either end.
pub open spec fn trimmed(s: Seq<char>) -> Seq<char> {
    trimmed_end(trimmed_start(s))
}

/// Text that neither begins nor ends with white space is its own trimmed form.
pub proof fn lemma_trimmed_same(s: Seq<char>)
    requires
        s.len() > 0,
        !white_space(s[0]),
        !white_space(s.last()),
    ensures
        trimmed(s) == s,
{
}

/// `s` without white space at either end.
pub fn trim(s: &str) -> (t: String)
    ensures
        t@ == trimmed(s@),
{
    let chars = chars_of(s);
    let mut from: usize = 0;
    assert(s@.skip(0) == s@);
    while from < chars.len() && is_white_space(chars[from])
        invariant
            from <= chars@.len(),
            chars@ == s@,
            trimmed_start(s@) == trimmed_start(s@.skip(from as int)),
        decreases chars@.len() - from,
    {
        assert(s@.skip(from as int).skip(1) == s@.skip(from + 1));
        from += 1;
    }
    let ghost start = s@.skip(from as int);
    assert(trimmed_start(s@) == start);
    let mut to: usize = chars.len();
    assert(s@.subrange(from as int, s@.len() as int) == start);
    while to > from && is_white_space(chars[to - 1])
        invariant
            from <= to <= chars@.len(),
            chars@ == s@,
            trimmed_end(start) == trimmed_end(s@.subrange(from as int, to as int)),
        decreases to,
    {
        assert(s@.subrange(from as int, to as int).drop_last() == s@.subrange(
            from as int,
            to - 1,
        ));
        to -= 1;
    }
    string_of(&chars, from, to)
}

/// A line without the carriage return that a line feed followed.
pub open spec fn without_return(line: Seq<char>) -> Seq<char> {
    if line.len() > 0 && line.last() == '\r' {
        line.drop_last()
    } else {
        line
    }
}

/// The lines of `s`: each ends with `\n` or `\r\n`, but for a last one that
/// the end of `s` closes.
pub open spec fn lines_of(s: Seq<char>) -> Seq<Seq<char>>
    decreases s.len(),
{
    let i = first_at(s, '\n');
    if s.len() == 0 {
        seq![]
    } else if 0 <= i < s.len() {
        seq![without_return(s.take(i))] + lines_of(s.skip(i + 1))
    } else {
        seq![s]
    }
}

/// The lines of `s`.
pub fn lines(s: &str) -> (list: Vec<String>)
    ensures
        texts(list@) == lines_of(s@),
{
    let chars = chars_of(s);
    let mut list: Vec<String> = Vec::new();
    let mut from: usize = 0;
    assert(s@.skip(0) == s@);
    assert(texts(list@) + lines_of(s@) =~= lines_of(s@));
    while from < chars.len()
        invariant
            chars@ == s@,
            from <= chars@.len(),
            texts(list@) + lines_of(s@.skip(from as int)) == lines_of(s@),
        decreases chars@.len() - from,
    {
        let ghost before = texts(list@);
        let ghost rest = s@.skip(from as int);
        let at = find_char(&chars, '\n', from);
        if at == chars.len() {
            let line = string_of(&chars, from, at);
            list.push(line);
            proof {
                assert(line@ =~= rest);
                assert(texts(list@) =~= before + seq![line@]);
            }
            return list;
        }
        let end: usize = if at > from && chars[at - 1] == '\r' {
            at - 1
        } else {
            at
        };
        let line = string_of(&chars, from, end);
        list.push(line);
        proof {
            let i = at - from;
            assert(rest.take(i) =~= s@.subrange(from as int, at as int));
            assert(without_return(rest.take(i)) =~= line@);
            assert(rest.skip(i + 1) =~= s@.skip(at + 1));
            assert(texts(list@) =~= before + seq![line@]);
            assert(texts(list@) + lines_of(s@.skip(at + 1)) =~= before + lines_of(rest));
        }
        from = at + 1;
    }
    assert(texts(list@) + lines_of(s@.skip(from as int)) =~= texts(list@));
    list
}

// ---------------------------------------------------------------------------
// Joining and case
// ---------------------------------------------------------------------------

/// The texts of `list` with `between` written between neighbours.
pub open spec fn joined(list: Seq<Seq<char>>, between: Seq<char>) -> Seq<char>
    decreases list.len(),
{
    if list.len() == 0 {
        seq![]
    } else if list.len() == 1 {
        list[0]
    } else {
        joined(list.drop_last(), between) + between + list.last()
    }
}

/// The strings of `list` with `between` written between neighbours.
pub fn join(list: &Vec<String>, between: &str) -> (s: String)
    ensures
        s@ == joined(texts(list@), between@),
{
    let mut s = String::new();
    let mut i: usize = 0;
    assert(s@ == joined(texts(list@).take(0), between@));
    while i < list.len()
        invariant
            i <= list@.len(),
            s@ == joined(texts(list@).take(i as int), between@),
        decreases list@.len() - i,
    {
        let ghost head = texts(list@).take(i as int);
        let ghost next = texts(list@).take(i + 1);
        proof {
            assert(next.drop_last() =~= head);
            assert(next.last() == list@[i as int]@);
        }
        if i > 0 {
            s.append(between);
        }
        s.append(list[i].as_str());
        proof {
            if i == 0 {
                assert(s@ =~= next[0]);
            } else {
                assert(s@ =~= joined(head, between@) + between@ + next.last());
            }
        }
        i += 1;
    }
    assert(texts(list@).take(i as int) =~= texts(list@));
    s
}

/// An ASCII capital as its small letter, any other character as it is.
pub open spec fn ascii_lower(c: char) -> char {
    if 'A' <= c <= 'Z' {
        (c as u32 + 32) as char
    } else {
        c
    }
}

fn lower_letter(c: char) -> (l: char)
    ensures
        l == ascii_lower(c),
{
    match c {
        'A' => 'a',
        'B' => 'b',
        'C' => 'c',
        'D' => 'd',
        'E' => 'e',
        'F' => 'f',
        'G' => 'g',
        'H' => 'h',
        'I' => 'i',
        'J' => 'j',
        'K' => 'k',
        'L' => 'l',
        'M' => 'm',
        'N' => 'n',
        'O' => 'o',
        'P' => 'p',
        'Q' => 'q',
        'R' => 'r',
        'S' => 's',
        'T' => 't',
        'U' => 'u',
        'V' => 'v',
        'W' => 'w',
        'X' => 'x',
        'Y' => 'y',
        'Z' => 'z',
        other => other,
    }
}

/// `s` with every ASCII capital as a small letter.
pub fn to_ascii_lowercase(s: &str) -> (lower: String)
    ensures
        lower@ == s@.map_values(|c: char| ascii_lower(c)),
{
    let chars = chars_of(s);
    let mut lower = String::new();
    let mut i: usize = 0;
    while i < chars.len()
        invariant
            chars@ == s@,
            i <= chars@.len(),
            lower@ == s@.take(i as int).map_values(|c: char| ascii_lower(c)),
        decreases chars@.len() - i,
    {
        lower.push(lower_letter(chars[i]));
        assert(s@.take(i + 1) =~= s@.take(i as int).push(s@[i as int]));
        i += 1;
        assert(lower@ =~= s@.take(i as int).map_values(|c: char| ascii_lower(c)));
    }
    assert(s@.take(i as int) =~= s@);
    lower
}

/// The first `count` characters of `s`, or all of it where it is shorter.
pub fn first_chars(s: &str, count: usize) -> (head: String)
    ensures
        head@ == (if s@.len() <= count {
            s@
        } else {
            s@.take(count as int)
        }),
{
    let chars = chars_of(s);
    let to: usize = if chars.len() <= count {
        chars.len()
    } else {
        count
    };
    let head = string_of(&chars, 0, to);
    assert(s@.subrange(0, s@.len() as int) =~= s@);
    head
}

// ---------------------------------------------------------------------------
// Laws
// ---------------------------------------------------------------------------

/// A text that begins with another has it as its prefix, and what follows is
/// the rest. Any other text has not.
pub proof fn lemma_prefix_and_rest(s: Seq<char>, prefix: Seq<char>, rest: Seq<char>)
    ensures
        has_prefix(prefix + rest, prefix),
        after_prefix(prefix + rest, prefix) == Some(rest),
        has_prefix(s, prefix) <==> prefix.is_prefix_of(s),
        after_prefix(s, prefix) matches Some(r) ==> s == prefix + r,
        after_prefix(s, prefix) is None ==> !prefix.is_prefix_of(s),
{
    assert((prefix + rest).subrange(0, prefix.len() as int) =~= prefix);
    assert((prefix + rest).skip(prefix.len() as int) =~= rest);
    if has_prefix(s, prefix) {
        assert(s =~= prefix + s.skip(prefix.len() as int));
    }
    if prefix.is_prefix_of(s) {
        assert(s.subrange(0, prefix.len() as int) =~= prefix);
    }
}

/// A part is found wherever it stands.
pub proof fn lemma_part_is_found(before: Seq<char>, part: Seq<char>, behind: Seq<char>)
    ensures
        has_part(before + part + behind, part),
{
    let s = before + part + behind;
    let at = before.len() as int;
    assert(s.subrange(at, at + part.len()) =~= part);
    assert(found_at(s, part, at));
}

/// Where a part is found, the text is some text, the part, and some text.
pub proof fn lemma_found_part_stands_somewhere(s: Seq<char>, part: Seq<char>) -> (at: int)
    requires
        has_part(s, part),
    ensures
        0 <= at <= s.len() - part.len(),
        s == s.take(at) + part + s.skip(at + part.len()),
{
    let at = choose|at: int| found_at(s, part, at);
    assert(s =~= s.take(at) + s.subrange(at, at + part.len()) + s.skip(at + part.len()));
    at
}

/// Cutting at the first or last of a character gives back the text around it:
/// where it does not occur in the text before, or in the text behind.
pub proof fn lemma_cuts(before: Seq<char>, c: char, behind: Seq<char>)
    ensures
        !before.contains(c) ==> cut_first(before + seq![c] + behind, c) == Some((before, behind)),
        !behind.contains(c) ==> cut_last(before + seq![c] + behind, c) == Some((before, behind)),
        !before.contains(c) ==> cut_first(before, c) is None && cut_last(before, c) is None,
{
    let s = before + seq![c] + behind;
    let at = before.len() as int;
    assert(s[at] == c);
    assert(s.take(at) =~= before);
    assert(s.skip(at + 1) =~= behind);
    lemma_first_at(s, c);
    lemma_first_at(before, c);
    lemma_last_at(before, c);
    if !before.contains(c) {
        let i = first_at(s, c);
        if i < at {
            assert(before[i] == c);
        }
    }
    if !behind.contains(c) {
        assert forall|j: int| at < j < s.len() implies s[j] != c by {
            assert(s[j] == behind[j - at - 1]);
        }
        lemma_last_at_is(s, c, at);
    }
}

/// Splitting gives one piece where the character does not occur, and else the
/// text before its first occurrence and the pieces of what is behind.
pub proof fn lemma_split_off(before: Seq<char>, c: char, behind: Seq<char>)
    requires
        !before.contains(c),
    ensures
        pieces(before, c) == seq![before],
        pieces(before + seq![c] + behind, c) == seq![before] + pieces(behind, c),
{
    lemma_cuts(before, c, behind);
    lemma_first_at(before, c);
    lemma_first_at(before + seq![c] + behind, c);
}

/// White space is what Unicode counts as such.
pub proof fn lemma_white_space_chars(c: char)
    ensures
        white_space(c) <==> {
            ||| c == '\t' || c == '\n' || c == '\u{b}' || c == '\u{c}' || c == '\r' || c == ' '
            ||| c == '\u{85}' || c == '\u{a0}' || c == '\u{1680}' || c == '\u{2028}'
            ||| c == '\u{2029}' || c == '\u{202f}' || c == '\u{205f}' || c == '\u{3000}'
            ||| c as u32 / 16 == 0x200 && c as u32 % 16 <= 10
        },
{
}

/// Trimming takes away the white space at both ends, all of it and nothing
/// else.
pub proof fn lemma_trimmed_between(before: Seq<char>, s: Seq<char>, behind: Seq<char>)
    requires
        forall|i: int| 0 <= i < before.len() ==> white_space(#[trigger] before[i]),
        forall|i: int| 0 <= i < behind.len() ==> white_space(#[trigger] behind[i]),
        s.len() > 0 ==> !white_space(s[0]) && !white_space(s.last()),
    ensures
        trimmed(before + s + behind) == s,
    decreases before.len() + behind.len(),
{
    let whole = before + s + behind;
    if before.len() > 0 {
        assert(white_space(before[0]));
        assert(whole[0] == before[0]);
        assert(whole.skip(1) =~= before.skip(1) + s + behind);
        lemma_trimmed_between(before.skip(1), s, behind);
    } else if s.len() == 0 {
        if behind.len() > 0 {
            assert(white_space(behind[0]));
            assert(whole[0] == behind[0]);
            assert(whole.skip(1) =~= before + s + behind.skip(1));
            lemma_trimmed_between(before, s, behind.skip(1));
        } else {
            assert(whole =~= s);
        }
    } else {
        assert(whole =~= s + behind);
        assert(whole[0] == s[0]);
        lemma_trimmed_end(s, behind);
    }
}

proof fn lemma_trimmed_end(s: Seq<char>, behind: Seq<char>)
    requires
        forall|i: int| 0 <= i < behind.len() ==> white_space(#[trigger] behind[i]),
        s.len() > 0 ==> !white_space(s.last()),
    ensures
        trimmed_end(s + behind) == s,
    decreases behind.len(),
{
    let whole = s + behind;
    if behind.len() > 0 {
        assert(white_space(behind[behind.len() - 1]));
        assert(whole.last() == behind[behind.len() - 1]);
        assert(whole.drop_last() =~= s + behind.drop_last());
        lemma_trimmed_end(s, behind.drop_last());
    } else {
        assert(whole =~= s);
    }
}

/// The lines of a text: none in the empty one; the text before a line feed,
/// without one carriage return that ends it, then the lines of what is behind;
/// and all of a text without a line feed.
pub proof fn lemma_lines_one_by_one(line: Seq<char>, behind: Seq<char>)
    requires
        !line.contains('\n'),
    ensures
        lines_of(Seq::<char>::empty()).len() == 0,
        line.len() > 0 ==> lines_of(line) == seq![line],
        line.len() == 0 || line.last() != '\r' ==> lines_of(line + seq!['\n'] + behind) == seq![
            line,
        ] + lines_of(behind),
        lines_of(line + seq!['\r', '\n'] + behind) == seq![line] + lines_of(behind),
{
    lemma_cuts(line, '\n', behind);
    lemma_first_at(line, '\n');
    lemma_first_at(line + seq!['\n'] + behind, '\n');
    let long = line.push('\r');
    assert(!long.contains('\n')) by {
        if long.contains('\n') {
            let i = choose|i: int| 0 <= i < long.len() && long[i] == '\n';
            assert(line[i] == '\n');
        }
    }
    lemma_cuts(long, '\n', behind);
    lemma_first_at(long + seq!['\n'] + behind, '\n');
    assert(long + seq!['\n'] + behind =~= line + seq!['\r', '\n'] + behind);
    assert(long.drop_last() =~= line);
}

/// Joining writes the separator between neighbours and nowhere else.
pub proof fn lemma_joined_one_by_one(list: Seq<Seq<char>>, next: Seq<char>, between: Seq<char>)
    ensures
        joined(seq![], between).len() == 0,
        joined(seq![next], between) == next,
        list.len() > 0 ==> joined(list.push(next), between) == joined(list, between) + between
            + next,
{
    assert(list.push(next).drop_last() =~= list);
}

/// An ASCII capital becomes the small letter of the same place in the alphabet,
/// and no other character changes.
pub proof fn lemma_ascii_lower(c: char)
    ensures
        'A' <= c <= 'Z' ==> 'a' <= ascii_lower(c) <= 'z' && ascii_lower(c) as u32 - 'a' as u32
            == c as u32 - 'A' as u32,
        !('A' <= c <= 'Z') ==> ascii_lower(c) == c,
{
}

} // verus!
