//! tmux releases: parsing `tmux -V`, ordering, and the supported minimum.

use crate::error::TmuxError;
use crate::number::{
    decimal, decimal_text, is_digit, lemma_decimal_value, lemma_unsigned_decimal, parse_u64,
    unsigned_value,
};
use crate::text::{
    after_prefix, chars_of, joined, pieces, split, string_of, strip_prefix, texts,
    trim, trimmed,
};
use core::cmp::Ordering;
use vstd::prelude::*;

verus! {

/// A tmux release: the numbers between the dots, then the point-release letter.
pub struct Release {
    pub numbers: Seq<u64>,
    pub suffix: Option<char>,
}

/// A tmux release such as `3.3a`, ordered so later releases compare greater.
#[derive(Debug, Eq, Ord)]
pub struct TmuxVersion {
    numbers: Vec<u64>,
    suffix: Option<char>,
}

impl View for TmuxVersion {
    type V = Release;

    closed spec fn view(&self) -> Release {
        Release { numbers: self.numbers@, suffix: self.suffix }
    }
}

impl Clone for TmuxVersion {
    fn clone(&self) -> (copy: Self)
        ensures
            copy@ == self@,
    {
        let mut numbers: Vec<u64> = Vec::new();
        let mut i: usize = 0;
        while i < self.numbers.len()
            invariant
                i <= self.numbers@.len(),
                numbers@ == self.numbers@.take(i as int),
            decreases self.numbers@.len() - i,
        {
            numbers.push(self.numbers[i]);
            i += 1;
        }
        assert(numbers@ =~= self.numbers@);
        TmuxVersion { numbers, suffix: self.suffix }
    }
}

// ---------------------------------------------------------------------------
// Ordering
// ---------------------------------------------------------------------------

/// How a release stands to another.
#[derive(Debug, Clone, Copy, PartialEq, Eq)]
pub enum Age {
    Earlier,
    Same,
    Later,
}

pub open spec fn ordering(age: Age) -> Ordering {
    match age {
        Age::Earlier => Ordering::Less,
        Age::Same => Ordering::Equal,
        Age::Later => Ordering::Greater,
    }
}

pub open spec fn compare_u64(a: u64, b: u64) -> Age {
    if a < b {
        Age::Earlier
    } else if a > b {
        Age::Later
    } else {
        Age::Same
    }
}

/// Number by number from the left; what runs out first is the earlier release.
pub open spec fn compare_numbers(a: Seq<u64>, b: Seq<u64>) -> Age
    decreases a.len(),
{
    if a.len() == 0 {
        if b.len() == 0 {
            Age::Same
        } else {
            Age::Earlier
        }
    } else if b.len() == 0 {
        Age::Later
    } else if a[0] != b[0] {
        compare_u64(a[0], b[0])
    } else {
        compare_numbers(a.skip(1), b.skip(1))
    }
}

/// No letter comes before every letter; letters follow the alphabet.
pub open spec fn compare_suffixes(a: Option<char>, b: Option<char>) -> Age {
    match (a, b) {
        (None, None) => Age::Same,
        (None, Some(_)) => Age::Earlier,
        (Some(_), None) => Age::Later,
        (Some(x), Some(y)) => if x < y {
            Age::Earlier
        } else if x > y {
            Age::Later
        } else {
            Age::Same
        },
    }
}

/// The numbers decide; the letter does where they are the same.
pub open spec fn compare_releases(a: Release, b: Release) -> Age {
    match compare_numbers(a.numbers, b.numbers) {
        Age::Same => compare_suffixes(a.suffix, b.suffix),
        decided => decided,
    }
}

impl TmuxVersion {
    fn compare(&self, other: &TmuxVersion) -> (order: Age)
        ensures
            order == compare_releases(self@, other@),
    {
        let mut i: usize = 0;
        assert(self.numbers@.skip(0) =~= self.numbers@);
        assert(other.numbers@.skip(0) =~= other.numbers@);
        while i < self.numbers.len() && i < other.numbers.len()
            invariant
                i <= self.numbers@.len(),
                i <= other.numbers@.len(),
                compare_numbers(self.numbers@, other.numbers@) == compare_numbers(
                    self.numbers@.skip(i as int),
                    other.numbers@.skip(i as int),
                ),
            decreases self.numbers@.len() - i,
        {
            if self.numbers[i] < other.numbers[i] {
                return Age::Earlier;
            }
            if self.numbers[i] > other.numbers[i] {
                return Age::Later;
            }
            assert(self.numbers@.skip(i as int).skip(1) =~= self.numbers@.skip(i + 1));
            assert(other.numbers@.skip(i as int).skip(1) =~= other.numbers@.skip(i + 1));
            i += 1;
        }
        if i < other.numbers.len() {
            return Age::Earlier;
        }
        if i < self.numbers.len() {
            return Age::Later;
        }
        match (self.suffix, other.suffix) {
            (None, None) => Age::Same,
            (None, Some(_)) => Age::Earlier,
            (Some(_), None) => Age::Later,
            (Some(x), Some(y)) => if x < y {
                Age::Earlier
            } else if x > y {
                Age::Later
            } else {
                Age::Same
            },
        }
    }
}

impl PartialEq for TmuxVersion {
    fn eq(&self, other: &Self) -> (same: bool) {
        proof {
            lemma_compare_equal(self@, other@);
        }
        match self.compare(other) {
            Age::Same => true,
            _ => false,
        }
    }
}

impl vstd::std_specs::cmp::PartialEqSpecImpl for TmuxVersion {
    open spec fn obeys_eq_spec() -> bool {
        true
    }

    open spec fn eq_spec(&self, other: &Self) -> bool {
        self@ == other@
    }
}

impl PartialOrd for TmuxVersion {
    fn partial_cmp(&self, other: &Self) -> (order: Option<Ordering>) {
        match self.compare(other) {
            Age::Earlier => Some(Ordering::Less),
            Age::Same => Some(Ordering::Equal),
            Age::Later => Some(Ordering::Greater),
        }
    }
}

impl vstd::std_specs::cmp::PartialOrdSpecImpl for TmuxVersion {
    open spec fn obeys_partial_cmp_spec() -> bool {
        true
    }

    open spec fn partial_cmp_spec(&self, other: &Self) -> Option<Ordering> {
        Some(ordering(compare_releases(self@, other@)))
    }
}

proof fn lemma_numbers_equal(a: Seq<u64>, b: Seq<u64>)
    ensures
        compare_numbers(a, b) == Age::Same <==> a == b,
    decreases a.len(),
{
    if a.len() > 0 && b.len() > 0 {
        lemma_numbers_equal(a.skip(1), b.skip(1));
        if compare_numbers(a, b) == Age::Same {
            assert(a =~= seq![a[0]] + a.skip(1));
            assert(b =~= seq![b[0]] + b.skip(1));
        }
    } else if a.len() == b.len() {
        assert(a =~= b);
    }
}

/// Releases compare equal exactly where they are the same.
pub proof fn lemma_compare_equal(a: Release, b: Release)
    ensures
        compare_releases(a, b) == Age::Same <==> a == b,
{
    lemma_numbers_equal(a.numbers, b.numbers);
}

pub open spec fn flipped(order: Age) -> Age {
    match order {
        Age::Earlier => Age::Later,
        Age::Same => Age::Same,
        Age::Later => Age::Earlier,
    }
}

proof fn lemma_numbers_flip(a: Seq<u64>, b: Seq<u64>)
    ensures
        compare_numbers(b, a) == flipped(compare_numbers(a, b)),
    decreases a.len(),
{
    if a.len() > 0 && b.len() > 0 {
        lemma_numbers_flip(a.skip(1), b.skip(1));
    }
}

/// Comparing the other way round gives the opposite order.
pub proof fn lemma_compare_flip(a: Release, b: Release)
    ensures
        compare_releases(b, a) == flipped(compare_releases(a, b)),
{
    lemma_numbers_flip(a.numbers, b.numbers);
}

proof fn lemma_numbers_chain(a: Seq<u64>, b: Seq<u64>, c: Seq<u64>)
    requires
        compare_numbers(a, b) != Age::Later,
        compare_numbers(b, c) != Age::Later,
    ensures
        compare_numbers(a, c) != Age::Later,
        compare_numbers(a, c) == Age::Same ==> compare_numbers(a, b) == Age::Same
            && compare_numbers(b, c) == Age::Same,
    decreases a.len(),
{
    if a.len() > 0 && b.len() > 0 && c.len() > 0 {
        if a[0] == b[0] && b[0] == c[0] {
            lemma_numbers_chain(a.skip(1), b.skip(1), c.skip(1));
        }
    }
}

/// A release no later than one that is no later than a third is no later than
/// the third.
pub proof fn lemma_compare_chain(a: Release, b: Release, c: Release)
    requires
        compare_releases(a, b) != Age::Later,
        compare_releases(b, c) != Age::Later,
    ensures
        compare_releases(a, c) != Age::Later,
{
    lemma_numbers_chain(a.numbers, b.numbers, c.numbers);
}

// ---------------------------------------------------------------------------
// Parsing and printing
// ---------------------------------------------------------------------------

/// The lowest release that shared agent sessions require, `3.3a`.
pub open spec fn minimum_release() -> Release {
    Release { numbers: seq![3u64, 3u64], suffix: Some('a') }
}

/// Lowest tmux release Zedra's shared agent sessions require.
pub fn min_supported_version() -> (version: TmuxVersion)
    ensures
        version@ == minimum_release(),
{
    let mut numbers: Vec<u64> = Vec::new();
    numbers.push(3);
    numbers.push(3);
    let version = TmuxVersion { numbers, suffix: Some('a') };
    assert(version@.numbers =~= minimum_release().numbers);
    version
}

pub open spec fn small_letter(c: char) -> bool {
    'a' <= c <= 'z'
}

/// The release that `tmux -V` names: what follows `tmux `, without `next-`.
pub open spec fn release_text(output: Seq<char>) -> Option<Seq<char>> {
    match after_prefix(trimmed(output), "tmux "@) {
        Some(rest) => match after_prefix(trimmed(rest), "next-"@) {
            Some(next) => Some(next),
            None => Some(trimmed(rest)),
        },
        None => None,
    }
}

/// The numbers that all of `parts` write, unless one writes none.
pub open spec fn all_numbers(parts: Seq<Seq<char>>) -> Option<Seq<u64>> {
    if forall|i: int|
        0 <= i < parts.len() ==> unsigned_value(#[trigger] parts[i], u64::MAX as nat) is Some {
        Some(
            Seq::new(
                parts.len(),
                |i: int| unsigned_value(parts[i], u64::MAX as nat)->0 as u64,
            ),
        )
    } else {
        None
    }
}

/// Numbers between dots, then at most one small letter.
pub open spec fn release_of(text: Seq<char>) -> Option<Release> {
    let lettered = text.len() > 0 && small_letter(text.last());
    let numbers = if lettered {
        text.drop_last()
    } else {
        text
    };
    match all_numbers(pieces(numbers, '.')) {
        Some(n) => Some(
            Release {
                numbers: n,
                suffix: if lettered {
                    Some(text.last())
                } else {
                    None
                },
            },
        ),
        None => None,
    }
}

/// The release that `tmux -V` output names, if it names one.
pub open spec fn parsed_release(output: Seq<char>) -> Option<Release> {
    match release_text(output) {
        Some(text) => release_of(text),
        None => None,
    }
}

fn parse_numbers(parts: &Vec<String>) -> (numbers: Option<Vec<u64>>)
    ensures
        match numbers {
            Some(n) => all_numbers(texts(parts@)) == Some(n@),
            None => all_numbers(texts(parts@)) is None,
        },
{
    let ghost all = texts(parts@);
    let mut numbers: Vec<u64> = Vec::new();
    let mut i: usize = 0;
    while i < parts.len()
        invariant
            all == texts(parts@),
            i <= parts@.len(),
            numbers@.len() == i,
            forall|j: int|
                0 <= j < i ==> unsigned_value(#[trigger] all[j], u64::MAX as nat) == Some(
                    numbers@[j] as nat,
                ),
        decreases parts@.len() - i,
    {
        match parse_u64(parts[i].as_str()) {
            Some(n) => numbers.push(n),
            None => {
                assert(unsigned_value(all[i as int], u64::MAX as nat) is None);
                return None;
            },
        }
        i += 1;
    }
    assert(all_numbers(all) is Some);
    assert(all_numbers(all)->0 =~= numbers@);
    Some(numbers)
}

/// Parse `tmux -V` output such as `tmux 3.3a`; `next-3.x` counts as that release.
pub fn parse_version(output: &str) -> (version: Result<TmuxVersion, TmuxError>)
    ensures
        match version {
            Ok(v) => parsed_release(output@) == Some(v@),
            Err(e) => parsed_release(output@) is None && e@
                == (crate::error::Failure::UnrecognizedVersion { output: output@ }),
        },
{
    let whole = trim(output);
    let rest = match strip_prefix(whole.as_str(), "tmux ") {
        Some(r) => trim(r.as_str()),
        None => {
            return Err(TmuxError::UnrecognizedVersion { output: output.to_string() });
        },
    };
    let text = match strip_prefix(rest.as_str(), "next-") {
        Some(t) => t,
        None => rest,
    };
    let chars = chars_of(text.as_str());
    let count: usize = chars.len();
    let (numbers_text, suffix) = if count > 0 && 'a' <= chars[count - 1] && chars[count - 1]
        <= 'z' {
        assert(chars@.subrange(0, count - 1) =~= text@.drop_last());
        (string_of(&chars, 0, count - 1), Some(chars[count - 1]))
    } else {
        (text, None)
    };
    let parts = split(numbers_text.as_str(), '.');
    match parse_numbers(&parts) {
        Some(numbers) => Ok(TmuxVersion { numbers, suffix }),
        None => Err(TmuxError::UnrecognizedVersion { output: output.to_string() }),
    }
}

/// Parse `tmux -V` output and require at least the supported minimum.
pub fn supported_version(output: &str) -> (version: Result<TmuxVersion, TmuxError>)
    ensures
        match version {
            Ok(v) => parsed_release(output@) == Some(v@) && compare_releases(
                v@,
                minimum_release(),
            ) != Age::Earlier,
            Err(e) => match parsed_release(output@) {
                None => e@ == (crate::error::Failure::UnrecognizedVersion { output: output@ }),
                Some(r) => compare_releases(r, minimum_release()) == Age::Earlier && e@
                    == (crate::error::Failure::VersionTooOld { version: r }),
            },
        },
{
    let version = parse_version(output)?;
    if version >= min_supported_version() {
        Ok(version)
    } else {
        Err(TmuxError::VersionTooOld { version })
    }
}

/// A release as tmux prints it.
pub open spec fn printed_release(release: Release) -> Seq<char> {
    let numbers = joined(
        Seq::new(release.numbers.len(), |i: int| decimal(release.numbers[i] as nat)),
        "."@,
    );
    match release.suffix {
        Some(letter) => numbers.push(letter),
        None => numbers,
    }
}

impl TmuxVersion {
    /// The release as tmux prints it, such as `3.3a`.
    pub fn to_string(&self) -> (s: String)
        ensures
            s@ == printed_release(self@),
    {
        let mut numbers: Vec<String> = Vec::new();
        let mut i: usize = 0;
        while i < self.numbers.len()
            invariant
                i <= self.numbers@.len(),
                numbers@.len() == i,
                forall|j: int| 0 <= j < i ==> numbers@[j]@ == decimal(self.numbers@[j] as nat),
            decreases self.numbers@.len() - i,
        {
            numbers.push(decimal_text(self.numbers[i]));
            i += 1;
        }
        assert(texts(numbers@) =~= Seq::new(
            self@.numbers.len(),
            |j: int| decimal(self@.numbers[j] as nat),
        ));
        let mut s = crate::text::join(&numbers, ".");
        if let Some(letter) = self.suffix {
            s.push(letter);
        }
        s
    }
}

// ---------------------------------------------------------------------------
// Laws
// ---------------------------------------------------------------------------

/// Whether a release is one that tmux can print and [`parse_version`] returns:
/// at least one number, and a small letter where there is one.
pub open spec fn well_formed_release(release: Release) -> bool {
    &&& release.numbers.len() > 0
    &&& release.suffix matches Some(letter) ==> small_letter(letter)
}

/// Every release that parsing returns is well formed.
pub proof fn lemma_parsed_well_formed(output: Seq<char>)
    ensures
        parsed_release(output) matches Some(release) ==> well_formed_release(release),
{
    if let Some(text) = release_text(output) {
        let numbers = if text.len() > 0 && small_letter(text.last()) {
            text.drop_last()
        } else {
            text
        };
        crate::text::lemma_first_at(numbers, '.');
        assert(pieces(numbers, '.').len() > 0);
    }
}

proof fn lemma_printed_shape(release: Release)
    requires
        well_formed_release(release),
    ensures
        printed_release(release).len() > 0,
        is_digit(printed_release(release)[0]),
        is_digit(printed_release(release).last()) || small_letter(printed_release(release).last()),
        release.suffix is None ==> is_digit(printed_release(release).last()),
    decreases release.numbers.len(),
{
    reveal_strlit(".");
    let list = Seq::new(release.numbers.len(), |i: int| decimal(release.numbers[i] as nat));
    lemma_decimal_value(release.numbers[0] as nat);
    lemma_decimal_value(release.numbers.last() as nat);
    let last = list.last();
    assert(is_digit(last[last.len() - 1]));
    assert(is_digit(list[0][0]));
    if release.numbers.len() > 1 {
        let front = Release { numbers: release.numbers.drop_last(), suffix: None };
        lemma_printed_shape(front);
        assert(list.drop_last() =~= Seq::new(
            front.numbers.len(),
            |i: int| decimal(front.numbers[i] as nat),
        ));
        let numbers = joined(list, "."@);
        assert(numbers == joined(list.drop_last(), "."@) + "."@ + last);
        assert(numbers[0] == joined(list.drop_last(), "."@)[0]);
        assert(numbers.last() == last.last());
    } else {
        assert(joined(list, "."@) == list[0]);
    }
}

/// Parsing what tmux prints for a release gives that release back.
pub proof fn lemma_parse_printed(release: Release)
    requires
        well_formed_release(release),
    ensures
        parsed_release("tmux "@ + printed_release(release)) == Some(release),
{
    reveal_strlit("tmux ");
    reveal_strlit("next-");
    reveal_strlit(".");
    let text = printed_release(release);
    let output = "tmux "@ + text;
    lemma_printed_shape(release);
    crate::text::lemma_trimmed_same(output);
    crate::text::lemma_trimmed_same(text);
    assert(output.subrange(0, 5) =~= "tmux "@);
    assert(output.skip(5) =~= text);
    assert(!crate::text::has_prefix(text, "next-"@)) by {
        if crate::text::has_prefix(text, "next-"@) {
            assert(text.subrange(0, 5)[0] == text[0]);
        }
    }
    assert(release_text(output) == Some(text));
    let list = Seq::new(release.numbers.len(), |i: int| decimal(release.numbers[i] as nat));
    let numbers = joined(list, "."@);
    assert("."@ =~= seq!['.']);
    assert forall|i: int| 0 <= i < list.len() implies !(#[trigger] list[i]).contains('.') by {
        lemma_decimal_value(release.numbers[i] as nat);
    }
    crate::text::lemma_pieces_joined(list, '.');
    if release.suffix is Some {
        assert(text.drop_last() =~= numbers);
    }
    assert forall|i: int| 0 <= i < list.len() implies unsigned_value(
        #[trigger] list[i],
        u64::MAX as nat,
    ) == Some(release.numbers[i] as nat) by {
        lemma_unsigned_decimal(release.numbers[i] as nat, u64::MAX as nat);
    }
    assert(all_numbers(list) is Some);
    assert(all_numbers(list)->0 =~= release.numbers);
}

proof fn lemma_trimmed_behind(head: Seq<char>, text: Seq<char>)
    requires
        head.len() > 0,
        !crate::text::white_space(head[0]),
        text.len() > 0,
        !crate::text::white_space(text[0]),
    ensures
        trimmed(head + text) == head + trimmed(text),
        0 < trimmed(text).len() <= text.len(),
        trimmed(text) == text.take(trimmed(text).len() as int),
        !crate::text::white_space(trimmed(text).last()),
    decreases text.len(),
{
    let whole = head + text;
    assert(whole[0] == head[0]);
    if crate::text::white_space(text.last()) {
        lemma_trimmed_behind(head, text.drop_last());
        assert(whole.drop_last() =~= head + text.drop_last());
        assert(trimmed(text) == trimmed(text.drop_last()));
        assert(trimmed(text) =~= text.take(trimmed(text).len() as int));
    } else {
        assert(text.take(text.len() as int) =~= text);
    }
}

/// A development build of a release counts as that release: `tmux next-3.5`
/// parses as `tmux 3.5` does, for any release text that does not begin with white
/// space or with `next-` itself.
pub proof fn lemma_next_counts_as_release(text: Seq<char>)
    requires
        text.len() > 0 ==> !crate::text::white_space(text[0]),
        !crate::text::has_prefix(text, "next-"@),
    ensures
        parsed_release("tmux next-"@ + text) == parsed_release("tmux "@ + text),
{
    reveal_strlit("tmux next-");
    reveal_strlit("tmux ");
    reveal_strlit("next-");
    if text.len() == 0 {
        lemma_bare_names_have_no_release(text);
    } else {
        let release = trimmed(text);
        lemma_trimmed_behind("tmux "@, text);
        lemma_trimmed_behind("tmux next-"@, text);
        assert(release[0] == text[0]);
        let plain = "tmux "@ + release;
        let next = "tmux next-"@ + release;
        assert(plain.subrange(0, 5) =~= "tmux "@);
        assert(next.subrange(0, 5) =~= "tmux "@);
        assert(plain.skip(5) =~= release);
        let rest = next.skip(5);
        assert(rest =~= "next-"@ + release);
        crate::text::lemma_trimmed_same(release);
        crate::text::lemma_trimmed_same(rest);
        assert(rest.subrange(0, 5) =~= "next-"@);
        assert(rest.skip(5) =~= release);
        if crate::text::has_prefix(release, "next-"@) {
            assert(text.subrange(0, 5) =~= release.subrange(0, 5));
        }
    }
}

proof fn lemma_bare_names_have_no_release(text: Seq<char>)
    requires
        text.len() == 0,
    ensures
        parsed_release("tmux next-"@ + text) is None,
        parsed_release("tmux "@ + text) is None,
{
    reveal_strlit("tmux next-");
    reveal_strlit("tmux ");
    reveal_strlit("next-");
    let next = "tmux next-"@ + text;
    crate::text::lemma_trimmed_same(next);
    assert(next.subrange(0, 5) =~= "tmux "@);
    assert(next.skip(5) =~= "next-"@);
    crate::text::lemma_trimmed_same("next-"@);
    assert("next-"@.subrange(0, 5) =~= "next-"@);
    let none = "next-"@.skip(5);
    assert(none =~= seq![]);
    crate::text::lemma_first_at_is(none, '.', 0);
    assert(pieces(none, '.') =~= seq![none]);
    assert(unsigned_value(pieces(none, '.')[0], u64::MAX as nat) is None);
    let plain = "tmux "@ + text;
    assert(plain.drop_last() =~= "tmux "@.take(4));
    assert(crate::text::trimmed_start(plain) == plain);
    assert(crate::text::trimmed_end(plain) == crate::text::trimmed_end(plain.drop_last()));
    assert(trimmed(plain).len() == 4);
}

/// The first number in which two releases differ decides between them, whatever
/// follows it.
pub proof fn lemma_first_difference_decides(
    shared: Seq<u64>,
    x: u64,
    y: u64,
    a: Seq<u64>,
    b: Seq<u64>,
    suffix: Option<char>,
    other: Option<char>,
)
    requires
        x < y,
    ensures
        compare_releases(
            Release { numbers: shared + seq![x] + a, suffix },
            Release { numbers: shared + seq![y] + b, suffix: other },
        ) == Age::Earlier,
        compare_releases(
            Release { numbers: shared + seq![y] + b, suffix: other },
            Release { numbers: shared + seq![x] + a, suffix },
        ) == Age::Later,
    decreases shared.len(),
{
    let one = shared + seq![x] + a;
    let two = shared + seq![y] + b;
    if shared.len() > 0 {
        let rest = shared.skip(1);
        lemma_first_difference_decides(rest, x, y, a, b, suffix, other);
        assert(one.skip(1) =~= rest + seq![x] + a);
        assert(two.skip(1) =~= rest + seq![y] + b);
        assert(one[0] == shared[0] && two[0] == shared[0]);
    } else {
        assert(one[0] == x && two[0] == y);
    }
}

/// A release with further numbers is later than the one without them, whatever
/// the letters.
pub proof fn lemma_further_numbers_are_later(
    shared: Seq<u64>,
    more: Seq<u64>,
    suffix: Option<char>,
    other: Option<char>,
)
    requires
        more.len() > 0,
    ensures
        compare_releases(
            Release { numbers: shared, suffix },
            Release { numbers: shared + more, suffix: other },
        ) == Age::Earlier,
        compare_releases(
            Release { numbers: shared + more, suffix: other },
            Release { numbers: shared, suffix },
        ) == Age::Later,
    decreases shared.len(),
{
    let longer = shared + more;
    if shared.len() > 0 {
        lemma_further_numbers_are_later(shared.skip(1), more, suffix, other);
        assert(longer.skip(1) =~= shared.skip(1) + more);
        assert(longer[0] == shared[0]);
    }
}

/// Of two releases with the same numbers, the one without a letter is the
/// earlier, and else the one with the letter that comes first.
pub proof fn lemma_letters_decide_last(numbers: Seq<u64>, x: char, y: char)
    requires
        x < y,
    ensures
        compare_releases(
            Release { numbers, suffix: None },
            Release { numbers, suffix: Some(x) },
        ) == Age::Earlier,
        compare_releases(
            Release { numbers, suffix: Some(x) },
            Release { numbers, suffix: Some(y) },
        ) == Age::Earlier,
        compare_releases(
            Release { numbers, suffix: Some(x) },
            Release { numbers, suffix: None },
        ) == Age::Later,
        compare_releases(
            Release { numbers, suffix: Some(y) },
            Release { numbers, suffix: Some(x) },
        ) == Age::Later,
{
    lemma_numbers_equal(numbers, numbers);
}

/// The release stands behind the program's name in what it prints, with any
/// white space around both. Output that does not begin with the name gives no
/// release.
pub proof fn lemma_release_stands_behind_name(
    before: Seq<char>,
    gap: Seq<char>,
    text: Seq<char>,
    behind: Seq<char>,
    output: Seq<char>,
)
    requires
        forall|i: int| 0 <= i < before.len() ==> crate::text::white_space(#[trigger] before[i]),
        forall|i: int| 0 <= i < gap.len() ==> crate::text::white_space(#[trigger] gap[i]),
        forall|i: int| 0 <= i < behind.len() ==> crate::text::white_space(#[trigger] behind[i]),
        text.len() > 0,
        !crate::text::white_space(text[0]) && !crate::text::white_space(text.last()),
    ensures
        !"next-"@.is_prefix_of(text) ==> parsed_release(
            before + "tmux "@ + gap + text + behind,
        ) == release_of(text),
        !"tmux "@.is_prefix_of(trimmed(output)) ==> parsed_release(output) is None,
{
    reveal_strlit("tmux ");
    reveal_strlit("next-");
    let none = Seq::<char>::empty();
    let core = "tmux "@ + gap + text;
    assert(core[0] == 't' && core.last() == text.last());
    assert(before + core + behind =~= before + "tmux "@ + gap + text + behind);
    crate::text::lemma_trimmed_between(before, core, behind);
    crate::text::lemma_prefix_and_rest(core, "tmux "@, gap + text);
    assert(core =~= "tmux "@ + (gap + text));
    assert(gap + text + none =~= gap + text);
    crate::text::lemma_trimmed_between(gap, text, none);
    crate::text::lemma_prefix_and_rest(text, "next-"@, none);
    crate::text::lemma_prefix_and_rest(trimmed(output), "tmux "@, none);
}

/// A release is one or more numbers with dots between them, and a small letter
/// behind the last where there is one. Nothing else is a release: every part has
/// to be a number in range.
pub proof fn lemma_parts_of_releases(parts: Seq<Seq<char>>, letter: Option<char>)
    requires
        parts.len() > 0,
        forall|i: int| 0 <= i < parts.len() ==> !(#[trigger] parts[i]).contains('.'),
        letter matches Some(c) ==> 'a' <= c <= 'z',
        letter is None && parts.last().len() > 0 ==> !('a' <= parts.last().last() <= 'z'),
    ensures
        ({
            let numbers = joined(parts, seq!['.']);
            let read = release_of(
                match letter {
                    Some(c) => numbers.push(c),
                    None => numbers,
                },
            );
            let numeric = forall|i: int|
                0 <= i < parts.len() ==> unsigned_value(
                    #[trigger] parts[i],
                    0xffff_ffff_ffff_ffff,
                ) is Some;
            &&& numeric ==> read is Some && read->0.suffix == letter && read->0.numbers.len()
                == parts.len() && forall|i: int|
                0 <= i < parts.len() ==> Some(read->0.numbers[i] as nat) == unsigned_value(
                    #[trigger] parts[i],
                    0xffff_ffff_ffff_ffff,
                )
            &&& !numeric ==> read is None
        }),
{
    let numbers = joined(parts, seq!['.']);
    crate::text::lemma_pieces_joined(parts, '.');
    match letter {
        Some(c) => {
            assert(numbers.push(c).drop_last() =~= numbers);
            assert(numbers.push(c).last() == c);
        },
        None => {
            if numbers.len() > 0 {
                if parts.len() > 1 {
                    let head = joined(parts.drop_last(), seq!['.']);
                    assert(numbers == head + seq!['.'] + parts.last());
                    if parts.last().len() == 0 {
                        assert(numbers.last() == '.');
                    } else {
                        assert(numbers.last() == parts.last().last());
                    }
                }
            }
        },
    }
}

/// The supported minimum is release 3.3a.
pub proof fn lemma_supported_minimum()
    ensures
        printed_release(minimum_release()) == "3.3a"@,
{
    reveal_strlit("3.3a");
    reveal_strlit(".");
    let list = Seq::new(
        minimum_release().numbers.len(),
        |i: int| decimal(minimum_release().numbers[i] as nat),
    );
    assert(list.drop_last() =~= seq![decimal(3)]);
    assert(list.last() == decimal(3));
    assert(joined(list.drop_last(), "."@) =~= decimal(3));
    assert(decimal(3) =~= seq!['3']);
    assert(printed_release(minimum_release()) =~= "3.3a"@);
}

/// An earlier release is the smaller one, and a later release the greater.
pub proof fn lemma_releases_order_as_numbers_do(a: Release, b: Release)
    ensures
        compare_releases(a, b) == Age::Earlier <==> ordering(compare_releases(a, b))
            == Ordering::Less,
        compare_releases(a, b) == Age::Same <==> ordering(compare_releases(a, b))
            == Ordering::Equal,
        compare_releases(a, b) == Age::Later <==> ordering(compare_releases(a, b))
            == Ordering::Greater,
{
}

/// Everything behind `next-` is the release, white space at its start too.
pub proof fn lemma_release_behind_next(
    before: Seq<char>,
    gap: Seq<char>,
    text: Seq<char>,
    behind: Seq<char>,
)
    requires
        forall|i: int| 0 <= i < before.len() ==> crate::text::white_space(#[trigger] before[i]),
        forall|i: int| 0 <= i < gap.len() ==> crate::text::white_space(#[trigger] gap[i]),
        forall|i: int| 0 <= i < behind.len() ==> crate::text::white_space(#[trigger] behind[i]),
        text.len() > 0 ==> !crate::text::white_space(text.last()),
    ensures
        parsed_release(before + "tmux "@ + gap + "next-"@ + text + behind) == release_of(text),
{
    reveal_strlit("tmux ");
    reveal_strlit("next-");
    let none = Seq::<char>::empty();
    let later = "next-"@ + text;
    let next = "tmux "@ + gap + later;
    assert(later[0] == 'n' && (text.len() > 0 ==> later.last() == text.last()));
    assert(text.len() == 0 ==> later.last() == '-');
    assert(next[0] == 't' && next.last() == later.last());
    assert(before + next + behind =~= before + "tmux "@ + gap + "next-"@ + text + behind);
    crate::text::lemma_trimmed_between(before, next, behind);
    crate::text::lemma_prefix_and_rest(next, "tmux "@, gap + later);
    assert(next =~= "tmux "@ + (gap + later));
    assert(gap + later + none =~= gap + later);
    crate::text::lemma_trimmed_between(gap, later, none);
    crate::text::lemma_prefix_and_rest(later, "next-"@, text);
}

} // verus!
