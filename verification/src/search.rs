//! Deciding what matches: find in scrollback, and ranking by a fuzzy query.
//!
//! Both are functions over text alone. Highlighting a match is drawing; saying
//! what matches is not.
//!
//! Find is literal, with smart case: a query without capitals matches whatever
//! the case, a query with any matches exactly. Nobody has to reach for a toggle.

use vstd::prelude::*;

use crate::fontset::{fold, folded_char};
use crate::text::chars_of;

verus! {

/// One match. Lines and columns are the caller's; a column is a character.
#[derive(Debug, Clone, Copy, PartialEq, Eq, PartialOrd, Ord, Structural)]
pub struct Match {
    pub line: i32,
    pub start: u16,
    /// One past the last column.
    pub end: u16,
}

impl Match {
    /// The columns, from the first to one past the last.
    pub fn columns(&self) -> (c: std::ops::Range<u16>)
        ensures
            c.start == self.start,
            c.end == self.end,
    {
        self.start..self.end
    }
}

/// Whether `a` comes no later than `b`: by line, then by columns.
pub open spec fn in_order(a: Match, b: Match) -> bool {
    a.line < b.line || (a.line == b.line && (a.start < b.start || (a.start == b.start && a.end
        <= b.end)))
}

/// Whether matches stand in order.
pub open spec fn ordered(m: Seq<Match>) -> bool {
    forall|i: int, j: int| 0 <= i < j < m.len() ==> in_order(#[trigger] m[i], #[trigger] m[j])
}

/// How a query is read.
#[derive(Debug, Clone, Copy, PartialEq, Eq, Structural)]
pub enum Matcher {
    /// As a piece of the text, with smart case.
    Literal,
}

impl Default for Matcher {
    fn default() -> (m: Matcher)
        ensures
            m is Literal,
    {
        Matcher::Literal
    }
}

/// What `char::is_uppercase` says of a character.
pub uninterp spec fn uppercase(c: char) -> bool;

/// `char::is_uppercase`: whether the character has the Unicode property
/// Uppercase.
#[verifier::external_body]
fn is_uppercase(c: char) -> (r: bool)
    ensures
        r == uppercase(c),
{
    c.is_uppercase()
}

/// What `char::to_lowercase` makes of a character.
pub uninterp spec fn lower_case(c: char) -> Seq<char>;

/// `char::to_lowercase`: the character's lowercase mapping, which is one or more
/// characters.
#[verifier::external_body]
fn to_lowercase(c: char) -> (v: Vec<char>)
    ensures
        v@ == lower_case(c),
        v@.len() >= 1,
{
    c.to_lowercase().collect()
}

/// Whether a query is matched exactly: where it holds a capital.
pub open spec fn smart_case_of(query: Seq<char>) -> bool {
    exists|i: int| 0 <= i < query.len() && uppercase(#[trigger] query[i])
}

fn smart_case(query: &Vec<char>) -> (sensitive: bool)
    ensures
        sensitive == smart_case_of(query@),
{
    let mut i: usize = 0;
    while i < query.len()
        invariant
            i <= query@.len(),
            forall|k: int| 0 <= k < i ==> !uppercase(#[trigger] query@[k]),
        decreases query@.len() - i,
    {
        if is_uppercase(query[i]) {
            assert(uppercase(query@[i as int]));
            return true;
        }
        i += 1;
    }
    false
}

/// A character as it is compared.
pub open spec fn letters(c: char, sensitive: bool) -> Seq<char> {
    if sensitive {
        seq![c]
    } else {
        lower_case(c)
    }
}

/// A text as it is compared.
pub open spec fn cased(text: Seq<char>, sensitive: bool) -> Seq<char>
    decreases text.len(),
{
    if text.len() == 0 {
        Seq::empty()
    } else {
        cased(text.drop_last(), sensitive) + letters(text.last(), sensitive)
    }
}

/// For each character of a text as it is compared, which character of the text
/// it came from: one capital may be compared as two letters.
pub open spec fn owners(text: Seq<char>, sensitive: bool) -> Seq<usize>
    decreases text.len(),
{
    if text.len() == 0 {
        Seq::empty()
    } else {
        owners(text.drop_last(), sensitive) + Seq::new(
            letters(text.last(), sensitive).len(),
            |k: int| (text.len() - 1) as usize,
        )
    }
}

fn to_case(text: &Vec<char>, sensitive: bool) -> (r: (Vec<char>, Vec<usize>))
    ensures
        r.0@ == cased(text@, sensitive),
        r.1@ == owners(text@, sensitive),
        r.0@.len() == r.1@.len(),
        r.0@.len() >= text@.len(),
{
    let mut chars: Vec<char> = Vec::new();
    let mut from: Vec<usize> = Vec::new();
    let mut i: usize = 0;
    assert(text@.take(0) =~= Seq::empty());
    while i < text.len()
        invariant
            i <= text@.len(),
            chars@ == cased(text@.take(i as int), sensitive),
            from@ == owners(text@.take(i as int), sensitive),
            chars@.len() == from@.len(),
            chars@.len() >= i,
        decreases text@.len() - i,
    {
        let ghost before = text@.take(i as int);
        let ghost now = text@.take(i + 1);
        assert(now.drop_last() =~= before);
        let ghost c = text@[i as int];
        assert(now.last() == c);
        let ghost had = chars@;
        let ghost had_from = from@;
        if sensitive {
            chars.push(text[i]);
            from.push(i);
            assert(chars@ =~= had + letters(c, sensitive));
        } else {
            let mut low = to_lowercase(text[i]);
            let n: usize = low.len();
            chars.append(&mut low);
            let mut k: usize = 0;
            while k < n
                invariant
                    k <= n,
                    from@ == had_from + Seq::new(k as nat, |j: int| i),
                decreases n - k,
            {
                from.push(i);
                k += 1;
                assert(from@ =~= had_from + Seq::new(k as nat, |j: int| i));
            }
        }
        assert(from@ =~= owners(now, sensitive));
        i += 1;
    }
    assert(text@.take(text@.len() as int) =~= text@);
    (chars, from)
}

/// Whether `needle` stands at `at`.
pub open spec fn occurs(hay: Seq<char>, needle: Seq<char>, at: int) -> bool {
    0 <= at && at + needle.len() <= hay.len() && hay.subrange(at, at + needle.len()) == needle
}

/// Where `needle` is found from `at` on: the leftmost place, and then onward
/// from its end, so that no two overlap.
pub open spec fn places(hay: Seq<char>, needle: Seq<char>, at: int) -> Seq<int>
    decreases hay.len() - at,
{
    if at < 0 || needle.len() == 0 || at + needle.len() > hay.len() {
        Seq::empty()
    } else if occurs(hay, needle, at) {
        seq![at] + places(hay, needle, at + needle.len())
    } else {
        places(hay, needle, at + 1)
    }
}

/// The match whose compared letters start at `at`: the columns of the
/// characters that they came from.
pub open spec fn match_at(line: i32, from: Seq<usize>, len: nat, at: int) -> Match {
    Match { line, start: from[at] as u16, end: (from[at + len - 1] + 1) as u16 }
}

/// The matches in one line.
pub open spec fn line_matches(query: Seq<char>, line: i32, text: Seq<char>) -> Seq<Match> {
    let sensitive = smart_case_of(query);
    let needle = cased(query, sensitive);
    let from = owners(text, sensitive);
    places(cased(text, sensitive), needle, 0).map_values(
        |at: int| match_at(line, from, needle.len(), at),
    )
}

/// The matches in the first `n` lines.
pub open spec fn found(query: Seq<char>, lines: Seq<(i32, &str)>, n: int) -> Seq<Match>
    decreases n,
{
    if n <= 0 {
        Seq::empty()
    } else {
        found(query, lines, n - 1) + line_matches(query, lines[n - 1].0, lines[n - 1].1@)
    }
}

fn occurs_at(hay: &Vec<char>, needle: &Vec<char>, at: usize) -> (r: bool)
    requires
        at + needle@.len() <= hay@.len(),
    ensures
        r == occurs(hay@, needle@, at as int),
{
    let n: usize = needle.len();
    let m: usize = hay.len();
    let mut k: usize = 0;
    while k < n
        invariant
            k <= n == needle@.len(),
            at + n <= m == hay@.len(),
            forall|j: int| 0 <= j < k ==> hay@[at + j] == needle@[j],
        decreases n - k,
    {
        if hay[at + k] != needle[k] {
            assert(hay@.subrange(at as int, at + n)[k as int] != needle@[k as int]);
            return false;
        }
        k += 1;
    }
    assert(hay@.subrange(at as int, at + n) =~= needle@);
    true
}

fn find_in_line(
    needle: &Vec<char>,
    text: &Vec<char>,
    sensitive: bool,
    line: i32,
    out: &mut Vec<Match>,
)
    requires
        needle@.len() >= 1,
    ensures
        final(out)@ == old(out)@ + places(cased(text@, sensitive), needle@, 0).map_values(
            |at: int| match_at(line, owners(text@, sensitive), needle@.len(), at),
        ),
{
    let (hay, from) = to_case(text, sensitive);
    let n: usize = needle.len();
    let ghost to_match = |at: int| match_at(line, owners(text@, sensitive), needle@.len(), at);
    let ghost whole = places(hay@, needle@, 0);
    let mut at: usize = 0;
    let ghost mut done: Seq<int> = Seq::empty();
    assert(out@ =~= old(out)@ + done.map_values(to_match));
    assert(whole =~= done + places(hay@, needle@, 0));
    let m: usize = hay.len();
    proof {
        lemma_owners_bounded(text@, sensitive);
    }
    let limit: usize = text.len();
    while n <= m && at <= m - n
        invariant
            m == hay@.len() == from@.len(),
            n == needle@.len() >= 1,
            at <= m,
            hay@ == cased(text@, sensitive),
            from@ == owners(text@, sensitive),
            limit == text@.len(),
            forall|k: int| 0 <= k < from@.len() ==> (#[trigger] from@[k]) < limit,
            to_match == (|at: int|
                match_at(line, owners(text@, sensitive), needle@.len(), at)),
            whole == done + places(hay@, needle@, at as int),
            out@ == old(out)@ + done.map_values(to_match),
        decreases m - at,
    {
        if occurs_at(&hay, needle, at) {
            let first: usize = from[at];
            let last: usize = from[at + n - 1] + 1;
            let ghost had = out@;
            out.push(
                Match {
                    line,
                    start: #[verifier::truncate] (first as u16),
                    end: #[verifier::truncate] (last as u16),
                },
            );
            proof {
                let next = done.push(at as int);
                assert(out@ =~= old(out)@ + next.map_values(to_match));
                assert(whole =~= next + places(hay@, needle@, at + n));
                done = next;
            }
            at = at + n;
        } else {
            at = at + 1;
        }
    }
    assert(places(hay@, needle@, at as int) =~= Seq::empty());
    assert(whole =~= done);
}

proof fn lemma_owners_bounded(text: Seq<char>, sensitive: bool)
    requires
        text.len() <= usize::MAX,
    ensures
        forall|k: int|
            0 <= k < owners(text, sensitive).len() ==> (#[trigger] owners(text, sensitive)[k])
                < text.len(),
    decreases text.len(),
{
    if text.len() > 0 {
        lemma_owners_bounded(text.drop_last(), sensitive);
        let all = owners(text, sensitive);
        let before = owners(text.drop_last(), sensitive);
        assert forall|k: int| 0 <= k < all.len() implies (#[trigger] all[k]) < text.len() by {
            if k < before.len() {
                assert(all[k] == before[k]);
            } else {
                assert(all[k] == (text.len() - 1) as usize);
            }
        }
    }
}

/// What a search holds.
#[verifier::ext_equal]
pub struct SearchView {
    pub query: Seq<char>,
    pub matches: Seq<Match>,
    pub current: int,
}

impl SearchView {
    /// Whether the current match is one of the matches, where there are any.
    pub open spec fn wf(self) -> bool {
        if self.matches.len() == 0 {
            self.current == 0
        } else {
            0 <= self.current < self.matches.len()
        }
    }

    /// The current match.
    pub open spec fn current_match(self) -> Option<Match> {
        if 0 <= self.current < self.matches.len() {
            Some(self.matches[self.current])
        } else {
            None
        }
    }

    /// With the next match current, after the last the first.
    pub open spec fn advanced(self) -> SearchView {
        if self.matches.len() == 0 {
            self
        } else {
            SearchView {
                current: if self.current + 1 == self.matches.len() {
                    0
                } else {
                    self.current + 1
                },
                ..self
            }
        }
    }

    /// With the match before current, before the first the last.
    pub open spec fn retreated(self) -> SearchView {
        if self.matches.len() == 0 {
            self
        } else {
            SearchView {
                current: if self.current == 0 {
                    self.matches.len() - 1
                } else {
                    self.current - 1
                },
                ..self
            }
        }
    }
}

/// The distance between two lines.
pub open spec fn apart(a: i32, b: i32) -> int {
    if a < b {
        b - a
    } else {
        a - b
    }
}

/// Whether the match `at` is the first of those nearest to a line.
pub open spec fn nearest_to(m: Seq<Match>, line: i32, at: int) -> bool {
    &&& 0 <= at < m.len()
    &&& forall|k: int| 0 <= k < m.len() ==> apart(m[at].line, line) <= apart(
        (#[trigger] m[k]).line,
        line,
    )
    &&& forall|k: int| 0 <= k < at ==> apart(m[at].line, line) < apart(
        (#[trigger] m[k]).line,
        line,
    )
}

/// A running search.
#[derive(Debug, Clone)]
pub struct Search {
    query: String,
    matcher: Matcher,
    matches: Vec<Match>,
    /// Which match is current.
    current: usize,
}

impl View for Search {
    type V = SearchView;

    closed spec fn view(&self) -> SearchView {
        SearchView { query: self.query@, matches: self.matches@, current: self.current as int }
    }
}

impl Search {
    pub open spec fn wf(self) -> bool {
        self@.wf() && ordered(self@.matches)
    }

    pub fn new() -> (s: Search)
        ensures
            s.wf(),
            s@.query.len() == 0,
            s@.matches.len() == 0,
    {
        Search { query: String::new(), matcher: Matcher::Literal, matches: Vec::new(), current: 0 }
    }

    pub fn query(&self) -> (q: &str)
        ensures
            q@ == self@.query,
    {
        self.query.as_str()
    }

    pub fn matches(&self) -> (m: &[Match])
        ensures
            m@ == self@.matches,
    {
        self.matches.as_slice()
    }

    pub fn is_empty(&self) -> (yes: bool)
        ensures
            yes == (self@.matches.len() == 0),
    {
        self.matches.len() == 0
    }

    pub fn len(&self) -> (n: usize)
        ensures
            n == self@.matches.len(),
    {
        self.matches.len()
    }

    /// The current match's number, counted from 1.
    pub fn position(&self) -> (p: Option<usize>)
        requires
            self.wf(),
        ensures
            p is Some <==> self@.matches.len() > 0,
            p matches Some(n) ==> n == self@.current + 1,
    {
        if self.matches.len() == 0 {
            None
        } else {
            Some(self.current + 1)
        }
    }

    pub fn current(&self) -> (m: Option<Match>)
        ensures
            m == self@.current_match(),
    {
        if self.current < self.matches.len() {
            Some(self.matches[self.current])
        } else {
            None
        }
    }

    /// Searches `lines`, each given with its number. What is found stands in
    /// order, whatever the order of the lines.
    pub fn run(&mut self, query: &str, lines: &[(i32, &str)])
        ensures
            final(self).wf(),
            final(self)@.query == query@,
            final(self)@.current == 0,
            query@.len() == 0 ==> final(self)@.matches.len() == 0,
            query@.len() > 0 ==> final(self)@.matches.to_multiset() == found(
                query@,
                lines@,
                lines@.len() as int,
            ).to_multiset(),
    {
        self.query = query.to_owned();
        self.current = 0;
        let chars = chars_of(query);
        let mut all: Vec<Match> = Vec::new();
        if chars.len() == 0 {
            self.matches = all;
            return;
        }
        let sensitive = match self.matcher {
            Matcher::Literal => smart_case(&chars),
        };
        let (needle, _from) = to_case(&chars, sensitive);
        let n: usize = lines.len();
        let mut i: usize = 0;
        while i < n
            invariant
                i <= n == lines@.len(),
                sensitive == smart_case_of(query@),
                needle@ == cased(query@, sensitive),
                needle@.len() >= 1,
                all@ == found(query@, lines@, i as int),
            decreases n - i,
        {
            let (line, text): (i32, &str) = lines[i];
            let letters = chars_of(text);
            let ghost had = all@;
            find_in_line(&needle, &letters, sensitive, line, &mut all);
            assert(all@ =~= had + line_matches(query@, line, text@));
            i += 1;
        }
        self.matches = in_order_of(&all);
    }

    pub fn clear(&mut self)
        ensures
            final(self).wf(),
            final(self)@.query.len() == 0,
            final(self)@.matches.len() == 0,
    {
        self.query = String::new();
        self.matches = Vec::new();
        self.current = 0;
    }

    /// Moves to the next match, and after the last to the first.
    pub fn next(&mut self) -> (m: Option<Match>)
        requires
            old(self).wf(),
        ensures
            final(self).wf(),
            final(self)@ == old(self)@.advanced(),
            m == final(self)@.current_match(),
    {
        let n: usize = self.matches.len();
        if n == 0 {
            return None;
        }
        self.current = if self.current + 1 == n {
            0
        } else {
            self.current + 1
        };
        self.current()
    }

    /// Moves to the match before, and before the first to the last.
    pub fn previous(&mut self) -> (m: Option<Match>)
        requires
            old(self).wf(),
        ensures
            final(self).wf(),
            final(self)@ == old(self)@.retreated(),
            m == final(self)@.current_match(),
    {
        let n: usize = self.matches.len();
        if n == 0 {
            return None;
        }
        self.current = if self.current == 0 {
            n - 1
        } else {
            self.current - 1
        };
        self.current()
    }

    /// Moves to the match nearest to a line, the first of several.
    pub fn focus_near(&mut self, line: i32)
        requires
            old(self).wf(),
        ensures
            final(self).wf(),
            final(self)@.query == old(self)@.query,
            final(self)@.matches == old(self)@.matches,
            old(self)@.matches.len() > 0 ==> nearest_to(
                old(self)@.matches,
                line,
                final(self)@.current,
            ),
    {
        let n: usize = self.matches.len();
        if n == 0 {
            return;
        }
        let mut best: usize = 0;
        let mut i: usize = 1;
        while i < n
            invariant
                1 <= i <= n == self.matches@.len(),
                best < i,
                self.query == old(self).query,
                self.matches == old(self).matches,
                forall|k: int| 0 <= k < i ==> apart(self.matches@[best as int].line, line)
                    <= apart((#[trigger] self.matches@[k]).line, line),
                forall|k: int| 0 <= k < best ==> apart(self.matches@[best as int].line, line)
                    < apart((#[trigger] self.matches@[k]).line, line),
            decreases n - i,
        {
            if distance(self.matches[i].line, line) < distance(self.matches[best].line, line) {
                best = i;
            }
            i += 1;
        }
        self.current = best;
    }
}

impl Default for Search {
    fn default() -> (s: Search)
        ensures
            s.wf(),
            s@.query.len() == 0,
            s@.matches.len() == 0,
    {
        Search::new()
    }
}

fn distance(a: i32, b: i32) -> (d: i64)
    ensures
        d == apart(a, b),
{
    if a < b {
        b as i64 - a as i64
    } else {
        a as i64 - b as i64
    }
}

fn precedes(a: Match, b: Match) -> (r: bool)
    ensures
        r == in_order(a, b),
{
    a.line < b.line || (a.line == b.line && (a.start < b.start || (a.start == b.start && a.end
        <= b.end)))
}

/// Matches in order. Each goes behind those that come no later, found from the
/// end, so lines that come in order cost one look each.
fn in_order_of(all: &Vec<Match>) -> (v: Vec<Match>)
    ensures
        ordered(v@),
        v@.to_multiset() == all@.to_multiset(),
{
    let mut v: Vec<Match> = Vec::new();
    let mut i: usize = 0;
    assert(all@.take(0) =~= Seq::empty());
    while i < all.len()
        invariant
            i <= all@.len(),
            ordered(v@),
            v@.len() == i,
            v@.to_multiset() == all@.take(i as int).to_multiset(),
        decreases all@.len() - i,
    {
        let m: Match = all[i];
        let mut at: usize = v.len();
        while at > 0 && !precedes(v[at - 1], m)
            invariant
                at <= v@.len(),
                ordered(v@),
                forall|k: int| at <= k < v@.len() ==> !in_order(#[trigger] v@[k], m),
            decreases at,
        {
            at -= 1;
        }
        let ghost before = v@;
        v.insert(at, m);
        proof {
            vstd::seq_lib::to_multiset_insert(before, at as int, m);
            assert(v@ =~= before.insert(at as int, m));
            vstd::seq_lib::to_multiset_build(all@.take(i as int), m);
            assert(all@.take(i + 1) =~= all@.take(i as int).push(m));
            assert forall|j: int, k: int| 0 <= j < k < v@.len() implies in_order(
                #[trigger] v@[j],
                #[trigger] v@[k],
            ) by {
                if j < at {
                    assert(v@[j] == before[j]);
                    if at > 0 {
                        assert(in_order(before[j], before[at - 1]) || j == at - 1);
                    }
                }
                if k > at {
                    assert(v@[k] == before[k - 1]);
                }
                if j > at {
                    assert(v@[j] == before[j - 1]);
                }
            }
        }
        i += 1;
    }
    assert(all@.take(all@.len() as int) =~= all@);
    v
}

/// Whether places from `at` on hold the needle, do not overlap, and leave no
/// occurrence of it untouched.
pub open spec fn well_placed(all: Seq<int>, hay: Seq<char>, needle: Seq<char>, at: int) -> bool {
    &&& forall|k: int| 0 <= k < all.len() ==> at <= (#[trigger] all[k]) && occurs(hay, needle, all[k])
    &&& forall|j: int, k: int|
        0 <= j < k < all.len() ==> (#[trigger] all[j]) + needle.len() <= #[trigger] all[k]
    &&& forall|i: int| at <= i && #[trigger] occurs(hay, needle, i) ==> touched(all, needle, i)
}

/// Whether a place lies inside something found.
pub open spec fn touched(all: Seq<int>, needle: Seq<char>, i: int) -> bool {
    exists|k: int| 0 <= k < all.len() && (#[trigger] all[k]) <= i < all[k] + needle.len()
}

proof fn lemma_first_place(rest: Seq<int>, hay: Seq<char>, needle: Seq<char>, at: int)
    requires
        needle.len() > 0,
        occurs(hay, needle, at),
        well_placed(rest, hay, needle, at + needle.len()),
    ensures
        well_placed(seq![at] + rest, hay, needle, at),
{
    let all = seq![at] + rest;
    assert forall|k: int| 0 <= k < all.len() implies at <= (#[trigger] all[k]) && occurs(
        hay,
        needle,
        all[k],
    ) by {
        if k > 0 {
            assert(all[k] == rest[k - 1]);
        }
    }
    assert forall|j: int, k: int| 0 <= j < k < all.len() implies (#[trigger] all[j]) + needle.len()
        <= #[trigger] all[k] by {
        assert(all[k] == rest[k - 1]);
        if j > 0 {
            assert(all[j] == rest[j - 1]);
        }
    }
    assert forall|i: int| at <= i && #[trigger] occurs(hay, needle, i) implies touched(
        all,
        needle,
        i,
    ) by {
        if i < at + needle.len() {
            assert(all[0] <= i < all[0] + needle.len());
        } else {
            assert(touched(rest, needle, i));
            let k = choose|k: int|
                0 <= k < rest.len() && (#[trigger] rest[k]) <= i < rest[k] + needle.len();
            assert(all[k + 1] == rest[k]);
        }
    }
}

/// What is found is there; no two overlap; and wherever the needle stands, it
/// stands in or across something found.
pub proof fn law_places_are_disjoint_and_miss_nothing(hay: Seq<char>, needle: Seq<char>, at: int)
    requires
        at >= 0,
        needle.len() > 0,
    ensures
        well_placed(places(hay, needle, at), hay, needle, at),
    decreases hay.len() - at,
{
    if at + needle.len() > hay.len() {
    } else if occurs(hay, needle, at) {
        let rest = places(hay, needle, at + needle.len());
        law_places_are_disjoint_and_miss_nothing(hay, needle, at + needle.len());
        lemma_first_place(rest, hay, needle, at);
    } else {
        law_places_are_disjoint_and_miss_nothing(hay, needle, at + 1);
        let all = places(hay, needle, at + 1);
        assert forall|i: int| at <= i && #[trigger] occurs(hay, needle, i) implies touched(
            all,
            needle,
            i,
        ) by {
            assert(i != at);
        }
    }
}

/// The next match's predecessor is the match one came from, and the other way
/// round.
pub proof fn law_next_and_previous_undo_each_other(s: SearchView)
    requires
        s.wf(),
    ensures
        s.advanced().retreated() == s,
        s.retreated().advanced() == s,
        s.advanced().wf(),
        s.retreated().wf(),
{
}

/// How a text matches a fuzzy query.
#[derive(Debug, Clone, PartialEq, Eq)]
pub struct FuzzyMatch {
    pub score: u128,
    /// The characters of the text that the query's characters matched.
    pub positions: Vec<usize>,
}

/// Whether two characters match, up to the case of ASCII letters.
pub open spec fn same_letter(a: char, b: char) -> bool {
    folded_char(a) == folded_char(b)
}

/// Whether a word starts at `i`.
pub open spec fn starts_word(text: Seq<char>, i: int) -> bool {
    i == 0 || text[i - 1] == '.' || text[i - 1] == '_' || text[i - 1] == '-' || text[i - 1] == ' '
}

/// What matching the character at `i` is worth: something by itself, more next
/// to the character matched before it, most at the start of a word.
pub open spec fn gain(text: Seq<char>, i: int, joined: bool) -> int {
    1 + (if starts_word(text, i) {
        8int
    } else {
        0
    }) + (if joined {
        4int
    } else {
        0
    })
}

/// Whether `at` matches all of the query in the text, left to right, from `from`
/// on.
pub open spec fn aligned(query: Seq<char>, text: Seq<char>, from: int, at: Seq<usize>) -> bool {
    &&& at.len() == query.len()
    &&& forall|k: int|
        0 <= k < at.len() ==> from <= (#[trigger] at[k]) < text.len() && same_letter(
            text[at[k] as int],
            query[k],
        )
    &&& forall|j: int, k: int| 0 <= j < k < at.len() ==> (#[trigger] at[j]) < #[trigger] at[k]
}

/// What a way to match is worth, `joined` saying whether the character before
/// `from` was matched.
pub open spec fn worth(text: Seq<char>, at: Seq<usize>, from: int, joined: bool) -> int
    decreases at.len(),
{
    if at.len() == 0 {
        0
    } else {
        gain(text, at[0] as int, joined && at[0] == from) + worth(
            text,
            at.drop_first(),
            at[0] + 1,
            true,
        )
    }
}

/// The better of two scores, where there is one.
pub open spec fn better(a: Option<int>, b: Option<int>) -> Option<int> {
    if prefers(a, b) {
        a
    } else {
        b
    }
}

/// Whether the first of two scores is at least as good.
pub open spec fn prefers(a: Option<int>, b: Option<int>) -> bool {
    match (a, b) {
        (Some(x), Some(y)) => x >= y,
        (Some(_), None) => true,
        (None, _) => false,
    }
}

/// The best score of matching the query in the text from `from` on, where it
/// matches at all.
pub open spec fn top(query: Seq<char>, text: Seq<char>, from: int, joined: bool) -> Option<int>
    decreases text.len() - from,
{
    if query.len() == 0 {
        Some(0)
    } else if from >= text.len() {
        None
    } else {
        better(
            taking(query, text, from, joined, top(query.drop_first(), text, from + 1, true)),
            top(query, text, from + 1, false),
        )
    }
}

/// The best score where the query's first character is matched at `from`, and
/// `rest` is the best score of the others.
pub open spec fn taking(
    query: Seq<char>,
    text: Seq<char>,
    from: int,
    joined: bool,
    rest: Option<int>,
) -> Option<int> {
    match rest {
        Some(s) => if same_letter(text[from], query[0]) {
            Some(s + gain(text, from, joined))
        } else {
            None
        },
        None => None,
    }
}

/// Whether the best score is had by matching the query's first character at
/// `from`.
pub open spec fn takes(query: Seq<char>, text: Seq<char>, from: int, joined: bool) -> bool {
    prefers(
        taking(query, text, from, joined, top(query.drop_first(), text, from + 1, true)),
        top(query, text, from + 1, false),
    )
}

/// A way to match that has the best score: of several, the one that matches
/// earlier.
pub open spec fn best_path(query: Seq<char>, text: Seq<char>, from: int, joined: bool) -> Seq<usize>
    decreases text.len() - from,
{
    if query.len() == 0 || from >= text.len() {
        Seq::empty()
    } else if takes(query, text, from, joined) {
        seq![from as usize] + best_path(query.drop_first(), text, from + 1, true)
    } else {
        best_path(query, text, from + 1, false)
    }
}

/// Whether `m` is how the text matches the query.
pub open spec fn fuzzy_result(query: Seq<char>, text: Seq<char>, m: Option<FuzzyMatch>) -> bool {
    match (m, top(query, text, 0, false)) {
        (Some(found), Some(score)) => {
            &&& found.score == score
            &&& found.positions@ == best_path(query, text, 0, false)
        },
        (None, None) => true,
        _ => false,
    }
}

/// No way to match is worth more than the best score; and where there is a way,
/// there is a best score.
pub proof fn law_no_alignment_scores_more(
    query: Seq<char>,
    text: Seq<char>,
    from: int,
    joined: bool,
    at: Seq<usize>,
)
    requires
        0 <= from <= text.len(),
        aligned(query, text, from, at),
    ensures
        top(query, text, from, joined) matches Some(s) && worth(text, at, from, joined) <= s,
    decreases text.len() - from,
{
    if query.len() > 0 {
        assert(at[0] >= from);
        let rest = at.drop_first();
        if at[0] == from {
            assert forall|k: int| 0 <= k < rest.len() implies from + 1 <= (#[trigger] rest[k])
                < text.len() && same_letter(text[rest[k] as int], query.drop_first()[k]) by {
                assert(rest[k] == at[k + 1]);
                assert(at[0] < at[k + 1]);
            }
            assert(aligned(query.drop_first(), text, from + 1, rest));
            law_no_alignment_scores_more(query.drop_first(), text, from + 1, true, rest);
        } else {
            assert forall|k: int| 0 <= k < at.len() implies from + 1 <= (#[trigger] at[k]) by {
                if k > 0 {
                    assert(at[0] < at[k]);
                }
            }
            assert(aligned(query, text, from + 1, at));
            law_no_alignment_scores_more(query, text, from + 1, false, at);
        }
    }
}

/// The chosen way matches the query and is worth the best score.
pub proof fn law_best_path_scores_the_top(
    query: Seq<char>,
    text: Seq<char>,
    from: int,
    joined: bool,
)
    requires
        0 <= from <= text.len() <= usize::MAX,
        top(query, text, from, joined) is Some,
    ensures
        aligned(query, text, from, best_path(query, text, from, joined)),
        worth(text, best_path(query, text, from, joined), from, joined) == top(
            query,
            text,
            from,
            joined,
        )->0,
    decreases text.len() - from,
{
    if query.len() > 0 {
        if takes(query, text, from, joined) {
            law_best_path_scores_the_top(query.drop_first(), text, from + 1, true);
            let rest = best_path(query.drop_first(), text, from + 1, true);
            let all = seq![from as usize] + rest;
            assert(all.drop_first() =~= rest);
            assert forall|k: int| 0 <= k < all.len() implies from <= (#[trigger] all[k])
                < text.len() && same_letter(text[all[k] as int], query[k]) by {
                if k > 0 {
                    assert(all[k] == rest[k - 1]);
                    assert(query[k] == query.drop_first()[k - 1]);
                }
            }
            assert forall|j: int, k: int| 0 <= j < k < all.len() implies (#[trigger] all[j])
                < #[trigger] all[k] by {
                assert(all[k] == rest[k - 1]);
                if j > 0 {
                    assert(all[j] == rest[j - 1]);
                }
            }
        } else {
            law_best_path_scores_the_top(query, text, from + 1, false);
            let all = best_path(query, text, from + 1, false);
            assert(all[0] != from);
        }
    }
}

/// The best scores of one tail of the query from each place of the text on, the
/// end of the text first: where the character before was not matched, and where
/// it was.
struct Scores {
    apart: Vec<Option<u128>>,
    joined: Vec<Option<u128>>,
}

/// Whether a stored score is the score.
spec fn tells(stored: Option<u128>, score: Option<int>) -> bool {
    match (stored, score) {
        (Some(a), Some(b)) => a == b,
        (None, None) => true,
        _ => false,
    }
}

impl Scores {
    /// Whether scores are stored for the last `n` places and the end.
    spec fn tell(self, query: Seq<char>, text: Seq<char>, n: int) -> bool {
        &&& self.apart@.len() == n
        &&& self.joined@.len() == n
        &&& forall|r: int|
            0 <= r < n ==> tells(#[trigger] self.apart@[r], top(query, text, text.len() - r, false))
        &&& forall|r: int|
            0 <= r < n ==> tells(#[trigger] self.joined@[r], top(query, text, text.len() - r, true))
    }
}

/// A score is at most so much for each character left.
proof fn lemma_top_bounded(query: Seq<char>, text: Seq<char>, from: int, joined: bool)
    requires
        0 <= from <= text.len(),
    ensures
        top(query, text, from, joined) matches Some(s) ==> 0 <= s <= 13 * (text.len() - from),
    decreases text.len() - from,
{
    if query.len() > 0 && from < text.len() {
        lemma_top_bounded(query.drop_first(), text, from + 1, true);
        lemma_top_bounded(query, text, from + 1, false);
    }
}

fn word_starts(text: &Vec<char>, i: usize) -> (r: bool)
    requires
        i < text@.len(),
    ensures
        r == starts_word(text@, i as int),
{
    i == 0 || text[i - 1] == '.' || text[i - 1] == '_' || text[i - 1] == '-' || text[i - 1] == ' '
}

fn gain_at(text: &Vec<char>, i: usize, joined: bool) -> (g: u128)
    requires
        i < text@.len(),
    ensures
        g == gain(text@, i as int, joined),
        g <= 13,
{
    let word: u128 = if word_starts(text, i) {
        8
    } else {
        0
    };
    let next: u128 = if joined {
        4
    } else {
        0
    };
    1 + word + next
}

fn preferred(a: Option<u128>, b: Option<u128>) -> (r: bool)
    ensures
        forall|x: Option<int>, y: Option<int>|
            tells(a, x) && tells(b, y) ==> r == #[trigger] prefers(x, y),
{
    match (a, b) {
        (Some(x), Some(y)) => x >= y,
        (Some(_), None) => true,
        (None, _) => false,
    }
}

fn taken(
    first: char,
    text: &Vec<char>,
    from: usize,
    joined: bool,
    rest: Option<u128>,
    Ghost(query): Ghost<Seq<char>>,
) -> (s: Option<u128>)
    requires
        from < text@.len(),
        query.len() > 0,
        query[0] == first,
        tells(rest, top(query.drop_first(), text@, from + 1, true)),
    ensures
        tells(
            s,
            taking(
                query,
                text@,
                from as int,
                joined,
                top(query.drop_first(), text@, from + 1, true),
            ),
        ),
{
    let n: usize = text.len();
    proof {
        lemma_top_bounded(query.drop_first(), text@, from + 1, true);
    }
    match rest {
        Some(r) => if fold(text[from]) == fold(first) {
            Some(r + gain_at(text, from, joined))
        } else {
            None
        },
        None => None,
    }
}

/// The scores of the empty query: nothing to match, anywhere.
fn scores_of_nothing(text: &Vec<char>) -> (row: Scores)
    ensures
        row.tell(Seq::empty(), text@, text@.len() as int + 1),
{
    let n: usize = text.len();
    let mut row = Scores { apart: Vec::new(), joined: Vec::new() };
    let mut r: usize = 0;
    while r < n
        invariant
            r <= n == text@.len(),
            row.tell(Seq::empty(), text@, r as int),
        decreases n - r,
    {
        row.apart.push(Some(0));
        row.joined.push(Some(0));
        r += 1;
    }
    row.apart.push(Some(0));
    row.joined.push(Some(0));
    row
}

/// The scores of a query one character longer.
fn scores_of(first: char, text: &Vec<char>, rest: &Scores, Ghost(query): Ghost<Seq<char>>) -> (row:
    Scores)
    requires
        query.len() > 0,
        query[0] == first,
        rest.tell(query.drop_first(), text@, text@.len() as int + 1),
    ensures
        row.tell(query, text@, text@.len() as int + 1),
{
    let n: usize = text.len();
    let mut row = Scores { apart: Vec::new(), joined: Vec::new() };
    row.apart.push(None);
    row.joined.push(None);
    let mut r: usize = 0;
    while r < n
        invariant
            r <= n == text@.len(),
            query.len() > 0,
            query[0] == first,
            rest.tell(query.drop_first(), text@, text@.len() as int + 1),
            row.tell(query, text@, r + 1),
        decreases n - r,
    {
        let from: usize = n - 1 - r;
        let after: Option<u128> = rest.joined[r];
        let skip: Option<u128> = row.apart[r];
        assert(tells(after, top(query.drop_first(), text@, from + 1, true)));
        assert(tells(skip, top(query, text@, from + 1, false)));
        let alone: Option<u128> = taken(first, text, from, false, after, Ghost(query));
        let beside: Option<u128> = taken(first, text, from, true, after, Ghost(query));
        let one: Option<u128> = if preferred(alone, skip) {
            alone
        } else {
            skip
        };
        let two: Option<u128> = if preferred(beside, skip) {
            beside
        } else {
            skip
        };
        let ghost had = row;
        row.apart.push(one);
        row.joined.push(two);
        proof {
            assert(tells(one, top(query, text@, from as int, false)));
            assert(tells(two, top(query, text@, from as int, true)));
            assert forall|k: int| 0 <= k < r + 2 implies tells(
                #[trigger] row.apart@[k],
                top(query, text@, text@.len() - k, false),
            ) by {
                if k < r + 1 {
                    assert(row.apart@[k] == had.apart@[k]);
                }
            }
            assert forall|k: int| 0 <= k < r + 2 implies tells(
                #[trigger] row.joined@[k],
                top(query, text@, text@.len() - k, true),
            ) by {
                if k < r + 1 {
                    assert(row.joined@[k] == had.joined@[k]);
                }
            }
        }
        r += 1;
    }
    row
}

/// Matches a query against a text: its characters in order, not necessarily
/// next to one another. Of all ways to do so the result is the best one, which a
/// scan that takes each character where it first occurs would miss.
pub fn fuzzy_match(query: &str, text: &str) -> (m: Option<FuzzyMatch>)
    ensures
        fuzzy_result(query@, text@, m),
{
    let q = chars_of(query);
    let t = chars_of(text);
    let n: usize = q.len();
    let m: usize = t.len();
    // The scores of each tail of the query, the shortest first.
    let mut rows: Vec<Scores> = Vec::new();
    rows.push(scores_of_nothing(&t));
    assert(q@.skip(n as int) =~= Seq::empty());
    let mut k: usize = 0;
    while k < n
        invariant
            k <= n == q@.len(),
            rows@.len() == k + 1,
            forall|j: int|
                0 <= j <= k ==> (#[trigger] rows@[j]).tell(q@.skip(n - j), t@, t@.len() as int + 1),
        decreases n - k,
    {
        let ghost tail = q@.skip(n - k - 1);
        assert(tail.drop_first() =~= q@.skip(n - k));
        assert(rows@[k as int].tell(q@.skip(n - k), t@, t@.len() as int + 1));
        let row = scores_of(q[n - 1 - k], &t, &rows[k], Ghost(tail));
        let ghost had = rows@;
        rows.push(row);
        assert forall|j: int| 0 <= j <= k + 1 implies (#[trigger] rows@[j]).tell(
            q@.skip(n - j),
            t@,
            t@.len() as int + 1,
        ) by {
            if j <= k {
                assert(rows@[j] == had[j]);
            }
        }
        k += 1;
    }
    assert(q@.skip(0) =~= q@);
    assert(rows@[n as int].tell(q@.skip(n - n), t@, t@.len() as int + 1));
    let score: u128 = match rows[n].apart[m] {
        Some(s) => s,
        None => {
            return None;
        },
    };
    let mut positions: Vec<usize> = Vec::new();
    let mut i: usize = 0;
    let mut done: usize = 0;
    let mut joined: bool = false;
    let ghost whole = best_path(q@, t@, 0, false);
    assert(whole =~= positions@ + whole);
    while i < m && done < n
        invariant
            n == q@.len(),
            m == t@.len(),
            i <= m,
            done <= n,
            rows@.len() == n + 1,
            forall|j: int|
                0 <= j <= n ==> (#[trigger] rows@[j]).tell(q@.skip(n - j), t@, t@.len() as int + 1),
            whole == positions@ + best_path(q@.skip(done as int), t@, i as int, joined),
        decreases m - i,
    {
        let ghost tail = q@.skip(done as int);
        assert(tail.drop_first() =~= q@.skip(done + 1));
        assert(rows@[n - done - 1].tell(q@.skip(done + 1), t@, t@.len() as int + 1));
        assert(rows@[n - done].tell(tail, t@, t@.len() as int + 1));
        let after: Option<u128> = rows[n - done - 1].joined[m - 1 - i];
        let skip: Option<u128> = rows[n - done].apart[m - 1 - i];
        assert(tells(after, top(tail.drop_first(), t@, i + 1, true)));
        assert(tells(skip, top(tail, t@, i + 1, false)));
        let take: Option<u128> = taken(q[done], &t, i, joined, after, Ghost(tail));
        let ghost had = positions@;
        if preferred(take, skip) {
            assert(takes(tail, t@, i as int, joined));
            positions.push(i);
            assert(whole =~= positions@ + best_path(q@.skip(done + 1), t@, i + 1, true));
            done += 1;
            joined = true;
        } else {
            assert(!takes(tail, t@, i as int, joined));
            joined = false;
        }
        i += 1;
    }
    assert(best_path(q@.skip(done as int), t@, i as int, joined) =~= Seq::empty());
    assert(positions@ =~= whole);
    Some(FuzzyMatch { score, positions })
}

/// Whether one ranked result comes before another: by score, then as given.
pub open spec fn ranks_before(a: (usize, FuzzyMatch), b: (usize, FuzzyMatch)) -> bool {
    a.1.score > b.1.score || (a.1.score == b.1.score && a.0 < b.0)
}

/// Whether `r` ranks the first `n` keys: what does not match is left out, the
/// best comes first, and equals stay as given.
pub open spec fn ranking(
    query: Seq<char>,
    keys: Seq<Seq<char>>,
    n: int,
    r: Seq<(usize, FuzzyMatch)>,
) -> bool {
    &&& forall|k: int|
        0 <= k < r.len() ==> (#[trigger] r[k]).0 < n && fuzzy_result(
            query,
            keys[r[k].0 as int],
            Some(r[k].1),
        )
    &&& forall|j: int, k: int|
        0 <= j < k < r.len() ==> ranks_before(#[trigger] r[j], #[trigger] r[k])
    &&& forall|i: int|
        0 <= i < n && top(query, #[trigger] keys[i], 0, false) is Some ==> ranked(r, i)
}

/// Whether a key is among ranked results.
pub open spec fn ranked(r: Seq<(usize, FuzzyMatch)>, i: int) -> bool {
    exists|k: int| 0 <= k < r.len() && (#[trigger] r[k]).0 == i
}

/// What keys spell.
pub open spec fn texts(keys: Seq<&str>) -> Seq<Seq<char>> {
    keys.map_values(|k: &str| k@)
}

/// Ranks keys by how they match a query.
pub fn rank(query: &str, keys: &[&str]) -> (r: Vec<(usize, FuzzyMatch)>)
    ensures
        ranking(query@, texts(keys@), keys@.len() as int, r@),
{
    let mut r: Vec<(usize, FuzzyMatch)> = Vec::new();
    let n: usize = keys.len();
    let mut i: usize = 0;
    while i < n
        invariant
            i <= n == keys@.len(),
            ranking(query@, texts(keys@), i as int, r@),
        decreases n - i,
    {
        let ghost before = r@;
        match fuzzy_match(query, keys[i]) {
            Some(m) => {
                let mut at: usize = r.len();
                while at > 0 && r[at - 1].1.score < m.score
                    invariant
                        at <= r@.len(),
                        r@ == before,
                        forall|k: int| at <= k < r@.len() ==> (#[trigger] r@[k]).1.score < m.score,
                    decreases at,
                {
                    at -= 1;
                }
                let ghost new = (i, m);
                r.insert(at, (i, m));
                proof {
                    lemma_ranking_insert(
                        query@,
                        texts(keys@),
                        i as int,
                        before,
                        at as int,
                        new,
                    );
                    assert(r@ =~= before.insert(at as int, new));
                }
            },
            None => {
                assert forall|k: int|
                    0 <= k < i + 1 && top(query@, #[trigger] texts(keys@)[k], 0, false) is Some implies ranked(
                    r@,
                    k,
                ) by {}
            },
        }
        i += 1;
    }
    r
}

proof fn lemma_ranking_insert(
    query: Seq<char>,
    keys: Seq<Seq<char>>,
    n: int,
    r: Seq<(usize, FuzzyMatch)>,
    at: int,
    new: (usize, FuzzyMatch),
)
    requires
        0 <= n < keys.len(),
        ranking(query, keys, n, r),
        0 <= at <= r.len(),
        new.0 == n,
        fuzzy_result(query, keys[n], Some(new.1)),
        at > 0 ==> r[at - 1].1.score >= new.1.score,
        forall|k: int| at <= k < r.len() ==> (#[trigger] r[k]).1.score < new.1.score,
    ensures
        ranking(query, keys, n + 1, r.insert(at, new)),
{
    let s = r.insert(at, new);
    assert forall|k: int| 0 <= k < s.len() implies (#[trigger] s[k]).0 < n + 1 && fuzzy_result(
        query,
        keys[s[k].0 as int],
        Some(s[k].1),
    ) by {
        if k < at {
            assert(s[k] == r[k]);
        } else if k > at {
            assert(s[k] == r[k - 1]);
        }
    }
    assert forall|j: int, k: int| 0 <= j < k < s.len() implies ranks_before(
        #[trigger] s[j],
        #[trigger] s[k],
    ) by {
        if j < at {
            assert(s[j] == r[j]);
            if at > 0 && j < at - 1 {
                assert(ranks_before(r[j], r[at - 1]));
            }
        }
        if j > at {
            assert(s[j] == r[j - 1]);
        }
        if k < at {
            assert(s[k] == r[k]);
        }
        if k > at {
            assert(s[k] == r[k - 1]);
        }
    }
    assert forall|i: int|
        0 <= i < n + 1 && top(query, #[trigger] keys[i], 0, false) is Some implies ranked(s, i) by {
        if i == n {
            assert(s[at].0 == i);
        } else {
            assert(ranked(r, i));
            let k = choose|k: int| 0 <= k < r.len() && (#[trigger] r[k]).0 == i;
            if k < at {
                assert(s[k] == r[k]);
            } else {
                assert(s[k + 1] == r[k]);
            }
        }
    }
}

/// An empty query leaves everything in, as given.
pub proof fn law_an_empty_query_keeps_everything(
    keys: Seq<Seq<char>>,
    r: Seq<(usize, FuzzyMatch)>,
)
    requires
        ranking(Seq::empty(), keys, keys.len() as int, r),
    ensures
        r.len() == keys.len(),
        forall|k: int| 0 <= k < r.len() ==> (#[trigger] r[k]).0 == k && r[k].1.positions@.len() == 0,
{
    let n = keys.len() as int;
    lemma_kept_in_place(keys, r, r.len() as int);
    if r.len() < n {
        let i = r.len() as int;
        assert(top(Seq::empty(), keys[i], 0, false) is Some);
        assert(ranked(r, i));
        let k = choose|k: int| 0 <= k < r.len() && (#[trigger] r[k]).0 == i;
        assert(r[k].0 == k);
    }
    if r.len() > n {
        assert(r[n].0 == n);
    }
}

proof fn lemma_kept_in_place(keys: Seq<Seq<char>>, r: Seq<(usize, FuzzyMatch)>, n: int)
    requires
        0 <= n <= r.len(),
        ranking(Seq::empty(), keys, keys.len() as int, r),
    ensures
        forall|k: int| 0 <= k < n ==> (#[trigger] r[k]).0 == k && r[k].1.positions@.len() == 0,
    decreases n,
{
    if n > 0 {
        lemma_kept_in_place(keys, r, n - 1);
        let k = n - 1;
        assert(fuzzy_result(Seq::empty(), keys[r[k].0 as int], Some(r[k].1)));
        if k > 0 {
            assert(ranks_before(r[k - 1], r[k]));
            assert(fuzzy_result(Seq::empty(), keys[r[k - 1].0 as int], Some(r[k - 1].1)));
        }
        if r[k].0 != k {
            assert(r[k].0 > k);
            assert(top(Seq::empty(), keys[k], 0, false) is Some);
            assert(ranked(r, k));
            let j = choose|j: int| 0 <= j < r.len() && (#[trigger] r[j]).0 == k;
            if j < k {
                assert(r[j].0 == j);
            } else if j > k {
                assert(ranks_before(r[k], r[j]));
                assert(fuzzy_result(Seq::empty(), keys[r[j].0 as int], Some(r[j].1)));
            }
            assert(false);
        }
    }
}

/// Whether each character of a text is compared as one.
pub open spec fn one_to_one(text: Seq<char>, sensitive: bool) -> bool {
    sensitive || forall|i: int| 0 <= i < text.len() ==> lower_case(#[trigger] text[i]).len() == 1
}

proof fn lemma_one_to_one(text: Seq<char>, sensitive: bool)
    requires
        one_to_one(text, sensitive),
        text.len() <= 65535,
    ensures
        cased(text, sensitive).len() == text.len(),
        owners(text, sensitive).len() == text.len(),
        forall|i: int|
            0 <= i < text.len() ==> seq![#[trigger] cased(text, sensitive)[i]] == letters(
                text[i],
                sensitive,
            ),
        forall|i: int| 0 <= i < text.len() ==> #[trigger] owners(text, sensitive)[i] == i,
    decreases text.len(),
{
    if text.len() > 0 {
        let rest = text.drop_last();
        assert forall|i: int| 0 <= i < rest.len() implies rest[i] == text[i] by {}
        if !sensitive {
            assert forall|i: int| 0 <= i < rest.len() implies lower_case(#[trigger] rest[i]).len()
                == 1 by {
                assert(rest[i] == text[i]);
            }
            assert(lower_case(text[text.len() - 1]).len() == 1);
        }
        lemma_one_to_one(rest, sensitive);
        let last = letters(text.last(), sensitive);
        assert(last.len() == 1);
        assert forall|i: int| 0 <= i < text.len() implies seq![#[trigger] cased(text, sensitive)[i]]
            == letters(text[i], sensitive) by {
            if i < rest.len() {
                assert(cased(text, sensitive)[i] == cased(rest, sensitive)[i]);
            } else {
                assert(seq![last[0]] =~= last);
            }
        }
        assert forall|i: int| 0 <= i < text.len() implies #[trigger] owners(text, sensitive)[i]
            == i by {
            if i < rest.len() {
                assert(owners(text, sensitive)[i] == owners(rest, sensitive)[i]);
            }
        }
    }
}

proof fn lemma_line_match(query: Seq<char>, line: i32, text: Seq<char>, sensitive: bool, k: int)
    requires
        sensitive == smart_case_of(query),
        0 < query.len() <= 65535,
        text.len() <= 65535,
        one_to_one(query, sensitive),
        one_to_one(text, sensitive),
        0 <= k < line_matches(query, line, text).len(),
    ensures
        ({
            let m = line_matches(query, line, text)[k];
            &&& m.line == line
            &&& m.end - m.start == query.len()
            &&& m.end <= text.len()
            &&& m.start == places(cased(text, sensitive), cased(query, sensitive), 0)[k]
            &&& forall|i: int|
                0 <= i < query.len() ==> letters(#[trigger] text[m.start + i], sensitive)
                    == letters(query[i], sensitive)
        }),
{
    lemma_one_to_one(query, sensitive);
    lemma_one_to_one(text, sensitive);
    let hay = cased(text, sensitive);
    let needle = cased(query, sensitive);
    let all = places(hay, needle, 0);
    law_places_are_disjoint_and_miss_nothing(hay, needle, 0);
    let at = all[k];
    assert(occurs(hay, needle, at));
    let m = line_matches(query, line, text)[k];
    let from = owners(text, sensitive);
    assert(m == match_at(line, from, needle.len(), at));
    assert(from[at] == at);
    assert(from[at + needle.len() - 1] == at + needle.len() - 1);
    assert forall|i: int| 0 <= i < query.len() implies letters(
        #[trigger] text[m.start + i],
        sensitive,
    ) == letters(query[i], sensitive) by {
        assert(hay.subrange(at, at + needle.len())[i] == needle[i]);
        assert(hay[at + i] == needle[i]);
        assert(seq![hay[at + i]] == letters(text[at + i], sensitive));
        assert(seq![needle[i]] == letters(query[i], sensitive));
    }
}

/// Where any character of the query is a capital, wherever it stands, every match
/// holds exactly the characters of the query, in number, in order and in case.
pub proof fn law_capitals_are_matched_exactly(
    query: Seq<char>,
    line: i32,
    text: Seq<char>,
    q: int,
    k: int,
)
    requires
        0 <= q < query.len() <= 65535,
        uppercase(query[q]),
        text.len() <= 65535,
        0 <= k < line_matches(query, line, text).len(),
    ensures
        ({
            let m = line_matches(query, line, text)[k];
            &&& m.line == line
            &&& m.end - m.start == query.len()
            &&& m.end <= text.len()
            &&& text.subrange(m.start as int, m.end as int) == query
        }),
{
    lemma_line_match(query, line, text, true, k);
    let m = line_matches(query, line, text)[k];
    assert forall|i: int| 0 <= i < query.len() implies text.subrange(
        m.start as int,
        m.end as int,
    )[i] == query[i] by {
        assert(text.subrange(m.start as int, m.end as int)[i] == text[m.start + i]);
        assert(letters(text[m.start + i], true)[0] == letters(query[i], true)[0]);
    }
    assert(text.subrange(m.start as int, m.end as int) =~= query);
}

/// Where no character of the query is a capital, every match holds characters
/// that are those of the query once both are made small, in number and in order.
pub proof fn law_small_letters_match_capitals_too(
    query: Seq<char>,
    line: i32,
    text: Seq<char>,
    k: int,
)
    requires
        0 < query.len() <= 65535,
        forall|i: int| 0 <= i < query.len() ==> !uppercase(#[trigger] query[i]),
        forall|i: int| 0 <= i < query.len() ==> lower_case(#[trigger] query[i]).len() == 1,
        forall|i: int| 0 <= i < text.len() ==> lower_case(#[trigger] text[i]).len() == 1,
        text.len() <= 65535,
        0 <= k < line_matches(query, line, text).len(),
    ensures
        ({
            let m = line_matches(query, line, text)[k];
            &&& m.line == line
            &&& m.end - m.start == query.len()
            &&& m.end <= text.len()
            &&& forall|i: int|
                0 <= i < query.len() ==> lower_case(#[trigger] text[m.start + i]) == lower_case(
                    query[i],
                )
        }),
{
    lemma_line_match(query, line, text, false, k);
    let m = line_matches(query, line, text)[k];
    assert forall|i: int| 0 <= i < query.len() implies lower_case(#[trigger] text[m.start + i])
        == lower_case(query[i]) by {
        assert(letters(text[m.start + i], false) == letters(query[i], false));
    }
}

/// Wherever the query stands in a line, letter by letter or, without capitals in
/// it, up to case, some match covers that place or part of it. Matches of a line
/// do not overlap and go from left to right.
#[verifier::spinoff_prover]
#[verifier::rlimit(60)]
pub proof fn law_no_occurrence_is_missed(query: Seq<char>, line: i32, text: Seq<char>, at: int)
    requires
        0 < query.len() <= 65535,
        text.len() <= 65535,
        0 <= at <= text.len() - query.len(),
        text.subrange(at, at + query.len()) == query || {
            &&& forall|i: int| 0 <= i < query.len() ==> !uppercase(#[trigger] query[i])
            &&& forall|i: int|
                0 <= i < query.len() ==> lower_case(#[trigger] text[at + i]) == lower_case(query[i])
        },
        (exists|i: int| 0 <= i < query.len() && uppercase(#[trigger] query[i])) || {
            &&& forall|i: int| 0 <= i < query.len() ==> lower_case(#[trigger] query[i]).len() == 1
            &&& forall|i: int| 0 <= i < text.len() ==> lower_case(#[trigger] text[i]).len() == 1
        },
    ensures
        exists|k: int|
            0 <= k < line_matches(query, line, text).len() && (#[trigger] line_matches(
                query,
                line,
                text,
            )[k]).start <= at < line_matches(query, line, text)[k].end,
        forall|j: int, k: int|
            0 <= j < k < line_matches(query, line, text).len() ==> (#[trigger] line_matches(
                query,
                line,
                text,
            )[j]).end <= (#[trigger] line_matches(query, line, text)[k]).start,
{
    let sensitive = smart_case_of(query);
    assert(one_to_one(query, sensitive));
    assert(one_to_one(text, sensitive));
    lemma_one_to_one(query, sensitive);
    lemma_one_to_one(text, sensitive);
    let hay = cased(text, sensitive);
    let needle = cased(query, sensitive);
    let all = places(hay, needle, 0);
    law_places_are_disjoint_and_miss_nothing(hay, needle, 0);
    assert forall|i: int| 0 <= i < query.len() implies hay.subrange(at, at + needle.len())[i]
        == needle[i] by {
        assert(hay.subrange(at, at + needle.len())[i] == hay[at + i]);
        if text.subrange(at, at + query.len()) == query {
            assert(text.subrange(at, at + query.len())[i] == text[at + i]);
        }
        assert(letters(text[at + i], sensitive) == letters(query[i], sensitive));
        assert(seq![hay[at + i]] == letters(text[at + i], sensitive));
        assert(seq![needle[i]] == letters(query[i], sensitive));
        assert(seq![hay[at + i]][0] == seq![needle[i]][0]);
    }
    assert(hay.subrange(at, at + needle.len()) =~= needle);
    assert(occurs(hay, needle, at));
    assert(touched(all, needle, at));
    let k = choose|k: int| 0 <= k < all.len() && (#[trigger] all[k]) <= at < all[k] + needle.len();
    let found = line_matches(query, line, text);
    assert(found.len() == all.len());
    lemma_line_match(query, line, text, sensitive, k);
    assert(found[k].start <= at < found[k].end);
    assert forall|j: int, k: int| 0 <= j < k < found.len() implies (#[trigger] found[j]).end <= (
    #[trigger] found[k]).start by {
        lemma_line_match(query, line, text, sensitive, j);
        lemma_line_match(query, line, text, sensitive, k);
        assert(all[j] + needle.len() <= all[k]);
    }
}

/// Every line is searched: what is found in a line is found, and nothing is found
/// that is not in a line.
pub proof fn law_every_line_is_searched(query: Seq<char>, lines: Seq<(i32, &str)>, n: int, m: Match)
    requires
        0 <= n <= lines.len(),
    ensures
        found(query, lines, n).contains(m) <==> exists|i: int|
            0 <= i < n && line_matches(query, (#[trigger] lines[i]).0, lines[i].1@).contains(m),
    decreases n,
{
    if n > 0 {
        law_every_line_is_searched(query, lines, n - 1, m);
        let before = found(query, lines, n - 1);
        let last = line_matches(query, lines[n - 1].0, lines[n - 1].1@);
        let all = found(query, lines, n);
        assert(all =~= before + last);
        if all.contains(m) {
            let k = choose|k: int| 0 <= k < all.len() && all[k] == m;
            if k < before.len() {
                assert(before[k] == m);
                assert(before.contains(m));
            } else {
                assert(last[k - before.len()] == m);
                assert(last.contains(m));
                assert(line_matches(query, lines[n - 1].0, lines[n - 1].1@).contains(m));
            }
        }
        if exists|i: int|
            0 <= i < n && line_matches(query, (#[trigger] lines[i]).0, lines[i].1@).contains(m) {
            let i = choose|i: int|
                0 <= i < n && line_matches(query, (#[trigger] lines[i]).0, lines[i].1@).contains(m);
            if i < n - 1 {
                assert(before.contains(m));
                let k = choose|k: int| 0 <= k < before.len() && before[k] == m;
                assert(all[k] == m);
            } else {
                let k = choose|k: int| 0 <= k < last.len() && last[k] == m;
                assert(all[before.len() + k] == m);
            }
        }
    }
}

/// Matches in order go down the lines, and within a line from left to right.
pub proof fn law_matches_go_down_the_lines(m: Seq<Match>, i: int, j: int)
    requires
        ordered(m),
        0 <= i < j < m.len(),
    ensures
        m[i].line <= m[j].line,
        m[i].line == m[j].line ==> m[i].start <= m[j].start,
{
}

/// Going on goes to the match behind the current one, and from the last to the
/// first; going back goes to the one before, and from the first to the last.
pub proof fn law_going_on_goes_forward(s: SearchView)
    requires
        s.wf(),
        s.matches.len() > 0,
    ensures
        s.current + 1 < s.matches.len() ==> s.advanced().current == s.current + 1,
        s.current + 1 == s.matches.len() ==> s.advanced().current == 0,
        s.current > 0 ==> s.retreated().current == s.current - 1,
        s.current == 0 ==> s.retreated().current == s.matches.len() - 1,
        s.advanced().matches == s.matches,
        s.retreated().matches == s.matches,
        s.current_match() == Some(s.matches[s.current]),
{
}

/// No match is nearer to the line that one looks at than the one that is chosen.
pub proof fn law_the_nearest_match_is_chosen(m: Seq<Match>, line: i32, at: int, k: int)
    requires
        nearest_to(m, line, at),
        0 <= k < m.len(),
    ensures
        m[k].line == line ==> m[at].line == line,
        m[k].line <= line <= m[at].line ==> m[at].line - line <= line - m[k].line,
        m[at].line <= line <= m[k].line ==> line - m[at].line <= m[k].line - line,
        line <= m[k].line && line <= m[at].line ==> m[at].line <= m[k].line,
        m[k].line <= line && m[at].line <= line ==> m[k].line <= m[at].line,
        m[k].line == m[at].line ==> at <= k,
{
}

/// What is found of a fuzzy query stands in the text in the query's order, letter
/// by letter up to the case of ASCII letters, and a text that has the query's
/// letters in order is always found.
pub proof fn law_a_fuzzy_match_spells_the_query(
    query: &str,
    text: &str,
    m: Option<FuzzyMatch>,
    at: Seq<usize>,
)
    requires
        text@.len() <= usize::MAX,
        call_ensures(fuzzy_match, (query, text), m),
    ensures
        m matches Some(f) ==> {
            &&& f.positions@.len() == query@.len()
            &&& forall|k: int|
                0 <= k < query@.len() ==> (#[trigger] f.positions@[k]) < text@.len() && folded_char(
                    text@[f.positions@[k] as int],
                ) == folded_char(query@[k])
            &&& forall|j: int, k: int|
                0 <= j < k < query@.len() ==> (#[trigger] f.positions@[j])
                    < #[trigger] f.positions@[k]
        },
        aligned(query@, text@, 0, at) ==> m is Some && worth(text@, at, 0, false) <= m->0.score,
{
    if m is Some {
        law_best_path_scores_the_top(query@, text@, 0, false);
        let f = m->0;
        assert(aligned(query@, text@, 0, f.positions@));
    }
    if aligned(query@, text@, 0, at) {
        law_no_alignment_scores_more(query@, text@, 0, false, at);
    }
}

/// A letter counts more at the start of a word than next to the one before, more
/// there than alone, and most where it is both.
pub proof fn law_word_starts_count_most(text: Seq<char>, i: int, j: int)
    requires
        0 <= i < text.len(),
        0 <= j < text.len(),
        i == 0 || text[i - 1] == ' ' || text[i - 1] == '.' || text[i - 1] == '-' || text[i - 1]
            == '_',
        j > 0,
        text[j - 1] != ' ' && text[j - 1] != '.' && text[j - 1] != '-' && text[j - 1] != '_',
    ensures
        gain(text, j, false) > 0,
        gain(text, j, true) > gain(text, j, false),
        gain(text, i, false) > gain(text, j, true),
        gain(text, i, true) > gain(text, i, false),
        gain(text, i, true) - gain(text, i, false) == gain(text, j, true) - gain(text, j, false),
{
}

/// The ranking goes from the best score down, texts that match alike stay as they
/// were given, and every text that matches is in it once.
pub proof fn law_the_best_comes_first(
    query: Seq<char>,
    keys: Seq<Seq<char>>,
    r: Seq<(usize, FuzzyMatch)>,
    j: int,
    k: int,
)
    requires
        ranking(query, keys, keys.len() as int, r),
        0 <= j < k < r.len(),
    ensures
        r[j].1.score >= r[k].1.score,
        r[j].1.score == r[k].1.score ==> r[j].0 < r[k].0,
        r[j].0 != r[k].0,
{
    assert(ranks_before(r[j], r[k]));
    assert(fuzzy_result(query, keys[r[j].0 as int], Some(r[j].1)));
    assert(fuzzy_result(query, keys[r[k].0 as int], Some(r[k].1)));
}

/// Whether one way to match is the same as another, or earlier where they first
/// differ.
pub open spec fn no_later(a: Seq<usize>, b: Seq<usize>) -> bool
    decreases a.len(),
{
    a.len() == 0 || b.len() == 0 || a[0] < b[0] || (a[0] == b[0] && no_later(
        a.drop_first(),
        b.drop_first(),
    ))
}

/// Of the ways to match that are worth the most, the earliest is chosen.
pub proof fn law_the_earliest_of_the_best_is_chosen(
    query: Seq<char>,
    text: Seq<char>,
    from: int,
    joined: bool,
    at: Seq<usize>,
)
    requires
        0 <= from <= text.len() <= usize::MAX,
        aligned(query, text, from, at),
        top(query, text, from, joined) == Some(worth(text, at, from, joined)),
    ensures
        no_later(best_path(query, text, from, joined), at),
    decreases text.len() - from,
{
    if query.len() > 0 {
        assert(at[0] >= from);
        assert(from < text.len());
        let rest = at.drop_first();
        let best = best_path(query, text, from, joined);
        if at[0] == from {
            assert forall|k: int| 0 <= k < rest.len() implies from + 1 <= (#[trigger] rest[k])
                < text.len() && same_letter(text[rest[k] as int], query.drop_first()[k]) by {
                assert(rest[k] == at[k + 1]);
                assert(at[0] < at[k + 1]);
            }
            assert(aligned(query.drop_first(), text, from + 1, rest));
            law_no_alignment_scores_more(query.drop_first(), text, from + 1, true, rest);
            assert(takes(query, text, from, joined));
            law_the_earliest_of_the_best_is_chosen(
                query.drop_first(),
                text,
                from + 1,
                true,
                rest,
            );
            assert(best.drop_first() =~= best_path(query.drop_first(), text, from + 1, true));
        } else {
            assert forall|k: int| 0 <= k < at.len() implies from + 1 <= (#[trigger] at[k]) by {
                if k > 0 {
                    assert(at[0] < at[k]);
                }
            }
            assert(aligned(query, text, from + 1, at));
            law_no_alignment_scores_more(query, text, from + 1, false, at);
            if takes(query, text, from, joined) {
                assert(best[0] == from);
            } else {
                law_the_earliest_of_the_best_is_chosen(query, text, from + 1, false, at);
            }
        }
    }
}

} // verus!
