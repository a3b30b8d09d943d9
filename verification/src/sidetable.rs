//! Per-cell extras that almost no cell has.
//!
//! Every table here starts without an allocation and grows on first use, so
//! plain text costs nothing.

use vstd::prelude::*;
use vstd::utf8::*;

use crate::cell::{Color, CLUSTER_TAG, NO_EXTRA};

verus! {

/// `Vec::capacity`: how many elements fit before the vector reallocates, which
/// is at least as many as it holds. How many more is the allocator's business.
#[verifier::external_body]
fn vec_capacity<T>(v: &Vec<T>) -> (n: usize)
    ensures
        n >= v@.len(),
{
    v.capacity()
}

/// `String::capacity`: how many bytes fit before the string reallocates, which
/// is at least as many as it holds. How many more is the allocator's business.
#[verifier::external_body]
fn string_capacity(s: &String) -> (n: usize)
    ensures
        n >= encode_utf8(s@).len(),
{
    s.capacity()
}

/// A count of bytes, held at the largest `usize` where it does not fit.
pub open spec fn capped(bytes: int) -> usize {
    if bytes > usize::MAX {
        usize::MAX
    } else {
        bytes as usize
    }
}

/// The bytes of that many slots.
pub open spec fn slot_bytes(slots: usize, size: nat) -> usize {
    capped(slots * size)
}

/// Whether that many bytes are slots of that size, with room for so many at
/// least. How many more there are is the allocator's business.
pub open spec fn holds_slots(bytes: usize, least: nat, size: nat) -> bool {
    exists|slots: usize| least <= slots && bytes == #[trigger] slot_bytes(slots, size)
}

/// The sum of some counts.
pub open spec fn sum(counts: Seq<usize>) -> int
    decreases counts.len(),
{
    if counts.len() == 0 {
        0
    } else {
        sum(counts.drop_last()) + counts.last()
    }
}

/// Whether there is a slot for every text, and every text has room for its
/// bytes.
pub open spec fn has_room(texts: Seq<Seq<char>>, slots: usize, rooms: Seq<usize>) -> bool {
    &&& texts.len() <= slots
    &&& rooms.len() == texts.len()
    &&& forall|i: int| 0 <= i < texts.len() ==> encode_utf8(texts[i]).len() <= #[trigger] rooms[i]
}

/// Whether that many bytes are a slot for each of some texts and room for what
/// they spell. How much more there is is the allocator's business.
pub open spec fn holds_texts(bytes: usize, texts: Seq<Seq<char>>) -> bool {
    exists|slots: usize, rooms: Seq<usize>| #[trigger]
        has_room(texts, slots, rooms) && bytes == capped(
            slots * vstd::layout::size_of::<String>() + sum(rooms),
        )
}

/// `n * size`, held at the largest `usize` where it does not fit.
fn bytes_for(n: usize, size: usize) -> (total: usize)
    ensures
        total == slot_bytes(n, size as nat),
{
    match n.checked_mul(size) {
        Some(total) => total,
        None => usize::MAX,
    }
}

/// Texts, each stored once, by the order in which they were first seen.
#[derive(Debug)]
struct TextTable {
    entries: Option<Vec<String>>,
}

/// The views of a run of strings.
pub open spec fn texts(entries: Seq<String>) -> Seq<Seq<char>> {
    entries.map_values(|s: String| s@)
}

impl TextTable {
    spec fn texts(self) -> Seq<Seq<char>> {
        match self.entries {
            Some(v) => texts(v@),
            None => Seq::empty(),
        }
    }

    fn new() -> (t: TextTable)
        ensures
            t.texts() == Seq::<Seq<char>>::empty(),
            t.entries is None,
    {
        TextTable { entries: None }
    }

    fn lookup(&self, text: &str) -> (id: Option<usize>)
        ensures
            match id {
                Some(i) => i < self.texts().len() && self.texts()[i as int] == text@ && forall|j: int|
                    0 <= j < i ==> self.texts()[j] != text@,
                None => !self.texts().contains(text@),
            },
    {
        match &self.entries {
            None => None,
            Some(v) => {
                let key = text.to_owned();
                let mut i: usize = 0;
                while i < v.len()
                    invariant
                        i <= v.len(),
                        self.texts() == texts(v@),
                        key@ == text@,
                        forall|j: int| 0 <= j < i ==> self.texts()[j] != text@,
                    decreases v.len() - i,
                {
                    if v[i] == key {
                        return Some(i);
                    }
                    i += 1;
                }
                None
            },
        }
    }

    fn intern(&mut self, text: &str) -> (id: usize)
        requires
            old(self).texts().len() < usize::MAX,
        ensures
            final(self).texts() == interned(old(self).texts(), text@),
            id < final(self).texts().len(),
            final(self).texts()[id as int] == text@,
            forall|j: int| 0 <= j < id ==> final(self).texts()[j] != text@,
            final(self).entries is Some,
    {
        if let Some(i) = self.lookup(text) {
            assert(self.texts().contains(text@));
            return i;
        }
        let mut v = match self.entries.take() {
            Some(v) => v,
            None => Vec::new(),
        };
        let id: usize = v.len();
        let ghost before = old(self).texts();
        assert(texts(v@) =~= before);
        v.push(text.to_owned());
        assert(texts(v@) =~= before.push(text@));
        assert forall|j: int| 0 <= j < id implies before.push(text@)[j] != text@ by {
            assert(before.push(text@)[j] == before[j]);
            assert(before.contains(before[j]));
        }
        self.entries = Some(v);
        id
    }

    fn get(&self, id: usize) -> (text: Option<&str>)
        ensures
            match text {
                Some(s) => id < self.texts().len() && s@ == self.texts()[id as int],
                None => id >= self.texts().len(),
            },
    {
        match &self.entries {
            None => None,
            Some(v) => if id < v.len() {
                Some(v[id].as_str())
            } else {
                None
            },
        }
    }

    fn len(&self) -> (n: usize)
        ensures
            n == self.texts().len(),
    {
        match &self.entries {
            None => 0,
            Some(v) => v.len(),
        }
    }

    fn allocated_bytes(&self) -> (n: usize)
        ensures
            self.entries is None ==> n == 0,
            holds_texts(n, self.texts()),
    {
        let ghost size = vstd::layout::size_of::<String>();
        match &self.entries {
            None => {
                let ghost none: Seq<usize> = Seq::empty();
                assert(has_room(self.texts(), 0, none));
                assert(0 * size == 0) by (nonlinear_arith);
                0
            },
            Some(v) => {
                let slots: usize = vec_capacity(v);
                let ghost mut rooms: Seq<usize> = Seq::empty();
                let mut total: usize = bytes_for(slots, core::mem::size_of::<String>());
                let mut i: usize = 0;
                while i < v.len()
                    invariant
                        i <= v@.len() <= slots,
                        self.texts() == texts(v@),
                        rooms.len() == i,
                        forall|k: int|
                            0 <= k < i ==> encode_utf8(self.texts()[k]).len() <= #[trigger] rooms[k],
                        total == capped(slots * size + sum(rooms)),
                        0 <= slots * size,
                        0 <= sum(rooms),
                    decreases v.len() - i,
                {
                    let room: usize = string_capacity(&v[i]);
                    let ghost before = rooms;
                    total = total.saturating_add(room);
                    proof {
                        rooms = before.push(room);
                        assert(rooms.drop_last() =~= before);
                        assert(self.texts()[i as int] == v@[i as int]@);
                    }
                    i += 1;
                }
                assert(has_room(self.texts(), slots, rooms));
                total
            },
        }
    }

    fn clear(&mut self)
        ensures
            final(self).texts() == Seq::<Seq<char>>::empty(),
            old(self).entries is None ==> final(self).entries is None,
    {
        match self.entries.take() {
            Some(mut v) => {
                v.clear();
                self.entries = Some(v);
                assert(self.texts() =~= Seq::empty());
            },
            None => {},
        }
    }
}

/// A table after `text` was interned: the same where it was already there, one
/// entry longer where it was not.
pub open spec fn interned<T>(table: Seq<T>, text: T) -> Seq<T> {
    if table.contains(text) {
        table
    } else {
        table.push(text)
    }
}

/// Interning twice changes nothing the second time, and whatever was in the
/// table keeps its place.
pub proof fn law_interning_is_stable<T>(table: Seq<T>, a: T, b: T)
    ensures
        interned(interned(table, a), a) == interned(table, a),
        interned(table, a).contains(a),
        forall|i: int| 0 <= i < table.len() ==> #[trigger] interned(table, a)[i] == table[i],
        table.no_duplicates() ==> interned(table, a).no_duplicates(),
        interned(table, a).contains(b) <==> table.contains(b) || a == b,
{
    if !table.contains(a) {
        let t = table.push(a);
        assert(t[table.len() as int] == a);
        assert forall|x: T| t.contains(x) <==> table.contains(x) || x == a by {
            if table.contains(x) {
                let i = choose|i: int| 0 <= i < table.len() && table[i] == x;
                assert(t[i] == x);
            }
            if t.contains(x) && x != a {
                let i = choose|i: int| 0 <= i < t.len() && t[i] == x;
                assert(table[i] == x);
            }
        }
        if table.no_duplicates() {
            assert forall|i: int, j: int|
                0 <= i < t.len() && 0 <= j < t.len() && i != j implies t[i] != t[j] by {
                if i == table.len() {
                    assert(table.contains(table[j]));
                } else if j == table.len() {
                    assert(table.contains(table[i]));
                }
            }
        }
    }
}

/// Interned grapheme clusters: anything that does not fit in one `char`. Each
/// still occupies exactly one cell.
#[derive(Debug)]
pub struct Graphemes {
    table: TextTable,
}

impl View for Graphemes {
    type V = Seq<Seq<char>>;

    closed spec fn view(&self) -> Seq<Seq<char>> {
        self.table.texts()
    }
}

impl Graphemes {
    /// Whether nothing was ever interned, so that nothing was allocated.
    pub closed spec fn untouched(self) -> bool {
        self.table.entries is None
    }

    pub fn new() -> (g: Graphemes)
        ensures
            g@ == Seq::<Seq<char>>::empty(),
            g.untouched(),
    {
        Graphemes { table: TextTable::new() }
    }

    /// Interns a cluster and returns its id.
    pub fn intern(&mut self, cluster: &str) -> (id: u32)
        requires
            old(self)@.len() < CLUSTER_TAG,
        ensures
            final(self)@ == interned(old(self)@, cluster@),
            id < final(self)@.len() <= CLUSTER_TAG,
            final(self)@[id as int] == cluster@,
            forall|j: int| 0 <= j < id ==> final(self)@[j] != cluster@,
    {
        self.table.intern(cluster) as u32
    }

    /// The id of a cluster that is already in the table.
    pub fn lookup(&self, cluster: &str) -> (id: Option<u32>)
        requires
            self@.len() <= CLUSTER_TAG,
        ensures
            match id {
                Some(i) => i < self@.len() && self@[i as int] == cluster@ && forall|j: int|
                    0 <= j < i ==> self@[j] != cluster@,
                None => !self@.contains(cluster@),
            },
    {
        match self.table.lookup(cluster) {
            Some(i) => Some(i as u32),
            None => None,
        }
    }

    pub fn get(&self, id: u32) -> (cluster: Option<&str>)
        ensures
            match cluster {
                Some(s) => id < self@.len() && s@ == self@[id as int],
                None => id >= self@.len(),
            },
    {
        self.table.get(id as usize)
    }

    pub fn is_empty(&self) -> (yes: bool)
        ensures
            yes == (self@.len() == 0),
    {
        self.table.len() == 0
    }

    pub fn len(&self) -> (n: usize)
        ensures
            n == self@.len(),
    {
        self.table.len()
    }

    /// Bytes actually allocated: none until a cluster is interned, and from then
    /// on room for every cluster at least.
    pub fn allocated_bytes(&self) -> (n: usize)
        ensures
            self.untouched() ==> n == 0,
            holds_texts(n, self@),
    {
        self.table.allocated_bytes()
    }

    pub fn clear(&mut self)
        ensures
            final(self)@ == Seq::<Seq<char>>::empty(),
            old(self).untouched() ==> final(self).untouched(),
    {
        self.table.clear()
    }
}

/// Everything a cell may carry that almost no cell does.
#[derive(Debug, Clone, Copy, PartialEq, Eq)]
pub struct Extras {
    pub underline_color: Option<Color>,
    /// Hyperlink id, interned in [`Hyperlinks`].
    pub hyperlink: Option<u32>,
}

impl Extras {
    /// Whether there is nothing to store.
    pub open spec fn nothing(self) -> bool {
        self.underline_color is None && self.hyperlink is None
    }

    pub fn is_empty(&self) -> (yes: bool)
        ensures
            yes == self.nothing(),
    {
        self.underline_color.is_none() && self.hyperlink.is_none()
    }

    /// Whether two extras say the same.
    fn same(&self, other: &Extras) -> (yes: bool)
        ensures
            yes == (*self == *other),
    {
        let colour = match (self.underline_color, other.underline_color) {
            (Some(a), Some(b)) => a == b,
            (None, None) => true,
            _ => false,
        };
        let link = match (self.hyperlink, other.hyperlink) {
            (Some(a), Some(b)) => a == b,
            (None, None) => true,
            _ => false,
        };
        colour && link
    }
}

impl Default for Extras {
    fn default() -> (e: Extras)
        ensures
            e.nothing(),
    {
        Extras { underline_color: None, hyperlink: None }
    }
}

/// The extras table. Id 0 is reserved for "no extras".
#[derive(Debug)]
pub struct ExtrasTable {
    entries: Option<Vec<Extras>>,
}

impl View for ExtrasTable {
    type V = Seq<Extras>;

    /// What was interned, the entry with id 1 first.
    closed spec fn view(&self) -> Seq<Extras> {
        match self.entries {
            Some(v) => if v@.len() > 0 {
                v@.skip(1)
            } else {
                Seq::empty()
            },
            None => Seq::empty(),
        }
    }
}

/// How many slots extras take: one each, and one for the sentinel.
pub open spec fn slots_for(extras: Seq<Extras>) -> nat {
    if extras.len() == 0 {
        0
    } else {
        extras.len() + 1
    }
}

/// Whether that many bytes are those of three tables together.
pub open spec fn holds_tables(
    bytes: usize,
    graphemes: Seq<Seq<char>>,
    extras: Seq<Extras>,
    hyperlinks: Seq<Seq<char>>,
) -> bool {
    exists|g: usize, e: usize, h: usize|
        {
            &&& #[trigger] holds_texts(g, graphemes)
            &&& #[trigger] holds_slots(e, slots_for(extras), vstd::layout::size_of::<Extras>())
            &&& #[trigger] holds_texts(h, hyperlinks)
            &&& bytes == capped(g + e + h)
        }
}

impl ExtrasTable {
    /// Whether nothing was ever interned, so that nothing was allocated.
    pub closed spec fn untouched(self) -> bool {
        self.entries is None
    }

    /// Where there are entries, slot 0 is the sentinel, which is never handed
    /// out.
    pub closed spec fn wf(self) -> bool {
        self.entries matches Some(v) ==> v@.len() > 0 ==> v@[0].nothing()
    }

    pub fn new() -> (t: ExtrasTable)
        ensures
            t.wf(),
            t@ == Seq::<Extras>::empty(),
            t.untouched(),
    {
        ExtrasTable { entries: None }
    }

    /// Stores the extras once and returns their id, which is [`NO_EXTRA`] for
    /// empty ones.
    pub fn intern(&mut self, extras: Extras) -> (id: u32)
        requires
            old(self).wf(),
            old(self)@.len() < u32::MAX,
        ensures
            final(self).wf(),
            extras.nothing() ==> id == NO_EXTRA && *final(self) == *old(self),
            !extras.nothing() ==> {
                &&& final(self)@ == interned(old(self)@, extras)
                &&& 1 <= id <= final(self)@.len()
                &&& final(self)@[id - 1] == extras
                &&& forall|j: int| 0 <= j < id - 1 ==> final(self)@[j] != extras
            },
    {
        if extras.is_empty() {
            return NO_EXTRA;
        }
        let mut v: Vec<Extras> = match self.entries.take() {
            Some(v) => v,
            None => Vec::new(),
        };
        let ghost before = old(self)@;
        if v.len() == 0 {
            v.push(Extras::default());
        }
        assert(v@.skip(1) =~= before);
        let mut i: usize = 0;
        while i < v.len()
            invariant
                i <= v.len(),
                v@.len() > 0,
                v@[0].nothing(),
                !extras.nothing(),
                before == v@.skip(1),
                before.len() < u32::MAX,
                forall|j: int| 0 <= j < i ==> v@[j] != extras,
                before == old(self)@,
            decreases v.len() - i,
        {
            if v[i].same(&extras) {
                assert(before[i - 1] == extras);
                assert(before.contains(extras));
                assert forall|j: int| 0 <= j < i - 1 implies before[j] != extras by {
                    assert(v@[j + 1] != extras);
                }
                self.entries = Some(v);
                return i as u32;
            }
            i += 1;
        }
        assert(!before.contains(extras)) by {
            if before.contains(extras) {
                let k = choose|k: int| 0 <= k < before.len() && before[k] == extras;
                assert(v@[k + 1] == extras);
            }
        }
        v.push(extras);
        assert(v@.skip(1) =~= before.push(extras));
        let id: u32 = (v.len() - 1) as u32;
        assert forall|j: int| 0 <= j < id - 1 implies before.push(extras)[j] != extras by {
            assert(before.contains(before[j]));
        }
        self.entries = Some(v);
        id
    }

    pub(crate) fn len(&self) -> (n: usize)
        requires
            self.wf(),
        ensures
            n == self@.len(),
    {
        match &self.entries {
            None => 0,
            Some(v) => if v.len() == 0 {
                0
            } else {
                v.len() - 1
            },
        }
    }

    pub fn get(&self, id: u32) -> (extras: Option<&Extras>)
        ensures
            match extras {
                Some(e) => 1 <= id <= self@.len() && *e == self@[id - 1],
                None => id == NO_EXTRA || id > self@.len(),
            },
    {
        if id == NO_EXTRA {
            return None;
        }
        match &self.entries {
            None => None,
            Some(v) => if (id as usize) < v.len() {
                Some(&v[id as usize])
            } else {
                None
            },
        }
    }

    /// Bytes actually allocated: none until something is interned, and from then
    /// on room for every entry and the sentinel at least.
    pub fn allocated_bytes(&self) -> (n: usize)
        ensures
            self.untouched() ==> n == 0,
            holds_slots(n, slots_for(self@), vstd::layout::size_of::<Extras>()),
    {
        match &self.entries {
            None => {
                assert(slot_bytes(0, vstd::layout::size_of::<Extras>()) == 0) by (nonlinear_arith);
                0
            },
            Some(v) => bytes_for(vec_capacity(v), core::mem::size_of::<Extras>()),
        }
    }

    pub fn clear(&mut self)
        ensures
            final(self).wf(),
            final(self)@ == Seq::<Extras>::empty(),
            old(self).untouched() ==> final(self).untouched(),
    {
        match self.entries.take() {
            Some(mut v) => {
                v.clear();
                self.entries = Some(v);
            },
            None => {},
        }
    }
}

impl Default for ExtrasTable {
    fn default() -> (t: ExtrasTable)
        ensures
            t.wf(),
            t@ == Seq::<Extras>::empty(),
            t.untouched(),
    {
        ExtrasTable::new()
    }
}

/// Hyperlink targets.
#[derive(Debug)]
pub struct Hyperlinks {
    table: TextTable,
}

impl View for Hyperlinks {
    type V = Seq<Seq<char>>;

    closed spec fn view(&self) -> Seq<Seq<char>> {
        self.table.texts()
    }
}

impl Hyperlinks {
    /// Whether nothing was ever interned, so that nothing was allocated.
    pub closed spec fn untouched(self) -> bool {
        self.table.entries is None
    }

    pub fn new() -> (h: Hyperlinks)
        ensures
            h@ == Seq::<Seq<char>>::empty(),
            h.untouched(),
    {
        Hyperlinks { table: TextTable::new() }
    }

    pub fn intern(&mut self, uri: &str) -> (id: u32)
        requires
            old(self)@.len() < u32::MAX,
        ensures
            final(self)@ == interned(old(self)@, uri@),
            id < final(self)@.len() <= u32::MAX,
            final(self)@[id as int] == uri@,
            forall|j: int| 0 <= j < id ==> final(self)@[j] != uri@,
    {
        self.table.intern(uri) as u32
    }

    pub(crate) fn len(&self) -> (n: usize)
        ensures
            n == self@.len(),
    {
        self.table.len()
    }

    pub fn get(&self, id: u32) -> (uri: Option<&str>)
        ensures
            match uri {
                Some(s) => id < self@.len() && s@ == self@[id as int],
                None => id >= self@.len(),
            },
    {
        self.table.get(id as usize)
    }

    /// Bytes actually allocated: none until a target is interned, and from then
    /// on room for every target at least.
    pub fn allocated_bytes(&self) -> (n: usize)
        ensures
            self.untouched() ==> n == 0,
            holds_texts(n, self@),
    {
        self.table.allocated_bytes()
    }
}

/// All side tables of one surface.
#[derive(Debug)]
pub struct SideTables {
    pub graphemes: Graphemes,
    pub extras: ExtrasTable,
    pub hyperlinks: Hyperlinks,
}

impl SideTables {
    pub open spec fn wf(self) -> bool {
        self.extras.wf()
    }

    /// Whether nothing was ever stored in any table.
    pub open spec fn untouched(self) -> bool {
        self.graphemes.untouched() && self.extras.untouched() && self.hyperlinks.untouched()
    }

    pub fn new() -> (t: SideTables)
        ensures
            t.wf(),
            t.untouched(),
            t.graphemes@ == Seq::<Seq<char>>::empty(),
            t.extras@ == Seq::<Extras>::empty(),
            t.hyperlinks@ == Seq::<Seq<char>>::empty(),
    {
        SideTables {
            graphemes: Graphemes::new(),
            extras: ExtrasTable::new(),
            hyperlinks: Hyperlinks::new(),
        }
    }

    /// Bytes allocated over all tables: none until one of them stores something,
    /// and room for what they store at least.
    pub fn allocated_bytes(&self) -> (n: usize)
        ensures
            self.untouched() ==> n == 0,
            holds_tables(n, self.graphemes@, self.extras@, self.hyperlinks@),
    {
        let graphemes: usize = self.graphemes.allocated_bytes();
        let extras: usize = self.extras.allocated_bytes();
        let hyperlinks: usize = self.hyperlinks.allocated_bytes();
        graphemes.saturating_add(extras).saturating_add(hyperlinks)
    }
}

/// An id finds what was stored under it: texts are counted from zero, extras
/// from one, and zero is a cell without any.
pub proof fn law_ids_find_what_was_stored(
    g: Graphemes,
    h: Hyperlinks,
    e: ExtrasTable,
    id: u32,
    cluster: Option<&str>,
    uri: Option<&str>,
    extras: Option<&Extras>,
)
    requires
        call_ensures(Graphemes::get, (&g, id), cluster),
        call_ensures(Hyperlinks::get, (&h, id), uri),
        call_ensures(ExtrasTable::get, (&e, id), extras),
    ensures
        id < g@.len() ==> cluster is Some && cluster->0@ == g@[id as int],
        id >= g@.len() ==> cluster is None,
        id < h@.len() ==> uri is Some && uri->0@ == h@[id as int],
        id >= h@.len() ==> uri is None,
        id == 0 ==> extras is None,
        0 < id <= e@.len() ==> extras is Some && *extras->0 == e@[id - 1],
        id > e@.len() ==> extras is None,
{
}

/// Bytes are counted for all that is stored, as far as a count can go.
pub proof fn law_what_is_stored_is_counted(bytes: usize, least: nat, size: nat)
    requires
        holds_slots(bytes, least, size),
    ensures
        bytes == usize::MAX || bytes >= least * size,
        size > 0 && bytes < usize::MAX ==> bytes as int % size as int == 0,
{
    let slots = choose|slots: usize| least <= slots && bytes == #[trigger] slot_bytes(slots, size);
    assert(slots * size >= least * size) by (nonlinear_arith)
        requires
            slots >= least,
            size >= 0,
    ;
    if size > 0 && bytes < usize::MAX {
        vstd::arithmetic::div_mod::lemma_mod_multiples_basic(slots as int, size as int);
    }
}

} // verus!
