//! Key bindings: which chord an action answers to.

use vstd::prelude::*;

use crate::text::{chars_of, same_text};

verus! {

/// Whether one text comes before another: by the first character in which they
/// differ, or because it is the beginning of the other.
pub open spec fn precedes(a: Seq<char>, b: Seq<char>) -> bool
    decreases a.len(),
{
    if b.len() == 0 {
        false
    } else if a.len() == 0 {
        true
    } else if a[0] != b[0] {
        a[0] < b[0]
    } else {
        precedes(a.drop_first(), b.drop_first())
    }
}

/// No text comes before itself.
pub proof fn lemma_precedes_irreflexive(a: Seq<char>)
    ensures
        !precedes(a, a),
    decreases a.len(),
{
    if a.len() > 0 {
        lemma_precedes_irreflexive(a.drop_first());
    }
}

/// What comes before something comes before all that follows it.
pub proof fn lemma_precedes_transitive(a: Seq<char>, b: Seq<char>, c: Seq<char>)
    requires
        precedes(a, b),
        precedes(b, c),
    ensures
        precedes(a, c),
    decreases a.len(),
{
    if a.len() > 0 && b.len() > 0 && c.len() > 0 && a[0] == b[0] && b[0] == c[0] {
        lemma_precedes_transitive(a.drop_first(), b.drop_first(), c.drop_first());
    }
}

/// Of two texts that differ, one comes before the other.
pub proof fn lemma_precedes_total(a: Seq<char>, b: Seq<char>)
    ensures
        a == b || precedes(a, b) || precedes(b, a),
    decreases a.len(),
{
    if a.len() > 0 && b.len() > 0 {
        if a[0] == b[0] {
            lemma_precedes_total(a.drop_first(), b.drop_first());
            if a.drop_first() == b.drop_first() {
                assert(a =~= seq![a[0]] + a.drop_first());
                assert(b =~= seq![b[0]] + b.drop_first());
            }
        }
    } else if a.len() == 0 && b.len() == 0 {
        assert(a =~= b);
    }
}

fn comes_before(a: &str, b: &str) -> (yes: bool)
    ensures
        yes == precedes(a@, b@),
{
    let x = chars_of(a);
    let y = chars_of(b);
    let mut i: usize = 0;
    assert(x@.skip(0) =~= a@);
    assert(y@.skip(0) =~= b@);
    while i < x.len() && i < y.len()
        invariant
            i <= x@.len(),
            i <= y@.len(),
            precedes(a@, b@) == precedes(x@.skip(i as int), y@.skip(i as int)),
        decreases x@.len() - i,
    {
        let ghost u = x@.skip(i as int);
        let ghost w = y@.skip(i as int);
        assert(u[0] == x@[i as int]);
        assert(w[0] == y@[i as int]);
        if x[i] != y[i] {
            return x[i] < y[i];
        }
        assert(u.drop_first() =~= x@.skip(i + 1));
        assert(w.drop_first() =~= y@.skip(i + 1));
        i += 1;
    }
    i < y.len()
}


/// Whether bindings stand in the order of their actions, each action once.
pub open spec fn in_key_order(s: Seq<(Seq<char>, Seq<char>)>) -> bool {
    forall|i: int, j: int|
        0 <= i < j < s.len() ==> precedes((#[trigger] s[i]).0, (#[trigger] s[j]).0)
}

/// Whether an action is bound to a chord.
pub open spec fn binds(s: Seq<(Seq<char>, Seq<char>)>, action: Seq<char>, chord: Seq<char>) -> bool {
    exists|i: int| 0 <= i < s.len() && #[trigger] s[i] == (action, chord)
}

/// Bindings, in the order of their actions.
#[derive(Debug, Clone, PartialEq, Eq)]
pub struct KeyMap {
    pairs: Vec<(String, String)>,
}

/// What pairs of texts spell.
pub open spec fn pair_views(p: Seq<(String, String)>) -> Seq<(Seq<char>, Seq<char>)> {
    p.map_values(|x: (String, String)| (x.0@, x.1@))
}

impl View for KeyMap {
    type V = Seq<(Seq<char>, Seq<char>)>;

    closed spec fn view(&self) -> Seq<(Seq<char>, Seq<char>)> {
        pair_views(self.pairs@)
    }
}

impl KeyMap {
    pub open spec fn wf(self) -> bool {
        in_key_order(self@)
    }

    pub fn new() -> (k: KeyMap)
        ensures
            k.wf(),
            k@ == Seq::<(Seq<char>, Seq<char>)>::empty(),
    {
        let k = KeyMap { pairs: Vec::new() };
        assert(k@ =~= Seq::empty());
        k
    }

    pub fn len(&self) -> (n: usize)
        ensures
            n == self@.len(),
    {
        self.pairs.len()
    }

    pub fn is_empty(&self) -> (yes: bool)
        ensures
            yes == (self@.len() == 0),
    {
        self.pairs.len() == 0
    }

    /// The bindings, in the order of their actions.
    pub fn pairs(&self) -> (p: &[(String, String)])
        ensures
            pair_views(p@) == self@,
    {
        self.pairs.as_slice()
    }

    /// The chord that an action is bound to.
    pub fn get(&self, action: &str) -> (chord: Option<&str>)
        requires
            self.wf(),
        ensures
            match chord {
                Some(c) => binds(self@, action@, c@),
                None => forall|c: Seq<char>| !binds(self@, action@, c),
            },
    {
        let n: usize = self.pairs.len();
        let mut i: usize = 0;
        while i < n
            invariant
                i <= n == self.pairs@.len(),
                forall|k: int| 0 <= k < i ==> (#[trigger] self@[k]).0 != action@,
            decreases n - i,
        {
            assert(self@[i as int] == (self.pairs@[i as int].0@, self.pairs@[i as int].1@));
            if same_text(self.pairs[i].0.as_str(), action) {
                let chord = self.pairs[i].1.as_str();
                assert(self@[i as int] == (action@, chord@));
                return Some(chord);
            }
            i += 1;
        }
        None
    }

    /// Binds an action to a chord, in place of the one it had.
    pub fn insert(&mut self, action: String, chord: String)
        requires
            old(self).wf(),
        ensures
            final(self).wf(),
            forall|a: Seq<char>, c: Seq<char>|
                #![trigger binds(final(self)@, a, c)]
                binds(final(self)@, a, c) <==> if a == action@ {
                    c == chord@
                } else {
                    binds(old(self)@, a, c)
                },
    {
        let n: usize = self.pairs.len();
        let mut i: usize = 0;
        while i < n && comes_before(self.pairs[i].0.as_str(), action.as_str())
            invariant
                i <= n == self.pairs@.len(),
                *self == *old(self),
                forall|k: int| 0 <= k < i ==> precedes((#[trigger] self@[k]).0, action@),
            decreases n - i,
        {
            assert(self@[i as int].0 == self.pairs@[i as int].0@);
            i += 1;
        }
        let ghost before = self@;
        let ghost at = i as int;
        let ghost new = (action@, chord@);
        if i < n && same_text(self.pairs[i].0.as_str(), action.as_str()) {
            assert(before[at].0 == action@);
            self.pairs.set(i, (action, chord));
            assert(self@ =~= before.update(at, new));
            proof {
                lemma_rebound(before, at, new);
            }
        } else {
            proof {
                if i < n {
                    assert(before[at].0 == self.pairs@[at].0@);
                    lemma_precedes_total(before[at].0, action@);
                }
                lemma_bound(before, at, new);
            }
            self.pairs.insert(i, (action, chord));
            assert(self@ =~= before.insert(at, new));
        }
    }

    /// Another with the same bindings.
    pub fn copy(&self) -> (k: KeyMap)
        ensures
            k@ == self@,
    {
        let mut pairs: Vec<(String, String)> = Vec::new();
        let n: usize = self.pairs.len();
        let mut i: usize = 0;
        while i < n
            invariant
                i <= n == self.pairs@.len(),
                pair_views(pairs@) =~= self@.take(i as int),
            decreases n - i,
        {
            let ghost had = pairs@;
            pairs.push(
                (self.pairs[i].0.as_str().to_owned(), self.pairs[i].1.as_str().to_owned()),
            );
            assert(pair_views(pairs@) =~= pair_views(had).push(self@[i as int]));
            i += 1;
        }
        let k = KeyMap { pairs };
        assert(k@ =~= self@);
        k
    }
}

impl Default for KeyMap {
    fn default() -> (k: KeyMap)
        ensures
            k.wf(),
            k@ == Seq::<(Seq<char>, Seq<char>)>::empty(),
    {
        KeyMap::new()
    }
}

proof fn lemma_rebound(
    before: Seq<(Seq<char>, Seq<char>)>,
    at: int,
    new: (Seq<char>, Seq<char>),
)
    requires
        in_key_order(before),
        0 <= at < before.len(),
        before[at].0 == new.0,
    ensures
        in_key_order(before.update(at, new)),
        forall|a: Seq<char>, c: Seq<char>|
            #![trigger binds(before.update(at, new), a, c)]
            binds(before.update(at, new), a, c) <==> if a == new.0 {
                c == new.1
            } else {
                binds(before, a, c)
            },
{
    let after = before.update(at, new);
    assert forall|a: Seq<char>, c: Seq<char>|
        #![trigger binds(after, a, c)]
        binds(after, a, c) <==> if a == new.0 {
            c == new.1
        } else {
            binds(before, a, c)
        } by {
        if a == new.0 {
            if binds(after, a, c) {
                let i = choose|i: int| 0 <= i < after.len() && #[trigger] after[i] == (a, c);
                lemma_precedes_irreflexive(a);
                if i < at {
                    assert(precedes(before[i].0, before[at].0));
                } else if i > at {
                    assert(precedes(before[at].0, before[i].0));
                }
            }
            if c == new.1 {
                assert(after[at] == (a, c));
            }
        } else {
            if binds(after, a, c) {
                let i = choose|i: int| 0 <= i < after.len() && #[trigger] after[i] == (a, c);
                assert(before[i] == (a, c));
            }
            if binds(before, a, c) {
                let i = choose|i: int| 0 <= i < before.len() && #[trigger] before[i] == (a, c);
                assert(after[i] == (a, c));
            }
        }
    }
}

proof fn lemma_bound(before: Seq<(Seq<char>, Seq<char>)>, at: int, new: (Seq<char>, Seq<char>))
    requires
        in_key_order(before),
        0 <= at <= before.len(),
        forall|k: int| 0 <= k < at ==> precedes((#[trigger] before[k]).0, new.0),
        at < before.len() ==> precedes(new.0, before[at].0),
    ensures
        in_key_order(before.insert(at, new)),
        forall|a: Seq<char>, c: Seq<char>|
            #![trigger binds(before.insert(at, new), a, c)]
            binds(before.insert(at, new), a, c) <==> if a == new.0 {
                c == new.1
            } else {
                binds(before, a, c)
            },
{
    let after = before.insert(at, new);
    assert forall|i: int, j: int| 0 <= i < j < after.len() implies precedes(
        (#[trigger] after[i]).0,
        (#[trigger] after[j]).0,
    ) by {
        if j > at {
            assert(after[j] == before[j - 1]);
            if i == at && j - 1 > at {
                lemma_precedes_transitive(new.0, before[at].0, before[j - 1].0);
            }
        }
        if i < at {
            assert(after[i] == before[i]);
        } else if i > at {
            assert(after[i] == before[i - 1]);
        }
    }
    assert forall|k: int| 0 <= k < before.len() implies (#[trigger] before[k]).0 != new.0 by {
        lemma_precedes_irreflexive(new.0);
        if k > at {
            lemma_precedes_transitive(new.0, before[at].0, before[k].0);
        }
    }
    assert forall|a: Seq<char>, c: Seq<char>|
        #![trigger binds(after, a, c)]
        binds(after, a, c) <==> if a == new.0 {
            c == new.1
        } else {
            binds(before, a, c)
        } by {
        if binds(after, a, c) {
            let i = choose|i: int| 0 <= i < after.len() && #[trigger] after[i] == (a, c);
            if i < at {
                assert(before[i] == (a, c));
            } else if i > at {
                assert(before[i - 1] == (a, c));
            }
        }
        if a == new.0 && c == new.1 {
            assert(after[at] == (a, c));
        }
        if a != new.0 && binds(before, a, c) {
            let i = choose|i: int| 0 <= i < before.len() && #[trigger] before[i] == (a, c);
            if i < at {
                assert(after[i] == (a, c));
            } else {
                assert(after[i + 1] == (a, c));
            }
        }
    }
}

/// An action has one chord at most.
pub proof fn law_an_action_has_one_chord(
    s: Seq<(Seq<char>, Seq<char>)>,
    action: Seq<char>,
    a: Seq<char>,
    b: Seq<char>,
)
    requires
        in_key_order(s),
        binds(s, action, a),
        binds(s, action, b),
    ensures
        a == b,
{
    let i = choose|i: int| 0 <= i < s.len() && #[trigger] s[i] == (action, a);
    let j = choose|j: int| 0 <= j < s.len() && #[trigger] s[j] == (action, b);
    lemma_precedes_irreflexive(action);
    if i < j {
        assert(precedes(s[i].0, s[j].0));
    } else if j < i {
        assert(precedes(s[j].0, s[i].0));
    }
}

/// Actions stand in the order of their first different characters, the smaller
/// first, and the beginning of a text stands before the text.
pub proof fn law_order_is_by_the_first_difference(
    same: Seq<char>,
    x: char,
    y: char,
    a: Seq<char>,
    b: Seq<char>,
)
    ensures
        precedes(same + seq![x] + a, same + seq![y] + b) <== x < y,
        !precedes(same + seq![y] + b, same + seq![x] + a) <== x < y,
        precedes(same, same + seq![x] + a),
        !precedes(same + seq![x] + a, same),
    decreases same.len(),
{
    let p = same + seq![x] + a;
    let q = same + seq![y] + b;
    if same.len() == 0 {
        assert(p[0] == x);
        assert(q[0] == y);
    } else {
        let rest = same.drop_first();
        law_order_is_by_the_first_difference(rest, x, y, a, b);
        assert(p.drop_first() =~= rest + seq![x] + a);
        assert(q.drop_first() =~= rest + seq![y] + b);
    }
}

/// What is asked for by an action is the chord that stands beside that action,
/// and nothing comes back only where no pair has the action.
pub proof fn law_a_chord_is_found_beside_its_action(k: KeyMap, action: &str, i: int)
    requires
        k.wf(),
        0 <= i < k@.len(),
    ensures
        forall|c: Option<&str>|
            #[trigger] call_ensures(KeyMap::get, (&k, action), c) && k@[i].0 == action@
                ==> c is Some && c->0@ == k@[i].1,
{
    assert forall|c: Option<&str>|
        #[trigger] call_ensures(KeyMap::get, (&k, action), c) && k@[i].0 == action@ implies c
        is Some && c->0@ == k@[i].1 by {
        assert(k@[i] == (action@, k@[i].1));
        assert(binds(k@, action@, k@[i].1));
        law_an_action_has_one_chord(k@, action@, c->0@, k@[i].1);
    }
}

} // verus!
