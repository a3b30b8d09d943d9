//! Paths of the file system, as the bytes that they are.

use vstd::prelude::*;
use vstd::slice::{slice_subrange, slice_to_vec};

verus! {

/// What stands between the names of a path.
pub const SEPARATOR: u8 = 47;

pub const DOT: u8 = 46;

/// Whether a path starts at the root.
pub open spec fn absolute(p: Seq<u8>) -> bool {
    p.len() > 0 && p[0] == SEPARATOR
}

pub fn is_absolute(p: &[u8]) -> (yes: bool)
    ensures
        yes == absolute(p@),
{
    p.len() > 0 && p[0] == SEPARATOR
}

/// Where the last piece of the first `n` bytes starts.
pub open spec fn last_break(p: Seq<u8>, n: int) -> int
    decreases n,
{
    if n <= 0 {
        0
    } else if p[n - 1] == SEPARATOR {
        n
    } else {
        last_break(p, n - 1)
    }
}

pub proof fn lemma_last_break(p: Seq<u8>, n: int)
    requires
        0 <= n <= p.len(),
    ensures
        0 <= last_break(p, n) <= n,
        last_break(p, n) > 0 ==> p[last_break(p, n) - 1] == SEPARATOR,
        forall|i: int| last_break(p, n) <= i < n ==> #[trigger] p[i] != SEPARATOR,
    decreases n,
{
    if n > 0 && p[n - 1] != SEPARATOR {
        lemma_last_break(p, n - 1);
    }
}

/// The name that the first `n` bytes of a path end in. Separators and single
/// dots behind it do not count; a path that ends in two dots, or has no name,
/// has none.
pub open spec fn last_name(p: Seq<u8>, n: int) -> Option<Seq<u8>>
    decreases n,
{
    if n <= 0 || n > p.len() {
        None
    } else {
        let from = last_break(p, n);
        let piece = p.subrange(from, n);
        if piece.len() == 0 || piece == seq![DOT] {
            if 0 < from <= n {
                last_name(p, from - 1)
            } else {
                None
            }
        } else if piece == seq![DOT, DOT] {
            None
        } else {
            Some(piece)
        }
    }
}

/// What optional bytes are.
pub open spec fn bytes_view(b: Option<Vec<u8>>) -> Option<Seq<u8>> {
    match b {
        Some(v) => Some(v@),
        None => None,
    }
}

/// The last name of a path.
pub fn file_name(p: &[u8]) -> (name: Option<Vec<u8>>)
    ensures
        bytes_view(name) == last_name(p@, p@.len() as int),
{
    let mut n: usize = p.len();
    while n > 0
        invariant
            n <= p@.len(),
            last_name(p@, p@.len() as int) == last_name(p@, n as int),
        decreases n,
    {
        let mut from: usize = n;
        while from > 0 && p[from - 1] != SEPARATOR
            invariant
                from <= n <= p@.len(),
                last_break(p@, n as int) == last_break(p@, from as int),
            decreases from,
        {
            from -= 1;
        }
        assert(from == last_break(p@, n as int));
        let ghost piece = p@.subrange(from as int, n as int);
        let len: usize = n - from;
        let here = len == 0 || (len == 1 && p[from] == DOT);
        assert(here == (piece.len() == 0 || piece == seq![DOT])) by {
            if here && len == 1 {
                assert(piece =~= seq![DOT]);
            }
            if piece == seq![DOT] {
                assert(piece.len() == 1);
                assert(piece[0] == DOT);
                assert(piece[0] == p@[from as int]);
            }
        }
        if here {
            if from == 0 {
                return None;
            }
            n = from - 1;
        } else {
            let up = len == 2 && p[from] == DOT && p[from + 1] == DOT;
            assert(up == (piece == seq![DOT, DOT])) by {
                if up {
                    assert(piece =~= seq![DOT, DOT]);
                }
                if piece == seq![DOT, DOT] {
                    assert(piece[0] == DOT && piece[1] == DOT);
                }
            }
            if up {
                return None;
            }
            return Some(slice_to_vec(slice_subrange(p, from, n)));
        }
    }
    None
}

/// A path behind another: alone where it starts at the root.
pub open spec fn joined(base: Seq<u8>, rest: Seq<u8>) -> Seq<u8> {
    if absolute(rest) {
        rest
    } else if base.len() > 0 && base.last() != SEPARATOR {
        base + seq![SEPARATOR] + rest
    } else {
        base + rest
    }
}

pub fn join(base: &[u8], rest: &[u8]) -> (p: Vec<u8>)
    ensures
        p@ == joined(base@, rest@),
{
    if is_absolute(rest) {
        return slice_to_vec(rest);
    }
    let mut p = slice_to_vec(base);
    if base.len() > 0 && base[base.len() - 1] != SEPARATOR {
        p.push(SEPARATOR);
    }
    let mut tail = slice_to_vec(rest);
    p.append(&mut tail);
    assert(p@ =~= joined(base@, rest@));
    p
}

/// Where a byte first stands, or the length where it does not.
pub open spec fn first_at(s: Seq<u8>, b: u8) -> int
    decreases s.len(),
{
    if s.len() == 0 || s[0] == b {
        0
    } else {
        1 + first_at(s.skip(1), b)
    }
}

proof fn lemma_first_at(s: Seq<u8>, b: u8, at: int)
    requires
        0 <= at <= s.len(),
        forall|i: int| 0 <= i < at ==> #[trigger] s[i] != b,
        at < s.len() ==> s[at] == b,
    ensures
        first_at(s, b) == at,
    decreases s.len(),
{
    if at > 0 {
        let t = s.skip(1);
        assert forall|i: int| 0 <= i < at - 1 implies #[trigger] t[i] != b by {
            assert(t[i] == s[i + 1]);
        }
        lemma_first_at(t, b, at - 1);
    }
}

/// The pieces of a text that a byte divides.
pub open spec fn divided(s: Seq<u8>, b: u8) -> Seq<Seq<u8>>
    decreases s.len(),
{
    let at = first_at(s, b);
    if 0 <= at < s.len() {
        seq![s.take(at)] + divided(s.skip(at + 1), b)
    } else {
        seq![s]
    }
}

/// What texts are.
pub open spec fn byte_views(v: Seq<Vec<u8>>) -> Seq<Seq<u8>> {
    v.map_values(|b: Vec<u8>| b@)
}

/// The pieces of a text that a byte divides.
pub fn divide(s: &[u8], b: u8) -> (pieces: Vec<Vec<u8>>)
    ensures
        byte_views(pieces@) == divided(s@, b),
{
    let mut pieces: Vec<Vec<u8>> = Vec::new();
    let n: usize = s.len();
    let mut from: usize = 0;
    assert(s@.skip(0) =~= s@);
    assert(byte_views(pieces@) =~= Seq::empty());
    assert(byte_views(pieces@) + divided(s@, b) =~= divided(s@, b));
    loop
        invariant
            from <= n == s@.len(),
            byte_views(pieces@) + divided(s@.skip(from as int), b) == divided(s@, b),
        decreases n - from,
    {
        let ghost rest = s@.skip(from as int);
        let mut to: usize = from;
        while to < n && s[to] != b
            invariant
                from <= to <= n == s@.len(),
                forall|i: int| from <= i < to ==> #[trigger] s@[i] != b,
            decreases n - to,
        {
            to += 1;
        }
        proof {
            assert forall|i: int| 0 <= i < to - from implies #[trigger] rest[i] != b by {
                assert(rest[i] == s@[from + i]);
            }
            lemma_first_at(rest, b, to - from);
        }
        let piece = slice_to_vec(slice_subrange(s, from, to));
        assert(piece@ =~= rest.take(to - from));
        let ghost had = byte_views(pieces@);
        pieces.push(piece);
        assert(byte_views(pieces@) =~= had.push(piece@));
        if to == n {
            assert(piece@ =~= rest);
            assert(byte_views(pieces@) =~= had + divided(rest, b));
            return pieces;
        }
        assert(rest.skip(to - from + 1) =~= s@.skip(to + 1));
        assert(byte_views(pieces@) + divided(s@.skip(to + 1), b) =~= had + (seq![piece@]
            + divided(s@.skip(to + 1), b)));
        from = to + 1;
    }
}

/// Whether two texts are the same.
pub fn same_bytes(a: &[u8], b: &[u8]) -> (yes: bool)
    ensures
        yes == (a@ == b@),
{
    if a.len() != b.len() {
        return false;
    }
    let n: usize = a.len();
    let mut i: usize = 0;
    while i < n
        invariant
            i <= n == a@.len(),
            a@.len() == b@.len(),
            forall|k: int| 0 <= k < i ==> a@[k] == b@[k],
        decreases n - i,
    {
        if a[i] != b[i] {
            assert(a@[i as int] != b@[i as int]);
            return false;
        }
        i += 1;
    }
    assert(a@ =~= b@);
    true
}

/// A plain name behind a directory is that path's last name.
pub proof fn law_a_joined_name_is_the_last_name(base: Seq<u8>, name: Seq<u8>)
    requires
        name.len() > 0,
        name != seq![DOT],
        name != seq![DOT, DOT],
        forall|i: int| 0 <= i < name.len() ==> #[trigger] name[i] != SEPARATOR,
    ensures
        last_name(joined(base, name), joined(base, name).len() as int) == Some(name),
{
    let p = joined(base, name);
    let from = p.len() - name.len();
    assert(p.subrange(from, p.len() as int) =~= name);
    lemma_last_break(p, p.len() as int);
    let at = last_break(p, p.len() as int);
    assert forall|i: int| from <= i < p.len() implies #[trigger] p[i] != SEPARATOR by {
        assert(p[i] == name[i - from]);
    }
    assert(at <= from);
    if at < from {
        assert(p[from - 1] == SEPARATOR);
    }
}

/// A path starts at the root exactly where it starts with a slash.
pub proof fn law_paths_from_the_root(p: &[u8], yes: bool)
    requires
        call_ensures(is_absolute, (p,), yes),
    ensures
        yes <==> p@.len() > 0 && p@[0] == 47,
{
}

/// A path behind a directory is below it, with one slash between them where the
/// directory does not end in one. A path from the root stands alone.
pub proof fn law_paths_are_joined_by_one_slash(base: &[u8], rest: &[u8], p: Vec<u8>)
    requires
        call_ensures(join, (base, rest), p),
    ensures
        rest@.len() > 0 && rest@[0] == 47 ==> p@ == rest@,
        !(rest@.len() > 0 && rest@[0] == 47) && base@.len() > 0 && base@.last() != 47 ==> p@
            == base@.push(47) + rest@,
        !(rest@.len() > 0 && rest@[0] == 47) && (base@.len() == 0 || base@.last() == 47) ==> p@
            == base@ + rest@,
{
    assert(base@ + seq![47u8] + rest@ =~= base@.push(47) + rest@);
}

/// A slash, or a slash and one dot, behind a path does not change its last name.
pub proof fn law_slashes_and_dots_behind_a_name(p: Seq<u8>)
    ensures
        last_name(p.push(47), p.len() as int + 1) == last_name(p, p.len() as int),
        last_name(p.push(47).push(46), p.len() as int + 2) == last_name(p, p.len() as int),
        last_name(p.push(47).push(46).push(46), p.len() as int + 3) is None,
        last_name(seq![46u8], 1) is None,
        last_name(seq![46u8, 46u8], 2) is None,
        last_name(Seq::empty(), 0) is None,
{
    let n = p.len() as int;
    let one = p.push(47);
    let two = one.push(46);
    let three = two.push(46);
    lemma_last_name_of_start(p, one, n);
    lemma_last_name_of_start(p, two, n);
    assert(last_break(one, n + 1) == n + 1);
    assert(one.subrange(n + 1, n + 1).len() == 0);
    assert(last_break(two, n + 1) == n + 1);
    assert(last_break(two, n + 2) == n + 1);
    assert(two.subrange(n + 1, n + 2) =~= seq![46u8]);
    assert(last_break(three, n + 1) == n + 1);
    assert(last_break(three, n + 2) == n + 1);
    assert(last_break(three, n + 3) == n + 1);
    let piece = three.subrange(n + 1, n + 3);
    assert(piece =~= seq![46u8, 46u8]);
    assert(piece.len() == 2);
    assert(seq![46u8].len() == 1);
    let d = seq![46u8];
    assert(last_break(d, 0) == 0);
    assert(last_break(d, 1) == 0);
    assert(d.subrange(0, 1) =~= d);
    let e = seq![46u8, 46u8];
    assert(last_break(e, 0) == 0);
    assert(last_break(e, 1) == 0);
    assert(last_break(e, 2) == 0);
    assert(e.subrange(0, 2) =~= e);
    assert(e.len() == 2);
}

proof fn lemma_last_break_of_start(p: Seq<u8>, q: Seq<u8>, n: int)
    requires
        n <= p.len(),
        n <= q.len(),
        forall|i: int| 0 <= i < n ==> p[i] == q[i],
    ensures
        last_break(p, n) == last_break(q, n),
    decreases n,
{
    if n > 0 {
        lemma_last_break_of_start(p, q, n - 1);
    }
}

proof fn lemma_last_name_of_start(p: Seq<u8>, q: Seq<u8>, n: int)
    requires
        n <= p.len(),
        n <= q.len(),
        forall|i: int| 0 <= i < n ==> p[i] == q[i],
    ensures
        last_name(p, n) == last_name(q, n),
    decreases n,
{
    if n > 0 {
        lemma_last_break_of_start(p, q, n);
        lemma_last_break(p, n);
        let from = last_break(p, n);
        assert(p.subrange(from, n) =~= q.subrange(from, n));
        if from > 0 {
            lemma_last_name_of_start(p, q, from - 1);
        }
    }
}

/// Dividing takes the pieces off in order, each up to the byte that divides.
pub proof fn law_pieces_stand_between_their_bytes(piece: Seq<u8>, rest: Seq<u8>, b: u8)
    requires
        forall|i: int| 0 <= i < piece.len() ==> #[trigger] piece[i] != b,
    ensures
        divided(piece, b) == seq![piece],
        divided(piece.push(b) + rest, b) == seq![piece] + divided(rest, b),
{
    lemma_first_at(piece, b, piece.len() as int);
    let s = piece.push(b) + rest;
    let n = piece.len() as int;
    assert forall|i: int| 0 <= i < n implies #[trigger] s[i] != b by {
        assert(s[i] == piece[i]);
    }
    assert(s[n] == b);
    lemma_first_at(s, b, n);
    assert(s.take(n) =~= piece);
    assert(s.skip(n + 1) =~= rest);
}

} // verus!
