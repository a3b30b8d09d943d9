//! A copy of the visible grid in one layout, plus the damage over it.
//!
//! The terminal translates only the rows that it says are damaged; the renderer
//! borrows plain slices and never learns which terminal they came from.

use vstd::prelude::*;
use vstd::slice::slice_subrange;

use crate::cell::{empty_cell, lemma_the_empty_cell, Cell};

verus! {

/// One row to draw.
#[derive(Debug, Clone, Copy)]
pub struct RowRef<'a> {
    /// The row's place in the viewport.
    pub index: u16,
    pub cells: &'a [Cell],
    /// Whether the line goes on in the next row.
    pub wrapped: bool,
}

/// A dense grid of [`Cell`] plus one dirty bit per row.
#[derive(Debug)]
pub struct Mirror {
    cols: u16,
    rows: u16,
    cells: Vec<Cell>,
    wrapped: Vec<bool>,
    dirty: Vec<u64>,
    dirty_count: usize,
}

/// What a mirror holds, row by row.
pub struct MirrorView {
    pub cols: nat,
    pub rows: Seq<Seq<Cell>>,
    pub wrapped: Seq<bool>,
    pub dirty: Seq<bool>,
}

/// Whether there are as many flags as rows, and every row has the width.
pub open spec fn rectangular(m: MirrorView) -> bool {
    &&& m.wrapped.len() == m.rows.len()
    &&& m.dirty.len() == m.rows.len()
    &&& forall|i: int| 0 <= i < m.rows.len() ==> (#[trigger] m.rows[i]).len() == m.cols
}

/// How many rows are dirty.
pub open spec fn count_true(s: Seq<bool>) -> nat
    decreases s.len(),
{
    if s.len() == 0 {
        0
    } else {
        count_true(s.drop_last()) + if s.last() {
            1nat
        } else {
            0nat
        }
    }
}

/// Setting a bit that was clear adds one to the count.
proof fn lemma_count_set(s: Seq<bool>, i: int)
    requires
        0 <= i < s.len(),
        !s[i],
    ensures
        count_true(s.update(i, true)) == count_true(s) + 1,
    decreases s.len(),
{
    let t = s.update(i, true);
    if i == s.len() - 1 {
        assert(t.drop_last() =~= s.drop_last());
    } else {
        lemma_count_set(s.drop_last(), i);
        assert(t.drop_last() =~= s.drop_last().update(i, true));
    }
}

/// The count of a run of equal bits.
proof fn lemma_count_uniform(s: Seq<bool>, b: bool)
    requires
        forall|i: int| 0 <= i < s.len() ==> s[i] == b,
    ensures
        count_true(s) == if b {
            s.len()
        } else {
            0
        },
    decreases s.len(),
{
    if s.len() > 0 {
        lemma_count_uniform(s.drop_last(), b);
    }
}

/// The count is zero exactly when every bit is clear, and never exceeds the
/// length.
pub proof fn law_count_of_dirty_rows(s: Seq<bool>)
    ensures
        count_true(s) <= s.len(),
        count_true(s) == 0 <==> forall|i: int| 0 <= i < s.len() ==> !s[i],
    decreases s.len(),
{
    if s.len() > 0 {
        law_count_of_dirty_rows(s.drop_last());
        let t = s.drop_last();
        if count_true(s) == 0 {
            assert forall|i: int| 0 <= i < s.len() implies !s[i] by {
                if i < t.len() {
                    assert(!t[i]);
                }
            }
        }
        if forall|i: int| 0 <= i < s.len() ==> !s[i] {
            assert forall|i: int| 0 <= i < t.len() implies !t[i] by {
                assert(!s[i]);
            }
            assert(!s[s.len() - 1]);
        }
    }
}

/// Bit `i` of a packed bit set.
spec fn bit_at(words: Seq<u64>, i: int) -> bool {
    (words[i / 64] >> ((i % 64) as u64)) & 1 == 1
}

proof fn lemma_set_bit(w: u64, b: u64, c: u64)
    requires
        b < 64,
        c < 64,
    ensures
        ((w | (1u64 << b)) >> c) & 1 == 1 <==> c == b || (w >> c) & 1 == 1,
        w & (1u64 << b) == 0 <==> (w >> b) & 1 != 1,
{
    assert((((w | (1u64 << b)) >> c) & 1 == 1) <==> (c == b || (w >> c) & 1 == 1)) by (bit_vector)
        requires
            b < 64,
            c < 64,
    ;
    assert((w & (1u64 << b) == 0) <==> ((w >> b) & 1 != 1)) by (bit_vector)
        requires
            b < 64,
    ;
}

proof fn lemma_uniform_words(c: u64, tail: u64)
    requires
        c < 64,
        tail < 64,
    ensures
        (0xFFFF_FFFF_FFFF_FFFFu64 >> c) & 1 == 1,
        (0u64 >> c) & 1 == 0,
        1u64 << tail >= 1,
        (((1u64 << tail) - 1) as u64 >> c) & 1 == 1 <==> c < tail,
{
    assert((0xFFFF_FFFF_FFFF_FFFFu64 >> c) & 1 == 1 && (0u64 >> c) & 1 == 0 && 1u64 << tail >= 1 && (
    ((((1u64 << tail) - 1) as u64 >> c) & 1 == 1) <==> c < tail)) by (bit_vector)
        requires
            c < 64,
            tail < 64,
    ;
}

/// The row that a backend's cells make: cut to the width, filled up with
/// untouched cells.
pub open spec fn fitted_row(cells: Seq<Cell>, cols: nat) -> Seq<Cell> {
    Seq::new(
        cols,
        |i: int|
            if i < cells.len() {
                cells[i]
            } else {
                empty_cell()
            },
    )
}

/// A mirror of blank rows, all of them dirty.
pub open spec fn blank_mirror(cols: nat, rows: nat) -> MirrorView {
    MirrorView {
        cols,
        rows: Seq::new(rows, |r: int| fitted_row(Seq::empty(), cols)),
        wrapped: Seq::new(rows, |r: int| false),
        dirty: Seq::new(rows, |r: int| true),
    }
}

/// Whether writing this row would change anything.
pub open spec fn row_changes(m: MirrorView, index: int, cells: Seq<Cell>, wrapped: bool) -> bool {
    0 <= index < m.rows.len() && (m.rows[index] != fitted_row(cells, m.cols) || m.wrapped[index]
        != wrapped)
}

/// The mirror after a row was written. A row that did not change stays clean.
pub open spec fn with_row(m: MirrorView, index: int, cells: Seq<Cell>, wrapped: bool) -> MirrorView {
    if row_changes(m, index, cells, wrapped) {
        MirrorView {
            rows: m.rows.update(index, fitted_row(cells, m.cols)),
            wrapped: m.wrapped.update(index, wrapped),
            dirty: m.dirty.update(index, true),
            ..m
        }
    } else {
        m
    }
}

/// Writing what is already there leaves the mirror as it is, and writing
/// anything dirties no row but the one written.
pub proof fn law_only_changes_dirty(m: MirrorView, index: int, cells: Seq<Cell>, wrapped: bool)
    requires
        m.rows.len() == m.wrapped.len() == m.dirty.len(),
    ensures
        with_row(with_row(m, index, cells, wrapped), index, cells, wrapped) == with_row(
            m,
            index,
            cells,
            wrapped,
        ),
        forall|j: int|
            0 <= j < m.dirty.len() && j != index ==> #[trigger] with_row(
                m,
                index,
                cells,
                wrapped,
            ).dirty[j] == m.dirty[j],
        0 <= index < m.dirty.len() ==> with_row(m, index, cells, wrapped).dirty[index] == (
        m.dirty[index] || row_changes(m, index, cells, wrapped)),
{
}

impl View for Mirror {
    type V = MirrorView;

    closed spec fn view(&self) -> MirrorView {
        MirrorView {
            cols: self.cols as nat,
            rows: Seq::new(self.rows as nat, |r: int| self.row_at(r)),
            wrapped: self.wrapped@,
            dirty: Seq::new(self.rows as nat, |r: int| bit_at(self.dirty@, r)),
        }
    }
}

impl Mirror {
    spec fn row_at(self, r: int) -> Seq<Cell> {
        self.cells@.subrange(r * self.cols, r * self.cols + self.cols)
    }

    spec fn shaped(self) -> bool {
        &&& self.cols >= 1
        &&& self.rows >= 1
        &&& self.cells@.len() == self.cols * self.rows
        &&& self.wrapped@.len() == self.rows
        &&& self.dirty@.len() == (self.rows + 63) / 64
    }

    /// The grid has its shape, and the count of dirty rows is exact.
    pub closed spec fn wf(self) -> bool {
        self.shaped() && self.dirty_count == count_true(self@.dirty)
    }

    pub fn new(cols: u16, rows: u16) -> (m: Mirror)
        ensures
            m.wf(),
            m@ == blank_mirror(at_least_one(cols) as nat, at_least_one(rows) as nat),
    {
        let mut m = Mirror {
            cols: 0,
            rows: 0,
            cells: Vec::new(),
            wrapped: Vec::new(),
            dirty: Vec::new(),
            dirty_count: 0,
        };
        m.resize(cols, rows);
        m
    }

    /// Columns and rows.
    pub fn dimensions(&self) -> (d: (u16, u16))
        requires
            self.wf(),
        ensures
            d.0 == self@.cols,
            d.1 == self@.rows.len(),
            d.0 >= 1,
            d.1 >= 1,
    {
        (self.cols, self.rows)
    }

    /// Reshapes to blank rows and marks them all dirty.
    pub fn resize(&mut self, cols: u16, rows: u16)
        ensures
            final(self).wf(),
            final(self)@ == blank_mirror(at_least_one(cols) as nat, at_least_one(rows) as nat),
    {
        let cols: u16 = if cols == 0 {
            1
        } else {
            cols
        };
        let rows: u16 = if rows == 0 {
            1
        } else {
            rows
        };
        self.cols = cols;
        self.rows = rows;
        proof {
            lemma_area(cols as int, rows as int, 65535, 65535);
        }
        let n: usize = cols as usize * rows as usize;
        let blank = Cell::empty();
        self.cells = vec![blank; n];
        self.wrapped = vec![false; rows as usize];
        self.dirty = vec![0u64; (rows as usize + 63) / 64];
        self.dirty_count = 0;
        assert forall|i: int| 0 <= i < n implies self.cells@[i] == empty_cell() by {
            assert(vstd::pervasive::cloned(blank, self.cells@[i]));
        }
        assert forall|i: int| 0 <= i < rows implies self.wrapped@[i] == false by {
            assert(vstd::pervasive::cloned(false, self.wrapped@[i]));
        }
        let ghost want = blank_mirror(cols as nat, rows as nat);
        proof {
            assert forall|r: int| 0 <= r < rows implies self@.rows[r] == want.rows[r] by {
                lemma_row_inside(r, cols as int, rows as int);
                assert(self.row_at(r) =~= fitted_row(Seq::empty(), cols as nat));
            }
            assert(self@.rows =~= want.rows);
            assert(self@.wrapped =~= want.wrapped);
        }
        self.fill_dirty();
        assert(self@.dirty =~= want.dirty);
    }

    /// Marks every row dirty.
    pub fn damage_all(&mut self)
        requires
            old(self).wf(),
        ensures
            final(self).wf(),
            final(self)@ == (MirrorView {
                dirty: Seq::new(old(self)@.rows.len(), |r: int| true),
                ..old(self)@
            }),
    {
        self.fill_dirty()
    }

    /// Sets the dirty bit of every row and clears the bits past the last one,
    /// so that the count stays exact.
    fn fill_dirty(&mut self)
        requires
            old(self).shaped(),
        ensures
            final(self).wf(),
            final(self)@ == (MirrorView {
                dirty: Seq::new(old(self)@.rows.len(), |r: int| true),
                ..old(self)@
            }),
    {
        let n: usize = self.dirty.len();
        let mut i: usize = 0;
        while i < n
            invariant
                i <= n == self.dirty@.len(),
                self.shaped(),
                self.cols == old(self).cols,
                self.rows == old(self).rows,
                self.cells == old(self).cells,
                self.wrapped == old(self).wrapped,
                forall|j: int| 0 <= j < i ==> self.dirty@[j] == 0xFFFF_FFFF_FFFF_FFFFu64,
            decreases n - i,
        {
            self.dirty.set(i, 0xFFFF_FFFF_FFFF_FFFFu64);
            i += 1;
        }
        let tail: usize = self.rows as usize % 64;
        if tail != 0 {
            proof {
                lemma_uniform_words(0, tail as u64);
            }
            self.dirty.set(n - 1, (1u64 << (tail as u64)) - 1);
        }
        self.dirty_count = self.rows as usize;
        proof {
            assert forall|r: int| 0 <= r < self.rows implies bit_at(self.dirty@, r) by {
                lemma_uniform_words((r % 64) as u64, tail as u64);
            }
            assert(self@.dirty =~= Seq::new(old(self)@.rows.len(), |r: int| true));
            lemma_count_uniform(self@.dirty, true);
            assert(self@.rows =~= old(self)@.rows);
        }
    }

    /// Marks every row clean.
    pub fn clear_damage(&mut self)
        requires
            old(self).wf(),
        ensures
            final(self).wf(),
            final(self)@ == (MirrorView {
                dirty: Seq::new(old(self)@.rows.len(), |r: int| false),
                ..old(self)@
            }),
    {
        let n: usize = self.dirty.len();
        let mut i: usize = 0;
        while i < n
            invariant
                i <= n == self.dirty@.len(),
                self.shaped(),
                self.cols == old(self).cols,
                self.rows == old(self).rows,
                self.cells == old(self).cells,
                self.wrapped == old(self).wrapped,
                forall|j: int| 0 <= j < i ==> self.dirty@[j] == 0,
            decreases n - i,
        {
            self.dirty.set(i, 0);
            i += 1;
        }
        self.dirty_count = 0;
        proof {
            assert forall|r: int| 0 <= r < self.rows implies !bit_at(self.dirty@, r) by {
                lemma_uniform_words((r % 64) as u64, 0);
            }
            assert(self@.dirty =~= Seq::new(old(self)@.rows.len(), |r: int| false));
            lemma_count_uniform(self@.dirty, false);
            assert(self@.rows =~= old(self)@.rows);
        }
    }

    /// Marks one row dirty. A row outside the grid is ignored.
    pub fn mark_dirty(&mut self, index: u16)
        requires
            old(self).wf(),
        ensures
            final(self).wf(),
            final(self)@ == (MirrorView {
                dirty: if index < old(self)@.dirty.len() {
                    old(self)@.dirty.update(index as int, true)
                } else {
                    old(self)@.dirty
                },
                ..old(self)@
            }),
    {
        if index >= self.rows {
            return ;
        }
        let word: usize = index as usize / 64;
        let bit: u64 = (index % 64) as u64;
        let w: u64 = self.dirty[word];
        proof {
            lemma_set_bit(w, bit, bit);
            law_count_of_dirty_rows(self@.dirty);
        }
        let ghost before = self@.dirty;
        if w & (1u64 << bit) == 0 {
            proof {
                lemma_count_set(before, index as int);
                law_count_of_dirty_rows(before.update(index as int, true));
            }
            self.dirty.set(word, w | (1u64 << bit));
            self.dirty_count = self.dirty_count + 1;
            assert forall|r: int| 0 <= r < self.rows implies bit_at(self.dirty@, r) == (r == index
                || before[r]) by {
                lemma_set_bit(w, bit, (r % 64) as u64);
            }
        }
        assert(self@.dirty =~= before.update(index as int, true));
        assert(self@.rows =~= old(self)@.rows);
    }

    pub fn has_damage(&self) -> (yes: bool)
        requires
            self.wf(),
        ensures
            yes == exists|r: int| 0 <= r < self@.rows.len() && self@.dirty[r],
    {
        proof {
            law_count_of_dirty_rows(self@.dirty);
        }
        self.dirty_count != 0
    }

    pub fn dirty_count(&self) -> (n: usize)
        requires
            self.wf(),
        ensures
            n == count_true(self@.dirty),
    {
        self.dirty_count
    }

    /// Whether a row is dirty. One outside the grid is not.
    pub fn is_dirty(&self, index: u16) -> (yes: bool)
        requires
            self.wf(),
        ensures
            yes == (index < self@.rows.len() && self@.dirty[index as int]),
    {
        if index >= self.rows {
            return false;
        }
        let w: u64 = self.dirty[index as usize / 64];
        proof {
            lemma_set_bit(w, (index % 64) as u64, 0);
        }
        w & (1u64 << ((index % 64) as u64)) != 0
    }

    /// A mirror is a rectangle: it has as many flags as rows, and its rows have
    /// its width.
    pub proof fn law_rectangular(&self)
        requires
            self.wf(),
        ensures
            rectangular(self@),
            1 <= self@.cols <= u16::MAX,
            1 <= self@.rows.len() <= u16::MAX,
    {
        assert forall|i: int| 0 <= i < self@.rows.len() implies (#[trigger] self@.rows[i]).len()
            == self@.cols by {
            self.lemma_row_len(i);
        }
    }

    /// A row has the mirror's width.
    proof fn lemma_row_len(&self, index: int)
        requires
            self.wf(),
            0 <= index < self@.rows.len(),
        ensures
            self@.rows[index].len() == self@.cols,
    {
        lemma_row_inside(index, self.cols as int, self.rows as int);
    }

    /// One row's cells.
    pub fn row(&self, index: u16) -> (cells: &[Cell])
        requires
            self.wf(),
            index < self@.rows.len(),
        ensures
            cells@ == self@.rows[index as int],
    {
        proof {
            lemma_row_inside(index as int, self.cols as int, self.rows as int);
            lemma_area(self.cols as int, self.rows as int, 65535, 65535);
        }
        let start: usize = index as usize * self.cols as usize;
        slice_subrange(self.cells.as_slice(), start, start + self.cols as usize)
    }

    /// Overwrites one row and marks it dirty only if it actually changed.
    ///
    /// Terminals report rows as damaged when the cursor merely passes through.
    /// Comparing here is what keeps an idle terminal from drawing.
    pub fn put_row(&mut self, index: u16, cells: &[Cell], wrapped: bool) -> (changed: bool)
        requires
            old(self).wf(),
        ensures
            final(self).wf(),
            changed == row_changes(old(self)@, index as int, cells@, wrapped),
            final(self)@ == with_row(old(self)@, index as int, cells@, wrapped),
    {
        if index >= self.rows {
            return false;
        }
        let cols: usize = self.cols as usize;
        proof {
            lemma_row_inside(index as int, cols as int, self.rows as int);
            lemma_area(self.cols as int, self.rows as int, 65535, 65535);
        }
        let start: usize = index as usize * cols;
        let ghost want = fitted_row(cells@, cols as nat);
        let ghost have = self@.rows[index as int];
        let blank = Cell::empty();

        let mut same = self.wrapped[index as usize] == wrapped;
        let mut i: usize = 0;
        while same && i < cols
            invariant
                self.wf(),
                *self == *old(self),
                cols == self.cols,
                index < self.rows,
                start == index * cols,
                start + cols <= self.cells@.len(),
                start + cols <= usize::MAX,
                i <= cols,
                blank == empty_cell(),
                want == fitted_row(cells@, cols as nat),
                have == self.row_at(index as int),
                same ==> self.wrapped@[index as int] == wrapped,
                same ==> forall|j: int| 0 <= j < i ==> have[j] == want[j],
                !same ==> have != want || self.wrapped@[index as int] != wrapped,
            decreases cols - i,
        {
            let c: Cell = if i < cells.len() {
                cells[i]
            } else {
                blank
            };
            if self.cells[start + i] != c {
                assert(have[i as int] != want[i as int]);
                same = false;
            }
            i += 1;
        }
        if same {
            assert(have =~= want);
            return false;
        }
        let mut k: usize = 0;
        while k < cols
            invariant
                self.shaped(),
                self.cols == old(self).cols,
                self.rows == old(self).rows,
                self.wrapped == old(self).wrapped,
                self.dirty == old(self).dirty,
                self.dirty_count == old(self).dirty_count,
                cols == self.cols,
                start == index * cols,
                start + cols <= self.cells@.len(),
                start + cols <= usize::MAX,
                k <= cols,
                blank == empty_cell(),
                want == fitted_row(cells@, cols as nat),
                forall|j: int| 0 <= j < k ==> self.cells@[start + j] == want[j],
                forall|j: int|
                    0 <= j < self.cells@.len() && !(start <= j < start + k) ==> self.cells@[j]
                        == old(self).cells@[j],
            decreases cols - k,
        {
            let c: Cell = if k < cells.len() {
                cells[k]
            } else {
                blank
            };
            self.cells.set(start + k, c);
            k += 1;
        }
        self.wrapped.set(index as usize, wrapped);
        proof {
            assert(self@.dirty =~= old(self)@.dirty);
            assert forall|r: int| 0 <= r < self.rows implies self@.rows[r] == old(
                self,
            )@.rows.update(index as int, want)[r] by {
                lemma_row_inside(r, cols as int, self.rows as int);
                if r == index {
                    assert(self.row_at(r) =~= want);
                } else {
                    lemma_rows_apart(r, index as int, cols as int);
                    assert(self.row_at(r) =~= old(self).row_at(r));
                }
            }
            assert(self@.rows =~= old(self)@.rows.update(index as int, want));
        }
        self.mark_dirty(index);
        true
    }

    /// The dirty rows, top to bottom.
    pub fn dirty_rows(&self) -> (rows: Vec<RowRef<'_>>)
        requires
            self.wf(),
        ensures
            rows@.len() == count_true(self@.dirty),
            forall|k: int|
                #![trigger rows@[k]]
                0 <= k < rows@.len() ==> {
                    let r = rows@[k];
                    &&& r.index < self@.rows.len()
                    &&& self@.dirty[r.index as int]
                    &&& r.cells@ == self@.rows[r.index as int]
                    &&& r.wrapped == self@.wrapped[r.index as int]
                },
            forall|j: int, k: int| 0 <= j < k < rows@.len() ==> rows@[j].index < rows@[k].index,
            forall|i: int|
                0 <= i < self@.rows.len() && #[trigger] self@.dirty[i] ==> exists|k: int|
                    0 <= k < rows@.len() && #[trigger] rows@[k].index == i,
    {
        let mut rows: Vec<RowRef<'_>> = Vec::new();
        let mut i: u16 = 0;
        while i < self.rows
            invariant
                self.wf(),
                i <= self.rows,
                rows@.len() == count_true(self@.dirty.take(i as int)),
                forall|k: int|
                    #![trigger rows@[k]]
                    0 <= k < rows@.len() ==> {
                        let r = rows@[k];
                        &&& r.index < i
                        &&& self@.dirty[r.index as int]
                        &&& r.cells@ == self@.rows[r.index as int]
                        &&& r.wrapped == self@.wrapped[r.index as int]
                    },
                forall|j: int, k: int| 0 <= j < k < rows@.len() ==> rows@[j].index < rows@[k].index,
                forall|d: int|
                    0 <= d < i && #[trigger] self@.dirty[d] ==> exists|k: int|
                        0 <= k < rows@.len() && #[trigger] rows@[k].index == d,
            decreases self.rows - i,
        {
            let ghost before = rows@;
            assert(self@.dirty.take(i + 1).drop_last() =~= self@.dirty.take(i as int));
            if self.is_dirty(i) {
                let r = RowRef { index: i, cells: self.row(i), wrapped: self.wrapped[i as usize] };
                rows.push(r);
                assert forall|d: int| 0 <= d < i + 1 && #[trigger] self@.dirty[d] implies exists|
                    k: int,
                |
                    0 <= k < rows@.len() && #[trigger] rows@[k].index == d by {
                    if d == i {
                        assert(rows@[before.len() as int].index == d);
                    } else {
                        let k = choose|k: int| 0 <= k < before.len() && before[k].index == d;
                        assert(rows@[k].index == d);
                    }
                }
            }
            i += 1;
        }
        assert(self@.dirty.take(i as int) =~= self@.dirty);
        rows
    }
}

/// `n`, but never zero.
pub open spec fn at_least_one(n: u16) -> u16 {
    if n == 0 {
        1
    } else {
        n
    }
}

proof fn lemma_area(w: int, h: int, w_max: int, h_max: int)
    requires
        0 <= w <= w_max,
        0 <= h <= h_max,
    ensures
        0 <= w * h <= w_max * h_max,
{
    assert(0 <= w * h <= w_max * h_max) by (nonlinear_arith)
        requires
            0 <= w <= w_max,
            0 <= h <= h_max,
    ;
}

proof fn lemma_row_inside(r: int, cols: int, rows: int)
    requires
        0 <= r < rows,
        cols >= 1,
    ensures
        0 <= r * cols,
        r * cols + cols <= cols * rows,
{
    assert(0 <= r * cols && r * cols + cols <= cols * rows) by (nonlinear_arith)
        requires
            0 <= r < rows,
            cols >= 1,
    ;
}

proof fn lemma_rows_apart(a: int, b: int, cols: int)
    requires
        a != b,
        cols >= 1,
    ensures
        a * cols + cols <= b * cols || b * cols + cols <= a * cols,
{
    assert(a * cols + cols <= b * cols || b * cols + cols <= a * cols) by (nonlinear_arith)
        requires
            a != b,
            cols >= 1,
    ;
}

/// What is written to a row is read back from it: its cells from the left, then
/// untouched ones, and whether it goes on. Every other row stays, and the row is
/// dirty exactly where it was or where something in it became different.
pub proof fn law_a_written_row_is_read_back(
    m: MirrorView,
    index: int,
    cells: Seq<Cell>,
    wrapped: bool,
)
    requires
        rectangular(m),
        0 <= index < m.rows.len(),
    ensures
        ({
            let after = with_row(m, index, cells, wrapped);
            &&& rectangular(after)
            &&& after.cols == m.cols
            &&& after.rows.len() == m.rows.len()
            &&& forall|c: int|
                0 <= c < m.cols && c < cells.len() ==> #[trigger] after.rows[index][c] == cells[c]
            &&& forall|c: int|
                cells.len() <= c < m.cols ==> (#[trigger] after.rows[index][c]).is_empty_cell()
            &&& after.wrapped[index] == wrapped
            &&& after.dirty[index] == (m.dirty[index] || after.rows[index] != m.rows[index]
                || after.wrapped[index] != m.wrapped[index])
            &&& forall|r: int|
                0 <= r < m.rows.len() && r != index ==> #[trigger] after.rows[r] == m.rows[r]
            &&& forall|r: int|
                0 <= r < m.rows.len() && r != index ==> #[trigger] after.wrapped[r] == m.wrapped[r]
            &&& forall|r: int|
                0 <= r < m.rows.len() && r != index ==> #[trigger] after.dirty[r] == m.dirty[r]
        }),
{
    let after = with_row(m, index, cells, wrapped);
    assert(after.rows[index] == fitted_row(cells, m.cols));
    lemma_the_empty_cell();
}

/// A new mirror shows untouched cells, no line of which goes on, and all of it
/// has to be drawn.
pub proof fn law_a_new_mirror_is_blank_and_dirty(cols: nat, rows: nat, r: int, c: int)
    requires
        0 <= r < rows,
        0 <= c < cols,
    ensures
        rectangular(blank_mirror(cols, rows)),
        blank_mirror(cols, rows).cols == cols,
        blank_mirror(cols, rows).rows.len() == rows,
        blank_mirror(cols, rows).rows[r][c].is_empty_cell(),
        !blank_mirror(cols, rows).wrapped[r],
        blank_mirror(cols, rows).dirty[r],
{
    lemma_the_empty_cell();
}

/// Counting the dirty rows counts each once.
pub proof fn law_each_dirty_row_counts_once(s: Seq<bool>, i: int)
    requires
        0 <= i < s.len(),
        !s[i],
    ensures
        count_true(s.update(i, true)) == count_true(s) + 1,
{
    lemma_count_set(s, i);
}

/// A size is taken as it is, but nothing counts as one.
pub proof fn law_a_size_is_at_least_one(n: u16)
    ensures
        n > 0 ==> at_least_one(n) == n,
        n == 0 ==> at_least_one(n) == 1,
{
}

} // verus!
