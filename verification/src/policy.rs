//! The value estimate of every state and action, and the action chosen for
//! every state.
//!
//! Both tables are dense arrays of the `ndarray` crate. An expected return is
//! kept as the bit pattern of a double-precision number, so that a table never
//! holds anything but integers; the all-zero pattern is the number zero.

use vstd::prelude::*;

verus! {

/// A three-dimensional array of value bit patterns. What it holds is known to
/// the verifier only through [`value_cells`].
#[verifier::external_body]
pub struct ValueGrid {
    cells: ndarray::Array3<u64>,
}

/// A two-dimensional array of actions. What it holds is known to the verifier
/// only through [`action_cells`].
#[verifier::external_body]
pub struct ActionGrid {
    cells: ndarray::Array2<i8>,
}

/// The cells of a value grid, each under its index along the three axes.
pub uninterp spec fn value_cells(g: ValueGrid) -> Map<(int, int, int), u64>;

/// The cells of an action grid, each under its index along the two axes.
pub uninterp spec fn action_cells(g: ActionGrid) -> Map<(int, int), i8>;

/// Whether the value grid has exactly the cells of a `d0 × d1 × d2` box.
pub open spec fn value_shape(g: ValueGrid, d0: int, d1: int, d2: int) -> bool {
    forall|i: int, j: int, k: int|
        #[trigger] value_cells(g).dom().contains((i, j, k)) <==> (0 <= i < d0 && 0 <= j < d1 && 0
            <= k < d2)
}

/// Whether the action grid has exactly the cells of a `d0 × d1` box.
pub open spec fn action_shape(g: ActionGrid, d0: int, d1: int) -> bool {
    forall|i: int, j: int| #[trigger]
        action_cells(g).dom().contains((i, j)) <==> (0 <= i < d0 && 0 <= j < d1)
}

/// `ndarray::Array3::zeros` on the shape `(d0, d1, d2)`: an array of that
/// shape with zero in every cell. The sizes are kept small enough that their
/// product cannot pass the largest `isize`, where `zeros` would panic.
#[verifier::external_body]
fn zero_values(d0: usize, d1: usize, d2: usize) -> (g: ValueGrid)
    requires
        d0 <= 256,
        d1 <= 256,
        d2 <= 256,
    ensures
        value_shape(g, d0 as int, d1 as int, d2 as int),
        forall|i: int, j: int, k: int|
            0 <= i < d0 && 0 <= j < d1 && 0 <= k < d2 ==> #[trigger] value_cells(g)[(i, j, k)]
                == 0,
{
    ValueGrid { cells: ndarray::Array3::<u64>::zeros((d0, d1, d2)) }
}

/// `ndarray::ArrayBase::dim` on a three-dimensional array: the lengths of its
/// axes, which bound the indices of its cells.
#[verifier::external_body]
fn value_dim(g: &ValueGrid) -> (d: (usize, usize, usize))
    ensures
        value_shape(*g, d.0 as int, d.1 as int, d.2 as int),
{
    g.cells.dim()
}

/// Indexing of a three-dimensional `ndarray` array by `[[i, j, k]]`: the cell
/// at that index. An index outside the array, where indexing panics, is left
/// out.
#[verifier::external_body]
fn read_value(g: &ValueGrid, i: usize, j: usize, k: usize) -> (v: u64)
    requires
        value_cells(*g).dom().contains((i as int, j as int, k as int)),
    ensures
        v == value_cells(*g)[(i as int, j as int, k as int)],
{
    g.cells[[i, j, k]]
}

/// Assignment through the mutable indexing of a three-dimensional `ndarray`
/// array by `[[i, j, k]]`: that cell takes the new value, every other cell
/// and the shape stay. An index outside the array, where indexing panics, is
/// left out.
#[verifier::external_body]
fn write_value(g: &mut ValueGrid, i: usize, j: usize, k: usize, v: u64)
    requires
        value_cells(*old(g)).dom().contains((i as int, j as int, k as int)),
    ensures
        value_cells(*final(g)) == value_cells(*old(g)).insert((i as int, j as int, k as int), v),
{
    g.cells[[i, j, k]] = v;
}

/// `ndarray::Array2::zeros` on the shape `(d0, d1)`: an array of that shape
/// with zero in every cell. The sizes are kept small enough that their
/// product cannot pass the largest `isize`, where `zeros` would panic.
#[verifier::external_body]
fn zero_actions(d0: usize, d1: usize) -> (g: ActionGrid)
    requires
        d0 <= 256,
        d1 <= 256,
    ensures
        action_shape(g, d0 as int, d1 as int),
        forall|i: int, j: int|
            0 <= i < d0 && 0 <= j < d1 ==> #[trigger] action_cells(g)[(i, j)] == 0,
{
    ActionGrid { cells: ndarray::Array2::<i8>::zeros((d0, d1)) }
}

/// `ndarray::ArrayBase::dim` on a two-dimensional array: the lengths of its
/// axes, which bound the indices of its cells.
#[verifier::external_body]
fn action_dim(g: &ActionGrid) -> (d: (usize, usize))
    ensures
        action_shape(*g, d.0 as int, d.1 as int),
{
    g.cells.dim()
}

/// Indexing of a two-dimensional `ndarray` array by `[[i, j]]`: the cell at
/// that index. An index outside the array, where indexing panics, is left
/// out.
#[verifier::external_body]
fn read_action(g: &ActionGrid, i: usize, j: usize) -> (a: i8)
    requires
        action_cells(*g).dom().contains((i as int, j as int)),
    ensures
        a == action_cells(*g)[(i as int, j as int)],
{
    g.cells[[i, j]]
}

/// The value estimates and chosen actions for every state of two lots.
///
/// A value is found under the cars on the first lot, the cars on the second
/// lot, and the action; an action is found under the two car counts. Actions
/// run from `-max_move` to `max_move`.
pub struct Policy {
    /// The most cars that the first lot holds.
    pub max1: u8,
    /// The most cars that the second lot holds.
    pub max2: u8,
    /// The most cars that can be moved overnight.
    pub max_move: u8,
    /// Value bit patterns under `(n1, n2, a + max_move)`.
    pub action_value: ValueGrid,
    /// Chosen actions under `(n1, n2)`.
    pub policy: ActionGrid,
}

impl Policy {
    /// Whether both tables have the shapes that the three bounds call for and
    /// every action fits its type.
    pub open spec fn wf(&self) -> bool {
        &&& self.max_move <= 127
        &&& value_shape(
            self.action_value,
            self.max1 + 1,
            self.max2 + 1,
            2 * self.max_move + 1,
        )
        &&& action_shape(self.policy, self.max1 + 1, self.max2 + 1)
    }

    /// Whether the table has a value for `a` cars moved with `n1` and `n2`
    /// cars on the lots.
    pub open spec fn covers(&self, n1: int, n2: int, a: int) -> bool {
        &&& 0 <= n1 <= self.max1
        &&& 0 <= n2 <= self.max2
        &&& -self.max_move <= a <= self.max_move
    }

    /// The value bit pattern kept for `a` cars moved with `n1` and `n2` cars
    /// on the lots.
    #[verifier::inline]
    pub open spec fn value_at(&self, n1: int, n2: int, a: int) -> u64 {
        value_cells(self.action_value)[(n1, n2, a + self.max_move)]
    }

    /// The action kept for `n1` and `n2` cars on the lots.
    #[verifier::inline]
    pub open spec fn action_at(&self, n1: int, n2: int) -> i8 {
        action_cells(self.policy)[(n1, n2)]
    }

    /// Tables for lots of `max1` and `max2` cars and moves of up to
    /// `max_move` cars, with every value and every action zero.
    pub fn new(max1: u8, max2: u8, max_move: u8) -> (p: Policy)
        requires
            max_move <= 127,
        ensures
            p.wf(),
            p.max1 == max1,
            p.max2 == max2,
            p.max_move == max_move,
            forall|n1: int, n2: int, a: int|
                p.covers(n1, n2, a) ==> #[trigger] p.value_at(n1, n2, a) == 0,
            forall|n1: int, n2: int|
                0 <= n1 <= max1 && 0 <= n2 <= max2 ==> #[trigger] p.action_at(n1, n2) == 0,
    {
        let total_moves: usize = max_move as usize * 2 + 1;
        let action_value = zero_values(max1 as usize + 1, max2 as usize + 1, total_moves);
        let policy_array = zero_actions(max1 as usize + 1, max2 as usize + 1);
        Policy { max1, max2, max_move, action_value, policy: policy_array }
    }

    /// The value bit pattern kept for the state `(n1, n2)` and the action `a`.
    pub fn get_value(&self, n1: u8, n2: u8, a: i8) -> (v: u64)
        requires
            self.wf(),
            self.covers(n1 as int, n2 as int, a as int),
        ensures
            v == self.value_at(n1 as int, n2 as int, a as int),
    {
        let a_idx: usize = (a as i16 + self.max_move as i16) as usize;
        read_value(&self.action_value, n1 as usize, n2 as usize, a_idx)
    }

    /// Keeps `v` as the value bit pattern for the state `(n1, n2)` and the
    /// action `a`, and leaves everything else as it was.
    pub fn set_value(&mut self, n1: u8, n2: u8, a: i8, v: u64)
        requires
            old(self).wf(),
            old(self).covers(n1 as int, n2 as int, a as int),
        ensures
            final(self).wf(),
            final(self).max1 == old(self).max1,
            final(self).max2 == old(self).max2,
            final(self).max_move == old(self).max_move,
            final(self).policy == old(self).policy,
            forall|m1: int, m2: int| #[trigger]
                final(self).action_at(m1, m2) == old(self).action_at(m1, m2),
            final(self).value_at(n1 as int, n2 as int, a as int) == v,
            forall|m1: int, m2: int, b: int|
                old(self).covers(m1, m2, b) && (m1, m2, b) != (n1 as int, n2 as int, a as int)
                    ==> #[trigger] final(self).value_at(m1, m2, b) == old(self).value_at(
                    m1,
                    m2,
                    b,
                ),
    {
        let a_idx: usize = (a as i16 + self.max_move as i16) as usize;
        write_value(&mut self.action_value, n1 as usize, n2 as usize, a_idx, v);
    }

    /// The lengths of the value table's three axes.
    pub fn value_dim(&self) -> (d: (usize, usize, usize))
        requires
            self.wf(),
        ensures
            d.0 == self.max1 + 1,
            d.1 == self.max2 + 1,
            d.2 == 2 * self.max_move + 1,
    {
        let d = value_dim(&self.action_value);
        proof {
            lemma_value_shape_unique(
                self.action_value,
                (d.0 as int, d.1 as int, d.2 as int),
                (self.max1 + 1, self.max2 + 1, 2 * self.max_move + 1),
            );
        }
        d
    }

    /// The lengths of the action table's two axes.
    pub fn policy_dim(&self) -> (d: (usize, usize))
        requires
            self.wf(),
        ensures
            d.0 == self.max1 + 1,
            d.1 == self.max2 + 1,
    {
        let d = action_dim(&self.policy);
        proof {
            lemma_action_shape_unique(
                self.policy,
                (d.0 as int, d.1 as int),
                (self.max1 + 1, self.max2 + 1),
            );
        }
        d
    }

    /// The action kept for the state `(n1, n2)`.
    pub fn get_action(&self, n1: u8, n2: u8) -> (a: i8)
        requires
            self.wf(),
            n1 <= self.max1,
            n2 <= self.max2,
        ensures
            a == self.action_at(n1 as int, n2 as int),
    {
        read_action(&self.policy, n1 as usize, n2 as usize)
    }
}

/// A value grid with a cell has only one shape.
pub proof fn lemma_value_shape_unique(g: ValueGrid, d: (int, int, int), e: (int, int, int))
    requires
        value_shape(g, d.0, d.1, d.2),
        value_shape(g, e.0, e.1, e.2),
        e.0 > 0,
        e.1 > 0,
        e.2 > 0,
    ensures
        d == e,
{
    let cells = value_cells(g).dom();
    assert(cells.contains((e.0 - 1, e.1 - 1, e.2 - 1)));
    assert(cells.contains((0, 0, 0)));
    if d.0 > e.0 {
        assert(cells.contains((e.0, 0, 0)));
    }
    if d.1 > e.1 {
        assert(cells.contains((0, e.1, 0)));
    }
    if d.2 > e.2 {
        assert(cells.contains((0, 0, e.2)));
    }
}

/// An action grid with a cell has only one shape.
pub proof fn lemma_action_shape_unique(g: ActionGrid, d: (int, int), e: (int, int))
    requires
        action_shape(g, d.0, d.1),
        action_shape(g, e.0, e.1),
        e.0 > 0,
        e.1 > 0,
    ensures
        d == e,
{
    let cells = action_cells(g).dom();
    assert(cells.contains((e.0 - 1, e.1 - 1)));
    assert(cells.contains((0, 0)));
    if d.0 > e.0 {
        assert(cells.contains((e.0, 0)));
    }
    if d.1 > e.1 {
        assert(cells.contains((0, e.1)));
    }
}

} // verus!
