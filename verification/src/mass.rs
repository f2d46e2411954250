//! Probabilities in exact, symbolic form.
//!
//! A chance under a Poisson law is kept as the name of a point mass or of a
//! tail mass, not as a number. The tables of rental and return chances are
//! dense arrays of the `ndarray` crate that hold such names, and what is
//! proved of them holds whatever numbers the point masses are.

use vstd::prelude::*;

verus! {

/// A probability under a Poisson law, in symbolic form.
#[derive(Debug, Clone, Copy, PartialEq, Eq, Structural)]
pub enum Mass {
    /// The impossible: probability zero.
    Zero,
    /// The certain: probability one.
    One,
    /// The probability of exactly this many events.
    Point(u8),
    /// The probability of more than this many events: one less the cumulative
    /// probability up to and including this many.
    Tail(u8),
}

/// The chance that a lot with `n` cars, which holds at most `max_n`, rents
/// out `x` of them: fewer than all by the point mass, all of them by the tail
/// that is left, so that every demand beyond the lot counts as renting it
/// empty.
pub open spec fn rent_mass(n: int, x: int, max_n: int) -> Mass {
    if n > max_n {
        Mass::Zero
    } else if n == 0 && x == 0 {
        Mass::One
    } else if x < n {
        Mass::Point(x as u8)
    } else if x == n {
        Mass::Tail((n - 1) as u8)
    } else {
        Mass::Zero
    }
}

/// The chance that a lot with `n` cars, which holds at most `max_n`, takes
/// back `y` cars: fewer than its free places by the point mass, exactly its
/// free places by the tail that is left, and none but zero when it is full.
pub open spec fn return_mass(n: int, y: int, max_n: int) -> Mass {
    if n > max_n || y > max_n - n {
        Mass::Zero
    } else if n == max_n {
        Mass::One
    } else if y < max_n - n {
        Mass::Point(y as u8)
    } else {
        Mass::Tail((max_n - n - 1) as u8)
    }
}

/// A two-dimensional `ndarray` array of masses. What it holds is known to the
/// verifier only through [`mass_cells`].
#[verifier::external_body]
pub struct MassGrid {
    cells: ndarray::Array2<Mass>,
}

/// The cells of a mass grid, each under its index along the two axes.
pub uninterp spec fn mass_cells(g: MassGrid) -> Map<(int, int), Mass>;

/// Whether the grid has exactly the cells of a `d0 × d1` box.
pub open spec fn mass_shape(g: MassGrid, d0: int, d1: int) -> bool {
    forall|i: int, j: int| #[trigger]
        mass_cells(g).dom().contains((i, j)) <==> (0 <= i < d0 && 0 <= j < d1)
}

/// `ndarray::Array2::from_elem` on the shape `(d0, d1)`: an array of that
/// shape with a copy of `fill` in every cell. The sizes are kept small
/// enough that their product cannot pass the largest `isize`, where
/// `from_elem` would panic.
#[verifier::external_body]
pub(crate) fn filled_masses(d0: usize, d1: usize, fill: Mass) -> (g: MassGrid)
    requires
        d0 <= 256,
        d1 <= 256,
    ensures
        mass_shape(g, d0 as int, d1 as int),
        forall|i: int, j: int|
            0 <= i < d0 && 0 <= j < d1 ==> #[trigger] mass_cells(g)[(i, j)] == fill,
{
    MassGrid { cells: ndarray::Array2::from_elem((d0, d1), fill) }
}

/// `ndarray::ArrayBase::dim` on a two-dimensional array: the lengths of its
/// axes, which bound the indices of its cells.
#[verifier::external_body]
pub(crate) fn mass_dim(g: &MassGrid) -> (d: (usize, usize))
    ensures
        mass_shape(*g, d.0 as int, d.1 as int),
{
    g.cells.dim()
}

/// Indexing of a two-dimensional `ndarray` array by `[[i, j]]`: the cell at
/// that index. An index outside the array, where indexing panics, is left
/// out.
#[verifier::external_body]
pub(crate) fn read_mass(g: &MassGrid, i: usize, j: usize) -> (m: Mass)
    requires
        mass_cells(*g).dom().contains((i as int, j as int)),
    ensures
        m == mass_cells(*g)[(i as int, j as int)],
{
    g.cells[[i, j]]
}

/// Assignment through the mutable indexing of a two-dimensional `ndarray`
/// array by `[[i, j]]`: that cell takes the new mass, every other cell and
/// the shape stay. An index outside the array, where indexing panics, is left
/// out.
#[verifier::external_body]
pub(crate) fn write_mass(g: &mut MassGrid, i: usize, j: usize, m: Mass)
    requires
        mass_cells(*old(g)).dom().contains((i as int, j as int)),
    ensures
        mass_cells(*final(g)) == mass_cells(*old(g)).insert((i as int, j as int), m),
{
    g.cells[[i, j]] = m;
}

impl MassGrid {
    /// The mass in row `n` and column `x`.
    #[verifier::inline]
    pub open spec fn at(self, n: int, x: int) -> Mass {
        mass_cells(self)[(n, x)]
    }

    /// The first `width` masses of row `n`.
    pub open spec fn row(self, n: int, width: int) -> Seq<Mass> {
        Seq::new(width as nat, |x: int| self.at(n, x))
    }

    /// The lengths of the two axes.
    pub fn dim(&self) -> (d: (usize, usize))
        ensures
            mass_shape(*self, d.0 as int, d.1 as int),
    {
        mass_dim(self)
    }

    /// The mass in row `n` and column `x`, where the grid has such a cell.
    pub fn get(&self, n: usize, x: usize) -> (m: Option<Mass>)
        ensures
            m == if mass_cells(*self).dom().contains((n as int, x as int)) {
                Some(self.at(n as int, x as int))
            } else {
                None
            },
    {
        let d = mass_dim(self);
        if n < d.0 && x < d.1 {
            Some(read_mass(self, n, x))
        } else {
            None
        }
    }
}

/// Whether `t` is the table of rental chances for a lot of `max_n` cars: a
/// row for each number of cars on the lot, a column for each number rented.
pub open spec fn is_rent_table(t: MassGrid, max_n: int) -> bool {
    &&& mass_shape(t, max_n + 1, max_n + 1)
    &&& forall|n: int, x: int|
        0 <= n <= max_n && 0 <= x <= max_n ==> #[trigger] t.at(n, x) == rent_mass(n, x, max_n)
}

/// Whether `t` is the table of return chances for a lot of `max_n` cars: a
/// row for each number of cars on the lot, a column for each number returned.
pub open spec fn is_return_table(t: MassGrid, max_n: int) -> bool {
    &&& mass_shape(t, max_n + 1, max_n + 1)
    &&& forall|n: int, y: int|
        0 <= n <= max_n && 0 <= y <= max_n ==> #[trigger] t.at(n, y) == return_mass(n, y, max_n)
}

/// The sum of the point masses of `0 ..= k` under the point-mass function
/// `pmf`.
pub open spec fn cumulative(pmf: spec_fn(int) -> int, k: int) -> int
    decreases k + 1,
{
    if k < 0 {
        0
    } else {
        cumulative(pmf, k - 1) + pmf(k)
    }
}

/// The weight of a mass when `whole` stands for certainty and `pmf` gives the
/// point masses.
pub open spec fn weight(m: Mass, pmf: spec_fn(int) -> int, whole: int) -> int {
    match m {
        Mass::Zero => 0,
        Mass::One => whole,
        Mass::Point(k) => pmf(k as int),
        Mass::Tail(k) => whole - cumulative(pmf, k as int),
    }
}

/// The weights of a row of masses, added up.
pub open spec fn row_weight(row: Seq<Mass>, pmf: spec_fn(int) -> int, whole: int) -> int
    decreases row.len(),
{
    if row.len() == 0 {
        0
    } else {
        row_weight(row.drop_last(), pmf, whole) + weight(row.last(), pmf, whole)
    }
}

/// The row of rental chances for a lot with `n` cars.
pub open spec fn rent_row(n: int, max_n: int) -> Seq<Mass> {
    Seq::new((max_n + 1) as nat, |x: int| rent_mass(n, x, max_n))
}

/// The row of return chances for a lot with `n` cars.
pub open spec fn return_row(n: int, max_n: int) -> Seq<Mass> {
    Seq::new((max_n + 1) as nat, |y: int| return_mass(n, y, max_n))
}

/// The first `w` rental chances of a row add up to the cumulative mass while
/// the lot is not yet rented empty, and to the whole from then on.
proof fn lemma_rent_prefix(n: int, max_n: int, w: int, pmf: spec_fn(int) -> int, whole: int)
    requires
        0 <= n <= max_n <= 255,
        0 <= w <= max_n + 1,
    ensures
        row_weight(rent_row(n, max_n).take(w), pmf, whole) == if w <= n {
            cumulative(pmf, w - 1)
        } else {
            whole
        },
    decreases w,
{
    let row = rent_row(n, max_n);
    if w > 0 {
        lemma_rent_prefix(n, max_n, w - 1, pmf, whole);
        assert(row.take(w).drop_last() =~= row.take(w - 1));
        assert(row.take(w).last() == rent_mass(n, w - 1, max_n));
    }
}

/// The first `w` return chances of a row add up to the cumulative mass while
/// the lot is not yet filled, and to the whole from then on.
proof fn lemma_return_prefix(n: int, max_n: int, w: int, pmf: spec_fn(int) -> int, whole: int)
    requires
        0 <= n <= max_n <= 255,
        0 <= w <= max_n + 1,
    ensures
        row_weight(return_row(n, max_n).take(w), pmf, whole) == if w <= max_n - n {
            cumulative(pmf, w - 1)
        } else {
            whole
        },
    decreases w,
{
    let row = return_row(n, max_n);
    if w > 0 {
        lemma_return_prefix(n, max_n, w - 1, pmf, whole);
        assert(row.take(w).drop_last() =~= row.take(w - 1));
        assert(row.take(w).last() == return_mass(n, w - 1, max_n));
    }
}

/// The rental chances of a lot with `n` cars add up to the whole, whatever
/// the point masses are: the tail mass at "all cars rented" makes up exactly
/// for the point masses before it.
pub proof fn lemma_rent_row_whole(n: int, max_n: int, pmf: spec_fn(int) -> int, whole: int)
    requires
        0 <= n <= max_n <= 255,
    ensures
        row_weight(rent_row(n, max_n), pmf, whole) == whole,
{
    let row = rent_row(n, max_n);
    lemma_rent_prefix(n, max_n, max_n + 1, pmf, whole);
    assert(row.take(max_n + 1) =~= row);
}

/// The return chances of a lot with `n` cars add up to the whole, whatever
/// the point masses are: the tail mass at "lot filled" makes up exactly for
/// the point masses before it.
pub proof fn lemma_return_row_whole(n: int, max_n: int, pmf: spec_fn(int) -> int, whole: int)
    requires
        0 <= n <= max_n <= 255,
    ensures
        row_weight(return_row(n, max_n), pmf, whole) == whole,
{
    let row = return_row(n, max_n);
    lemma_return_prefix(n, max_n, max_n + 1, pmf, whole);
    assert(row.take(max_n + 1) =~= row);
}

/// Every row of a rental table adds up to the whole, whatever the point
/// masses are.
pub proof fn lemma_rent_table_rows_whole(
    t: MassGrid,
    max_n: int,
    n: int,
    pmf: spec_fn(int) -> int,
    whole: int,
)
    requires
        is_rent_table(t, max_n),
        0 <= n <= max_n <= 255,
    ensures
        t.row(n, max_n + 1) == rent_row(n, max_n),
        row_weight(t.row(n, max_n + 1), pmf, whole) == whole,
{
    lemma_rent_row_whole(n, max_n, pmf, whole);
    assert(t.row(n, max_n + 1) =~= rent_row(n, max_n));
}

/// Every row of a return table adds up to the whole, whatever the point
/// masses are; the row of a full lot has the whole in its first column and
/// nothing after it.
pub proof fn lemma_return_table_rows_whole(
    t: MassGrid,
    max_n: int,
    n: int,
    pmf: spec_fn(int) -> int,
    whole: int,
)
    requires
        is_return_table(t, max_n),
        0 <= n <= max_n <= 255,
    ensures
        t.row(n, max_n + 1) == return_row(n, max_n),
        row_weight(t.row(n, max_n + 1), pmf, whole) == whole,
        n == max_n ==> t.at(n, 0) == Mass::One,
        n == max_n ==> forall|y: int| 0 < y <= max_n ==> #[trigger] t.at(n, y) == Mass::Zero,
{
    lemma_return_row_whole(n, max_n, pmf, whole);
    assert(t.row(n, max_n + 1) =~= return_row(n, max_n));
}

/// The point masses of `0 ..= k` never add up to less than nothing or to more
/// than those of `0 ..= top`, where none of them is negative.
proof fn lemma_cumulative_grows(pmf: spec_fn(int) -> int, k: int, top: int)
    requires
        forall|i: int| 0 <= i <= top ==> #[trigger] pmf(i) >= 0,
        k <= top,
    ensures
        0 <= cumulative(pmf, k) <= cumulative(pmf, top),
    decreases top - k, k + 1,
{
    if k >= 0 {
        lemma_cumulative_grows(pmf, k - 1, k - 1);
    }
    if k < top {
        lemma_cumulative_grows(pmf, k + 1, top);
        if k + 1 >= 0 {
            assert(cumulative(pmf, k + 1) == cumulative(pmf, k) + pmf(k + 1));
        }
    }
}

/// Where no point mass is negative and all of them together are no more than
/// the whole, every mass weighs between nothing and the whole.
pub proof fn lemma_weight_in_range(m: Mass, pmf: spec_fn(int) -> int, whole: int)
    requires
        forall|i: int| 0 <= i <= 255 ==> #[trigger] pmf(i) >= 0,
        cumulative(pmf, 255) <= whole,
    ensures
        0 <= weight(m, pmf, whole) <= whole,
{
    lemma_cumulative_grows(pmf, 255, 255);
    match m {
        Mass::Point(k) => {
            lemma_cumulative_grows(pmf, k as int, 255);
            lemma_cumulative_grows(pmf, k - 1, 255);
        },
        Mass::Tail(k) => {
            lemma_cumulative_grows(pmf, k as int, 255);
        },
        _ => {},
    }
}

/// The chance of one outcome as the product of four independent chances:
/// rentals and returns at the first lot, rentals and returns at the second.
#[derive(Debug, Clone, Copy, PartialEq, Eq, Structural)]
pub struct JointMass {
    /// The chance of the rentals at the first lot.
    pub rent1: Mass,
    /// The chance of the returns at the first lot.
    pub return1: Mass,
    /// The chance of the rentals at the second lot.
    pub rent2: Mass,
    /// The chance of the returns at the second lot.
    pub return2: Mass,
}

} // verus!
