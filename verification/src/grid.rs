//! Index arithmetic of regular grids, as the overlays need it: finding the
//! grid cell around a coordinate, the position of a grid point in the list
//! of values, the coordinate axes of a grid, and which grid points carry an
//! arrow at a zoom level.
use vstd::prelude::*;

verus! {

// ---------------------------------------------------------------------------
// The cell around a coordinate
// ---------------------------------------------------------------------------

/// The index `i` that `first_bigger_than` derives from the outcome of a
/// binary search for a target in a sorted list of `len` elements: `Ok(i)`
/// when the target sits at `i`, `Err(i)` when it would be inserted at `i`.
pub open spec fn cell_upper_index(search: Result<usize, usize>, len: int) -> int {
    match search {
        Ok(i) => if i > 0 {
            i as int
        } else {
            1
        },
        Err(i) => if i >= len {
            i - 1
        } else if i == 0 {
            1
        } else {
            i as int
        },
    }
}

/// Finds `i` such that `sorted[i-1] <= target <= sorted[i]`, from the
/// outcome of a binary search for `target` in `sorted` (of length `len`):
/// 1 when the target is below all elements, `len - 1` when it is above all.
/// For a list of two or more elements, `sorted[i-1]` and `sorted[i]` always
/// exist.
pub fn first_bigger_than_position(search: Result<usize, usize>, len: usize) -> (r: usize)
    requires
        search matches Err(i) ==> (i >= len ==> i > 0),
    ensures
        r == cell_upper_index(search, len as int),
        len >= 2 && (match search {
            Ok(i) => i < len,
            Err(i) => i <= len,
        }) ==> 1 <= r <= len - 1,
{
    match search {
        Ok(i) => {
            if i > 0 {
                i
            } else {
                1
            }
        },
        Err(i) => {
            if i >= len {
                i - 1
            } else if i == 0 {
                1
            } else {
                i
            }
        },
    }
}

/// The list is sorted in increasing order (ties allowed).
pub open spec fn sorted_values(s: Seq<int>) -> bool {
    forall|a: int, b: int| 0 <= a <= b < s.len() ==> s[a] <= s[b]
}

/// `search` is what a binary search for `target` in `s` may give: `Ok(i)`
/// with `s[i] == target`, or `Err(i)` with every element before `i` below
/// the target and every element from `i` on above it.
pub open spec fn is_search_outcome(s: Seq<int>, target: int, search: Result<usize, usize>) -> bool {
    match search {
        Ok(i) => i < s.len() && s[i as int] == target,
        Err(i) => i <= s.len() && (forall|a: int| 0 <= a < i ==> s[a] < target) && (forall|a: int|
            i <= a < s.len() ==> s[a] > target),
    }
}

/// For a sorted list of two or more values and the outcome of a binary
/// search for a target, the position `r` that `first_bigger_than_position`
/// gives bounds a cell of the list: `1 <= r <= len - 1`; where the target
/// lies within the list, `s[r - 1] <= target <= s[r]`; below the list the
/// first cell (`r == 1`), above it the last (`r == len - 1`).
pub proof fn lemma_cell_around_target(s: Seq<int>, target: int, search: Result<usize, usize>)
    requires
        2 <= s.len() <= usize::MAX,
        sorted_values(s),
        is_search_outcome(s, target, search),
    ensures
        ({
            let r = cell_upper_index(search, s.len() as int);
            &&& 1 <= r <= s.len() - 1
            &&& s[0] <= target <= s[s.len() - 1] ==> s[r - 1] <= target <= s[r]
            &&& target < s[0] ==> r == 1
            &&& target > s[s.len() - 1] ==> r == s.len() - 1
        }),
{
    let n = s.len() as int;
    match search {
        Ok(i) => {
            if i > 0 {
                assert(s[i - 1] <= s[i as int]);
            } else {
                assert(s[0] <= s[1]);
            }
        },
        Err(i) => {
            if i >= n {
                assert(s[n - 1] < target);
            } else if i == 0 {
                assert(s[0] > target);
            } else {
                assert(s[i - 1] < target);
                assert(s[i as int] > target);
            }
        },
    }
}

// ---------------------------------------------------------------------------
// Position of a grid point among the values
// ---------------------------------------------------------------------------

/// The last position in `points` that holds `p`, if any.
pub open spec fn last_position(points: Seq<(usize, usize)>, p: (usize, usize)) -> Option<usize>
    decreases points.len(),
{
    if points.len() == 0 {
        None
    } else if points.last() == p {
        Some((points.len() - 1) as usize)
    } else {
        last_position(points.drop_last(), p)
    }
}

/// Where each grid point (i, j) of an `ni` by `nj` grid sits in the list of
/// values, given the grid points in the order of the values. The positions
/// are held in a table with one cell per grid point, row `i` after row `i -
/// 1`, rather than a map keyed by the point: the points of a grid are known
/// in advance, and vstd's `HashMap` specification gives no contents for pair
/// keys.
pub struct GridIndex {
    ni: usize,
    nj: usize,
    table: Vec<Option<usize>>,
    points: Ghost<Seq<(usize, usize)>>,
}

impl GridIndex {
    /// What `get` answers for grid point (i, j): the last position of the
    /// point among the listed grid points, for a point of the grid; `None`
    /// outside the grid.
    pub open spec fn answer(&self, i: usize, j: usize) -> Option<usize> {
        if i < self.shape().0 && j < self.shape().1 {
            last_position(self.points(), (i, j))
        } else {
            None
        }
    }

    /// The grid points in the order of the values.
    pub closed spec fn points(&self) -> Seq<(usize, usize)> {
        self.points@
    }

    pub closed spec fn shape(&self) -> (usize, usize) {
        (self.ni, self.nj)
    }

    /// Each cell of the table holds the last position of its grid point.
    pub closed spec fn well_formed(&self) -> bool {
        &&& self.table@.len() == self.ni * self.nj
        &&& forall|i: usize, j: usize|
            i < self.ni && j < self.nj ==> #[trigger] self.table@[i * self.nj + j] == last_position(
                self.points@,
                (i, j),
            )
    }

    /// The value position of each grid point: for a point of the `ni` by
    /// `nj` grid, the last position in `ij` that holds it.
    pub fn new(ij: &Vec<(usize, usize)>, ni: usize, nj: usize) -> (r: GridIndex)
        requires
            ni * nj <= usize::MAX,
        ensures
            r.points() == ij@,
            r.shape() == (ni, nj),
            r.well_formed(),
    {
        let total: usize = ni * nj;
        let mut table: Vec<Option<usize>> = Vec::new();
        let mut t: usize = 0;
        while t < total
            invariant
                t <= total,
                total == ni * nj,
                table@.len() == t,
                forall|m: int| 0 <= m < t ==> table@[m] == None::<usize>,
            decreases total - t,
        {
            table.push(None);
            t = t + 1;
        }
        proof {
            assert(ij@.take(0) =~= Seq::<(usize, usize)>::empty());
            assert forall|i: usize, j: usize| i < ni && j < nj implies #[trigger] table@[i * nj + j]
                == last_position(ij@.take(0), (i, j)) by {
                lemma_cell_in_table(i as int, j as int, ni as int, nj as int);
            }
        }
        let mut k: usize = 0;
        while k < ij.len()
            invariant
                k <= ij@.len(),
                total == ni * nj,
                table@.len() == total,
                forall|i: usize, j: usize|
                    i < ni && j < nj ==> #[trigger] table@[i * nj + j] == last_position(
                        ij@.take(k as int),
                        (i, j),
                    ),
            decreases ij.len() - k,
        {
            let (i, j) = ij[k];
            let ghost before = table@;
            assert(ij@.take(k + 1).drop_last() =~= ij@.take(k as int));
            assert(ij@.take(k + 1).last() == (i, j));
            if i < ni && j < nj {
                proof {
                    lemma_cell_in_table(i as int, j as int, ni as int, nj as int);
                }
                table.set(i * nj + j, Some(k));
                proof {
                    assert forall|a: usize, b: usize| a < ni && b < nj implies #[trigger] table@[a * nj + b]
                        == last_position(ij@.take(k + 1), (a, b)) by {
                        lemma_cell_in_table(a as int, b as int, ni as int, nj as int);
                        if a != i || b != j {
                            lemma_cells_distinct(a as int, b as int, i as int, j as int, nj as int);
                            assert(table@[a * nj + b] == before[a * nj + b]);
                        }
                    }
                }
            } else {
                proof {
                    assert forall|a: usize, b: usize| a < ni && b < nj implies #[trigger] table@[a * nj + b]
                        == last_position(ij@.take(k + 1), (a, b)) by {
                        assert((a, b) != (i, j));
                    }
                }
            }
            k = k + 1;
        }
        assert(ij@.take(ij@.len() as int) =~= ij@);
        GridIndex { ni, nj, table, points: Ghost(ij@) }
    }

    /// The value position of grid point (i, j): the last position of the
    /// point among the grid points; `None` for a point outside the grid or
    /// one that is not listed.
    pub fn get(&self, i: usize, j: usize) -> (r: Option<usize>)
        requires
            self.well_formed(),
        ensures
            r == self.answer(i, j),
    {
        if i < self.ni && j < self.nj {
            let n = self.table.len();
            proof {
                lemma_cell_in_table(i as int, j as int, self.ni as int, self.nj as int);
                assert(i * self.nj <= i * self.nj + j);
            }
            self.table[i * self.nj + j]
        } else {
            None
        }
    }
}

/// No grid point occurs twice in the list.
pub open spec fn points_distinct(points: Seq<(usize, usize)>) -> bool {
    forall|a: int, b: int| 0 <= a < b < points.len() ==> points[a] != points[b]
}

/// Where no grid point occurs twice, the position found for each listed
/// point is its own position in the list, and an unlisted point has none:
/// the index enumerates the points as the list does.
pub proof fn lemma_distinct_points_positions(points: Seq<(usize, usize)>, p: (usize, usize))
    requires
        points_distinct(points),
    ensures
        forall|idx: int| 0 <= idx < points.len() && points[idx] == p ==> last_position(points, p) == Some(idx as usize),
        !points.contains(p) ==> last_position(points, p) is None,
    decreases points.len(),
{
    if points.len() > 0 {
        let rest = points.drop_last();
        assert(points_distinct(rest));
        lemma_distinct_points_positions(rest, p);
        if points.last() != p {
            assert forall|idx: int| 0 <= idx < points.len() && points[idx] == p implies last_position(
                points,
                p,
            ) == Some(idx as usize) by {
                assert(rest[idx] == p);
            }
            if !points.contains(p) {
                assert forall|idx: int| 0 <= idx < rest.len() implies rest[idx] != p by {
                    assert(points[idx] == rest[idx]);
                }
            }
        }
    }
}

/// Where each grid point is listed once and all lie in the grid, the index
/// answers each listed point with its position in the list and every other
/// point with none: it is the enumeration of the list.
pub proof fn lemma_grid_index_enumerates(index: GridIndex)
    requires
        points_distinct(index.points()),
        forall|k: int|
            0 <= k < index.points().len() ==> (#[trigger] index.points()[k]).0 < index.shape().0
                && index.points()[k].1 < index.shape().1,
    ensures
        forall|k: int|
            0 <= k < index.points().len() ==> index.answer(
                (#[trigger] index.points()[k]).0,
                index.points()[k].1,
            ) == Some(k as usize),
        forall|i: usize, j: usize| !index.points().contains((i, j)) ==> #[trigger] index.answer(i, j) is None,
{
    assert forall|k: int| 0 <= k < index.points().len() implies index.answer(
        (#[trigger] index.points()[k]).0,
        index.points()[k].1,
    ) == Some(k as usize) by {
        lemma_distinct_points_positions(index.points(), index.points()[k]);
    }
    assert forall|i: usize, j: usize| !index.points().contains((i, j)) implies #[trigger] index.answer(
        i,
        j,
    ) is None by {
        lemma_distinct_points_positions(index.points(), (i, j));
    }
}

proof fn lemma_cell_in_table(i: int, j: int, ni: int, nj: int)
    requires
        0 <= i < ni,
        0 <= j < nj,
    ensures
        0 <= i * nj + j < ni * nj,
{
    assert(i * nj + j < ni * nj) by (nonlinear_arith)
        requires
            0 <= i < ni,
            0 <= j < nj,
    ;
    assert(0 <= i * nj) by (nonlinear_arith)
        requires
            0 <= i,
            0 <= nj,
    ;
}

proof fn lemma_cells_distinct(a: int, b: int, i: int, j: int, nj: int)
    requires
        0 <= a,
        0 <= i,
        0 <= b < nj,
        0 <= j < nj,
        a != i || b != j,
    ensures
        a * nj + b != i * nj + j,
{
    if a == i {
    } else if a < i {
        assert(a * nj + b < i * nj + j) by (nonlinear_arith)
            requires
                a < i,
                0 <= b < nj,
                0 <= j,
        ;
    } else {
        assert(i * nj + j < a * nj + b) by (nonlinear_arith)
            requires
                i < a,
                0 <= j < nj,
                0 <= b,
        ;
    }
}

// ---------------------------------------------------------------------------
// The coordinate axes of a grid
// ---------------------------------------------------------------------------

/// Grid point `k` lies on the axis at position `pos`: for the first axis,
/// j == 0 and i == pos; for the second, i == 0 and j == pos.
pub open spec fn on_axis_at(points: Seq<(usize, usize)>, first_axis: bool, k: int, pos: int) -> bool {
    if first_axis {
        points[k].1 == 0 && points[k].0 == pos
    } else {
        points[k].0 == 0 && points[k].1 == pos
    }
}

/// Grid point `k` is the last listed point on the axis at `pos`.
pub open spec fn last_on_axis_at(points: Seq<(usize, usize)>, first_axis: bool, k: int, pos: int) -> bool {
    &&& 0 <= k < points.len()
    &&& on_axis_at(points, first_axis, k, pos)
    &&& forall|m: int| k < m < points.len() ==> !on_axis_at(points, first_axis, m, pos)
}

/// The value that the axis takes at `pos`: the one read for the last listed
/// grid point on the axis at `pos` (at that point's position in the list,
/// or at `pos`), or `zero` where no point lies there.
pub open spec fn axis_value<T>(
    points: Seq<(usize, usize)>,
    values: Seq<T>,
    first_axis: bool,
    indexed_by_point: bool,
    pos: int,
    zero: T,
) -> T {
    if exists|k: int| last_on_axis_at(points, first_axis, k, pos) {
        let k = choose|k: int| last_on_axis_at(points, first_axis, k, pos);
        if indexed_by_point {
            values[k]
        } else {
            values[pos]
        }
    } else {
        zero
    }
}

/// The value at `pos` after the first `upto` grid points are taken in turn,
/// each on the axis overwriting the one before.
spec fn axis_value_upto<T>(
    points: Seq<(usize, usize)>,
    values: Seq<T>,
    first_axis: bool,
    indexed_by_point: bool,
    pos: int,
    zero: T,
    upto: int,
) -> T
    decreases upto,
{
    if upto <= 0 {
        zero
    } else {
        let k = upto - 1;
        if on_axis_at(points, first_axis, k, pos) {
            if indexed_by_point {
                values[k]
            } else {
                values[pos]
            }
        } else {
            axis_value_upto(points, values, first_axis, indexed_by_point, pos, zero, k)
        }
    }
}

/// Taking the points in turn gives the value of the last point on the axis.
proof fn lemma_axis_value_upto<T>(
    points: Seq<(usize, usize)>,
    values: Seq<T>,
    first_axis: bool,
    indexed_by_point: bool,
    pos: int,
    zero: T,
    upto: int,
)
    requires
        0 <= upto <= points.len(),
    ensures
        axis_value_upto(points, values, first_axis, indexed_by_point, pos, zero, upto) == axis_value(
            points.take(upto),
            values,
            first_axis,
            indexed_by_point,
            pos,
            zero,
        ),
    decreases upto,
{
    let pre = points.take(upto);
    if upto == 0 {
        assert(!exists|k: int| last_on_axis_at(pre, first_axis, k, pos));
    } else {
        let u = upto - 1;
        let shorter = points.take(u);
        lemma_axis_value_upto(points, values, first_axis, indexed_by_point, pos, zero, u);
        assert(on_axis_at(pre, first_axis, u, pos) == on_axis_at(points, first_axis, u, pos));
        if on_axis_at(points, first_axis, u, pos) {
            assert(last_on_axis_at(pre, first_axis, u, pos));
            let k = choose|k: int| last_on_axis_at(pre, first_axis, k, pos);
            if k != u {
                assert(!on_axis_at(pre, first_axis, u, pos));
            }
        } else {
            assert forall|k: int| last_on_axis_at(pre, first_axis, k, pos) <==> last_on_axis_at(
                shorter,
                first_axis,
                k,
                pos,
            ) by {
                if 0 <= k < u {
                    assert(on_axis_at(pre, first_axis, k, pos) == on_axis_at(shorter, first_axis, k, pos));
                    assert forall|m: int| k < m < upto implies (on_axis_at(pre, first_axis, m, pos) == (m
                        < u && on_axis_at(shorter, first_axis, m, pos))) by {}
                }
            }
        }
    }
}

/// Every grid point on an axis has a coordinate within the axis and a value
/// to read.
pub open spec fn axis_readable(
    points: Seq<(usize, usize)>,
    values_len: int,
    first_axis: bool,
    indexed_by_point: bool,
    len: int,
) -> bool {
    forall|k: int|
        0 <= k < points.len() ==> {
            let (i, j) = #[trigger] points[k];
            let on = if first_axis {
                j == 0
            } else {
                i == 0
            };
            let pos = if first_axis {
                i
            } else {
                j
            };
            on ==> pos < len && (if indexed_by_point {
                k < values_len
            } else {
                pos < values_len
            })
        }
}

/// The coordinates along one axis of a grid from the coordinates of its
/// points: for the first axis (`first_axis`), the points with j == 0 give
/// the value at position i; for the second, the points with i == 0 give the
/// value at position j. The value is read at the point's own position in
/// the list (`indexed_by_point`) or at the axis position. Positions that no
/// point fills keep `zero`; where several points fill one, the last wins.
pub fn grid_axis<T: Copy>(
    points: &Vec<(usize, usize)>,
    values: &Vec<T>,
    first_axis: bool,
    indexed_by_point: bool,
    len: usize,
    zero: T,
) -> (r: Vec<T>)
    requires
        axis_readable(points@, values@.len() as int, first_axis, indexed_by_point, len as int),
    ensures
        r@.len() == len,
        forall|pos: int|
            0 <= pos < len ==> #[trigger] r@[pos] == axis_value(
                points@,
                values@,
                first_axis,
                indexed_by_point,
                pos,
                zero,
            ),
{
    let mut axis: Vec<T> = Vec::new();
    let mut t: usize = 0;
    while t < len
        invariant
            t <= len,
            axis@.len() == t,
            forall|m: int| 0 <= m < t ==> axis@[m] == zero,
        decreases len - t,
    {
        axis.push(zero);
        t = t + 1;
    }
    let mut k: usize = 0;
    while k < points.len()
        invariant
            k <= points@.len(),
            axis@.len() == len,
            axis_readable(points@, values@.len() as int, first_axis, indexed_by_point, len as int),
            forall|pos: int|
                0 <= pos < len ==> #[trigger] axis@[pos] == axis_value_upto(
                    points@,
                    values@,
                    first_axis,
                    indexed_by_point,
                    pos,
                    zero,
                    k as int,
                ),
        decreases points.len() - k,
    {
        let (i, j) = points[k];
        assert(points@[k as int] == (i, j));
        let on = if first_axis {
            j == 0
        } else {
            i == 0
        };
        let ghost before = axis@;
        if on {
            let pos = if first_axis {
                i
            } else {
                j
            };
            let v = if indexed_by_point {
                values[k]
            } else {
                values[pos]
            };
            axis.set(pos, v);
        }
        assert forall|pos: int|
            0 <= pos < len implies #[trigger] axis@[pos] == axis_value_upto(
            points@,
            values@,
            first_axis,
            indexed_by_point,
            pos,
            zero,
            k + 1,
        ) by {
            assert(before[pos] == axis_value_upto(
                points@,
                values@,
                first_axis,
                indexed_by_point,
                pos,
                zero,
                k as int,
            ));
        }
        k = k + 1;
    }
    assert forall|pos: int| 0 <= pos < len implies #[trigger] axis@[pos] == axis_value(
        points@,
        values@,
        first_axis,
        indexed_by_point,
        pos,
        zero,
    ) by {
        lemma_axis_value_upto(points@, values@, first_axis, indexed_by_point, pos, zero, points@.len() as int);
        assert(points@.take(points@.len() as int) =~= points@);
    }
    axis
}

/// Whether every grid point on the axis has a coordinate within the axis and
/// a value to read, as `grid_axis` needs.
pub fn axis_is_readable(
    points: &Vec<(usize, usize)>,
    values_len: usize,
    first_axis: bool,
    indexed_by_point: bool,
    len: usize,
) -> (r: bool)
    ensures
        r == axis_readable(points@, values_len as int, first_axis, indexed_by_point, len as int),
{
    let mut k: usize = 0;
    while k < points.len()
        invariant
            k <= points@.len(),
            forall|m: int|
                0 <= m < k ==> {
                    let (i, j) = #[trigger] points@[m];
                    let on = if first_axis {
                        j == 0
                    } else {
                        i == 0
                    };
                    let pos = if first_axis {
                        i
                    } else {
                        j
                    };
                    on ==> pos < len && (if indexed_by_point {
                        m < values_len
                    } else {
                        pos < values_len
                    })
                },
        decreases points.len() - k,
    {
        let (i, j) = points[k];
        let on = if first_axis {
            j == 0
        } else {
            i == 0
        };
        let pos = if first_axis {
            i
        } else {
            j
        };
        if on {
            let readable = pos < len && (if indexed_by_point {
                k < values_len
            } else {
                pos < values_len
            });
            if !readable {
                assert(points@[k as int] == (i, j));
                return false;
            }
        }
        k = k + 1;
    }
    true
}

// ---------------------------------------------------------------------------
// Which grid points carry an arrow
// ---------------------------------------------------------------------------

pub open spec fn pow2(e: nat) -> nat
    decreases e,
{
    if e == 0 {
        1
    } else {
        2 * pow2((e - 1) as nat)
    }
}

/// How many grid points are skipped between arrows: 2 to the power of
/// `max_zoom_level - zoom_level`, at least 1, and at most `usize::MAX` (the
/// float power, converted with saturation).
pub open spec fn index_step_spec(max_zoom_level: i64, zoom_level: i64) -> int {
    let e = max_zoom_level - zoom_level;
    if e <= 0 {
        1
    } else if pow2(e as nat) > usize::MAX {
        usize::MAX as int
    } else {
        pow2(e as nat) as int
    }
}

proof fn lemma_pow2_grows(e: nat)
    ensures
        pow2(e) >= 1,
        pow2(e + 1) == 2 * pow2(e),
    decreases e,
{
    if e > 0 {
        lemma_pow2_grows((e - 1) as nat);
    }
}

proof fn lemma_pow2_monotone(a: nat, b: nat)
    requires
        a <= b,
    ensures
        pow2(a) <= pow2(b),
    decreases b - a,
{
    if a < b {
        lemma_pow2_monotone(a, (b - 1) as nat);
        lemma_pow2_grows((b - 1) as nat);
    }
}

/// The step between grid points that carry an arrow at `zoom_level`, when
/// every point carries one at `max_zoom_level`: 2 to the power of the
/// difference, at least 1, saturating at `usize::MAX`.
pub fn index_step(max_zoom_level: i64, zoom_level: i64) -> (r: usize)
    requires
        i64::MIN <= max_zoom_level - zoom_level <= i64::MAX,
    ensures
        r == index_step_spec(max_zoom_level, zoom_level),
        r >= 1,
{
    let e: i64 = max_zoom_level - zoom_level;
    if e <= 0 {
        return 1;
    }
    let mut step: usize = 1;
    let mut k: i64 = 0;
    while k < e
        invariant
            0 <= k <= e,
            e == max_zoom_level - zoom_level,
            e > 0,
            step == pow2(k as nat),
        decreases e - k,
    {
        proof {
            lemma_pow2_grows(k as nat);
        }
        if step > usize::MAX / 2 {
            proof {
                lemma_pow2_monotone((k + 1) as nat, e as nat);
            }
            return usize::MAX;
        }
        step = step * 2;
        k = k + 1;
    }
    proof {
        lemma_pow2_grows(k as nat);
    }
    step
}

/// The grid points that carry an arrow: the points (i, j) of an `n_i` by
/// `n_j` grid whose coordinates are both multiples of `step`, with `i`
/// varying slowest, as nested `step_by` ranges give them.
pub open spec fn is_sample(p: (usize, usize), n_i: usize, n_j: usize, step: usize) -> bool {
    p.0 < n_i && p.1 < n_j && p.0 % step == 0 && p.1 % step == 0
}

/// Lexicographic order of grid points, the first coordinate first.
pub open spec fn point_less(a: (usize, usize), b: (usize, usize)) -> bool {
    a.0 < b.0 || (a.0 == b.0 && a.1 < b.1)
}

/// The grid points of an `n_i` by `n_j` grid whose coordinates are both
/// multiples of `step`: i from 0 in steps of `step`, and for each i, j from
/// 0 in steps of `step`.
pub fn sample_points(n_i: usize, n_j: usize, step: usize) -> (r: Vec<(usize, usize)>)
    requires
        step >= 1,
    ensures
        forall|a: int, b: int| 0 <= a < b < r@.len() ==> point_less(r@[a], r@[b]),
        forall|k: int| 0 <= k < r@.len() ==> is_sample(#[trigger] r@[k], n_i, n_j, step),
        forall|p: (usize, usize)| is_sample(p, n_i, n_j, step) ==> r@.contains(p),
{
    let mut out: Vec<(usize, usize)> = Vec::new();
    let mut i: usize = 0;
    while i < n_i
        invariant
            step >= 1,
            i % step == 0,
            forall|a: int, b: int| 0 <= a < b < out@.len() ==> point_less(out@[a], out@[b]),
            forall|k: int| 0 <= k < out@.len() ==> is_sample(#[trigger] out@[k], n_i, n_j, step) && out@[k].0 < i,
            forall|p: (usize, usize)| is_sample(p, n_i, n_j, step) && p.0 < i ==> out@.contains(p),
        decreases n_i - i,
    {
        let mut j: usize = 0;
        while j < n_j
            invariant
                step >= 1,
                i < n_i,
                i % step == 0,
                j < n_j ==> j % step == 0,
                forall|a: int, b: int| 0 <= a < b < out@.len() ==> point_less(out@[a], out@[b]),
                forall|k: int|
                    0 <= k < out@.len() ==> is_sample(#[trigger] out@[k], n_i, n_j, step) && (out@[k].0 < i
                        || (out@[k].0 == i && out@[k].1 < j)),
                forall|p: (usize, usize)|
                    is_sample(p, n_i, n_j, step) && (p.0 < i || (p.0 == i && p.1 < j)) ==> out@.contains(p),
            decreases n_j - j,
        {
            let ghost before = out@;
            out.push((i, j));
            proof {
                assert forall|p: (usize, usize)|
                    is_sample(p, n_i, n_j, step) && (p.0 < i || (p.0 == i && p.1 < j + step)) implies out@.contains(
                    p,
                ) by {
                    if p.0 == i && p.1 >= j {
                        if p.1 > j {
                            lemma_next_multiple(j as int, p.1 as int, step as int);
                        }
                        assert(out@[out@.len() - 1] == p);
                    } else {
                        assert(before.contains(p));
                        let w = choose|w: int| 0 <= w < before.len() && before[w] == p;
                        assert(out@[w] == p);
                    }
                }
            }
            if n_j - j <= step {
                proof {
                    assert forall|p: (usize, usize)|
                        is_sample(p, n_i, n_j, step) && (p.0 < i || p.0 == i) implies out@.contains(p) by {
                        if p.0 == i && p.1 >= j + step {
                            assert(false);
                        }
                    }
                }
                j = n_j;
            } else {
                proof {
                    lemma_add_multiple(j as int, step as int);
                }
                j = j + step;
            }
        }
        if n_i - i <= step {
            proof {
                assert forall|p: (usize, usize)| is_sample(p, n_i, n_j, step) implies out@.contains(p) by {
                    if p.0 > i {
                        lemma_next_multiple(i as int, p.0 as int, step as int);
                    }
                }
            }
            return out;
        } else {
            proof {
                assert forall|p: (usize, usize)|
                    is_sample(p, n_i, n_j, step) && p.0 < i + step implies out@.contains(p) by {
                    if p.0 > i {
                        lemma_next_multiple(i as int, p.0 as int, step as int);
                    }
                }
                lemma_add_multiple(i as int, step as int);
            }
            i = i + step;
        }
    }
    out
}

/// A multiple of `step` above the multiple `a` is at least `a + step`.
proof fn lemma_next_multiple(a: int, x: int, step: int)
    requires
        step >= 1,
        a >= 0,
        a % step == 0,
        x % step == 0,
        a < x,
    ensures
        x >= a + step,
{
    assert(x >= a + step) by (nonlinear_arith)
        requires
            step >= 1,
            a >= 0,
            a % step == 0,
            x % step == 0,
            a < x,
    {
        let qa = a / step;
        let qx = x / step;
        assert(a == qa * step);
        assert(x == qx * step);
        assert(qa < qx);
        assert(qx >= qa + 1);
        assert(qx * step >= (qa + 1) * step);
    }
}

/// Adding `step` to a multiple of `step` gives a multiple of `step`.
proof fn lemma_add_multiple(a: int, step: int)
    requires
        step >= 1,
        a >= 0,
        a % step == 0,
    ensures
        (a + step) % step == 0,
{
    assert((a + step) % step == 0) by (nonlinear_arith)
        requires
            step >= 1,
            a >= 0,
            a % step == 0,
    {
        let q = a / step;
        assert(a == q * step);
        assert(a + step == (q + 1) * step);
    }
}

} // verus!
