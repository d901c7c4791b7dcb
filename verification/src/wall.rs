use vstd::prelude::*;

use crate::floorline::{spec_penalty, FloorLine};
use crate::tile::Tile;
use vstd::string::StringSliceAdditionalSpecFns;

verus! {

/// One cell of the scoring wall: each cell is dedicated to one color and
/// is either still free or filled with a tile of that color.
#[derive(Clone, Copy, PartialEq, Eq, Structural, Debug)]
pub enum Slot {
    Filled(Tile),
    Free(Tile),
}

/// What a wall placement yielded: the points gained, and whether the
/// placement completed a row and so ends the match after this round.
#[derive(Clone, Copy, PartialEq, Eq, Structural, Debug)]
pub enum FillResult {
    PointsGained(u32),
    PointsGainedAndGameOver(u32),
}

/// The color of rank `i` in the base row of the wall layout: Yellow,
/// Red, Blue, White, Green; every row below is the same cycle rotated
/// right by one more step.
pub open spec fn spec_color_of(i: int) -> Tile {
    if i == 0 {
        Tile::Yellow
    } else if i == 1 {
        Tile::Red
    } else if i == 2 {
        Tile::Blue
    } else if i == 3 {
        Tile::White
    } else {
        Tile::Green
    }
}

/// The rank of a color in the base row of the wall layout; the
/// first-player marker has no place on the wall.
pub open spec fn spec_color_index(t: Tile) -> int {
    match t {
        Tile::Yellow => 0,
        Tile::Red => 1,
        Tile::Blue => 2,
        Tile::White => 3,
        Tile::Green => 4,
        Tile::FirstPlayer => -1,
    }
}

/// The column where color `t` sits in row `r` of the fixed layout.
pub open spec fn spec_col_of(t: Tile, r: int) -> int {
    let s = spec_color_index(t) + r;
    if s >= 5 {
        s - 5
    } else {
        s
    }
}

/// The color that row `r`, column `c` of the fixed layout is dedicated to.
pub open spec fn spec_wall_color(r: int, c: int) -> Tile {
    spec_color_of(
        if c - r < 0 {
            c - r + 5
        } else {
            c - r
        },
    )
}

/// Each color sits in exactly one column per row, and that column is
/// dedicated to it.
pub proof fn lemma_layout_roundtrip(t: Tile, r: int)
    requires
        t != Tile::FirstPlayer,
        0 <= r < 5,
    ensures
        0 <= spec_col_of(t, r) < 5,
        spec_wall_color(r, spec_col_of(t, r)) == t,
{
}

/// The grid of a wall, row by row.
pub type WallGrid = Seq<Seq<Slot>>;

/// The grid is exactly 5 by 5.
pub open spec fn grid_shape_wf(g: WallGrid) -> bool {
    &&& g.len() == 5
    &&& forall|r: int| 0 <= r < 5 ==> (#[trigger] g[r]).len() == 5
}

pub open spec fn grid_is_filled(g: WallGrid, r: int, c: int) -> bool {
    g[r][c] is Filled
}

/// Every cell carries the color the fixed layout assigns to it.
pub open spec fn grid_wf(g: WallGrid) -> bool {
    &&& grid_shape_wf(g)
    &&& forall|r: int, c: int|
        0 <= r < 5 && 0 <= c < 5 ==> #[trigger] g[r][c] == (if grid_is_filled(g, r, c) {
            Slot::Filled(spec_wall_color(r, c))
        } else {
            Slot::Free(spec_wall_color(r, c))
        })
}

/// How many of the first `c` cells of row `r` are filled.
pub open spec fn grid_row_filled(g: WallGrid, r: int, c: int) -> int
    decreases c,
{
    if c <= 0 {
        0
    } else {
        grid_row_filled(g, r, c - 1) + if grid_is_filled(g, r, c - 1) {
            1int
        } else {
            0int
        }
    }
}

/// How many cells of the first `r` rows are filled.
pub open spec fn grid_filled_below(g: WallGrid, r: int) -> int
    decreases r,
{
    if r <= 0 {
        0
    } else {
        grid_filled_below(g, r - 1) + grid_row_filled(g, r - 1, 5)
    }
}

/// How many cells of the whole grid are filled.
pub open spec fn grid_filled_count(g: WallGrid) -> int {
    grid_filled_below(g, 5)
}

/// The contiguous run of filled cells to the left of (`r`,`c`).
pub open spec fn spec_run_left(g: WallGrid, r: int, c: int) -> int
    decreases c,
{
    if c <= 0 {
        0
    } else if grid_is_filled(g, r, c - 1) {
        1 + spec_run_left(g, r, c - 1)
    } else {
        0
    }
}

/// The contiguous run of filled cells to the right of (`r`,`c`).
pub open spec fn spec_run_right(g: WallGrid, r: int, c: int) -> int
    decreases 5 - c,
{
    if c >= 4 || c < 0 {
        0
    } else if grid_is_filled(g, r, c + 1) {
        1 + spec_run_right(g, r, c + 1)
    } else {
        0
    }
}

/// The contiguous run of filled cells above (`r`,`c`).
pub open spec fn spec_run_up(g: WallGrid, r: int, c: int) -> int
    decreases r,
{
    if r <= 0 {
        0
    } else if grid_is_filled(g, r - 1, c) {
        1 + spec_run_up(g, r - 1, c)
    } else {
        0
    }
}

/// The contiguous run of filled cells below (`r`,`c`).
pub open spec fn spec_run_down(g: WallGrid, r: int, c: int) -> int
    decreases 5 - r,
{
    if r >= 4 || r < 0 {
        0
    } else if grid_is_filled(g, r + 1, c) {
        1 + spec_run_down(g, r + 1, c)
    } else {
        0
    }
}

/// Whether color `t` occupies all five of its designated cells.
pub open spec fn grid_color_complete(g: WallGrid, t: Tile) -> bool {
    forall|r: int| 0 <= r < 5 ==> grid_is_filled(g, r, spec_col_of(t, r))
}

/// Whether some color occupies all five of its designated cells (a
/// completed diagonal of the rotated layout).
pub open spec fn grid_has_diagonal(g: WallGrid) -> bool {
    exists|t: Tile| t != Tile::FirstPlayer && grid_color_complete(g, t)
}

/// The points a placement at (`r`,`c`) yields, judged on the grid as it
/// stands after the placement: an isolated tile scores 1; a tile with
/// row or column neighbours scores the length of each such run including
/// itself; a completed column adds 7, a completed row 2 and a completed
/// color 10.
pub open spec fn spec_gain(g: WallGrid, r: int, c: int) -> int {
    let ar = spec_run_left(g, r, c) + spec_run_right(g, r, c);
    let ac = spec_run_up(g, r, c) + spec_run_down(g, r, c);
    (if ar == 0 && ac == 0 {
        1int
    } else {
        0int
    }) + (if ar > 0 {
        1 + ar
    } else {
        0int
    }) + (if ac > 0 {
        1 + ac
    } else {
        0int
    }) + (if ac == 4 {
        7int
    } else {
        0int
    }) + (if ar == 4 {
        2int
    } else {
        0int
    }) + (if grid_has_diagonal(g) {
        10int
    } else {
        0int
    })
}

/// Two grids whose first `c` cells of row `r` agree filled-for-filled
/// count them alike.
proof fn lemma_row_count_eq(g1: WallGrid, g2: WallGrid, r: int, c: int)
    requires
        forall|j: int| 0 <= j < c ==> grid_is_filled(g1, r, j) == grid_is_filled(g2, r, j),
    ensures
        grid_row_filled(g1, r, c) == grid_row_filled(g2, r, c),
    decreases c,
{
    if c > 0 {
        lemma_row_count_eq(g1, g2, r, c - 1);
    }
}

/// Filling exactly one cell of a row raises its count by one.
proof fn lemma_row_count_plus(g1: WallGrid, g2: WallGrid, r: int, col: int, c: int)
    requires
        0 <= col < c,
        !grid_is_filled(g1, r, col),
        grid_is_filled(g2, r, col),
        forall|j: int|
            0 <= j < c && j != col ==> grid_is_filled(g1, r, j) == grid_is_filled(g2, r, j),
    ensures
        grid_row_filled(g2, r, c) == grid_row_filled(g1, r, c) + 1,
    decreases c,
{
    if c - 1 == col {
        lemma_row_count_eq(g1, g2, r, c - 1);
    } else {
        lemma_row_count_plus(g1, g2, r, col, c - 1);
    }
}

proof fn lemma_below_count_eq(g1: WallGrid, g2: WallGrid, r: int)
    requires
        forall|i: int, j: int|
            0 <= i < r && 0 <= j < 5 ==> grid_is_filled(g1, i, j) == grid_is_filled(g2, i, j),
    ensures
        grid_filled_below(g1, r) == grid_filled_below(g2, r),
    decreases r,
{
    if r > 0 {
        lemma_below_count_eq(g1, g2, r - 1);
        lemma_row_count_eq(g1, g2, r - 1, 5);
    }
}

/// Two grids that agree on every cell have the same filled count.
pub proof fn lemma_filled_count_eq(g1: WallGrid, g2: WallGrid)
    requires
        forall|i: int, j: int|
            0 <= i < 5 && 0 <= j < 5 ==> grid_is_filled(g1, i, j) == grid_is_filled(g2, i, j),
    ensures
        grid_filled_count(g1) == grid_filled_count(g2),
{
    lemma_below_count_eq(g1, g2, 5);
}

proof fn lemma_below_count_plus(g1: WallGrid, g2: WallGrid, row: int, col: int, r: int)
    requires
        0 <= row < 5,
        0 <= col < 5,
        0 <= r <= 5,
        !grid_is_filled(g1, row, col),
        grid_is_filled(g2, row, col),
        forall|i: int, j: int|
            0 <= i < 5 && 0 <= j < 5 && (i != row || j != col) ==> grid_is_filled(g1, i, j)
                == grid_is_filled(g2, i, j),
    ensures
        grid_filled_below(g2, r) == grid_filled_below(g1, r) + if r > row {
            1int
        } else {
            0int
        },
    decreases r,
{
    if r > 0 {
        lemma_below_count_plus(g1, g2, row, col, r - 1);
        if r - 1 == row {
            lemma_row_count_plus(g1, g2, row, col, 5);
        } else {
            lemma_row_count_eq(g1, g2, r - 1, 5);
        }
    }
}

/// Filling exactly one cell of the grid raises the filled count by one.
pub proof fn lemma_filled_count_plus(g1: WallGrid, g2: WallGrid, row: int, col: int)
    requires
        0 <= row < 5,
        0 <= col < 5,
        !grid_is_filled(g1, row, col),
        grid_is_filled(g2, row, col),
        forall|i: int, j: int|
            0 <= i < 5 && 0 <= j < 5 && (i != row || j != col) ==> grid_is_filled(g1, i, j)
                == grid_is_filled(g2, i, j),
    ensures
        grid_filled_count(g2) == grid_filled_count(g1) + 1,
{
    lemma_below_count_plus(g1, g2, row, col, 5);
}

proof fn lemma_row_filled_bound(g: WallGrid, r: int, c: int)
    requires
        c >= 0,
    ensures
        0 <= grid_row_filled(g, r, c) <= c,
    decreases c,
{
    if c > 0 {
        lemma_row_filled_bound(g, r, c - 1);
    }
}

proof fn lemma_below_bound(g: WallGrid, r: int)
    requires
        r >= 0,
    ensures
        0 <= grid_filled_below(g, r) <= 5 * r,
    decreases r,
{
    if r > 0 {
        lemma_below_bound(g, r - 1);
        lemma_row_filled_bound(g, r - 1, 5);
    }
}

/// A grid holds at most 25 tiles.
pub proof fn lemma_filled_count_bounds(g: WallGrid)
    ensures
        0 <= grid_filled_count(g) <= 25,
{
    lemma_below_bound(g, 5);
}

proof fn lemma_run_left_bound(g: WallGrid, r: int, c: int)
    requires
        c >= 0,
    ensures
        0 <= spec_run_left(g, r, c) <= c,
    decreases c,
{
    if c > 0 && grid_is_filled(g, r, c - 1) {
        lemma_run_left_bound(g, r, c - 1);
    }
}

proof fn lemma_run_right_bound(g: WallGrid, r: int, c: int)
    requires
        c <= 4,
    ensures
        0 <= spec_run_right(g, r, c) <= 4 - c,
    decreases 5 - c,
{
    if 0 <= c && c < 4 && grid_is_filled(g, r, c + 1) {
        lemma_run_right_bound(g, r, c + 1);
    }
}

proof fn lemma_run_up_bound(g: WallGrid, r: int, c: int)
    requires
        r >= 0,
    ensures
        0 <= spec_run_up(g, r, c) <= r,
    decreases r,
{
    if r > 0 && grid_is_filled(g, r - 1, c) {
        lemma_run_up_bound(g, r - 1, c);
    }
}

proof fn lemma_run_down_bound(g: WallGrid, r: int, c: int)
    requires
        r <= 4,
    ensures
        0 <= spec_run_down(g, r, c) <= 4 - r,
    decreases 5 - r,
{
    if 0 <= r && r < 4 && grid_is_filled(g, r + 1, c) {
        lemma_run_down_bound(g, r + 1, c);
    }
}

/// The runs around a cell never reach past the edges of the grid, so a
/// single placement yields between 1 and 29 points.
pub proof fn lemma_gain_bounds(g: WallGrid, r: int, c: int)
    requires
        0 <= r < 5,
        0 <= c < 5,
    ensures
        0 <= spec_run_left(g, r, c) + spec_run_right(g, r, c) <= 4,
        0 <= spec_run_up(g, r, c) + spec_run_down(g, r, c) <= 4,
        1 <= spec_gain(g, r, c) <= 29,
{
    lemma_run_left_bound(g, r, c);
    lemma_run_right_bound(g, r, c);
    lemma_run_up_bound(g, r, c);
    lemma_run_down_bound(g, r, c);
}

/// The empty grid: every cell free, carrying its layout color.
pub open spec fn spec_empty_grid() -> WallGrid {
    Seq::new(5, |r: int| Seq::new(5, |c: int| Slot::Free(spec_wall_color(r, c))))
}

/// Column `c` of row `r` is dedicated to exactly the color that sits
/// there.
pub proof fn lemma_wall_color_roundtrip(r: int, c: int)
    requires
        0 <= r < 5,
        0 <= c < 5,
    ensures
        spec_wall_color(r, c) != Tile::FirstPlayer,
        spec_col_of(spec_wall_color(r, c), r) == c,
{
}

/// Two well-formed grids with the same filled cells are the same grid.
pub proof fn lemma_grid_eq(g1: WallGrid, g2: WallGrid)
    requires
        grid_wf(g1),
        grid_wf(g2),
        forall|r: int, c: int|
            0 <= r < 5 && 0 <= c < 5 ==> grid_is_filled(g1, r, c) == grid_is_filled(g2, r, c),
    ensures
        g1 == g2,
{
    assert forall|r: int| 0 <= r < 5 implies g1[r] == g2[r] by {
        assert forall|c: int| 0 <= c < 5 implies g1[r][c] == g2[r][c] by {
            assert(grid_is_filled(g1, r, c) == grid_is_filled(g2, r, c));
        }
        assert(g1[r] =~= g2[r]);
    }
    assert(g1 =~= g2);
}

/// A wall description: five lines of five digit characters, separated by
/// line feeds. Digit cells with value 1 to 9 give the order in which
/// those cells were filled.
/// The byte of the description that describes the cell at (`r`,`c`):
/// each of the five lines takes six bytes, five digits and a line feed.
pub open spec fn spec_cell_byte(b: Seq<u8>, r: int, c: int) -> u8 {
    b[r * 6 + c]
}

pub open spec fn spec_wall_string_wf(b: Seq<u8>) -> bool {
    &&& b.len() == 29
    &&& forall|r: int, c: int|
        0 <= r < 5 && 0 <= c < 5 ==> 48 <= #[trigger] spec_cell_byte(b, r, c) <= 57
    &&& forall|r: int| 0 <= r < 4 ==> #[trigger] spec_cell_byte(b, r, 5) == 10
}

/// The first cell, in reading order starting at (`r`,`c`), whose digit
/// is `d`.
pub open spec fn spec_find_digit_from(b: Seq<u8>, d: int, r: int, c: int) -> Option<(int, int)>
    decreases 5 - r, 5 - c,
{
    if r >= 5 || r < 0 || c < 0 {
        None
    } else if c >= 5 {
        spec_find_digit_from(b, d, r + 1, 0)
    } else if spec_cell_byte(b, r, c) == 48 + d {
        Some((r, c))
    } else {
        spec_find_digit_from(b, d, r, c + 1)
    }
}

/// The first cell, in reading order, whose digit is `d`.
pub open spec fn spec_find_digit(b: Seq<u8>, d: int) -> Option<(int, int)> {
    spec_find_digit_from(b, d, 0, 0)
}

/// A found cell lies on the grid and indeed carries the digit looked
/// for.
proof fn lemma_find_digit_sound(b: Seq<u8>, d: int, r: int, c: int)
    requires
        0 <= r <= 5,
        0 <= c <= 5,
    ensures
        match spec_find_digit_from(b, d, r, c) {
            Some(p) => 0 <= p.0 < 5 && 0 <= p.1 < 5 && spec_cell_byte(b, p.0, p.1) == 48 + d,
            None => true,
        },
    decreases 5 - r, 5 - c,
{
    if r >= 5 {
    } else if c >= 5 {
        lemma_find_digit_sound(b, d, r + 1, 0);
    } else if spec_cell_byte(b, r, c) == 48 + d {
    } else {
        lemma_find_digit_sound(b, d, r, c + 1);
    }
}

/// Filling a free cell of a grid: the cell takes its layout color, and
/// the placement yields the points judged on the grid after the fill.
pub open spec fn spec_apply_fill(g: WallGrid, p: int, r: int, c: int) -> (WallGrid, int) {
    let g2 = g.update(r, g[r].update(c, Slot::Filled(spec_wall_color(r, c))));
    (g2, p + spec_gain(g2, r, c))
}

/// The grid and points of a wall built from a description by filling
/// the cells of digits 1 up to `d`, in digit order, first occurrence of
/// each digit only.
pub open spec fn spec_build(b: Seq<u8>, d: int) -> (WallGrid, int)
    decreases d,
{
    if d <= 0 {
        (spec_empty_grid(), 0)
    } else {
        let gp = spec_build(b, d - 1);
        match spec_find_digit(b, d) {
            Some(p) => spec_apply_fill(gp.0, gp.1, p.0, p.1),
            None => gp,
        }
    }
}

/// A player's 5×5 scoring wall with its running point total.
#[derive(Debug)]
pub struct Wall {
    slots: Vec<Vec<Slot>>,
    points: u32,
}

impl Wall {
    /// The grid of the wall, row by row.
    pub closed spec fn spec_grid(self) -> WallGrid {
        Seq::new(self.slots@.len() as nat, |i: int| self.slots@[i]@)
    }

    /// The running point total.
    pub closed spec fn spec_points(self) -> int {
        self.points as int
    }

    pub open spec fn spec_is_filled(self, r: int, c: int) -> bool {
        grid_is_filled(self.spec_grid(), r, c)
    }

    /// The grid follows the fixed layout, and the point total is bounded
    /// by what the placements so far can have yielded at most.
    pub open spec fn wf(self) -> bool {
        &&& grid_wf(self.spec_grid())
        &&& 0 <= self.spec_points() <= 29 * grid_filled_count(self.spec_grid())
    }

    /// The rank of a color in the base row of the layout.
    fn color_index(t: Tile) -> (i: u8)
        requires
            t != Tile::FirstPlayer,
        ensures
            i as int == spec_color_index(t),
    {
        match t {
            Tile::Yellow => 0,
            Tile::Red => 1,
            Tile::Blue => 2,
            Tile::White => 3,
            Tile::Green => 4,
            Tile::FirstPlayer => 0,
        }
    }

    /// The color of a given rank in the base row of the layout.
    fn color_of(i: u8) -> (t: Tile)
        requires
            i <= 4,
        ensures
            t == spec_color_of(i as int),
    {
        match i {
            0 => Tile::Yellow,
            1 => Tile::Red,
            2 => Tile::Blue,
            3 => Tile::White,
            _ => Tile::Green,
        }
    }

    /// The cell at row `row`, column `col`.
    pub fn at(&self, row: usize, col: usize) -> (s: Slot)
        requires
            grid_shape_wf(self.spec_grid()),
            row < 5,
            col < 5,
        ensures
            s == self.spec_grid()[row as int][col as int],
    {
        self.slots[row][col]
    }

    /// Whether the cell at row `row`, column `col` is filled.
    pub fn is_filled(&self, row: usize, col: usize) -> (b: bool)
        requires
            grid_shape_wf(self.spec_grid()),
            row < 5,
            col < 5,
        ensures
            b == self.spec_is_filled(row as int, col as int),
    {
        match self.at(row, col) {
            Slot::Filled(_) => true,
            Slot::Free(_) => false,
        }
    }

    /// The column where color `what` sits in row `row_number` of the
    /// fixed layout.
    pub fn find_col_for_tile(&self, row_number: usize, what: Tile) -> (c: usize)
        requires
            what != Tile::FirstPlayer,
            row_number < 5,
        ensures
            c as int == spec_col_of(what, row_number as int),
            c < 5,
    {
        let s = Self::color_index(what) as usize + row_number;
        if s >= 5 {
            s - 5
        } else {
            s
        }
    }

    /// The cell dedicated to color `what` in row `row_number`.
    pub fn find_slot_for_tile(&self, what: Tile, row_number: usize) -> (s: Slot)
        requires
            grid_shape_wf(self.spec_grid()),
            what != Tile::FirstPlayer,
            row_number < 5,
        ensures
            s == self.spec_grid()[row_number as int][spec_col_of(what, row_number as int)],
    {
        let col = self.find_col_for_tile(row_number, what);
        self.at(row_number, col)
    }

    /// The running point total.
    pub fn count_points(&self) -> (p: u32)
        ensures
            p as int == self.spec_points(),
    {
        self.points
    }

    fn run_left(&self, row: usize, col: usize) -> (n: usize)
        requires
            grid_shape_wf(self.spec_grid()),
            row < 5,
            col < 5,
        ensures
            n as int == spec_run_left(self.spec_grid(), row as int, col as int),
    {
        let mut n: usize = 0;
        let mut c: usize = col;
        while c > 0 && self.is_filled(row, c - 1)
            invariant
                grid_shape_wf(self.spec_grid()),
                row < 5,
                c <= col < 5,
                n == col - c,
                spec_run_left(self.spec_grid(), row as int, col as int) == n + spec_run_left(
                    self.spec_grid(),
                    row as int,
                    c as int,
                ),
            decreases c,
        {
            n = n + 1;
            c = c - 1;
        }
        n
    }

    fn run_right(&self, row: usize, col: usize) -> (n: usize)
        requires
            grid_shape_wf(self.spec_grid()),
            row < 5,
            col < 5,
        ensures
            n as int == spec_run_right(self.spec_grid(), row as int, col as int),
    {
        let mut n: usize = 0;
        let mut c: usize = col;
        while c < 4 && self.is_filled(row, c + 1)
            invariant
                grid_shape_wf(self.spec_grid()),
                row < 5,
                col <= c <= 4,
                n == c - col,
                spec_run_right(self.spec_grid(), row as int, col as int) == n + spec_run_right(
                    self.spec_grid(),
                    row as int,
                    c as int,
                ),
            decreases 4 - c,
        {
            n = n + 1;
            c = c + 1;
        }
        n
    }

    fn run_up(&self, row: usize, col: usize) -> (n: usize)
        requires
            grid_shape_wf(self.spec_grid()),
            row < 5,
            col < 5,
        ensures
            n as int == spec_run_up(self.spec_grid(), row as int, col as int),
    {
        let mut n: usize = 0;
        let mut r: usize = row;
        while r > 0 && self.is_filled(r - 1, col)
            invariant
                grid_shape_wf(self.spec_grid()),
                col < 5,
                r <= row < 5,
                n == row - r,
                spec_run_up(self.spec_grid(), row as int, col as int) == n + spec_run_up(
                    self.spec_grid(),
                    r as int,
                    col as int,
                ),
            decreases r,
        {
            n = n + 1;
            r = r - 1;
        }
        n
    }

    fn run_down(&self, row: usize, col: usize) -> (n: usize)
        requires
            grid_shape_wf(self.spec_grid()),
            row < 5,
            col < 5,
        ensures
            n as int == spec_run_down(self.spec_grid(), row as int, col as int),
    {
        let mut n: usize = 0;
        let mut r: usize = row;
        while r < 4 && self.is_filled(r + 1, col)
            invariant
                grid_shape_wf(self.spec_grid()),
                col < 5,
                row <= r <= 4,
                n == r - row,
                spec_run_down(self.spec_grid(), row as int, col as int) == n + spec_run_down(
                    self.spec_grid(),
                    r as int,
                    col as int,
                ),
            decreases 4 - r,
        {
            n = n + 1;
            r = r + 1;
        }
        n
    }

    /// Whether some color occupies all five of its designated cells.
    fn has_diagonal(&self) -> (b: bool)
        requires
            grid_shape_wf(self.spec_grid()),
        ensures
            b == grid_has_diagonal(self.spec_grid()),
    {
        let ghost g = self.spec_grid();
        let mut ci: u8 = 0;
        while ci < 5
            invariant
                grid_shape_wf(g),
                g == self.spec_grid(),
                ci <= 5,
                forall|k: int| 0 <= k < ci ==> !grid_color_complete(g, spec_color_of(k)),
            decreases 5 - ci,
        {
            let t = Self::color_of(ci);
            let mut r: usize = 0;
            let mut complete = true;
            while r < 5
                invariant
                    grid_shape_wf(g),
                    g == self.spec_grid(),
                    t == spec_color_of(ci as int),
                    ci < 5,
                    r <= 5,
                    complete == (forall|k: int|
                        0 <= k < r ==> grid_is_filled(g, k, spec_col_of(t, k))),
                decreases 5 - r,
            {
                proof {
                    lemma_layout_roundtrip(t, r as int);
                }
                let col = self.find_col_for_tile(r, t);
                if !self.is_filled(r, col) {
                    complete = false;
                }
                r = r + 1;
            }
            if complete {
                proof {
                    assert(t != Tile::FirstPlayer && grid_color_complete(g, t));
                }
                return true;
            }
            ci = ci + 1;
        }
        proof {
            assert forall|t: Tile| t != Tile::FirstPlayer implies !grid_color_complete(g, t) by {
                assert(spec_color_of(spec_color_index(t)) == t);
            }
        }
        false
    }

    /// Place a tile of color `tile` on its cell in row `row`, score the
    /// placement, and say whether it completed the row and so ends the
    /// match.
    pub fn fill_slot(&mut self, row: usize, tile: Tile) -> (res: FillResult)
        requires
            old(self).wf(),
            row < 5,
            tile != Tile::FirstPlayer,
            !old(self).spec_is_filled(row as int, spec_col_of(tile, row as int)),
        ensures
            final(self).wf(),
            ({
                let c = spec_col_of(tile, row as int);
                let g = final(self).spec_grid();
                let gain = spec_gain(g, row as int, c);
                &&& forall|i: int, j: int|
                    0 <= i < 5 && 0 <= j < 5 && (i != row || j != c)
                        ==> final(self).spec_is_filled(i, j) == old(self).spec_is_filled(i, j)
                &&& final(self).spec_is_filled(row as int, c)
                &&& grid_filled_count(g) == grid_filled_count(old(self).spec_grid()) + 1
                &&& final(self).spec_points() == old(self).spec_points() + gain
                &&& 1 <= gain <= 29
                &&& res == (if spec_run_left(g, row as int, c) + spec_run_right(g, row as int, c)
                    == 4 {
                    FillResult::PointsGainedAndGameOver(gain as u32)
                } else {
                    FillResult::PointsGained(gain as u32)
                })
            }),
    {
        proof {
            lemma_layout_roundtrip(tile, row as int);
        }
        let col = self.find_col_for_tile(row, tile);
        let ghost g0 = self.spec_grid();
        self.slots[row][col] = Slot::Filled(tile);
        let ghost g1 = self.spec_grid();
        proof {
            assert(self.slots@.len() == old(self).slots@.len());
            assert(forall|i: int| 0 <= i < 5 && i != row ==> self.slots@[i] == old(self).slots@[i]);
            assert(self.slots@[row as int]@ == old(self).slots@[row as int]@.update(
                col as int,
                Slot::Filled(tile),
            ));
            assert forall|i: int| 0 <= i < 5 implies (#[trigger] g1[i]).len() == 5 by {
                assert(g1[i] == self.slots@[i]@);
                assert(g0[i] == old(self).slots@[i]@);
            }
            assert forall|i: int, j: int|
                0 <= i < 5 && 0 <= j < 5 && (i != row || j != col) implies #[trigger] g1[i][j]
                == g0[i][j] by {
                assert(g1[i] == self.slots@[i]@);
                assert(g0[i] == old(self).slots@[i]@);
            }
            assert(g1[row as int] == self.slots@[row as int]@);
            assert(g1[row as int][col as int] == Slot::Filled(tile));
            assert(grid_wf(g1));
            lemma_filled_count_plus(g0, g1, row as int, col as int);
            lemma_filled_count_bounds(g1);
            lemma_gain_bounds(g1, row as int, col as int);
        }
        let left = self.run_left(row, col);
        let right = self.run_right(row, col);
        let up = self.run_up(row, col);
        let down = self.run_down(row, col);
        let adj_row = left + right;
        let adj_col = up + down;
        let mut gained: u32 = 0;
        let mut over = false;
        if adj_row == 0 && adj_col == 0 {
            gained = 1;
        }
        if adj_row > 0 {
            gained = gained + 1 + adj_row as u32;
        }
        if adj_col > 0 {
            gained = gained + 1 + adj_col as u32;
        }
        if adj_col == 4 {
            gained = gained + 7;
        }
        if adj_row == 4 {
            gained = gained + 2;
            over = true;
        }
        if self.has_diagonal() {
            gained = gained + 10;
        }
        proof {
            assert(gained as int == spec_gain(g1, row as int, col as int));
        }
        self.points = self.points + gained;
        proof {
            assert(self.spec_grid() == g1);
        }
        if over {
            FillResult::PointsGainedAndGameOver(gained)
        } else {
            FillResult::PointsGained(gained)
        }
    }

    /// The color that the cell at (`row`,`col`) is dedicated to, whether
    /// filled or not.
    pub fn find_tile_for(&self, row: usize, col: usize) -> (t: Tile)
        requires
            self.wf(),
            row < 5,
            col < 5,
        ensures
            t == spec_wall_color(row as int, col as int),
            t != Tile::FirstPlayer,
    {
        proof {
            lemma_wall_color_roundtrip(row as int, col as int);
        }
        match self.at(row, col) {
            Slot::Filled(x) => x,
            Slot::Free(x) => x,
        }
    }

    /// The first cell, in reading order, of a wall description whose
    /// digit is `d`.
    fn find_digit(bytes: &[u8], d: u8) -> (res: Option<(usize, usize)>)
        requires
            d <= 9,
            spec_wall_string_wf(bytes@),
        ensures
            match res {
                Some(p) => p.0 < 5 && p.1 < 5 && spec_find_digit(bytes@, d as int) == Some(
                    (p.0 as int, p.1 as int),
                ),
                None => spec_find_digit(bytes@, d as int) is None,
            },
    {
        let mut r: usize = 0;
        while r < 5
            invariant
                r <= 5,
                d <= 9,
                spec_wall_string_wf(bytes@),
                spec_find_digit(bytes@, d as int) == spec_find_digit_from(
                    bytes@,
                    d as int,
                    r as int,
                    0,
                ),
            decreases 5 - r,
        {
            let mut c: usize = 0;
            while c < 5
                invariant
                    r < 5,
                    c <= 5,
                    d <= 9,
                    spec_wall_string_wf(bytes@),
                    spec_find_digit(bytes@, d as int) == spec_find_digit_from(
                        bytes@,
                        d as int,
                        r as int,
                        c as int,
                    ),
                decreases 5 - c,
            {
                if bytes[r * 6 + c] == 48 + d {
                    return Some((r, c));
                }
                c = c + 1;
            }
            r = r + 1;
        }
        None
    }

    /// A wall built from a five-line description whose digit cells, in
    /// digit order, name the cells filled so far and the order they were
    /// filled in.
    pub fn from_string(input: &str) -> (w: Wall)
        requires
            spec_wall_string_wf(input.spec_bytes()),
        ensures
            w.wf(),
            w.spec_grid() == spec_build(input.spec_bytes(), 9).0,
            w.spec_points() == spec_build(input.spec_bytes(), 9).1,
    {
        let bytes = input.as_bytes();
        let ghost b = input.spec_bytes();
        let mut wall = Wall::default();
        proof {
            let g = wall.spec_grid();
            assert forall|i: int| 0 <= i < 5 implies g[i] == spec_empty_grid()[i] by {
                assert forall|j: int| 0 <= j < 5 implies g[i][j] == Slot::Free(
                    spec_wall_color(i, j),
                ) by {
                    assert(!wall.spec_is_filled(i, j));
                }
                assert(g[i] =~= spec_empty_grid()[i]);
            }
            assert(g =~= spec_empty_grid());
        }
        let mut d: u8 = 1;
        while d <= 9
            invariant
                1 <= d <= 10,
                bytes@ == b,
                spec_wall_string_wf(b),
                wall.wf(),
                wall.spec_grid() == spec_build(b, d - 1).0,
                wall.spec_points() == spec_build(b, d - 1).1,
                forall|r: int, c: int|
                    0 <= r < 5 && 0 <= c < 5 ==> (wall.spec_is_filled(r, c) <==> exists|e: int|
                        1 <= e < d && #[trigger] spec_find_digit(b, e) == Some((r, c))),
            decreases 10 - d,
        {
            let found = Self::find_digit(bytes, d);
            match found {
                Some(rc) => {
                    let (r, c) = rc;
                    proof {
                        lemma_find_digit_sound(b, d as int, 0, 0);
                        if wall.spec_is_filled(r as int, c as int) {
                            let e = choose|e: int|
                                1 <= e < d && #[trigger] spec_find_digit(b, e) == Some(
                                    (r as int, c as int),
                                );
                            lemma_find_digit_sound(b, e, 0, 0);
                            assert(false);
                        }
                        lemma_wall_color_roundtrip(r as int, c as int);
                    }
                    let t = wall.find_tile_for(r, c);
                    let ghost w0 = wall;
                    let _ = wall.fill_slot(r, t);
                    proof {
                        let ri = r as int;
                        let ci = c as int;
                        let g0 = w0.spec_grid();
                        let g1 = wall.spec_grid();
                        let g2 = g0.update(ri, g0[ri].update(ci, Slot::Filled(spec_wall_color(ri, ci))));
                        assert forall|i: int, j: int|
                            0 <= i < 5 && 0 <= j < 5 implies #[trigger] g2[i][j] == (
                        if (i == ri && j == ci) {
                            Slot::Filled(spec_wall_color(ri, ci))
                        } else {
                            g0[i][j]
                        }) by {
                            if i == ri {
                                assert(g2[i] == g0[ri].update(ci, Slot::Filled(spec_wall_color(ri, ci))));
                            } else {
                                assert(g2[i] == g0[i]);
                            }
                        }
                        assert(grid_wf(g2));
                        assert forall|i: int, j: int| 0 <= i < 5 && 0 <= j < 5 implies
                            grid_is_filled(g1, i, j) == grid_is_filled(g2, i, j) by {
                            assert(g2[i][j] == (if (i == ri && j == ci) {
                                Slot::Filled(spec_wall_color(ri, ci))
                            } else {
                                g0[i][j]
                            }));
                            if i == ri && j == ci {
                                assert(grid_is_filled(g1, i, j));
                            } else {
                                assert(wall.spec_is_filled(i, j) == w0.spec_is_filled(i, j));
                            }
                        }
                        lemma_grid_eq(g1, g2);
                        assert((g1, wall.spec_points()) == spec_apply_fill(g0, w0.spec_points(), ri, ci));
                        assert(spec_build(b, d as int) == spec_apply_fill(g0, w0.spec_points(), ri, ci));
                        assert forall|r2: int, c2: int| 0 <= r2 < 5 && 0 <= c2 < 5 implies (
                        wall.spec_is_filled(r2, c2) <==> exists|e: int|
                            1 <= e < d + 1 && #[trigger] spec_find_digit(b, e) == Some(
                                (r2, c2),
                            )) by {
                            if wall.spec_is_filled(r2, c2) {
                                if r2 == ri && c2 == ci {
                                    assert(1 <= (d as int) && (d as int) < d + 1
                                        && spec_find_digit(b, d as int) == Some((r2, c2)));
                                } else {
                                    let e = choose|e: int|
                                        1 <= e < d && #[trigger] spec_find_digit(b, e) == Some(
                                            (r2, c2),
                                        );
                                    assert(1 <= e < d + 1 && spec_find_digit(b, e) == Some(
                                        (r2, c2),
                                    ));
                                }
                            } else {
                                if exists|e: int|
                                    1 <= e < d + 1 && #[trigger] spec_find_digit(b, e) == Some(
                                        (r2, c2),
                                    ) {
                                    let e = choose|e: int|
                                        1 <= e < d + 1 && #[trigger] spec_find_digit(b, e)
                                            == Some((r2, c2));
                                    if e < d {
                                        assert(w0.spec_is_filled(r2, c2));
                                        assert(false);
                                    } else {
                                        assert(false);
                                    }
                                }
                            }
                        }
                    }
                },
                None => {
                    proof {
                        assert(spec_build(b, d as int) == spec_build(b, d - 1));
                        assert forall|r2: int, c2: int| 0 <= r2 < 5 && 0 <= c2 < 5 implies (
                        wall.spec_is_filled(r2, c2) <==> exists|e: int|
                            1 <= e < d + 1 && #[trigger] spec_find_digit(b, e) == Some(
                                (r2, c2),
                            )) by {
                            if !wall.spec_is_filled(r2, c2) {
                                if exists|e: int|
                                    1 <= e < d + 1 && #[trigger] spec_find_digit(b, e) == Some(
                                        (r2, c2),
                                    ) {
                                    let e = choose|e: int|
                                        1 <= e < d + 1 && #[trigger] spec_find_digit(b, e)
                                            == Some((r2, c2));
                                    if e < d {
                                        assert(wall.spec_is_filled(r2, c2));
                                    }
                                    assert(false);
                                }
                            }
                        }
                    }
                },
            }
            d = d + 1;
        }
        wall
    }

    /// Deduct the floor line's penalty from the running total, never
    /// dropping below zero, and clear the floor line.
    pub fn reset_floorline(&mut self, floorline: &mut FloorLine)
        requires
            old(self).wf(),
            old(floorline).wf(),
        ensures
            final(self).wf(),
            final(floorline).wf(),
            final(floorline)@ == Seq::<Tile>::empty(),
            final(self).spec_grid() == old(self).spec_grid(),
            ({
                let minus = spec_penalty(old(floorline)@.len() as int);
                final(self).spec_points() == (if old(self).spec_points() <= minus {
                    0int
                } else {
                    old(self).spec_points() - minus
                })
            }),
    {
        let minus = floorline.calculate_minus_points() as u32;
        if self.points <= minus {
            self.points = 0;
        } else {
            self.points = self.points - minus;
        }
        floorline.reset();
    }
}

impl Default for Wall {
    /// A fresh wall: every cell free and carrying its layout color, no
    /// points yet.
    fn default() -> (r: Self)
        ensures
            r.wf(),
            r.spec_points() == 0,
            forall|i: int, j: int| 0 <= i < 5 && 0 <= j < 5 ==> !r.spec_is_filled(i, j),
    {
        let mut slots: Vec<Vec<Slot>> = Vec::new();
        let mut r: usize = 0;
        while r < 5
            invariant
                r <= 5,
                slots@.len() == r,
                forall|i: int| 0 <= i < r ==> (#[trigger] slots@[i])@.len() == 5,
                forall|i: int, j: int|
                    0 <= i < r && 0 <= j < 5 ==> #[trigger] slots@[i]@[j] == Slot::Free(
                        spec_wall_color(i, j),
                    ),
            decreases 5 - r,
        {
            let mut row: Vec<Slot> = Vec::new();
            let mut c: usize = 0;
            while c < 5
                invariant
                    c <= 5,
                    r < 5,
                    row@.len() == c,
                    forall|j: int|
                        0 <= j < c ==> row@[j] == Slot::Free(spec_wall_color(r as int, j)),
                decreases 5 - c,
            {
                let idx: u8 = if c >= r {
                    (c - r) as u8
                } else {
                    (c + 5 - r) as u8
                };
                row.push(Slot::Free(Self::color_of(idx)));
                c = c + 1;
            }
            slots.push(row);
            r = r + 1;
        }
        let wall = Wall { slots, points: 0 };
        proof {
            let g = wall.spec_grid();
            assert forall|i: int, j: int| 0 <= i < 5 && 0 <= j < 5 implies #[trigger] g[i][j]
                == Slot::Free(spec_wall_color(i, j)) by {
                assert(g[i] == wall.slots@[i]@);
            }
            lemma_filled_count_bounds(g);
        }
        wall
    }
}

} // verus!
