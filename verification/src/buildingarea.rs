use vstd::prelude::*;

use crate::bag::Bag;
use crate::common_area::{lemma_after_pick_props, spec_after_pick, CommonArea};
use crate::factory::Factory;
use crate::floorline::FloorLine;
use crate::patternline::{spec_accept_result, PatternLine};
use crate::tile::Tile;
use crate::wall::{
    grid_is_filled, spec_col_of, spec_gain, spec_run_left, spec_run_right, spec_wall_color,
    FillResult, Slot, Wall, WallGrid,
};

verus! {

broadcast use vstd::multiset::group_multiset_axioms, vstd::seq_lib::group_to_multiset_ensures;

/// Whether flushing the staging rows completed a wall row and so ended
/// the match.
#[must_use]
#[derive(Clone, Copy, PartialEq, Eq, Structural, Debug)]
pub enum IsGameOver {
    Yes,
    No,
}

impl IsGameOver {
    /// The flag as a plain boolean.
    pub fn as_bool(&self) -> (b: bool)
        ensures
            b == (*self is Yes),
    {
        match self {
            IsGameOver::Yes => true,
            IsGameOver::No => false,
        }
    }
}

/// What the round-end flush of rows `i` and above does to a board: every
/// full staging row sends one tile to its wall row, scoring as it lands,
/// and empties back to free; a completed wall row ends the match.
/// Returns the rows, the wall grid, the points, and the game-over flag.
pub open spec fn spec_flush_rows(rows: Seq<PatternLine>, g: WallGrid, p: int, i: int) -> (
    Seq<PatternLine>,
    WallGrid,
    int,
    bool,
)
    decreases 5 - i,
{
    if i < 0 || i >= 5 {
        (rows, g, p, false)
    } else {
        let step = if rows[i].spec_is_full() {
            let t = rows[i]->Taken_tile;
            let c = spec_col_of(t, i);
            let gf = g.update(i, g[i].update(c, Slot::Filled(spec_wall_color(i, c))));
            (
                rows.update(i, PatternLine::Free { length: rows[i].spec_length() as usize }),
                gf,
                p + spec_gain(gf, i, c),
                spec_run_left(gf, i, c) + spec_run_right(gf, i, c) == 4,
            )
        } else {
            (rows, g, p, false)
        };
        let rec = spec_flush_rows(step.0, step.1, step.2, i + 1);
        (rec.0, rec.1, rec.2, step.3 || rec.3)
    }
}

/// One player's personal area: five staging rows, the scoring wall, and
/// the floor line.
#[derive(Debug)]
pub struct BuildingArea {
    in_progress: Vec<PatternLine>,
    wall: Wall,
    floorline: FloorLine,
}

impl BuildingArea {
    /// The five staging rows, shortest first.
    pub closed spec fn spec_rows(self) -> Seq<PatternLine> {
        self.in_progress@
    }

    /// The scoring wall.
    pub closed spec fn spec_wall(self) -> Wall {
        self.wall
    }

    /// The floor line.
    pub closed spec fn spec_floorline(self) -> FloorLine {
        self.floorline
    }

    /// Row `i` holds up to `i + 1` tiles; a taken row holds a color
    /// whose wall cell in that row is still free, so the round-end flush
    /// can always place it.
    pub open spec fn wf(self) -> bool {
        &&& self.spec_rows().len() == 5
        &&& forall|i: int|
            0 <= i < 5 ==> (#[trigger] self.spec_rows()[i]).wf() && self.spec_rows()[i].spec_length()
                == i + 1
        &&& forall|i: int|
            0 <= i < 5 && (#[trigger] self.spec_rows()[i]) is Taken ==> self.spec_rows()[i]->Taken_tile
                != Tile::FirstPlayer && !self.spec_wall().spec_is_filled(
                i,
                spec_col_of(self.spec_rows()[i]->Taken_tile, i),
            )
        &&& self.spec_wall().wf()
        &&& self.spec_floorline().wf()
    }

    /// A fresh board: five free rows, an empty wall, an empty floor
    /// line.
    pub fn new() -> (r: Self)
        ensures
            r.wf(),
            forall|i: int|
                0 <= i < 5 ==> #[trigger] r.spec_rows()[i] == (PatternLine::Free {
                    length: (i + 1) as usize,
                }),
            r.spec_wall().spec_points() == 0,
            forall|i: int, j: int|
                0 <= i < 5 && 0 <= j < 5 ==> !r.spec_wall().spec_is_filled(i, j),
            r.spec_floorline()@ == Seq::<Tile>::empty(),
    {
        let mut in_progress: Vec<PatternLine> = Vec::new();
        let mut i: usize = 0;
        while i < 5
            invariant
                i <= 5,
                in_progress@.len() == i,
                forall|j: int|
                    0 <= j < i ==> #[trigger] in_progress@[j] == (PatternLine::Free {
                        length: (j + 1) as usize,
                    }),
            decreases 5 - i,
        {
            in_progress.push(PatternLine::new_free(i + 1));
            i = i + 1;
        }
        BuildingArea { in_progress, wall: Wall::default(), floorline: FloorLine::new() }
    }

    pub fn get_row(&self, row_number: usize) -> (r: &PatternLine)
        requires
            row_number < self.spec_rows().len(),
        ensures
            *r == self.spec_rows()[row_number as int],
    {
        &self.in_progress[row_number]
    }

    /// Direct mutable access to one staging row; a caller that changes
    /// the row is responsible for keeping the board well-formed.
    pub fn get_row_mut(&mut self, row_number: usize) -> (r: &mut PatternLine)
        requires
            row_number < old(self).spec_rows().len(),
        ensures
            *r == old(self).spec_rows()[row_number as int],
            final(self).spec_rows() == old(self).spec_rows().update(row_number as int, *final(r)),
            final(self).spec_wall() == old(self).spec_wall(),
            final(self).spec_floorline() == old(self).spec_floorline(),
    {
        &mut self.in_progress[row_number]
    }

    pub fn get_rows(&self) -> (r: &Vec<PatternLine>)
        ensures
            r@ == self.spec_rows(),
    {
        &self.in_progress
    }

    pub fn get_floorline(&self) -> (r: &FloorLine)
        ensures
            *r == self.spec_floorline(),
    {
        &self.floorline
    }

    pub fn get_wall(&self) -> (r: &Wall)
        ensures
            *r == self.spec_wall(),
    {
        &self.wall
    }

    /// Whether row `row_number` may take tiles of color `what`: the wall
    /// cell for that color in that row is still free, and the row itself
    /// is free or matching with spare capacity.
    pub open spec fn spec_can_accept(self, what: Tile, row_number: int) -> bool {
        &&& !self.spec_wall().spec_is_filled(row_number, spec_col_of(what, row_number))
        &&& self.spec_rows()[row_number].spec_can_accept(what)
    }

    pub fn can_accept(&self, what: Tile, row_number: usize) -> (b: bool)
        requires
            self.wf(),
            what != Tile::FirstPlayer,
            row_number < 5,
        ensures
            b == self.spec_can_accept(what, row_number as int),
    {
        match self.wall.find_slot_for_tile(what, row_number) {
            Slot::Filled(_) => false,
            Slot::Free(_) => self.in_progress[row_number].can_accept(what),
        }
    }

    /// The rows of this board, in ascending order, that may take tiles
    /// of color `t`: rows `i` and above.
    pub open spec fn spec_eligible_rows(self, t: Tile, i: int) -> Seq<usize>
        decreases i,
    {
        if i <= 0 {
            Seq::empty()
        } else {
            let rest = self.spec_eligible_rows(t, i - 1);
            if self.spec_can_accept(t, i - 1) {
                rest.push((i - 1) as usize)
            } else {
                rest
            }
        }
    }

    /// The rows that may take tiles of color `tile`, in ascending order.
    pub fn get_rows_that_can_accept(&self, tile: Tile) -> (r: Vec<usize>)
        requires
            self.wf(),
            tile != Tile::FirstPlayer,
        ensures
            r@ == self.spec_eligible_rows(tile, 5),
    {
        let mut r: Vec<usize> = Vec::new();
        let mut i: usize = 0;
        while i < 5
            invariant
                self.wf(),
                tile != Tile::FirstPlayer,
                i <= 5,
                r@ == self.spec_eligible_rows(tile, i as int),
            decreases 5 - i,
        {
            if self.can_accept(tile, i) {
                r.push(i);
            }
            i = i + 1;
        }
        r
    }

    /// The eligible rows come out strictly ascending, without
    /// duplicates, and are exactly the rows that can accept the color.
    pub proof fn lemma_eligible_rows_props(self, t: Tile, n: int)
        requires
            0 <= n <= 5,
        ensures
            self.spec_eligible_rows(t, n).no_duplicates(),
            forall|a: int, b: int|
                0 <= a < b < self.spec_eligible_rows(t, n).len() ==> self.spec_eligible_rows(
                    t,
                    n,
                )[a] < self.spec_eligible_rows(t, n)[b],
            forall|i: int|
                0 <= i < self.spec_eligible_rows(t, n).len() ==> (#[trigger] self.spec_eligible_rows(
                    t,
                    n,
                )[i]) < n && self.spec_can_accept(t, self.spec_eligible_rows(t, n)[i] as int),
            forall|r: usize|
                #[trigger] self.spec_eligible_rows(t, n).contains(r) <==> (r < n
                    && self.spec_can_accept(t, r as int)),
        decreases n,
    {
        if n > 0 {
            self.lemma_eligible_rows_props(t, n - 1);
            let rest = self.spec_eligible_rows(t, n - 1);
            let full = self.spec_eligible_rows(t, n);
            assert forall|r: usize| #[trigger] full.contains(r) <==> (r < n && self.spec_can_accept(
                t,
                r as int,
            )) by {
                if self.spec_can_accept(t, n - 1) {
                    vstd::seq_lib::lemma_seq_contains_after_push(rest, (n - 1) as usize, r);
                } else {
                    if r < n && self.spec_can_accept(t, r as int) {
                        assert(r < n - 1 || r as int == n - 1);
                    }
                }
            }
        }
    }

    /// A vector of `n` copies of one tile.
    fn repeat_tile(t: Tile, n: usize) -> (r: Vec<Tile>)
        ensures
            r@ == Seq::new(n as nat, |x: int| t),
    {
        let mut r: Vec<Tile> = Vec::new();
        let mut i: usize = 0;
        while i < n
            invariant
                i <= n,
                r@ == Seq::new(i as nat, |x: int| t),
            decreases n - i,
        {
            r.push(t);
            proof {
                assert(r@ =~= Seq::new((i + 1) as nat, |x: int| t));
            }
            i = i + 1;
        }
        r
    }

    /// The tiles of a draft's source that were not picked: everything
    /// but the picked color and the marker, in order.
    pub(crate) fn remove_color(v: &Vec<Tile>, t: Tile) -> (r: Vec<Tile>)
        ensures
            r@ == spec_after_pick(v@, t),
    {
        let mut r: Vec<Tile> = Vec::new();
        let mut i: usize = 0;
        while i < v.len()
            invariant
                i <= v@.len(),
                r@ == spec_after_pick(v@.take(i as int), t),
            decreases v@.len() - i,
        {
            let u = v[i];
            proof {
                assert(v@.take(i + 1).drop_last() =~= v@.take(i as int));
                assert(v@.take(i + 1).last() == v@[i as int]);
            }
            if u != t && u != Tile::FirstPlayer {
                r.push(u);
            }
            i = i + 1;
        }
        proof {
            assert(v@.take(v@.len() as int) =~= v@);
        }
        r
    }

    /// Draft color `picked_tile` from a factory into row `row_number`:
    /// the matching tiles go to the row, overflow to the floor line and
    /// from a full floor line on to the bag's discard pile; the rest of
    /// the factory moves to the common area and the factory empties. An
    /// empty factory, an absent color, or a row taken by another color
    /// is an illegal draft: it is reported and nothing moves.
    pub fn pick_factory(
        &mut self,
        factory: &mut Factory,
        common_area: &mut CommonArea,
        bag: &mut Bag,
        row_number: usize,
        picked_tile: Tile,
    ) -> (r: Result<(), String>)
        requires
            old(self).wf(),
            old(factory).wf(),
            old(common_area).wf(),
            old(bag).wf(),
            row_number < 5,
            picked_tile != Tile::FirstPlayer,
            (old(factory)@ is Some && old(factory)@->Some_0.contains(picked_tile) && (match old(
                self,
            ).spec_rows()[row_number as int] {
                PatternLine::Taken { tile, .. } => tile == picked_tile,
                PatternLine::Free { .. } => true,
            })) ==> !old(self).spec_wall().spec_is_filled(
                row_number as int,
                spec_col_of(picked_tile, row_number as int),
            ),
        ensures
            final(self).wf(),
            final(factory).wf(),
            final(common_area).wf(),
            final(bag).wf(),
            (r is Err) <==> (old(factory)@ is None || !old(factory)@->Some_0.contains(picked_tile)
                || (match old(self).spec_rows()[row_number as int] {
                PatternLine::Taken { tile, .. } => tile != picked_tile,
                PatternLine::Free { .. } => false,
            })),
            r is Err ==> *final(self) == *old(self) && *final(factory) == *old(factory)
                && *final(common_area) == *old(common_area) && *final(bag) == *old(bag),
            r is Ok ==> final(factory)@ is None && spec_pick_effect(
                *old(self),
                *final(self),
                old(factory)@->Some_0,
                *old(common_area),
                *final(common_area),
                *old(bag),
                *final(bag),
                row_number as int,
                picked_tile,
            ),
    {
        if factory.is_empty() {
            return Err("you tried picking an empty factory".to_owned());
        }
        if !factory.contains_tile(picked_tile) {
            return Err("the factory does not hold that color".to_owned());
        }
        let mismatch = match self.in_progress[row_number] {
            PatternLine::Taken { tile, .. } => tile != picked_tile,
            PatternLine::Free { .. } => false,
        };
        if mismatch {
            return Err("this row is taken by another color".to_owned());
        }
        let ghost s = factory@->Some_0;
        proof {
            lemma_after_pick_props(s, picked_tile);
        }
        let m = factory.count_tile(picked_tile);
        let remainder = match factory.get_tiles() {
            Some(v) => Self::remove_color(v, picked_tile),
            None => Vec::new(),
        };
        proof {
            if remainder@.contains(Tile::FirstPlayer) {
                assert(remainder@.to_multiset().count(Tile::FirstPlayer) > 0);
            }
        }
        common_area.add(&remainder);
        factory.clear();
        let rem = match self.in_progress[row_number].accept(picked_tile, m) {
            Ok(k) => k,
            Err(_) => {
                proof {
                    assert(false);
                }
                0
            },
        };
        let overflow = Self::repeat_tile(picked_tile, rem);
        let ghost fr = crate::floorline::spec_floor_result(
            old(self).spec_floorline()@,
            picked_tile,
            rem as int,
        );
        let leftover = self.floorline.add_tiles(&overflow);
        proof {
            assert(self.spec_floorline()@ =~= fr.0);
            assert(leftover@ =~= Seq::new(fr.1 as nat, |x: int| picked_tile));
            if leftover@.contains(Tile::FirstPlayer) {
                let ix = choose|ix: int|
                    0 <= ix < leftover@.len() && leftover@[ix] == Tile::FirstPlayer;
            }
        }
        bag.discard(&leftover);
        Ok(())
    }

    /// Put `how_many` tiles of color `picked_tile` drafted from the
    /// common area into row `row_number`; overflow goes to the floor
    /// line, the first-player marker follows it there, and colored tiles
    /// that spill off a full floor line go to the bag's discard pile (a
    /// spilled marker simply leaves play until the next round seeds a
    /// fresh one). A row taken by another color is an illegal draft: it
    /// is reported and nothing moves.
    pub fn pick_from_common_area(
        &mut self,
        bag: &mut Bag,
        row_number: usize,
        picked_tile: Tile,
        how_many: usize,
        first_player: bool,
    ) -> (r: Result<(), String>)
        requires
            old(self).wf(),
            old(bag).wf(),
            row_number < 5,
            picked_tile != Tile::FirstPlayer,
            (match old(self).spec_rows()[row_number as int] {
                PatternLine::Taken { tile, .. } => tile == picked_tile,
                PatternLine::Free { .. } => true,
            }) ==> !old(self).spec_wall().spec_is_filled(
                row_number as int,
                spec_col_of(picked_tile, row_number as int),
            ),
        ensures
            final(self).wf(),
            final(bag).wf(),
            (r is Err) <==> (match old(self).spec_rows()[row_number as int] {
                PatternLine::Taken { tile, .. } => tile != picked_tile,
                PatternLine::Free { .. } => false,
            }),
            r is Err ==> *final(self) == *old(self) && *final(bag) == *old(bag),
            r is Ok ==> spec_common_pick_effect(
                *old(self),
                *final(self),
                *old(bag),
                *final(bag),
                row_number as int,
                picked_tile,
                how_many as int,
                first_player,
            ),
    {
        let mismatch = match self.in_progress[row_number] {
            PatternLine::Taken { tile, .. } => tile != picked_tile,
            PatternLine::Free { .. } => false,
        };
        if mismatch {
            return Err("this row is taken by another color".to_owned());
        }
        let rem = match self.in_progress[row_number].accept(picked_tile, how_many) {
            Ok(k) => k,
            Err(_) => {
                proof {
                    assert(false);
                }
                0
            },
        };
        let overflow = Self::repeat_tile(picked_tile, rem);
        let ghost fr = crate::floorline::spec_floor_result(
            old(self).spec_floorline()@,
            picked_tile,
            rem as int,
        );
        let leftover = self.floorline.add_tiles(&overflow);
        proof {
            assert(self.spec_floorline()@ =~= fr.0);
            assert(leftover@ =~= Seq::new(fr.1 as nat, |x: int| picked_tile));
            if leftover@.contains(Tile::FirstPlayer) {
                let ix = choose|ix: int|
                    0 <= ix < leftover@.len() && leftover@[ix] == Tile::FirstPlayer;
            }
        }
        bag.discard(&leftover);
        if first_player {
            let marker = Self::repeat_tile(Tile::FirstPlayer, 1);
            let _dropped = self.floorline.add_tiles(&marker);
            proof {
                if fr.0.len() < 7 {
                    assert(marker@.take(1) =~= seq![Tile::FirstPlayer]);
                    assert(self.spec_floorline()@ =~= fr.0 + seq![Tile::FirstPlayer]);
                } else {
                    assert(marker@.take(0) =~= Seq::<Tile>::empty());
                    assert(self.spec_floorline()@ =~= fr.0);
                }
            }
        }
        Ok(())
    }

    /// Put a whole draft of color `tile` straight onto the floor line,
    /// for the case where no staging row can take the color: what fits
    /// stays there, colored spill goes to the bag's discard pile, and
    /// the marker follows onto the floor line if it was claimed.
    pub fn dump_to_floorline(
        &mut self,
        bag: &mut Bag,
        tile: Tile,
        how_many: usize,
        first_player: bool,
    )
        requires
            old(self).wf(),
            old(bag).wf(),
            tile != Tile::FirstPlayer,
        ensures
            final(self).wf(),
            final(bag).wf(),
            spec_dump_effect(
                *old(self),
                *final(self),
                *old(bag),
                *final(bag),
                tile,
                how_many as int,
                first_player,
            ),
    {
        let overflow = Self::repeat_tile(tile, how_many);
        let ghost fr = crate::floorline::spec_floor_result(
            old(self).spec_floorline()@,
            tile,
            how_many as int,
        );
        let leftover = self.floorline.add_tiles(&overflow);
        proof {
            assert(self.spec_floorline()@ =~= fr.0);
            assert(leftover@ =~= Seq::new(fr.1 as nat, |x: int| tile));
            if leftover@.contains(Tile::FirstPlayer) {
                let ix = choose|ix: int|
                    0 <= ix < leftover@.len() && leftover@[ix] == Tile::FirstPlayer;
            }
        }
        bag.discard(&leftover);
        if first_player {
            let marker = Self::repeat_tile(Tile::FirstPlayer, 1);
            let _dropped = self.floorline.add_tiles(&marker);
            proof {
                if fr.0.len() < 7 {
                    assert(marker@.take(1) =~= seq![Tile::FirstPlayer]);
                    assert(self.spec_floorline()@ =~= fr.0 + seq![Tile::FirstPlayer]);
                } else {
                    assert(marker@.take(0) =~= Seq::<Tile>::empty());
                    assert(self.spec_floorline()@ =~= fr.0);
                }
            }
        }
    }

    /// Flush every full staging row onto the wall, scoring each
    /// placement, and report whether a completed wall row ended the
    /// match.
    pub fn move_tiles_to_wall(&mut self) -> (r: IsGameOver)
        requires
            old(self).wf(),
        ensures
            final(self).wf(),
            ({
                let fr = spec_flush_rows(
                    old(self).spec_rows(),
                    old(self).spec_wall().spec_grid(),
                    old(self).spec_wall().spec_points(),
                    0,
                );
                &&& final(self).spec_rows() == fr.0
                &&& final(self).spec_wall().spec_grid() == fr.1
                &&& final(self).spec_wall().spec_points() == fr.2
                &&& (r is Yes) == fr.3
                &&& final(self).spec_floorline() == old(self).spec_floorline()
            }),
    {
        let ghost fr = spec_flush_rows(
            old(self).spec_rows(),
            old(self).spec_wall().spec_grid(),
            old(self).spec_wall().spec_points(),
            0,
        );
        let mut over = false;
        let mut i: usize = 0;
        while i < 5
            invariant
                self.wf(),
                i <= 5,
                self.spec_floorline() == old(self).spec_floorline(),
                fr == spec_flush_rows(
                    old(self).spec_rows(),
                    old(self).spec_wall().spec_grid(),
                    old(self).spec_wall().spec_points(),
                    0,
                ),
                ({
                    let cur = spec_flush_rows(
                        self.spec_rows(),
                        self.spec_wall().spec_grid(),
                        self.spec_wall().spec_points(),
                        i as int,
                    );
                    &&& fr.0 == cur.0
                    &&& fr.1 == cur.1
                    &&& fr.2 == cur.2
                    &&& fr.3 == (over || cur.3)
                }),
            decreases 5 - i,
        {
            let full = self.in_progress[i].is_full();
            if full {
                let ghost pre = *self;
                let tile = self.in_progress[i].flush();
                let ghost mid = *self;
                let res = self.wall.fill_slot(i, tile);
                proof {
                    let ii = i as int;
                    let c = spec_col_of(tile, ii);
                    let g0 = pre.spec_wall().spec_grid();
                    let g1 = self.spec_wall().spec_grid();
                    let g2 = g0.update(ii, g0[ii].update(c, Slot::Filled(spec_wall_color(ii, c))));
                    crate::wall::lemma_layout_roundtrip(tile, ii);
                    assert forall|x: int, y: int|
                        0 <= x < 5 && 0 <= y < 5 implies #[trigger] g2[x][y] == (if (x == ii && y
                        == c) {
                        Slot::Filled(spec_wall_color(ii, c))
                    } else {
                        g0[x][y]
                    }) by {
                        if x == ii {
                            assert(g2[x] == g0[ii].update(c, Slot::Filled(spec_wall_color(ii, c))));
                        } else {
                            assert(g2[x] == g0[x]);
                        }
                    }
                    assert(crate::wall::grid_wf(g2));
                    assert forall|x: int, y: int|
                        0 <= x < 5 && 0 <= y < 5 implies grid_is_filled(g1, x, y) == grid_is_filled(
                        g2,
                        x,
                        y,
                    ) by {
                        if x == ii && y == c {
                            assert(grid_is_filled(g1, x, y));
                        } else {
                            assert(self.spec_wall().spec_is_filled(x, y) == pre.spec_wall().spec_is_filled(x, y));
                        }
                    }
                    crate::wall::lemma_grid_eq(g1, g2);
                    assert(self.spec_rows() =~= pre.spec_rows().update(
                        ii,
                        PatternLine::Free { length: pre.spec_rows()[ii].spec_length() as usize },
                    ));
                }
                match res {
                    FillResult::PointsGainedAndGameOver(_) => {
                        over = true;
                    },
                    FillResult::PointsGained(_) => {},
                }
            }
            i = i + 1;
        }
        if over {
            IsGameOver::Yes
        } else {
            IsGameOver::No
        }
    }

    /// Deduct the floor line's penalty from the wall's score, never
    /// dropping below zero, and clear the floor line for the next round.
    pub fn flush_floorline(&mut self)
        requires
            old(self).wf(),
        ensures
            final(self).wf(),
            final(self).spec_rows() == old(self).spec_rows(),
            final(self).spec_wall().spec_grid() == old(self).spec_wall().spec_grid(),
            final(self).spec_floorline()@ == Seq::<Tile>::empty(),
            ({
                let minus = crate::floorline::spec_penalty(old(self).spec_floorline()@.len() as int);
                final(self).spec_wall().spec_points() == (if old(self).spec_wall().spec_points()
                    <= minus {
                    0int
                } else {
                    old(self).spec_wall().spec_points() - minus
                })
            }),
    {
        self.wall.reset_floorline(&mut self.floorline);
    }
}

/// What a successful factory draft does to the board, the common area
/// and the bag: the matching tiles land on the row, overflow runs to the
/// floor line and then to the discard pile, and the rest of the factory
/// joins the common area.
pub open spec fn spec_pick_effect(
    pre: BuildingArea,
    post: BuildingArea,
    s: Seq<Tile>,
    ca0: CommonArea,
    ca1: CommonArea,
    b0: Bag,
    b1: Bag,
    row: int,
    t: Tile,
) -> bool {
    let m = s.to_multiset().count(t) as int;
    let ar = spec_accept_result(pre.spec_rows()[row], t, m);
    let fr = crate::floorline::spec_floor_result(pre.spec_floorline()@, t, ar.1);
    &&& post.spec_rows() == pre.spec_rows().update(row, ar.0)
    &&& post.spec_floorline()@ == fr.0
    &&& post.spec_wall() == pre.spec_wall()
    &&& ca1@.to_multiset() == ca0@.to_multiset().add(spec_after_pick(s, t).to_multiset())
    &&& b1.spec_drawable() == b0.spec_drawable()
    &&& b1.spec_discarded() == b0.spec_discarded() + Seq::new(fr.1 as nat, |x: int| t)
}

/// What a whole-draft-to-the-floor does to the board and the bag: the
/// staging rows and the wall stand still, the floor line takes what
/// fits, the marker follows if claimed, and colored spill is discarded.
pub open spec fn spec_dump_effect(
    pre: BuildingArea,
    post: BuildingArea,
    b0: Bag,
    b1: Bag,
    t: Tile,
    m: int,
    first_player: bool,
) -> bool {
    let fr = crate::floorline::spec_floor_result(pre.spec_floorline()@, t, m);
    let with_marker = if first_player && fr.0.len() < 7 {
        fr.0 + seq![Tile::FirstPlayer]
    } else {
        fr.0
    };
    &&& post.spec_rows() == pre.spec_rows()
    &&& post.spec_floorline()@ == with_marker
    &&& post.spec_wall() == pre.spec_wall()
    &&& b1.spec_drawable() == b0.spec_drawable()
    &&& b1.spec_discarded() == b0.spec_discarded() + Seq::new(fr.1 as nat, |x: int| t)
}

/// What a successful common-area draft does to the board and the bag:
/// the drafted tiles land on the row, overflow runs to the floor line,
/// the marker follows onto the floor line if it was claimed, and colored
/// spill from a full floor line goes to the discard pile.
pub open spec fn spec_common_pick_effect(
    pre: BuildingArea,
    post: BuildingArea,
    b0: Bag,
    b1: Bag,
    row: int,
    t: Tile,
    m: int,
    first_player: bool,
) -> bool {
    let ar = spec_accept_result(pre.spec_rows()[row], t, m);
    let fr = crate::floorline::spec_floor_result(pre.spec_floorline()@, t, ar.1);
    let with_marker = if first_player && fr.0.len() < 7 {
        fr.0 + seq![Tile::FirstPlayer]
    } else {
        fr.0
    };
    &&& post.spec_rows() == pre.spec_rows().update(row, ar.0)
    &&& post.spec_floorline()@ == with_marker
    &&& post.spec_wall() == pre.spec_wall()
    &&& b1.spec_drawable() == b0.spec_drawable()
    &&& b1.spec_discarded() == b0.spec_discarded() + Seq::new(fr.1 as nat, |x: int| t)
}

} // verus!
