use vstd::prelude::*;

use crate::tile::Tile;

verus! {

/// The positional penalty weight of a floor-line slot: the first two slots
/// cost 1 point each, the next three 2 points, the last two 3 points.
pub open spec fn spec_points_for_slot(slot_id: int) -> int {
    if slot_id <= 1 {
        1
    } else if slot_id <= 4 {
        2
    } else {
        3
    }
}

/// The total penalty of the first `n` slots of the floor line.
pub open spec fn spec_penalty(n: int) -> int
    decreases n,
{
    if n <= 0 {
        0
    } else {
        spec_penalty(n - 1) + spec_points_for_slot(n - 1)
    }
}

/// The running total of the weight table, slot by slot.
proof fn lemma_penalty_exact(n: int)
    requires
        0 <= n <= 7,
    ensures
        spec_penalty(n) == (if n == 0 {
            0int
        } else if n == 1 {
            1int
        } else if n == 2 {
            2int
        } else if n == 3 {
            4int
        } else if n == 4 {
            6int
        } else if n == 5 {
            8int
        } else if n == 6 {
            11int
        } else {
            14int
        }),
    decreases n,
{
    if n > 0 {
        lemma_penalty_exact(n - 1);
    }
}

/// The penalty of a full floor line is 14 points, and of any floor line
/// at most that.
pub proof fn lemma_penalty_bounds(n: int)
    requires
        0 <= n <= 7,
    ensures
        0 <= spec_penalty(n) <= 14,
        n == 7 ==> spec_penalty(n) == 14,
{
    lemma_penalty_exact(n);
}

/// What adding `rem` tiles of color `t` does to the floor line: what
/// fits is appended, the rest spills over. Returns the new floor line
/// and how many tiles spilled.
pub open spec fn spec_floor_result(floor: Seq<Tile>, t: Tile, rem: int) -> (Seq<Tile>, int) {
    let space = 7 - floor.len();
    let k = if space < rem {
        space
    } else {
        rem
    };
    (floor + Seq::new(k as nat, |x: int| t), rem - k)
}

/// A player's floor line: up to seven overflow tiles, filled left to
/// right, each slot costing its positional weight at round end.
#[derive(Debug)]
pub struct FloorLine {
    tiles: Vec<Tile>,
}

impl FloorLine {
    /// The tiles on the floor line, leftmost first.
    pub closed spec fn view(self) -> Seq<Tile> {
        self.tiles@
    }

    /// The floor line never holds more than its seven slots.
    pub open spec fn wf(self) -> bool {
        self@.len() <= 7
    }

    pub fn new() -> (r: Self)
        ensures
            r@ == Seq::<Tile>::empty(),
            r.wf(),
    {
        FloorLine { tiles: Vec::new() }
    }

    /// The tiles currently on the floor line, leftmost first.
    pub fn get_tiles(&self) -> (r: &Vec<Tile>)
        ensures
            r@ == self@,
    {
        &self.tiles
    }

    /// The penalty weight of one slot.
    pub fn points_for_slot(slot_id: usize) -> (r: u8)
        ensures
            r as int == spec_points_for_slot(slot_id as int),
    {
        if slot_id <= 1 {
            1
        } else if slot_id <= 4 {
            2
        } else {
            3
        }
    }

    /// The total penalty of the occupied slots.
    pub fn calculate_minus_points(&self) -> (r: u8)
        requires
            self.wf(),
        ensures
            r as int == spec_penalty(self@.len() as int),
            r <= 14,
    {
        proof {
            lemma_penalty_bounds(self@.len() as int);
        }
        let mut total: u8 = 0;
        let mut i: usize = 0;
        while i < self.tiles.len()
            invariant
                i <= self@.len() <= 7,
                total as int == spec_penalty(i as int),
                total <= 14,
            decreases self@.len() - i,
        {
            proof {
                lemma_penalty_bounds(i + 1);
            }
            total = total + Self::points_for_slot(i);
            i = i + 1;
        }
        total
    }

    /// Clear the floor line for the next round.
    pub fn reset(&mut self)
        ensures
            final(self)@ == Seq::<Tile>::empty(),
            final(self).wf(),
    {
        self.tiles = Vec::new();
    }

    /// Whether the first-player marker sits on this floor line.
    pub fn has_first_player_token(&self) -> (b: bool)
        ensures
            b == self@.contains(Tile::FirstPlayer),
    {
        crate::tilecollection::contains_tile(&self.tiles, Tile::FirstPlayer)
    }

    /// Append tiles left to right until the floor line is full; whatever
    /// does not fit is handed back (and is destined for the bag's discard
    /// pile).
    pub fn add_tiles(&mut self, tiles: &Vec<Tile>) -> (r: Vec<Tile>)
        requires
            old(self).wf(),
        ensures
            final(self).wf(),
            ({
                let space = 7 - old(self)@.len() as int;
                let k = if space < tiles@.len() { space } else { tiles@.len() as int };
                &&& final(self)@ == old(self)@ + tiles@.take(k)
                &&& r@ == tiles@.skip(k)
            }),
    {
        let ghost k: int = if (7 - old(self)@.len() as int) < tiles@.len() as int {
            7 - old(self)@.len() as int
        } else {
            tiles@.len() as int
        };
        let mut i: usize = 0;
        while i < tiles.len() && self.tiles.len() < 7
            invariant
                old(self).wf(),
                i <= tiles@.len(),
                i <= k <= tiles@.len(),
                k == (if (7 - old(self)@.len() as int) < tiles@.len() as int {
                    7 - old(self)@.len() as int
                } else {
                    tiles@.len() as int
                }),
                self.tiles@ == old(self)@ + tiles@.take(i as int),
                self.tiles@.len() <= 7,
                i < k ==> self.tiles@.len() < 7,
            decreases tiles@.len() - i,
        {
            self.tiles.push(tiles[i]);
            proof {
                assert(tiles@.take(i + 1) =~= tiles@.take(i as int).push(tiles@[i as int]));
                assert(self.tiles@ =~= old(self)@ + tiles@.take(i + 1));
            }
            i = i + 1;
        }
        let mut rest: Vec<Tile> = Vec::new();
        let mut j: usize = i;
        proof {
            assert(i as int == k);
            assert(rest@ =~= tiles@.subrange(i as int, i as int));
        }
        while j < tiles.len()
            invariant
                i <= j <= tiles@.len(),
                rest@ == tiles@.subrange(i as int, j as int),
            decreases tiles@.len() - j,
        {
            rest.push(tiles[j]);
            proof {
                assert(rest@ =~= tiles@.subrange(i as int, j + 1));
            }
            j = j + 1;
        }
        proof {
            assert(rest@ =~= tiles@.skip(k));
        }
        rest
    }
}

impl Default for FloorLine {
    /// An empty floor line.
    fn default() -> (r: Self)
        ensures
            r@ == Seq::<Tile>::empty(),
            r.wf(),
    {
        Self::new()
    }
}

} // verus!
