use vstd::multiset::Multiset;
use vstd::prelude::*;

use crate::tile::{spec_tile_code, Direction, Tile};
use crate::tilecollection::{
    contains_tile, count_tile, distinct_tiles, find_adjacent_tile, find_first_tile, sort_tiles,
    spec_adjacent, spec_distinct_tiles, spec_first_tile, tiles_sorted,
};

verus! {

broadcast use vstd::multiset::group_multiset_axioms, vstd::seq_lib::group_to_multiset_ensures;

/// What remains of the common area after a color is drafted: every tile
/// of that color and the first-player marker leave, everything else
/// stays, in order.
pub open spec fn spec_after_pick(s: Seq<Tile>, t: Tile) -> Seq<Tile>
    decreases s.len(),
{
    if s.len() == 0 {
        Seq::empty()
    } else {
        let rest = spec_after_pick(s.drop_last(), t);
        if s.last() == t || s.last() == Tile::FirstPlayer {
            rest
        } else {
            rest.push(s.last())
        }
    }
}

/// Drafting removes exactly the picked color and the marker, keeps the
/// rest in order, and keeps a sorted pool sorted.
pub proof fn lemma_after_pick_props(s: Seq<Tile>, t: Tile)
    ensures
        forall|u: Tile|
            #[trigger] spec_after_pick(s, t).to_multiset().count(u) == (if u == t || u
                == Tile::FirstPlayer {
                0
            } else {
                s.to_multiset().count(u)
            }),
        forall|u: Tile| #[trigger] spec_after_pick(s, t).contains(u) ==> s.contains(u),
        tiles_sorted(s) ==> tiles_sorted(spec_after_pick(s, t)),
    decreases s.len(),
{
    if s.len() == 0 {
        assert(spec_after_pick(s, t).to_multiset() =~= Multiset::<Tile>::empty());
    } else {
        let prefix = s.drop_last();
        let last = s.last();
        lemma_after_pick_props(prefix, t);
        assert(s =~= prefix.push(last));
        assert forall|u: Tile| #[trigger] s.contains(u) <==> (prefix.contains(u) || last == u) by {
            vstd::seq_lib::lemma_seq_contains_after_push(prefix, last, u);
        }
        let rest = spec_after_pick(prefix, t);
        if last == t || last == Tile::FirstPlayer {
        } else {
            assert forall|u: Tile| #[trigger] rest.push(last).contains(u) <==> (rest.contains(u)
                || last == u) by {
                vstd::seq_lib::lemma_seq_contains_after_push(rest, last, u);
            }
            if tiles_sorted(s) {
                assert(tiles_sorted(prefix));
                assert forall|i: int, j: int|
                    0 <= i <= j < rest.push(last).len() implies spec_tile_code(
                    rest.push(last)[i],
                ) <= spec_tile_code(rest.push(last)[j]) by {
                    if j < rest.len() {
                    } else {
                        if i < rest.len() {
                            assert(rest.contains(rest[i]));
                            assert(prefix.contains(rest[i]));
                            let k = choose|k: int|
                                0 <= k < prefix.len() && prefix[k] == rest[i];
                            assert(s[k] == rest[i]);
                            assert(spec_tile_code(s[k]) <= spec_tile_code(s[s.len() - 1]));
                        }
                    }
                }
            }
        }
    }
}

/// The shared pool in the middle of the table: it starts each round
/// holding only the first-player marker, collects the remainder of every
/// factory draft, and hands out whole colors when drafted from.
#[derive(Debug)]
pub struct CommonArea {
    tiles: Vec<Tile>,
}

impl CommonArea {
    /// The tiles in the pool, in canonical order.
    pub closed spec fn view(self) -> Seq<Tile> {
        self.tiles@
    }

    /// The pool is kept sorted and never holds more than one
    /// first-player marker.
    pub open spec fn wf(self) -> bool {
        &&& tiles_sorted(self@)
        &&& self@.to_multiset().count(Tile::FirstPlayer) <= 1
    }

    /// The tiles in the pool, in canonical order.
    pub fn inspect(&self) -> (r: &Vec<Tile>)
        ensures
            r@ == self@,
    {
        &self.tiles
    }

    /// Pour tiles into the pool and restore the canonical order. At most
    /// one marker may be present afterwards: the remainder of a factory
    /// draft never holds one, and the fresh marker of a new round enters
    /// an empty pool.
    pub fn add(&mut self, tiles: &Vec<Tile>)
        requires
            old(self).wf(),
            old(self)@.to_multiset().count(Tile::FirstPlayer) + tiles@.to_multiset().count(
                Tile::FirstPlayer,
            ) <= 1,
        ensures
            final(self).wf(),
            final(self)@.to_multiset() == old(self)@.to_multiset().add(tiles@.to_multiset()),
            final(self)@.len() == old(self)@.len() + tiles@.len(),
    {
        let mut combined: Vec<Tile> = Vec::new();
        let mut i: usize = 0;
        while i < self.tiles.len()
            invariant
                i <= self.tiles@.len(),
                self.tiles@ == old(self)@,
                combined@ == self.tiles@.take(i as int),
            decreases self.tiles@.len() - i,
        {
            combined.push(self.tiles[i]);
            proof {
                assert(combined@ =~= self.tiles@.take(i + 1));
            }
            i = i + 1;
        }
        proof {
            assert(combined@ =~= old(self)@);
        }
        let mut j: usize = 0;
        let ghost c0 = combined@;
        while j < tiles.len()
            invariant
                j <= tiles@.len(),
                combined@ == c0 + tiles@.take(j as int),
            decreases tiles@.len() - j,
        {
            combined.push(tiles[j]);
            proof {
                assert(combined@ =~= c0 + tiles@.take(j + 1));
            }
            j = j + 1;
        }
        proof {
            assert(combined@ =~= old(self)@ + tiles@);
            vstd::seq_lib::lemma_multiset_commutative(old(self)@, tiles@);
        }
        let sorted = sort_tiles(&combined);
        self.tiles = sorted;
    }

    /// Whether the pool is empty; while it holds even just the marker it
    /// still counts as a pickable source.
    pub fn is_empty(&self) -> (b: bool)
        ensures
            b == (self@.len() == 0),
    {
        self.tiles.len() == 0
    }

    /// Draft a color from the pool: every tile of that color leaves,
    /// together with the first-player marker if it is still there.
    /// Returns how many tiles of the color left and whether the marker
    /// came with them.
    pub fn pick_tile(&mut self, tile: Tile) -> (r: (usize, bool))
        requires
            old(self).wf(),
        ensures
            final(self).wf(),
            final(self)@ == spec_after_pick(old(self)@, tile),
            r.0 == old(self)@.to_multiset().count(tile),
            r.1 == old(self)@.contains(Tile::FirstPlayer),
    {
        let count = count_tile(&self.tiles, tile);
        let has_firstplayer = contains_tile(&self.tiles, Tile::FirstPlayer);
        let mut kept: Vec<Tile> = Vec::new();
        let mut i: usize = 0;
        while i < self.tiles.len()
            invariant
                i <= self.tiles@.len(),
                self.tiles@ == old(self)@,
                kept@ == spec_after_pick(self.tiles@.take(i as int), tile),
            decreases self.tiles@.len() - i,
        {
            let t = self.tiles[i];
            proof {
                assert(self.tiles@.take(i + 1).drop_last() =~= self.tiles@.take(i as int));
                assert(self.tiles@.take(i + 1).last() == self.tiles@[i as int]);
            }
            if t != tile && t != Tile::FirstPlayer {
                kept.push(t);
            }
            i = i + 1;
        }
        proof {
            assert(self.tiles@.take(self.tiles@.len() as int) =~= self.tiles@);
            lemma_after_pick_props(old(self)@, tile);
        }
        self.tiles = kept;
        (count, has_firstplayer)
    }

    /// How many copies of `tile` the pool holds.
    pub fn count_tile(&self, tile: Tile) -> (n: usize)
        ensures
            n == self@.to_multiset().count(tile),
    {
        count_tile(&self.tiles, tile)
    }

    /// Whether the pool holds at least one copy of `tile`.
    pub fn contains_tile(&self, tile: Tile) -> (b: bool)
        ensures
            b == self@.contains(tile),
    {
        contains_tile(&self.tiles, tile)
    }

    /// The distinct colors in the pool, the marker excluded.
    pub fn distinct_tiles(&self) -> (r: Vec<Tile>)
        ensures
            r@ == spec_distinct_tiles(self@),
    {
        distinct_tiles(&self.tiles)
    }

    /// The first color in the pool that is not the marker.
    pub fn first_color(&self) -> (r: Option<Tile>)
        ensures
            r == spec_first_tile(self@),
    {
        find_first_tile(&self.tiles)
    }

    /// The cyclic neighbour of `tile` among the distinct colors in the
    /// pool.
    pub fn find_adjacent_tile(&self, tile: Tile, dir: Direction) -> (r: Tile)
        requires
            spec_distinct_tiles(self@).len() == 1 || spec_distinct_tiles(self@).contains(tile),
        ensures
            r == spec_adjacent(spec_distinct_tiles(self@), tile, dir),
    {
        find_adjacent_tile(&self.tiles, tile, dir)
    }
}

impl Default for CommonArea {
    /// A pool as at the start of a round: the first-player marker alone.
    fn default() -> (r: Self)
        ensures
            r@ == seq![Tile::FirstPlayer],
            r.wf(),
    {
        let mut tiles: Vec<Tile> = Vec::new();
        tiles.push(Tile::FirstPlayer);
        proof {
            assert(tiles@ =~= seq![Tile::FirstPlayer]);
            assert(Seq::<Tile>::empty().to_multiset() =~= Multiset::<Tile>::empty());
            assert(tiles@.to_multiset().count(Tile::FirstPlayer) <= 1);
        }
        CommonArea { tiles }
    }
}

} // verus!
