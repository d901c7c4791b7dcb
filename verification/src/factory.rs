use vstd::prelude::*;

use crate::bag::Bag;

use crate::tile::{Direction, Tile};
use crate::tilecollection::{
    contains_tile, count_tile, distinct_tiles, find_adjacent_tile, find_first_tile, spec_adjacent,
    spec_distinct_tiles, spec_first_tile, tiles_sorted,
};

verus! {

broadcast use vstd::multiset::group_multiset_axioms, vstd::seq_lib::group_to_multiset_ensures;

/// How many tiles a factory holds when it is filled for a round.
pub const TILE_PER_FACTORY: usize = 4;

/// A factory display: four tiles drawn from the bag each round, or
/// nothing once a player has drafted from it.
#[derive(Debug)]
pub struct Factory {
    tiles: Option<Vec<Tile>>,
}

impl Factory {
    /// The tiles on display, in canonical order, if any.
    pub closed spec fn view(self) -> Option<Seq<Tile>> {
        match self.tiles {
            Some(v) => Some(v@),
            None => None,
        }
    }

    /// A filled factory holds exactly four sorted color tiles; the
    /// first-player marker never sits on a factory.
    pub open spec fn wf(self) -> bool {
        match self@ {
            Some(s) => s.len() == 4 && tiles_sorted(s) && !s.contains(Tile::FirstPlayer),
            None => true,
        }
    }

    /// A factory holding the four given color tiles, sorted into
    /// canonical order.
    pub fn new(tiles: Vec<Tile>) -> (f: Self)
        requires
            tiles@.len() == 4,
            !tiles@.contains(Tile::FirstPlayer),
        ensures
            f.wf(),
            f@ matches Some(s) && s.to_multiset() == tiles@.to_multiset(),
    {
        let sorted = crate::tilecollection::sort_tiles(&tiles);
        proof {
            if sorted@.contains(Tile::FirstPlayer) {
                assert(sorted@.to_multiset().count(Tile::FirstPlayer) > 0);
                assert(tiles@.contains(Tile::FirstPlayer));
            }
        }
        Factory { tiles: Some(sorted) }
    }

    /// A factory filled from the bag, as at the start of a round.
    pub fn new_from_bag(bag: &mut Bag) -> (f: Self)
        requires
            old(bag).wf(),
            old(bag).spec_drawable().len() + old(bag).spec_discarded().len() >= 4,
        ensures
            final(bag).wf(),
            f.wf(),
            f@ is Some,
            crate::bag::spec_fill_effect(*old(bag), *final(bag), f@->Some_0),
    {
        let mut factory = Self::new_empty();
        bag.fill_factory(&mut factory);
        factory
    }

    /// An empty factory.
    pub fn new_empty() -> (f: Self)
        ensures
            f@ is None,
            f.wf(),
    {
        Factory { tiles: None }
    }

    /// Put four freshly drawn, already sorted tiles on an empty factory.
    pub(crate) fn install(&mut self, tiles: Vec<Tile>)
        requires
            old(self)@ is None,
            tiles@.len() == 4,
            tiles_sorted(tiles@),
            !tiles@.contains(Tile::FirstPlayer),
        ensures
            final(self)@ == Some(tiles@),
            final(self).wf(),
    {
        self.tiles = Some(tiles);
    }

    /// Take all tiles off the factory.
    pub(crate) fn clear(&mut self)
        ensures
            final(self)@ is None,
            final(self).wf(),
    {
        self.tiles = None;
    }

    pub fn is_empty(&self) -> (b: bool)
        ensures
            b == (self@ is None),
    {
        match self.tiles {
            Some(_) => false,
            None => true,
        }
    }

    /// The first tile on display, if any.
    pub fn find_first_tile(&self) -> (r: Option<Tile>)
        requires
            self.wf(),
        ensures
            match self@ {
                Some(s) => r == Some(s[0]),
                None => r is None,
            },
    {
        match &self.tiles {
            Some(v) => Some(v[0]),
            None => None,
        }
    }

    /// The last tile on display, if any.
    pub fn find_last_tile(&self) -> (r: Option<Tile>)
        requires
            self.wf(),
        ensures
            match self@ {
                Some(s) => r == Some(s[s.len() - 1]),
                None => r is None,
            },
    {
        match &self.tiles {
            Some(v) => Some(v[v.len() - 1]),
            None => None,
        }
    }

    /// The tiles on display, if any.
    pub fn get_tiles(&self) -> (r: Option<&Vec<Tile>>)
        ensures
            match r {
                Some(v) => self@ == Some(v@),
                None => self@ is None,
            },
    {
        self.tiles.as_ref()
    }

    /// How many copies of `tile` are on display.
    pub fn count_tile(&self, tile: Tile) -> (n: usize)
        ensures
            n == (match self@ {
                Some(s) => s.to_multiset().count(tile),
                None => 0,
            }),
    {
        match &self.tiles {
            Some(v) => count_tile(v, tile),
            None => 0,
        }
    }

    /// Whether at least one copy of `tile` is on display.
    pub fn contains_tile(&self, tile: Tile) -> (b: bool)
        ensures
            b == (match self@ {
                Some(s) => s.contains(tile),
                None => false,
            }),
    {
        match &self.tiles {
            Some(v) => contains_tile(v, tile),
            None => false,
        }
    }

    /// The distinct colors on display, in order of first appearance.
    pub open spec fn spec_distinct(self) -> Seq<Tile> {
        match self@ {
            Some(s) => spec_distinct_tiles(s),
            None => Seq::empty(),
        }
    }

    /// The distinct colors on display.
    pub fn distinct_tiles(&self) -> (r: Vec<Tile>)
        ensures
            r@ == self.spec_distinct(),
    {
        match &self.tiles {
            Some(v) => distinct_tiles(v),
            None => Vec::new(),
        }
    }

    /// The first color on display that is not the first-player marker.
    pub fn first_color(&self) -> (r: Option<Tile>)
        ensures
            r == (match self@ {
                Some(s) => spec_first_tile(s),
                None => None::<Tile>,
            }),
    {
        match &self.tiles {
            Some(v) => find_first_tile(v),
            None => None,
        }
    }

    /// The cyclic neighbour of `tile` among the distinct colors on
    /// display.
    pub fn find_adjacent_tile(&self, tile: Tile, dir: Direction) -> (r: Tile)
        requires
            self@ is Some,
            self.spec_distinct().len() == 1 || self.spec_distinct().contains(tile),
        ensures
            r == spec_adjacent(self.spec_distinct(), tile, dir),
    {
        match &self.tiles {
            Some(v) => find_adjacent_tile(v, tile, dir),
            None => tile,
        }
    }
}

} // verus!
