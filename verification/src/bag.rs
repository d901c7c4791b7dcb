use vstd::multiset::Multiset;
use vstd::prelude::*;

use rand::seq::SliceRandom;

use crate::factory::Factory;
use crate::tile::{spec_tile_code, Tile};
use crate::tilecollection::{sort_tiles, tiles_sorted};

verus! {

broadcast use vstd::multiset::group_multiset_axioms, vstd::seq_lib::group_to_multiset_ensures;

/// Relies on rand's `SliceRandom::shuffle`: a Fisher-Yates pass of
/// in-place swaps, so the tiles afterwards are a permutation of the
/// tiles before.
#[verifier::external_body]
fn shuffle_tiles(v: &mut Vec<Tile>)
    ensures
        final(v)@.len() == old(v)@.len(),
        final(v)@.to_multiset() == old(v)@.to_multiset(),
{
    v.shuffle(&mut rand::thread_rng());
}

/// The tile bag: the face-down drawing pile and the discard pile that
/// refills it.
#[derive(Debug)]
pub struct Bag {
    tiles: Vec<Tile>,
    discards: Vec<Tile>,
}

/// What filling a factory does to the bag: the factory receives exactly
/// four sorted color tiles. When the drawing pile sufficed they are its
/// first four tiles; otherwise the whole drawing pile went to the
/// factory, the discard pile was reshuffled exactly once to supply the
/// rest, and no tile was lost or invented.
pub open spec fn spec_fill_effect(pre: Bag, post: Bag, s: Seq<Tile>) -> bool {
    &&& s.len() == 4
    &&& tiles_sorted(s)
    &&& !s.contains(Tile::FirstPlayer)
    &&& if pre.spec_drawable().len() >= 4 {
        &&& s.to_multiset() == pre.spec_drawable().take(4).to_multiset()
        &&& post.spec_drawable() == pre.spec_drawable().skip(4)
        &&& post.spec_discarded() == pre.spec_discarded()
    } else {
        &&& post.spec_discarded().len() == 0
        &&& post.spec_drawable().to_multiset().add(s.to_multiset())
            == pre.spec_drawable().to_multiset().add(pre.spec_discarded().to_multiset())
        &&& pre.spec_drawable().to_multiset().subset_of(s.to_multiset())
        &&& post.spec_drawable().len() + 4 == pre.spec_drawable().len()
            + pre.spec_discarded().len()
    }
}

impl Bag {
    /// The drawing pile, next tile drawn first.
    pub closed spec fn spec_drawable(self) -> Seq<Tile> {
        self.tiles@
    }

    /// The discard pile.
    pub closed spec fn spec_discarded(self) -> Seq<Tile> {
        self.discards@
    }

    /// The first-player marker never circulates through the bag.
    pub open spec fn wf(self) -> bool {
        &&& !self.spec_drawable().contains(Tile::FirstPlayer)
        &&& !self.spec_discarded().contains(Tile::FirstPlayer)
    }

    /// A bag with the given piles, drawn in the given order.
    pub fn new(tiles: Vec<Tile>, discards: Vec<Tile>) -> (b: Self)
        requires
            !tiles@.contains(Tile::FirstPlayer),
            !discards@.contains(Tile::FirstPlayer),
        ensures
            b.spec_drawable() == tiles@,
            b.spec_discarded() == discards@,
            b.wf(),
    {
        Bag { tiles, discards }
    }

    /// How many tiles wait in the drawing pile.
    pub fn drawable_len(&self) -> (n: usize)
        ensures
            n == self.spec_drawable().len(),
    {
        self.tiles.len()
    }

    /// How many tiles lie on the discard pile.
    pub fn discarded_len(&self) -> (n: usize)
        ensures
            n == self.spec_discarded().len(),
    {
        self.discards.len()
    }

    /// Take up to `how_many` tiles off the front of the drawing pile;
    /// fewer come back when the pile runs short, which is a normal
    /// condition and no error.
    fn draw(&mut self, how_many: usize) -> (drawn: Vec<Tile>)
        ensures
            ({
                let k = if old(self).spec_drawable().len() < how_many {
                    old(self).spec_drawable().len() as int
                } else {
                    how_many as int
                };
                &&& drawn@ == old(self).spec_drawable().take(k)
                &&& final(self).spec_drawable() == old(self).spec_drawable().skip(k)
                &&& final(self).spec_discarded() == old(self).spec_discarded()
            }),
    {
        let k = if self.tiles.len() < how_many {
            self.tiles.len()
        } else {
            how_many
        };
        let mut drawn: Vec<Tile> = Vec::new();
        let mut i: usize = 0;
        while i < k
            invariant
                i <= k <= self.tiles@.len(),
                self.tiles@ == old(self).spec_drawable(),
                self.discards@ == old(self).spec_discarded(),
                drawn@ == self.tiles@.take(i as int),
            decreases k - i,
        {
            drawn.push(self.tiles[i]);
            proof {
                assert(drawn@ =~= self.tiles@.take(i + 1));
            }
            i = i + 1;
        }
        let mut rest: Vec<Tile> = Vec::new();
        let mut j: usize = k;
        proof {
            assert(rest@ =~= self.tiles@.subrange(k as int, k as int));
        }
        while j < self.tiles.len()
            invariant
                k <= j <= self.tiles@.len(),
                self.tiles@ == old(self).spec_drawable(),
                self.discards@ == old(self).spec_discarded(),
                rest@ == self.tiles@.subrange(k as int, j as int),
            decreases self.tiles@.len() - j,
        {
            rest.push(self.tiles[j]);
            proof {
                assert(rest@ =~= self.tiles@.subrange(k as int, j + 1));
            }
            j = j + 1;
        }
        proof {
            assert(rest@ =~= self.tiles@.skip(k as int));
        }
        self.tiles = rest;
        drawn
    }

    /// Move the whole discard pile, freshly shuffled, into the drawing
    /// pile.
    fn reshuffle(&mut self)
        ensures
            final(self).spec_drawable().to_multiset() == old(self).spec_drawable().to_multiset().add(
                old(self).spec_discarded().to_multiset(),
            ),
            final(self).spec_drawable().len() == old(self).spec_drawable().len() + old(
                self,
            ).spec_discarded().len(),
            final(self).spec_discarded().len() == 0,
    {
        proof {
            vstd::seq_lib::lemma_multiset_commutative(self.tiles@, self.discards@);
        }
        self.tiles.append(&mut self.discards);
        shuffle_tiles(&mut self.tiles);
    }

    /// Put tiles on the discard pile, where they wait for the next
    /// reshuffle.
    pub fn discard(&mut self, tiles: &Vec<Tile>)
        requires
            !tiles@.contains(Tile::FirstPlayer),
        ensures
            final(self).spec_discarded() == old(self).spec_discarded() + tiles@,
            final(self).spec_drawable() == old(self).spec_drawable(),
            old(self).wf() ==> final(self).wf(),
    {
        let mut copy = Vec::new();
        let mut i: usize = 0;
        while i < tiles.len()
            invariant
                i <= tiles@.len(),
                copy@ == tiles@.take(i as int),
            decreases tiles@.len() - i,
        {
            copy.push(tiles[i]);
            proof {
                assert(copy@ =~= tiles@.take(i + 1));
            }
            i = i + 1;
        }
        proof {
            assert(copy@ =~= tiles@);
        }
        self.discards.append(&mut copy);
        proof {
            if self.spec_discarded().contains(Tile::FirstPlayer) {
                let ix = choose|ix: int|
                    0 <= ix < self.discards@.len() && self.discards@[ix] == Tile::FirstPlayer;
                if ix < old(self).spec_discarded().len() {
                    assert(old(self).spec_discarded().contains(Tile::FirstPlayer));
                } else {
                    assert(tiles@[ix - old(self).spec_discarded().len()] == Tile::FirstPlayer);
                    assert(tiles@.contains(Tile::FirstPlayer));
                }
            }
        }
    }

    /// Fill an empty factory: draw up to four tiles, reshuffle the
    /// discards once if the drawing pile ran short, draw the remainder,
    /// and install the four tiles sorted. Filling a non-empty factory is
    /// a programmer error and ruled out here.
    pub fn fill_factory(&mut self, factory: &mut Factory)
        requires
            old(self).wf(),
            old(factory)@ is None,
            old(self).spec_drawable().len() + old(self).spec_discarded().len() >= 4,
        ensures
            final(self).wf(),
            final(factory).wf(),
            final(factory)@ is Some,
            spec_fill_effect(*old(self), *final(self), final(factory)@->Some_0),
    {
        let ghost pre = *old(self);
        proof {
            if pre.spec_drawable().len() >= 4 {
                lemma_take_skip_multiset(pre.spec_drawable(), 4);
            } else {
                lemma_take_skip_multiset(pre.spec_drawable(), pre.spec_drawable().len() as int);
            }
        }
        let mut drawn = self.draw(4);
        let ghost bag1 = *self;
        if drawn.len() < 4 {
            proof {
                assert(drawn@ =~= pre.spec_drawable());
                assert(bag1.spec_drawable() =~= Seq::<Tile>::empty());
                assert(bag1.spec_drawable().to_multiset() =~= Multiset::<Tile>::empty());
            }
            let need = 4 - drawn.len();
            self.reshuffle();
            let ghost bag2 = *self;
            proof {
                assert(bag2.spec_drawable().to_multiset() =~= pre.spec_discarded().to_multiset());
                lemma_take_skip_multiset(bag2.spec_drawable(), need as int);
            }
            let mut rest = self.draw(need);
            let ghost rest0 = rest@;
            drawn.append(&mut rest);
            proof {
                vstd::seq_lib::lemma_multiset_commutative(pre.spec_drawable(), rest0);
                assert(drawn@.to_multiset() =~= pre.spec_drawable().to_multiset().add(
                    rest0.to_multiset(),
                ));
                assert(rest0.to_multiset().add(self.spec_drawable().to_multiset())
                    =~= pre.spec_discarded().to_multiset());
                // the new drawing pile and the drawn tiles together are the
                // old drawing pile plus the old discards
                assert(self.spec_drawable().to_multiset().add(drawn@.to_multiset())
                    =~= pre.spec_drawable().to_multiset().add(pre.spec_discarded().to_multiset()));
                assert(pre.spec_drawable().to_multiset().subset_of(drawn@.to_multiset()));
                assert(drawn@.to_multiset().count(Tile::FirstPlayer)
                    <= pre.spec_drawable().to_multiset().count(Tile::FirstPlayer)
                    + pre.spec_discarded().to_multiset().count(Tile::FirstPlayer));
                lemma_no_marker_multiset(drawn@, pre);
                // the new drawing pile holds no marker either
                if pre.spec_drawable().contains(Tile::FirstPlayer) {
                    assert(pre.spec_drawable().to_multiset().count(Tile::FirstPlayer) > 0);
                }
                if pre.spec_discarded().contains(Tile::FirstPlayer) {
                    assert(pre.spec_discarded().to_multiset().count(Tile::FirstPlayer) > 0);
                }
                if self.spec_drawable().contains(Tile::FirstPlayer) {
                    assert(self.spec_drawable().to_multiset().count(Tile::FirstPlayer) > 0);
                }
            }
        } else {
            proof {
                lemma_take_skip_multiset(pre.spec_drawable(), 4);
                assert(drawn@.to_multiset().count(Tile::FirstPlayer)
                    <= pre.spec_drawable().to_multiset().count(Tile::FirstPlayer)
                    + pre.spec_discarded().to_multiset().count(Tile::FirstPlayer)) by {
                    if pre.spec_drawable().to_multiset().count(Tile::FirstPlayer)
                        < drawn@.to_multiset().count(Tile::FirstPlayer) {
                        assert(pre.spec_drawable().to_multiset().count(Tile::FirstPlayer)
                            == drawn@.to_multiset().count(Tile::FirstPlayer)
                            + pre.spec_drawable().skip(4).to_multiset().count(Tile::FirstPlayer));
                    }
                }
                lemma_no_marker_multiset(drawn@, pre);
                if self.spec_drawable().contains(Tile::FirstPlayer) {
                    assert(self.spec_drawable().to_multiset().count(Tile::FirstPlayer) > 0);
                    assert(pre.spec_drawable().to_multiset().count(Tile::FirstPlayer) > 0);
                    assert(pre.spec_drawable().contains(Tile::FirstPlayer));
                }
            }
        }
        let sorted = sort_tiles(&drawn);
        proof {
            if sorted@.contains(Tile::FirstPlayer) {
                assert(sorted@.to_multiset().count(Tile::FirstPlayer) > 0);
                assert(drawn@.to_multiset().count(Tile::FirstPlayer) > 0);
                assert(drawn@.contains(Tile::FirstPlayer));
            }
        }
        factory.install(sorted);
        proof {
            assert(spec_fill_effect(pre, *self, sorted@));
        }
    }
}

/// A sequence splits into the multisets of its first `k` tiles and the
/// rest.
pub(crate) proof fn lemma_take_skip_multiset(s: Seq<Tile>, k: int)
    requires
        0 <= k <= s.len(),
    ensures
        s.to_multiset() == s.take(k).to_multiset().add(s.skip(k).to_multiset()),
{
    assert(s =~= s.take(k) + s.skip(k));
    vstd::seq_lib::lemma_multiset_commutative(s.take(k), s.skip(k));
}

/// Tiles drawn from a marker-free bag are marker-free.
proof fn lemma_no_marker_multiset(drawn: Seq<Tile>, pre: Bag)
    requires
        pre.wf(),
        drawn.to_multiset().count(Tile::FirstPlayer) <= pre.spec_drawable().to_multiset().count(
            Tile::FirstPlayer,
        ) + pre.spec_discarded().to_multiset().count(Tile::FirstPlayer),
    ensures
        !drawn.contains(Tile::FirstPlayer),
{
    if drawn.contains(Tile::FirstPlayer) {
        assert(drawn.to_multiset().count(Tile::FirstPlayer) > 0);
        if pre.spec_drawable().to_multiset().count(Tile::FirstPlayer) > 0 {
            assert(pre.spec_drawable().contains(Tile::FirstPlayer));
        } else {
            assert(pre.spec_discarded().contains(Tile::FirstPlayer));
        }
    }
}

impl Default for Bag {
    /// The standard bag at match start: twenty tiles of each of the five
    /// colors, shuffled.
    fn default() -> (b: Self)
        ensures
            b.wf(),
            b.spec_drawable().len() == 100,
            b.spec_discarded().len() == 0,
            forall|t: Tile|
                t != Tile::FirstPlayer ==> #[trigger] b.spec_drawable().to_multiset().count(t)
                    == 20,
    {
        let mut tiles: Vec<Tile> = Vec::new();
        let mut c: u8 = 1;
        while c <= 5
            invariant
                1 <= c <= 6,
                tiles@.len() == 20 * (c - 1),
                forall|t: Tile|
                    1 <= spec_tile_code(t) < c ==> #[trigger] tiles@.to_multiset().count(t) == 20,
                forall|t: Tile|
                    !(1 <= spec_tile_code(t) < c) ==> #[trigger] tiles@.to_multiset().count(t)
                        == 0,
            decreases 6 - c,
        {
            let t = Tile::from_code(c);
            proof {
                assert(forall|u: Tile| spec_tile_code(u) == spec_tile_code(t) ==> u == t);
            }
            let ghost t0 = tiles@;
            let mut k: usize = 0;
            while k < 20
                invariant
                    k <= 20,
                    spec_tile_code(t) == c,
                    tiles@.len() == t0.len() + k,
                    tiles@.to_multiset().count(t) == t0.to_multiset().count(t) + k,
                    forall|u: Tile|
                        u != t ==> #[trigger] tiles@.to_multiset().count(u) == t0.to_multiset().count(
                            u,
                        ),
                decreases 20 - k,
            {
                tiles.push(t);
                k = k + 1;
            }
            c = c + 1;
        }
        proof {
            if tiles@.contains(Tile::FirstPlayer) {
                assert(tiles@.to_multiset().count(Tile::FirstPlayer) > 0);
            }
        }
        shuffle_tiles(&mut tiles);
        proof {
            if tiles@.contains(Tile::FirstPlayer) {
                assert(tiles@.to_multiset().count(Tile::FirstPlayer) > 0);
            }
        }
        Bag { tiles, discards: Vec::new() }
    }
}

} // verus!
