use vstd::prelude::*;

use crate::tile::{spec_tile_code, Direction, Tile};

verus! {

broadcast use vstd::multiset::group_multiset_axioms, vstd::multiset::group_multiset_properties, vstd::seq_lib::group_to_multiset_ensures;

/// True when the tiles appear in canonical order (marker first, then the
/// colors alphabetically).
pub open spec fn tiles_sorted(s: Seq<Tile>) -> bool {
    forall|i: int, j: int|
        0 <= i <= j < s.len() ==> spec_tile_code(s[i]) <= spec_tile_code(s[j])
}

/// The distinct colors of a collection in order of first appearance,
/// the first-player marker excluded.
pub open spec fn spec_distinct_tiles(s: Seq<Tile>) -> Seq<Tile>
    decreases s.len(),
{
    if s.len() == 0 {
        Seq::empty()
    } else {
        let rest = spec_distinct_tiles(s.drop_last());
        if s.last() == Tile::FirstPlayer || rest.contains(s.last()) {
            rest
        } else {
            rest.push(s.last())
        }
    }
}

/// The distinct colors of a collection are exactly its non-marker tiles,
/// each listed once.
pub proof fn lemma_distinct_tiles_props(s: Seq<Tile>)
    ensures
        spec_distinct_tiles(s).no_duplicates(),
        forall|t: Tile|
            #[trigger] spec_distinct_tiles(s).contains(t) <==> (s.contains(t) && t
                != Tile::FirstPlayer),
    decreases s.len(),
{
    if s.len() == 0 {
    } else {
        let prefix = s.drop_last();
        let last = s.last();
        lemma_distinct_tiles_props(prefix);
        assert(s == prefix.push(last)) by {
            assert(s =~= prefix.push(last));
        }
        assert forall|t: Tile| #[trigger] s.contains(t) <==> (prefix.contains(t) || last == t) by {
            vstd::seq_lib::lemma_seq_contains_after_push(prefix, last, t);
        }
        let dp = spec_distinct_tiles(prefix);
        if last == Tile::FirstPlayer || dp.contains(last) {
        } else {
            let ds = dp.push(last);
            assert(spec_distinct_tiles(s) == ds);
            assert forall|t: Tile| #[trigger] ds.contains(t) <==> (dp.contains(t) || last == t) by {
                vstd::seq_lib::lemma_seq_contains_after_push(dp, last, t);
            }
            assert forall|i: int, j: int|
                0 <= i < ds.len() && 0 <= j < ds.len() && i != j implies ds[i] != ds[j] by {
                if i < dp.len() && j < dp.len() {
                    assert(ds[i] == dp[i] && ds[j] == dp[j]);
                } else if j == dp.len() {
                    assert(ds[i] == dp[i] && ds[j] == last);
                    if dp[i] == last {
                        assert(dp.contains(last));
                    }
                } else {
                    assert(ds[j] == dp[j] && ds[i] == last);
                    if dp[j] == last {
                        assert(dp.contains(last));
                    }
                }
            }
            assert(ds.no_duplicates());
        }
    }
}

/// The first tile that is not the first-player marker, if any.
pub open spec fn spec_first_tile(s: Seq<Tile>) -> Option<Tile>
    decreases s.len(),
{
    if s.len() == 0 {
        None
    } else if s[0] != Tile::FirstPlayer {
        Some(s[0])
    } else {
        spec_first_tile(s.drop_first())
    }
}

/// The neighbour of `tile` in the cyclic order given by `s`, or `tile`
/// itself when there is only one choice.
pub open spec fn spec_adjacent(s: Seq<Tile>, tile: Tile, dir: Direction) -> Tile {
    if s.len() == 1 {
        tile
    } else {
        let i = s.index_of(tile);
        match dir {
            Direction::Next => if i == s.len() - 1 {
                s[0]
            } else {
                s[i + 1]
            },
            Direction::Prev => if i == 0 {
                s[s.len() - 1]
            } else {
                s[i - 1]
            },
        }
    }
}

/// How many copies of `t` the collection holds.
pub fn count_tile(v: &Vec<Tile>, t: Tile) -> (n: usize)
    ensures
        n == v@.to_multiset().count(t),
{
    let mut n: usize = 0;
    let mut i: usize = 0;
    while i < v.len()
        invariant
            i <= v@.len(),
            n <= i,
            n == v@.take(i as int).to_multiset().count(t),
        decreases v@.len() - i,
    {
        proof {
            assert(v@.take(i + 1) =~= v@.take(i as int).push(v@[i as int]));
        }
        if v[i] == t {
            n = n + 1;
        }
        i = i + 1;
    }
    proof {
        assert(v@.take(v@.len() as int) =~= v@);
    }
    n
}

/// Whether the collection holds at least one copy of `t`.
pub fn contains_tile(v: &Vec<Tile>, t: Tile) -> (b: bool)
    ensures
        b == v@.contains(t),
{
    let mut i: usize = 0;
    while i < v.len()
        invariant
            i <= v@.len(),
            forall|j: int| 0 <= j < i ==> v@[j] != t,
        decreases v@.len() - i,
    {
        if v[i] == t {
            return true;
        }
        i = i + 1;
    }
    false
}

/// The distinct colors present, in order of first appearance, the
/// first-player marker excluded.
pub fn distinct_tiles(v: &Vec<Tile>) -> (r: Vec<Tile>)
    ensures
        r@ == spec_distinct_tiles(v@),
{
    let mut r: Vec<Tile> = Vec::new();
    let mut i: usize = 0;
    while i < v.len()
        invariant
            i <= v@.len(),
            r@ == spec_distinct_tiles(v@.take(i as int)),
        decreases v@.len() - i,
    {
        let t = v[i];
        proof {
            assert(v@.take(i + 1).drop_last() =~= v@.take(i as int));
            assert(v@.take(i + 1).last() == v@[i as int]);
        }
        if t != Tile::FirstPlayer && !contains_tile(&r, t) {
            r.push(t);
        }
        i = i + 1;
    }
    proof {
        assert(v@.take(v@.len() as int) =~= v@);
    }
    r
}

/// The first tile of the collection that is not the first-player marker.
pub fn find_first_tile(v: &Vec<Tile>) -> (r: Option<Tile>)
    ensures
        r == spec_first_tile(v@),
{
    let mut i: usize = 0;
    proof {
        assert(v@.skip(0) =~= v@);
    }
    while i < v.len()
        invariant
            i <= v@.len(),
            spec_first_tile(v@) == spec_first_tile(v@.skip(i as int)),
        decreases v@.len() - i,
    {
        proof {
            assert(v@.skip(i as int).drop_first() =~= v@.skip(i + 1));
            assert(v@.skip(i as int)[0] == v@[i as int]);
        }
        if v[i] != Tile::FirstPlayer {
            return Some(v[i]);
        }
        i = i + 1;
    }
    proof {
        assert(v@.skip(v@.len() as int).len() == 0);
    }
    None
}

/// The cyclic neighbour of `tile` among the distinct colors of the
/// collection: the next or previous color, wrapping around, or `tile`
/// itself when only one color is present.
pub fn find_adjacent_tile(v: &Vec<Tile>, tile: Tile, dir: Direction) -> (r: Tile)
    requires
        spec_distinct_tiles(v@).len() == 1 || spec_distinct_tiles(v@).contains(tile),
    ensures
        r == spec_adjacent(spec_distinct_tiles(v@), tile, dir),
{
    let d = distinct_tiles(v);
    proof {
        lemma_distinct_tiles_props(v@);
    }
    if d.len() == 1 {
        return tile;
    }
    let mut i: usize = 0;
    let ghost s = spec_distinct_tiles(v@);
    while i < d.len()
        invariant
            d@ == s,
            s == spec_distinct_tiles(v@),
            i <= s.len(),
            s.no_duplicates(),
            s.contains(tile),
            s.len() != 1,
            forall|j: int| 0 <= j < i ==> s[j] != tile,
        decreases d@.len() - i,
    {
        if d[i] == tile {
            proof {
                assert(s[i as int] == tile);
                assert(exists|j: int| 0 <= j < s.len() && s[j] == tile);
                let k = s.index_of(tile);
                assert(0 <= k < s.len() && s[k] == tile);
                assert(k == i as int);
            }
            let r = match dir {
                Direction::Next => {
                    if i == d.len() - 1 {
                        d[0]
                    } else {
                        d[i + 1]
                    }
                },
                Direction::Prev => {
                    if i == 0 {
                        d[d.len() - 1]
                    } else {
                        d[i - 1]
                    }
                },
            };
            proof {
                assert(s.index_of(tile) == i as int);
            }
            return r;
        }
        i = i + 1;
    }
    proof {
        let k = choose|k: int| 0 <= k < s.len() && s[k] == tile;
        assert(false);
    }
    tile
}

/// A copy of the collection in canonical order: the first-player marker
/// first, then the colors alphabetically.
pub fn sort_tiles(v: &Vec<Tile>) -> (r: Vec<Tile>)
    ensures
        r@.len() == v@.len(),
        tiles_sorted(r@),
        r@.to_multiset() == v@.to_multiset(),
{
    let mut r: Vec<Tile> = Vec::new();
    let mut c: u8 = 0;
    while c <= 5
        invariant
            c <= 6,
            forall|t: Tile|
                spec_tile_code(t) < c ==> #[trigger] r@.to_multiset().count(t) == v@.to_multiset().count(t),
            forall|t: Tile| spec_tile_code(t) >= c ==> #[trigger] r@.to_multiset().count(t) == 0,
            tiles_sorted(r@),
            forall|i: int| 0 <= i < r@.len() ==> spec_tile_code(#[trigger] r@[i]) < c,
        decreases 6 - c,
    {
        let t = Tile::from_code(c);
        let n = count_tile(v, t);
        proof {
            assert(forall|u: Tile| spec_tile_code(u) == spec_tile_code(t) ==> u == t);
        }
        let ghost r0 = r@;
        let mut k: usize = 0;
        while k < n
            invariant
                k <= n,
                n == v@.to_multiset().count(t),
                spec_tile_code(t) == c,
                r@.to_multiset().count(t) == r0.to_multiset().count(t) + k,
                forall|u: Tile|
                    u != t ==> #[trigger] r@.to_multiset().count(u) == r0.to_multiset().count(u),
                tiles_sorted(r@),
                forall|i: int| 0 <= i < r@.len() ==> spec_tile_code(#[trigger] r@[i]) <= c,
                forall|i: int| 0 <= i < r0.len() ==> r@[i] == r0[i],
                r@.len() == r0.len() + k,
            decreases n - k,
        {
            r.push(t);
            k = k + 1;
        }
        c = c + 1;
    }
    proof {
        assert(forall|t: Tile| 0 <= spec_tile_code(t) && spec_tile_code(t) <= 5);
        assert(r@.to_multiset() =~= v@.to_multiset());
        assert(r@.to_multiset().len() == r@.len());
        assert(v@.to_multiset().len() == v@.len());
    }
    r
}

} // verus!
