use vstd::prelude::*;

use crate::bag::{spec_fill_effect, Bag};
use crate::game::{
    spec_advance_rel, spec_marker_holder_from, spec_someone_has_marker, Game, GameState,
};
use crate::patternline::{spec_accept_result, PatternLine};
use crate::tile::Tile;

verus! {

broadcast use vstd::multiset::group_multiset_axioms, vstd::seq_lib::group_to_multiset_ensures;

/// Bag conservation: a factory fill neither loses nor invents tiles.
/// What left the two piles is exactly what landed on the factory,
/// whether or not a reshuffle happened along the way.
pub proof fn lemma_fill_factory_conserves_tiles(pre: Bag, post: Bag, s: Seq<Tile>)
    requires
        spec_fill_effect(pre, post, s),
    ensures
        post.spec_drawable().len() + post.spec_discarded().len() + s.len()
            == pre.spec_drawable().len() + pre.spec_discarded().len(),
        post.spec_drawable().to_multiset().add(post.spec_discarded().to_multiset()).add(
            s.to_multiset(),
        ) == pre.spec_drawable().to_multiset().add(pre.spec_discarded().to_multiset()),
{
    if pre.spec_drawable().len() >= 4 {
        crate::bag::lemma_take_skip_multiset(pre.spec_drawable(), 4);
        assert(post.spec_drawable().to_multiset().add(post.spec_discarded().to_multiset()).add(
            s.to_multiset(),
        ) =~= pre.spec_drawable().to_multiset().add(pre.spec_discarded().to_multiset()));
        assert(post.spec_drawable().to_multiset().len() == post.spec_drawable().len());
        assert(s.to_multiset().len() == s.len());
        assert(pre.spec_drawable().to_multiset().len() == pre.spec_drawable().len());
        assert(pre.spec_drawable().take(4).to_multiset().len() + pre.spec_drawable().skip(
            4,
        ).to_multiset().len() == pre.spec_drawable().to_multiset().len());
    } else {
        assert(post.spec_discarded().to_multiset().len() == post.spec_discarded().len());
        assert(post.spec_drawable().to_multiset().add(post.spec_discarded().to_multiset()).add(
            s.to_multiset(),
        ) =~= pre.spec_drawable().to_multiset().add(pre.spec_discarded().to_multiset()));
    }
}

/// Factory fill determinism under shortage: when the drawing pile holds
/// fewer than four tiles and the discard pile covers the rest, the fill
/// reshuffles exactly once — afterwards the discard pile is empty — and
/// still yields exactly four tiles, among them the whole old drawing
/// pile.
pub proof fn lemma_fill_factory_shortage(pre: Bag, post: Bag, s: Seq<Tile>)
    requires
        spec_fill_effect(pre, post, s),
        pre.spec_drawable().len() < 4,
    ensures
        s.len() == 4,
        post.spec_discarded().len() == 0,
        post.spec_drawable().len() + 4 == pre.spec_drawable().len() + pre.spec_discarded().len(),
        pre.spec_drawable().to_multiset().subset_of(s.to_multiset()),
{
}

/// The staging-row overflow law: accepting `n` tiles of a matching
/// color on a row of capacity `c` with `f` tiles already taken leaves
/// `min(c, f + n)` tiles on the row and returns `max(0, n - (c - f))`
/// as overflow.
pub proof fn lemma_pattern_row_overflow(pl: PatternLine, t: Tile, n: int)
    requires
        pl.wf(),
        n >= 0,
    ensures
        ({
            let c = pl.spec_length();
            let f = pl.spec_taken();
            let ar = spec_accept_result(pl, t, n);
            &&& ar.1 == (if n - (c - f) > 0 {
                n - (c - f)
            } else {
                0int
            })
            &&& ar.0.spec_taken() == (if c < f + n {
                c
            } else {
                f + n
            })
            &&& ar.0.spec_length() == c
            &&& ar.0 is Taken && ar.0->Taken_tile == t
        }),
{
}

/// The first marker holder really is the first: no player before them
/// holds the marker.
proof fn lemma_marker_holder_first(players: Seq<crate::player::Player>, i: int)
    requires
        0 <= i <= players.len(),
    ensures
        forall|k: int|
            i <= k < spec_marker_holder_from(players, i)
                ==> !(#[trigger] players[k].spec_area().spec_floorline()@.contains(
                Tile::FirstPlayer,
            )),
    decreases players.len() - i,
{
    if i < players.len() && !players[i].spec_area().spec_floorline()@.contains(Tile::FirstPlayer) {
        lemma_marker_holder_first(players, i + 1);
    }
}

/// Round-advance player handoff: the round advance hands the first turn
/// of the next round to the lowest-numbered player who held the marker,
/// that player really held it, and afterwards exactly one marker is in
/// circulation again — back in the common area, on nobody's floor line.
pub proof fn lemma_round_advance_handoff(pre: Game, post: Game)
    requires
        spec_advance_rel(pre, post),
        spec_someone_has_marker(pre.spec_players()),
    ensures
        post.spec_state() is PickSource,
        post.spec_state()->PickSource_player_id as int == spec_marker_holder_from(
            pre.spec_players(),
            0,
        ),
        pre.spec_players()[spec_marker_holder_from(pre.spec_players(), 0)].spec_area().spec_floorline()@.contains(
            Tile::FirstPlayer,
        ),
        forall|k: int|
            0 <= k < spec_marker_holder_from(pre.spec_players(), 0)
                ==> !(#[trigger] pre.spec_players()[k].spec_area().spec_floorline()@.contains(
                Tile::FirstPlayer,
            )),
        post.spec_common()@ == seq![Tile::FirstPlayer],
        forall|i: int|
            0 <= i < post.spec_players().len()
                ==> !(#[trigger] post.spec_players()[i].spec_area().spec_floorline()@.contains(
                Tile::FirstPlayer,
            )),
{
    let players = pre.spec_players();
    let w = choose|k: int|
        0 <= k < players.len() && players[k].spec_area().spec_floorline()@.contains(
            Tile::FirstPlayer,
        );
    assert(0 <= w < players.len() && players[w].spec_area().spec_floorline()@.contains(
        Tile::FirstPlayer,
    ));
    pre.lemma_players_len_bound();
    crate::game::lemma_marker_holder_in_range(players, 0);
    lemma_marker_holder_first(players, 0);
    assert forall|i: int|
        0 <= i < post.spec_players().len() implies !(
    #[trigger] post.spec_players()[i].spec_area().spec_floorline()@.contains(
        Tile::FirstPlayer,
    )) by {
        assert(post.spec_players()[i].spec_area().spec_floorline()@ == Seq::<Tile>::empty());
    }
}

} // verus!
