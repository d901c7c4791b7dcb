use vstd::multiset::Multiset;
use vstd::prelude::*;

use crate::bag::Bag;
use crate::buildingarea::{
    spec_common_pick_effect, spec_flush_rows, spec_pick_effect, BuildingArea, IsGameOver,
};
use crate::common_area::{spec_after_pick, CommonArea};
use crate::factory::Factory;
use crate::patternline::PatternLine;
use crate::player::Player;
use crate::scroll::{scroll_rows, spec_scroll_at};
use crate::tile::{Direction, Tile};
use crate::tilecollection::{spec_adjacent, spec_distinct_tiles, spec_first_tile};

verus! {

broadcast use vstd::multiset::group_multiset_axioms, vstd::seq_lib::group_to_multiset_ensures;

/// The index of one factory display.
#[derive(Debug, PartialEq, Eq, Copy, Clone, Structural, Hash)]
pub struct FactoryId(pub usize);

/// Where a draft comes from: one of the factories, or the common area.
#[derive(Debug, PartialEq, Eq, Clone, Copy, Structural)]
pub enum TileSource {
    Factory(FactoryId),
    CommonArea,
}

/// Where the turn protocol stands: picking a source, picking a color
/// within the source, or picking the staging row the tiles go to.
#[derive(Debug, PartialEq, Eq, Clone, Copy, Structural)]
pub enum GameState {
    PickSource { player_id: usize, current_source: TileSource },
    PickTileFromSource { player_id: usize, current_source: TileSource, selected_tile: Tile },
    PickRowToPutTiles { player_id: usize, source: TileSource, tile: Tile, selected_row_id: usize },
}

impl GameState {
    /// The tile currently highlighted, once one is selected.
    pub fn find_selected_tile(&self) -> (r: Option<Tile>)
        ensures
            r == (match *self {
                GameState::PickSource { .. } => None::<Tile>,
                GameState::PickTileFromSource { selected_tile, .. } => Some(selected_tile),
                GameState::PickRowToPutTiles { tile, .. } => Some(tile),
            }),
    {
        match self {
            GameState::PickSource { .. } => None,
            GameState::PickTileFromSource { selected_tile, .. } => Some(*selected_tile),
            GameState::PickRowToPutTiles { tile, .. } => Some(*tile),
        }
    }
}

/// What the engine is asked to do next: cycle the highlighted choice,
/// move one step forward or back through the turn protocol, or place the
/// selected tiles.
pub enum AppEvent {
    Select(Direction),
    TransitionToPickTileFromFactory { source: TileSource, tile: Tile },
    TransitionToPickRow { player_id: usize, source: TileSource, tile: Tile },
    PlaceTiles { player_id: usize, source: TileSource, tile: Tile, row_id: usize },
    GoBack,
}

/// One abstract user input, as the presentation layer delivers it.
pub enum UserInput {
    Character(char),
    Confirm,
    Back,
}

/// What handling a user input produced: an engine event to apply, a pure
/// view change, or nothing.
pub enum UserEventHandled {
    ViewChange,
    AppEvent(AppEvent),
    Noop,
}

/// The whole match: the players, the tile economy, and the turn state.
/// The engine is the single owner of game truth; the presentation layer
/// reads it and feeds it events.
pub struct Game {
    players: Vec<Player>,
    factories: Vec<Factory>,
    state: GameState,
    bag: Bag,
    common_area: CommonArea,
    over: bool,
}

impl Game {
    pub closed spec fn spec_players(self) -> Seq<Player> {
        self.players@
    }

    pub closed spec fn spec_factories(self) -> Seq<Factory> {
        self.factories@
    }

    pub closed spec fn spec_state(self) -> GameState {
        self.state
    }

    pub closed spec fn spec_bag(self) -> Bag {
        self.bag
    }

    pub closed spec fn spec_common(self) -> CommonArea {
        self.common_area
    }

    pub closed spec fn spec_over(self) -> bool {
        self.over
    }

    /// Whether a source reference points at an existing source.
    pub open spec fn spec_source_valid(self, source: TileSource) -> bool {
        match source {
            TileSource::Factory(f) => f.0 < self.spec_factories().len(),
            TileSource::CommonArea => true,
        }
    }

    /// The tiles a source currently offers.
    pub open spec fn spec_source_tiles(self, source: TileSource) -> Seq<Tile> {
        match source {
            TileSource::Factory(f) => match self.spec_factories()[f.0 as int]@ {
                Some(s) => s,
                None => Seq::empty(),
            },
            TileSource::CommonArea => self.spec_common()@,
        }
    }

    /// The turn state only ever names existing players, sources, rows
    /// and colors.
    pub open spec fn spec_state_wf(self) -> bool {
        match self.spec_state() {
            GameState::PickSource { player_id, current_source } => player_id
                < self.spec_players().len() && self.spec_source_valid(current_source),
            GameState::PickTileFromSource { player_id, current_source, selected_tile } => player_id
                < self.spec_players().len() && self.spec_source_valid(current_source)
                && selected_tile != Tile::FirstPlayer,
            GameState::PickRowToPutTiles { player_id, source, tile, selected_row_id } => player_id
                < self.spec_players().len() && self.spec_source_valid(source) && tile
                != Tile::FirstPlayer && selected_row_id < 5,
        }
    }

    pub open spec fn wf(self) -> bool {
        &&& self.spec_players().len() >= 2
        &&& forall|i: int| 0 <= i < self.spec_players().len() ==> (#[trigger] self.spec_players()[i]).wf()
        &&& self.spec_factories().len() >= 1
        &&& forall|i: int|
            0 <= i < self.spec_factories().len() ==> (#[trigger] self.spec_factories()[i]).wf()
        &&& self.spec_bag().wf()
        &&& self.spec_common().wf()
        &&& self.spec_state_wf()
    }

    /// The factories of this round, with their ids, that still hold
    /// tiles: the sources a player may draft from, besides the common
    /// area.
    pub open spec fn spec_pickable_factories(self, n: int) -> Seq<TileSource>
        decreases n,
    {
        if n <= 0 {
            Seq::empty()
        } else {
            let rest = self.spec_pickable_factories(n - 1);
            if self.spec_factories()[n - 1]@ is Some {
                rest.push(TileSource::Factory(FactoryId((n - 1) as usize)))
            } else {
                rest
            }
        }
    }

    /// Every source a draft may currently come from: the non-empty
    /// factories in order, then the common area while it holds anything.
    pub open spec fn spec_pickable_sources(self) -> Seq<TileSource> {
        self.spec_pickable_factories(self.spec_factories().len() as int) + (
        if self.spec_common()@.len() > 0 {
            seq![TileSource::CommonArea]
        } else {
            Seq::empty()
        })
    }

    /// A vector never holds more elements than a machine word counts.
    pub proof fn lemma_players_len_bound(self)
        ensures
            self.spec_players().len() <= usize::MAX,
    {
        vstd::std_specs::vec::axiom_spec_len(&self.players);
    }

    pub fn get_players(&self) -> (r: &Vec<Player>)
        ensures
            r@ == self.spec_players(),
    {
        &self.players
    }

    pub fn get_factories(&self) -> (r: &Vec<Factory>)
        ensures
            r@ == self.spec_factories(),
    {
        &self.factories
    }

    pub fn get_common_area(&self) -> (r: &CommonArea)
        ensures
            *r == self.spec_common(),
    {
        &self.common_area
    }

    pub fn get_bag(&self) -> (r: &Bag)
        ensures
            *r == self.spec_bag(),
    {
        &self.bag
    }

    pub fn get_state(&self) -> (r: &GameState)
        ensures
            *r == self.spec_state(),
    {
        &self.state
    }

    /// Whether a completed wall row has ended the match.
    pub fn is_over(&self) -> (r: bool)
        ensures
            r == self.spec_over(),
    {
        self.over
    }

    /// How many tiles of color `t` the first `n` factories hold
    /// together.
    pub open spec fn spec_factory_tiles_count(fs: Seq<Factory>, t: Tile, n: int) -> int
        decreases n,
    {
        if n <= 0 {
            0
        } else {
            Self::spec_factory_tiles_count(fs, t, n - 1) + (match fs[n - 1]@ {
                Some(s) => s.to_multiset().count(t) as int,
                None => 0,
            })
        }
    }

    /// A new match for the given players: a full shuffled bag, four
    /// factories filled from it, the common area seeded with the marker,
    /// and the first player about to pick a source.
    pub fn for_players(players: Vec<Player>) -> (g: Game)
        requires
            players@.len() >= 2,
            forall|i: int| 0 <= i < players@.len() ==> (#[trigger] players@[i]).wf(),
        ensures
            g.wf(),
            g.spec_players() == players@,
            g.spec_factories().len() == 4,
            forall|i: int| 0 <= i < 4 ==> (#[trigger] g.spec_factories()[i])@ is Some,
            g.spec_common()@ == seq![Tile::FirstPlayer],
            g.spec_bag().spec_drawable().len() == 84,
            g.spec_bag().spec_discarded().len() == 0,
            g.spec_state() == (GameState::PickSource {
                player_id: 0,
                current_source: TileSource::Factory(FactoryId(0)),
            }),
            !g.spec_over(),
            forall|t: Tile|
                t != Tile::FirstPlayer ==> #[trigger] g.spec_bag().spec_drawable().to_multiset().count(
                    t,
                ) + Self::spec_factory_tiles_count(g.spec_factories(), t, 4) == 20,
    {
        let mut bag = Bag::default();
        let mut factories: Vec<Factory> = Vec::new();
        let mut i: usize = 0;
        while i < 4
            invariant
                i <= 4,
                factories@.len() == i,
                bag.wf(),
                bag.spec_drawable().len() == 100 - 4 * i,
                bag.spec_discarded().len() == 0,
                forall|j: int|
                    0 <= j < i ==> (#[trigger] factories@[j]).wf() && factories@[j]@ is Some,
                forall|t: Tile|
                    t != Tile::FirstPlayer ==> #[trigger] bag.spec_drawable().to_multiset().count(t)
                        + Self::spec_factory_tiles_count(factories@, t, i as int) == 20,
            decreases 4 - i,
        {
            let ghost bag_pre = bag;
            let ghost factories_pre = factories@;
            let f = Factory::new_from_bag(&mut bag);
            factories.push(f);
            proof {
                crate::bag::lemma_take_skip_multiset(bag_pre.spec_drawable(), 4);
                assert forall|t: Tile| t != Tile::FirstPlayer implies
                    #[trigger] bag.spec_drawable().to_multiset().count(t)
                        + Self::spec_factory_tiles_count(factories@, t, i + 1) == 20 by {
                    lemma_factory_count_prefix(factories_pre, factories@, t, i as int);
                    assert(factories@[i as int] == f);
                    assert(bag.spec_drawable().to_multiset().count(t) + f@->Some_0.to_multiset().count(
                        t,
                    ) == bag_pre.spec_drawable().to_multiset().count(t));
                }
            }
            i = i + 1;
        }
        Game {
            players,
            factories,
            state: GameState::PickSource {
                player_id: 0,
                current_source: TileSource::Factory(FactoryId(0)),
            },
            bag,
            common_area: CommonArea::default(),
            over: false,
        }
    }

    /// A match from explicitly given components: the injectable way to
    /// set up deterministic play, with the first player about to pick a
    /// source.
    pub fn with_setup(
        players: Vec<Player>,
        factories: Vec<Factory>,
        bag: Bag,
        common_area: CommonArea,
    ) -> (g: Game)
        requires
            players@.len() >= 2,
            forall|i: int| 0 <= i < players@.len() ==> (#[trigger] players@[i]).wf(),
            factories@.len() >= 1,
            forall|i: int| 0 <= i < factories@.len() ==> (#[trigger] factories@[i]).wf(),
            bag.wf(),
            common_area.wf(),
        ensures
            g.wf(),
            g.spec_players() == players@,
            g.spec_factories() == factories@,
            g.spec_bag() == bag,
            g.spec_common() == common_area,
            g.spec_state() == (GameState::PickSource {
                player_id: 0,
                current_source: TileSource::Factory(FactoryId(0)),
            }),
            !g.spec_over(),
    {
        Game {
            players,
            factories,
            state: GameState::PickSource {
                player_id: 0,
                current_source: TileSource::Factory(FactoryId(0)),
            },
            bag,
            common_area,
            over: false,
        }
    }

    /// How many tiles of one color a source offers.
    pub fn count_tiles_in(&self, source: TileSource, tile: Tile) -> (n: usize)
        requires
            self.spec_source_valid(source),
        ensures
            n == self.spec_source_tiles(source).to_multiset().count(tile),
    {
        match source {
            TileSource::Factory(factory_id) => {
                proof {
                    if self.spec_factories()[factory_id.0 as int]@ is None {
                        assert(Seq::<Tile>::empty().to_multiset() =~= Multiset::<Tile>::empty());
                    }
                }
                self.factories[factory_id.0].count_tile(tile)
            },
            TileSource::CommonArea => self.common_area.count_tile(tile),
        }
    }

    /// A copy of the tiles a source currently offers.
    pub fn find_source(&self, source: TileSource) -> (r: Vec<Tile>)
        requires
            self.spec_source_valid(source),
        ensures
            r@ == self.spec_source_tiles(source),
    {
        let tiles: &Vec<Tile> = match source {
            TileSource::Factory(factory_id) => {
                match self.factories[factory_id.0].get_tiles() {
                    Some(v) => v,
                    None => {
                        return Vec::new();
                    },
                }
            },
            TileSource::CommonArea => self.common_area.inspect(),
        };
        let mut r: Vec<Tile> = Vec::new();
        let mut i: usize = 0;
        while i < tiles.len()
            invariant
                i <= tiles@.len(),
                tiles@ == self.spec_source_tiles(source),
                r@ == tiles@.take(i as int),
            decreases tiles@.len() - i,
        {
            r.push(tiles[i]);
            proof {
                assert(r@ =~= tiles@.take(i + 1));
            }
            i = i + 1;
        }
        proof {
            assert(r@ =~= tiles@);
        }
        r
    }

    /// The first color a source offers, skipping the marker; what the
    /// selection starts on when the source is confirmed.
    pub fn find_first_tile_in_source(&self, source: TileSource) -> (r: Option<Tile>)
        requires
            self.spec_source_valid(source),
        ensures
            r == spec_first_tile(self.spec_source_tiles(source)),
    {
        match source {
            TileSource::Factory(factory_id) => self.factories[factory_id.0].first_color(),
            TileSource::CommonArea => self.common_area.first_color(),
        }
    }

    /// The pickable sources are listed once each: every still-filled
    /// factory, and the common area while it holds anything.
    pub proof fn lemma_pickable_factories_props(self, n: int)
        requires
            0 <= n <= self.spec_factories().len(),
            n <= usize::MAX,
        ensures
            self.spec_pickable_factories(n).no_duplicates(),
            forall|s: TileSource|
                #[trigger] self.spec_pickable_factories(n).contains(s) <==> (s is Factory
                    && (s->Factory_0).0 < n && self.spec_factories()[(s->Factory_0).0 as int]@ is Some),
        decreases n,
    {
        if n > 0 {
            self.lemma_pickable_factories_props(n - 1);
            let rest = self.spec_pickable_factories(n - 1);
            let full = self.spec_pickable_factories(n);
            if self.spec_factories()[n - 1]@ is Some {
                let nf = TileSource::Factory(FactoryId((n - 1) as usize));
                assert(full == rest.push(nf));
                assert forall|s: TileSource| #[trigger] full.contains(s) <==> (s is Factory
                    && (s->Factory_0).0 < n
                    && self.spec_factories()[(s->Factory_0).0 as int]@ is Some) by {
                    vstd::seq_lib::lemma_seq_contains_after_push(rest, nf, s);
                    assert(nf->Factory_0 == FactoryId((n - 1) as usize));
                    match s {
                        TileSource::Factory(f) => {
                            if f.0 as int == n - 1 {
                                assert(f == FactoryId((n - 1) as usize));
                                assert(s == nf);
                            } else if f.0 < n - 1 && self.spec_factories()[f.0 as int]@ is Some {
                                assert(rest.contains(s));
                            }
                        },
                        TileSource::CommonArea => {
                            if full.contains(s) {
                                if rest.contains(s) {
                                } else {
                                    assert(s == nf);
                                }
                            }
                        },
                    }
                }
                assert forall|a: int, b: int|
                    0 <= a < full.len() && 0 <= b < full.len() && a != b implies full[a]
                    != full[b] by {
                    if a < rest.len() {
                        assert(full[a] == rest[a]);
                    } else {
                        assert(full[a] == nf);
                    }
                    if b < rest.len() {
                        assert(full[b] == rest[b]);
                    } else {
                        assert(full[b] == nf);
                    }
                    if a < rest.len() && b < rest.len() {
                        assert(rest[a] != rest[b]);
                    } else if a < rest.len() {
                        assert(rest.contains(rest[a]));
                    } else {
                        assert(rest.contains(rest[b]));
                    }
                }
                assert(full.no_duplicates());
            } else {
                assert forall|s: TileSource| #[trigger] full.contains(s) <==> (s is Factory
                    && (s->Factory_0).0 < n
                    && self.spec_factories()[(s->Factory_0).0 as int]@ is Some) by {
                    if s is Factory && (s->Factory_0).0 < n
                        && self.spec_factories()[(s->Factory_0).0 as int]@ is Some {
                        assert((s->Factory_0).0 < n - 1 || (s->Factory_0).0 as int == n - 1);
                    }
                }
            }
        }
    }

    pub proof fn lemma_pickable_sources_props(self)
        ensures
            self.spec_pickable_sources().no_duplicates(),
            forall|s: TileSource|
                #[trigger] self.spec_pickable_sources().contains(s) <==> (match s {
                    TileSource::Factory(f) => f.0 < self.spec_factories().len()
                        && self.spec_factories()[f.0 as int]@ is Some,
                    TileSource::CommonArea => self.spec_common()@.len() > 0,
                }),
    {
        let n = self.spec_factories().len() as int;
        vstd::std_specs::vec::axiom_spec_len(&self.factories);
        self.lemma_pickable_factories_props(n);
        let pf = self.spec_pickable_factories(n);
        let full = self.spec_pickable_sources();
        if self.spec_common()@.len() > 0 {
            assert(full =~= pf.push(TileSource::CommonArea));
            assert forall|s: TileSource| #[trigger] full.contains(s) <==> (pf.contains(s) || s
                == TileSource::CommonArea) by {
                vstd::seq_lib::lemma_seq_contains_after_push(pf, TileSource::CommonArea, s);
            }
            assert forall|a: int, b: int|
                0 <= a < full.len() && 0 <= b < full.len() && a != b implies full[a] != full[b] by {
                if a < pf.len() {
                    assert(full[a] == pf[a]);
                } else {
                    assert(full[a] == TileSource::CommonArea);
                }
                if b < pf.len() {
                    assert(full[b] == pf[b]);
                } else {
                    assert(full[b] == TileSource::CommonArea);
                }
                if a < pf.len() && b < pf.len() {
                    assert(pf[a] != pf[b]);
                } else if a < pf.len() {
                    assert(pf.contains(pf[a]));
                } else {
                    assert(pf.contains(pf[b]));
                }
            }
            assert(full.no_duplicates());
        } else {
            assert(full =~= pf);
        }
    }

    /// Every source a draft may currently come from.
    pub fn find_pickable_sources(&self) -> (r: Vec<TileSource>)
        ensures
            r@ == self.spec_pickable_sources(),
    {
        let mut r: Vec<TileSource> = Vec::new();
        let mut i: usize = 0;
        while i < self.factories.len()
            invariant
                i <= self.spec_factories().len(),
                r@ == self.spec_pickable_factories(i as int),
            decreases self.spec_factories().len() - i,
        {
            if !self.factories[i].is_empty() {
                r.push(TileSource::Factory(FactoryId(i)));
            }
            i = i + 1;
        }
        if !self.common_area.is_empty() {
            r.push(TileSource::CommonArea);
            proof {
                assert(r@ =~= self.spec_pickable_sources());
            }
        } else {
            proof {
                assert(r@ =~= self.spec_pickable_sources());
            }
        }
        r
    }

    /// Scroll through a duplicate-free list of sources, wrapping around.
    fn scroll_sources(v: &Vec<TileSource>, pivot: TileSource, dir: Direction) -> (r: Option<
        TileSource,
    >)
        requires
            v@.no_duplicates(),
            v@.contains(pivot),
        ensures
            r == Some(spec_scroll_at(v@, v@.index_of(pivot), dir)),
    {
        let mut i: usize = 0;
        while i < v.len()
            invariant
                i <= v@.len(),
                v@.no_duplicates(),
                v@.contains(pivot),
                forall|j: int| 0 <= j < i ==> v@[j] != pivot,
            decreases v@.len() - i,
        {
            if v[i] == pivot {
                proof {
                    assert(exists|j: int| 0 <= j < v@.len() && v@[j] == pivot);
                    let k = v@.index_of(pivot);
                    assert(0 <= k < v@.len() && v@[k] == pivot);
                    assert(k == i as int);
                }
                let r = match dir {
                    Direction::Next => {
                        if i == v.len() - 1 {
                            v[0]
                        } else {
                            v[i + 1]
                        }
                    },
                    Direction::Prev => {
                        if i == 0 {
                            v[v.len() - 1]
                        } else {
                            v[i - 1]
                        }
                    },
                };
                return Some(r);
            }
            i = i + 1;
        }
        proof {
            let k = choose|k: int| 0 <= k < v@.len() && v@[k] == pivot;
            assert(false);
        }
        None
    }

    /// The next or previous staging row, among those that can accept the
    /// color, wrapping around.
    fn find_adjacent_selectable_row(
        &self,
        tile: Tile,
        player_id: usize,
        current_row: usize,
        direction: Direction,
    ) -> (r: Option<usize>)
        requires
            self.wf(),
            player_id < self.spec_players().len(),
            tile != Tile::FirstPlayer,
            self.spec_players()[player_id as int].spec_area().spec_eligible_rows(
                tile,
                5,
            ).contains(current_row),
        ensures
            ({
                let elig = self.spec_players()[player_id as int].spec_area().spec_eligible_rows(
                    tile,
                    5,
                );
                r == Some(spec_scroll_at(elig, elig.index_of(current_row), direction))
            }),
    {
        let barea = self.players[player_id].get_buildingarea();
        let rows = barea.get_rows_that_can_accept(tile);
        proof {
            barea.lemma_eligible_rows_props(tile, 5);
        }
        scroll_rows(&rows, current_row, direction)
    }
}

/// Whether a draft of color `tile` from `source` into row `row_id` of
/// player `player_id`'s board is a legal move that cannot fail: the
/// source offers the color, the row is free or already taking that
/// color, and the color's wall cell in that row is still free.
pub open spec fn spec_can_place(
    g: Game,
    player_id: int,
    source: TileSource,
    tile: Tile,
    row_id: int,
) -> bool {
    let board = g.spec_players()[player_id].spec_area();
    &&& 0 <= player_id < g.spec_players().len()
    &&& 0 <= row_id < 5
    &&& tile != Tile::FirstPlayer
    &&& g.spec_source_valid(source)
    &&& (match source {
        TileSource::Factory(f) => g.spec_factories()[f.0 as int]@ is Some,
        TileSource::CommonArea => true,
    })
    &&& g.spec_source_tiles(source).contains(tile)
    &&& (match board.spec_rows()[row_id] {
        PatternLine::Taken { tile: t, .. } => t == tile,
        PatternLine::Free { .. } => true,
    })
    &&& !board.spec_wall().spec_is_filled(
        row_id,
        crate::wall::spec_col_of(tile, row_id),
    )
}

/// What a legal draft does to the match: the acting player's board takes
/// the tiles, the source empties or sheds the color, overflow runs
/// through the floor line to the bag's discard pile, and nothing else —
/// not the turn state, not the other players — changes.
pub open spec fn spec_place_rel(
    pre: Game,
    post: Game,
    player_id: int,
    source: TileSource,
    tile: Tile,
    row_id: int,
) -> bool {
    let s = pre.spec_source_tiles(source);
    let b0 = pre.spec_players()[player_id].spec_area();
    let b1 = post.spec_players()[player_id].spec_area();
    &&& post.spec_state() == pre.spec_state()
    &&& post.spec_over() == pre.spec_over()
    &&& post.spec_players().len() == pre.spec_players().len()
    &&& forall|i: int|
        0 <= i < pre.spec_players().len() && i != player_id ==> post.spec_players()[i]
            == pre.spec_players()[i]
    &&& post.spec_players()[player_id].spec_name() == pre.spec_players()[player_id].spec_name()
    &&& match source {
        TileSource::Factory(fid) => {
            &&& post.spec_factories().len() == pre.spec_factories().len()
            &&& forall|j: int|
                0 <= j < pre.spec_factories().len() && j != fid.0 ==> post.spec_factories()[j]
                    == pre.spec_factories()[j]
            &&& post.spec_factories()[fid.0 as int]@ is None
            &&& spec_pick_effect(
                b0,
                b1,
                s,
                pre.spec_common(),
                post.spec_common(),
                pre.spec_bag(),
                post.spec_bag(),
                row_id,
                tile,
            )
        },
        TileSource::CommonArea => {
            &&& post.spec_factories() == pre.spec_factories()
            &&& post.spec_common()@ == spec_after_pick(pre.spec_common()@, tile)
            &&& spec_common_pick_effect(
                b0,
                b1,
                pre.spec_bag(),
                post.spec_bag(),
                row_id,
                tile,
                s.to_multiset().count(tile) as int,
                s.contains(Tile::FirstPlayer),
            )
        },
    }
}

impl Game {
    /// Execute a draft: take every tile of `tile` from `source` into row
    /// `row_id` of player `player_id`'s board. An empty source, an
    /// absent color, or a row taken by another color is an illegal
    /// draft: it is reported and nothing moves.
    pub fn pick(
        &mut self,
        source: TileSource,
        tile: Tile,
        player_id: usize,
        row_id: usize,
    ) -> (r: Result<(), String>)
        requires
            old(self).wf(),
            player_id < old(self).spec_players().len(),
            row_id < 5,
            tile != Tile::FirstPlayer,
            old(self).spec_source_valid(source),
            (old(self).spec_source_tiles(source).contains(tile) && (match old(
                self,
            ).spec_players()[player_id as int].spec_area().spec_rows()[row_id as int] {
                PatternLine::Taken { tile: t, .. } => t == tile,
                PatternLine::Free { .. } => true,
            })) ==> !old(self).spec_players()[player_id as int].spec_area().spec_wall().spec_is_filled(
                row_id as int,
                crate::wall::spec_col_of(tile, row_id as int),
            ),
        ensures
            final(self).wf(),
            (r is Err) <==> !(old(self).spec_source_tiles(source).contains(tile) && (
            match old(self).spec_players()[player_id as int].spec_area().spec_rows()[row_id as int] {
                PatternLine::Taken { tile: t, .. } => t == tile,
                PatternLine::Free { .. } => true,
            })),
            r is Err ==> final(self).spec_players() == old(self).spec_players()
                && final(self).spec_factories() == old(self).spec_factories()
                && final(self).spec_common() == old(self).spec_common()
                && final(self).spec_bag() == old(self).spec_bag()
                && final(self).spec_state() == old(self).spec_state()
                && final(self).spec_over() == old(self).spec_over(),
            r is Ok ==> spec_place_rel(
                *old(self),
                *final(self),
                player_id as int,
                source,
                tile,
                row_id as int,
            ),
    {
        match source {
            TileSource::Factory(factory_id) => {
                let barea = self.players[player_id].get_buildingarea_mut();
                let res = barea.pick_factory(
                    &mut self.factories[factory_id.0],
                    &mut self.common_area,
                    &mut self.bag,
                    row_id,
                    tile,
                );
                proof {
                    if res is Ok {
                        assert(self.spec_players() =~= old(self).spec_players().update(
                            player_id as int,
                            self.spec_players()[player_id as int],
                        ));
                    } else {
                        assert(self.spec_players() =~= old(self).spec_players());
                        assert(self.spec_factories() =~= old(self).spec_factories());
                    }
                }
                res
            },
            TileSource::CommonArea => {
                if !self.common_area.contains_tile(tile) {
                    return Err("the common area does not hold that color".to_owned());
                }
                let mismatch = match *self.players[player_id].get_buildingarea().get_row(row_id) {
                    PatternLine::Taken { tile: t, .. } => t != tile,
                    PatternLine::Free { .. } => false,
                };
                if mismatch {
                    return Err("this row is taken by another color".to_owned());
                }
                let picked = self.common_area.pick_tile(tile);
                let count = picked.0;
                let has_firstplayer = picked.1;
                let barea = self.players[player_id].get_buildingarea_mut();
                let res = barea.pick_from_common_area(
                    &mut self.bag,
                    row_id,
                    tile,
                    count,
                    has_firstplayer,
                );
                proof {
                    assert(res is Ok);
                    assert(self.spec_players() =~= old(self).spec_players().update(
                        player_id as int,
                        self.spec_players()[player_id as int],
                    ));
                }
                match res {
                    Ok(_) => Ok(()),
                    Err(e) => Err(e),
                }
            },
        }
    }
}

/// Whether some player currently holds the first-player marker on their
/// floor line.
pub open spec fn spec_someone_has_marker(players: Seq<Player>) -> bool {
    exists|i: int|
        0 <= i < players.len() && players[i].spec_area().spec_floorline()@.contains(
            Tile::FirstPlayer,
        )
}

/// The first player at or after `i` whose floor line holds the marker,
/// or the player count when nobody does.
pub open spec fn spec_marker_holder_from(players: Seq<Player>, i: int) -> int
    decreases players.len() - i,
{
    if i < 0 || i >= players.len() {
        players.len() as int
    } else if players[i].spec_area().spec_floorline()@.contains(Tile::FirstPlayer) {
        i
    } else {
        spec_marker_holder_from(players, i + 1)
    }
}

/// What one player's board goes through at round end: full staging rows
/// flush onto the wall, the floor line's penalty is deducted (floored at
/// zero), and the floor line clears.
pub open spec fn spec_board_round_rel(b0: BuildingArea, b1: BuildingArea) -> bool {
    let fr = spec_flush_rows(b0.spec_rows(), b0.spec_wall().spec_grid(), b0.spec_wall().spec_points(), 0);
    let minus = crate::floorline::spec_penalty(b0.spec_floorline()@.len() as int);
    &&& b1.spec_rows() == fr.0
    &&& b1.spec_wall().spec_grid() == fr.1
    &&& b1.spec_wall().spec_points() == (if fr.2 <= minus {
        0int
    } else {
        fr.2 - minus
    })
    &&& b1.spec_floorline()@ == Seq::<Tile>::empty()
}

/// What the round advance does to the match: the marker names the next
/// starting player and returns to the common area, every board flushes
/// and pays its penalty, the factories refill from the bag, and a
/// completed wall row makes the match over.
pub open spec fn spec_advance_rel(pre: Game, post: Game) -> bool {
    &&& post.spec_players().len() == pre.spec_players().len()
    &&& forall|i: int|
        0 <= i < pre.spec_players().len() ==> (#[trigger] post.spec_players()[i]).spec_name()
            == pre.spec_players()[i].spec_name() && spec_board_round_rel(
            pre.spec_players()[i].spec_area(),
            post.spec_players()[i].spec_area(),
        )
    &&& post.spec_state() == (GameState::PickSource {
        player_id: spec_marker_holder_from(pre.spec_players(), 0) as usize,
        current_source: TileSource::Factory(FactoryId(0)),
    })
    &&& post.spec_factories().len() == pre.spec_factories().len()
    &&& forall|j: int|
        0 <= j < post.spec_factories().len() ==> (#[trigger] post.spec_factories()[j])@ is Some
    &&& post.spec_common()@ == seq![Tile::FirstPlayer]
    &&& post.spec_bag().spec_drawable().len() + post.spec_bag().spec_discarded().len() + 4
        * pre.spec_factories().len() == pre.spec_bag().spec_drawable().len()
        + pre.spec_bag().spec_discarded().len()
    &&& post.spec_over() == (pre.spec_over() || exists|i: int|
        0 <= i < pre.spec_players().len() && (#[trigger] spec_flush_rows(
            pre.spec_players()[i].spec_area().spec_rows(),
            pre.spec_players()[i].spec_area().spec_wall().spec_grid(),
            pre.spec_players()[i].spec_area().spec_wall().spec_points(),
            0,
        )).3)
}

impl Game {
    /// Find who drafted the marker this round — that player starts the
    /// next one — and seed the empty common area with a fresh marker.
    fn reset_first_player_token(&mut self) -> (r: usize)
        requires
            old(self).wf(),
            spec_someone_has_marker(old(self).spec_players()),
            old(self).spec_common()@.len() == 0,
        ensures
            final(self).wf(),
            r as int == spec_marker_holder_from(old(self).spec_players(), 0),
            r < old(self).spec_players().len(),
            final(self).spec_players() == old(self).spec_players(),
            final(self).spec_factories() == old(self).spec_factories(),
            final(self).spec_bag() == old(self).spec_bag(),
            final(self).spec_state() == old(self).spec_state(),
            final(self).spec_over() == old(self).spec_over(),
            final(self).spec_common()@ == seq![Tile::FirstPlayer],
    {
        let mut player_id: usize = 0;
        let mut found = false;
        let mut i: usize = 0;
        while i < self.players.len()
            invariant
                self.wf(),
                i <= self.spec_players().len(),
                !found ==> spec_marker_holder_from(self.spec_players(), 0)
                    == spec_marker_holder_from(self.spec_players(), i as int),
                found ==> player_id as int == spec_marker_holder_from(self.spec_players(), 0)
                    && player_id < self.spec_players().len(),
            decreases self.spec_players().len() - i,
        {
            if !found && self.players[i].has_first_player_token() {
                player_id = i;
                found = true;
            }
            i = i + 1;
        }
        proof {
            if !found {
                let w = choose|k: int|
                    0 <= k < self.spec_players().len()
                        && self.spec_players()[k].spec_area().spec_floorline()@.contains(
                        Tile::FirstPlayer,
                    );
                lemma_marker_holder_in_range(self.spec_players(), 0);
                assert(false);
            }
        }
        let mut marker: Vec<Tile> = Vec::new();
        marker.push(Tile::FirstPlayer);
        proof {
            assert(marker@ =~= seq![Tile::FirstPlayer]);
            assert(Seq::<Tile>::empty().to_multiset() =~= Multiset::<Tile>::empty());
            assert(marker@.to_multiset() =~= Multiset::<Tile>::empty().insert(Tile::FirstPlayer));
            assert(self.spec_common()@.to_multiset().len() == 0);
        }
        self.common_area.add(&marker);
        proof {
            let s = self.spec_common()@;
            assert(s.len() == 1);
            assert(s.to_multiset().count(Tile::FirstPlayer) == 1);
            if s[0] != Tile::FirstPlayer {
                assert(!s.contains(Tile::FirstPlayer)) by {
                    if s.contains(Tile::FirstPlayer) {
                        let k = choose|k: int| 0 <= k < s.len() && s[k] == Tile::FirstPlayer;
                    }
                }
            }
            assert(s =~= seq![Tile::FirstPlayer]);
        }
        player_id
    }

    /// End the round: name the next starting player by the marker,
    /// flush and score every board, apply the floor-line penalties,
    /// refill the factories, and hand the turn to the marker holder.
    fn advance_round(&mut self)
        requires
            old(self).wf(),
            spec_someone_has_marker(old(self).spec_players()),
            old(self).spec_common()@.len() == 0,
            forall|j: int|
                0 <= j < old(self).spec_factories().len() ==> (#[trigger] old(
                    self,
                ).spec_factories()[j])@ is None,
            old(self).spec_bag().spec_drawable().len() + old(self).spec_bag().spec_discarded().len()
                >= 4 * old(self).spec_factories().len(),
        ensures
            final(self).wf(),
            spec_advance_rel(*old(self), *final(self)),
    {
        let next_player = self.reset_first_player_token();
        let ghost players0 = old(self).spec_players();
        let mut i: usize = 0;
        while i < self.players.len()
            invariant
                self.wf(),
                i <= players0.len(),
                self.spec_players().len() == players0.len(),
                self.spec_factories() == old(self).spec_factories(),
                self.spec_bag() == old(self).spec_bag(),
                self.spec_common()@ == seq![Tile::FirstPlayer],
                self.spec_state() == old(self).spec_state(),
                forall|j: int| i <= j < players0.len() ==> self.spec_players()[j] == players0[j],
                forall|j: int|
                    0 <= j < i ==> (#[trigger] self.spec_players()[j]).spec_name()
                        == players0[j].spec_name() && spec_board_round_rel(
                        players0[j].spec_area(),
                        self.spec_players()[j].spec_area(),
                    ),
                self.spec_over() == (old(self).spec_over() || exists|j: int|
                    0 <= j < i && (#[trigger] spec_flush_rows(
                        players0[j].spec_area().spec_rows(),
                        players0[j].spec_area().spec_wall().spec_grid(),
                        players0[j].spec_area().spec_wall().spec_points(),
                        0,
                    )).3),
            decreases players0.len() - i,
        {
            let ghost pre_iter = *self;
            let barea = self.players[i].get_buildingarea_mut();
            let over_now = barea.move_tiles_to_wall();
            barea.flush_floorline();
            let is_over = over_now.as_bool();
            if is_over {
                self.over = true;
            }
            proof {
                assert(self.spec_players() =~= pre_iter.spec_players().update(
                    i as int,
                    self.spec_players()[i as int],
                ));
                assert(self.spec_players()[i as int].spec_area()
                    == self.spec_players()[i as int].spec_area());
                assert(spec_board_round_rel(
                    players0[i as int].spec_area(),
                    self.spec_players()[i as int].spec_area(),
                ));
                assert(self.spec_over() == (pre_iter.spec_over() || is_over));
                if is_over {
                    assert((spec_flush_rows(
                        players0[i as int].spec_area().spec_rows(),
                        players0[i as int].spec_area().spec_wall().spec_grid(),
                        players0[i as int].spec_area().spec_wall().spec_points(),
                        0,
                    )).3);
                }
                assert forall|j: int|
                    0 <= j < i + 1 implies (#[trigger] self.spec_players()[j]).spec_name()
                    == players0[j].spec_name() && spec_board_round_rel(
                    players0[j].spec_area(),
                    self.spec_players()[j].spec_area(),
                ) by {
                    if j < i {
                        assert(self.spec_players()[j] == pre_iter.spec_players()[j]);
                    }
                }
            }
            i = i + 1;
        }
        let ghost mid = *self;
        let mut j: usize = 0;
        while j < self.factories.len()
            invariant
                self.wf(),
                j <= self.spec_factories().len(),
                self.spec_factories().len() == mid.spec_factories().len(),
                self.spec_players() == mid.spec_players(),
                self.spec_common() == mid.spec_common(),
                self.spec_state() == mid.spec_state(),
                self.spec_over() == mid.spec_over(),
                forall|k: int|
                    0 <= k < j ==> (#[trigger] self.spec_factories()[k])@ is Some
                        && self.spec_factories()[k].wf(),
                forall|k: int|
                    j <= k < self.spec_factories().len() ==> (#[trigger] self.spec_factories()[k])
                        == mid.spec_factories()[k],
                forall|k: int|
                    j <= k < self.spec_factories().len() ==> (#[trigger] self.spec_factories()[k])@ is None,
                self.spec_bag().spec_drawable().len() + self.spec_bag().spec_discarded().len() + 4
                    * j == mid.spec_bag().spec_drawable().len()
                    + mid.spec_bag().spec_discarded().len(),
                mid.spec_bag().spec_drawable().len() + mid.spec_bag().spec_discarded().len() >= 4
                    * mid.spec_factories().len(),
                mid.spec_factories().len() == self.spec_factories().len(),
            decreases self.spec_factories().len() - j,
        {
            let ghost pre_iter = *self;
            self.bag.fill_factory(&mut self.factories[j]);
            proof {
                assert(self.spec_factories() =~= pre_iter.spec_factories().update(
                    j as int,
                    self.spec_factories()[j as int],
                ));
            }
            j = j + 1;
        }
        self.state = GameState::PickSource {
            player_id: next_player,
            current_source: TileSource::Factory(FactoryId(0)),
        };
    }
}

/// Everything but the turn state stands still.
pub open spec fn spec_frame(pre: Game, post: Game) -> bool {
    &&& post.spec_players() == pre.spec_players()
    &&& post.spec_factories() == pre.spec_factories()
    &&& post.spec_bag() == pre.spec_bag()
    &&& post.spec_common() == pre.spec_common()
    &&& post.spec_over() == pre.spec_over()
}

/// Where cycling the highlighted choice leads: the next or previous
/// pickable source, distinct color, or eligible row, wrapping around.
pub open spec fn spec_select_state(g: Game, dir: Direction) -> GameState {
    match g.spec_state() {
        GameState::PickSource { player_id, current_source } => {
            let sources = g.spec_pickable_sources();
            GameState::PickSource {
                player_id,
                current_source: spec_scroll_at(sources, sources.index_of(current_source), dir),
            }
        },
        GameState::PickTileFromSource { player_id, current_source, selected_tile } => {
            let d = spec_distinct_tiles(g.spec_source_tiles(current_source));
            GameState::PickTileFromSource {
                player_id,
                current_source,
                selected_tile: spec_adjacent(d, selected_tile, dir),
            }
        },
        GameState::PickRowToPutTiles { player_id, source, tile, selected_row_id } => {
            let elig = g.spec_players()[player_id as int].spec_area().spec_eligible_rows(tile, 5);
            GameState::PickRowToPutTiles {
                player_id,
                source,
                tile,
                selected_row_id: spec_scroll_at(elig, elig.index_of(selected_row_id), dir),
            }
        },
    }
}

/// Whether this draft takes the last tiles off the table, so that the
/// round ends with it.
pub open spec fn spec_sources_exhausted_after(g: Game, source: TileSource, tile: Tile) -> bool {
    match source {
        TileSource::Factory(f) => {
            &&& g.spec_common()@.len() == 0
            &&& spec_after_pick(g.spec_source_tiles(source), tile).len() == 0
            &&& forall|j: int|
                0 <= j < g.spec_factories().len() && j != f.0 ==> (#[trigger] g.spec_factories()[j])@ is None
        },
        TileSource::CommonArea => {
            &&& spec_after_pick(g.spec_common()@, tile).len() == 0
            &&& forall|j: int|
                0 <= j < g.spec_factories().len() ==> (#[trigger] g.spec_factories()[j])@ is None
        },
    }
}

/// Whether the drafter's floor line still has a slot for the marker
/// once the draft's overflow has landed on it.
pub open spec fn spec_floor_room_after(
    g: Game,
    player_id: int,
    source: TileSource,
    tile: Tile,
    row: Option<int>,
) -> bool {
    let s = g.spec_source_tiles(source);
    let m = s.to_multiset().count(tile) as int;
    let b = g.spec_players()[player_id].spec_area();
    let rem = match row {
        Some(r) => crate::patternline::spec_accept_result(b.spec_rows()[r], tile, m).1,
        None => m,
    };
    crate::floorline::spec_floor_result(b.spec_floorline()@, tile, rem).0.len() < 7
}

/// Whether, after this draft, some player will hold the first-player
/// marker: either somebody holds it already, or this very draft claims
/// it from the common area and the drafter's floor line has room.
pub open spec fn spec_marker_secured_after(
    g: Game,
    player_id: int,
    source: TileSource,
    tile: Tile,
    row: Option<int>,
) -> bool {
    ||| spec_someone_has_marker(g.spec_players())
    ||| (source is CommonArea && g.spec_common()@.contains(Tile::FirstPlayer)
        && spec_floor_room_after(g, player_id, source, tile, row))
}

/// If the draft ends the round, the round advance must be able to run:
/// a marker holder must exist and the bag must be able to refill every
/// factory.
pub open spec fn spec_advance_ready(
    g: Game,
    player_id: int,
    source: TileSource,
    tile: Tile,
    row: Option<int>,
) -> bool {
    spec_sources_exhausted_after(g, source, tile) ==> {
        &&& spec_marker_secured_after(g, player_id, source, tile, row)
        &&& g.spec_bag().spec_drawable().len() + g.spec_bag().spec_discarded().len() >= 4
            * g.spec_factories().len()
    }
}

/// When the engine accepts an event: the state machine only ever offers
/// legal choices, and an event outside them is a defect of the caller,
/// not a runtime condition.
pub open spec fn spec_event_allowed(g: Game, e: AppEvent) -> bool {
    match e {
        AppEvent::Select(dir) => match g.spec_state() {
            GameState::PickSource { current_source, .. } => g.spec_pickable_sources().contains(
                current_source,
            ),
            GameState::PickTileFromSource { current_source, selected_tile, .. } => {
                let d = spec_distinct_tiles(g.spec_source_tiles(current_source));
                &&& (match current_source {
                    TileSource::Factory(f) => g.spec_factories()[f.0 as int]@ is Some,
                    TileSource::CommonArea => true,
                })
                &&& (d.len() == 1 || d.contains(selected_tile))
            },
            GameState::PickRowToPutTiles { player_id, tile, selected_row_id, .. } => g.spec_players()[player_id as int].spec_area().spec_eligible_rows(
                tile,
                5,
            ).contains(selected_row_id),
        },
        AppEvent::TransitionToPickTileFromFactory { source, tile } => {
            &&& g.spec_state() is PickSource
            &&& tile != Tile::FirstPlayer
        },
        AppEvent::TransitionToPickRow { player_id, source, tile } => {
            &&& player_id < g.spec_players().len()
            &&& tile != Tile::FirstPlayer
            &&& g.spec_source_valid(source)
            &&& (g.spec_players()[player_id as int].spec_area().spec_eligible_rows(tile, 5).len()
                == 0 ==> (g.spec_source_tiles(source).contains(tile) && spec_advance_ready(
                g,
                player_id as int,
                source,
                tile,
                None,
            )))
        },
        AppEvent::PlaceTiles { player_id, source, tile, row_id } => {
            &&& spec_can_place(g, player_id as int, source, tile, row_id as int)
            &&& spec_advance_ready(g, player_id as int, source, tile, Some(row_id as int))
        },
        AppEvent::GoBack => true,
    }
}

/// What a whole-draft-to-the-floor does to the match: like a placing
/// draft, but the drafted tiles run straight to the floor line.
pub open spec fn spec_floor_draft_rel(
    pre: Game,
    post: Game,
    player_id: int,
    source: TileSource,
    tile: Tile,
) -> bool {
    let s = pre.spec_source_tiles(source);
    let m = s.to_multiset().count(tile) as int;
    let b0 = pre.spec_players()[player_id].spec_area();
    let b1 = post.spec_players()[player_id].spec_area();
    &&& post.spec_state() == pre.spec_state()
    &&& post.spec_over() == pre.spec_over()
    &&& post.spec_players().len() == pre.spec_players().len()
    &&& forall|i: int|
        0 <= i < pre.spec_players().len() && i != player_id ==> post.spec_players()[i]
            == pre.spec_players()[i]
    &&& post.spec_players()[player_id].spec_name() == pre.spec_players()[player_id].spec_name()
    &&& match source {
        TileSource::Factory(fid) => {
            &&& post.spec_factories().len() == pre.spec_factories().len()
            &&& forall|j: int|
                0 <= j < pre.spec_factories().len() && j != fid.0 ==> post.spec_factories()[j]
                    == pre.spec_factories()[j]
            &&& post.spec_factories()[fid.0 as int]@ is None
            &&& post.spec_common()@.to_multiset() == pre.spec_common()@.to_multiset().add(
                spec_after_pick(s, tile).to_multiset(),
            )
            &&& crate::buildingarea::spec_dump_effect(
                b0,
                b1,
                pre.spec_bag(),
                post.spec_bag(),
                tile,
                m,
                false,
            )
        },
        TileSource::CommonArea => {
            &&& post.spec_factories() == pre.spec_factories()
            &&& post.spec_common()@ == spec_after_pick(pre.spec_common()@, tile)
            &&& crate::buildingarea::spec_dump_effect(
                b0,
                b1,
                pre.spec_bag(),
                post.spec_bag(),
                tile,
                m,
                s.contains(Tile::FirstPlayer),
            )
        },
    }
}

/// What follows a completed draft: if anything is left to draft, the
/// turn passes round-robin to the next player and the selection restarts
/// at the first remaining source; otherwise the round advances.
pub open spec fn spec_next_after_draft(mid: Game, post: Game, player_id: int) -> bool {
    if mid.spec_pickable_sources().len() > 0 {
        &&& post.spec_players() == mid.spec_players()
        &&& post.spec_factories() == mid.spec_factories()
        &&& post.spec_bag() == mid.spec_bag()
        &&& post.spec_common() == mid.spec_common()
        &&& post.spec_over() == mid.spec_over()
        &&& post.spec_state() == (GameState::PickSource {
            player_id: ((player_id + 1) % (mid.spec_players().len() as int)) as usize,
            current_source: mid.spec_pickable_sources()[0],
        })
    } else {
        spec_advance_rel(mid, post)
    }
}

/// The whole contract of the turn protocol, case by case over the
/// events.
pub open spec fn spec_handle_rel(pre: Game, post: Game, e: AppEvent) -> bool {
    match e {
        AppEvent::Select(dir) => {
            &&& spec_frame(pre, post)
            &&& post.spec_state() == spec_select_state(pre, dir)
        },
        AppEvent::TransitionToPickTileFromFactory { source, tile } => {
            &&& spec_frame(pre, post)
            &&& post.spec_state() == (GameState::PickTileFromSource {
                player_id: pre.spec_state()->PickSource_player_id,
                current_source: pre.spec_state()->PickSource_current_source,
                selected_tile: tile,
            })
        },
        AppEvent::GoBack => {
            &&& spec_frame(pre, post)
            &&& post.spec_state() == (match pre.spec_state() {
                GameState::PickSource { .. } => pre.spec_state(),
                GameState::PickTileFromSource { player_id, current_source, .. } => GameState::PickSource {
                    player_id,
                    current_source,
                },
                GameState::PickRowToPutTiles { player_id, source, tile, .. } => GameState::PickTileFromSource {
                    player_id,
                    current_source: source,
                    selected_tile: tile,
                },
            })
        },
        AppEvent::TransitionToPickRow { player_id, source, tile } => {
            let elig = pre.spec_players()[player_id as int].spec_area().spec_eligible_rows(tile, 5);
            if elig.len() > 0 {
                &&& spec_frame(pre, post)
                &&& post.spec_state() == (GameState::PickRowToPutTiles {
                    player_id,
                    source,
                    tile,
                    selected_row_id: elig[0],
                })
            } else {
                exists|m: Game|
                    #[trigger] spec_floor_draft_rel(pre, m, player_id as int, source, tile)
                        && spec_next_after_draft(m, post, player_id as int)
            }
        },
        AppEvent::PlaceTiles { player_id, source, tile, row_id } => exists|m: Game|
            #[trigger] spec_place_rel(pre, m, player_id as int, source, tile, row_id as int)
                && spec_next_after_draft(m, post, player_id as int),
    }
}

impl Game {
    /// Hand the turn on after a completed draft: to the next player
    /// round-robin while anything is left to draft, else through the
    /// round advance.
    fn finish_draft(&mut self, player_id: usize)
        requires
            old(self).wf(),
            player_id < old(self).spec_players().len(),
            old(self).spec_pickable_sources().len() == 0 ==> (spec_someone_has_marker(
                old(self).spec_players(),
            ) && old(self).spec_bag().spec_drawable().len() + old(
                self,
            ).spec_bag().spec_discarded().len() >= 4 * old(self).spec_factories().len()),
        ensures
            final(self).wf(),
            spec_next_after_draft(*old(self), *final(self), player_id as int),
    {
        let sources = self.find_pickable_sources();
        proof {
            self.lemma_pickable_sources_props();
        }
        if sources.len() > 0 {
            let next_source = sources[0];
            proof {
                assert(self.spec_pickable_sources().contains(next_source));
            }
            let n = self.players.len();
            let next_player = (player_id + 1) % n;
            self.state = GameState::PickSource { player_id: next_player, current_source: next_source };
        } else {
            proof {
                assert forall|j: int|
                    0 <= j < self.spec_factories().len() implies (#[trigger] self.spec_factories()[j])@ is None by {
                    if self.spec_factories()[j]@ is Some {
                        let src = TileSource::Factory(FactoryId(j as usize));
                        vstd::std_specs::vec::axiom_spec_len(&self.factories);
                        assert(self.spec_pickable_sources().contains(src));
                    }
                }
                if self.spec_common()@.len() > 0 {
                    assert(self.spec_pickable_sources().contains(TileSource::CommonArea));
                }
            }
            self.advance_round();
        }
    }

    /// Apply one engine event: cycle a selection, step forward or back
    /// through the turn protocol, or execute the selected draft and pass
    /// the turn on. The state machine itself only ever emits events that
    /// are allowed here.
    pub fn handle(&mut self, e: AppEvent)
        requires
            old(self).wf(),
            spec_event_allowed(*old(self), e),
        ensures
            final(self).wf(),
            spec_handle_rel(*old(self), *final(self), e),
    {
        match e {
            AppEvent::Select(dir) => {
                let st = self.state;
                match st {
                    GameState::PickSource { player_id, current_source } => {
                        let sources = self.find_pickable_sources();
                        proof {
                            self.lemma_pickable_sources_props();
                        }
                        let next = match Self::scroll_sources(&sources, current_source, dir) {
                            Some(s) => s,
                            None => current_source,
                        };
                        proof {
                            let sq = self.spec_pickable_sources();
                            let i = sq.index_of(current_source);
                            assert(sq.contains(current_source));
                            assert(0 <= i < sq.len());
                            assert(sq.contains(spec_scroll_at(sq, i, dir)));
                        }
                        self.state = GameState::PickSource { player_id, current_source: next };
                    },
                    GameState::PickTileFromSource { player_id, current_source, selected_tile } => {
                        let next_tile = match current_source {
                            TileSource::Factory(factory_id) => self.factories[factory_id.0].find_adjacent_tile(
                                selected_tile,
                                dir,
                            ),
                            TileSource::CommonArea => self.common_area.find_adjacent_tile(
                                selected_tile,
                                dir,
                            ),
                        };
                        proof {
                            let d = spec_distinct_tiles(self.spec_source_tiles(current_source));
                            crate::tilecollection::lemma_distinct_tiles_props(
                                self.spec_source_tiles(current_source),
                            );
                            if d.len() != 1 {
                                let i = d.index_of(selected_tile);
                                assert(d.contains(spec_adjacent(d, selected_tile, dir)));
                            }
                        }
                        self.state = GameState::PickTileFromSource {
                            player_id,
                            current_source,
                            selected_tile: next_tile,
                        };
                    },
                    GameState::PickRowToPutTiles { player_id, source, tile, selected_row_id } => {
                        let next_row = match self.find_adjacent_selectable_row(
                            tile,
                            player_id,
                            selected_row_id,
                            dir,
                        ) {
                            Some(r) => r,
                            None => selected_row_id,
                        };
                        proof {
                            let b = self.spec_players()[player_id as int].spec_area();
                            let elig = b.spec_eligible_rows(tile, 5);
                            b.lemma_eligible_rows_props(tile, 5);
                            let i = elig.index_of(selected_row_id);
                            assert(elig.contains(selected_row_id));
                            assert(0 <= i < elig.len());
                            assert(elig.contains(spec_scroll_at(elig, i, dir)));
                        }
                        self.state = GameState::PickRowToPutTiles {
                            player_id,
                            source,
                            tile,
                            selected_row_id: next_row,
                        };
                    },
                }
            },
            AppEvent::TransitionToPickTileFromFactory { source: _, tile } => {
                let st = self.state;
                match st {
                    GameState::PickSource { player_id, current_source } => {
                        self.state = GameState::PickTileFromSource {
                            player_id,
                            current_source,
                            selected_tile: tile,
                        };
                    },
                    GameState::PickTileFromSource { .. } => {
                        proof {
                            assert(false);
                        }
                    },
                    GameState::PickRowToPutTiles { .. } => {
                        proof {
                            assert(false);
                        }
                    },
                }
            },
            AppEvent::GoBack => {
                let st = self.state;
                match st {
                    GameState::PickSource { .. } => {},
                    GameState::PickTileFromSource { player_id, current_source, .. } => {
                        self.state = GameState::PickSource { player_id, current_source };
                    },
                    GameState::PickRowToPutTiles { player_id, source, tile, .. } => {
                        self.state = GameState::PickTileFromSource {
                            player_id,
                            current_source: source,
                            selected_tile: tile,
                        };
                    },
                }
            },
            AppEvent::TransitionToPickRow { player_id, source, tile } => {
                let rows = self.players[player_id].get_buildingarea().get_rows_that_can_accept(
                    tile,
                );
                proof {
                    self.spec_players()[player_id as int].spec_area().lemma_eligible_rows_props(
                        tile,
                        5,
                    );
                }
                if rows.len() > 0 {
                    let first = rows[0];
                    self.state = GameState::PickRowToPutTiles {
                        player_id,
                        source,
                        tile,
                        selected_row_id: first,
                    };
                } else {
                    // no staging row can take the color: the whole draft is
                    // still legal and runs to the drafter's floor line
                    let ghost pre = *self;
                    match source {
                        TileSource::Factory(fid) => {
                            let m = self.factories[fid.0].count_tile(tile);
                            proof {
                                crate::common_area::lemma_after_pick_props(
                                    pre.spec_source_tiles(source),
                                    tile,
                                );
                            }
                            let remainder = match self.factories[fid.0].get_tiles() {
                                Some(v) => BuildingArea::remove_color(v, tile),
                                None => Vec::new(),
                            };
                            proof {
                                if remainder@.contains(Tile::FirstPlayer) {
                                    assert(remainder@.to_multiset().count(Tile::FirstPlayer) > 0);
                                }
                            }
                            self.common_area.add(&remainder);
                            self.factories[fid.0].clear();
                            proof {
                                assert(self.spec_factories() =~= pre.spec_factories().update(
                                    fid.0 as int,
                                    self.spec_factories()[fid.0 as int],
                                ));
                            }
                            let barea = self.players[player_id].get_buildingarea_mut();
                            barea.dump_to_floorline(&mut self.bag, tile, m, false);
                        },
                        TileSource::CommonArea => {
                            let picked = self.common_area.pick_tile(tile);
                            let barea = self.players[player_id].get_buildingarea_mut();
                            barea.dump_to_floorline(&mut self.bag, tile, picked.0, picked.1);
                        },
                    }
                    proof {
                        assert(self.spec_players() =~= pre.spec_players().update(
                            player_id as int,
                            self.spec_players()[player_id as int],
                        ));
                        assert(spec_floor_draft_rel(pre, *self, player_id as int, source, tile));
                    }
                    let ghost mid = *self;
                    proof {
                        lemma_draft_secures_advance(pre, mid, player_id as int, source, tile, None);
                    }
                    self.finish_draft(player_id);
                    proof {
                        assert(spec_floor_draft_rel(
                            *old(self),
                            mid,
                            player_id as int,
                            source,
                            tile,
                        ) && spec_next_after_draft(mid, *self, player_id as int));
                    }
                }
            },
            AppEvent::PlaceTiles { player_id, source, tile, row_id } => {
                let ghost pre = *self;
                let res = self.pick(source, tile, player_id, row_id);
                proof {
                    assert(res is Ok);
                }
                let ghost mid = *self;
                proof {
                    lemma_draft_secures_advance(
                        pre,
                        mid,
                        player_id as int,
                        source,
                        tile,
                        Some(row_id as int),
                    );
                }
                self.finish_draft(player_id);
                proof {
                    assert(spec_place_rel(
                        *old(self),
                        mid,
                        player_id as int,
                        source,
                        tile,
                        row_id as int,
                    ) && spec_next_after_draft(mid, *self, player_id as int));
                }
            },
        }
    }

    /// Translate one abstract user input into the engine event the
    /// current turn state calls for: j and k cycle the selection,
    /// confirm steps forward, back steps back. Confirming a source that
    /// offers no color (a pool holding only the marker) selects nothing.
    pub fn handle_user_input(&self, e: &UserInput) -> (r: UserEventHandled)
        requires
            self.wf(),
        ensures
            r == spec_input_translation(*self, *e),
    {
        match e {
            UserInput::Character(c) => {
                if *c == 'j' {
                    UserEventHandled::AppEvent(AppEvent::Select(Direction::Next))
                } else if *c == 'k' {
                    UserEventHandled::AppEvent(AppEvent::Select(Direction::Prev))
                } else {
                    UserEventHandled::Noop
                }
            },
            UserInput::Confirm => {
                let st = self.state;
                match st {
                    GameState::PickSource { player_id: _, current_source } => {
                        match self.find_first_tile_in_source(current_source) {
                            Some(tile) => UserEventHandled::AppEvent(
                                AppEvent::TransitionToPickTileFromFactory {
                                    source: current_source,
                                    tile,
                                },
                            ),
                            None => UserEventHandled::Noop,
                        }
                    },
                    GameState::PickTileFromSource { player_id, current_source, selected_tile } => UserEventHandled::AppEvent(
                        AppEvent::TransitionToPickRow {
                            player_id,
                            source: current_source,
                            tile: selected_tile,
                        },
                    ),
                    GameState::PickRowToPutTiles { player_id, source, tile, selected_row_id } => UserEventHandled::AppEvent(
                        AppEvent::PlaceTiles { player_id, source, tile, row_id: selected_row_id },
                    ),
                }
            },
            UserInput::Back => UserEventHandled::AppEvent(AppEvent::GoBack),
        }
    }
}

/// The engine event each user input stands for, given the turn state.
pub open spec fn spec_input_translation(g: Game, e: UserInput) -> UserEventHandled {
    match e {
        UserInput::Character(c) => {
            if c == 'j' {
                UserEventHandled::AppEvent(AppEvent::Select(Direction::Next))
            } else if c == 'k' {
                UserEventHandled::AppEvent(AppEvent::Select(Direction::Prev))
            } else {
                UserEventHandled::Noop
            }
        },
        UserInput::Confirm => match g.spec_state() {
            GameState::PickSource { player_id, current_source } => {
                match spec_first_tile(g.spec_source_tiles(current_source)) {
                    Some(tile) => UserEventHandled::AppEvent(
                        AppEvent::TransitionToPickTileFromFactory { source: current_source, tile },
                    ),
                    None => UserEventHandled::Noop,
                }
            },
            GameState::PickTileFromSource { player_id, current_source, selected_tile } => UserEventHandled::AppEvent(
                AppEvent::TransitionToPickRow {
                    player_id,
                    source: current_source,
                    tile: selected_tile,
                },
            ),
            GameState::PickRowToPutTiles { player_id, source, tile, selected_row_id } => UserEventHandled::AppEvent(
                AppEvent::PlaceTiles { player_id, source, tile, row_id: selected_row_id },
            ),
        },
        UserInput::Back => UserEventHandled::AppEvent(AppEvent::GoBack),
    }
}

/// A draft that empties the table leaves everything the round advance
/// needs: the drafted-from state has a marker holder and a full enough
/// bag.
proof fn lemma_draft_secures_advance(
    pre: Game,
    mid: Game,
    player_id: int,
    source: TileSource,
    tile: Tile,
    row: Option<int>,
)
    requires
        pre.wf(),
        0 <= player_id < pre.spec_players().len(),
        match row {
            Some(r) => spec_place_rel(pre, mid, player_id, source, tile, r) && 0 <= r < 5
                && spec_advance_ready(pre, player_id, source, tile, Some(r)),
            None => spec_floor_draft_rel(pre, mid, player_id, source, tile)
                && spec_advance_ready(pre, player_id, source, tile, None),
        },
        pre.spec_source_tiles(source).contains(tile),
    ensures
        mid.spec_pickable_sources().len() == 0 ==> (spec_someone_has_marker(mid.spec_players())
            && mid.spec_bag().spec_drawable().len() + mid.spec_bag().spec_discarded().len() >= 4
            * mid.spec_factories().len()),
{
    if mid.spec_pickable_sources().len() != 0 {
        return ;
    }
    mid.lemma_pickable_sources_props();
    // every factory of mid is empty and the common area of mid is empty
    assert forall|j: int|
        0 <= j < mid.spec_factories().len() implies (#[trigger] mid.spec_factories()[j])@ is None by {
        if mid.spec_factories()[j]@ is Some {
            let src = TileSource::Factory(FactoryId(j as usize));
            vstd::std_specs::vec::axiom_spec_len(&mid.factories);
            assert(mid.spec_pickable_sources().contains(src));
        }
    }
    if mid.spec_common()@.len() > 0 {
        assert(mid.spec_pickable_sources().contains(TileSource::CommonArea));
        assert(false);
    }
    // so the draft exhausted the sources of pre as well
    crate::common_area::lemma_after_pick_props(pre.spec_source_tiles(source), tile);
    assert(spec_sources_exhausted_after(pre, source, tile)) by {
        match source {
            TileSource::Factory(f) => {
                assert(mid.spec_common()@.to_multiset().len() == 0);
                assert(pre.spec_common()@.to_multiset().len() <= mid.spec_common()@.to_multiset().len());
                assert(pre.spec_common()@.len() == pre.spec_common()@.to_multiset().len());
                assert(spec_after_pick(pre.spec_source_tiles(source), tile).to_multiset().len()
                    <= mid.spec_common()@.to_multiset().len());
                assert(spec_after_pick(pre.spec_source_tiles(source), tile).len() == spec_after_pick(
                    pre.spec_source_tiles(source),
                    tile,
                ).to_multiset().len());
                assert forall|j: int|
                    0 <= j < pre.spec_factories().len() && j != f.0 implies (
                #[trigger] pre.spec_factories()[j])@ is None by {
                    assert(mid.spec_factories()[j] == pre.spec_factories()[j]);
                }
            },
            TileSource::CommonArea => {
                assert forall|j: int|
                    0 <= j < pre.spec_factories().len() implies (#[trigger] pre.spec_factories()[j])@ is None by {
                    assert(mid.spec_factories()[j] == pre.spec_factories()[j]);
                }
            },
        }
    }
    // the marker clause of the readiness condition now places the marker
    // on some floor line of mid
    assert(spec_marker_secured_after(pre, player_id, source, tile, row));
    let b0 = pre.spec_players()[player_id].spec_area();
    let b1 = mid.spec_players()[player_id].spec_area();
    if spec_someone_has_marker(pre.spec_players()) {
        let k = choose|k: int|
            0 <= k < pre.spec_players().len()
                && pre.spec_players()[k].spec_area().spec_floorline()@.contains(Tile::FirstPlayer);
        if k != player_id {
            assert(mid.spec_players()[k] == pre.spec_players()[k]);
            assert(spec_someone_has_marker(mid.spec_players()));
        } else {
            // the drafter's floor line only ever grows during a draft
            let ix = choose|ix: int|
                0 <= ix < b0.spec_floorline()@.len() && b0.spec_floorline()@[ix]
                    == Tile::FirstPlayer;
            assert(b1.spec_floorline()@[ix] == Tile::FirstPlayer);
            assert(b1.spec_floorline()@.contains(Tile::FirstPlayer));
            assert(spec_someone_has_marker(mid.spec_players()));
        }
    } else {
        // this draft claimed the marker from the common area with room
        // on the floor line
        assert(source is CommonArea && pre.spec_common()@.contains(Tile::FirstPlayer));
        assert(spec_floor_room_after(pre, player_id, source, tile, row));
        assert(b1.spec_floorline()@.contains(Tile::FirstPlayer)) by {
            assert(b1.spec_floorline()@[b1.spec_floorline()@.len() - 1] == Tile::FirstPlayer);
        }
        assert(spec_someone_has_marker(mid.spec_players()));
    }
    // the bag only gained tiles during the draft
    assert(mid.spec_bag().spec_drawable().len() + mid.spec_bag().spec_discarded().len() >= 4
        * mid.spec_factories().len());
}

/// The joint factory count looks only at the factories it counts.
proof fn lemma_factory_count_prefix(fs1: Seq<Factory>, fs2: Seq<Factory>, t: Tile, n: int)
    requires
        forall|j: int| 0 <= j < n ==> fs1[j] == fs2[j],
    ensures
        Game::spec_factory_tiles_count(fs1, t, n) == Game::spec_factory_tiles_count(fs2, t, n),
    decreases n,
{
    if n > 0 {
        lemma_factory_count_prefix(fs1, fs2, t, n - 1);
    }
}

/// The lowest-numbered marker holder exists among the players whenever
/// anybody holds the marker.
pub proof fn lemma_marker_holder_in_range(players: Seq<Player>, i: int)
    requires
        0 <= i <= players.len(),
        exists|k: int|
            i <= k < players.len() && players[k].spec_area().spec_floorline()@.contains(
                Tile::FirstPlayer,
            ),
    ensures
        i <= spec_marker_holder_from(players, i) < players.len(),
        players[spec_marker_holder_from(players, i)].spec_area().spec_floorline()@.contains(
            Tile::FirstPlayer,
        ),
    decreases players.len() - i,
{
    if players[i].spec_area().spec_floorline()@.contains(Tile::FirstPlayer) {
    } else {
        let k = choose|k: int|
            i <= k < players.len() && players[k].spec_area().spec_floorline()@.contains(
                Tile::FirstPlayer,
            );
        assert(k > i);
        lemma_marker_holder_in_range(players, i + 1);
    }
}

} // verus!
