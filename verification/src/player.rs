use vstd::prelude::*;

use crate::buildingarea::BuildingArea;
use crate::patternline::PatternLine;
use crate::tile::Tile;

verus! {

/// One player: a display name and a personal board.
#[derive(Debug)]
pub struct Player {
    name: String,
    building_area: BuildingArea,
}

impl Player {
    /// The player's display name.
    pub closed spec fn spec_name(self) -> Seq<char> {
        self.name@
    }

    /// The player's board.
    pub closed spec fn spec_area(self) -> BuildingArea {
        self.building_area
    }

    pub open spec fn wf(self) -> bool {
        self.spec_area().wf()
    }

    pub fn new(name: String, building_area: BuildingArea) -> (p: Self)
        ensures
            p.spec_name() == name@,
            p.spec_area() == building_area,
    {
        Player { name, building_area }
    }

    /// A player starting with a fresh, empty board.
    pub fn default_with_name(name: String) -> (p: Self)
        ensures
            p.spec_name() == name@,
            p.wf(),
            forall|i: int|
                0 <= i < 5 ==> #[trigger] p.spec_area().spec_rows()[i] == (PatternLine::Free {
                    length: (i + 1) as usize,
                }),
            p.spec_area().spec_wall().spec_points() == 0,
            forall|i: int, j: int|
                0 <= i < 5 && 0 <= j < 5 ==> !p.spec_area().spec_wall().spec_is_filled(i, j),
            p.spec_area().spec_floorline()@ == Seq::<Tile>::empty(),
    {
        Player { name, building_area: BuildingArea::new() }
    }

    pub fn get_name(&self) -> (r: &String)
        ensures
            r@ == self.spec_name(),
    {
        &self.name
    }

    pub fn get_buildingarea(&self) -> (r: &BuildingArea)
        ensures
            *r == self.spec_area(),
    {
        &self.building_area
    }

    /// Mutable access to the board; its contracts say how each mutation
    /// keeps the board well-formed.
    pub fn get_buildingarea_mut(&mut self) -> (r: &mut BuildingArea)
        ensures
            *r == old(self).spec_area(),
            final(self).spec_area() == *final(r),
            final(self).spec_name() == old(self).spec_name(),
            *final(r) == old(self).spec_area() ==> *final(self) == *old(self),
    {
        &mut self.building_area
    }

    /// Whether this player drafted the first-player marker this round:
    /// the marker then sits on their floor line.
    pub fn has_first_player_token(&self) -> (b: bool)
        ensures
            b == self.spec_area().spec_floorline()@.contains(Tile::FirstPlayer),
    {
        self.building_area.get_floorline().has_first_player_token()
    }
}

} // verus!
