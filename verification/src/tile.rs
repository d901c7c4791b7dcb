use vstd::prelude::*;

verus! {

/// A drafting tile: one of the five colors, or the first-player marker,
/// a pseudo-tile that lives in the common area until somebody drafts from
/// there and then grants its holder the first turn of the next round.
///
/// The variant order is the canonical sorting order for display purposes:
/// the marker first, then the colors alphabetically.
#[derive(Clone, Copy, PartialEq, Eq, Structural, Debug, Hash)]
pub enum Tile {
    FirstPlayer,
    Blue,
    Green,
    Red,
    White,
    Yellow,
}

/// The rank of a tile in the canonical sorting order.
pub open spec fn spec_tile_code(t: Tile) -> int {
    match t {
        Tile::FirstPlayer => 0,
        Tile::Blue => 1,
        Tile::Green => 2,
        Tile::Red => 3,
        Tile::White => 4,
        Tile::Yellow => 5,
    }
}

impl Tile {
    /// The rank of this tile in the canonical sorting order.
    pub fn code(&self) -> (c: u8)
        ensures
            c as int == spec_tile_code(*self),
    {
        match self {
            Tile::FirstPlayer => 0,
            Tile::Blue => 1,
            Tile::Green => 2,
            Tile::Red => 3,
            Tile::White => 4,
            Tile::Yellow => 5,
        }
    }

    /// The tile of a given rank, inverse of `code`.
    pub fn from_code(c: u8) -> (t: Tile)
        requires
            c <= 5,
        ensures
            spec_tile_code(t) == c as int,
    {
        match c {
            0 => Tile::FirstPlayer,
            1 => Tile::Blue,
            2 => Tile::Green,
            3 => Tile::Red,
            4 => Tile::White,
            _ => Tile::Yellow,
        }
    }

    /// A one-letter rendering of the tile, as shown on a board.
    pub fn letter(&self) -> (s: &'static str)
        ensures
            s@ == spec_tile_letter(*self),
    {
        proof {
            reveal_strlit("Y");
            reveal_strlit("R");
            reveal_strlit("B");
            reveal_strlit("G");
            reveal_strlit("W");
            reveal_strlit("1");
        }
        match self {
            Tile::Yellow => "Y",
            Tile::Red => "R",
            Tile::Blue => "B",
            Tile::Green => "G",
            Tile::White => "W",
            Tile::FirstPlayer => "1",
        }
    }
}

impl Tile {
    /// The tile a one-letter board rendering stands for, inverse of
    /// `letter`; any other character is rejected.
    pub fn from_letter(c: char) -> (r: Result<Tile, String>)
        ensures
            r == (if c == 'Y' {
                Ok::<Tile, String>(Tile::Yellow)
            } else if c == 'R' {
                Ok::<Tile, String>(Tile::Red)
            } else if c == 'B' {
                Ok::<Tile, String>(Tile::Blue)
            } else if c == 'G' {
                Ok::<Tile, String>(Tile::Green)
            } else if c == 'W' {
                Ok::<Tile, String>(Tile::White)
            } else if c == '1' {
                Ok::<Tile, String>(Tile::FirstPlayer)
            } else {
                r
            }),
            r is Err <==> !(c == 'Y' || c == 'R' || c == 'B' || c == 'G' || c == 'W' || c == '1'),
    {
        match c {
            'Y' => Ok(Tile::Yellow),
            'R' => Ok(Tile::Red),
            'B' => Ok(Tile::Blue),
            'G' => Ok(Tile::Green),
            'W' => Ok(Tile::White),
            '1' => Ok(Tile::FirstPlayer),
            _ => Err("invalid tile character".to_owned()),
        }
    }
}

pub open spec fn spec_tile_letter(t: Tile) -> Seq<char> {
    match t {
        Tile::Yellow => seq!['Y'],
        Tile::Red => seq!['R'],
        Tile::Blue => seq!['B'],
        Tile::Green => seq!['G'],
        Tile::White => seq!['W'],
        Tile::FirstPlayer => seq!['1'],
    }
}

/// A scrolling direction through a cyclic list of choices.
#[derive(Clone, Copy, PartialEq, Eq, Structural, Debug)]
pub enum Direction {
    Next,
    Prev,
}

} // verus!
