use vstd::prelude::*;

use crate::tile::Tile;

verus! {

/// One staging row of a player's board: either still free, or taken by a
/// single color with `taken` of its `length` cells filled.
#[derive(Clone, Copy, PartialEq, Eq, Structural, Debug)]
pub enum PatternLine {
    Free { length: usize },
    Taken { tile: Tile, length: usize, taken: usize },
}

/// What a successful draft does to a staging row: the row takes what
/// fits of `m` tiles of color `t` and the rest overflows. Returns the
/// new row and the overflow.
pub open spec fn spec_accept_result(pl: PatternLine, t: Tile, m: int) -> (PatternLine, int) {
    let cap = pl.spec_length();
    let already = pl.spec_taken();
    let can_take = if cap - already < m {
        cap - already
    } else {
        m
    };
    (
        PatternLine::Taken { tile: t, length: cap as usize, taken: (already + can_take) as usize },
        m - can_take,
    )
}

impl PatternLine {
    /// A taken row never holds more tiles than its length.
    pub open spec fn wf(self) -> bool {
        match self {
            PatternLine::Free { .. } => true,
            PatternLine::Taken { length, taken, .. } => taken <= length,
        }
    }

    /// The capacity of the row.
    pub open spec fn spec_length(self) -> int {
        match self {
            PatternLine::Free { length } => length as int,
            PatternLine::Taken { length, .. } => length as int,
        }
    }

    /// How many tiles the row currently holds.
    pub open spec fn spec_taken(self) -> int {
        match self {
            PatternLine::Free { .. } => 0,
            PatternLine::Taken { taken, .. } => taken as int,
        }
    }

    /// Whether the row may take at least one more tile of color `what`.
    pub open spec fn spec_can_accept(self, what: Tile) -> bool {
        match self {
            PatternLine::Free { .. } => true,
            PatternLine::Taken { tile, length, taken } => tile == what && taken < length,
        }
    }

    /// Whether every cell of the row is filled.
    pub open spec fn spec_is_full(self) -> bool {
        self is Taken && self.spec_taken() == self.spec_length()
    }

    pub fn new_free(length: usize) -> (r: Self)
        ensures
            r == (PatternLine::Free { length }),
            r.wf(),
    {
        Self::Free { length }
    }

    pub fn new_taken(tile: Tile, length: usize, taken: usize) -> (r: Self)
        requires
            taken <= length,
        ensures
            r == (PatternLine::Taken { tile, length, taken }),
            r.wf(),
    {
        Self::Taken { tile, length, taken }
    }

    pub fn can_accept(&self, what: Tile) -> (b: bool)
        ensures
            b == self.spec_can_accept(what),
    {
        match self {
            PatternLine::Free { .. } => true,
            PatternLine::Taken { tile, length, taken } => {
                if *tile != what {
                    false
                } else {
                    *length > *taken
                }
            },
        }
    }

    /// Put `how_many` tiles of color `what` on the row. The row takes what
    /// fits and returns the overflow, which is destined for the floor line;
    /// a row already taken by another color rejects the whole draft
    /// unchanged.
    pub fn accept(&mut self, what: Tile, how_many: usize) -> (r: Result<usize, String>)
        requires
            old(self).wf(),
        ensures
            final(self).wf(),
            r is Err <==> (match *old(self) {
                PatternLine::Taken { tile, .. } => tile != what,
                PatternLine::Free { .. } => false,
            }),
            r is Err ==> *final(self) == *old(self),
            r is Ok ==> ({
                let ar = spec_accept_result(*old(self), what, how_many as int);
                &&& *final(self) == ar.0
                &&& r == Ok::<usize, String>(ar.1 as usize)
            }),
    {
        match *self {
            PatternLine::Free { length } => {
                let can_take = if length < how_many {
                    length
                } else {
                    how_many
                };
                let remainder = how_many - can_take;
                *self = PatternLine::Taken { tile: what, length, taken: can_take };
                Ok(remainder)
            },
            PatternLine::Taken { tile, length, taken } => {
                if tile == what {
                    let room = length - taken;
                    let can_take = if room < how_many {
                        room
                    } else {
                        how_many
                    };
                    *self = PatternLine::Taken { tile, length, taken: taken + can_take };
                    Ok(how_many - can_take)
                } else {
                    Err("this row is taken by another color".to_owned())
                }
            },
        }
    }

    /// Empty a row back to free and hand out the color it held.
    pub fn flush(&mut self) -> (t: Tile)
        requires
            *old(self) is Taken,
        ensures
            *final(self) == (PatternLine::Free { length: old(self).spec_length() as usize }),
            t == old(self)->Taken_tile,
    {
        match *self {
            PatternLine::Taken { tile, length, .. } => {
                *self = PatternLine::Free { length };
                tile
            },
            PatternLine::Free { length } => {
                // unreachable under the precondition
                *self = PatternLine::Free { length };
                Tile::FirstPlayer
            },
        }
    }

    pub fn length(&self) -> (n: usize)
        ensures
            n as int == self.spec_length(),
    {
        match *self {
            PatternLine::Free { length } => length,
            PatternLine::Taken { length, .. } => length,
        }
    }

    pub fn is_full(&self) -> (b: bool)
        ensures
            b == self.spec_is_full(),
    {
        match *self {
            PatternLine::Free { .. } => false,
            PatternLine::Taken { length, taken, .. } => length == taken,
        }
    }
}

} // verus!
