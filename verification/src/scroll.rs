use vstd::prelude::*;

use crate::tile::Direction;

verus! {

/// The cyclic neighbour of the element at index `i` of `s`: the next or
/// previous element, wrapping around at the ends.
pub open spec fn spec_scroll_at<T>(s: Seq<T>, i: int, dir: Direction) -> T {
    match dir {
        Direction::Next => if i == s.len() - 1 {
            s[0]
        } else {
            s[i + 1]
        },
        Direction::Prev => if i == 0 {
            s[s.len() - 1]
        } else {
            s[i - 1]
        },
    }
}

/// Scroll through a duplicate-free list of row numbers, wrapping around.
pub fn scroll_rows(v: &Vec<usize>, pivot: usize, dir: Direction) -> (r: Option<usize>)
    requires
        v@.no_duplicates(),
        v@.contains(pivot),
    ensures
        r == Some(spec_scroll_at(v@, v@.index_of(pivot), dir)),
{
    let mut i: usize = 0;
    while i < v.len()
        invariant
            i <= v@.len(),
            v@.no_duplicates(),
            v@.contains(pivot),
            forall|j: int| 0 <= j < i ==> v@[j] != pivot,
        decreases v@.len() - i,
    {
        if v[i] == pivot {
            proof {
                assert(exists|j: int| 0 <= j < v@.len() && v@[j] == pivot);
                let k = v@.index_of(pivot);
                assert(0 <= k < v@.len() && v@[k] == pivot);
                assert(k == i as int);
            }
            let r = match dir {
                Direction::Next => {
                    if i == v.len() - 1 {
                        v[0]
                    } else {
                        v[i + 1]
                    }
                },
                Direction::Prev => {
                    if i == 0 {
                        v[v.len() - 1]
                    } else {
                        v[i - 1]
                    }
                },
            };
            return Some(r);
        }
        i = i + 1;
    }
    proof {
        let k = choose|k: int| 0 <= k < v@.len() && v@[k] == pivot;
        assert(false);
    }
    None
}

} // verus!
