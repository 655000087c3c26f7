use vstd::arithmetic::div_mod::lemma_fundamental_div_mod_converse;
use vstd::prelude::*;

verus! {

/// A step through the album.
#[derive(Clone, Copy, Debug, PartialEq, Eq, Structural)]
pub enum Direction {
    Next,
    Previous,
}

/// The signed step that `dir` moves by.
pub open spec fn delta_of(dir: Direction) -> int {
    match dir {
        Direction::Next => 1,
        Direction::Previous => -1,
    }
}

/// The index reached from `index` by one step in direction `dir` in an album
/// of `len` entries, wrapping around at both ends (floored modulo).
pub open spec fn spec_step_index(index: int, len: int, dir: Direction) -> int {
    (index + delta_of(dir)) % len
}

/// The first position of `current` in `album`, if it occurs there.
pub open spec fn first_index_of(album: Seq<Seq<char>>, current: Seq<char>, idx: int) -> bool {
    &&& 0 <= idx < album.len()
    &&& album[idx] == current
    &&& forall|j: int| 0 <= j < idx ==> album[j] != current
}

/// One step from `index` in an album of `len` entries, wrapping around:
/// `Next` from the last entry reaches the first, `Previous` from the first
/// reaches the last.
pub fn step_index(index: usize, len: usize, dir: Direction) -> (r: usize)
    requires
        index < len,
    ensures
        r == spec_step_index(index as int, len as int, dir),
        r < len,
{
    match dir {
        Direction::Next => {
            if index + 1 == len {
                proof {
                    lemma_fundamental_div_mod_converse(index + 1, len as int, 1, 0);
                }
                0
            } else {
                proof {
                    lemma_fundamental_div_mod_converse(index + 1, len as int, 0, index + 1);
                }
                index + 1
            }
        },
        Direction::Previous => {
            if index == 0 {
                proof {
                    lemma_fundamental_div_mod_converse(-1, len as int, -1, len - 1);
                }
                len - 1
            } else {
                proof {
                    lemma_fundamental_div_mod_converse(index - 1, len as int, 0, index - 1);
                }
                index - 1
            }
        },
    }
}

/// The first position of `current` in `album`, or `None` when it is absent.
pub fn position_of(album: &Vec<String>, current: &String) -> (r: Option<usize>)
    ensures
        r is None <==> forall|j: int| 0 <= j < album@.len() ==> album@[j]@ != current@,
        r matches Some(i) ==> first_index_of(album@.map_values(|p: String| p@), current@, i as int),
{
    let mut i: usize = 0;
    while i < album.len()
        invariant
            i <= album@.len(),
            forall|j: int| 0 <= j < i ==> album@[j]@ != current@,
        decreases album@.len() - i,
    {
        if album[i] == *current {
            return Some(i);
        }
        i = i + 1;
    }
    None
}

/// The album index that navigating from `current` in direction `dir` leads
/// to, or `None` when `current` is not in the album.
pub fn navigate_index(album: &Vec<String>, current: &String, dir: Direction) -> (r: Option<usize>)
    ensures
        r is None <==> forall|j: int| 0 <= j < album@.len() ==> album@[j]@ != current@,
        r matches Some(t) ==> exists|i: int|
            first_index_of(album@.map_values(|p: String| p@), current@, i) && t == spec_step_index(
                i,
                album@.len() as int,
                dir,
            ),
{
    match position_of(album, current) {
        None => None,
        Some(i) => {
            let t = step_index(i, album.len(), dir);
            Some(t)
        },
    }
}

/// The path that navigating from `current` in direction `dir` leads to, or
/// `None` when `current` is not in the album.
pub fn navigate(album: &Vec<String>, current: &String, dir: Direction) -> (r: Option<String>)
    ensures
        r is None <==> forall|j: int| 0 <= j < album@.len() ==> album@[j]@ != current@,
        r matches Some(p) ==> exists|i: int|
            first_index_of(album@.map_values(|p: String| p@), current@, i) && p@ == album@[spec_step_index(
                i,
                album@.len() as int,
                dir,
            )]@,
{
    match navigate_index(album, current, dir) {
        None => None,
        Some(t) => Some(album[t].clone()),
    }
}

/// Stepping wraps around the album's ends: `Next` from the last index gives
/// the first, and `Previous` from the first gives the last.
pub proof fn lemma_step_wraps_around(len: int)
    requires
        len > 0,
    ensures
        spec_step_index(len - 1, len, Direction::Next) == 0,
        spec_step_index(0, len, Direction::Previous) == len - 1,
{
    lemma_fundamental_div_mod_converse(len, len, 1, 0);
    lemma_fundamental_div_mod_converse(-1, len, -1, len - 1);
}

} // verus!
