//! Selection movement over the visible task list: the index arithmetic of
//! stepping to the next or previous entry, wrapping at both ends. The
//! rendering layer keeps the selection itself; these functions only say
//! which entry it moves to.

use vstd::prelude::*;

verus! {

/// The entry selected after stepping forward: the first entry when nothing
/// is selected yet, the next one otherwise, and the first again from the
/// last. An empty list has no selection.
pub fn next_selection(current: Option<usize>, len: usize) -> (r: Option<usize>)
    ensures
        len == 0 ==> r is None,
        len > 0 ==> (r matches Some(i) && i < len && (match current {
            None => i == 0,
            Some(c) => (c >= len - 1 ==> i == 0) && (c < len - 1 ==> i == c + 1),
        })),
{
    if len == 0 {
        None
    } else {
        match current {
            None => Some(0),
            Some(c) => if c >= len - 1 {
                Some(0)
            } else {
                Some(c + 1)
            },
        }
    }
}

/// The entry selected after stepping backward: the first entry when
/// nothing is selected yet, the previous one otherwise, and the last from
/// the first or from a selection no longer in range. An empty list has no
/// selection.
pub fn prev_selection(current: Option<usize>, len: usize) -> (r: Option<usize>)
    ensures
        len == 0 ==> r is None,
        len > 0 ==> (r matches Some(i) && i < len && (match current {
            None => i == 0,
            Some(c) => (c == 0 || c >= len ==> i == len - 1) && (0 < c < len ==> i == c - 1),
        })),
{
    if len == 0 {
        None
    } else {
        match current {
            None => Some(0),
            Some(c) => if c == 0 || c >= len {
                Some(len - 1)
            } else {
                Some(c - 1)
            },
        }
    }
}

} // verus!
