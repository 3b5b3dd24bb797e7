//! Moving through lists.

use vstd::prelude::*;

verus! {

/// The item behind the selected one, the first behind the last.
pub open spec fn next_of(selected: Option<usize>, len: nat) -> usize {
    match selected {
        Some(i) => if i + 1 >= len {
            0
        } else {
            (i + 1) as usize
        },
        None => 0,
    }
}

/// The item before the selected one, the last before the first.
pub open spec fn previous_of(selected: Option<usize>, len: nat) -> usize {
    match selected {
        Some(i) => if i == 0 {
            (len - 1) as usize
        } else {
            (i - 1) as usize
        },
        None => 0,
    }
}

/// The item behind the selected one, the first behind the last.
pub fn next_index(selected: Option<usize>, len: usize) -> (r: usize)
    requires
        len > 0,
    ensures
        r == next_of(selected, len as nat),
{
    match selected {
        Some(i) => if i >= len - 1 {
            0
        } else {
            i + 1
        },
        None => 0,
    }
}

/// The item before the selected one, the last before the first.
pub fn previous_index(selected: Option<usize>, len: usize) -> (r: usize)
    requires
        len > 0,
    ensures
        r == previous_of(selected, len as nat),
{
    match selected {
        Some(i) => if i == 0 {
            len - 1
        } else {
            i - 1
        },
        None => 0,
    }
}

/// Going forth and back, or back and forth, comes to the same item.
pub proof fn law_back_and_forth(i: usize, len: nat)
    requires
        i < len <= usize::MAX,
    ensures
        previous_of(Some(next_of(Some(i), len)), len) == i,
        next_of(Some(previous_of(Some(i), len)), len) == i,
        next_of(Some(i), len) < len,
        previous_of(Some(i), len) < len,
{
}

} // verus!
