//! Handles: the identity of a menu object.

use vstd::prelude::*;

verus! {

/// Identifies one menu (or input manager) of the host for as long as the
/// object lives. Two handles name the same object exactly when their bits are
/// equal.
#[derive(Clone, Copy, Debug, PartialEq, Eq, Hash, Structural)]
pub struct MenuHandle(pub u64);

/// Whether `handles` lists `handle`.
pub fn lists(handles: &Vec<MenuHandle>, handle: MenuHandle) -> (found: bool)
    ensures
        found == handles@.contains(handle),
{
    let mut i: usize = 0;
    while i < handles.len()
        invariant
            i <= handles.len(),
            forall|j: int| 0 <= j < i ==> handles@[j] != handle,
        decreases handles.len() - i,
    {
        if handles[i] == handle {
            return true;
        }
        i += 1;
    }
    false
}

} // verus!
