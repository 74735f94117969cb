//! What the host does to the cursor and to a menu when the menu is activated
//! or deactivated. Each function is handed the menus that carry the marker it
//! answers to, and says what has to happen, if anything.

use vstd::prelude::*;
use crate::handle::{lists, MenuHandle};
use crate::transition::{ActivateMenu, DeactivateMenu};

verus! {

/// Whether the cursor may leave the window.
#[derive(Clone, Copy, Debug, PartialEq, Eq, Structural)]
pub enum CursorGrab {
    /// The cursor moves freely.
    Free,
    /// The cursor is held inside the window.
    Confined,
}

/// The state of the cursor.
#[derive(Clone, Copy, Debug, PartialEq, Eq, Structural)]
pub struct CursorOptions {
    pub grab: CursorGrab,
    pub visible: bool,
}

/// Whether a menu is shown.
#[derive(Clone, Copy, Debug, PartialEq, Eq, Structural)]
pub enum MenuVisibility {
    Visible,
    Hidden,
}

/// The cursor of a menu that releases the mouse: free and visible.
pub open spec fn released_cursor() -> CursorOptions {
    CursorOptions { grab: CursorGrab::Free, visible: true }
}

/// The cursor of a menu that captures the mouse: confined and hidden.
pub open spec fn captured_cursor() -> CursorOptions {
    CursorOptions { grab: CursorGrab::Confined, visible: false }
}

/// On activation of a menu that releases the mouse (`menus` lists those), the
/// cursor becomes free and visible.
pub fn show_mouse(activate: &ActivateMenu, menus: &Vec<MenuHandle>) -> (cursor_options: Option<
    CursorOptions,
>)
    ensures
        cursor_options == if menus@.contains(activate.menu) {
            Some(released_cursor())
        } else {
            None
        },
{
    if lists(menus, activate.menu) {
        Some(CursorOptions { grab: CursorGrab::Free, visible: true })
    } else {
        None
    }
}

/// On activation of a menu that captures the mouse (`menus` lists those), the
/// cursor becomes confined and hidden.
pub fn hide_mouse(activate: &ActivateMenu, menus: &Vec<MenuHandle>) -> (cursor_options: Option<
    CursorOptions,
>)
    ensures
        cursor_options == if menus@.contains(activate.menu) {
            Some(captured_cursor())
        } else {
            None
        },
{
    if lists(menus, activate.menu) {
        Some(CursorOptions { grab: CursorGrab::Confined, visible: false })
    } else {
        None
    }
}

/// On activation of a menu that hides when closed (`menus` lists those), the
/// menu becomes visible.
pub fn show_menus(activate: &ActivateMenu, menus: &Vec<MenuHandle>) -> (visibility: Option<
    MenuVisibility,
>)
    ensures
        visibility == if menus@.contains(activate.menu) {
            Some(MenuVisibility::Visible)
        } else {
            None
        },
{
    if lists(menus, activate.menu) {
        Some(MenuVisibility::Visible)
    } else {
        None
    }
}

/// On deactivation of a menu that hides when closed (`menus` lists those), the
/// menu becomes hidden.
pub fn hide_menus(deactivate: &DeactivateMenu, menus: &Vec<MenuHandle>) -> (visibility: Option<
    MenuVisibility,
>)
    ensures
        visibility == if menus@.contains(deactivate.menu) {
            Some(MenuVisibility::Hidden)
        } else {
            None
        },
{
    if lists(menus, deactivate.menu) {
        Some(MenuVisibility::Hidden)
    } else {
        None
    }
}

/// On deactivation of a menu that despawns when closed (`menus` lists those),
/// the object of the menu is to be destroyed.
pub fn despawn_menus(deactivate: &DeactivateMenu, menus: &Vec<MenuHandle>) -> (despawned: Option<
    MenuHandle,
>)
    ensures
        despawned == if menus@.contains(deactivate.menu) {
            Some(deactivate.menu)
        } else {
            None
        },
{
    if lists(menus, deactivate.menu) {
        Some(deactivate.menu)
    } else {
        None
    }
}

} // verus!
