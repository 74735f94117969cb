//! Activations and deactivations, and the rule that at most one menu is
//! active at a time.

use vstd::prelude::*;
use crate::handle::MenuHandle;

verus! {

/// Announces that `menu` became the active menu.
#[derive(Clone, Copy, Debug, PartialEq, Eq, Structural)]
pub struct ActivateMenu {
    pub menu: MenuHandle,
}

/// Announces that `menu` stopped being the active menu.
#[derive(Clone, Copy, Debug, PartialEq, Eq, Structural)]
pub struct DeactivateMenu {
    pub menu: MenuHandle,
}

/// One announcement of a synchronization pass.
#[derive(Clone, Copy, Debug, PartialEq, Eq, Structural)]
pub enum MenuTransition {
    Activate(ActivateMenu),
    Deactivate(DeactivateMenu),
}

/// The announcement that `menu` was activated.
pub open spec fn activation(menu: MenuHandle) -> MenuTransition {
    MenuTransition::Activate(ActivateMenu { menu })
}

/// The announcement that `menu` was deactivated.
pub open spec fn deactivation(menu: MenuHandle) -> MenuTransition {
    MenuTransition::Deactivate(DeactivateMenu { menu })
}

/// Whether `transition` may be announced while `active` is the active menu: an
/// activation needs that no menu is active, a deactivation that its menu is
/// the active one.
pub open spec fn allowed(active: Option<MenuHandle>, transition: MenuTransition) -> bool {
    match transition {
        MenuTransition::Activate(_) => active is None,
        MenuTransition::Deactivate(deactivate) => active == Some(deactivate.menu),
    }
}

/// The active menu once `transition` was announced.
pub open spec fn after(transition: MenuTransition) -> Option<MenuHandle> {
    match transition {
        MenuTransition::Activate(activate) => Some(activate.menu),
        MenuTransition::Deactivate(_) => None,
    }
}

/// Whether `log`, announced in order while `active` is the active menu at its
/// start, never has two menus active at once and deactivates only the active
/// menu.
pub open spec fn single_owner(active: Option<MenuHandle>, log: Seq<MenuTransition>) -> bool
    decreases log.len(),
{
    if log.len() == 0 {
        true
    } else {
        allowed(active, log.first()) && single_owner(after(log.first()), log.drop_first())
    }
}

/// The active menu once all of `log` was announced, where `active` was the
/// active menu at its start.
pub open spec fn active_after(active: Option<MenuHandle>, log: Seq<MenuTransition>) -> Option<
    MenuHandle,
> {
    if log.len() == 0 {
        active
    } else {
        after(log.last())
    }
}

/// The predicate "is an activation".
pub open spec fn is_activation() -> spec_fn(MenuTransition) -> bool {
    |transition: MenuTransition| transition is Activate
}

/// The predicate "is a deactivation".
pub open spec fn is_deactivation() -> spec_fn(MenuTransition) -> bool {
    |transition: MenuTransition| transition is Deactivate
}

/// How many activations `log` holds.
pub open spec fn activations(log: Seq<MenuTransition>) -> nat {
    log.filter(is_activation()).len()
}

/// How many deactivations `log` holds.
pub open spec fn deactivations(log: Seq<MenuTransition>) -> nat {
    log.filter(is_deactivation()).len()
}

/// How many menus are active where `active` is the active menu.
pub open spec fn active_count(active: Option<MenuHandle>) -> nat {
    if active is Some {
        1
    } else {
        0
    }
}

} // verus!
