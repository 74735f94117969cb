//! The two passes that keep the active menu in step with the stack: pruning
//! menus whose object is gone, and activating the topmost menu.

use vstd::prelude::*;
use crate::handle::{lists, MenuHandle};
use crate::stack::{top_of, MenuStack, MenuStackView};
use crate::transition::{activation, deactivation, ActivateMenu, DeactivateMenu, MenuTransition};

verus! {

/// The predicate "is listed in `entities`".
pub open spec fn listed_in(entities: Seq<MenuHandle>) -> spec_fn(MenuHandle) -> bool {
    |m: MenuHandle| entities.contains(m)
}

/// Whether every menu of `stack` is listed in `entities`.
pub open spec fn all_listed(stack: Seq<MenuHandle>, entities: Seq<MenuHandle>) -> bool {
    forall|i: int| 0 <= i < stack.len() ==> entities.contains(#[trigger] stack[i])
}

impl MenuStackView {
    /// Whether the active menu is open and its object is gone, where
    /// `entities` lists the objects that exist.
    pub open spec fn active_is_gone(self, entities: Seq<MenuHandle>) -> bool {
        self.current_top matches Some(active) && self.stack.contains(active) && !entities.contains(
            active,
        )
    }

    /// The stack after the menus whose object is gone were taken out, where
    /// `entities` lists the objects that exist. An active menu that was taken
    /// out is no longer active.
    pub open spec fn without_despawned(self, entities: Seq<MenuHandle>) -> MenuStackView {
        if all_listed(self.stack, entities) {
            self
        } else {
            MenuStackView {
                stack: self.stack.filter(listed_in(entities)),
                current_top: if self.active_is_gone(entities) {
                    None
                } else {
                    self.current_top
                },
                changed: true,
                changed_for_input: true,
            }
        }
    }

    /// What is announced when the menus whose object is gone are taken out:
    /// the deactivation of the active menu, if it was among them.
    pub open spec fn despawned_log(self, entities: Seq<MenuHandle>) -> Seq<MenuTransition> {
        match self.current_top {
            Some(active) if self.active_is_gone(entities) => seq![deactivation(active)],
            _ => Seq::empty(),
        }
    }

    /// The deactivation that a pass of the activation synchronizer announces.
    pub open spec fn settle_deactivation(self) -> Seq<MenuTransition> {
        match self.current_top {
            Some(active) if self.top() != Some(active) => seq![deactivation(active)],
            _ => Seq::empty(),
        }
    }

    /// The activation that a pass of the activation synchronizer announces.
    pub open spec fn settle_activation(self) -> Seq<MenuTransition> {
        match self.top() {
            Some(top) if self.current_top != Some(top) => seq![activation(top)],
            _ => Seq::empty(),
        }
    }

    /// What a pass of the activation synchronizer announces: nothing if the
    /// stack did not change since the last pass; else the deactivation of the
    /// active menu if it is no longer the topmost one, and then the activation
    /// of the topmost menu if it is not the active one.
    pub open spec fn settle_log(self) -> Seq<MenuTransition> {
        if self.changed {
            self.settle_deactivation() + self.settle_activation()
        } else {
            Seq::empty()
        }
    }

    /// The stack after a pass of the activation synchronizer: the topmost menu
    /// is the active one, and the change is seen.
    pub open spec fn settle(self) -> MenuStackView {
        if self.changed {
            MenuStackView { current_top: self.top(), changed: false, ..self }
        } else {
            self
        }
    }
}

/// Takes every menu out of the stack whose object is gone: `entities` lists
/// the objects that exist. If the active menu is among them, its deactivation
/// is announced here and now, and no menu is active afterwards.
pub fn remove_despawned_menus(menu_stack: &mut MenuStack, entities: &Vec<MenuHandle>) -> (transitions:
    Vec<MenuTransition>)
    ensures
        final(menu_stack)@ == old(menu_stack)@.without_despawned(entities@),
        transitions@ == old(menu_stack)@.despawned_log(entities@),
{
    let mut kept: Vec<MenuHandle> = Vec::new();
    let mut any_gone = false;
    let mut active_gone = false;
    let mut i: usize = 0;
    while i < menu_stack.stack.len()
        invariant
            i <= menu_stack.stack.len(),
            kept@ == menu_stack.stack@.take(i as int).filter(listed_in(entities@)),
            any_gone <==> !all_listed(menu_stack.stack@.take(i as int), entities@),
            active_gone <==> (menu_stack.current_top matches Some(active)
                && menu_stack.stack@.take(i as int).contains(active) && !entities@.contains(active)),
        decreases menu_stack.stack.len() - i,
    {
        let menu = menu_stack.stack[i];
        proof {
            broadcast use vstd::seq_lib::lemma_seq_contains_after_push;

            let before = menu_stack.stack@.take(i as int);
            let now = menu_stack.stack@.take(i + 1);
            assert(now == before.push(menu));
            before.lemma_filter_push(menu, listed_in(entities@));
            assert(now[i as int] == menu);
            assert(forall|j: int| 0 <= j < i ==> now[j] == before[j]);
        }
        if lists(entities, menu) {
            kept.push(menu);
        } else {
            any_gone = true;
            match menu_stack.current_top {
                Some(active) => {
                    if active == menu {
                        active_gone = true;
                    }
                },
                None => {},
            }
        }
        i += 1;
    }
    assert(menu_stack.stack@.take(i as int) == menu_stack.stack@);
    let mut transitions: Vec<MenuTransition> = Vec::new();
    if any_gone {
        menu_stack.changed = true;
        menu_stack.changed_for_input = true;
        menu_stack.stack = kept;
    }
    if active_gone {
        match menu_stack.current_top {
            Some(active) => {
                transitions.push(MenuTransition::Deactivate(DeactivateMenu { menu: active }));
            },
            None => {},
        }
        menu_stack.current_top = None;
    }
    transitions
}

/// One pass of the activation synchronizer. It does nothing if the stack did
/// not change since the last pass. Else it compares the active menu with the
/// topmost one: an active menu that is no longer on top is deactivated first,
/// and only then is the topmost menu activated, so that no two menus are
/// active at once.
pub fn activate_stack_current(menu_stack: &mut MenuStack) -> (transitions: Vec<MenuTransition>)
    ensures
        final(menu_stack)@ == old(menu_stack)@.settle(),
        transitions@ == old(menu_stack)@.settle_log(),
{
    let mut transitions: Vec<MenuTransition> = Vec::new();
    if !menu_stack.changed {
        return transitions;
    }
    let len = menu_stack.stack.len();
    let new_top = if len == 0 {
        None
    } else {
        Some(menu_stack.stack[len - 1])
    };

    match menu_stack.current_top {
        Some(current_top) => {
            let stays = match new_top {
                Some(top) => top == current_top,
                None => false,
            };
            if !stays {
                transitions.push(MenuTransition::Deactivate(DeactivateMenu { menu: current_top }));
                menu_stack.current_top = None;
            }
        },
        None => {},
    }

    if menu_stack.current_top.is_none() {
        match new_top {
            Some(new_top) => {
                menu_stack.current_top = Some(new_top);
                transitions.push(MenuTransition::Activate(ActivateMenu { menu: new_top }));
            },
            None => {},
        }
    }
    menu_stack.changed = false;
    transitions
}

} // verus!
