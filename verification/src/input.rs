//! Input ownership: the topmost open menu that takes input owns the input,
//! together with the whole subtree of input managers below it.

use vstd::prelude::*;
use crate::activation::listed_in;
use crate::handle::{lists, MenuHandle};
use crate::inputs::{subtree, MenuInputOf, MenuInputs};
use crate::stack::{top_of, MenuStack, MenuStackView};

verus! {

/// The menu that owns the input at present, if any: the one to which
/// ownership was granted and from which it was not revoked since.
#[derive(Debug)]
pub struct MenuStackInput {
    current_input: Option<MenuHandle>,
}

impl View for MenuStackInput {
    type V = Option<MenuHandle>;

    closed spec fn view(&self) -> Option<MenuHandle> {
        self.current_input
    }
}

impl Default for MenuStackInput {
    /// No menu owns the input.
    fn default() -> (menu_stack_input: MenuStackInput)
        ensures
            menu_stack_input@ is None,
    {
        MenuStackInput { current_input: None }
    }
}

impl MenuStackInput {
    /// The menu that owns the input.
    pub fn current_input(&self) -> (current_input: Option<MenuHandle>)
        ensures
            current_input == self@,
    {
        self.current_input
    }
}

/// What one pass of the input synchronizer asks of the host.
#[derive(Debug)]
pub struct InputHandover {
    /// The handles whose input must be disabled, in this order: the former
    /// owner and all its descendants.
    pub revoked: Vec<MenuHandle>,
    /// The handles whose input must be enabled, in this order: the new owner
    /// and all its descendants.
    pub granted: Vec<MenuHandle>,
}

/// Why there is no one menu to open.
#[derive(Clone, Copy, Debug, PartialEq, Eq, Structural)]
pub enum SingleMenuError {
    /// No menu was found.
    NotFound,
    /// More than one menu was found.
    Ambiguous,
}

/// The topmost menu of `stack` that takes input, where `menus_with_inputs`
/// lists the menus that do.
pub open spec fn top_input(stack: Seq<MenuHandle>, menus_with_inputs: Seq<MenuHandle>) -> Option<
    MenuHandle,
> {
    top_of(stack.filter(listed_in(menus_with_inputs)))
}

/// The handles that lose their input when ownership passes from
/// `current_input` to `new_input`.
pub open spec fn revoked(
    links: Seq<MenuInputOf>,
    current_input: Option<MenuHandle>,
    new_input: Option<MenuHandle>,
) -> Seq<MenuHandle> {
    match current_input {
        Some(owner) if new_input != Some(owner) => subtree(links, owner),
        _ => Seq::empty(),
    }
}

/// The handles that gain their input when ownership passes from
/// `current_input` to `new_input`.
pub open spec fn granted(
    links: Seq<MenuInputOf>,
    current_input: Option<MenuHandle>,
    new_input: Option<MenuHandle>,
) -> Seq<MenuHandle> {
    match new_input {
        Some(owner) if current_input != Some(owner) => subtree(links, owner),
        _ => Seq::empty(),
    }
}

impl MenuStackView {
    /// The stack once the input synchronizer has seen its changes.
    pub open spec fn seen_by_input(self) -> MenuStackView {
        MenuStackView { changed_for_input: false, ..self }
    }
}

impl MenuStack {
    /// The topmost open menu that takes input, where `menus_with_inputs` lists
    /// the menus that do: the stack is searched from the top down, and menus
    /// that take no input are passed over.
    pub fn top_input(&self, menus_with_inputs: &Vec<MenuHandle>) -> (found: Option<MenuHandle>)
        ensures
            found == top_input(self@.stack, menus_with_inputs@),
    {
        let ghost takes_input = listed_in(menus_with_inputs@);
        let mut i: usize = self.stack.len();
        assert(self.stack@.take(i as int) == self.stack@);
        while i > 0
            invariant
                i <= self.stack.len(),
                takes_input == listed_in(menus_with_inputs@),
                top_of(self.stack@.filter(takes_input)) == top_of(
                    self.stack@.take(i as int).filter(takes_input),
                ),
            decreases i,
        {
            i -= 1;
            let menu = self.stack[i];
            proof {
                let below = self.stack@.take(i as int);
                assert(self.stack@.take(i + 1) == below.push(menu));
                below.lemma_filter_push(menu, takes_input);
            }
            if lists(menus_with_inputs, menu) {
                return Some(menu);
            }
        }
        proof {
            reveal(Seq::filter);
            assert(self.stack@.take(0).len() == 0);
        }
        None
    }
}

/// One pass of the input synchronizer. It does nothing if the stack did not
/// change since the last pass. Else it looks for the topmost open menu that
/// takes input (`menus_with_inputs` lists the menus that do). If that is not
/// the present owner, input is revoked from the present owner and its whole
/// subtree in `menu_inputs` first, and then granted to the new owner and its
/// whole subtree.
pub fn activate_stack_current_input(
    menu_stack: &mut MenuStack,
    menu_stack_input: &mut MenuStackInput,
    menus_with_inputs: &Vec<MenuHandle>,
    menu_inputs: &MenuInputs,
) -> (handover: InputHandover)
    ensures
        final(menu_stack)@ == old(menu_stack)@.seen_by_input(),
        !old(menu_stack)@.changed_for_input ==> {
            &&& final(menu_stack_input)@ == old(menu_stack_input)@
            &&& handover.revoked@ == Seq::<MenuHandle>::empty()
            &&& handover.granted@ == Seq::<MenuHandle>::empty()
        },
        old(menu_stack)@.changed_for_input ==> {
            let new_input = top_input(old(menu_stack)@.stack, menus_with_inputs@);
            &&& final(menu_stack_input)@ == new_input
            &&& handover.revoked@ == revoked(menu_inputs@, old(menu_stack_input)@, new_input)
            &&& handover.granted@ == granted(menu_inputs@, old(menu_stack_input)@, new_input)
        },
{
    let mut handover = InputHandover { revoked: Vec::new(), granted: Vec::new() };
    if !menu_stack.changed_for_input {
        return handover;
    }
    menu_stack.changed_for_input = false;

    let new_top_input = menu_stack.top_input(menus_with_inputs);

    match menu_stack_input.current_input {
        Some(current_input) => {
            let stays = match new_top_input {
                Some(top) => top == current_input,
                None => false,
            };
            if !stays {
                handover.revoked = menu_inputs.subtree(current_input);
                menu_stack_input.current_input = None;
            }
        },
        None => {},
    }

    if menu_stack_input.current_input.is_none() {
        match new_top_input {
            Some(new_top_input) => {
                handover.granted = menu_inputs.subtree(new_top_input);
                menu_stack_input.current_input = Some(new_top_input);
            },
            None => {},
        }
    }
    handover
}

/// Opens the one menu that `menus` lists. With no menu or several, nothing is
/// opened and the error says which of the two it was.
pub fn show_menu_on_action(menus: &Vec<MenuHandle>, menu_stack: &mut MenuStack) -> (result: Result<
    (),
    SingleMenuError,
>)
    ensures
        menus@.len() == 1 ==> result is Ok && final(menu_stack)@ == old(menu_stack)@.push(menus@[0]),
        menus@.len() == 0 ==> result == Err::<(), SingleMenuError>(SingleMenuError::NotFound),
        menus@.len() > 1 ==> result == Err::<(), SingleMenuError>(SingleMenuError::Ambiguous),
        menus@.len() != 1 ==> final(menu_stack)@ == old(menu_stack)@,
{
    if menus.len() == 0 {
        Err(SingleMenuError::NotFound)
    } else if menus.len() > 1 {
        Err(SingleMenuError::Ambiguous)
    } else {
        menu_stack.push(menus[0]);
        Ok(())
    }
}

/// Closes the menu whose input manager `input` reported the action.
pub fn close_menu_on_action(input: MenuHandle, menu_stack: &mut MenuStack)
    ensures
        final(menu_stack)@ == old(menu_stack)@.remove(input),
{
    menu_stack.remove(input);
}

} // verus!
