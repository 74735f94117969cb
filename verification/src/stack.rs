//! The menu stack and its operations.

use vstd::prelude::*;
use crate::handle::{lists, MenuHandle};

verus! {

/// The open menus, oldest first, together with the menu that is currently
/// active and the record of changes that the synchronizers have not seen yet.
#[derive(Debug)]
pub struct MenuStack {
    pub(crate) stack: Vec<MenuHandle>,
    pub(crate) current_top: Option<MenuHandle>,
    pub(crate) changed: bool,
    pub(crate) changed_for_input: bool,
}

/// What a [`MenuStack`] stands for.
pub struct MenuStackView {
    /// The open menus; the last one is on top. A menu may occur several times.
    pub stack: Seq<MenuHandle>,
    /// The menu that was activated and not yet deactivated.
    pub current_top: Option<MenuHandle>,
    /// The stack was changed since the activation synchronizer last ran.
    pub changed: bool,
    /// The stack was changed since the input synchronizer last ran.
    pub changed_for_input: bool,
}

/// The predicate "is not `menu`".
pub open spec fn other_than(menu: MenuHandle) -> spec_fn(MenuHandle) -> bool {
    |m: MenuHandle| m != menu
}

/// The last element of `stack`, if there is one.
pub open spec fn top_of(stack: Seq<MenuHandle>) -> Option<MenuHandle> {
    if stack.len() == 0 {
        None
    } else {
        Some(stack.last())
    }
}

impl MenuStackView {
    /// The empty stack, with nothing active and nothing to synchronize.
    pub open spec fn empty() -> MenuStackView {
        MenuStackView {
            stack: Seq::empty(),
            current_top: None,
            changed: false,
            changed_for_input: false,
        }
    }

    /// The topmost menu.
    pub open spec fn top(self) -> Option<MenuHandle> {
        top_of(self.stack)
    }

    /// As long as no change is waiting for the activation synchronizer, the
    /// active menu is the topmost one.
    pub open spec fn wf(self) -> bool {
        !self.changed ==> self.current_top == self.top()
    }

    /// The stack with `stack` as its menus, marked as changed.
    pub open spec fn with_stack(self, stack: Seq<MenuHandle>) -> MenuStackView {
        MenuStackView { stack, changed: true, changed_for_input: true, ..self }
    }

    /// The stack after `menu` was put on top.
    pub open spec fn push(self, menu: MenuHandle) -> MenuStackView {
        self.with_stack(self.stack.push(menu))
    }

    /// The stack after every occurrence of `menu` was taken out. A stack
    /// without `menu` stays as it is.
    pub open spec fn remove(self, menu: MenuHandle) -> MenuStackView {
        if self.stack.contains(menu) {
            self.with_stack(self.stack.filter(other_than(menu)))
        } else {
            self
        }
    }

    /// The stack after `menu` was closed if it was open, and opened if not.
    pub open spec fn toggle(self, menu: MenuHandle) -> MenuStackView {
        if self.stack.contains(menu) {
            self.remove(menu)
        } else {
            self.push(menu)
        }
    }
}

impl View for MenuStack {
    type V = MenuStackView;

    open(crate) spec fn view(&self) -> MenuStackView {
        MenuStackView {
            stack: self.stack@,
            current_top: self.current_top,
            changed: self.changed,
            changed_for_input: self.changed_for_input,
        }
    }
}

impl Default for MenuStack {
    /// The empty stack.
    fn default() -> (menu_stack: MenuStack)
        ensures
            menu_stack@ == MenuStackView::empty(),
    {
        MenuStack { stack: Vec::new(), current_top: None, changed: false, changed_for_input: false }
    }
}

impl MenuStack {
    /// Puts `menu` on top. A menu that is already open is put on top once more.
    pub fn push(&mut self, menu: MenuHandle)
        ensures
            final(self)@ == old(self)@.push(menu),
    {
        self.changed = true;
        self.changed_for_input = true;
        self.stack.push(menu);
    }

    /// Takes every occurrence of `menu` out; the other menus keep their
    /// order. Does nothing if `menu` is not open.
    pub fn remove(&mut self, menu: MenuHandle)
        ensures
            final(self)@ == old(self)@.remove(menu),
    {
        let mut kept: Vec<MenuHandle> = Vec::new();
        let mut found = false;
        let mut i: usize = 0;
        while i < self.stack.len()
            invariant
                i <= self.stack.len(),
                kept@ == self.stack@.take(i as int).filter(other_than(menu)),
                found <==> self.stack@.take(i as int).contains(menu),
            decreases self.stack.len() - i,
        {
            let m = self.stack[i];
            proof {
                broadcast use vstd::seq_lib::lemma_seq_contains_after_push;

                let before = self.stack@.take(i as int);
                assert(self.stack@.take(i + 1) == before.push(m));
                before.lemma_filter_push(m, other_than(menu));
            }
            if m == menu {
                found = true;
            } else {
                kept.push(m);
            }
            i += 1;
        }
        assert(self.stack@.take(i as int) == self.stack@);
        if found {
            self.changed = true;
            self.changed_for_input = true;
            self.stack = kept;
        }
    }

    /// Whether `menu` is open.
    pub fn contains(&self, menu: MenuHandle) -> (open: bool)
        ensures
            open == self@.stack.contains(menu),
    {
        lists(&self.stack, menu)
    }

    /// The open menus, oldest first.
    pub fn entries(&self) -> (entries: Vec<MenuHandle>)
        ensures
            entries@ == self@.stack,
    {
        let mut entries: Vec<MenuHandle> = Vec::new();
        let mut i: usize = 0;
        while i < self.stack.len()
            invariant
                i <= self.stack.len(),
                entries@ == self.stack@.take(i as int),
            decreases self.stack.len() - i,
        {
            entries.push(self.stack[i]);
            i += 1;
            assert(self.stack@.take(i as int) == self.stack@.take(i - 1).push(self.stack@[i - 1]));
        }
        assert(self.stack@.take(i as int) == self.stack@);
        entries
    }

    /// The menu that was activated and not yet deactivated.
    pub fn current_top(&self) -> (current_top: Option<MenuHandle>)
        ensures
            current_top == self@.current_top,
    {
        self.current_top
    }

    /// Closes `menu` if it is open, and opens it if it is not.
    pub fn toggle(&mut self, menu: MenuHandle)
        ensures
            final(self)@ == old(self)@.toggle(menu),
    {
        if self.contains(menu) {
            self.remove(menu);
        } else {
            self.push(menu);
        }
    }
}

/// Opens the menu that `input`, an event of the host, is aimed at.
pub fn show_menu_on_event(input: MenuHandle, menu_stack: &mut MenuStack)
    ensures
        final(menu_stack)@ == old(menu_stack)@.push(input),
{
    menu_stack.push(input);
}

/// Closes the menu that `input`, an event of the host, is aimed at.
pub fn close_menu_on_event(input: MenuHandle, menu_stack: &mut MenuStack)
    ensures
        final(menu_stack)@ == old(menu_stack)@.remove(input),
{
    menu_stack.remove(input);
}

} // verus!
