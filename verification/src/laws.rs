//! What holds of the stack and its synchronizers whatever the host does.

use vstd::prelude::*;
use crate::activation::{all_listed, listed_in};
use crate::handle::MenuHandle;
use crate::input::{granted, revoked, top_input};
use crate::inputs::{
    lemma_subtree_holds_every_depth, lemma_subtree_is_exact, reaches_within, MenuInputOf,
};
use crate::stack::{other_than, MenuStackView};
use crate::transition::{
    activation, activations, active_after, active_count, after, deactivation, deactivations,
    is_activation, is_deactivation, single_owner, MenuTransition,
};

verus! {

/// One thing that happens to a menu stack.
pub enum MenuCommand {
    /// A menu is put on top.
    Push(MenuHandle),
    /// A menu is taken out.
    Remove(MenuHandle),
    /// A menu is closed if it is open, and opened if not.
    Toggle(MenuHandle),
    /// The menus whose object is gone are taken out; the objects listed exist.
    RemoveDespawned(Seq<MenuHandle>),
    /// The activation synchronizer makes a pass.
    ActivateCurrent,
}

impl MenuStackView {
    /// The stack after `command`.
    pub open spec fn after_command(self, command: MenuCommand) -> MenuStackView {
        match command {
            MenuCommand::Push(menu) => self.push(menu),
            MenuCommand::Remove(menu) => self.remove(menu),
            MenuCommand::Toggle(menu) => self.toggle(menu),
            MenuCommand::RemoveDespawned(entities) => self.without_despawned(entities),
            MenuCommand::ActivateCurrent => self.settle(),
        }
    }

    /// What `command` announces.
    pub open spec fn command_log(self, command: MenuCommand) -> Seq<MenuTransition> {
        match command {
            MenuCommand::RemoveDespawned(entities) => self.despawned_log(entities),
            MenuCommand::ActivateCurrent => self.settle_log(),
            _ => Seq::empty(),
        }
    }

    /// The stack after all of `commands`, in order.
    pub open spec fn after_commands(self, commands: Seq<MenuCommand>) -> MenuStackView
        decreases commands.len(),
    {
        if commands.len() == 0 {
            self
        } else {
            self.after_commands(commands.drop_last()).after_command(commands.last())
        }
    }

    /// All that `commands` announce, in order.
    pub open spec fn commands_log(self, commands: Seq<MenuCommand>) -> Seq<MenuTransition>
        decreases commands.len(),
    {
        if commands.len() == 0 {
            Seq::empty()
        } else {
            self.commands_log(commands.drop_last()) + self.after_commands(
                commands.drop_last(),
            ).command_log(commands.last())
        }
    }
}

/// Removing a menu leaves no occurrence of it, and leaves every other menu
/// open or closed as it was.
pub proof fn lemma_remove_takes_every_occurrence(
    stack: MenuStackView,
    menu: MenuHandle,
    other: MenuHandle,
)
    ensures
        !stack.remove(menu).stack.contains(menu),
        stack.remove(menu).stack == stack.stack.filter(other_than(menu)),
        other != menu ==> (stack.remove(menu).stack.contains(other) <==> stack.stack.contains(
            other,
        )),
        stack.remove(menu).current_top == stack.current_top,
{
    lemma_filter_keeps(stack.stack, other_than(menu));
    let kept = stack.stack.filter(other_than(menu));
    if kept.contains(menu) {
        let i = choose|i: int| 0 <= i < kept.len() && kept[i] == menu;
        assert(other_than(menu)(kept[i]));
    }
    if kept.contains(other) {
        let i = choose|i: int| 0 <= i < kept.len() && kept[i] == other;
        assert(stack.stack.contains(kept[i]));
    }
    if stack.stack.contains(other) && other != menu {
        let i = choose|i: int| 0 <= i < stack.stack.len() && stack.stack[i] == other;
        assert(other_than(menu)(stack.stack[i]));
    }
}

/// A filtered sequence holds what the sequence held and the predicate
/// accepts, and is the sequence itself where the predicate accepts all of it.
pub proof fn lemma_filter_keeps(handles: Seq<MenuHandle>, keep: spec_fn(MenuHandle) -> bool)
    ensures
        forall|i: int|
            0 <= i < handles.filter(keep).len() ==> keep(#[trigger] handles.filter(keep)[i])
                && handles.contains(handles.filter(keep)[i]),
        forall|i: int|
            0 <= i < handles.len() && keep(#[trigger] handles[i]) ==> handles.filter(keep).contains(
                handles[i],
            ),
        (forall|i: int| 0 <= i < handles.len() ==> keep(#[trigger] handles[i])) ==> handles.filter(
            keep,
        ) == handles,
    decreases handles.len(),
{
    reveal(Seq::filter);
    broadcast use vstd::seq_lib::lemma_seq_contains_after_push;

    let kept = handles.filter(keep);
    if handles.len() > 0 {
        let before = handles.drop_last();
        lemma_filter_keeps(before, keep);
        assert(handles == before.push(handles.last()));
        assert forall|i: int| 0 <= i < kept.len() implies keep(#[trigger] kept[i])
            && handles.contains(kept[i]) by {
            if i < before.filter(keep).len() {
                assert(kept[i] == before.filter(keep)[i]);
                assert(before.contains(kept[i]));
            }
        }
        assert forall|i: int| 0 <= i < handles.len() && keep(#[trigger] handles[i]) implies kept.contains(
            handles[i],
        ) by {
            if i < before.len() {
                assert(before[i] == handles[i]);
                assert(before.filter(keep).contains(before[i]));
            } else {
                assert(kept[kept.len() - 1] == handles[i]);
            }
        }
        if forall|i: int| 0 <= i < handles.len() ==> keep(#[trigger] handles[i]) {
            assert forall|i: int| 0 <= i < before.len() implies keep(#[trigger] before[i]) by {
                assert(before[i] == handles[i]);
            }
            assert(keep(handles[handles.len() - 1]));
        }
    }
}

/// Two logs that each keep to one active menu do so one after the other.
pub proof fn lemma_single_owner_append(
    active: Option<MenuHandle>,
    first: Seq<MenuTransition>,
    second: Seq<MenuTransition>,
)
    requires
        single_owner(active, first),
        single_owner(active_after(active, first), second),
    ensures
        single_owner(active, first + second),
        active_after(active, first + second) == active_after(active_after(active, first), second),
    decreases first.len(),
{
    if first.len() == 0 {
        assert(first + second == second);
    } else {
        assert((first + second).drop_first() == first.drop_first() + second);
        lemma_single_owner_append(after(first.first()), first.drop_first(), second);
    }
}

/// The activations and deactivations of two logs add up.
pub proof fn lemma_counts_append(first: Seq<MenuTransition>, second: Seq<MenuTransition>)
    ensures
        activations(first + second) == activations(first) + activations(second),
        deactivations(first + second) == deactivations(first) + deactivations(second),
{
    Seq::filter_distributes_over_add(first, second, is_activation());
    Seq::filter_distributes_over_add(first, second, is_deactivation());
}

/// An empty log holds no activation and no deactivation.
pub proof fn lemma_counts_empty()
    ensures
        activations(Seq::empty()) == 0,
        deactivations(Seq::empty()) == 0,
{
    reveal(Seq::filter);
}

/// A log of one announcement holds one activation or one deactivation.
pub proof fn lemma_counts_single(transition: MenuTransition)
    ensures
        activations(seq![transition]) == if transition is Activate { 1nat } else { 0nat },
        deactivations(seq![transition]) == if transition is Deactivate { 1nat } else { 0nat },
{
    lemma_counts_empty();
    let none = Seq::<MenuTransition>::empty();
    assert(seq![transition] == none.push(transition));
    none.lemma_filter_push(transition, is_activation());
    none.lemma_filter_push(transition, is_deactivation());
}

/// Every command keeps the stack well-formed and announces only what the rule
/// of one active menu allows; the menu that is active afterwards is the one
/// that the announcements leave active.
pub proof fn lemma_command_keeps_single_owner(stack: MenuStackView, command: MenuCommand)
    requires
        stack.wf(),
    ensures
        stack.after_command(command).wf(),
        single_owner(stack.current_top, stack.command_log(command)),
        active_after(stack.current_top, stack.command_log(command)) == stack.after_command(
            command,
        ).current_top,
        active_count(stack.current_top) + activations(stack.command_log(command)) == active_count(
            stack.after_command(command).current_top,
        ) + deactivations(stack.command_log(command)),
{
    reveal_with_fuel(single_owner, 3);
    lemma_counts_empty();
    match command {
        MenuCommand::RemoveDespawned(entities) => {
            if let Some(active) = stack.current_top {
                lemma_counts_single(deactivation(active));
            }
        },
        MenuCommand::ActivateCurrent => {
            let off = stack.settle_deactivation();
            let on = stack.settle_activation();
            lemma_counts_append(off, on);
            if let Some(active) = stack.current_top {
                lemma_counts_single(deactivation(active));
            }
            if let Some(top) = stack.top() {
                lemma_counts_single(activation(top));
            }
            if stack.changed {
                lemma_single_owner_append(stack.current_top, off, on);
            }
        },
        _ => {},
    }
}

/// Whatever is done to a stack, in whatever order, no two menus are ever
/// active at once: each activation is announced while no menu is active, each
/// deactivation is that of the active menu, and after every command the
/// activations not yet matched by a deactivation are those of the active menu,
/// one at most.
pub proof fn lemma_single_owner(start: MenuStackView, commands: Seq<MenuCommand>)
    requires
        start.wf(),
    ensures
        start.after_commands(commands).wf(),
        single_owner(start.current_top, start.commands_log(commands)),
        active_after(start.current_top, start.commands_log(commands)) == start.after_commands(
            commands,
        ).current_top,
        active_count(start.current_top) + activations(start.commands_log(commands))
            == active_count(start.after_commands(commands).current_top) + deactivations(
            start.commands_log(commands),
        ),
        active_count(start.after_commands(commands).current_top) <= 1,
    decreases commands.len(),
{
    if commands.len() == 0 {
        lemma_counts_empty();
    } else {
        let before = start.after_commands(commands.drop_last());
        let log = start.commands_log(commands.drop_last());
        lemma_single_owner(start, commands.drop_last());
        lemma_command_keeps_single_owner(before, commands.last());
        lemma_single_owner_append(start.current_top, log, before.command_log(commands.last()));
        lemma_counts_append(log, before.command_log(commands.last()));
    }
}

/// Of all that was announced since a stack was made, at most one activation
/// is without a deactivation to match it, whatever was done to the stack.
pub proof fn lemma_at_most_one_unmatched_activation(commands: Seq<MenuCommand>)
    ensures
        deactivations(MenuStackView::empty().commands_log(commands)) <= activations(
            MenuStackView::empty().commands_log(commands),
        ) <= deactivations(MenuStackView::empty().commands_log(commands)) + 1,
{
    lemma_single_owner(MenuStackView::empty(), commands);
}

/// Pushing the menu that is on top and active once more announces nothing at
/// the next pass, and leaves that menu on top and active.
pub proof fn lemma_push_again_is_silent(stack: MenuStackView, menu: MenuHandle)
    requires
        stack.top() == Some(menu),
        stack.current_top == Some(menu),
    ensures
        stack.push(menu).settle_log() == Seq::<MenuTransition>::empty(),
        stack.push(menu).settle().top() == Some(menu),
        stack.push(menu).settle().current_top == Some(menu),
{
}

/// A pass announces nothing as long as the active menu is the topmost one,
/// whether or not the stack is marked as changed.
pub proof fn lemma_settled_is_silent(stack: MenuStackView)
    requires
        stack.current_top == stack.top(),
    ensures
        stack.settle_log() == Seq::<MenuTransition>::empty(),
        stack.settle().settle_log() == Seq::<MenuTransition>::empty(),
{
}

/// When the top changes from one menu to another, one pass announces the
/// deactivation of the first and then the activation of the second, and
/// nothing else.
pub proof fn lemma_deactivate_before_activate(
    stack: MenuStackView,
    old_top: MenuHandle,
    new_top: MenuHandle,
)
    requires
        stack.wf(),
        stack.current_top == Some(old_top),
        stack.top() == Some(new_top),
        old_top != new_top,
    ensures
        stack.settle_log() == seq![deactivation(old_top), activation(new_top)],
        stack.settle().current_top == Some(new_top),
{
}

/// If the object of the active menu is gone, then pruning and one pass of the
/// activation synchronizer announce the deactivation of that menu first and
/// once, then the activation of the menu that is on top afterwards, if there
/// is one, and nothing else; the stack no longer holds the menu, whatever was
/// done to the stack before.
pub proof fn lemma_despawned_top_is_deactivated_once(
    stack: MenuStackView,
    entities: Seq<MenuHandle>,
    top: MenuHandle,
)
    requires
        stack.wf(),
        stack.current_top == Some(top),
        !entities.contains(top),
    ensures
        ({
            let pruned = stack.without_despawned(entities);
            let log = stack.despawned_log(entities) + pruned.settle_log();
            &&& !pruned.stack.contains(top)
            &&& pruned.settle().stack == pruned.stack
            &&& pruned.top() != Some(top)
            &&& log == seq![deactivation(top)] + match pruned.top() {
                Some(next) => seq![activation(next)],
                None => Seq::empty(),
            }
            &&& pruned.settle().current_top == pruned.top()
            &&& single_owner(stack.current_top, log)
        }),
{
    let pruned = stack.without_despawned(entities);
    lemma_pruned_holds_listed(stack.stack, entities);
    if pruned.stack.contains(top) {
        let i = choose|i: int| 0 <= i < pruned.stack.len() && pruned.stack[i] == top;
        assert(entities.contains(pruned.stack[i]));
    }
    if pruned.stack.len() > 0 {
        assert(pruned.stack.contains(pruned.stack.last()));
    }
    if stack.stack.len() > 0 {
        assert(stack.stack.contains(stack.stack.last()));
    }
    reveal_with_fuel(single_owner, 3);
    lemma_command_keeps_single_owner(stack, MenuCommand::RemoveDespawned(entities));
    lemma_command_keeps_single_owner(pruned, MenuCommand::ActivateCurrent);
    lemma_single_owner_append(
        stack.current_top,
        stack.despawned_log(entities),
        pruned.settle_log(),
    );
}

/// After pruning, the stack holds listed menus alone, and a stack that held
/// listed menus alone is as it was.
pub proof fn lemma_pruned_holds_listed(stack: Seq<MenuHandle>, entities: Seq<MenuHandle>)
    ensures
        all_listed(stack.filter(listed_in(entities)), entities),
        all_listed(stack, entities) ==> stack.filter(listed_in(entities)) == stack,
{
    lemma_filter_keeps(stack, listed_in(entities));
}

/// The owner of the input is found by searching the stack from the top: it is
/// the menu at the highest position that takes input, and there is none
/// exactly if no open menu takes input.
pub proof fn lemma_top_input_is_topmost(stack: Seq<MenuHandle>, menus_with_inputs: Seq<MenuHandle>)
    ensures
        top_input(stack, menus_with_inputs) is None <==> (forall|i: int|
            0 <= i < stack.len() ==> !menus_with_inputs.contains(#[trigger] stack[i])),
        top_input(stack, menus_with_inputs) matches Some(owner) ==> exists|i: int|
            {
                &&& 0 <= i < stack.len()
                &&& #[trigger] stack[i] == owner
                &&& menus_with_inputs.contains(owner)
                &&& forall|j: int| i < j < stack.len() ==> !menus_with_inputs.contains(#[trigger] stack[j])
            },
    decreases stack.len(),
{
    reveal(Seq::filter);
    if stack.len() > 0 {
        let below = stack.drop_last();
        lemma_top_input_is_topmost(below, menus_with_inputs);
        if menus_with_inputs.contains(stack.last()) {
            assert(stack[stack.len() - 1] == stack.last());
        } else {
            assert(top_input(stack, menus_with_inputs) == top_input(below, menus_with_inputs));
            assert forall|i: int| 0 <= i < below.len() implies below[i] == stack[i] by {}
            if let Some(owner) = top_input(below, menus_with_inputs) {
                let i = choose|i: int|
                    {
                        &&& 0 <= i < below.len()
                        &&& #[trigger] below[i] == owner
                        &&& menus_with_inputs.contains(owner)
                        &&& forall|j: int|
                            i < j < below.len() ==> !menus_with_inputs.contains(#[trigger] below[j])
                    };
                assert(stack[i] == owner);
                assert forall|j: int| i < j < stack.len() implies !menus_with_inputs.contains(
                    #[trigger] stack[j],
                ) by {
                    if j < below.len() {
                        assert(below[j] == stack[j]);
                    }
                }
            } else {
                assert forall|i: int| 0 <= i < stack.len() implies !menus_with_inputs.contains(
                    #[trigger] stack[i],
                ) by {
                    if i < below.len() {
                        assert(below[i] == stack[i]);
                    }
                }
            }
        }
    }
}

/// One pass hands the input from at most one owner to at most one other:
/// nothing is revoked or granted where the owner stays, and else what is
/// revoked begins with the former owner and what is granted with the new one.
pub proof fn lemma_handover_has_one_owner(
    links: Seq<MenuInputOf>,
    current_input: Option<MenuHandle>,
    new_input: Option<MenuHandle>,
)
    ensures
        current_input == new_input ==> revoked(links, current_input, new_input).len() == 0
            && granted(links, current_input, new_input).len() == 0,
        current_input is None ==> revoked(links, current_input, new_input).len() == 0,
        new_input is None ==> granted(links, current_input, new_input).len() == 0,
        current_input is Some && new_input != current_input ==> revoked(
            links,
            current_input,
            new_input,
        ).len() > 0 && Some(revoked(links, current_input, new_input).first()) == current_input,
        new_input is Some && new_input != current_input ==> granted(
            links,
            current_input,
            new_input,
        ).len() > 0 && Some(granted(links, current_input, new_input).first()) == new_input,
{
    if let Some(owner) = current_input {
        lemma_subtree_is_exact(links, owner);
    }
    if let Some(owner) = new_input {
        lemma_subtree_is_exact(links, owner);
    }
}

/// Revoking the input of an owner revokes that of every descendant, however
/// many links lie between the two.
pub proof fn lemma_revoked_holds_every_descendant(
    links: Seq<MenuInputOf>,
    owner: MenuHandle,
    new_input: Option<MenuHandle>,
    handle: MenuHandle,
    steps: nat,
)
    requires
        new_input != Some(owner),
        reaches_within(links, owner, handle, steps),
    ensures
        revoked(links, Some(owner), new_input).contains(handle),
{
    lemma_subtree_holds_every_depth(links, owner, handle, steps);
}

} // verus!
