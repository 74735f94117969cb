use pretty_nice_menus::handle::lists;
use pretty_nice_menus::{
    activate_stack_current, close_menu_on_event, remove_despawned_menus, show_menu_on_event,
    ActivateMenu, DeactivateMenu, MenuHandle, MenuStack, MenuTransition,
};

const A: MenuHandle = MenuHandle(1);
const B: MenuHandle = MenuHandle(2);
const C: MenuHandle = MenuHandle(3);

fn activate(menu: MenuHandle) -> MenuTransition {
    MenuTransition::Activate(ActivateMenu { menu })
}

fn deactivate(menu: MenuHandle) -> MenuTransition {
    MenuTransition::Deactivate(DeactivateMenu { menu })
}

#[test]
fn new_stack_is_empty_and_inactive() {
    let mut stack = MenuStack::default();
    assert_eq!(stack.entries(), vec![]);
    assert_eq!(stack.current_top(), None);
    assert!(!stack.contains(A));
    assert_eq!(activate_stack_current(&mut stack), vec![]);
    assert_eq!(stack.current_top(), None);
}

#[test]
fn push_appends_without_dedup() {
    let mut stack = MenuStack::default();
    stack.push(A);
    stack.push(B);
    stack.push(A);
    assert_eq!(stack.entries(), vec![A, B, A]);
    assert!(stack.contains(A));
    assert!(stack.contains(B));
    assert!(!stack.contains(C));
}

#[test]
fn remove_deletes_all_occurrences_and_keeps_order() {
    let mut stack = MenuStack::default();
    for menu in [A, B, A, C, A] {
        stack.push(menu);
    }
    stack.remove(A);
    assert_eq!(stack.entries(), vec![B, C]);
    assert!(!stack.contains(A));
}

#[test]
fn remove_of_absent_menu_changes_nothing() {
    let mut stack = MenuStack::default();
    stack.push(A);
    stack.push(B);
    assert_eq!(activate_stack_current(&mut stack), vec![activate(B)]);
    stack.remove(C);
    assert_eq!(stack.entries(), vec![A, B]);
    assert_eq!(stack.current_top(), Some(B));
    assert_eq!(activate_stack_current(&mut stack), vec![]);
}

#[test]
fn toggle_pushes_when_absent_and_removes_when_present() {
    let mut stack = MenuStack::default();
    stack.push(A);
    stack.toggle(B);
    assert_eq!(stack.entries(), vec![A, B]);
    stack.push(B);
    stack.toggle(B);
    assert_eq!(stack.entries(), vec![A]);
}

#[test]
fn scenario_push_push_remove_remove() {
    let mut stack = MenuStack::default();
    stack.push(A);
    assert_eq!(activate_stack_current(&mut stack), vec![activate(A)]);
    stack.push(B);
    assert_eq!(activate_stack_current(&mut stack), vec![deactivate(A), activate(B)]);
    stack.remove(B);
    assert_eq!(activate_stack_current(&mut stack), vec![deactivate(B), activate(A)]);
    assert!(stack.contains(A));
    stack.remove(A);
    assert_eq!(activate_stack_current(&mut stack), vec![deactivate(A)]);
    assert_eq!(stack.current_top(), None);
    assert_eq!(stack.entries(), vec![]);
}

#[test]
fn scenario_toggle_twice() {
    let mut stack = MenuStack::default();
    stack.toggle(A);
    assert_eq!(activate_stack_current(&mut stack), vec![activate(A)]);
    assert_eq!(stack.current_top(), Some(A));
    stack.toggle(A);
    assert_eq!(activate_stack_current(&mut stack), vec![deactivate(A)]);
    assert_eq!(stack.current_top(), None);
}

#[test]
fn pass_without_change_announces_nothing() {
    let mut stack = MenuStack::default();
    stack.push(A);
    assert_eq!(activate_stack_current(&mut stack), vec![activate(A)]);
    assert_eq!(activate_stack_current(&mut stack), vec![]);
    assert_eq!(activate_stack_current(&mut stack), vec![]);
    assert_eq!(stack.current_top(), Some(A));
}

#[test]
fn pushing_the_top_again_announces_nothing() {
    let mut stack = MenuStack::default();
    stack.push(A);
    assert_eq!(activate_stack_current(&mut stack), vec![activate(A)]);
    stack.push(A);
    assert_eq!(activate_stack_current(&mut stack), vec![]);
    stack.push(A);
    stack.push(A);
    assert_eq!(activate_stack_current(&mut stack), vec![]);
    assert_eq!(stack.current_top(), Some(A));
    assert_eq!(stack.entries(), vec![A, A, A, A]);
}

#[test]
fn several_changes_in_one_tick_give_one_deactivation_and_one_activation() {
    let mut stack = MenuStack::default();
    stack.push(A);
    assert_eq!(activate_stack_current(&mut stack), vec![activate(A)]);
    stack.push(B);
    stack.push(C);
    stack.remove(B);
    stack.toggle(B);
    assert_eq!(stack.entries(), vec![A, C, B]);
    assert_eq!(activate_stack_current(&mut stack), vec![deactivate(A), activate(B)]);
}

#[test]
fn change_that_restores_the_top_announces_nothing() {
    let mut stack = MenuStack::default();
    stack.push(A);
    assert_eq!(activate_stack_current(&mut stack), vec![activate(A)]);
    stack.push(B);
    stack.remove(B);
    assert_eq!(activate_stack_current(&mut stack), vec![]);
    assert_eq!(stack.current_top(), Some(A));
}

#[test]
fn deactivation_comes_before_activation() {
    let mut stack = MenuStack::default();
    stack.push(A);
    activate_stack_current(&mut stack);
    stack.push(B);
    let transitions = activate_stack_current(&mut stack);
    assert_eq!(transitions.len(), 2);
    assert_eq!(transitions[0], deactivate(A));
    assert_eq!(transitions[1], activate(B));
}

#[test]
fn at_most_one_menu_is_active_over_a_long_session() {
    let mut stack = MenuStack::default();
    let mut active: Option<MenuHandle> = None;
    let mut unmatched = 0usize;
    let menus = [A, B, C];
    for step in 0..60usize {
        let menu = menus[(step * 7 + step / 3) % 3];
        match step % 4 {
            0 => stack.push(menu),
            1 => stack.toggle(menu),
            2 => stack.remove(menu),
            _ => stack.push(menus[(step + 1) % 3]),
        }
        let live: Vec<MenuHandle> = if step % 5 == 4 { vec![A, C] } else { vec![A, B, C] };
        let mut log = remove_despawned_menus(&mut stack, &live);
        log.extend(activate_stack_current(&mut stack));
        for transition in log {
            match transition {
                MenuTransition::Activate(activate) => {
                    assert_eq!(active, None);
                    active = Some(activate.menu);
                    unmatched += 1;
                }
                MenuTransition::Deactivate(deactivate) => {
                    assert_eq!(active, Some(deactivate.menu));
                    active = None;
                    unmatched -= 1;
                }
            }
        }
        assert!(unmatched <= 1);
        assert_eq!(stack.current_top(), active);
        assert_eq!(stack.current_top(), stack.entries().last().copied());
    }
}

#[test]
fn despawned_top_is_deactivated_once_and_leaves_the_stack() {
    let mut stack = MenuStack::default();
    stack.push(A);
    stack.push(B);
    assert_eq!(activate_stack_current(&mut stack), vec![activate(B)]);
    let mut log = remove_despawned_menus(&mut stack, &vec![A]);
    assert_eq!(log, vec![deactivate(B)]);
    assert_eq!(stack.current_top(), None);
    assert!(!stack.contains(B));
    log.extend(activate_stack_current(&mut stack));
    assert_eq!(log, vec![deactivate(B), activate(A)]);
    assert_eq!(stack.entries(), vec![A]);
}

#[test]
fn despawned_top_that_occurs_twice_is_deactivated_once() {
    let mut stack = MenuStack::default();
    stack.push(B);
    stack.push(A);
    stack.push(B);
    assert_eq!(activate_stack_current(&mut stack), vec![activate(B)]);
    assert_eq!(remove_despawned_menus(&mut stack, &vec![A]), vec![deactivate(B)]);
    assert_eq!(stack.entries(), vec![A]);
    assert_eq!(activate_stack_current(&mut stack), vec![activate(A)]);
}

#[test]
fn despawned_top_with_changes_in_the_same_tick() {
    let mut stack = MenuStack::default();
    stack.push(A);
    assert_eq!(activate_stack_current(&mut stack), vec![activate(A)]);
    stack.push(B);
    stack.push(C);
    let mut log = remove_despawned_menus(&mut stack, &vec![B, C]);
    log.extend(activate_stack_current(&mut stack));
    assert_eq!(log, vec![deactivate(A), activate(C)]);
    assert_eq!(stack.entries(), vec![B, C]);
}

#[test]
fn despawned_top_that_was_closed_in_the_same_tick() {
    let mut stack = MenuStack::default();
    stack.push(A);
    stack.push(B);
    assert_eq!(activate_stack_current(&mut stack), vec![activate(B)]);
    stack.remove(B);
    assert_eq!(remove_despawned_menus(&mut stack, &vec![A]), vec![]);
    assert_eq!(activate_stack_current(&mut stack), vec![deactivate(B), activate(A)]);
}

#[test]
fn despawned_menu_below_the_top_is_removed_silently() {
    let mut stack = MenuStack::default();
    stack.push(A);
    stack.push(B);
    assert_eq!(activate_stack_current(&mut stack), vec![activate(B)]);
    assert_eq!(remove_despawned_menus(&mut stack, &vec![B]), vec![]);
    assert_eq!(stack.entries(), vec![B]);
    assert_eq!(stack.current_top(), Some(B));
    assert_eq!(activate_stack_current(&mut stack), vec![]);
}

#[test]
fn pruning_with_everything_alive_changes_nothing() {
    let mut stack = MenuStack::default();
    stack.push(A);
    stack.push(B);
    assert_eq!(activate_stack_current(&mut stack), vec![activate(B)]);
    assert_eq!(remove_despawned_menus(&mut stack, &vec![B, A, C]), vec![]);
    assert_eq!(stack.entries(), vec![A, B]);
    assert_eq!(activate_stack_current(&mut stack), vec![]);
}

#[test]
fn pruning_the_whole_stack_leaves_nothing_active() {
    let mut stack = MenuStack::default();
    stack.push(A);
    stack.push(B);
    assert_eq!(activate_stack_current(&mut stack), vec![activate(B)]);
    assert_eq!(remove_despawned_menus(&mut stack, &vec![]), vec![deactivate(B)]);
    assert_eq!(stack.entries(), vec![]);
    assert_eq!(activate_stack_current(&mut stack), vec![]);
    assert_eq!(stack.current_top(), None);
}

#[test]
fn event_hooks_push_and_remove_their_target() {
    let mut stack = MenuStack::default();
    show_menu_on_event(A, &mut stack);
    show_menu_on_event(B, &mut stack);
    assert_eq!(stack.entries(), vec![A, B]);
    close_menu_on_event(A, &mut stack);
    assert_eq!(stack.entries(), vec![B]);
    assert_eq!(activate_stack_current(&mut stack), vec![activate(B)]);
}

#[test]
fn lists_finds_a_handle_wherever_it_stands() {
    assert!(lists(&vec![A, B, C], A));
    assert!(lists(&vec![A, B, C], C));
    assert!(lists(&vec![B, B], B));
    assert!(!lists(&vec![A, B], C));
    assert!(!lists(&vec![], A));
}
