use pretty_nice_menus::{
    despawn_menus, hide_menus, hide_mouse, show_menus, show_mouse, ActivateMenu, CursorGrab,
    CursorOptions, DeactivateMenu, MenuHandle, MenuVisibility,
};

const A: MenuHandle = MenuHandle(1);
const B: MenuHandle = MenuHandle(2);

#[test]
fn menu_that_releases_the_mouse_frees_and_shows_the_cursor() {
    let activate = ActivateMenu { menu: A };
    assert_eq!(
        show_mouse(&activate, &vec![B, A]),
        Some(CursorOptions { grab: CursorGrab::Free, visible: true })
    );
    assert_eq!(show_mouse(&activate, &vec![B]), None);
    assert_eq!(show_mouse(&activate, &vec![]), None);
}

#[test]
fn menu_that_captures_the_mouse_confines_and_hides_the_cursor() {
    let activate = ActivateMenu { menu: A };
    assert_eq!(
        hide_mouse(&activate, &vec![A]),
        Some(CursorOptions { grab: CursorGrab::Confined, visible: false })
    );
    assert_eq!(hide_mouse(&activate, &vec![B]), None);
}

#[test]
fn menu_that_hides_when_closed_is_shown_on_activation() {
    let activate = ActivateMenu { menu: A };
    assert_eq!(show_menus(&activate, &vec![A, B]), Some(MenuVisibility::Visible));
    assert_eq!(show_menus(&activate, &vec![B]), None);
}

#[test]
fn menu_that_hides_when_closed_is_hidden_on_deactivation() {
    let deactivate = DeactivateMenu { menu: A };
    assert_eq!(hide_menus(&deactivate, &vec![A]), Some(MenuVisibility::Hidden));
    assert_eq!(hide_menus(&deactivate, &vec![B]), None);
}

#[test]
fn menu_that_despawns_when_closed_is_destroyed_on_deactivation() {
    let deactivate = DeactivateMenu { menu: B };
    assert_eq!(despawn_menus(&deactivate, &vec![A, B]), Some(B));
    assert_eq!(despawn_menus(&deactivate, &vec![A]), None);
}
