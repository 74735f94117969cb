//! A menu stack for interactive applications.
//!
//! The stack records which menus are open, in the order they were opened. Once
//! per tick the host prunes menus whose object is gone, lets the activation
//! synchronizer turn the change of the topmost menu into at most one
//! deactivation followed by at most one activation, and lets the input
//! synchronizer hand input ownership to the topmost menu that takes input.

pub mod activation;
pub mod handle;
pub mod input;
pub mod inputs;
pub mod laws;
pub mod observers;
pub mod stack;
pub mod transition;

pub use activation::{activate_stack_current, remove_despawned_menus};
pub use handle::MenuHandle;
pub use input::{
    activate_stack_current_input, close_menu_on_action, show_menu_on_action, InputHandover,
    MenuStackInput, SingleMenuError,
};
pub use inputs::{MenuInputOf, MenuInputs};
pub use observers::{
    despawn_menus, hide_menus, hide_mouse, show_menus, show_mouse, CursorGrab, CursorOptions,
    MenuVisibility,
};
pub use stack::{close_menu_on_event, show_menu_on_event, MenuStack, MenuStackView};
pub use transition::{ActivateMenu, DeactivateMenu, MenuTransition};
