//! The state and the rules of a terminal multiplexer: panes that show the output of programs, a
//! layout tree that divides the screen among them, the keys that rearrange it, and the commands
//! that draw it. Pseudo-terminals and the outer terminal stay outside: the library says what is
//! to be done with them.
pub mod action;
pub mod command_laws;
pub mod event;
pub mod focus;
pub mod geometry;
pub mod grid_laws;
pub mod keys;
pub mod layout;
pub mod layout_laws;
pub mod model;
pub mod model_laws;
pub mod model_lemmas;
pub mod paint;
pub mod paint_laws;
pub mod pane;
pub mod pane_laws;
pub mod ratio;
pub mod screen_laws;
pub mod state;
pub mod text;
pub mod turn;
pub mod vt;
