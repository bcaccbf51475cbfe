//! Display configuration: the verified core.
pub mod apply;
pub mod backend;
pub mod bignat;
pub mod by_name;
mod command;
pub mod decimal;
pub mod errors;
pub mod float;
pub mod float_spec;
pub mod gnome;
pub mod kde;
pub mod kelvin;
pub mod models;
pub mod program;
pub mod search;
pub mod shortest;
pub mod sorting;
pub mod text;
pub mod text_spec;
pub mod transforms;
pub mod trial;
pub mod tui;
pub mod wlr_randr;
pub mod wlroots;
pub mod x11;
pub mod xrandr;
