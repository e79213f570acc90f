//! Core of an interactive application launcher: descriptor parsing,
//! a deduplicating application registry, fuzzy suggestion ranking and
//! layout, and the keystroke state machine that drives the query line.

pub mod applications;
pub mod arguments;
pub mod entry;
pub mod input;
pub mod launch;
pub mod progress;
pub mod screen;
pub mod suggestions;
pub mod text;

pub use applications::App;
pub use arguments::{get_args, Args};
pub use input::Action;
pub use screen::Window;
pub use text::remove_quotes;
