//! The mod lists of the main pane.
pub use crate::ui::components::mod_list::ModListType;
