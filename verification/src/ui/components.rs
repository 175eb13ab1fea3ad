pub mod button;
pub mod icon;
pub mod mod_list;
