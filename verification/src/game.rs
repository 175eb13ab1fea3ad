pub mod mods;
pub mod paths;
pub mod xml;
