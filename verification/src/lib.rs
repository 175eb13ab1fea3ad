pub mod collections;
pub mod db;
pub mod game;
pub mod icon;
pub mod project;
pub mod settings;
pub mod text;
pub mod ui;
pub mod workspace;
