pub mod main_pane;
