pub mod mod_list;
