//! The state of the program and what happens to it.
pub mod downloads;
pub mod laws;
pub mod modal;
pub mod outcomes;
pub mod settings;
pub mod shown;
pub mod state;
pub mod on_modal;
pub mod on_browse;
pub mod on_login;
pub mod on_download;
pub mod on_import;
pub mod on_library;
pub mod on_profile;
pub mod on_load;
pub mod on_log;
pub mod on_collections;
pub mod on_settings;
pub mod update;
pub mod trim;
pub mod scan;
pub mod accept;
pub mod ended;
pub mod boot;
pub mod pages;
