//! Manages XCOM 2 mods: a library of mods, the profiles that select them, their
//! snapshots, and the Steam session that downloads them.
pub mod app;
pub mod browser;
pub mod collections;
pub mod db;
pub mod extensions;
pub mod files;
pub mod library;
pub mod loading;
pub mod markup;
pub mod metadata;
pub mod mod_edit;
pub mod no_api;
pub mod numbers;
pub mod paths;
pub mod snapshot;
pub mod steam_manifest;
pub mod steamcmd;
pub mod table;
pub mod text;
pub mod web;
pub mod xcom_mod;
