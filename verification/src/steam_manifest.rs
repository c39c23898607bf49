//! What Steam's own record of downloaded workshop items holds.
use std::collections::BTreeMap;
use vstd::prelude::*;

verus! {

/// An installed item.
#[derive(Debug)]
pub struct ManifestWorkshopItem {
    pub size: u64,
    pub time_updated: u64,
    pub manifest: String,
}

/// What is known of an item and its latest state.
#[derive(Debug)]
pub struct ManifestWorkshopItemDetails {
    pub manifest: String,
    pub time_updated: u64,
    pub time_touched: u64,
    pub bytes_downloaded: u64,
    pub bytes_to_download: u64,
    pub latest_time_updated: u64,
    pub latest_manifest: String,
}

/// The record of a game's workshop items.
#[derive(Debug)]
pub struct AppWorkshopManifest {
    pub app_id: u64,
    pub size_on_disk: u64,
    pub needs_update: bool,
    pub needs_download: bool,
    pub time_last_updated: u64,
    pub time_last_app_ran: u64,
    pub last_build_id: u64,
    pub workshop_items_installed: BTreeMap<u64, ManifestWorkshopItem>,
    pub workshop_item_details: BTreeMap<u64, ManifestWorkshopItemDetails>,
}

} // verus!
