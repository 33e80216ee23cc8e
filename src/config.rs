//! The settings that the first run asks for.

use vstd::prelude::*;

verus! {

/// Where the mods are, and where the mod loader is.
#[derive(Debug, Clone)]
pub struct AppConfig {
    pub mods_folder_path: String,
    pub smapi_path: String,
}

impl AppConfig {
    pub fn new(mods_folder_path: String, smapi_path: String) -> (r: AppConfig)
        ensures
            r.mods_folder_path@ == mods_folder_path@,
            r.smapi_path@ == smapi_path@,
    {
        AppConfig { mods_folder_path, smapi_path }
    }
}

} // verus!
