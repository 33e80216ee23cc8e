//! The records shared by the scanner, the store and the orchestrator.

use vstd::prelude::*;

pub mod mods_info_storage;
pub mod mods_scanner;

verus! {

/// Identity metadata read from a mod's identity file.
#[allow(non_snake_case)]
#[derive(Debug, Clone)]
pub struct ManifestInfo {
    pub Name: String,
    pub Version: String,
    pub Description: String,
    pub UniqueId: String,
}

/// The mathematical value of a `ManifestInfo`.
pub ghost struct ManifestView {
    pub name: Seq<char>,
    pub version: Seq<char>,
    pub description: Seq<char>,
    pub unique_id: Seq<char>,
}

impl View for ManifestInfo {
    type V = ManifestView;

    open spec fn view(&self) -> ManifestView {
        ManifestView {
            name: self.Name@,
            version: self.Version@,
            description: self.Description@,
            unique_id: self.UniqueId@,
        }
    }
}

impl ManifestInfo {
    pub fn clone_info(&self) -> (r: ManifestInfo)
        ensures
            r@ == self@,
    {
        ManifestInfo {
            Name: self.Name.clone(),
            Version: self.Version.clone(),
            Description: self.Description.clone(),
            UniqueId: self.UniqueId.clone(),
        }
    }
}

/// A discovered mod: its identity and the directory it lives in.
#[derive(Debug, Clone)]
pub struct ModInfo {
    pub manifest_info: ManifestInfo,
    pub path: String,
}

/// The mathematical value of a `ModInfo`.
pub ghost struct ModView {
    pub manifest: ManifestView,
    pub path: Seq<char>,
}

impl ModView {
    pub open spec fn unique_id(self) -> Seq<char> {
        self.manifest.unique_id
    }
}

impl View for ModInfo {
    type V = ModView;

    open spec fn view(&self) -> ModView {
        ModView { manifest: self.manifest_info@, path: self.path@ }
    }
}

impl ModInfo {
    pub fn clone_info(&self) -> (r: ModInfo)
        ensures
            r@ == self@,
    {
        ModInfo { manifest_info: self.manifest_info.clone_info(), path: self.path.clone() }
    }
}

/// A named, user-defined set of mods.
#[derive(Debug, Clone)]
pub struct Profile {
    pub name: String,
    pub description: String,
    pub create_time: String,
}

/// The mathematical value of a `Profile`.
pub ghost struct ProfileView {
    pub name: Seq<char>,
    pub description: Seq<char>,
    pub create_time: Seq<char>,
}

impl View for Profile {
    type V = ProfileView;

    open spec fn view(&self) -> ProfileView {
        ProfileView {
            name: self.name@,
            description: self.description@,
            create_time: self.create_time@,
        }
    }
}

impl Profile {
    pub fn clone_profile(&self) -> (r: Profile)
        ensures
            r@ == self@,
    {
        Profile {
            name: self.name.clone(),
            description: self.description.clone(),
            create_time: self.create_time.clone(),
        }
    }
}

/// The views of a vector of mods, in order.
pub open spec fn mods_view(v: Seq<ModInfo>) -> Seq<ModView> {
    v.map_values(|m: ModInfo| m@)
}

/// The views of a vector of profiles, in order.
pub open spec fn profiles_view(v: Seq<Profile>) -> Seq<ProfileView> {
    v.map_values(|p: Profile| p@)
}

} // verus!
