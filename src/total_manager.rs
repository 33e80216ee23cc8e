//! The orchestrator: each user intent becomes one change of the store,
//! made first, and the filesystem actions that project it, returned for the
//! caller to carry out. A failed filesystem action never undoes the store
//! change; the caller reports it as a warning.

use vstd::prelude::*;

use crate::link_manager::{
    actions_view, entries_listed, link_names_of, listed_entries, sync_plan, ProfileDirView, create_links_plan, listings_view, remove_dir_action, remove_link_action,
    removal_plan, strs_view, LinkAction, LinkActionView, LinkManager, ProfileDirListing,
};
use crate::mods_manager::mods_info_storage::{
    has_mod, has_profile, ids_of, ModManagerDb, StoreError, StoreView,
};
use crate::mods_manager::mods_scanner::{discovered, entries_view, ModDirEntry, ModScanner};
use crate::mods_manager::{mods_view, profiles_view, ModInfo, ModView, Profile, ProfileView};
use crate::paths::{folder_name, folder_name_of, join_of};

verus! {

broadcast use vstd::seq_lib::group_seq_properties;

/// The record of the mod `id` in a table where it is registered.
pub open spec fn mod_record(mods: Seq<ModView>, id: Seq<char>) -> ModView {
    mods[choose|i: int| 0 <= i < mods.len() && (#[trigger] mods[i]).unique_id() == id]
}

/// The plan that removes the links of the mod `id` when it is deleted: its
/// link from each listed profile directory that holds one. Empty where the
/// mod is not registered or its folder has no name.
pub open spec fn delete_mod_plan(
    root: Seq<char>,
    mods: Seq<ModView>,
    id: Seq<char>,
    dirs: Seq<ProfileDirView>,
) -> Seq<LinkActionView> {
    if has_mod(mods, id) && folder_name_of(mod_record(mods, id).path).len() > 0 {
        removal_plan(root, dirs, folder_name_of(mod_record(mods, id).path))
    } else {
        Seq::empty()
    }
}

/// The paths of a sequence of mods.
pub open spec fn paths_of(mods: Seq<ModView>) -> Seq<Seq<char>> {
    mods.map_values(|m: ModView| m.path)
}

/// The link names that the members of the profile `name` call for.
pub open spec fn expected_links(s: StoreView, name: Seq<char>) -> Set<Seq<char>> {
    link_names_of(paths_of(s.members_of(name)))
}

/// For each profile of `profiles` in turn, the plan that brings its
/// directory in line with its members.
pub open spec fn reconcile_profiles(
    root: Seq<char>,
    s: StoreView,
    profiles: Seq<ProfileView>,
    dirs: Seq<ProfileDirView>,
) -> Seq<LinkActionView>
    decreases profiles.len(),
{
    if profiles.len() == 0 {
        Seq::empty()
    } else {
        let name = profiles.last().name;
        reconcile_profiles(root, s, profiles.drop_last(), dirs) + sync_plan(
            root,
            name,
            paths_of(s.members_of(name)),
            listed_entries(dirs, name),
        )
    }
}

/// The removal of each listed directory that belongs to no profile.
pub open spec fn orphan_removals(
    root: Seq<char>,
    profiles: Seq<ProfileView>,
    dirs: Seq<ProfileDirView>,
) -> Seq<LinkActionView>
    decreases dirs.len(),
{
    if dirs.len() == 0 {
        Seq::empty()
    } else {
        let rest = orphan_removals(root, profiles, dirs.drop_last());
        if has_profile(profiles, dirs.last().profile) {
            rest
        } else {
            rest.push(remove_dir_action(root, dirs.last().profile))
        }
    }
}

/// The plan that brings the projection found on disk, `dirs`, in line with
/// the store.
pub open spec fn reconcile_plan(root: Seq<char>, s: StoreView, dirs: Seq<ProfileDirView>) -> Seq<
    LinkActionView,
> {
    reconcile_profiles(root, s, s.profiles, dirs) + orphan_removals(root, s.profiles, dirs)
}

/// The paths of `mods`, in order.
fn paths_of_mods(mods: &Vec<ModInfo>) -> (r: Vec<String>)
    ensures
        strs_view(r@) == paths_of(mods_view(mods@)),
{
    let mut paths: Vec<String> = Vec::new();
    let mut i: usize = 0;
    while i < mods.len()
        invariant
            i <= mods.len(),
            strs_view(paths@) == paths_of(mods_view(mods@)).take(i as int),
        decreases mods.len() - i,
    {
        let ghost prev = paths@;
        let p = mods[i].path.clone();
        paths.push(p);
        assert(strs_view(paths@) =~= strs_view(prev).push(p@));
        assert(paths_of(mods_view(mods@)).take(i + 1) =~= paths_of(mods_view(mods@)).take(
            i as int,
        ).push(mods@[i as int]@.path));
        i = i + 1;
    }
    assert(paths_of(mods_view(mods@)).take(i as int) =~= paths_of(mods_view(mods@)));
    paths
}

/// The single entry point that keeps the store and the filesystem
/// projection in step.
pub struct Manager {
    smapi_path: String,
    scanner: ModScanner,
    database_manager: ModManagerDb,
    link_manager: LinkManager,
}

impl Manager {
    /// The store's tables.
    pub closed spec fn store(&self) -> StoreView {
        self.database_manager@
    }

    /// The parent directory of the profile directories.
    pub closed spec fn link_root(&self) -> Seq<char> {
        self.link_manager@
    }

    /// The folder that scans read.
    pub closed spec fn scan_root(&self) -> Seq<char> {
        self.scanner@
    }

    /// The mod loader's path.
    pub closed spec fn smapi(&self) -> Seq<char> {
        self.smapi_path@
    }

    pub open spec fn wf(&self) -> bool {
        self.store().wf()
    }

    /// A manager over the given configuration and store.
    pub fn new(
        smapi_path: String,
        scanner: ModScanner,
        database_manager: ModManagerDb,
        link_manager: LinkManager,
    ) -> (r: Manager)
        requires
            database_manager.wf(),
        ensures
            r.wf(),
            r.store() == database_manager@,
            r.link_root() == link_manager@,
            r.scan_root() == scanner@,
            r.smapi() == smapi_path@,
    {
        Manager { smapi_path, scanner, database_manager, link_manager }
    }

    /// Sets the folder that scans read.
    pub fn set_scanner_mods_path(&mut self, mods_path: String)
        ensures
            final(self).scan_root() == mods_path@,
            final(self).store() == old(self).store(),
            final(self).link_root() == old(self).link_root(),
            final(self).smapi() == old(self).smapi(),
    {
        self.scanner.set_mods_path(mods_path);
    }

    /// Sets the mod loader's path.
    pub fn set_smapi_path(&mut self, smapi_path: String)
        ensures
            final(self).smapi() == smapi_path@,
            final(self).store() == old(self).store(),
            final(self).link_root() == old(self).link_root(),
            final(self).scan_root() == old(self).scan_root(),
    {
        self.smapi_path = smapi_path;
    }

    /// The mod loader's path.
    pub fn smapi_path(&self) -> (r: &str)
        ensures
            r@ == self.smapi(),
    {
        self.smapi_path.as_str()
    }

    /// The store, for the caller to persist.
    pub fn database(&self) -> (r: &ModManagerDb)
        ensures
            r@ == self.store(),
    {
        &self.database_manager
    }

    /// The projector, for the caller to resolve paths.
    pub fn link_manager(&self) -> (r: &LinkManager)
        ensures
            r@ == self.link_root(),
    {
        &self.link_manager
    }

    /// The scanner.
    pub fn scanner(&self) -> (r: &ModScanner)
        ensures
            r@ == self.scan_root(),
    {
        &self.scanner
    }

    /// Registers every mod that the subfolders `entries` of the mods folder
    /// hold; a mod registered already has its record updated.
    pub fn register_all_mods(&mut self, entries: &Vec<ModDirEntry>)
        requires
            old(self).wf(),
        ensures
            final(self).wf(),
            final(self).store() == old(self).store().upsert_mods(
                discovered(old(self).scan_root(), entries_view(entries@)),
            ),
            final(self).link_root() == old(self).link_root(),
            final(self).scan_root() == old(self).scan_root(),
            final(self).smapi() == old(self).smapi(),
    {
        let all_mods = self.scanner.scan_mods(entries);
        self.database_manager.insert_mods(&all_mods);
    }

    /// Deletes the mod `mod_unique_id` with its memberships, and returns the
    /// removal of its link from each directory of `profile_dirs`, the
    /// profile directories found on disk, that holds one.
    pub fn remove_mod(&mut self, mod_unique_id: &str, profile_dirs: &Vec<ProfileDirListing>) -> (r:
        Vec<LinkAction>)
        requires
            old(self).wf(),
        ensures
            final(self).wf(),
            final(self).store() == old(self).store().delete_mod(mod_unique_id@),
            actions_view(r@) == delete_mod_plan(
                old(self).link_root(),
                old(self).store().mods,
                mod_unique_id@,
                listings_view(profile_dirs@),
            ),
            final(self).link_root() == old(self).link_root(),
            final(self).scan_root() == old(self).scan_root(),
            final(self).smapi() == old(self).smapi(),
    {
        let ghost start = self.store();
        let record = self.database_manager.get_mod(mod_unique_id);
        self.database_manager.remove_mod(mod_unique_id);
        match record {
            None => {
                let r: Vec<LinkAction> = Vec::new();
                assert(actions_view(r@) =~= Seq::<LinkActionView>::empty());
                r
            },
            Some(m) => {
                proof {
                    let k = choose|k: int| 0 <= k < start.mods.len() && start.mods[k] == m@;
                    let c = choose|c: int|
                        0 <= c < start.mods.len() && (#[trigger] start.mods[c]).unique_id()
                            == mod_unique_id@;
                    assert(c == k);
                }
                let name = folder_name(m.path.as_str());
                if name.unicode_len() == 0 {
                    let r: Vec<LinkAction> = Vec::new();
                    assert(actions_view(r@) =~= Seq::<LinkActionView>::empty());
                    r
                } else {
                    self.link_manager.remove_link_everywhere(profile_dirs, name.as_str())
                }
            },
        }
    }

    /// Every registered mod.
    pub fn get_registered_mods(&self) -> (r: Vec<ModInfo>)
        ensures
            mods_view(r@) == self.store().mods,
    {
        self.database_manager.get_mods()
    }

    /// Creates the empty profile `name` and returns the creation of its
    /// directory. Fails with `DuplicateProfile`, changing nothing, where the
    /// profile exists.
    pub fn create_empty_profile(&mut self, name: &str, description: &str, created_at: &str) -> (r:
        Result<Vec<LinkAction>, StoreError>)
        requires
            old(self).wf(),
            name@.len() > 0,
        ensures
            final(self).wf(),
            final(self).link_root() == old(self).link_root(),
            final(self).scan_root() == old(self).scan_root(),
            final(self).smapi() == old(self).smapi(),
            has_profile(old(self).store().profiles, name@)
                ==> r == Err::<Vec<LinkAction>, StoreError>(StoreError::DuplicateProfile)
                && final(self).store() == old(self).store(),
            !has_profile(old(self).store().profiles, name@)
                ==> (r matches Ok(acts) && actions_view(acts@) == create_links_plan(
                old(self).link_root(),
                name@,
                Seq::empty(),
            ) && final(self).store() == old(self).store().create_profile(
                ProfileView {
                    name: name@,
                    description: description@,
                    create_time: created_at@,
                },
            )),
    {
        match self.database_manager.create_profile(name, description, created_at) {
            Err(e) => Err(e),
            Ok(()) => {
                let none: Vec<String> = Vec::new();
                assert(strs_view(none@) =~= Seq::<Seq<char>>::empty());
                Ok(self.link_manager.create_links(&none, name))
            },
        }
    }

    /// Deletes the profile `name` with its memberships, and returns the
    /// number of profiles left and the removal of its directory. The
    /// directory's removal is planned also where the store held no such
    /// profile, so that a stray directory goes too.
    pub fn remove_profile(&mut self, name: &str) -> (r: (usize, LinkAction))
        requires
            old(self).wf(),
            name@.len() > 0,
        ensures
            final(self).wf(),
            final(self).store() == old(self).store().delete_profile(name@),
            r.0 == final(self).store().profiles.len(),
            r.1@ == remove_dir_action(old(self).link_root(), name@),
            final(self).link_root() == old(self).link_root(),
            final(self).scan_root() == old(self).scan_root(),
            final(self).smapi() == old(self).smapi(),
    {
        let remaining = self.database_manager.remove_profile(name);
        (remaining, self.link_manager.remove_profile(name))
    }

    /// Every profile.
    pub fn get_all_profiles(&self) -> (r: Vec<Profile>)
        ensures
            profiles_view(r@) == self.store().profiles,
    {
        self.database_manager.get_profiles()
    }

    /// The mods of the profile `profile_name`.
    pub fn get_mods_from_profile(&self, profile_name: &str) -> (r: Vec<ModInfo>)
        ensures
            mods_view(r@) == self.store().members_of(profile_name@),
    {
        self.database_manager.get_mods_from_profile(profile_name)
    }

    /// Adds `mods` to the profile `profile_name` and returns the plan that
    /// links them into its directory. Fails as the store does, changing
    /// nothing.
    pub fn insert_mods_to_profile(&mut self, mods: Vec<ModInfo>, profile_name: &str) -> (r: Result<
        Vec<LinkAction>,
        StoreError,
    >)
        requires
            old(self).wf(),
            profile_name@.len() > 0,
        ensures
            final(self).wf(),
            final(self).link_root() == old(self).link_root(),
            final(self).scan_root() == old(self).scan_root(),
            final(self).smapi() == old(self).smapi(),
            !has_profile(
                old(self).store().profiles,
                profile_name@,
            ) ==> r == Err::<Vec<LinkAction>, StoreError>(StoreError::ProfileNotFound),
            has_profile(
                old(self).store().profiles,
                profile_name@,
            ) && (exists|k: int|
                0 <= k < mods@.len() && !has_mod(
                    old(self).store().mods,
                    (#[trigger] mods@[k])@.unique_id(),
                )) ==> r == Err::<Vec<LinkAction>, StoreError>(StoreError::ModNotFound),
            has_profile(old(self).store().profiles, profile_name@) && (forall|k: int|
                0 <= k < mods@.len() ==> has_mod(
                    old(self).store().mods,
                    (#[trigger] mods@[k])@.unique_id(),
                )) ==> r is Ok,
            r is Err ==> final(self).store() == old(self).store(),
            r matches Ok(acts) ==> final(self).store() == old(self).store().add_membership(
                profile_name@,
                ids_of(mods_view(mods@)),
            ) && actions_view(acts@) == create_links_plan(
                old(self).link_root(),
                profile_name@,
                paths_of(mods_view(mods@)),
            ),
    {
        match self.database_manager.insert_mod_to_profile(profile_name, &mods) {
            Err(e) => Err(e),
            Ok(()) => {
                let paths = paths_of_mods(&mods);
                Ok(self.link_manager.create_links(&paths, profile_name))
            },
        }
    }

    /// Removes the mod `mod_info` from the profile `profile_name` and
    /// returns the removal of its link, which is found by the mod's folder
    /// name; none where that name is empty.
    pub fn remove_mod_from_profile(&mut self, mod_info: ModInfo, profile_name: &str) -> (r: Option<
        LinkAction,
    >)
        requires
            old(self).wf(),
            profile_name@.len() > 0,
        ensures
            final(self).wf(),
            final(self).store() == old(self).store().remove_membership(
                profile_name@,
                mod_info@.unique_id(),
            ),
            folder_name_of(mod_info@.path).len() == 0 ==> r is None,
            folder_name_of(mod_info@.path).len() > 0 ==> (r matches Some(a) && a@
                == remove_link_action(
                old(self).link_root(),
                profile_name@,
                folder_name_of(mod_info@.path),
            )),
            final(self).link_root() == old(self).link_root(),
            final(self).scan_root() == old(self).scan_root(),
            final(self).smapi() == old(self).smapi(),
    {
        let path = mod_info.path.clone();
        self.database_manager.remove_mod_from_profile(profile_name, mod_info);
        self.link_manager.remove_mod_from_profile(profile_name, path.as_str())
    }

    /// The plan that brings the profile directories found on disk,
    /// `profile_dirs`, in line with the store: each profile's directory is
    /// created where absent, with a link for each member where absent, and
    /// every other entry removed; each listed directory of no profile is
    /// removed.
    pub fn reconcile(&self, profile_dirs: &Vec<ProfileDirListing>) -> (r: Vec<LinkAction>)
        ensures
            actions_view(r@) == reconcile_plan(
                self.link_root(),
                self.store(),
                listings_view(profile_dirs@),
            ),
    {
        let ghost root = self.link_root();
        let ghost s = self.store();
        let ghost dv = listings_view(profile_dirs@);
        let profiles = self.database_manager.get_profiles();
        let mut r: Vec<LinkAction> = Vec::new();
        let mut i: usize = 0;
        assert(s.profiles.take(0) =~= Seq::<ProfileView>::empty());
        assert(actions_view(r@) =~= Seq::<LinkActionView>::empty());
        while i < profiles.len()
            invariant
                i <= profiles.len(),
                profiles_view(profiles@) == s.profiles,
                s == self.store(),
                root == self.link_root(),
                dv == listings_view(profile_dirs@),
                actions_view(r@) == reconcile_profiles(root, s, s.profiles.take(i as int), dv),
            decreases profiles.len() - i,
        {
            let name = profiles[i].name.as_str();
            let members = self.database_manager.get_mods_from_profile(name);
            let paths = paths_of_mods(&members);
            let listed = entries_listed(profile_dirs, name);
            let mut plan = self.link_manager.sync_profile(name, &paths, &listed);
            let ghost prev = r@;
            let ghost segment = plan@;
            r.append(&mut plan);
            proof {
                assert(s.profiles.take(i + 1).drop_last() =~= s.profiles.take(i as int));
                assert(s.profiles.take(i + 1).last() == profiles@[i as int]@);
                assert(actions_view(r@) =~= actions_view(prev) + actions_view(segment));
            }
            i = i + 1;
        }
        assert(s.profiles.take(i as int) =~= s.profiles);
        let ghost head = actions_view(r@);
        let mut k: usize = 0;
        assert(dv.take(0) =~= Seq::<ProfileDirView>::empty());
        assert(actions_view(r@) =~= head + orphan_removals(root, s.profiles, dv.take(0)));
        while k < profile_dirs.len()
            invariant
                k <= profile_dirs.len(),
                s == self.store(),
                root == self.link_root(),
                dv == listings_view(profile_dirs@),
                actions_view(r@) == head + orphan_removals(root, s.profiles, dv.take(k as int)),
            decreases profile_dirs.len() - k,
        {
            let ghost prev = r@;
            assert(dv.take(k + 1).drop_last() =~= dv.take(k as int));
            assert(dv.take(k + 1).last() == profile_dirs@[k as int]@);
            let d = &profile_dirs[k];
            if !self.database_manager.has_profile_named(d.profile.as_str()) {
                let a = self.link_manager.remove_profile(d.profile.as_str());
                r.push(a);
                assert(actions_view(r@) =~= actions_view(prev).push(a@));
            }
            k = k + 1;
        }
        assert(dv.take(k as int) =~= dv);
        r
    }

    /// The arguments that start the mod loader on the profile
    /// `profile_name`: its directory as the mods folder.
    pub fn launch_arguments(&self, profile_name: &str) -> (r: Vec<String>)
        ensures
            strs_view(r@) == seq!["--mods-path"@, join_of(self.link_root(), profile_name@)],
    {
        let mut r: Vec<String> = Vec::new();
        r.push("--mods-path".to_string());
        r.push(self.link_manager.profile_dir(profile_name));
        assert(strs_view(r@) =~= seq!["--mods-path"@, join_of(self.link_root(), profile_name@)]);
        r
    }
}

} // verus!
