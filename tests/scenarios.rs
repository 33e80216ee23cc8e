use std::collections::{BTreeMap, BTreeSet};

use stardew_mods_manager::link_manager::{LinkAction, LinkManager, ProfileDirListing};
use stardew_mods_manager::mods_manager::mods_info_storage::{ModManagerDb, StoreError};
use stardew_mods_manager::mods_manager::mods_scanner::{ModDirEntry, ModScanner};
use stardew_mods_manager::mods_manager::ModInfo;
use stardew_mods_manager::total_manager::Manager;

/// Profile directories and the names inside them, as a test stands in for
/// the filesystem.
type Disk = BTreeMap<String, BTreeSet<String>>;

fn apply(disk: &mut Disk, actions: &[LinkAction]) {
    for a in actions {
        match a {
            LinkAction::CreateProfileDir { profile, .. } => {
                disk.entry(profile.clone()).or_default();
            }
            LinkAction::CreateLink { profile, link_name, .. } => {
                if let Some(d) = disk.get_mut(profile) {
                    d.insert(link_name.clone());
                }
            }
            LinkAction::RemoveLink { profile, link_name, .. } => {
                if let Some(d) = disk.get_mut(profile) {
                    d.remove(link_name);
                }
            }
            LinkAction::RemoveProfileDir { profile, .. } => {
                disk.remove(profile);
            }
        }
    }
}

fn listing(disk: &Disk) -> Vec<ProfileDirListing> {
    disk.iter()
        .map(|(p, e)| ProfileDirListing { profile: p.clone(), entries: e.iter().cloned().collect() })
        .collect()
}

fn entry(folder: &str, id: &str) -> ModDirEntry {
    ModDirEntry {
        folder_name: folder.to_string(),
        manifest: Some(format!(
            "{{\"Name\": \"{} name\", \"Version\": \"1\", \"Description\": \"\", \"UniqueId\": \"{}\"}}",
            folder, id
        )),
    }
}

fn manager() -> Manager {
    Manager::new(
        "/game/loader".to_string(),
        ModScanner::from("/game/Mods"),
        ModManagerDb::new(),
        LinkManager::from("/game/Profiles"),
    )
}

fn by_id(m: &Manager, id: &str) -> ModInfo {
    m.get_registered_mods().into_iter().find(|x| x.manifest_info.UniqueId == id).unwrap()
}

const NOW: &str = "2024-05-01 12:00:00";

#[test]
fn three_mods_one_profile() {
    let entries = vec![entry("AlphaFolder", "A.1"), entry("BetaFolder", "B.1"), entry("GammaFolder", "C.1")];
    let found = ModScanner::from("/game/Mods").scan_mods(&entries);
    assert_eq!(found.len(), 3);
    let mut ids: Vec<String> = found.iter().map(|m| m.manifest_info.UniqueId.clone()).collect();
    ids.sort();
    assert_eq!(ids, vec!["A.1", "B.1", "C.1"]);

    let mut disk = Disk::new();
    let mut m = manager();
    m.register_all_mods(&entries);
    apply(&mut disk, &m.create_empty_profile("p1", "", NOW).unwrap());
    let plan = m.insert_mods_to_profile(vec![by_id(&m, "A.1"), by_id(&m, "B.1")], "p1").unwrap();
    apply(&mut disk, &plan);
    let members: Vec<String> =
        m.get_mods_from_profile("p1").iter().map(|x| x.manifest_info.UniqueId.clone()).collect();
    assert_eq!(members, vec!["A.1", "B.1"]);
    assert_eq!(
        disk["p1"],
        ["AlphaFolder", "BetaFolder"].iter().map(|s| s.to_string()).collect::<BTreeSet<_>>()
    );

    let removal = m.remove_mod_from_profile(by_id(&m, "A.1"), "p1");
    apply(&mut disk, removal.as_slice());
    let members: Vec<String> =
        m.get_mods_from_profile("p1").iter().map(|x| x.manifest_info.UniqueId.clone()).collect();
    assert_eq!(members, vec!["B.1"]);
    assert_eq!(disk["p1"].len(), 1);

    let (remaining, action) = m.remove_profile("p1");
    apply(&mut disk, &[action]);
    assert_eq!(remaining, 0);
    assert!(!disk.contains_key("p1"));
    assert!(m.get_all_profiles().iter().all(|p| p.name != "p1"));
}

#[test]
fn registering_twice_keeps_one_record() {
    let entries = vec![entry("AlphaFolder", "A.1")];
    let mut m = manager();
    m.register_all_mods(&entries);
    m.register_all_mods(&entries);
    let all = m.get_registered_mods();
    assert_eq!(all.iter().filter(|x| x.manifest_info.UniqueId == "A.1").count(), 1);
}

#[test]
fn add_then_remove_leaves_no_member_and_no_link() {
    let mut disk = Disk::new();
    let mut m = manager();
    m.register_all_mods(&vec![entry("AlphaFolder", "A.1")]);
    apply(&mut disk, &m.create_empty_profile("p", "", NOW).unwrap());
    apply(&mut disk, &m.insert_mods_to_profile(vec![by_id(&m, "A.1")], "p").unwrap());
    assert!(disk["p"].contains("AlphaFolder"));
    let removal = m.remove_mod_from_profile(by_id(&m, "A.1"), "p");
    apply(&mut disk, removal.as_slice());
    assert!(m.get_mods_from_profile("p").is_empty());
    assert!(!disk["p"].contains("AlphaFolder"));
}

#[test]
fn delete_profile_then_recreate_is_empty() {
    let mut disk = Disk::new();
    let mut m = manager();
    m.register_all_mods(&vec![entry("AlphaFolder", "A.1")]);
    apply(&mut disk, &m.create_empty_profile("p", "", NOW).unwrap());
    apply(&mut disk, &m.insert_mods_to_profile(vec![by_id(&m, "A.1")], "p").unwrap());
    let (_, action) = m.remove_profile("p");
    assert_eq!(
        action,
        LinkAction::RemoveProfileDir { profile: "p".to_string(), dir: "/game/Profiles/p".to_string() }
    );
    apply(&mut disk, &[action]);
    assert!(!disk.contains_key("p"));
    apply(&mut disk, &m.create_empty_profile("p", "again", NOW).unwrap());
    assert!(m.get_mods_from_profile("p").is_empty());
    assert!(disk["p"].is_empty());
}

#[test]
fn delete_mod_unlinks_from_every_profile() {
    let mut disk = Disk::new();
    let mut m = manager();
    m.register_all_mods(&vec![entry("AlphaFolder", "A.1"), entry("BetaFolder", "B.1")]);
    for p in ["p", "q", "r"] {
        apply(&mut disk, &m.create_empty_profile(p, "", NOW).unwrap());
    }
    apply(&mut disk, &m.insert_mods_to_profile(vec![by_id(&m, "A.1"), by_id(&m, "B.1")], "p").unwrap());
    apply(&mut disk, &m.insert_mods_to_profile(vec![by_id(&m, "A.1")], "q").unwrap());
    apply(&mut disk, &m.insert_mods_to_profile(vec![by_id(&m, "B.1")], "r").unwrap());
    let plan = m.remove_mod("A.1", &listing(&disk));
    assert_eq!(plan.len(), 2);
    apply(&mut disk, &plan);
    assert!(disk.values().all(|links| !links.contains("AlphaFolder")));
    assert!(disk["p"].contains("BetaFolder"));
    assert!(m.get_mods_from_profile("p").iter().all(|x| x.manifest_info.UniqueId != "A.1"));
    assert!(m.get_mods_from_profile("q").is_empty());
    assert_eq!(m.get_registered_mods().len(), 1);
    assert!(m.remove_mod("absent", &listing(&disk)).is_empty());
}

#[test]
fn manager_reports_store_failures() {
    let mut m = manager();
    m.register_all_mods(&vec![entry("AlphaFolder", "A.1")]);
    m.create_empty_profile("p", "", NOW).unwrap();
    assert_eq!(m.create_empty_profile("p", "", NOW).unwrap_err(), StoreError::DuplicateProfile);
    let a = by_id(&m, "A.1");
    assert_eq!(m.insert_mods_to_profile(vec![a.clone()], "nope").unwrap_err(), StoreError::ProfileNotFound);
    let mut ghost_mod = a.clone();
    ghost_mod.manifest_info.UniqueId = "Z.9".to_string();
    assert_eq!(m.insert_mods_to_profile(vec![ghost_mod], "p").unwrap_err(), StoreError::ModNotFound);
    assert!(m.get_mods_from_profile("p").is_empty());
}

#[test]
fn reconcile_restores_projection() {
    let mut disk = Disk::new();
    let mut m = manager();
    m.register_all_mods(&vec![entry("AlphaFolder", "A.1"), entry("BetaFolder", "B.1")]);
    m.create_empty_profile("p", "", NOW).unwrap();
    m.create_empty_profile("q", "", NOW).unwrap();
    m.insert_mods_to_profile(vec![by_id(&m, "A.1"), by_id(&m, "B.1")], "p").unwrap();
    // the disk drifted: p lost a link and gained a stray one, q is missing,
    // and a directory of no profile is left over
    disk.insert("p".to_string(), ["AlphaFolder", "Stray"].iter().map(|s| s.to_string()).collect());
    disk.insert("old".to_string(), ["AlphaFolder"].iter().map(|s| s.to_string()).collect());
    let plan = m.reconcile(&listing(&disk));
    apply(&mut disk, &plan);
    assert_eq!(disk.keys().cloned().collect::<Vec<_>>(), vec!["p", "q"]);
    assert_eq!(
        disk["p"],
        ["AlphaFolder", "BetaFolder"].iter().map(|s| s.to_string()).collect::<BTreeSet<_>>()
    );
    assert!(disk["q"].is_empty());
    // once in line, a second pass only re-asserts what is there
    let again = m.reconcile(&listing(&disk));
    assert!(again.iter().all(|a| matches!(
        a,
        LinkAction::CreateProfileDir { .. } | LinkAction::CreateLink { .. }
    )));
}
