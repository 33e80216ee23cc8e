use stardew_mods_manager::mods_manager::mods_info_storage::{ModManagerDb, StoreError};
use stardew_mods_manager::mods_manager::{ManifestInfo, ModInfo};

fn sample_mod(unique_id: &str, name: &str, path: &str) -> ModInfo {
    ModInfo {
        manifest_info: ManifestInfo {
            UniqueId: unique_id.to_string(),
            Name: name.to_string(),
            Version: "1.0.0".to_string(),
            Description: "desc".to_string(),
        },
        path: path.to_string(),
    }
}

const NOW: &str = "2024-01-01 00:00:00";

#[test]
fn test_full_mods_manager_flow() {
    let mut db = ModManagerDb::new();

    // 1. profiles
    db.create_profile("p1", "desc1", NOW).unwrap();
    db.create_profile("p2", "desc2", NOW).unwrap();
    let profiles = db.get_profiles();
    assert_eq!(profiles.len(), 2);
    assert!(profiles.iter().any(|p| p.name == "p1"));

    // 2. mods
    let mods = vec![sample_mod("mod.a", "A", "./a"), sample_mod("mod.b", "B", "./b")];
    db.insert_mods(&mods);
    let all_mods = db.get_mods();
    assert!(all_mods.iter().any(|m| m.manifest_info.UniqueId == "mod.a"));

    // 3. memberships
    db.insert_mod_to_profile("p1", &mods).unwrap();
    let p1_mods = db.get_mods_from_profile("p1");
    assert_eq!(p1_mods.len(), 2);

    // 4. removal from a profile
    db.remove_mod_from_profile("p1", mods[0].clone());
    let p1_mods2 = db.get_mods_from_profile("p1");
    assert_eq!(p1_mods2.len(), 1);
    assert_eq!(p1_mods2[0].manifest_info.UniqueId, "mod.b");

    // 5. profile deletion
    db.remove_profile("p2");
    let profiles2 = db.get_profiles();
    assert_eq!(profiles2.len(), 1);
    assert_eq!(profiles2[0].name, "p1");

    // 6. mod deletion
    db.remove_mod("mod.b");
    let all_mods2 = db.get_mods();
    assert!(all_mods2.iter().all(|m| m.manifest_info.UniqueId != "mod.b"));
}

#[test]
fn duplicate_profile_is_refused() {
    let mut db = ModManagerDb::new();
    assert_eq!(db.create_profile("p", "first", NOW), Ok(()));
    assert_eq!(db.create_profile("p", "second", NOW), Err(StoreError::DuplicateProfile));
    let profiles = db.get_profiles();
    assert_eq!(profiles.len(), 1);
    assert_eq!(profiles[0].description, "first");
    assert_eq!(profiles[0].create_time, NOW);
}

#[test]
fn membership_errors() {
    let mut db = ModManagerDb::new();
    db.insert_mods(&vec![sample_mod("a", "A", "/m/a")]);
    assert_eq!(
        db.insert_mod_to_profile("missing", &vec![sample_mod("a", "A", "/m/a")]),
        Err(StoreError::ProfileNotFound)
    );
    db.create_profile("p", "", NOW).unwrap();
    assert_eq!(
        db.insert_mod_to_profile("p", &vec![sample_mod("a", "A", "/m/a"), sample_mod("z", "Z", "/m/z")]),
        Err(StoreError::ModNotFound)
    );
    assert!(db.get_mods_from_profile("p").is_empty());
    assert_eq!(db.add_members_by_id("p", &vec!["a".to_string(), "a".to_string()]), Ok(()));
    assert_eq!(db.get_mods_from_profile("p").len(), 1);
    assert!(db.is_member("p", "a"));
    assert!(!db.is_member("p", "z"));
}

#[test]
fn register_same_mod_twice_keeps_one_record() {
    let mut db = ModManagerDb::new();
    let m = sample_mod("same", "S", "/m/s");
    db.insert_mods(&vec![m.clone()]);
    db.insert_mods(&vec![m.clone()]);
    let all = db.get_mods();
    assert_eq!(all.iter().filter(|x| x.manifest_info.UniqueId == "same").count(), 1);
    assert_eq!(all.len(), 1);
}

#[test]
fn upsert_updates_in_place() {
    let mut db = ModManagerDb::new();
    db.insert_mods(&vec![sample_mod("a", "A", "/m/a"), sample_mod("b", "B", "/m/b")]);
    db.insert_mods(&vec![sample_mod("a", "A2", "/m/a2"), sample_mod("c", "C", "/m/c")]);
    let names: Vec<String> = db.get_mods().into_iter().map(|m| m.manifest_info.Name).collect();
    assert_eq!(names, vec!["A2", "B", "C"]);
}

#[test]
fn remove_profile_counts_and_cascades() {
    let mut db = ModManagerDb::new();
    db.insert_mods(&vec![sample_mod("a", "A", "/m/a")]);
    db.create_profile("p", "", NOW).unwrap();
    db.create_profile("q", "", NOW).unwrap();
    db.add_members_by_id("p", &vec!["a".to_string()]).unwrap();
    assert_eq!(db.remove_profile("absent"), 2);
    assert_eq!(db.remove_profile("p"), 1);
    assert!(!db.is_member("p", "a"));
    db.create_profile("p", "again", NOW).unwrap();
    assert!(db.get_mods_from_profile("p").is_empty());
}

#[test]
fn remove_mod_cascades_to_every_profile() {
    let mut db = ModManagerDb::new();
    db.insert_mods(&vec![sample_mod("a", "A", "/m/a"), sample_mod("b", "B", "/m/b")]);
    db.create_profile("p", "", NOW).unwrap();
    db.create_profile("q", "", NOW).unwrap();
    db.add_members_by_id("p", &vec!["a".to_string(), "b".to_string()]).unwrap();
    db.add_members_by_id("q", &vec!["a".to_string()]).unwrap();
    db.remove_mod("a");
    db.remove_mod("absent");
    assert!(!db.is_member("p", "a"));
    assert!(!db.is_member("q", "a"));
    assert!(db.is_member("p", "b"));
    assert!(db.get_mod("a").is_none());
    assert_eq!(db.get_mod("b").unwrap().path, "/m/b");
}

#[test]
fn add_succeeds_when_profile_and_mods_exist() {
    let mut db = ModManagerDb::new();
    let mods = vec![sample_mod("a", "A", "/m/a"), sample_mod("b", "B", "/m/b")];
    db.insert_mods(&mods);
    db.create_profile("p", "", NOW).unwrap();
    assert_eq!(db.insert_mod_to_profile("p", &mods), Ok(()));
    assert_eq!(db.insert_mod_to_profile("p", &mods), Ok(()));
    assert_eq!(db.get_memberships().len(), 2);
}
