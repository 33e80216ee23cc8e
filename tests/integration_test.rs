use stardew_mods_manager::link_manager::{LinkAction, LinkManager};
use stardew_mods_manager::mods_manager::mods_info_storage::ModManagerDb;
use stardew_mods_manager::mods_manager::mods_scanner::{ModDirEntry, ModScanner};
use stardew_mods_manager::mods_manager::ModInfo;
use stardew_mods_manager::total_manager::Manager;

const MODS: &str = "C:/Program Files (x86)/Steam/steamapps/common/Stardew Valley/Mods";
const SMAPI: &str =
    "C:/Program Files (x86)/Steam/steamapps/common/Stardew Valley/StardewModdingAPI.exe";

fn manifest(name: &str, id: &str) -> Option<String> {
    Some(format!(
        "{{\"Name\": \"{}\", \"Version\": \"1.0.0\", \"Description\": \"d\", \"UniqueID\": \"{}\"}}",
        name, id
    ))
}

fn setup_test_mods_dir() -> Vec<ModDirEntry> {
    vec![
        ModDirEntry { folder_name: "ConsoleCommands".to_string(), manifest: manifest("Console Commands", "SMAPI.ConsoleCommands") },
        ModDirEntry { folder_name: "GoBackHome".to_string(), manifest: manifest("GoBackHome", "SilcentHonestFarmer.GoBackHome") },
        ModDirEntry { folder_name: "SaveBackup".to_string(), manifest: manifest("Save Backup", "SMAPI.SaveBackup") },
    ]
}

#[test]
fn test_manager_integration_flow() {
    let mut manager = Manager::new(
        SMAPI.to_string(),
        ModScanner::default(),
        ModManagerDb::new(),
        LinkManager::default(),
    );
    manager.set_scanner_mods_path(MODS.to_string());

    manager.register_all_mods(&setup_test_mods_dir());

    let profile_name = "test_profile";
    let description = "测试用配置";
    let plan = manager.create_empty_profile(profile_name, description, "2024-01-01 00:00:00").unwrap();
    assert_eq!(plan.len(), 1);
    let profiles = manager.get_all_profiles();
    assert!(profiles.iter().any(|p| p.name == profile_name));

    let all_mods = manager.get_registered_mods();
    assert!(all_mods.len() == 3, "应有3个模组被注册");

    // a part of the mods goes into the profile
    let selected_mods: Vec<ModInfo> = all_mods
        .to_vec()
        .into_iter()
        .filter(|m| m.manifest_info.Name == "Console Commands" || m.manifest_info.Name == "GoBackHome")
        .collect();
    assert_eq!(selected_mods.len(), 2);
    manager.insert_mods_to_profile(selected_mods.clone(), profile_name).unwrap();
    let mods_in_profile = manager.get_mods_from_profile(profile_name);
    assert_eq!(mods_in_profile.len(), 2);

    let save_backup_mod =
        all_mods.clone().into_iter().find(|m| m.manifest_info.Name == "Save Backup").unwrap();
    manager.insert_mods_to_profile(vec![save_backup_mod.clone()], profile_name).unwrap();
    let mods_in_profile = manager.get_mods_from_profile(profile_name);
    assert_eq!(mods_in_profile.len(), 3);

    // remove ConsoleCommands
    let cc_mod = mods_in_profile
        .iter()
        .find(|m| m.manifest_info.Name == "Console Commands")
        .unwrap()
        .clone();
    let removal = manager.remove_mod_from_profile(cc_mod, profile_name);
    assert!(matches!(removal, Some(LinkAction::RemoveLink { ref link_name, .. }) if link_name == "ConsoleCommands"));
    let mods_in_profile = manager.get_mods_from_profile(profile_name);
    assert_eq!(mods_in_profile.len(), 2);

    let profiles = manager.get_all_profiles();
    assert!(profiles.iter().any(|p| p.name == profile_name));

    // the launch points the loader at the profile's directory
    assert_eq!(
        manager.launch_arguments(profile_name),
        vec![
            "--mods-path".to_string(),
            "C:/Program Files (x86)/Steam/steamapps/common/Stardew Valley/Profiles/test_profile"
                .to_string()
        ]
    );
    assert_eq!(manager.smapi_path(), SMAPI);
}
