use stardew_mods_manager::link_manager::{
    entries_listed, names_a_link, LinkAction, LinkManager, ProfileDirListing,
};

const PROFILES: &str = "C:/Program Files (x86)/Steam/steamapps/common/Stardew Valley/Profiles";

#[test]
fn test_create_link() {
    let l_m = LinkManager::default();
    let mod_dir_path =
        "C:/Program Files (x86)/Steam/steamapps/common/Stardew Valley/Mods/GoBackHome";
    let link_dir_path = l_m.link_path("test1_profile", "GoBackHome");
    assert_eq!(link_dir_path, format!("{}/test1_profile/GoBackHome", PROFILES));

    let action = l_m.create_link(mod_dir_path, "test1_profile");

    assert_eq!(
        action,
        LinkAction::CreateLink {
            profile: "test1_profile".to_string(),
            link_name: "GoBackHome".to_string(),
            link: link_dir_path,
            target: mod_dir_path.to_string(),
        }
    );
}

#[test]
fn test_create_links() {
    let l_m = LinkManager::default();

    let profile_name = "test_profile";
    let mods_path = vec![
        "C:/Program Files (x86)/Steam/steamapps/common/Stardew Valley/Mods/GoBackHome".to_string(),
        "C:/Program Files (x86)/Steam/steamapps/common/Stardew Valley/Mods/ConsoleCommands"
            .to_string(),
    ];
    let plan = l_m.create_links(&mods_path, profile_name);
    assert_eq!(plan.len(), 3);
    assert_eq!(
        plan[0],
        LinkAction::CreateProfileDir {
            profile: profile_name.to_string(),
            dir: format!("{}/{}", PROFILES, profile_name),
        }
    );

    for (mp, folder) in mods_path.iter().zip(["GoBackHome", "ConsoleCommands"]) {
        let link_path = format!("{}/{}", PROFILES, format!("{}/{}", profile_name, folder));
        assert!(plan.iter().any(|a| *a
            == LinkAction::CreateLink {
                profile: profile_name.to_string(),
                link_name: folder.to_string(),
                link: link_path.clone(),
                target: mp.clone(),
            }));
    }
}

#[test]
fn test_remove_profile() {
    let l_m = LinkManager::default();

    let profile_name = "test_profile";
    let action = l_m.remove_profile(profile_name);
    assert_eq!(
        action,
        LinkAction::RemoveProfileDir {
            profile: profile_name.to_string(),
            dir: format!("{}/test_profile", PROFILES),
        }
    );
}

#[test]
fn create_links_skips_paths_without_folder_name() {
    let l_m = LinkManager::from("/profiles/");
    let plan = l_m.create_links(&vec!["/".to_string(), "/mods/Alpha/".to_string()], "p");
    assert_eq!(
        plan,
        vec![
            LinkAction::CreateProfileDir { profile: "p".to_string(), dir: "/profiles/p".to_string() },
            LinkAction::CreateLink {
                profile: "p".to_string(),
                link_name: "Alpha".to_string(),
                link: "/profiles/p/Alpha".to_string(),
                target: "/mods/Alpha/".to_string(),
            },
        ]
    );
}

#[test]
fn remove_mod_from_profile_uses_folder_name() {
    let l_m = LinkManager::from("/profiles");
    assert_eq!(
        l_m.remove_mod_from_profile("p", "D:\\mods\\Beta"),
        Some(LinkAction::RemoveLink {
            profile: "p".to_string(),
            link_name: "Beta".to_string(),
            link: "/profiles/p/Beta".to_string(),
        })
    );
    assert_eq!(l_m.remove_mod_from_profile("p", "///"), None);
}

#[test]
fn remove_link_everywhere_only_where_present() {
    let l_m = LinkManager::from("/profiles");
    let dirs = vec![
        ProfileDirListing { profile: "a".to_string(), entries: vec!["X".to_string(), "Y".to_string()] },
        ProfileDirListing { profile: "b".to_string(), entries: vec!["Y".to_string()] },
        ProfileDirListing { profile: "c".to_string(), entries: vec!["X".to_string()] },
    ];
    let plan = l_m.remove_link_everywhere(&dirs, "X");
    assert_eq!(
        plan,
        vec![
            LinkAction::RemoveLink {
                profile: "a".to_string(),
                link_name: "X".to_string(),
                link: "/profiles/a/X".to_string(),
            },
            LinkAction::RemoveLink {
                profile: "c".to_string(),
                link_name: "X".to_string(),
                link: "/profiles/c/X".to_string(),
            },
        ]
    );
}

#[test]
fn sync_profile_adds_missing_and_removes_stray() {
    let l_m = LinkManager::from("/profiles");
    let targets = vec!["/mods/A".to_string(), "/mods/B/".to_string()];
    assert!(names_a_link(&targets, "B"));
    assert!(!names_a_link(&targets, "C"));
    assert!(!names_a_link(&targets, ""));
    let dirs = vec![ProfileDirListing { profile: "p".to_string(), entries: vec!["A".to_string(), "C".to_string()] }];
    let listed = entries_listed(&dirs, "p");
    assert_eq!(listed, vec!["A", "C"]);
    assert!(entries_listed(&dirs, "q").is_empty());
    let plan = l_m.sync_profile("p", &targets, &listed);
    assert_eq!(plan.len(), 4);
    assert_eq!(
        plan[3],
        LinkAction::RemoveLink {
            profile: "p".to_string(),
            link_name: "C".to_string(),
            link: "/profiles/p/C".to_string(),
        }
    );
}
