use stardew_mods_manager::paths::{folder_name, join, same_text};

#[test]
fn folder_name_is_last_segment() {
    assert_eq!(folder_name("C:/Games/Mods/GoBackHome"), "GoBackHome");
    assert_eq!(folder_name("C:\\Games\\Mods\\NPC不踢箱子"), "NPC不踢箱子");
    assert_eq!(folder_name("/mods/Alpha//"), "Alpha");
    assert_eq!(folder_name("Alpha"), "Alpha");
    assert_eq!(folder_name(""), "");
    assert_eq!(folder_name("/"), "");
}

#[test]
fn join_adds_one_separator() {
    assert_eq!(join("/a", "b"), "/a/b");
    assert_eq!(join("/a/", "b"), "/a/b");
    assert_eq!(join("C:\\a\\", "b"), "C:\\a\\b");
    assert_eq!(join("", "b"), "b");
}

#[test]
fn same_text_compares_characters() {
    assert!(same_text("mod.a", "mod.a"));
    assert!(!same_text("mod.a", "mod.A"));
    assert!(!same_text("", "x"));
}
