use stardew_mods_manager::mods_manager::mods_scanner::{
    lookup_field, manifest_from_fields, parse_manifest, ManifestField, ModDirEntry, ModScanner,
    ScanError,
};
use stardew_mods_manager::mods_manager::ModInfo;

const MODS: &str = "C:/Program Files (x86)/Steam/steamapps/common/Stardew Valley/Mods";

fn entry(folder: &str, manifest: Option<&str>) -> ModDirEntry {
    ModDirEntry { folder_name: folder.to_string(), manifest: manifest.map(|m| m.to_string()) }
}

fn manifest(name: &str, version: &str, description: &str, id_key: &str, id: &str) -> String {
    format!(
        "{{\n  \"Name\": \"{}\",\n  \"Author\": \"someone\",\n  \"Version\": \"{}\",\n  \"Description\": \"{}\",\n  \"{}\": \"{}\",\n  \"MinimumApiVersion\": \"4.0.0\"\n}}",
        name, version, description, id_key, id
    )
}

fn find<'a>(table: &'a [ModInfo], id: &str) -> Option<&'a ModInfo> {
    table.iter().find(|m| m.manifest_info.UniqueId == id)
}

#[test]
fn test_json_parse1() {
    let mod_scanner = ModScanner::default();
    let text = manifest(
        "NPC不踢箱子",
        "3.1.0",
        "NPCs no longer destroy placed objects in their paths. They would instead pass through them.",
        "UniqueId",
        "IamSaulC.NonDestructiveNPCs",
    );
    let mod_info = mod_scanner.scan_single_mod(&entry("NPC不踢箱子", Some(&text)));
    let mod_info = match mod_info {
        Ok(m) => m,
        Err(e) => panic!("{:?}", e),
    };
    let manifest = mod_info.manifest_info;
    assert_eq!(
        mod_info.path,
        "C:/Program Files (x86)/Steam/steamapps/common/Stardew Valley/Mods/NPC不踢箱子"
    );
    assert_eq!(manifest.Name, "NPC不踢箱子");
    assert_eq!(manifest.Version, "3.1.0");
    assert_eq!(
        manifest.Description,
        "NPCs no longer destroy placed objects in their paths. They would instead pass through them."
    );
    assert_eq!(manifest.UniqueId, "IamSaulC.NonDestructiveNPCs");
}

#[test]
fn test_json_parse2() {
    let mod_scanner = ModScanner::default();
    let text = manifest(
        "Console Commands",
        "4.3.2",
        "Adds SMAPI console commands that let you manipulate the game.",
        "UniqueID",
        "SMAPI.ConsoleCommands",
    );
    let mod_info = mod_scanner.scan_single_mod(&entry("ConsoleCommands", Some(&text))).unwrap();
    let manifest = mod_info.manifest_info;
    assert_eq!(
        mod_info.path,
        "C:/Program Files (x86)/Steam/steamapps/common/Stardew Valley/Mods/ConsoleCommands"
    );
    assert_eq!(manifest.Name, "Console Commands");
    assert_eq!(manifest.Version, "4.3.2");
    assert_eq!(
        manifest.Description,
        "Adds SMAPI console commands that let you manipulate the game."
    );
    assert_eq!(manifest.UniqueId, "SMAPI.ConsoleCommands");
}

fn three_mods() -> Vec<ModDirEntry> {
    vec![
        entry(
            "GoBackHome",
            Some(&manifest(
                "GoBackHome",
                "1.0.0",
                "After the player presses Q, he/she will go back home immediately.",
                "UniqueID",
                "SilcentHonestFarmer.GoBackHome",
            )),
        ),
        entry("NotAMod", None),
        entry(
            "SaveBackup",
            Some(&manifest(
                "Save Backup",
                "4.3.2",
                "Automatically backs up all your saves once per day into its folder.",
                "UniqueID",
                "SMAPI.SaveBackup",
            )),
        ),
        entry(
            "ConsoleCommands",
            Some(&manifest(
                "Console Commands",
                "4.3.2",
                "Adds SMAPI console commands that let you manipulate the game.",
                "UniqueID",
                "SMAPI.ConsoleCommands",
            )),
        ),
    ]
}

#[test]
fn test_scan_mods() {
    let mod_scanner = ModScanner::default();
    let mod_table = mod_scanner.scan_mods(&three_mods());
    assert_eq!(mod_table.len(), 3);
    let g_mod_info = find(&mod_table, "SilcentHonestFarmer.GoBackHome").unwrap();
    let s_mod_info = find(&mod_table, "SMAPI.SaveBackup").unwrap();
    let c_mod_info = find(&mod_table, "SMAPI.ConsoleCommands").unwrap();
    assert_eq!(
        g_mod_info.manifest_info.Description,
        "After the player presses Q, he/she will go back home immediately."
    );
    assert_eq!(
        s_mod_info.path,
        "C:/Program Files (x86)/Steam/steamapps/common/Stardew Valley/Mods/SaveBackup"
    );
    assert_eq!(c_mod_info.manifest_info.Version, "4.3.2");
}

#[test]
fn scan_keeps_later_of_equal_ids_in_place() {
    let scanner = ModScanner::from("/mods");
    let entries = vec![
        entry("First", Some(&manifest("First", "1", "d", "UniqueId", "same.id"))),
        entry("Other", Some(&manifest("Other", "1", "d", "UniqueId", "other.id"))),
        entry("Second", Some(&manifest("Second", "2", "d", "UniqueId", "same.id"))),
    ];
    let table = scanner.scan_mods(&entries);
    assert_eq!(table.len(), 2);
    assert_eq!(table[0].manifest_info.Name, "Second");
    assert_eq!(table[0].path, "/mods/Second");
    assert_eq!(table[1].manifest_info.UniqueId, "other.id");
}

#[test]
fn scan_skips_malformed_and_missing() {
    let scanner = ModScanner::from("/mods");
    let entries = vec![
        entry("Broken", Some("{ not json")),
        entry("Empty", None),
        entry("NoId", Some("{\"Name\": \"n\", \"Version\": \"v\", \"Description\": \"d\"}")),
    ];
    assert!(scanner.scan_mods(&entries).is_empty());
}

#[test]
fn scan_errors_name_the_cause() {
    let scanner = ModScanner::from("/mods");
    assert_eq!(scanner.scan_single_mod(&entry("a", None)).unwrap_err(), ScanError::MissingManifest);
    assert_eq!(parse_manifest("[1, 2]").unwrap_err(), ScanError::InvalidJson);
    assert_eq!(parse_manifest("not json").unwrap_err(), ScanError::InvalidJson);
    assert_eq!(
        parse_manifest("{\"Version\": \"v\", \"Description\": \"d\", \"UniqueId\": \"x\"}")
            .unwrap_err(),
        ScanError::MissingField(ManifestField::Name)
    );
    assert_eq!(
        parse_manifest("{\"Name\": 3, \"Version\": \"v\", \"Description\": \"d\", \"UniqueId\": \"x\"}")
            .unwrap_err(),
        ScanError::InvalidField(ManifestField::Name)
    );
    assert_eq!(
        parse_manifest("{\"Name\": \"n\", \"Description\": \"d\", \"UniqueId\": \"x\"}").unwrap_err(),
        ScanError::MissingField(ManifestField::Version)
    );
    assert_eq!(
        parse_manifest("{\"Name\": \"n\", \"Version\": \"v\", \"Description\": null, \"UniqueId\": \"x\"}")
            .unwrap_err(),
        ScanError::InvalidField(ManifestField::Description)
    );
    assert_eq!(
        parse_manifest("{\"Name\": \"n\", \"Version\": \"v\", \"Description\": \"d\"}").unwrap_err(),
        ScanError::MissingField(ManifestField::UniqueId)
    );
    assert_eq!(
        parse_manifest(
            "{\"Name\": \"n\", \"Version\": \"v\", \"Description\": \"d\", \"UniqueId\": \"x\", \"UniqueID\": \"y\"}"
        )
        .unwrap_err(),
        ScanError::DuplicateField(ManifestField::UniqueId)
    );
    assert_eq!(
        parse_manifest("{\"Name\": \"n\", \"Version\": \"v\", \"Description\": \"d\", \"UniqueID\": \"\"}")
            .unwrap_err(),
        ScanError::EmptyUniqueId
    );
}

#[test]
fn parse_manifest_reads_json_text() {
    let m = parse_manifest(
        "{ \"UniqueID\": \"a.b\", \"Description\": \"line\\nbreak \\u00e9\", \"Version\": \"1.2\", \"Name\": \"N\", \"Extra\": [1] }",
    )
    .unwrap();
    assert_eq!(m.Name, "N");
    assert_eq!(m.Version, "1.2");
    assert_eq!(m.Description, "line\nbreak é");
    assert_eq!(m.UniqueId, "a.b");
}

#[test]
fn manifest_from_fields_takes_either_spelling() {
    let fields = vec![
        ("Name".to_string(), Some("N".to_string())),
        ("Version".to_string(), Some("1".to_string())),
        ("Description".to_string(), Some("D".to_string())),
        ("UniqueID".to_string(), Some("x.y".to_string())),
        ("Dependencies".to_string(), None),
    ];
    let m = manifest_from_fields(&fields).unwrap();
    assert_eq!(m.UniqueId, "x.y");
    assert_eq!(lookup_field(&fields, "Dependencies"), Some(None));
    assert_eq!(lookup_field(&fields, "UniqueId"), None);
    assert_eq!(lookup_field(&fields, "Name"), Some(Some("N".to_string())));
}

#[test]
fn scan_failures_lists_skipped_folders() {
    let scanner = ModScanner::from("/mods");
    let entries = vec![
        entry("Good", Some(&manifest("Good", "1", "d", "UniqueId", "good.id"))),
        entry("Broken", Some("{ not json")),
        entry("Empty", None),
    ];
    assert_eq!(
        scanner.scan_failures(&entries),
        vec![
            ("Broken".to_string(), ScanError::InvalidJson),
            ("Empty".to_string(), ScanError::MissingManifest),
        ]
    );
}
