//! Discovery of mods: each immediate subfolder of the mods folder whose
//! identity file holds a well-formed identity is a mod.

use vstd::prelude::*;

use crate::mods_manager::mods_info_storage::{mod_ids_distinct, upsert_all, upsert_records};
use crate::mods_manager::{mods_view, ManifestInfo, ManifestView, ModInfo, ModView};
use crate::paths::{join, join_of, same_text};

verus! {

broadcast use vstd::seq_lib::group_seq_properties;

/// The top-level entries of a JSON text that is an object: each key with its
/// value where that value is a string, `None` where it is of another kind.
/// `None` for a text that is not a JSON object.
pub uninterp spec fn json_object_fields(text: Seq<char>) -> Option<Seq<(Seq<char>, Option<Seq<char>>)>>;

pub type FieldsView = Seq<(Seq<char>, Option<Seq<char>>)>;

pub open spec fn opt_string_view(o: Option<String>) -> Option<Seq<char>> {
    match o {
        Some(s) => Some(s@),
        None => None,
    }
}

pub open spec fn fields_view(v: Seq<(String, Option<String>)>) -> FieldsView {
    v.map_values(|f: (String, Option<String>)| (f.0@, opt_string_view(f.1)))
}

/// Relies on serde_json::from_str into a serde_json::Map: the text parses
/// as a JSON object, whose entries are read back with their string values.
#[verifier::external_body]
fn parse_json_object(text: &str) -> (r: Option<Vec<(String, Option<String>)>>)
    ensures
        match r {
            Some(v) => json_object_fields(text@) == Some(fields_view(v@)),
            None => json_object_fields(text@) is None,
        },
{
    match serde_json::from_str::<serde_json::Map<String, serde_json::Value>>(text) {
        Ok(map) => Some(
            map.into_iter().map(|(k, v)| match v {
                serde_json::Value::String(s) => (k, Some(s)),
                _ => (k, None),
            }).collect(),
        ),
        Err(_) => None,
    }
}

/// A field of the identity file.
#[derive(Debug, Clone, Copy, PartialEq, Eq, Structural)]
pub enum ManifestField {
    Name,
    Version,
    Description,
    UniqueId,
}

/// Why a folder is not taken as a mod.
#[derive(Debug, Clone, Copy, PartialEq, Eq, Structural)]
pub enum ScanError {
    /// The folder holds no identity file.
    MissingManifest,
    /// The identity file is not a JSON object.
    InvalidJson,
    /// A required field is absent.
    MissingField(ManifestField),
    /// A required field holds something other than a string.
    InvalidField(ManifestField),
    /// The identifier is given under both of its spellings.
    DuplicateField(ManifestField),
    /// The identifier is the empty string.
    EmptyUniqueId,
}

/// The value of the last entry of `fields` under `key`.
pub open spec fn field_lookup(fields: FieldsView, key: Seq<char>) -> Option<Option<Seq<char>>>
    decreases fields.len(),
{
    if fields.len() == 0 {
        None
    } else if fields.last().0 == key {
        Some(fields.last().1)
    } else {
        field_lookup(fields.drop_last(), key)
    }
}

/// A required string field: its text, or why it cannot be had.
pub open spec fn required_field(
    fields: FieldsView,
    key: Seq<char>,
    field: ManifestField,
) -> Result<Seq<char>, ScanError> {
    match field_lookup(fields, key) {
        None => Err(ScanError::MissingField(field)),
        Some(None) => Err(ScanError::InvalidField(field)),
        Some(Some(v)) => Ok(v),
    }
}

/// The identifier, under either of its two spellings but not both.
pub open spec fn unique_id_field(fields: FieldsView) -> Result<Seq<char>, ScanError> {
    let a = field_lookup(fields, "UniqueId"@);
    let b = field_lookup(fields, "UniqueID"@);
    if a is Some && b is Some {
        Err(ScanError::DuplicateField(ManifestField::UniqueId))
    } else if a is Some {
        required_field(fields, "UniqueId"@, ManifestField::UniqueId)
    } else {
        required_field(fields, "UniqueID"@, ManifestField::UniqueId)
    }
}

/// The identity that the entries of an identity file declare. The fields
/// are checked in the order name, version, description, identifier; other
/// entries are ignored.
pub open spec fn manifest_of_fields(fields: FieldsView) -> Result<ManifestView, ScanError> {
    let name = required_field(fields, "Name"@, ManifestField::Name);
    let version = required_field(fields, "Version"@, ManifestField::Version);
    let description = required_field(fields, "Description"@, ManifestField::Description);
    let id = unique_id_field(fields);
    if name is Err {
        Err(name->Err_0)
    } else if version is Err {
        Err(version->Err_0)
    } else if description is Err {
        Err(description->Err_0)
    } else if id is Err {
        Err(id->Err_0)
    } else if id->Ok_0.len() == 0 {
        Err(ScanError::EmptyUniqueId)
    } else {
        Ok(
            ManifestView {
                name: name->Ok_0,
                version: version->Ok_0,
                description: description->Ok_0,
                unique_id: id->Ok_0,
            },
        )
    }
}

/// The identity that an identity file's text declares.
pub open spec fn manifest_of_text(text: Seq<char>) -> Result<ManifestView, ScanError> {
    match json_object_fields(text) {
        None => Err(ScanError::InvalidJson),
        Some(fields) => manifest_of_fields(fields),
    }
}

pub open spec fn manifest_result_view(r: Result<ManifestInfo, ScanError>) -> Result<
    ManifestView,
    ScanError,
> {
    match r {
        Ok(m) => Ok(m@),
        Err(e) => Err(e),
    }
}

/// The value of the last entry of `fields` under `key`.
pub fn lookup_field(fields: &Vec<(String, Option<String>)>, key: &str) -> (r: Option<
    Option<String>,
>)
    ensures
        match r {
            None => field_lookup(fields_view(fields@), key@) is None,
            Some(v) => field_lookup(fields_view(fields@), key@) == Some(opt_string_view(v)),
        },
{
    let ghost fv = fields_view(fields@);
    let mut found: Option<Option<String>> = None;
    let mut i: usize = 0;
    assert(fv.take(0) =~= Seq::<(Seq<char>, Option<Seq<char>>)>::empty());
    while i < fields.len()
        invariant
            i <= fields.len(),
            fv == fields_view(fields@),
            match found {
                None => field_lookup(fv.take(i as int), key@) is None,
                Some(v) => field_lookup(fv.take(i as int), key@) == Some(opt_string_view(v)),
            },
        decreases fields.len() - i,
    {
        assert(fv.take(i + 1).drop_last() =~= fv.take(i as int));
        if same_text(fields[i].0.as_str(), key) {
            found = Some(fields[i].1.clone());
        }
        i = i + 1;
    }
    assert(fv.take(i as int) =~= fv);
    found
}

fn required_string(fields: &Vec<(String, Option<String>)>, key: &str, field: ManifestField) -> (r:
    Result<String, ScanError>)
    ensures
        match r {
            Ok(s) => required_field(fields_view(fields@), key@, field) == Ok::<
                Seq<char>,
                ScanError,
            >(s@),
            Err(e) => required_field(fields_view(fields@), key@, field) == Err::<
                Seq<char>,
                ScanError,
            >(e),
        },
{
    match lookup_field(fields, key) {
        None => Err(ScanError::MissingField(field)),
        Some(None) => Err(ScanError::InvalidField(field)),
        Some(Some(v)) => Ok(v),
    }
}

/// The identity that the entries of an identity file declare: `Name`,
/// `Version`, `Description` and `UniqueId` (or `UniqueID`), each a string,
/// the identifier non-empty and given under one spelling only.
pub fn manifest_from_fields(fields: &Vec<(String, Option<String>)>) -> (r: Result<
    ManifestInfo,
    ScanError,
>)
    ensures
        manifest_result_view(r) == manifest_of_fields(fields_view(fields@)),
{
    let ghost fv = fields_view(fields@);
    proof {
        reveal_strlit("UniqueId");
        reveal_strlit("UniqueID");
    }
    let name = required_string(fields, "Name", ManifestField::Name);
    let version = required_string(fields, "Version", ManifestField::Version);
    let description = required_string(fields, "Description", ManifestField::Description);
    let has_id = lookup_field(fields, "UniqueId").is_some();
    let has_alias = lookup_field(fields, "UniqueID").is_some();
    let id = if has_id && has_alias {
        Err(ScanError::DuplicateField(ManifestField::UniqueId))
    } else if has_id {
        required_string(fields, "UniqueId", ManifestField::UniqueId)
    } else {
        required_string(fields, "UniqueID", ManifestField::UniqueId)
    };
    assert(id is Ok ==> unique_id_field(fv) == Ok::<Seq<char>, ScanError>(id->Ok_0@));
    assert(id is Err ==> unique_id_field(fv) == Err::<Seq<char>, ScanError>(id->Err_0));
    match (name, version, description, id) {
        (Err(e), _, _, _) => Err(e),
        (Ok(_), Err(e), _, _) => Err(e),
        (Ok(_), Ok(_), Err(e), _) => Err(e),
        (Ok(_), Ok(_), Ok(_), Err(e)) => Err(e),
        (Ok(n), Ok(v), Ok(d), Ok(u)) => {
            if u.unicode_len() == 0 {
                Err(ScanError::EmptyUniqueId)
            } else {
                Ok(ManifestInfo { Name: n, Version: v, Description: d, UniqueId: u })
            }
        },
    }
}

/// The identity that the text of an identity file declares.
pub fn parse_manifest(text: &str) -> (r: Result<ManifestInfo, ScanError>)
    ensures
        manifest_result_view(r) == manifest_of_text(text@),
{
    match parse_json_object(text) {
        None => Err(ScanError::InvalidJson),
        Some(fields) => manifest_from_fields(&fields),
    }
}

/// An immediate subfolder of the mods folder, as read from disk: its name
/// and the text of its identity file, where it has one.
#[derive(Debug, Clone)]
pub struct ModDirEntry {
    pub folder_name: String,
    pub manifest: Option<String>,
}

pub ghost struct ModDirEntryView {
    pub folder_name: Seq<char>,
    pub manifest: Option<Seq<char>>,
}

impl View for ModDirEntry {
    type V = ModDirEntryView;

    open spec fn view(&self) -> ModDirEntryView {
        ModDirEntryView { folder_name: self.folder_name@, manifest: opt_string_view(self.manifest) }
    }
}

/// The mod that a subfolder of `root` holds, if it holds one.
pub open spec fn scan_entry(root: Seq<char>, e: ModDirEntryView) -> Result<ModView, ScanError> {
    match e.manifest {
        None => Err(ScanError::MissingManifest),
        Some(text) => match manifest_of_text(text) {
            Err(err) => Err(err),
            Ok(m) => Ok(ModView { manifest: m, path: join_of(root, e.folder_name) }),
        },
    }
}

/// The mods that the subfolders `entries` of `root` hold, in order.
pub open spec fn scanned(root: Seq<char>, entries: Seq<ModDirEntryView>) -> Seq<ModView>
    decreases entries.len(),
{
    if entries.len() == 0 {
        Seq::empty()
    } else {
        let rest = scanned(root, entries.drop_last());
        match scan_entry(root, entries.last()) {
            Ok(m) => rest.push(m),
            Err(_) => rest,
        }
    }
}

/// The subfolders of `entries` that hold no mod, each with the reason, in
/// order.
pub open spec fn scan_failures_of(root: Seq<char>, entries: Seq<ModDirEntryView>) -> Seq<
    (Seq<char>, ScanError),
>
    decreases entries.len(),
{
    if entries.len() == 0 {
        Seq::empty()
    } else {
        let rest = scan_failures_of(root, entries.drop_last());
        match scan_entry(root, entries.last()) {
            Ok(_) => rest,
            Err(e) => rest.push((entries.last().folder_name, e)),
        }
    }
}

pub open spec fn failures_view(v: Seq<(String, ScanError)>) -> Seq<(Seq<char>, ScanError)> {
    v.map_values(|f: (String, ScanError)| (f.0@, f.1))
}

/// What a scan of `root` yields: the mods found, keyed by unique id, the
/// later of two folders that declare the same id taking the place of the
/// earlier one.
pub open spec fn discovered(root: Seq<char>, entries: Seq<ModDirEntryView>) -> Seq<ModView> {
    upsert_all(Seq::empty(), scanned(root, entries))
}

pub open spec fn entries_view(v: Seq<ModDirEntry>) -> Seq<ModDirEntryView> {
    v.map_values(|e: ModDirEntry| e@)
}

/// Reads the mods inside one folder of mods.
#[derive(Debug)]
pub struct ModScanner {
    mods_folder_path: String,
}

impl View for ModScanner {
    type V = Seq<char>;

    closed spec fn view(&self) -> Seq<char> {
        self.mods_folder_path@
    }
}

impl ModScanner {
    /// Sets the folder that holds the mods.
    pub fn set_mods_path(&mut self, mods_path: String)
        ensures
            final(self)@ == mods_path@,
    {
        self.mods_folder_path = mods_path;
    }

    /// A scanner of the default Steam install's mods folder.
    pub fn default() -> (r: ModScanner)
        ensures
            r@ == "C:/Program Files (x86)/Steam/steamapps/common/Stardew Valley/Mods"@,
    {
        ModScanner {
            mods_folder_path: "C:/Program Files (x86)/Steam/steamapps/common/Stardew Valley/Mods".to_string(),
        }
    }

    /// A scanner of the mods folder `sv_mods_path`.
    pub fn from(sv_mods_path: &str) -> (r: ModScanner)
        ensures
            r@ == sv_mods_path@,
    {
        ModScanner { mods_folder_path: sv_mods_path.to_string() }
    }

    /// The folder that holds the mods.
    pub fn mods_path(&self) -> (r: &str)
        ensures
            r@ == self@,
    {
        self.mods_folder_path.as_str()
    }

    /// The mod that the subfolder `entry` holds: its identity, and the
    /// subfolder's path as its location.
    pub fn scan_single_mod(&self, entry: &ModDirEntry) -> (r: Result<ModInfo, ScanError>)
        ensures
            match r {
                Ok(m) => scan_entry(self@, entry@) == Ok::<ModView, ScanError>(m@),
                Err(e) => scan_entry(self@, entry@) == Err::<ModView, ScanError>(e),
            },
    {
        match &entry.manifest {
            None => Err(ScanError::MissingManifest),
            Some(text) => match parse_manifest(text.as_str()) {
                Err(e) => Err(e),
                Ok(m) => Ok(
                    ModInfo {
                        manifest_info: m,
                        path: join(self.mods_folder_path.as_str(), entry.folder_name.as_str()),
                    },
                ),
            },
        }
    }

    /// The subfolders of `entries` that are skipped by `scan_mods`, each
    /// with the reason, in order.
    pub fn scan_failures(&self, entries: &Vec<ModDirEntry>) -> (r: Vec<(String, ScanError)>)
        ensures
            failures_view(r@) == scan_failures_of(self@, entries_view(entries@)),
    {
        let ghost ev = entries_view(entries@);
        let mut r: Vec<(String, ScanError)> = Vec::new();
        let mut i: usize = 0;
        assert(ev.take(0) =~= Seq::<ModDirEntryView>::empty());
        assert(failures_view(r@) =~= Seq::<(Seq<char>, ScanError)>::empty());
        while i < entries.len()
            invariant
                i <= entries.len(),
                ev == entries_view(entries@),
                failures_view(r@) == scan_failures_of(self@, ev.take(i as int)),
            decreases entries.len() - i,
        {
            let ghost prev = r@;
            assert(ev.take(i + 1).drop_last() =~= ev.take(i as int));
            assert(ev.take(i + 1).last() == entries@[i as int]@);
            match self.scan_single_mod(&entries[i]) {
                Ok(_) => {},
                Err(e) => {
                    let f = (entries[i].folder_name.clone(), e);
                    r.push(f);
                    assert(failures_view(r@) =~= failures_view(prev).push((f.0@, f.1)));
                },
            }
            i = i + 1;
        }
        assert(ev.take(i as int) =~= ev);
        r
    }

    /// The mods that the subfolders `entries` hold, one per unique id: a
    /// folder without an identity file or with a malformed one is skipped,
    /// and of two folders that declare the same id the later one is kept,
    /// in the place of the earlier.
    pub fn scan_mods(&self, entries: &Vec<ModDirEntry>) -> (r: Vec<ModInfo>)
        ensures
            mods_view(r@) == discovered(self@, entries_view(entries@)),
            mod_ids_distinct(mods_view(r@)),
    {
        let ghost ev = entries_view(entries@);
        let mut found: Vec<ModInfo> = Vec::new();
        let mut i: usize = 0;
        assert(ev.take(0) =~= Seq::<ModDirEntryView>::empty());
        while i < entries.len()
            invariant
                i <= entries.len(),
                ev == entries_view(entries@),
                mods_view(found@) == scanned(self@, ev.take(i as int)),
            decreases entries.len() - i,
        {
            let ghost prev = found@;
            assert(ev.take(i + 1).drop_last() =~= ev.take(i as int));
            match self.scan_single_mod(&entries[i]) {
                Ok(m) => {
                    found.push(m);
                    assert(mods_view(found@) =~= mods_view(prev).push(m@));
                },
                Err(_) => {},
            }
            i = i + 1;
        }
        assert(ev.take(i as int) =~= ev);
        let mut table: Vec<ModInfo> = Vec::new();
        assert(mods_view(table@) =~= Seq::<ModView>::empty());
        upsert_records(&mut table, &found);
        table
    }
}

} // verus!
