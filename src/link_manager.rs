//! The link projector: for each profile, a directory under a common parent
//! whose entries are links named by each member mod's folder name. The
//! projector plans the filesystem changes as `LinkAction`s, which the caller
//! carries out; `apply_actions` is what they do to the projection.

use vstd::prelude::*;

use crate::paths::{folder_name, folder_name_of, join, join_of, same_text};

verus! {

broadcast use vstd::seq_lib::group_seq_properties;

/// One change to the filesystem projection.
#[derive(Debug, Clone, PartialEq, Eq)]
pub enum LinkAction {
    /// Create the directory `dir` of `profile`, where it is absent.
    CreateProfileDir { profile: String, dir: String },
    /// Create, inside the directory of `profile`, the link `link` named
    /// `link_name` to the mod folder `target`, where no entry of that name is.
    CreateLink { profile: String, link_name: String, link: String, target: String },
    /// Delete the entry `link` named `link_name` in the directory of `profile`.
    RemoveLink { profile: String, link_name: String, link: String },
    /// Delete the directory `dir` of `profile` with all it holds.
    RemoveProfileDir { profile: String, dir: String },
}

pub ghost enum LinkActionView {
    CreateProfileDir { profile: Seq<char>, dir: Seq<char> },
    CreateLink { profile: Seq<char>, link_name: Seq<char>, link: Seq<char>, target: Seq<char> },
    RemoveLink { profile: Seq<char>, link_name: Seq<char>, link: Seq<char> },
    RemoveProfileDir { profile: Seq<char>, dir: Seq<char> },
}

impl View for LinkAction {
    type V = LinkActionView;

    open spec fn view(&self) -> LinkActionView {
        match self {
            LinkAction::CreateProfileDir { profile, dir } => LinkActionView::CreateProfileDir {
                profile: profile@,
                dir: dir@,
            },
            LinkAction::CreateLink { profile, link_name, link, target } => LinkActionView::CreateLink {
                profile: profile@,
                link_name: link_name@,
                link: link@,
                target: target@,
            },
            LinkAction::RemoveLink { profile, link_name, link } => LinkActionView::RemoveLink {
                profile: profile@,
                link_name: link_name@,
                link: link@,
            },
            LinkAction::RemoveProfileDir { profile, dir } => LinkActionView::RemoveProfileDir {
                profile: profile@,
                dir: dir@,
            },
        }
    }
}

pub open spec fn actions_view(v: Seq<LinkAction>) -> Seq<LinkActionView> {
    v.map_values(|a: LinkAction| a@)
}

/// The projection as the names it holds: each profile directory that
/// exists, with the names of the entries inside it.
pub type Projection = Map<Seq<char>, Set<Seq<char>>>;

/// The projection after one action.
pub open spec fn apply_action(fs: Projection, a: LinkActionView) -> Projection {
    match a {
        LinkActionView::CreateProfileDir { profile, .. } => if fs.contains_key(profile) {
            fs
        } else {
            fs.insert(profile, Set::empty())
        },
        LinkActionView::CreateLink { profile, link_name, .. } => if fs.contains_key(profile) {
            fs.insert(profile, fs[profile].insert(link_name))
        } else {
            fs
        },
        LinkActionView::RemoveLink { profile, link_name, .. } => if fs.contains_key(profile) {
            fs.insert(profile, fs[profile].remove(link_name))
        } else {
            fs
        },
        LinkActionView::RemoveProfileDir { profile, .. } => fs.remove(profile),
    }
}

/// The projection after the actions, in order.
pub open spec fn apply_actions(fs: Projection, acts: Seq<LinkActionView>) -> Projection
    decreases acts.len(),
{
    if acts.len() == 0 {
        fs
    } else {
        apply_action(apply_actions(fs, acts.drop_last()), acts.last())
    }
}

/// The directory of `profile` under `root`.
pub open spec fn profile_dir_of(root: Seq<char>, profile: Seq<char>) -> Seq<char> {
    join_of(root, profile)
}

/// The path of the entry `name` in the directory of `profile`.
pub open spec fn link_path_of(root: Seq<char>, profile: Seq<char>, name: Seq<char>) -> Seq<char> {
    join_of(join_of(root, profile), name)
}

pub open spec fn create_dir_action(root: Seq<char>, profile: Seq<char>) -> LinkActionView {
    LinkActionView::CreateProfileDir { profile, dir: profile_dir_of(root, profile) }
}

pub open spec fn create_link_action(root: Seq<char>, profile: Seq<char>, target: Seq<char>) -> LinkActionView {
    LinkActionView::CreateLink {
        profile,
        link_name: folder_name_of(target),
        link: link_path_of(root, profile, folder_name_of(target)),
        target,
    }
}

pub open spec fn remove_link_action(root: Seq<char>, profile: Seq<char>, name: Seq<char>) -> LinkActionView {
    LinkActionView::RemoveLink { profile, link_name: name, link: link_path_of(root, profile, name) }
}

pub open spec fn remove_dir_action(root: Seq<char>, profile: Seq<char>) -> LinkActionView {
    LinkActionView::RemoveProfileDir { profile, dir: profile_dir_of(root, profile) }
}

/// One link per mod folder of `targets` that has a folder name.
pub open spec fn link_creations(root: Seq<char>, profile: Seq<char>, targets: Seq<Seq<char>>) -> Seq<
    LinkActionView,
>
    decreases targets.len(),
{
    if targets.len() == 0 {
        Seq::empty()
    } else {
        let rest = link_creations(root, profile, targets.drop_last());
        if folder_name_of(targets.last()).len() == 0 {
            rest
        } else {
            rest.push(create_link_action(root, profile, targets.last()))
        }
    }
}

/// The plan that makes `profile` hold links to `targets`: its directory
/// first, then the links.
pub open spec fn create_links_plan(root: Seq<char>, profile: Seq<char>, targets: Seq<Seq<char>>) -> Seq<
    LinkActionView,
> {
    seq![create_dir_action(root, profile)] + link_creations(root, profile, targets)
}

pub open spec fn strs_view(v: Seq<String>) -> Seq<Seq<char>> {
    v.map_values(|s: String| s@)
}

/// A profile directory found on disk, with the names of its entries.
#[derive(Debug, Clone)]
pub struct ProfileDirListing {
    pub profile: String,
    pub entries: Vec<String>,
}

pub ghost struct ProfileDirView {
    pub profile: Seq<char>,
    pub entries: Seq<Seq<char>>,
}

impl View for ProfileDirListing {
    type V = ProfileDirView;

    open spec fn view(&self) -> ProfileDirView {
        ProfileDirView { profile: self.profile@, entries: strs_view(self.entries@) }
    }
}

pub open spec fn listings_view(v: Seq<ProfileDirListing>) -> Seq<ProfileDirView> {
    v.map_values(|d: ProfileDirListing| d@)
}

/// The removal of the entry `name` from each directory of `dirs` that
/// holds one.
pub open spec fn removal_plan(root: Seq<char>, dirs: Seq<ProfileDirView>, name: Seq<char>) -> Seq<
    LinkActionView,
>
    decreases dirs.len(),
{
    if dirs.len() == 0 {
        Seq::empty()
    } else {
        let rest = removal_plan(root, dirs.drop_last(), name);
        if dirs.last().entries.contains(name) {
            rest.push(remove_link_action(root, dirs.last().profile, name))
        } else {
            rest
        }
    }
}

/// The names that links to `targets` get: the non-empty folder names.
pub open spec fn link_names_of(targets: Seq<Seq<char>>) -> Set<Seq<char>> {
    Set::new(
        |n: Seq<char>|
            n.len() > 0 && exists|i: int| 0 <= i < targets.len() && folder_name_of(#[trigger] targets[i]) == n,
    )
}

/// The removal from `profile` of each entry of `listed` that `keep` lacks.
pub open spec fn stale_removals(
    root: Seq<char>,
    profile: Seq<char>,
    listed: Seq<Seq<char>>,
    keep: Set<Seq<char>>,
) -> Seq<LinkActionView>
    decreases listed.len(),
{
    if listed.len() == 0 {
        Seq::empty()
    } else {
        let rest = stale_removals(root, profile, listed.drop_last(), keep);
        if keep.contains(listed.last()) {
            rest
        } else {
            rest.push(remove_link_action(root, profile, listed.last()))
        }
    }
}

/// The plan that makes the directory of `profile`, which holds the entries
/// `listed`, hold the links to `targets` and nothing else.
pub open spec fn sync_plan(
    root: Seq<char>,
    profile: Seq<char>,
    targets: Seq<Seq<char>>,
    listed: Seq<Seq<char>>,
) -> Seq<LinkActionView> {
    create_links_plan(root, profile, targets) + stale_removals(
        root,
        profile,
        listed,
        link_names_of(targets),
    )
}

/// The entries listed for the directory of `profile`; empty where it is
/// not listed.
pub open spec fn listed_entries(dirs: Seq<ProfileDirView>, profile: Seq<char>) -> Seq<Seq<char>>
    decreases dirs.len(),
{
    if dirs.len() == 0 {
        Seq::empty()
    } else if dirs.last().profile == profile {
        dirs.last().entries
    } else {
        listed_entries(dirs.drop_last(), profile)
    }
}

/// Whether a link to one of `targets` is named `name`.
pub fn names_a_link(targets: &Vec<String>, name: &str) -> (r: bool)
    ensures
        r == link_names_of(strs_view(targets@)).contains(name@),
{
    if name.unicode_len() == 0 {
        return false;
    }
    let ghost tv = strs_view(targets@);
    let mut i: usize = 0;
    while i < targets.len()
        invariant
            i <= targets.len(),
            name@.len() > 0,
            tv == strs_view(targets@),
            forall|k: int| 0 <= k < i ==> folder_name_of(#[trigger] tv[k]) != name@,
        decreases targets.len() - i,
    {
        let f = folder_name(targets[i].as_str());
        if same_text(f.as_str(), name) {
            assert(folder_name_of(tv[i as int]) == name@);
            assert(link_names_of(tv).contains(name@));
            return true;
        }
        i = i + 1;
    }
    assert(!link_names_of(tv).contains(name@));
    false
}

fn clone_strings(v: &Vec<String>) -> (r: Vec<String>)
    ensures
        strs_view(r@) == strs_view(v@),
{
    let mut r: Vec<String> = Vec::new();
    let mut j: usize = 0;
    while j < v.len()
        invariant
            j <= v.len(),
            strs_view(r@) == strs_view(v@).take(j as int),
        decreases v.len() - j,
    {
        let ghost prev = r@;
        let e = v[j].clone();
        r.push(e);
        assert(strs_view(r@) =~= strs_view(prev).push(e@));
        assert(strs_view(v@).take(j + 1) =~= strs_view(v@).take(j as int).push(v@[j as int]@));
        j = j + 1;
    }
    assert(strs_view(v@).take(j as int) =~= strs_view(v@));
    r
}

/// The entries listed for the directory of `profile`; empty where it is
/// not listed.
pub fn entries_listed(dirs: &Vec<ProfileDirListing>, profile: &str) -> (r: Vec<String>)
    ensures
        strs_view(r@) == listed_entries(listings_view(dirs@), profile@),
{
    let ghost dv = listings_view(dirs@);
    let mut r: Vec<String> = Vec::new();
    let mut i: usize = 0;
    assert(dv.take(0) =~= Seq::<ProfileDirView>::empty());
    assert(strs_view(r@) =~= Seq::<Seq<char>>::empty());
    while i < dirs.len()
        invariant
            i <= dirs.len(),
            dv == listings_view(dirs@),
            strs_view(r@) == listed_entries(dv.take(i as int), profile@),
        decreases dirs.len() - i,
    {
        assert(dv.take(i + 1).drop_last() =~= dv.take(i as int));
        assert(dv.take(i + 1).last() == dirs@[i as int]@);
        if same_text(dirs[i].profile.as_str(), profile) {
            r = clone_strings(&dirs[i].entries);
        }
        i = i + 1;
    }
    assert(dv.take(i as int) =~= dv);
    r
}

/// Plans the projection of profiles under one parent directory.
#[derive(Debug, Clone)]
pub struct LinkManager {
    pub link_parent_path: String,
}

impl View for LinkManager {
    type V = Seq<char>;

    open spec fn view(&self) -> Seq<char> {
        self.link_parent_path@
    }
}

impl LinkManager {
    /// Profiles under the default Steam install's `Profiles` directory.
    pub fn default() -> (r: LinkManager)
        ensures
            r@ == "C:/Program Files (x86)/Steam/steamapps/common/Stardew Valley/Profiles"@,
    {
        LinkManager {
            link_parent_path: "C:/Program Files (x86)/Steam/steamapps/common/Stardew Valley/Profiles".to_string(),
        }
    }

    /// Profiles under `link_parent_path`.
    pub fn from(link_parent_path: &str) -> (r: LinkManager)
        ensures
            r@ == link_parent_path@,
    {
        LinkManager { link_parent_path: link_parent_path.to_string() }
    }

    /// The directory of the profile `profile_name`.
    pub fn profile_dir(&self, profile_name: &str) -> (r: String)
        ensures
            r@ == profile_dir_of(self@, profile_name@),
    {
        join(self.link_parent_path.as_str(), profile_name)
    }

    /// The path of the entry `name` in the directory of `profile_name`.
    pub fn link_path(&self, profile_name: &str, name: &str) -> (r: String)
        ensures
            r@ == link_path_of(self@, profile_name@, name@),
    {
        let dir = self.profile_dir(profile_name);
        join(dir.as_str(), name)
    }

    /// The link to the mod folder `target` inside `profile_name`, named by
    /// the folder's name.
    pub fn create_link(&self, target: &str, profile_name: &str) -> (r: LinkAction)
        ensures
            r@ == create_link_action(self@, profile_name@, target@),
    {
        let name = folder_name(target);
        let link = self.link_path(profile_name, name.as_str());
        LinkAction::CreateLink {
            profile: profile_name.to_string(),
            link_name: name,
            link,
            target: target.to_string(),
        }
    }

    /// The plan that creates the directory of `profile_name` where it is
    /// absent and a link in it to each mod folder of `mod_path_vec`; a path
    /// without a folder name gets no link.
    pub fn create_links(&self, mod_path_vec: &Vec<String>, profile_name: &str) -> (r: Vec<
        LinkAction,
    >)
        ensures
            actions_view(r@) == create_links_plan(self@, profile_name@, strs_view(mod_path_vec@)),
    {
        let ghost targets = strs_view(mod_path_vec@);
        let mut r: Vec<LinkAction> = Vec::new();
        r.push(
            LinkAction::CreateProfileDir {
                profile: profile_name.to_string(),
                dir: self.profile_dir(profile_name),
            },
        );
        let ghost head = actions_view(r@);
        assert(head =~= seq![create_dir_action(self@, profile_name@)]);
        assert(targets.take(0) =~= Seq::<Seq<char>>::empty());
        let mut i: usize = 0;
        while i < mod_path_vec.len()
            invariant
                i <= mod_path_vec.len(),
                targets == strs_view(mod_path_vec@),
                head == seq![create_dir_action(self@, profile_name@)],
                actions_view(r@) == head + link_creations(
                    self@,
                    profile_name@,
                    targets.take(i as int),
                ),
            decreases mod_path_vec.len() - i,
        {
            let ghost prev = r@;
            assert(targets.take(i + 1).drop_last() =~= targets.take(i as int));
            let name = folder_name(mod_path_vec[i].as_str());
            if name.unicode_len() > 0 {
                let a = self.create_link(mod_path_vec[i].as_str(), profile_name);
                r.push(a);
                assert(actions_view(r@) =~= actions_view(prev).push(a@));
            }
            i = i + 1;
        }
        assert(targets.take(i as int) =~= targets);
        r
    }

    /// The removal of the directory of `profile_name` with all it holds.
    pub fn remove_profile(&self, profile_name: &str) -> (r: LinkAction)
        ensures
            r@ == remove_dir_action(self@, profile_name@),
    {
        LinkAction::RemoveProfileDir {
            profile: profile_name.to_string(),
            dir: self.profile_dir(profile_name),
        }
    }

    /// The removal of the link to the mod folder `mod_path` from the
    /// directory of `profile_name`: the entry named by the folder's name.
    /// `None` where the path has no folder name.
    pub fn remove_mod_from_profile(&self, profile_name: &str, mod_path: &str) -> (r: Option<
        LinkAction,
    >)
        ensures
            folder_name_of(mod_path@).len() == 0 ==> r is None,
            folder_name_of(mod_path@).len() > 0 ==> (r matches Some(a) && a@ == remove_link_action(
                self@,
                profile_name@,
                folder_name_of(mod_path@),
            )),
    {
        let name = folder_name(mod_path);
        if name.unicode_len() == 0 {
            None
        } else {
            Some(self.remove_link(profile_name, name.as_str()))
        }
    }

    /// The removal of the entry `name` from each directory of `dirs` that
    /// holds an entry of that name.
    pub fn remove_link_everywhere(&self, dirs: &Vec<ProfileDirListing>, name: &str) -> (r: Vec<
        LinkAction,
    >)
        ensures
            actions_view(r@) == removal_plan(self@, listings_view(dirs@), name@),
    {
        let ghost dv = listings_view(dirs@);
        let mut r: Vec<LinkAction> = Vec::new();
        let mut i: usize = 0;
        assert(dv.take(0) =~= Seq::<ProfileDirView>::empty());
        assert(actions_view(r@) =~= Seq::<LinkActionView>::empty());
        while i < dirs.len()
            invariant
                i <= dirs.len(),
                dv == listings_view(dirs@),
                actions_view(r@) == removal_plan(self@, dv.take(i as int), name@),
            decreases dirs.len() - i,
        {
            let ghost prev = r@;
            assert(dv.take(i + 1).drop_last() =~= dv.take(i as int));
            let d = &dirs[i];
            let mut found = false;
            let mut k: usize = 0;
            while k < d.entries.len() && !found
                invariant
                    k <= d.entries.len(),
                    found ==> d@.entries.contains(name@),
                    !found ==> forall|j: int| 0 <= j < k ==> d@.entries[j] != name@,
                decreases d.entries.len() - k,
            {
                if same_text(d.entries[k].as_str(), name) {
                    found = true;
                    assert(d@.entries[k as int] == name@);
                }
                k = k + 1;
            }
            assert(dv[i as int] == d@);
            if found {
                let a = self.remove_link(d.profile.as_str(), name);
                r.push(a);
                assert(actions_view(r@) =~= actions_view(prev).push(a@));
            }
            i = i + 1;
        }
        assert(dv.take(i as int) =~= dv);
        r
    }

    /// The plan that makes the directory of `profile_name`, which holds the
    /// entries `listed`, hold the links to `targets` and nothing else: the
    /// directory and the links are created where absent, and every other
    /// entry is removed.
    pub fn sync_profile(&self, profile_name: &str, targets: &Vec<String>, listed: &Vec<String>) -> (r:
        Vec<LinkAction>)
        ensures
            actions_view(r@) == sync_plan(
                self@,
                profile_name@,
                strs_view(targets@),
                strs_view(listed@),
            ),
    {
        let mut r = self.create_links(targets, profile_name);
        let ghost head = actions_view(r@);
        let ghost lv = strs_view(listed@);
        let ghost keep = link_names_of(strs_view(targets@));
        let mut i: usize = 0;
        assert(lv.take(0) =~= Seq::<Seq<char>>::empty());
        assert(actions_view(r@) =~= head + stale_removals(self@, profile_name@, lv.take(0), keep));
        while i < listed.len()
            invariant
                i <= listed.len(),
                lv == strs_view(listed@),
                keep == link_names_of(strs_view(targets@)),
                actions_view(r@) == head + stale_removals(self@, profile_name@, lv.take(i as int), keep),
            decreases listed.len() - i,
        {
            let ghost prev = r@;
            assert(lv.take(i + 1).drop_last() =~= lv.take(i as int));
            assert(lv.take(i + 1).last() == listed@[i as int]@);
            if !names_a_link(targets, listed[i].as_str()) {
                let a = self.remove_link(profile_name, listed[i].as_str());
                r.push(a);
                assert(actions_view(r@) =~= actions_view(prev).push(a@));
            }
            i = i + 1;
        }
        assert(lv.take(i as int) =~= lv);
        r
    }

    /// The removal of the entry `name` from the directory of `profile_name`.
    pub fn remove_link(&self, profile_name: &str, name: &str) -> (r: LinkAction)
        ensures
            r@ == remove_link_action(self@, profile_name@, name@),
    {
        LinkAction::RemoveLink {
            profile: profile_name.to_string(),
            link_name: name.to_string(),
            link: self.link_path(profile_name, name),
        }
    }
}

} // verus!
