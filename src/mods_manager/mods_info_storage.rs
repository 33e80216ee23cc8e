//! The metadata store: mods keyed by unique id, profiles keyed by name, and
//! the many-to-many membership between them, with referential integrity and
//! cascading deletes.

use vstd::prelude::*;

use crate::mods_manager::{mods_view, profiles_view, ModInfo, ModView, Profile, ProfileView};
use crate::paths::same_text;

verus! {

broadcast use vstd::seq_lib::group_seq_properties;

/// A failure of a store operation.
#[derive(Debug, Clone, Copy, PartialEq, Eq, Structural)]
pub enum StoreError {
    DuplicateProfile,
    ProfileNotFound,
    ModNotFound,
}

/// A membership row: (profile name, mod unique id).
pub type MemberRow = (Seq<char>, Seq<char>);

/// The mathematical value of the store: its three tables.
pub ghost struct StoreView {
    pub mods: Seq<ModView>,
    pub profiles: Seq<ProfileView>,
    pub members: Seq<MemberRow>,
}

pub open spec fn has_mod(mods: Seq<ModView>, id: Seq<char>) -> bool {
    exists|i: int| 0 <= i < mods.len() && (#[trigger] mods[i]).unique_id() == id
}

pub open spec fn has_profile(profiles: Seq<ProfileView>, name: Seq<char>) -> bool {
    exists|i: int| 0 <= i < profiles.len() && (#[trigger] profiles[i]).name == name
}

pub open spec fn mod_ids_distinct(mods: Seq<ModView>) -> bool {
    forall|i: int, j: int|
        0 <= i < mods.len() && 0 <= j < mods.len() && i != j ==> (#[trigger] mods[i]).unique_id()
            != (#[trigger] mods[j]).unique_id()
}

pub open spec fn profile_names_distinct(profiles: Seq<ProfileView>) -> bool {
    forall|i: int, j: int|
        0 <= i < profiles.len() && 0 <= j < profiles.len() && i != j ==> (
        #[trigger] profiles[i]).name != (#[trigger] profiles[j]).name
}

/// `mods` with the record `r` stored under its id: the record of that id is
/// replaced in place, or `r` is appended where the id is new.
pub open spec fn upsert_one(mods: Seq<ModView>, r: ModView) -> Seq<ModView> {
    if has_mod(mods, r.unique_id()) {
        let i = choose|i: int| 0 <= i < mods.len() && (#[trigger] mods[i]).unique_id() == r.unique_id();
        mods.update(i, r)
    } else {
        mods.push(r)
    }
}

/// `mods` with each of `recs` stored in turn.
pub open spec fn upsert_all(mods: Seq<ModView>, recs: Seq<ModView>) -> Seq<ModView>
    decreases recs.len(),
{
    if recs.len() == 0 {
        mods
    } else {
        upsert_one(upsert_all(mods, recs.drop_last()), recs.last())
    }
}

/// Keeps the mods whose id is not `id`.
pub open spec fn other_mod(id: Seq<char>) -> spec_fn(ModView) -> bool {
    |m: ModView| m.unique_id() != id
}

/// Keeps the profiles not named `name`.
pub open spec fn other_profile(name: Seq<char>) -> spec_fn(ProfileView) -> bool {
    |p: ProfileView| p.name != name
}

/// Keeps the membership rows that do not match the pattern, where `None`
/// matches any value.
pub open spec fn row_kept(profile: Option<Seq<char>>, id: Option<Seq<char>>) -> spec_fn(
    MemberRow,
) -> bool {
    |row: MemberRow|
        !((profile is None || row.0 == profile->0) && (id is None || row.1 == id->0))
}

/// Keeps the mods that are members of the profile `name` under `members`.
pub open spec fn member_of(members: Seq<MemberRow>, name: Seq<char>) -> spec_fn(ModView) -> bool {
    |m: ModView| members.contains((name, m.unique_id()))
}

/// `members` with the row `row` added, unless it is there already.
pub open spec fn add_row(members: Seq<MemberRow>, row: MemberRow) -> Seq<MemberRow> {
    if members.contains(row) {
        members
    } else {
        members.push(row)
    }
}

/// `members` with a row for `name` and each of `ids`, duplicates ignored.
pub open spec fn add_rows(members: Seq<MemberRow>, name: Seq<char>, ids: Seq<Seq<char>>) -> Seq<
    MemberRow,
>
    decreases ids.len(),
{
    if ids.len() == 0 {
        members
    } else {
        add_row(add_rows(members, name, ids.drop_last()), (name, ids.last()))
    }
}

/// The unique ids of a sequence of mods.
pub open spec fn ids_of(mods: Seq<ModView>) -> Seq<Seq<char>> {
    mods.map_values(|m: ModView| m.unique_id())
}

impl StoreView {
    /// Keys are unique, profile names are non-empty, and every membership
    /// row names an existing profile and an existing mod, at most once.
    pub open spec fn wf(self) -> bool {
        &&& mod_ids_distinct(self.mods)
        &&& profile_names_distinct(self.profiles)
        &&& forall|i: int| 0 <= i < self.profiles.len() ==> (#[trigger] self.profiles[i]).name.len() > 0
        &&& self.members.no_duplicates()
        &&& forall|k: int|
            0 <= k < self.members.len() ==> has_profile(self.profiles, (#[trigger] self.members[k]).0)
                && has_mod(self.mods, self.members[k].1)
    }

    /// The store after registering `recs`.
    pub open spec fn upsert_mods(self, recs: Seq<ModView>) -> StoreView {
        StoreView { mods: upsert_all(self.mods, recs), ..self }
    }

    /// The store after deleting the mod `id` and its memberships.
    pub open spec fn delete_mod(self, id: Seq<char>) -> StoreView {
        StoreView {
            mods: self.mods.filter(other_mod(id)),
            profiles: self.profiles,
            members: self.members.filter(row_kept(None, Some(id))),
        }
    }

    /// The store after creating the profile `p`.
    pub open spec fn create_profile(self, p: ProfileView) -> StoreView {
        StoreView { profiles: self.profiles.push(p), ..self }
    }

    /// The store after deleting the profile `name` and its memberships.
    pub open spec fn delete_profile(self, name: Seq<char>) -> StoreView {
        StoreView {
            mods: self.mods,
            profiles: self.profiles.filter(other_profile(name)),
            members: self.members.filter(row_kept(Some(name), None)),
        }
    }

    /// The store after adding the mods `ids` to the profile `name`.
    pub open spec fn add_membership(self, name: Seq<char>, ids: Seq<Seq<char>>) -> StoreView {
        StoreView { members: add_rows(self.members, name, ids), ..self }
    }

    /// The store after removing the mod `id` from the profile `name`.
    pub open spec fn remove_membership(self, name: Seq<char>, id: Seq<char>) -> StoreView {
        StoreView { members: self.members.filter(row_kept(Some(name), Some(id))), ..self }
    }

    /// The mods of the profile `name`, in the order of the mods table.
    pub open spec fn members_of(self, name: Seq<char>) -> Seq<ModView> {
        self.mods.filter(member_of(self.members, name))
    }
}

/// The view of an optional string argument.
pub open spec fn opt_view(o: Option<&str>) -> Option<Seq<char>> {
    match o {
        Some(s) => Some(s@),
        None => None,
    }
}

/// The views of a vector of strings, in order.
pub open spec fn strings_view(v: Seq<String>) -> Seq<Seq<char>> {
    v.map_values(|s: String| s@)
}

pub open spec fn rows_view(v: Seq<(String, String)>) -> Seq<MemberRow> {
    v.map_values(|r: (String, String)| (r.0@, r.1@))
}

/// The store: three tables held in memory, mirrored to durable storage by
/// the caller after each change.
pub struct ModManagerDb {
    mods: Vec<ModInfo>,
    profiles: Vec<Profile>,
    memberships: Vec<(String, String)>,
}

impl View for ModManagerDb {
    type V = StoreView;

    closed spec fn view(&self) -> StoreView {
        StoreView {
            mods: mods_view(self.mods@),
            profiles: profiles_view(self.profiles@),
            members: rows_view(self.memberships@),
        }
    }
}

proof fn lemma_has_mod_kept(old: Seq<ModView>, new: Seq<ModView>)
    requires
        old.len() <= new.len(),
        forall|i: int| 0 <= i < old.len() ==> (#[trigger] new[i]).unique_id() == old[i].unique_id(),
    ensures
        forall|id: Seq<char>| has_mod(old, id) ==> #[trigger] has_mod(new, id),
{
    assert forall|id: Seq<char>| has_mod(old, id) implies #[trigger] has_mod(new, id) by {
        let w = choose|i: int| 0 <= i < old.len() && (#[trigger] old[i]).unique_id() == id;
        assert(new[w].unique_id() == id);
    }
}

proof fn lemma_upsert_all_step(mods: Seq<ModView>, recs: Seq<ModView>, j: int)
    requires
        0 <= j < recs.len(),
    ensures
        upsert_all(mods, recs.take(j + 1)) == upsert_one(upsert_all(mods, recs.take(j)), recs[j]),
{
    assert(recs.take(j + 1).drop_last() =~= recs.take(j));
}

proof fn lemma_filter_mod_ids_distinct(s: Seq<ModView>, pred: spec_fn(ModView) -> bool)
    requires
        mod_ids_distinct(s),
    ensures
        mod_ids_distinct(s.filter(pred)),
    decreases s.len(),
{
    reveal(Seq::filter);
    if s.len() > 0 {
        let rest = s.drop_last();
        lemma_filter_mod_ids_distinct(rest, pred);
        let f0 = rest.filter(pred);
        if pred(s.last()) {
            assert forall|i: int| 0 <= i < f0.len() implies (#[trigger] f0[i]).unique_id()
                != s.last().unique_id() by {
                assert(f0.contains(f0[i]));
                rest.lemma_filter_contains_rev(pred, f0[i]);
                let k = choose|k: int| 0 <= k < rest.len() && rest[k] == f0[i];
                assert(s[k] == f0[i]);
            }
            let f = s.filter(pred);
            assert(f == f0.push(s.last()));
            assert forall|i: int, j: int|
                0 <= i < f.len() && 0 <= j < f.len() && i != j implies (#[trigger] f[i]).unique_id()
                != (#[trigger] f[j]).unique_id() by {
                if i < f0.len() && j < f0.len() {
                    assert(f[i] == f0[i] && f[j] == f0[j]);
                } else if i < f0.len() {
                    assert(f[i] == f0[i]);
                } else {
                    assert(f[j] == f0[j]);
                }
            }
        }
    }
}

proof fn lemma_filter_profile_names_distinct(s: Seq<ProfileView>, pred: spec_fn(ProfileView) -> bool)
    requires
        profile_names_distinct(s),
    ensures
        profile_names_distinct(s.filter(pred)),
    decreases s.len(),
{
    reveal(Seq::filter);
    if s.len() > 0 {
        let rest = s.drop_last();
        lemma_filter_profile_names_distinct(rest, pred);
        let f0 = rest.filter(pred);
        if pred(s.last()) {
            assert forall|i: int| 0 <= i < f0.len() implies (#[trigger] f0[i]).name
                != s.last().name by {
                assert(f0.contains(f0[i]));
                rest.lemma_filter_contains_rev(pred, f0[i]);
                let k = choose|k: int| 0 <= k < rest.len() && rest[k] == f0[i];
                assert(s[k] == f0[i]);
            }
            let f = s.filter(pred);
            assert(f == f0.push(s.last()));
            assert forall|i: int, j: int|
                0 <= i < f.len() && 0 <= j < f.len() && i != j implies (#[trigger] f[i]).name != (
                #[trigger] f[j]).name by {
                if i < f0.len() && j < f0.len() {
                    assert(f[i] == f0[i] && f[j] == f0[j]);
                } else if i < f0.len() {
                    assert(f[i] == f0[i]);
                } else {
                    assert(f[j] == f0[j]);
                }
            }
        }
    }
}

proof fn lemma_filter_no_duplicates<A>(s: Seq<A>, pred: spec_fn(A) -> bool)
    requires
        s.no_duplicates(),
    ensures
        s.filter(pred).no_duplicates(),
    decreases s.len(),
{
    reveal(Seq::filter);
    if s.len() > 0 {
        let rest = s.drop_last();
        lemma_filter_no_duplicates(rest, pred);
        let f0 = rest.filter(pred);
        if pred(s.last()) {
            if f0.contains(s.last()) {
                rest.lemma_filter_contains_rev(pred, s.last());
                let k = choose|k: int| 0 <= k < rest.len() && rest[k] == s.last();
                assert(s[k] == s[s.len() - 1]);
            }
            let f = s.filter(pred);
            assert(f == f0.push(s.last()));
            assert forall|i: int, j: int|
                0 <= i < f.len() && 0 <= j < f.len() && i != j implies f[i] != f[j] by {
                if i < f0.len() && j < f0.len() {
                    assert(f[i] == f0[i] && f[j] == f0[j]);
                } else if i < f0.len() {
                    assert(f[i] == f0[i]);
                    assert(f0.contains(f0[i]));
                } else {
                    assert(f[j] == f0[j]);
                    assert(f0.contains(f0[j]));
                }
            }
        }
    }
}

proof fn lemma_filter_keeps_mod(mods: Seq<ModView>, pred: spec_fn(ModView) -> bool, id: Seq<char>)
    requires
        has_mod(mods, id),
        forall|m: ModView| m.unique_id() == id ==> #[trigger] pred(m),
    ensures
        has_mod(mods.filter(pred), id),
{
    let w = choose|i: int| 0 <= i < mods.len() && (#[trigger] mods[i]).unique_id() == id;
    mods.lemma_filter_contains(pred, w);
    let f = mods.filter(pred);
    let k = choose|k: int| 0 <= k < f.len() && f[k] == mods[w];
    assert(f[k].unique_id() == id);
}

proof fn lemma_filter_keeps_profile(
    profiles: Seq<ProfileView>,
    pred: spec_fn(ProfileView) -> bool,
    name: Seq<char>,
)
    requires
        has_profile(profiles, name),
        forall|p: ProfileView| p.name == name ==> #[trigger] pred(p),
    ensures
        has_profile(profiles.filter(pred), name),
{
    let w = choose|i: int| 0 <= i < profiles.len() && (#[trigger] profiles[i]).name == name;
    profiles.lemma_filter_contains(pred, w);
    let f = profiles.filter(pred);
    let k = choose|k: int| 0 <= k < f.len() && f[k] == profiles[w];
    assert(f[k].name == name);
}

proof fn lemma_add_rows_step(members: Seq<MemberRow>, name: Seq<char>, ids: Seq<Seq<char>>, j: int)
    requires
        0 <= j < ids.len(),
    ensures
        add_rows(members, name, ids.take(j + 1)) == add_row(
            add_rows(members, name, ids.take(j)),
            (name, ids[j]),
        ),
{
    assert(ids.take(j + 1).drop_last() =~= ids.take(j));
}

/// Stores each of `recs` into `table` in turn, keyed by unique id: a record
/// replaces the one of the same id in place, or is appended.
pub fn upsert_records(table: &mut Vec<ModInfo>, recs: &Vec<ModInfo>)
    requires
        mod_ids_distinct(mods_view(old(table)@)),
    ensures
        mod_ids_distinct(mods_view(final(table)@)),
        mods_view(final(table)@) == upsert_all(mods_view(old(table)@), mods_view(recs@)),
        old(table)@.len() <= final(table)@.len(),
        forall|i: int|
            0 <= i < old(table)@.len() ==> (#[trigger] final(table)@[i])@.unique_id() == old(
                table,
            )@[i]@.unique_id(),
{
    let ghost start = mods_view(table@);
    let ghost orig = table@;
    let ghost rv = mods_view(recs@);
    let mut j: usize = 0;
    assert(rv.take(0) =~= Seq::<ModView>::empty());
    while j < recs.len()
        invariant
            j <= recs.len(),
            rv == mods_view(recs@),
            mod_ids_distinct(mods_view(table@)),
            mods_view(table@) == upsert_all(start, rv.take(j as int)),
            orig.len() <= table@.len(),
            forall|i: int|
                0 <= i < orig.len() ==> (#[trigger] table@[i])@.unique_id() == orig[i]@.unique_id(),
        decreases recs.len() - j,
    {
        let r = &recs[j];
        let ghost before = mods_view(table@);
        proof {
            lemma_upsert_all_step(start, rv, j as int);
        }
        let mut found: Option<usize> = None;
        let mut i: usize = 0;
        while i < table.len() && found.is_none()
            invariant
                i <= table.len(),
                mods_view(table@) == before,
                found matches Some(f) ==> f < table.len() && table@[f as int]@.unique_id()
                    == r@.unique_id(),
                found is None ==> forall|k: int|
                    0 <= k < i ==> (#[trigger] table@[k])@.unique_id() != r@.unique_id(),
            decreases table.len() - i,
        {
            if same_text(table[i].manifest_info.UniqueId.as_str(), r.manifest_info.UniqueId.as_str()) {
                found = Some(i);
            }
            i = i + 1;
        }
        proof {
            if found is None {
                assert forall|k: int| 0 <= k < before.len() implies (#[trigger] before[k]).unique_id()
                    != r@.unique_id() by {
                    assert(before[k] == table@[k]@);
                }
            }
        }
        match found {
            Some(i) => {
                assert(before[i as int] == table@[i as int]@);
                table.set(i, r.clone_info());
                proof {
                    let c = choose|c: int|
                        0 <= c < before.len() && (#[trigger] before[c]).unique_id() == r@.unique_id();
                    assert(c == i);
                    assert(mods_view(table@) =~= before.update(i as int, r@));
                }
            },
            None => {
                table.push(r.clone_info());
                proof {
                    assert(mods_view(table@) =~= before.push(r@));
                }
            },
        }
        j = j + 1;
    }
    assert(rv.take(recs.len() as int) =~= rv);
}

impl ModManagerDb {
    pub open spec fn wf(&self) -> bool {
        self@.wf()
    }

    /// An empty store.
    pub fn new() -> (r: ModManagerDb)
        ensures
            r.wf(),
            r@.mods == Seq::<ModView>::empty(),
            r@.profiles == Seq::<ProfileView>::empty(),
            r@.members == Seq::<MemberRow>::empty(),
    {
        let r = ModManagerDb { mods: Vec::new(), profiles: Vec::new(), memberships: Vec::new() };
        assert(r@.mods =~= Seq::<ModView>::empty());
        assert(r@.profiles =~= Seq::<ProfileView>::empty());
        assert(r@.members =~= Seq::<MemberRow>::empty());
        r
    }

    fn find_mod_index(&self, id: &str) -> (r: Option<usize>)
        ensures
            r matches Some(i) ==> i < self@.mods.len() && self@.mods[i as int].unique_id() == id@,
            r is None ==> !has_mod(self@.mods, id@),
    {
        let mut i: usize = 0;
        while i < self.mods.len()
            invariant
                i <= self.mods.len(),
                self@.mods.len() == self.mods.len(),
                forall|k: int| 0 <= k < i ==> (#[trigger] self@.mods[k]).unique_id() != id@,
            decreases self.mods.len() - i,
        {
            if same_text(self.mods[i].manifest_info.UniqueId.as_str(), id) {
                return Some(i);
            }
            i = i + 1;
        }
        None
    }

    fn find_profile_index(&self, name: &str) -> (r: Option<usize>)
        ensures
            r matches Some(i) ==> i < self@.profiles.len() && self@.profiles[i as int].name
                == name@,
            r is None ==> !has_profile(self@.profiles, name@),
    {
        let mut i: usize = 0;
        while i < self.profiles.len()
            invariant
                i <= self.profiles.len(),
                self@.profiles.len() == self.profiles.len(),
                forall|k: int| 0 <= k < i ==> (#[trigger] self@.profiles[k]).name != name@,
            decreases self.profiles.len() - i,
        {
            if same_text(self.profiles[i].name.as_str(), name) {
                return Some(i);
            }
            i = i + 1;
        }
        None
    }

    /// Whether a profile is named `name`.
    pub fn has_profile_named(&self, name: &str) -> (r: bool)
        ensures
            r == has_profile(self@.profiles, name@),
    {
        self.find_profile_index(name).is_some()
    }

    /// Whether the mod `id` is a member of the profile `name`.
    pub fn is_member(&self, name: &str, id: &str) -> (r: bool)
        ensures
            r == self@.members.contains((name@, id@)),
    {
        let mut k: usize = 0;
        while k < self.memberships.len()
            invariant
                k <= self.memberships.len(),
                self@.members.len() == self.memberships.len(),
                forall|j: int| 0 <= j < k ==> self@.members[j] != (name@, id@),
            decreases self.memberships.len() - k,
        {
            let row = &self.memberships[k];
            if same_text(row.0.as_str(), name) && same_text(row.1.as_str(), id) {
                assert(self@.members[k as int] == (name@, id@));
                return true;
            }
            k = k + 1;
        }
        false
    }

    /// Inserts or updates each record of `mods`, keyed by unique id. A
    /// record whose id is stored already replaces the stored one in place;
    /// the others are appended in order.
    pub fn insert_mods(&mut self, mods: &Vec<ModInfo>)
        requires
            old(self).wf(),
        ensures
            final(self).wf(),
            final(self)@ == old(self)@.upsert_mods(mods_view(mods@)),
    {
        let ghost start = self@;
        upsert_records(&mut self.mods, mods);
        proof {
            lemma_has_mod_kept(start.mods, self@.mods);
        }
    }

    /// All registered mods, in the order of the mods table.
    pub fn get_mods(&self) -> (r: Vec<ModInfo>)
        ensures
            mods_view(r@) == self@.mods,
    {
        let mut r: Vec<ModInfo> = Vec::new();
        let mut i: usize = 0;
        while i < self.mods.len()
            invariant
                i <= self.mods.len(),
                self@.mods.len() == self.mods.len(),
                mods_view(r@) == self@.mods.take(i as int),
            decreases self.mods.len() - i,
        {
            let m = self.mods[i].clone_info();
            let ghost prev = r@;
            r.push(m);
            assert(r@ == prev.push(m));
            assert(mods_view(r@) =~= mods_view(prev).push(m@));
            assert(self@.mods.take(i + 1) =~= self@.mods.take(i as int).push(self@.mods[i as int]));
            i = i + 1;
        }
        assert(self@.mods.take(i as int) =~= self@.mods);
        r
    }

    fn mods_without(&self, id: &str) -> (r: Vec<ModInfo>)
        ensures
            mods_view(r@) == self@.mods.filter(other_mod(id@)),
    {
        let ghost pred = other_mod(id@);
        let mut r: Vec<ModInfo> = Vec::new();
        let mut i: usize = 0;
        assert(self@.mods.take(0) =~= Seq::<ModView>::empty());
        while i < self.mods.len()
            invariant
                i <= self.mods.len(),
                self@.mods.len() == self.mods.len(),
                pred == other_mod(id@),
                mods_view(r@) == self@.mods.take(i as int).filter(pred),
            decreases self.mods.len() - i,
        {
            let ghost prev = r@;
            proof {
                assert(self@.mods.take(i + 1) =~= self@.mods.take(i as int).push(
                    self@.mods[i as int],
                ));
                self@.mods.take(i as int).lemma_filter_push(self@.mods[i as int], pred);
            }
            if !same_text(self.mods[i].manifest_info.UniqueId.as_str(), id) {
                let m = self.mods[i].clone_info();
                r.push(m);
                assert(mods_view(r@) =~= mods_view(prev).push(m@));
            }
            i = i + 1;
        }
        assert(self@.mods.take(i as int) =~= self@.mods);
        r
    }

    fn profiles_without(&self, name: &str) -> (r: Vec<Profile>)
        ensures
            profiles_view(r@) == self@.profiles.filter(other_profile(name@)),
    {
        let ghost pred = other_profile(name@);
        let mut r: Vec<Profile> = Vec::new();
        let mut i: usize = 0;
        assert(self@.profiles.take(0) =~= Seq::<ProfileView>::empty());
        while i < self.profiles.len()
            invariant
                i <= self.profiles.len(),
                self@.profiles.len() == self.profiles.len(),
                pred == other_profile(name@),
                profiles_view(r@) == self@.profiles.take(i as int).filter(pred),
            decreases self.profiles.len() - i,
        {
            let ghost prev = r@;
            proof {
                assert(self@.profiles.take(i + 1) =~= self@.profiles.take(i as int).push(
                    self@.profiles[i as int],
                ));
                self@.profiles.take(i as int).lemma_filter_push(self@.profiles[i as int], pred);
            }
            if !same_text(self.profiles[i].name.as_str(), name) {
                let p = self.profiles[i].clone_profile();
                r.push(p);
                assert(profiles_view(r@) =~= profiles_view(prev).push(p@));
            }
            i = i + 1;
        }
        assert(self@.profiles.take(i as int) =~= self@.profiles);
        r
    }

    fn rows_without(&self, profile: Option<&str>, id: Option<&str>) -> (r: Vec<(String, String)>)
        ensures
            rows_view(r@) == self@.members.filter(row_kept(opt_view(profile), opt_view(id))),
    {
        let ghost pred = row_kept(opt_view(profile), opt_view(id));
        let mut r: Vec<(String, String)> = Vec::new();
        let mut i: usize = 0;
        assert(self@.members.take(0) =~= Seq::<MemberRow>::empty());
        while i < self.memberships.len()
            invariant
                i <= self.memberships.len(),
                self@.members.len() == self.memberships.len(),
                pred == row_kept(opt_view(profile), opt_view(id)),
                rows_view(r@) == self@.members.take(i as int).filter(pred),
            decreases self.memberships.len() - i,
        {
            let ghost prev = r@;
            proof {
                assert(self@.members.take(i + 1) =~= self@.members.take(i as int).push(
                    self@.members[i as int],
                ));
                self@.members.take(i as int).lemma_filter_push(self@.members[i as int], pred);
            }
            let row = &self.memberships[i];
            let profile_matches = match profile {
                Some(p) => same_text(row.0.as_str(), p),
                None => true,
            };
            let id_matches = match id {
                Some(x) => same_text(row.1.as_str(), x),
                None => true,
            };
            if !(profile_matches && id_matches) {
                let kept = (row.0.clone(), row.1.clone());
                r.push(kept);
                assert(rows_view(r@) =~= rows_view(prev).push((kept.0@, kept.1@)));
            }
            i = i + 1;
        }
        assert(self@.members.take(i as int) =~= self@.members);
        r
    }

    /// The registered mod of unique id `id`, if there is one.
    pub fn get_mod(&self, id: &str) -> (r: Option<ModInfo>)
        ensures
            r is Some <==> has_mod(self@.mods, id@),
            r matches Some(m) ==> m@.unique_id() == id@ && self@.mods.contains(m@),
    {
        match self.find_mod_index(id) {
            Some(i) => Some(self.mods[i].clone_info()),
            None => None,
        }
    }

    /// Deletes the mod `mod_unique_id` and every membership of it. Nothing
    /// changes where no such mod is registered.
    pub fn remove_mod(&mut self, mod_unique_id: &str)
        requires
            old(self).wf(),
        ensures
            final(self).wf(),
            final(self)@ == old(self)@.delete_mod(mod_unique_id@),
    {
        let ghost start = self@;
        let mods = self.mods_without(mod_unique_id);
        let rows = self.rows_without(None, Some(mod_unique_id));
        self.mods = mods;
        self.memberships = rows;
        proof {
            let id = mod_unique_id@;
            let end = start.delete_mod(id);
            assert(self@ == end);
            lemma_filter_mod_ids_distinct(start.mods, other_mod(id));
            lemma_filter_no_duplicates(start.members, row_kept(None, Some(id)));
            assert forall|k: int| 0 <= k < end.members.len() implies has_profile(
                end.profiles,
                (#[trigger] end.members[k]).0,
            ) && has_mod(end.mods, end.members[k].1) by {
                let row = end.members[k];
                assert(end.members.contains(row));
                start.members.lemma_filter_contains_rev(row_kept(None, Some(id)), row);
                start.members.lemma_filter_pred(row_kept(None, Some(id)), k);
                let w = choose|w: int| 0 <= w < start.members.len() && start.members[w] == row;
                assert(has_mod(start.mods, start.members[w].1));
                lemma_filter_keeps_mod(start.mods, other_mod(id), row.1);
            }
        }
    }

    /// Creates the empty profile `name`, which must be non-empty. Fails with
    /// `DuplicateProfile`, changing nothing, where a profile of that name
    /// exists.
    pub fn create_profile(&mut self, name: &str, description: &str, created_at: &str) -> (r: Result<
        (),
        StoreError,
    >)
        requires
            old(self).wf(),
            name@.len() > 0,
        ensures
            final(self).wf(),
            has_profile(old(self)@.profiles, name@) ==> r == Err::<(), StoreError>(
                StoreError::DuplicateProfile,
            ) && final(self)@ == old(self)@,
            !has_profile(old(self)@.profiles, name@) ==> r is Ok && final(self)@ == old(self)@.create_profile(
                ProfileView { name: name@, description: description@, create_time: created_at@ },
            ),
    {
        let ghost start = self@;
        if self.find_profile_index(name).is_some() {
            return Err(StoreError::DuplicateProfile);
        }
        let p = Profile {
            name: name.to_string(),
            description: description.to_string(),
            create_time: created_at.to_string(),
        };
        self.profiles.push(p);
        proof {
            assert(self@.profiles =~= start.profiles.push(p@));
            assert forall|k: int| 0 <= k < self@.members.len() implies has_profile(
                self@.profiles,
                (#[trigger] self@.members[k]).0,
            ) && has_mod(self@.mods, self@.members[k].1) by {
                let w = choose|w: int|
                    0 <= w < start.profiles.len() && (#[trigger] start.profiles[w]).name
                        == self@.members[k].0;
                assert(self@.profiles[w] == start.profiles[w]);
            }
        }
        Ok(())
    }

    /// Deletes the profile `name` and every membership row of it, and
    /// returns the number of profiles left. Nothing changes where no such
    /// profile exists.
    pub fn remove_profile(&mut self, name: &str) -> (r: usize)
        requires
            old(self).wf(),
        ensures
            final(self).wf(),
            final(self)@ == old(self)@.delete_profile(name@),
            r == final(self)@.profiles.len(),
    {
        let ghost start = self@;
        let profiles = self.profiles_without(name);
        let rows = self.rows_without(Some(name), None);
        self.profiles = profiles;
        self.memberships = rows;
        proof {
            let end = start.delete_profile(name@);
            assert(self@ == end);
            lemma_filter_profile_names_distinct(start.profiles, other_profile(name@));
            assert forall|i: int| 0 <= i < end.profiles.len() implies (#[trigger] end.profiles[i]).name.len() > 0 by {
                let q = end.profiles[i];
                assert(end.profiles.contains(q));
                start.profiles.lemma_filter_contains_rev(other_profile(name@), q);
            }
            lemma_filter_no_duplicates(start.members, row_kept(Some(name@), None));
            assert forall|k: int| 0 <= k < end.members.len() implies has_profile(
                end.profiles,
                (#[trigger] end.members[k]).0,
            ) && has_mod(end.mods, end.members[k].1) by {
                let row = end.members[k];
                assert(end.members.contains(row));
                start.members.lemma_filter_contains_rev(row_kept(Some(name@), None), row);
                start.members.lemma_filter_pred(row_kept(Some(name@), None), k);
                let w = choose|w: int| 0 <= w < start.members.len() && start.members[w] == row;
                assert(has_profile(start.profiles, start.members[w].0));
                lemma_filter_keeps_profile(start.profiles, other_profile(name@), row.0);
            }
        }
        self.profiles.len()
    }

    /// Adds the mods `ids` to the profile `profile_name`; a pair that is
    /// there already is left as it is. Fails with `ProfileNotFound` where
    /// the profile does not exist, else with `ModNotFound` where one of the
    /// mods is not registered; a failure changes nothing.
    pub fn add_members_by_id(&mut self, profile_name: &str, ids: &Vec<String>) -> (r: Result<
        (),
        StoreError,
    >)
        requires
            old(self).wf(),
        ensures
            final(self).wf(),
            !has_profile(old(self)@.profiles, profile_name@) ==> r == Err::<(), StoreError>(
                StoreError::ProfileNotFound,
            ),
            has_profile(old(self)@.profiles, profile_name@) && (exists|k: int|
                0 <= k < ids@.len() && !has_mod(old(self)@.mods, (#[trigger] ids@[k])@))
                ==> r == Err::<(), StoreError>(StoreError::ModNotFound),
            has_profile(old(self)@.profiles, profile_name@) && (forall|k: int|
                0 <= k < ids@.len() ==> has_mod(old(self)@.mods, (#[trigger] ids@[k])@)) ==> r is Ok,
            r is Err ==> final(self)@ == old(self)@,
            r is Ok ==> final(self)@ == old(self)@.add_membership(
                profile_name@,
                strings_view(ids@),
            ),
    {
        let ghost start = self@;
        let ghost idv = strings_view(ids@);
        if self.find_profile_index(profile_name).is_none() {
            return Err(StoreError::ProfileNotFound);
        }
        let mut k: usize = 0;
        while k < ids.len()
            invariant
                k <= ids.len(),
                self@ == start,
                self.wf(),
                has_profile(start.profiles, profile_name@),
                forall|j: int| 0 <= j < k ==> has_mod(start.mods, (#[trigger] ids@[j])@),
            decreases ids.len() - k,
        {
            if self.find_mod_index(ids[k].as_str()).is_none() {
                return Err(StoreError::ModNotFound);
            }
            k = k + 1;
        }
        let mut j: usize = 0;
        assert(idv.take(0) =~= Seq::<Seq<char>>::empty());
        while j < ids.len()
            invariant
                j <= ids.len(),
                idv == strings_view(ids@),
                has_profile(start.profiles, profile_name@),
                forall|i: int| 0 <= i < ids@.len() ==> has_mod(start.mods, (#[trigger] ids@[i])@),
                self.wf(),
                self@ == start.add_membership(profile_name@, idv.take(j as int)),
            decreases ids.len() - j,
        {
            let ghost before = self@;
            proof {
                lemma_add_rows_step(start.members, profile_name@, idv, j as int);
            }
            if !self.is_member(profile_name, ids[j].as_str()) {
                let row = (profile_name.to_string(), ids[j].clone());
                self.memberships.push(row);
                proof {
                    let rv = (profile_name@, ids@[j as int]@);
                    assert(self@.members =~= before.members.push(rv));
                    assert forall|a: int, b: int|
                        0 <= a < self@.members.len() && 0 <= b < self@.members.len() && a
                            != b implies self@.members[a] != self@.members[b] by {
                        if a < before.members.len() && b < before.members.len() {
                        } else if a < before.members.len() {
                            assert(before.members.contains(before.members[a]));
                        } else {
                            assert(before.members.contains(before.members[b]));
                        }
                    }
                    assert forall|k: int| 0 <= k < self@.members.len() implies has_profile(
                        self@.profiles,
                        (#[trigger] self@.members[k]).0,
                    ) && has_mod(self@.mods, self@.members[k].1) by {
                        if k < before.members.len() {
                            assert(self@.members[k] == before.members[k]);
                        } else {
                            assert(has_mod(start.mods, ids@[j as int]@));
                        }
                    }
                }
            }
            j = j + 1;
        }
        assert(idv.take(ids.len() as int) =~= idv);
        Ok(())
    }

    /// Adds the mods `mods` to the profile `profile_name`, by unique id, as
    /// `add_members_by_id` does.
    pub fn insert_mod_to_profile(&mut self, profile_name: &str, mods: &Vec<ModInfo>) -> (r: Result<
        (),
        StoreError,
    >)
        requires
            old(self).wf(),
        ensures
            final(self).wf(),
            !has_profile(old(self)@.profiles, profile_name@) ==> r == Err::<(), StoreError>(
                StoreError::ProfileNotFound,
            ),
            has_profile(old(self)@.profiles, profile_name@) && (exists|k: int|
                0 <= k < mods@.len() && !has_mod(old(self)@.mods, (#[trigger] mods@[k])@.unique_id()))
                ==> r == Err::<(), StoreError>(StoreError::ModNotFound),
            has_profile(old(self)@.profiles, profile_name@) && (forall|k: int|
                0 <= k < mods@.len() ==> has_mod(old(self)@.mods, (#[trigger] mods@[k])@.unique_id()))
                ==> r is Ok,
            r is Err ==> final(self)@ == old(self)@,
            r is Ok ==> final(self)@ == old(self)@.add_membership(
                profile_name@,
                ids_of(mods_view(mods@)),
            ),
    {
        let mut ids: Vec<String> = Vec::new();
        let mut i: usize = 0;
        while i < mods.len()
            invariant
                i <= mods.len(),
                strings_view(ids@) == ids_of(mods_view(mods@)).take(i as int),
            decreases mods.len() - i,
        {
            let ghost prev = ids@;
            let id = mods[i].manifest_info.UniqueId.clone();
            ids.push(id);
            assert(strings_view(ids@) =~= strings_view(prev).push(id@));
            assert(ids_of(mods_view(mods@)).take(i + 1) =~= ids_of(mods_view(mods@)).take(
                i as int,
            ).push(mods@[i as int]@.unique_id()));
            i = i + 1;
        }
        assert(ids_of(mods_view(mods@)).take(i as int) =~= ids_of(mods_view(mods@)));
        proof {
            if exists|k: int|
                0 <= k < mods@.len() && !has_mod(self@.mods, (#[trigger] mods@[k])@.unique_id()) {
                let k = choose|k: int|
                    0 <= k < mods@.len() && !has_mod(self@.mods, (#[trigger] mods@[k])@.unique_id());
                assert(strings_view(ids@)[k] == ids@[k]@);
            }
            assert forall|k: int| 0 <= k < ids@.len() implies #[trigger] ids@[k]@ == mods@[k]@.unique_id() by {
                assert(strings_view(ids@)[k] == ids@[k]@);
            }
        }
        self.add_members_by_id(profile_name, &ids)
    }

    /// Removes the mod `mod_info` from the profile `profile_name`. Nothing
    /// changes where it is not a member.
    pub fn remove_mod_from_profile(&mut self, profile_name: &str, mod_info: ModInfo)
        requires
            old(self).wf(),
        ensures
            final(self).wf(),
            final(self)@ == old(self)@.remove_membership(profile_name@, mod_info@.unique_id()),
    {
        let ghost start = self@;
        let rows = self.rows_without(Some(profile_name), Some(mod_info.manifest_info.UniqueId.as_str()));
        self.memberships = rows;
        proof {
            let pred = row_kept(Some(profile_name@), Some(mod_info@.unique_id()));
            let end = start.remove_membership(profile_name@, mod_info@.unique_id());
            assert(self@ == end);
            lemma_filter_no_duplicates(start.members, pred);
            assert forall|k: int| 0 <= k < end.members.len() implies has_profile(
                end.profiles,
                (#[trigger] end.members[k]).0,
            ) && has_mod(end.mods, end.members[k].1) by {
                let row = end.members[k];
                assert(end.members.contains(row));
                start.members.lemma_filter_contains_rev(pred, row);
                let w = choose|w: int| 0 <= w < start.members.len() && start.members[w] == row;
                assert(has_mod(start.mods, start.members[w].1));
            }
        }
    }

    /// The mods of the profile `profile_name`, in the order of the mods
    /// table; empty where no such profile exists.
    pub fn get_mods_from_profile(&self, profile_name: &str) -> (r: Vec<ModInfo>)
        ensures
            mods_view(r@) == self@.members_of(profile_name@),
    {
        let ghost pred = member_of(self@.members, profile_name@);
        let mut r: Vec<ModInfo> = Vec::new();
        let mut i: usize = 0;
        assert(self@.mods.take(0) =~= Seq::<ModView>::empty());
        while i < self.mods.len()
            invariant
                i <= self.mods.len(),
                self@.mods.len() == self.mods.len(),
                pred == member_of(self@.members, profile_name@),
                mods_view(r@) == self@.mods.take(i as int).filter(pred),
            decreases self.mods.len() - i,
        {
            let ghost prev = r@;
            proof {
                assert(self@.mods.take(i + 1) =~= self@.mods.take(i as int).push(
                    self@.mods[i as int],
                ));
                self@.mods.take(i as int).lemma_filter_push(self@.mods[i as int], pred);
            }
            if self.is_member(profile_name, self.mods[i].manifest_info.UniqueId.as_str()) {
                let m = self.mods[i].clone_info();
                r.push(m);
                assert(mods_view(r@) =~= mods_view(prev).push(m@));
            }
            i = i + 1;
        }
        assert(self@.mods.take(i as int) =~= self@.mods);
        r
    }

    /// Every membership row, as (profile name, mod unique id).
    pub fn get_memberships(&self) -> (r: Vec<(String, String)>)
        ensures
            rows_view(r@) == self@.members,
    {
        let mut r: Vec<(String, String)> = Vec::new();
        let mut i: usize = 0;
        while i < self.memberships.len()
            invariant
                i <= self.memberships.len(),
                self@.members.len() == self.memberships.len(),
                rows_view(r@) == self@.members.take(i as int),
            decreases self.memberships.len() - i,
        {
            let ghost prev = r@;
            let row = (self.memberships[i].0.clone(), self.memberships[i].1.clone());
            r.push(row);
            assert(rows_view(r@) =~= rows_view(prev).push((row.0@, row.1@)));
            assert(self@.members.take(i + 1) =~= self@.members.take(i as int).push(
                self@.members[i as int],
            ));
            i = i + 1;
        }
        assert(self@.members.take(i as int) =~= self@.members);
        r
    }

    /// All profiles, in the order of creation.
    pub fn get_profiles(&self) -> (r: Vec<Profile>)
        ensures
            profiles_view(r@) == self@.profiles,
    {
        let mut r: Vec<Profile> = Vec::new();
        let mut i: usize = 0;
        while i < self.profiles.len()
            invariant
                i <= self.profiles.len(),
                self@.profiles.len() == self.profiles.len(),
                profiles_view(r@) == self@.profiles.take(i as int),
            decreases self.profiles.len() - i,
        {
            let p = self.profiles[i].clone_profile();
            let ghost prev = r@;
            r.push(p);
            assert(profiles_view(r@) =~= profiles_view(prev).push(p@));
            assert(self@.profiles.take(i + 1) =~= self@.profiles.take(i as int).push(
                self@.profiles[i as int],
            ));
            i = i + 1;
        }
        assert(self@.profiles.take(i as int) =~= self@.profiles);
        r
    }
}

} // verus!
