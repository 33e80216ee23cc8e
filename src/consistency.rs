//! Facts that hold across operations: registering twice, membership edits
//! undone, and the cascades of profile and mod deletion, over the store and
//! over the filesystem projection.

use vstd::prelude::*;

use crate::link_manager::{
    apply_action, apply_actions, create_dir_action, create_link_action, create_links_plan,
    link_creations, link_names_of, listed_entries, remove_dir_action, remove_link_action,
    removal_plan, stale_removals, sync_plan, LinkActionView, ProfileDirView, Projection,
};
use crate::mods_manager::mods_info_storage::{
    has_mod, has_profile, member_of, mod_ids_distinct, other_mod, profile_names_distinct, row_kept,
    upsert_all, upsert_one, StoreView,
};
use crate::mods_manager::{ModView, ProfileView};
use crate::paths::folder_name_of;
use crate::total_manager::{
    delete_mod_plan, expected_links, mod_record, orphan_removals, paths_of, reconcile_plan,
    reconcile_profiles,
};

verus! {

broadcast use vstd::seq_lib::group_seq_properties;

/// `mods` holds exactly one record of the id `id`.
pub open spec fn exactly_one(mods: Seq<ModView>, id: Seq<char>) -> bool {
    exists|i: int|
        0 <= i < mods.len() && (#[trigger] mods[i]).unique_id() == id && forall|j: int|
            0 <= j < mods.len() && (#[trigger] mods[j]).unique_id() == id ==> j == i
}

/// `mods` holds no record of the id `id`.
pub open spec fn lacks(mods: Seq<ModView>, id: Seq<char>) -> bool {
    forall|i: int| 0 <= i < mods.len() ==> (#[trigger] mods[i]).unique_id() != id
}

/// The projection agrees with what was found on disk: the directories
/// listed are the profile directories, each with the entries listed.
pub open spec fn agrees_with(fs: Projection, dirs: Seq<ProfileDirView>) -> bool {
    &&& forall|p: Seq<char>|
        #[trigger] fs.contains_key(p) ==> exists|k: int|
            0 <= k < dirs.len() && (#[trigger] dirs[k]).profile == p
    &&& forall|k: int|
        0 <= k < dirs.len() ==> fs.contains_key((#[trigger] dirs[k]).profile) && fs[dirs[k].profile]
            == dirs[k].entries.to_set()
}

proof fn lemma_upsert_one(t: Seq<ModView>, r: ModView)
    requires
        mod_ids_distinct(t),
    ensures
        mod_ids_distinct(upsert_one(t, r)),
        upsert_one(t, r).contains(r),
        forall|id: Seq<char>| has_mod(t, id) ==> #[trigger] has_mod(upsert_one(t, r), id),
{
    let u = upsert_one(t, r);
    if has_mod(t, r.unique_id()) {
        let i = choose|i: int| 0 <= i < t.len() && (#[trigger] t[i]).unique_id() == r.unique_id();
        assert(u[i] == r);
        assert forall|id: Seq<char>| has_mod(t, id) implies #[trigger] has_mod(u, id) by {
            let w = choose|w: int| 0 <= w < t.len() && (#[trigger] t[w]).unique_id() == id;
            assert(u[w].unique_id() == id);
        }
    } else {
        assert(u[t.len() as int] == r);
        assert forall|id: Seq<char>| has_mod(t, id) implies #[trigger] has_mod(u, id) by {
            let w = choose|w: int| 0 <= w < t.len() && (#[trigger] t[w]).unique_id() == id;
            assert(u[w].unique_id() == id);
        }
    }
}

proof fn lemma_upsert_all(t: Seq<ModView>, recs: Seq<ModView>)
    requires
        mod_ids_distinct(t),
    ensures
        mod_ids_distinct(upsert_all(t, recs)),
        forall|k: int| 0 <= k < recs.len() ==> has_mod(upsert_all(t, recs), (#[trigger] recs[k]).unique_id()),
        forall|id: Seq<char>| has_mod(t, id) ==> #[trigger] has_mod(upsert_all(t, recs), id),
    decreases recs.len(),
{
    if recs.len() > 0 {
        let rest = recs.drop_last();
        lemma_upsert_all(t, rest);
        let u0 = upsert_all(t, rest);
        lemma_upsert_one(u0, recs.last());
        let u = upsert_all(t, recs);
        assert forall|k: int| 0 <= k < recs.len() implies has_mod(u, (#[trigger] recs[k]).unique_id()) by {
            if k < recs.len() - 1 {
                assert(rest[k] == recs[k]);
                assert(has_mod(u0, rest[k].unique_id()));
            } else {
                let c = choose|c: int| 0 <= c < u.len() && u[c] == recs.last();
                assert(u[c].unique_id() == recs[k].unique_id());
            }
        }
    }
}

/// The last of `recs` with the id `id`.
pub open spec fn last_with_id(recs: Seq<ModView>, id: Seq<char>) -> Option<ModView>
    decreases recs.len(),
{
    if recs.len() == 0 {
        None
    } else if recs.last().unique_id() == id {
        Some(recs.last())
    } else {
        last_with_id(recs.drop_last(), id)
    }
}

/// `t` with each record whose id occurs in `recs` replaced by the last
/// record of `recs` with that id.
pub open spec fn overwritten(t: Seq<ModView>, recs: Seq<ModView>) -> Seq<ModView> {
    Seq::new(
        t.len(),
        |i: int|
            match last_with_id(recs, t[i].unique_id()) {
                Some(r) => r,
                None => t[i],
            },
    )
}

proof fn lemma_last_with_id(recs: Seq<ModView>, id: Seq<char>)
    ensures
        last_with_id(recs, id) matches Some(r) ==> r.unique_id() == id,
        last_with_id(recs, id) is None ==> !has_mod(recs, id),
    decreases recs.len(),
{
    if recs.len() > 0 {
        let rest = recs.drop_last();
        lemma_last_with_id(rest, id);
        if last_with_id(recs, id) is None {
            assert(recs.last().unique_id() != id);
            if has_mod(recs, id) {
                let i = choose|i: int| 0 <= i < recs.len() && (#[trigger] recs[i]).unique_id() == id;
                assert(rest[i].unique_id() == id);
            }
        }
    }
}

/// Where every id of `recs` is stored already, storing `recs` overwrites
/// the records in place.
proof fn lemma_upsert_all_overwrites(t: Seq<ModView>, recs: Seq<ModView>)
    requires
        mod_ids_distinct(t),
        forall|k: int| 0 <= k < recs.len() ==> has_mod(t, (#[trigger] recs[k]).unique_id()),
    ensures
        upsert_all(t, recs) == overwritten(t, recs),
    decreases recs.len(),
{
    if recs.len() == 0 {
        assert(overwritten(t, recs) =~= t);
    } else {
        let rest = recs.drop_last();
        let last = recs.last();
        assert forall|k: int| 0 <= k < rest.len() implies has_mod(t, (#[trigger] rest[k]).unique_id()) by {
            assert(rest[k] == recs[k]);
        }
        lemma_upsert_all_overwrites(t, rest);
        let o = overwritten(t, rest);
        assert forall|i: int| 0 <= i < o.len() implies (#[trigger] o[i]).unique_id() == t[i].unique_id() by {
            lemma_last_with_id(rest, t[i].unique_id());
        }
        assert(has_mod(t, recs[recs.len() - 1].unique_id()));
        let w = choose|w: int| 0 <= w < t.len() && (#[trigger] t[w]).unique_id() == last.unique_id();
        assert(o[w].unique_id() == last.unique_id());
        let c = choose|c: int| 0 <= c < o.len() && (#[trigger] o[c]).unique_id() == last.unique_id();
        assert(t[c].unique_id() == last.unique_id());
        assert(c == w);
        assert(upsert_one(o, last) == o.update(w, last));
        assert(o.update(w, last) =~= overwritten(t, recs));
    }
}

/// Each record stored by `recs` is the last of `recs` with its id.
proof fn lemma_upsert_all_is_last(t: Seq<ModView>, recs: Seq<ModView>)
    requires
        mod_ids_distinct(t),
    ensures
        forall|i: int|
            0 <= i < upsert_all(t, recs).len() ==> match last_with_id(
                recs,
                (#[trigger] upsert_all(t, recs)[i]).unique_id(),
            ) {
                Some(r) => upsert_all(t, recs)[i] == r,
                None => true,
            },
    decreases recs.len(),
{
    if recs.len() > 0 {
        let rest = recs.drop_last();
        let last = recs.last();
        lemma_upsert_all_is_last(t, rest);
        lemma_upsert_all(t, rest);
        let u0 = upsert_all(t, rest);
        let u = upsert_all(t, recs);
        assert forall|i: int| 0 <= i < u.len() implies match last_with_id(
            recs,
            (#[trigger] u[i]).unique_id(),
        ) {
            Some(r) => u[i] == r,
            None => true,
        } by {
            if u[i].unique_id() != last.unique_id() {
                if i < u0.len() {
                    if has_mod(u0, last.unique_id()) {
                        let c = choose|c: int|
                            0 <= c < u0.len() && (#[trigger] u0[c]).unique_id() == last.unique_id();
                        assert(u == u0.update(c, last));
                        assert(u[i] == u0[i]);
                    } else {
                        assert(u[i] == u0[i]);
                    }
                } else {
                    assert(u[i] == last);
                }
            }
        }
    }
}

/// Registering the same records twice leaves the store as the first
/// registration left it, with exactly one record for each of their unique
/// ids.
pub proof fn lemma_register_twice(s: StoreView, recs: Seq<ModView>)
    requires
        s.wf(),
    ensures
        s.upsert_mods(recs).upsert_mods(recs) == s.upsert_mods(recs),
        forall|k: int|
            0 <= k < recs.len() ==> exactly_one(
                s.upsert_mods(recs).upsert_mods(recs).mods,
                (#[trigger] recs[k]).unique_id(),
            ),
{
    lemma_upsert_all(s.mods, recs);
    let u = upsert_all(s.mods, recs);
    lemma_upsert_all_overwrites(u, recs);
    lemma_upsert_all_is_last(s.mods, recs);
    assert forall|i: int| 0 <= i < u.len() implies #[trigger] overwritten(u, recs)[i] == u[i] by {
        assert(overwritten(u, recs)[i] == match last_with_id(recs, u[i].unique_id()) {
            Some(r) => r,
            None => u[i],
        });
    }
    assert(overwritten(u, recs) =~= u);
    assert(s.upsert_mods(recs).upsert_mods(recs).mods == u);
    assert forall|k: int| 0 <= k < recs.len() implies exactly_one(u, (#[trigger] recs[k]).unique_id()) by {
        let id = recs[k].unique_id();
        assert(has_mod(u, id));
        let i = choose|i: int| 0 <= i < u.len() && (#[trigger] u[i]).unique_id() == id;
        assert(u[i].unique_id() == id);
    }
}

proof fn lemma_members_of_excludes(s: StoreView, name: Seq<char>, id: Seq<char>)
    requires
        !s.members.contains((name, id)),
    ensures
        lacks(s.members_of(name), id),
{
    let f = s.members_of(name);
    assert forall|i: int| 0 <= i < f.len() implies (#[trigger] f[i]).unique_id() != id by {
        s.mods.lemma_filter_pred(member_of(s.members, name), i);
    }
}

/// After a mod is added to a profile and then removed from it, the profile's
/// members exclude it, and the profile directory holds no link of its
/// folder name.
pub proof fn lemma_add_then_remove(
    s: StoreView,
    name: Seq<char>,
    m: ModView,
    root: Seq<char>,
    fs: Projection,
)
    requires
        s.wf(),
        folder_name_of(m.path).len() > 0,
    ensures
        lacks(
            s.add_membership(name, seq![m.unique_id()]).remove_membership(name, m.unique_id()).members_of(
                name,
            ),
            m.unique_id(),
        ),
        ({
            let fs2 = apply_action(
                apply_actions(fs, create_links_plan(root, name, seq![m.path])),
                remove_link_action(root, name, folder_name_of(m.path)),
            );
            !(fs2.contains_key(name) && fs2[name].contains(folder_name_of(m.path)))
        }),
{
    let s1 = s.add_membership(name, seq![m.unique_id()]);
    let s2 = s1.remove_membership(name, m.unique_id());
    let pred = row_kept(Some(name), Some(m.unique_id()));
    if s2.members.contains((name, m.unique_id())) {
        let k = choose|k: int| 0 <= k < s2.members.len() && s2.members[k] == (name, m.unique_id());
        s1.members.lemma_filter_pred(pred, k);
    }
    lemma_members_of_excludes(s2, name, m.unique_id());
}

/// Deleting a profile removes every membership row of it and its whole
/// directory; a profile created again under the same name has no members.
pub proof fn lemma_delete_profile(
    s: StoreView,
    name: Seq<char>,
    p: ProfileView,
    root: Seq<char>,
    fs: Projection,
)
    requires
        s.wf(),
        p.name == name,
    ensures
        forall|k: int|
            0 <= k < s.delete_profile(name).members.len() ==> (#[trigger] s.delete_profile(
                name,
            ).members[k]).0 != name,
        !apply_action(fs, remove_dir_action(root, name)).contains_key(name),
        s.delete_profile(name).create_profile(p).members_of(name) == Seq::<ModView>::empty(),
{
    let s1 = s.delete_profile(name);
    let pred = row_kept(Some(name), None);
    assert forall|k: int| 0 <= k < s1.members.len() implies (#[trigger] s1.members[k]).0 != name by {
        s.members.lemma_filter_pred(pred, k);
    }
    let s2 = s1.create_profile(p);
    let f = s2.members_of(name);
    if f.len() > 0 {
        s2.mods.lemma_filter_pred(member_of(s2.members, name), 0);
        let k = choose|k: int| 0 <= k < s2.members.len() && s2.members[k] == (name, f[0].unique_id());
        assert(s1.members[k].0 != name);
    }
    assert(f =~= Seq::<ModView>::empty());
}

proof fn lemma_removal_plan(root: Seq<char>, dirs: Seq<ProfileDirView>, name: Seq<char>, fs: Projection)
    ensures
        apply_actions(fs, removal_plan(root, dirs, name)).dom() == fs.dom(),
        forall|p: Seq<char>|
            #[trigger] fs.contains_key(p) ==> apply_actions(fs, removal_plan(root, dirs, name))[p]
                == if exists|k: int|
                0 <= k < dirs.len() && (#[trigger] dirs[k]).profile == p && dirs[k].entries.contains(
                    name,
                ) {
                fs[p].remove(name)
            } else {
                fs[p]
            },
    decreases dirs.len(),
{
    if dirs.len() == 0 {
        assert(removal_plan(root, dirs, name) =~= Seq::<LinkActionView>::empty());
    } else {
        let rest = dirs.drop_last();
        lemma_removal_plan(root, rest, name, fs);
        let plan0 = removal_plan(root, rest, name);
        let r0 = apply_actions(fs, plan0);
        let last = dirs.last();
        let r = apply_actions(fs, removal_plan(root, dirs, name));
        if last.entries.contains(name) {
            let a = remove_link_action(root, last.profile, name);
            assert(removal_plan(root, dirs, name) == plan0.push(a));
            assert(plan0.push(a).drop_last() =~= plan0);
            assert(r == apply_action(r0, a));
        } else {
            assert(r == r0);
        }
        assert(r.dom() =~= fs.dom());
        assert forall|p: Seq<char>| #[trigger] fs.contains_key(p) implies r[p] == if exists|k: int|
            0 <= k < dirs.len() && (#[trigger] dirs[k]).profile == p && dirs[k].entries.contains(
                name,
            ) {
            fs[p].remove(name)
        } else {
            fs[p]
        } by {
            let in_rest = exists|k: int|
                0 <= k < rest.len() && (#[trigger] rest[k]).profile == p && rest[k].entries.contains(
                    name,
                );
            let in_all = exists|k: int|
                0 <= k < dirs.len() && (#[trigger] dirs[k]).profile == p && dirs[k].entries.contains(
                    name,
                );
            if in_rest {
                let k = choose|k: int|
                    0 <= k < rest.len() && (#[trigger] rest[k]).profile == p && rest[k].entries.contains(
                        name,
                    );
                assert(dirs[k] == rest[k]);
            }
            if in_all && !in_rest {
                let k = choose|k: int|
                    0 <= k < dirs.len() && (#[trigger] dirs[k]).profile == p && dirs[k].entries.contains(
                        name,
                    );
                if k < rest.len() {
                    assert(rest[k] == dirs[k]);
                }
                assert(k == dirs.len() - 1);
            }
            if last.entries.contains(name) && last.profile == p {
                assert(dirs[dirs.len() - 1] == last);
                assert(r[p] =~= fs[p].remove(name));
            }
        }
    }
}

/// Deleting a mod removes it from every profile's membership, and the plan
/// that comes with it removes its link from every profile directory found
/// on disk, however many profiles held it.
pub proof fn lemma_delete_mod(
    s: StoreView,
    id: Seq<char>,
    root: Seq<char>,
    dirs: Seq<ProfileDirView>,
    fs: Projection,
)
    requires
        s.wf(),
        has_mod(s.mods, id),
        folder_name_of(mod_record(s.mods, id).path).len() > 0,
        agrees_with(fs, dirs),
    ensures
        lacks(s.delete_mod(id).mods, id),
        forall|k: int|
            0 <= k < s.delete_mod(id).members.len() ==> (#[trigger] s.delete_mod(id).members[k]).1
                != id,
        ({
            let fs2 = apply_actions(fs, delete_mod_plan(root, s.mods, id, dirs));
            let link = folder_name_of(mod_record(s.mods, id).path);
            forall|p: Seq<char>| #[trigger] fs2.contains_key(p) ==> !fs2[p].contains(link)
        }),
{
    let s1 = s.delete_mod(id);
    assert forall|i: int| 0 <= i < s1.mods.len() implies (#[trigger] s1.mods[i]).unique_id() != id by {
        s.mods.lemma_filter_pred(other_mod(id), i);
    }
    assert forall|k: int| 0 <= k < s1.members.len() implies (#[trigger] s1.members[k]).1 != id by {
        s.members.lemma_filter_pred(row_kept(None, Some(id)), k);
    }
    let link = folder_name_of(mod_record(s.mods, id).path);
    lemma_removal_plan(root, dirs, link, fs);
    let fs2 = apply_actions(fs, delete_mod_plan(root, s.mods, id, dirs));
    assert forall|p: Seq<char>| #[trigger] fs2.contains_key(p) implies !fs2[p].contains(link) by {
        assert(fs.contains_key(p));
        let k = choose|k: int| 0 <= k < dirs.len() && (#[trigger] dirs[k]).profile == p;
        if dirs[k].entries.contains(link) {
            assert(fs2[p] == fs[p].remove(link));
        } else {
            assert(fs[p] == dirs[k].entries.to_set());
            assert(!fs[p].contains(link));
        }
    }
}

proof fn lemma_apply_concat(fs: Projection, a: Seq<LinkActionView>, b: Seq<LinkActionView>)
    ensures
        apply_actions(fs, a + b) == apply_actions(apply_actions(fs, a), b),
    decreases b.len(),
{
    if b.len() == 0 {
        assert(a + b =~= a);
    } else {
        lemma_apply_concat(fs, a, b.drop_last());
        assert((a + b).drop_last() =~= a + b.drop_last());
        assert((a + b).last() == b.last());
    }
}

proof fn lemma_link_creations(root: Seq<char>, p: Seq<char>, t: Seq<Seq<char>>, fs: Projection)
    requires
        fs.contains_key(p),
    ensures
        apply_actions(fs, link_creations(root, p, t)) == fs.insert(p, fs[p].union(link_names_of(t))),
    decreases t.len(),
{
    if t.len() == 0 {
        assert(link_names_of(t) =~= Set::<Seq<char>>::empty());
        assert(fs[p].union(link_names_of(t)) =~= fs[p]);
        assert(fs.insert(p, fs[p]) =~= fs);
    } else {
        let rest = t.drop_last();
        lemma_link_creations(root, p, rest, fs);
        let name = folder_name_of(t.last());
        assert forall|n: Seq<char>| #[trigger] link_names_of(t).contains(n) == (link_names_of(
            rest,
        ).contains(n) || (n == name && name.len() > 0)) by {
            if link_names_of(t).contains(n) {
                let i = choose|i: int| 0 <= i < t.len() && folder_name_of(#[trigger] t[i]) == n;
                if i < rest.len() {
                    assert(folder_name_of(rest[i]) == n);
                }
            }
            if link_names_of(rest).contains(n) {
                let i = choose|i: int| 0 <= i < rest.len() && folder_name_of(#[trigger] rest[i]) == n;
                assert(folder_name_of(t[i]) == n);
            }
            if n == name && name.len() > 0 {
                assert(folder_name_of(t[t.len() - 1]) == n);
            }
        }
        let r0 = apply_actions(fs, link_creations(root, p, rest));
        if name.len() == 0 {
            assert(link_names_of(t) =~= link_names_of(rest));
        } else {
            let a = create_link_action(root, p, t.last());
            assert(link_creations(root, p, t) == link_creations(root, p, rest).push(a));
            assert(link_creations(root, p, rest).push(a).drop_last() =~= link_creations(root, p, rest));
            assert(apply_actions(fs, link_creations(root, p, t)) == apply_action(r0, a));
            assert(r0[p].insert(name) =~= fs[p].union(link_names_of(t)));
            assert(fs.insert(p, fs[p].union(link_names_of(rest))).insert(p, fs[p].union(
                link_names_of(t),
            )) =~= fs.insert(p, fs[p].union(link_names_of(t))));
        }
    }
}

/// The names of `listed` that `keep` lacks.
pub open spec fn stale_names(listed: Seq<Seq<char>>, keep: Set<Seq<char>>) -> Set<Seq<char>> {
    Set::new(|n: Seq<char>| listed.contains(n) && !keep.contains(n))
}

proof fn lemma_stale_removals(
    root: Seq<char>,
    p: Seq<char>,
    listed: Seq<Seq<char>>,
    keep: Set<Seq<char>>,
    fs: Projection,
)
    requires
        fs.contains_key(p),
    ensures
        apply_actions(fs, stale_removals(root, p, listed, keep)) == fs.insert(
            p,
            fs[p].difference(stale_names(listed, keep)),
        ),
    decreases listed.len(),
{
    if listed.len() == 0 {
        assert(stale_names(listed, keep) =~= Set::<Seq<char>>::empty());
        assert(fs[p].difference(stale_names(listed, keep)) =~= fs[p]);
        assert(fs.insert(p, fs[p]) =~= fs);
    } else {
        let rest = listed.drop_last();
        lemma_stale_removals(root, p, rest, keep, fs);
        let last = listed.last();
        assert forall|n: Seq<char>| #[trigger] stale_names(listed, keep).contains(n) == (
        stale_names(rest, keep).contains(n) || (n == last && !keep.contains(n))) by {
            if listed.contains(n) {
                let i = choose|i: int| 0 <= i < listed.len() && listed[i] == n;
                if i < rest.len() {
                    assert(rest[i] == n);
                }
            }
            if rest.contains(n) {
                let i = choose|i: int| 0 <= i < rest.len() && rest[i] == n;
                assert(listed[i] == n);
            }
            if n == last {
                assert(listed[listed.len() - 1] == n);
            }
        }
        let r0 = apply_actions(fs, stale_removals(root, p, rest, keep));
        if keep.contains(last) {
            assert(stale_names(listed, keep) =~= stale_names(rest, keep));
        } else {
            let a = remove_link_action(root, p, last);
            assert(stale_removals(root, p, rest, keep).push(a).drop_last() =~= stale_removals(
                root,
                p,
                rest,
                keep,
            ));
            assert(apply_actions(fs, stale_removals(root, p, listed, keep)) == apply_action(r0, a));
            assert(r0[p].remove(last) =~= fs[p].difference(stale_names(listed, keep)));
            assert(fs.insert(p, fs[p].difference(stale_names(rest, keep))).insert(
                p,
                fs[p].difference(stale_names(listed, keep)),
            ) =~= fs.insert(p, fs[p].difference(stale_names(listed, keep))));
        }
    }
}

proof fn lemma_sync_plan(
    root: Seq<char>,
    p: Seq<char>,
    t: Seq<Seq<char>>,
    listed: Seq<Seq<char>>,
    fs: Projection,
)
    requires
        fs.contains_key(p) ==> forall|n: Seq<char>| #[trigger] fs[p].contains(n) ==> listed.contains(n),
    ensures
        apply_actions(fs, sync_plan(root, p, t, listed)) == fs.insert(p, link_names_of(t)),
{
    let dir = seq![create_dir_action(root, p)];
    let creations = link_creations(root, p, t);
    let keep = link_names_of(t);
    let stale = stale_removals(root, p, listed, keep);
    lemma_apply_concat(fs, dir + creations, stale);
    lemma_apply_concat(fs, dir, creations);
    assert(dir.drop_last() =~= Seq::<LinkActionView>::empty());
    let fs1 = apply_actions(fs, dir);
    assert(apply_actions(fs, dir.drop_last()) == fs);
    assert(dir.last() == create_dir_action(root, p));
    assert(fs1 == apply_action(fs, create_dir_action(root, p)));
    assert(fs1.contains_key(p));
    lemma_link_creations(root, p, t, fs1);
    let fs2 = fs1.insert(p, fs1[p].union(keep));
    lemma_stale_removals(root, p, listed, keep, fs2);
    assert(fs2[p].difference(stale_names(listed, keep)) =~= keep) by {
        assert forall|n: Seq<char>| fs1[p].contains(n) && !keep.contains(n) implies listed.contains(
            n,
        ) by {
            if fs.contains_key(p) {
                assert(fs1[p] == fs[p]);
            }
        }
    }
    assert(fs2.insert(p, keep) =~= fs.insert(p, keep));
}

proof fn lemma_listed_entries(dirs: Seq<ProfileDirView>, p: Seq<char>)
    ensures
        (exists|k: int| 0 <= k < dirs.len() && (#[trigger] dirs[k]).profile == p) ==> exists|k: int|
            0 <= k < dirs.len() && (#[trigger] dirs[k]).profile == p && listed_entries(dirs, p)
                == dirs[k].entries,
    decreases dirs.len(),
{
    if dirs.len() > 0 {
        let rest = dirs.drop_last();
        lemma_listed_entries(rest, p);
        if dirs.last().profile == p {
            assert(dirs[dirs.len() - 1].profile == p);
        } else if exists|k: int| 0 <= k < dirs.len() && (#[trigger] dirs[k]).profile == p {
            let k = choose|k: int| 0 <= k < dirs.len() && (#[trigger] dirs[k]).profile == p;
            assert(rest[k].profile == p);
            let j = choose|j: int|
                0 <= j < rest.len() && (#[trigger] rest[j]).profile == p && listed_entries(rest, p)
                    == rest[j].entries;
            assert(dirs[j] == rest[j]);
        }
    }
}

proof fn lemma_reconcile_profiles(
    root: Seq<char>,
    s: StoreView,
    ps: Seq<ProfileView>,
    dirs: Seq<ProfileDirView>,
    fs: Projection,
)
    requires
        profile_names_distinct(ps),
        agrees_with(fs, dirs),
    ensures
        ({
            let r = apply_actions(fs, reconcile_profiles(root, s, ps, dirs));
            &&& forall|p: Seq<char>|
                has_profile(ps, p) ==> #[trigger] r.contains_key(p) && r[p] == expected_links(s, p)
            &&& forall|p: Seq<char>|
                !has_profile(ps, p) ==> (#[trigger] r.contains_key(p) == fs.contains_key(p) && (
                fs.contains_key(p) ==> r[p] == fs[p]))
        }),
    decreases ps.len(),
{
    if ps.len() == 0 {
        assert(reconcile_profiles(root, s, ps, dirs) =~= Seq::<LinkActionView>::empty());
    } else {
        let rest = ps.drop_last();
        let name = ps.last().name;
        assert(profile_names_distinct(rest)) by {
            assert forall|i: int, j: int|
                0 <= i < rest.len() && 0 <= j < rest.len() && i != j implies (#[trigger] rest[i]).name
                != (#[trigger] rest[j]).name by {
                assert(rest[i] == ps[i] && rest[j] == ps[j]);
            }
        }
        lemma_reconcile_profiles(root, s, rest, dirs, fs);
        let r0 = apply_actions(fs, reconcile_profiles(root, s, rest, dirs));
        let listed = listed_entries(dirs, name);
        let t = paths_of(s.members_of(name));
        assert(!has_profile(rest, name)) by {
            if has_profile(rest, name) {
                let i = choose|i: int| 0 <= i < rest.len() && (#[trigger] rest[i]).name == name;
                assert(ps[i].name == ps[ps.len() - 1].name);
            }
        }
        assert(r0.contains_key(name) ==> forall|n: Seq<char>| #[trigger] r0[name].contains(n) ==> listed.contains(n)) by {
            if r0.contains_key(name) {
                assert(fs.contains_key(name));
                lemma_listed_entries(dirs, name);
                let k = choose|k: int| 0 <= k < dirs.len() && (#[trigger] dirs[k]).profile == name && listed == dirs[k].entries;
                assert(fs[name] == dirs[k].entries.to_set());
            }
        }
        lemma_sync_plan(root, name, t, listed, r0);
        lemma_apply_concat(fs, reconcile_profiles(root, s, rest, dirs), sync_plan(root, name, t, listed));
        let r = apply_actions(fs, reconcile_profiles(root, s, ps, dirs));
        assert(r == r0.insert(name, link_names_of(t)));
        assert forall|p: Seq<char>| has_profile(ps, p) implies #[trigger] r.contains_key(p) && r[p]
            == expected_links(s, p) by {
            if p != name {
                let i = choose|i: int| 0 <= i < ps.len() && (#[trigger] ps[i]).name == p;
                assert(rest[i].name == p);
            }
        }
        assert forall|p: Seq<char>| !has_profile(ps, p) implies (#[trigger] r.contains_key(p)
            == fs.contains_key(p) && (fs.contains_key(p) ==> r[p] == fs[p])) by {
            assert(ps[ps.len() - 1].name == name);
            assert(p != name);
            if has_profile(rest, p) {
                let i = choose|i: int| 0 <= i < rest.len() && (#[trigger] rest[i]).name == p;
                assert(ps[i].name == p);
            }
            assert(!has_profile(rest, p));
            assert(r0.contains_key(p) == fs.contains_key(p));
            assert(r.contains_key(p) == r0.contains_key(p));
            if fs.contains_key(p) {
                assert(r0[p] == fs[p]);
                assert(r[p] == r0[p]);
            }
        }
    }
}

proof fn lemma_orphan_removals(
    root: Seq<char>,
    profiles: Seq<ProfileView>,
    dirs: Seq<ProfileDirView>,
    g: Projection,
)
    ensures
        ({
            let r = apply_actions(g, orphan_removals(root, profiles, dirs));
            &&& forall|p: Seq<char>|
                #[trigger] r.contains_key(p) == (g.contains_key(p) && !(!has_profile(profiles, p)
                    && exists|k: int| 0 <= k < dirs.len() && (#[trigger] dirs[k]).profile == p))
            &&& forall|p: Seq<char>| #[trigger] r.contains_key(p) ==> r[p] == g[p]
        }),
    decreases dirs.len(),
{
    if dirs.len() == 0 {
        assert(orphan_removals(root, profiles, dirs) =~= Seq::<LinkActionView>::empty());
    } else {
        let rest = dirs.drop_last();
        lemma_orphan_removals(root, profiles, rest, g);
        let r0 = apply_actions(g, orphan_removals(root, profiles, rest));
        let last = dirs.last();
        let r = apply_actions(g, orphan_removals(root, profiles, dirs));
        if !has_profile(profiles, last.profile) {
            let a = remove_dir_action(root, last.profile);
            assert(orphan_removals(root, profiles, rest).push(a).drop_last() =~= orphan_removals(
                root,
                profiles,
                rest,
            ));
            assert(r == apply_action(r0, a));
        } else {
            assert(r == r0);
        }
        assert forall|p: Seq<char>| #[trigger] r.contains_key(p) == (g.contains_key(p) && !(
        !has_profile(profiles, p) && exists|k: int| 0 <= k < dirs.len() && (#[trigger] dirs[k]).profile == p)) by {
            if exists|k: int| 0 <= k < rest.len() && (#[trigger] rest[k]).profile == p {
                let k = choose|k: int| 0 <= k < rest.len() && (#[trigger] rest[k]).profile == p;
                assert(dirs[k].profile == p);
            }
            if exists|k: int| 0 <= k < dirs.len() && (#[trigger] dirs[k]).profile == p {
                let k = choose|k: int| 0 <= k < dirs.len() && (#[trigger] dirs[k]).profile == p;
                if k < rest.len() {
                    assert(rest[k].profile == p);
                }
            }
            assert(dirs[dirs.len() - 1] == last);
        }
    }
}

/// Reconciliation restores the projection: run against a projection that
/// agrees with the listing it was planned from, the plan leaves exactly
/// one directory per profile, each holding exactly the link names of the
/// profile's members.
pub proof fn lemma_reconcile(s: StoreView, root: Seq<char>, dirs: Seq<ProfileDirView>, fs: Projection)
    requires
        s.wf(),
        agrees_with(fs, dirs),
    ensures
        ({
            let r = apply_actions(fs, reconcile_plan(root, s, dirs));
            &&& forall|p: Seq<char>| #[trigger] r.contains_key(p) == has_profile(s.profiles, p)
            &&& forall|p: Seq<char>|
                has_profile(s.profiles, p) ==> #[trigger] r[p] == expected_links(s, p)
        }),
{
    let a = reconcile_profiles(root, s, s.profiles, dirs);
    let b = orphan_removals(root, s.profiles, dirs);
    lemma_reconcile_profiles(root, s, s.profiles, dirs, fs);
    let g = apply_actions(fs, a);
    lemma_orphan_removals(root, s.profiles, dirs, g);
    lemma_apply_concat(fs, a, b);
    let r = apply_actions(fs, reconcile_plan(root, s, dirs));
    assert(r == apply_actions(g, b));
    assert forall|p: Seq<char>| #[trigger] r.contains_key(p) == has_profile(s.profiles, p) by {
        if !has_profile(s.profiles, p) && g.contains_key(p) {
            assert(fs.contains_key(p));
            let k = choose|k: int| 0 <= k < dirs.len() && (#[trigger] dirs[k]).profile == p;
            assert(!r.contains_key(p));
        }
        if has_profile(s.profiles, p) {
            assert(g.contains_key(p));
            assert(r.contains_key(p));
        }
    }
    assert forall|p: Seq<char>| has_profile(s.profiles, p) implies #[trigger] r[p] == expected_links(
        s,
        p,
    ) by {
        assert(g.contains_key(p));
        assert(r.contains_key(p));
        assert(r[p] == g[p]);
    }
}

} // verus!
