//! What the operations on groups and the registry keep, and what they
//! guarantee of each other.

use vstd::prelude::*;
use crate::file_handler::{
    apply_results, clear_slots, drop_member, drop_members, in_some_group, last_index_of, members,
    results_recorded, with_member, default_group_name, plotted_upto, registered_members, FileID, GroupView,
    HandlerView, NUM_GROUPS,
};
use crate::paths::{path_join, same_path};

verus! {

proof fn lemma_push_no_duplicates(s: Seq<FileID>, x: FileID)
    requires
        s.no_duplicates(),
        !s.contains(x),
    ensures
        s.push(x).no_duplicates(),
{
    assert forall|i: int, j: int| 0 <= i < s.push(x).len() && 0 <= j < s.push(x).len() && i != j implies s.push(x)[i] != s.push(x)[j] by {
        if i < s.len() && j < s.len() {
        } else if i == s.len() {
            assert(s[j] == s.push(x)[j]);
        } else {
            assert(s[i] == s.push(x)[i]);
        }
    }
}

proof fn lemma_remove_no_duplicates(s: Seq<FileID>, k: int)
    requires
        s.no_duplicates(),
        0 <= k < s.len(),
    ensures
        s.remove(k).no_duplicates(),
        !s.remove(k).contains(s[k]),
        forall|x: FileID| x != s[k] ==> (s.remove(k).contains(x) <==> s.contains(x)),
{
    let r = s.remove(k);
    assert forall|i: int, j: int| 0 <= i < r.len() && 0 <= j < r.len() && i != j implies r[i] != r[j] by {
        let i2 = if i < k { i } else { i + 1 };
        let j2 = if j < k { j } else { j + 1 };
        assert(r[i] == s[i2]);
        assert(r[j] == s[j2]);
    }
    assert forall|i: int| 0 <= i < r.len() implies r[i] != s[k] by {
        let i2 = if i < k { i } else { i + 1 };
        assert(r[i] == s[i2]);
    }
    assert forall|x: FileID| x != s[k] implies (r.contains(x) <==> s.contains(x)) by {
        if s.contains(x) {
            let i = choose|i: int| 0 <= i < s.len() && s[i] == x;
            if i < k {
                assert(r[i] == x);
            } else {
                assert(i != k);
                assert(r[i - 1] == x);
            }
        }
        if r.contains(x) {
            let i = choose|i: int| 0 <= i < r.len() && r[i] == x;
            let i2 = if i < k { i } else { i + 1 };
            assert(s[i2] == x);
        }
    }
}

pub proof fn lemma_last_index_of(s: Seq<FileID>, f: FileID)
    ensures
        -1 <= last_index_of(s, f) < s.len(),
        last_index_of(s, f) >= 0 ==> s[last_index_of(s, f)] == f,
        last_index_of(s, f) == -1 <==> !s.contains(f),
    decreases s.len(),
{
    if s.len() > 0 {
        lemma_last_index_of(s.drop_last(), f);
        if s.last() != f {
            if s.contains(f) {
                let i = choose|i: int| 0 <= i < s.len() && s[i] == f;
                assert(s.drop_last()[i] == f);
            }
            if s.drop_last().contains(f) {
                let i = choose|i: int| 0 <= i < s.drop_last().len() && s.drop_last()[i] == f;
                assert(s[i] == f);
            }
        } else {
            assert(s[s.len() - 1] == f);
        }
    }
}

/// Adding a file to a group keeps the handler well formed, and the file is
/// then a member of that group.
pub proof fn lemma_add_to_group(v: HandlerView, gid: nat, fid: FileID)
    requires
        v.groups_ok(),
        gid < NUM_GROUPS,
    ensures
        v.add_to_group(gid, fid).groups_ok(),
        v.wf() ==> v.add_to_group(gid, fid).wf(),
        members(v.add_to_group(gid, fid).groups[gid as int]).contains(fid),
        v.add_to_group(gid, fid).registry == v.registry,
        v.add_to_group(gid, fid).next_id == v.next_id,
        forall|g: int| 0 <= g < NUM_GROUPS && g != gid ==> v.add_to_group(gid, fid).groups[g] == v.groups[g],
        forall|g: int, x: FileID| 0 <= g < NUM_GROUPS && #[trigger] members(v.groups[g]).contains(x)
            ==> members(v.add_to_group(gid, fid).groups[g]).contains(x),
{
    let w = v.add_to_group(gid, fid);
    let old_m = members(v.groups[gid as int]);
    assert(old_m.no_duplicates());
    match v.groups[gid as int] {
        Some(g) => {
            if !g.file_ids.contains(fid) {
                lemma_push_no_duplicates(g.file_ids, fid);
                assert(g.file_ids.push(fid)[g.file_ids.len() as int] == fid);
                assert forall|x: FileID| g.file_ids.contains(x) implies g.file_ids.push(fid).contains(x) by {
                    let i = choose|i: int| 0 <= i < g.file_ids.len() && g.file_ids[i] == x;
                    assert(g.file_ids.push(fid)[i] == x);
                }
            }
        },
        None => {
            assert(seq![fid][0] == fid);
        },
    }
    assert forall|g: int| 0 <= g < w.groups.len() implies (#[trigger] members(w.groups[g])).no_duplicates() by {
        if g != gid {
            assert(w.groups[g] == v.groups[g]);
        }
    }
}

/// Adding a file to a group twice is the same as adding it once: the
/// second time it is a member already, and a group the first time made
/// holds it.
pub proof fn lemma_add_to_group_twice(v: HandlerView, gid: nat, fid: FileID)
    requires
        v.groups.len() == NUM_GROUPS,
        gid < NUM_GROUPS,
    ensures
        v.add_to_group(gid, fid).add_to_group(gid, fid) == v.add_to_group(gid, fid),
{
    let w = v.add_to_group(gid, fid);
    let g1 = with_member(v.groups[gid as int], gid, fid);
    assert(w.groups[gid as int] == Some(g1));
    match v.groups[gid as int] {
        Some(g) => {
            if !g.file_ids.contains(fid) {
                assert(g.file_ids.push(fid)[g.file_ids.len() as int] == fid);
            }
        },
        None => {
            assert(seq![fid][0] == fid);
        },
    }
    assert(g1.file_ids.contains(fid));
    assert(with_member(Some(g1), gid, fid) == g1);
    assert(w.groups.update(gid as int, Some(g1)) =~= w.groups);
}

/// Registering a path hands out an identifier no file had, and keeps the
/// handler well formed.
pub proof fn lemma_register(v: HandlerView, path: Seq<char>)
    requires
        v.wf(),
        v.next_id < usize::MAX,
    ensures
        !v.registry.contains_key(v.next_id),
        v.register(path).wf(),
        v.register(path).registry[v.next_id] == path,
        forall|k: usize| #[trigger] v.registry.contains_key(k) ==> v.register(path).registry.contains_key(k)
            && v.register(path).registry[k] == v.registry[k],
{
}

/// Removing files and groups keeps the handler well formed; a file removed
/// from a group that held it once is no longer a member.
pub proof fn lemma_removed_wf(v: HandlerView, after: HandlerView, gids: Seq<usize>, dels: Seq<(usize, FileID)>)
    requires
        v.wf(),
        v.removed(after, gids, dels),
    ensures
        after.wf(),
{
    lemma_drop_members_wf(v.groups, dels);
    let gs = drop_members(v.groups, dels).0;
    assert forall|g: int| 0 <= g < after.groups.len() implies (#[trigger] members(after.groups[g])).no_duplicates() by {
        if !gids.contains(g as usize) {
            assert(after.groups[g] == gs[g]);
        } else {
            assert(members(after.groups[g]) =~= Seq::<FileID>::empty());
        }
    }
}

/// Removing a member from a group keeps the groups free of repeated members.
pub proof fn lemma_drop_members_wf(groups: Seq<Option<GroupView>>, dels: Seq<(usize, FileID)>)
    requires
        groups.len() == NUM_GROUPS,
        forall|g: int| 0 <= g < groups.len() ==> (#[trigger] members(groups[g])).no_duplicates(),
    ensures
        drop_members(groups, dels).0.len() == NUM_GROUPS,
        forall|g: int| 0 <= g < NUM_GROUPS ==> (#[trigger] members(drop_members(groups, dels).0[g])).no_duplicates(),
    decreases dels.len(),
{
    if dels.len() > 0 {
        lemma_drop_members_wf(groups, dels.drop_last());
        let gs = drop_members(groups, dels.drop_last()).0;
        let (gid, fid) = dels.last();
        let gs2 = drop_member(gs, gid, fid).0;
        assert forall|g: int| 0 <= g < NUM_GROUPS implies (#[trigger] members(gs2[g])).no_duplicates() by {
            if gid < gs.len() && gs[gid as int] is Some && last_index_of(members(gs[gid as int]), fid) >= 0 && g == gid {
                let m = members(gs[gid as int]);
                lemma_last_index_of(m, fid);
                lemma_remove_no_duplicates(m, last_index_of(m, fid));
            }
        }
    }
}

/// After a file that a group holds once is removed from it, the group no
/// longer holds it, and the other groups are unchanged.
pub proof fn lemma_remove_file_from_group(v: HandlerView, after: HandlerView, gid: usize, fid: FileID)
    requires
        v.wf(),
        gid < NUM_GROUPS,
        members(v.groups[gid as int]).contains(fid),
        v.removed(after, Seq::empty(), seq![(gid, fid)]),
    ensures
        !members(after.groups[gid as int]).contains(fid),
        forall|g: int| 0 <= g < NUM_GROUPS && g != gid ==> after.groups[g] == v.groups[g],
        forall|k: usize| #[trigger] after.registry.contains_key(k) <==> v.registry.contains_key(k) && in_some_group(after.groups, k),
{
    let dels = seq![(gid, fid)];
    assert(dels.drop_last() =~= Seq::<(usize, FileID)>::empty());
    let m = members(v.groups[gid as int]);
    lemma_last_index_of(m, fid);
    lemma_remove_no_duplicates(m, last_index_of(m, fid));
    let gs = drop_members(v.groups, dels).0;
    assert(drop_members(v.groups, dels.drop_last()) == (v.groups, false));
    assert(dels.last() == (gid, fid));
    assert(gs == drop_member(v.groups, gid, fid).0);
    assert(drop_members(v.groups, dels).1);
    assert(after.groups =~= gs) by {
        assert(clear_slots(gs, Seq::empty()) =~= gs);
    }
}

/// Cloning a registered file into a group keeps the handler well formed:
/// the copy gets a fresh identifier, the same path, and joins the group.
pub proof fn lemma_clone_file(v: HandlerView, fid: FileID, to: nat)
    requires
        v.wf(),
        to < NUM_GROUPS,
        v.next_id < usize::MAX,
        v.registry.contains_key(fid.0),
    ensures
        v.register(v.registry[fid.0]).add_to_group(to, FileID(v.next_id)).wf(),
        !v.registry.contains_key(v.next_id),
        v.register(v.registry[fid.0]).add_to_group(to, FileID(v.next_id)).registry[v.next_id]
            == v.registry[fid.0],
        members(v.register(v.registry[fid.0]).add_to_group(to, FileID(v.next_id)).groups[to as int]).contains(
            FileID(v.next_id),
        ),
{
    lemma_register(v, v.registry[fid.0]);
    lemma_add_to_group(v.register(v.registry[fid.0]), to, FileID(v.next_id));
}

/// Moving a file held once by one group to another group leaves it in the
/// target group only.
pub proof fn lemma_move_file(v: HandlerView, after: HandlerView, from: usize, to: usize, fid: FileID)
    requires
        v.wf(),
        from < NUM_GROUPS,
        to < NUM_GROUPS,
        from != to,
        members(v.groups[from as int]).contains(fid),
        v.add_to_group(to as nat, fid).removed(after, Seq::empty(), seq![(from, fid)]),
    ensures
        !members(after.groups[from as int]).contains(fid),
        members(after.groups[to as int]).contains(fid),
        after.wf(),
{
    lemma_add_to_group(v, to as nat, fid);
    let mid = v.add_to_group(to as nat, fid);
    assert(mid.groups[from as int] == v.groups[from as int]);
    lemma_remove_file_from_group(mid, after, from, fid);
    lemma_removed_wf(mid, after, Seq::empty(), seq![(from, fid)]);
}

/// The file recorded for an assigned match is in the group it was assigned
/// to, registered with the match's path below `base`.
pub open spec fn result_landed(v: HandlerView, base: Seq<char>, m: (String, Option<usize>), r: Option<(FileID, bool)>) -> bool {
    match (m.1, r) {
        (Some(g), Some((f, _))) => {
            &&& g < NUM_GROUPS
            &&& members(v.groups[g as int]).contains(f)
            &&& v.registry.contains_key(f.0)
            &&& same_path(v.registry[f.0], path_join(base, m.0@))
        },
        _ => true,
    }
}

/// Adding search results keeps the groups free of repeated members (and a
/// well formed handler well formed), and every assigned match ends up in
/// the group it was assigned to, registered with its path below the search
/// root. New files get the identifiers from the next one on, which no
/// registered file may have.
pub proof fn lemma_search_results_land_in_groups(
    v: HandlerView,
    base: Seq<char>,
    matches: Seq<(String, Option<usize>)>,
    res: Seq<Option<(FileID, bool)>>,
)
    requires
        v.groups_ok(),
        v.ids_free(matches.len()),
        results_recorded(v, base, matches, res),
        v.next_id + matches.len() <= usize::MAX,
    ensures
        apply_results(v, base, matches, res).groups_ok(),
        v.wf() ==> apply_results(v, base, matches, res).wf(),
        v.next_id <= apply_results(v, base, matches, res).next_id <= v.next_id + matches.len(),
        forall|k: usize| #[trigger] apply_results(v, base, matches, res).registry.contains_key(k) ==> v.registry.contains_key(k)
            || (v.next_id <= k < apply_results(v, base, matches, res).next_id),
        forall|i: int| 0 <= i < matches.len() ==> result_landed(apply_results(v, base, matches, res), base, #[trigger] matches[i], res[i]),
    decreases matches.len(),
{
    if matches.len() > 0 {
        let pm = matches.drop_last();
        let pr = res.drop_last();
        lemma_search_results_land_in_groups(v, base, pm, pr);
        let prev = apply_results(v, base, pm, pr);
        let last = apply_results(v, base, matches, res);
        let n = matches.len() - 1;
        match (matches.last().1, res.last()) {
            (Some(g), Some((f, is_new))) => {
                assert(g < NUM_GROUPS);
                if is_new {
                    lemma_next_id_free(v, prev, matches.len());
                    let p = path_join(base, matches.last().0@);
                    let mid = prev.register(p);
                    assert(mid.groups_ok());
                    lemma_add_to_group(mid, g as nat, f);
                    assert forall|k: usize| #[trigger] last.registry.contains_key(k) implies v.registry.contains_key(k)
                        || (v.next_id <= k < last.next_id) by {
                        if k != prev.next_id {
                            assert(prev.registry.contains_key(k));
                        }
                    }
                } else {
                    lemma_add_to_group(prev, g as nat, f);
                }
                assert forall|i: int| 0 <= i < matches.len() implies result_landed(last, base, #[trigger] matches[i], res[i]) by {
                    if i < n {
                        assert(pm[i] == matches[i]);
                        assert(pr[i] == res[i]);
                        assert(result_landed(prev, base, pm[i], pr[i]));
                    }
                }
            },
            _ => {
                assert forall|i: int| 0 <= i < matches.len() implies result_landed(last, base, #[trigger] matches[i], res[i]) by {
                    if i < n {
                        assert(pm[i] == matches[i]);
                        assert(pr[i] == res[i]);
                    }
                }
            },
        }
    }
}

/// The identifier handed out next is free: no registered file has it,
/// when the files registered since `v` got identifiers from `v`'s next one
/// on and `v` left `m` identifiers free of which fewer than `m` were used.
proof fn lemma_next_id_free(v: HandlerView, prev: HandlerView, m: nat)
    requires
        v.ids_free(m),
        v.next_id <= prev.next_id < v.next_id + m,
        forall|k: usize| #[trigger] prev.registry.contains_key(k) ==> v.registry.contains_key(k)
            || (v.next_id <= k < prev.next_id),
    ensures
        !prev.registry.contains_key(prev.next_id),
{
    if prev.registry.contains_key(prev.next_id) {
        assert(v.registry.contains_key(prev.next_id));
    }
}

/// No two registered files share a path.
pub open spec fn paths_distinct(v: HandlerView) -> bool {
    forall|a: usize, b: usize|
        #[trigger] v.registry.contains_key(a) && #[trigger] v.registry.contains_key(b) && a != b
            ==> !same_path(v.registry[a], v.registry[b])
}

/// Adding search results registers no path twice: a path that is
/// registered already is reused, so registered paths that were distinct stay
/// distinct.
pub proof fn lemma_search_results_keep_paths_distinct(
    v: HandlerView,
    base: Seq<char>,
    matches: Seq<(String, Option<usize>)>,
    res: Seq<Option<(FileID, bool)>>,
)
    requires
        v.groups_ok(),
        v.ids_free(matches.len()),
        paths_distinct(v),
        results_recorded(v, base, matches, res),
        v.next_id + matches.len() <= usize::MAX,
    ensures
        paths_distinct(apply_results(v, base, matches, res)),
    decreases matches.len(),
{
    if matches.len() > 0 {
        let pm = matches.drop_last();
        let pr = res.drop_last();
        lemma_search_results_keep_paths_distinct(v, base, pm, pr);
        lemma_search_results_land_in_groups(v, base, pm, pr);
        let prev = apply_results(v, base, pm, pr);
        let last = apply_results(v, base, matches, res);
        match (matches.last().1, res.last()) {
            (Some(g), Some((f, is_new))) => {
                let p = path_join(base, matches.last().0@);
                if is_new {
                    assert(prev.path_unregistered(p));
                    lemma_next_id_free(v, prev, matches.len());
                    assert(last.registry == prev.register(p).add_to_group(g as nat, f).registry);
                    assert(last.registry == prev.registry.insert(prev.next_id, p));
                    assert forall|a: usize, b: usize|
                        #[trigger] last.registry.contains_key(a) && #[trigger] last.registry.contains_key(b) && a != b
                        implies !same_path(last.registry[a], last.registry[b]) by {
                        if a != prev.next_id && b != prev.next_id {
                            assert(prev.registry.contains_key(a) && prev.registry.contains_key(b));
                        } else if a == prev.next_id {
                            assert(prev.registry.contains_key(b));
                        } else {
                            assert(prev.registry.contains_key(a));
                        }
                    }
                } else {
                    assert(last.registry == prev.registry);
                }
            },
            _ => {},
        }
    }
}

/// Adding search results keeps every registered file with its path and
/// every existing group with its name and visibility; a group made in an
/// empty slot is plotted and named after its slot, and there stay ten
/// slots.
pub proof fn lemma_search_results_keep_old(
    v: HandlerView,
    base: Seq<char>,
    matches: Seq<(String, Option<usize>)>,
    res: Seq<Option<(FileID, bool)>>,
)
    requires
        v.groups_ok(),
        v.ids_free(matches.len()),
        results_recorded(v, base, matches, res),
        v.next_id + matches.len() <= usize::MAX,
    ensures
        ({
            let after = apply_results(v, base, matches, res);
            &&& after.groups.len() == NUM_GROUPS
            &&& forall|k: usize| #[trigger] v.registry.contains_key(k) ==> after.registry.contains_key(k)
                && after.registry[k] == v.registry[k]
            &&& forall|g: int| 0 <= g < NUM_GROUPS && (#[trigger] v.groups[g]) is Some ==> {
                &&& after.groups[g] is Some
                &&& after.groups[g]->0.name == v.groups[g]->0.name
                &&& after.groups[g]->0.is_plotted == v.groups[g]->0.is_plotted
            }
            &&& forall|g: int| 0 <= g < NUM_GROUPS && (#[trigger] v.groups[g]) is None && after.groups[g] is Some ==> {
                &&& after.groups[g]->0.name == default_group_name(g as nat)
                &&& after.groups[g]->0.is_plotted
            }
        }),
    decreases matches.len(),
{
    if matches.len() > 0 {
        let pm = matches.drop_last();
        let pr = res.drop_last();
        lemma_search_results_keep_old(v, base, pm, pr);
        lemma_search_results_land_in_groups(v, base, pm, pr);
        let prev = apply_results(v, base, pm, pr);
        let last = apply_results(v, base, matches, res);
        match (matches.last().1, res.last()) {
            (Some(g), Some((f, is_new))) => {
                assert(g < NUM_GROUPS);
                let p = path_join(base, matches.last().0@);
                let mid = if is_new { prev.register(p) } else { prev };
                if is_new {
                    lemma_next_id_free(v, prev, matches.len());
                }
                assert(last == mid.add_to_group(g as nat, f));
                assert forall|x: int| 0 <= x < NUM_GROUPS && x != g implies #[trigger] last.groups[x] == prev.groups[x] by {}
                match prev.groups[g as int] {
                    Some(pg) => {
                        assert(last.groups[g as int] == Some(with_member(Some(pg), g as nat, f)));
                    },
                    None => {
                        assert(last.groups[g as int] == Some(with_member(None, g as nat, f)));
                    },
                }
            },
            _ => {},
        }
    }
}

/// The plot draws file `f` for slot `g`: the slot holds a plotted group
/// that has `f` as a member, and `f` is registered.
pub open spec fn drawn_in_slot(v: HandlerView, g: int, f: FileID) -> bool {
    &&& 0 <= g < NUM_GROUPS
    &&& v.groups[g] is Some
    &&& v.groups[g]->0.is_plotted
    &&& v.groups[g]->0.file_ids.contains(f)
    &&& v.registry.contains_key(f.0)
}

proof fn lemma_concat_contains<A>(a: Seq<A>, b: Seq<A>, x: A)
    ensures
        (a + b).contains(x) <==> a.contains(x) || b.contains(x),
{
    if (a + b).contains(x) {
        let i = choose|i: int| 0 <= i < (a + b).len() && (a + b)[i] == x;
        if i < a.len() {
            assert(a[i] == x);
        } else {
            assert(b[i - a.len()] == x);
        }
    }
    if a.contains(x) {
        let i = choose|i: int| 0 <= i < a.len() && a[i] == x;
        assert((a + b)[i] == x);
    }
    if b.contains(x) {
        let i = choose|i: int| 0 <= i < b.len() && b[i] == x;
        assert((a + b)[a.len() + i] == x);
    }
}

proof fn lemma_registered_members(ids: Seq<FileID>, registry: Map<usize, Seq<char>>, g: usize)
    ensures
        forall|x: (FileID, usize)| #[trigger] registered_members(ids, registry, g).contains(x) <==> (x.1 == g
            && ids.contains(x.0) && registry.contains_key(x.0.0)),
    decreases ids.len(),
{
    if ids.len() > 0 {
        let prev = ids.drop_last();
        lemma_registered_members(prev, registry, g);
        let r = registered_members(ids, registry, g);
        let rp = registered_members(prev, registry, g);
        assert forall|x: (FileID, usize)| #[trigger] r.contains(x) <==> (x.1 == g && ids.contains(x.0)
            && registry.contains_key(x.0.0)) by {
            assert(ids.contains(x.0) <==> (prev.contains(x.0) || ids.last() == x.0)) by {
                if ids.contains(x.0) {
                    let i = choose|i: int| 0 <= i < ids.len() && ids[i] == x.0;
                    if i < prev.len() {
                        assert(prev[i] == x.0);
                    }
                }
                if prev.contains(x.0) {
                    let i = choose|i: int| 0 <= i < prev.len() && prev[i] == x.0;
                    assert(ids[i] == x.0);
                }
                if ids.last() == x.0 {
                    assert(ids[ids.len() - 1] == x.0);
                }
            }
            if registry.contains_key(ids.last().0) {
                lemma_concat_contains(rp, seq![(ids.last(), g)], x);
                assert(rp.push((ids.last(), g)) =~= rp + seq![(ids.last(), g)]);
                assert(seq![(ids.last(), g)].contains(x) <==> x == (ids.last(), g)) by {
                    if seq![(ids.last(), g)].contains(x) {
                        let i = choose|i: int| 0 <= i < 1 && seq![(ids.last(), g)][i] == x;
                    }
                    if x == (ids.last(), g) {
                        assert(seq![(ids.last(), g)][0] == x);
                    }
                }
            }
        }
    }
}

proof fn lemma_plotted_upto(v: HandlerView, n: int)
    requires
        0 <= n <= NUM_GROUPS,
        v.groups.len() == NUM_GROUPS,
    ensures
        forall|x: (FileID, usize)| #[trigger] plotted_upto(v, n).contains(x) <==> (x.1 < n && drawn_in_slot(
            v,
            x.1 as int,
            x.0,
        )),
        forall|i: int, j: int| 0 <= i < j < plotted_upto(v, n).len() ==> plotted_upto(v, n)[i].1 <= plotted_upto(
            v,
            n,
        )[j].1,
        forall|i: int| 0 <= i < plotted_upto(v, n).len() ==> #[trigger] plotted_upto(v, n)[i].1 < n,
    decreases n,
{
    if n > 0 {
        lemma_plotted_upto(v, n - 1);
        let a = plotted_upto(v, n - 1);
        let g = (n - 1) as usize;
        let b = match v.groups[n - 1] {
            Some(grp) => if grp.is_plotted {
                registered_members(grp.file_ids, v.registry, g)
            } else {
                Seq::<(FileID, usize)>::empty()
            },
            None => Seq::<(FileID, usize)>::empty(),
        };
        assert(plotted_upto(v, n) == a + b);
        match v.groups[n - 1] {
            Some(grp) => {
                lemma_registered_members(grp.file_ids, v.registry, g);
            },
            None => {},
        }
        assert forall|x: (FileID, usize)| #[trigger] b.contains(x) implies x.1 == g by {}
        assert forall|k: int| 0 <= k < b.len() implies #[trigger] b[k].1 == g by {
            assert(b.contains(b[k]));
        }
        assert forall|x: (FileID, usize)| #[trigger] plotted_upto(v, n).contains(x) <==> (x.1 < n && drawn_in_slot(
            v,
            x.1 as int,
            x.0,
        )) by {
            lemma_concat_contains(a, b, x);
        }
        assert forall|i: int, j: int| 0 <= i < j < plotted_upto(v, n).len() implies plotted_upto(v, n)[i].1
            <= plotted_upto(v, n)[j].1 by {
            if j < a.len() {
                assert(plotted_upto(v, n)[i] == a[i]);
                assert(plotted_upto(v, n)[j] == a[j]);
            } else if i < a.len() {
                assert(plotted_upto(v, n)[i] == a[i]);
                assert(plotted_upto(v, n)[j] == b[j - a.len()]);
            } else {
                assert(plotted_upto(v, n)[i] == b[i - a.len()]);
                assert(plotted_upto(v, n)[j] == b[j - a.len()]);
            }
        }
        assert forall|i: int| 0 <= i < plotted_upto(v, n).len() implies #[trigger] plotted_upto(v, n)[i].1 < n by {
            if i < a.len() {
                assert(plotted_upto(v, n)[i] == a[i]);
            } else {
                assert(plotted_upto(v, n)[i] == b[i - a.len()]);
            }
        }
    }
}

/// What the plot draws (`FileHandler::plotted_files`): a file with a slot
/// is listed exactly when that slot, one of the ten, holds a plotted group
/// that has the file as a member and the file is registered; the list goes
/// slot by slot.
pub proof fn lemma_plotted_files(v: HandlerView)
    requires
        v.groups.len() == NUM_GROUPS,
    ensures
        forall|f: FileID, g: usize| #[trigger] plotted_upto(v, NUM_GROUPS as int).contains((f, g)) <==> drawn_in_slot(
            v,
            g as int,
            f,
        ),
        forall|i: int, j: int| 0 <= i < j < plotted_upto(v, NUM_GROUPS as int).len() ==> plotted_upto(
            v,
            NUM_GROUPS as int,
        )[i].1 <= plotted_upto(v, NUM_GROUPS as int)[j].1,
{
    lemma_plotted_upto(v, NUM_GROUPS as int);
    assert forall|f: FileID, g: usize| #[trigger] plotted_upto(v, NUM_GROUPS as int).contains((f, g)) <==> drawn_in_slot(
        v,
        g as int,
        f,
    ) by {
        assert(plotted_upto(v, NUM_GROUPS as int).contains((f, g)) <==> ((f, g).1 < NUM_GROUPS && drawn_in_slot(
            v,
            (f, g).1 as int,
            (f, g).0,
        )));
    }
}

/// Adding a file to slot `gid`: an empty slot gets a new plotted group
/// named `G` and the slot number holding just the file; a group already
/// there keeps its name and visibility, and its members with the file put
/// at the end unless it was a member already. Other slots and the registry
/// stay as they were.
pub proof fn lemma_add_to_group_shape(v: HandlerView, gid: nat, fid: FileID)
    requires
        v.groups.len() == NUM_GROUPS,
        gid < NUM_GROUPS,
    ensures
        ({
            let w = v.add_to_group(gid, fid);
            &&& w.groups.len() == NUM_GROUPS
            &&& w.registry == v.registry
            &&& w.next_id == v.next_id
            &&& forall|g: int| 0 <= g < NUM_GROUPS && g != gid ==> #[trigger] w.groups[g] == v.groups[g]
            &&& w.groups[gid as int] is Some
            &&& v.groups[gid as int] is None ==> w.groups[gid as int]->0 == (GroupView {
                file_ids: seq![fid],
                is_plotted: true,
                name: default_group_name(gid),
            })
            &&& v.groups[gid as int] is Some ==> {
                let old_g = v.groups[gid as int]->0;
                let new_g = w.groups[gid as int]->0;
                &&& new_g.name == old_g.name
                &&& new_g.is_plotted == old_g.is_plotted
                &&& new_g.file_ids == if old_g.file_ids.contains(fid) {
                    old_g.file_ids
                } else {
                    old_g.file_ids.push(fid)
                }
            }
        }),
{
}

} // verus!
