//! The registry of loaded files and the ten groups they are sorted into.

use std::collections::HashMap;
use vstd::prelude::*;
use vstd::std_specs::iter::IteratorSpec;
use crate::text::{chars_of, decimal, push_chars, push_decimal, string_from_chars};
use crate::paths::{file_name, join_path, path_join, paths_equal, same_path, spec_file_name};
pub use crate::group_id::GroupID;

verus! {

broadcast use vstd::std_specs::hash::group_hash_axioms;

/// Number of group slots.
pub const NUM_GROUPS: usize = 10;

/// Identifier of a registered file.
#[derive(Clone, Copy, Debug, PartialEq, Eq, Structural, Hash, PartialOrd, Ord)]
pub struct FileID(pub usize);

impl FileID {
    /// Hands out this identifier and moves on to the next.
    pub fn next(&mut self) -> (r: FileID)
        requires
            old(self).0 < usize::MAX,
        ensures
            r == *old(self),
            final(self).0 == old(self).0 + 1,
    {
        let id = *self;
        self.0 = self.0 + 1;
        id
    }
}

impl From<FileID> for i32 {
    /// The identifier as a colour index (truncated to 32 bits).
    fn from(val: FileID) -> (r: i32) {
        val.0 as i32
    }
}

impl vstd::std_specs::convert::FromSpecImpl<FileID> for i32 {
    open spec fn obeys_from_spec() -> bool {
        true
    }

    open spec fn from_spec(v: FileID) -> i32 {
        v.0 as i32
    }
}

/// A named group of files, plotted together.
#[derive(Debug)]
pub struct Group {
    pub file_ids: Vec<FileID>,
    pub is_plotted: bool,
    pub name: String,
}

/// A group as the contracts see it.
#[verifier::ext_equal]
pub struct GroupView {
    pub file_ids: Seq<FileID>,
    pub is_plotted: bool,
    pub name: Seq<char>,
}

impl View for Group {
    type V = GroupView;

    open spec fn view(&self) -> GroupView {
        GroupView { file_ids: self.file_ids@, is_plotted: self.is_plotted, name: self.name@ }
    }
}

/// The file handler as the contracts see it: the slots, each path by its
/// identifier, and the identifier the next file gets.
#[verifier::ext_equal]
pub struct HandlerView {
    pub groups: Seq<Option<GroupView>>,
    pub registry: Map<usize, Seq<char>>,
    pub next_id: usize,
}

/// The view of a group slot.
pub open spec fn slot_view(slot: Option<Group>) -> Option<GroupView> {
    match slot {
        Some(g) => Some(g@),
        None => None,
    }
}

/// The name a group gets when it is created in slot `gid`: `"G"` and the
/// slot number.
pub open spec fn default_group_name(gid: nat) -> Seq<char> {
    seq!['G'] + decimal(gid)
}

/// The members of a group slot; an empty slot has none.
pub open spec fn members(slot: Option<GroupView>) -> Seq<FileID> {
    match slot {
        Some(g) => g.file_ids,
        None => Seq::<FileID>::empty(),
    }
}

/// The group in slot `gid` after `fid` was added to it: appended to an
/// existing group unless already a member, or a new plotted group named
/// after the slot.
pub open spec fn with_member(slot: Option<GroupView>, gid: nat, fid: FileID) -> GroupView {
    match slot {
        Some(g) => if g.file_ids.contains(fid) {
            g
        } else {
            GroupView { file_ids: g.file_ids.push(fid), ..g }
        },
        None => GroupView { file_ids: seq![fid], is_plotted: true, name: default_group_name(gid) },
    }
}

/// The index of the last occurrence of `fid` in `ids`, or -1.
pub open spec fn last_index_of(ids: Seq<FileID>, fid: FileID) -> int
    decreases ids.len(),
{
    if ids.len() == 0 {
        -1
    } else if ids.last() == fid {
        ids.len() - 1
    } else {
        last_index_of(ids.drop_last(), fid)
    }
}

/// `k` is a member of some group.
pub open spec fn in_some_group(groups: Seq<Option<GroupView>>, k: usize) -> bool {
    exists|g: int| 0 <= g < groups.len() && #[trigger] members(groups[g]).contains(FileID(k))
}

/// Removes the last occurrence of `fid` from the group in slot `gid`; says
/// whether something was removed.
pub open spec fn drop_member(groups: Seq<Option<GroupView>>, gid: usize, fid: FileID) -> (Seq<Option<GroupView>>, bool) {
    if gid < groups.len() && groups[gid as int] is Some && last_index_of(members(groups[gid as int]), fid) >= 0 {
        let g = groups[gid as int]->0;
        (groups.update(gid as int, Some(GroupView { file_ids: g.file_ids.remove(last_index_of(g.file_ids, fid)), ..g })), true)
    } else {
        (groups, false)
    }
}

/// Removes each (slot, file) pair in turn; says whether anything was removed.
pub open spec fn drop_members(groups: Seq<Option<GroupView>>, dels: Seq<(usize, FileID)>) -> (Seq<Option<GroupView>>, bool)
    decreases dels.len(),
{
    if dels.len() == 0 {
        (groups, false)
    } else {
        let (gs, removed) = drop_members(groups, dels.drop_last());
        let (gs2, removed2) = drop_member(gs, dels.last().0, dels.last().1);
        (gs2, removed || removed2)
    }
}

/// Some listed slot holds a group, which emptying the slots deletes.
pub open spec fn clears_group(groups: Seq<Option<GroupView>>, gids: Seq<usize>) -> bool {
    exists|j: int| 0 <= j < gids.len() && #[trigger] gids[j] < groups.len() && groups[gids[j] as int] is Some
}

/// Empties the listed slots.
pub open spec fn clear_slots(groups: Seq<Option<GroupView>>, gids: Seq<usize>) -> Seq<Option<GroupView>> {
    Seq::new(groups.len(), |k: int| if gids.contains(k as usize) { None } else { groups[k] })
}

impl HandlerView {
    /// The view after `fid` was added to slot `gid`.
    pub open spec fn add_to_group(self, gid: nat, fid: FileID) -> HandlerView {
        HandlerView { groups: self.groups.update(gid as int, Some(with_member(self.groups[gid as int], gid, fid))), ..self }
    }

    /// The view after `path` was registered under the next identifier.
    pub open spec fn register(self, path: Seq<char>) -> HandlerView {
        HandlerView { registry: self.registry.insert(self.next_id, path), next_id: (self.next_id + 1) as usize, ..self }
    }

    /// The state after a search result joined slot `gid` as file `fid`,
    /// newly registered with `path` or not.
    pub open spec fn register_or_join(self, is_new: bool, path: Seq<char>, gid: nat, fid: FileID) -> HandlerView {
        if is_new {
            self.register(path).add_to_group(gid, fid)
        } else {
            self.add_to_group(gid, fid)
        }
    }

    /// No registered file has this path (compared as `Path` compares paths:
    /// by their components).
    pub open spec fn path_unregistered(self, path: Seq<char>) -> bool {
        forall|k: usize| #[trigger] self.registry.contains_key(k) ==> !same_path(self.registry[k], path)
    }

    /// The file a search result goes to: one registered with the path if
    /// there is one (`is_new` false), else the next identifier.
    pub open spec fn result_file_ok(self, path: Seq<char>, fid: FileID, is_new: bool) -> bool {
        if is_new {
            &&& self.path_unregistered(path)
            &&& fid.0 == self.next_id
        } else {
            &&& self.registry.contains_key(fid.0)
            &&& same_path(self.registry[fid.0], path)
        }
    }

    /// The removal of files from groups and of whole groups: the pairs in
    /// `dels` first, then the slots in `gids`; when a file was taken out of
    /// a group or a group was deleted, the registry keeps only files that
    /// some group still holds.
    pub open spec fn removed(self, after: HandlerView, gids: Seq<usize>, dels: Seq<(usize, FileID)>) -> bool {
        let (gs, dropped) = drop_members(self.groups, dels);
        let removed = dropped || clears_group(gs, gids);
        &&& after.groups == clear_slots(gs, gids)
        &&& after.next_id == self.next_id
        &&& forall|k: usize| #[trigger] after.registry.contains_key(k) <==> (self.registry.contains_key(k)
            && (removed ==> in_some_group(after.groups, k)))
        &&& forall|k: usize| #[trigger] after.registry.contains_key(k) ==> after.registry[k] == self.registry[k]
    }

    /// There are ten slots, and no group holds a file twice.
    pub open spec fn groups_ok(self) -> bool {
        &&& self.groups.len() == NUM_GROUPS
        &&& forall|g: int| 0 <= g < self.groups.len() ==> (#[trigger] members(self.groups[g])).no_duplicates()
    }

    /// No registered file has one of the `m` identifiers handed out next.
    pub open spec fn ids_free(self, m: nat) -> bool {
        forall|k: usize| #[trigger] self.registry.contains_key(k) ==> !(self.next_id <= k < self.next_id + m)
    }

    /// Every registered identifier lies below the next one to be handed
    /// out, and no group holds a file twice.
    pub open spec fn wf(self) -> bool {
        &&& self.groups.len() == NUM_GROUPS
        &&& forall|k: usize| #[trigger] self.registry.contains_key(k) ==> k < self.next_id
        &&& forall|g: int| 0 <= g < self.groups.len() ==> (#[trigger] members(self.groups[g])).no_duplicates()
    }
}

/// The state after the search results `matches` (path below `base`,
/// assigned slot) were added, with `res` recording for each assigned match
/// the file it went to and whether that file was newly registered.
pub open spec fn apply_results(
    v: HandlerView,
    base: Seq<char>,
    matches: Seq<(String, Option<usize>)>,
    res: Seq<Option<(FileID, bool)>>,
) -> HandlerView
    decreases matches.len(),
{
    if matches.len() == 0 || res.len() == 0 {
        v
    } else {
        let prev = apply_results(v, base, matches.drop_last(), res.drop_last());
        match (matches.last().1, res.last()) {
            (Some(g), Some((f, is_new))) => prev.register_or_join(
                is_new,
                path_join(base, matches.last().0@),
                g as nat,
                f,
            ),
            _ => prev,
        }
    }
}

/// Each record in `res` is what adding its match does: unassigned matches
/// and matches assigned to a slot beyond the ten are skipped, the others
/// reuse the file registered with the joined path or register it anew.
pub open spec fn results_recorded(
    v: HandlerView,
    base: Seq<char>,
    matches: Seq<(String, Option<usize>)>,
    res: Seq<Option<(FileID, bool)>>,
) -> bool
    decreases matches.len(),
{
    if matches.len() == 0 {
        res.len() == 0
    } else {
        &&& res.len() == matches.len()
        &&& results_recorded(v, base, matches.drop_last(), res.drop_last())
        &&& {
            let prev = apply_results(v, base, matches.drop_last(), res.drop_last());
            match (matches.last().1, res.last()) {
                (Some(g), Some((f, is_new))) => g < NUM_GROUPS && prev.result_file_ok(
                    path_join(base, matches.last().0@),
                    f,
                    is_new,
                ),
                (Some(g), None) => g >= NUM_GROUPS,
                (None, None) => true,
                _ => false,
            }
        }
    }
}

/// The message for a file identifier missing from the registry.
pub open spec fn missing_file_message(id: nat) -> Seq<char> {
    "Requested file not present in registry: FileID("@ + decimal(id) + ")"@
}

impl Group {
    /// An empty, plotted group without a name.
    pub fn new_default() -> (g: Group)
        ensures
            g@ == (GroupView { file_ids: Seq::empty(), is_plotted: true, name: Seq::empty() }),
    {
        Group { file_ids: Vec::new(), is_plotted: true, name: String::new() }
    }
}

impl Default for Group {
    fn default() -> (g: Group)
        ensures
            g@ == (GroupView { file_ids: Seq::empty(), is_plotted: true, name: Seq::empty() }),
    {
        Group::new_default()
    }
}

/// The file registry and the group slots.
pub struct FileHandler {
    pub groups: [Option<Group>; 10],
    pub registry: HashMap<usize, String>,
    next_id: FileID,
}

impl View for FileHandler {
    type V = HandlerView;

    closed spec fn view(&self) -> HandlerView {
        HandlerView {
            groups: self.groups@.map_values(|s: Option<Group>| slot_view(s)),
            registry: self.registry@.map_values(|p: String| p@),
            next_id: self.next_id.0,
        }
    }
}

impl FileHandler {
    proof fn lemma_view(&self)
        ensures
            self@.groups.len() == NUM_GROUPS,
            forall|g: int| 0 <= g < NUM_GROUPS ==> #[trigger] self@.groups[g] == slot_view(self.groups@[g]),
            forall|k: usize| #[trigger] self@.registry.contains_key(k) <==> self.registry@.contains_key(k),
            forall|k: usize| self@.registry.contains_key(k) ==> #[trigger] self@.registry[k] == self.registry@[k]@,
            self@.next_id == self.next_id.0,
    {
    }

    /// A handler always has ten group slots.
    pub proof fn lemma_ten_slots(&self)
        ensures
            self@.groups.len() == NUM_GROUPS,
    {
    }

    /// A handler with the given groups, registry and next identifier.
    pub fn new(groups: [Option<Group>; 10], registry: HashMap<usize, String>, next_id: FileID) -> (r: Self)
        ensures
            r@.groups == groups@.map_values(|s: Option<Group>| slot_view(s)),
            r@.registry == registry@.map_values(|p: String| p@),
            r@.next_id == next_id.0,
    {
        FileHandler { groups, registry, next_id }
    }

    /// An empty handler: no groups, no files, identifiers from zero.
    pub fn empty() -> (r: Self)
        ensures
            r@.groups == Seq::new(NUM_GROUPS as nat, |k: int| None::<GroupView>),
            r@.registry == Map::<usize, Seq<char>>::empty(),
            r@.next_id == 0,
            r@.wf(),
    {
        let r = FileHandler {
            groups: [None, None, None, None, None, None, None, None, None, None],
            registry: HashMap::new(),
            next_id: FileID(0),
        };
        proof {
            r.lemma_view();
            assert(r@.groups =~= Seq::new(NUM_GROUPS as nat, |k: int| None::<GroupView>));
            assert(r@.registry =~= Map::<usize, Seq<char>>::empty());
        }
        r
    }

    /// The identifier the next registered file gets.
    pub fn current_id(&self) -> (r: FileID)
        ensures
            r.0 == self@.next_id,
    {
        self.next_id
    }

    /// Hands out the next identifier.
    fn next_id(&mut self) -> (r: FileID)
        requires
            old(self)@.next_id < usize::MAX,
        ensures
            r.0 == old(self)@.next_id,
            final(self)@ == (HandlerView { next_id: (old(self)@.next_id + 1) as usize, ..old(self)@ }),
    {
        let fid = self.next_id;
        self.next_id = FileID(fid.0 + 1);
        fid
    }

    /// Registers a file under a fresh identifier and returns it.
    pub fn add_new_file(&mut self, path: String) -> (r: FileID)
        requires
            old(self)@.next_id < usize::MAX,
        ensures
            r.0 == old(self)@.next_id,
            final(self)@ == old(self)@.register(path@),
    {
        let ghost p = path@;
        let fid = self.next_id();
        self.registry.insert(fid.0, path);
        proof {
            assert(self@.registry =~= old(self)@.registry.insert(fid.0, p));
        }
        fid
    }

    /// The path of a registered file.
    pub fn file_path(&self, fid: FileID) -> (r: Option<String>)
        ensures
            r matches Some(p) ==> self@.registry.contains_key(fid.0) && p@ == self@.registry[fid.0],
            r is None ==> !self@.registry.contains_key(fid.0),
    {
        match self.registry.get(&fid.0) {
            Some(p) => Some(p.clone()),
            None => None,
        }
    }

    /// Adds `fid` to the group in slot `gid`, unless it is a member already;
    /// an empty slot gets a new plotted group named `G` and the slot number.
    pub fn add_to_group(&mut self, gid: usize, fid: FileID)
        requires
            gid < NUM_GROUPS,
        ensures
            final(self)@ == old(self)@.add_to_group(gid as nat, fid),
    {
        let slot = self.groups[gid].take();
        let new_slot = match slot {
            Some(mut grp) => {
                if !contains_file(&grp.file_ids, fid) {
                    grp.file_ids.push(fid);
                }
                grp
            },
            None => {
                let mut ids: Vec<FileID> = Vec::new();
                ids.push(fid);
                let name = group_name(gid);
                Group { file_ids: ids, is_plotted: true, name }
            },
        };
        self.groups[gid] = Some(new_slot);
        proof {
            assert(self@.groups =~= old(self)@.add_to_group(gid as nat, fid).groups);
            assert(self@.registry =~= old(self)@.registry);
        }
    }

    /// Some registered file with the given path (as `Path` compares paths),
    /// if there is one; which one among several is left to the registry's
    /// iteration order.
    pub fn find_by_path(&self, path: &String) -> (r: Option<FileID>)
        ensures
            r matches Some(f) ==> self@.registry.contains_key(f.0) && same_path(self@.registry[f.0], path@),
            r is None ==> self@.path_unregistered(path@),
    {
        let ghost m = self.registry@;
        let ghost items = self.registry.iter().remaining();
        for (k, p) in it: self.registry.iter()
            invariant
                m == self.registry@,
                it.seq() == items,
                forall|j: int| 0 <= j < it.index() ==> !same_path((*(#[trigger] it.seq()[j]).1)@, path@),
        {
            if paths_equal(p.as_str(), path.as_str()) {
                return Some(FileID(*k));
            }
        }
        assert forall|k: usize| #[trigger] self@.registry.contains_key(k) implies !same_path(self@.registry[k], path@) by {
            assert(items.contains((&k, &m[k])));
        }
        None
    }
}

impl FileHandler {
    /// Adds the search results assigned to a group: each path (relative to
    /// `search_path`) is looked up among the registered files and registered
    /// anew if absent, and the file joins the group slot it was assigned
    /// to; a match assigned to a slot beyond the ten is ignored. Returns, for
    /// each match, the file it went to and whether it was newly registered
    /// (`None` for unassigned and ignored matches).
    pub fn add_search_results(&mut self, search_path: &str, matches: &Vec<(String, Option<usize>)>) -> (res: Vec<Option<(FileID, bool)>>)
        requires
            old(self)@.next_id + matches@.len() <= usize::MAX,
        ensures
            results_recorded(old(self)@, search_path@, matches@, res@),
            final(self)@ == apply_results(old(self)@, search_path@, matches@, res@),
    {
        let n = matches.len();
        let mut res: Vec<Option<(FileID, bool)>> = Vec::new();
        let mut i: usize = 0;
        while i < n
            invariant
                n == matches@.len(),
                i <= n,
                res@.len() == i,
                self@.next_id <= old(self)@.next_id + i,
                old(self)@.next_id + matches@.len() <= usize::MAX,
                results_recorded(old(self)@, search_path@, matches@.take(i as int), res@),
                self@ == apply_results(old(self)@, search_path@, matches@.take(i as int), res@),
            decreases n - i,
        {
            let ghost before = self@;
            let ghost prev_res = res@;
            assert(matches@.take(i + 1).drop_last() =~= matches@.take(i as int));
            assert(matches@.take(i + 1).last() == matches@[i as int]);
            match matches[i].1 {
                None => {
                    res.push(None);
                    assert(res@.drop_last() =~= prev_res);
                },
                Some(gid) if gid >= NUM_GROUPS => {
                    res.push(None);
                    assert(res@.drop_last() =~= prev_res);
                },
                Some(gid) => {
                    let full = join_path(search_path, matches[i].0.as_str());
                    let ghost fullv = full@;
                    match self.find_by_path(&full) {
                        Some(fid) => {
                            self.add_to_group(gid, fid);
                            res.push(Some((fid, false)));
                            assert(res@.drop_last() =~= prev_res);
                            assert(before.result_file_ok(fullv, fid, false));
                        },
                        None => {
                            let fid = self.add_new_file(full);
                            self.add_to_group(gid, fid);
                            res.push(Some((fid, true)));
                            assert(res@.drop_last() =~= prev_res);
                            assert(before.result_file_ok(fullv, fid, true));
                        },
                    }
                },
            }
            i = i + 1;
        }
        assert(matches@.take(n as int) =~= matches@);
        res
    }
}

impl FileHandler {
    /// Whether some group holds the file `k`.
    pub fn in_any_group(&self, k: usize) -> (r: bool)
        ensures
            r == in_some_group(self@.groups, k),
    {
        proof {
            self.lemma_view();
        }
        let mut g: usize = 0;
        while g < NUM_GROUPS
            invariant
                g <= NUM_GROUPS,
                self@.groups.len() == NUM_GROUPS,
                forall|j: int| 0 <= j < NUM_GROUPS ==> #[trigger] self@.groups[j] == slot_view(self.groups@[j]),
                forall|j: int| 0 <= j < g ==> !(#[trigger] members(self@.groups[j])).contains(FileID(k)),
            decreases NUM_GROUPS - g,
        {
            match &self.groups[g] {
                Some(grp) => {
                    if contains_file(&grp.file_ids, FileID(k)) {
                        assert(members(self@.groups[g as int]).contains(FileID(k)));
                        return true;
                    }
                },
                None => {},
            }
            g = g + 1;
        }
        false
    }

    /// Removes the files listed with their slots from those groups (the last
    /// occurrence in each case), then empties the listed slots; slots beyond
    /// the ten are ignored. When a file was taken out of a group or a group
    /// was deleted, files that no group holds any more leave the registry.
    pub fn remove(&mut self, groups_to_delete: Vec<usize>, files_to_delete: Vec<(usize, FileID)>)
        ensures
            old(self)@.removed(final(self)@, groups_to_delete@, files_to_delete@),
    {
        proof {
            self.lemma_view();
        }
        let mut item_was_removed = false;
        let nf = files_to_delete.len();
        let mut j: usize = 0;
        assert(files_to_delete@.take(0) =~= Seq::<(usize, FileID)>::empty());
        while j < nf
            invariant
                nf == files_to_delete@.len(),
                j <= nf,
                self@.groups == drop_members(old(self)@.groups, files_to_delete@.take(j as int)).0,
                item_was_removed == drop_members(old(self)@.groups, files_to_delete@.take(j as int)).1,
                self@.registry == old(self)@.registry,
                self@.next_id == old(self)@.next_id,
            decreases nf - j,
        {
            proof {
                self.lemma_view();
            }
            let ghost before = self@;
            assert(files_to_delete@.take(j + 1).drop_last() =~= files_to_delete@.take(j as int));
            let (gid, fid) = files_to_delete[j];
            assert(files_to_delete@.take(j + 1).last() == (gid, fid));
            if gid < NUM_GROUPS {
                let slot = self.groups[gid].take();
                match slot {
                    Some(mut grp) => {
                        match last_position(&grp.file_ids, fid) {
                            Some(idx) => {
                                grp.file_ids.remove(idx);
                                item_was_removed = true;
                            },
                            None => {},
                        }
                        self.groups[gid] = Some(grp);
                    },
                    None => {
                        self.groups[gid] = None;
                    },
                }
            }
            proof {
                self.lemma_view();
                assert(self@.groups =~= drop_member(before.groups, gid, fid).0);
                assert(self@.registry =~= before.registry);
            }
            j = j + 1;
        }
        assert(files_to_delete@.take(nf as int) =~= files_to_delete@);
        let ghost gs = self@.groups;
        let ng = groups_to_delete.len();
        let mut k: usize = 0;
        assert(clear_slots(gs, groups_to_delete@.take(0)) =~= gs);
        while k < ng
            invariant
                ng == groups_to_delete@.len(),
                k <= ng,
                gs.len() == NUM_GROUPS,
                self@.groups == clear_slots(gs, groups_to_delete@.take(k as int)),
                gs == drop_members(old(self)@.groups, files_to_delete@).0,
                item_was_removed == (drop_members(old(self)@.groups, files_to_delete@).1
                    || clears_group(gs, groups_to_delete@.take(k as int))),
                self@.registry == old(self)@.registry,
                self@.next_id == old(self)@.next_id,
            decreases ng - k,
        {
            proof {
                self.lemma_view();
            }
            let ghost before = self@;
            let gid = groups_to_delete[k];
            if gid < NUM_GROUPS {
                if self.groups[gid].is_some() {
                    item_was_removed = true;
                }
                self.groups[gid] = None;
            }
            proof {
                self.lemma_view();
                assert(groups_to_delete@.take(k + 1) =~= groups_to_delete@.take(k as int).push(gid));
                broadcast use vstd::seq_lib::group_seq_properties;
                let tk = groups_to_delete@.take(k as int);
                let tk1 = groups_to_delete@.take(k + 1);
                assert(tk1[k as int] == gid);
                if gid < NUM_GROUPS && gs[gid as int] is Some {
                    assert(clears_group(gs, tk1));
                }
                if clears_group(gs, tk1) && !clears_group(gs, tk) {
                    let j = choose|j: int| 0 <= j < tk1.len() && #[trigger] tk1[j] < gs.len() && gs[tk1[j] as int] is Some;
                    if j < k {
                        assert(tk[j] == tk1[j]);
                    }
                }
                if clears_group(gs, tk) {
                    let j = choose|j: int| 0 <= j < tk.len() && #[trigger] tk[j] < gs.len() && gs[tk[j] as int] is Some;
                    assert(tk1[j] == tk[j]);
                }
                if gid < NUM_GROUPS && gs[gid as int] is Some && !clears_group(gs, tk) {
                    assert(!tk.contains(gid));
                    assert(before.groups[gid as int] == gs[gid as int]);
                }
                assert forall|x: int| 0 <= x < NUM_GROUPS implies #[trigger] self@.groups[x] == clear_slots(gs, groups_to_delete@.take(k + 1))[x] by {
                    assert(groups_to_delete@.take(k + 1).contains(x as usize) <==> (groups_to_delete@.take(k as int).contains(x as usize) || gid == x));
                    if x == gid {
                    } else {
                        assert(self@.groups[x] == before.groups[x]);
                    }
                }
                assert(self@.groups =~= clear_slots(gs, groups_to_delete@.take(k + 1)));
                assert(self@.registry =~= before.registry);
            }
            k = k + 1;
        }
        assert(groups_to_delete@.take(ng as int) =~= groups_to_delete@);
        if !item_was_removed {
            return;
        }
        let ghost m = self.registry@;
        let ghost items = self.registry.iter().remaining();
        let mut marks: Vec<usize> = Vec::new();
        for (key, _p) in it: self.registry.iter()
            invariant
                m == self.registry@,
                it.seq() == items,
                forall|x: usize| #[trigger] marks@.contains(x) ==> m.contains_key(x) && !in_some_group(self@.groups, x),
                forall|i: int| 0 <= i < it.index() ==> (!in_some_group(self@.groups, *(#[trigger] it.seq()[i]).0) ==> marks@.contains(*it.seq()[i].0)),
        {
            let ghost before_marks = marks@;
            if !self.in_any_group(*key) {
                marks.push(*key);
            }
            proof {
                broadcast use vstd::seq_lib::group_seq_properties;
                assert(forall|x: usize| before_marks.contains(x) ==> marks@.contains(x));
            }
        }
        assert forall|x: usize| #[trigger] m.contains_key(x) && !in_some_group(self@.groups, x) implies marks@.contains(x) by {
            assert(items.contains((&x, &m[x])));
        }
        let ghost groups_after = self@.groups;
        let nm = marks.len();
        let mut t: usize = 0;
        while t < nm
            invariant
                nm == marks@.len(),
                t <= nm,
                self@.groups == groups_after,
                self@.next_id == old(self)@.next_id,
                forall|x: usize| #[trigger] marks@.contains(x) ==> m.contains_key(x) && !in_some_group(groups_after, x),
                forall|x: usize| #[trigger] m.contains_key(x) && !in_some_group(groups_after, x) ==> marks@.contains(x),
                forall|x: usize| #[trigger] self.registry@.contains_key(x) <==> (m.contains_key(x) && !marks@.take(t as int).contains(x)),
                forall|x: usize| #[trigger] self.registry@.contains_key(x) ==> self.registry@[x] == m[x],
            decreases nm - t,
        {
            let key = marks[t];
            self.registry.remove(&key);
            assert(marks@.take(t + 1) =~= marks@.take(t as int).push(key));
            proof {
                broadcast use vstd::seq_lib::group_seq_properties;
                assert forall|x: usize| marks@.take(t + 1).contains(x) <==> (marks@.take(t as int).contains(x) || x == key) by {}
            }
            t = t + 1;
        }
        assert(marks@.take(nm as int) =~= marks@);
        proof {
            self.lemma_view();
            old(self).lemma_view();
        }
    }
}

impl FileHandler {
    /// Points a registered file to another path.
    pub fn set_file_path(&mut self, fid: FileID, path: String)
        requires
            old(self)@.registry.contains_key(fid.0),
        ensures
            final(self)@ == (HandlerView { registry: old(self)@.registry.insert(fid.0, path@), ..old(self)@ }),
    {
        let ghost p = path@;
        self.registry.insert(fid.0, path);
        proof {
            assert(self@.registry =~= old(self)@.registry.insert(fid.0, p));
        }
    }

    /// The paths of the registered files, each file once: no two of them
    /// name the same file (as `Path` compares paths).
    pub fn unique_paths(&self) -> (r: Vec<String>)
        ensures
            forall|i: int, j: int| 0 <= i < j < r@.len() ==> !same_path(r@[i]@, r@[j]@),
            forall|i: int| 0 <= i < r@.len() ==> #[trigger] registered_text(self@.registry, r@[i]@),
            forall|k: usize| #[trigger] self@.registry.contains_key(k) ==> has_text(r@, self@.registry[k]),
    {
        proof {
            self.lemma_view();
        }
        let ghost m = self.registry@;
        let ghost items = self.registry.iter().remaining();
        let mut out: Vec<String> = Vec::new();
        for (key, p) in it: self.registry.iter()
            invariant
                m == self.registry@,
                it.seq() == items,
                forall|k: usize| #[trigger] self@.registry.contains_key(k) <==> m.contains_key(k),
                forall|k: usize| m.contains_key(k) ==> #[trigger] self@.registry[k] == m[k]@,
                forall|i: int, j: int| 0 <= i < j < out@.len() ==> !same_path(out@[i]@, out@[j]@),
                forall|i: int| 0 <= i < out@.len() ==> #[trigger] registered_text(self@.registry, out@[i]@),
                forall|j: int| 0 <= j < it.index() ==> has_text(out@, (*(#[trigger] it.seq()[j]).1)@),
        {
            let ghost before = out@;
            assert(*p == *it.seq()[it.index() as int].1);
            let mut found = false;
            let mut t: usize = 0;
            while t < out.len()
                invariant
                    t <= out@.len(),
                    out@ == before,
                    found ==> has_text(out@, p@),
                    !found ==> forall|i: int| 0 <= i < t ==> !same_path(out@[i]@, p@),
                decreases out@.len() - t,
            {
                if paths_equal(out[t].as_str(), p.as_str()) {
                    found = true;
                    assert(same_path(out@[t as int]@, p@));
                }
                t = t + 1;
            }
            if !found {
                out.push(p.clone());
                proof {
                    assert(m.contains_key(*key) && m[*key] == *p);
                    assert(self@.registry.contains_key(*key));
                    assert(out@[out@.len() - 1]@ == p@);
                    assert(registered_text(self@.registry, p@));
                    assert forall|i: int| 0 <= i < out@.len() implies #[trigger] registered_text(self@.registry, out@[i]@) by {
                        if i < before.len() {
                            assert(out@[i] == before[i]);
                        }
                    }
                    assert(has_text(out@, p@));
                }
            }
            proof {
                assert forall|s2: Seq<char>| has_text(before, s2) implies has_text(out@, s2) by {
                    let i = choose|i: int| 0 <= i < before.len() && same_path(#[trigger] before[i]@, s2);
                    assert(out@[i] == before[i]);
                }
            }
        }
        proof {
            assert forall|k: usize| #[trigger] self@.registry.contains_key(k) implies has_text(out@, self@.registry[k]) by {
                assert(items.contains((&k, &m[k])));
                let j = choose|j: int| 0 <= j < items.len() && items[j] == (&k, &m[k]);
                assert(has_text(out@, (*items[j].1)@));
            }
        }
        out
    }
}

/// The registered files among `ids`, in order, each with the slot `g`.
pub open spec fn registered_members(ids: Seq<FileID>, registry: Map<usize, Seq<char>>, g: usize) -> Seq<(FileID, usize)>
    decreases ids.len(),
{
    if ids.len() == 0 {
        Seq::<(FileID, usize)>::empty()
    } else {
        let prev = registered_members(ids.drop_last(), registry, g);
        if registry.contains_key(ids.last().0) {
            prev.push((ids.last(), g))
        } else {
            prev
        }
    }
}

/// The files drawn for the first `n` slots: the registered members of each
/// plotted group with their slot, slot after slot.
pub open spec fn plotted_upto(v: HandlerView, n: int) -> Seq<(FileID, usize)>
    decreases n,
{
    if n <= 0 {
        Seq::<(FileID, usize)>::empty()
    } else {
        plotted_upto(v, n - 1) + match v.groups[n - 1] {
            Some(grp) => if grp.is_plotted {
                registered_members(grp.file_ids, v.registry, (n - 1) as usize)
            } else {
                Seq::<(FileID, usize)>::empty()
            },
            None => Seq::<(FileID, usize)>::empty(),
        }
    }
}

impl FileHandler {
    /// The files the plot draws, in the order it draws them: the registered
    /// members of each plotted group, with the group's slot.
    pub fn plotted_files(&self) -> (r: Vec<(FileID, usize)>)
        ensures
            r@ == plotted_upto(self@, NUM_GROUPS as int),
    {
        proof {
            self.lemma_view();
        }
        let mut out: Vec<(FileID, usize)> = Vec::new();
        let mut g: usize = 0;
        while g < NUM_GROUPS
            invariant
                g <= NUM_GROUPS,
                self@.groups.len() == NUM_GROUPS,
                forall|j: int| 0 <= j < NUM_GROUPS ==> #[trigger] self@.groups[j] == slot_view(self.groups@[j]),
                forall|k: usize| #[trigger] self@.registry.contains_key(k) <==> self.registry@.contains_key(k),
                out@ == plotted_upto(self@, g as int),
            decreases NUM_GROUPS - g,
        {
            let ghost before = out@;
            match &self.groups[g] {
                Some(grp) => {
                    if grp.is_plotted {
                        let ids = &grp.file_ids;
                        let n = ids.len();
                        let mut i: usize = 0;
                        assert(ids@.take(0) =~= Seq::<FileID>::empty());
                        while i < n
                            invariant
                                n == ids@.len(),
                                i <= n,
                                forall|k: usize| #[trigger] self@.registry.contains_key(k) <==> self.registry@.contains_key(k),
                                out@ == before + registered_members(ids@.take(i as int), self@.registry, g),
                            decreases n - i,
                        {
                            assert(ids@.take(i + 1).drop_last() =~= ids@.take(i as int));
                            assert(ids@.take(i + 1).last() == ids@[i as int]);
                            let fid = ids[i];
                            if self.registry.get(&fid.0).is_some() {
                                out.push((fid, g));
                                assert(out@ =~= before + registered_members(ids@.take(i + 1), self@.registry, g));
                            } else {
                                assert(out@ =~= before + registered_members(ids@.take(i + 1), self@.registry, g));
                            }
                            i = i + 1;
                        }
                        assert(ids@.take(n as int) =~= ids@);
                    } else {
                        assert(out@ =~= before + Seq::<(FileID, usize)>::empty());
                    }
                },
                None => {
                    assert(out@ =~= before + Seq::<(FileID, usize)>::empty());
                },
            }
            g = g + 1;
        }
        out
    }
}

/// The entry for slot `i` in the menus that move, copy or clone a file:
/// the group's name and slot, or an offer to make a new group there.
pub open spec fn spec_group_choice_label(name: Seq<char>, i: nat) -> Seq<char> {
    if name.len() == 0 {
        "<insert new at "@ + decimal(i) + ">"@
    } else {
        name + " ("@ + decimal(i) + ")"@
    }
}

pub fn group_choice_label(name: &str, i: usize) -> (r: String)
    ensures
        r@ == spec_group_choice_label(name@, i as nat),
{
    let mut chars: Vec<char> = Vec::new();
    if name.is_empty() {
        let head = chars_of("<insert new at ");
        push_chars(&mut chars, head.as_slice());
        push_decimal(i as u64, &mut chars);
        chars.push('>');
        proof {
            reveal_strlit(">");
        }
    } else {
        let head = chars_of(name);
        push_chars(&mut chars, head.as_slice());
        let open = chars_of(" (");
        push_chars(&mut chars, open.as_slice());
        push_decimal(i as u64, &mut chars);
        chars.push(')');
        proof {
            reveal_strlit(")");
        }
    }
    assert(chars@ =~= spec_group_choice_label(name@, i as nat));
    string_from_chars(chars.as_slice())
}

/// The names of the groups by slot, empty for an empty slot.
pub fn group_names(groups: &[Option<Group>; 10]) -> (r: Vec<String>)
    ensures
        r@.len() == NUM_GROUPS,
        forall|g: int| 0 <= g < NUM_GROUPS ==> #[trigger] r@[g]@ == match groups@[g] {
            Some(grp) => grp.name@,
            None => Seq::<char>::empty(),
        },
{
    let mut out: Vec<String> = Vec::new();
    let mut g: usize = 0;
    while g < NUM_GROUPS
        invariant
            g <= NUM_GROUPS,
            out@.len() == g,
            forall|j: int| 0 <= j < g ==> #[trigger] out@[j]@ == match groups@[j] {
                Some(grp) => grp.name@,
                None => Seq::<char>::empty(),
            },
        decreases NUM_GROUPS - g,
    {
        match &groups[g] {
            Some(grp) => out.push(grp.name.clone()),
            None => out.push(String::new()),
        }
        g = g + 1;
    }
    out
}

/// The name shown for a file whose name cannot be read.
pub open spec fn unreadable_name() -> Seq<char> {
    "unreadable filename"@
}

/// The name shown for a path: its final component, if it has one.
pub open spec fn shown_name(path: Seq<char>) -> Seq<char> {
    match spec_file_name(path) {
        Some(n) => n,
        None => unreadable_name(),
    }
}

/// The name shown for a path.
pub fn shown_file_name(path: &str) -> (r: String)
    ensures
        r@ == shown_name(path@),
{
    match file_name(path) {
        Some(n) => n,
        None => String::from_str("unreadable filename"),
    }
}

impl FileHandler {
    /// The name shown for a file: the final component of its path, or a
    /// placeholder for an unregistered file or an unreadable name.
    pub fn fid_to_filename_str(&self, fid: FileID) -> (r: String)
        ensures
            r@ == if self@.registry.contains_key(fid.0) {
                shown_name(self@.registry[fid.0])
            } else {
                unreadable_name()
            },
    {
        match self.file_path(fid) {
            Some(p) => shown_file_name(p.as_str()),
            None => String::from_str("unreadable filename"),
        }
    }
}

/// The legend label of a plotted file: its alias, or its name when it has
/// none, and the group's name in parentheses.
pub open spec fn spec_plot_label(alias: Seq<char>, name: Seq<char>, group: Seq<char>) -> Seq<char> {
    (if alias.len() == 0 { name } else { alias }) + " ("@ + group + ")"@
}

pub fn plot_label(alias: &str, name: &str, group: &str) -> (r: String)
    ensures
        r@ == spec_plot_label(alias@, name@, group@),
{
    let head = if alias.is_empty() { String::from_str(name) } else { String::from_str(alias) };
    let head = head.concat(" (");
    let head = head.concat(group);
    head.concat(")")
}

/// Some registered file has this path.
pub open spec fn registered_text(registry: Map<usize, Seq<char>>, s: Seq<char>) -> bool {
    exists|k: usize| #[trigger] registry.contains_key(k) && registry[k] == s
}

/// Some string of `v` names the same file as this path.
pub open spec fn has_text(v: Seq<String>, s: Seq<char>) -> bool {
    exists|i: int| 0 <= i < v.len() && same_path(#[trigger] v[i]@, s)
}

/// The position of the last occurrence of `fid` in `ids`.
pub fn last_position(ids: &Vec<FileID>, fid: FileID) -> (r: Option<usize>)
    ensures
        match r {
            Some(i) => i as int == last_index_of(ids@, fid) && i < ids@.len(),
            None => last_index_of(ids@, fid) == -1,
        },
{
    let n = ids.len();
    let mut i: usize = n;
    assert(ids@.take(n as int) =~= ids@);
    while i > 0
        invariant
            n == ids@.len(),
            i <= n,
            last_index_of(ids@, fid) == last_index_of(ids@.take(i as int), fid),
        decreases i,
    {
        assert(ids@.take(i as int).drop_last() =~= ids@.take(i - 1));
        if ids[i - 1].0 == fid.0 {
            assert(ids@.take(i as int).last() == fid);
            return Some(i - 1);
        }
        i = i - 1;
    }
    assert(ids@.take(0) =~= Seq::<FileID>::empty());
    None
}

/// Whether `fid` is among `ids`.
pub fn contains_file(ids: &Vec<FileID>, fid: FileID) -> (r: bool)
    ensures
        r == ids@.contains(fid),
{
    let n = ids.len();
    let mut i: usize = 0;
    while i < n
        invariant
            n == ids@.len(),
            i <= n,
            forall|k: int| 0 <= k < i ==> ids@[k] != fid,
        decreases n - i,
    {
        if ids[i].0 == fid.0 {
            assert(ids@[i as int] == fid);
            return true;
        }
        i = i + 1;
    }
    false
}

/// The name of a new group in slot `gid`.
pub fn group_name(gid: usize) -> (r: String)
    ensures
        r@ == default_group_name(gid as nat),
{
    let mut chars: Vec<char> = Vec::new();
    chars.push('G');
    push_decimal(gid as u64, &mut chars);
    assert(chars@ =~= default_group_name(gid as nat));
    string_from_chars(chars.as_slice())
}

} // verus!
