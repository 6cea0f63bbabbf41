//! Events that change the groups and the registry, applied once per frame.

use vstd::prelude::*;
use crate::file_handler::{missing_file_message, FileHandler, FileID, HandlerView, NUM_GROUPS};
use crate::paths::{join_path, path_join};
use crate::text::{chars_of, decimal, push_chars, push_decimal, string_from_chars};

verus! {

/// Whether an event is done after being applied, or waits for work running
/// in the background.
#[derive(Clone, Copy, Debug, PartialEq, Eq, Structural)]
pub enum EventState {
    Busy,
    Finished,
}

/// An event that can be applied to an application state. What applying it
/// does is up to the type: `applied` names it, and `apply` keeps to it.
pub trait AppEvent: Sized {
    type App;

    /// Applying the event `before` to the state `app_before` may leave the
    /// event as `after` and the state as `app_after`, with outcome `r`. A
    /// type that says nothing of its events allows any change.
    open spec fn applied(before: Self, after: Self, app_before: Self::App, app_after: Self::App, r: Result<EventState, String>) -> bool {
        true
    }

    fn apply(&mut self, app: &mut Self::App) -> (r: Result<EventState, String>)
        ensures
            Self::applied(*old(self), *final(self), *old(app), *final(app), r),
    ;
}

/// A run over the waiting events `before` (applied from the last to the
/// first) took the state from `app0` to `app1` through the states `apps`:
/// the `i`-th event applied, `before[n - 1 - i]`, became `applied[i].0`
/// with outcome `applied[i].1`, taking the state from `apps[i]` to
/// `apps[i + 1]`.
pub open spec fn events_ran<E: AppEvent>(
    before: Seq<E>,
    app0: E::App,
    app1: E::App,
    applied: Seq<(E, Result<EventState, String>)>,
    apps: Seq<E::App>,
) -> bool {
    let n = before.len();
    &&& applied.len() == n
    &&& apps.len() == n + 1
    &&& apps[0] == app0
    &&& apps[n as int] == app1
    &&& forall|i: int| 0 <= i < n ==> #[trigger] E::applied(before[n - 1 - i], applied[i].0, apps[i], apps[i + 1], applied[i].1)
}

/// Events waiting to be applied; events that are busy are kept for the next
/// round.
pub struct EventQueue<E> {
    queue: Vec<E>,
}

impl<E: AppEvent> EventQueue<E> {
    /// The waiting events, the last to be applied first.
    pub closed spec fn events(&self) -> Seq<E> {
        self.queue@
    }

    pub fn new() -> (r: Self)
        ensures
            r.events() == Seq::<E>::empty(),
    {
        EventQueue { queue: Vec::new() }
    }

    pub fn queue_event(&mut self, event: E)
        ensures
            final(self).events() == old(self).events().push(event),
    {
        self.queue.push(event);
    }

    /// Whether no event waits.
    pub fn is_empty(&self) -> (r: bool)
        ensures
            r == (self.events().len() == 0),
    {
        self.queue.len() == 0
    }

    pub fn discard_events(&mut self)
        ensures
            final(self).events() == Seq::<E>::empty(),
    {
        self.queue.clear();
    }

    /// Applies every waiting event once, the most recent first, and keeps
    /// for the next round exactly the events that came back busy, in the
    /// order they were applied (see `settle_events`); finished and failed
    /// ones leave the queue. Returns whether an event finished, so that the
    /// view is redrawn; then at least one event left the queue. Which event
    /// comes back busy is up to its `apply`.
    pub fn run_events(&mut self, app: &mut E::App) -> (redraw: bool)
        ensures
            final(self).events().len() <= old(self).events().len(),
            redraw ==> final(self).events().len() < old(self).events().len(),
            old(self).events().len() == 0 ==> !redraw && final(self).events().len() == 0,
            exists|applied: Seq<(E, Result<EventState, String>)>, apps: Seq<E::App>| {
                &&& #[trigger] events_ran(old(self).events(), *old(app), *final(app), applied, apps)
                &&& final(self).events() == busy_events(applied)
                &&& redraw == some_finished(applied)
            },
    {
        let ghost before = self.queue@;
        let ghost n0 = self.queue@.len();
        let ghost app0 = *app;
        let ghost mut apps: Seq<E::App> = seq![*app];
        let mut applied: Vec<(E, Result<EventState, String>)> = Vec::new();
        while self.queue.len() > 0
            invariant
                applied@.len() + self.queue@.len() == n0,
                n0 == before.len(),
                self.queue@ == before.take(self.queue@.len() as int),
                apps.len() == applied@.len() + 1,
                apps[0] == app0,
                apps.last() == *app,
                forall|i: int| 0 <= i < applied@.len() ==> #[trigger] E::applied(
                    before[n0 - 1 - i],
                    applied@[i].0,
                    apps[i],
                    apps[i + 1],
                    applied@[i].1,
                ),
            decreases self.queue@.len(),
        {
            let ghost k = self.queue@.len() - 1;
            let mut event = self.queue.pop().unwrap();
            assert(event == before[k]);
            let ghost a_before = *app;
            let outcome = event.apply(app);
            let ghost prev_applied = applied@;
            let ghost prev_apps = apps;
            proof {
                apps = apps.push(*app);
            }
            applied.push((event, outcome));
            assert(self.queue@ =~= before.take(self.queue@.len() as int));
            assert forall|i: int| 0 <= i < applied@.len() implies #[trigger] E::applied(
                before[n0 - 1 - i],
                applied@[i].0,
                apps[i],
                apps[i + 1],
                applied@[i].1,
            ) by {
                if i < prev_applied.len() {
                    assert(applied@[i] == prev_applied[i]);
                    assert(apps[i] == prev_apps[i]);
                    assert(apps[i + 1] == prev_apps[i + 1]);
                } else {
                    assert(n0 - 1 - i == k);
                    assert(apps[i] == a_before);
                }
            }
        }
        let ghost done = applied@;
        let (kept, redraw) = settle_events(applied);
        proof {
            lemma_busy_events_len(done);
            assert(events_ran(before, app0, *app, done, apps));
        }
        self.queue = kept;
        assert(done.len() == n0);
        assert(self.events() == busy_events(done));
        redraw
    }
}

/// The events that came back busy, in the order they were applied.
pub open spec fn busy_events<E>(applied: Seq<(E, Result<EventState, String>)>) -> Seq<E>
    decreases applied.len(),
{
    if applied.len() == 0 {
        Seq::<E>::empty()
    } else {
        let prev = busy_events(applied.drop_last());
        if applied.last().1 == Ok::<EventState, String>(EventState::Busy) {
            prev.push(applied.last().0)
        } else {
            prev
        }
    }
}

/// Some event finished.
pub open spec fn some_finished<E>(applied: Seq<(E, Result<EventState, String>)>) -> bool {
    exists|i: int| 0 <= i < applied.len() && #[trigger] applied[i].1 == Ok::<EventState, String>(EventState::Finished)
}

/// Fewer events are kept than were applied, and none are kept when one
/// finished.
pub proof fn lemma_busy_events_len<E>(applied: Seq<(E, Result<EventState, String>)>)
    ensures
        busy_events(applied).len() <= applied.len(),
        some_finished(applied) ==> busy_events(applied).len() < applied.len(),
    decreases applied.len(),
{
    if applied.len() > 0 {
        let prev = applied.drop_last();
        lemma_busy_events_len(prev);
        if some_finished(applied) && !some_finished(prev) {
            let i = choose|i: int| 0 <= i < applied.len() && #[trigger] applied[i].1 == Ok::<EventState, String>(EventState::Finished);
            if i < prev.len() {
                assert(prev[i] == applied[i]);
            }
        }
        if some_finished(prev) {
            let i = choose|i: int| 0 <= i < prev.len() && #[trigger] prev[i].1 == Ok::<EventState, String>(EventState::Finished);
            assert(applied[i] == prev[i]);
        }
    }
}

/// Settles applied events with their outcomes: returns the events that
/// came back busy, in order, to wait for the next round, and whether some
/// event finished.
pub fn settle_events<E>(applied: Vec<(E, Result<EventState, String>)>) -> (r: (Vec<E>, bool))
    ensures
        r.0@ == busy_events(applied@),
        r.1 == some_finished(applied@),
{
    let ghost all = applied@;
    let n = applied.len();
    let mut rest = applied;
    let mut kept: Vec<E> = Vec::new();
    let mut finished = false;
    let mut i: usize = 0;
    while i < n
        invariant
            n == all.len(),
            i <= n,
            rest@ == all.skip(i as int),
            kept@ == busy_events(all.take(i as int)),
            finished == some_finished(all.take(i as int)),
        decreases n - i,
    {
        let ghost t = all.take(i as int);
        let ghost t1 = all.take(i + 1);
        assert(t1.drop_last() =~= t);
        assert(rest@[0] == all[i as int]);
        assert(t1.last() == all[i as int]);
        let (event, outcome) = rest.remove(0);
        assert(rest@ =~= all.skip(i + 1));
        if settle_event(&mut kept, event, &outcome) {
            finished = true;
        }
        proof {
            if some_finished(t1) && !some_finished(t) {
                let j = choose|j: int| 0 <= j < t1.len() && #[trigger] t1[j].1 == Ok::<EventState, String>(EventState::Finished);
                if j < t.len() {
                    assert(t[j] == t1[j]);
                }
            }
            if some_finished(t) {
                let j = choose|j: int| 0 <= j < t.len() && #[trigger] t[j].1 == Ok::<EventState, String>(EventState::Finished);
                assert(t1[j] == t[j]);
            }
            if outcome == Ok::<EventState, String>(EventState::Finished) {
                assert(t1[i as int].1 == Ok::<EventState, String>(EventState::Finished));
            }
        }
        i = i + 1;
    }
    assert(all.take(n as int) =~= all);
    (kept, finished)
}

/// What becomes of an event once applied, by the outcome of `apply`: a
/// busy event waits in `backlog` for the next round, a finished or failed
/// one is dropped. Returns whether it finished.
pub fn settle_event<E>(backlog: &mut Vec<E>, event: E, outcome: &Result<EventState, String>) -> (finished: bool)
    ensures
        match outcome {
            Ok(EventState::Busy) => !finished && final(backlog)@ == old(backlog)@.push(event),
            Ok(EventState::Finished) => finished && final(backlog)@ == old(backlog)@,
            Err(_) => !finished && final(backlog)@ == old(backlog)@,
        },
{
    match outcome {
        Ok(EventState::Finished) => true,
        Ok(EventState::Busy) => {
            backlog.push(event);
            false
        },
        Err(_) => false,
    }
}

/// Removes a file from a group.
pub struct RemoveFile {
    fid: FileID,
    from_group: usize,
}

/// Moves a file from one group to another.
pub struct MoveFile {
    fid: FileID,
    from_group: usize,
    to_group: usize,
}

/// Adds a file to a further group.
pub struct CopyFile {
    fid: FileID,
    to_group: usize,
}

/// Registers a copy of a file and adds it to a group.
pub struct CloneFile {
    fid: FileID,
    to_group: usize,
}

/// Removes a whole group.
pub struct RemoveGroup {
    gid: usize,
}

/// Subtracts one file's data from another's.
pub struct SubtractFile {
    pub minuend: FileID,
    pub subtrahend: FileID,
}

impl RemoveFile {
    pub fn new(fid: FileID, from_group: usize) -> (r: Self)
        ensures
            r.spec_fid() == fid,
            r.spec_from_group() == from_group,
    {
        RemoveFile { fid, from_group }
    }

    pub closed spec fn spec_fid(&self) -> FileID {
        self.fid
    }

    pub closed spec fn spec_from_group(&self) -> usize {
        self.from_group
    }

    /// Removes the file from the group (see `FileHandler::remove`).
    pub fn apply(&self, fh: &mut FileHandler) -> (r: Result<EventState, String>)
        ensures
            r == Ok::<EventState, String>(EventState::Finished),
            old(fh)@.removed(final(fh)@, Seq::empty(), seq![(self.spec_from_group(), self.spec_fid())]),
    {
        let mut dels: Vec<(usize, FileID)> = Vec::new();
        dels.push((self.from_group, self.fid));
        fh.remove(Vec::new(), dels);
        proof {
            assert(dels@ =~= seq![(self.from_group, self.fid)]);
        }
        Ok(EventState::Finished)
    }
}

impl CopyFile {
    pub fn new(fid: FileID, to_group: usize) -> (r: Self)
        ensures
            r.spec_fid() == fid,
            r.spec_to_group() == to_group,
    {
        CopyFile { fid, to_group }
    }

    pub closed spec fn spec_fid(&self) -> FileID {
        self.fid
    }

    pub closed spec fn spec_to_group(&self) -> usize {
        self.to_group
    }

    /// Adds the file to the target group unless it is a member already; an
    /// empty slot gets a new group. The target must be one of the slots.
    pub fn apply(&self, fh: &mut FileHandler) -> (r: Result<EventState, String>)
        requires
            self.spec_to_group() < NUM_GROUPS,
        ensures
            r == Ok::<EventState, String>(EventState::Finished),
            final(fh)@ == old(fh)@.add_to_group(self.spec_to_group() as nat, self.spec_fid()),
    {
        fh.add_to_group(self.to_group, self.fid);
        Ok(EventState::Finished)
    }
}

impl MoveFile {
    pub fn new(fid: FileID, from_group: usize, to_group: usize) -> (r: Self)
        ensures
            r.spec_fid() == fid,
            r.spec_from_group() == from_group,
            r.spec_to_group() == to_group,
    {
        MoveFile { fid, from_group, to_group }
    }

    pub closed spec fn spec_fid(&self) -> FileID {
        self.fid
    }

    pub closed spec fn spec_from_group(&self) -> usize {
        self.from_group
    }

    pub closed spec fn spec_to_group(&self) -> usize {
        self.to_group
    }

    /// Copies the file to the target group, then removes it from the source
    /// group. The target must be one of the slots.
    pub fn apply(&self, fh: &mut FileHandler) -> (r: Result<EventState, String>)
        requires
            self.spec_to_group() < NUM_GROUPS,
        ensures
            r == Ok::<EventState, String>(EventState::Finished),
            old(fh)@.add_to_group(self.spec_to_group() as nat, self.spec_fid()).removed(
                final(fh)@,
                Seq::empty(),
                seq![(self.spec_from_group(), self.spec_fid())],
            ),
    {
        let copy = CopyFile::new(self.fid, self.to_group);
        let _ = copy.apply(fh);
        let rm = RemoveFile::new(self.fid, self.from_group);
        let _ = rm.apply(fh);
        Ok(EventState::Finished)
    }
}

impl CloneFile {
    pub fn new(fid: FileID, to_group: usize) -> (r: Self)
        ensures
            r.spec_fid() == fid,
            r.spec_to_group() == to_group,
    {
        CloneFile { fid, to_group }
    }

    pub closed spec fn spec_fid(&self) -> FileID {
        self.fid
    }

    pub closed spec fn spec_to_group(&self) -> usize {
        self.to_group
    }

    /// Registers a copy of the file under a fresh identifier and adds the
    /// copy to the target group, which must then be one of the slots; fails
    /// if the file is not registered.
    pub fn apply(&self, fh: &mut FileHandler) -> (r: Result<EventState, String>)
        requires
            old(fh)@.next_id < usize::MAX,
            old(fh)@.registry.contains_key(self.spec_fid().0) ==> self.spec_to_group() < NUM_GROUPS,
        ensures
            match r {
                Ok(st) => {
                    &&& st == EventState::Finished
                    &&& old(fh)@.registry.contains_key(self.spec_fid().0)
                    &&& final(fh)@ == old(fh)@.register(old(fh)@.registry[self.spec_fid().0]).add_to_group(
                        self.spec_to_group() as nat,
                        FileID(old(fh)@.next_id),
                    )
                },
                Err(msg) => {
                    &&& !old(fh)@.registry.contains_key(self.spec_fid().0)
                    &&& final(fh)@ == old(fh)@
                    &&& msg@ == missing_file_message(self.spec_fid().0 as nat)
                },
            },
    {
        match fh.file_path(self.fid) {
            Some(path) => {
                let new_fid = fh.add_new_file(path);
                fh.add_to_group(self.to_group, new_fid);
                Ok(EventState::Finished)
            },
            None => Err(missing_file_text(self.fid)),
        }
    }
}

impl RemoveGroup {
    pub fn new(gid: usize) -> (r: Self)
        ensures
            r.spec_gid() == gid,
    {
        RemoveGroup { gid }
    }

    pub closed spec fn spec_gid(&self) -> usize {
        self.gid
    }

    /// Removes the group (see `FileHandler::remove`).
    pub fn apply(&self, fh: &mut FileHandler) -> (r: Result<EventState, String>)
        ensures
            r == Ok::<EventState, String>(EventState::Finished),
            old(fh)@.removed(final(fh)@, seq![self.spec_gid()], Seq::empty()),
    {
        let mut gids: Vec<usize> = Vec::new();
        gids.push(self.gid);
        fh.remove(gids, Vec::new());
        proof {
            assert(gids@ =~= seq![self.gid]);
        }
        Ok(EventState::Finished)
    }
}

impl SubtractFile {
    pub fn new(minuend: FileID, subtrahend: FileID) -> (r: Self)
        ensures
            r.minuend == minuend,
            r.subtrahend == subtrahend,
    {
        SubtractFile { minuend, subtrahend }
    }
}

/// The message for a subtraction whose files are not both registered.
pub open spec fn unsubtractable_message(minuend: nat, subtrahend: nat) -> Seq<char> {
    "Could not retrieve files with IDs FileID("@ + decimal(minuend) + ") and FileID("@ + decimal(subtrahend)
        + ") for subtraction"@
}

impl SubtractFile {
    /// A subtraction needs both files registered; otherwise it fails with a
    /// message that names them. The two files must differ.
    pub fn check_operands(&self, fh: &FileHandler) -> (r: Result<(), String>)
        requires
            self.minuend != self.subtrahend,
        ensures
            r is Ok <==> fh@.registry.contains_key(self.minuend.0) && fh@.registry.contains_key(self.subtrahend.0),
            r matches Err(e) ==> e@ == unsubtractable_message(self.minuend.0 as nat, self.subtrahend.0 as nat),
    {
        if fh.file_path(self.minuend).is_some() && fh.file_path(self.subtrahend).is_some() {
            return Ok(());
        }
        let mut chars = chars_of("Could not retrieve files with IDs FileID(");
        push_decimal(self.minuend.0 as u64, &mut chars);
        let mid = chars_of(") and FileID(");
        push_chars(&mut chars, mid.as_slice());
        push_decimal(self.subtrahend.0 as u64, &mut chars);
        let tail = chars_of(") for subtraction");
        push_chars(&mut chars, tail.as_slice());
        assert(chars@ =~= unsubtractable_message(self.minuend.0 as nat, self.subtrahend.0 as nat));
        Err(string_from_chars(chars.as_slice()))
    }
}

/// What the data of a file reads when the search did not find it.
pub open spec fn not_found_message() -> Seq<char> {
    "File not found in current search path!"@
}

/// Looks for a file that went missing, by its name, in the current search
/// root.
pub struct LocateFile {
    pub file_name: String,
    pub id: FileID,
    search_dispatched: bool,
}

impl LocateFile {
    pub fn new(file_name: String, id: FileID, search_dispatched: bool) -> (r: Self)
        ensures
            r.spec_file_name() == file_name@,
            r.spec_id() == id,
            r.spec_dispatched() == search_dispatched,
    {
        LocateFile { file_name, id, search_dispatched }
    }

    pub closed spec fn spec_file_name(&self) -> Seq<char> {
        self.file_name@
    }

    pub closed spec fn spec_id(&self) -> FileID {
        self.id
    }

    /// The search for the file was sent.
    pub closed spec fn spec_dispatched(&self) -> bool {
        self.search_dispatched
    }

    /// Points the file to the first thing the search found, below the
    /// search root; when nothing was found the file keeps its path and the
    /// message for its data comes back.
    pub fn relocate(&self, fh: &mut FileHandler, search_path: &str, first_match: Option<&str>) -> (r: Result<(), String>)
        requires
            old(fh)@.registry.contains_key(self.spec_id().0),
        ensures
            match first_match {
                Some(m) => {
                    &&& r is Ok
                    &&& final(fh)@ == (HandlerView {
                        registry: old(fh)@.registry.insert(self.spec_id().0, path_join(search_path@, m@)),
                        ..old(fh)@
                    })
                },
                None => {
                    &&& r matches Err(e) && e@ == not_found_message()
                    &&& final(fh)@ == old(fh)@
                },
            },
    {
        match first_match {
            Some(m) => {
                fh.set_file_path(self.id, join_path(search_path, m));
                Ok(())
            },
            None => Err(String::from_str("File not found in current search path!")),
        }
    }

    /// Whether the search still has to be sent; from now on it counts as
    /// sent.
    pub fn take_dispatch(&mut self) -> (r: bool)
        ensures
            r == !old(self).spec_dispatched(),
            final(self).spec_dispatched(),
            final(self).spec_file_name() == old(self).spec_file_name(),
            final(self).spec_id() == old(self).spec_id(),
    {
        let r = !self.search_dispatched;
        self.search_dispatched = true;
        r
    }
}

/// The keys held down while the mouse drags over the plot.
#[derive(Clone, Copy, Debug, PartialEq, Eq, Structural)]
pub struct KeyModifiers {
    pub alt: bool,
    pub ctrl: bool,
    pub shift: bool,
}

/// What a drag over the plot does to the active file.
#[derive(Clone, Copy, Debug, PartialEq, Eq, Structural)]
pub enum DragAction {
    /// Moves the curve along the x axis.
    ShiftX,
    /// Moves the curve along the y axis.
    ShiftY,
    /// Stretches the curve along the y axis.
    ScaleY,
    /// Puts an annotation where the mouse is.
    Annotate,
    /// Does nothing.
    Ignore,
}

/// The action of a transform event: Alt wins over Ctrl, Ctrl over Shift.
pub open spec fn transform_action(m: KeyModifiers) -> DragAction {
    if m.alt {
        DragAction::ShiftX
    } else if m.ctrl {
        DragAction::ShiftY
    } else if m.shift {
        DragAction::ScaleY
    } else {
        DragAction::Ignore
    }
}

/// The action of a drag with the given keys held (Alt, Ctrl, Shift): one key
/// alone shifts or scales, Ctrl with Shift annotates, anything else is
/// ignored.
pub open spec fn spec_drag_action(alt: bool, ctrl: bool, shift: bool) -> DragAction {
    if alt && !ctrl && !shift {
        DragAction::ShiftX
    } else if !alt && ctrl && !shift {
        DragAction::ShiftY
    } else if !alt && !ctrl && shift {
        DragAction::ScaleY
    } else if !alt && ctrl && shift {
        DragAction::Annotate
    } else {
        DragAction::Ignore
    }
}

/// The action of a drag with `modifiers` = [Alt, Ctrl, Shift] held.
pub fn drag_action(modifiers: [bool; 3]) -> (r: DragAction)
    ensures
        r == spec_drag_action(modifiers@[0], modifiers@[1], modifiers@[2]),
{
    match (modifiers[0], modifiers[1], modifiers[2]) {
        (true, false, false) => DragAction::ShiftX,
        (false, true, false) => DragAction::ShiftY,
        (false, false, true) => DragAction::ScaleY,
        (false, true, true) => DragAction::Annotate,
        _ => DragAction::Ignore,
    }
}

/// The file selected in the plot after a frame: pressing the mouse on a
/// curve selects its file, pressing it elsewhere without a modifier key
/// clears the selection, and otherwise it stays.
pub open spec fn spec_select_plot_file(
    selected: Option<FileID>,
    hovered: Option<FileID>,
    mouse_pressed: bool,
    modifier_down: bool,
) -> Option<FileID> {
    match hovered {
        Some(h) => if mouse_pressed { Some(h) } else { selected },
        None => if mouse_pressed && !modifier_down { None } else { selected },
    }
}

pub fn select_plot_file(
    selected: Option<FileID>,
    hovered: Option<FileID>,
    mouse_pressed: bool,
    modifier_down: bool,
) -> (r: Option<FileID>)
    ensures
        r == spec_select_plot_file(selected, hovered, mouse_pressed, modifier_down),
{
    match hovered {
        Some(h) => if mouse_pressed { Some(h) } else { selected },
        None => if mouse_pressed && !modifier_down { None } else { selected },
    }
}

/// The message for a transform of a file missing from the registry.
pub open spec fn untransformable_message(id: nat) -> Seq<char> {
    "Cannot transform file with ID FileID("@ + decimal(id) + "): not found in registry"@
}

/// The message for a transform of a file whose data is not loaded.
pub open spec fn no_cache_message(id: nat) -> Seq<char> {
    "Unable to get cache for file with ID FileID("@ + decimal(id) + ")"@
}

/// A drag over the plot that moves or stretches the curve of a file. The
/// distance dragged stays with the caller, who does the arithmetic.
pub struct TransformFileEvent {
    pub fid: FileID,
    pub modifiers: KeyModifiers,
}

impl TransformFileEvent {
    pub fn new(fid: FileID, modifiers: KeyModifiers) -> (r: Self)
        ensures
            r.fid == fid,
            r.modifiers == modifiers,
    {
        TransformFileEvent { fid, modifiers }
    }

    /// What the drag does to the file.
    pub fn action(&self) -> (r: DragAction)
        ensures
            r == transform_action(self.modifiers),
    {
        if self.modifiers.alt {
            DragAction::ShiftX
        } else if self.modifiers.ctrl {
            DragAction::ShiftY
        } else if self.modifiers.shift {
            DragAction::ScaleY
        } else {
            DragAction::Ignore
        }
    }

    /// The event applies to a registered file only; otherwise it fails
    /// with a message that names the file.
    pub fn check_target(&self, fh: &FileHandler) -> (r: Result<(), String>)
        ensures
            r is Ok <==> fh@.registry.contains_key(self.fid.0),
            r matches Err(e) ==> e@ == untransformable_message(self.fid.0 as nat),
    {
        match fh.file_path(self.fid) {
            Some(_) => Ok(()),
            None => {
                let mut chars = chars_of("Cannot transform file with ID FileID(");
                push_decimal(self.fid.0 as u64, &mut chars);
                let tail = chars_of("): not found in registry");
                push_chars(&mut chars, tail.as_slice());
                assert(chars@ =~= untransformable_message(self.fid.0 as nat));
                Err(string_from_chars(chars.as_slice()))
            },
        }
    }

    /// The message for a file whose data is not loaded.
    pub fn no_cache_text(&self) -> (r: String)
        ensures
            r@ == no_cache_message(self.fid.0 as nat),
    {
        let mut chars = chars_of("Unable to get cache for file with ID FileID(");
        push_decimal(self.fid.0 as u64, &mut chars);
        chars.push(')');
        proof {
            reveal_strlit(")");
            assert(chars@ =~= no_cache_message(self.fid.0 as nat));
        }
        string_from_chars(chars.as_slice())
    }
}

/// The message for a file missing from the registry, with the identifier
/// written as `FileID(n)`.
pub fn missing_file_text(fid: FileID) -> (r: String)
    ensures
        r@ == missing_file_message(fid.0 as nat),
{
    let mut chars = chars_of("Requested file not present in registry: FileID(");
    push_decimal(fid.0 as u64, &mut chars);
    chars.push(')');
    proof {
        reveal_strlit(")");
        assert(chars@ =~= missing_file_message(fid.0 as nat));
    }
    string_from_chars(chars.as_slice())
}

/// Dragging with keys held: Alt shifts along x whatever else is held;
/// with Alt up, Ctrl shifts along y; Shift alone scales along y; with no
/// key held the drag does nothing.
pub proof fn lemma_transform_keys(m: KeyModifiers)
    ensures
        m.alt ==> transform_action(m) == DragAction::ShiftX,
        !m.alt && m.ctrl ==> transform_action(m) == DragAction::ShiftY,
        !m.alt && !m.ctrl && m.shift ==> transform_action(m) == DragAction::ScaleY,
        !m.alt && !m.ctrl && !m.shift ==> transform_action(m) == DragAction::Ignore,
        transform_action(m) != DragAction::Annotate,
{
}

/// Dragging over the plot with [Alt, Ctrl, Shift] held: exactly one of the
/// three keys shifts along x (Alt), shifts along y (Ctrl) or scales (Shift);
/// Ctrl with Shift annotates; any other combination does nothing.
pub proof fn lemma_drag_keys(alt: bool, ctrl: bool, shift: bool)
    ensures
        (spec_drag_action(alt, ctrl, shift) == DragAction::ShiftX) <==> (alt && !ctrl && !shift),
        (spec_drag_action(alt, ctrl, shift) == DragAction::ShiftY) <==> (!alt && ctrl && !shift),
        (spec_drag_action(alt, ctrl, shift) == DragAction::ScaleY) <==> (!alt && !ctrl && shift),
        (spec_drag_action(alt, ctrl, shift) == DragAction::Annotate) <==> (!alt && ctrl && shift),
{
}

/// A click on a curve selects its file; a click elsewhere without a
/// modifier key clears the selection; without a click, or for a click
/// elsewhere with a modifier key held, the selection stays.
pub proof fn lemma_plot_selection(selected: Option<FileID>, hovered: Option<FileID>, pressed: bool, modifier: bool)
    ensures
        hovered is Some && pressed ==> spec_select_plot_file(selected, hovered, pressed, modifier) == hovered,
        hovered is None && pressed && !modifier ==> spec_select_plot_file(selected, hovered, pressed, modifier) is None,
        !pressed ==> spec_select_plot_file(selected, hovered, pressed, modifier) == selected,
        hovered is None && modifier ==> spec_select_plot_file(selected, hovered, pressed, modifier) == selected,
{
}

} // verus!
