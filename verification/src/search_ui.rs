//! The decisions of the search pop-up: its modes, moving the selection with
//! the arrow keys, assigning matches to groups with the number keys, and the
//! highlighting of a matched path.

use std::collections::HashSet;
use vstd::prelude::*;

verus! {

broadcast use vstd::std_specs::hash::group_hash_axioms;

/// How the search pop-up is driven.
#[derive(Clone, Copy, Debug, PartialEq, Eq, Structural)]
pub enum SearchMode {
    Disabled,
    KeyboardInput,
    KeyboardSelection,
    MouseSelection,
}

/// The mode after the search shortcut: it opens a closed pop-up for typing
/// and closes an open one.
pub open spec fn spec_toggle_search(mode: SearchMode) -> SearchMode {
    match mode {
        SearchMode::Disabled => SearchMode::KeyboardInput,
        _ => SearchMode::Disabled,
    }
}

pub fn toggle_search(mode: SearchMode) -> (r: SearchMode)
    ensures
        r == spec_toggle_search(mode),
{
    match mode {
        SearchMode::Disabled => SearchMode::KeyboardInput,
        _ => SearchMode::Disabled,
    }
}

/// The selection after the down key among `n` matches: the next match, the
/// last one if at or beyond the end, the first if none was selected.
pub open spec fn spec_select_down(selected: Option<usize>, n: usize) -> Option<usize> {
    match selected {
        Some(k) => if k < n - 1 {
            Some((k + 1) as usize)
        } else {
            Some((n - 1) as usize)
        },
        None => Some(0),
    }
}

/// Moves the selection down; the pop-up goes to keyboard selection.
pub fn select_down(selected: Option<usize>, n: usize) -> (r: (SearchMode, Option<usize>))
    requires
        selected is Some ==> n > 0,
    ensures
        r.0 == SearchMode::KeyboardSelection,
        r.1 == spec_select_down(selected, n),
{
    let sel = match selected {
        Some(k) if k < n - 1 => Some(k + 1),
        Some(k) if k == n - 1 => Some(k),
        None => Some(0),
        _ => Some(n - 1),
    };
    (SearchMode::KeyboardSelection, sel)
}

/// The mode and selection after the up key among `n` matches: from the
/// first match back to typing, otherwise one match up; a selection beyond
/// the end is dropped.
pub open spec fn spec_select_up(mode: SearchMode, selected: Option<usize>, n: usize) -> (SearchMode, Option<usize>) {
    match selected {
        Some(k) => if k == 0 {
            (SearchMode::KeyboardInput, None)
        } else if k <= n {
            (SearchMode::KeyboardSelection, Some((k - 1) as usize))
        } else {
            (mode, None)
        },
        None => (mode, None),
    }
}

pub fn select_up(mode: SearchMode, selected: Option<usize>, n: usize) -> (r: (SearchMode, Option<usize>))
    ensures
        r == spec_select_up(mode, selected, n),
{
    match selected {
        Some(0) => (SearchMode::KeyboardInput, None),
        Some(k) if k <= n => (SearchMode::KeyboardSelection, Some(k - 1)),
        _ => (mode, None),
    }
}

/// The group of the selected match after a number key: nothing changes
/// while the text field has the focus or no key was released; pressing the
/// number of the assigned group removes the assignment, another number
/// assigns that group.
pub open spec fn spec_assign_group(current: Option<usize>, input_active: bool, released: Option<usize>) -> Option<usize> {
    match released {
        None => current,
        Some(r) => if input_active {
            current
        } else {
            match current {
                Some(g) => if r != g {
                    Some(r)
                } else {
                    None
                },
                None => Some(r),
            }
        },
    }
}

pub fn assign_group(current: Option<usize>, input_active: bool, released: Option<usize>) -> (r: Option<usize>)
    ensures
        r == spec_assign_group(current, input_active, released),
{
    match (input_active, released) {
        (_, None) => current,
        (true, Some(_)) => current,
        (false, Some(released_num)) => {
            match current {
                Some(gid) => {
                    if released_num != gid {
                        Some(released_num)
                    } else {
                        None
                    }
                },
                None => Some(released_num),
            }
        },
    }
}

/// The digit order in which the number keys are looked at.
pub open spec fn key_priority(k: int) -> int {
    if k == 0 {
        9
    } else {
        k - 1
    }
}

/// The number of a released number key, `released[d]` telling whether the
/// key of digit `d` was released; keys `1` to `9` come before `0`.
pub fn number_key_released(released: &[bool; 10]) -> (r: Option<usize>)
    ensures
        match r {
            Some(d) => d < 10 && released@[d as int] && forall|e: int| 0 <= e < 10 && key_priority(e) < key_priority(d as int) ==> !released@[e],
            None => forall|e: int| 0 <= e < 10 ==> !released@[e],
        },
{
    let mut k: usize = 1;
    while k < 10
        invariant
            1 <= k <= 10,
            forall|e: int| 1 <= e < k ==> !released@[e],
        decreases 10 - k,
    {
        if released[k] {
            return Some(k);
        }
        k = k + 1;
    }
    if released[0] {
        return Some(0);
    }
    None
}

/// The full-width digit shown after a path assigned to group `d`.
pub open spec fn group_badge_char(d: nat) -> char {
    ((0xFF10 + d) as u32) as char
}

/// The badge shown after a match assigned to a group: a full-width digit
/// and a space, for groups 0 to 9.
pub fn group_badge(group_id: Option<usize>) -> (r: Option<String>)
    ensures
        match group_id {
            Some(d) => if d < 10 {
                r matches Some(s) && s@ == seq![group_badge_char(d as nat), ' ']
            } else {
                r is None
            },
            None => r is None,
        },
{
    match group_id {
        Some(d) => {
            if d < 10 {
                let c: char = match d {
                    0 => '０',
                    1 => '１',
                    2 => '２',
                    3 => '３',
                    4 => '４',
                    5 => '５',
                    6 => '６',
                    7 => '７',
                    8 => '８',
                    _ => '９',
                };
                let mut v: Vec<char> = Vec::new();
                v.push(c);
                v.push(' ');
                assert(c == group_badge_char(d as nat));
                assert(v@ =~= seq![group_badge_char(d as nat), ' ']);
                Some(crate::text::string_from_chars(v.as_slice()))
            } else {
                None
            }
        },
        None => None,
    }
}

/// `segs` cuts the positions `0..flags.len()` into maximal runs of equal
/// flags, in order, each with its flag.
pub open spec fn is_flag_runs(flags: Seq<bool>, segs: Seq<(usize, usize, bool)>) -> bool {
    &&& segs.len() > 0
    &&& segs[0].0 == 0
    &&& segs.last().1 == flags.len() - 1
    &&& forall|k: int| 0 <= k < segs.len() ==> (#[trigger] segs[k]).0 <= segs[k].1
    &&& forall|k: int| 0 <= k < segs.len() - 1 ==> #[trigger] segs[k + 1].0 == segs[k].1 + 1
    &&& forall|k: int, i: int| 0 <= k < segs.len() && segs[k].0 <= i <= segs[k].1 ==> #[trigger] flags[i] == (#[trigger] segs[k]).2
    &&& forall|k: int| 0 <= k < segs.len() - 1 ==> #[trigger] segs[k + 1].2 != segs[k].2
}

/// The highlighting of a matched path of `len` bytes: the runs of positions
/// that belong to the match (`true`) or not (`false`). Paths of fewer than
/// two bytes get no runs.
pub fn render_match_label(len: usize, indices: &HashSet<usize>) -> (r: Vec<(usize, usize, bool)>)
    ensures
        len < 2 ==> r@.len() == 0,
        len >= 2 ==> is_flag_runs(Seq::new(len as nat, |i: int| indices@.contains(i as usize)), r@),
{
    let ghost flags = Seq::new(len as nat, |i: int| indices@.contains(i as usize));
    let mut segs: Vec<(usize, usize, bool)> = Vec::new();
    if len < 2 {
        return segs;
    }
    let mut start: usize = 0;
    let mut prev_ismatch = indices.contains(&0);
    let mut i: usize = 1;
    while i < len
        invariant
            2 <= len,
            1 <= i <= len,
            flags == Seq::new(len as nat, |i: int| indices@.contains(i as usize)),
            start < i,
            prev_ismatch == flags[start as int],
            forall|j: int| start <= j < i ==> flags[j] == prev_ismatch,
            segs@.len() == 0 ==> start == 0,
            segs@.len() > 0 ==> segs@.last().1 + 1 == start && segs@.last().2 != prev_ismatch,
            segs@.len() > 0 ==> segs@[0].0 == 0,
            forall|k: int| 0 <= k < segs@.len() ==> (#[trigger] segs@[k]).0 <= segs@[k].1,
            forall|k: int| 0 <= k < segs@.len() - 1 ==> #[trigger] segs@[k + 1].0 == segs@[k].1 + 1,
            forall|k: int, j: int| 0 <= k < segs@.len() && segs@[k].0 <= j <= segs@[k].1 ==> #[trigger] flags[j] == (#[trigger] segs@[k]).2,
            forall|k: int| 0 <= k < segs@.len() - 1 ==> #[trigger] segs@[k + 1].2 != segs@[k].2,
        decreases len - i,
    {
        let ismatch = indices.contains(&i);
        if ismatch != prev_ismatch {
            segs.push((start, i - 1, prev_ismatch));
            start = i;
            prev_ismatch = ismatch;
        }
        i = i + 1;
    }
    segs.push((start, len - 1, prev_ismatch));
    segs
}

/// Pressing the search shortcut twice closes an open pop-up and reopens
/// it for typing; a closed pop-up opens and closes again.
pub proof fn lemma_toggle_twice(mode: SearchMode)
    ensures
        spec_toggle_search(spec_toggle_search(mode)) == if mode == SearchMode::Disabled {
            SearchMode::Disabled
        } else {
            SearchMode::KeyboardInput
        },
{
}

/// Pressing the same number twice leaves a match as it was, when it was
/// unassigned or assigned to another group the first press replaced.
pub proof fn lemma_assign_same_key_twice(r: usize)
    ensures
        spec_assign_group(spec_assign_group(None, false, Some(r)), false, Some(r)) == None::<usize>,
        forall|g: usize| g != r ==> spec_assign_group(Some(g), false, Some(r)) == Some(r),
        forall|c: Option<usize>, k: Option<usize>| spec_assign_group(c, true, k) == c,
{
}

/// Moving down and then up among `n` matches comes back to the selected
/// match, when it was not the last one.
pub proof fn lemma_down_then_up(mode: SearchMode, k: usize, n: usize)
    requires
        k + 1 < n,
    ensures
        spec_select_up(mode, spec_select_down(Some(k), n), n) == (SearchMode::KeyboardSelection, Some(k)),
        spec_select_down(Some(k), n) == Some((k + 1) as usize),
{
}

/// The selection never leaves the list of matches when moving down.
pub proof fn lemma_select_down_in_range(selected: Option<usize>, n: usize)
    requires
        n > 0,
        selected matches Some(k) ==> k < n,
    ensures
        spec_select_down(selected, n) matches Some(k2) && k2 < n,
{
}

/// The search pop-up, key by key: the shortcut opens a closed pop-up for
/// typing and closes an open one; the down key selects the first match
/// when none is selected, the next one otherwise, and stays at the last;
/// the up key from the first match goes back to typing, from a later one
/// selects the one before, and drops a selection beyond the matches; a
/// number key assigns its group, unassigns it when pressed again, and does
/// nothing while typing.
pub proof fn lemma_search_keys(mode: SearchMode, k: usize, n: usize, g: usize, r: usize)
    ensures
        spec_toggle_search(SearchMode::Disabled) == SearchMode::KeyboardInput,
        mode != SearchMode::Disabled ==> spec_toggle_search(mode) == SearchMode::Disabled,
        spec_select_down(None, n) == Some(0usize),
        k + 1 < n ==> spec_select_down(Some(k), n) == Some((k + 1) as usize),
        0 < n <= k + 1 ==> spec_select_down(Some(k), n) == Some((n - 1) as usize),
        spec_select_up(mode, Some(0usize), n) == (SearchMode::KeyboardInput, None::<usize>),
        0 < k <= n ==> spec_select_up(mode, Some(k), n) == (SearchMode::KeyboardSelection, Some((k - 1) as usize)),
        k > n ==> spec_select_up(mode, Some(k), n) == (mode, None::<usize>),
        spec_select_up(mode, None, n) == (mode, None::<usize>),
        spec_assign_group(Some(g), false, None) == Some(g),
        spec_assign_group(None, false, Some(r)) == Some(r),
        spec_assign_group(Some(r), false, Some(r)) == None::<usize>,
        g != r ==> spec_assign_group(Some(g), false, Some(r)) == Some(r),
        spec_assign_group(Some(g), true, Some(r)) == Some(g),
{
}

/// The number keys are looked at in the order `1` to `9`, then `0`.
pub proof fn lemma_key_order()
    ensures
        forall|a: int, b: int| 1 <= a < b <= 9 ==> #[trigger] key_priority(a) < #[trigger] key_priority(b),
        forall|d: int| 1 <= d <= 9 ==> #[trigger] key_priority(d) < key_priority(0),
        forall|d: int| 0 <= d < 10 ==> 0 <= #[trigger] key_priority(d) < 10,
{
}

/// The badge of group `d` is the full-width digit `d`: `'０'` for group
/// 0 up to `'９'` for group 9, one code point apart.
pub proof fn lemma_badge_digits(d: nat)
    requires
        d < 9,
    ensures
        group_badge_char(0) == '０',
        group_badge_char(9) == '９',
        group_badge_char(d + 1) as u32 == group_badge_char(d) as u32 + 1,
{
}

} // verus!
