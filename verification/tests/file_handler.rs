use flugs::events::{
    CloneFile, CopyFile, EventState, LocateFile, MoveFile, RemoveFile, RemoveGroup, SubtractFile,
};
use flugs::file_handler::{
    group_choice_label, group_names, plot_label, shown_file_name, FileHandler, FileID, Group, GroupID,
};
use flugs::paths::{file_name, join_path, paths_equal};

fn members(fh: &FileHandler, g: usize) -> Option<Vec<usize>> {
    fh.groups[g].as_ref().map(|grp| grp.file_ids.iter().map(|f| f.0).collect())
}

fn matches(v: &[(&str, Option<usize>)]) -> Vec<(String, Option<usize>)> {
    v.iter().map(|(p, g)| (p.to_string(), *g)).collect()
}

#[test]
fn join_path_like_std() {
    for (b, r) in [("/data", "a.csv"), ("/data/", "a.csv"), ("", "a"), ("/data", "/abs"), ("x", "")] {
        let std_join = std::path::Path::new(b).join(r).to_string_lossy().into_owned();
        assert_eq!(join_path(b, r), std_join);
    }
    assert_eq!(join_path("/data", "a.csv"), "/data/a.csv");
}

#[test]
fn search_results_register_and_group() {
    let mut fh = FileHandler::empty();
    let m = matches(&[("a.csv", Some(1)), ("b.csv", None), ("c.csv", Some(1)), ("a.csv", Some(2))]);
    let res = fh.add_search_results("/data", &m);
    assert_eq!(res, vec![Some((FileID(0), true)), None, Some((FileID(1), true)), Some((FileID(0), false))]);
    assert_eq!(fh.current_id(), FileID(2));
    assert_eq!(fh.registry.get(&0).unwrap(), "/data/a.csv");
    assert_eq!(fh.registry.get(&1).unwrap(), "/data/c.csv");
    assert_eq!(fh.registry.len(), 2);
    assert_eq!(members(&fh, 1), Some(vec![0, 1]));
    assert_eq!(members(&fh, 2), Some(vec![0]));
    assert_eq!(fh.groups[1].as_ref().unwrap().name, "G1");
    assert!(fh.groups[1].as_ref().unwrap().is_plotted);
    assert!(fh.groups[0].is_none());
    // adding the same match again changes nothing
    let res2 = fh.add_search_results("/data", &matches(&[("a.csv", Some(1))]));
    assert_eq!(res2, vec![Some((FileID(0), false))]);
    assert_eq!(members(&fh, 1), Some(vec![0, 1]));
}

#[test]
fn copy_move_remove() {
    let mut fh = FileHandler::empty();
    fh.add_search_results("/d", &matches(&[("x", Some(0)), ("y", Some(0))]));
    assert_eq!(CopyFile::new(FileID(1), 3).apply(&mut fh), Ok(EventState::Finished));
    assert_eq!(members(&fh, 3), Some(vec![1]));
    assert_eq!(fh.groups[3].as_ref().unwrap().name, "G3");
    // copying again does not duplicate
    CopyFile::new(FileID(1), 3).apply(&mut fh).unwrap();
    assert_eq!(members(&fh, 3), Some(vec![1]));
    // move file 0 from group 0 to group 5
    MoveFile::new(FileID(0), 0, 5).apply(&mut fh).unwrap();
    assert_eq!(members(&fh, 0), Some(vec![1]));
    assert_eq!(members(&fh, 5), Some(vec![0]));
    assert_eq!(fh.registry.len(), 2);
    // remove file 0 from its only group: it leaves the registry
    RemoveFile::new(FileID(0), 5).apply(&mut fh).unwrap();
    assert_eq!(members(&fh, 5), Some(vec![]));
    assert!(fh.registry.get(&0).is_none());
    assert!(fh.registry.get(&1).is_some());
    // removing a whole group keeps files that another group still holds ...
    RemoveGroup::new(3).apply(&mut fh).unwrap();
    assert!(fh.groups[3].is_none());
    assert!(fh.registry.get(&1).is_some());
    // ... and drops those that no group holds any more
    RemoveGroup::new(0).apply(&mut fh).unwrap();
    assert!(fh.groups[0].is_none());
    assert!(fh.registry.get(&1).is_none());
}

#[test]
fn deleting_a_group_beside_a_vain_file_entry_clears_the_registry() {
    let mut fh = FileHandler::empty();
    fh.add_search_results("/d", &matches(&[("x", Some(2)), ("y", Some(2)), ("z", Some(4))]));
    fh.remove(vec![2], vec![(7, FileID(0))]);
    assert!(fh.groups[2].is_none());
    let mut keys: Vec<usize> = fh.registry.keys().copied().collect();
    keys.sort();
    assert_eq!(keys, vec![2]);
    // deleting an empty slot removes nothing and keeps the registry
    fh.add_new_file("/d/w".to_string());
    fh.remove(vec![2, 12], vec![]);
    assert_eq!(fh.registry.len(), 2);
}

#[test]
fn move_to_same_group_removes() {
    let mut fh = FileHandler::empty();
    fh.add_search_results("/d", &matches(&[("x", Some(4))]));
    MoveFile::new(FileID(0), 4, 4).apply(&mut fh).unwrap();
    assert_eq!(members(&fh, 4), Some(vec![]));
    assert_eq!(fh.registry.len(), 0);
}

#[test]
fn remove_ignores_bad_slots_and_missing_files() {
    let mut fh = FileHandler::empty();
    fh.add_search_results("/d", &matches(&[("x", Some(0))]));
    fh.remove(vec![11], vec![(12, FileID(0)), (0, FileID(9))]);
    assert_eq!(members(&fh, 0), Some(vec![0]));
    assert_eq!(fh.registry.len(), 1);
    fh.remove(vec![0], vec![(0, FileID(0))]);
    assert!(fh.groups[0].is_none());
    assert_eq!(fh.registry.len(), 0);
}

#[test]
fn clone_file_registers_copy() {
    let mut fh = FileHandler::empty();
    fh.add_search_results("/d", &matches(&[("x", Some(0))]));
    assert_eq!(CloneFile::new(FileID(0), 2).apply(&mut fh), Ok(EventState::Finished));
    assert_eq!(fh.registry.get(&1).unwrap(), "/d/x");
    assert_eq!(members(&fh, 2), Some(vec![1]));
    assert_eq!(
        CloneFile::new(FileID(7), 2).apply(&mut fh),
        Err("Requested file not present in registry: FileID(7)".to_string())
    );
}

#[test]
fn unique_paths_and_lookup() {
    let mut fh = FileHandler::empty();
    fh.add_search_results("/d", &matches(&[("x", Some(0)), ("y", Some(0))]));
    CloneFile::new(FileID(0), 1).apply(&mut fh).unwrap();
    let mut paths = fh.unique_paths();
    paths.sort();
    assert_eq!(paths, vec!["/d/x".to_string(), "/d/y".to_string()]);
    let f = fh.find_by_path(&"/d/y".to_string());
    assert_eq!(f, Some(FileID(1)));
    assert_eq!(fh.find_by_path(&"/d/z".to_string()), None);
    assert_eq!(fh.file_path(FileID(1)), Some("/d/y".to_string()));
    fh.set_file_path(FileID(1), "/e/y".to_string());
    assert_eq!(fh.file_path(FileID(1)), Some("/e/y".to_string()));
    assert_eq!(fh.file_path(FileID(5)), None);
}

#[test]
fn ids_and_groups() {
    let mut id = FileID(4);
    assert_eq!(id.next(), FileID(4));
    assert_eq!(id, FileID(5));
    assert_eq!(i32::from(FileID(3)), 3);
    assert_eq!(GroupID::new(7).id(), 7);
    let g = Group::default();
    assert!(g.is_plotted && g.file_ids.is_empty() && g.name.is_empty());
    let mut fh = FileHandler::empty();
    assert_eq!(fh.add_new_file("p".to_string()), FileID(0));
    assert_eq!(fh.add_new_file("p".to_string()), FileID(1));
    assert_eq!(fh.current_id(), FileID(2));
    fh.add_to_group(9, FileID(1));
    assert_eq!(fh.groups[9].as_ref().unwrap().name, "G9");
    assert!(fh.in_any_group(1));
    assert!(!fh.in_any_group(0));
}

#[test]
fn locate_file_dispatches_once() {
    let mut ev = LocateFile::new("a.csv".to_string(), FileID(0), false);
    assert!(ev.take_dispatch());
    assert!(!ev.take_dispatch());
}

#[test]
fn file_names_like_std() {
    for p in ["/a/b.csv", "a/b/", "a/.", ".", "./", "/", "", "a/..", "./x", "..", "a//b", "x"] {
        let std_name = std::path::Path::new(p).file_name().map(|n| n.to_string_lossy().into_owned());
        assert_eq!(file_name(p), std_name, "path {:?}", p);
    }
}

#[test]
fn shown_names_and_labels() {
    let mut fh = FileHandler::empty();
    fh.add_search_results("/d", &matches(&[("x.csv", Some(0))]));
    assert_eq!(fh.fid_to_filename_str(FileID(0)), "x.csv");
    assert_eq!(fh.fid_to_filename_str(FileID(3)), "unreadable filename");
    assert_eq!(shown_file_name("/"), "unreadable filename");
    assert_eq!(plot_label("", "x.csv", "G1"), "x.csv (G1)");
    assert_eq!(plot_label("sample", "x.csv", "G1"), "sample (G1)");
}

#[test]
fn locate_file_relocates_to_first_match() {
    let mut fh = FileHandler::empty();
    let fid = fh.add_new_file("/old/a.csv".to_string());
    let ev = LocateFile::new("a.csv".to_string(), fid, true);
    assert_eq!(ev.relocate(&mut fh, "/new", Some("sub/a.csv")), Ok(()));
    assert_eq!(fh.file_path(fid), Some("/new/sub/a.csv".to_string()));
    assert_eq!(
        ev.relocate(&mut fh, "/new", None),
        Err("File not found in current search path!".to_string())
    );
    assert_eq!(fh.file_path(fid), Some("/new/sub/a.csv".to_string()));
}

#[test]
fn subtraction_needs_both_files() {
    let mut fh = FileHandler::empty();
    let a = fh.add_new_file("/d/a.csv".to_string());
    let b = fh.add_new_file("/d/b.csv".to_string());
    assert_eq!(SubtractFile::new(a, b).check_operands(&fh), Ok(()));
    assert_eq!(
        SubtractFile::new(a, FileID(12)).check_operands(&fh),
        Err("Could not retrieve files with IDs FileID(0) and FileID(12) for subtraction".to_string())
    );
    assert_eq!(
        SubtractFile::new(FileID(30), b).check_operands(&fh),
        Err("Could not retrieve files with IDs FileID(30) and FileID(1) for subtraction".to_string())
    );
}

#[test]
fn plotted_files_in_slot_order() {
    let mut fh = FileHandler::empty();
    fh.add_search_results("/d", &matches(&[("a.csv", Some(3)), ("b.csv", Some(1)), ("c.csv", Some(3))]));
    fh.groups[1].as_mut().unwrap().file_ids.push(FileID(9));
    let plotted: Vec<(usize, usize)> = fh.plotted_files().iter().map(|(f, g)| (f.0, *g)).collect();
    assert_eq!(plotted, vec![(1, 1), (0, 3), (2, 3)]);
    fh.groups[3].as_mut().unwrap().is_plotted = false;
    let plotted: Vec<(usize, usize)> = fh.plotted_files().iter().map(|(f, g)| (f.0, *g)).collect();
    assert_eq!(plotted, vec![(1, 1)]);
    let names = group_names(&fh.groups);
    assert_eq!(names.len(), 10);
    assert_eq!(names[1], "G1");
    assert_eq!(names[0], "");
    assert_eq!(group_choice_label(&names[1], 1), "G1 (1)");
    assert_eq!(group_choice_label(&names[0], 0), "<insert new at 0>");
    assert_eq!(group_choice_label("spectra", 12), "spectra (12)");
}

#[test]
fn clone_of_unregistered_file_fails_for_any_slot() {
    let mut fh = FileHandler::empty();
    assert_eq!(
        CloneFile::new(FileID(4), 12).apply(&mut fh),
        Err("Requested file not present in registry: FileID(4)".to_string())
    );
    assert!(fh.groups.iter().all(|g| g.is_none()));
}

#[test]
fn search_results_beyond_the_ten_slots_are_ignored() {
    let mut fh = FileHandler::empty();
    let res = fh.add_search_results("/d", &matches(&[("a", Some(10)), ("b", Some(2)), ("c", Some(42))]));
    assert_eq!(res, vec![None, Some((FileID(0), true)), None]);
    assert_eq!(fh.registry.len(), 1);
    assert_eq!(fh.registry.get(&0).unwrap(), "/d/b");
    assert_eq!(members(&fh, 2), Some(vec![0]));
    assert_eq!(fh.current_id(), FileID(1));
}

#[test]
fn group_ids_order_by_number() {
    assert!(GroupID::new(1) < GroupID::new(2));
    assert!(GroupID::new(3) > GroupID::new(2));
    assert_eq!(GroupID::new(4), GroupID::new(4));
    assert_ne!(GroupID::new(4), GroupID::new(5));
    assert_eq!(GroupID::new(2).partial_cmp(&GroupID::new(2)), Some(std::cmp::Ordering::Equal));
    let mut ids = vec![GroupID::new(5), GroupID::new(0), GroupID::new(3)];
    ids.sort();
    assert_eq!(ids, vec![GroupID::new(0), GroupID::new(3), GroupID::new(5)]);
}

#[test]
fn copying_twice_is_copying_once() {
    let mut fh = FileHandler::empty();
    fh.add_search_results("/d", &matches(&[("x", Some(0))]));
    CopyFile::new(FileID(0), 6).apply(&mut fh).unwrap();
    let once = members(&fh, 6);
    CopyFile::new(FileID(0), 6).apply(&mut fh).unwrap();
    assert_eq!(members(&fh, 6), once);
    assert_eq!(once, Some(vec![0]));
}

#[test]
fn paths_compare_like_std() {
    let ps = ["/d/x", "/d//x", "/d/./x", "/d/x/", "d/x", "./d/x", "/d/../x", ".", "./", "", "/", "//", "a/.", "a"];
    for a in ps {
        for b in ps {
            let std_eq = std::path::Path::new(a) == std::path::Path::new(b);
            assert_eq!(paths_equal(a, b), std_eq, "{:?} {:?}", a, b);
        }
    }
}

#[test]
fn search_results_reuse_files_with_the_same_path() {
    let mut fh = FileHandler::empty();
    let res = fh.add_search_results("/d", &matches(&[("x", Some(0)), ("./x", Some(1)), ("sub//y", Some(1)), ("sub/y", Some(2))]));
    assert_eq!(res, vec![Some((FileID(0), true)), Some((FileID(0), false)), Some((FileID(1), true)), Some((FileID(1), false))]);
    assert_eq!(fh.registry.len(), 2);
    assert_eq!(fh.find_by_path(&"/d/x/".to_string()), Some(FileID(0)));
    assert_eq!(fh.unique_paths().len(), 2);
}

#[test]
fn fresh_identifiers_overwrite_a_file_registered_under_them() {
    let mut registry = std::collections::HashMap::new();
    registry.insert(0usize, "/d/a".to_string());
    let mut fh = FileHandler::new(std::array::from_fn(|_| None), registry, FileID(0));
    let res = fh.add_search_results("/d", &matches(&[("b", Some(1))]));
    assert_eq!(res, vec![Some((FileID(0), true))]);
    assert_eq!(fh.registry.get(&0).unwrap(), "/d/b");
    assert_eq!(fh.registry.len(), 1);
}
