use cirrus::dto::{AudioFile, AudioLibrary};
use cirrus::sync::{
    audio_types, contains_key, files_without_tag, is_audio_type, key_diff, last_occurrences,
    plan_file_refresh, plan_file_updates, plan_library_refresh, plan_library_refresh_with, removal_ids,
};

fn s(v: &[&str]) -> Vec<String> {
    v.iter().map(|x| x.to_string()).collect()
}

fn file(id: u8, name: &str, ts: i64, tag: Option<u8>) -> AudioFile {
    AudioFile {
        id: Some([id; 12]),
        modified_timestamp: ts,
        parent_path: ",music,".to_string(),
        filename: name.to_string(),
        audio_tag_refer: tag.map(|t| [t; 12]),
    }
}

fn lib(id: u8, path: &str, ts: i64) -> AudioLibrary {
    AudioLibrary {
        id: Some([id; 12]),
        materialized_path: format!(",{},", path.replace('/', ",")),
        os_path: path.to_string(),
        modified_timestamp: ts,
    }
}

fn sorted(mut v: Vec<String>) -> Vec<String> {
    v.sort();
    v
}

#[test]
fn contains_key_finds_text() {
    let keys = s(&["a", "b"]);
    assert!(contains_key(&keys, &"b".to_string()));
    assert!(!contains_key(&keys, &"c".to_string()));
    assert!(!contains_key(&Vec::new(), &"a".to_string()));
}

#[test]
fn key_diff_partitions_keys() {
    let d = key_diff(&s(&["a", "b", "b", "c"]), &s(&["b", "c", "d", "d"]));
    assert_eq!(sorted(d.added), s(&["d"]));
    assert_eq!(sorted(d.removed), s(&["a"]));
    assert_eq!(sorted(d.kept), s(&["b", "c"]));
}

#[test]
fn last_occurrences_pick_last_index() {
    assert_eq!(last_occurrences(&s(&["a", "b", "a", "c", "b"])), vec![2, 3, 4]);
    assert_eq!(last_occurrences(&Vec::new()), Vec::<usize>::new());
}

#[test]
fn file_plan_new_deleted_managed() {
    let stored = vec![file(1, "a.aiff", 10, Some(9)), file(2, "b.aiff", 20, None), file(3, "a.aiff", 30, None)];
    let plan = plan_file_refresh(&stored, &s(&["a.aiff", "c.aiff"]));
    assert_eq!(plan.new_filenames, s(&["c.aiff"]));
    assert_eq!(plan.deleted_files.len(), 1);
    assert_eq!(plan.deleted_files[0].id, Some([2; 12]));
    assert_eq!(plan.managed_files.len(), 1);
    assert_eq!(plan.managed_files[0].id, Some([3; 12]));
}

#[test]
fn file_plan_partitions_on_values() {
    let stored = vec![file(1, "x", 1, None), file(2, "y", 1, None), file(3, "z", 1, None)];
    let local = s(&["y", "z", "w"]);
    let plan = plan_file_refresh(&stored, &local);
    let mut stored_names: Vec<String> = plan.deleted_files.iter().chain(plan.managed_files.iter()).map(|f| f.filename.clone()).collect();
    stored_names.sort();
    assert_eq!(stored_names, s(&["x", "y", "z"]));
    let mut local_names: Vec<String> = plan.new_filenames.clone();
    local_names.extend(plan.managed_files.iter().map(|f| f.filename.clone()));
    local_names.sort();
    assert_eq!(local_names, s(&["w", "y", "z"]));
}

#[test]
fn file_plan_unchanged_on_values() {
    let stored = vec![file(1, "x", 1, None), file(2, "y", 1, None)];
    let plan = plan_file_refresh(&stored, &s(&["y", "x"]));
    assert!(plan.new_filenames.is_empty());
    assert!(plan.deleted_files.is_empty());
    assert_eq!(plan.managed_files.len(), 2);
}

#[test]
fn file_updates_record_new_timestamps() {
    let managed = vec![file(1, "a", 10, None), file(2, "b", 20, Some(5)), file(3, "c", 30, None)];
    let updated = plan_file_updates(&managed, &vec![10, 25, 31]);
    assert_eq!(updated.len(), 2);
    assert_eq!(updated[0].id, Some([2; 12]));
    assert_eq!(updated[0].modified_timestamp, 25);
    assert_eq!(updated[0].audio_tag_refer, Some([5; 12]));
    assert_eq!(updated[1].id, Some([3; 12]));
    assert_eq!(updated[1].modified_timestamp, 31);
}

#[test]
fn file_updates_unchanged_on_values() {
    let managed = vec![file(1, "a", 10, None), file(2, "b", 20, None)];
    assert!(plan_file_updates(&managed, &vec![10, 20]).is_empty());
}

#[test]
fn library_plan_on_values() {
    let stored = vec![lib(1, "/m/a", 1), lib(2, "/m/b", 1), lib(3, "/m/a", 2)];
    let plan = plan_library_refresh_with(&stored, &s(&["/m/a", "/m/c"]), '/');
    assert_eq!(plan.new_paths, s(&["/m/c"]));
    assert_eq!(plan.deleted_paths, s(&["/m/b"]));
    assert_eq!(plan.managed_libraries.len(), 1);
    assert_eq!(plan.managed_libraries[0].id, Some([3; 12]));
}

#[test]
fn library_plan_windows_separator() {
    let stored = vec![lib(1, "C:/m/a", 1)];
    let plan = plan_library_refresh_with(&stored, &s(&["C:\\m\\a", "C:\\m\\b"]), '\\');
    assert_eq!(plan.new_paths, s(&["C:/m/b"]));
    assert!(plan.deleted_paths.is_empty());
    assert_eq!(plan.managed_libraries.len(), 1);
}

#[test]
fn library_plan_unchanged_on_values() {
    let stored = vec![lib(1, "/m/a", 1), lib(2, "/m/b", 1)];
    let plan = plan_library_refresh(&stored, &s(&["/m/b", "/m/a"]));
    if std::path::MAIN_SEPARATOR == '/' {
        assert!(plan.new_paths.is_empty());
        assert!(plan.deleted_paths.is_empty());
        assert_eq!(plan.managed_libraries.len(), 2);
    }
}

#[test]
fn removal_ids_collect_files_and_tags() {
    let files = vec![file(1, "a", 1, Some(7)), file(2, "b", 1, None), file(3, "c", 1, Some(8))];
    let ids = removal_ids(&files);
    assert_eq!(ids.file_ids, vec![[1; 12], [2; 12], [3; 12]]);
    assert_eq!(ids.tag_ids, vec![[7; 12], [8; 12]]);
}

#[test]
fn files_without_tag_keep_order() {
    let files = vec![file(1, "a", 1, Some(7)), file(2, "b", 1, None), file(3, "c", 1, None)];
    let untagged = files_without_tag(&files);
    assert_eq!(untagged.len(), 2);
    assert_eq!(untagged[0].filename, "b");
    assert_eq!(untagged[1].filename, "c");
}

#[test]
fn audio_type_filter() {
    let types = audio_types();
    assert_eq!(types, s(&["aiff"]));
    assert!(is_audio_type("aiff", &types));
    assert!(!is_audio_type("mp3", &types));
    assert!(!is_audio_type("AIFF", &types));
}

#[test]
fn second_file_refresh_settles() {
    let stored = vec![file(1, "a", 1, None), file(2, "b", 1, None)];
    let local = s(&["b", "c"]);
    let plan = plan_file_refresh(&stored, &local);
    let mut after: Vec<AudioFile> = stored
        .iter()
        .filter(|f| !plan.deleted_files.iter().any(|d| d.id == f.id))
        .cloned()
        .collect();
    for (i, name) in plan.new_filenames.iter().enumerate() {
        after.push(file(10 + i as u8, name, 1, None));
    }
    let second = plan_file_refresh(&after, &local);
    assert!(second.new_filenames.is_empty());
    assert!(second.deleted_files.is_empty());
}

#[test]
fn second_library_refresh_settles() {
    let stored = vec![lib(1, "/m/a", 1), lib(2, "/m/b", 1)];
    let local = s(&["/m/b", "/m/c"]);
    let plan = plan_library_refresh_with(&stored, &local, '/');
    let mut after: Vec<AudioLibrary> = stored
        .into_iter()
        .filter(|l| !plan.deleted_paths.contains(&l.os_path))
        .collect();
    for p in plan.new_paths.iter() {
        after.push(lib(9, p, 1));
    }
    let second = plan_library_refresh_with(&after, &local, '/');
    assert!(second.new_paths.is_empty());
    assert!(second.deleted_paths.is_empty());
}

#[test]
fn changed_libraries_keep_modified_ones() {
    let managed = vec![lib(1, "/m/a", 10), lib(2, "/m/b", 20), lib(3, "/m/c", 30)];
    let changed = cirrus::sync::changed_libraries(&managed, &vec![10, 21, 30]);
    assert_eq!(changed.len(), 1);
    assert_eq!(changed[0].id, Some([2; 12]));
    assert_eq!(changed[0].modified_timestamp, 20);
    assert!(cirrus::sync::changed_libraries(&managed, &vec![10, 20, 30]).is_empty());
}

#[test]
fn refreshing_files_twice_changes_nothing() {
    let stored = vec![file(1, "a", 1, Some(4)), file(2, "b", 5, None)];
    let local = s(&["b", "c"]);
    let disk = |name: &str| match name { "b" => 6, "c" => 7, _ => 0 };
    let plan = plan_file_refresh(&stored, &local);
    let ts: Vec<i64> = plan.managed_files.iter().map(|f| disk(&f.filename)).collect();
    let updated = plan_file_updates(&plan.managed_files, &ts);
    let mut after: Vec<AudioFile> = stored
        .iter()
        .filter(|f| !plan.deleted_files.iter().any(|d| d.id == f.id) && !updated.iter().any(|u| u.id == f.id))
        .cloned()
        .collect();
    after.extend(updated.iter().cloned());
    for (i, name) in plan.new_filenames.iter().enumerate() {
        after.push(file(10 + i as u8, name, disk(name), None));
    }
    let second = plan_file_refresh(&after, &local);
    assert!(second.new_filenames.is_empty());
    assert!(second.deleted_files.is_empty());
    let ts2: Vec<i64> = second.managed_files.iter().map(|f| disk(&f.filename)).collect();
    assert!(plan_file_updates(&second.managed_files, &ts2).is_empty());
}
