use notes::storage::{as_dir, DataType, Directory, Storage};

fn new_store() -> Storage<String> {
    Storage::with_root(Directory::with_name("root".to_string()))
}

#[test]
fn root_directory_is_stored_under_root_id() {
    let store = new_store();
    let root_id = store.root_dir_id();
    let node = store.get_object(root_id).expect("root must be stored");
    assert_eq!(node.id(), root_id);
    let dir = as_dir(&node.data).expect("root must be a directory");
    assert_eq!(dir.name, "root");
    assert_eq!(store.root_dir().name, "root");
}

#[test]
fn add_dir_links_child_under_parent() {
    let mut store = new_store();
    let root_id = store.root_dir_id();
    let sub_id = store.add_dir(root_id, Directory::with_name("sub".to_string()));
    assert_ne!(sub_id, root_id);
    assert_eq!(store.get_dir_parent_id(sub_id), Some(root_id));
    assert_eq!(store.get_dir_parent_id(root_id), None);
    let subs = store.get_sub_directories(root_id).expect("root is a dir");
    assert_eq!(subs.len(), 1);
    assert_eq!(subs[0].id(), sub_id);
}

#[test]
fn sub_directories_keep_insertion_order() {
    let mut store = new_store();
    let root_id = store.root_dir_id();
    let a = store.add_dir(root_id, Directory::with_name("a".to_string()));
    let b = store.add_dir(root_id, Directory::with_name("b".to_string()));
    let c = store.add_dir(root_id, Directory::with_name("c".to_string()));
    let subs = store.get_sub_directories(root_id).expect("root is a dir");
    let ids: Vec<u64> = subs.iter().map(|n| n.id()).collect();
    assert_eq!(ids, vec![a, b, c]);
}

#[test]
fn soft_delete_hides_and_restore_reveals() {
    let mut store = new_store();
    let root_id = store.root_dir_id();
    let sub_id = store.add_dir(root_id, Directory::with_name("sub".to_string()));

    assert!(store.delete(sub_id));
    let subs = store.get_sub_directories(root_id).expect("root is a dir");
    assert!(subs.iter().all(|n| n.id() != sub_id));
    let node = store.get_object(sub_id).expect("object stays reachable");
    assert!(node.is_deleted());

    assert!(store.restore(sub_id));
    let subs = store.get_sub_directories(root_id).expect("root is a dir");
    assert!(subs.iter().any(|n| n.id() == sub_id));
    let node = store.get_object(sub_id).expect("object stays reachable");
    assert!(!node.is_deleted());
}

#[test]
fn delete_of_unknown_id_reports_not_found() {
    let mut store = new_store();
    assert!(!store.delete(0xDEAD_BEEF));
    assert!(!store.restore(0xDEAD_BEEF));
}

#[test]
fn auto_named_entries_get_numbered() {
    let mut store = new_store();
    let first = store.add_object("first body".to_string());
    let second = store.add_object("second body".to_string());

    let n1 = store.root_dir_mut().add_entry_with_unique_name(first, "a note".to_string());
    let n2 = store.root_dir_mut().add_entry_with_unique_name(second, "a note".to_string());
    assert_eq!(n1, "a note");
    assert_eq!(n2, "a note #1");

    let listing = store.dir_objects(store.root_dir_id()).expect("root is a dir");
    let mut names: Vec<String> = listing.iter().map(|(name, _)| name.clone()).collect();
    names.sort();
    assert_eq!(names, vec!["a note".to_string(), "a note #1".to_string()]);
}

#[test]
fn find_file_dir_locates_the_linking_directory() {
    let mut store = new_store();
    let root_id = store.root_dir_id();
    let sub_id = store.add_dir(root_id, Directory::with_name("sub".to_string()));
    let obj = store.add_object("body".to_string());

    match store.get_object_mut(sub_id).map(|n| &mut n.data) {
        Some(DataType::Dir(dir)) => {
            dir.add_entry_with_unique_name(obj, "filed".to_string());
        }
        _ => panic!("sub must be a directory"),
    }

    let holder = store.find_file_dir(obj).expect("some directory links the object");
    assert_eq!(holder.id(), sub_id);
    assert!(store.find_file_dir(0xD15EA5E).is_none());
}

#[test]
fn object_path_runs_from_root_to_holder() {
    let mut store = new_store();
    let root_id = store.root_dir_id();
    let mid_id = store.add_dir(root_id, Directory::with_name("mid".to_string()));
    let leaf_id = store.add_dir(mid_id, Directory::with_name("leaf".to_string()));
    let obj = store.add_object("body".to_string());
    match store.get_object_mut(leaf_id).map(|n| &mut n.data) {
        Some(DataType::Dir(dir)) => {
            dir.add_entry_with_unique_name(obj, "note".to_string());
        }
        _ => panic!("leaf must be a directory"),
    }

    let path = store.get_object_path(obj).expect("object is filed");
    let ids: Vec<u64> = path.iter().map(|d| d.dir_id()).collect();
    assert_eq!(ids, vec![root_id, mid_id, leaf_id]);
    assert!(store.get_object_path(0xD15EA5E).is_none());
}

#[test]
fn unfiled_objects_have_no_path() {
    let mut store = new_store();
    let obj = store.add_object("scratch".to_string());
    assert!(store.get_object_path(obj).is_none());
    assert!(store.get_object(obj).is_some());
}

#[test]
fn touch_keeps_payload() {
    let mut store = new_store();
    let obj = store.add_object("body".to_string());
    let node = store.get_object_mut(obj).expect("present");
    node.touch();
    match &store.get_object(obj).unwrap().data {
        DataType::File(text) => assert_eq!(text, "body"),
        _ => panic!("object must be a file"),
    }
}

#[test]
fn unique_name_consults_existing_entries() {
    let mut store = new_store();
    let obj = store.add_object("body".to_string());
    store.root_dir_mut().add_entry_with_unique_name(obj, "draft".to_string());
    let free = store.root_dir().get_new_unique_name("draft".to_string());
    assert_eq!(free, "draft #1");
    let untouched = store.root_dir().get_new_unique_name("other".to_string());
    assert_eq!(untouched, "other");
}

#[test]
fn new_objects_start_undeleted_with_equal_timestamps() {
    let mut store = new_store();
    let obj = store.add_object("body".to_string());
    let node = store.get_object(obj).unwrap();
    assert!(!node.is_deleted());
    assert_eq!(node.creation_time, node.modification_time);
    assert!(node.deletion_time.is_none());
}
