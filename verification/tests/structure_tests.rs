use notes::folder::NoteFolder;
use notes::task::{PollError, PollableTask, TaskState};
use notes::id_gen::{IdGen, TimestampRandIdGen};
use notes::note::{Note, DEFAULT_ICON, SCRATCH_PAD_ICON};
use notes::note_tree::NoteFolderTree;
use notes::trash::TrashBin;
use notes::tree::{TreeError, TreeStore};
use notes::util::{now_millis, to_local_date_time, MAX_CLOCK_MILLIS};

#[test]
fn tree_keeps_child_insertion_order() {
    let mut tree: TreeStore<&str> = TreeStore::with_root(1, "root");
    assert_eq!(tree.add_node(1, 10, "a"), Ok(()));
    assert_eq!(tree.add_node(1, 11, "b"), Ok(()));
    assert_eq!(tree.add_node(1, 12, "c"), Ok(()));
    let children = tree.get_children(1).expect("root exists");
    assert_eq!(children.clone(), vec![10, 11, 12]);
}

#[test]
fn tree_rejects_missing_parent_and_duplicate_key() {
    let mut tree: TreeStore<&str> = TreeStore::with_root(1, "root");
    assert_eq!(tree.add_node(99, 10, "a"), Err(TreeError::ParentNotFound));
    assert_eq!(tree.add_node(1, 1, "a"), Err(TreeError::DuplicateKey));
    assert_eq!(tree.add_node(1, 10, "a"), Ok(()));
    assert_eq!(tree.add_node(1, 10, "again"), Err(TreeError::DuplicateKey));
}

#[test]
fn tree_links_parent_and_child_both_ways() {
    let mut tree: TreeStore<&str> = TreeStore::with_root(1, "root");
    tree.add_node(1, 10, "a").unwrap();
    tree.add_node(10, 20, "aa").unwrap();
    let node = tree.get_node(20).expect("inserted");
    assert_eq!(node.parent, Some(10));
    assert!(tree.get_children(10).unwrap().contains(&20));
    assert_eq!(tree.get_node(1).unwrap().parent, None);
    assert_eq!(tree.root_key(), 1);
    assert_eq!(tree.root_node().value, "root");
    assert_eq!(tree.node_values().len(), 3);
}

#[test]
fn folder_auto_names_avoid_collisions() {
    let mut folder = NoteFolder::empty("inbox".to_string());
    let first = folder.insert_new_with_auto_name("a note".to_string());
    let second = folder.insert_new_with_auto_name("a note".to_string());
    assert_eq!(folder.get(first).unwrap().text, "a note");
    assert_eq!(folder.get(second).unwrap().text, "a note #1");
    // a gap left by a removal is filled before the count grows
    folder.remove(second).expect("present");
    let third = folder.insert_new_with_auto_name("a note".to_string());
    assert_eq!(folder.get(third).unwrap().text, "a note #1");
    let fourth = folder.insert_new_with_auto_name("a note".to_string());
    assert_eq!(folder.get(fourth).unwrap().text, "a note #2");
    assert_eq!(folder.iter().len(), 3);
}

#[test]
fn folder_iterates_in_ascending_id_order() {
    let mut folder = NoteFolder::empty("inbox".to_string());
    folder.put(5, Note::from_text("five".to_string()));
    folder.put(3, Note::from_text("three".to_string()));
    folder.put(9, Note::from_text("nine".to_string()));
    let texts: Vec<&str> = folder.iter().iter().map(|n| n.text.as_str()).collect();
    assert_eq!(texts, vec!["three", "five", "nine"]);
}

#[test]
fn folder_put_get_remove_iter() {
    let mut folder = NoteFolder::empty("inbox".to_string());
    folder.put(5, Note::from_text("five".to_string()));
    folder.put(7, Note::from_text("seven".to_string()));
    assert_eq!(folder.get(5).unwrap().text, "five");
    assert_eq!(folder.iter().len(), 2);
    assert!(folder.touch_note(5).is_some());
    assert!(folder.touch_note(99).is_none());
    folder.get_mut_note_content(7).unwrap().push_str(" more");
    assert_eq!(folder.get(7).unwrap().text, "seven more");
    let removed = folder.remove(5).expect("present");
    assert_eq!(removed.text, "five");
    assert!(folder.get(5).is_none());
}

#[test]
fn folder_tree_finds_the_folder_of_a_note() {
    let notes = vec![
        (1u64, Note::from_text("one".to_string())),
        (2u64, Note::from_text("two".to_string())),
    ];
    let mut tree = NoteFolderTree::with_items(notes);
    assert_eq!(tree.root_folder().name, "_root");
    let root_id = tree.root_folder().id;

    let sub = tree.add_folder(&root_id, "letters".to_string());
    assert!(tree.get_folder(&sub).is_some());
    let subs = tree.get_sub_folders(&root_id).expect("root exists");
    assert_eq!(subs.len(), 1);
    assert_eq!(subs[0].name, "letters");

    let holder = tree.find_note_folder(&1).expect("note one is filed");
    assert_eq!(holder.name, "_root");
    assert!(tree.find_note_folder(&99).is_none());

    tree.root_folder_mut().put(3, Note::from_text("three".to_string()));
    assert_eq!(tree.root_folder().get(3).unwrap().text, "three");
}

#[test]
fn trash_bin_keeps_items_until_removed() {
    let mut bin: TrashBin<String> = TrashBin::default();
    bin.put(1, "first".to_string());
    bin.put(2, "second".to_string());
    assert_eq!(bin.get(1).unwrap().item, "first");
    assert_eq!(bin.values().len(), 2);
    let back = bin.remove(1).expect("present");
    assert_eq!(back, "first");
    assert!(bin.get(1).is_none());
    assert!(bin.remove(1).is_none());
}

#[test]
fn note_title_is_text_before_first_whitespace() {
    let note = Note::from_text("Heading body text".to_string());
    assert_eq!(note.title(), Some("Heading"));
    let no_space = Note::from_text("Heading".to_string());
    assert_eq!(no_space.title(), None);
    let leading = Note::from_text(" x".to_string());
    assert_eq!(leading.title(), Some(""));
    let tab = Note::from_text("a\tb".to_string());
    assert_eq!(tab.title(), Some("a"));
}

#[test]
fn scratch_pad_note_is_flagged_with_its_icon() {
    let pad = Note::scratch_pad();
    assert!(pad.is_scratch_pad());
    assert_eq!(pad.icon(), SCRATCH_PAD_ICON);
    assert_eq!(pad.text, "");
    let plain = Note::default();
    assert!(!plain.is_scratch_pad());
    assert_eq!(plain.icon(), DEFAULT_ICON);
}

#[test]
fn id_generator_sorts_roughly_by_creation() {
    let mut gen = TimestampRandIdGen::new();
    let a = gen.next();
    let b = gen.next();
    let c = gen.next();
    assert!(a >> 24 < b >> 24 || a != b);
    assert!(b >> 24 < c >> 24 || b != c);
    assert_ne!(a, b);
    assert_ne!(b, c);
}

#[test]
fn clock_readings_stay_in_bounds() {
    let now = now_millis();
    assert!(now <= MAX_CLOCK_MILLIS);
    let local = to_local_date_time(now);
    assert!((now as i64) - 86_400_000 < local && local < (now as i64) + 86_400_000);
}

#[test]
fn pollable_task_reports_pending_value_then_disconnect() {
    let (tx, rx) = std::sync::mpsc::channel();
    let task = PollableTask::new(rx);
    match task.poll() {
        Ok(TaskState::Pending) => {}
        _ => panic!("nothing was sent yet"),
    }
    tx.send(42u64).unwrap();
    match task.poll() {
        Ok(TaskState::Completed(v)) => assert_eq!(v, 42),
        _ => panic!("a value was queued"),
    }
    drop(tx);
    match task.poll() {
        Err(PollError::ChannelDisconnected) => {}
        _ => panic!("the sender is gone"),
    }
}

#[test]
fn remove_subtree_detaches_exactly_the_region() {
    let mut tree: TreeStore<&str> = TreeStore::with_root(1, "root");
    tree.add_node(1, 10, "a").unwrap();
    tree.add_node(1, 11, "b").unwrap();
    tree.add_node(10, 20, "aa").unwrap();
    tree.add_node(20, 30, "aaa").unwrap();

    let sub = tree.remove_subtree(10).expect("inner node can be detached");
    assert_eq!(sub.root_key(), 10);
    assert_eq!(sub.root_node().value, "a");
    assert!(sub.get_node(20).is_some());
    assert!(sub.get_node(30).is_some());
    assert!(sub.get_node(11).is_none());

    assert!(tree.get_node(10).is_none());
    assert!(tree.get_node(20).is_none());
    assert!(tree.get_node(30).is_none());
    assert!(tree.get_node(11).is_some());
    assert_eq!(tree.get_children(1).unwrap().clone(), vec![11]);
}

#[test]
fn remove_subtree_refuses_root_and_unknown_keys() {
    let mut tree: TreeStore<&str> = TreeStore::with_root(1, "root");
    tree.add_node(1, 10, "a").unwrap();
    assert!(tree.remove_subtree(1).is_none());
    assert!(tree.remove_subtree(99).is_none());
    assert!(tree.get_node(10).is_some());
}
