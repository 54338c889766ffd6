use notes::app::{ApplicationConfig, Command, IoRequest, NonBlockingApplication};
use notes::cell::{MemoryCell, MemoryCellState};
use notes::data::{DataNode, DirEntry};
use notes::note::Note;

fn fresh_app() -> NonBlockingApplication {
    NonBlockingApplication::new(ApplicationConfig::default())
}

fn path(s: &str) -> String {
    s.to_string()
}

#[test]
fn first_read_submits_a_job_with_pending_cell() {
    let mut app = fresh_app();
    let p = path("/x/note.txt");
    let job = app.read_note_in_background(&p);
    assert_eq!(job, Some(IoRequest::ReadNote(p.clone())));
    match app.note_state(&p) {
        Some(MemoryCellState::PendingRead) => {}
        other => panic!("expected a pending cell, got {:?}", other),
    }
    assert!(app.get_note(&p).is_none());
}

#[test]
fn second_read_before_completion_is_a_no_op() {
    let mut app = fresh_app();
    let p = path("/x/note.txt");
    assert!(app.read_note_in_background(&p).is_some());
    assert_eq!(app.read_note_in_background(&p), None);
    assert_eq!(app.read_note_in_background(&p), None);
}

#[test]
fn polled_load_becomes_the_cached_value() {
    let mut app = fresh_app();
    let p = path("/x/note.txt");
    app.read_note_in_background(&p);
    app.poll_note_read(&p, Ok("contents of note.txt".to_string()));
    let node = app.get_note(&p).expect("cell must be ready");
    assert_eq!(node.data.text, "contents of note.txt");
    assert!(!node.dirty);
    match app.note_state(&p) {
        Some(MemoryCellState::Ready) => {}
        other => panic!("expected a ready cell, got {:?}", other),
    }
}

#[test]
fn failed_load_surfaces_as_buffered_error() {
    let mut app = fresh_app();
    let p = path("/gone.txt");
    app.read_note_in_background(&p);
    app.poll_note_read(&p, Err("failed to load".to_string()));
    assert!(app.get_note(&p).is_none());
    let errors = app.pop_errors();
    assert_eq!(errors, vec!["failed to load".to_string()]);
    assert!(app.pop_errors().is_empty());
    // a failed read may be retried
    assert!(app.read_note_in_background(&p).is_some());
}

#[test]
fn stale_completion_is_dropped() {
    let mut app = fresh_app();
    let p = path("/x/note.txt");
    app.read_note_in_background(&p);
    app.poll_note_read(&p, Ok("first".to_string()));
    // a duplicate completion for a ready cell changes nothing
    app.poll_note_read(&p, Ok("second".to_string()));
    assert_eq!(app.get_note(&p).unwrap().data.text, "first");
}

#[test]
fn save_captures_snapshot_and_rejects_second_submit() {
    let mut app = fresh_app();
    let p = path("/x/note.txt");
    app.read_note_in_background(&p);
    app.poll_note_read(&p, Ok("v1".to_string()));
    app.set_dirty(&p);
    let job = app.save_note_in_background(&p);
    match job {
        Some(IoRequest::WriteNote { path: jp, text }) => {
            assert_eq!(jp, p);
            assert_eq!(text, "v1");
        }
        other => panic!("expected a write job, got {:?}", other),
    }
    // one outstanding write per key: the second request is rejected
    assert!(app.save_note_in_background(&p).is_none());
    app.poll_note_saved(&p, Ok(()));
    assert!(!app.note_is_dirty(&p));
}

#[test]
fn edit_after_submit_keeps_dirty_flag() {
    let mut app = fresh_app();
    let p = path("/x/note.txt");
    app.read_note_in_background(&p);
    app.poll_note_read(&p, Ok("v1".to_string()));

    app.set_dirty(&p);
    let job = app.save_note_in_background(&p);
    assert!(job.is_some());
    // edit lands while the write is in flight
    app.set_dirty(&p);
    app.poll_note_saved(&p, Ok(()));

    // the edit after submit is not lost: still dirty, needs another save
    assert!(app.note_is_dirty(&p));
    let again = app.save_note_in_background(&p);
    assert!(again.is_some());
    app.poll_note_saved(&p, Ok(()));
    assert!(!app.note_is_dirty(&p));
}

#[test]
fn failed_save_preserves_value_and_dirty() {
    let mut app = fresh_app();
    let p = path("/x/note.txt");
    app.read_note_in_background(&p);
    app.poll_note_read(&p, Ok("precious".to_string()));
    app.set_dirty(&p);
    app.save_note_in_background(&p);
    app.poll_note_saved(&p, Err("disk full".to_string()));

    let node = app.get_note(&p).expect("value survives a failed save");
    assert_eq!(node.data.text, "precious");
    assert!(app.note_is_dirty(&p));
    assert_eq!(app.pop_errors(), vec!["disk full".to_string()]);
}

#[test]
fn save_then_reload_round_trip_yields_saved_text() {
    let mut app = fresh_app();
    let p = path("/x/note.txt");
    app.read_note_in_background(&p);
    app.poll_note_read(&p, Ok("payload".to_string()));
    app.set_dirty(&p);

    let job = app.save_note_in_background(&p).expect("save submits");
    let written = match job {
        IoRequest::WriteNote { text, .. } => text,
        other => panic!("expected a write job, got {:?}", other),
    };
    app.poll_note_saved(&p, Ok(()));
    app.evict_note(&p);
    assert!(app.get_note(&p).is_none());

    assert!(app.read_note_in_background(&p).is_some());
    // the backing store hands back exactly what the save wrote
    app.poll_note_read(&p, Ok(written));
    assert_eq!(app.get_note(&p).unwrap().data.text, "payload");
}

#[test]
fn round_trip_law_driver_restores_the_text() {
    let mut app = fresh_app();
    let p = path("/x/note.txt");
    app.read_note_in_background(&p);
    app.poll_note_read(&p, Ok("kept".to_string()));
    app.save_reload_round_trip(&p);
    assert_eq!(app.get_note(&p).unwrap().data.text, "kept");
    assert!(!app.note_is_dirty(&p));
}

#[test]
fn directory_listing_is_cached_after_poll() {
    let mut app = fresh_app();
    let p = path("notes");
    assert!(app.read_dir_in_background(&p).is_some());
    let entries = vec![
        ("a.txt".to_string(), DirEntry::File("notes/a.txt".to_string())),
        ("sub".to_string(), DirEntry::Dir("notes/sub".to_string())),
    ];
    app.poll_dir_read(&p, Ok(entries));
    let dir = app.get_dir(&p).expect("listing must be ready");
    assert_eq!(dir.data.entries.len(), 2);
    assert!(app.dir_in_memory(&p));
}

#[test]
fn selection_follows_current_note_path() {
    let mut app = fresh_app();
    let scratch = app.scratch_pad_path().clone();
    assert!(app.is_selected(&scratch));
    app.set_current_note_path(path("/x/other.txt"));
    assert!(!app.is_selected(&scratch));
    assert!(app.is_selected(&path("/x/other.txt")));
}

#[test]
fn commands_map_to_store_operations() {
    let mut app = fresh_app();
    let p = path("/cmd/note.txt");
    let jobs = app.handle_command(Command::ReadAndSelectNote(p.clone()));
    assert_eq!(jobs.len(), 1);
    assert!(app.is_selected(&p));
    app.poll_note_read(&p, Ok("text".to_string()));

    // not dirty yet: SaveNote does nothing
    let jobs = app.handle_command(Command::SaveNote(p.clone()));
    assert!(jobs.is_empty());

    let jobs = app.handle_command(Command::MarkChanged(p.clone()));
    assert!(jobs.is_empty());
    assert!(app.note_is_dirty(&p));

    let jobs = app.handle_command(Command::SaveNote(p.clone()));
    assert_eq!(jobs.len(), 1);

    let d = path("/cmd");
    let jobs = app.handle_command(Command::ReadDir(d.clone()));
    assert_eq!(jobs.len(), 1);
    let jobs = app.handle_command(Command::ReadDir(d.clone()));
    assert!(jobs.is_empty());
}

#[test]
fn cell_state_mapping_matches_the_display_rule() {
    let pending: MemoryCell<DataNode<Note>> = MemoryCell::PendingRead;
    let read_err: MemoryCell<DataNode<Note>> = MemoryCell::ReadError("e".to_string());
    let value = MemoryCell::Value(DataNode::new(Note::from_text("t".to_string())));
    let write_err = MemoryCell::ValueWriteError(
        DataNode::new(Note::from_text("t".to_string())),
        "e".to_string(),
    );
    assert_eq!(MemoryCellState::state_of_cell(&pending), MemoryCellState::PendingRead);
    assert_eq!(MemoryCellState::state_of_cell(&read_err), MemoryCellState::Error);
    assert_eq!(MemoryCellState::state_of_cell(&write_err), MemoryCellState::Error);
    assert_eq!(MemoryCellState::state_of_cell(&value), MemoryCellState::Ready);

    assert!(pending.value().is_none());
    assert!(read_err.value().is_none());
    assert_eq!(value.value().unwrap().data.text, "t");
    assert_eq!(write_err.value().unwrap().data.text, "t");
}

#[test]
fn scratch_pad_accessors_use_configured_path() {
    let mut app = fresh_app();
    let scratch = app.scratch_pad_path().clone();
    assert!(app.scratch_pad().is_none());
    app.read_note_in_background(&scratch);
    app.poll_note_read(&scratch, Ok("pad".to_string()));
    assert_eq!(app.scratch_pad().unwrap().data.text, "pad");
    app.scratch_pad_mut().unwrap().data.text.push('!');
    assert_eq!(app.scratch_pad().unwrap().data.text, "pad!");
}

#[test]
fn value_mut_preserves_the_write_error_variant() {
    let mut cell = MemoryCell::ValueWriteError(
        DataNode::new(Note::from_text("kept".to_string())),
        "disk full".to_string(),
    );
    cell.value_mut().unwrap().data.text.push('!');
    match cell {
        MemoryCell::ValueWriteError(node, err) => {
            assert_eq!(node.data.text, "kept!");
            assert_eq!(err, "disk full");
        }
        _ => panic!("the variant must be preserved"),
    }
}
