use vstd::prelude::*;
use crate::cell::MemoryCell;
use crate::cell::MemoryCellState;
use crate::data::DataNode;
use crate::data::Directory;
use crate::data::DirEntry;
use crate::data::entry_map_of;
use crate::data::FileMetadata;
use crate::kvmap::PathMap;
use crate::note::Note;
use crate::note::DEFAULT_ICON;

verus! {

/// The cached knowledge of the file system: per-path cells for directory
/// listings, notes, and file metadata.
pub struct FileMemory {
    pub dirs: PathMap<MemoryCell<DataNode<Directory>>>,
    pub notes: PathMap<MemoryCell<DataNode<Note>>>,
    pub metadata: PathMap<MemoryCell<FileMetadata>>,
}

impl FileMemory {
    pub open spec fn wf(&self) -> bool {
        self.dirs.wf() && self.notes.wf() && self.metadata.wf()
    }
}

impl Default for FileMemory {
    fn default() -> (r: Self)
        ensures
            r.wf(),
            r.dirs@ == Map::<Seq<char>, MemoryCell<DataNode<Directory>>>::empty(),
            r.notes@ == Map::<Seq<char>, MemoryCell<DataNode<Note>>>::empty(),
            r.metadata@ == Map::<Seq<char>, MemoryCell<FileMetadata>>::empty(),
    {
        FileMemory { dirs: PathMap::new(), notes: PathMap::new(), metadata: PathMap::new() }
    }
}

/// Where the notes live: the base directory and the scratch pad's file,
/// as paths understood by the surrounding I/O layer.
#[derive(Debug)]
pub struct LocationConfig {
    pub base_path: String,
    pub scratch_pad_path: String,
}

impl Clone for LocationConfig {
    fn clone(&self) -> (r: Self)
        ensures
            r == *self,
    {
        LocationConfig {
            base_path: self.base_path.clone(),
            scratch_pad_path: self.scratch_pad_path.clone(),
        }
    }
}

impl Default for LocationConfig {
    fn default() -> (r: Self)
        ensures
            r.base_path@ == "notes"@,
            r.scratch_pad_path@ == "notes/.scratchpad"@,
    {
        LocationConfig {
            base_path: String::from_str("notes"),
            scratch_pad_path: String::from_str("notes/.scratchpad"),
        }
    }
}

#[derive(Debug)]
pub struct ApplicationConfig {
    pub location: LocationConfig,
    pub autosave: bool,
}

impl Clone for ApplicationConfig {
    fn clone(&self) -> (r: Self)
        ensures
            r == *self,
    {
        ApplicationConfig { location: self.location.clone(), autosave: self.autosave }
    }
}

impl Default for ApplicationConfig {
    fn default() -> (r: Self)
        ensures
            r.autosave == true,
            r.location.base_path@ == "notes"@,
            r.location.scratch_pad_path@ == "notes/.scratchpad"@,
    {
        ApplicationConfig { location: LocationConfig::default(), autosave: true }
    }
}

/// The state the polling thread owns: cached cells, the selected note, and
/// the configuration.
pub struct ApplicationState {
    pub memory: FileMemory,
    pub current_note_path: String,
    pub config: ApplicationConfig,
}

/// A command from the presentation layer, keyed by path.
#[derive(Debug)]
pub enum Command {
    ReadAndSelectNote(String),
    ReadDir(String),
    CreateNote(String),
    DeleteNote(String),
    DeleteDir(String),
    CreateNoteThenSelect(String),
    CreateSubDir(String),
    MarkChanged(String),
    SaveNote(String),
}

/// An I/O job the caller must run on the executor; the library never blocks.
#[derive(Debug, PartialEq, Eq)]
pub enum IoRequest {
    ReadNote(String),
    ReadDir(String),
    WriteNote { path: String, text: String },
}

/// Presentation state that is not part of the store.
pub struct UiState {
    pub explorer_layout: ExplorerLayout,
    pub explorer: bool,
    pub egui_settings: bool,
    pub trash: bool,
}

#[derive(Debug, PartialEq, Eq, Structural)]
pub enum ExplorerLayout {
    Windowed,
    SideBar,
}

impl Default for ExplorerLayout {
    fn default() -> (r: Self)
        ensures
            r == ExplorerLayout::SideBar,
    {
        ExplorerLayout::SideBar
    }
}

impl Default for UiState {
    fn default() -> (r: Self)
        ensures
            r.explorer == true,
            r.egui_settings == false,
            r.trash == false,
            r.explorer_layout == ExplorerLayout::SideBar,
    {
        UiState {
            explorer: true,
            egui_settings: false,
            explorer_layout: ExplorerLayout::default(),
            trash: false,
        }
    }
}

/// The next value of a cell's edit counter.
pub open spec fn bump(v: u64) -> u64 {
    if v == u64::MAX {
        0
    } else {
        (v + 1) as u64
    }
}

/// Whether a read for `p` must not be submitted: a cell exists and is not a
/// failed read.  A `ReadError` cell may be retried.
pub open spec fn note_read_blocked<T>(m: Map<Seq<char>, MemoryCell<T>>, p: Seq<char>) -> bool {
    m.contains_key(p) && !(m[p] is ReadError)
}

/// The non-blocking facade, without its executor: every operation either
/// changes cached state synchronously or hands back a job description for
/// the caller to run in the background.  Completions come back through the
/// `poll_*` operations, once per tick.
pub struct NonBlockingApplication {
    state: ApplicationState,
    pending_note_writes: PathMap<u64>,
    error_msg: Vec<String>,
}

impl NonBlockingApplication {
    pub closed spec fn notes_spec(&self) -> Map<Seq<char>, MemoryCell<DataNode<Note>>> {
        self.state.memory.notes@
    }

    pub closed spec fn dirs_spec(&self) -> Map<Seq<char>, MemoryCell<DataNode<Directory>>> {
        self.state.memory.dirs@
    }

    pub closed spec fn current_spec(&self) -> Seq<char> {
        self.state.current_note_path@
    }

    pub closed spec fn config_spec(&self) -> ApplicationConfig {
        self.state.config
    }

    /// Outstanding write jobs: for each path, the edit counter at submit
    /// time.  At most one write per key is in flight.
    pub closed spec fn writes_spec(&self) -> Map<Seq<char>, u64> {
        self.pending_note_writes@
    }

    pub closed spec fn errors_spec(&self) -> Seq<String> {
        self.error_msg@
    }

    pub closed spec fn wf(&self) -> bool {
        self.state.memory.wf() && self.pending_note_writes.wf()
    }

    /// Nothing but the note cells changed.
    pub open spec fn notes_frame(pre: Self, post: Self) -> bool {
        &&& post.dirs_spec() == pre.dirs_spec()
        &&& post.current_spec() == pre.current_spec()
        &&& post.config_spec() == pre.config_spec()
        &&& post.writes_spec() == pre.writes_spec()
        &&& post.errors_spec() == pre.errors_spec()
    }

    pub fn new(config: ApplicationConfig) -> (r: Self)
        ensures
            r.wf(),
            r.notes_spec() == Map::<Seq<char>, MemoryCell<DataNode<Note>>>::empty(),
            r.dirs_spec() == Map::<Seq<char>, MemoryCell<DataNode<Directory>>>::empty(),
            r.writes_spec() == Map::<Seq<char>, u64>::empty(),
            r.errors_spec() == Seq::<String>::empty(),
            r.current_spec() == config.location.scratch_pad_path@,
            r.config_spec() == config,
    {
        let current = config.location.scratch_pad_path.clone();
        NonBlockingApplication {
            state: ApplicationState {
                memory: FileMemory::default(),
                current_note_path: current,
                config,
            },
            pending_note_writes: PathMap::new(),
            error_msg: Vec::new(),
        }
    }

    pub fn current_note_path(&self) -> (r: &String)
        ensures
            r@ == self.current_spec(),
    {
        &self.state.current_note_path
    }

    pub fn set_current_note_path(&mut self, path: String)
        ensures
            final(self).current_spec() == path@,
            final(self).notes_spec() == old(self).notes_spec(),
            final(self).dirs_spec() == old(self).dirs_spec(),
            final(self).writes_spec() == old(self).writes_spec(),
            final(self).errors_spec() == old(self).errors_spec(),
            final(self).config_spec() == old(self).config_spec(),
            final(self).wf() == old(self).wf(),
    {
        self.state.current_note_path = path;
    }

    pub fn base_dir_path(&self) -> (r: &String)
        ensures
            r@ == self.config_spec().location.base_path@,
    {
        &self.state.config.location.base_path
    }

    pub fn scratch_pad_path(&self) -> (r: &String)
        ensures
            r@ == self.config_spec().location.scratch_pad_path@,
    {
        &self.state.config.location.scratch_pad_path
    }

    pub fn is_selected(&self, path: &String) -> (b: bool)
        ensures
            b == (self.current_spec() == path@),
    {
        self.state.current_note_path == *path
    }

    /// The buffered error messages, oldest first; the buffer is emptied.
    pub fn pop_errors(&mut self) -> (r: Vec<String>)
        ensures
            r@ == old(self).errors_spec(),
            final(self).errors_spec() == Seq::<String>::empty(),
            final(self).notes_spec() == old(self).notes_spec(),
            final(self).dirs_spec() == old(self).dirs_spec(),
            final(self).writes_spec() == old(self).writes_spec(),
            final(self).current_spec() == old(self).current_spec(),
            final(self).config_spec() == old(self).config_spec(),
            final(self).wf() == old(self).wf(),
    {
        let mut out: Vec<String> = Vec::new();
        core::mem::swap(&mut out, &mut self.error_msg);
        out
    }

    pub fn get_note_cell(&self, path: &String) -> (r: Option<&MemoryCell<DataNode<Note>>>)
        requires
            self.wf(),
        ensures
            match r {
                Some(c) => self.notes_spec().contains_key(path@) && *c == self.notes_spec()[path@],
                None => !self.notes_spec().contains_key(path@),
            },
    {
        self.state.memory.notes.get(path)
    }

    pub fn get_note(&self, path: &String) -> (r: Option<&DataNode<Note>>)
        requires
            self.wf(),
        ensures
            match r {
                Some(v) => self.notes_spec().contains_key(path@)
                    && self.notes_spec()[path@].has_value() && *v
                    == self.notes_spec()[path@].value_spec(),
                None => !self.notes_spec().contains_key(path@) || !self.notes_spec()[
                    path@].has_value(),
            },
    {
        match self.get_note_cell(path) {
            Some(cell) => cell.value(),
            None => None,
        }
    }

    pub fn note_state(&self, path: &String) -> (r: Option<MemoryCellState>)
        requires
            self.wf(),
        ensures
            match r {
                Some(st) => self.notes_spec().contains_key(path@) && st
                    == MemoryCellState::spec_state_of(self.notes_spec()[path@]),
                None => !self.notes_spec().contains_key(path@),
            },
    {
        match self.get_note_cell(path) {
            Some(cell) => Some(MemoryCellState::state_of_cell(cell)),
            None => None,
        }
    }

    pub fn scratch_pad(&self) -> (r: Option<&DataNode<Note>>)
        requires
            self.wf(),
        ensures
            match r {
                Some(v) => {
                    let p = self.config_spec().location.scratch_pad_path@;
                    self.notes_spec().contains_key(p) && self.notes_spec()[p].has_value() && *v
                        == self.notes_spec()[p].value_spec()
                },
                None => {
                    let p = self.config_spec().location.scratch_pad_path@;
                    !self.notes_spec().contains_key(p) || !self.notes_spec()[p].has_value()
                },
            },
    {
        match self.state.memory.notes.get(&self.state.config.location.scratch_pad_path) {
            Some(cell) => cell.value(),
            None => None,
        }
    }

    /// Whether a cached note is present but without a usable value yet.
    pub fn note_is_pending(&self, path: &String) -> (b: bool)
        requires
            self.wf(),
        ensures
            b == !(self.notes_spec().contains_key(path@) && self.notes_spec()[
                path@].has_value()),
    {
        match self.get_note(path) {
            Some(_) => false,
            None => true,
        }
    }

    pub fn note_in_memory(&self, path: &String) -> (b: bool)
        ensures
            b == self.notes_spec().contains_key(path@),
    {
        self.state.memory.notes.contains_key(path)
    }

    pub fn dir_in_memory(&self, path: &String) -> (b: bool)
        ensures
            b == self.dirs_spec().contains_key(path@),
    {
        self.state.memory.dirs.contains_key(path)
    }

    pub fn get_dir(&self, path: &String) -> (r: Option<&DataNode<Directory>>)
        requires
            self.wf(),
        ensures
            match r {
                Some(v) => self.dirs_spec().contains_key(path@) && self.dirs_spec()[
                    path@].has_value() && *v == self.dirs_spec()[path@].value_spec(),
                None => !self.dirs_spec().contains_key(path@) || !self.dirs_spec()[
                    path@].has_value(),
            },
    {
        match self.state.memory.dirs.get(path) {
            Some(cell) => cell.value(),
            None => None,
        }
    }

    pub fn base_dir(&self) -> (r: Option<&DataNode<Directory>>)
        requires
            self.wf(),
        ensures
            match r {
                Some(v) => {
                    let p = self.config_spec().location.base_path@;
                    self.dirs_spec().contains_key(p) && self.dirs_spec()[p].has_value() && *v
                        == self.dirs_spec()[p].value_spec()
                },
                None => {
                    let p = self.config_spec().location.base_path@;
                    !self.dirs_spec().contains_key(p) || !self.dirs_spec()[p].has_value()
                },
            },
    {
        match self.state.memory.dirs.get(&self.state.config.location.base_path) {
            Some(cell) => cell.value(),
            None => None,
        }
    }

    pub fn get_note_mut(&mut self, path: &String) -> (r: Option<&mut DataNode<Note>>)
        requires
            old(self).wf(),
        ensures
            match r {
                Some(v) => old(self).notes_spec().contains_key(path@) && old(self).notes_spec()[
                    path@].has_value() && *v == old(self).notes_spec()[path@].value_spec()
                    && final(self).wf() && final(self).notes_spec() == old(self).notes_spec().insert(
                    path@,
                    old(self).notes_spec()[path@].with_value(*final(v)),
                ) && Self::notes_frame(*old(self), *final(self)),
                None => (!old(self).notes_spec().contains_key(path@) || !old(self).notes_spec()[
                    path@].has_value()) && final(self).wf() && final(self).notes_spec()
                    =~= old(self).notes_spec() && Self::notes_frame(*old(self), *final(self)),
            },
    {
        match self.state.memory.notes.get_mut(path) {
            Some(cell) => cell.value_mut(),
            None => None,
        }
    }

    pub fn scratch_pad_mut(&mut self) -> (r: Option<&mut DataNode<Note>>)
        requires
            old(self).wf(),
        ensures
            match r {
                Some(v) => {
                    let p = old(self).config_spec().location.scratch_pad_path@;
                    old(self).notes_spec().contains_key(p) && old(self).notes_spec()[
                        p].has_value() && *v == old(self).notes_spec()[p].value_spec() && final(self).wf() && final(self).notes_spec() == old(self).notes_spec().insert(
                        p,
                        old(self).notes_spec()[p].with_value(*final(v)),
                    ) && Self::notes_frame(*old(self), *final(self))
                },
                None => {
                    let p = old(self).config_spec().location.scratch_pad_path@;
                    (!old(self).notes_spec().contains_key(p) || !old(self).notes_spec()[
                        p].has_value()) && final(self).wf() && final(self).notes_spec()
                        =~= old(self).notes_spec() && Self::notes_frame(*old(self), *final(self))
                },
            },
    {
        match self.state.memory.notes.get_mut(&self.state.config.location.scratch_pad_path) {
            Some(cell) => cell.value_mut(),
            None => None,
        }
    }

    pub fn note_is_dirty(&self, path: &String) -> (b: bool)
        requires
            self.wf(),
        ensures
            b == (self.notes_spec().contains_key(path@) && self.notes_spec()[path@].has_value()
                && self.notes_spec()[path@].value_spec().dirty),
    {
        match self.get_note(path) {
            Some(node) => node.dirty,
            None => false,
        }
    }

    /// Mark the cached note as edited: set the dirty flag and advance the
    /// edit counter, so that a save submitted before this edit cannot clear
    /// the flag.  A path without a usable value is left untouched.
    pub fn set_dirty(&mut self, path: &String)
        requires
            old(self).wf(),
        ensures
            final(self).wf(),
            Self::notes_frame(*old(self), *final(self)),
            old(self).notes_spec().contains_key(path@) && old(self).notes_spec()[
                path@].has_value() ==> {
                let oldnode = old(self).notes_spec()[path@].value_spec();
                final(self).notes_spec() == old(self).notes_spec().insert(
                    path@,
                    old(self).notes_spec()[path@].with_value(
                        DataNode {
                            data: oldnode.data,
                            dirty: true,
                            version: bump(oldnode.version),
                            deleted_metadata: oldnode.deleted_metadata,
                        },
                    ),
                )
            },
            !(old(self).notes_spec().contains_key(path@) && old(self).notes_spec()[
                path@].has_value()) ==> final(self).notes_spec() == old(self).notes_spec(),
    {
        match self.get_note_mut(path) {
            Some(node) => {
                node.dirty = true;
                node.version = if node.version == u64::MAX {
                    0
                } else {
                    node.version + 1
                };
            },
            None => {},
        }
    }

    /// Ask for a note to be loaded.  Idempotent while a read is pending or a
    /// value is cached: the returned job is `None` and nothing changes, so a
    /// second call before the first completion submits no second job.  A
    /// failed read (`ReadError`) may be retried.
    pub fn read_note_in_background(&mut self, path: &String) -> (r: Option<IoRequest>)
        requires
            old(self).wf(),
        ensures
            final(self).wf(),
            Self::notes_frame(*old(self), *final(self)),
            note_read_blocked(old(self).notes_spec(), path@) ==> r is None && *final(self) == *old(self),
            !note_read_blocked(old(self).notes_spec(), path@) ==> r == Some(
                IoRequest::ReadNote(*path),
            ) && final(self).notes_spec() == old(self).notes_spec().insert(
                path@,
                MemoryCell::PendingRead,
            ),
    {
        let blocked = match self.state.memory.notes.get(path) {
            Some(cell) => match cell {
                MemoryCell::ReadError(_) => false,
                _ => true,
            },
            None => false,
        };
        if blocked {
            return None;
        }
        self.state.memory.notes.insert(path.clone(), MemoryCell::PendingRead);
        Some(IoRequest::ReadNote(path.clone()))
    }

    /// Ask for a directory to be listed; same idempotence as for notes.
    pub fn read_dir_in_background(&mut self, path: &String) -> (r: Option<IoRequest>)
        requires
            old(self).wf(),
        ensures
            final(self).wf(),
            final(self).notes_spec() == old(self).notes_spec(),
            final(self).current_spec() == old(self).current_spec(),
            final(self).config_spec() == old(self).config_spec(),
            final(self).writes_spec() == old(self).writes_spec(),
            final(self).errors_spec() == old(self).errors_spec(),
            note_read_blocked(old(self).dirs_spec(), path@) ==> r is None && *final(self) == *old(self),
            !note_read_blocked(old(self).dirs_spec(), path@) ==> r == Some(
                IoRequest::ReadDir(*path),
            ) && final(self).dirs_spec() == old(self).dirs_spec().insert(
                path@,
                MemoryCell::PendingRead,
            ),
    {
        let blocked = match self.state.memory.dirs.get(path) {
            Some(cell) => match cell {
                MemoryCell::ReadError(_) => false,
                _ => true,
            },
            None => false,
        };
        if blocked {
            return None;
        }
        self.state.memory.dirs.insert(path.clone(), MemoryCell::PendingRead);
        Some(IoRequest::ReadDir(path.clone()))
    }

    /// Drop the cached cell for a note, if any.  A completion that lands
    /// afterwards is ignored by `poll_note_read`.
    pub fn evict_note(&mut self, path: &String)
        requires
            old(self).wf(),
        ensures
            final(self).wf(),
            Self::notes_frame(*old(self), *final(self)),
            final(self).notes_spec() == old(self).notes_spec().remove(path@),
    {
        let _ = self.state.memory.notes.remove(path);
    }

    /// Apply a completed load for `path`.  Only a cell still waiting in
    /// `PendingRead` is affected: loaded text becomes a clean `Value` cell,
    /// a failure becomes `ReadError` and its message is buffered.  Stale
    /// completions (after eviction or a later transition) are dropped.
    pub fn poll_note_read(&mut self, path: &String, result: Result<String, String>)
        requires
            old(self).wf(),
        ensures
            final(self).wf(),
            final(self).dirs_spec() == old(self).dirs_spec(),
            final(self).current_spec() == old(self).current_spec(),
            final(self).config_spec() == old(self).config_spec(),
            final(self).writes_spec() == old(self).writes_spec(),
            !(old(self).notes_spec().contains_key(path@) && old(self).notes_spec()[path@]
                is PendingRead) ==> *final(self) == *old(self),
            (old(self).notes_spec().contains_key(path@) && old(self).notes_spec()[path@]
                is PendingRead) ==> match result {
                Ok(text) => {
                    &&& final(self).notes_spec().contains_key(path@)
                    &&& final(self).notes_spec()[path@] is Value
                    &&& final(self).notes_spec()[path@].value_spec().data.text == text
                    &&& final(self).notes_spec()[path@].value_spec().data.metadata.icon@
                        == DEFAULT_ICON@
                    &&& final(self).notes_spec()[path@].value_spec().dirty == false
                    &&& final(self).notes_spec()[path@].value_spec().version == 0
                    &&& forall|x: Seq<char>|
                        x != path@ ==> (#[trigger] final(self).notes_spec().contains_key(x)
                            <==> old(self).notes_spec().contains_key(x)) && (old(self).notes_spec().contains_key(x) ==> final(self).notes_spec()[x] == old(self).notes_spec()[x])
                    &&& final(self).errors_spec() == old(self).errors_spec()
                },
                Err(e) => {
                    &&& final(self).notes_spec() == old(self).notes_spec().insert(
                        path@,
                        MemoryCell::ReadError(e),
                    )
                    &&& final(self).errors_spec().len() == old(self).errors_spec().len() + 1
                    &&& final(self).errors_spec().last()@ == e@
                    &&& final(self).errors_spec().take(old(self).errors_spec().len() as int)
                        == old(self).errors_spec()
                },
            },
    {
        let waiting = match self.state.memory.notes.get(path) {
            Some(cell) => match cell {
                MemoryCell::PendingRead => true,
                _ => false,
            },
            None => false,
        };
        if !waiting {
            return ;
        }
        match result {
            Ok(text) => {
                let node = DataNode::new(Note::from_text(text));
                self.state.memory.notes.insert(path.clone(), MemoryCell::Value(node));
            },
            Err(e) => {
                let msg = e.clone();
                self.state.memory.notes.insert(path.clone(), MemoryCell::ReadError(e));
                self.error_msg.push(msg);
                proof {
                    assert(self.error_msg@.take(old(self).error_msg@.len() as int) =~= old(self).error_msg@);
                }
            },
        }
    }

    /// Apply a completed directory listing, as `poll_note_read` does for
    /// notes.
    pub fn poll_dir_read(&mut self, path: &String, result: Result<
        Vec<(String, DirEntry)>,
        String,
    >)
        requires
            old(self).wf(),
        ensures
            final(self).wf(),
            final(self).notes_spec() == old(self).notes_spec(),
            final(self).current_spec() == old(self).current_spec(),
            final(self).config_spec() == old(self).config_spec(),
            final(self).writes_spec() == old(self).writes_spec(),
            !(old(self).dirs_spec().contains_key(path@) && old(self).dirs_spec()[path@]
                is PendingRead) ==> *final(self) == *old(self),
            (old(self).dirs_spec().contains_key(path@) && old(self).dirs_spec()[path@]
                is PendingRead) ==> match result {
                Ok(list) => {
                    &&& final(self).dirs_spec().contains_key(path@)
                    &&& final(self).dirs_spec()[path@] is Value
                    &&& final(self).dirs_spec()[path@].value_spec().data.entries@ == entry_map_of(
                        list@,
                    )
                    &&& final(self).dirs_spec()[path@].value_spec().dirty == false
                    &&& forall|x: Seq<char>|
                        x != path@ ==> (#[trigger] final(self).dirs_spec().contains_key(x) <==> old(self).dirs_spec().contains_key(x)) && (old(self).dirs_spec().contains_key(x)
                            ==> final(self).dirs_spec()[x] == old(self).dirs_spec()[x])
                    &&& final(self).errors_spec() == old(self).errors_spec()
                },
                Err(e) => {
                    &&& final(self).dirs_spec() == old(self).dirs_spec().insert(
                        path@,
                        MemoryCell::ReadError(e),
                    )
                    &&& final(self).errors_spec().len() == old(self).errors_spec().len() + 1
                    &&& final(self).errors_spec().last()@ == e@
                    &&& final(self).errors_spec().take(old(self).errors_spec().len() as int)
                        == old(self).errors_spec()
                },
            },
    {
        let waiting = match self.state.memory.dirs.get(path) {
            Some(cell) => match cell {
                MemoryCell::PendingRead => true,
                _ => false,
            },
            None => false,
        };
        if !waiting {
            return ;
        }
        match result {
            Ok(list) => {
                let node = DataNode::new(Directory::from_entries(list));
                self.state.memory.dirs.insert(path.clone(), MemoryCell::Value(node));
            },
            Err(e) => {
                let msg = e.clone();
                self.state.memory.dirs.insert(path.clone(), MemoryCell::ReadError(e));
                self.error_msg.push(msg);
                proof {
                    assert(self.error_msg@.take(old(self).error_msg@.len() as int) =~= old(
                        self,
                    ).error_msg@);
                }
            },
        }
    }

    /// Ask for the cached note to be written out.  The job carries a
    /// snapshot of the text as of this call, so later edits stay dirty and
    /// are covered by the next save.  At most one write per key is in
    /// flight: while one is, the request is rejected with `None` and the
    /// caller retries after polling (the dirty flag still marks the note).
    /// A cell holding its value beside a failed save may be submitted
    /// again: that is the retry path that keeps edits recoverable.
    pub fn save_note_in_background(&mut self, path: &String) -> (r: Option<IoRequest>)
        requires
            old(self).wf(),
            old(self).notes_spec().contains_key(path@),
            old(self).notes_spec()[path@].has_value(),
        ensures
            final(self).wf(),
            final(self).notes_spec() == old(self).notes_spec(),
            final(self).dirs_spec() == old(self).dirs_spec(),
            final(self).current_spec() == old(self).current_spec(),
            final(self).config_spec() == old(self).config_spec(),
            final(self).errors_spec() == old(self).errors_spec(),
            old(self).writes_spec().contains_key(path@) ==> r is None && final(self).writes_spec()
                == old(self).writes_spec(),
            !old(self).writes_spec().contains_key(path@) ==> r == Some(
                IoRequest::WriteNote {
                    path: *path,
                    text: old(self).notes_spec()[path@].value_spec().data.text,
                },
            ) && final(self).writes_spec() == old(self).writes_spec().insert(
                path@,
                old(self).notes_spec()[path@].value_spec().version,
            ),
    {
        if self.pending_note_writes.contains_key(path) {
            return None;
        }
        let (text, version) = match self.state.memory.notes.get(path) {
            Some(cell) => match cell.value() {
                Some(node) => (node.data.text.clone(), node.version),
                None => unreached(),
            },
            None => unreached(),
        };
        self.pending_note_writes.insert(path.clone(), version);
        Some(IoRequest::WriteNote { path: path.clone(), text })
    }

    /// Apply a completed save for `path`.  On success the dirty flag is
    /// cleared only when no edit happened after the submit (the counters
    /// match); the cell becomes a plain `Value` either way.  On failure the
    /// in-memory value and the dirty flag are preserved beside the error,
    /// and the message is buffered.  A completion with no matching
    /// outstanding write, or whose cell lost its value, only clears the
    /// bookkeeping.
    pub fn poll_note_saved(&mut self, path: &String, result: Result<(), String>)
        requires
            old(self).wf(),
        ensures
            final(self).wf(),
            final(self).dirs_spec() == old(self).dirs_spec(),
            final(self).current_spec() == old(self).current_spec(),
            final(self).config_spec() == old(self).config_spec(),
            !old(self).writes_spec().contains_key(path@) ==> *final(self) == *old(self),
            old(self).writes_spec().contains_key(path@) ==> final(self).writes_spec() == old(self).writes_spec().remove(path@),
            (old(self).writes_spec().contains_key(path@) && old(self).notes_spec().contains_key(path@) && old(self).notes_spec()[path@].has_value())
                ==> match result {
                Ok(()) => {
                    let oldnode = old(self).notes_spec()[path@].value_spec();
                    &&& final(self).notes_spec() == old(self).notes_spec().insert(
                        path@,
                        MemoryCell::Value(
                            DataNode {
                                data: oldnode.data,
                                dirty: oldnode.version != old(self).writes_spec()[path@]
                                    && oldnode.dirty,
                                version: oldnode.version,
                                deleted_metadata: oldnode.deleted_metadata,
                            },
                        ),
                    )
                    &&& final(self).errors_spec() == old(self).errors_spec()
                },
                Err(e) => {
                    let oldnode = old(self).notes_spec()[path@].value_spec();
                    &&& final(self).notes_spec() == old(self).notes_spec().insert(
                        path@,
                        MemoryCell::ValueWriteError(oldnode, e),
                    )
                    &&& final(self).errors_spec().len() == old(self).errors_spec().len() + 1
                    &&& final(self).errors_spec().last()@ == e@
                },
            },
            (old(self).writes_spec().contains_key(path@) && !(old(self).notes_spec().contains_key(path@) && old(self).notes_spec()[path@].has_value()))
                ==> final(self).notes_spec() == old(self).notes_spec() && final(self).errors_spec()
                == old(self).errors_spec(),
    {
        let submitted = match self.pending_note_writes.remove(path) {
            Some(v) => v,
            None => {
                return ;
            },
        };
        let node = match self.state.memory.notes.remove(path) {
            Some(cell) => match cell {
                MemoryCell::Value(node) => node,
                MemoryCell::ValueWriteError(node, _) => node,
                other => {
                    self.state.memory.notes.insert(path.clone(), other);
                    proof {
                        assert(final(self).notes_spec() =~= old(self).notes_spec());
                    }
                    return ;
                },
            },
            None => {
                return ;
            },
        };
        match result {
            Ok(()) => {
                let clean = DataNode {
                    dirty: node.version != submitted && node.dirty,
                    ..node
                };
                self.state.memory.notes.insert(path.clone(), MemoryCell::Value(clean));
                proof {
                    assert(final(self).notes_spec() =~= old(self).notes_spec().insert(
                        path@,
                        final(self).notes_spec()[path@],
                    ));
                }
            },
            Err(e) => {
                let msg = e.clone();
                self.state.memory.notes.insert(
                    path.clone(),
                    MemoryCell::ValueWriteError(node, e),
                );
                self.error_msg.push(msg);
                proof {
                    assert(final(self).notes_spec() =~= old(self).notes_spec().insert(
                        path@,
                        final(self).notes_spec()[path@],
                    ));
                }
            },
        }
    }

    /// Map one presentation command onto store operations, handing back the
    /// I/O jobs to run.  Creation and deletion commands are not part of this
    /// layer yet, as in the original surface.
    pub fn handle_command(&mut self, command: Command) -> (r: Vec<IoRequest>)
        requires
            old(self).wf(),
            !(command is CreateNote),
            !(command is DeleteNote),
            !(command is DeleteDir),
            !(command is CreateNoteThenSelect),
            !(command is CreateSubDir),
        ensures
            final(self).wf(),
            command is ReadAndSelectNote ==> {
                let p = command->ReadAndSelectNote_0;
                &&& final(self).current_spec() == p@
                &&& final(self).dirs_spec() == old(self).dirs_spec()
                &&& final(self).writes_spec() == old(self).writes_spec()
                &&& (note_read_blocked(old(self).notes_spec(), p@) ==> r@ == Seq::<
                    IoRequest,
                >::empty() && final(self).notes_spec() == old(self).notes_spec())
                &&& (!note_read_blocked(old(self).notes_spec(), p@) ==> r@ == seq![
                    IoRequest::ReadNote(p),
                ] && final(self).notes_spec() == old(self).notes_spec().insert(
                    p@,
                    MemoryCell::PendingRead,
                ))
            },
            command is ReadDir ==> {
                let p = command->ReadDir_0;
                &&& final(self).notes_spec() == old(self).notes_spec()
                &&& final(self).current_spec() == old(self).current_spec()
                &&& final(self).writes_spec() == old(self).writes_spec()
                &&& (old(self).dirs_spec().contains_key(p@) ==> r@ == Seq::<IoRequest>::empty()
                    && final(self).dirs_spec() == old(self).dirs_spec())
                &&& (!old(self).dirs_spec().contains_key(p@) ==> r@ == seq![
                    IoRequest::ReadDir(p),
                ] && final(self).dirs_spec() == old(self).dirs_spec().insert(
                    p@,
                    MemoryCell::PendingRead,
                ))
            },
            command is MarkChanged ==> {
                let p = command->MarkChanged_0;
                &&& r@ == Seq::<IoRequest>::empty()
                &&& Self::notes_frame(*old(self), *final(self))
                &&& ((old(self).notes_spec().contains_key(p@) && old(self).notes_spec()[
                    p@].has_value()) ==> final(self).notes_spec()[p@].has_value() && final(self).notes_spec()[p@].value_spec().dirty)
                &&& (!(old(self).notes_spec().contains_key(p@) && old(self).notes_spec()[
                    p@].has_value()) ==> final(self).notes_spec() == old(self).notes_spec())
            },
            command is SaveNote ==> {
                let p = command->SaveNote_0;
                let dirty = old(self).notes_spec().contains_key(p@) && old(self).notes_spec()[
                    p@].has_value() && old(self).notes_spec()[p@].value_spec().dirty;
                &&& final(self).notes_spec() == old(self).notes_spec()
                &&& final(self).dirs_spec() == old(self).dirs_spec()
                &&& final(self).current_spec() == old(self).current_spec()
                &&& (!dirty ==> r@ == Seq::<IoRequest>::empty() && final(self).writes_spec()
                    == old(self).writes_spec())
                &&& ((dirty && old(self).writes_spec().contains_key(p@)) ==> r@ == Seq::<
                    IoRequest,
                >::empty() && final(self).writes_spec() == old(self).writes_spec())
                &&& ((dirty && !old(self).writes_spec().contains_key(p@)) ==> r@ == seq![
                    IoRequest::WriteNote {
                        path: p,
                        text: old(self).notes_spec()[p@].value_spec().data.text,
                    },
                ] && final(self).writes_spec() == old(self).writes_spec().insert(
                    p@,
                    old(self).notes_spec()[p@].value_spec().version,
                ))
            },
    {
        let mut jobs: Vec<IoRequest> = Vec::new();
        match command {
            Command::ReadAndSelectNote(path) => {
                match self.read_note_in_background(&path) {
                    Some(job) => jobs.push(job),
                    None => {},
                }
                self.set_current_note_path(path);
            },
            Command::ReadDir(path) => {
                if !self.dir_in_memory(&path) {
                    match self.read_dir_in_background(&path) {
                        Some(job) => jobs.push(job),
                        None => {},
                    }
                }
            },
            Command::MarkChanged(path) => {
                self.set_dirty(&path);
            },
            Command::SaveNote(path) => {
                if self.note_is_dirty(&path) {
                    match self.save_note_in_background(&path) {
                        Some(job) => jobs.push(job),
                        None => {},
                    }
                }
            },
            _ => {
                proof {
                    assert(false);
                }
            },
        }
        jobs
    }

    /// Whether a read for this note is outstanding.
    pub fn is_note_pending(&self, path: &String) -> (b: bool)
        requires
            self.wf(),
        ensures
            b == (self.notes_spec().contains_key(path@) && self.notes_spec()[path@]
                is PendingRead),
    {
        match self.get_note_cell(path) {
            Some(cell) => match cell {
                MemoryCell::PendingRead => true,
                _ => false,
            },
            None => false,
        }
    }

    /// Whether a listing for this directory is outstanding.
    pub fn is_dir_pending(&self, path: &String) -> (b: bool)
        requires
            self.wf(),
        ensures
            b == (self.dirs_spec().contains_key(path@) && self.dirs_spec()[path@] is PendingRead),
    {
        match self.state.memory.dirs.get(path) {
            Some(cell) => match cell {
                MemoryCell::PendingRead => true,
                _ => false,
            },
            None => false,
        }
    }

    /// Whether a loaded note value is cached for this path.
    pub fn is_note_in_storage(&self, path: &String) -> (b: bool)
        requires
            self.wf(),
        ensures
            b == (self.notes_spec().contains_key(path@) && self.notes_spec()[path@].has_value()),
    {
        match self.get_note(path) {
            Some(_) => true,
            None => false,
        }
    }

    /// Whether a loaded listing is cached for this path.
    pub fn is_dir_in_storage(&self, path: &String) -> (b: bool)
        requires
            self.wf(),
        ensures
            b == (self.dirs_spec().contains_key(path@) && self.dirs_spec()[path@].has_value()),
    {
        match self.get_dir(path) {
            Some(_) => true,
            None => false,
        }
    }

    /// Pending reads are idempotent: once a read was submitted for a path
    /// (its cell stands in `PendingRead`), a further request for the same
    /// path is blocked, so `read_note_in_background` changes nothing and
    /// hands back no second job -- exactly one load stays outstanding.
    pub proof fn lemma_pending_read_idempotent<T>(m: Map<Seq<char>, MemoryCell<T>>, p: Seq<char>)
        requires
            m.contains_key(p),
            m[p] is PendingRead,
        ensures
            note_read_blocked(m, p),
    {
    }

    /// Once a completed load for a path has been drained (its cell became
    /// `Value`), the cell is no longer pending, it carries the loaded value,
    /// and the display state is `Ready` -- which is what `get_note` and
    /// `note_state` then report.
    pub proof fn lemma_drained_read_ready(s: Self, p: Seq<char>)
        requires
            s.notes_spec().contains_key(p),
            s.notes_spec()[p] is Value,
        ensures
            !(s.notes_spec()[p] is PendingRead),
            s.notes_spec()[p].has_value(),
            MemoryCellState::spec_state_of(s.notes_spec()[p]) == MemoryCellState::Ready,
    {
    }

    /// The round-trip law, driven through the real operations: submit a save
    /// for `path`, drain its successful completion, evict the cell, submit a
    /// fresh read, and drain a load that returns exactly the text the save
    /// job wrote.  The value cached at the end equals the text that was
    /// saved.
    pub fn save_reload_round_trip(&mut self, path: &String)
        requires
            old(self).wf(),
            old(self).notes_spec().contains_key(path@),
            old(self).notes_spec()[path@].has_value(),
            !old(self).writes_spec().contains_key(path@),
        ensures
            final(self).wf(),
            final(self).notes_spec().contains_key(path@),
            final(self).notes_spec()[path@] is Value,
            final(self).notes_spec()[path@].value_spec().data.text == old(self).notes_spec()[
                path@].value_spec().data.text,
            final(self).notes_spec()[path@].value_spec().dirty == false,
    {
        let job = self.save_note_in_background(path);
        match job {
            Some(IoRequest::WriteNote { path: _, text }) => {
                self.poll_note_saved(path, Ok(()));
                self.evict_note(path);
                let _ = self.read_note_in_background(path);
                self.poll_note_read(path, Ok(text));
            },
            _ => {
                proof {
                    assert(false);
                }
            },
        }
    }
}

} // verus!
