//! The database interface: errors, the operation logger and `Instance`.
//!
//! An operation of `Instance` that touches the disk is started by its method
//! (`write_pair`, `delete_pair`, ...), which returns an `Action`. The caller
//! performs a `Load`, `Save` or `Remove` on the file system, hands what came of
//! it back to `resume` as an `Event`, and goes on with the `Action` returned,
//! until a `Finish` carries the operation's result.
use crate::codec::{decode_entries, encode_entries, Entry};
use crate::file_manip::{
    has_key, is_first_index, lemma_first_index_unique, save_error, with_value, without_key, first_index,
    KnownFile, LoadOutcome, SaveOutcome,
};
use crate::text::{trim, trim_string};
use vstd::prelude::*;

verus! {

/// Every error that a database operation can report.
#[derive(Debug, Clone, Copy, PartialEq, Eq, Structural)]
pub enum TErrors {
    /// The file exists but contains no data.
    ContentsEmpty,
    /// Failed to read bytes from the file.
    ReadBytesError,
    /// Failed to write bytes to the file.
    WriteBytesError,
    /// Failed to clone a file handle.
    FileCloneError,
    /// A key index lookup returned no result.
    IndexError,
    /// A general file I/O error occurred.
    FileIOError,
    /// The file could not be created.
    FileCreateError,
    /// Failed to flush the file buffer.
    FlushError,
    /// Failed to read the working directory.
    DirError,
    /// Failed to create the temporary `.tmp` file.
    TempCreate,
    /// Failed to replace the `.tmp` file with the `.dat` file.
    TempReplace,
    /// Failed to rename a file.
    RenameError,
}

/// The log bucket that a recorded operation goes into.
#[derive(Debug, Clone, Copy, PartialEq, Eq, Structural)]
pub enum LoggerActions {
    Read,
    Added,
    Deleted,
    Updated,
}

/// The four buckets of a logger.
#[verifier::ext_equal]
pub struct LoggerView {
    pub read: Seq<Entry>,
    pub added: Seq<Entry>,
    pub deleted: Seq<Entry>,
    pub updated: Seq<Entry>,
}

impl LoggerView {
    pub open spec fn empty() -> LoggerView {
        LoggerView {
            read: Seq::empty(),
            added: Seq::empty(),
            deleted: Seq::empty(),
            updated: Seq::empty(),
        }
    }

    /// The logger with `e` appended to the bucket of `action`.
    pub open spec fn record(self, action: LoggerActions, e: Entry) -> LoggerView {
        match action {
            LoggerActions::Read => LoggerView { read: self.read.push(e), ..self },
            LoggerActions::Added => LoggerView { added: self.added.push(e), ..self },
            LoggerActions::Deleted => LoggerView { deleted: self.deleted.push(e), ..self },
            LoggerActions::Updated => LoggerView { updated: self.updated.push(e), ..self },
        }
    }

    /// The logger after recording `e` under `action` when logging is on.
    pub open spec fn record_if(self, on: bool, action: LoggerActions, e: Entry) -> LoggerView {
        if on {
            self.record(action, e)
        } else {
            self
        }
    }
}

/// Tracks the key-value pairs of every operation of a session, one bucket per
/// kind of operation.
pub struct Logger {
    read: Vec<(String, String)>,
    added: Vec<(String, String)>,
    deleted: Vec<(String, String)>,
    updated: Vec<(String, String)>,
}

impl View for Logger {
    type V = LoggerView;

    closed spec fn view(&self) -> LoggerView {
        LoggerView {
            read: self.read.deep_view(),
            added: self.added.deep_view(),
            deleted: self.deleted.deep_view(),
            updated: self.updated.deep_view(),
        }
    }
}

impl Default for Logger {
    /// A logger with all buckets empty.
    fn default() -> (r: Self)
        ensures
            r@ == LoggerView::empty(),
    {
        let r = Logger { read: Vec::new(), added: Vec::new(), deleted: Vec::new(), updated: Vec::new() };
        assert(r@ =~= LoggerView::empty());
        r
    }
}

impl Logger {
    /// The pairs that were read.
    pub fn get_read(&self) -> (r: &[(String, String)])
        ensures
            r.deep_view() == self@.read,
    {
        self.read.as_slice()
    }

    /// The pairs that were added.
    pub fn get_added(&self) -> (r: &[(String, String)])
        ensures
            r.deep_view() == self@.added,
    {
        self.added.as_slice()
    }

    /// The pairs that were deleted.
    pub fn get_deleted(&self) -> (r: &[(String, String)])
        ensures
            r.deep_view() == self@.deleted,
    {
        self.deleted.as_slice()
    }

    /// The pairs that were updated.
    pub fn get_updated(&self) -> (r: &[(String, String)])
        ensures
            r.deep_view() == self@.updated,
    {
        self.updated.as_slice()
    }

    /// Records a pair as read.
    pub fn add_read(&mut self, val: (String, String))
        ensures
            final(self)@ == old(self)@.record(LoggerActions::Read, (val.0@, val.1@)),
    {
        self.read.push(val);
        assert(self@ =~= old(self)@.record(LoggerActions::Read, (val.0@, val.1@)));
    }

    /// Records a pair as added.
    pub fn add_add(&mut self, val: (String, String))
        ensures
            final(self)@ == old(self)@.record(LoggerActions::Added, (val.0@, val.1@)),
    {
        self.added.push(val);
        assert(self@ =~= old(self)@.record(LoggerActions::Added, (val.0@, val.1@)));
    }

    /// Records a pair as deleted.
    pub fn add_deleted(&mut self, val: (String, String))
        ensures
            final(self)@ == old(self)@.record(LoggerActions::Deleted, (val.0@, val.1@)),
    {
        self.deleted.push(val);
        assert(self@ =~= old(self)@.record(LoggerActions::Deleted, (val.0@, val.1@)));
    }

    /// Records a pair as updated.
    pub fn add_updated(&mut self, val: (String, String))
        ensures
            final(self)@ == old(self)@.record(LoggerActions::Updated, (val.0@, val.1@)),
    {
        self.updated.push(val);
        assert(self@ =~= old(self)@.record(LoggerActions::Updated, (val.0@, val.1@)));
    }

    /// Routes a pair into the bucket that `logger_action` names.
    pub fn run_logger(&mut self, logger_action: LoggerActions, val: (String, String))
        ensures
            final(self)@ == old(self)@.record(logger_action, (val.0@, val.1@)),
    {
        match logger_action {
            LoggerActions::Read => self.add_read(val),
            LoggerActions::Added => self.add_add(val),
            LoggerActions::Deleted => self.add_deleted(val),
            LoggerActions::Updated => self.add_updated(val),
        }
    }
}


/// The operations of an `Instance` that go to disk.
#[derive(Debug, Clone, Copy, PartialEq, Eq, Structural)]
pub enum Operation {
    ReadData,
    WritePair,
    DeletePair,
    UpdatePair,
    FileBlank,
    WriteFileContents,
}

/// Where an operation in progress waits.
#[derive(Debug, Clone, Copy, PartialEq, Eq, Structural)]
pub enum Stage {
    /// No operation waits.
    Idle,
    /// For the file to be read from disk.
    Loading,
    /// For the missing file to be created empty.
    Creating,
    /// For the in-memory entries to be persisted.
    Saving,
    /// For the file to be deleted.
    Removing,
}

/// What an operation asks the caller to do next.
pub enum Action {
    /// Read the file at this path.
    Load(String),
    /// Write these bytes to a temporary file beside this path and rename it over it.
    Save(String, Vec<u8>),
    /// Delete the file at this path.
    Remove(String),
    /// The operation is over, with this result.
    Finish(Result<(), TErrors>),
}

/// An `Action` as the contracts see it.
pub enum ActionView {
    Load(Seq<char>),
    Save(Seq<char>, Seq<u8>),
    Remove(Seq<char>),
    Finish(Result<(), TErrors>),
}

impl View for Action {
    type V = ActionView;

    open spec fn view(&self) -> ActionView {
        match self {
            Action::Load(p) => ActionView::Load(p@),
            Action::Save(p, b) => ActionView::Save(p@, b@),
            Action::Remove(p) => ActionView::Remove(p@),
            Action::Finish(r) => ActionView::Finish(*r),
        }
    }
}

/// What came of the last `Action`.
pub enum Event {
    /// The result of a `Load`.
    Loaded(LoadOutcome),
    /// The result of a `Save`.
    Stored(SaveOutcome),
    /// Whether a `Remove` succeeded.
    Removed(bool),
}

/// The state of an `Instance` as the contracts see it.
#[verifier::ext_equal]
pub struct InstanceView {
    /// The path of the database file.
    pub path: Seq<char>,
    /// The entries in memory.
    pub content: Seq<Entry>,
    /// The active key.
    pub key: Seq<char>,
    /// The active value.
    pub value: Seq<char>,
    /// Whether operations are logged.
    pub log: bool,
    pub logger: LoggerView,
    /// Whether the entries in memory must be reloaded from disk before use.
    pub stale: bool,
    /// The operation in progress, or the last one.
    pub op: Operation,
    pub stage: Stage,
    /// The entries that `write_file_contents` has still to write.
    pub batch: Seq<Entry>,
}

/// `s` in reverse order.
pub open spec fn reversed(s: Seq<Entry>) -> Seq<Entry> {
    Seq::new(s.len(), |i: int| s[s.len() - 1 - i])
}

/// The value that `delete_pair` logs: the deleted value, or a note when the
/// database is empty or lacks the key.
pub open spec fn deleted_note(content: Seq<Entry>, key: Seq<char>) -> Seq<char> {
    if content.len() == 0 {
        "DB is empty"@
    } else if has_key(content, key) {
        content[first_index(content, key)].1
    } else {
        "DB read. Does not contain: "@ + key
    }
}

/// `write_pair` once the entries are current: log the pair as added, and
/// append it unless its key is already present.
pub open spec fn write_effect(v: InstanceView) -> InstanceView {
    InstanceView {
        logger: v.logger.record_if(v.log, LoggerActions::Added, (v.key, v.value)),
        content: if has_key(v.content, v.key) {
            v.content
        } else {
            v.content.push((v.key, v.value))
        },
        ..v
    }
}

/// `delete_pair` once the entries are current: log the pair (or a note) as
/// deleted and drop every entry with the key.
pub open spec fn delete_effect(v: InstanceView) -> InstanceView {
    InstanceView {
        logger: v.logger.record_if(
            v.log,
            LoggerActions::Deleted,
            (v.key, deleted_note(v.content, v.key)),
        ),
        content: without_key(v.content, v.key),
        ..v
    }
}

/// `update_pair` once the entries are current: set the value of the first
/// entry with the key, or append the pair, and log it as updated.
pub open spec fn update_effect(v: InstanceView) -> InstanceView {
    InstanceView {
        content: if has_key(v.content, v.key) {
            with_value(v.content, v.key, v.value)
        } else {
            v.content.push((v.key, v.value))
        },
        logger: v.logger.record_if(v.log, LoggerActions::Updated, (v.key, v.value)),
        ..v
    }
}

/// No operation waits any more.
pub open spec fn idle(v: InstanceView) -> InstanceView {
    InstanceView { stage: Stage::Idle, batch: Seq::empty(), ..v }
}

/// Ask for the entries to be persisted.
pub open spec fn save(v: InstanceView) -> (InstanceView, ActionView) {
    (InstanceView { stage: Stage::Saving, ..v }, ActionView::Save(v.path, encode_entries(v.content)))
}

/// Ask for the file to be read.
pub open spec fn load(v: InstanceView) -> (InstanceView, ActionView) {
    (InstanceView { stage: Stage::Loading, ..v }, ActionView::Load(v.path))
}

/// `write_file_contents` going on with its next pair: make it the active
/// pair (trimmed) and write it, until a pair needs the disk or none is left.
pub open spec fn next_in_batch(v: InstanceView) -> (InstanceView, ActionView)
    decreases v.batch.len(),
{
    if v.batch.len() == 0 {
        (idle(v), ActionView::Finish(Ok(())))
    } else {
        let e = v.batch[0];
        let v1 = InstanceView { key: trim(e.0), value: trim(e.1), batch: v.batch.drop_first(), ..v };
        if v1.stale {
            load(v1)
        } else if has_key(v1.content, v1.key) {
            next_in_batch(write_effect(v1))
        } else {
            save(write_effect(v1))
        }
    }
}

/// The end of a step with result `r`: the operation finishes with it, except
/// that within `write_file_contents` a success goes on with the next pair
/// and any error becomes `FileIOError`.
pub open spec fn finish(v: InstanceView, r: Result<(), TErrors>) -> (InstanceView, ActionView) {
    if v.op == Operation::WriteFileContents {
        match r {
            Ok(()) => next_in_batch(v),
            Err(_) => (idle(v), ActionView::Finish(Err(TErrors::FileIOError))),
        }
    } else {
        (idle(v), ActionView::Finish(r))
    }
}

/// The operation `v.op` once the entries in memory are current.
pub open spec fn after_read(v: InstanceView) -> (InstanceView, ActionView) {
    match v.op {
        Operation::WritePair | Operation::WriteFileContents => {
            if has_key(v.content, v.key) {
                finish(write_effect(v), Ok(()))
            } else {
                save(write_effect(v))
            }
        },
        Operation::DeletePair => save(delete_effect(v)),
        Operation::UpdatePair => save(update_effect(v)),
        _ => finish(v, Ok(())),
    }
}

/// Starting `op` (one that reads the file first): reload the entries when
/// they are stale, else go on at once.
pub open spec fn begin(v: InstanceView, op: Operation) -> (InstanceView, ActionView) {
    let v1 = InstanceView { op, batch: Seq::empty(), ..v };
    if v1.stale {
        load(v1)
    } else {
        after_read(v1)
    }
}

/// Starting `write_file_contents`: the active pair, when its key is not
/// empty, joins the entries in memory, and each entry is then written in turn.
pub open spec fn begin_batch(v: InstanceView) -> (InstanceView, ActionView) {
    let c = if v.key.len() > 0 {
        v.content.push((v.key, v.value))
    } else {
        v.content
    };
    next_in_batch(InstanceView { op: Operation::WriteFileContents, content: c, batch: c, ..v })
}

/// Starting `file_blank`.
pub open spec fn begin_blank(v: InstanceView) -> (InstanceView, ActionView) {
    (
        InstanceView { op: Operation::FileBlank, stage: Stage::Removing, batch: Seq::empty(), ..v },
        ActionView::Remove(v.path),
    )
}

/// Whether an instance in state `v` waits for `ev`.
pub open spec fn awaits(v: InstanceView, ev: Event) -> bool {
    match v.stage {
        Stage::Loading => ev is Loaded,
        Stage::Creating | Stage::Saving => ev is Stored,
        Stage::Removing => ev is Removed,
        Stage::Idle => false,
    }
}

/// What the outcome of reading the file leads to. A missing file is created
/// empty, and memory emptied to match it; a file read replaces the entries in
/// memory with those it holds (none, for an empty file). A file that cannot be
/// read, or holds a record that is not valid UTF-8 with more bytes after it,
/// ends the operation with `ReadBytesError`: memory is left as it was and the
/// entries stay stale, so the next operation reads the file again.
pub open spec fn on_loaded(v: InstanceView, outcome: LoadOutcome) -> (InstanceView, ActionView) {
    match outcome {
        LoadOutcome::Missing => (
            InstanceView { stage: Stage::Creating, content: Seq::empty(), ..v },
            ActionView::Save(v.path, Seq::empty()),
        ),
        LoadOutcome::Unreadable => finish(v, Err(TErrors::ReadBytesError)),
        LoadOutcome::Bytes(b) => if decode_entries(b@).1 {
            after_read(InstanceView { stale: false, content: decode_entries(b@).0, ..v })
        } else {
            finish(v, Err(TErrors::ReadBytesError))
        },
    }
}

/// What the outcome of persisting the entries leads to.
pub open spec fn on_stored(v: InstanceView, outcome: SaveOutcome) -> (InstanceView, ActionView) {
    if v.stage == Stage::Creating {
        match outcome {
            SaveOutcome::Saved => after_read(InstanceView { stale: false, ..v }),
            _ => finish(v, save_error(outcome)),
        }
    } else {
        finish(v, save_error(outcome))
    }
}

/// What the outcome of deleting the file leads to.
pub open spec fn on_removed(v: InstanceView, ok: bool) -> (InstanceView, ActionView) {
    if ok {
        (idle(InstanceView { stale: true, ..v }), ActionView::Finish(Ok(())))
    } else {
        (idle(v), ActionView::Finish(Err(TErrors::FileIOError)))
    }
}

/// The step that `ev` makes from `v`.
pub open spec fn step(v: InstanceView, ev: Event) -> (InstanceView, ActionView) {
    match ev {
        Event::Loaded(outcome) => on_loaded(v, outcome),
        Event::Stored(outcome) => on_stored(v, outcome),
        Event::Removed(ok) => on_removed(v, ok),
    }
}

/// Whether `post` and `a` are the state and action that `s` gives.
pub open spec fn lands(post: InstanceView, a: ActionView, s: (InstanceView, ActionView)) -> bool {
    post == s.0 && a == s.1
}

/// The main interface of the database: a file of entries, an active key and
/// value, and a logger.
pub struct Instance {
    file: KnownFile,
    key: String,
    value: String,
    log: bool,
    logger: Logger,
    content_stale: bool,
    op: Operation,
    stage: Stage,
    /// The entries still to write, last one first.
    batch: Vec<(String, String)>,
}

impl View for Instance {
    type V = InstanceView;

    closed spec fn view(&self) -> InstanceView {
        InstanceView {
            path: self.file.path@,
            content: self.file.entries(),
            key: self.key@,
            value: self.value@,
            log: self.log,
            logger: self.logger@,
            stale: self.content_stale,
            op: self.op,
            stage: self.stage,
            batch: reversed(self.batch.deep_view()),
        }
    }
}

impl Instance {
    /// An instance over `file`, with empty active key and value, logging on, an
    /// empty logger, and entries to be loaded from disk before first use.
    pub fn new(file: KnownFile) -> (r: Instance)
        ensures
            r@ == (InstanceView {
                path: file.path@,
                content: file.entries(),
                key: Seq::empty(),
                value: Seq::empty(),
                log: true,
                logger: LoggerView::empty(),
                stale: true,
                op: Operation::ReadData,
                stage: Stage::Idle,
                batch: Seq::empty(),
            }),
    {
        let r = Instance {
            file,
            key: String::new(),
            value: String::new(),
            log: true,
            logger: Logger::default(),
            content_stale: true,
            op: Operation::ReadData,
            stage: Stage::Idle,
            batch: Vec::new(),
        };
        assert(r@.batch =~= Seq::<Entry>::empty());
        r
    }

    /// Appends the active pair to the entries in memory (not to disk).
    pub fn kv_to_contents(&mut self)
        ensures
            final(self)@ == (InstanceView {
                content: old(self)@.content.push((old(self)@.key, old(self)@.value)),
                ..old(self)@
            }),
    {
        let k = self.key.clone();
        let v = self.value.clone();
        self.file.append_contents(k, v);
        assert(self@ =~= InstanceView {
            content: old(self)@.content.push((old(self)@.key, old(self)@.value)),
            ..old(self)@
        });
    }

    /// Sets the active key and value, each without leading and trailing
    /// whitespace.
    pub fn set_key_value(&mut self, key: String, value: String)
        ensures
            final(self)@ == (InstanceView { key: trim(key@), value: trim(value@), ..old(self)@ }),
    {
        self.key = trim_string(key);
        self.value = trim_string(value);
        assert(self@ =~= InstanceView { key: trim(key@), value: trim(value@), ..old(self)@ });
    }

    /// Sets the active key, without leading and trailing whitespace.
    pub fn set_key(&mut self, key: String)
        ensures
            final(self)@ == (InstanceView { key: trim(key@), ..old(self)@ }),
    {
        self.key = trim_string(key);
        assert(self@ =~= InstanceView { key: trim(key@), ..old(self)@ });
    }

    /// Sets the active value, without leading and trailing whitespace.
    pub fn set_value(&mut self, value: String)
        ensures
            final(self)@ == (InstanceView { value: trim(value@), ..old(self)@ }),
    {
        self.value = trim_string(value);
        assert(self@ =~= InstanceView { value: trim(value@), ..old(self)@ });
    }

    /// Sets the path of the database file (the file on disk does not move).
    pub fn set_file_path(&mut self, path: String)
        ensures
            final(self)@ == (InstanceView { path: path@, ..old(self)@ }),
    {
        self.file.set_path(path);
        assert(self@ =~= InstanceView { path: path@, ..old(self)@ });
    }

    /// Replaces the entries in memory (not on disk).
    pub fn set_file_content(&mut self, content: Vec<(String, String)>)
        ensures
            final(self)@ == (InstanceView { content: content.deep_view(), ..old(self)@ }),
    {
        self.file.set_contents(content);
        assert(self@ =~= InstanceView { content: content.deep_view(), ..old(self)@ });
    }

    /// The path of the database file.
    pub fn get_file_path(&self) -> (r: &str)
        ensures
            r@ == self@.path,
    {
        self.file.get_path()
    }

    /// The entries in memory.
    pub fn get_file_content(&self) -> (r: &[(String, String)])
        ensures
            r.deep_view() == self@.content,
    {
        self.file.get_contents()
    }

    /// Replaces the file handle: its path and entries become the instance's.
    pub fn set_file(&mut self, file: KnownFile)
        ensures
            final(self)@ == (InstanceView {
                path: file.path@,
                content: file.entries(),
                ..old(self)@
            }),
    {
        let ghost f = file;
        self.file = file;
        assert(self@ =~= InstanceView { path: f.path@, content: f.entries(), ..old(self)@ });
    }

    /// Turns the logging of operations on or off.
    pub fn set_log(&mut self, log: bool)
        ensures
            final(self)@ == (InstanceView { log, ..old(self)@ }),
    {
        self.log = log;
        assert(self@ =~= InstanceView { log, ..old(self)@ });
    }

    /// Whether operations are logged.
    pub fn get_log(&self) -> (r: bool)
        ensures
            r == self@.log,
    {
        self.log
    }

    /// Replaces the logger.
    pub fn set_logger(&mut self, logger: Logger)
        ensures
            final(self)@ == (InstanceView { logger: logger@, ..old(self)@ }),
    {
        let ghost l = logger@;
        self.logger = logger;
        assert(self@ =~= InstanceView { logger: l, ..old(self)@ });
    }

    /// The logger.
    pub fn get_logger(&self) -> (r: &Logger)
        ensures
            r@ == self@.logger,
    {
        &self.logger
    }

    /// The active key.
    pub fn get_key(&self) -> (r: &str)
        ensures
            r@ == self@.key,
    {
        self.key.as_str()
    }

    /// The active value.
    pub fn get_value(&self) -> (r: &str)
        ensures
            r@ == self@.value,
    {
        self.value.as_str()
    }

    /// The file handle.
    pub fn get_file(&self) -> (r: &KnownFile)
        ensures
            r.path@ == self@.path,
            r.entries() == self@.content,
    {
        &self.file
    }

    /// Whether some entry in memory has the active key.
    fn search_vec(&self) -> (r: bool)
        ensures
            r == has_key(self@.content, self@.key),
    {
        let n: usize = self.file.content.len();
        let mut i: usize = 0;
        while i < n
            invariant
                n == self.file.content.len(),
                0 <= i <= n,
                forall|j: int| 0 <= j < i ==> #[trigger] self@.content[j].0 != self@.key,
            decreases n - i,
        {
            if self.file.content[i].0 == self.key {
                assert(self@.content[i as int].0 == self@.key);
                return true;
            }
            i = i + 1;
        }
        false
    }
}


impl Instance {
    /// The value of the first entry in memory with the active key.
    fn find_value(&self) -> (r: Option<String>)
        ensures
            r is Some <==> has_key(self@.content, self@.key),
            r matches Some(v) ==> v@ == self@.content[first_index(self@.content, self@.key)].1,
    {
        let n: usize = self.file.content.len();
        let mut i: usize = 0;
        while i < n
            invariant
                n == self.file.content.len(),
                0 <= i <= n,
                forall|j: int| 0 <= j < i ==> #[trigger] self@.content[j].0 != self@.key,
            decreases n - i,
        {
            if self.file.content[i].0 == self.key {
                proof {
                    assert(is_first_index(self@.content, self@.key, i as int));
                    lemma_first_index_unique(self@.content, self@.key, i as int);
                }
                return Some(self.file.content[i].1.clone());
            }
            i = i + 1;
        }
        None
    }

    /// `write_pair` once the entries are current; whether the key was present.
    fn apply_write(&mut self) -> (found: bool)
        ensures
            found == has_key(old(self)@.content, old(self)@.key),
            final(self)@ == write_effect(old(self)@),
    {
        if self.log {
            self.logger.add_add((self.key.clone(), self.value.clone()));
        }
        let found = self.search_vec();
        if !found {
            self.file.append_contents(self.key.clone(), self.value.clone());
        }
        assert(self@ =~= write_effect(old(self)@));
        found
    }

    /// `delete_pair` once the entries are current.
    fn apply_delete(&mut self)
        ensures
            final(self)@ == delete_effect(old(self)@),
    {
        if self.log {
            let note = if self.file.content.len() == 0 {
                "DB is empty".to_owned()
            } else {
                match self.find_value() {
                    Some(v) => v,
                    None => "DB read. Does not contain: ".to_owned().concat(self.key.as_str()),
                }
            };
            self.logger.add_deleted((self.key.clone(), note));
        }
        let k = self.key.clone();
        self.file.remove_contents(k.as_str());
        assert(self@ =~= delete_effect(old(self)@));
    }

    /// `update_pair` once the entries are current.
    fn apply_update(&mut self)
        ensures
            final(self)@ == update_effect(old(self)@),
    {
        if self.search_vec() {
            let _ = self.file.update_by_key(self.key.clone(), self.value.clone());
        } else {
            self.file.append_contents(self.key.clone(), self.value.clone());
        }
        if self.log {
            self.logger.add_updated((self.key.clone(), self.value.clone()));
        }
        assert(self@ =~= update_effect(old(self)@));
    }

    /// No operation waits any more.
    fn go_idle(&mut self)
        ensures
            final(self)@ == idle(old(self)@),
    {
        self.stage = Stage::Idle;
        self.batch.clear();
        assert(self@ =~= idle(old(self)@));
    }

    /// Asks for the entries in memory to be persisted.
    fn request_save(&mut self) -> (a: Action)
        ensures
            lands(final(self)@, a@, save(old(self)@)),
    {
        self.stage = Stage::Saving;
        let bytes = self.file.to_bytes();
        assert(self@ =~= save(old(self)@).0);
        Action::Save(self.file.path.clone(), bytes)
    }

    /// Asks for the database file to be read.
    fn request_load(&mut self) -> (a: Action)
        ensures
            lands(final(self)@, a@, load(old(self)@)),
    {
        self.stage = Stage::Loading;
        assert(self@ =~= load(old(self)@).0);
        Action::Load(self.file.path.clone())
    }

    /// Ends a step with result `r`.
    fn conclude(&mut self, r: Result<(), TErrors>) -> (a: Action)
        ensures
            lands(final(self)@, a@, finish(old(self)@, r)),
    {
        if self.op == Operation::WriteFileContents {
            match r {
                Ok(()) => self.next_in_batch(),
                Err(_) => {
                    self.go_idle();
                    Action::Finish(Err(TErrors::FileIOError))
                },
            }
        } else {
            self.go_idle();
            Action::Finish(r)
        }
    }

    /// Writes the pending pairs of `write_file_contents` until one needs the
    /// disk or none is left.
    fn next_in_batch(&mut self) -> (a: Action)
        ensures
            lands(final(self)@, a@, next_in_batch(old(self)@)),
    {
        loop
            invariant
                next_in_batch(self@) == next_in_batch(old(self)@),
            decreases self.batch.len(),
        {
            let ghost before = self@;
            let ghost b = self.batch.deep_view();
            match self.batch.pop() {
                None => {
                    assert(before.batch.len() == 0);
                    self.go_idle();
                    return Action::Finish(Ok(()));
                },
                Some(e) => {
                    proof {
                        assert(before.batch[0] == b[b.len() - 1]);
                        assert(self@.batch =~= before.batch.drop_first());
                    }
                    let (k, v) = e;
                    self.set_key_value(k, v);
                    if self.content_stale {
                        return self.request_load();
                    }
                    let found = self.apply_write();
                    if !found {
                        return self.request_save();
                    }
                },
            }
        }
    }

    /// The operation in progress, once the entries in memory are current.
    fn after_read(&mut self) -> (a: Action)
        ensures
            lands(final(self)@, a@, after_read(old(self)@)),
    {
        match self.op {
            Operation::WritePair | Operation::WriteFileContents => {
                let found = self.apply_write();
                if found {
                    self.conclude(Ok(()))
                } else {
                    self.request_save()
                }
            },
            Operation::DeletePair => {
                self.apply_delete();
                self.request_save()
            },
            Operation::UpdatePair => {
                self.apply_update();
                self.request_save()
            },
            _ => self.conclude(Ok(())),
        }
    }

    /// Starts an operation that reads the file first.
    fn begin(&mut self, op: Operation) -> (a: Action)
        ensures
            lands(final(self)@, a@, begin(old(self)@, op)),
    {
        self.op = op;
        self.batch.clear();
        assert(self@ =~= InstanceView { op, batch: Seq::empty(), ..old(self)@ });
        if self.content_stale {
            self.request_load()
        } else {
            self.after_read()
        }
    }

    /// Starts reloading the entries in memory from the file.
    ///
    /// Nothing happens when they are current. Otherwise the file is read: its
    /// entries replace those in memory (none for an empty file; a truncated or
    /// non-UTF-8 last record is ignored). `ReadBytesError`, memory unchanged and
    /// still stale, when it cannot be read or a non-UTF-8 record has more
    /// bytes after it. A missing file is created empty, and memory emptied.
    pub fn read_data(&mut self) -> (a: Action)
        ensures
            lands(final(self)@, a@, begin(old(self)@, Operation::ReadData)),
    {
        self.begin(Operation::ReadData)
    }

    /// Starts writing the active pair: after reloading the entries if needed,
    /// the pair is logged as added and, unless its key is already present,
    /// appended and persisted.
    pub fn write_pair(&mut self) -> (a: Action)
        ensures
            lands(final(self)@, a@, begin(old(self)@, Operation::WritePair)),
    {
        self.begin(Operation::WritePair)
    }

    /// Starts deleting the active key: after reloading the entries if needed,
    /// the pair (or a note when the key is absent) is logged as deleted, every
    /// entry with the key is dropped and the entries are persisted.
    pub fn delete_pair(&mut self) -> (a: Action)
        ensures
            lands(final(self)@, a@, begin(old(self)@, Operation::DeletePair)),
    {
        self.begin(Operation::DeletePair)
    }

    /// Starts updating the active key: after reloading the entries if needed,
    /// the first entry with the key takes the active value (the pair is
    /// appended when the key is absent), the pair is logged as updated and the
    /// entries are persisted.
    pub fn update_pair(&mut self) -> (a: Action)
        ensures
            lands(final(self)@, a@, begin(old(self)@, Operation::UpdatePair)),
    {
        self.begin(Operation::UpdatePair)
    }

    /// Starts deleting the database file; the entries in memory stay. Once it
    /// is gone, the next operation reloads from disk; `FileIOError` when it
    /// cannot be deleted.
    pub fn file_blank(&mut self) -> (a: Action)
        ensures
            lands(final(self)@, a@, begin_blank(old(self)@)),
    {
        self.op = Operation::FileBlank;
        self.stage = Stage::Removing;
        self.batch.clear();
        assert(self@ =~= begin_blank(old(self)@).0);
        Action::Remove(self.file.path.clone())
    }

    /// Starts writing every entry in memory with `write_pair`: the active pair
    /// joins them first when its key is not empty. Each entry becomes the
    /// active pair in turn; the first failure ends it with `FileIOError`.
    pub fn write_file_contents(&mut self) -> (a: Action)
        ensures
            lands(final(self)@, a@, begin_batch(old(self)@)),
    {
        if !self.key.as_str().is_empty() {
            self.file.append_contents(self.key.clone(), self.value.clone());
        }
        let ghost c = self@.content;
        let n: usize = self.file.content.len();
        let mut pending: Vec<(String, String)> = Vec::new();
        let mut i: usize = n;
        while i > 0
            invariant
                n == self.file.content.len(),
                c == self@.content,
                c.len() == n,
                0 <= i <= n,
                reversed(pending.deep_view()) == c.subrange(i as int, n as int),
            decreases i,
        {
            let e = (self.file.content[i - 1].0.clone(), self.file.content[i - 1].1.clone());
            let ghost before = pending.deep_view();
            pending.push(e);
            proof {
                let p = pending.deep_view();
                assert(p =~= before.push(c[i - 1]));
                assert(reversed(before).len() == before.len());
                assert(before.len() == n - i);
                assert forall|k: int| 0 <= k < n - (i - 1) implies #[trigger] reversed(p)[k]
                    == c.subrange(i - 1, n as int)[k] by {
                    if k > 0 {
                        assert(reversed(p)[k] == before[before.len() - k]);
                        assert(reversed(before)[k - 1] == c.subrange(i as int, n as int)[k - 1]);
                    }
                }
                assert(reversed(p) =~= c.subrange(i - 1, n as int));
            }
            i = i - 1;
        }
        assert(c.subrange(0, n as int) =~= c);
        self.batch = pending;
        self.op = Operation::WriteFileContents;
        assert(self@ =~= InstanceView {
            op: Operation::WriteFileContents,
            content: c,
            batch: c,
            ..old(self)@
        });
        self.next_in_batch()
    }

    /// Whether the operation in progress waits for `ev`.
    pub fn accepts(&self, ev: &Event) -> (r: bool)
        ensures
            r == awaits(self@, *ev),
    {
        match self.stage {
            Stage::Loading => matches!(ev, Event::Loaded(_)),
            Stage::Creating | Stage::Saving => matches!(ev, Event::Stored(_)),
            Stage::Removing => matches!(ev, Event::Removed(_)),
            Stage::Idle => false,
        }
    }

    /// Goes on with the operation in progress, given what came of the action
    /// it asked for.
    pub fn resume(&mut self, ev: Event) -> (a: Action)
        requires
            awaits(old(self)@, ev),
        ensures
            lands(final(self)@, a@, step(old(self)@, ev)),
    {
        match ev {
            Event::Loaded(outcome) => match outcome {
                LoadOutcome::Missing => {
                    self.file.truncate_contents();
                    self.stage = Stage::Creating;
                    Action::Save(self.file.path.clone(), Vec::new())
                },
                LoadOutcome::Unreadable => self.conclude(Err(TErrors::ReadBytesError)),
                LoadOutcome::Bytes(b) => {
                    match self.file.read_file(b.as_slice()) {
                        Err(TErrors::ReadBytesError) => self.conclude(Err(TErrors::ReadBytesError)),
                        _ => {
                            self.content_stale = false;
                            self.after_read()
                        },
                    }
                },
            },
            Event::Stored(outcome) => {
                let r = outcome.create_file();
                if self.stage == Stage::Creating {
                    match r {
                        Ok(()) => {
                            self.content_stale = false;
                            self.after_read()
                        },
                        Err(e) => self.conclude(Err(e)),
                    }
                } else {
                    self.conclude(r)
                }
            },
            Event::Removed(ok) => {
                if ok {
                    self.content_stale = true;
                    self.go_idle();
                    Action::Finish(Ok(()))
                } else {
                    self.go_idle();
                    Action::Finish(Err(TErrors::FileIOError))
                }
            },
        }
    }
}

} // verus!
