//! The database file: its path and the entries held in memory, and the
//! decisions around the two disk operations that persist and reload them.
use crate::codec::{decode_contents, decode_entries, encode_contents, encode_entries, Entry};
use crate::shrub::TErrors;
use vstd::prelude::*;

verus! {

/// Whether some entry of `c` has the key `k`.
pub open spec fn has_key(c: Seq<Entry>, k: Seq<char>) -> bool {
    exists|i: int| 0 <= i < c.len() && #[trigger] c[i].0 == k
}

/// Whether `i` is the position of the first entry of `c` with the key `k`.
pub open spec fn is_first_index(c: Seq<Entry>, k: Seq<char>, i: int) -> bool {
    &&& 0 <= i < c.len()
    &&& c[i].0 == k
    &&& forall|j: int| 0 <= j < i ==> #[trigger] c[j].0 != k
}

/// The position of the first entry of `c` with the key `k` (meaningful when
/// `has_key(c, k)`).
pub open spec fn first_index(c: Seq<Entry>, k: Seq<char>) -> int {
    choose|i: int| is_first_index(c, k, i)
}

/// `c` without any entry whose key is `k`, the others in their order.
pub open spec fn without_key(c: Seq<Entry>, k: Seq<char>) -> Seq<Entry>
    decreases c.len(),
{
    if c.len() == 0 {
        c
    } else {
        let kept = without_key(c.drop_last(), k);
        if c.last().0 == k {
            kept
        } else {
            kept.push(c.last())
        }
    }
}

/// `c` with the first entry of key `k` replaced by `(k, v)`, in place
/// (unchanged when `k` is absent).
pub open spec fn with_value(c: Seq<Entry>, k: Seq<char>, v: Seq<char>) -> Seq<Entry> {
    if has_key(c, k) {
        c.update(first_index(c, k), (k, v))
    } else {
        c
    }
}

/// The first position with a given key exists whenever the key does.
pub proof fn lemma_first_index(c: Seq<Entry>, k: Seq<char>)
    requires
        has_key(c, k),
    ensures
        is_first_index(c, k, first_index(c, k)),
    decreases c.len(),
{
    let d = c.drop_last();
    if has_key(d, k) {
        lemma_first_index(d, k);
        let i: int = first_index(d, k);
        assert forall|j: int| 0 <= j < i implies #[trigger] c[j].0 != k by {
            assert(c[j] == d[j]);
        }
        assert(c[i] == d[i]);
        assert(is_first_index(c, k, i));
    } else {
        let i: int = choose|i: int| 0 <= i < c.len() && #[trigger] c[i].0 == k;
        if i < c.len() - 1 {
            assert(d[i].0 == k);
        }
        assert forall|j: int| 0 <= j < c.len() - 1 implies #[trigger] c[j].0 != k by {
            if c[j].0 == k {
                assert(d[j].0 == k);
            }
        }
        assert(is_first_index(c, k, c.len() - 1));
    }
}

/// There is only one first position of a key.
pub proof fn lemma_first_index_unique(c: Seq<Entry>, k: Seq<char>, i: int)
    requires
        is_first_index(c, k, i),
    ensures
        first_index(c, k) == i,
{
    lemma_first_index(c, k);
    let f: int = first_index(c, k);
    if f < i {
        assert(c[f].0 != k);
    }
    if i < f {
        assert(c[i].0 != k);
    }
}

/// Dropping a key that no entry has changes nothing.
pub proof fn lemma_without_absent_key(c: Seq<Entry>, k: Seq<char>)
    requires
        !has_key(c, k),
    ensures
        without_key(c, k) == c,
    decreases c.len(),
{
    if c.len() > 0 {
        let d = c.drop_last();
        assert(!has_key(d, k)) by {
            if has_key(d, k) {
                let i: int = choose|i: int| 0 <= i < d.len() && #[trigger] d[i].0 == k;
                assert(c[i].0 == k);
            }
        }
        lemma_without_absent_key(d, k);
        assert(c.last().0 != k) by {
            assert(c[c.len() - 1].0 == c.last().0);
        }
        assert(d.push(c.last()) =~= c);
    }
}

/// After dropping `k`, a key is present exactly when it was present before
/// and is not `k`.
pub proof fn lemma_without_key_keys(c: Seq<Entry>, k: Seq<char>, j: Seq<char>)
    ensures
        has_key(without_key(c, k), j) <==> has_key(c, j) && j != k,
    decreases c.len(),
{
    if c.len() > 0 {
        let d = c.drop_last();
        lemma_without_key_keys(d, k, j);
        let w = without_key(d, k);
        if has_key(c, j) && j != k {
            let i: int = choose|i: int| 0 <= i < c.len() && #[trigger] c[i].0 == j;
            if i < c.len() - 1 {
                assert(d[i].0 == j);
                let m: int = choose|m: int| 0 <= m < w.len() && #[trigger] w[m].0 == j;
                if c.last().0 != k {
                    assert(w.push(c.last())[m].0 == j);
                }
            } else {
                assert(w.push(c.last())[w.len() as int].0 == j);
            }
        }
        if has_key(without_key(c, k), j) {
            let r = without_key(c, k);
            let m: int = choose|m: int| 0 <= m < r.len() && #[trigger] r[m].0 == j;
            if c.last().0 != k && m == w.len() {
                assert(c[c.len() - 1].0 == j);
            } else {
                assert(w[m].0 == j);
                let i: int = choose|i: int| 0 <= i < d.len() && #[trigger] d[i].0 == j;
                assert(c[i].0 == j);
            }
        }
    }
}

/// Replacing the value of a present key keeps every position and key: the
/// first entry with the key now holds the new value.
pub proof fn lemma_with_value(c: Seq<Entry>, k: Seq<char>, v: Seq<char>)
    requires
        has_key(c, k),
    ensures
        with_value(c, k, v).len() == c.len(),
        is_first_index(with_value(c, k, v), k, first_index(c, k)),
        first_index(with_value(c, k, v), k) == first_index(c, k),
        with_value(c, k, v)[first_index(c, k)] == (k, v),
        forall|i: int| 0 <= i < c.len() && i != first_index(c, k) ==> #[trigger] with_value(c, k, v)[i] == c[i],
{
    lemma_first_index(c, k);
    let i: int = first_index(c, k);
    let u = with_value(c, k, v);
    assert forall|j: int| 0 <= j < i implies #[trigger] u[j].0 != k by {
        assert(u[j] == c[j]);
    }
    assert(is_first_index(u, k, i));
    lemma_first_index_unique(u, k, i);
}

/// How an attempt to persist the entries went: the temporary file was
/// written and renamed over the database file, or writing the temporary file
/// failed, or renaming it failed.
#[derive(Debug, Clone, Copy, PartialEq, Eq, Structural)]
pub enum SaveOutcome {
    Saved,
    TempFailed,
    RenameFailed,
}

/// The error that a save reports for each outcome.
pub open spec fn save_error(outcome: SaveOutcome) -> Result<(), TErrors> {
    match outcome {
        SaveOutcome::Saved => Ok(()),
        SaveOutcome::TempFailed => Err(TErrors::TempCreate),
        SaveOutcome::RenameFailed => Err(TErrors::TempReplace),
    }
}

impl SaveOutcome {
    /// What persisting the entries reports: `TempCreate` when the temporary
    /// file could not be written, `TempReplace` when it could not replace the
    /// database file.
    pub fn create_file(self) -> (r: Result<(), TErrors>)
        ensures
            r == save_error(self),
    {
        match self {
            SaveOutcome::Saved => Ok(()),
            SaveOutcome::TempFailed => Err(TErrors::TempCreate),
            SaveOutcome::RenameFailed => Err(TErrors::TempReplace),
        }
    }
}

/// What reading the database file from disk found: no file, its bytes, or a
/// file that could not be opened or read.
pub enum LoadOutcome {
    Missing,
    Bytes(Vec<u8>),
    Unreadable,
}

/// Low-level file handle: a path and the in-memory entries of a database
/// file.
pub struct KnownFile {
    pub path: String,
    pub content: Vec<(String, String)>,
}

impl KnownFile {
    /// The in-memory entries.
    pub open spec fn entries(&self) -> Seq<Entry> {
        self.content.deep_view()
    }

    /// A handle for `path` with no entries in memory, once the caller has made
    /// sure that the file exists (`available`: it existed or could be
    /// created); otherwise `FileCreateError`.
    pub fn init(path: String, available: bool) -> (r: Result<KnownFile, TErrors>)
        ensures
            available <==> r is Ok,
            r matches Ok(f) ==> f.path@ == path@ && f.entries() == Seq::<Entry>::empty(),
            r matches Err(e) ==> e == TErrors::FileCreateError,
    {
        if !available {
            return Err(TErrors::FileCreateError);
        }
        let f = KnownFile { path, content: Vec::new() };
        assert(f.entries() =~= Seq::<Entry>::empty());
        Ok(f)
    }

    /// Clears the in-memory entries; the file on disk is not touched.
    pub fn truncate_contents(&mut self)
        ensures
            final(self).entries() == Seq::<Entry>::empty(),
            final(self).path == old(self).path,
    {
        self.content.clear();
        assert(self.entries() =~= Seq::<Entry>::empty());
    }

    /// The bytes that persisting the in-memory entries writes: for each entry,
    /// its key's length, key, value's length and value.
    pub fn to_bytes(&self) -> (r: Vec<u8>)
        ensures
            r@ == encode_entries(self.entries()),
    {
        encode_contents(&self.content)
    }

    /// Replaces the in-memory entries with those that `bytes` (the file as
    /// read from disk) holds. A truncated record at the end, or a last record
    /// whose key or value is not valid UTF-8, is ignored.
    ///
    /// `ContentsEmpty` when `bytes` is empty; the entries in memory are then
    /// empty too, as the file is. `ReadBytesError` when a record that is not
    /// valid UTF-8 has more bytes after it; the entries in memory are then
    /// left as they were.
    pub fn read_file(&mut self, bytes: &[u8]) -> (r: Result<(), TErrors>)
        ensures
            final(self).path == old(self).path,
            decode_entries(bytes@).1 ==> final(self).entries() == decode_entries(bytes@).0,
            !decode_entries(bytes@).1 ==> final(self).entries() == old(self).entries()
                && r == Err::<(), TErrors>(TErrors::ReadBytesError),
            decode_entries(bytes@).1 ==> (r is Err <==> bytes@.len() == 0),
            decode_entries(bytes@).1 && r is Err ==> r == Err::<(), TErrors>(
                TErrors::ContentsEmpty,
            ),
    {
        let (content, readable) = decode_contents(bytes);
        if !readable {
            return Err(TErrors::ReadBytesError);
        }
        self.content = content;
        if bytes.len() == 0 {
            Err(TErrors::ContentsEmpty)
        } else {
            Ok(())
        }
    }

    /// The file path.
    pub fn get_path(&self) -> (r: &str)
        ensures
            r@ == self.path@,
    {
        self.path.as_str()
    }

    /// Replaces the stored path (the file on disk does not move).
    pub fn set_path(&mut self, path: String)
        ensures
            final(self).path == path,
            final(self).content == old(self).content,
    {
        self.path = path;
    }

    /// The in-memory entries.
    pub fn get_contents(&self) -> (r: &[(String, String)])
        ensures
            r@ == self.content@,
            r.deep_view() == self.entries(),
    {
        self.content.as_slice()
    }

    /// Replaces the in-memory entries.
    pub fn set_contents(&mut self, content: Vec<(String, String)>)
        ensures
            final(self).content == content,
            final(self).path == old(self).path,
    {
        self.content = content;
    }

    /// Appends one entry to the in-memory entries.
    pub fn append_contents(&mut self, key: String, value: String)
        ensures
            final(self).entries() == old(self).entries().push((key@, value@)),
            final(self).path == old(self).path,
    {
        self.content.push((key, value));
        assert(self.entries() =~= old(self).entries().push((key@, value@)));
    }

    /// Removes every entry whose key is `key`, keeping the others in order.
    pub fn remove_contents(&mut self, key: &str)
        ensures
            final(self).entries() == without_key(old(self).entries(), key@),
            final(self).path == old(self).path,
    {
        let k = key.to_owned();
        let ghost c = self.entries();
        let mut kept: Vec<(String, String)> = Vec::new();
        let mut i: usize = 0;
        assert(c.take(0) =~= Seq::<Entry>::empty());
        while i < self.content.len()
            invariant
                0 <= i <= self.content.len(),
                c == self.entries(),
                k@ == key@,
                kept.deep_view() == without_key(c.take(i as int), key@),
            decreases self.content.len() - i,
        {
            assert(c.take(i + 1).drop_last() =~= c.take(i as int));
            let same = self.content[i].0 == k;
            if !same {
                let e = (self.content[i].0.clone(), self.content[i].1.clone());
                let ghost before = kept.deep_view();
                kept.push(e);
                assert(kept.deep_view() =~= before.push(c[i as int]));
            }
            i = i + 1;
        }
        assert(c.take(c.len() as int) =~= c);
        self.content = kept;
    }

    /// Replaces, in place, the value of the first entry whose key is `key`.
    /// `IndexError` (and nothing changed) when no entry has that key.
    pub fn update_by_key(&mut self, key: String, new_value: String) -> (r: Result<(), TErrors>)
        ensures
            r is Ok <==> has_key(old(self).entries(), key@),
            r matches Err(e) ==> e == TErrors::IndexError,
            final(self).entries() == with_value(old(self).entries(), key@, new_value@),
            final(self).path == old(self).path,
    {
        let ghost c = self.entries();
        let mut i: usize = 0;
        while i < self.content.len()
            invariant
                0 <= i <= self.content.len(),
                c == self.entries(),
                c == old(self).entries(),
                self.path == old(self).path,
                forall|j: int| 0 <= j < i ==> #[trigger] c[j].0 != key@,
            decreases self.content.len() - i,
        {
            if self.content[i].0 == key {
                proof {
                    assert(c[i as int].0 == key@);
                    assert(is_first_index(c, key@, i as int));
                    lemma_first_index_unique(c, key@, i as int);
                }
                self.content.set(i, (key, new_value));
                assert(self.entries() =~= with_value(c, key@, new_value@));
                return Ok(());
            }
            i = i + 1;
        }
        Err(TErrors::IndexError)
    }
}

} // verus!
