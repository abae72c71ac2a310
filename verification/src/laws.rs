//! What holds of the operations of `Instance` taken together.
use crate::codec::{decode_entries, encode_entries, lemma_decode_encode, lengths_fit, Entry};
use crate::file_manip::{
    first_index, has_key, lemma_first_index, lemma_first_index_unique, lemma_with_value,
    lemma_without_absent_key, lemma_without_key_keys, without_key, LoadOutcome, SaveOutcome,
};
use crate::shrub::{
    after_read, awaits, begin, begin_batch, begin_blank, delete_effect, finish, idle,
    next_in_batch, step, write_effect, ActionView, Event, InstanceView, Operation,
    Stage, TErrors,
};
use vstd::prelude::*;
use vstd::bytes::spec_u32_from_le_bytes;
use vstd::utf8::{encode_utf8, valid_utf8};

verus! {

/// Whether the state `w` agrees with the action `a` it comes with: an
/// operation waits exactly when it asks for something, what it asks for
/// concerns its own file, and what it asks to save is the encoding of the
/// entries in memory.
pub open spec fn coherent(w: InstanceView, a: ActionView) -> bool {
    match a {
        ActionView::Finish(_) => w.stage == Stage::Idle,
        ActionView::Load(p) => w.stage == Stage::Loading && p == w.path,
        ActionView::Save(p, b) => (w.stage == Stage::Saving || w.stage == Stage::Creating) && p
            == w.path && b == encode_entries(w.content),
        ActionView::Remove(p) => w.stage == Stage::Removing && p == w.path,
    }
}

/// Whether a step from `v` to `w` leaves the logger and the logging switch
/// alone.
pub open spec fn quiet(v: InstanceView, w: InstanceView) -> bool {
    w.logger == v.logger && w.log == v.log
}

proof fn lemma_next_in_batch(v: InstanceView)
    ensures
        coherent(next_in_batch(v).0, next_in_batch(v).1),
        next_in_batch(v).0.log == v.log,
        !v.log ==> quiet(v, next_in_batch(v).0),
    decreases v.batch.len(),
{
    if v.batch.len() > 0 {
        let e = v.batch[0];
        let v1 = InstanceView {
            key: crate::text::trim(e.0),
            value: crate::text::trim(e.1),
            batch: v.batch.drop_first(),
            ..v
        };
        if !v1.stale && has_key(v1.content, v1.key) {
            lemma_next_in_batch(write_effect(v1));
        }
    }
}

proof fn lemma_finish(v: InstanceView, r: Result<(), TErrors>)
    ensures
        coherent(finish(v, r).0, finish(v, r).1),
        finish(v, r).0.log == v.log,
        !v.log ==> quiet(v, finish(v, r).0),
{
    lemma_next_in_batch(v);
}

proof fn lemma_after_read(v: InstanceView)
    ensures
        coherent(after_read(v).0, after_read(v).1),
        after_read(v).0.log == v.log,
        !v.log ==> quiet(v, after_read(v).0),
{
    lemma_finish(v, Ok(()));
    lemma_finish(write_effect(v), Ok(()));
}

/// Every operation, as it starts, returns a state coherent with its action,
/// and leaves the logger alone when logging is off.
pub proof fn law_start_coherent(v: InstanceView, op: Operation)
    ensures
        coherent(begin(v, op).0, begin(v, op).1),
        coherent(begin_batch(v).0, begin_batch(v).1),
        coherent(begin_blank(v).0, begin_blank(v).1),
        !v.log ==> quiet(v, begin(v, op).0) && quiet(v, begin_batch(v).0) && quiet(
            v,
            begin_blank(v).0,
        ),
{
    lemma_after_read(InstanceView { op, batch: Seq::empty(), ..v });
    let c = if v.key.len() > 0 {
        v.content.push((v.key, v.value))
    } else {
        v.content
    };
    lemma_next_in_batch(
        InstanceView { op: Operation::WriteFileContents, content: c, batch: c, ..v },
    );
}

/// Every step, whatever came of the action, returns a state coherent with its
/// next action, and leaves the logger alone when logging is off.
pub proof fn law_step_coherent(v: InstanceView, ev: Event)
    ensures
        coherent(step(v, ev).0, step(v, ev).1),
        !v.log ==> quiet(v, step(v, ev).0),
{
    lemma_finish(v, Err(TErrors::ReadBytesError));
    lemma_after_read(InstanceView { stale: false, ..v });
    assert(encode_entries(Seq::<Entry>::empty()) == Seq::<u8>::empty());
    match ev {
        Event::Loaded(LoadOutcome::Bytes(b)) => {
            lemma_after_read(InstanceView { stale: false, content: decode_entries(b@).0, ..v });
        },
        Event::Stored(outcome) => {
            lemma_finish(v, crate::file_manip::save_error(outcome));
        },
        _ => {},
    }
}

/// An operation that asks for something waits for the answer of that kind.
pub proof fn law_pending_awaits(w: InstanceView, a: ActionView, ev: Event)
    requires
        coherent(w, a),
        a is Load ==> ev is Loaded,
        a is Save ==> ev is Stored,
        a is Remove ==> ev is Removed,
        !(a is Finish),
    ensures
        awaits(w, ev),
{
}

/// Writing a pair whose key is already present (the entries being current)
/// changes no entry and finishes at once.
pub proof fn law_write_skips_present_key(v: InstanceView)
    requires
        !v.stale,
        has_key(v.content, v.key),
    ensures
        begin(v, Operation::WritePair).0.content == v.content,
        begin(v, Operation::WritePair).1 == ActionView::Finish(Ok(())),
{
}

/// Writing a pair with a new key (the entries being current) appends it and
/// asks to save exactly the entries with the pair at the end.
pub proof fn law_write_appends_new_key(v: InstanceView)
    requires
        !v.stale,
        !has_key(v.content, v.key),
    ensures
        begin(v, Operation::WritePair).0.content == v.content.push((v.key, v.value)),
        begin(v, Operation::WritePair).1 == ActionView::Save(
            v.path,
            encode_entries(v.content.push((v.key, v.value))),
        ),
{
}

/// With logging on, a write records the active pair as added, once.
pub proof fn law_write_logs_added(v: InstanceView)
    requires
        !v.stale,
        v.log,
    ensures
        begin(v, Operation::WritePair).0.logger.added == v.logger.added.push((v.key, v.value)),
        begin(v, Operation::WritePair).0.logger.read == v.logger.read,
        begin(v, Operation::WritePair).0.logger.deleted == v.logger.deleted,
        begin(v, Operation::WritePair).0.logger.updated == v.logger.updated,
{
}

/// Reading when the entries in memory are current changes nothing and
/// finishes at once.
pub proof fn law_read_current_is_noop(v: InstanceView)
    requires
        !v.stale,
    ensures
        begin(v, Operation::ReadData) == (
            idle(InstanceView { op: Operation::ReadData, ..v }),
            ActionView::Finish(Ok(())),
        ),
{
}

/// Stale entries are reloaded before anything else: an operation that reads
/// first asks for the file and changes nothing else yet.
pub proof fn law_stale_loads_first(v: InstanceView, op: Operation)
    requires
        v.stale,
        op != Operation::FileBlank,
        op != Operation::WriteFileContents,
    ensures
        begin(v, op).1 == ActionView::Load(v.path),
        begin(v, op).0.content == v.content,
        begin(v, op).0.logger == v.logger,
        begin(v, op).0.key == v.key,
        begin(v, op).0.value == v.value,
{
}

/// Deleting (the entries being current) removes every entry with the active
/// key and keeps every other key, then asks to save the result.
pub proof fn law_delete_removes_key(v: InstanceView, other: Seq<char>)
    requires
        !v.stale,
    ensures
        !has_key(begin(v, Operation::DeletePair).0.content, v.key),
        other != v.key ==> (has_key(begin(v, Operation::DeletePair).0.content, other)
            <==> has_key(v.content, other)),
        begin(v, Operation::DeletePair).1 == ActionView::Save(
            v.path,
            encode_entries(without_key(v.content, v.key)),
        ),
{
    lemma_without_key_keys(v.content, v.key, v.key);
    lemma_without_key_keys(v.content, v.key, other);
}

/// Deleting the key of a pair just written as new gives back the entries as
/// they were before the write.
pub proof fn law_delete_undoes_write(v: InstanceView)
    requires
        !has_key(v.content, v.key),
    ensures
        delete_effect(write_effect(v)).content == v.content,
{
    let c = v.content.push((v.key, v.value));
    assert(c.drop_last() =~= v.content);
    lemma_without_absent_key(v.content, v.key);
}

/// Updating (the entries being current) leaves the active key present with
/// the active value at its first entry; an existing key keeps its position
/// and the number of entries, a new one is appended.
pub proof fn law_update_sets_value(v: InstanceView)
    requires
        !v.stale,
    ensures
        ({
            let c = begin(v, Operation::UpdatePair).0.content;
            &&& has_key(c, v.key)
            &&& c[first_index(c, v.key)] == (v.key, v.value)
            &&& has_key(v.content, v.key) ==> c.len() == v.content.len() && first_index(c, v.key)
                == first_index(v.content, v.key)
            &&& !has_key(v.content, v.key) ==> c == v.content.push((v.key, v.value))
        }),
{
    let c = begin(v, Operation::UpdatePair).0.content;
    if has_key(v.content, v.key) {
        lemma_with_value(v.content, v.key, v.value);
        lemma_first_index(v.content, v.key);
        let i: int = first_index(v.content, v.key);
        assert(c[i].0 == v.key);
    } else {
        let n: int = v.content.len() as int;
        assert(c[n].0 == v.key);
        assert forall|j: int| 0 <= j < n implies #[trigger] c[j].0 != v.key by {
            assert(c[j] == v.content[j]);
            if v.content[j].0 == v.key {
                assert(has_key(v.content, v.key));
            }
        }
        lemma_first_index_unique(c, v.key, n);
    }
}

/// What a write saved, a read gives back: a reload answered with the bytes of
/// a save of entries (whose lengths fit their prefixes) finishes with exactly
/// those entries in memory, current.
pub proof fn law_reload_reads_back_save(v: InstanceView, c: Seq<Entry>, outcome: LoadOutcome)
    requires
        v.stage == Stage::Loading,
        v.op == Operation::ReadData,
        lengths_fit(c),
        outcome matches LoadOutcome::Bytes(b) && b@ == encode_entries(c),
    ensures
        step(v, Event::Loaded(outcome)) == (
            idle(InstanceView { content: c, stale: false, ..v }),
            ActionView::Finish(Ok(())),
        ),
{
    lemma_decode_encode(c);
}

/// A missing file is created empty: the reload asks to save no bytes and
/// empties memory, and once saved the entries are current and empty.
pub proof fn law_missing_file_created_empty(v: InstanceView)
    requires
        v.stage == Stage::Loading,
        v.op == Operation::ReadData,
    ensures
        step(v, Event::Loaded(LoadOutcome::Missing)).1 == ActionView::Save(v.path, Seq::empty()),
        step(v, Event::Loaded(LoadOutcome::Missing)).0.content == Seq::<Entry>::empty(),
        step(step(v, Event::Loaded(LoadOutcome::Missing)).0, Event::Stored(SaveOutcome::Saved))
            == (
            idle(InstanceView { content: Seq::empty(), stale: false, ..v }),
            ActionView::Finish(Ok(())),
        ),
{
}

/// Reading an empty file leaves memory empty, as the file is.
pub proof fn law_empty_file_empties_memory(v: InstanceView, outcome: LoadOutcome)
    requires
        v.stage == Stage::Loading,
        v.op == Operation::ReadData,
        outcome matches LoadOutcome::Bytes(b) && b@.len() == 0,
    ensures
        step(v, Event::Loaded(outcome)) == (
            idle(InstanceView { content: Seq::empty(), stale: false, ..v }),
            ActionView::Finish(Ok(())),
        ),
{
}

/// Whether `t` starts with a complete record, ending at `end`, whose key or
/// value is not valid UTF-8.
pub open spec fn starts_with_malformed_record(t: Seq<u8>, end: int) -> bool {
    t.len() >= 4 && {
        let klen: int = spec_u32_from_le_bytes(t.subrange(0, 4)) as int;
        8 + klen <= t.len() && {
            let vlen: int = spec_u32_from_le_bytes(t.subrange(4 + klen, 8 + klen)) as int;
            &&& end == 8 + klen + vlen
            &&& end <= t.len()
            &&& (!valid_utf8(t.subrange(4, 4 + klen)) || !valid_utf8(t.subrange(8 + klen, end)))
        }
    }
}

/// A record that is not valid UTF-8 after well-formed entries `c`: as the
/// last record it is ignored and `c` is read; with more bytes after it the
/// buffer is unreadable.
pub proof fn law_malformed_record(c: Seq<Entry>, tail: Seq<u8>, end: int)
    requires
        lengths_fit(c),
        starts_with_malformed_record(tail, end),
    ensures
        decode_entries(encode_entries(c) + tail) == (c, end == tail.len()),
    decreases c.len(),
{
    if c.len() == 0 {
        assert(encode_entries(c) + tail =~= tail);
    } else {
        let rest = c.drop_first();
        assert(lengths_fit(rest)) by {
            assert forall|i: int| 0 <= i < rest.len() implies encode_utf8(#[trigger] rest[i].0).len()
                <= u32::MAX && encode_utf8(rest[i].1).len() <= u32::MAX by {
                assert(rest[i] == c[i + 1]);
                assert(encode_utf8(c[i + 1].0).len() <= u32::MAX);
            }
        }
        law_malformed_record(rest, tail, end);
        assert(encode_utf8(c[0].0).len() <= u32::MAX);
        crate::codec::lemma_decode_one(c[0], encode_entries(rest) + tail);
        assert(encode_entries(c) + tail =~= crate::codec::encode_entry(c[0]) + (encode_entries(rest)
            + tail));
        assert(seq![c[0]] + rest =~= c);
    }
}

/// A reload that meets a record that is not valid UTF-8 with more bytes after
/// it fails with `ReadBytesError`, leaves memory as it was, and leaves the
/// entries stale, so that the next operation reads the file again.
pub proof fn law_unreadable_buffer_fails(v: InstanceView, outcome: LoadOutcome, op: Operation)
    requires
        v.stage == Stage::Loading,
        v.op == Operation::ReadData,
        v.stale,
        outcome matches LoadOutcome::Bytes(b) && !decode_entries(b@).1,
        op != Operation::FileBlank,
        op != Operation::WriteFileContents,
    ensures
        step(v, Event::Loaded(outcome)) == (idle(v), ActionView::Finish(
            Err(TErrors::ReadBytesError),
        )),
        begin(step(v, Event::Loaded(outcome)).0, op).1 == ActionView::Load(v.path),
{
}

/// A whole `write_pair` from stale entries, the disk holding the entries `c`
/// (none, for an empty file) and every disk action succeeding: the file is read, the bytes
/// asked to be saved are those of `c` with the new pair at the end, and once
/// saved the operation finishes with exactly those entries current in memory;
/// reading the saved bytes back gives them again.
pub proof fn law_write_pair_persists(v: InstanceView, c: Seq<Entry>, outcome: LoadOutcome)
    requires
        v.stale,
        lengths_fit(c.push((v.key, v.value))),
        !has_key(c, v.key),
        outcome matches LoadOutcome::Bytes(b) && b@ == encode_entries(c),
    ensures
        ({
            let (w1, a1) = begin(v, Operation::WritePair);
            let (w2, a2) = step(w1, Event::Loaded(outcome));
            let (w3, a3) = step(w2, Event::Stored(SaveOutcome::Saved));
            let expected = c.push((v.key, v.value));
            &&& a1 == ActionView::Load(v.path)
            &&& a2 == ActionView::Save(v.path, encode_entries(expected))
            &&& a3 == ActionView::Finish(Ok(()))
            &&& w3.content == expected
            &&& !w3.stale
            &&& w3.stage == Stage::Idle
            &&& decode_entries(encode_entries(expected)) == (expected, true)
        }),
{
    let expected = c.push((v.key, v.value));
    assert(lengths_fit(c)) by {
        assert forall|i: int| 0 <= i < c.len() implies encode_utf8(#[trigger] c[i].0).len()
            <= u32::MAX && encode_utf8(c[i].1).len() <= u32::MAX by {
            assert(expected[i] == c[i]);
            assert(encode_utf8(expected[i].0).len() <= u32::MAX);
        }
    }
    lemma_decode_encode(c);
    lemma_decode_encode(expected);
}

/// Whether `w` is `c` with entries appended at the end, none of whose keys
/// `c` already holds: no entry of `c` changes or moves.
pub open spec fn grows_by_new_keys(c: Seq<Entry>, w: Seq<Entry>) -> bool {
    &&& c.len() <= w.len()
    &&& w.subrange(0, c.len() as int) == c
    &&& forall|i: int| c.len() <= i < w.len() ==> !has_key(c, #[trigger] w[i].0)
}

proof fn lemma_grows_trans(a: Seq<Entry>, b: Seq<Entry>, c: Seq<Entry>)
    requires
        grows_by_new_keys(a, b),
        grows_by_new_keys(b, c),
    ensures
        grows_by_new_keys(a, c),
{
    assert forall|i: int| 0 <= i < a.len() implies c.subrange(0, a.len() as int)[i] == a[i] by {
        assert(c.subrange(0, b.len() as int)[i] == c[i]);
        assert(b.subrange(0, a.len() as int)[i] == b[i]);
    }
    assert(c.subrange(0, a.len() as int) =~= a);
    assert forall|i: int| a.len() <= i < c.len() implies !has_key(a, #[trigger] c[i].0) by {
        if i < b.len() {
            assert(c.subrange(0, b.len() as int)[i] == c[i]);
            assert(b[i] == c[i]);
        } else {
            if has_key(a, c[i].0) {
                let m: int = choose|m: int| 0 <= m < a.len() && #[trigger] a[m].0 == c[i].0;
                assert(b.subrange(0, a.len() as int)[m] == b[m]);
                assert(b[m].0 == c[i].0);
            }
        }
    }
}

proof fn lemma_grows_refl(c: Seq<Entry>)
    ensures
        grows_by_new_keys(c, c),
{
    assert(c.subrange(0, c.len() as int) =~= c);
}

proof fn lemma_write_effect_grows(v: InstanceView)
    ensures
        grows_by_new_keys(v.content, write_effect(v).content),
{
    lemma_grows_refl(v.content);
    if !has_key(v.content, v.key) {
        let w = v.content.push((v.key, v.value));
        assert(w.subrange(0, v.content.len() as int) =~= v.content);
    }
}

proof fn lemma_batch_grows(v: InstanceView)
    ensures
        grows_by_new_keys(v.content, next_in_batch(v).0.content),
    decreases v.batch.len(),
{
    lemma_grows_refl(v.content);
    if v.batch.len() > 0 {
        let e = v.batch[0];
        let v1 = InstanceView {
            key: crate::text::trim(e.0),
            value: crate::text::trim(e.1),
            batch: v.batch.drop_first(),
            ..v
        };
        if !v1.stale {
            lemma_write_effect_grows(v1);
            if has_key(v1.content, v1.key) {
                lemma_batch_grows(write_effect(v1));
                lemma_grows_trans(v.content, write_effect(v1).content, next_in_batch(write_effect(v1)).0.content);
            }
        }
    }
}

/// Writing never changes an entry that is already there: whatever comes of
/// a step of `write_pair` or `write_file_contents`, the entries in memory
/// afterwards are those it started from (the file's entries, when the file
/// was just read) with pairs of new keys appended. Starting
/// `write_file_contents` keeps, likewise, the entries in memory with the
/// active pair appended (when its key is not empty).
pub proof fn law_write_never_changes_present_entries(v: InstanceView, ev: Event)
    ensures
        (v.op == Operation::WritePair || v.op == Operation::WriteFileContents) ==> grows_by_new_keys(
            match ev {
                Event::Loaded(LoadOutcome::Bytes(b)) => if decode_entries(b@).1 {
                    decode_entries(b@).0
                } else {
                    v.content
                },
                Event::Loaded(LoadOutcome::Missing) => Seq::empty(),
                _ => v.content,
            },
            step(v, ev).0.content,
        ),
        !v.stale ==> grows_by_new_keys(v.content, begin(v, Operation::WritePair).0.content),
        grows_by_new_keys(
            if v.key.len() > 0 {
                v.content.push((v.key, v.value))
            } else {
                v.content
            },
            begin_batch(v).0.content,
        ),
{
    let c = if v.key.len() > 0 {
        v.content.push((v.key, v.value))
    } else {
        v.content
    };
    lemma_batch_grows(InstanceView { op: Operation::WriteFileContents, content: c, batch: c, ..v });
    let b0 = InstanceView { op: Operation::WritePair, batch: Seq::empty(), ..v };
    lemma_write_effect_grows(b0);
    lemma_grows_refl(v.content);
    lemma_grows_refl(Seq::<Entry>::empty());
    if v.op == Operation::WritePair || v.op == Operation::WriteFileContents {
        lemma_batch_grows(v);
        let v0 = InstanceView { stale: false, ..v };
        lemma_write_effect_grows(v0);
        lemma_batch_grows(write_effect(v0));
        if has_key(v0.content, v0.key) {
            lemma_grows_trans(v.content, write_effect(v0).content, next_in_batch(write_effect(v0)).0.content);
        }
        match ev {
            Event::Loaded(LoadOutcome::Bytes(b)) => {
                let v2 = InstanceView { stale: false, content: decode_entries(b@).0, ..v };
                lemma_write_effect_grows(v2);
                lemma_batch_grows(write_effect(v2));
                lemma_grows_refl(decode_entries(b@).0);
                if has_key(v2.content, v2.key) {
                    lemma_grows_trans(v2.content, write_effect(v2).content, next_in_batch(write_effect(v2)).0.content);
                }
            },
            _ => {},
        }
    }
}

/// An update, delete or write that starts from stale entries acts on what the
/// file holds: answered with the bytes of entries `c`, it goes on with `c`
/// (not the entries that were in memory). An update sets the value of the
/// first entry of the key in place, keeping every other entry, or appends the
/// pair; a delete keeps exactly the entries of other keys; a write appends
/// the pair when the key is new and otherwise changes nothing. What is asked
/// to be saved is the encoding of the result.
pub proof fn law_stale_operations_act_on_file(v: InstanceView, c: Seq<Entry>, outcome: LoadOutcome)
    requires
        v.stale,
        lengths_fit(c),
        outcome matches LoadOutcome::Bytes(b) && b@ == encode_entries(c),
    ensures
        ({
            let (w, a) = step(begin(v, Operation::UpdatePair).0, Event::Loaded(outcome));
            &&& a == ActionView::Save(v.path, encode_entries(w.content))
            &&& has_key(c, v.key) ==> {
                &&& w.content.len() == c.len()
                &&& w.content[first_index(c, v.key)] == (v.key, v.value)
                &&& forall|i: int| 0 <= i < c.len() && i != first_index(c, v.key)
                    ==> #[trigger] w.content[i] == c[i]
            }
            &&& !has_key(c, v.key) ==> w.content == c.push((v.key, v.value))
        }),
        ({
            let (w, a) = step(begin(v, Operation::DeletePair).0, Event::Loaded(outcome));
            &&& a == ActionView::Save(v.path, encode_entries(w.content))
            &&& w.content == without_key(c, v.key)
            &&& forall|j: Seq<char>| #[trigger] has_key(w.content, j) <==> has_key(c, j) && j != v.key
        }),
        ({
            let (w, a) = step(begin(v, Operation::WritePair).0, Event::Loaded(outcome));
            &&& has_key(c, v.key) ==> w.content == c && a == ActionView::Finish(Ok(()))
            &&& !has_key(c, v.key) ==> w.content == c.push((v.key, v.value)) && a
                == ActionView::Save(v.path, encode_entries(c.push((v.key, v.value))))
        }),
{
    lemma_decode_encode(c);
    if has_key(c, v.key) {
        lemma_with_value(c, v.key, v.value);
    }
    assert forall|j: Seq<char>| #[trigger] has_key(without_key(c, v.key), j) <==> has_key(c, j) && j != v.key by {
        lemma_without_key_keys(c, v.key, j);
    }
}

/// A write, update or delete that finds the file missing creates it empty and
/// then goes on with the operation on no entries: a write or an update asks to
/// save exactly the active pair, a delete asks to save no entries.
pub proof fn law_missing_file_then_operation(v: InstanceView)
    requires
        v.stale,
    ensures
        ({
            let (w1, a1) = step(begin(v, Operation::WritePair).0, Event::Loaded(LoadOutcome::Missing));
            let (w2, a2) = step(w1, Event::Stored(SaveOutcome::Saved));
            &&& a1 == ActionView::Save(v.path, Seq::empty())
            &&& w2.content == seq![(v.key, v.value)]
            &&& a2 == ActionView::Save(v.path, encode_entries(seq![(v.key, v.value)]))
            &&& v.log ==> w2.logger.added == v.logger.added.push((v.key, v.value))
        }),
        ({
            let (w1, a1) = step(begin(v, Operation::UpdatePair).0, Event::Loaded(LoadOutcome::Missing));
            let (w2, a2) = step(w1, Event::Stored(SaveOutcome::Saved));
            &&& a1 == ActionView::Save(v.path, Seq::empty())
            &&& w2.content == seq![(v.key, v.value)]
            &&& a2 == ActionView::Save(v.path, encode_entries(seq![(v.key, v.value)]))
        }),
        ({
            let (w1, a1) = step(begin(v, Operation::DeletePair).0, Event::Loaded(LoadOutcome::Missing));
            let (w2, a2) = step(w1, Event::Stored(SaveOutcome::Saved));
            &&& a1 == ActionView::Save(v.path, Seq::empty())
            &&& w2.content == Seq::<Entry>::empty()
            &&& a2 == ActionView::Save(v.path, encode_entries(Seq::empty()))
        }),
{
    assert(Seq::<Entry>::empty().push((v.key, v.value)) =~= seq![(v.key, v.value)]);
    assert(without_key(Seq::<Entry>::empty(), v.key) =~= Seq::<Entry>::empty());
}

/// Once the file is deleted, the next operation that reads first reloads
/// from disk.
pub proof fn law_blank_forces_reload(v: InstanceView, op: Operation)
    requires
        v.stage == Stage::Removing,
        op != Operation::FileBlank,
        op != Operation::WriteFileContents,
    ensures
        step(v, Event::Removed(true)).1 == ActionView::Finish(Ok(())),
        step(v, Event::Removed(true)).0.stale,
        begin(step(v, Event::Removed(true)).0, op).1 == ActionView::Load(v.path),
{
}

/// A save that fails finishes the operation with the error of its stage,
/// the entries in memory kept as they were changed.
pub proof fn law_failed_save(v: InstanceView, outcome: SaveOutcome)
    requires
        v.stage == Stage::Saving,
        v.op != Operation::WriteFileContents,
        outcome != SaveOutcome::Saved,
    ensures
        step(v, Event::Stored(outcome)).1 == ActionView::Finish(
            if outcome == SaveOutcome::TempFailed {
                Err(TErrors::TempCreate)
            } else {
                Err(TErrors::TempReplace)
            },
        ),
        step(v, Event::Stored(outcome)).0.content == v.content,
{
}

} // verus!
