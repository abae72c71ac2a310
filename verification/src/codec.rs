//! The on-disk format of a database file.
//!
//! Each entry is written as a 4-byte little-endian key length, the key's UTF-8
//! bytes, a 4-byte little-endian value length and the value's UTF-8 bytes.
//! Reading stops quietly at a truncated record at the end of the buffer, and
//! at a last record whose key or value is not valid UTF-8. Such a record with
//! more bytes after it makes the buffer unreadable.
use vstd::bytes::{spec_u32_from_le_bytes, spec_u32_to_le_bytes, u32_from_le_bytes, u32_to_le_bytes};
use vstd::prelude::*;
use vstd::slice::{slice_subrange, slice_to_vec};
use vstd::string::StringSliceAdditionalSpecFns;
use vstd::utf8::{decode_utf8, encode_utf8, valid_utf8};

verus! {

broadcast use vstd::utf8::encode_utf8_valid_utf8, vstd::utf8::encode_utf8_decode_utf8;

/// A key-value entry as the contracts see it.
pub type Entry = (Seq<char>, Seq<char>);

/// The bytes of one entry.
pub open spec fn encode_entry(e: Entry) -> Seq<u8> {
    let k = encode_utf8(e.0);
    let v = encode_utf8(e.1);
    spec_u32_to_le_bytes(k.len() as u32) + k + spec_u32_to_le_bytes(v.len() as u32) + v
}

/// The bytes of a sequence of entries, in order.
pub open spec fn encode_entries(c: Seq<Entry>) -> Seq<u8>
    decreases c.len(),
{
    if c.len() == 0 {
        Seq::empty()
    } else {
        encode_entry(c[0]) + encode_entries(c.drop_first())
    }
}

/// Whether the UTF-8 form of every key and value is shorter than 2^32 bytes, so
/// that its length fits the 4-byte prefix.
pub open spec fn lengths_fit(c: Seq<Entry>) -> bool {
    forall|i: int|
        0 <= i < c.len() ==> encode_utf8(#[trigger] c[i].0).len() <= u32::MAX && encode_utf8(
            c[i].1,
        ).len() <= u32::MAX
}

/// The entries that a buffer holds, and whether it is readable: its records
/// in order, up to a truncated record at the end or a last record whose key
/// or value is not valid UTF-8 (both ignored). A record that is not valid
/// UTF-8 with more bytes after it makes the buffer unreadable (`false`).
pub open spec fn decode_entries(b: Seq<u8>) -> (Seq<Entry>, bool)
    decreases b.len(),
{
    if b.len() < 4 {
        (Seq::empty(), true)
    } else {
        let klen: int = spec_u32_from_le_bytes(b.subrange(0, 4)) as int;
        if 8 + klen > b.len() {
            (Seq::empty(), true)
        } else {
            let vlen: int = spec_u32_from_le_bytes(b.subrange(4 + klen, 8 + klen)) as int;
            let end: int = 8 + klen + vlen;
            if end > b.len() {
                (Seq::empty(), true)
            } else if !valid_utf8(b.subrange(4, 4 + klen)) || !valid_utf8(
                b.subrange(8 + klen, end),
            ) {
                (Seq::empty(), end == b.len())
            } else {
                let e = (decode_utf8(b.subrange(4, 4 + klen)), decode_utf8(b.subrange(8 + klen, end)));
                let rest = decode_entries(b.subrange(end, b.len() as int));
                (seq![e] + rest.0, rest.1)
            }
        }
    }
}

/// `std::str::from_utf8`. Its documentation: it returns `Ok` exactly when the
/// bytes are valid UTF-8, and then a `str` made of those very bytes. The
/// contract claims no more than that.
#[verifier::external_body]
fn str_from_utf8(bytes: &[u8]) -> (r: Option<&str>)
    ensures
        r is Some <==> valid_utf8(bytes@),
        r matches Some(s) ==> s.spec_bytes() == bytes@,
{
    std::str::from_utf8(bytes).ok()
}

/// Decodes a buffer as valid UTF-8 into an owned string.
fn utf8_string(bytes: &[u8]) -> (r: Option<String>)
    ensures
        r is Some <==> valid_utf8(bytes@),
        r matches Some(s) ==> s@ == decode_utf8(bytes@),
{
    match str_from_utf8(bytes) {
        Some(s) => {
            proof {
                vstd::utf8::encode_utf8_decode_utf8(s@);
            }
            Some(s.to_owned())
        },
        None => None,
    }
}

proof fn lemma_encode_push(c: Seq<Entry>, e: Entry)
    ensures
        encode_entries(c.push(e)) == encode_entries(c) + encode_entry(e),
    decreases c.len(),
{
    if c.len() == 0 {
        assert(c.push(e).drop_first() =~= Seq::<Entry>::empty());
        assert(encode_entries(Seq::<Entry>::empty()) == Seq::<u8>::empty());
        assert(encode_entries(c.push(e)) =~= encode_entry(e) + Seq::<u8>::empty());
        assert(encode_entries(c.push(e)) =~= encode_entry(e));
    } else {
        assert(c.push(e).drop_first() =~= c.drop_first().push(e));
        lemma_encode_push(c.drop_first(), e);
        assert(encode_entries(c.push(e)) =~= encode_entries(c) + encode_entry(e));
    }
}

/// The bytes of the entries `content`, as the file stores them.
pub fn encode_contents(content: &Vec<(String, String)>) -> (r: Vec<u8>)
    ensures
        r@ == encode_entries(content.deep_view()),
{
    let ghost c = content.deep_view();
    let mut out: Vec<u8> = Vec::new();
    let mut i: usize = 0;
    assert(c.take(0) =~= Seq::<Entry>::empty());
    while i < content.len()
        invariant
            0 <= i <= content.len(),
            c == content.deep_view(),
            out@ == encode_entries(c.take(i as int)),
        decreases content.len() - i,
    {
        let key_bytes = content[i].0.as_str().as_bytes();
        let val_bytes = content[i].1.as_str().as_bytes();
        let mut kl = u32_to_le_bytes(key_bytes.len() as u32);
        let mut kb = slice_to_vec(key_bytes);
        let mut vl = u32_to_le_bytes(val_bytes.len() as u32);
        let mut vb = slice_to_vec(val_bytes);
        let ghost before = out@;
        out.append(&mut kl);
        out.append(&mut kb);
        out.append(&mut vl);
        out.append(&mut vb);
        proof {
            assert(c.take(i + 1) =~= c.take(i as int).push(c[i as int]));
            lemma_encode_push(c.take(i as int), c[i as int]);
            assert(out@ =~= before + encode_entry(c[i as int]));
        }
        i = i + 1;
    }
    assert(c.take(content.len() as int) =~= c);
    out
}

/// The entries that `bytes` holds, and whether it is readable (see
/// `decode_entries`).
pub fn decode_contents(bytes: &[u8]) -> (r: (Vec<(String, String)>, bool))
    ensures
        r.0.deep_view() == decode_entries(bytes@).0,
        r.1 == decode_entries(bytes@).1,
{
    let n: usize = bytes.len();
    let mut out: Vec<(String, String)> = Vec::new();
    let mut cursor: usize = 0;
    assert(bytes@.subrange(0, n as int) =~= bytes@);
    while 4 <= n - cursor
        invariant
            n == bytes@.len(),
            0 <= cursor <= n,
            decode_entries(bytes@) == (
                out.deep_view() + decode_entries(bytes@.subrange(cursor as int, n as int)).0,
                decode_entries(bytes@.subrange(cursor as int, n as int)).1,
            ),
        decreases n - cursor,
    {
        let ghost rest = bytes@.subrange(cursor as int, n as int);
        let ghost acc = out.deep_view();
        assert(acc + Seq::<Entry>::empty() =~= acc);
        let key_len: usize = u32_from_le_bytes(slice_subrange(bytes, cursor, cursor + 4)) as usize;
        assert(rest.subrange(0, 4) =~= bytes@.subrange(cursor as int, cursor + 4));
        let c1: usize = cursor + 4;
        if key_len > n - c1 || 4 > n - c1 - key_len {
            return (out, true);
        }
        let c2: usize = c1 + key_len;
        let val_len: usize = u32_from_le_bytes(slice_subrange(bytes, c2, c2 + 4)) as usize;
        assert(rest.subrange(4 + key_len, 8 + key_len) =~= bytes@.subrange(c2 as int, c2 + 4));
        let c3: usize = c2 + 4;
        if val_len > n - c3 {
            return (out, true);
        }
        let end: usize = c3 + val_len;
        let key_bytes = slice_subrange(bytes, c1, c2);
        assert(rest.subrange(4, 4 + key_len) =~= key_bytes@);
        let val_bytes = slice_subrange(bytes, c3, end);
        assert(rest.subrange(8 + key_len, 8 + key_len + val_len) =~= val_bytes@);
        let key = utf8_string(key_bytes);
        let value = utf8_string(val_bytes);
        if key.is_none() || value.is_none() {
            return (out, end == n);
        }
        out.push((key.unwrap(), value.unwrap()));
        cursor = end;
        proof {
            let tail = bytes@.subrange(cursor as int, n as int);
            assert(rest.subrange(8 + key_len + val_len, rest.len() as int) =~= tail);
            let e = (decode_utf8(key_bytes@), decode_utf8(val_bytes@));
            assert(out.deep_view() =~= acc.push(e));
            assert(acc + (seq![e] + decode_entries(tail).0) =~= acc.push(e) + decode_entries(
                tail,
            ).0);
        }
    }
    proof {
        assert(out.deep_view() + Seq::<Entry>::empty() =~= out.deep_view());
    }
    (out, true)
}

/// Decoding the bytes of one entry followed by more bytes gives the entry
/// followed by what the rest decodes to.
pub proof fn lemma_decode_one(e: Entry, tail: Seq<u8>)
    requires
        encode_utf8(e.0).len() <= u32::MAX,
        encode_utf8(e.1).len() <= u32::MAX,
    ensures
        decode_entries(encode_entry(e) + tail) == (seq![e] + decode_entries(tail).0,
        decode_entries(tail).1),
{
    vstd::bytes::lemma_auto_spec_u32_to_from_le_bytes();
    let k = encode_utf8(e.0);
    let v = encode_utf8(e.1);
    let b = encode_entry(e) + tail;
    let klen: int = k.len() as int;
    let vlen: int = v.len() as int;
    assert(b.subrange(0, 4) =~= spec_u32_to_le_bytes(k.len() as u32));
    assert(b.subrange(4, 4 + klen) =~= k);
    assert(b.subrange(4 + klen, 8 + klen) =~= spec_u32_to_le_bytes(v.len() as u32));
    assert(b.subrange(8 + klen, 8 + klen + vlen) =~= v);
    assert(b.subrange(8 + klen + vlen, b.len() as int) =~= tail);
}

/// What is written is read back: decoding the bytes of a sequence of entries
/// gives those entries, readable, when every length fits its prefix.
pub proof fn lemma_decode_encode(c: Seq<Entry>)
    requires
        lengths_fit(c),
    ensures
        decode_entries(encode_entries(c)) == (c, true),
    decreases c.len(),
{
    if c.len() == 0 {
    } else {
        let rest = c.drop_first();
        assert(lengths_fit(rest)) by {
            assert forall|i: int| 0 <= i < rest.len() implies encode_utf8(#[trigger] rest[i].0).len()
                <= u32::MAX && encode_utf8(rest[i].1).len() <= u32::MAX by {
                assert(rest[i] == c[i + 1]);
                assert(encode_utf8(c[i + 1].0).len() <= u32::MAX);
            }
        }
        lemma_decode_encode(rest);
        assert(encode_utf8(c[0].0).len() <= u32::MAX);
        lemma_decode_one(c[0], encode_entries(rest));
        assert(seq![c[0]] + rest =~= c);
    }
}

} // verus!
