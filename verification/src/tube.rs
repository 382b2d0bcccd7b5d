//! Video-style blob storage: a blob, its length and its title per video id.
use vstd::prelude::*;
use vstd::string::StringSliceAdditionalSpecFns;
use crate::codec::{le_u64, u64_le_bytes, decode_u64_at, u64_to_le_vec, lemma_u64_roundtrip};
use crate::error::ContractError;
use crate::host::{spec_load, spec_text, load_bytes, load_text, key_with, reply_view, reply_byte, Event, event_log, emit};
use crate::store::{KvStore, prefix_up_to};
use vstd::utf8::valid_utf8;
use crate::codec::{u32_le_bytes, lemma_u32_roundtrip};
use crate::wire::{spec_string_field, lemma_read_string_field, spec_read_u32, spec_read_u8, spec_read_string, spec_read_blob32, read_u8, read_string, read_blob32, NO_LIMIT};

verus! {

pub const OP_PUBLISH: u8 = 1;
pub const OP_GET_VIDEO: u8 = 2;
pub const OP_GET_META: u8 = 3;
pub const OP_DELETE: u8 = 4;

/// Largest blob accepted and returned.
pub const MAX_BLOB_BYTES: usize = 2097152;

pub open spec fn data_key(id: Seq<u8>) -> Seq<u8> {
    "spacekittube:video:".spec_bytes() + id
}

pub open spec fn len_key(id: Seq<u8>) -> Seq<u8> {
    "spacekittube:video_len:".spec_bytes() + id
}

pub open spec fn meta_key(id: Seq<u8>) -> Seq<u8> {
    "spacekittube:meta:".spec_bytes() + id
}

/// GET_VIDEO: the stored length, then that many bytes of the blob.
pub open spec fn spec_get_video(m: Map<Seq<u8>, Seq<u8>>, id: Seq<u8>) -> Result<Seq<u8>, ContractError> {
    match spec_load(m, len_key(id), 8) {
        Err(e) => Err(e),
        Ok(lb) => if lb.len() < 8 {
            Err(ContractError::StorageError)
        } else if le_u64(lb) == 0 || le_u64(lb) > MAX_BLOB_BYTES {
            Err(ContractError::StorageError)
        } else {
            spec_load(m, data_key(id), le_u64(lb) as int)
        },
    }
}

/// PUBLISH: blob, then its length, then the title.
pub open spec fn spec_publish(m: Map<Seq<u8>, Seq<u8>>, id: Seq<u8>, title: Seq<u8>, blob: Seq<u8>) -> (Map<Seq<u8>, Seq<u8>>, Result<Seq<u8>, ContractError>) {
    if id.len() == 0 || title.len() == 0 || blob.len() == 0 {
        (m, Err(ContractError::InvalidInput))
    } else {
        (m.insert(data_key(id), blob).insert(len_key(id), u64_le_bytes(blob.len() as u64)).insert(meta_key(id), title), Ok(seq![1u8]))
    }
}

/// DELETE: the blob, its length and its title are overwritten with empty
/// values (a zero length).
pub open spec fn spec_delete(m: Map<Seq<u8>, Seq<u8>>, id: Seq<u8>) -> Map<Seq<u8>, Seq<u8>> {
    m.insert(data_key(id), Seq::<u8>::empty()).insert(len_key(id), u64_le_bytes(0)).insert(meta_key(id), Seq::<u8>::empty())
}

pub open spec fn spec_handle(m: Map<Seq<u8>, Seq<u8>>, input: Seq<u8>) -> (Map<Seq<u8>, Seq<u8>>, Result<Seq<u8>, ContractError>) {
    let bad = (m, Err(ContractError::InvalidInput));
    match spec_read_u8(input, 0) {
        None => bad,
        Some((op, p)) => if op == OP_PUBLISH {
            match spec_read_string(input, p, NO_LIMIT as int) {
                None => bad,
                Some((id, p1)) => match spec_read_string(input, p1, NO_LIMIT as int) {
                    None => bad,
                    Some((title, p2)) => match spec_read_blob32(input, p2, MAX_BLOB_BYTES as int) {
                        None => bad,
                        Some((blob, _)) => spec_publish(m, id, title, blob),
                    },
                },
            }
        } else if op == OP_GET_VIDEO || op == OP_GET_META || op == OP_DELETE {
            match spec_read_string(input, p, NO_LIMIT as int) {
                None => bad,
                Some((id, _)) => if op == OP_GET_VIDEO {
                    (m, spec_get_video(m, id))
                } else if op == OP_GET_META {
                    (m, spec_text(m, meta_key(id), 256))
                } else if id.len() == 0 {
                    bad
                } else {
                    (spec_delete(m, id), Ok(seq![1u8]))
                },
            }
        } else {
            bad
        }
    }
}

/// The event of a call: a publication or a deletion that went through
/// names the video id.
pub open spec fn spec_events(m: Map<Seq<u8>, Seq<u8>>, input: Seq<u8>) -> Seq<(Seq<u8>, Seq<u8>)> {
    match spec_read_u8(input, 0) {
        None => seq![],
        Some((op, p)) => match spec_read_string(input, p, NO_LIMIT as int) {
            None => seq![],
            Some((id, _)) => if !(spec_handle(m, input).1 is Ok) {
                seq![]
            } else if op == OP_PUBLISH {
                seq![("spacekit.tube.publish".spec_bytes(), id)]
            } else if op == OP_DELETE {
                seq![("spacekit.tube.delete".spec_bytes(), id)]
            } else {
                seq![]
            },
        },
    }
}

fn get_video_blob(store: &KvStore, id: &[u8]) -> (r: Result<Vec<u8>, ContractError>)
    requires
        store.wf(),
    ensures
        reply_view(r) == spec_get_video(store@, id@),
{
    let lk = key_with("spacekittube:video_len:", id);
    let len_bytes = load_bytes(store, lk.as_slice(), 8)?;
    if len_bytes.len() < 8 {
        return Err(ContractError::StorageError);
    }
    assert(len_bytes@.subrange(0, 8) =~= len_bytes@);
    let len = decode_u64_at(len_bytes.as_slice(), 0);
    if len == 0 || len > MAX_BLOB_BYTES as u64 {
        return Err(ContractError::StorageError);
    }
    let dk = key_with("spacekittube:video:", id);
    load_bytes(store, dk.as_slice(), len as usize)
}

fn set_video(store: &mut KvStore, id: &[u8], blob: &[u8], title: &[u8])
    requires
        old(store).wf(),
        blob@.len() <= MAX_BLOB_BYTES,
    ensures
        final(store).wf(),
        final(store)@ == old(store)@.insert(data_key(id@), blob@).insert(len_key(id@), u64_le_bytes(blob@.len() as u64)).insert(meta_key(id@), title@),
{
    let dk = key_with("spacekittube:video:", id);
    let lk = key_with("spacekittube:video_len:", id);
    let mk = key_with("spacekittube:meta:", id);
    store.save(dk.as_slice(), blob);
    let lv = u64_to_le_vec(blob.len() as u64);
    store.save(lk.as_slice(), lv.as_slice());
    store.save(mk.as_slice(), title);
}

/// Runs one call of the tube contract on `input` against `store`,
/// appending its event to `events`.
pub fn handle(store: &mut KvStore, input: &[u8], events: &mut Vec<Event>) -> (r: Result<Vec<u8>, ContractError>)
    requires
        old(store).wf(),
    ensures
        final(store).wf(),
        (final(store)@, reply_view(r)) == spec_handle(old(store)@, input@),
        event_log(final(events)@) == event_log(old(events)@) + spec_events(old(store)@, input@),
{
    let mut cursor: usize = 0;
    let op = read_u8(input, &mut cursor)?;
    if op == OP_PUBLISH {
        let id = read_string(input, &mut cursor, NO_LIMIT)?;
        let title = read_string(input, &mut cursor, NO_LIMIT)?;
        let blob = read_blob32(input, &mut cursor, MAX_BLOB_BYTES)?;
        if id.len() == 0 || title.len() == 0 || blob.len() == 0 {
            return Err(ContractError::InvalidInput);
        }
        set_video(store, id.as_slice(), blob.as_slice(), title.as_slice());
        emit(events, "spacekit.tube.publish", id.as_slice());
        Ok(reply_byte(1))
    } else if op == OP_GET_VIDEO || op == OP_GET_META || op == OP_DELETE {
        let id = read_string(input, &mut cursor, NO_LIMIT)?;
        if op == OP_GET_VIDEO {
            get_video_blob(store, id.as_slice())
        } else if op == OP_GET_META {
            let mk = key_with("spacekittube:meta:", id.as_slice());
            load_text(store, mk.as_slice(), 256)
        } else {
            if id.len() == 0 {
                return Err(ContractError::InvalidInput);
            }
            let empty: Vec<u8> = Vec::new();
            set_video(store, id.as_slice(), empty.as_slice(), empty.as_slice());
            emit(events, "spacekit.tube.delete", id.as_slice());
            Ok(reply_byte(1))
        }
    } else {
        Err(ContractError::InvalidInput)
    }
}

proof fn lemma_keys_distinct(id: Seq<u8>)
    ensures
        data_key(id) != len_key(id),
        data_key(id) != meta_key(id),
        len_key(id) != meta_key(id),
{
    reveal_strlit("spacekittube:video:");
    reveal_strlit("spacekittube:video_len:");
    reveal_strlit("spacekittube:meta:");
    vstd::string::is_ascii_spec_bytes("spacekittube:video:");
    vstd::string::is_ascii_spec_bytes("spacekittube:video_len:");
    vstd::string::is_ascii_spec_bytes("spacekittube:meta:");
    assert(data_key(id).len() != len_key(id).len());
    assert(data_key(id)[13] != meta_key(id)[13]);
    assert(len_key(id)[13] != meta_key(id)[13]);
}

/// A published video reads back as the blob that was published.
pub proof fn law_publish_then_get(m: Map<Seq<u8>, Seq<u8>>, id: Seq<u8>, title: Seq<u8>, blob: Seq<u8>)
    requires
        spec_publish(m, id, title, blob).1 is Ok,
        blob.len() <= MAX_BLOB_BYTES,
    ensures
        spec_get_video(spec_publish(m, id, title, blob).0, id) == Ok::<Seq<u8>, ContractError>(blob),
{
    lemma_keys_distinct(id);
    lemma_u64_roundtrip(blob.len() as u64);
    assert(prefix_up_to(u64_le_bytes(blob.len() as u64), 8) =~= u64_le_bytes(blob.len() as u64));
}

/// A deleted video no longer reads back: neither its blob nor its title,
/// whatever was published under its id before.
pub proof fn law_delete_then_get_fails(m: Map<Seq<u8>, Seq<u8>>, id: Seq<u8>)
    ensures
        spec_get_video(spec_delete(m, id), id) == Err::<Seq<u8>, ContractError>(ContractError::StorageError),
        spec_text(spec_delete(m, id), meta_key(id), 256) == Err::<Seq<u8>, ContractError>(ContractError::StorageError),
{
    lemma_keys_distinct(id);
    lemma_u64_roundtrip(0);
    assert(prefix_up_to(u64_le_bytes(0), 8) =~= u64_le_bytes(0));
}

/// A call `[op][id]` naming one video.
pub open spec fn video_call(op: u8, id: Seq<u8>) -> Seq<u8> {
    seq![op] + spec_string_field(id)
}

/// PUBLISH of a video: id, title, then the blob with its `u32` length.
pub open spec fn publish_call(id: Seq<u8>, title: Seq<u8>, blob: Seq<u8>) -> Seq<u8> {
    seq![OP_PUBLISH] + spec_string_field(id) + spec_string_field(title) + u32_le_bytes(blob.len() as u32) + blob
}

/// Text that a call can carry: UTF-8 of at most `NO_LIMIT` bytes.
pub open spec fn text_ok(s: Seq<u8>) -> bool {
    s.len() <= NO_LIMIT && valid_utf8(s)
}

proof fn lemma_read_blob_field(pre: Seq<u8>, blob: Seq<u8>)
    requires
        blob.len() <= MAX_BLOB_BYTES,
    ensures
        spec_read_blob32(pre + u32_le_bytes(blob.len() as u32) + blob, pre.len() as int, MAX_BLOB_BYTES as int)
            == Some((blob, pre.len() + 4 + blob.len() as int)),
{
    let v = blob.len() as u32;
    let c = pre + u32_le_bytes(v) + blob;
    let p = pre.len() as int;
    assert(c[p] == v as u8);
    assert(c[p + 1] == (v >> 8u32) as u8);
    assert(c[p + 2] == (v >> 16u32) as u8);
    assert(c[p + 3] == (v >> 24u32) as u8);
    lemma_u32_roundtrip(v);
    assert(spec_read_u32(c, p) == Some((v, p + 4)));
    assert(c.subrange(p + 4, p + 4 + blob.len()) =~= blob);
}

proof fn lemma_publish_parses(id: Seq<u8>, title: Seq<u8>, blob: Seq<u8>)
    requires
        text_ok(id),
        text_ok(title),
        blob.len() <= MAX_BLOB_BYTES,
    ensures
        spec_read_u8(publish_call(id, title, blob), 0) == Some((OP_PUBLISH, 1int)),
        spec_read_string(publish_call(id, title, blob), 1, NO_LIMIT as int) == Some((id, 3 + id.len() as int)),
        spec_read_string(publish_call(id, title, blob), 3 + id.len() as int, NO_LIMIT as int)
            == Some((title, 5 + id.len() + title.len() as int)),
        spec_read_blob32(publish_call(id, title, blob), 5 + id.len() + title.len() as int, MAX_BLOB_BYTES as int)
            matches Some((b, _)) && b == blob,
{
    let c = publish_call(id, title, blob);
    let tail = u32_le_bytes(blob.len() as u32) + blob;
    let f1 = seq![OP_PUBLISH] + spec_string_field(id);
    let f2 = f1 + spec_string_field(title);
    assert(f1.len() == 3 + id.len());
    assert(f2.len() == 5 + id.len() + title.len());
    assert(spec_read_string(c, 1, NO_LIMIT as int) == Some((id, 3 + id.len() as int))) by {
        assert(c =~= seq![OP_PUBLISH] + spec_string_field(id) + (spec_string_field(title) + tail));
        lemma_read_string_field(seq![OP_PUBLISH], id, spec_string_field(title) + tail, NO_LIMIT as int);
    }
    assert(spec_read_string(c, 3 + id.len() as int, NO_LIMIT as int) == Some((title, 5 + id.len() + title.len() as int))) by {
        assert(c =~= f1 + spec_string_field(title) + tail);
        lemma_read_string_field(f1, title, tail, NO_LIMIT as int);
    }
    assert(spec_read_blob32(c, 5 + id.len() + title.len() as int, MAX_BLOB_BYTES as int) == Some((blob, f2.len() + 4 + blob.len() as int))) by {
        assert(c =~= f2 + u32_le_bytes(blob.len() as u32) + blob);
        lemma_read_blob_field(f2, blob);
    }
}

proof fn lemma_publish_parts(m: Map<Seq<u8>, Seq<u8>>, c: Seq<u8>, id: Seq<u8>, title: Seq<u8>, blob: Seq<u8>, p1: int, p2: int)
    requires
        spec_read_u8(c, 0) == Some((OP_PUBLISH, 1int)),
        spec_read_string(c, 1, NO_LIMIT as int) == Some((id, p1)),
        spec_read_string(c, p1, NO_LIMIT as int) == Some((title, p2)),
        spec_read_blob32(c, p2, MAX_BLOB_BYTES as int) matches Some((b, _)) && b == blob,
    ensures
        spec_handle(m, c) == spec_publish(m, id, title, blob),
{
}

proof fn lemma_video_parts(m: Map<Seq<u8>, Seq<u8>>, c: Seq<u8>, op: u8, id: Seq<u8>, p: int)
    requires
        op == OP_GET_VIDEO || op == OP_GET_META || op == OP_DELETE,
        spec_read_u8(c, 0) == Some((op, 1int)),
        spec_read_string(c, 1, NO_LIMIT as int) == Some((id, p)),
        id.len() > 0,
    ensures
        op == OP_GET_VIDEO ==> spec_handle(m, c) == (m, spec_get_video(m, id)),
        op == OP_GET_META ==> spec_handle(m, c) == (m, spec_text(m, meta_key(id), 256)),
        op == OP_DELETE ==> spec_handle(m, c) == (spec_delete(m, id), Ok::<Seq<u8>, ContractError>(seq![1u8])),
{
}

proof fn lemma_video_call(m: Map<Seq<u8>, Seq<u8>>, op: u8, id: Seq<u8>)
    requires
        op == OP_GET_VIDEO || op == OP_GET_META || op == OP_DELETE,
        text_ok(id),
        id.len() > 0,
    ensures
        op == OP_GET_VIDEO ==> spec_handle(m, video_call(op, id)) == (m, spec_get_video(m, id)),
        op == OP_GET_META ==> spec_handle(m, video_call(op, id)) == (m, spec_text(m, meta_key(id), 256)),
        op == OP_DELETE ==> spec_handle(m, video_call(op, id)) == (spec_delete(m, id), Ok::<Seq<u8>, ContractError>(seq![1u8])),
{
    lemma_read_string_field(seq![op], id, Seq::<u8>::empty(), NO_LIMIT as int);
    assert(seq![op] + spec_string_field(id) + Seq::<u8>::empty() =~= video_call(op, id));
    lemma_video_parts(m, video_call(op, id), op, id, 3 + id.len() as int);
}

/// Through the contract's calls: PUBLISH of a video (non-empty id, title
/// of at most 256 bytes and blob) answers `[1]`; GET_VIDEO then answers
/// the blob and GET_META the title, whatever was stored under the id
/// before. DELETE then answers `[1]`, after which GET_VIDEO and GET_META
/// answer `StorageError`.
pub proof fn law_publish_get_delete_calls(m: Map<Seq<u8>, Seq<u8>>, id: Seq<u8>, title: Seq<u8>, blob: Seq<u8>)
    requires
        0 < id.len(),
        text_ok(id),
        0 < title.len() <= 256,
        valid_utf8(title),
        0 < blob.len() <= MAX_BLOB_BYTES,
    ensures
        spec_handle(m, publish_call(id, title, blob)).1 == Ok::<Seq<u8>, ContractError>(seq![1u8]),
        spec_handle(spec_handle(m, publish_call(id, title, blob)).0, video_call(OP_GET_VIDEO, id)).1
            == Ok::<Seq<u8>, ContractError>(blob),
        spec_handle(spec_handle(m, publish_call(id, title, blob)).0, video_call(OP_GET_META, id)).1
            == Ok::<Seq<u8>, ContractError>(title),
        spec_handle(spec_handle(m, publish_call(id, title, blob)).0, video_call(OP_DELETE, id)).1
            == Ok::<Seq<u8>, ContractError>(seq![1u8]),
        spec_handle(spec_handle(spec_handle(m, publish_call(id, title, blob)).0, video_call(OP_DELETE, id)).0, video_call(OP_GET_VIDEO, id)).1
            == Err::<Seq<u8>, ContractError>(ContractError::StorageError),
        spec_handle(spec_handle(spec_handle(m, publish_call(id, title, blob)).0, video_call(OP_DELETE, id)).0, video_call(OP_GET_META, id)).1
            == Err::<Seq<u8>, ContractError>(ContractError::StorageError),
{
    lemma_publish_parses(id, title, blob);
    lemma_publish_parts(m, publish_call(id, title, blob), id, title, blob, 3 + id.len() as int, 5 + id.len() + title.len() as int);
    let m1 = spec_publish(m, id, title, blob).0;
    law_publish_then_get(m, id, title, blob);
    lemma_video_call(m1, OP_GET_VIDEO, id);
    lemma_video_call(m1, OP_GET_META, id);
    lemma_video_call(m1, OP_DELETE, id);
    assert(prefix_up_to(title, 256) =~= title);
    let m2 = spec_delete(m1, id);
    law_delete_then_get_fails(m1, id);
    lemma_video_call(m2, OP_GET_VIDEO, id);
    lemma_video_call(m2, OP_GET_META, id);
}

} // verus!
