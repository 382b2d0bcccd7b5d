//! Score aggregates `(sum, count)` kept as sixteen little-endian bytes, as
//! used by the reputation contracts.
use vstd::prelude::*;
use crate::codec::{le_u64, u64_le_bytes, push_u64_le, decode_u64_at, lemma_u64_roundtrip};
use crate::host::spec_load;
use crate::store::KvStore;

verus! {

/// `(sum, count)` stored under `key`; `(0, 0)` when nothing sixteen bytes
/// long is stored there.
pub open spec fn stored_aggregate(m: Map<Seq<u8>, Seq<u8>>, key: Seq<u8>) -> (u64, u64) {
    match spec_load(m, key, 16) {
        Ok(d) => if d.len() == 16 {
            (le_u64(d.subrange(0, 8)), le_u64(d.subrange(8, 16)))
        } else {
            (0, 0)
        },
        Err(_) => (0, 0),
    }
}

/// The sixteen bytes of an aggregate.
pub open spec fn aggregate_bytes(sum: u64, count: u64) -> Seq<u8> {
    u64_le_bytes(sum) + u64_le_bytes(count)
}

/// An aggregate record can be read back: it is missing, empty, or holds at
/// least sixteen bytes.
pub open spec fn aggregate_readable(m: Map<Seq<u8>, Seq<u8>>, key: Seq<u8>) -> bool {
    m.contains_key(key) ==> (m[key].len() == 0 || m[key].len() >= 16)
}

/// Whether the record under `key` holds a whole aggregate, or nothing.
pub fn aggregate_is_readable(store: &KvStore, key: &[u8]) -> (r: bool)
    requires
        store.wf(),
    ensures
        r == aggregate_readable(store@, key@),
{
    match store.load(key, 16) {
        None => true,
        Some(v) => v.len() == 0 || v.len() == 16,
    }
}

/// The new aggregate after one more score, saturating at `u64::MAX`.
pub open spec fn added(agg: (u64, u64), score: u8) -> (u64, u64) {
    (
        if agg.0 + score > u64::MAX { u64::MAX } else { (agg.0 + score) as u64 },
        if agg.1 + 1 > u64::MAX { u64::MAX } else { (agg.1 + 1) as u64 },
    )
}

/// The average stored under `key` (0 without scores) and the count.
pub open spec fn average_and_count(m: Map<Seq<u8>, Seq<u8>>, key: Seq<u8>) -> (u64, u64) {
    let agg = stored_aggregate(m, key);
    (if agg.1 == 0 { 0 } else { (agg.0 / agg.1) as u64 }, agg.1)
}

/// Adds `score` to the aggregate under `key`.
pub fn submit_score(store: &mut KvStore, key: &[u8], score: u8)
    requires
        old(store).wf(),
    ensures
        final(store).wf(),
        final(store)@ == old(store)@.insert(key@, aggregate_bytes(
            added(stored_aggregate(old(store)@, key@), score).0,
            added(stored_aggregate(old(store)@, key@), score).1,
        )),
{
    let (mut sum, mut count) = match crate::host::load_bytes(store, key, 16) {
        Ok(data) => {
            if data.len() == 16 {
                (decode_u64_at(data.as_slice(), 0), decode_u64_at(data.as_slice(), 8))
            } else {
                (0u64, 0u64)
            }
        },
        Err(_) => (0u64, 0u64),
    };
    sum = sum.saturating_add(score as u64);
    count = count.saturating_add(1);
    let mut buf: Vec<u8> = Vec::new();
    push_u64_le(&mut buf, sum);
    push_u64_le(&mut buf, count);
    store.save(key, buf.as_slice());
}

/// `[1][average][count]`, the average being the integer quotient.
pub fn read_average(store: &KvStore, key: &[u8]) -> (r: Vec<u8>)
    requires
        store.wf(),
        aggregate_readable(store@, key@),
    ensures
        r@ == seq![1u8] + u64_le_bytes(average_and_count(store@, key@).0) + u64_le_bytes(average_and_count(store@, key@).1),
{
    let (sum, count) = match crate::host::load_bytes(store, key, 16) {
        Ok(data) => (decode_u64_at(data.as_slice(), 0), decode_u64_at(data.as_slice(), 8)),
        Err(_) => (0u64, 0u64),
    };
    let avg = if count == 0 { 0 } else { sum / count };
    let mut out: Vec<u8> = Vec::new();
    out.push(1u8);
    push_u64_le(&mut out, avg);
    push_u64_le(&mut out, count);
    out
}

/// An aggregate just written reads back as itself.
pub proof fn lemma_aggregate_saved(m: Map<Seq<u8>, Seq<u8>>, key: Seq<u8>, sum: u64, count: u64)
    ensures
        stored_aggregate(m.insert(key, aggregate_bytes(sum, count)), key) == (sum, count),
        aggregate_readable(m.insert(key, aggregate_bytes(sum, count)), key),
{
    lemma_u64_roundtrip(sum);
    lemma_u64_roundtrip(count);
    let b = aggregate_bytes(sum, count);
    assert(b.subrange(0, 8) =~= u64_le_bytes(sum));
    assert(b.subrange(8, 16) =~= u64_le_bytes(count));
    assert(crate::store::prefix_up_to(b, 16) =~= b);
}

} // verus!
