//! Global reputation: scores submitted for a subject DID are aggregated.
use vstd::prelude::*;
use vstd::string::StringSliceAdditionalSpecFns;
use crate::codec::u64_le_bytes;
use crate::error::ContractError;
use crate::host::{key_with, reply_view, reply_byte};
use crate::scores::{aggregate_readable, aggregate_is_readable, aggregate_bytes, added, stored_aggregate, average_and_count, submit_score, read_average, lemma_aggregate_saved};
use crate::store::KvStore;
use vstd::utf8::valid_utf8;
use crate::wire::{spec_string_field, lemma_read_string_field, spec_read_u8, spec_read_string, read_u8, read_string, NO_LIMIT};

verus! {

pub const OP_SUBMIT: u8 = 1;
pub const OP_GET: u8 = 2;

pub open spec fn rep_key(subject: Seq<u8>) -> Seq<u8> {
    "rep:global:".spec_bytes() + subject
}

/// Every subject's aggregate can be read back.
pub open spec fn records_readable(m: Map<Seq<u8>, Seq<u8>>) -> bool {
    forall|s: Seq<u8>| #[trigger] aggregate_readable(m, rep_key(s))
}

/// The record that a call reads can be decoded: a GET of a subject whose
/// stored record is shorter than an aggregate has nothing to decode.
pub open spec fn call_readable(m: Map<Seq<u8>, Seq<u8>>, input: Seq<u8>) -> bool {
    match spec_read_u8(input, 0) {
        Some((op, p)) => op == OP_GET ==> match spec_read_string(input, p, NO_LIMIT as int) {
            Some((subject, _)) => aggregate_readable(m, rep_key(subject)),
            None => true,
        },
        None => true,
    }
}

pub open spec fn spec_handle(m: Map<Seq<u8>, Seq<u8>>, input: Seq<u8>) -> (Map<Seq<u8>, Seq<u8>>, Result<Seq<u8>, ContractError>) {
    let bad = (m, Err(ContractError::InvalidInput));
    match spec_read_u8(input, 0) {
        None => bad,
        Some((op, p)) => if op == OP_SUBMIT {
            match spec_read_string(input, p, NO_LIMIT as int) {
                None => bad,
                Some((subject, p1)) => match spec_read_u8(input, p1) {
                    None => bad,
                    Some((score, _)) => {
                        let agg = added(stored_aggregate(m, rep_key(subject)), score);
                        (m.insert(rep_key(subject), aggregate_bytes(agg.0, agg.1)), Ok(seq![1u8]))
                    },
                },
            }
        } else if op == OP_GET {
            match spec_read_string(input, p, NO_LIMIT as int) {
                None => bad,
                Some((subject, _)) => {
                    let ac = average_and_count(m, rep_key(subject));
                    (m, Ok(seq![1u8] + u64_le_bytes(ac.0) + u64_le_bytes(ac.1)))
                },
            }
        } else {
            bad
        }
    }
}

/// Whether a call would read a record too short to hold an aggregate
/// (`handle` does not accept such a call).
pub fn handle_traps(store: &KvStore, input: &[u8]) -> (r: bool)
    requires
        store.wf(),
    ensures
        r == !call_readable(store@, input@),
{
    let mut cursor: usize = 0;
    let op = match read_u8(input, &mut cursor) {
        Ok(op) => op,
        Err(_) => return false,
    };
    if op != OP_GET {
        return false;
    }
    match read_string(input, &mut cursor, NO_LIMIT) {
        Ok(subject) => {
            let k = key_with("rep:global:", subject.as_slice());
            !aggregate_is_readable(store, k.as_slice())
        },
        Err(_) => false,
    }
}

/// Runs one call of the reputation contract. A GET must find the subject's
/// record whole or absent (a shorter record holds no aggregate to read).
pub fn handle(store: &mut KvStore, input: &[u8]) -> (r: Result<Vec<u8>, ContractError>)
    requires
        old(store).wf(),
        call_readable(old(store)@, input@),
    ensures
        final(store).wf(),
        (final(store)@, reply_view(r)) == spec_handle(old(store)@, input@),
{
    let mut cursor: usize = 0;
    let op = read_u8(input, &mut cursor)?;
    if op == OP_SUBMIT {
        let subject = read_string(input, &mut cursor, NO_LIMIT)?;
        let score = read_u8(input, &mut cursor)?;
        let k = key_with("rep:global:", subject.as_slice());
        submit_score(store, k.as_slice(), score);
        Ok(reply_byte(1))
    } else if op == OP_GET {
        let subject = read_string(input, &mut cursor, NO_LIMIT)?;
        let k = key_with("rep:global:", subject.as_slice());
        Ok(read_average(store, k.as_slice()))
    } else {
        Err(ContractError::InvalidInput)
    }
}

/// Every call keeps every subject's aggregate readable: a store whose
/// records can all be read stays so after any accepted call.
pub proof fn law_calls_keep_records_readable(m: Map<Seq<u8>, Seq<u8>>, input: Seq<u8>)
    requires
        records_readable(m),
    ensures
        call_readable(m, input),
        records_readable(spec_handle(m, input).0),
{
    let m2 = spec_handle(m, input).0;
    if let Some((op, p)) = spec_read_u8(input, 0) {
        if op == OP_SUBMIT {
            if let Some((subject, p1)) = spec_read_string(input, p, NO_LIMIT as int) {
                if let Some((score, _)) = spec_read_u8(input, p1) {
                    let agg = added(stored_aggregate(m, rep_key(subject)), score);
                    lemma_aggregate_saved(m, rep_key(subject), agg.0, agg.1);
                    assert forall|s: Seq<u8>| #[trigger] aggregate_readable(m2, rep_key(s)) by {
                        assert(aggregate_readable(m, rep_key(s)));
                    }
                }
            }
        }
        if op == OP_GET {
            if let Some((subject, _)) = spec_read_string(input, p, NO_LIMIT as int) {
                assert(aggregate_readable(m, rep_key(subject)));
            }
        }
    }
}

/// After submitting a score for a subject, the subject's count grows by one
/// (until it saturates) and its sum by the score (until it saturates).
pub proof fn law_submit_counts_score(m: Map<Seq<u8>, Seq<u8>>, subject: Seq<u8>, score: u8)
    ensures
        stored_aggregate(
            m.insert(rep_key(subject), aggregate_bytes(
                added(stored_aggregate(m, rep_key(subject)), score).0,
                added(stored_aggregate(m, rep_key(subject)), score).1,
            )),
            rep_key(subject),
        ) == added(stored_aggregate(m, rep_key(subject)), score),
{
    let agg = added(stored_aggregate(m, rep_key(subject)), score);
    lemma_aggregate_saved(m, rep_key(subject), agg.0, agg.1);
}

/// A call `[op][subject]` followed by `tail`.
pub open spec fn subject_call(op: u8, subject: Seq<u8>, tail: Seq<u8>) -> Seq<u8> {
    seq![op] + spec_string_field(subject) + tail
}

/// The record of a subject holds the aggregate `(sum, count)`: the stored
/// sixteen bytes, or nothing at all for `(0, 0)`.
pub open spec fn holds_aggregate(m: Map<Seq<u8>, Seq<u8>>, subject: Seq<u8>, sum: u64, count: u64) -> bool {
    ||| m.contains_key(rep_key(subject)) && m[rep_key(subject)] == aggregate_bytes(sum, count)
    ||| !m.contains_key(rep_key(subject)) && sum == 0 && count == 0
}

proof fn lemma_subject_parses(op: u8, subject: Seq<u8>, tail: Seq<u8>)
    requires
        subject.len() <= NO_LIMIT,
        valid_utf8(subject),
    ensures
        spec_read_u8(subject_call(op, subject, tail), 0) == Some((op, 1int)),
        spec_read_string(subject_call(op, subject, tail), 1, NO_LIMIT as int) == Some((subject, 3 + subject.len() as int)),
{
    lemma_read_string_field(seq![op], subject, tail, NO_LIMIT as int);
}

proof fn lemma_subject_parts(m: Map<Seq<u8>, Seq<u8>>, c: Seq<u8>, op: u8, subject: Seq<u8>, p: int, score: u8)
    requires
        op == OP_SUBMIT || op == OP_GET,
        spec_read_u8(c, 0) == Some((op, 1int)),
        spec_read_string(c, 1, NO_LIMIT as int) == Some((subject, p)),
        op == OP_SUBMIT ==> (spec_read_u8(c, p) matches Some((s, _)) && s == score),
    ensures
        op == OP_SUBMIT ==> spec_handle(m, c) == ({
            let agg = added(stored_aggregate(m, rep_key(subject)), score);
            (m.insert(rep_key(subject), aggregate_bytes(agg.0, agg.1)), Ok::<Seq<u8>, ContractError>(seq![1u8]))
        }),
        op == OP_GET ==> spec_handle(m, c) == ({
            let ac = average_and_count(m, rep_key(subject));
            (m, Ok::<Seq<u8>, ContractError>(seq![1u8] + u64_le_bytes(ac.0) + u64_le_bytes(ac.1)))
        }),
{
}

proof fn lemma_held_aggregate(m: Map<Seq<u8>, Seq<u8>>, subject: Seq<u8>, sum: u64, count: u64)
    requires
        holds_aggregate(m, subject, sum, count),
    ensures
        stored_aggregate(m, rep_key(subject)) == (sum, count),
{
    if m.contains_key(rep_key(subject)) {
        lemma_aggregate_saved(m, rep_key(subject), sum, count);
        assert(m.insert(rep_key(subject), aggregate_bytes(sum, count)) =~= m);
    }
}

/// GET of a subject whose record holds `(sum, count)` answers `[1]`, the
/// average `sum / count` (0 without scores) and the count.
pub proof fn law_get_answers_average(m: Map<Seq<u8>, Seq<u8>>, subject: Seq<u8>, sum: u64, count: u64)
    requires
        subject.len() <= NO_LIMIT,
        valid_utf8(subject),
        holds_aggregate(m, subject, sum, count),
    ensures
        spec_handle(m, subject_call(OP_GET, subject, Seq::<u8>::empty())) == (
            m,
            Ok::<Seq<u8>, ContractError>(seq![1u8] + u64_le_bytes(if count == 0 { 0u64 } else { sum / count }) + u64_le_bytes(count)),
        ),
{
    lemma_subject_parses(OP_GET, subject, Seq::<u8>::empty());
    lemma_subject_parts(m, subject_call(OP_GET, subject, Seq::<u8>::empty()), OP_GET, subject, 3 + subject.len() as int, 0u8);
    lemma_held_aggregate(m, subject, sum, count);
}

proof fn lemma_submit_parts(m: Map<Seq<u8>, Seq<u8>>, c: Seq<u8>, subject: Seq<u8>, p: int, score: u8, sum: u64, count: u64)
    requires
        spec_read_u8(c, 0) == Some((OP_SUBMIT, 1int)),
        spec_read_string(c, 1, NO_LIMIT as int) == Some((subject, p)),
        spec_read_u8(c, p) == Some((score, p + 1)),
        stored_aggregate(m, rep_key(subject)) == (sum, count),
        sum + score <= u64::MAX,
        count + 1 <= u64::MAX,
    ensures
        spec_handle(m, c) == (
            m.insert(rep_key(subject), aggregate_bytes((sum + score) as u64, (count + 1) as u64)),
            Ok::<Seq<u8>, ContractError>(seq![1u8]),
        ),
{
}

proof fn lemma_submit_call(m: Map<Seq<u8>, Seq<u8>>, subject: Seq<u8>, score: u8, sum: u64, count: u64)
    requires
        subject.len() <= NO_LIMIT,
        valid_utf8(subject),
        holds_aggregate(m, subject, sum, count),
        sum + score <= u64::MAX,
        count + 1 <= u64::MAX,
    ensures
        spec_handle(m, subject_call(OP_SUBMIT, subject, seq![score])) == (
            m.insert(rep_key(subject), aggregate_bytes((sum + score) as u64, (count + 1) as u64)),
            Ok::<Seq<u8>, ContractError>(seq![1u8]),
        ),
{
    lemma_subject_parses(OP_SUBMIT, subject, seq![score]);
    lemma_submit_byte(subject, score);
    lemma_held_aggregate(m, subject, sum, count);
    lemma_submit_parts(m, subject_call(OP_SUBMIT, subject, seq![score]), subject, 3 + subject.len() as int, score, sum, count);
}

proof fn lemma_submit_byte(subject: Seq<u8>, score: u8)
    ensures
        spec_read_u8(subject_call(OP_SUBMIT, subject, seq![score]), 3 + subject.len() as int) == Some((score, 4 + subject.len() as int)),
{
    let c = subject_call(OP_SUBMIT, subject, seq![score]);
    assert(c.len() == 4 + subject.len());
    assert(c[3 + subject.len() as int] == score);
}

/// SUBMIT of a score for a subject whose record holds `(sum, count)`
/// answers `[1]` and adds the score to the sum and one to the count (when
/// neither overflows); GET then answers the new average and count.
pub proof fn law_submit_then_get(m: Map<Seq<u8>, Seq<u8>>, subject: Seq<u8>, score: u8, sum: u64, count: u64)
    requires
        subject.len() <= NO_LIMIT,
        valid_utf8(subject),
        holds_aggregate(m, subject, sum, count),
        sum + score <= u64::MAX,
        count + 1 <= u64::MAX,
    ensures
        spec_handle(m, subject_call(OP_SUBMIT, subject, seq![score])).1 == Ok::<Seq<u8>, ContractError>(seq![1u8]),
        holds_aggregate(spec_handle(m, subject_call(OP_SUBMIT, subject, seq![score])).0, subject, (sum + score) as u64, (count + 1) as u64),
        spec_handle(spec_handle(m, subject_call(OP_SUBMIT, subject, seq![score])).0, subject_call(OP_GET, subject, Seq::<u8>::empty())).1
            == Ok::<Seq<u8>, ContractError>(seq![1u8] + u64_le_bytes(((sum + score) / (count + 1)) as u64) + u64_le_bytes((count + 1) as u64)),
{
    lemma_submit_call(m, subject, score, sum, count);
    let s1 = (sum + score) as u64;
    let c1 = (count + 1) as u64;
    let m1 = m.insert(rep_key(subject), aggregate_bytes(s1, c1));
    law_get_answers_average(m1, subject, s1, c1);
    assert(c1 != 0);
    assert(s1 / c1 == ((sum + score) / (count + 1)) as u64);
}

} // verus!
