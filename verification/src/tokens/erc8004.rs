//! ERC-8004 style agent registry: profiles, reputation and validation
//! records for agents identified by their ERC-721 token id.
use vstd::prelude::*;
use vstd::string::StringSliceAdditionalSpecFns;
use vstd::utf8::valid_utf8;
use crate::codec::{le_u64, u64_le_bytes, decimal_digits, u64_to_decimal, push_u64_le, append_bytes, decode_u64_at};
use crate::error::ContractError;
use crate::host::{spec_load, spec_text, load_bytes, load_text, key_with, reply_view, reply_byte};
use crate::scores::{aggregate_readable, aggregate_is_readable, aggregate_bytes, added, stored_aggregate, average_and_count, submit_score, read_average, lemma_aggregate_saved};
use crate::store::{KvStore, prefix_up_to};
use crate::utf8::utf8_is_valid;
use crate::wire::{spec_string_field, lemma_read_string_field, lemma_read_u64_field, spec_read_u8, spec_read_u64, spec_read_string, read_u8, read_u64, read_string, copy_range, NO_LIMIT};

verus! {

pub const OP_AGENT_PROFILE_SET: u8 = 1;
pub const OP_AGENT_PROFILE_GET: u8 = 2;
pub const OP_AGENT_FEEDBACK_SUBMIT: u8 = 3;
pub const OP_AGENT_FEEDBACK_GET: u8 = 4;
pub const OP_AGENT_VALIDATION_SET: u8 = 5;
pub const OP_AGENT_VALIDATION_GET: u8 = 6;

pub open spec fn profile_key(agent_id: u64) -> Seq<u8> {
    "astra:erc8004:profile:".spec_bytes() + decimal_digits(agent_id as nat)
}

pub open spec fn reputation_key(agent_id: u64) -> Seq<u8> {
    "astra:erc8004:reputation:".spec_bytes() + decimal_digits(agent_id as nat)
}

pub open spec fn validation_key(task_id: Seq<u8>) -> Seq<u8> {
    "astra:erc8004:validation:".spec_bytes() + task_id
}

/// Every agent's reputation aggregate can be read back.
pub open spec fn records_readable(m: Map<Seq<u8>, Seq<u8>>) -> bool {
    forall|id: u64| #[trigger] aggregate_readable(m, reputation_key(id))
}

/// The record that a call reads can be decoded: a FEEDBACK_GET of an agent
/// whose stored reputation record is shorter than an aggregate has nothing
/// to decode.
pub open spec fn call_readable(m: Map<Seq<u8>, Seq<u8>>, input: Seq<u8>) -> bool {
    match spec_read_u8(input, 0) {
        Some((op, p)) => op == OP_AGENT_FEEDBACK_GET ==> match spec_read_u64(input, p) {
            Some((id, _)) => aggregate_readable(m, reputation_key(id)),
            None => true,
        },
        None => true,
    }
}

/// The stored validation record of a task.
pub open spec fn validation_record(agent_id: u64, status: u8, proof_uri: Seq<u8>) -> Seq<u8> {
    u64_le_bytes(agent_id) + seq![status] + proof_uri
}

/// VALIDATION_GET: `[1][agent_id][status][proof_uri]` from the record read
/// with a 521-byte buffer.
pub open spec fn spec_validation_get(m: Map<Seq<u8>, Seq<u8>>, task_id: Seq<u8>) -> Result<Seq<u8>, ContractError> {
    match spec_load(m, validation_key(task_id), 521) {
        Err(e) => Err(e),
        Ok(d) => if d.len() < 9 {
            Err(ContractError::InvalidInput)
        } else if !valid_utf8(d.subrange(9, d.len() as int)) {
            Err(ContractError::InvalidInput)
        } else {
            Ok(seq![1u8] + u64_le_bytes(le_u64(d.subrange(0, 8))) + seq![d[8]] + d.subrange(9, d.len() as int))
        },
    }
}

pub open spec fn spec_handle(m: Map<Seq<u8>, Seq<u8>>, input: Seq<u8>) -> (Map<Seq<u8>, Seq<u8>>, Result<Seq<u8>, ContractError>) {
    let bad = (m, Err(ContractError::InvalidInput));
    match spec_read_u8(input, 0) {
        None => bad,
        Some((op, p)) => if op == OP_AGENT_PROFILE_SET {
            match spec_read_u64(input, p) {
                None => bad,
                Some((id, p1)) => match spec_read_string(input, p1, NO_LIMIT as int) {
                    None => bad,
                    Some((uri, _)) => if uri.len() == 0 {
                        bad
                    } else {
                        (m.insert(profile_key(id), uri), Ok(seq![1u8]))
                    },
                },
            }
        } else if op == OP_AGENT_PROFILE_GET {
            match spec_read_u64(input, p) {
                None => bad,
                Some((id, _)) => match spec_text(m, profile_key(id), 512) {
                    Err(e) => (m, Err(e)),
                    Ok(uri) => (m, Ok(seq![1u8] + uri)),
                },
            }
        } else if op == OP_AGENT_FEEDBACK_SUBMIT {
            match spec_read_u64(input, p) {
                None => bad,
                Some((id, p1)) => match spec_read_u8(input, p1) {
                    None => bad,
                    Some((score, _)) => {
                        let agg = added(stored_aggregate(m, reputation_key(id)), score);
                        (m.insert(reputation_key(id), aggregate_bytes(agg.0, agg.1)), Ok(seq![1u8]))
                    },
                },
            }
        } else if op == OP_AGENT_FEEDBACK_GET {
            match spec_read_u64(input, p) {
                None => bad,
                Some((id, _)) => {
                    let ac = average_and_count(m, reputation_key(id));
                    (m, Ok(seq![1u8] + u64_le_bytes(ac.0) + u64_le_bytes(ac.1)))
                },
            }
        } else if op == OP_AGENT_VALIDATION_SET {
            match spec_read_string(input, p, NO_LIMIT as int) {
                None => bad,
                Some((task_id, p1)) => match spec_read_u64(input, p1) {
                    None => bad,
                    Some((id, p2)) => match spec_read_u8(input, p2) {
                        None => bad,
                        Some((status, p3)) => match spec_read_string(input, p3, NO_LIMIT as int) {
                            None => bad,
                            Some((proof_uri, _)) => (
                                m.insert(validation_key(task_id), validation_record(id, status, proof_uri)),
                                Ok(seq![1u8]),
                            ),
                        },
                    },
                },
            }
        } else if op == OP_AGENT_VALIDATION_GET {
            match spec_read_string(input, p, NO_LIMIT as int) {
                None => bad,
                Some((task_id, _)) => (m, spec_validation_get(m, task_id)),
            }
        } else {
            bad
        }
    }
}

fn profile_key_of(id: u64) -> (r: Vec<u8>)
    ensures
        r@ == profile_key(id),
{
    let d = u64_to_decimal(id);
    key_with("astra:erc8004:profile:", d.as_slice())
}

fn reputation_key_of(id: u64) -> (r: Vec<u8>)
    ensures
        r@ == reputation_key(id),
{
    let d = u64_to_decimal(id);
    key_with("astra:erc8004:reputation:", d.as_slice())
}

fn validation_get(store: &KvStore, task_id: &[u8]) -> (r: Result<Vec<u8>, ContractError>)
    requires
        store.wf(),
    ensures
        reply_view(r) == spec_validation_get(store@, task_id@),
{
    let k = key_with("astra:erc8004:validation:", task_id);
    let data = load_bytes(store, k.as_slice(), 8 + 1 + 512)?;
    if data.len() < 9 {
        return Err(ContractError::InvalidInput);
    }
    let agent_id = decode_u64_at(data.as_slice(), 0);
    let status = data[8];
    let uri = copy_range(data.as_slice(), 9, data.len());
    if !utf8_is_valid(uri.as_slice()) {
        return Err(ContractError::InvalidInput);
    }
    let mut out: Vec<u8> = Vec::new();
    out.push(1u8);
    push_u64_le(&mut out, agent_id);
    out.push(status);
    append_bytes(&mut out, uri.as_slice());
    proof {
        assert(out@ =~= seq![1u8] + u64_le_bytes(le_u64(data@.subrange(0, 8))) + seq![data@[8]] + data@.subrange(9, data@.len() as int));
    }
    Ok(out)
}

/// Whether a call would read a reputation record too short to hold an
/// aggregate (`handle` does not accept such a call).
pub fn handle_traps(store: &KvStore, input: &[u8]) -> (r: bool)
    requires
        store.wf(),
    ensures
        r == !call_readable(store@, input@),
{
    let mut cursor: usize = 0;
    let op = match read_u8(input, &mut cursor) {
        Ok(op) => op,
        Err(_) => return false,
    };
    if op != OP_AGENT_FEEDBACK_GET {
        return false;
    }
    match read_u64(input, &mut cursor) {
        Ok(id) => {
            let k = reputation_key_of(id);
            !aggregate_is_readable(store, k.as_slice())
        },
        Err(_) => false,
    }
}

/// Runs one call of the agent registry. A FEEDBACK_GET must find the
/// agent's reputation record whole or absent (a shorter record holds no
/// aggregate to read).
pub fn handle(store: &mut KvStore, input: &[u8]) -> (r: Result<Vec<u8>, ContractError>)
    requires
        old(store).wf(),
        call_readable(old(store)@, input@),
    ensures
        final(store).wf(),
        (final(store)@, reply_view(r)) == spec_handle(old(store)@, input@),
{
    let mut cursor: usize = 0;
    let op = read_u8(input, &mut cursor)?;
    if op == OP_AGENT_PROFILE_SET {
        let id = read_u64(input, &mut cursor)?;
        let uri = read_string(input, &mut cursor, NO_LIMIT)?;
        if uri.len() == 0 {
            return Err(ContractError::InvalidInput);
        }
        let k = profile_key_of(id);
        store.save(k.as_slice(), uri.as_slice());
        Ok(reply_byte(1))
    } else if op == OP_AGENT_PROFILE_GET {
        let id = read_u64(input, &mut cursor)?;
        let k = profile_key_of(id);
        let uri = load_text(store, k.as_slice(), 512)?;
        let mut out: Vec<u8> = Vec::new();
        out.push(1u8);
        append_bytes(&mut out, uri.as_slice());
        Ok(out)
    } else if op == OP_AGENT_FEEDBACK_SUBMIT {
        let id = read_u64(input, &mut cursor)?;
        let score = read_u8(input, &mut cursor)?;
        let k = reputation_key_of(id);
        submit_score(store, k.as_slice(), score);
        Ok(reply_byte(1))
    } else if op == OP_AGENT_FEEDBACK_GET {
        let id = read_u64(input, &mut cursor)?;
        let k = reputation_key_of(id);
        Ok(read_average(store, k.as_slice()))
    } else if op == OP_AGENT_VALIDATION_SET {
        let task_id = read_string(input, &mut cursor, NO_LIMIT)?;
        let id = read_u64(input, &mut cursor)?;
        let status = read_u8(input, &mut cursor)?;
        let proof_uri = read_string(input, &mut cursor, NO_LIMIT)?;
        let mut value: Vec<u8> = Vec::new();
        crate::codec::push_u64_le(&mut value, id);
        value.push(status);
        append_bytes(&mut value, proof_uri.as_slice());
        assert(value@ =~= validation_record(id, status, proof_uri@));
        let k = key_with("astra:erc8004:validation:", task_id.as_slice());
        store.save(k.as_slice(), value.as_slice());
        Ok(reply_byte(1))
    } else if op == OP_AGENT_VALIDATION_GET {
        let task_id = read_string(input, &mut cursor, NO_LIMIT)?;
        validation_get(store, task_id.as_slice())
    } else {
        Err(ContractError::InvalidInput)
    }
}

proof fn lemma_keys_distinct(a: u64, b: u64)
    ensures
        profile_key(a) != reputation_key(b),
{
    reveal_strlit("astra:erc8004:profile:");
    reveal_strlit("astra:erc8004:reputation:");
    vstd::string::is_ascii_spec_bytes("astra:erc8004:profile:");
    vstd::string::is_ascii_spec_bytes("astra:erc8004:reputation:");
    assert(profile_key(a)[14] != reputation_key(b)[14]);
}

proof fn lemma_validation_key_distinct(t: Seq<u8>, b: u64)
    ensures
        validation_key(t) != reputation_key(b),
{
    reveal_strlit("astra:erc8004:validation:");
    reveal_strlit("astra:erc8004:reputation:");
    vstd::string::is_ascii_spec_bytes("astra:erc8004:validation:");
    vstd::string::is_ascii_spec_bytes("astra:erc8004:reputation:");
    assert(validation_key(t)[14] != reputation_key(b)[14]);
}

/// Every call keeps every agent's reputation aggregate readable: a store
/// whose aggregates can all be read stays so after any accepted call.
pub proof fn law_calls_keep_records_readable(m: Map<Seq<u8>, Seq<u8>>, input: Seq<u8>)
    requires
        records_readable(m),
    ensures
        call_readable(m, input),
        records_readable(spec_handle(m, input).0),
{
    let m2 = spec_handle(m, input).0;
    if let Some((op, p)) = spec_read_u8(input, 0) {
        if op == OP_AGENT_PROFILE_SET {
            if let Some((id, _)) = spec_read_u64(input, p) {
                assert forall|i: u64| #[trigger] aggregate_readable(m2, reputation_key(i)) by {
                    lemma_keys_distinct(id, i);
                    assert(aggregate_readable(m, reputation_key(i)));
                }
            }
        } else if op == OP_AGENT_FEEDBACK_SUBMIT {
            if let Some((id, p1)) = spec_read_u64(input, p) {
                if let Some((score, _)) = spec_read_u8(input, p1) {
                    let agg = added(stored_aggregate(m, reputation_key(id)), score);
                    lemma_aggregate_saved(m, reputation_key(id), agg.0, agg.1);
                    assert forall|i: u64| #[trigger] aggregate_readable(m2, reputation_key(i)) by {
                        assert(aggregate_readable(m, reputation_key(i)));
                    }
                }
            }
        } else if op == OP_AGENT_FEEDBACK_GET {
            if let Some((id, _)) = spec_read_u64(input, p) {
                assert(aggregate_readable(m, reputation_key(id)));
            }
        } else if op == OP_AGENT_VALIDATION_SET {
            if let Some((task_id, _)) = spec_read_string(input, p, NO_LIMIT as int) {
                assert forall|i: u64| #[trigger] aggregate_readable(m2, reputation_key(i)) by {
                    lemma_validation_key_distinct(task_id, i);
                    assert(aggregate_readable(m, reputation_key(i)));
                }
            }
        }
    }
}

/// A validation record set for a task reads back with the same agent id,
/// status and proof URI (for a proof URI of at most 512 bytes).
pub proof fn law_validation_roundtrip(m: Map<Seq<u8>, Seq<u8>>, task_id: Seq<u8>, agent_id: u64, status: u8, proof_uri: Seq<u8>)
    requires
        proof_uri.len() <= 512,
        valid_utf8(proof_uri),
    ensures
        spec_validation_get(m.insert(validation_key(task_id), validation_record(agent_id, status, proof_uri)), task_id)
            == Ok::<Seq<u8>, ContractError>(seq![1u8] + validation_record(agent_id, status, proof_uri)),
{
    let r = validation_record(agent_id, status, proof_uri);
    crate::codec::lemma_u64_roundtrip(agent_id);
    assert(crate::store::prefix_up_to(r, 521) =~= r);
    assert(r.subrange(0, 8) =~= u64_le_bytes(agent_id));
    assert(r.subrange(9, r.len() as int) =~= proof_uri);
    assert(seq![1u8] + u64_le_bytes(agent_id) + seq![status] + proof_uri =~= seq![1u8] + r);
}

/// A call `[op][agent_id]` followed by `tail`.
pub open spec fn agent_call(op: u8, agent_id: u64, tail: Seq<u8>) -> Seq<u8> {
    seq![op] + u64_le_bytes(agent_id) + tail
}

/// The reputation record of an agent holds the aggregate `(sum, count)`:
/// the stored sixteen bytes, or nothing at all for `(0, 0)`.
pub open spec fn holds_aggregate(m: Map<Seq<u8>, Seq<u8>>, agent_id: u64, sum: u64, count: u64) -> bool {
    ||| m.contains_key(reputation_key(agent_id)) && m[reputation_key(agent_id)] == aggregate_bytes(sum, count)
    ||| !m.contains_key(reputation_key(agent_id)) && sum == 0 && count == 0
}

proof fn lemma_agent_parses(op: u8, agent_id: u64, tail: Seq<u8>)
    ensures
        spec_read_u8(agent_call(op, agent_id, tail), 0) == Some((op, 1int)),
        spec_read_u64(agent_call(op, agent_id, tail), 1) == Some((agent_id, 9int)),
{
    lemma_read_u64_field(seq![op], agent_id, tail);
}

proof fn lemma_profile_set_parses(agent_id: u64, uri: Seq<u8>)
    requires
        uri.len() <= NO_LIMIT,
        valid_utf8(uri),
    ensures
        spec_read_string(agent_call(OP_AGENT_PROFILE_SET, agent_id, spec_string_field(uri)), 9, NO_LIMIT as int)
            == Some((uri, 11 + uri.len() as int)),
{
    let pre = seq![OP_AGENT_PROFILE_SET] + u64_le_bytes(agent_id);
    assert(pre.len() == 9);
    assert(pre + spec_string_field(uri) + Seq::<u8>::empty() =~= agent_call(OP_AGENT_PROFILE_SET, agent_id, spec_string_field(uri)));
    lemma_read_string_field(pre, uri, Seq::<u8>::empty(), NO_LIMIT as int);
}

proof fn lemma_agent_parts(m: Map<Seq<u8>, Seq<u8>>, c: Seq<u8>, op: u8, agent_id: u64, uri: Seq<u8>, score: u8)
    requires
        op == OP_AGENT_PROFILE_SET || op == OP_AGENT_PROFILE_GET || op == OP_AGENT_FEEDBACK_SUBMIT || op == OP_AGENT_FEEDBACK_GET,
        spec_read_u8(c, 0) == Some((op, 1int)),
        spec_read_u64(c, 1) == Some((agent_id, 9int)),
        op == OP_AGENT_PROFILE_SET ==> spec_read_string(c, 9, NO_LIMIT as int) == Some((uri, 11 + uri.len() as int)),
        op == OP_AGENT_FEEDBACK_SUBMIT ==> spec_read_u8(c, 9) == Some((score, 10int)),
    ensures
        op == OP_AGENT_PROFILE_SET && uri.len() > 0 ==> spec_handle(m, c)
            == (m.insert(profile_key(agent_id), uri), Ok::<Seq<u8>, ContractError>(seq![1u8])),
        op == OP_AGENT_PROFILE_GET ==> spec_handle(m, c) == match spec_text(m, profile_key(agent_id), 512) {
            Err(e) => (m, Err(e)),
            Ok(u) => (m, Ok::<Seq<u8>, ContractError>(seq![1u8] + u)),
        },
        op == OP_AGENT_FEEDBACK_SUBMIT ==> spec_handle(m, c) == ({
            let agg = added(stored_aggregate(m, reputation_key(agent_id)), score);
            (m.insert(reputation_key(agent_id), aggregate_bytes(agg.0, agg.1)), Ok::<Seq<u8>, ContractError>(seq![1u8]))
        }),
        op == OP_AGENT_FEEDBACK_GET ==> spec_handle(m, c) == ({
            let ac = average_and_count(m, reputation_key(agent_id));
            (m, Ok::<Seq<u8>, ContractError>(seq![1u8] + u64_le_bytes(ac.0) + u64_le_bytes(ac.1)))
        }),
{
}

proof fn lemma_held_aggregate(m: Map<Seq<u8>, Seq<u8>>, agent_id: u64, sum: u64, count: u64)
    requires
        holds_aggregate(m, agent_id, sum, count),
    ensures
        stored_aggregate(m, reputation_key(agent_id)) == (sum, count),
{
    if m.contains_key(reputation_key(agent_id)) {
        lemma_aggregate_saved(m, reputation_key(agent_id), sum, count);
        assert(m.insert(reputation_key(agent_id), aggregate_bytes(sum, count)) =~= m);
    }
}

/// PROFILE_SET of a non-empty URI of at most 512 bytes of UTF-8 answers
/// `[1]`, and PROFILE_GET of the agent then answers `[1]` and that URI,
/// whatever was set before.
pub proof fn law_profile_set_then_get(m: Map<Seq<u8>, Seq<u8>>, agent_id: u64, uri: Seq<u8>)
    requires
        0 < uri.len() <= 512,
        valid_utf8(uri),
    ensures
        spec_handle(m, agent_call(OP_AGENT_PROFILE_SET, agent_id, spec_string_field(uri))).1
            == Ok::<Seq<u8>, ContractError>(seq![1u8]),
        spec_handle(
            spec_handle(m, agent_call(OP_AGENT_PROFILE_SET, agent_id, spec_string_field(uri))).0,
            agent_call(OP_AGENT_PROFILE_GET, agent_id, Seq::<u8>::empty()),
        ).1 == Ok::<Seq<u8>, ContractError>(seq![1u8] + uri),
{
    let c = agent_call(OP_AGENT_PROFILE_SET, agent_id, spec_string_field(uri));
    lemma_agent_parses(OP_AGENT_PROFILE_SET, agent_id, spec_string_field(uri));
    lemma_profile_set_parses(agent_id, uri);
    lemma_agent_parts(m, c, OP_AGENT_PROFILE_SET, agent_id, uri, 0u8);
    let m1 = m.insert(profile_key(agent_id), uri);
    let g = agent_call(OP_AGENT_PROFILE_GET, agent_id, Seq::<u8>::empty());
    lemma_agent_parses(OP_AGENT_PROFILE_GET, agent_id, Seq::<u8>::empty());
    lemma_agent_parts(m1, g, OP_AGENT_PROFILE_GET, agent_id, uri, 0u8);
    assert(prefix_up_to(uri, 512) =~= uri);
}

proof fn lemma_feedback_submit_call(m: Map<Seq<u8>, Seq<u8>>, agent_id: u64, score: u8, sum: u64, count: u64)
    requires
        holds_aggregate(m, agent_id, sum, count),
        sum + score <= u64::MAX,
        count + 1 <= u64::MAX,
    ensures
        spec_handle(m, agent_call(OP_AGENT_FEEDBACK_SUBMIT, agent_id, seq![score])) == (
            m.insert(reputation_key(agent_id), aggregate_bytes((sum + score) as u64, (count + 1) as u64)),
            Ok::<Seq<u8>, ContractError>(seq![1u8]),
        ),
{
    let c = agent_call(OP_AGENT_FEEDBACK_SUBMIT, agent_id, seq![score]);
    lemma_agent_parses(OP_AGENT_FEEDBACK_SUBMIT, agent_id, seq![score]);
    assert(c.len() == 10);
    assert(c[9] == score);
    lemma_held_aggregate(m, agent_id, sum, count);
    lemma_agent_parts(m, c, OP_AGENT_FEEDBACK_SUBMIT, agent_id, Seq::<u8>::empty(), score);
}

/// FEEDBACK_GET of an agent whose record holds `(sum, count)` answers
/// `[1]`, the average `sum / count` (0 without feedback) and the count.
pub proof fn law_feedback_get_answers_average(m: Map<Seq<u8>, Seq<u8>>, agent_id: u64, sum: u64, count: u64)
    requires
        holds_aggregate(m, agent_id, sum, count),
    ensures
        spec_handle(m, agent_call(OP_AGENT_FEEDBACK_GET, agent_id, Seq::<u8>::empty())) == (
            m,
            Ok::<Seq<u8>, ContractError>(seq![1u8] + u64_le_bytes(if count == 0 { 0u64 } else { sum / count }) + u64_le_bytes(count)),
        ),
{
    lemma_agent_parses(OP_AGENT_FEEDBACK_GET, agent_id, Seq::<u8>::empty());
    lemma_held_aggregate(m, agent_id, sum, count);
    lemma_agent_parts(m, agent_call(OP_AGENT_FEEDBACK_GET, agent_id, Seq::<u8>::empty()), OP_AGENT_FEEDBACK_GET, agent_id, Seq::<u8>::empty(), 0u8);
}

/// FEEDBACK_SUBMIT of a score for an agent whose record holds
/// `(sum, count)` answers `[1]` and adds the score to the sum and one to
/// the count (when neither overflows); FEEDBACK_GET then answers the new
/// average and count.
pub proof fn law_feedback_submit_then_get(m: Map<Seq<u8>, Seq<u8>>, agent_id: u64, score: u8, sum: u64, count: u64)
    requires
        holds_aggregate(m, agent_id, sum, count),
        sum + score <= u64::MAX,
        count + 1 <= u64::MAX,
    ensures
        spec_handle(m, agent_call(OP_AGENT_FEEDBACK_SUBMIT, agent_id, seq![score])).1 == Ok::<Seq<u8>, ContractError>(seq![1u8]),
        spec_handle(
            spec_handle(m, agent_call(OP_AGENT_FEEDBACK_SUBMIT, agent_id, seq![score])).0,
            agent_call(OP_AGENT_FEEDBACK_GET, agent_id, Seq::<u8>::empty()),
        ).1 == Ok::<Seq<u8>, ContractError>(seq![1u8] + u64_le_bytes(((sum + score) / (count + 1)) as u64) + u64_le_bytes((count + 1) as u64)),
{
    lemma_feedback_submit_call(m, agent_id, score, sum, count);
    let s1 = (sum + score) as u64;
    let c1 = (count + 1) as u64;
    let m1 = m.insert(reputation_key(agent_id), aggregate_bytes(s1, c1));
    law_feedback_get_answers_average(m1, agent_id, s1, c1);
    assert(s1 / c1 == ((sum + score) / (count + 1)) as u64);
}

} // verus!
