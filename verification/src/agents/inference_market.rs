//! Agent inference market: per-agent prices and inference jobs.
use vstd::prelude::*;
use vstd::string::StringSliceAdditionalSpecFns;
use crate::codec::{u64_le_bytes, decimal_digits, u64_to_decimal, push_u64_le, append_bytes};
use crate::error::ContractError;
use crate::host::{spec_load, load_bytes, key_with, reply_view, reply_byte};
use crate::store::{KvStore, prefix_up_to};
use vstd::utf8::valid_utf8;
use crate::wire::{lemma_read_string_field, lemma_read_u64_field, spec_read_u8, spec_read_u64, spec_read_string, spec_string_field, read_u8, read_u64, read_string, write_string_wrapping, NO_LIMIT};

verus! {

pub const OP_SET_AGENT_PRICE: u8 = 1;
pub const OP_GET_AGENT_PRICE: u8 = 2;
pub const OP_CREATE_JOB: u8 = 3;
pub const OP_SUBMIT_RESULT: u8 = 4;
pub const OP_GET_JOB: u8 = 5;

pub const JOB_OPEN: u8 = 1;
pub const JOB_COMPLETED: u8 = 2;

pub open spec fn agent_price_key(agent_id: u64) -> Seq<u8> {
    "inf:price:".spec_bytes() + decimal_digits(agent_id as nat)
}

pub open spec fn job_key(job_id: Seq<u8>) -> Seq<u8> {
    "inf:job:".spec_bytes() + job_id
}

/// The record of a new job.
pub open spec fn job_record(agent_id: u64, requester: Seq<u8>, input_uri: Seq<u8>, max_price: u64) -> Seq<u8> {
    u64_le_bytes(agent_id) + spec_string_field(requester) + spec_string_field(input_uri) + u64_le_bytes(max_price) + seq![JOB_OPEN]
}

/// SUBMIT_RESULT: the stored record (as read with a 1024-byte buffer) gets
/// its status byte, the last one, set to COMPLETED, and the result URI
/// field is appended after it.
pub open spec fn spec_submit_result(m: Map<Seq<u8>, Seq<u8>>, job_id: Seq<u8>, result_uri: Seq<u8>) -> (Map<Seq<u8>, Seq<u8>>, Result<Seq<u8>, ContractError>) {
    match spec_load(m, job_key(job_id), 1024) {
        Err(e) => (m, Err(e)),
        Ok(d) => if d.len() < 21 {
            (m, Err(ContractError::InvalidInput))
        } else {
            (m.insert(job_key(job_id), d.update(d.len() - 1, JOB_COMPLETED) + spec_string_field(result_uri)), Ok(seq![1u8]))
        },
    }
}

pub open spec fn spec_handle(m: Map<Seq<u8>, Seq<u8>>, input: Seq<u8>) -> (Map<Seq<u8>, Seq<u8>>, Result<Seq<u8>, ContractError>) {
    let bad = (m, Err(ContractError::InvalidInput));
    match spec_read_u8(input, 0) {
        None => bad,
        Some((op, p)) => if op == OP_SET_AGENT_PRICE {
            match spec_read_u64(input, p) {
                None => bad,
                Some((id, p1)) => match spec_read_string(input, p1, NO_LIMIT as int) {
                    None => bad,
                    Some((token, p2)) => match spec_read_u64(input, p2) {
                        None => bad,
                        Some((price, _)) => (m.insert(agent_price_key(id), spec_string_field(token) + u64_le_bytes(price)), Ok(seq![1u8])),
                    },
                },
            }
        } else if op == OP_GET_AGENT_PRICE {
            match spec_read_u64(input, p) {
                None => bad,
                Some((id, _)) => match spec_load(m, agent_price_key(id), 256) {
                    Err(e) => (m, Err(e)),
                    Ok(d) => (m, Ok(seq![1u8] + d)),
                },
            }
        } else if op == OP_CREATE_JOB {
            match spec_read_string(input, p, NO_LIMIT as int) {
                None => bad,
                Some((job_id, p1)) => match spec_read_u64(input, p1) {
                    None => bad,
                    Some((agent_id, p2)) => match spec_read_string(input, p2, NO_LIMIT as int) {
                        None => bad,
                        Some((requester, p3)) => match spec_read_string(input, p3, NO_LIMIT as int) {
                            None => bad,
                            Some((input_uri, p4)) => match spec_read_u64(input, p4) {
                                None => bad,
                                Some((max_price, _)) => (
                                    m.insert(job_key(job_id), job_record(agent_id, requester, input_uri, max_price)),
                                    Ok(seq![1u8]),
                                ),
                            },
                        },
                    },
                },
            }
        } else if op == OP_SUBMIT_RESULT {
            match spec_read_string(input, p, NO_LIMIT as int) {
                None => bad,
                Some((job_id, p1)) => match spec_read_string(input, p1, NO_LIMIT as int) {
                    None => bad,
                    Some((result_uri, _)) => spec_submit_result(m, job_id, result_uri),
                },
            }
        } else if op == OP_GET_JOB {
            match spec_read_string(input, p, NO_LIMIT as int) {
                None => bad,
                Some((job_id, _)) => match spec_load(m, job_key(job_id), 1024) {
                    Err(e) => (m, Err(e)),
                    Ok(d) => (m, Ok(seq![1u8] + d)),
                },
            }
        } else {
            bad
        }
    }
}

fn price_key_of(id: u64) -> (r: Vec<u8>)
    ensures
        r@ == agent_price_key(id),
{
    let d = u64_to_decimal(id);
    key_with("inf:price:", d.as_slice())
}

fn loaded_with_marker(store: &KvStore, key: &[u8], max_len: usize) -> (r: Result<Vec<u8>, ContractError>)
    requires
        store.wf(),
    ensures
        reply_view(r) == match spec_load(store@, key@, max_len as int) {
            Err(e) => Err(e),
            Ok(d) => Ok(seq![1u8] + d),
        },
{
    let data = load_bytes(store, key, max_len)?;
    let mut out: Vec<u8> = Vec::new();
    out.push(1u8);
    append_bytes(&mut out, data.as_slice());
    Ok(out)
}

fn submit_result(store: &mut KvStore, job_id: &[u8], result_uri: &[u8]) -> (r: Result<Vec<u8>, ContractError>)
    requires
        old(store).wf(),
    ensures
        final(store).wf(),
        (final(store)@, reply_view(r)) == spec_submit_result(old(store)@, job_id@, result_uri@),
{
    let k = key_with("inf:job:", job_id);
    let mut data = load_bytes(store, k.as_slice(), 1024)?;
    if data.len() < 8 + 2 + 2 + 8 + 1 {
        return Err(ContractError::InvalidInput);
    }
    let last = data.len() - 1;
    data.set(last, JOB_COMPLETED);
    write_string_wrapping(&mut data, result_uri);
    store.save(k.as_slice(), data.as_slice());
    Ok(reply_byte(1))
}

/// Runs one call of the inference market on `input` against `store`.
pub fn handle(store: &mut KvStore, input: &[u8]) -> (r: Result<Vec<u8>, ContractError>)
    requires
        old(store).wf(),
    ensures
        final(store).wf(),
        (final(store)@, reply_view(r)) == spec_handle(old(store)@, input@),
{
    let mut cursor: usize = 0;
    let op = read_u8(input, &mut cursor)?;
    if op == OP_SET_AGENT_PRICE {
        let id = read_u64(input, &mut cursor)?;
        let token = read_string(input, &mut cursor, NO_LIMIT)?;
        let price = read_u64(input, &mut cursor)?;
        let mut buf: Vec<u8> = Vec::new();
        write_string_wrapping(&mut buf, token.as_slice());
        push_u64_le(&mut buf, price);
        assert(buf@ =~= spec_string_field(token@) + u64_le_bytes(price));
        let k = price_key_of(id);
        store.save(k.as_slice(), buf.as_slice());
        Ok(reply_byte(1))
    } else if op == OP_GET_AGENT_PRICE {
        let id = read_u64(input, &mut cursor)?;
        let k = price_key_of(id);
        loaded_with_marker(store, k.as_slice(), 256)
    } else if op == OP_CREATE_JOB {
        let job_id = read_string(input, &mut cursor, NO_LIMIT)?;
        let agent_id = read_u64(input, &mut cursor)?;
        let requester = read_string(input, &mut cursor, NO_LIMIT)?;
        let input_uri = read_string(input, &mut cursor, NO_LIMIT)?;
        let max_price = read_u64(input, &mut cursor)?;
        let mut buf: Vec<u8> = Vec::new();
        push_u64_le(&mut buf, agent_id);
        write_string_wrapping(&mut buf, requester.as_slice());
        write_string_wrapping(&mut buf, input_uri.as_slice());
        push_u64_le(&mut buf, max_price);
        buf.push(JOB_OPEN);
        assert(buf@ =~= job_record(agent_id, requester@, input_uri@, max_price));
        let k = key_with("inf:job:", job_id.as_slice());
        store.save(k.as_slice(), buf.as_slice());
        Ok(reply_byte(1))
    } else if op == OP_SUBMIT_RESULT {
        let job_id = read_string(input, &mut cursor, NO_LIMIT)?;
        let result_uri = read_string(input, &mut cursor, NO_LIMIT)?;
        submit_result(store, job_id.as_slice(), result_uri.as_slice())
    } else if op == OP_GET_JOB {
        let job_id = read_string(input, &mut cursor, NO_LIMIT)?;
        let k = key_with("inf:job:", job_id.as_slice());
        loaded_with_marker(store, k.as_slice(), 1024)
    } else {
        Err(ContractError::InvalidInput)
    }
}

/// A call `[op][job_id]` followed by `tail`.
pub open spec fn job_call(op: u8, job_id: Seq<u8>, tail: Seq<u8>) -> Seq<u8> {
    seq![op] + spec_string_field(job_id) + tail
}

/// The fields of CREATE_JOB after the job id.
pub open spec fn job_terms(agent_id: u64, requester: Seq<u8>, input_uri: Seq<u8>, max_price: u64) -> Seq<u8> {
    u64_le_bytes(agent_id) + spec_string_field(requester) + spec_string_field(input_uri) + u64_le_bytes(max_price)
}

/// Text that a call can carry: UTF-8 of at most `NO_LIMIT` bytes.
pub open spec fn text_ok(s: Seq<u8>) -> bool {
    s.len() <= NO_LIMIT && valid_utf8(s)
}

proof fn lemma_job_id_parses(op: u8, job_id: Seq<u8>, tail: Seq<u8>)
    requires
        text_ok(job_id),
    ensures
        spec_read_u8(job_call(op, job_id, tail), 0) == Some((op, 1int)),
        spec_read_string(job_call(op, job_id, tail), 1, NO_LIMIT as int) == Some((job_id, 3 + job_id.len() as int)),
{
    lemma_read_string_field(seq![op], job_id, tail, NO_LIMIT as int);
}

#[verifier::rlimit(50)]
proof fn lemma_create_job_parses(job_id: Seq<u8>, agent_id: u64, requester: Seq<u8>, input_uri: Seq<u8>, max_price: u64)
    requires
        text_ok(job_id),
        text_ok(requester),
        text_ok(input_uri),
    ensures ({
        let c = job_call(OP_CREATE_JOB, job_id, job_terms(agent_id, requester, input_uri, max_price));
        let p1 = 3 + job_id.len() as int;
        let p3 = p1 + 10 + requester.len() as int;
        let p4 = p3 + 2 + input_uri.len() as int;
        &&& spec_read_u64(c, p1) == Some((agent_id, p1 + 8))
        &&& spec_read_string(c, p1 + 8, NO_LIMIT as int) == Some((requester, p3))
        &&& spec_read_string(c, p3, NO_LIMIT as int) == Some((input_uri, p4))
        &&& spec_read_u64(c, p4) == Some((max_price, p4 + 8))
    }),
{
    let c = job_call(OP_CREATE_JOB, job_id, job_terms(agent_id, requester, input_uri, max_price));
    let f1 = seq![OP_CREATE_JOB] + spec_string_field(job_id);
    let f2 = f1 + u64_le_bytes(agent_id);
    let f3 = f2 + spec_string_field(requester);
    let f4 = f3 + spec_string_field(input_uri);
    assert(f1.len() == 3 + job_id.len());
    assert(spec_read_u64(c, f1.len() as int) == Some((agent_id, f2.len() as int))) by {
        assert(c =~= f1 + u64_le_bytes(agent_id) + (spec_string_field(requester) + spec_string_field(input_uri) + u64_le_bytes(max_price)));
        lemma_read_u64_field(f1, agent_id, spec_string_field(requester) + spec_string_field(input_uri) + u64_le_bytes(max_price));
    }
    assert(spec_read_string(c, f2.len() as int, NO_LIMIT as int) == Some((requester, f3.len() as int))) by {
        assert(c =~= f2 + spec_string_field(requester) + (spec_string_field(input_uri) + u64_le_bytes(max_price)));
        lemma_read_string_field(f2, requester, spec_string_field(input_uri) + u64_le_bytes(max_price), NO_LIMIT as int);
    }
    assert(spec_read_string(c, f3.len() as int, NO_LIMIT as int) == Some((input_uri, f4.len() as int))) by {
        assert(c =~= f3 + spec_string_field(input_uri) + u64_le_bytes(max_price));
        lemma_read_string_field(f3, input_uri, u64_le_bytes(max_price), NO_LIMIT as int);
    }
    assert(spec_read_u64(c, f4.len() as int) == Some((max_price, f4.len() + 8int))) by {
        assert(c =~= f4 + u64_le_bytes(max_price) + Seq::<u8>::empty());
        lemma_read_u64_field(f4, max_price, Seq::<u8>::empty());
    }
}

proof fn lemma_create_job_parts(m: Map<Seq<u8>, Seq<u8>>, c: Seq<u8>, job_id: Seq<u8>, agent_id: u64, requester: Seq<u8>, input_uri: Seq<u8>, max_price: u64, p1: int, p3: int, p4: int)
    requires
        spec_read_u8(c, 0) == Some((OP_CREATE_JOB, 1int)),
        spec_read_string(c, 1, NO_LIMIT as int) == Some((job_id, p1)),
        spec_read_u64(c, p1) == Some((agent_id, p1 + 8)),
        spec_read_string(c, p1 + 8, NO_LIMIT as int) == Some((requester, p3)),
        spec_read_string(c, p3, NO_LIMIT as int) == Some((input_uri, p4)),
        spec_read_u64(c, p4) == Some((max_price, p4 + 8)),
    ensures
        spec_handle(m, c) == (m.insert(job_key(job_id), job_record(agent_id, requester, input_uri, max_price)), Ok::<Seq<u8>, ContractError>(seq![1u8])),
{
}

proof fn lemma_job_parts(m: Map<Seq<u8>, Seq<u8>>, c: Seq<u8>, op: u8, job_id: Seq<u8>, p1: int, uri: Seq<u8>)
    requires
        op == OP_SUBMIT_RESULT || op == OP_GET_JOB,
        spec_read_u8(c, 0) == Some((op, 1int)),
        spec_read_string(c, 1, NO_LIMIT as int) == Some((job_id, p1)),
        op == OP_SUBMIT_RESULT ==> (spec_read_string(c, p1, NO_LIMIT as int) matches Some((u, _)) && u == uri),
    ensures
        op == OP_SUBMIT_RESULT ==> spec_handle(m, c) == spec_submit_result(m, job_id, uri),
        op == OP_GET_JOB ==> spec_handle(m, c) == match spec_load(m, job_key(job_id), 1024) {
            Err(e) => (m, Err(e)),
            Ok(d) => (m, Ok::<Seq<u8>, ContractError>(seq![1u8] + d)),
        },
{
}

proof fn lemma_get_job_call(m: Map<Seq<u8>, Seq<u8>>, job_id: Seq<u8>, d: Seq<u8>)
    requires
        text_ok(job_id),
        m.contains_key(job_key(job_id)),
        m[job_key(job_id)] == d,
        0 < d.len() <= 1024,
    ensures
        spec_handle(m, job_call(OP_GET_JOB, job_id, Seq::<u8>::empty())) == (m, Ok::<Seq<u8>, ContractError>(seq![1u8] + d)),
{
    lemma_job_id_parses(OP_GET_JOB, job_id, Seq::<u8>::empty());
    lemma_job_parts(m, job_call(OP_GET_JOB, job_id, Seq::<u8>::empty()), OP_GET_JOB, job_id, 3 + job_id.len() as int, Seq::<u8>::empty());
    assert(prefix_up_to(d, 1024) =~= d);
}

proof fn lemma_submit_call(m: Map<Seq<u8>, Seq<u8>>, job_id: Seq<u8>, uri: Seq<u8>)
    requires
        text_ok(job_id),
        text_ok(uri),
    ensures
        spec_handle(m, job_call(OP_SUBMIT_RESULT, job_id, spec_string_field(uri))) == spec_submit_result(m, job_id, uri),
{
    let c = job_call(OP_SUBMIT_RESULT, job_id, spec_string_field(uri));
    lemma_job_id_parses(OP_SUBMIT_RESULT, job_id, spec_string_field(uri));
    assert(spec_read_string(c, 3 + job_id.len() as int, NO_LIMIT as int) == Some((uri, 5 + job_id.len() + uri.len() as int))) by {
        let pre = seq![OP_SUBMIT_RESULT] + spec_string_field(job_id);
        assert(pre.len() == 3 + job_id.len());
        assert(pre + spec_string_field(uri) + Seq::<u8>::empty() =~= c);
        lemma_read_string_field(pre, uri, Seq::<u8>::empty(), NO_LIMIT as int);
    }
    lemma_job_parts(m, c, OP_SUBMIT_RESULT, job_id, 3 + job_id.len() as int, uri);
}

proof fn lemma_create_job_call(m: Map<Seq<u8>, Seq<u8>>, job_id: Seq<u8>, agent_id: u64, requester: Seq<u8>, input_uri: Seq<u8>, max_price: u64)
    requires
        text_ok(job_id),
        text_ok(requester),
        text_ok(input_uri),
    ensures
        spec_handle(m, job_call(OP_CREATE_JOB, job_id, job_terms(agent_id, requester, input_uri, max_price)))
            == (m.insert(job_key(job_id), job_record(agent_id, requester, input_uri, max_price)), Ok::<Seq<u8>, ContractError>(seq![1u8])),
{
    let c = job_call(OP_CREATE_JOB, job_id, job_terms(agent_id, requester, input_uri, max_price));
    lemma_job_id_parses(OP_CREATE_JOB, job_id, job_terms(agent_id, requester, input_uri, max_price));
    lemma_create_job_parses(job_id, agent_id, requester, input_uri, max_price);
    let p1 = 3 + job_id.len() as int;
    let p3 = p1 + 10 + requester.len() as int;
    let p4 = p3 + 2 + input_uri.len() as int;
    lemma_create_job_parts(m, c, job_id, agent_id, requester, input_uri, max_price, p1, p3, p4);
}

proof fn lemma_submit_on_record(m: Map<Seq<u8>, Seq<u8>>, job_id: Seq<u8>, terms: Seq<u8>, uri: Seq<u8>)
    requires
        m.contains_key(job_key(job_id)),
        m[job_key(job_id)] == terms + seq![1u8],
        20 <= terms.len(),
        terms.len() + 1 <= 1024,
    ensures
        spec_submit_result(m, job_id, uri)
            == (m.insert(job_key(job_id), terms + seq![2u8] + spec_string_field(uri)), Ok::<Seq<u8>, ContractError>(seq![1u8])),
{
    let r = terms + seq![1u8];
    assert(prefix_up_to(r, 1024) =~= r);
    assert(r.update(r.len() - 1, 2u8) + spec_string_field(uri) =~= terms + seq![2u8] + spec_string_field(uri));
}

proof fn lemma_created_job(m: Map<Seq<u8>, Seq<u8>>, job_id: Seq<u8>, agent_id: u64, requester: Seq<u8>, input_uri: Seq<u8>, max_price: u64)
    requires
        text_ok(job_id),
        text_ok(requester),
        text_ok(input_uri),
        job_terms(agent_id, requester, input_uri, max_price).len() + 1 <= 1024,
    ensures
        spec_handle(m, job_call(OP_CREATE_JOB, job_id, job_terms(agent_id, requester, input_uri, max_price)))
            == (m.insert(job_key(job_id), job_terms(agent_id, requester, input_uri, max_price) + seq![1u8]), Ok::<Seq<u8>, ContractError>(seq![1u8])),
        spec_handle(m.insert(job_key(job_id), job_terms(agent_id, requester, input_uri, max_price) + seq![1u8]), job_call(OP_GET_JOB, job_id, Seq::<u8>::empty())).1
            == Ok::<Seq<u8>, ContractError>(seq![1u8] + job_terms(agent_id, requester, input_uri, max_price) + seq![1u8]),
{
    let terms = job_terms(agent_id, requester, input_uri, max_price);
    assert(job_record(agent_id, requester, input_uri, max_price) =~= terms + seq![1u8]);
    lemma_create_job_call(m, job_id, agent_id, requester, input_uri, max_price);
    lemma_get_job_call(m.insert(job_key(job_id), terms + seq![1u8]), job_id, terms + seq![1u8]);
    assert(seq![1u8] + (terms + seq![1u8]) =~= seq![1u8] + terms + seq![1u8]);
}

proof fn lemma_submitted_job(m1: Map<Seq<u8>, Seq<u8>>, job_id: Seq<u8>, terms: Seq<u8>, uri: Seq<u8>)
    requires
        text_ok(job_id),
        text_ok(uri),
        m1.contains_key(job_key(job_id)),
        m1[job_key(job_id)] == terms + seq![1u8],
        20 <= terms.len(),
        terms.len() + 1 + spec_string_field(uri).len() <= 1024,
    ensures
        spec_handle(m1, job_call(OP_SUBMIT_RESULT, job_id, spec_string_field(uri)))
            == (m1.insert(job_key(job_id), terms + seq![2u8] + spec_string_field(uri)), Ok::<Seq<u8>, ContractError>(seq![1u8])),
        spec_handle(m1.insert(job_key(job_id), terms + seq![2u8] + spec_string_field(uri)), job_call(OP_GET_JOB, job_id, Seq::<u8>::empty())).1
            == Ok::<Seq<u8>, ContractError>(seq![1u8] + terms + seq![2u8] + spec_string_field(uri)),
{
    lemma_submit_call(m1, job_id, uri);
    lemma_submit_on_record(m1, job_id, terms, uri);
    let done = terms + seq![2u8] + spec_string_field(uri);
    lemma_get_job_call(m1.insert(job_key(job_id), done), job_id, done);
    assert(seq![1u8] + done =~= seq![1u8] + terms + seq![2u8] + spec_string_field(uri));
}

/// Through the contract's calls: CREATE_JOB answers `[1]` and GET_JOB then
/// answers `[1]` and the job's terms with status OPEN (1); SUBMIT_RESULT
/// then answers `[1]`, and GET_JOB answers the same terms with status
/// COMPLETED (2) followed by the result URI field (while the record fits
/// the 1024-byte read buffer).
pub proof fn law_job_calls(
    m: Map<Seq<u8>, Seq<u8>>,
    job_id: Seq<u8>,
    agent_id: u64,
    requester: Seq<u8>,
    input_uri: Seq<u8>,
    max_price: u64,
    uri: Seq<u8>,
)
    requires
        text_ok(job_id),
        text_ok(requester),
        text_ok(input_uri),
        text_ok(uri),
        job_terms(agent_id, requester, input_uri, max_price).len() + 1 + spec_string_field(uri).len() <= 1024,
    ensures ({
        let m1 = spec_handle(m, job_call(OP_CREATE_JOB, job_id, job_terms(agent_id, requester, input_uri, max_price))).0;
        let m2 = spec_handle(m1, job_call(OP_SUBMIT_RESULT, job_id, spec_string_field(uri))).0;
        &&& spec_handle(m, job_call(OP_CREATE_JOB, job_id, job_terms(agent_id, requester, input_uri, max_price))).1
            == Ok::<Seq<u8>, ContractError>(seq![1u8])
        &&& spec_handle(m1, job_call(OP_GET_JOB, job_id, Seq::<u8>::empty())).1
            == Ok::<Seq<u8>, ContractError>(seq![1u8] + job_terms(agent_id, requester, input_uri, max_price) + seq![1u8])
        &&& spec_handle(m1, job_call(OP_SUBMIT_RESULT, job_id, spec_string_field(uri))).1 == Ok::<Seq<u8>, ContractError>(seq![1u8])
        &&& spec_handle(m2, job_call(OP_GET_JOB, job_id, Seq::<u8>::empty())).1
            == Ok::<Seq<u8>, ContractError>(seq![1u8] + job_terms(agent_id, requester, input_uri, max_price) + seq![2u8] + spec_string_field(uri))
    }),
{
    let terms = job_terms(agent_id, requester, input_uri, max_price);
    assert(terms.len() >= 20);
    lemma_created_job(m, job_id, agent_id, requester, input_uri, max_price);
    let m1 = m.insert(job_key(job_id), terms + seq![1u8]);
    lemma_submitted_job(m1, job_id, terms, uri);
}

} // verus!
