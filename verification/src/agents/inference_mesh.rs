//! Inference mesh: GPU donors register what they can run, and inference
//! jobs are created, assigned to donors and completed.
use vstd::prelude::*;
use vstd::string::StringSliceAdditionalSpecFns;
use vstd::utf8::valid_utf8;
use crate::codec::{u64_le_bytes, push_u64_le, append_bytes};
use crate::error::ContractError;
use crate::host::{spec_load, load_bytes, key_with, reply_view, reply_byte};
use crate::store::{KvStore, prefix_up_to};
use crate::wire::{spec_read_u8, spec_read_u64, spec_read_string, spec_string_field, read_u8, read_u64, read_string,
    write_string_wrapping, lemma_read_string_field, lemma_read_u64_field, NO_LIMIT};

verus! {

pub const OP_REGISTER_DONOR: u8 = 1;
pub const OP_GET_DONOR: u8 = 2;
pub const OP_CREATE_JOB: u8 = 3;
pub const OP_ASSIGN_JOB: u8 = 4;
pub const OP_SET_JOB_RESULT: u8 = 5;
pub const OP_GET_JOB: u8 = 6;

pub const JOB_CREATED: u8 = 1;
pub const JOB_ASSIGNED: u8 = 2;
pub const JOB_SUCCEEDED: u8 = 3;
pub const JOB_FAILED: u8 = 4;

pub const DONOR_MAX: usize = 1024;
pub const JOB_MAX: usize = 2048;

pub open spec fn donor_key(did: Seq<u8>) -> Seq<u8> {
    "mesh:donor:".spec_bytes() + did
}

pub open spec fn job_key(job_id: Seq<u8>) -> Seq<u8> {
    "mesh:job:".spec_bytes() + job_id
}

/// A job: borrower, model, input URI, maximum price, status, donor and
/// result URI.
pub type JobV = (Seq<u8>, Seq<u8>, Seq<u8>, u64, u8, Seq<u8>, Seq<u8>);

/// Stored form of a job.
pub open spec fn job_record(j: JobV) -> Seq<u8> {
    spec_string_field(j.0) + spec_string_field(j.1) + spec_string_field(j.2) + u64_le_bytes(j.3) + seq![j.4]
        + spec_string_field(j.5) + spec_string_field(j.6)
}

/// The fields of a stored job before its status byte, and where that
/// byte is.
#[verifier::opaque]
pub open spec fn job_head(d: Seq<u8>) -> Option<(Seq<u8>, Seq<u8>, Seq<u8>, u64, int)> {
    match spec_read_string(d, 0, NO_LIMIT as int) {
        None => None,
        Some((b, p1)) => match spec_read_string(d, p1, NO_LIMIT as int) {
            None => None,
            Some((model, p2)) => match spec_read_string(d, p2, NO_LIMIT as int) {
                None => None,
                Some((uri, p3)) => match spec_read_u64(d, p3) {
                    None => None,
                    Some((price, p4)) => Some((b, model, uri, price, p4)),
                },
            },
        },
    }
}

/// The donor and result URI that follow the status byte at `p`.
pub open spec fn job_tail(d: Seq<u8>, p: int) -> Option<(Seq<u8>, Seq<u8>)> {
    match spec_read_string(d, p + 1, NO_LIMIT as int) {
        None => None,
        Some((donor, p5)) => match spec_read_string(d, p5, NO_LIMIT as int) {
            None => None,
            Some((result, _)) => Some((donor, result)),
        },
    }
}

/// A job record whose status byte is missing: reading it runs past the
/// end of the record.
pub open spec fn job_truncated(d: Seq<u8>) -> bool {
    job_head(d) matches Some(h) && h.4 >= d.len()
}

/// ASSIGN_JOB: the job's status becomes ASSIGNED, the donor is recorded
/// and the result is cleared.
pub open spec fn spec_assign(m: Map<Seq<u8>, Seq<u8>>, job_id: Seq<u8>, donor: Seq<u8>) -> (Map<Seq<u8>, Seq<u8>>, Result<Seq<u8>, ContractError>) {
    let bad = (m, Err(ContractError::InvalidInput));
    match spec_load(m, job_key(job_id), JOB_MAX as int) {
        Err(e) => (m, Err(e)),
        Ok(d) => match job_head(d) {
            None => bad,
            Some(h) => if h.4 >= d.len() {
                bad
            } else {
                match job_tail(d, h.4) {
                    None => bad,
                    Some(_) => (m.insert(job_key(job_id), job_record((h.0, h.1, h.2, h.3, JOB_ASSIGNED, donor, Seq::empty()))), Ok(seq![1u8])),
                }
            },
        },
    }
}

/// SET_JOB_RESULT: the status becomes SUCCEEDED (for `success == 1`) or
/// FAILED, and the result URI is recorded.
pub open spec fn spec_set_result(m: Map<Seq<u8>, Seq<u8>>, job_id: Seq<u8>, success: u8, result: Seq<u8>) -> (Map<Seq<u8>, Seq<u8>>, Result<Seq<u8>, ContractError>) {
    let bad = (m, Err(ContractError::InvalidInput));
    match spec_load(m, job_key(job_id), JOB_MAX as int) {
        Err(e) => (m, Err(e)),
        Ok(d) => match job_head(d) {
            None => bad,
            Some(h) => match job_tail(d, h.4) {
                None => bad,
                Some(t) => (
                    m.insert(job_key(job_id), job_record((h.0, h.1, h.2, h.3, if success == 1 { JOB_SUCCEEDED } else { JOB_FAILED }, t.0, result))),
                    Ok(seq![1u8]),
                ),
            },
        },
    }
}

/// GET_JOB: 0 when there is no job, else 1 and the job's record.
pub open spec fn spec_get_job(m: Map<Seq<u8>, Seq<u8>>, job_id: Seq<u8>) -> Result<Seq<u8>, ContractError> {
    match spec_load(m, job_key(job_id), JOB_MAX as int) {
        Err(_) => Ok(seq![0u8]),
        Ok(d) => match job_head(d) {
            None => Err(ContractError::InvalidInput),
            Some(h) => match job_tail(d, h.4) {
                None => Err(ContractError::InvalidInput),
                Some(t) => Ok(seq![1u8] + job_record((h.0, h.1, h.2, h.3, d[h.4], t.0, t.1))),
            },
        },
    }
}

/// GET_DONOR: 0 when the donor is unknown, else 1 and its record.
pub open spec fn spec_get_donor(m: Map<Seq<u8>, Seq<u8>>, did: Seq<u8>) -> Seq<u8> {
    match spec_load(m, donor_key(did), DONOR_MAX as int) {
        Err(_) => seq![0u8],
        Ok(d) => seq![1u8] + d,
    }
}

pub open spec fn spec_handle(m: Map<Seq<u8>, Seq<u8>>, input: Seq<u8>) -> (Map<Seq<u8>, Seq<u8>>, Result<Seq<u8>, ContractError>) {
    let bad = (m, Err(ContractError::InvalidInput));
    let lim = NO_LIMIT as int;
    match spec_read_u8(input, 0) {
        None => bad,
        Some((op, p)) => if op == OP_REGISTER_DONOR {
            match spec_read_string(input, p, lim) {
                None => bad,
                Some((did, p1)) => match spec_read_u8(input, p1) {
                    None => bad,
                    Some((gpu, p2)) => match spec_read_u8(input, p2) {
                        None => bad,
                        Some((max_batch, p3)) => match spec_read_string(input, p3, lim) {
                            None => bad,
                            Some((models, _)) => (m.insert(donor_key(did), seq![gpu, max_batch] + spec_string_field(models)), Ok(seq![1u8])),
                        },
                    },
                },
            }
        } else if op == OP_GET_DONOR {
            match spec_read_string(input, p, lim) {
                None => bad,
                Some((did, _)) => (m, Ok(spec_get_donor(m, did))),
            }
        } else if op == OP_CREATE_JOB {
            match spec_read_string(input, p, lim) {
                None => bad,
                Some((job_id, p1)) => match spec_read_string(input, p1, lim) {
                    None => bad,
                    Some((borrower, p2)) => match spec_read_string(input, p2, lim) {
                        None => bad,
                        Some((model, p3)) => match spec_read_string(input, p3, lim) {
                            None => bad,
                            Some((uri, p4)) => match spec_read_u64(input, p4) {
                                None => bad,
                                Some((price, _)) => (
                                    m.insert(job_key(job_id), job_record((borrower, model, uri, price, JOB_CREATED, Seq::empty(), Seq::empty()))),
                                    Ok(seq![1u8]),
                                ),
                            },
                        },
                    },
                },
            }
        } else if op == OP_ASSIGN_JOB {
            match spec_read_string(input, p, lim) {
                None => bad,
                Some((job_id, p1)) => match spec_read_string(input, p1, lim) {
                    None => bad,
                    Some((donor, _)) => spec_assign(m, job_id, donor),
                },
            }
        } else if op == OP_SET_JOB_RESULT {
            match spec_read_string(input, p, lim) {
                None => bad,
                Some((job_id, p1)) => match spec_read_u8(input, p1) {
                    None => bad,
                    Some((success, p2)) => match spec_read_string(input, p2, lim) {
                        None => bad,
                        Some((result, _)) => spec_set_result(m, job_id, success, result),
                    },
                },
            }
        } else if op == OP_GET_JOB {
            match spec_read_string(input, p, lim) {
                None => bad,
                Some((job_id, _)) => (m, spec_get_job(m, job_id)),
            }
        } else {
            bad
        }
    }
}

/// Where a call cannot go on: a donor record of one byte, or a job record
/// without its status byte, read by GET_DONOR, SET_JOB_RESULT or GET_JOB.
pub open spec fn handle_breaks(m: Map<Seq<u8>, Seq<u8>>, input: Seq<u8>) -> bool {
    let lim = NO_LIMIT as int;
    match spec_read_u8(input, 0) {
        None => false,
        Some((op, p)) => if op == OP_GET_DONOR {
            match spec_read_string(input, p, lim) {
                None => false,
                Some((did, _)) => spec_load(m, donor_key(did), DONOR_MAX as int) matches Ok(d) && d.len() < 2,
            }
        } else if op == OP_SET_JOB_RESULT {
            match spec_read_string(input, p, lim) {
                None => false,
                Some((job_id, p1)) => match spec_read_u8(input, p1) {
                    None => false,
                    Some((_, p2)) => match spec_read_string(input, p2, lim) {
                        None => false,
                        Some(_) => spec_load(m, job_key(job_id), JOB_MAX as int) matches Ok(d) && job_truncated(d),
                    },
                },
            }
        } else if op == OP_GET_JOB {
            match spec_read_string(input, p, lim) {
                None => false,
                Some((job_id, _)) => spec_load(m, job_key(job_id), JOB_MAX as int) matches Ok(d) && job_truncated(d),
            }
        } else {
            false
        }
    }
}

fn donor_key_of(did: &[u8]) -> (r: Vec<u8>)
    ensures
        r@ == donor_key(did@),
{
    key_with("mesh:donor:", did)
}

fn job_key_of(job_id: &[u8]) -> (r: Vec<u8>)
    ensures
        r@ == job_key(job_id@),
{
    key_with("mesh:job:", job_id)
}

/// Writes a job record.
fn encode_job(borrower: &[u8], model: &[u8], uri: &[u8], price: u64, status: u8, donor: &[u8], result: &[u8]) -> (r: Vec<u8>)
    ensures
        r@ == job_record((borrower@, model@, uri@, price, status, donor@, result@)),
{
    let mut buf: Vec<u8> = Vec::new();
    write_string_wrapping(&mut buf, borrower);
    write_string_wrapping(&mut buf, model);
    write_string_wrapping(&mut buf, uri);
    push_u64_le(&mut buf, price);
    buf.push(status);
    write_string_wrapping(&mut buf, donor);
    write_string_wrapping(&mut buf, result);
    assert(buf@ =~= job_record((borrower@, model@, uri@, price, status, donor@, result@)));
    buf
}

/// The fields of a job record before its status byte.
pub struct JobHead {
    pub borrower: Vec<u8>,
    pub model_id: Vec<u8>,
    pub input_uri: Vec<u8>,
    pub max_price: u64,
    pub status_at: usize,
}

fn read_job_head(data: &[u8]) -> (r: Result<JobHead, ContractError>)
    ensures
        match job_head(data@) {
            None => r == Err::<JobHead, ContractError>(ContractError::InvalidInput),
            Some(h) => r matches Ok(x) && x.borrower@ == h.0 && x.model_id@ == h.1 && x.input_uri@ == h.2
                && x.max_price == h.3 && x.status_at == h.4,
        },
{
    reveal(job_head);
    let mut jc: usize = 0;
    let borrower = read_string(data, &mut jc, NO_LIMIT)?;
    let model_id = read_string(data, &mut jc, NO_LIMIT)?;
    let input_uri = read_string(data, &mut jc, NO_LIMIT)?;
    let max_price = read_u64(data, &mut jc)?;
    Ok(JobHead { borrower, model_id, input_uri, max_price, status_at: jc })
}

fn read_job_tail(data: &[u8], p: usize) -> (r: Result<(Vec<u8>, Vec<u8>), ContractError>)
    requires
        p < data@.len(),
    ensures
        match job_tail(data@, p as int) {
            None => r == Err::<(Vec<u8>, Vec<u8>), ContractError>(ContractError::InvalidInput),
            Some(t) => r matches Ok(x) && x.0@ == t.0 && x.1@ == t.1,
        },
{
    let n = data.len();
    assert(p < n);
    let mut jc = p + 1;
    let donor = read_string(data, &mut jc, NO_LIMIT)?;
    let result = read_string(data, &mut jc, NO_LIMIT)?;
    Ok((donor, result))
}

/// ASSIGN_JOB.
pub fn handle_assign_job(store: &mut KvStore, job_id: &[u8], donor_did: &[u8]) -> (r: Result<Vec<u8>, ContractError>)
    requires
        old(store).wf(),
    ensures
        final(store).wf(),
        (final(store)@, reply_view(r)) == spec_assign(old(store)@, job_id@, donor_did@),
{
    let key = job_key_of(job_id);
    let data = load_bytes(store, key.as_slice(), JOB_MAX)?;
    let head = read_job_head(data.as_slice())?;
    if head.status_at >= data.len() {
        return Err(ContractError::InvalidInput);
    }
    let _tail = read_job_tail(data.as_slice(), head.status_at)?;
    let none: Vec<u8> = Vec::new();
    let record = encode_job(head.borrower.as_slice(), head.model_id.as_slice(), head.input_uri.as_slice(), head.max_price,
        JOB_ASSIGNED, donor_did, none.as_slice());
    store.save(key.as_slice(), record.as_slice());
    Ok(reply_byte(1))
}

/// SET_JOB_RESULT.
pub fn handle_set_job_result(store: &mut KvStore, job_id: &[u8], success: u8, result_uri: &[u8]) -> (r: Result<Vec<u8>, ContractError>)
    requires
        old(store).wf(),
        !(spec_load(old(store)@, job_key(job_id@), JOB_MAX as int) matches Ok(d) && job_truncated(d)),
    ensures
        final(store).wf(),
        (final(store)@, reply_view(r)) == spec_set_result(old(store)@, job_id@, success, result_uri@),
{
    let key = job_key_of(job_id);
    let data = load_bytes(store, key.as_slice(), JOB_MAX)?;
    let head = read_job_head(data.as_slice())?;
    let tail = read_job_tail(data.as_slice(), head.status_at)?;
    let new_status = if success == 1 { JOB_SUCCEEDED } else { JOB_FAILED };
    let record = encode_job(head.borrower.as_slice(), head.model_id.as_slice(), head.input_uri.as_slice(), head.max_price,
        new_status, tail.0.as_slice(), result_uri);
    store.save(key.as_slice(), record.as_slice());
    Ok(reply_byte(1))
}

/// GET_JOB.
pub fn handle_get_job(store: &KvStore, job_id: &[u8]) -> (r: Result<Vec<u8>, ContractError>)
    requires
        store.wf(),
        !(spec_load(store@, job_key(job_id@), JOB_MAX as int) matches Ok(d) && job_truncated(d)),
    ensures
        reply_view(r) == spec_get_job(store@, job_id@),
{
    let key = job_key_of(job_id);
    let data = match load_bytes(store, key.as_slice(), JOB_MAX) {
        Ok(d) => d,
        Err(_) => {
            return Ok(reply_byte(0));
        },
    };
    let head = read_job_head(data.as_slice())?;
    let status = data[head.status_at];
    let tail = read_job_tail(data.as_slice(), head.status_at)?;
    let record = encode_job(head.borrower.as_slice(), head.model_id.as_slice(), head.input_uri.as_slice(), head.max_price,
        status, tail.0.as_slice(), tail.1.as_slice());
    let mut out = reply_byte(1);
    append_bytes(&mut out, record.as_slice());
    Ok(out)
}

/// GET_DONOR.
pub fn handle_get_donor(store: &KvStore, did: &[u8]) -> (r: Vec<u8>)
    requires
        store.wf(),
        !(spec_load(store@, donor_key(did@), DONOR_MAX as int) matches Ok(d) && d.len() < 2),
    ensures
        r@ == spec_get_donor(store@, did@),
{
    let key = donor_key_of(did);
    let data = match load_bytes(store, key.as_slice(), DONOR_MAX) {
        Ok(d) => d,
        Err(_) => {
            return reply_byte(0);
        },
    };
    let mut out = reply_byte(1);
    out.push(data[0]);
    out.push(data[1]);
    let rest = crate::wire::copy_range(data.as_slice(), 2, data.len());
    append_bytes(&mut out, rest.as_slice());
    assert(out@ =~= seq![1u8] + data@);
    out
}

/// Handles one call of the contract.
pub fn handle(store: &mut KvStore, input: &[u8]) -> (r: Result<Vec<u8>, ContractError>)
    requires
        old(store).wf(),
        !handle_breaks(old(store)@, input@),
    ensures
        final(store).wf(),
        (final(store)@, reply_view(r)) == spec_handle(old(store)@, input@),
{
    let mut cursor: usize = 0;
    let op = read_u8(input, &mut cursor)?;
    if op == OP_REGISTER_DONOR {
        let did = read_string(input, &mut cursor, NO_LIMIT)?;
        let gpu = read_u8(input, &mut cursor)?;
        let max_batch = read_u8(input, &mut cursor)?;
        let models = read_string(input, &mut cursor, NO_LIMIT)?;
        let mut buf: Vec<u8> = Vec::new();
        buf.push(gpu);
        buf.push(max_batch);
        write_string_wrapping(&mut buf, models.as_slice());
        assert(buf@ =~= seq![gpu, max_batch] + spec_string_field(models@));
        let key = donor_key_of(did.as_slice());
        store.save(key.as_slice(), buf.as_slice());
        Ok(reply_byte(1))
    } else if op == OP_GET_DONOR {
        let did = read_string(input, &mut cursor, NO_LIMIT)?;
        Ok(handle_get_donor(store, did.as_slice()))
    } else if op == OP_CREATE_JOB {
        let job_id = read_string(input, &mut cursor, NO_LIMIT)?;
        let borrower = read_string(input, &mut cursor, NO_LIMIT)?;
        let model_id = read_string(input, &mut cursor, NO_LIMIT)?;
        let input_uri = read_string(input, &mut cursor, NO_LIMIT)?;
        let max_price = read_u64(input, &mut cursor)?;
        let none: Vec<u8> = Vec::new();
        let record = encode_job(borrower.as_slice(), model_id.as_slice(), input_uri.as_slice(), max_price, JOB_CREATED,
            none.as_slice(), none.as_slice());
        let key = job_key_of(job_id.as_slice());
        store.save(key.as_slice(), record.as_slice());
        Ok(reply_byte(1))
    } else if op == OP_ASSIGN_JOB {
        let job_id = read_string(input, &mut cursor, NO_LIMIT)?;
        let donor = read_string(input, &mut cursor, NO_LIMIT)?;
        handle_assign_job(store, job_id.as_slice(), donor.as_slice())
    } else if op == OP_SET_JOB_RESULT {
        let job_id = read_string(input, &mut cursor, NO_LIMIT)?;
        let success = read_u8(input, &mut cursor)?;
        let result = read_string(input, &mut cursor, NO_LIMIT)?;
        handle_set_job_result(store, job_id.as_slice(), success, result.as_slice())
    } else if op == OP_GET_JOB {
        let job_id = read_string(input, &mut cursor, NO_LIMIT)?;
        handle_get_job(store, job_id.as_slice())
    } else {
        Err(ContractError::InvalidInput)
    }
}

/// The texts of a job, as its record can hold them.
pub open spec fn job_ok(j: JobV) -> bool {
    &&& valid_utf8(j.0) && j.0.len() <= NO_LIMIT
    &&& valid_utf8(j.1) && j.1.len() <= NO_LIMIT
    &&& valid_utf8(j.2) && j.2.len() <= NO_LIMIT
    &&& valid_utf8(j.5) && j.5.len() <= NO_LIMIT
    &&& valid_utf8(j.6) && j.6.len() <= NO_LIMIT
}

spec fn job_rest(j: JobV) -> Seq<u8> {
    u64_le_bytes(j.3) + seq![j.4] + spec_string_field(j.5) + spec_string_field(j.6)
}

#[verifier::rlimit(100)]
#[verifier::spinoff_prover]
proof fn job_step_head(j: JobV)
    requires
        job_ok(j),
    ensures
        job_head(job_record(j)) == Some((j.0, j.1, j.2, j.3,
            (spec_string_field(j.0).len() + spec_string_field(j.1).len() + spec_string_field(j.2).len() + 8) as int)),
{
    reveal(job_head);
    let b = job_record(j);
    let f0 = spec_string_field(j.0);
    let f1 = spec_string_field(j.1);
    let f2 = spec_string_field(j.2);
    let empty = Seq::<u8>::empty();
    assert(b =~= empty + f0 + (f1 + f2 + job_rest(j)));
    lemma_read_string_field(empty, j.0, f1 + f2 + job_rest(j), NO_LIMIT as int);
    assert(b =~= f0 + f1 + (f2 + job_rest(j)));
    lemma_read_string_field(f0, j.1, f2 + job_rest(j), NO_LIMIT as int);
    assert(b =~= (f0 + f1) + f2 + job_rest(j));
    lemma_read_string_field(f0 + f1, j.2, job_rest(j), NO_LIMIT as int);
    let tail = seq![j.4] + spec_string_field(j.5) + spec_string_field(j.6);
    assert(b =~= (f0 + f1 + f2) + u64_le_bytes(j.3) + tail);
    lemma_read_u64_field(f0 + f1 + f2, j.3, tail);
}

#[verifier::rlimit(100)]
#[verifier::spinoff_prover]
proof fn job_step_tail(j: JobV)
    requires
        job_ok(j),
    ensures
        ({
            let p = (spec_string_field(j.0).len() + spec_string_field(j.1).len() + spec_string_field(j.2).len() + 8) as int;
            &&& p < job_record(j).len()
            &&& job_record(j)[p] == j.4
            &&& job_tail(job_record(j), p) == Some((j.5, j.6))
        }),
{
    let b = job_record(j);
    let pre = spec_string_field(j.0) + spec_string_field(j.1) + spec_string_field(j.2) + u64_le_bytes(j.3);
    let f5 = spec_string_field(j.5);
    let f6 = spec_string_field(j.6);
    assert(b =~= (pre + seq![j.4]) + f5 + f6);
    lemma_read_string_field(pre + seq![j.4], j.5, f6, NO_LIMIT as int);
    assert(b =~= (pre + seq![j.4] + f5) + f6 + Seq::<u8>::empty());
    lemma_read_string_field(pre + seq![j.4] + f5, j.6, Seq::<u8>::empty(), NO_LIMIT as int);
    assert(b[pre.len() as int] == j.4);
}

/// A job record that was written is what GET_JOB answers (when it fits
/// the size read back): creating, assigning and completing a job each
/// write one.
pub proof fn law_job_written_reads_back(m: Map<Seq<u8>, Seq<u8>>, job_id: Seq<u8>, j: JobV)
    requires
        job_ok(j),
        job_record(j).len() <= JOB_MAX,
    ensures
        spec_get_job(m.insert(job_key(job_id), job_record(j)), job_id) == Ok::<Seq<u8>, ContractError>(seq![1u8] + job_record(j)),
{
    job_step_head(j);
    job_step_tail(j);
    assert(prefix_up_to(job_record(j), JOB_MAX as int) =~= job_record(j));
}

/// Whether a stored job record lacks its status byte.
fn record_truncated(store: &KvStore, job_id: &[u8]) -> (r: bool)
    requires
        store.wf(),
    ensures
        r == (spec_load(store@, job_key(job_id@), JOB_MAX as int) matches Ok(d) && job_truncated(d)),
{
    let key = job_key_of(job_id);
    match load_bytes(store, key.as_slice(), JOB_MAX) {
        Err(_) => false,
        Ok(data) => match read_job_head(data.as_slice()) {
            Err(_) => false,
            Ok(head) => head.status_at >= data.len(),
        },
    }
}

/// Whether a call is one on which the contract cannot go on (see
/// `handle_breaks`); callers test it before `handle`.
pub fn handle_traps(store: &KvStore, input: &[u8]) -> (r: bool)
    requires
        store.wf(),
    ensures
        r == handle_breaks(store@, input@),
{
    let mut cursor: usize = 0;
    let op = match read_u8(input, &mut cursor) {
        Ok(op) => op,
        Err(_) => {
            return false;
        },
    };
    if op == OP_GET_DONOR {
        let did = match read_string(input, &mut cursor, NO_LIMIT) {
            Ok(d) => d,
            Err(_) => {
                return false;
            },
        };
        let key = donor_key_of(did.as_slice());
        match load_bytes(store, key.as_slice(), DONOR_MAX) {
            Ok(d) => d.len() < 2,
            Err(_) => false,
        }
    } else if op == OP_SET_JOB_RESULT {
        let job_id = match read_string(input, &mut cursor, NO_LIMIT) {
            Ok(j) => j,
            Err(_) => {
                return false;
            },
        };
        if read_u8(input, &mut cursor).is_err() {
            return false;
        }
        if read_string(input, &mut cursor, NO_LIMIT).is_err() {
            return false;
        }
        record_truncated(store, job_id.as_slice())
    } else if op == OP_GET_JOB {
        let job_id = match read_string(input, &mut cursor, NO_LIMIT) {
            Ok(j) => j,
            Err(_) => {
                return false;
            },
        };
        record_truncated(store, job_id.as_slice())
    } else {
        false
    }
}

proof fn lemma_stored_job(m: Map<Seq<u8>, Seq<u8>>, job_id: Seq<u8>, j: JobV)
    requires
        job_ok(j),
        job_record(j).len() <= JOB_MAX,
    ensures ({
        let m1 = m.insert(job_key(job_id), job_record(j));
        let p = (spec_string_field(j.0).len() + spec_string_field(j.1).len() + spec_string_field(j.2).len() + 8) as int;
        &&& spec_load(m1, job_key(job_id), JOB_MAX as int) == Ok::<Seq<u8>, ContractError>(job_record(j))
        &&& job_head(job_record(j)) == Some((j.0, j.1, j.2, j.3, p))
        &&& p < job_record(j).len()
        &&& job_tail(job_record(j), p) == Some((j.5, j.6))
    }),
{
    job_step_head(j);
    job_step_tail(j);
    assert(prefix_up_to(job_record(j), JOB_MAX as int) =~= job_record(j));
}

/// A job's life: once a job record (borrower, model, input URI, price,
/// status, donor, result) is stored, ASSIGN_JOB answers `[1]` and leaves
/// the same terms with status ASSIGNED (2), the donor, and no result; then
/// SET_JOB_RESULT answers `[1]` and leaves the same terms and donor with
/// status SUCCEEDED (3) when `success == 1` and FAILED (4) otherwise, and
/// the result; GET_JOB then answers `[1]` and that record (for records
/// that fit the size read back).
#[verifier::rlimit(50)]
pub proof fn law_job_lifecycle(
    m: Map<Seq<u8>, Seq<u8>>,
    job_id: Seq<u8>,
    j: JobV,
    donor: Seq<u8>,
    success: u8,
    result: Seq<u8>,
)
    requires
        job_ok(j),
        valid_utf8(donor) && donor.len() <= NO_LIMIT,
        valid_utf8(result) && result.len() <= NO_LIMIT,
        job_record(j).len() <= JOB_MAX,
        job_record((j.0, j.1, j.2, j.3, 3u8, donor, result)).len() <= JOB_MAX,
    ensures ({
        let m1 = m.insert(job_key(job_id), job_record(j));
        let assigned = job_record((j.0, j.1, j.2, j.3, 2u8, donor, Seq::<u8>::empty()));
        let m2 = m1.insert(job_key(job_id), assigned);
        let done = job_record((j.0, j.1, j.2, j.3, if success == 1 { 3u8 } else { 4u8 }, donor, result));
        let m3 = m2.insert(job_key(job_id), done);
        &&& spec_assign(m1, job_id, donor) == (m2, Ok::<Seq<u8>, ContractError>(seq![1u8]))
        &&& spec_set_result(m2, job_id, success, result) == (m3, Ok::<Seq<u8>, ContractError>(seq![1u8]))
        &&& spec_get_job(m3, job_id) == Ok::<Seq<u8>, ContractError>(seq![1u8] + done)
    }),
{
    let ja = (j.0, j.1, j.2, j.3, 2u8, donor, Seq::<u8>::empty());
    let jd = (j.0, j.1, j.2, j.3, if success == 1 { 3u8 } else { 4u8 }, donor, result);
    assert(job_record(ja).len() <= job_record(jd).len());
    assert(job_record(jd).len() == job_record((j.0, j.1, j.2, j.3, 3u8, donor, result)).len());
    lemma_stored_job(m, job_id, j);
    let m1 = m.insert(job_key(job_id), job_record(j));
    lemma_stored_job(m1, job_id, ja);
    let m2 = m1.insert(job_key(job_id), job_record(ja));
    lemma_stored_job(m2, job_id, jd);
    law_job_written_reads_back(m2, job_id, jd);
}

} // verus!
