//! Escrow records: terms are stored at creation; release and refund mark
//! the record's status byte.
use vstd::prelude::*;
use vstd::string::StringSliceAdditionalSpecFns;
use crate::codec::{u64_le_bytes, push_u64_le, append_bytes};
use crate::error::ContractError;
use crate::host::{spec_load, load_bytes, key_with, reply_view, reply_byte};
use crate::store::{KvStore, prefix_up_to};
use vstd::utf8::valid_utf8;
use crate::wire::{lemma_read_u64_field, lemma_read_string_field, spec_read_u8, spec_read_u64, spec_read_string, spec_string_field, read_u8, read_u64, read_string, write_string_wrapping, NO_LIMIT};

verus! {

pub const OP_CREATE: u8 = 1;
pub const OP_RELEASE: u8 = 2;
pub const OP_REFUND: u8 = 3;
pub const OP_GET: u8 = 4;

pub const STATUS_OPEN: u8 = 1;
pub const STATUS_RELEASED: u8 = 2;
pub const STATUS_REFUNDED: u8 = 3;

pub open spec fn escrow_key(id: Seq<u8>) -> Seq<u8> {
    "escrow:".spec_bytes() + id
}

/// The stored record of an escrow: its terms followed by its status byte.
pub open spec fn escrow_record(token: Seq<u8>, payer: Seq<u8>, payee: Seq<u8>, amount: u64, arbiter: Seq<u8>, status: u8) -> Seq<u8> {
    spec_string_field(token) + spec_string_field(payer) + spec_string_field(payee) + u64_le_bytes(amount)
        + spec_string_field(arbiter) + seq![status]
}

/// RELEASE and REFUND: overwrite the last byte of the stored record (as
/// read with a 1024-byte buffer) with `status`.
pub open spec fn spec_mark(m: Map<Seq<u8>, Seq<u8>>, id: Seq<u8>, status: u8) -> (Map<Seq<u8>, Seq<u8>>, Result<Seq<u8>, ContractError>) {
    match spec_load(m, escrow_key(id), 1024) {
        Err(e) => (m, Err(e)),
        Ok(d) => if d.len() == 0 {
            (m, Err(ContractError::InvalidInput))
        } else {
            (m.insert(escrow_key(id), d.update(d.len() - 1, status)), Ok(seq![1u8]))
        },
    }
}

pub open spec fn spec_handle(m: Map<Seq<u8>, Seq<u8>>, input: Seq<u8>) -> (Map<Seq<u8>, Seq<u8>>, Result<Seq<u8>, ContractError>) {
    let bad = (m, Err(ContractError::InvalidInput));
    match spec_read_u8(input, 0) {
        None => bad,
        Some((op, p)) => if op == OP_CREATE {
            match spec_read_string(input, p, NO_LIMIT as int) {
                None => bad,
                Some((id, p1)) => match spec_read_string(input, p1, NO_LIMIT as int) {
                    None => bad,
                    Some((token, p2)) => match spec_read_string(input, p2, NO_LIMIT as int) {
                        None => bad,
                        Some((payer, p3)) => match spec_read_string(input, p3, NO_LIMIT as int) {
                            None => bad,
                            Some((payee, p4)) => match spec_read_u64(input, p4) {
                                None => bad,
                                Some((amount, p5)) => match spec_read_string(input, p5, NO_LIMIT as int) {
                                    None => bad,
                                    Some((arbiter, _)) => (
                                        m.insert(escrow_key(id), escrow_record(token, payer, payee, amount, arbiter, STATUS_OPEN)),
                                        Ok(seq![1u8]),
                                    ),
                                },
                            },
                        },
                    },
                },
            }
        } else if op == OP_RELEASE || op == OP_REFUND || op == OP_GET {
            match spec_read_string(input, p, NO_LIMIT as int) {
                None => bad,
                Some((id, _)) => if op == OP_RELEASE {
                    spec_mark(m, id, STATUS_RELEASED)
                } else if op == OP_REFUND {
                    spec_mark(m, id, STATUS_REFUNDED)
                } else {
                    match spec_load(m, escrow_key(id), 1024) {
                        Err(e) => (m, Err(e)),
                        Ok(d) => (m, Ok(seq![1u8] + d)),
                    }
                },
            }
        } else {
            bad
        }
    }
}

fn escrow_key_of(id: &[u8]) -> (r: Vec<u8>)
    ensures
        r@ == escrow_key(id@),
{
    key_with("escrow:", id)
}

fn mark(store: &mut KvStore, id: &[u8], status: u8) -> (r: Result<Vec<u8>, ContractError>)
    requires
        old(store).wf(),
    ensures
        final(store).wf(),
        (final(store)@, reply_view(r)) == spec_mark(old(store)@, id@, status),
{
    let k = escrow_key_of(id);
    let mut data = load_bytes(store, k.as_slice(), 1024)?;
    if data.len() == 0 {
        return Err(ContractError::InvalidInput);
    }
    let last = data.len() - 1;
    data.set(last, status);
    store.save(k.as_slice(), data.as_slice());
    Ok(reply_byte(1))
}

/// Runs one call of the escrow contract on `input` against `store`.
pub fn handle(store: &mut KvStore, input: &[u8]) -> (r: Result<Vec<u8>, ContractError>)
    requires
        old(store).wf(),
    ensures
        final(store).wf(),
        (final(store)@, reply_view(r)) == spec_handle(old(store)@, input@),
{
    let mut cursor: usize = 0;
    let op = read_u8(input, &mut cursor)?;
    if op == OP_CREATE {
        let id = read_string(input, &mut cursor, NO_LIMIT)?;
        let token = read_string(input, &mut cursor, NO_LIMIT)?;
        let payer = read_string(input, &mut cursor, NO_LIMIT)?;
        let payee = read_string(input, &mut cursor, NO_LIMIT)?;
        let amount = read_u64(input, &mut cursor)?;
        let arbiter = read_string(input, &mut cursor, NO_LIMIT)?;
        let mut buf: Vec<u8> = Vec::new();
        write_string_wrapping(&mut buf, token.as_slice());
        write_string_wrapping(&mut buf, payer.as_slice());
        write_string_wrapping(&mut buf, payee.as_slice());
        push_u64_le(&mut buf, amount);
        write_string_wrapping(&mut buf, arbiter.as_slice());
        buf.push(STATUS_OPEN);
        assert(buf@ =~= escrow_record(token@, payer@, payee@, amount, arbiter@, STATUS_OPEN));
        let k = escrow_key_of(id.as_slice());
        store.save(k.as_slice(), buf.as_slice());
        Ok(reply_byte(1))
    } else if op == OP_RELEASE || op == OP_REFUND || op == OP_GET {
        let id = read_string(input, &mut cursor, NO_LIMIT)?;
        if op == OP_RELEASE {
            mark(store, id.as_slice(), STATUS_RELEASED)
        } else if op == OP_REFUND {
            mark(store, id.as_slice(), STATUS_REFUNDED)
        } else {
            let k = escrow_key_of(id.as_slice());
            let data = load_bytes(store, k.as_slice(), 1024)?;
            let mut out: Vec<u8> = Vec::new();
            out.push(1u8);
            append_bytes(&mut out, data.as_slice());
            Ok(out)
        }
    } else {
        Err(ContractError::InvalidInput)
    }
}

/// Releasing an escrow whose record fits the 1024-byte read buffer keeps
/// its terms and sets its status byte to RELEASED.
pub proof fn law_release_sets_status(
    m: Map<Seq<u8>, Seq<u8>>,
    id: Seq<u8>,
    token: Seq<u8>,
    payer: Seq<u8>,
    payee: Seq<u8>,
    amount: u64,
    arbiter: Seq<u8>,
    status: u8,
)
    requires
        m.contains_key(escrow_key(id)),
        m[escrow_key(id)] == escrow_record(token, payer, payee, amount, arbiter, status),
        escrow_record(token, payer, payee, amount, arbiter, status).len() <= 1024,
    ensures
        spec_mark(m, id, STATUS_RELEASED).1 == Ok::<Seq<u8>, ContractError>(seq![1u8]),
        spec_mark(m, id, STATUS_RELEASED).0[escrow_key(id)] == escrow_record(token, payer, payee, amount, arbiter, STATUS_RELEASED),
{
    let r = escrow_record(token, payer, payee, amount, arbiter, status);
    assert(r.update(r.len() - 1, STATUS_RELEASED) =~= escrow_record(token, payer, payee, amount, arbiter, STATUS_RELEASED));
}

/// The call `[op][id]` that names one escrow.
pub open spec fn id_call(op: u8, id: Seq<u8>) -> Seq<u8> {
    seq![op] + spec_string_field(id)
}

proof fn lemma_id_call_parses(op: u8, id: Seq<u8>)
    requires
        id.len() <= NO_LIMIT,
        valid_utf8(id),
    ensures
        spec_read_u8(id_call(op, id), 0) == Some((op, 1int)),
        spec_read_string(id_call(op, id), 1, NO_LIMIT as int) == Some((id, 3 + id.len() as int)),
{
    lemma_read_string_field(seq![op], id, Seq::<u8>::empty(), NO_LIMIT as int);
    assert(seq![op] + spec_string_field(id) + Seq::<u8>::empty() =~= id_call(op, id));
}

proof fn lemma_id_parts(m: Map<Seq<u8>, Seq<u8>>, c: Seq<u8>, op: u8, id: Seq<u8>, p: int)
    requires
        op == OP_RELEASE || op == OP_REFUND || op == OP_GET,
        spec_read_u8(c, 0) == Some((op, 1int)),
        spec_read_string(c, 1, NO_LIMIT as int) == Some((id, p)),
    ensures
        op == OP_RELEASE ==> spec_handle(m, c) == spec_mark(m, id, STATUS_RELEASED),
        op == OP_REFUND ==> spec_handle(m, c) == spec_mark(m, id, STATUS_REFUNDED),
        op == OP_GET ==> spec_handle(m, c) == match spec_load(m, escrow_key(id), 1024) {
            Err(e) => (m, Err(e)),
            Ok(d) => (m, Ok(seq![1u8] + d)),
        },
{
}

proof fn lemma_id_call(m: Map<Seq<u8>, Seq<u8>>, op: u8, id: Seq<u8>)
    requires
        op == OP_RELEASE || op == OP_REFUND || op == OP_GET,
        id.len() <= NO_LIMIT,
        valid_utf8(id),
    ensures
        op == OP_RELEASE ==> spec_handle(m, id_call(op, id)) == spec_mark(m, id, STATUS_RELEASED),
        op == OP_REFUND ==> spec_handle(m, id_call(op, id)) == spec_mark(m, id, STATUS_REFUNDED),
        op == OP_GET ==> spec_handle(m, id_call(op, id)) == match spec_load(m, escrow_key(id), 1024) {
            Err(e) => (m, Err(e)),
            Ok(d) => (m, Ok(seq![1u8] + d)),
        },
{
    lemma_id_call_parses(op, id);
    lemma_id_parts(m, id_call(op, id), op, id, 3 + id.len() as int);
}

proof fn lemma_get_call(m: Map<Seq<u8>, Seq<u8>>, id: Seq<u8>, d: Seq<u8>)
    requires
        id.len() <= NO_LIMIT,
        valid_utf8(id),
        m.contains_key(escrow_key(id)),
        m[escrow_key(id)] == d,
        0 < d.len() <= 1024,
    ensures
        spec_handle(m, id_call(OP_GET, id)) == (m, Ok::<Seq<u8>, ContractError>(seq![1u8] + d)),
{
    lemma_id_call(m, OP_GET, id);
    assert(prefix_up_to(d, 1024) =~= d);
}

proof fn lemma_mark_record(
    m: Map<Seq<u8>, Seq<u8>>,
    id: Seq<u8>,
    token: Seq<u8>,
    payer: Seq<u8>,
    payee: Seq<u8>,
    amount: u64,
    arbiter: Seq<u8>,
    status: u8,
    new_status: u8,
)
    requires
        m.contains_key(escrow_key(id)),
        m[escrow_key(id)] == escrow_record(token, payer, payee, amount, arbiter, status),
        escrow_record(token, payer, payee, amount, arbiter, status).len() <= 1024,
    ensures
        spec_mark(m, id, new_status) == (
            m.insert(escrow_key(id), escrow_record(token, payer, payee, amount, arbiter, new_status)),
            Ok::<Seq<u8>, ContractError>(seq![1u8]),
        ),
{
    let r = escrow_record(token, payer, payee, amount, arbiter, status);
    assert(prefix_up_to(r, 1024) =~= r);
    assert(r.update(r.len() - 1, new_status) =~= escrow_record(token, payer, payee, amount, arbiter, new_status));
}

/// Settling an escrow: RELEASE answers `[1]` and the stored record keeps
/// its terms with status RELEASED (2); REFUND answers `[1]` and the record
/// keeps its terms with status REFUNDED (3). A GET afterwards answers `[1]`
/// and that record.
#[verifier::spinoff_prover]
pub proof fn law_settle_sets_status(
    m: Map<Seq<u8>, Seq<u8>>,
    id: Seq<u8>,
    token: Seq<u8>,
    payer: Seq<u8>,
    payee: Seq<u8>,
    amount: u64,
    arbiter: Seq<u8>,
    status: u8,
)
    requires
        id.len() <= NO_LIMIT,
        valid_utf8(id),
        m.contains_key(escrow_key(id)),
        m[escrow_key(id)] == escrow_record(token, payer, payee, amount, arbiter, status),
        escrow_record(token, payer, payee, amount, arbiter, status).len() <= 1024,
    ensures
        spec_handle(m, id_call(OP_RELEASE, id)) == (
            m.insert(escrow_key(id), escrow_record(token, payer, payee, amount, arbiter, 2u8)),
            Ok::<Seq<u8>, ContractError>(seq![1u8]),
        ),
        spec_handle(m, id_call(OP_REFUND, id)) == (
            m.insert(escrow_key(id), escrow_record(token, payer, payee, amount, arbiter, 3u8)),
            Ok::<Seq<u8>, ContractError>(seq![1u8]),
        ),
        spec_handle(spec_handle(m, id_call(OP_RELEASE, id)).0, id_call(OP_GET, id)).1
            == Ok::<Seq<u8>, ContractError>(seq![1u8] + escrow_record(token, payer, payee, amount, arbiter, 2u8)),
        spec_handle(spec_handle(m, id_call(OP_REFUND, id)).0, id_call(OP_GET, id)).1
            == Ok::<Seq<u8>, ContractError>(seq![1u8] + escrow_record(token, payer, payee, amount, arbiter, 3u8)),
{
    lemma_id_call(m, OP_RELEASE, id);
    lemma_id_call(m, OP_REFUND, id);
    lemma_mark_record(m, id, token, payer, payee, amount, arbiter, status, 2u8);
    lemma_mark_record(m, id, token, payer, payee, amount, arbiter, status, 3u8);
    let released = escrow_record(token, payer, payee, amount, arbiter, 2u8);
    let refunded = escrow_record(token, payer, payee, amount, arbiter, 3u8);
    lemma_get_call(m.insert(escrow_key(id), released), id, released);
    lemma_get_call(m.insert(escrow_key(id), refunded), id, refunded);
}

/// CREATE of an escrow with its terms.
pub open spec fn create_call(id: Seq<u8>, token: Seq<u8>, payer: Seq<u8>, payee: Seq<u8>, amount: u64, arbiter: Seq<u8>) -> Seq<u8> {
    seq![OP_CREATE] + spec_string_field(id) + spec_string_field(token) + spec_string_field(payer) + spec_string_field(payee)
        + u64_le_bytes(amount) + spec_string_field(arbiter)
}

/// Text that a call can carry: UTF-8 of at most `NO_LIMIT` bytes.
pub open spec fn text_ok(s: Seq<u8>) -> bool {
    s.len() <= NO_LIMIT && valid_utf8(s)
}

proof fn lemma_create_parts(
    m: Map<Seq<u8>, Seq<u8>>,
    c: Seq<u8>,
    id: Seq<u8>,
    token: Seq<u8>,
    payer: Seq<u8>,
    payee: Seq<u8>,
    amount: u64,
    arbiter: Seq<u8>,
    p1: int,
    p2: int,
    p3: int,
    p4: int,
    p5: int,
)
    requires
        spec_read_u8(c, 0) == Some((OP_CREATE, 1int)),
        spec_read_string(c, 1, NO_LIMIT as int) == Some((id, p1)),
        spec_read_string(c, p1, NO_LIMIT as int) == Some((token, p2)),
        spec_read_string(c, p2, NO_LIMIT as int) == Some((payer, p3)),
        spec_read_string(c, p3, NO_LIMIT as int) == Some((payee, p4)),
        spec_read_u64(c, p4) == Some((amount, p5)),
        spec_read_string(c, p5, NO_LIMIT as int) matches Some((a, _)) && a == arbiter,
    ensures
        spec_handle(m, c) == (
            m.insert(escrow_key(id), escrow_record(token, payer, payee, amount, arbiter, STATUS_OPEN)),
            Ok::<Seq<u8>, ContractError>(seq![1u8]),
        ),
{
}

proof fn lemma_field_at(pre: Seq<u8>, s: Seq<u8>, rest: Seq<u8>, c: Seq<u8>)
    requires
        text_ok(s),
        c == pre + spec_string_field(s) + rest,
    ensures
        spec_read_string(c, pre.len() as int, NO_LIMIT as int) == Some((s, pre.len() + 2 + s.len() as int)),
{
    lemma_read_string_field(pre, s, rest, NO_LIMIT as int);
}

#[verifier::spinoff_prover]
#[verifier::rlimit(50)]
proof fn lemma_create_call(
    m: Map<Seq<u8>, Seq<u8>>,
    id: Seq<u8>,
    token: Seq<u8>,
    payer: Seq<u8>,
    payee: Seq<u8>,
    amount: u64,
    arbiter: Seq<u8>,
)
    requires
        text_ok(id),
        text_ok(token),
        text_ok(payer),
        text_ok(payee),
        text_ok(arbiter),
    ensures
        spec_handle(m, create_call(id, token, payer, payee, amount, arbiter)) == (
            m.insert(escrow_key(id), escrow_record(token, payer, payee, amount, arbiter, STATUS_OPEN)),
            Ok::<Seq<u8>, ContractError>(seq![1u8]),
        ),
{
    let c = create_call(id, token, payer, payee, amount, arbiter);
    let f0 = seq![OP_CREATE];
    let f1 = f0 + spec_string_field(id);
    let f2 = f1 + spec_string_field(token);
    let f3 = f2 + spec_string_field(payer);
    let f4 = f3 + spec_string_field(payee);
    let f5 = f4 + u64_le_bytes(amount);
    let tail = spec_string_field(arbiter);
    assert(c == f5 + tail);
    assert(spec_read_string(c, 1, NO_LIMIT as int) == Some((id, f1.len() as int))) by {
        assert(c =~= f0 + spec_string_field(id) + (spec_string_field(token) + spec_string_field(payer) + spec_string_field(payee) + u64_le_bytes(amount) + tail));
        lemma_field_at(f0, id, spec_string_field(token) + spec_string_field(payer) + spec_string_field(payee) + u64_le_bytes(amount) + tail, c);
    }
    assert(spec_read_string(c, f1.len() as int, NO_LIMIT as int) == Some((token, f2.len() as int))) by {
        assert(c =~= f1 + spec_string_field(token) + (spec_string_field(payer) + spec_string_field(payee) + u64_le_bytes(amount) + tail));
        lemma_field_at(f1, token, spec_string_field(payer) + spec_string_field(payee) + u64_le_bytes(amount) + tail, c);
    }
    assert(spec_read_string(c, f2.len() as int, NO_LIMIT as int) == Some((payer, f3.len() as int))) by {
        assert(c =~= f2 + spec_string_field(payer) + (spec_string_field(payee) + u64_le_bytes(amount) + tail));
        lemma_field_at(f2, payer, spec_string_field(payee) + u64_le_bytes(amount) + tail, c);
    }
    assert(spec_read_string(c, f3.len() as int, NO_LIMIT as int) == Some((payee, f4.len() as int))) by {
        assert(c =~= f3 + spec_string_field(payee) + (u64_le_bytes(amount) + tail));
        lemma_field_at(f3, payee, u64_le_bytes(amount) + tail, c);
    }
    assert(spec_read_u64(c, f4.len() as int) == Some((amount, f5.len() as int))) by {
        assert(c =~= f4 + u64_le_bytes(amount) + tail);
        lemma_read_u64_field(f4, amount, tail);
    }
    assert(spec_read_string(c, f5.len() as int, NO_LIMIT as int) == Some((arbiter, f5.len() + 2 + arbiter.len() as int))) by {
        assert(c =~= f5 + spec_string_field(arbiter) + Seq::<u8>::empty());
        lemma_field_at(f5, arbiter, Seq::<u8>::empty(), c);
    }
    assert(spec_read_u8(c, 0) == Some((OP_CREATE, 1int)));
    lemma_create_parts(m, c, id, token, payer, payee, amount, arbiter,
        f1.len() as int, f2.len() as int, f3.len() as int, f4.len() as int, f5.len() as int);
}

/// CREATE stores the escrow's terms with status OPEN (1), whatever was
/// stored under its id before, and GET then answers `[1]` and that record
/// (while it fits the 1024-byte read buffer).
pub proof fn law_create_then_get(
    m: Map<Seq<u8>, Seq<u8>>,
    id: Seq<u8>,
    token: Seq<u8>,
    payer: Seq<u8>,
    payee: Seq<u8>,
    amount: u64,
    arbiter: Seq<u8>,
)
    requires
        text_ok(id),
        text_ok(token),
        text_ok(payer),
        text_ok(payee),
        text_ok(arbiter),
        escrow_record(token, payer, payee, amount, arbiter, 1u8).len() <= 1024,
    ensures
        spec_handle(m, create_call(id, token, payer, payee, amount, arbiter)).1 == Ok::<Seq<u8>, ContractError>(seq![1u8]),
        spec_handle(spec_handle(m, create_call(id, token, payer, payee, amount, arbiter)).0, id_call(OP_GET, id)).1
            == Ok::<Seq<u8>, ContractError>(seq![1u8] + escrow_record(token, payer, payee, amount, arbiter, 1u8)),
{
    lemma_create_call(m, id, token, payer, payee, amount, arbiter);
    let r = escrow_record(token, payer, payee, amount, arbiter, 1u8);
    lemma_get_call(m.insert(escrow_key(id), r), id, r);
}

} // verus!
