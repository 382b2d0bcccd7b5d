//! Payment router: stores, per route, the accounts and basis points that a
//! payment is split into.
use vstd::prelude::*;
use vstd::string::StringSliceAdditionalSpecFns;
use crate::codec::{u16_le_bytes, push_u16_le, append_bytes};
use crate::error::ContractError;
use crate::host::{spec_load, load_bytes, key_with, reply_view, reply_byte};
use crate::store::{KvStore, prefix_up_to};
use vstd::utf8::valid_utf8;
use crate::wire::{lemma_read_string_field, spec_read_u8, spec_read_u16, spec_read_string, spec_string_field, read_u8, read_u16, read_string, write_string_wrapping, NO_LIMIT};

verus! {

pub const OP_SET_SPLIT: u8 = 1;
pub const OP_GET_SPLIT: u8 = 2;

pub open spec fn route_key(route_id: Seq<u8>) -> Seq<u8> {
    "pay:route:".spec_bytes() + route_id
}

/// The encoded `(account, bps)` entries of `n` splits read from `pos` on.
pub open spec fn spec_splits(input: Seq<u8>, pos: int, n: nat) -> Option<Seq<u8>>
    decreases n,
{
    if n == 0 {
        Some(Seq::<u8>::empty())
    } else {
        match spec_read_string(input, pos, NO_LIMIT as int) {
            None => None,
            Some((account, p2)) => match spec_read_u16(input, p2) {
                None => None,
                Some((bps, p3)) => match spec_splits(input, p3, (n - 1) as nat) {
                    None => None,
                    Some(rest) => Some(spec_string_field(account) + u16_le_bytes(bps) + rest),
                },
            },
        }
    }
}

pub open spec fn spec_handle(m: Map<Seq<u8>, Seq<u8>>, input: Seq<u8>) -> (Map<Seq<u8>, Seq<u8>>, Result<Seq<u8>, ContractError>) {
    let bad = (m, Err(ContractError::InvalidInput));
    match spec_read_u8(input, 0) {
        None => bad,
        Some((op, p)) => if op == OP_SET_SPLIT {
            match spec_read_string(input, p, NO_LIMIT as int) {
                None => bad,
                Some((route_id, p1)) => match spec_read_u8(input, p1) {
                    None => bad,
                    Some((n, p2)) => if n == 0 {
                        bad
                    } else {
                        match spec_splits(input, p2, n as nat) {
                            None => bad,
                            Some(entries) => (m.insert(route_key(route_id), seq![n] + entries), Ok(seq![1u8])),
                        }
                    },
                },
            }
        } else if op == OP_GET_SPLIT {
            match spec_read_string(input, p, NO_LIMIT as int) {
                None => bad,
                Some((route_id, _)) => match spec_load(m, route_key(route_id), 1024) {
                    Err(e) => (m, Err(e)),
                    Ok(d) => (m, Ok(seq![1u8] + d)),
                },
            }
        } else {
            bad
        }
    }
}

fn read_splits(input: &[u8], cursor: &mut usize, n: u8) -> (r: Result<Vec<u8>, ContractError>)
    ensures
        match spec_splits(input@, *old(cursor) as int, n as nat) {
            None => r == Err::<Vec<u8>, ContractError>(ContractError::InvalidInput),
            Some(entries) => r matches Ok(v) && v@ == seq![n] + entries,
        },
{
    let ghost start = *cursor as int;
    let mut buf: Vec<u8> = Vec::new();
    buf.push(n);
    let mut k: u8 = 0;
    while k < n
        invariant
            start == *old(cursor) as int,
            k <= n,
            buf@.len() >= 1,
            buf@[0] == n,
            spec_splits(input@, start, n as nat) == match spec_splits(input@, *cursor as int, (n - k) as nat) {
                None => None,
                Some(rest) => Some(buf@.subrange(1, buf@.len() as int) + rest),
            },
        decreases n - k,
    {
        let ghost before = buf@;
        let account = match read_string(input, cursor, NO_LIMIT) {
            Ok(a) => a,
            Err(e) => return Err(e),
        };
        let bps = match read_u16(input, cursor) {
            Ok(b) => b,
            Err(e) => return Err(e),
        };
        write_string_wrapping(&mut buf, account.as_slice());
        push_u16_le(&mut buf, bps);
        k = k + 1;
        proof {
            assert(buf@.subrange(1, buf@.len() as int) =~= before.subrange(1, before.len() as int)
                + (spec_string_field(account@) + u16_le_bytes(bps)));
            match spec_splits(input@, *cursor as int, (n - k) as nat) {
                None => {},
                Some(rest) => {
                    assert(before.subrange(1, before.len() as int) + (spec_string_field(account@) + u16_le_bytes(bps) + rest)
                        =~= buf@.subrange(1, buf@.len() as int) + rest);
                },
            }
        }
    }
    proof {
        assert(buf@ =~= seq![n] + buf@.subrange(1, buf@.len() as int));
        assert(buf@.subrange(1, buf@.len() as int) + Seq::<u8>::empty() =~= buf@.subrange(1, buf@.len() as int));
    }
    Ok(buf)
}

/// Runs one call of the router contract on `input` against `store`.
pub fn handle(store: &mut KvStore, input: &[u8]) -> (r: Result<Vec<u8>, ContractError>)
    requires
        old(store).wf(),
    ensures
        final(store).wf(),
        (final(store)@, reply_view(r)) == spec_handle(old(store)@, input@),
{
    let mut cursor: usize = 0;
    let op = read_u8(input, &mut cursor)?;
    if op == OP_SET_SPLIT {
        let route_id = read_string(input, &mut cursor, NO_LIMIT)?;
        let n = read_u8(input, &mut cursor)?;
        if n == 0 {
            return Err(ContractError::InvalidInput);
        }
        let buf = read_splits(input, &mut cursor, n)?;
        let k = key_with("pay:route:", route_id.as_slice());
        store.save(k.as_slice(), buf.as_slice());
        Ok(reply_byte(1))
    } else if op == OP_GET_SPLIT {
        let route_id = read_string(input, &mut cursor, NO_LIMIT)?;
        let k = key_with("pay:route:", route_id.as_slice());
        let data = load_bytes(store, k.as_slice(), 1024)?;
        let mut out: Vec<u8> = Vec::new();
        out.push(1u8);
        append_bytes(&mut out, data.as_slice());
        Ok(out)
    } else {
        Err(ContractError::InvalidInput)
    }
}

/// The wire form of a split: each account as a string field followed by
/// its basis points as a little-endian `u16`.
pub open spec fn split_entries(accounts: Seq<Seq<u8>>, bps: Seq<u16>) -> Seq<u8>
    decreases accounts.len(),
{
    if accounts.len() == 0 || bps.len() == 0 {
        Seq::<u8>::empty()
    } else {
        spec_string_field(accounts[0]) + u16_le_bytes(bps[0]) + split_entries(accounts.drop_first(), bps.drop_first())
    }
}

/// Accounts that can stand in a call: UTF-8 of at most `NO_LIMIT` bytes.
pub open spec fn accounts_ok(accounts: Seq<Seq<u8>>) -> bool {
    forall|i: int| 0 <= i < accounts.len() ==> #[trigger] accounts[i].len() <= NO_LIMIT && valid_utf8(accounts[i])
}

/// SET_SPLIT of `route_id` with one entry per account.
#[verifier::opaque]
pub open spec fn set_split_call(route_id: Seq<u8>, accounts: Seq<Seq<u8>>, bps: Seq<u16>) -> Seq<u8> {
    seq![OP_SET_SPLIT] + spec_string_field(route_id) + seq![accounts.len() as u8] + split_entries(accounts, bps)
}

/// GET_SPLIT of `route_id`.
pub open spec fn get_split_call(route_id: Seq<u8>) -> Seq<u8> {
    seq![OP_GET_SPLIT] + spec_string_field(route_id)
}

proof fn lemma_read_u16_field(pre: Seq<u8>, v: u16, rest: Seq<u8>)
    ensures
        spec_read_u16(pre + u16_le_bytes(v) + rest, pre.len() as int) == Some((v, pre.len() + 2int)),
{
    let input = pre + u16_le_bytes(v) + rest;
    let p = pre.len() as int;
    assert(input[p] == v as u8);
    assert(input[p + 1] == (v >> 8u16) as u8);
    crate::codec::lemma_u16_roundtrip(v);
}

proof fn lemma_accounts_tail(accounts: Seq<Seq<u8>>)
    requires
        accounts.len() > 0,
        accounts_ok(accounts),
    ensures
        accounts_ok(accounts.drop_first()),
        accounts[0].len() <= NO_LIMIT,
        valid_utf8(accounts[0]),
{
    assert(accounts[0].len() <= NO_LIMIT && valid_utf8(accounts[0]));
    assert forall|i: int| 0 <= i < accounts.drop_first().len() implies
        #[trigger] accounts.drop_first()[i].len() <= NO_LIMIT && valid_utf8(accounts.drop_first()[i]) by {
        assert(accounts.drop_first()[i] == accounts[i + 1]);
    }
}

#[verifier::spinoff_prover]
#[verifier::rlimit(50)]
proof fn lemma_splits_read_back(pre: Seq<u8>, accounts: Seq<Seq<u8>>, bps: Seq<u16>, rest: Seq<u8>)
    requires
        accounts.len() == bps.len(),
        accounts_ok(accounts),
    ensures
        spec_splits(pre + split_entries(accounts, bps) + rest, pre.len() as int, accounts.len())
            == Some(split_entries(accounts, bps)),
    decreases accounts.len(),
{
    if accounts.len() > 0 {
        let a0 = accounts[0];
        let b0 = bps[0];
        let tail = split_entries(accounts.drop_first(), bps.drop_first());
        let whole = split_entries(accounts, bps);
        assert(whole == spec_string_field(a0) + u16_le_bytes(b0) + tail);
        let input = pre + whole + rest;
        lemma_accounts_tail(accounts);
        let pre2 = pre + spec_string_field(a0);
        let pre3 = pre2 + u16_le_bytes(b0);
        assert(input =~= pre + spec_string_field(a0) + (u16_le_bytes(b0) + tail + rest));
        assert(input =~= pre2 + u16_le_bytes(b0) + (tail + rest));
        assert(input =~= pre3 + tail + rest);
        lemma_read_string_field(pre, a0, u16_le_bytes(b0) + tail + rest, NO_LIMIT as int);
        lemma_read_u16_field(pre2, b0, tail + rest);
        lemma_splits_read_back(pre3, accounts.drop_first(), bps.drop_first(), rest);
        assert(spec_read_string(input, pre.len() as int, NO_LIMIT as int) == Some((a0, pre2.len() as int)));
        assert(spec_read_u16(input, pre2.len() as int) == Some((b0, pre3.len() as int)));
        assert(spec_splits(input, pre3.len() as int, (accounts.len() - 1) as nat) == Some(tail));
    }
}

proof fn lemma_set_split_parts(m: Map<Seq<u8>, Seq<u8>>, c: Seq<u8>, route_id: Seq<u8>, p1: int, n: u8, e: Seq<u8>)
    requires
        spec_read_u8(c, 0) == Some((OP_SET_SPLIT, 1int)),
        spec_read_string(c, 1, NO_LIMIT as int) == Some((route_id, p1)),
        spec_read_u8(c, p1) == Some((n, p1 + 1)),
        n > 0,
        spec_splits(c, p1 + 1, n as nat) == Some(e),
    ensures
        spec_handle(m, c) == (m.insert(route_key(route_id), seq![n] + e), Ok::<Seq<u8>, ContractError>(seq![1u8])),
{
}

#[verifier::spinoff_prover]
#[verifier::rlimit(100)]
proof fn lemma_set_split_parses(route_id: Seq<u8>, accounts: Seq<Seq<u8>>, bps: Seq<u16>)
    requires
        route_id.len() <= NO_LIMIT,
        valid_utf8(route_id),
        0 < accounts.len() <= 255,
        accounts.len() == bps.len(),
        accounts_ok(accounts),
    ensures
        ({
            let c = set_split_call(route_id, accounts, bps);
            let p1 = 3 + route_id.len() as int;
            &&& spec_read_u8(c, 0) == Some((OP_SET_SPLIT, 1int))
            &&& spec_read_string(c, 1, NO_LIMIT as int) == Some((route_id, p1))
            &&& spec_read_u8(c, p1) == Some((accounts.len() as u8, p1 + 1))
            &&& spec_splits(c, p1 + 1, accounts.len()) == Some(split_entries(accounts, bps))
        }),
{
    let c = set_split_call(route_id, accounts, bps);
    let n = accounts.len() as u8;
    let e = split_entries(accounts, bps);
    assert(c == seq![OP_SET_SPLIT] + spec_string_field(route_id) + seq![n] + e) by {
        reveal(set_split_call);
    }
    assert(seq![OP_SET_SPLIT] + spec_string_field(route_id) + (seq![n] + e) =~= c);
    lemma_read_string_field(seq![OP_SET_SPLIT], route_id, seq![n] + e, NO_LIMIT as int);
    let pre = seq![OP_SET_SPLIT] + spec_string_field(route_id) + seq![n];
    assert(pre + e + Seq::<u8>::empty() =~= c);
    lemma_splits_read_back(pre, accounts, bps, Seq::<u8>::empty());
    let p1 = (3 + route_id.len()) as int;
    assert(c[p1] == n);
    assert(pre.len() == p1 + 1);
    assert(n as nat == accounts.len());
    assert(spec_read_u8(c, 0) == Some((OP_SET_SPLIT, 1int)));
    assert(spec_read_string(c, 1, NO_LIMIT as int) == Some((route_id, p1)));
    assert(spec_read_u8(c, p1) == Some((n, p1 + 1)));
    assert(spec_splits(c, p1 + 1, accounts.len()) == Some(e));
}

proof fn lemma_set_split_call(m: Map<Seq<u8>, Seq<u8>>, route_id: Seq<u8>, accounts: Seq<Seq<u8>>, bps: Seq<u16>)
    requires
        route_id.len() <= NO_LIMIT,
        valid_utf8(route_id),
        0 < accounts.len() <= 255,
        accounts.len() == bps.len(),
        accounts_ok(accounts),
    ensures
        spec_handle(m, set_split_call(route_id, accounts, bps)) == (
            m.insert(route_key(route_id), seq![accounts.len() as u8] + split_entries(accounts, bps)),
            Ok::<Seq<u8>, ContractError>(seq![1u8]),
        ),
{
    lemma_set_split_parses(route_id, accounts, bps);
    let n = accounts.len() as u8;
    assert(n as nat == accounts.len());
    lemma_set_split_parts(m, set_split_call(route_id, accounts, bps), route_id, 3 + route_id.len() as int, n, split_entries(accounts, bps));
}

proof fn lemma_get_split_call(m: Map<Seq<u8>, Seq<u8>>, route_id: Seq<u8>)
    requires
        route_id.len() <= NO_LIMIT,
        valid_utf8(route_id),
    ensures
        spec_handle(m, get_split_call(route_id)) == match spec_load(m, route_key(route_id), 1024) {
            Err(e) => (m, Err(e)),
            Ok(d) => (m, Ok(seq![1u8] + d)),
        },
{
    lemma_read_string_field(seq![OP_GET_SPLIT], route_id, Seq::<u8>::empty(), NO_LIMIT as int);
    assert(seq![OP_GET_SPLIT] + spec_string_field(route_id) + Seq::<u8>::empty() =~= get_split_call(route_id));
}

/// A SET_SPLIT with entries for `n > 0` accounts succeeds and replaces
/// whatever the route held: GET_SPLIT of the route then answers `[1, n]`
/// followed by exactly those entries (while they fit the 1024-byte read
/// buffer).
pub proof fn law_set_split_then_get(m: Map<Seq<u8>, Seq<u8>>, route_id: Seq<u8>, accounts: Seq<Seq<u8>>, bps: Seq<u16>)
    requires
        route_id.len() <= NO_LIMIT,
        valid_utf8(route_id),
        0 < accounts.len() <= 255,
        accounts.len() == bps.len(),
        accounts_ok(accounts),
        1 + split_entries(accounts, bps).len() <= 1024,
    ensures
        spec_handle(m, set_split_call(route_id, accounts, bps)).1 == Ok::<Seq<u8>, ContractError>(seq![1u8]),
        spec_handle(spec_handle(m, set_split_call(route_id, accounts, bps)).0, get_split_call(route_id)).1
            == Ok::<Seq<u8>, ContractError>(seq![1u8, accounts.len() as u8] + split_entries(accounts, bps)),
{
    lemma_set_split_call(m, route_id, accounts, bps);
    let stored = seq![accounts.len() as u8] + split_entries(accounts, bps);
    let m1 = m.insert(route_key(route_id), stored);
    lemma_get_split_call(m1, route_id);
    assert(prefix_up_to(stored, 1024) =~= stored);
    assert(seq![1u8] + stored =~= seq![1u8, accounts.len() as u8] + split_entries(accounts, bps));
}

} // verus!
