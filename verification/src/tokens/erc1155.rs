//! ERC-1155 style multi-token balances.
use vstd::prelude::*;
use vstd::string::StringSliceAdditionalSpecFns;
use crate::codec::{u64_le_bytes, decimal_digits, u64_to_decimal, u64_to_le_vec, push_u64_le, append_bytes};
use crate::error::ContractError;
use crate::host::{spec_text, spec_u64_or_zero, load_text, load_u64_or_zero, save_u64, key_with, reply_view, reply_byte, lemma_u64_saved};
use crate::store::KvStore;
use vstd::utf8::valid_utf8;
use crate::wire::{spec_string_field, lemma_read_string_field, lemma_read_u64_field, spec_read_u8, spec_read_u64, spec_read_string, read_u8, read_u64, read_string, NO_LIMIT};

verus! {

pub const OP_BALANCE_OF: u8 = 1;
pub const OP_BALANCE_OF_BATCH: u8 = 2;
pub const OP_MINT: u8 = 3;
pub const OP_BURN: u8 = 4;
pub const OP_URI: u8 = 5;

/// Storage key of `account`'s balance of token `id`.
pub open spec fn balance_key(account: Seq<u8>, id: u64) -> Seq<u8> {
    "erc1155:bal:".spec_bytes() + account + seq![58u8] + decimal_digits(id as nat)
}

pub open spec fn uri_key(id: u64) -> Seq<u8> {
    "erc1155:uri:".spec_bytes() + decimal_digits(id as nat)
}

pub open spec fn balance_of(m: Map<Seq<u8>, Seq<u8>>, account: Seq<u8>, id: u64) -> u64 {
    spec_u64_or_zero(m, balance_key(account, id))
}

/// The balances for `n` (account, id) pairs read from `pos` on, or `None`
/// when the input runs short.
pub open spec fn spec_batch(m: Map<Seq<u8>, Seq<u8>>, input: Seq<u8>, pos: int, n: nat) -> Option<Seq<u8>>
    decreases n,
{
    if n == 0 {
        Some(Seq::<u8>::empty())
    } else {
        match spec_read_string(input, pos, NO_LIMIT as int) {
            None => None,
            Some((account, p2)) => match spec_read_u64(input, p2) {
                None => None,
                Some((id, p3)) => match spec_batch(m, input, p3, (n - 1) as nat) {
                    None => None,
                    Some(rest) => Some(u64_le_bytes(balance_of(m, account, id)) + rest),
                },
            },
        }
    }
}

pub open spec fn spec_mint(m: Map<Seq<u8>, Seq<u8>>, to: Seq<u8>, id: u64, amount: u64) -> (Map<Seq<u8>, Seq<u8>>, Result<Seq<u8>, ContractError>) {
    if to.len() == 0 || amount == 0 || balance_of(m, to, id) + amount > u64::MAX {
        (m, Err(ContractError::InvalidInput))
    } else {
        (m.insert(balance_key(to, id), u64_le_bytes((balance_of(m, to, id) + amount) as u64)), Ok(seq![1u8]))
    }
}

pub open spec fn spec_burn(m: Map<Seq<u8>, Seq<u8>>, from: Seq<u8>, id: u64, amount: u64) -> (Map<Seq<u8>, Seq<u8>>, Result<Seq<u8>, ContractError>) {
    if from.len() == 0 || amount == 0 || balance_of(m, from, id) < amount {
        (m, Err(ContractError::InvalidInput))
    } else {
        (m.insert(balance_key(from, id), u64_le_bytes((balance_of(m, from, id) - amount) as u64)), Ok(seq![1u8]))
    }
}

pub open spec fn spec_handle(m: Map<Seq<u8>, Seq<u8>>, input: Seq<u8>) -> (Map<Seq<u8>, Seq<u8>>, Result<Seq<u8>, ContractError>) {
    match spec_read_u8(input, 0) {
        None => (m, Err(ContractError::InvalidInput)),
        Some((op, p)) => if op == OP_BALANCE_OF {
            match spec_read_string(input, p, NO_LIMIT as int) {
                None => (m, Err(ContractError::InvalidInput)),
                Some((account, p2)) => match spec_read_u64(input, p2) {
                    None => (m, Err(ContractError::InvalidInput)),
                    Some((id, _)) => (m, Ok(u64_le_bytes(balance_of(m, account, id)))),
                },
            }
        } else if op == OP_BALANCE_OF_BATCH {
            match spec_read_u8(input, p) {
                None => (m, Err(ContractError::InvalidInput)),
                Some((n, p2)) => match spec_batch(m, input, p2, n as nat) {
                    None => (m, Err(ContractError::InvalidInput)),
                    Some(bals) => (m, Ok(seq![1u8] + bals)),
                },
            }
        } else if op == OP_MINT || op == OP_BURN {
            match spec_read_string(input, p, NO_LIMIT as int) {
                None => (m, Err(ContractError::InvalidInput)),
                Some((account, p2)) => match spec_read_u64(input, p2) {
                    None => (m, Err(ContractError::InvalidInput)),
                    Some((id, p3)) => match spec_read_u64(input, p3) {
                        None => (m, Err(ContractError::InvalidInput)),
                        Some((amount, _)) => if op == OP_MINT {
                            spec_mint(m, account, id, amount)
                        } else {
                            spec_burn(m, account, id, amount)
                        },
                    },
                },
            }
        } else if op == OP_URI {
            match spec_read_u64(input, p) {
                None => (m, Err(ContractError::InvalidInput)),
                Some((id, _)) => match spec_text(m, uri_key(id), 512) {
                    Err(e) => (m, Err(e)),
                    Ok(uri) => (m, Ok(seq![1u8] + uri)),
                },
            }
        } else {
            (m, Err(ContractError::InvalidInput))
        }
    }
}

fn balance_key_of(account: &[u8], id: u64) -> (r: Vec<u8>)
    ensures
        r@ == balance_key(account@, id),
{
    let mut k = key_with("erc1155:bal:", account);
    k.push(58u8);
    let d = u64_to_decimal(id);
    append_bytes(&mut k, d.as_slice());
    k
}

fn uri_key_of(id: u64) -> (r: Vec<u8>)
    ensures
        r@ == uri_key(id),
{
    let d = u64_to_decimal(id);
    key_with("erc1155:uri:", d.as_slice())
}

/// Balance of `account` in token `id`.
pub fn get_balance(store: &KvStore, account: &[u8], id: u64) -> (r: u64)
    requires
        store.wf(),
    ensures
        r == balance_of(store@, account@, id),
{
    let k = balance_key_of(account, id);
    load_u64_or_zero(store, k.as_slice())
}

fn set_balance(store: &mut KvStore, account: &[u8], id: u64, amount: u64)
    requires
        old(store).wf(),
    ensures
        final(store).wf(),
        final(store)@ == old(store)@.insert(balance_key(account@, id), u64_le_bytes(amount)),
{
    let k = balance_key_of(account, id);
    save_u64(store, k.as_slice(), amount);
}

fn balance_batch(store: &KvStore, input: &[u8], cursor: &mut usize, n: u8) -> (r: Result<Vec<u8>, ContractError>)
    requires
        store.wf(),
    ensures
        match spec_batch(store@, input@, *old(cursor) as int, n as nat) {
            None => r == Err::<Vec<u8>, ContractError>(ContractError::InvalidInput),
            Some(bals) => r matches Ok(v) && v@ == seq![1u8] + bals,
        },
{
    let ghost start = *cursor as int;
    let mut out: Vec<u8> = Vec::new();
    out.push(1u8);
    let mut k: u8 = 0;
    while k < n
        invariant
            store.wf(),
            start == *old(cursor) as int,
            k <= n,
            out@.len() >= 1,
            out@[0] == 1u8,
            spec_batch(store@, input@, start, n as nat) == match spec_batch(store@, input@, *cursor as int, (n - k) as nat) {
                None => None,
                Some(rest) => Some(out@.subrange(1, out@.len() as int) + rest),
            },
        decreases n - k,
    {
        let ghost before = out@;
        let ghost here = *cursor as int;
        assert(spec_batch(store@, input@, here, (n - k) as nat) == match spec_read_string(input@, here, NO_LIMIT as int) {
            None => None,
            Some((account, p2)) => match spec_read_u64(input@, p2) {
                None => None,
                Some((id, p3)) => match spec_batch(store@, input@, p3, (n - k - 1) as nat) {
                    None => None,
                    Some(rest) => Some(u64_le_bytes(balance_of(store@, account, id)) + rest),
                },
            },
        });
        let account = match read_string(input, cursor, NO_LIMIT) {
            Ok(a) => a,
            Err(e) => return Err(e),
        };
        let id = match read_u64(input, cursor) {
            Ok(i) => i,
            Err(e) => return Err(e),
        };
        let bal = get_balance(store, account.as_slice(), id);
        push_u64_le(&mut out, bal);
        k = k + 1;
        proof {
            assert(out@.subrange(1, out@.len() as int) =~= before.subrange(1, before.len() as int) + u64_le_bytes(bal));
            match spec_batch(store@, input@, *cursor as int, (n - k) as nat) {
                None => {},
                Some(rest) => {
                    assert(before.subrange(1, before.len() as int) + (u64_le_bytes(bal) + rest)
                        =~= out@.subrange(1, out@.len() as int) + rest);
                },
            }
        }
    }
    proof {
        assert(out@ =~= seq![1u8] + out@.subrange(1, out@.len() as int));
        assert(out@.subrange(1, out@.len() as int) + Seq::<u8>::empty() =~= out@.subrange(1, out@.len() as int));
    }
    Ok(out)
}

fn mint(store: &mut KvStore, to: &[u8], id: u64, amount: u64) -> (r: Result<Vec<u8>, ContractError>)
    requires
        old(store).wf(),
    ensures
        final(store).wf(),
        (final(store)@, reply_view(r)) == spec_mint(old(store)@, to@, id, amount),
{
    if to.len() == 0 || amount == 0 {
        return Err(ContractError::InvalidInput);
    }
    let bal = get_balance(store, to, id);
    let new_bal = match bal.checked_add(amount) {
        Some(v) => v,
        None => return Err(ContractError::InvalidInput),
    };
    set_balance(store, to, id, new_bal);
    Ok(reply_byte(1))
}

fn burn(store: &mut KvStore, from: &[u8], id: u64, amount: u64) -> (r: Result<Vec<u8>, ContractError>)
    requires
        old(store).wf(),
    ensures
        final(store).wf(),
        (final(store)@, reply_view(r)) == spec_burn(old(store)@, from@, id, amount),
{
    if from.len() == 0 || amount == 0 {
        return Err(ContractError::InvalidInput);
    }
    let bal = get_balance(store, from, id);
    if bal < amount {
        return Err(ContractError::InvalidInput);
    }
    set_balance(store, from, id, bal - amount);
    Ok(reply_byte(1))
}

/// Runs one call of the ERC-1155 contract on `input` against `store`.
pub fn handle(store: &mut KvStore, input: &[u8]) -> (r: Result<Vec<u8>, ContractError>)
    requires
        old(store).wf(),
    ensures
        final(store).wf(),
        (final(store)@, reply_view(r)) == spec_handle(old(store)@, input@),
{
    let mut cursor: usize = 0;
    let op = read_u8(input, &mut cursor)?;
    if op == OP_BALANCE_OF {
        let account = read_string(input, &mut cursor, NO_LIMIT)?;
        let id = read_u64(input, &mut cursor)?;
        let bal = get_balance(store, account.as_slice(), id);
        Ok(u64_to_le_vec(bal))
    } else if op == OP_BALANCE_OF_BATCH {
        let n = read_u8(input, &mut cursor)?;
        balance_batch(store, input, &mut cursor, n)
    } else if op == OP_MINT || op == OP_BURN {
        let account = read_string(input, &mut cursor, NO_LIMIT)?;
        let id = read_u64(input, &mut cursor)?;
        let amount = read_u64(input, &mut cursor)?;
        if op == OP_MINT {
            mint(store, account.as_slice(), id, amount)
        } else {
            burn(store, account.as_slice(), id, amount)
        }
    } else if op == OP_URI {
        let id = read_u64(input, &mut cursor)?;
        let k = uri_key_of(id);
        let uri = load_text(store, k.as_slice(), 512)?;
        let mut out: Vec<u8> = Vec::new();
        out.push(1u8);
        append_bytes(&mut out, uri.as_slice());
        Ok(out)
    } else {
        Err(ContractError::InvalidInput)
    }
}

/// Burning what was just minted gives back the balance from before the mint.
pub proof fn law_burn_undoes_mint(m: Map<Seq<u8>, Seq<u8>>, account: Seq<u8>, id: u64, amount: u64)
    requires
        spec_mint(m, account, id, amount).1 is Ok,
    ensures
        spec_burn(spec_mint(m, account, id, amount).0, account, id, amount).1 is Ok,
        balance_of(spec_burn(spec_mint(m, account, id, amount).0, account, id, amount).0, account, id)
            == balance_of(m, account, id),
{
    let m1 = spec_mint(m, account, id, amount).0;
    lemma_u64_saved(m, balance_key(account, id), (balance_of(m, account, id) + amount) as u64);
    lemma_u64_saved(m1, balance_key(account, id), (balance_of(m1, account, id) - amount) as u64);
}

/// The call `[op][account][id]` followed by `tail`.
pub open spec fn account_call(op: u8, account: Seq<u8>, id: u64, tail: Seq<u8>) -> Seq<u8> {
    seq![op] + spec_string_field(account) + u64_le_bytes(id) + tail
}

proof fn lemma_account_call_parses(op: u8, account: Seq<u8>, id: u64, tail: Seq<u8>)
    requires
        account.len() <= NO_LIMIT,
        valid_utf8(account),
    ensures
        spec_read_u8(account_call(op, account, id, tail), 0) == Some((op, 1int)),
        spec_read_string(account_call(op, account, id, tail), 1, NO_LIMIT as int)
            == Some((account, 3 + account.len() as int)),
        spec_read_u64(account_call(op, account, id, tail), 3 + account.len() as int)
            == Some((id, 11 + account.len() as int)),
{
    let c = account_call(op, account, id, tail);
    lemma_read_string_field(seq![op], account, u64_le_bytes(id) + tail, NO_LIMIT as int);
    assert(seq![op] + spec_string_field(account) + (u64_le_bytes(id) + tail) =~= c);
    lemma_read_u64_field(seq![op] + spec_string_field(account), id, tail);
}

/// The balance a store holds for `(account, id)`: the stored eight bytes,
/// or none at all for a zero balance.
pub open spec fn holds_balance(m: Map<Seq<u8>, Seq<u8>>, account: Seq<u8>, id: u64, v: u64) -> bool {
    ||| m.contains_key(balance_key(account, id)) && m[balance_key(account, id)] == u64_le_bytes(v)
    ||| !m.contains_key(balance_key(account, id)) && v == 0
}

/// BALANCE_OF(account, id) answers the eight little-endian bytes of the
/// balance stored for exactly that account and token id (zero when none is).
pub proof fn law_balance_of_answers_stored(m: Map<Seq<u8>, Seq<u8>>, account: Seq<u8>, id: u64, v: u64)
    requires
        account.len() <= NO_LIMIT,
        valid_utf8(account),
        holds_balance(m, account, id, v),
    ensures
        spec_handle(m, account_call(OP_BALANCE_OF, account, id, Seq::<u8>::empty()))
            == (m, Ok::<Seq<u8>, ContractError>(u64_le_bytes(v))),
{
    lemma_account_call_parses(OP_BALANCE_OF, account, id, Seq::<u8>::empty());
    lemma_balance_of_parts(m, account_call(OP_BALANCE_OF, account, id, Seq::<u8>::empty()), account, id, 3 + account.len() as int);
    lemma_held_balance(m, account, id, v);
}

proof fn lemma_balance_of_parts(m: Map<Seq<u8>, Seq<u8>>, c: Seq<u8>, account: Seq<u8>, id: u64, p: int)
    requires
        spec_read_u8(c, 0) == Some((OP_BALANCE_OF, 1int)),
        spec_read_string(c, 1, NO_LIMIT as int) == Some((account, p)),
        spec_read_u64(c, p) == Some((id, p + 8)),
    ensures
        spec_handle(m, c) == (m, Ok::<Seq<u8>, ContractError>(u64_le_bytes(balance_of(m, account, id)))),
{
}

proof fn lemma_amount_parts(m: Map<Seq<u8>, Seq<u8>>, c: Seq<u8>, op: u8, account: Seq<u8>, id: u64, amount: u64, p: int)
    requires
        op == OP_MINT || op == OP_BURN,
        spec_read_u8(c, 0) == Some((op, 1int)),
        spec_read_string(c, 1, NO_LIMIT as int) == Some((account, p)),
        spec_read_u64(c, p) == Some((id, p + 8)),
        spec_read_u64(c, p + 8) == Some((amount, p + 16)),
    ensures
        op == OP_MINT ==> spec_handle(m, c) == spec_mint(m, account, id, amount),
        op == OP_BURN ==> spec_handle(m, c) == spec_burn(m, account, id, amount),
{
}

proof fn lemma_amount_call(m: Map<Seq<u8>, Seq<u8>>, op: u8, account: Seq<u8>, id: u64, amount: u64)
    requires
        op == OP_MINT || op == OP_BURN,
        account.len() <= NO_LIMIT,
        valid_utf8(account),
    ensures
        op == OP_MINT ==> spec_handle(m, account_call(op, account, id, u64_le_bytes(amount))) == spec_mint(m, account, id, amount),
        op == OP_BURN ==> spec_handle(m, account_call(op, account, id, u64_le_bytes(amount))) == spec_burn(m, account, id, amount),
{
    let c = account_call(op, account, id, u64_le_bytes(amount));
    let p = 3 + account.len() as int;
    lemma_account_call_parses(op, account, id, u64_le_bytes(amount));
    lemma_read_u64_field(seq![op] + spec_string_field(account) + u64_le_bytes(id), amount, Seq::<u8>::empty());
    assert(seq![op] + spec_string_field(account) + u64_le_bytes(id) + u64_le_bytes(amount) + Seq::<u8>::empty() =~= c);
    assert(spec_read_u64(c, p + 8) == Some((amount, p + 16)));
    lemma_amount_parts(m, c, op, account, id, amount, p);
}

proof fn lemma_held_balance(m: Map<Seq<u8>, Seq<u8>>, account: Seq<u8>, id: u64, v: u64)
    requires
        holds_balance(m, account, id, v),
    ensures
        balance_of(m, account, id) == v,
{
    if m.contains_key(balance_key(account, id)) {
        lemma_u64_saved(m, balance_key(account, id), v);
        assert(m.insert(balance_key(account, id), u64_le_bytes(v)) =~= m);
    }
}

/// Minting `amount` of token `id` to `account` succeeds while the balance
/// stays within `u64` and adds `amount` to it: BALANCE_OF(account, id)
/// then answers the old balance plus `amount` (just `amount` on a store
/// that held no balance for it).
pub proof fn law_mint_then_balance_of(m: Map<Seq<u8>, Seq<u8>>, account: Seq<u8>, id: u64, amount: u64, v: u64)
    requires
        0 < account.len() <= NO_LIMIT,
        valid_utf8(account),
        amount > 0,
        v + amount <= u64::MAX,
        holds_balance(m, account, id, v),
    ensures
        spec_handle(m, account_call(OP_MINT, account, id, u64_le_bytes(amount))).1 == Ok::<Seq<u8>, ContractError>(seq![1u8]),
        holds_balance(spec_handle(m, account_call(OP_MINT, account, id, u64_le_bytes(amount))).0, account, id, (v + amount) as u64),
        spec_handle(
            spec_handle(m, account_call(OP_MINT, account, id, u64_le_bytes(amount))).0,
            account_call(OP_BALANCE_OF, account, id, Seq::<u8>::empty()),
        ).1 == Ok::<Seq<u8>, ContractError>(u64_le_bytes((v + amount) as u64)),
{
    lemma_amount_call(m, OP_MINT, account, id, amount);
    lemma_held_balance(m, account, id, v);
    let m1 = m.insert(balance_key(account, id), u64_le_bytes((v + amount) as u64));
    law_balance_of_answers_stored(m1, account, id, (v + amount) as u64);
}

/// Burning `amount` of token `id` from `account` succeeds exactly when the
/// balance covers it, and takes `amount` off: BALANCE_OF(account, id) then
/// answers the old balance minus `amount`. A burn beyond the balance
/// changes nothing.
pub proof fn law_burn_then_balance_of(m: Map<Seq<u8>, Seq<u8>>, account: Seq<u8>, id: u64, amount: u64, v: u64)
    requires
        0 < account.len() <= NO_LIMIT,
        valid_utf8(account),
        amount > 0,
        holds_balance(m, account, id, v),
    ensures
        amount > v ==> spec_handle(m, account_call(OP_BURN, account, id, u64_le_bytes(amount)))
            == (m, Err::<Seq<u8>, ContractError>(ContractError::InvalidInput)),
        amount <= v ==> spec_handle(m, account_call(OP_BURN, account, id, u64_le_bytes(amount))).1
            == Ok::<Seq<u8>, ContractError>(seq![1u8]),
        amount <= v ==> holds_balance(spec_handle(m, account_call(OP_BURN, account, id, u64_le_bytes(amount))).0, account, id, (v - amount) as u64),
        amount <= v ==> spec_handle(
            spec_handle(m, account_call(OP_BURN, account, id, u64_le_bytes(amount))).0,
            account_call(OP_BALANCE_OF, account, id, Seq::<u8>::empty()),
        ).1 == Ok::<Seq<u8>, ContractError>(u64_le_bytes((v - amount) as u64)),
{
    lemma_amount_call(m, OP_BURN, account, id, amount);
    lemma_held_balance(m, account, id, v);
    if amount <= v {
        let m1 = m.insert(balance_key(account, id), u64_le_bytes((v - amount) as u64));
        law_balance_of_answers_stored(m1, account, id, (v - amount) as u64);
    }
}

} // verus!
