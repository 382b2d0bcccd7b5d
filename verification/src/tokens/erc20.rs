//! SpaceUSD ERC-20 token (demo token of the playground).
use vstd::prelude::*;
use vstd::string::StringSliceAdditionalSpecFns;
use crate::codec::u64_le_bytes;
use crate::error::ContractError;
use crate::host::{spec_u64_or_zero, load_u64_or_zero, save_u64, key_with, reply_view, reply_byte, lemma_u64_saved, HostEnv, spec_caller, get_caller};
use crate::store::KvStore;
use vstd::utf8::valid_utf8;
use crate::wire::{lemma_read_string_field, lemma_read_u64_field, spec_read_u8, spec_read_u64, spec_read_string, read_u8, read_u64, read_string, write_string_wrapping, spec_string_field, NO_LIMIT};

verus! {

pub const OP_MINT: u8 = 1;
pub const OP_TRANSFER: u8 = 2;
pub const OP_BALANCE: u8 = 3;
pub const OP_TOTAL_SUPPLY: u8 = 4;
pub const OP_METADATA: u8 = 5;
pub const TOKEN_DECIMALS: u8 = 18;

/// Storage key of a DID's balance.
pub open spec fn balance_key(did: Seq<u8>) -> Seq<u8> {
    "spaceusd:erc20:balance:".spec_bytes() + did
}

/// Storage key of the total supply.
pub open spec fn total_supply_key() -> Seq<u8> {
    "spaceusd:erc20:total_supply".spec_bytes()
}

/// Balance of a DID in storage `m` (0 when none is stored).
pub open spec fn balance_of(m: Map<Seq<u8>, Seq<u8>>, did: Seq<u8>) -> u64 {
    spec_u64_or_zero(m, balance_key(did))
}

/// Total supply in storage `m`.
pub open spec fn total_supply(m: Map<Seq<u8>, Seq<u8>>) -> u64 {
    spec_u64_or_zero(m, total_supply_key())
}

/// MINT: credit `amount` to `to`, then raise the supply. A supply overflow
/// is reported after the balance was already written.
pub open spec fn spec_mint(m: Map<Seq<u8>, Seq<u8>>, to: Seq<u8>, amount: u64) -> (Map<Seq<u8>, Seq<u8>>, Result<Seq<u8>, ContractError>) {
    if to.len() == 0 || amount == 0 {
        (m, Err(ContractError::InvalidInput))
    } else if balance_of(m, to) + amount > u64::MAX {
        (m, Err(ContractError::InvalidInput))
    } else {
        let m1 = m.insert(balance_key(to), u64_le_bytes((balance_of(m, to) + amount) as u64));
        if total_supply(m1) + amount > u64::MAX {
            (m1, Err(ContractError::InvalidInput))
        } else {
            (m1.insert(total_supply_key(), u64_le_bytes((total_supply(m1) + amount) as u64)), Ok(seq![1u8]))
        }
    }
}

/// TRANSFER: move `amount` of the caller's tokens from `from` to `to`.
/// Only the caller's own tokens move (`Unauthorized` when `from` is not the
/// caller); a transfer to oneself leaves the balance as it was.
pub open spec fn spec_transfer(m: Map<Seq<u8>, Seq<u8>>, env: HostEnv, from: Seq<u8>, to: Seq<u8>, amount: u64) -> (Map<Seq<u8>, Seq<u8>>, Result<Seq<u8>, ContractError>) {
    if from.len() == 0 || to.len() == 0 || amount == 0 {
        (m, Err(ContractError::InvalidInput))
    } else if !(spec_caller(env, ContractError::Unauthorized) matches Ok(c) && c == from) {
        (m, Err(ContractError::Unauthorized))
    } else if balance_of(m, from) < amount {
        (m, Err(ContractError::InvalidInput))
    } else if balance_of(m, to) + amount > u64::MAX {
        (m, Err(ContractError::InvalidInput))
    } else if from == to {
        (m, Ok(seq![1u8]))
    } else {
        let m1 = m.insert(balance_key(from), u64_le_bytes((balance_of(m, from) - amount) as u64));
        (m1.insert(balance_key(to), u64_le_bytes((balance_of(m, to) + amount) as u64)), Ok(seq![1u8]))
    }
}

/// The reply to METADATA: name, symbol and decimals.
pub open spec fn spec_metadata() -> Seq<u8> {
    seq![1u8] + spec_string_field("SpaceUSD".spec_bytes()) + spec_string_field("SUSD".spec_bytes()) + seq![TOKEN_DECIMALS]
}

/// What one call of the contract does to storage and what it answers.
pub open spec fn spec_handle(m: Map<Seq<u8>, Seq<u8>>, env: HostEnv, input: Seq<u8>) -> (Map<Seq<u8>, Seq<u8>>, Result<Seq<u8>, ContractError>) {
    match spec_read_u8(input, 0) {
        None => (m, Err(ContractError::InvalidInput)),
        Some((op, p)) => if op == OP_MINT {
            match spec_read_string(input, p, NO_LIMIT as int) {
                None => (m, Err(ContractError::InvalidInput)),
                Some((to, p2)) => match spec_read_u64(input, p2) {
                    None => (m, Err(ContractError::InvalidInput)),
                    Some((amount, _)) => spec_mint(m, to, amount),
                },
            }
        } else if op == OP_TRANSFER {
            match spec_read_string(input, p, NO_LIMIT as int) {
                None => (m, Err(ContractError::InvalidInput)),
                Some((from, p2)) => match spec_read_string(input, p2, NO_LIMIT as int) {
                    None => (m, Err(ContractError::InvalidInput)),
                    Some((to, p3)) => match spec_read_u64(input, p3) {
                        None => (m, Err(ContractError::InvalidInput)),
                        Some((amount, _)) => spec_transfer(m, env, from, to, amount),
                    },
                },
            }
        } else if op == OP_BALANCE {
            match spec_read_string(input, p, NO_LIMIT as int) {
                None => (m, Err(ContractError::InvalidInput)),
                Some((did, _)) => (m, Ok(u64_le_bytes(balance_of(m, did)))),
            }
        } else if op == OP_TOTAL_SUPPLY {
            (m, Ok(u64_le_bytes(total_supply(m))))
        } else if op == OP_METADATA {
            (m, Ok(spec_metadata()))
        } else {
            (m, Err(ContractError::InvalidInput))
        }
    }
}

fn balance_key_of(did: &[u8]) -> (r: Vec<u8>)
    ensures
        r@ == balance_key(did@),
{
    key_with("spaceusd:erc20:balance:", did)
}

fn total_supply_key_bytes() -> (r: Vec<u8>)
    ensures
        r@ == total_supply_key(),
{
    key_with("spaceusd:erc20:total_supply", &[])
}

/// Balance of `did`.
pub fn get_balance(store: &KvStore, did: &[u8]) -> (r: u64)
    requires
        store.wf(),
    ensures
        r == balance_of(store@, did@),
{
    let k = balance_key_of(did);
    load_u64_or_zero(store, k.as_slice())
}

fn set_balance(store: &mut KvStore, did: &[u8], amount: u64)
    requires
        old(store).wf(),
    ensures
        final(store).wf(),
        final(store)@ == old(store)@.insert(balance_key(did@), u64_le_bytes(amount)),
{
    let k = balance_key_of(did);
    save_u64(store, k.as_slice(), amount);
}

/// Total supply.
pub fn get_total_supply(store: &KvStore) -> (r: u64)
    requires
        store.wf(),
    ensures
        r == total_supply(store@),
{
    let k = total_supply_key_bytes();
    load_u64_or_zero(store, k.as_slice())
}

fn set_total_supply(store: &mut KvStore, amount: u64)
    requires
        old(store).wf(),
    ensures
        final(store).wf(),
        final(store)@ == old(store)@.insert(total_supply_key(), u64_le_bytes(amount)),
{
    let k = total_supply_key_bytes();
    save_u64(store, k.as_slice(), amount);
}

fn mint(store: &mut KvStore, to: &[u8], amount: u64) -> (r: Result<Vec<u8>, ContractError>)
    requires
        old(store).wf(),
    ensures
        final(store).wf(),
        (final(store)@, reply_view(r)) == spec_mint(old(store)@, to@, amount),
{
    if to.len() == 0 || amount == 0 {
        return Err(ContractError::InvalidInput);
    }
    let balance = get_balance(store, to);
    let new_balance = match balance.checked_add(amount) {
        Some(v) => v,
        None => return Err(ContractError::InvalidInput),
    };
    set_balance(store, to, new_balance);
    let supply = get_total_supply(store);
    let new_supply = match supply.checked_add(amount) {
        Some(v) => v,
        None => return Err(ContractError::InvalidInput),
    };
    set_total_supply(store, new_supply);
    Ok(reply_byte(1))
}

fn transfer(store: &mut KvStore, env: &HostEnv, from: &[u8], to: &[u8], amount: u64) -> (r: Result<Vec<u8>, ContractError>)
    requires
        old(store).wf(),
    ensures
        final(store).wf(),
        (final(store)@, reply_view(r)) == spec_transfer(old(store)@, *env, from@, to@, amount),
{
    if from.len() == 0 || to.len() == 0 || amount == 0 {
        return Err(ContractError::InvalidInput);
    }
    match get_caller(env, ContractError::Unauthorized) {
        Ok(c) => {
            if !crate::store::bytes_equal(c.as_slice(), from) {
                return Err(ContractError::Unauthorized);
            }
        },
        Err(_) => {
            return Err(ContractError::Unauthorized);
        },
    }
    let from_balance = get_balance(store, from);
    if from_balance < amount {
        return Err(ContractError::InvalidInput);
    }
    let to_balance = get_balance(store, to);
    let new_to = match to_balance.checked_add(amount) {
        Some(v) => v,
        None => return Err(ContractError::InvalidInput),
    };
    if crate::store::bytes_equal(from, to) {
        return Ok(reply_byte(1));
    }
    let new_from = from_balance - amount;
    set_balance(store, from, new_from);
    set_balance(store, to, new_to);
    Ok(reply_byte(1))
}

fn metadata() -> (r: Result<Vec<u8>, ContractError>)
    ensures
        reply_view(r) == Ok::<Seq<u8>, ContractError>(spec_metadata()),
{
    let mut out: Vec<u8> = Vec::new();
    out.push(1u8);
    write_string_wrapping(&mut out, "SpaceUSD".as_bytes());
    write_string_wrapping(&mut out, "SUSD".as_bytes());
    out.push(TOKEN_DECIMALS);
    assert(out@ =~= spec_metadata());
    Ok(out)
}

/// Runs one call of the ERC-20 contract on `input` against `store`, for
/// the caller named in `env`.
pub fn handle(store: &mut KvStore, env: &HostEnv, input: &[u8]) -> (r: Result<Vec<u8>, ContractError>)
    requires
        old(store).wf(),
    ensures
        final(store).wf(),
        (final(store)@, reply_view(r)) == spec_handle(old(store)@, *env, input@),
{
    let mut cursor: usize = 0;
    let op = read_u8(input, &mut cursor)?;
    if op == OP_MINT {
        let to = read_string(input, &mut cursor, NO_LIMIT)?;
        let amount = read_u64(input, &mut cursor)?;
        mint(store, to.as_slice(), amount)
    } else if op == OP_TRANSFER {
        let from = read_string(input, &mut cursor, NO_LIMIT)?;
        let to = read_string(input, &mut cursor, NO_LIMIT)?;
        let amount = read_u64(input, &mut cursor)?;
        transfer(store, env, from.as_slice(), to.as_slice(), amount)
    } else if op == OP_BALANCE {
        let did = read_string(input, &mut cursor, NO_LIMIT)?;
        let b = get_balance(store, did.as_slice());
        Ok(crate::codec::u64_to_le_vec(b))
    } else if op == OP_TOTAL_SUPPLY {
        let s = get_total_supply(store);
        Ok(crate::codec::u64_to_le_vec(s))
    } else if op == OP_METADATA {
        metadata()
    } else {
        Err(ContractError::InvalidInput)
    }
}

} // verus!

verus! {

proof fn lemma_keys_distinct(did: Seq<u8>)
    ensures
        balance_key(did) != total_supply_key(),
{
    reveal_strlit("spaceusd:erc20:balance:");
    reveal_strlit("spaceusd:erc20:total_supply");
    vstd::string::is_ascii_spec_bytes("spaceusd:erc20:balance:");
    vstd::string::is_ascii_spec_bytes("spaceusd:erc20:total_supply");
    assert(balance_key(did)[15] != total_supply_key()[15]);
}

} // verus!

verus! {

/// A successful mint credits exactly `amount` to the recipient, raises the
/// total supply by the same amount, and leaves every other balance as it was.
pub proof fn law_mint_credits_and_raises_supply(m: Map<Seq<u8>, Seq<u8>>, to: Seq<u8>, amount: u64)
    requires
        spec_mint(m, to, amount).1 is Ok,
    ensures
        balance_of(spec_mint(m, to, amount).0, to) == balance_of(m, to) + amount,
        total_supply(spec_mint(m, to, amount).0) == total_supply(m) + amount,
        forall|other: Seq<u8>| other != to ==> balance_of(spec_mint(m, to, amount).0, other) == balance_of(m, other),
{
    lemma_keys_distinct(to);
    let m1 = m.insert(balance_key(to), u64_le_bytes((balance_of(m, to) + amount) as u64));
    lemma_u64_saved(m, balance_key(to), (balance_of(m, to) + amount) as u64);
    lemma_u64_saved(m1, total_supply_key(), (total_supply(m1) + amount) as u64);
    assert forall|other: Seq<u8>| other != to implies balance_of(spec_mint(m, to, amount).0, other) == balance_of(m, other) by {
        lemma_keys_distinct(other);
        crate::host::lemma_prefix_injective("spaceusd:erc20:balance:".spec_bytes(), other, to);
    }
}

/// A successful transfer moves exactly `amount` from the sender to a
/// different recipient, keeps the total supply, and leaves every other
/// balance as it was; a transfer to oneself changes no balance at all.
pub proof fn law_transfer_conserves(m: Map<Seq<u8>, Seq<u8>>, env: HostEnv, from: Seq<u8>, to: Seq<u8>, amount: u64)
    requires
        spec_transfer(m, env, from, to, amount).1 is Ok,
    ensures
        from != to ==> balance_of(spec_transfer(m, env, from, to, amount).0, from) == balance_of(m, from) - amount,
        from != to ==> balance_of(spec_transfer(m, env, from, to, amount).0, to) == balance_of(m, to) + amount,
        from == to ==> spec_transfer(m, env, from, to, amount).0 == m,
        total_supply(spec_transfer(m, env, from, to, amount).0) == total_supply(m),
        forall|other: Seq<u8>| other != from && other != to ==>
            balance_of(spec_transfer(m, env, from, to, amount).0, other) == balance_of(m, other),
{
    if from != to {
        let p = "spaceusd:erc20:balance:".spec_bytes();
        lemma_keys_distinct(to);
        lemma_keys_distinct(from);
        crate::host::lemma_prefix_injective(p, from, to);
        let m1 = m.insert(balance_key(from), u64_le_bytes((balance_of(m, from) - amount) as u64));
        lemma_u64_saved(m, balance_key(from), (balance_of(m, from) - amount) as u64);
        lemma_u64_saved(m1, balance_key(to), (balance_of(m, to) + amount) as u64);
        assert forall|other: Seq<u8>| other != from && other != to implies
            balance_of(spec_transfer(m, env, from, to, amount).0, other) == balance_of(m, other) by {
            crate::host::lemma_prefix_injective(p, other, to);
            crate::host::lemma_prefix_injective(p, other, from);
        }
    }
}

/// Only the caller's tokens move: a transfer from anyone else is refused
/// and changes nothing.
pub proof fn law_only_caller_tokens_move(m: Map<Seq<u8>, Seq<u8>>, env: HostEnv, from: Seq<u8>, to: Seq<u8>, amount: u64)
    requires
        env.caller@ != from,
    ensures
        spec_transfer(m, env, from, to, amount).0 == m,
        spec_transfer(m, env, from, to, amount).1 is Err,
{
}

/// BALANCE of a DID, as a call.
pub open spec fn balance_call(did: Seq<u8>) -> Seq<u8> {
    seq![OP_BALANCE] + spec_string_field(did)
}

/// TRANSFER of `amount` from `from` to `to`, as a call.
pub open spec fn transfer_call(from: Seq<u8>, to: Seq<u8>, amount: u64) -> Seq<u8> {
    seq![OP_TRANSFER] + spec_string_field(from) + spec_string_field(to) + u64_le_bytes(amount)
}

/// Text that a call can carry: UTF-8 of at most `NO_LIMIT` bytes.
pub open spec fn text_ok(s: Seq<u8>) -> bool {
    s.len() <= NO_LIMIT && valid_utf8(s)
}

proof fn lemma_balance_call(m: Map<Seq<u8>, Seq<u8>>, env: HostEnv, did: Seq<u8>)
    requires
        text_ok(did),
    ensures
        spec_handle(m, env, balance_call(did)) == (m, Ok::<Seq<u8>, ContractError>(u64_le_bytes(balance_of(m, did)))),
{
    lemma_read_string_field(seq![OP_BALANCE], did, Seq::<u8>::empty(), NO_LIMIT as int);
    assert(seq![OP_BALANCE] + spec_string_field(did) + Seq::<u8>::empty() =~= balance_call(did));
}

proof fn lemma_transfer_parses(from: Seq<u8>, to: Seq<u8>, amount: u64)
    requires
        text_ok(from),
        text_ok(to),
    ensures
        spec_read_u8(transfer_call(from, to, amount), 0) == Some((OP_TRANSFER, 1int)),
        spec_read_string(transfer_call(from, to, amount), 1, NO_LIMIT as int) == Some((from, 3 + from.len() as int)),
        spec_read_string(transfer_call(from, to, amount), 3 + from.len() as int, NO_LIMIT as int)
            == Some((to, 5 + from.len() + to.len() as int)),
        spec_read_u64(transfer_call(from, to, amount), 5 + from.len() + to.len() as int)
            == Some((amount, 13 + from.len() + to.len() as int)),
{
    let c = transfer_call(from, to, amount);
    let f1 = seq![OP_TRANSFER] + spec_string_field(from);
    let f2 = f1 + spec_string_field(to);
    assert(f1.len() == 3 + from.len());
    assert(f2.len() == 5 + from.len() + to.len());
    assert(spec_read_string(c, 1, NO_LIMIT as int) == Some((from, 3 + from.len() as int))) by {
        assert(c =~= seq![OP_TRANSFER] + spec_string_field(from) + (spec_string_field(to) + u64_le_bytes(amount)));
        lemma_read_string_field(seq![OP_TRANSFER], from, spec_string_field(to) + u64_le_bytes(amount), NO_LIMIT as int);
    }
    assert(spec_read_string(c, 3 + from.len() as int, NO_LIMIT as int) == Some((to, 5 + from.len() + to.len() as int))) by {
        assert(c =~= f1 + spec_string_field(to) + u64_le_bytes(amount));
        lemma_read_string_field(f1, to, u64_le_bytes(amount), NO_LIMIT as int);
    }
    assert(spec_read_u64(c, 5 + from.len() + to.len() as int) == Some((amount, 13 + from.len() + to.len() as int))) by {
        assert(c =~= f2 + u64_le_bytes(amount) + Seq::<u8>::empty());
        lemma_read_u64_field(f2, amount, Seq::<u8>::empty());
    }
}

proof fn lemma_transfer_parts(m: Map<Seq<u8>, Seq<u8>>, env: HostEnv, c: Seq<u8>, from: Seq<u8>, to: Seq<u8>, amount: u64, p2: int, p3: int)
    requires
        spec_read_u8(c, 0) == Some((OP_TRANSFER, 1int)),
        spec_read_string(c, 1, NO_LIMIT as int) == Some((from, p2)),
        spec_read_string(c, p2, NO_LIMIT as int) == Some((to, p3)),
        spec_read_u64(c, p3) matches Some((a, _)) && a == amount,
    ensures
        spec_handle(m, env, c) == spec_transfer(m, env, from, to, amount),
{
}

proof fn lemma_transfer_call(m: Map<Seq<u8>, Seq<u8>>, env: HostEnv, from: Seq<u8>, to: Seq<u8>, amount: u64)
    requires
        text_ok(from),
        text_ok(to),
    ensures
        spec_handle(m, env, transfer_call(from, to, amount)) == spec_transfer(m, env, from, to, amount),
{
    lemma_transfer_parses(from, to, amount);
    lemma_transfer_parts(m, env, transfer_call(from, to, amount), from, to, amount,
        3 + from.len() as int, 5 + from.len() + to.len() as int);
}

/// Through the contract's calls: when the caller is `from`, BALANCE had
/// answered `bf` for `from` and `bt` for a different `to`, and the balance
/// covers `amount` without overflowing the recipient, TRANSFER answers
/// `[1]`; BALANCE then answers `bf - amount` for `from`, `bt + amount` for
/// `to` and the old answer for every other DID. A TRANSFER by anyone but
/// `from` answers `Unauthorized` and changes nothing.
#[verifier::rlimit(50)]
pub proof fn law_transfer_call_moves_balances(
    m: Map<Seq<u8>, Seq<u8>>,
    env: HostEnv,
    from: Seq<u8>,
    to: Seq<u8>,
    amount: u64,
    bf: u64,
    bt: u64,
    other: Seq<u8>,
)
    requires
        0 < from.len(),
        text_ok(from),
        0 < to.len(),
        text_ok(to),
        text_ok(other),
        from != to,
        other != from,
        other != to,
        amount > 0,
        spec_handle(m, env, balance_call(from)).1 == Ok::<Seq<u8>, ContractError>(u64_le_bytes(bf)),
        spec_handle(m, env, balance_call(to)).1 == Ok::<Seq<u8>, ContractError>(u64_le_bytes(bt)),
        amount <= bf,
        bt + amount <= u64::MAX,
    ensures
        env.caller@ == from ==> {
            let m1 = spec_handle(m, env, transfer_call(from, to, amount)).0;
            &&& spec_handle(m, env, transfer_call(from, to, amount)).1 == Ok::<Seq<u8>, ContractError>(seq![1u8])
            &&& spec_handle(m1, env, balance_call(from)).1 == Ok::<Seq<u8>, ContractError>(u64_le_bytes((bf - amount) as u64))
            &&& spec_handle(m1, env, balance_call(to)).1 == Ok::<Seq<u8>, ContractError>(u64_le_bytes((bt + amount) as u64))
            &&& spec_handle(m1, env, balance_call(other)).1 == spec_handle(m, env, balance_call(other)).1
        },
        env.caller@ != from ==> spec_handle(m, env, transfer_call(from, to, amount))
            == (m, Err::<Seq<u8>, ContractError>(ContractError::Unauthorized)),
{
    lemma_balance_call(m, env, from);
    lemma_balance_call(m, env, to);
    lemma_balance_call(m, env, other);
    crate::codec::lemma_u64_roundtrip(bf);
    crate::codec::lemma_u64_roundtrip(bt);
    crate::codec::lemma_u64_roundtrip(balance_of(m, from));
    crate::codec::lemma_u64_roundtrip(balance_of(m, to));
    assert(balance_of(m, from) == bf);
    assert(balance_of(m, to) == bt);
    lemma_transfer_call(m, env, from, to, amount);
    if env.caller@ == from {
        assert(spec_caller(env, ContractError::Unauthorized) == Ok::<Seq<u8>, ContractError>(from));
        law_transfer_conserves(m, env, from, to, amount);
        let m1 = spec_transfer(m, env, from, to, amount).0;
        lemma_balance_call(m1, env, from);
        lemma_balance_call(m1, env, to);
        lemma_balance_call(m1, env, other);
    }
}

/// MINT of `amount` to `to`, as a call.
pub open spec fn mint_call(to: Seq<u8>, amount: u64) -> Seq<u8> {
    seq![OP_MINT] + spec_string_field(to) + u64_le_bytes(amount)
}

proof fn lemma_mint_parts(m: Map<Seq<u8>, Seq<u8>>, env: HostEnv, c: Seq<u8>, to: Seq<u8>, amount: u64, p: int)
    requires
        spec_read_u8(c, 0) == Some((OP_MINT, 1int)),
        spec_read_string(c, 1, NO_LIMIT as int) == Some((to, p)),
        spec_read_u64(c, p) matches Some((a, _)) && a == amount,
    ensures
        spec_handle(m, env, c) == spec_mint(m, to, amount),
{
}

proof fn lemma_mint_call(m: Map<Seq<u8>, Seq<u8>>, env: HostEnv, to: Seq<u8>, amount: u64)
    requires
        text_ok(to),
    ensures
        spec_handle(m, env, mint_call(to, amount)) == spec_mint(m, to, amount),
{
    let c = mint_call(to, amount);
    lemma_read_string_field(seq![OP_MINT], to, u64_le_bytes(amount), NO_LIMIT as int);
    let pre = seq![OP_MINT] + spec_string_field(to);
    assert(pre.len() == 3 + to.len());
    assert(spec_read_u64(c, 3 + to.len() as int) == Some((amount, 11 + to.len() as int))) by {
        assert(pre + u64_le_bytes(amount) + Seq::<u8>::empty() =~= c);
        lemma_read_u64_field(pre, amount, Seq::<u8>::empty());
    }
    lemma_mint_parts(m, env, c, to, amount, 3 + to.len() as int);
}

proof fn lemma_total_supply_call(m: Map<Seq<u8>, Seq<u8>>, env: HostEnv)
    ensures
        spec_handle(m, env, seq![OP_TOTAL_SUPPLY]) == (m, Ok::<Seq<u8>, ContractError>(u64_le_bytes(total_supply(m)))),
{
}

/// Through the contract's calls: when BALANCE had answered `b` for `to`
/// and TOTAL_SUPPLY had answered `t`, a MINT of `amount > 0` that
/// overflows neither answers `[1]`; BALANCE of `to` then answers
/// `b + amount` and TOTAL_SUPPLY answers `t + amount`.
#[verifier::rlimit(50)]
pub proof fn law_mint_call_credits(m: Map<Seq<u8>, Seq<u8>>, env: HostEnv, to: Seq<u8>, amount: u64, b: u64, t: u64)
    requires
        0 < to.len(),
        text_ok(to),
        amount > 0,
        spec_handle(m, env, balance_call(to)).1 == Ok::<Seq<u8>, ContractError>(u64_le_bytes(b)),
        spec_handle(m, env, seq![OP_TOTAL_SUPPLY]).1 == Ok::<Seq<u8>, ContractError>(u64_le_bytes(t)),
        b + amount <= u64::MAX,
        t + amount <= u64::MAX,
    ensures
        spec_handle(m, env, mint_call(to, amount)).1 == Ok::<Seq<u8>, ContractError>(seq![1u8]),
        spec_handle(spec_handle(m, env, mint_call(to, amount)).0, env, balance_call(to)).1
            == Ok::<Seq<u8>, ContractError>(u64_le_bytes((b + amount) as u64)),
        spec_handle(spec_handle(m, env, mint_call(to, amount)).0, env, seq![OP_TOTAL_SUPPLY]).1
            == Ok::<Seq<u8>, ContractError>(u64_le_bytes((t + amount) as u64)),
{
    lemma_balance_call(m, env, to);
    lemma_total_supply_call(m, env);
    crate::codec::lemma_u64_roundtrip(b);
    crate::codec::lemma_u64_roundtrip(t);
    crate::codec::lemma_u64_roundtrip(balance_of(m, to));
    crate::codec::lemma_u64_roundtrip(total_supply(m));
    assert(balance_of(m, to) == b);
    assert(total_supply(m) == t);
    lemma_mint_call(m, env, to, amount);
    lemma_keys_distinct(to);
    let m1 = m.insert(balance_key(to), u64_le_bytes((b + amount) as u64));
    assert(m1[total_supply_key()] == m[total_supply_key()] || !m.contains_key(total_supply_key()));
    assert(total_supply(m1) == total_supply(m));
    assert(spec_mint(m, to, amount).1 is Ok);
    law_mint_credits_and_raises_supply(m, to, amount);
    let m2 = spec_mint(m, to, amount).0;
    lemma_balance_call(m2, env, to);
    lemma_total_supply_call(m2, env);
}

} // verus!
