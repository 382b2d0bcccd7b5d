//! Payable demo: records the value attached to calls and lets callers
//! withdraw from the recorded balance.
use vstd::prelude::*;
use vstd::string::StringSliceAdditionalSpecFns;
use crate::codec::{u64_le_bytes, decimal_digits, u64_to_decimal, u64_to_le_vec, append_bytes};
use crate::error::ContractError;
use crate::host::{HostEnv, spec_caller, get_caller, spec_u64_or_zero, load_u64_or_zero, save_u64, key_with, reply_view, reply_byte, lemma_u64_saved, Event, event_log, emit};
use crate::store::KvStore;
use crate::wire::{spec_read_u8, spec_read_u64, read_u8, read_u64};

verus! {

pub const OP_DEPOSIT: u8 = 1;
pub const OP_TOTAL_RECEIVED: u8 = 2;
pub const OP_WITHDRAW: u8 = 3;
pub const OP_BALANCE: u8 = 4;

pub open spec fn total_key() -> Seq<u8> {
    "payable:total_received".spec_bytes()
}

pub open spec fn balance_key() -> Seq<u8> {
    "payable:balance".spec_bytes()
}

/// The token balance key of a DID.
pub open spec fn token_balance_key(did: Seq<u8>) -> Seq<u8> {
    "astra:erc20:balance:".spec_bytes() + did
}

/// The token balance key of this contract.
pub open spec fn contract_balance_key() -> Seq<u8> {
    token_balance_key("did:spacekit:contract:payable-demo".spec_bytes())
}

/// DEPOSIT: the attached value is added to the total received, to the
/// contract's recorded balance and to its token balance, each step
/// refusing (`InvalidInput`) a sum past `u64::MAX`; the steps done before
/// a refusal stay done.
pub open spec fn spec_deposit(m: Map<Seq<u8>, Seq<u8>>, amount: u64) -> (Map<Seq<u8>, Seq<u8>>, Result<Seq<u8>, ContractError>) {
    let total = spec_u64_or_zero(m, total_key());
    if amount == 0 || total + amount > u64::MAX {
        (m, Err(ContractError::InvalidInput))
    } else {
        let m1 = m.insert(total_key(), u64_le_bytes((total + amount) as u64));
        let bal = spec_u64_or_zero(m1, balance_key());
        if bal + amount > u64::MAX {
            (m1, Err(ContractError::InvalidInput))
        } else {
            let m2 = m1.insert(balance_key(), u64_le_bytes((bal + amount) as u64));
            let held = spec_u64_or_zero(m2, contract_balance_key());
            if held + amount > u64::MAX {
                (m2, Err(ContractError::InvalidInput))
            } else {
                (m2.insert(contract_balance_key(), u64_le_bytes((held + amount) as u64)), Ok(seq![1u8]))
            }
        }
    }
}

/// WITHDRAW: the amount leaves the recorded balance and the contract's
/// token balance and, when the host names a caller, goes to the caller's
/// token balance; steps done before a refusal stay done.
pub open spec fn spec_withdraw(m: Map<Seq<u8>, Seq<u8>>, env: HostEnv, amount: u64) -> (Map<Seq<u8>, Seq<u8>>, Result<Seq<u8>, ContractError>) {
    let bal = spec_u64_or_zero(m, balance_key());
    if amount == 0 || bal < amount {
        (m, Err(ContractError::InvalidInput))
    } else {
        let m1 = m.insert(balance_key(), u64_le_bytes((bal - amount) as u64));
        let held = spec_u64_or_zero(m1, contract_balance_key());
        if held < amount {
            (m1, Err(ContractError::InvalidInput))
        } else {
            let m2 = m1.insert(contract_balance_key(), u64_le_bytes((held - amount) as u64));
            match spec_caller(env, ContractError::Unauthorized) {
                Err(_) => (m2, Ok(seq![1u8])),
                Ok(caller) => {
                    let owned = spec_u64_or_zero(m2, token_balance_key(caller));
                    if owned + amount > u64::MAX {
                        (m2, Err(ContractError::InvalidInput))
                    } else {
                        (m2.insert(token_balance_key(caller), u64_le_bytes((owned + amount) as u64)), Ok(seq![1u8]))
                    }
                },
            }
        }
    }
}

pub open spec fn spec_handle(m: Map<Seq<u8>, Seq<u8>>, env: HostEnv, input: Seq<u8>) -> (Map<Seq<u8>, Seq<u8>>, Result<Seq<u8>, ContractError>) {
    let bad = (m, Err(ContractError::InvalidInput));
    match spec_read_u8(input, 0) {
        None => bad,
        Some((op, p)) => if op == OP_DEPOSIT {
            spec_deposit(m, env.msg_value)
        } else if op == OP_TOTAL_RECEIVED {
            (m, Ok(u64_le_bytes(spec_u64_or_zero(m, total_key()))))
        } else if op == OP_WITHDRAW {
            match spec_read_u64(input, p) {
                None => bad,
                Some((amount, _)) => spec_withdraw(m, env, amount),
            }
        } else if op == OP_BALANCE {
            (m, Ok(u64_le_bytes(spec_u64_or_zero(m, balance_key()))))
        } else {
            bad
        }
    }
}

/// The total value received so far.
pub fn get_total_received(store: &KvStore) -> (r: u64)
    requires
        store.wf(),
    ensures
        r == spec_u64_or_zero(store@, total_key()),
{
    load_u64_or_zero(store, "payable:total_received".as_bytes())
}

/// The recorded balance.
pub fn get_balance(store: &KvStore) -> (r: u64)
    requires
        store.wf(),
    ensures
        r == spec_u64_or_zero(store@, balance_key()),
{
    load_u64_or_zero(store, "payable:balance".as_bytes())
}

/// The token balance stored under `key`.
pub fn get_balance_for_key(store: &KvStore, key: &[u8]) -> (r: u64)
    requires
        store.wf(),
    ensures
        r == spec_u64_or_zero(store@, key@),
{
    load_u64_or_zero(store, key)
}

/// The token balance key of a DID.
pub fn format_balance_key(did: &[u8]) -> (r: Vec<u8>)
    ensures
        r@ == token_balance_key(did@),
{
    key_with("astra:erc20:balance:", did)
}

fn contract_key() -> (r: Vec<u8>)
    ensures
        r@ == contract_balance_key(),
{
    format_balance_key("did:spacekit:contract:payable-demo".as_bytes())
}

/// Adds `amount` to the token balance under `key`; a sum past `u64::MAX`
/// is refused and nothing is written.
fn credit_key(store: &mut KvStore, key: &[u8], amount: u64) -> (r: Result<(), ContractError>)
    requires
        old(store).wf(),
    ensures
        final(store).wf(),
        spec_u64_or_zero(old(store)@, key@) + amount > u64::MAX ==> r == Err::<(), ContractError>(ContractError::InvalidInput)
            && final(store)@ == old(store)@,
        spec_u64_or_zero(old(store)@, key@) + amount <= u64::MAX ==> r is Ok && final(store)@ == old(store)@.insert(
            key@,
            u64_le_bytes((spec_u64_or_zero(old(store)@, key@) + amount) as u64),
        ),
{
    let current = load_u64_or_zero(store, key);
    match current.checked_add(amount) {
        None => Err(ContractError::InvalidInput),
        Some(next) => {
            save_u64(store, key, next);
            Ok(())
        },
    }
}

/// Adds to the contract's token balance.
pub fn credit_contract_balance(store: &mut KvStore, amount: u64) -> (r: Result<(), ContractError>)
    requires
        old(store).wf(),
    ensures
        final(store).wf(),
        spec_u64_or_zero(old(store)@, contract_balance_key()) + amount > u64::MAX ==> r == Err::<(), ContractError>(ContractError::InvalidInput)
            && final(store)@ == old(store)@,
        spec_u64_or_zero(old(store)@, contract_balance_key()) + amount <= u64::MAX ==> r is Ok && final(store)@ == old(store)@.insert(
            contract_balance_key(),
            u64_le_bytes((spec_u64_or_zero(old(store)@, contract_balance_key()) + amount) as u64),
        ),
{
    let key = contract_key();
    credit_key(store, key.as_slice(), amount)
}

/// Takes from the contract's token balance; more than it holds is refused.
pub fn debit_contract_balance(store: &mut KvStore, amount: u64) -> (r: Result<(), ContractError>)
    requires
        old(store).wf(),
    ensures
        final(store).wf(),
        spec_u64_or_zero(old(store)@, contract_balance_key()) < amount ==> r == Err::<(), ContractError>(ContractError::InvalidInput)
            && final(store)@ == old(store)@,
        spec_u64_or_zero(old(store)@, contract_balance_key()) >= amount ==> r is Ok && final(store)@ == old(store)@.insert(
            contract_balance_key(),
            u64_le_bytes((spec_u64_or_zero(old(store)@, contract_balance_key()) - amount) as u64),
        ),
{
    let key = contract_key();
    let current = load_u64_or_zero(store, key.as_slice());
    if current < amount {
        return Err(ContractError::InvalidInput);
    }
    save_u64(store, key.as_slice(), current - amount);
    Ok(())
}

/// Adds to a caller's token balance.
pub fn credit_caller_balance(store: &mut KvStore, caller: &[u8], amount: u64) -> (r: Result<(), ContractError>)
    requires
        old(store).wf(),
    ensures
        final(store).wf(),
        spec_u64_or_zero(old(store)@, token_balance_key(caller@)) + amount > u64::MAX ==> r == Err::<(), ContractError>(ContractError::InvalidInput)
            && final(store)@ == old(store)@,
        spec_u64_or_zero(old(store)@, token_balance_key(caller@)) + amount <= u64::MAX ==> r is Ok && final(store)@ == old(store)@.insert(
            token_balance_key(caller@),
            u64_le_bytes((spec_u64_or_zero(old(store)@, token_balance_key(caller@)) + amount) as u64),
        ),
{
    let key = format_balance_key(caller);
    credit_key(store, key.as_slice(), amount)
}

/// The deposit event text: `<caller>|<amount>`.
pub fn format_deposit_event(caller: &[u8], amount: u64) -> (r: Vec<u8>)
    ensures
        r@ == caller@ + seq![124u8] + decimal_digits(amount as nat),
{
    let mut out: Vec<u8> = Vec::new();
    append_bytes(&mut out, caller);
    out.push(124u8);
    let digits = u64_to_decimal(amount);
    append_bytes(&mut out, digits.as_slice());
    proof {
        assert(Seq::<u8>::empty() + caller@ == caller@);
    }
    out
}

/// The withdrawal event text: `withdraw|<caller>|<amount>`.
pub fn format_withdraw_event(caller: &[u8], amount: u64) -> (r: Vec<u8>)
    ensures
        r@ == "withdraw|".spec_bytes() + caller@ + seq![124u8] + decimal_digits(amount as nat),
{
    let mut out = key_with("withdraw|", caller);
    out.push(124u8);
    let digits = u64_to_decimal(amount);
    append_bytes(&mut out, digits.as_slice());
    out
}

/// The event of a call: a deposit or a withdrawal that went through, by a
/// caller the host names, is announced with its event text.
pub open spec fn spec_events(m: Map<Seq<u8>, Seq<u8>>, env: HostEnv, input: Seq<u8>) -> Seq<(Seq<u8>, Seq<u8>)> {
    match spec_read_u8(input, 0) {
        None => seq![],
        Some((op, p)) => if !(spec_handle(m, env, input).1 is Ok) {
            seq![]
        } else if op == OP_DEPOSIT {
            match spec_caller(env, ContractError::Unauthorized) {
                Ok(c) => seq![("payable.deposit".spec_bytes(), c + seq![124u8] + decimal_digits(env.msg_value as nat))],
                Err(_) => seq![],
            }
        } else if op == OP_WITHDRAW {
            match (spec_read_u64(input, p), spec_caller(env, ContractError::Unauthorized)) {
                (Some((amount, _)), Ok(c)) => seq![(
                    "payable.withdraw".spec_bytes(),
                    "withdraw|".spec_bytes() + c + seq![124u8] + decimal_digits(amount as nat),
                )],
                _ => seq![],
            }
        } else {
            seq![]
        },
    }
}

/// Handles one call of the contract, appending its event to `events`.
pub fn handle(store: &mut KvStore, env: &HostEnv, input: &[u8], events: &mut Vec<Event>) -> (r: Result<Vec<u8>, ContractError>)
    requires
        old(store).wf(),
    ensures
        final(store).wf(),
        (final(store)@, reply_view(r)) == spec_handle(old(store)@, *env, input@),
        event_log(final(events)@) == event_log(old(events)@) + spec_events(old(store)@, *env, input@),
{
    let mut cursor: usize = 0;
    let op = read_u8(input, &mut cursor)?;
    if op == OP_DEPOSIT {
        let amount = env.msg_value;
        if amount == 0 {
            return Err(ContractError::InvalidInput);
        }
        let current = get_total_received(store);
        let next = match current.checked_add(amount) {
            None => {
                return Err(ContractError::InvalidInput);
            },
            Some(n) => n,
        };
        save_u64(store, "payable:total_received".as_bytes(), next);
        credit_key(store, "payable:balance".as_bytes(), amount)?;
        credit_contract_balance(store, amount)?;
        match get_caller(env, ContractError::Unauthorized) {
            Ok(caller) => {
                let event = format_deposit_event(caller.as_slice(), amount);
                emit(events, "payable.deposit", event.as_slice());
            },
            Err(_) => {},
        }
        Ok(reply_byte(1))
    } else if op == OP_TOTAL_RECEIVED {
        Ok(u64_to_le_vec(get_total_received(store)))
    } else if op == OP_WITHDRAW {
        let amount = read_u64(input, &mut cursor)?;
        if amount == 0 {
            return Err(ContractError::InvalidInput);
        }
        let current = get_balance(store);
        if current < amount {
            return Err(ContractError::InvalidInput);
        }
        save_u64(store, "payable:balance".as_bytes(), current - amount);
        debit_contract_balance(store, amount)?;
        match get_caller(env, ContractError::Unauthorized) {
            Ok(caller) => {
                credit_caller_balance(store, caller.as_slice(), amount)?;
                let event = format_withdraw_event(caller.as_slice(), amount);
                emit(events, "payable.withdraw", event.as_slice());
            },
            Err(_) => {},
        }
        Ok(reply_byte(1))
    } else if op == OP_BALANCE {
        Ok(u64_to_le_vec(get_balance(store)))
    } else {
        Err(ContractError::InvalidInput)
    }
}

/// A deposit adds the attached value to the total received.
pub proof fn law_deposit_adds_to_total(m: Map<Seq<u8>, Seq<u8>>, amount: u64)
    requires
        spec_deposit(m, amount).1 is Ok,
    ensures
        spec_u64_or_zero(spec_deposit(m, amount).0, total_key()) == spec_u64_or_zero(m, total_key()) + amount,
{
    lemma_keys_distinct();
    let total = spec_u64_or_zero(m, total_key());
    let m1 = m.insert(total_key(), u64_le_bytes((total + amount) as u64));
    lemma_u64_saved(m, total_key(), (total + amount) as u64);
    let bal = spec_u64_or_zero(m1, balance_key());
    let m2 = m1.insert(balance_key(), u64_le_bytes((bal + amount) as u64));
    assert(m2[total_key()] == m1[total_key()]);
    let held = spec_u64_or_zero(m2, contract_balance_key());
    let m3 = m2.insert(contract_balance_key(), u64_le_bytes((held + amount) as u64));
    assert(m3[total_key()] == m1[total_key()]);
}

proof fn lemma_keys_distinct()
    ensures
        total_key() != balance_key(),
        total_key() != contract_balance_key(),
{
    reveal_strlit("payable:total_received");
    reveal_strlit("payable:balance");
    reveal_strlit("astra:erc20:balance:");
    vstd::string::is_ascii_spec_bytes("payable:total_received");
    vstd::string::is_ascii_spec_bytes("payable:balance");
    vstd::string::is_ascii_spec_bytes("astra:erc20:balance:");
    assert(total_key()[8] != balance_key()[8]);
    assert(total_key()[0] != contract_balance_key()[0]);
}

proof fn lemma_balance_keys_distinct()
    ensures
        balance_key() != contract_balance_key(),
{
    reveal_strlit("payable:balance");
    reveal_strlit("astra:erc20:balance:");
    vstd::string::is_ascii_spec_bytes("payable:balance");
    vstd::string::is_ascii_spec_bytes("astra:erc20:balance:");
    assert(balance_key()[0] != contract_balance_key()[0]);
}

proof fn lemma_read_calls(m: Map<Seq<u8>, Seq<u8>>, env: HostEnv)
    ensures
        spec_handle(m, env, seq![OP_TOTAL_RECEIVED]) == (m, Ok::<Seq<u8>, ContractError>(u64_le_bytes(spec_u64_or_zero(m, total_key())))),
        spec_handle(m, env, seq![OP_BALANCE]) == (m, Ok::<Seq<u8>, ContractError>(u64_le_bytes(spec_u64_or_zero(m, balance_key())))),
        spec_handle(m, env, seq![OP_DEPOSIT]) == spec_deposit(m, env.msg_value),
{
}

/// Through the contract's calls: when TOTAL_RECEIVED had answered `t` and
/// BALANCE `b`, a DEPOSIT carrying a value `v > 0` that overflows none of
/// the sums answers `[1]`, after which TOTAL_RECEIVED answers `t + v` and
/// BALANCE answers `b + v`.
pub proof fn law_deposit_call_adds_value(m: Map<Seq<u8>, Seq<u8>>, env: HostEnv, t: u64, b: u64)
    requires
        spec_handle(m, env, seq![OP_TOTAL_RECEIVED]).1 == Ok::<Seq<u8>, ContractError>(u64_le_bytes(t)),
        spec_handle(m, env, seq![OP_BALANCE]).1 == Ok::<Seq<u8>, ContractError>(u64_le_bytes(b)),
        env.msg_value > 0,
        t + env.msg_value <= u64::MAX,
        b + env.msg_value <= u64::MAX,
        spec_u64_or_zero(m, contract_balance_key()) + env.msg_value <= u64::MAX,
    ensures
        spec_handle(m, env, seq![OP_DEPOSIT]).1 == Ok::<Seq<u8>, ContractError>(seq![1u8]),
        spec_handle(spec_handle(m, env, seq![OP_DEPOSIT]).0, env, seq![OP_TOTAL_RECEIVED]).1
            == Ok::<Seq<u8>, ContractError>(u64_le_bytes((t + env.msg_value) as u64)),
        spec_handle(spec_handle(m, env, seq![OP_DEPOSIT]).0, env, seq![OP_BALANCE]).1
            == Ok::<Seq<u8>, ContractError>(u64_le_bytes((b + env.msg_value) as u64)),
{
    let v = env.msg_value;
    lemma_read_calls(m, env);
    crate::codec::lemma_u64_roundtrip(t);
    crate::codec::lemma_u64_roundtrip(b);
    crate::codec::lemma_u64_roundtrip(spec_u64_or_zero(m, total_key()));
    crate::codec::lemma_u64_roundtrip(spec_u64_or_zero(m, balance_key()));
    assert(spec_u64_or_zero(m, total_key()) == t);
    assert(spec_u64_or_zero(m, balance_key()) == b);
    lemma_keys_distinct();
    lemma_balance_keys_distinct();
    let m1 = m.insert(total_key(), u64_le_bytes((t + v) as u64));
    lemma_u64_saved(m, total_key(), (t + v) as u64);
    assert(spec_u64_or_zero(m1, balance_key()) == b);
    let m2 = m1.insert(balance_key(), u64_le_bytes((b + v) as u64));
    lemma_u64_saved(m1, balance_key(), (b + v) as u64);
    assert(spec_u64_or_zero(m2, contract_balance_key()) == spec_u64_or_zero(m, contract_balance_key()));
    let held = spec_u64_or_zero(m2, contract_balance_key());
    let m3 = m2.insert(contract_balance_key(), u64_le_bytes((held + v) as u64));
    assert(m3[total_key()] == m1[total_key()]);
    assert(m3[balance_key()] == m2[balance_key()]);
    assert(spec_u64_or_zero(m3, total_key()) == spec_u64_or_zero(m1, total_key()));
    assert(spec_u64_or_zero(m3, balance_key()) == spec_u64_or_zero(m2, balance_key()));
    lemma_read_calls(m3, env);
}

} // verus!
