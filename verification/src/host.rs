use vstd::prelude::*;
use crate::codec::{le_u64, u64_le_bytes, decode_u64_at, u64_to_le_vec, append_bytes, lemma_u64_roundtrip};
use crate::error::ContractError;
use crate::store::{KvStore, prefix_up_to};
use vstd::string::StringSliceAdditionalSpecFns;
use vstd::utf8::valid_utf8;
use crate::utf8::utf8_is_valid;

verus! {

/// What a contract reads back from storage under `key` with a buffer of
/// `max_len` bytes: a missing key, or one that yields no bytes, is a
/// storage error.
pub open spec fn spec_load(m: Map<Seq<u8>, Seq<u8>>, key: Seq<u8>, max_len: int) -> Result<Seq<u8>, ContractError> {
    if !m.contains_key(key) {
        Err(ContractError::StorageError)
    } else if prefix_up_to(m[key], max_len).len() == 0 {
        Err(ContractError::StorageError)
    } else {
        Ok(prefix_up_to(m[key], max_len))
    }
}

/// Stored UTF-8 text under `key` (read with a buffer of `max_len` bytes).
pub open spec fn spec_text(m: Map<Seq<u8>, Seq<u8>>, key: Seq<u8>, max_len: int) -> Result<Seq<u8>, ContractError> {
    match spec_load(m, key, max_len) {
        Err(e) => Err(e),
        Ok(d) => if valid_utf8(d) { Ok(d) } else { Err(ContractError::InvalidInput) },
    }
}

/// A stored `u64`: eight little-endian bytes, and 0 for anything else.
pub open spec fn spec_u64_or_zero(m: Map<Seq<u8>, Seq<u8>>, key: Seq<u8>) -> u64 {
    match spec_load(m, key, 8) {
        Ok(d) => if d.len() == 8 { le_u64(d) } else { 0 },
        Err(_) => 0,
    }
}

/// The view of a handler's reply.
pub open spec fn reply_view(r: Result<Vec<u8>, ContractError>) -> Result<Seq<u8>, ContractError> {
    match r {
        Ok(v) => Ok(v@),
        Err(e) => Err(e),
    }
}

/// Loads the bytes under `key`, at most `max_len` of them.
pub fn load_bytes(store: &KvStore, key: &[u8], max_len: usize) -> (r: Result<Vec<u8>, ContractError>)
    requires
        store.wf(),
    ensures
        reply_view(r) == spec_load(store@, key@, max_len as int),
{
    match store.load(key, max_len) {
        None => Err(ContractError::StorageError),
        Some(v) => {
            if v.len() == 0 {
                Err(ContractError::StorageError)
            } else {
                Ok(v)
            }
        },
    }
}

/// Reads stored UTF-8 text.
pub fn load_text(store: &KvStore, key: &[u8], max_len: usize) -> (r: Result<Vec<u8>, ContractError>)
    requires
        store.wf(),
    ensures
        reply_view(r) == spec_text(store@, key@, max_len as int),
{
    let data = load_bytes(store, key, max_len)?;
    if utf8_is_valid(data.as_slice()) {
        Ok(data)
    } else {
        Err(ContractError::InvalidInput)
    }
}

/// Loads a `u64` stored as eight little-endian bytes, or 0.
pub fn load_u64_or_zero(store: &KvStore, key: &[u8]) -> (r: u64)
    requires
        store.wf(),
    ensures
        r == spec_u64_or_zero(store@, key@),
{
    match load_bytes(store, key, 8) {
        Ok(d) => {
            if d.len() == 8 {
                proof {
                    assert(d@.subrange(0, 8) == d@);
                }
                decode_u64_at(d.as_slice(), 0)
            } else {
                0
            }
        },
        Err(_) => 0,
    }
}

/// Stores `value` as eight little-endian bytes under `key`.
pub fn save_u64(store: &mut KvStore, key: &[u8], value: u64)
    requires
        old(store).wf(),
    ensures
        final(store).wf(),
        final(store)@ == old(store)@.insert(key@, u64_le_bytes(value)),
{
    let bytes = u64_to_le_vec(value);
    store.save(key, bytes.as_slice());
}

/// A `u64` saved under `key` reads back as itself.
pub proof fn lemma_u64_saved(m: Map<Seq<u8>, Seq<u8>>, key: Seq<u8>, v: u64)
    ensures
        spec_u64_or_zero(m.insert(key, u64_le_bytes(v)), key) == v,
{
    lemma_u64_roundtrip(v);
}

/// The bytes of a string literal followed by `part`.
pub fn key_with(prefix: &str, part: &[u8]) -> (r: Vec<u8>)
    ensures
        r@ == prefix.spec_bytes() + part@,
{
    let mut k: Vec<u8> = Vec::new();
    append_bytes(&mut k, prefix.as_bytes());
    append_bytes(&mut k, part);
    proof {
        assert(Seq::<u8>::empty() + prefix.spec_bytes() == prefix.spec_bytes());
    }
    k
}

/// A one-byte reply.
pub fn reply_byte(b: u8) -> (r: Vec<u8>)
    ensures
        r@ == seq![b],
{
    let mut v: Vec<u8> = Vec::new();
    v.push(b);
    v
}

/// An event a call emits for indexers: its name and its payload.
pub struct Event {
    pub name: Vec<u8>,
    pub data: Vec<u8>,
}

impl View for Event {
    type V = (Seq<u8>, Seq<u8>);

    open spec fn view(&self) -> (Seq<u8>, Seq<u8>) {
        (self.name@, self.data@)
    }
}

/// The names and payloads of a list of events, in order.
pub open spec fn event_log(events: Seq<Event>) -> Seq<(Seq<u8>, Seq<u8>)> {
    events.map_values(|e: Event| e@)
}

/// The event `name` with payload `data`.
pub fn make_event(name: &str, data: &[u8]) -> (e: Event)
    ensures
        e@ == (name.spec_bytes(), data@),
{
    let e = Event { name: key_with(name, &[]), data: crate::wire::copy_range(data, 0, data.len()) };
    proof {
        assert(name.spec_bytes() + Seq::<u8>::empty() == name.spec_bytes());
        assert(data@.subrange(0, data@.len() as int) == data@);
    }
    e
}

/// Appends `e` to `events`.
pub fn push_event(events: &mut Vec<Event>, e: Event)
    ensures
        event_log(final(events)@) == event_log(old(events)@).push(e@),
{
    events.push(e);
    proof {
        assert(event_log(events@) =~= event_log(old(events)@).push(e@));
    }
}

/// Appends the event `name` with payload `data`.
pub fn emit(events: &mut Vec<Event>, name: &str, data: &[u8])
    ensures
        event_log(final(events)@) == event_log(old(events)@).push((name.spec_bytes(), data@)),
{
    push_event(events, make_event(name, data));
}

} // verus!

verus! {

/// Two keys with the same prefix are equal only when their tails are.
pub proof fn lemma_prefix_injective(p: Seq<u8>, a: Seq<u8>, b: Seq<u8>)
    ensures
        (p + a == p + b) <==> (a == b),
{
    if p + a == p + b {
        assert((p + a).subrange(p.len() as int, (p + a).len() as int) == a);
        assert((p + b).subrange(p.len() as int, (p + b).len() as int) == b);
    }
}

} // verus!

verus! {

/// What the host tells a contract about the current call: the caller's DID
/// (empty when the host reports none), the value attached to the call, and
/// the block timestamp.
pub struct HostEnv {
    pub caller: Vec<u8>,
    pub msg_value: u64,
    pub timestamp: u64,
}

/// The caller as a contract reads it: `missing` when the host reports no
/// caller, `InvalidInput` when the DID is not UTF-8.
pub open spec fn spec_caller(env: HostEnv, missing: ContractError) -> Result<Seq<u8>, ContractError> {
    if env.caller@.len() == 0 {
        Err(missing)
    } else if !valid_utf8(env.caller@) {
        Err(ContractError::InvalidInput)
    } else {
        Ok(env.caller@)
    }
}

/// Largest DID the host can hand a contract.
pub const MAX_DID_LEN: usize = 128;

/// Reads the caller's DID.
pub fn get_caller(env: &HostEnv, missing: ContractError) -> (r: Result<Vec<u8>, ContractError>)
    ensures
        reply_view(r) == spec_caller(*env, missing),
{
    if env.caller.len() == 0 {
        return Err(missing);
    }
    let c = crate::wire::copy_range(env.caller.as_slice(), 0, env.caller.len());
    assert(env.caller@.subrange(0, env.caller@.len() as int) =~= env.caller@);
    if !utf8_is_valid(c.as_slice()) {
        return Err(ContractError::InvalidInput);
    }
    Ok(c)
}

} // verus!
