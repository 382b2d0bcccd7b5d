//! The license NFT contract of one app: owning a token is holding a
//! license to use the app.
use vstd::prelude::*;
use vstd::string::StringSliceAdditionalSpecFns;
use crate::codec::{u64_le_bytes, push_u64_le, u64_to_le_vec};
use crate::host::{spec_u64_or_zero, load_u64_or_zero, save_u64, key_with, lemma_u64_saved, spec_load, load_bytes, Event, event_log, emit};
use crate::store::{KvStore, prefix_up_to, bytes_equal};
use super::listing::{storage_key, format_storage_key, LicenseType};

verus! {

pub open spec fn app_id_key() -> Seq<u8> {
    "app_id".spec_bytes()
}

pub open spec fn license_type_key() -> Seq<u8> {
    "license_type".spec_bytes()
}

/// The contract allowed to mint: the app store that set this one up.
pub open spec fn appstore_key() -> Seq<u8> {
    "appstore".spec_bytes()
}

/// Whether `caller` is the app store recorded at initialization.
pub open spec fn is_appstore(m: Map<Seq<u8>, Seq<u8>>, caller: Seq<u8>) -> bool {
    spec_load(m, appstore_key(), 256) == Ok::<Seq<u8>, crate::error::ContractError>(caller)
}

pub open spec fn next_token_id_key() -> Seq<u8> {
    "next_token_id".spec_bytes()
}

pub open spec fn owner_key(token_id: u64) -> Seq<u8> {
    storage_key("owner:".spec_bytes(), token_id)
}

pub open spec fn metadata_key(token_id: u64) -> Seq<u8> {
    storage_key("metadata:".spec_bytes(), token_id)
}

/// The entry of a token in its owner's token list.
pub open spec fn owner_tokens_key(owner: Seq<u8>, token_id: u64) -> Seq<u8> {
    "owner_tokens:".spec_bytes() + owner + seq![58u8] + u64_le_bytes(token_id)
}

/// The license type recorded at initialization: the first stored byte,
/// and 0 (personal) when nothing is stored.
pub open spec fn stored_license_type(m: Map<Seq<u8>, Seq<u8>>) -> u8 {
    if m.contains_key(license_type_key()) && m[license_type_key()].len() > 0 {
        m[license_type_key()][0]
    } else {
        0
    }
}

/// The number of licenses minted so far.
pub open spec fn spec_total_supply(m: Map<Seq<u8>, Seq<u8>>) -> u64 {
    spec_u64_or_zero(m, next_token_id_key())
}

/// The owner of a token as read with a buffer of `max_len` bytes, or
/// `None` when the token does not exist.
pub open spec fn spec_owner_of(m: Map<Seq<u8>, Seq<u8>>, token_id: u64, max_len: int) -> Option<Seq<u8>> {
    if m.contains_key(owner_key(token_id)) {
        Some(prefix_up_to(m[owner_key(token_id)], max_len))
    } else {
        None
    }
}

/// `prefix` followed by the little-endian bytes of `token_id`.
pub fn format_token_key(prefix: &[u8], token_id: u64) -> (r: Vec<u8>)
    ensures
        r@ == storage_key(prefix@, token_id),
{
    format_storage_key(prefix, token_id)
}

/// The key of a token's entry in its owner's token list.
pub fn format_owner_tokens_key(owner_did: &[u8], token_id: u64) -> (r: Vec<u8>)
    ensures
        r@ == owner_tokens_key(owner_did@, token_id),
{
    let mut key = key_with("owner_tokens:", owner_did);
    key.push(58u8);
    push_u64_le(&mut key, token_id);
    proof {
        assert(key@ =~= owner_tokens_key(owner_did@, token_id));
    }
    key
}

/// Sets up the contract of an app for the app store that deploys it (the
/// caller): its id, its license type, a token counter at 0, and the app
/// store as the one contract allowed to mint. The reply is 1.
pub fn initialize(store: &mut KvStore, caller: &[u8], app_id: u64, license_type: u8) -> (r: i32)
    requires
        old(store).wf(),
    ensures
        final(store).wf(),
        final(store)@ == old(store)@.insert(appstore_key(), caller@).insert(app_id_key(), u64_le_bytes(app_id)).insert(
            license_type_key(),
            seq![license_type],
        ).insert(next_token_id_key(), u64_le_bytes(0)),
        r == 1,
{
    store.save("appstore".as_bytes(), caller);
    save_u64(store, "app_id".as_bytes(), app_id);
    let mut lt: Vec<u8> = Vec::new();
    lt.push(license_type);
    store.save("license_type".as_bytes(), lt.as_slice());
    save_u64(store, "next_token_id".as_bytes(), 0);
    1
}

/// The store after minting token `id` for `owner` at `price` and time
/// `timestamp`.
pub open spec fn minted(m: Map<Seq<u8>, Seq<u8>>, owner: Seq<u8>, price: u64, timestamp: u64, id: u64) -> Map<Seq<u8>, Seq<u8>> {
    m.insert(owner_key(id), owner)
        .insert(metadata_key(id), u64_le_bytes(price) + u64_le_bytes(timestamp))
        .insert(owner_tokens_key(owner, id), u64_le_bytes(id))
        .insert(next_token_id_key(), u64_le_bytes(id))
}

/// Mints the next license token to `owner_did` when the caller is the app
/// store, recording the purchase price and the block time; the reply is
/// the new token's id, one more than the number minted before, and a
/// Transfer event names it. Any other caller mints nothing (reply 0).
pub fn mint(
    store: &mut KvStore,
    caller: &[u8],
    owner_did: &[u8],
    purchase_price: u64,
    timestamp: u64,
    events: &mut Vec<Event>,
) -> (r: u64)
    requires
        old(store).wf(),
        is_appstore(old(store)@, caller@) ==> spec_total_supply(old(store)@) < u64::MAX,
    ensures
        final(store).wf(),
        !is_appstore(old(store)@, caller@) ==> r == 0 && final(store)@ == old(store)@ && final(events)@ == old(events)@,
        is_appstore(old(store)@, caller@) ==> {
            &&& r == spec_total_supply(old(store)@) + 1
            &&& final(store)@ == minted(old(store)@, owner_did@, purchase_price, timestamp, r)
            &&& event_log(final(events)@) == event_log(old(events)@).push(("Transfer".spec_bytes(), u64_le_bytes(r)))
        },
{
    match load_bytes(store, "appstore".as_bytes(), 256) {
        Ok(a) => {
            if !bytes_equal(a.as_slice(), caller) {
                return 0;
            }
        },
        Err(_) => {
            return 0;
        },
    }
    let token_id = load_u64_or_zero(store, "next_token_id".as_bytes());
    let new_token_id = token_id + 1;
    let owner_key = format_token_key("owner:".as_bytes(), new_token_id);
    store.save(owner_key.as_slice(), owner_did);
    let metadata_key = format_token_key("metadata:".as_bytes(), new_token_id);
    let mut metadata = u64_to_le_vec(purchase_price);
    push_u64_le(&mut metadata, timestamp);
    store.save(metadata_key.as_slice(), metadata.as_slice());
    let owner_tokens_key = format_owner_tokens_key(owner_did, new_token_id);
    let id_bytes = u64_to_le_vec(new_token_id);
    store.save(owner_tokens_key.as_slice(), id_bytes.as_slice());
    save_u64(store, "next_token_id".as_bytes(), new_token_id);
    emit(events, "Transfer", id_bytes.as_slice());
    new_token_id
}

/// Reads the recorded license type.
fn load_license_type(store: &KvStore) -> (r: u8)
    requires
        store.wf(),
    ensures
        r == stored_license_type(store@),
{
    match store.load("license_type".as_bytes(), 1) {
        Some(v) => {
            if v.len() > 0 {
                v[0]
            } else {
                0
            }
        },
        None => 0,
    }
}

/// Transfer: the token must exist (-1), the caller must be its owner as
/// read with a 256-byte buffer (-2), and the license must not be personal
/// (-3); then the token goes to `to_did` and the reply is 1.
pub open spec fn spec_transfer(m: Map<Seq<u8>, Seq<u8>>, caller: Seq<u8>, token_id: u64, to: Seq<u8>) -> (Map<Seq<u8>, Seq<u8>>, i32) {
    match spec_owner_of(m, token_id, 256) {
        None => (m, -1i32),
        Some(owner) => if owner != caller {
            (m, -2i32)
        } else if stored_license_type(m) == LicenseType::Personal.spec_code() {
            (m, -3i32)
        } else {
            (m.insert(owner_key(token_id), to).insert(owner_tokens_key(to, token_id), u64_le_bytes(token_id)), 1i32)
        },
    }
}

/// Transfers a license token from the caller to `to_did`; a transfer that
/// goes through emits a Transfer event naming the token.
pub fn transfer(store: &mut KvStore, caller: &[u8], token_id: u64, to_did: &[u8], events: &mut Vec<Event>) -> (r: i32)
    requires
        old(store).wf(),
    ensures
        final(store).wf(),
        (final(store)@, r) == spec_transfer(old(store)@, caller@, token_id, to_did@),
        r == 1 ==> event_log(final(events)@) == event_log(old(events)@).push(("Transfer".spec_bytes(), u64_le_bytes(token_id))),
        r != 1 ==> final(events)@ == old(events)@,
{
    let owner_key = format_token_key("owner:".as_bytes(), token_id);
    let current_owner = match store.load(owner_key.as_slice(), 256) {
        None => {
            return -1;
        },
        Some(v) => v,
    };
    if !bytes_equal(current_owner.as_slice(), caller) {
        return -2;
    }
    let license_type = load_license_type(store);
    if license_type == LicenseType::Personal.code() {
        return -3;
    }
    store.save(owner_key.as_slice(), to_did);
    let new_owner_tokens_key = format_owner_tokens_key(to_did, token_id);
    let id_bytes = u64_to_le_vec(token_id);
    store.save(new_owner_tokens_key.as_slice(), id_bytes.as_slice());
    emit(events, "Transfer", id_bytes.as_slice());
    1
}

/// The owner of a token, at most `max_len` bytes of it, or `None` when the
/// token does not exist.
pub fn owner_of(store: &KvStore, token_id: u64, max_len: usize) -> (r: Option<Vec<u8>>)
    requires
        store.wf(),
    ensures
        match r {
            Some(v) => spec_owner_of(store@, token_id, max_len as int) == Some(v@),
            None => spec_owner_of(store@, token_id, max_len as int) is None,
        },
{
    let owner_key = format_token_key("owner:".as_bytes(), token_id);
    store.load(owner_key.as_slice(), max_len)
}

/// Whether a DID holds any license: no license is ever found (0).
pub fn has_license(did: &[u8]) -> (r: i32)
    ensures
        r == 0,
{
    0
}

/// The metadata of a token (purchase price and mint time, little-endian),
/// at most `max_len` bytes of it, or `None` when there is none.
pub fn get_metadata(store: &KvStore, token_id: u64, max_len: usize) -> (r: Option<Vec<u8>>)
    requires
        store.wf(),
    ensures
        store@.contains_key(metadata_key(token_id)) ==> (r matches Some(v) && v@ == prefix_up_to(
            store@[metadata_key(token_id)],
            max_len as int,
        )),
        !store@.contains_key(metadata_key(token_id)) ==> r is None,
{
    let metadata_key = format_token_key("metadata:".as_bytes(), token_id);
    store.load(metadata_key.as_slice(), max_len)
}

/// The tokens of an owner: the list is always empty (the reply is 0).
pub fn tokens_of(owner_did: &[u8]) -> (r: i32)
    ensures
        r == 0,
{
    0
}

/// Burning revokes a license: the token must exist (-1) and the caller
/// must own it (-2), and nothing changes then; otherwise the token's owner
/// record and metadata are deleted, a Burn event names the token, and the
/// reply is 1.
pub open spec fn spec_burn(m: Map<Seq<u8>, Seq<u8>>, caller: Seq<u8>, token_id: u64) -> (Map<Seq<u8>, Seq<u8>>, i32) {
    match spec_owner_of(m, token_id, 256) {
        None => (m, -1i32),
        Some(owner) => if owner != caller {
            (m, -2i32)
        } else {
            (m.remove(owner_key(token_id)).remove(metadata_key(token_id)), 1i32)
        },
    }
}

/// Burns a license token of the caller.
pub fn burn(store: &mut KvStore, caller: &[u8], token_id: u64, events: &mut Vec<Event>) -> (r: i32)
    requires
        old(store).wf(),
    ensures
        final(store).wf(),
        (final(store)@, r) == spec_burn(old(store)@, caller@, token_id),
        r == 1 ==> event_log(final(events)@) == event_log(old(events)@).push(("Burn".spec_bytes(), u64_le_bytes(token_id))),
        r != 1 ==> final(events)@ == old(events)@,
{
    let owner_key = format_token_key("owner:".as_bytes(), token_id);
    match store.load(owner_key.as_slice(), 256) {
        None => -1,
        Some(owner) => {
            if !bytes_equal(owner.as_slice(), caller) {
                -2
            } else {
                store.remove(owner_key.as_slice());
                let metadata_key = format_token_key("metadata:".as_bytes(), token_id);
                store.remove(metadata_key.as_slice());
                let id_bytes = u64_to_le_vec(token_id);
                emit(events, "Burn", id_bytes.as_slice());
                1
            }
        },
    }
}

/// The number of licenses minted so far.
pub fn total_supply(store: &KvStore) -> (r: u64)
    requires
        store.wf(),
    ensures
        r == spec_total_supply(store@),
{
    load_u64_or_zero(store, "next_token_id".as_bytes())
}

proof fn lemma_key_lengths(owner: Seq<u8>, token_id: u64)
    ensures
        owner_key(token_id).len() == 14,
        metadata_key(token_id).len() == 17,
        owner_tokens_key(owner, token_id).len() == 22 + owner.len(),
        next_token_id_key().len() == 13,
{
    reveal_strlit("owner:");
    reveal_strlit("metadata:");
    reveal_strlit("owner_tokens:");
    reveal_strlit("next_token_id");
    vstd::string::is_ascii_spec_bytes("owner:");
    vstd::string::is_ascii_spec_bytes("metadata:");
    vstd::string::is_ascii_spec_bytes("owner_tokens:");
    vstd::string::is_ascii_spec_bytes("next_token_id");
}

/// A minted token is owned by the DID it was minted to, and the supply
/// grows by one.
pub proof fn law_mint_then_owner_of(m: Map<Seq<u8>, Seq<u8>>, owner: Seq<u8>, price: u64, timestamp: u64, max_len: nat)
    requires
        spec_total_supply(m) < u64::MAX,
    ensures
        spec_owner_of(minted(m, owner, price, timestamp, (spec_total_supply(m) + 1) as u64), (spec_total_supply(m) + 1) as u64, max_len as int)
            == Some(prefix_up_to(owner, max_len as int)),
        spec_total_supply(minted(m, owner, price, timestamp, (spec_total_supply(m) + 1) as u64)) == spec_total_supply(m) + 1,
{
    let id = (spec_total_supply(m) + 1) as u64;
    lemma_key_lengths(owner, id);
    let before = m.insert(owner_key(id), owner)
        .insert(metadata_key(id), u64_le_bytes(price) + u64_le_bytes(timestamp))
        .insert(owner_tokens_key(owner, id), u64_le_bytes(id));
    lemma_u64_saved(before, next_token_id_key(), id);
}

/// After a successful transfer the token is owned by the recipient.
pub proof fn law_transfer_moves_license(m: Map<Seq<u8>, Seq<u8>>, caller: Seq<u8>, token_id: u64, to: Seq<u8>, max_len: nat)
    requires
        spec_transfer(m, caller, token_id, to).1 == 1,
    ensures
        spec_owner_of(spec_transfer(m, caller, token_id, to).0, token_id, max_len as int) == Some(prefix_up_to(to, max_len as int)),
{
    lemma_key_lengths(to, token_id);
}

/// After a burn goes through the token has no owner: the license is
/// revoked.
pub proof fn law_burn_revokes(m: Map<Seq<u8>, Seq<u8>>, caller: Seq<u8>, token_id: u64, max_len: nat)
    requires
        spec_burn(m, caller, token_id).1 == 1,
    ensures
        spec_owner_of(spec_burn(m, caller, token_id).0, token_id, max_len as int) is None,
        !spec_burn(m, caller, token_id).0.contains_key(metadata_key(token_id)),
{
}

/// A personal license never changes hands: every transfer leaves the
/// store as it was.
pub proof fn law_personal_license_stays(m: Map<Seq<u8>, Seq<u8>>, caller: Seq<u8>, token_id: u64, to: Seq<u8>)
    requires
        stored_license_type(m) == LicenseType::Personal.spec_code(),
    ensures
        spec_transfer(m, caller, token_id, to).0 == m,
        spec_transfer(m, caller, token_id, to).1 != 1,
{
}

/// The owner of a transferable license (the stored license type is not
/// personal, 0) moves it: the transfer answers 1 and the token is then
/// owned by the recipient. Anyone but the owner is refused (-2), and a
/// token without an owner record is refused (-1); both change nothing.
pub proof fn law_owner_transfers(m: Map<Seq<u8>, Seq<u8>>, owner: Seq<u8>, caller: Seq<u8>, token_id: u64, to: Seq<u8>, max_len: nat)
    requires
        owner.len() <= 256,
        caller.len() <= 256,
    ensures
        !m.contains_key(owner_key(token_id)) ==> spec_transfer(m, caller, token_id, to) == (m, -1i32),
        m.contains_key(owner_key(token_id)) && m[owner_key(token_id)] == owner && owner != caller
            ==> spec_transfer(m, caller, token_id, to) == (m, -2i32),
        m.contains_key(owner_key(token_id)) && m[owner_key(token_id)] == owner && owner == caller && stored_license_type(m) != 0 ==> {
            &&& spec_transfer(m, caller, token_id, to).1 == 1i32
            &&& spec_owner_of(spec_transfer(m, caller, token_id, to).0, token_id, max_len as int) == Some(prefix_up_to(to, max_len as int))
        },
{
    assert(prefix_up_to(owner, 256) =~= owner);
    lemma_key_lengths(to, token_id);
}

/// The owner of a license burns it: the burn answers 1, and the token then
/// has no owner and no metadata. Anyone but the owner is refused (-2), a
/// token without an owner record is refused (-1); both change nothing.
pub proof fn law_owner_burns(m: Map<Seq<u8>, Seq<u8>>, owner: Seq<u8>, caller: Seq<u8>, token_id: u64, max_len: nat)
    requires
        owner.len() <= 256,
        caller.len() <= 256,
    ensures
        !m.contains_key(owner_key(token_id)) ==> spec_burn(m, caller, token_id) == (m, -1i32),
        m.contains_key(owner_key(token_id)) && m[owner_key(token_id)] == owner && owner != caller
            ==> spec_burn(m, caller, token_id) == (m, -2i32),
        m.contains_key(owner_key(token_id)) && m[owner_key(token_id)] == owner && owner == caller ==> {
            &&& spec_burn(m, caller, token_id).1 == 1i32
            &&& spec_owner_of(spec_burn(m, caller, token_id).0, token_id, max_len as int) is None
            &&& !spec_burn(m, caller, token_id).0.contains_key(metadata_key(token_id))
        },
{
    assert(prefix_up_to(owner, 256) =~= owner);
}

} // verus!
