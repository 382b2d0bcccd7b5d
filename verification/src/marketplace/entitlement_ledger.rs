//! Entitlement ledger: publishers list files for sale, buyers purchase
//! entitlements, anyone verifies them, publishers revoke them.
use vstd::prelude::*;
use vstd::string::StringSliceAdditionalSpecFns;
use vstd::utf8::valid_utf8;
use crate::codec::{u64_le_bytes, push_u64_le, append_bytes, hex_lower, hex_encode};
use crate::crypto::{sha256, sha256_digest};
use crate::error::ContractError;
use crate::host::{spec_load, spec_caller, load_bytes, get_caller, key_with, reply_view, reply_byte, HostEnv, MAX_DID_LEN, Event, event_log, emit};
use crate::store::{KvStore, bytes_equal, prefix_up_to};
use crate::wire::{spec_read_u64, spec_read_string, spec_read_bytes32, spec_string_field, read_u64, read_string,
    read_bytes32, write_string_wrapping, lemma_read_string_field, lemma_read_u64_field};

verus! {

pub const OP_CREATE_LISTING: u8 = 1;
pub const OP_PURCHASE: u8 = 2;
pub const OP_VERIFY: u8 = 3;
pub const OP_REVOKE: u8 = 4;
pub const OP_GET_LISTING: u8 = 5;
pub const OP_GET_ENTITLEMENT: u8 = 6;

pub const PRICING_ONE_TIME: u8 = 1;
pub const PRICING_SUBSCRIPTION: u8 = 2;

pub const STATUS_VALID: u8 = 1;
pub const STATUS_EXPIRED: u8 = 0;
pub const STATUS_WRONG_BUYER: u8 = 2;
pub const STATUS_WRONG_FILE: u8 = 3;
pub const STATUS_REVOKED: u8 = 4;

pub const ENT_ACTIVE: u8 = 1;
pub const ENT_REVOKED: u8 = 0;

pub const MAX_STRING_LEN: usize = 512;
pub const LISTING_RECORD_MAX: usize = 2048;
pub const ENT_RECORD_MAX: usize = 1024;

/// A listing: publisher, file id, price, payment token, pricing type,
/// subscription period and active flag.
pub struct Listing {
    pub publisher_did: Vec<u8>,
    pub file_id: Vec<u8>,
    pub price: u64,
    pub token: Vec<u8>,
    pub pricing_type: u8,
    pub period: u64,
    pub active: u8,
}

/// The value of a listing.
pub type ListingV = (Seq<u8>, Seq<u8>, u64, Seq<u8>, u8, u64, u8);

impl View for Listing {
    type V = ListingV;

    open spec fn view(&self) -> ListingV {
        (self.publisher_did@, self.file_id@, self.price, self.token@, self.pricing_type, self.period, self.active)
    }
}

/// An entitlement: buyer, listing id, grant time, expiry and status.
pub struct Entitlement {
    pub buyer_did: Vec<u8>,
    pub listing_id: Vec<u8>,
    pub granted_at: u64,
    pub expires_at: u64,
    pub status: u8,
}

/// The value of an entitlement.
pub type EntitlementV = (Seq<u8>, Seq<u8>, u64, u64, u8);

impl View for Entitlement {
    type V = EntitlementV;

    open spec fn view(&self) -> EntitlementV {
        (self.buyer_did@, self.listing_id@, self.granted_at, self.expires_at, self.status)
    }
}

pub open spec fn listing_key(listing_id: Seq<u8>) -> Seq<u8> {
    "listing:".spec_bytes() + listing_id
}

pub open spec fn entitlement_key(ent_id: Seq<u8>) -> Seq<u8> {
    "ent:".spec_bytes() + hex_lower(ent_id)
}

/// Stored form of a listing.
pub open spec fn listing_bytes(l: ListingV) -> Seq<u8> {
    spec_string_field(l.0) + spec_string_field(l.1) + u64_le_bytes(l.2) + spec_string_field(l.3) + seq![l.4]
        + u64_le_bytes(l.5) + seq![l.6]
}

/// Stored form of an entitlement.
pub open spec fn entitlement_bytes(e: EntitlementV) -> Seq<u8> {
    spec_string_field(e.0) + spec_string_field(e.1) + u64_le_bytes(e.2) + u64_le_bytes(e.3) + seq![e.4]
}

/// Parses a stored listing.
#[verifier::opaque]
pub open spec fn spec_decode_listing(d: Seq<u8>) -> Option<ListingV> {
    match spec_read_string(d, 0, MAX_STRING_LEN as int) {
        None => None,
        Some((publisher, p1)) => match spec_read_string(d, p1, MAX_STRING_LEN as int) {
            None => None,
            Some((file_id, p2)) => match spec_read_u64(d, p2) {
                None => None,
                Some((price, p3)) => match spec_read_string(d, p3, MAX_STRING_LEN as int) {
                    None => None,
                    Some((token, p4)) => if p4 >= d.len() {
                        None
                    } else {
                        match spec_read_u64(d, p4 + 1) {
                            None => None,
                            Some((period, p5)) => if p5 >= d.len() {
                                None
                            } else {
                                Some((publisher, file_id, price, token, d[p4], period, d[p5]))
                            },
                        }
                    },
                },
            },
        },
    }
}

/// Parses a stored entitlement.
#[verifier::opaque]
pub open spec fn spec_decode_entitlement(d: Seq<u8>) -> Option<EntitlementV> {
    match spec_read_string(d, 0, MAX_STRING_LEN as int) {
        None => None,
        Some((buyer, p1)) => match spec_read_string(d, p1, MAX_STRING_LEN as int) {
            None => None,
            Some((listing_id, p2)) => match spec_read_u64(d, p2) {
                None => None,
                Some((granted, p3)) => match spec_read_u64(d, p3) {
                    None => None,
                    Some((expires, p4)) => if p4 >= d.len() {
                        None
                    } else {
                        Some((buyer, listing_id, granted, expires, d[p4]))
                    },
                },
            },
        },
    }
}

/// The listing stored under an id.
pub open spec fn spec_load_listing(m: Map<Seq<u8>, Seq<u8>>, listing_id: Seq<u8>) -> Result<ListingV, ContractError> {
    match spec_load(m, listing_key(listing_id), LISTING_RECORD_MAX as int) {
        Err(e) => Err(e),
        Ok(d) => match spec_decode_listing(d) {
            None => Err(ContractError::InvalidInput),
            Some(l) => Ok(l),
        },
    }
}

/// The entitlement stored under an id.
pub open spec fn spec_load_entitlement(m: Map<Seq<u8>, Seq<u8>>, ent_id: Seq<u8>) -> Result<EntitlementV, ContractError> {
    match spec_load(m, entitlement_key(ent_id), ENT_RECORD_MAX as int) {
        Err(e) => Err(e),
        Ok(d) => match spec_decode_entitlement(d) {
            None => Err(ContractError::InvalidInput),
            Some(e) => Ok(e),
        },
    }
}

pub open spec fn spec_create_listing(m: Map<Seq<u8>, Seq<u8>>, data: Seq<u8>, env: HostEnv) -> (Map<Seq<u8>, Seq<u8>>, Result<Seq<u8>, ContractError>) {
    let bad = (m, Err(ContractError::InvalidInput));
    match spec_read_string(data, 0, MAX_STRING_LEN as int) {
        None => bad,
        Some((lid, p1)) => match spec_read_string(data, p1, MAX_STRING_LEN as int) {
            None => bad,
            Some((file_id, p2)) => match spec_read_u64(data, p2) {
                None => bad,
                Some((price, p3)) => match spec_read_string(data, p3, MAX_STRING_LEN as int) {
                    None => bad,
                    Some((token, p4)) => if p4 >= data.len() {
                        bad
                    } else {
                        match spec_read_u64(data, p4 + 1) {
                            None => bad,
                            Some((period, _)) => match spec_caller(env, ContractError::Unauthorized) {
                                Err(e) => (m, Err(e)),
                                Ok(caller) => match spec_load_listing(m, lid) {
                                    Ok(existing) if existing.0 != caller => (m, Err(ContractError::Unauthorized)),
                                    _ => (
                                        m.insert(listing_key(lid), listing_bytes((caller, file_id, price, token, data[p4], period, 1u8))),
                                        Ok(seq![1u8]),
                                    ),
                                },
                            },
                        }
                    },
                },
            },
        },
    }
}

/// When a purchased subscription ends; one-time purchases never end.
pub open spec fn expiry(l: ListingV, now: u64) -> u64 {
    if l.4 == PRICING_SUBSCRIPTION && l.5 > 0 { (now + l.5) as u64 } else { u64::MAX }
}

/// The id of the entitlement that `buyer` gets for `listing_id` at `now`.
pub open spec fn entitlement_id(buyer: Seq<u8>, listing_id: Seq<u8>, now: u64) -> Seq<u8> {
    sha256_digest(buyer + listing_id + u64_le_bytes(now))
}

/// A purchase whose subscription end would not fit in a `u64`.
pub open spec fn purchase_overflows(m: Map<Seq<u8>, Seq<u8>>, data: Seq<u8>, env: HostEnv) -> bool {
    match spec_read_string(data, 0, MAX_STRING_LEN as int) {
        None => false,
        Some((lid, _)) => match spec_load_listing(m, lid) {
            Err(_) => false,
            Ok(l) => l.6 != 0 && env.msg_value >= l.2 && spec_caller(env, ContractError::Unauthorized) is Ok
                && l.4 == PRICING_SUBSCRIPTION && l.5 > 0 && env.timestamp + l.5 > u64::MAX,
        },
    }
}

pub open spec fn spec_purchase(m: Map<Seq<u8>, Seq<u8>>, data: Seq<u8>, env: HostEnv) -> (Map<Seq<u8>, Seq<u8>>, Result<Seq<u8>, ContractError>) {
    match spec_read_string(data, 0, MAX_STRING_LEN as int) {
        None => (m, Err(ContractError::InvalidInput)),
        Some((lid, _)) => match spec_load_listing(m, lid) {
            Err(e) => (m, Err(e)),
            Ok(l) => if l.6 == 0 {
                (m, Err(ContractError::Failed))
            } else if env.msg_value < l.2 {
                (m, Err(ContractError::InsufficientPayment))
            } else {
                match spec_caller(env, ContractError::Unauthorized) {
                    Err(e) => (m, Err(e)),
                    Ok(buyer) => {
                        let id = entitlement_id(buyer, lid, env.timestamp);
                        (
                            m.insert(entitlement_key(id), entitlement_bytes((buyer, lid, env.timestamp, expiry(l, env.timestamp), ENT_ACTIVE))),
                            Ok(seq![1u8] + id),
                        )
                    },
                }
            },
        },
    }
}

/// The status an entitlement has for `buyer`, `file_id` and time `now`.
pub open spec fn verify_status(m: Map<Seq<u8>, Seq<u8>>, ent_id: Seq<u8>, buyer: Seq<u8>, file_id: Seq<u8>, now: u64) -> Result<Seq<u8>, ContractError> {
    match spec_load_entitlement(m, ent_id) {
        Err(e) => Err(e),
        Ok(e) => if e.4 == ENT_REVOKED {
            Ok(seq![1u8, STATUS_REVOKED])
        } else if e.0 != buyer {
            Ok(seq![1u8, STATUS_WRONG_BUYER])
        } else {
            match spec_load_listing(m, e.1) {
                Err(err) => Err(err),
                Ok(l) => if l.1 != file_id {
                    Ok(seq![1u8, STATUS_WRONG_FILE])
                } else if e.3 != u64::MAX && now > e.3 {
                    Ok(seq![1u8, STATUS_EXPIRED])
                } else {
                    Ok(seq![1u8, STATUS_VALID])
                },
            }
        },
    }
}

pub open spec fn spec_verify(m: Map<Seq<u8>, Seq<u8>>, data: Seq<u8>, env: HostEnv) -> Result<Seq<u8>, ContractError> {
    match spec_read_bytes32(data, 0) {
        None => Err(ContractError::InvalidInput),
        Some((id, p1)) => match spec_read_string(data, p1, MAX_STRING_LEN as int) {
            None => Err(ContractError::InvalidInput),
            Some((buyer, p2)) => match spec_read_string(data, p2, MAX_STRING_LEN as int) {
                None => Err(ContractError::InvalidInput),
                Some((file_id, _)) => verify_status(m, id, buyer, file_id, env.timestamp),
            },
        },
    }
}

pub open spec fn spec_revoke(m: Map<Seq<u8>, Seq<u8>>, data: Seq<u8>, env: HostEnv) -> (Map<Seq<u8>, Seq<u8>>, Result<Seq<u8>, ContractError>) {
    match spec_read_bytes32(data, 0) {
        None => (m, Err(ContractError::InvalidInput)),
        Some((id, _)) => match spec_load_entitlement(m, id) {
            Err(e) => (m, Err(e)),
            Ok(e) => match spec_load_listing(m, e.1) {
                Err(err) => (m, Err(err)),
                Ok(l) => match spec_caller(env, ContractError::Unauthorized) {
                    Err(err) => (m, Err(err)),
                    Ok(caller) => if l.0 != caller {
                        (m, Err(ContractError::Unauthorized))
                    } else {
                        (m.insert(entitlement_key(id), entitlement_bytes((e.0, e.1, e.2, e.3, ENT_REVOKED))), Ok(seq![1u8]))
                    },
                },
            },
        },
    }
}

/// Event of a purchase that went through: the entitlement id, the buyer, a
/// zero byte and the listing id.
pub open spec fn purchase_events(m: Map<Seq<u8>, Seq<u8>>, data: Seq<u8>, env: HostEnv) -> Seq<(Seq<u8>, Seq<u8>)> {
    match (spec_read_string(data, 0, MAX_STRING_LEN as int), spec_caller(env, ContractError::Unauthorized)) {
        (Some((lid, _)), Ok(buyer)) => if spec_purchase(m, data, env).1 is Ok {
            seq![("entitlement:granted".spec_bytes(), entitlement_id(buyer, lid, env.timestamp) + buyer + seq![0u8] + lid)]
        } else {
            seq![]
        },
        _ => seq![],
    }
}

/// Event of a revocation that went through: the entitlement id.
pub open spec fn revoke_events(m: Map<Seq<u8>, Seq<u8>>, data: Seq<u8>, env: HostEnv) -> Seq<(Seq<u8>, Seq<u8>)> {
    match spec_read_bytes32(data, 0) {
        Some((id, _)) => if spec_revoke(m, data, env).1 is Ok {
            seq![("entitlement:revoked".spec_bytes(), id)]
        } else {
            seq![]
        },
        None => seq![],
    }
}

/// The event of a call: purchases and revocations announce themselves.
pub open spec fn spec_events(m: Map<Seq<u8>, Seq<u8>>, input: Seq<u8>, env: HostEnv) -> Seq<(Seq<u8>, Seq<u8>)> {
    if input.len() == 0 {
        seq![]
    } else if input[0] == OP_PURCHASE {
        purchase_events(m, input.subrange(1, input.len() as int), env)
    } else if input[0] == OP_REVOKE {
        revoke_events(m, input.subrange(1, input.len() as int), env)
    } else {
        seq![]
    }
}

pub open spec fn spec_dispatch(m: Map<Seq<u8>, Seq<u8>>, input: Seq<u8>, env: HostEnv) -> (Map<Seq<u8>, Seq<u8>>, Result<Seq<u8>, ContractError>) {
    if input.len() == 0 {
        (m, Err(ContractError::InvalidInput))
    } else {
        let data = input.subrange(1, input.len() as int);
        let op = input[0];
        if op == OP_CREATE_LISTING {
            spec_create_listing(m, data, env)
        } else if op == OP_PURCHASE {
            spec_purchase(m, data, env)
        } else if op == OP_VERIFY {
            (m, spec_verify(m, data, env))
        } else if op == OP_REVOKE {
            spec_revoke(m, data, env)
        } else if op == OP_GET_LISTING {
            match spec_read_string(data, 0, MAX_STRING_LEN as int) {
                None => (m, Err(ContractError::InvalidInput)),
                Some((lid, _)) => match spec_load(m, listing_key(lid), LISTING_RECORD_MAX as int) {
                    Err(e) => (m, Err(e)),
                    Ok(raw) => (m, Ok(seq![1u8] + raw)),
                },
            }
        } else if op == OP_GET_ENTITLEMENT {
            match spec_read_bytes32(data, 0) {
                None => (m, Err(ContractError::InvalidInput)),
                Some((id, _)) => match spec_load(m, entitlement_key(id), ENT_RECORD_MAX as int) {
                    Err(e) => (m, Err(e)),
                    Ok(raw) => (m, Ok(seq![1u8] + raw)),
                },
            }
        } else {
            (m, Err(ContractError::InvalidInput))
        }
    }
}

/// Encodes a listing for storage.
pub fn encode_listing(l: &Listing) -> (r: Vec<u8>)
    ensures
        r@ == listing_bytes(l@),
{
    let mut out: Vec<u8> = Vec::new();
    write_string_wrapping(&mut out, l.publisher_did.as_slice());
    write_string_wrapping(&mut out, l.file_id.as_slice());
    push_u64_le(&mut out, l.price);
    write_string_wrapping(&mut out, l.token.as_slice());
    out.push(l.pricing_type);
    push_u64_le(&mut out, l.period);
    out.push(l.active);
    assert(out@ =~= listing_bytes(l@));
    out
}

/// Parses a stored listing.
pub fn decode_listing(data: &[u8]) -> (r: Result<Listing, ContractError>)
    ensures
        match spec_decode_listing(data@) {
            None => r == Err::<Listing, ContractError>(ContractError::InvalidInput),
            Some(v) => r matches Ok(l) && l@ == v,
        },
{
    reveal(spec_decode_listing);
    let mut pos: usize = 0;
    let publisher_did = read_string(data, &mut pos, MAX_STRING_LEN)?;
    let file_id = read_string(data, &mut pos, MAX_STRING_LEN)?;
    let price = read_u64(data, &mut pos)?;
    let token = read_string(data, &mut pos, MAX_STRING_LEN)?;
    if pos >= data.len() {
        return Err(ContractError::InvalidInput);
    }
    let pricing_type = data[pos];
    pos = pos + 1;
    let period = read_u64(data, &mut pos)?;
    if pos >= data.len() {
        return Err(ContractError::InvalidInput);
    }
    let active = data[pos];
    Ok(Listing { publisher_did, file_id, price, token, pricing_type, period, active })
}

/// Encodes an entitlement for storage.
pub fn encode_entitlement(e: &Entitlement) -> (r: Vec<u8>)
    ensures
        r@ == entitlement_bytes(e@),
{
    let mut out: Vec<u8> = Vec::new();
    write_string_wrapping(&mut out, e.buyer_did.as_slice());
    write_string_wrapping(&mut out, e.listing_id.as_slice());
    push_u64_le(&mut out, e.granted_at);
    push_u64_le(&mut out, e.expires_at);
    out.push(e.status);
    assert(out@ =~= entitlement_bytes(e@));
    out
}

/// Parses a stored entitlement.
pub fn decode_entitlement(data: &[u8]) -> (r: Result<Entitlement, ContractError>)
    ensures
        match spec_decode_entitlement(data@) {
            None => r == Err::<Entitlement, ContractError>(ContractError::InvalidInput),
            Some(v) => r matches Ok(e) && e@ == v,
        },
{
    reveal(spec_decode_entitlement);
    let mut pos: usize = 0;
    let buyer_did = read_string(data, &mut pos, MAX_STRING_LEN)?;
    let listing_id = read_string(data, &mut pos, MAX_STRING_LEN)?;
    let granted_at = read_u64(data, &mut pos)?;
    let expires_at = read_u64(data, &mut pos)?;
    if pos >= data.len() {
        return Err(ContractError::InvalidInput);
    }
    let status = data[pos];
    Ok(Entitlement { buyer_did, listing_id, granted_at, expires_at, status })
}

fn listing_key_of(listing_id: &[u8]) -> (r: Vec<u8>)
    ensures
        r@ == listing_key(listing_id@),
{
    key_with("listing:", listing_id)
}

fn entitlement_key_of(ent_id: &[u8]) -> (r: Vec<u8>)
    ensures
        r@ == entitlement_key(ent_id@),
{
    let h = hex_encode(ent_id);
    key_with("ent:", h.as_slice())
}

fn load_listing(store: &KvStore, listing_id: &[u8]) -> (r: Result<Listing, ContractError>)
    requires
        store.wf(),
    ensures
        match spec_load_listing(store@, listing_id@) {
            Err(e) => r == Err::<Listing, ContractError>(e),
            Ok(v) => r matches Ok(l) && l@ == v,
        },
{
    let k = listing_key_of(listing_id);
    let raw = load_bytes(store, k.as_slice(), LISTING_RECORD_MAX)?;
    decode_listing(raw.as_slice())
}

fn load_entitlement(store: &KvStore, ent_id: &[u8]) -> (r: Result<Entitlement, ContractError>)
    requires
        store.wf(),
    ensures
        match spec_load_entitlement(store@, ent_id@) {
            Err(e) => r == Err::<Entitlement, ContractError>(e),
            Ok(v) => r matches Ok(x) && x@ == v,
        },
{
    let k = entitlement_key_of(ent_id);
    let raw = load_bytes(store, k.as_slice(), ENT_RECORD_MAX)?;
    decode_entitlement(raw.as_slice())
}

fn handle_create_listing(store: &mut KvStore, data: &[u8], env: &HostEnv) -> (r: Result<Vec<u8>, ContractError>)
    requires
        old(store).wf(),
    ensures
        final(store).wf(),
        (final(store)@, reply_view(r)) == spec_create_listing(old(store)@, data@, *env),
{
    let mut pos: usize = 0;
    let listing_id = read_string(data, &mut pos, MAX_STRING_LEN)?;
    let file_id = read_string(data, &mut pos, MAX_STRING_LEN)?;
    let price = read_u64(data, &mut pos)?;
    let token = read_string(data, &mut pos, MAX_STRING_LEN)?;
    if pos >= data.len() {
        return Err(ContractError::InvalidInput);
    }
    let pricing_type = data[pos];
    pos = pos + 1;
    let period = read_u64(data, &mut pos)?;
    let caller = get_caller(env, ContractError::Unauthorized)?;
    match load_listing(store, listing_id.as_slice()) {
        Ok(existing) => {
            if !bytes_equal(existing.publisher_did.as_slice(), caller.as_slice()) {
                return Err(ContractError::Unauthorized);
            }
        },
        Err(_) => {},
    }
    let listing = Listing { publisher_did: caller, file_id, price, token, pricing_type, period, active: 1 };
    let k = listing_key_of(listing_id.as_slice());
    let bytes = encode_listing(&listing);
    store.save(k.as_slice(), bytes.as_slice());
    Ok(reply_byte(1))
}

fn handle_purchase(store: &mut KvStore, data: &[u8], env: &HostEnv, events: &mut Vec<Event>) -> (r: Result<Vec<u8>, ContractError>)
    requires
        old(store).wf(),
        !purchase_overflows(old(store)@, data@, *env),
    ensures
        final(store).wf(),
        (final(store)@, reply_view(r)) == spec_purchase(old(store)@, data@, *env),
        event_log(final(events)@) == event_log(old(events)@) + purchase_events(old(store)@, data@, *env),
{
    let mut pos: usize = 0;
    let listing_id = read_string(data, &mut pos, MAX_STRING_LEN)?;
    let listing = load_listing(store, listing_id.as_slice())?;
    if listing.active == 0 {
        return Err(ContractError::Failed);
    }
    if env.msg_value < listing.price {
        return Err(ContractError::InsufficientPayment);
    }
    let buyer = get_caller(env, ContractError::Unauthorized)?;
    let now = env.timestamp;
    let expires_at = if listing.pricing_type == PRICING_SUBSCRIPTION && listing.period > 0 {
        now + listing.period
    } else {
        u64::MAX
    };
    let mut preimage: Vec<u8> = Vec::new();
    append_bytes(&mut preimage, buyer.as_slice());
    append_bytes(&mut preimage, listing_id.as_slice());
    push_u64_le(&mut preimage, now);
    assert(preimage@ =~= buyer@ + listing_id@ + u64_le_bytes(now));
    let ent_id = sha256(preimage.as_slice());
    let mut event: Vec<u8> = Vec::new();
    append_bytes(&mut event, ent_id.as_slice());
    append_bytes(&mut event, buyer.as_slice());
    event.push(0u8);
    append_bytes(&mut event, listing_id.as_slice());
    assert(event@ =~= ent_id@ + buyer@ + seq![0u8] + listing_id@);
    let ent = Entitlement { buyer_did: buyer, listing_id, granted_at: now, expires_at, status: ENT_ACTIVE };
    let k = entitlement_key_of(ent_id.as_slice());
    let bytes = encode_entitlement(&ent);
    store.save(k.as_slice(), bytes.as_slice());
    emit(events, "entitlement:granted", event.as_slice());
    let mut out: Vec<u8> = Vec::new();
    out.push(1u8);
    append_bytes(&mut out, ent_id.as_slice());
    Ok(out)
}

fn status_reply(status: u8) -> (r: Result<Vec<u8>, ContractError>)
    ensures
        reply_view(r) == Ok::<Seq<u8>, ContractError>(seq![1u8, status]),
{
    let mut out: Vec<u8> = Vec::new();
    out.push(1u8);
    out.push(status);
    assert(out@ =~= seq![1u8, status]);
    Ok(out)
}

fn handle_verify(store: &KvStore, data: &[u8], env: &HostEnv) -> (r: Result<Vec<u8>, ContractError>)
    requires
        store.wf(),
    ensures
        reply_view(r) == spec_verify(store@, data@, *env),
{
    let mut pos: usize = 0;
    let ent_id = read_bytes32(data, &mut pos)?;
    let buyer = read_string(data, &mut pos, MAX_STRING_LEN)?;
    let file_id = read_string(data, &mut pos, MAX_STRING_LEN)?;
    let ent = load_entitlement(store, ent_id.as_slice())?;
    if ent.status == ENT_REVOKED {
        return status_reply(STATUS_REVOKED);
    }
    if !bytes_equal(ent.buyer_did.as_slice(), buyer.as_slice()) {
        return status_reply(STATUS_WRONG_BUYER);
    }
    let listing = load_listing(store, ent.listing_id.as_slice())?;
    if !bytes_equal(listing.file_id.as_slice(), file_id.as_slice()) {
        return status_reply(STATUS_WRONG_FILE);
    }
    if ent.expires_at != u64::MAX && env.timestamp > ent.expires_at {
        return status_reply(STATUS_EXPIRED);
    }
    status_reply(STATUS_VALID)
}

fn handle_revoke(store: &mut KvStore, data: &[u8], env: &HostEnv, events: &mut Vec<Event>) -> (r: Result<Vec<u8>, ContractError>)
    requires
        old(store).wf(),
    ensures
        final(store).wf(),
        (final(store)@, reply_view(r)) == spec_revoke(old(store)@, data@, *env),
        event_log(final(events)@) == event_log(old(events)@) + revoke_events(old(store)@, data@, *env),
{
    let mut pos: usize = 0;
    let ent_id = read_bytes32(data, &mut pos)?;
    let mut ent = load_entitlement(store, ent_id.as_slice())?;
    let listing = load_listing(store, ent.listing_id.as_slice())?;
    let caller = get_caller(env, ContractError::Unauthorized)?;
    if !bytes_equal(listing.publisher_did.as_slice(), caller.as_slice()) {
        return Err(ContractError::Unauthorized);
    }
    ent.status = ENT_REVOKED;
    let k = entitlement_key_of(ent_id.as_slice());
    let bytes = encode_entitlement(&ent);
    store.save(k.as_slice(), bytes.as_slice());
    emit(events, "entitlement:revoked", ent_id.as_slice());
    Ok(reply_byte(1))
}

fn raw_with_marker(store: &KvStore, key: &[u8], max_len: usize) -> (r: Result<Vec<u8>, ContractError>)
    requires
        store.wf(),
    ensures
        reply_view(r) == match spec_load(store@, key@, max_len as int) {
            Err(e) => Err(e),
            Ok(d) => Ok(seq![1u8] + d),
        },
{
    let raw = load_bytes(store, key, max_len)?;
    let mut out: Vec<u8> = Vec::new();
    out.push(1u8);
    append_bytes(&mut out, raw.as_slice());
    Ok(out)
}

/// Whether a call is a subscription purchase whose end would not fit in a
/// `u64`; callers test it before `dispatch`.
pub fn dispatch_traps(store: &KvStore, input: &[u8], env: &HostEnv) -> (r: bool)
    requires
        store.wf(),
    ensures
        r == (input@.len() > 0 && input@[0] == OP_PURCHASE && purchase_overflows(store@, input@.subrange(1, input@.len() as int), *env)),
{
    if input.len() == 0 || input[0] != OP_PURCHASE {
        return false;
    }
    let data = vstd::slice::slice_subrange(input, 1, input.len());
    let mut pos: usize = 0;
    let listing_id = match read_string(data, &mut pos, MAX_STRING_LEN) {
        Ok(l) => l,
        Err(_) => {
            return false;
        },
    };
    let listing = match load_listing(store, listing_id.as_slice()) {
        Ok(l) => l,
        Err(_) => {
            return false;
        },
    };
    listing.active != 0 && env.msg_value >= listing.price && get_caller(env, ContractError::Unauthorized).is_ok()
        && listing.pricing_type == PRICING_SUBSCRIPTION && listing.period > 0 && env.timestamp.checked_add(listing.period).is_none()
}

/// Runs one call of the ledger. A subscription purchase whose end would
/// overflow a `u64` is left out (`dispatch_traps` tells such a call).
/// The call's event is appended to `events`.
pub fn dispatch(store: &mut KvStore, input: &[u8], env: &HostEnv, events: &mut Vec<Event>) -> (r: Result<Vec<u8>, ContractError>)
    requires
        old(store).wf(),
        input@.len() > 0 && input@[0] == OP_PURCHASE ==> !purchase_overflows(old(store)@, input@.subrange(1, input@.len() as int), *env),
    ensures
        final(store).wf(),
        (final(store)@, reply_view(r)) == spec_dispatch(old(store)@, input@, *env),
        event_log(final(events)@) == event_log(old(events)@) + spec_events(old(store)@, input@, *env),
{
    if input.len() == 0 {
        return Err(ContractError::InvalidInput);
    }
    let data = vstd::slice::slice_subrange(input, 1, input.len());
    let op = input[0];
    if op == OP_CREATE_LISTING {
        handle_create_listing(store, data, env)
    } else if op == OP_PURCHASE {
        handle_purchase(store, data, env, events)
    } else if op == OP_VERIFY {
        handle_verify(store, data, env)
    } else if op == OP_REVOKE {
        handle_revoke(store, data, env, events)
    } else if op == OP_GET_LISTING {
        let mut pos: usize = 0;
        let listing_id = read_string(data, &mut pos, MAX_STRING_LEN)?;
        let k = listing_key_of(listing_id.as_slice());
        raw_with_marker(store, k.as_slice(), LISTING_RECORD_MAX)
    } else if op == OP_GET_ENTITLEMENT {
        let mut pos: usize = 0;
        let ent_id = read_bytes32(data, &mut pos)?;
        let k = entitlement_key_of(ent_id.as_slice());
        raw_with_marker(store, k.as_slice(), ENT_RECORD_MAX)
    } else {
        Err(ContractError::InvalidInput)
    }
}

} // verus!

verus! {

/// A stored entitlement parses back to itself.
#[verifier::rlimit(100)]
#[verifier::spinoff_prover]
pub proof fn lemma_entitlement_roundtrip(e: EntitlementV)
    requires
        e.0.len() <= MAX_STRING_LEN,
        e.1.len() <= MAX_STRING_LEN,
        valid_utf8(e.0),
        valid_utf8(e.1),
    ensures
        spec_decode_entitlement(entitlement_bytes(e)) == Some(e),
{
    reveal(spec_decode_entitlement);
    let f0 = spec_string_field(e.0);
    let f1 = spec_string_field(e.1);
    let b = entitlement_bytes(e);
    let empty = Seq::<u8>::empty();
    assert(b =~= empty + f0 + (f1 + u64_le_bytes(e.2) + u64_le_bytes(e.3) + seq![e.4]));
    lemma_read_string_field(empty, e.0, f1 + u64_le_bytes(e.2) + u64_le_bytes(e.3) + seq![e.4], MAX_STRING_LEN as int);
    assert(b =~= f0 + f1 + (u64_le_bytes(e.2) + u64_le_bytes(e.3) + seq![e.4]));
    lemma_read_string_field(f0, e.1, u64_le_bytes(e.2) + u64_le_bytes(e.3) + seq![e.4], MAX_STRING_LEN as int);
    assert(b =~= (f0 + f1) + u64_le_bytes(e.2) + (u64_le_bytes(e.3) + seq![e.4]));
    lemma_read_u64_field(f0 + f1, e.2, u64_le_bytes(e.3) + seq![e.4]);
    assert(b =~= (f0 + f1 + u64_le_bytes(e.2)) + u64_le_bytes(e.3) + seq![e.4]);
    lemma_read_u64_field(f0 + f1 + u64_le_bytes(e.2), e.3, seq![e.4]);
    assert(b[b.len() - 1] == e.4);
}

/// A stored listing parses back to itself.
#[verifier::rlimit(100)]
#[verifier::spinoff_prover]
pub proof fn lemma_listing_roundtrip(l: ListingV)
    requires
        l.0.len() <= MAX_STRING_LEN,
        l.1.len() <= MAX_STRING_LEN,
        l.3.len() <= MAX_STRING_LEN,
        valid_utf8(l.0),
        valid_utf8(l.1),
        valid_utf8(l.3),
    ensures
        spec_decode_listing(listing_bytes(l)) == Some(l),
{
    reveal(spec_decode_listing);
    let b = listing_bytes(l);
    let f0 = spec_string_field(l.0);
    let f1 = spec_string_field(l.1);
    let u2 = u64_le_bytes(l.2);
    let f3 = spec_string_field(l.3);
    let u5 = u64_le_bytes(l.5);
    let p1 = f0.len() as int;
    let p2 = (p1 + f1.len()) as int;
    let p3 = p2 + 8;
    let p4 = (p3 + f3.len()) as int;
    listing_step_strings(l);
    listing_step_numbers(l);
    assert(spec_read_string(b, 0, MAX_STRING_LEN as int) == Some((l.0, p1)));
    assert(spec_read_string(b, p1, MAX_STRING_LEN as int) == Some((l.1, p2)));
    assert(spec_read_u64(b, p2) == Some((l.2, p3)));
    assert(spec_read_string(b, p3, MAX_STRING_LEN as int) == Some((l.3, p4)));
    assert(spec_read_u64(b, p4 + 1) == Some((l.5, p4 + 9)));
}

proof fn listing_step_strings(l: ListingV)
    requires
        l.0.len() <= MAX_STRING_LEN,
        l.1.len() <= MAX_STRING_LEN,
        l.3.len() <= MAX_STRING_LEN,
        valid_utf8(l.0),
        valid_utf8(l.1),
        valid_utf8(l.3),
    ensures
        ({
            let b = listing_bytes(l);
            let p1 = spec_string_field(l.0).len() as int;
            let p2 = (p1 + spec_string_field(l.1).len()) as int;
            let p3 = p2 + 8;
            &&& spec_read_string(b, 0, MAX_STRING_LEN as int) == Some((l.0, p1))
            &&& spec_read_string(b, p1, MAX_STRING_LEN as int) == Some((l.1, p2))
            &&& spec_read_string(b, p3, MAX_STRING_LEN as int) == Some((l.3, p3 + spec_string_field(l.3).len()))
        }),
{
    listing_step_string0(l);
    listing_step_string1(l);
    listing_step_string3(l);
}

#[verifier::rlimit(100)]
#[verifier::spinoff_prover]
proof fn listing_step_string0(l: ListingV)
    requires
        l.0.len() <= MAX_STRING_LEN,
        valid_utf8(l.0),
    ensures
        spec_read_string(listing_bytes(l), 0, MAX_STRING_LEN as int) == Some((l.0, spec_string_field(l.0).len() as int)),
{
    let b = listing_bytes(l);
    let f0 = spec_string_field(l.0);
    let rest = spec_string_field(l.1) + u64_le_bytes(l.2) + spec_string_field(l.3) + seq![l.4] + u64_le_bytes(l.5) + seq![l.6];
    let empty = Seq::<u8>::empty();
    assert(b =~= empty + f0 + rest);
    lemma_read_string_field(empty, l.0, rest, MAX_STRING_LEN as int);
}

#[verifier::rlimit(100)]
#[verifier::spinoff_prover]
proof fn listing_step_string1(l: ListingV)
    requires
        l.1.len() <= MAX_STRING_LEN,
        valid_utf8(l.1),
    ensures
        spec_read_string(listing_bytes(l), spec_string_field(l.0).len() as int, MAX_STRING_LEN as int)
            == Some((l.1, (spec_string_field(l.0).len() + spec_string_field(l.1).len()) as int)),
{
    let b = listing_bytes(l);
    let f0 = spec_string_field(l.0);
    let rest = u64_le_bytes(l.2) + spec_string_field(l.3) + seq![l.4] + u64_le_bytes(l.5) + seq![l.6];
    assert(b =~= f0 + spec_string_field(l.1) + rest);
    lemma_read_string_field(f0, l.1, rest, MAX_STRING_LEN as int);
}

#[verifier::rlimit(100)]
#[verifier::spinoff_prover]
proof fn listing_step_string3(l: ListingV)
    requires
        l.3.len() <= MAX_STRING_LEN,
        valid_utf8(l.3),
    ensures
        ({
            let p3 = spec_string_field(l.0).len() + spec_string_field(l.1).len() + 8;
            spec_read_string(listing_bytes(l), p3 as int, MAX_STRING_LEN as int)
                == Some((l.3, (p3 + spec_string_field(l.3).len()) as int))
        }),
{
    let b = listing_bytes(l);
    let pre = spec_string_field(l.0) + spec_string_field(l.1) + u64_le_bytes(l.2);
    let rest = seq![l.4] + u64_le_bytes(l.5) + seq![l.6];
    assert(b =~= pre + spec_string_field(l.3) + rest);
    lemma_read_string_field(pre, l.3, rest, MAX_STRING_LEN as int);
}

proof fn listing_step_numbers(l: ListingV)
    ensures
        ({
            let b = listing_bytes(l);
            let p2 = (spec_string_field(l.0).len() + spec_string_field(l.1).len()) as int;
            let p4 = (p2 + 8 + spec_string_field(l.3).len()) as int;
            &&& spec_read_u64(b, p2) == Some((l.2, p2 + 8))
            &&& b.len() == p4 + 10
            &&& b[p4] == l.4
            &&& spec_read_u64(b, p4 + 1) == Some((l.5, p4 + 9))
            &&& b[p4 + 9] == l.6
        }),
{
    let b = listing_bytes(l);
    let f0 = spec_string_field(l.0);
    let f1 = spec_string_field(l.1);
    let u2 = u64_le_bytes(l.2);
    let f3 = spec_string_field(l.3);
    let u5 = u64_le_bytes(l.5);
    assert(b =~= (f0 + f1) + u2 + (f3 + seq![l.4] + u5 + seq![l.6]));
    lemma_read_u64_field(f0 + f1, l.2, f3 + seq![l.4] + u5 + seq![l.6]);
    assert(b =~= (f0 + f1 + u2 + f3 + seq![l.4]) + u5 + seq![l.6]);
    lemma_read_u64_field(f0 + f1 + u2 + f3 + seq![l.4], l.5, seq![l.6]);
}

proof fn lemma_keys_distinct(ent_id: Seq<u8>, listing_id: Seq<u8>)
    ensures
        entitlement_key(ent_id) != listing_key(listing_id),
{
    reveal_strlit("ent:");
    reveal_strlit("listing:");
    vstd::string::is_ascii_spec_bytes("ent:");
    vstd::string::is_ascii_spec_bytes("listing:");
    assert(entitlement_key(ent_id)[0] != listing_key(listing_id)[0]);
}

/// A purchase grants the buyer an entitlement that verifies for the
/// listing's file: VALID up to its expiry and EXPIRED after it.
#[verifier::rlimit(100)]
#[verifier::spinoff_prover]
pub proof fn law_purchase_then_verify(m: Map<Seq<u8>, Seq<u8>>, data: Seq<u8>, env: HostEnv, listing_id: Seq<u8>, l: ListingV, now: u64)
    requires
        env.caller@.len() <= MAX_DID_LEN,
        spec_read_string(data, 0, MAX_STRING_LEN as int) matches Some((lid, _)) && lid == listing_id,
        spec_load_listing(m, listing_id) == Ok::<ListingV, ContractError>(l),
        spec_purchase(m, data, env).1 is Ok,
    ensures
        verify_status(
            spec_purchase(m, data, env).0,
            entitlement_id(env.caller@, listing_id, env.timestamp),
            env.caller@,
            l.1,
            now,
        ) == Ok::<Seq<u8>, ContractError>(seq![1u8,
            if expiry(l, env.timestamp) != u64::MAX && now > expiry(l, env.timestamp) { STATUS_EXPIRED } else { STATUS_VALID }]),
        spec_purchase(m, data, env).1 == Ok::<Seq<u8>, ContractError>(seq![1u8] + entitlement_id(env.caller@, listing_id, env.timestamp)),
{
    let id = entitlement_id(env.caller@, listing_id, env.timestamp);
    let e = (env.caller@, listing_id, env.timestamp, expiry(l, env.timestamp), ENT_ACTIVE);
    let m2 = m.insert(entitlement_key(id), entitlement_bytes(e));
    lemma_purchase_result(m, data, env, listing_id, l);
    lemma_entitlement_stored(m, id, e, listing_id);
}

#[verifier::rlimit(100)]
#[verifier::spinoff_prover]
proof fn lemma_purchase_result(m: Map<Seq<u8>, Seq<u8>>, data: Seq<u8>, env: HostEnv, listing_id: Seq<u8>, l: ListingV)
    requires
        spec_read_string(data, 0, MAX_STRING_LEN as int) matches Some((lid, _)) && lid == listing_id,
        spec_load_listing(m, listing_id) == Ok::<ListingV, ContractError>(l),
        spec_purchase(m, data, env).1 is Ok,
    ensures
        spec_caller(env, ContractError::Unauthorized) == Ok::<Seq<u8>, ContractError>(env.caller@),
        listing_id.len() <= MAX_STRING_LEN,
        valid_utf8(listing_id),
        spec_purchase(m, data, env) == (
            m.insert(
                entitlement_key(entitlement_id(env.caller@, listing_id, env.timestamp)),
                entitlement_bytes((env.caller@, listing_id, env.timestamp, expiry(l, env.timestamp), ENT_ACTIVE)),
            ),
            Ok::<Seq<u8>, ContractError>(seq![1u8] + entitlement_id(env.caller@, listing_id, env.timestamp)),
        ),
{
}

proof fn lemma_entitlement_stored(m: Map<Seq<u8>, Seq<u8>>, id: Seq<u8>, e: EntitlementV, listing_id: Seq<u8>)
    requires
        e.0.len() <= MAX_DID_LEN,
        e.1.len() <= MAX_STRING_LEN,
        valid_utf8(e.0),
        valid_utf8(e.1),
        e.1 == listing_id,
    ensures
        spec_load_entitlement(m.insert(entitlement_key(id), entitlement_bytes(e)), id) == Ok::<EntitlementV, ContractError>(e),
        spec_load_listing(m.insert(entitlement_key(id), entitlement_bytes(e)), listing_id) == spec_load_listing(m, listing_id),
{
    lemma_entitlement_loads(m, id, e);
    lemma_listing_untouched(m, id, entitlement_bytes(e), listing_id);
}

#[verifier::rlimit(100)]
#[verifier::spinoff_prover]
proof fn lemma_entitlement_loads(m: Map<Seq<u8>, Seq<u8>>, id: Seq<u8>, e: EntitlementV)
    requires
        e.0.len() <= MAX_DID_LEN,
        e.1.len() <= MAX_STRING_LEN,
        valid_utf8(e.0),
        valid_utf8(e.1),
    ensures
        spec_load_entitlement(m.insert(entitlement_key(id), entitlement_bytes(e)), id) == Ok::<EntitlementV, ContractError>(e),
{
    let b = entitlement_bytes(e);
    lemma_entitlement_roundtrip(e);
    assert(b.len() == 2 + e.0.len() + 2 + e.1.len() + 17);
    assert(prefix_up_to(b, ENT_RECORD_MAX as int) =~= b);
    let m2 = m.insert(entitlement_key(id), b);
    assert(spec_load(m2, entitlement_key(id), ENT_RECORD_MAX as int) == Ok::<Seq<u8>, ContractError>(b));
}

proof fn lemma_listing_untouched(m: Map<Seq<u8>, Seq<u8>>, id: Seq<u8>, v: Seq<u8>, listing_id: Seq<u8>)
    ensures
        spec_load_listing(m.insert(entitlement_key(id), v), listing_id) == spec_load_listing(m, listing_id),
{
    lemma_keys_distinct(id, listing_id);
    assert(spec_load(m.insert(entitlement_key(id), v), listing_key(listing_id), LISTING_RECORD_MAX as int)
        == spec_load(m, listing_key(listing_id), LISTING_RECORD_MAX as int));
}

/// After a revocation the entitlement verifies as REVOKED, whoever asks.
#[verifier::rlimit(100)]
#[verifier::spinoff_prover]
pub proof fn law_revoke_then_verify(m: Map<Seq<u8>, Seq<u8>>, data: Seq<u8>, env: HostEnv, ent_id: Seq<u8>, buyer: Seq<u8>, file_id: Seq<u8>, now: u64)
    requires
        spec_read_bytes32(data, 0) matches Some((id, _)) && id == ent_id,
        spec_revoke(m, data, env).1 is Ok,
    ensures
        verify_status(spec_revoke(m, data, env).0, ent_id, buyer, file_id, now)
            == Ok::<Seq<u8>, ContractError>(seq![1u8, STATUS_REVOKED]),
{
    let e = spec_load_entitlement(m, ent_id)->Ok_0;
    let revoked = (e.0, e.1, e.2, e.3, ENT_REVOKED);
    let d = prefix_up_to(m[entitlement_key(ent_id)], ENT_RECORD_MAX as int);
    assert(spec_decode_entitlement(d) == Some(e));
    lemma_fields_of_decoded_entitlement(d);
    lemma_entitlement_roundtrip(revoked);
    lemma_decoded_entitlement_fits(d);
    assert(prefix_up_to(entitlement_bytes(revoked), ENT_RECORD_MAX as int) =~= entitlement_bytes(revoked));
}

proof fn lemma_fields_of_decoded_entitlement(d: Seq<u8>)
    requires
        spec_decode_entitlement(d) is Some,
    ensures
        spec_decode_entitlement(d)->Some_0.0.len() <= MAX_STRING_LEN,
        spec_decode_entitlement(d)->Some_0.1.len() <= MAX_STRING_LEN,
        valid_utf8(spec_decode_entitlement(d)->Some_0.0),
        valid_utf8(spec_decode_entitlement(d)->Some_0.1),
{
    reveal(spec_decode_entitlement);
}

proof fn lemma_decoded_entitlement_fits(d: Seq<u8>)
    requires
        spec_decode_entitlement(d) is Some,
    ensures
        entitlement_bytes(spec_decode_entitlement(d)->Some_0).len() <= d.len(),
{
    reveal(spec_decode_entitlement);
}

/// A purchase from a listing that is not a subscription with a positive
/// period grants an entitlement that never expires: it is stored with
/// `expires_at == u64::MAX`, and VERIFY by its buyer for the listing's file
/// answers VALID (1) at every time, until it is revoked.
#[verifier::rlimit(100)]
#[verifier::spinoff_prover]
pub proof fn law_one_time_purchase_never_expires(m: Map<Seq<u8>, Seq<u8>>, data: Seq<u8>, env: HostEnv, listing_id: Seq<u8>, l: ListingV, now: u64)
    requires
        env.caller@.len() <= MAX_DID_LEN,
        spec_read_string(data, 0, MAX_STRING_LEN as int) matches Some((lid, _)) && lid == listing_id,
        spec_load_listing(m, listing_id) == Ok::<ListingV, ContractError>(l),
        !(l.4 == 2u8 && l.5 > 0),
        spec_purchase(m, data, env).1 is Ok,
    ensures
        spec_load_entitlement(spec_purchase(m, data, env).0, entitlement_id(env.caller@, listing_id, env.timestamp))
            == Ok::<EntitlementV, ContractError>((env.caller@, listing_id, env.timestamp, u64::MAX, 1u8)),
        verify_status(
            spec_purchase(m, data, env).0,
            entitlement_id(env.caller@, listing_id, env.timestamp),
            env.caller@,
            l.1,
            now,
        ) == Ok::<Seq<u8>, ContractError>(seq![1u8, 1u8]),
{
    law_purchase_then_verify(m, data, env, listing_id, l, now);
    let id = entitlement_id(env.caller@, listing_id, env.timestamp);
    let e = (env.caller@, listing_id, env.timestamp, expiry(l, env.timestamp), ENT_ACTIVE);
    lemma_purchase_result(m, data, env, listing_id, l);
    lemma_entitlement_stored(m, id, e, listing_id);
    assert(expiry(l, env.timestamp) == u64::MAX);
}

/// A purchase of a subscription with a positive period grants an
/// entitlement that ends `period` after the purchase: it is stored with
/// `expires_at == timestamp + period`, and VERIFY by its buyer for the
/// listing's file answers VALID (1) up to that time and EXPIRED (0) after.
#[verifier::rlimit(100)]
#[verifier::spinoff_prover]
pub proof fn law_subscription_expires_after_period(m: Map<Seq<u8>, Seq<u8>>, data: Seq<u8>, env: HostEnv, listing_id: Seq<u8>, l: ListingV, now: u64)
    requires
        env.caller@.len() <= MAX_DID_LEN,
        spec_read_string(data, 0, MAX_STRING_LEN as int) matches Some((lid, _)) && lid == listing_id,
        spec_load_listing(m, listing_id) == Ok::<ListingV, ContractError>(l),
        l.4 == 2u8,
        l.5 > 0,
        env.timestamp + l.5 < u64::MAX,
        spec_purchase(m, data, env).1 is Ok,
    ensures
        spec_load_entitlement(spec_purchase(m, data, env).0, entitlement_id(env.caller@, listing_id, env.timestamp))
            == Ok::<EntitlementV, ContractError>((env.caller@, listing_id, env.timestamp, (env.timestamp + l.5) as u64, 1u8)),
        verify_status(
            spec_purchase(m, data, env).0,
            entitlement_id(env.caller@, listing_id, env.timestamp),
            env.caller@,
            l.1,
            now,
        ) == Ok::<Seq<u8>, ContractError>(seq![1u8, if now > env.timestamp + l.5 { 0u8 } else { 1u8 }]),
{
    law_purchase_then_verify(m, data, env, listing_id, l, now);
    let id = entitlement_id(env.caller@, listing_id, env.timestamp);
    let e = (env.caller@, listing_id, env.timestamp, expiry(l, env.timestamp), ENT_ACTIVE);
    lemma_purchase_result(m, data, env, listing_id, l);
    lemma_entitlement_stored(m, id, e, listing_id);
    assert(expiry(l, env.timestamp) == env.timestamp + l.5);
}

/// PURCHASE of a listing, as a call.
pub open spec fn purchase_call(listing_id: Seq<u8>) -> Seq<u8> {
    seq![OP_PURCHASE] + spec_string_field(listing_id)
}

/// VERIFY of an entitlement for a buyer and a file, as a call.
pub open spec fn verify_call(ent_id: Seq<u8>, buyer: Seq<u8>, file_id: Seq<u8>) -> Seq<u8> {
    seq![OP_VERIFY] + ent_id + spec_string_field(buyer) + spec_string_field(file_id)
}

proof fn lemma_purchase_call(m: Map<Seq<u8>, Seq<u8>>, listing_id: Seq<u8>, env: HostEnv)
    requires
        listing_id.len() <= MAX_STRING_LEN,
        valid_utf8(listing_id),
    ensures
        spec_dispatch(m, purchase_call(listing_id), env)
            == spec_purchase(m, spec_string_field(listing_id), env),
        spec_read_string(spec_string_field(listing_id), 0, MAX_STRING_LEN as int) matches Some((lid, _)) && lid == listing_id,
{
    let c = purchase_call(listing_id);
    assert(c.subrange(1, c.len() as int) =~= spec_string_field(listing_id));
    lemma_read_string_field(Seq::<u8>::empty(), listing_id, Seq::<u8>::empty(), MAX_STRING_LEN as int);
    assert(Seq::<u8>::empty() + spec_string_field(listing_id) + Seq::<u8>::empty() =~= spec_string_field(listing_id));
}

proof fn lemma_bytes32_prefix(ent_id: Seq<u8>, rest: Seq<u8>)
    requires
        ent_id.len() == 32,
    ensures
        spec_read_bytes32(ent_id + rest, 0) == Some((ent_id, 32int)),
{
    assert((ent_id + rest).subrange(0, 32) =~= ent_id);
}

proof fn lemma_second_string(pre: Seq<u8>, file_id: Seq<u8>)
    requires
        file_id.len() <= MAX_STRING_LEN,
        valid_utf8(file_id),
    ensures
        spec_read_string(pre + spec_string_field(file_id), pre.len() as int, MAX_STRING_LEN as int)
            == Some((file_id, pre.len() + 2 + file_id.len() as int)),
{
    lemma_read_string_field(pre, file_id, Seq::<u8>::empty(), MAX_STRING_LEN as int);
    assert(pre + spec_string_field(file_id) + Seq::<u8>::empty() =~= pre + spec_string_field(file_id));
}

#[verifier::rlimit(100)]
#[verifier::spinoff_prover]
proof fn lemma_verify_parses(ent_id: Seq<u8>, buyer: Seq<u8>, file_id: Seq<u8>)
    requires
        ent_id.len() == 32,
        buyer.len() <= MAX_STRING_LEN,
        valid_utf8(buyer),
        file_id.len() <= MAX_STRING_LEN,
        valid_utf8(file_id),
    ensures
        spec_read_bytes32(ent_id + spec_string_field(buyer) + spec_string_field(file_id), 0) == Some((ent_id, 32int)),
        spec_read_string(ent_id + spec_string_field(buyer) + spec_string_field(file_id), 32, MAX_STRING_LEN as int)
            == Some((buyer, 34 + buyer.len() as int)),
        spec_read_string(ent_id + spec_string_field(buyer) + spec_string_field(file_id), 34 + buyer.len() as int, MAX_STRING_LEN as int)
            == Some((file_id, 36 + buyer.len() + file_id.len() as int)),
{
    let data = ent_id + spec_string_field(buyer) + spec_string_field(file_id);
    assert(data =~= ent_id + (spec_string_field(buyer) + spec_string_field(file_id)));
    assert(spec_read_bytes32(data, 0) == Some((ent_id, 32int))) by {
        lemma_bytes32_prefix(ent_id, spec_string_field(buyer) + spec_string_field(file_id));
    }
    assert(spec_read_string(data, 32, MAX_STRING_LEN as int) == Some((buyer, 34 + buyer.len() as int))) by {
        lemma_read_string_field(ent_id, buyer, spec_string_field(file_id), MAX_STRING_LEN as int);
    }
    let pre = ent_id + spec_string_field(buyer);
    assert(pre.len() == 34 + buyer.len()) by {
        assert(spec_string_field(buyer).len() == 2 + buyer.len());
    }
    assert(spec_read_string(data, 34 + buyer.len() as int, MAX_STRING_LEN as int)
        == Some((file_id, 36 + buyer.len() + file_id.len() as int))) by {
        lemma_second_string(pre, file_id);
    }
}

proof fn lemma_verify_parts(m: Map<Seq<u8>, Seq<u8>>, c: Seq<u8>, data: Seq<u8>, ent_id: Seq<u8>, buyer: Seq<u8>, file_id: Seq<u8>, p2: int, env: HostEnv)
    requires
        c.len() > 0,
        c[0] == OP_VERIFY,
        c.subrange(1, c.len() as int) == data,
        spec_read_bytes32(data, 0) == Some((ent_id, 32int)),
        spec_read_string(data, 32, MAX_STRING_LEN as int) == Some((buyer, p2)),
        spec_read_string(data, p2, MAX_STRING_LEN as int) matches Some((f, _)) && f == file_id,
    ensures
        spec_dispatch(m, c, env) == (m, verify_status(m, ent_id, buyer, file_id, env.timestamp)),
{
}

proof fn lemma_verify_call(m: Map<Seq<u8>, Seq<u8>>, ent_id: Seq<u8>, buyer: Seq<u8>, file_id: Seq<u8>, env: HostEnv)
    requires
        ent_id.len() == 32,
        buyer.len() <= MAX_STRING_LEN,
        valid_utf8(buyer),
        file_id.len() <= MAX_STRING_LEN,
        valid_utf8(file_id),
    ensures
        spec_dispatch(m, verify_call(ent_id, buyer, file_id), env)
            == (m, verify_status(m, ent_id, buyer, file_id, env.timestamp)),
{
    let c = verify_call(ent_id, buyer, file_id);
    let data = ent_id + spec_string_field(buyer) + spec_string_field(file_id);
    assert(c.subrange(1, c.len() as int) =~= data);
    lemma_verify_parses(ent_id, buyer, file_id);
    lemma_verify_parts(m, c, data, ent_id, buyer, file_id, 34 + buyer.len() as int, env);
}

/// Buying a one-time listing (one that is not a subscription with a
/// positive period) through the contract's calls: with the listing active
/// and the payment covering its price, PURCHASE answers `[1]` and the
/// entitlement id, and VERIFY of that id by the buyer for the listing's
/// file answers VALID (`[1, 1]`) at every later time, and WRONG_BUYER
/// (`[1, 2]`) for anyone else.
#[verifier::rlimit(100)]
#[verifier::spinoff_prover]
pub proof fn law_one_time_purchase_verifies_forever(
    m: Map<Seq<u8>, Seq<u8>>,
    listing_id: Seq<u8>,
    l: ListingV,
    buy: HostEnv,
    later: HostEnv,
    other: Seq<u8>,
)
    requires
        listing_id.len() <= MAX_STRING_LEN,
        valid_utf8(listing_id),
        spec_load_listing(m, listing_id) == Ok::<ListingV, ContractError>(l),
        l.6 != 0,
        !(l.4 == 2u8 && l.5 > 0),
        buy.msg_value >= l.2,
        0 < buy.caller@.len() <= MAX_DID_LEN,
        valid_utf8(buy.caller@),
        entitlement_id(buy.caller@, listing_id, buy.timestamp).len() == 32,
        l.1.len() <= MAX_STRING_LEN,
        valid_utf8(l.1),
        other.len() <= MAX_STRING_LEN,
        valid_utf8(other),
        other != buy.caller@,
    ensures
        spec_dispatch(m, purchase_call(listing_id), buy).1
            == Ok::<Seq<u8>, ContractError>(seq![1u8] + entitlement_id(buy.caller@, listing_id, buy.timestamp)),
        spec_dispatch(
            spec_dispatch(m, purchase_call(listing_id), buy).0,
            verify_call(entitlement_id(buy.caller@, listing_id, buy.timestamp), buy.caller@, l.1),
            later,
        ).1 == Ok::<Seq<u8>, ContractError>(seq![1u8, 1u8]),
        spec_dispatch(
            spec_dispatch(m, purchase_call(listing_id), buy).0,
            verify_call(entitlement_id(buy.caller@, listing_id, buy.timestamp), other, l.1),
            later,
        ).1 == Ok::<Seq<u8>, ContractError>(seq![1u8, 2u8]),
{
    let data = spec_string_field(listing_id);
    let id = entitlement_id(buy.caller@, listing_id, buy.timestamp);
    lemma_purchase_call(m, listing_id, buy);
    assert(spec_caller(buy, ContractError::Unauthorized) == Ok::<Seq<u8>, ContractError>(buy.caller@));
    assert(spec_purchase(m, data, buy).1 is Ok);
    law_one_time_purchase_never_expires(m, data, buy, listing_id, l, later.timestamp);
    let m1 = spec_purchase(m, data, buy).0;
    lemma_verify_call(m1, id, buy.caller@, l.1, later);
    lemma_verify_call(m1, id, other, l.1, later);
}

/// Only the publisher of an entitlement's listing revokes it: for a
/// stored entitlement whose listing is stored, a REVOKE by the listing's
/// publisher answers `[1]`, after which VERIFY answers REVOKED (4) for
/// every buyer, file and time; a REVOKE by anyone else (with a DID the
/// host names) answers `Unauthorized` and changes nothing.
#[verifier::rlimit(100)]
#[verifier::spinoff_prover]
pub proof fn law_only_publisher_revokes(
    m: Map<Seq<u8>, Seq<u8>>,
    data: Seq<u8>,
    env: HostEnv,
    ent_id: Seq<u8>,
    e: EntitlementV,
    l: ListingV,
    buyer: Seq<u8>,
    file_id: Seq<u8>,
    now: u64,
)
    requires
        spec_read_bytes32(data, 0) matches Some((id, _)) && id == ent_id,
        spec_load_entitlement(m, ent_id) == Ok::<EntitlementV, ContractError>(e),
        spec_load_listing(m, e.1) == Ok::<ListingV, ContractError>(l),
        0 < env.caller@.len(),
        valid_utf8(env.caller@),
    ensures
        env.caller@ == l.0 ==> {
            &&& spec_revoke(m, data, env).1 == Ok::<Seq<u8>, ContractError>(seq![1u8])
            &&& verify_status(spec_revoke(m, data, env).0, ent_id, buyer, file_id, now) == Ok::<Seq<u8>, ContractError>(seq![1u8, 4u8])
        },
        env.caller@ != l.0 ==> spec_revoke(m, data, env) == (m, Err::<Seq<u8>, ContractError>(ContractError::Unauthorized)),
{
    assert(spec_caller(env, ContractError::Unauthorized) == Ok::<Seq<u8>, ContractError>(env.caller@));
    if env.caller@ == l.0 {
        law_revoke_then_verify(m, data, env, ent_id, buyer, file_id, now);
    }
}

} // verus!
