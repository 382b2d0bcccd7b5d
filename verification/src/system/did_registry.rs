//! DID registry: DIDs derived from SPHINCS+ public keys, with documents
//! that their key holders register, rotate and deactivate.
//!
//! Each changing operation asks the host to check a SPHINCS+ signature:
//! `prepare` reads the call and says which check is needed, and `finish`
//! takes the host's verdict and completes the call.
use vstd::prelude::*;
use vstd::string::StringSliceAdditionalSpecFns;
use vstd::utf8::valid_utf8;
use crate::codec::{u64_le_bytes, push_u64_le, append_bytes, hex_lower, hex_encode};
use crate::crypto::{sha256, sha256_digest};
use crate::error::ContractError;
use crate::host::{spec_load, load_bytes, key_with, reply_view, reply_byte, Event, event_log, make_event, push_event};
use crate::store::{KvStore, prefix_up_to};
use crate::wire::{spec_read_u8, spec_read_u64, spec_read_bytes, spec_read_string, spec_string_field, read_u8, read_u64,
    read_bytes, read_string, write_string_wrapping, copy_range, lemma_read_string_field, lemma_read_bytes_field,
    lemma_read_u64_field, NO_LIMIT};

verus! {

pub const OP_REGISTER: u8 = 1;
pub const OP_RESOLVE: u8 = 2;
pub const OP_ROTATE: u8 = 3;
pub const OP_DEACTIVATE: u8 = 4;

pub const DOC_VERSION: u8 = 1;
pub const DOC_MAX: usize = 65536;

/// A DID document.
pub struct DidDocument {
    pub did: Vec<u8>,
    pub sphincs_pk: Vec<u8>,
    pub kyber_pk: Vec<u8>,
    pub controller: Vec<u8>,
    pub nonce: u64,
    pub active: bool,
    pub created_at: u64,
    pub updated_at: u64,
}

pub type DocV = (Seq<u8>, Seq<u8>, Seq<u8>, Seq<u8>, u64, bool, u64, u64);

impl View for DidDocument {
    type V = DocV;

    open spec fn view(&self) -> DocV {
        (self.did@, self.sphincs_pk@, self.kyber_pk@, self.controller@, self.nonce, self.active, self.created_at, self.updated_at)
    }
}

/// Stored form of a document.
pub open spec fn doc_bytes(d: DocV) -> Seq<u8> {
    seq![DOC_VERSION] + spec_string_field(d.0) + spec_string_field(d.1) + spec_string_field(d.2) + spec_string_field(d.3)
        + u64_le_bytes(d.4) + seq![if d.5 { 1u8 } else { 0u8 }] + u64_le_bytes(d.6) + u64_le_bytes(d.7)
}

/// Parses a stored document.
#[verifier::opaque]
pub open spec fn spec_decode_doc(d: Seq<u8>) -> Option<DocV> {
    match spec_read_u8(d, 0) {
        None => None,
        Some((version, p0)) => if version != DOC_VERSION {
            None
        } else {
            match spec_read_string(d, p0, NO_LIMIT as int) {
                None => None,
                Some((did, p1)) => match spec_read_bytes(d, p1) {
                    None => None,
                    Some((spk, p2)) => match spec_read_bytes(d, p2) {
                        None => None,
                        Some((kpk, p3)) => match spec_read_string(d, p3, NO_LIMIT as int) {
                            None => None,
                            Some((controller, p4)) => match spec_read_u64(d, p4) {
                                None => None,
                                Some((nonce, p5)) => match spec_read_u8(d, p5) {
                                    None => None,
                                    Some((active, p6)) => match spec_read_u64(d, p6) {
                                        None => None,
                                        Some((created, p7)) => match spec_read_u64(d, p7) {
                                            None => None,
                                            Some((updated, _)) => Some((did, spk, kpk, controller, nonce, active != 0, created, updated)),
                                        },
                                    },
                                },
                            },
                        },
                    },
                },
            }
        },
    }
}

/// The address of a key: hex of the first 20 bytes of its SHA-256 digest.
pub open spec fn address_of(sphincs_pk: Seq<u8>) -> Seq<u8> {
    hex_lower(sha256_digest(sphincs_pk).subrange(0, 20))
}

/// `did:spacekit:<network>:<address>`.
pub open spec fn did_of(network: Seq<u8>, address: Seq<u8>) -> Seq<u8> {
    "did:spacekit:".spec_bytes() + network + seq![58u8] + address
}

pub open spec fn doc_key(did: Seq<u8>) -> Seq<u8> {
    "did:document:".spec_bytes() + did
}

/// The document stored for a DID.
pub open spec fn spec_load_doc(m: Map<Seq<u8>, Seq<u8>>, did: Seq<u8>) -> Result<DocV, ContractError> {
    match spec_load(m, doc_key(did), DOC_MAX as int) {
        Err(e) => Err(e),
        Ok(raw) => match spec_decode_doc(raw) {
            None => Err(ContractError::InvalidInput),
            Some(d) => Ok(d),
        },
    }
}

/// A signature check that the host performs: public key, message and
/// signature.
pub struct SignatureCheck {
    pub public_key: Vec<u8>,
    pub message: Vec<u8>,
    pub signature: Vec<u8>,
}

pub type CheckV = (Seq<u8>, Seq<u8>, Seq<u8>);

impl View for SignatureCheck {
    type V = CheckV;

    open spec fn view(&self) -> CheckV {
        (self.public_key@, self.message@, self.signature@)
    }
}

/// A change that waits for a signature check: the check, where the
/// document goes, the document, whether its nonce advances, the reply and
/// the event that announces the change.
/// Its fields stay private, so that nothing alters the change between
/// `prepare` and `finish`.
pub struct PendingUpdate {
    check: SignatureCheck,
    key: Vec<u8>,
    document: DidDocument,
    advance_nonce: bool,
    reply: Vec<u8>,
    event: Event,
}

pub type PendingV = (CheckV, Seq<u8>, DocV, bool, Seq<u8>, (Seq<u8>, Seq<u8>));

impl View for PendingUpdate {
    type V = PendingV;

    closed spec fn view(&self) -> PendingV {
        (self.check@, self.key@, self.document@, self.advance_nonce, self.reply@, self.event@)
    }
}

impl PendingUpdate {
    /// The signature check that the change waits for.
    pub fn check(&self) -> (r: &SignatureCheck)
        ensures
            r@ == self@.0,
    {
        &self.check
    }

    /// Whether applying the change would advance a nonce that is already
    /// at its largest value (`finish` does not accept that).
    pub fn nonce_overflows(&self) -> (r: bool)
        ensures
            r == (self@.3 && self@.2.4 == u64::MAX),
    {
        self.advance_nonce && self.document.nonce == u64::MAX
    }
}

/// What reading a call gives: a reply, or a change waiting for a check.
pub enum Prepared {
    Done(Vec<u8>),
    Verify(PendingUpdate),
}

pub enum PreparedV {
    Done(Seq<u8>),
    Verify(PendingV),
}

impl View for Prepared {
    type V = PreparedV;

    open spec fn view(&self) -> PreparedV {
        match self {
            Prepared::Done(r) => PreparedV::Done(r@),
            Prepared::Verify(p) => PreparedV::Verify(p@),
        }
    }
}

/// REGISTER: the DID derived from the key must be new (`Failed`); the key
/// signs itself, the Kyber key and the network.
pub open spec fn spec_prepare_register(m: Map<Seq<u8>, Seq<u8>>, network: Seq<u8>, spk: Seq<u8>, kpk: Seq<u8>, sig: Seq<u8>) -> Result<PreparedV, ContractError> {
    let did = did_of(network, address_of(spk));
    if spec_load(m, doc_key(did), 1) is Ok {
        Err(ContractError::Failed)
    } else {
        Ok(PreparedV::Verify((
            (spk, spk + kpk + network, sig),
            doc_key(did),
            (did, spk, kpk, did, 0u64, true, 0u64, 0u64),
            false,
            seq![1u8] + spec_string_field(did),
            ("did:registered".spec_bytes(), did),
        )))
    }
}

/// ROTATE: the active document's current key signs the new keys and the
/// nonce; the new keys replace the old ones.
pub open spec fn spec_prepare_rotate(m: Map<Seq<u8>, Seq<u8>>, did: Seq<u8>, spk: Seq<u8>, kpk: Seq<u8>, sig: Seq<u8>) -> Result<PreparedV, ContractError> {
    match spec_load_doc(m, did) {
        Err(e) => Err(e),
        Ok(d) => if !d.5 {
            Err(ContractError::Failed)
        } else {
            Ok(PreparedV::Verify((
                (d.1, spk + kpk + u64_le_bytes(d.4), sig),
                doc_key(did),
                (d.0, spk, kpk, d.3, d.4, d.5, d.6, 0u64),
                true,
                seq![1u8],
                ("did:rotated".spec_bytes(), did),
            )))
        },
    }
}

/// DEACTIVATE: the active document's key signs the DID and the nonce; the
/// document becomes inactive.
pub open spec fn spec_prepare_deactivate(m: Map<Seq<u8>, Seq<u8>>, did: Seq<u8>, sig: Seq<u8>) -> Result<PreparedV, ContractError> {
    match spec_load_doc(m, did) {
        Err(e) => Err(e),
        Ok(d) => if !d.5 {
            Err(ContractError::Failed)
        } else {
            Ok(PreparedV::Verify((
                (d.1, did + u64_le_bytes(d.4), sig),
                doc_key(did),
                (d.0, d.1, d.2, d.3, d.4, false, d.6, 0u64),
                true,
                seq![1u8],
                ("did:deactivated".spec_bytes(), did),
            )))
        },
    }
}

/// RESOLVE: the active document, re-encoded.
pub open spec fn spec_resolve(m: Map<Seq<u8>, Seq<u8>>, did: Seq<u8>) -> Result<Seq<u8>, ContractError> {
    match spec_load_doc(m, did) {
        Err(e) => Err(e),
        Ok(d) => if !d.5 { Err(ContractError::Failed) } else { Ok(seq![1u8] + doc_bytes(d)) },
    }
}

pub open spec fn spec_prepare(m: Map<Seq<u8>, Seq<u8>>, input: Seq<u8>) -> Result<PreparedV, ContractError> {
    let bad = Err(ContractError::InvalidInput);
    match spec_read_u8(input, 0) {
        None => bad,
        Some((op, p)) => if op == OP_REGISTER {
            match spec_read_string(input, p, NO_LIMIT as int) {
                None => bad,
                Some((network, p1)) => match spec_read_bytes(input, p1) {
                    None => bad,
                    Some((spk, p2)) => match spec_read_bytes(input, p2) {
                        None => bad,
                        Some((kpk, p3)) => match spec_read_bytes(input, p3) {
                            None => bad,
                            Some((sig, _)) => spec_prepare_register(m, network, spk, kpk, sig),
                        },
                    },
                },
            }
        } else if op == OP_RESOLVE {
            match spec_read_string(input, p, NO_LIMIT as int) {
                None => bad,
                Some((did, _)) => match spec_resolve(m, did) {
                    Err(e) => Err(e),
                    Ok(r) => Ok(PreparedV::Done(r)),
                },
            }
        } else if op == OP_ROTATE {
            match spec_read_string(input, p, NO_LIMIT as int) {
                None => bad,
                Some((did, p1)) => match spec_read_bytes(input, p1) {
                    None => bad,
                    Some((spk, p2)) => match spec_read_bytes(input, p2) {
                        None => bad,
                        Some((kpk, p3)) => match spec_read_bytes(input, p3) {
                            None => bad,
                            Some((sig, _)) => spec_prepare_rotate(m, did, spk, kpk, sig),
                        },
                    },
                },
            }
        } else if op == OP_DEACTIVATE {
            match spec_read_string(input, p, NO_LIMIT as int) {
                None => bad,
                Some((did, p1)) => match spec_read_bytes(input, p1) {
                    None => bad,
                    Some((sig, _)) => spec_prepare_deactivate(m, did, sig),
                },
            }
        } else {
            bad
        }
    }
}

/// The document that a pending change stores.
pub open spec fn updated_doc(p: PendingV) -> DocV {
    let d = p.2;
    if p.3 { (d.0, d.1, d.2, d.3, (d.4 + 1) as u64, d.5, d.6, d.7) } else { d }
}

/// Completing a change with the host's verdict on its signature: a bad
/// signature is a `HostError` and nothing changes; a good one stores the
/// document (its nonce advanced where the change says so).
pub open spec fn spec_finish(m: Map<Seq<u8>, Seq<u8>>, p: PendingV, valid: bool) -> (Map<Seq<u8>, Seq<u8>>, Result<Seq<u8>, ContractError>) {
    if !valid {
        (m, Err(ContractError::HostError))
    } else {
        (m.insert(p.1, doc_bytes(updated_doc(p))), Ok(p.4))
    }
}

/// The event of a completed change: the pending change's event, when the
/// signature is good.
pub open spec fn finish_events(p: PendingV, valid: bool) -> Seq<(Seq<u8>, Seq<u8>)> {
    if valid { seq![p.5] } else { seq![] }
}

/// Encodes a document for storage.
pub fn encode_did_document(doc: &DidDocument) -> (r: Vec<u8>)
    ensures
        r@ == doc_bytes(doc@),
{
    let mut buf: Vec<u8> = Vec::new();
    buf.push(DOC_VERSION);
    write_string_wrapping(&mut buf, doc.did.as_slice());
    write_string_wrapping(&mut buf, doc.sphincs_pk.as_slice());
    write_string_wrapping(&mut buf, doc.kyber_pk.as_slice());
    write_string_wrapping(&mut buf, doc.controller.as_slice());
    push_u64_le(&mut buf, doc.nonce);
    buf.push(if doc.active { 1u8 } else { 0u8 });
    push_u64_le(&mut buf, doc.created_at);
    push_u64_le(&mut buf, doc.updated_at);
    assert(buf@ =~= doc_bytes(doc@));
    buf
}

/// Parses a stored document.
pub fn decode_did_document(data: &[u8]) -> (r: Result<DidDocument, ContractError>)
    ensures
        match spec_decode_doc(data@) {
            None => r == Err::<DidDocument, ContractError>(ContractError::InvalidInput),
            Some(d) => r matches Ok(x) && x@ == d,
        },
{
    reveal(spec_decode_doc);
    let mut cursor: usize = 0;
    let version = read_u8(data, &mut cursor)?;
    if version != DOC_VERSION {
        return Err(ContractError::InvalidInput);
    }
    let did = read_string(data, &mut cursor, NO_LIMIT)?;
    let sphincs_pk = read_bytes(data, &mut cursor)?;
    let kyber_pk = read_bytes(data, &mut cursor)?;
    let controller = read_string(data, &mut cursor, NO_LIMIT)?;
    let nonce = read_u64(data, &mut cursor)?;
    let active = read_u8(data, &mut cursor)? != 0;
    let created_at = read_u64(data, &mut cursor)?;
    let updated_at = read_u64(data, &mut cursor)?;
    Ok(DidDocument { did, sphincs_pk, kyber_pk, controller, nonce, active, created_at, updated_at })
}

/// The address of a SPHINCS+ public key.
pub fn derive_address(sphincs_pk: &[u8]) -> (r: Vec<u8>)
    ensures
        r@ == address_of(sphincs_pk@),
{
    let hash = sha256(sphincs_pk);
    let head = copy_range(hash.as_slice(), 0, 20);
    hex_encode(head.as_slice())
}

/// `did:spacekit:<network>:<address>`.
pub fn build_did(network: &[u8], address: &[u8]) -> (r: Vec<u8>)
    ensures
        r@ == did_of(network@, address@),
{
    let mut did = key_with("did:spacekit:", network);
    did.push(58u8);
    append_bytes(&mut did, address);
    did
}

fn did_storage_key(did: &[u8]) -> (r: Vec<u8>)
    ensures
        r@ == doc_key(did@),
{
    key_with("did:document:", did)
}

fn load_doc(store: &KvStore, did: &[u8]) -> (r: Result<DidDocument, ContractError>)
    requires
        store.wf(),
    ensures
        match spec_load_doc(store@, did@) {
            Err(e) => r == Err::<DidDocument, ContractError>(e),
            Ok(d) => r matches Ok(x) && x@ == d,
        },
{
    let key = did_storage_key(did);
    let raw = load_bytes(store, key.as_slice(), DOC_MAX)?;
    decode_did_document(raw.as_slice())
}

fn concat3(a: &[u8], b: &[u8], c: &[u8]) -> (r: Vec<u8>)
    ensures
        r@ == a@ + b@ + c@,
{
    let mut out: Vec<u8> = Vec::new();
    append_bytes(&mut out, a);
    append_bytes(&mut out, b);
    append_bytes(&mut out, c);
    assert(Seq::<u8>::empty() + a@ == a@);
    out
}

fn copy_bytes(x: &[u8]) -> (r: Vec<u8>)
    ensures
        r@ == x@,
{
    let r = copy_range(x, 0, x.len());
    assert(x@.subrange(0, x@.len() as int) =~= x@);
    r
}

/// REGISTER, up to the signature check.
pub fn handle_register(store: &KvStore, network: &[u8], sphincs_pk: Vec<u8>, kyber_pk: Vec<u8>, signature: Vec<u8>) -> (r: Result<Prepared, ContractError>)
    requires
        store.wf(),
    ensures
        match r {
            Ok(p) => spec_prepare_register(store@, network@, sphincs_pk@, kyber_pk@, signature@) == Ok::<PreparedV, ContractError>(p@),
            Err(e) => spec_prepare_register(store@, network@, sphincs_pk@, kyber_pk@, signature@) == Err::<PreparedV, ContractError>(e),
        },
{
    let address = derive_address(sphincs_pk.as_slice());
    let did = build_did(network, address.as_slice());
    let key = did_storage_key(did.as_slice());
    if load_bytes(store, key.as_slice(), 1).is_ok() {
        return Err(ContractError::Failed);
    }
    let message = concat3(sphincs_pk.as_slice(), kyber_pk.as_slice(), network);
    let mut reply = reply_byte(1);
    write_string_wrapping(&mut reply, did.as_slice());
    let event = make_event("did:registered", did.as_slice());
    let document = DidDocument {
        did: copy_bytes(did.as_slice()),
        sphincs_pk: copy_bytes(sphincs_pk.as_slice()),
        kyber_pk,
        controller: did,
        nonce: 0,
        active: true,
        created_at: 0,
        updated_at: 0,
    };
    let check = SignatureCheck { public_key: sphincs_pk, message, signature };
    Ok(Prepared::Verify(PendingUpdate { check, key, document, advance_nonce: false, reply, event }))
}

/// RESOLVE: the active document of a DID.
pub fn handle_resolve(store: &KvStore, did: &[u8]) -> (r: Result<Vec<u8>, ContractError>)
    requires
        store.wf(),
    ensures
        reply_view(r) == spec_resolve(store@, did@),
{
    let doc = load_doc(store, did)?;
    if !doc.active {
        return Err(ContractError::Failed);
    }
    let mut out = reply_byte(1);
    let encoded = encode_did_document(&doc);
    append_bytes(&mut out, encoded.as_slice());
    Ok(out)
}

/// ROTATE, up to the signature check.
pub fn handle_rotate(store: &KvStore, did: &[u8], new_sphincs_pk: Vec<u8>, new_kyber_pk: Vec<u8>, signature: Vec<u8>) -> (r: Result<Prepared, ContractError>)
    requires
        store.wf(),
    ensures
        match r {
            Ok(p) => spec_prepare_rotate(store@, did@, new_sphincs_pk@, new_kyber_pk@, signature@) == Ok::<PreparedV, ContractError>(p@),
            Err(e) => spec_prepare_rotate(store@, did@, new_sphincs_pk@, new_kyber_pk@, signature@) == Err::<PreparedV, ContractError>(e),
        },
{
    let doc = load_doc(store, did)?;
    if !doc.active {
        return Err(ContractError::Failed);
    }
    let mut message = concat3(new_sphincs_pk.as_slice(), new_kyber_pk.as_slice(), &[]);
    push_u64_le(&mut message, doc.nonce);
    assert(message@ =~= new_sphincs_pk@ + new_kyber_pk@ + u64_le_bytes(doc.nonce));
    let key = did_storage_key(did);
    let check = SignatureCheck { public_key: doc.sphincs_pk, message, signature };
    let document = DidDocument {
        did: doc.did,
        sphincs_pk: new_sphincs_pk,
        kyber_pk: new_kyber_pk,
        controller: doc.controller,
        nonce: doc.nonce,
        active: doc.active,
        created_at: doc.created_at,
        updated_at: 0,
    };
    let event = make_event("did:rotated", did);
    Ok(Prepared::Verify(PendingUpdate { check, key, document, advance_nonce: true, reply: reply_byte(1), event }))
}

/// DEACTIVATE, up to the signature check.
pub fn handle_deactivate(store: &KvStore, did: &[u8], signature: Vec<u8>) -> (r: Result<Prepared, ContractError>)
    requires
        store.wf(),
    ensures
        match r {
            Ok(p) => spec_prepare_deactivate(store@, did@, signature@) == Ok::<PreparedV, ContractError>(p@),
            Err(e) => spec_prepare_deactivate(store@, did@, signature@) == Err::<PreparedV, ContractError>(e),
        },
{
    let doc = load_doc(store, did)?;
    if !doc.active {
        return Err(ContractError::Failed);
    }
    let mut message = copy_bytes(did);
    push_u64_le(&mut message, doc.nonce);
    let key = did_storage_key(did);
    let public_key = copy_bytes(doc.sphincs_pk.as_slice());
    let check = SignatureCheck { public_key, message, signature };
    let document = DidDocument {
        did: doc.did,
        sphincs_pk: doc.sphincs_pk,
        kyber_pk: doc.kyber_pk,
        controller: doc.controller,
        nonce: doc.nonce,
        active: false,
        created_at: doc.created_at,
        updated_at: 0,
    };
    let event = make_event("did:deactivated", did);
    Ok(Prepared::Verify(PendingUpdate { check, key, document, advance_nonce: true, reply: reply_byte(1), event }))
}

/// Reads a call: the reply of RESOLVE, or the change that waits for a
/// signature check.
pub fn prepare(store: &KvStore, input: &[u8]) -> (r: Result<Prepared, ContractError>)
    requires
        store.wf(),
    ensures
        match r {
            Ok(p) => spec_prepare(store@, input@) == Ok::<PreparedV, ContractError>(p@),
            Err(e) => spec_prepare(store@, input@) == Err::<PreparedV, ContractError>(e),
        },
{
    let mut cursor: usize = 0;
    let op = read_u8(input, &mut cursor)?;
    if op == OP_REGISTER {
        let network = read_string(input, &mut cursor, NO_LIMIT)?;
        let sphincs_pk = read_bytes(input, &mut cursor)?;
        let kyber_pk = read_bytes(input, &mut cursor)?;
        let signature = read_bytes(input, &mut cursor)?;
        handle_register(store, network.as_slice(), sphincs_pk, kyber_pk, signature)
    } else if op == OP_RESOLVE {
        let did = read_string(input, &mut cursor, NO_LIMIT)?;
        let reply = handle_resolve(store, did.as_slice())?;
        Ok(Prepared::Done(reply))
    } else if op == OP_ROTATE {
        let did = read_string(input, &mut cursor, NO_LIMIT)?;
        let sphincs_pk = read_bytes(input, &mut cursor)?;
        let kyber_pk = read_bytes(input, &mut cursor)?;
        let signature = read_bytes(input, &mut cursor)?;
        handle_rotate(store, did.as_slice(), sphincs_pk, kyber_pk, signature)
    } else if op == OP_DEACTIVATE {
        let did = read_string(input, &mut cursor, NO_LIMIT)?;
        let signature = read_bytes(input, &mut cursor)?;
        handle_deactivate(store, did.as_slice(), signature)
    } else {
        Err(ContractError::InvalidInput)
    }
}

/// Completes a change with the host's verdict on its signature check,
/// appending the change's event to `events` when it goes through.
pub fn finish(store: &mut KvStore, pending: PendingUpdate, signature_valid: bool, events: &mut Vec<Event>) -> (r: Result<Vec<u8>, ContractError>)
    requires
        old(store).wf(),
        signature_valid && pending@.3 ==> pending@.2.4 < u64::MAX,
    ensures
        final(store).wf(),
        (final(store)@, reply_view(r)) == spec_finish(old(store)@, pending@, signature_valid),
        event_log(final(events)@) == event_log(old(events)@) + finish_events(pending@, signature_valid),
{
    if !signature_valid {
        return Err(ContractError::HostError);
    }
    let mut doc = pending.document;
    if pending.advance_nonce {
        doc.nonce = doc.nonce + 1;
    }
    let encoded = encode_did_document(&doc);
    store.save(pending.key.as_slice(), encoded.as_slice());
    push_event(events, pending.event);
    Ok(pending.reply)
}

/// The texts and sizes of a document that its stored form can hold.
pub open spec fn doc_ok(d: DocV) -> bool {
    &&& valid_utf8(d.0) && d.0.len() <= NO_LIMIT
    &&& d.1.len() <= NO_LIMIT
    &&& d.2.len() <= NO_LIMIT
    &&& valid_utf8(d.3) && d.3.len() <= NO_LIMIT
}

spec fn doc_tail(d: DocV) -> Seq<u8> {
    u64_le_bytes(d.4) + seq![if d.5 { 1u8 } else { 0u8 }] + u64_le_bytes(d.6) + u64_le_bytes(d.7)
}

#[verifier::rlimit(100)]
#[verifier::spinoff_prover]
proof fn doc_step_did(d: DocV)
    requires
        doc_ok(d),
    ensures
        spec_read_string(doc_bytes(d), 1, NO_LIMIT as int) == Some((d.0, (1 + spec_string_field(d.0).len()) as int)),
{
    let rest = spec_string_field(d.1) + spec_string_field(d.2) + spec_string_field(d.3) + doc_tail(d);
    assert(doc_bytes(d) =~= seq![DOC_VERSION] + spec_string_field(d.0) + rest);
    lemma_read_string_field(seq![DOC_VERSION], d.0, rest, NO_LIMIT as int);
}

#[verifier::rlimit(100)]
#[verifier::spinoff_prover]
proof fn doc_step_keys(d: DocV)
    requires
        doc_ok(d),
    ensures
        ({
            let p1 = (1 + spec_string_field(d.0).len()) as int;
            let p2 = p1 + spec_string_field(d.1).len();
            let p3 = p2 + spec_string_field(d.2).len();
            &&& spec_read_bytes(doc_bytes(d), p1) == Some((d.1, p2))
            &&& spec_read_bytes(doc_bytes(d), p2) == Some((d.2, p3))
        }),
{
    let pre1 = seq![DOC_VERSION] + spec_string_field(d.0);
    let rest1 = spec_string_field(d.2) + spec_string_field(d.3) + doc_tail(d);
    assert(doc_bytes(d) =~= pre1 + spec_string_field(d.1) + rest1);
    lemma_read_bytes_field(pre1, d.1, rest1);
    let pre2 = pre1 + spec_string_field(d.1);
    let rest2 = spec_string_field(d.3) + doc_tail(d);
    assert(doc_bytes(d) =~= pre2 + spec_string_field(d.2) + rest2);
    lemma_read_bytes_field(pre2, d.2, rest2);
}

#[verifier::rlimit(100)]
#[verifier::spinoff_prover]
proof fn doc_step_controller(d: DocV)
    requires
        doc_ok(d),
    ensures
        ({
            let p3 = (1 + spec_string_field(d.0).len() + spec_string_field(d.1).len() + spec_string_field(d.2).len()) as int;
            spec_read_string(doc_bytes(d), p3, NO_LIMIT as int) == Some((d.3, p3 + spec_string_field(d.3).len()))
        }),
{
    let pre = seq![DOC_VERSION] + spec_string_field(d.0) + spec_string_field(d.1) + spec_string_field(d.2);
    assert(doc_bytes(d) =~= pre + spec_string_field(d.3) + doc_tail(d));
    lemma_read_string_field(pre, d.3, doc_tail(d), NO_LIMIT as int);
}

#[verifier::rlimit(100)]
#[verifier::spinoff_prover]
proof fn doc_step_numbers(d: DocV)
    ensures
        ({
            let p4 = (1 + spec_string_field(d.0).len() + spec_string_field(d.1).len() + spec_string_field(d.2).len()
                + spec_string_field(d.3).len()) as int;
            &&& spec_read_u64(doc_bytes(d), p4) == Some((d.4, p4 + 8))
            &&& spec_read_u8(doc_bytes(d), p4 + 8) == Some((if d.5 { 1u8 } else { 0u8 }, p4 + 9))
            &&& spec_read_u64(doc_bytes(d), p4 + 9) == Some((d.6, p4 + 17))
            &&& spec_read_u64(doc_bytes(d), p4 + 17) == Some((d.7, p4 + 25))
            &&& doc_bytes(d).len() == p4 + 25
        }),
{
    let pre = seq![DOC_VERSION] + spec_string_field(d.0) + spec_string_field(d.1) + spec_string_field(d.2) + spec_string_field(d.3);
    let a = seq![if d.5 { 1u8 } else { 0u8 }];
    let u4 = u64_le_bytes(d.4);
    let u6 = u64_le_bytes(d.6);
    let u7 = u64_le_bytes(d.7);
    assert(doc_bytes(d) =~= pre + u4 + (a + u6 + u7));
    lemma_read_u64_field(pre, d.4, a + u6 + u7);
    assert(doc_bytes(d) =~= (pre + u4 + a) + u6 + u7);
    lemma_read_u64_field(pre + u4 + a, d.6, u7);
    assert(doc_bytes(d) =~= (pre + u4 + a + u6) + u7 + Seq::<u8>::empty());
    lemma_read_u64_field(pre + u4 + a + u6, d.7, Seq::<u8>::empty());
}

/// A stored document parses back to itself.
#[verifier::rlimit(100)]
#[verifier::spinoff_prover]
pub proof fn lemma_doc_roundtrip(d: DocV)
    requires
        doc_ok(d),
    ensures
        spec_decode_doc(doc_bytes(d)) == Some(d),
{
    reveal(spec_decode_doc);
    doc_step_did(d);
    doc_step_keys(d);
    doc_step_controller(d);
    doc_step_numbers(d);
}

proof fn lemma_decoded_doc_fits(raw: Seq<u8>)
    requires
        spec_decode_doc(raw) is Some,
    ensures
        doc_ok(spec_decode_doc(raw)->Some_0),
        doc_bytes(spec_decode_doc(raw)->Some_0).len() <= raw.len(),
{
    reveal(spec_decode_doc);
}

/// A change completed with a good signature is what RESOLVE then answers,
/// as long as the document stays active and fits the size read back.
#[verifier::rlimit(100)]
#[verifier::spinoff_prover]
pub proof fn law_finish_then_resolve(m: Map<Seq<u8>, Seq<u8>>, p: PendingV, did: Seq<u8>)
    requires
        p.1 == doc_key(did),
        doc_ok(updated_doc(p)),
        updated_doc(p).5,
        doc_bytes(updated_doc(p)).len() <= DOC_MAX,
    ensures
        spec_resolve(spec_finish(m, p, true).0, did) == Ok::<Seq<u8>, ContractError>(seq![1u8] + doc_bytes(updated_doc(p))),
{
    let d = updated_doc(p);
    lemma_doc_roundtrip(d);
    assert(prefix_up_to(doc_bytes(d), DOC_MAX as int) =~= doc_bytes(d));
}

/// After a deactivation goes through, the DID no longer resolves, and any
/// later rotation or deactivation of it fails.
#[verifier::rlimit(100)]
#[verifier::spinoff_prover]
pub proof fn law_deactivate_then_resolve_fails(
    m: Map<Seq<u8>, Seq<u8>>,
    did: Seq<u8>,
    sig: Seq<u8>,
    new_spk: Seq<u8>,
    new_kpk: Seq<u8>,
    later_sig: Seq<u8>,
)
    requires
        spec_prepare_deactivate(m, did, sig) matches Ok(PreparedV::Verify(p)) && p.2.4 < u64::MAX,
    ensures
        spec_prepare_deactivate(m, did, sig) matches Ok(PreparedV::Verify(p)) && {
            let m2 = spec_finish(m, p, true).0;
            &&& spec_resolve(m2, did) == Err::<Seq<u8>, ContractError>(ContractError::Failed)
            &&& spec_prepare_rotate(m2, did, new_spk, new_kpk, later_sig) == Err::<PreparedV, ContractError>(ContractError::Failed)
            &&& spec_prepare_deactivate(m2, did, later_sig) == Err::<PreparedV, ContractError>(ContractError::Failed)
        },
{
    let d = spec_load_doc(m, did)->Ok_0;
    let raw = prefix_up_to(m[doc_key(did)], DOC_MAX as int);
    assert(spec_decode_doc(raw) == Some(d));
    lemma_decoded_doc_fits(raw);
    let p = spec_prepare_deactivate(m, did, sig)->Ok_0->Verify_0;
    let nd = updated_doc(p);
    assert(doc_bytes(nd).len() == doc_bytes(d).len());
    lemma_doc_roundtrip(nd);
    assert(prefix_up_to(doc_bytes(nd), DOC_MAX as int) =~= doc_bytes(nd));
}

/// A bad signature changes nothing.
pub proof fn law_bad_signature_changes_nothing(m: Map<Seq<u8>, Seq<u8>>, p: PendingV)
    ensures
        spec_finish(m, p, false) == (m, Err::<Seq<u8>, ContractError>(ContractError::HostError)),
{
}

/// Registering a new DID: when no document is stored for the DID derived
/// from the key, REGISTER asks the host to check the key's signature over
/// the key, the Kyber key and the network; with a good signature the reply
/// is `[1]` and the DID field, and RESOLVE then answers the new active
/// document (the DID as its own controller, nonce 0); with a bad one
/// nothing changes. A DID that already has a document is refused
/// (`Failed`).
pub proof fn law_register_then_resolve(m: Map<Seq<u8>, Seq<u8>>, network: Seq<u8>, spk: Seq<u8>, kpk: Seq<u8>, sig: Seq<u8>)
    requires
        doc_ok((did_of(network, address_of(spk)), spk, kpk, did_of(network, address_of(spk)), 0u64, true, 0u64, 0u64)),
        doc_bytes((did_of(network, address_of(spk)), spk, kpk, did_of(network, address_of(spk)), 0u64, true, 0u64, 0u64)).len() <= DOC_MAX,
    ensures ({
        let did = did_of(network, address_of(spk));
        let doc = (did, spk, kpk, did, 0u64, true, 0u64, 0u64);
        &&& spec_load(m, doc_key(did), 1) is Ok ==> spec_prepare_register(m, network, spk, kpk, sig) == Err::<PreparedV, ContractError>(ContractError::Failed)
        &&& spec_load(m, doc_key(did), 1) is Err ==> (spec_prepare_register(m, network, spk, kpk, sig) matches Ok(PreparedV::Verify(p)) && {
            &&& p.0 == (spk, spk + kpk + network, sig)
            &&& spec_finish(m, p, true).1 == Ok::<Seq<u8>, ContractError>(seq![1u8] + spec_string_field(did))
            &&& spec_resolve(spec_finish(m, p, true).0, did) == Ok::<Seq<u8>, ContractError>(seq![1u8] + doc_bytes(doc))
            &&& spec_finish(m, p, false) == (m, Err::<Seq<u8>, ContractError>(ContractError::HostError))
        })
    }),
{
    let did = did_of(network, address_of(spk));
    if spec_load(m, doc_key(did), 1) is Err {
        let p = spec_prepare_register(m, network, spk, kpk, sig)->Ok_0->Verify_0;
        law_finish_then_resolve(m, p, did);
    }
}

} // verus!
