//! Shared vaults: an owner shares a file with members; others request
//! access and are let in once enough members approve.
use vstd::prelude::*;
use vstd::string::StringSliceAdditionalSpecFns;
use vstd::utf8::valid_utf8;
use crate::codec::{le_u64, u64_le_bytes, push_u64_le, append_bytes, hex_lower, hex_encode, decode_u64_at};
use crate::crypto::{sha256, sha256_digest};
use crate::error::ContractError;
use crate::host::{HostEnv, spec_caller, get_caller, spec_load, load_bytes, key_with, reply_view, reply_byte};
use crate::store::{KvStore, bytes_equal, prefix_up_to};
use crate::wire::{spec_read_u8, spec_read_string, spec_string_field, read_u8, read_string, write_string_wrapping,
    lemma_read_string_field, lemma_read_u64_field, copy_range};

verus! {

pub const OP_CREATE_VAULT: u8 = 1;
pub const OP_ADD_MEMBER: u8 = 2;
pub const OP_REMOVE_MEMBER: u8 = 3;
pub const OP_REQUEST_ACCESS: u8 = 4;
pub const OP_APPROVE_ACCESS: u8 = 5;
pub const OP_CHECK_ACCESS: u8 = 6;
pub const OP_RESOLVE_VAULT: u8 = 7;

pub const VAULT_VERSION: u8 = 1;
pub const MAX_MEMBERS: usize = 64;
pub const MAX_DID_LEN: usize = 128;
pub const VAULT_RECORD_MAX: usize = 8192;
pub const REQUEST_RECORD_MAX: usize = 4096;

/// The views of a list of byte strings.
pub open spec fn texts(v: Seq<Vec<u8>>) -> Seq<Seq<u8>> {
    Seq::new(v.len(), |i: int| v[i]@)
}

/// A vault: owner, shared file, approval threshold, members and creation
/// time.
pub struct Vault {
    pub owner_did: Vec<u8>,
    pub file_id: Vec<u8>,
    pub threshold: u8,
    pub members: Vec<Vec<u8>>,
    pub created_at: u64,
}

pub type VaultV = (Seq<u8>, Seq<u8>, u8, Seq<Seq<u8>>, u64);

impl View for Vault {
    type V = VaultV;

    open spec fn view(&self) -> VaultV {
        (self.owner_did@, self.file_id@, self.threshold, texts(self.members@), self.created_at)
    }
}

/// A request for access: who asks, who approved, and when it was made.
pub struct AccessRequest {
    pub requester_did: Vec<u8>,
    pub approvals: Vec<Vec<u8>>,
    pub requested_at: u64,
}

pub type AccessRequestV = (Seq<u8>, Seq<Seq<u8>>, u64);

impl View for AccessRequest {
    type V = AccessRequestV;

    open spec fn view(&self) -> AccessRequestV {
        (self.requester_did@, texts(self.approvals@), self.requested_at)
    }
}

/// The string fields of a list, one after another.
pub open spec fn fields_bytes(xs: Seq<Seq<u8>>) -> Seq<u8>
    decreases xs.len(),
{
    if xs.len() == 0 {
        Seq::empty()
    } else {
        fields_bytes(xs.drop_last()) + spec_string_field(xs.last())
    }
}

/// Stored form of a vault: version byte, owner, file, threshold, member
/// count (as a byte), members, creation time.
pub open spec fn vault_bytes(v: VaultV) -> Seq<u8> {
    seq![VAULT_VERSION] + spec_string_field(v.0) + spec_string_field(v.1) + seq![v.2, (v.3.len() % 256) as u8]
        + fields_bytes(v.3) + u64_le_bytes(v.4)
}

/// Stored form of an access request.
pub open spec fn request_bytes(r: AccessRequestV) -> Seq<u8> {
    spec_string_field(r.0) + seq![(r.1.len() % 256) as u8] + fields_bytes(r.1) + u64_le_bytes(r.2)
}

/// `n` string fields of at most `limit` bytes from `pos`.
pub open spec fn spec_read_strings(d: Seq<u8>, pos: int, n: nat, limit: int) -> Option<(Seq<Seq<u8>>, int)>
    decreases n,
{
    if n == 0 {
        Some((Seq::empty(), pos))
    } else {
        match spec_read_strings(d, pos, (n - 1) as nat, limit) {
            None => None,
            Some((xs, p)) => match spec_read_string(d, p, limit) {
                None => None,
                Some((x, p2)) => Some((xs.push(x), p2)),
            },
        }
    }
}

/// Whether a text differs from `member`.
pub open spec fn other_than(member: Seq<u8>) -> spec_fn(Seq<u8>) -> bool {
    |x: Seq<u8>| x != member
}

/// The eight bytes at `pos` as a `u64`, or 0 when fewer remain.
pub open spec fn trailing_u64(d: Seq<u8>, pos: int) -> u64 {
    if 0 <= pos && pos + 8 <= d.len() {
        le_u64(d.subrange(pos, pos + 8))
    } else {
        0
    }
}

/// Parses a stored vault.
#[verifier::opaque]
pub open spec fn spec_decode_vault(d: Seq<u8>) -> Option<VaultV> {
    if d.len() == 0 || d[0] != VAULT_VERSION {
        None
    } else {
        match spec_read_string(d, 1, MAX_DID_LEN as int) {
            None => None,
            Some((owner, p1)) => match spec_read_string(d, p1, MAX_DID_LEN as int) {
                None => None,
                Some((file_id, p2)) => if p2 + 1 >= d.len() {
                    None
                } else {
                    match spec_read_strings(d, p2 + 2, d[p2 + 1] as nat, MAX_DID_LEN as int) {
                        None => None,
                        Some((members, p3)) => Some((owner, file_id, d[p2], members, trailing_u64(d, p3))),
                    }
                },
            },
        }
    }
}

/// Parses a stored access request.
#[verifier::opaque]
pub open spec fn spec_decode_request(d: Seq<u8>) -> Option<AccessRequestV> {
    match spec_read_string(d, 0, MAX_DID_LEN as int) {
        None => None,
        Some((requester, p1)) => if p1 >= d.len() {
            None
        } else {
            match spec_read_strings(d, p1 + 1, d[p1] as nat, MAX_DID_LEN as int) {
                None => None,
                Some((approvals, p2)) => Some((requester, approvals, trailing_u64(d, p2))),
            }
        },
    }
}

pub open spec fn vault_key(vault_id: Seq<u8>) -> Seq<u8> {
    "vault:".spec_bytes() + vault_id
}

/// The key of a DID's access request: the vault's key, `:access:` and the
/// hex of the first eight bytes of the DID's SHA-256 digest.
pub open spec fn access_key(vault_id: Seq<u8>, did: Seq<u8>) -> Seq<u8> {
    "vault:".spec_bytes() + vault_id + ":access:".spec_bytes() + hex_lower(sha256_digest(did).subrange(0, 8))
}

/// The id of a vault: the hex of the SHA-256 digest of owner and file.
pub open spec fn vault_id_of(owner: Seq<u8>, file_id: Seq<u8>) -> Seq<u8> {
    hex_lower(sha256_digest(owner + file_id))
}

/// The vault stored under an id.
pub open spec fn spec_load_vault(m: Map<Seq<u8>, Seq<u8>>, vault_id: Seq<u8>) -> Result<VaultV, ContractError> {
    match spec_load(m, vault_key(vault_id), VAULT_RECORD_MAX as int) {
        Err(_) => Err(ContractError::HostError),
        Ok(d) => match spec_decode_vault(d) {
            None => Err(ContractError::InvalidInput),
            Some(v) => Ok(v),
        },
    }
}

/// The access request stored under a key.
pub open spec fn spec_load_request(m: Map<Seq<u8>, Seq<u8>>, key: Seq<u8>) -> Result<AccessRequestV, ContractError> {
    match spec_load(m, key, REQUEST_RECORD_MAX as int) {
        Err(_) => Err(ContractError::HostError),
        Ok(d) => match spec_decode_request(d) {
            None => Err(ContractError::InvalidInput),
            Some(r) => Ok(r),
        },
    }
}

/// Appends string fields.
fn write_fields(out: &mut Vec<u8>, xs: &Vec<Vec<u8>>)
    ensures
        final(out)@ == old(out)@ + fields_bytes(texts(xs@)),
{
    let mut i: usize = 0;
    while i < xs.len()
        invariant
            i <= xs@.len(),
            out@ == old(out)@ + fields_bytes(texts(xs@).take(i as int)),
        decreases xs@.len() - i,
    {
        write_string_wrapping(out, xs[i].as_slice());
        proof {
            let t = texts(xs@).take(i + 1);
            assert(t.drop_last() =~= texts(xs@).take(i as int));
            assert(t.last() == xs@[i as int]@);
        }
        i = i + 1;
    }
    assert(texts(xs@).take(xs@.len() as int) =~= texts(xs@));
}

/// Encodes a vault for storage.
pub fn encode_vault(v: &Vault) -> (r: Vec<u8>)
    ensures
        r@ == vault_bytes(v@),
{
    let mut out: Vec<u8> = Vec::new();
    out.push(VAULT_VERSION);
    write_string_wrapping(&mut out, v.owner_did.as_slice());
    write_string_wrapping(&mut out, v.file_id.as_slice());
    out.push(v.threshold);
    out.push((v.members.len() % 256) as u8);
    write_fields(&mut out, &v.members);
    push_u64_le(&mut out, v.created_at);
    assert(out@ =~= vault_bytes(v@));
    out
}

/// Encodes an access request for storage.
pub fn encode_access_request(r: &AccessRequest) -> (out: Vec<u8>)
    ensures
        out@ == request_bytes(r@),
{
    let mut out: Vec<u8> = Vec::new();
    write_string_wrapping(&mut out, r.requester_did.as_slice());
    out.push((r.approvals.len() % 256) as u8);
    write_fields(&mut out, &r.approvals);
    push_u64_le(&mut out, r.requested_at);
    assert(out@ =~= request_bytes(r@));
    out
}

/// Reads `n` string fields and advances the cursor.
fn read_strings(data: &[u8], cursor: &mut usize, n: u8) -> (r: Result<Vec<Vec<u8>>, ContractError>)
    ensures
        match spec_read_strings(data@, *old(cursor) as int, n as nat, MAX_DID_LEN as int) {
            Some((xs, p)) => r matches Ok(v) && texts(v@) == xs && *final(cursor) == p,
            None => r == Err::<Vec<Vec<u8>>, ContractError>(ContractError::InvalidInput),
        },
{
    let ghost start = *cursor;
    let mut out: Vec<Vec<u8>> = Vec::new();
    let mut i: u8 = 0;
    while i < n
        invariant
            start == *old(cursor),
            i <= n,
            spec_read_strings(data@, start as int, i as nat, MAX_DID_LEN as int) == Some((texts(out@), *cursor as int)),
        decreases n - i,
    {
        let ghost before = texts(out@);
        let x = match read_string(data, cursor, MAX_DID_LEN) {
            Ok(x) => x,
            Err(e) => {
                proof {
                    lemma_read_strings_stuck(data@, start as int, i as nat, (n - i) as nat);
                }
                return Err(e);
            },
        };
        out.push(x);
        i = i + 1;
        proof {
            assert(texts(out@) =~= before.push(x@));
        }
    }
    Ok(out)
}

/// Once a read of strings fails, reading more fails too.
proof fn lemma_read_strings_stuck(d: Seq<u8>, pos: int, i: nat, more: nat)
    requires
        spec_read_strings(d, pos, i, MAX_DID_LEN as int) matches Some((xs, p)) && spec_read_string(d, p, MAX_DID_LEN as int) is None,
        more >= 1,
    ensures
        spec_read_strings(d, pos, i + more, MAX_DID_LEN as int) is None,
    decreases more,
{
    if more > 1 {
        lemma_read_strings_stuck(d, pos, i, (more - 1) as nat);
        assert(spec_read_strings(d, pos, (i + more - 1) as nat, MAX_DID_LEN as int) is None);
    }
}

/// The eight bytes at `pos` as a `u64`, or 0 when fewer remain.
fn read_trailing_u64(data: &[u8], pos: usize) -> (r: u64)
    ensures
        r == trailing_u64(data@, pos as int),
{
    if pos <= data.len() && data.len() - pos >= 8 {
        decode_u64_at(data, pos)
    } else {
        0
    }
}

/// Parses a stored vault.
pub fn decode_vault(data: &[u8]) -> (r: Result<Vault, ContractError>)
    ensures
        match spec_decode_vault(data@) {
            None => r == Err::<Vault, ContractError>(ContractError::InvalidInput),
            Some(v) => r matches Ok(x) && x@ == v,
        },
{
    reveal(spec_decode_vault);
    if data.len() == 0 || data[0] != VAULT_VERSION {
        return Err(ContractError::InvalidInput);
    }
    let mut pos: usize = 1;
    let owner_did = read_string(data, &mut pos, MAX_DID_LEN)?;
    let file_id = read_string(data, &mut pos, MAX_DID_LEN)?;
    if pos >= data.len() {
        return Err(ContractError::InvalidInput);
    }
    let threshold = data[pos];
    pos = pos + 1;
    if pos >= data.len() {
        return Err(ContractError::InvalidInput);
    }
    let member_count = data[pos];
    pos = pos + 1;
    let members = read_strings(data, &mut pos, member_count)?;
    let created_at = read_trailing_u64(data, pos);
    Ok(Vault { owner_did, file_id, threshold, members, created_at })
}

/// Parses a stored access request.
pub fn decode_access_request(data: &[u8]) -> (r: Result<AccessRequest, ContractError>)
    ensures
        match spec_decode_request(data@) {
            None => r == Err::<AccessRequest, ContractError>(ContractError::InvalidInput),
            Some(v) => r matches Ok(x) && x@ == v,
        },
{
    reveal(spec_decode_request);
    let mut pos: usize = 0;
    let requester_did = read_string(data, &mut pos, MAX_DID_LEN)?;
    if pos >= data.len() {
        return Err(ContractError::InvalidInput);
    }
    let count = data[pos];
    pos = pos + 1;
    let approvals = read_strings(data, &mut pos, count)?;
    let requested_at = read_trailing_u64(data, pos);
    Ok(AccessRequest { requester_did, approvals, requested_at })
}

pub open spec fn one(b: u8) -> Result<Seq<u8>, ContractError> {
    Ok(seq![b])
}

/// CREATE_VAULT once its fields are read: the caller owns the new vault,
/// stored under its derived id, which is the reply.
pub open spec fn spec_create_vault(m: Map<Seq<u8>, Seq<u8>>, env: HostEnv, file_id: Seq<u8>, threshold: u8, members: Seq<Seq<u8>>) -> (Map<Seq<u8>, Seq<u8>>, Result<Seq<u8>, ContractError>) {
    match spec_caller(env, ContractError::Failed) {
        Err(e) => (m, Err(e)),
        Ok(owner) => {
            let id = vault_id_of(owner, file_id);
            (m.insert(vault_key(id), vault_bytes((owner, file_id, threshold, members, 0u64))), Ok(id))
        },
    }
}

/// ADD_MEMBER: only the owner adds; at most `MAX_MEMBERS` members, no
/// duplicates.
pub open spec fn spec_add_member(m: Map<Seq<u8>, Seq<u8>>, env: HostEnv, vault_id: Seq<u8>, member: Seq<u8>) -> (Map<Seq<u8>, Seq<u8>>, Result<Seq<u8>, ContractError>) {
    match spec_caller(env, ContractError::Failed) {
        Err(e) => (m, Err(e)),
        Ok(caller) => match spec_load_vault(m, vault_id) {
            Err(e) => (m, Err(e)),
            Ok(v) => if v.0 != caller {
                (m, Err(ContractError::Failed))
            } else if v.3.len() >= MAX_MEMBERS || v.3.contains(member) {
                (m, Err(ContractError::InvalidInput))
            } else {
                (m.insert(vault_key(vault_id), vault_bytes((v.0, v.1, v.2, v.3.push(member), v.4))), one(1))
            },
        },
    }
}

/// REMOVE_MEMBER: only the owner removes, and never itself; every copy of
/// the member leaves the list.
pub open spec fn spec_remove_member(m: Map<Seq<u8>, Seq<u8>>, env: HostEnv, vault_id: Seq<u8>, member: Seq<u8>) -> (Map<Seq<u8>, Seq<u8>>, Result<Seq<u8>, ContractError>) {
    match spec_caller(env, ContractError::Failed) {
        Err(e) => (m, Err(e)),
        Ok(caller) => match spec_load_vault(m, vault_id) {
            Err(e) => (m, Err(e)),
            Ok(v) => if v.0 != caller {
                (m, Err(ContractError::Failed))
            } else if member == v.0 {
                (m, Err(ContractError::InvalidInput))
            } else {
                (m.insert(vault_key(vault_id), vault_bytes((v.0, v.1, v.2, v.3.filter(other_than(member)), v.4))), one(1))
            },
        },
    }
}

/// REQUEST_ACCESS: members and the owner already have access (2); anyone
/// else gets a fresh request with no approvals (1).
pub open spec fn spec_request_access(m: Map<Seq<u8>, Seq<u8>>, env: HostEnv, vault_id: Seq<u8>) -> (Map<Seq<u8>, Seq<u8>>, Result<Seq<u8>, ContractError>) {
    match spec_caller(env, ContractError::Failed) {
        Err(e) => (m, Err(e)),
        Ok(caller) => match spec_load_vault(m, vault_id) {
            Err(e) => (m, Err(e)),
            Ok(v) => if v.3.contains(caller) || v.0 == caller {
                (m, one(2))
            } else {
                (m.insert(access_key(vault_id, caller), request_bytes((caller, Seq::empty(), 0u64))), one(1))
            },
        },
    }
}

/// APPROVE_ACCESS: only the owner or a member approves (`Failed`); a second
/// approval by the same DID changes nothing (0); else the approval is
/// recorded and the reply says whether the threshold is met (2) or not
/// yet (1).
pub open spec fn spec_approve_access(m: Map<Seq<u8>, Seq<u8>>, env: HostEnv, vault_id: Seq<u8>, requester: Seq<u8>) -> (Map<Seq<u8>, Seq<u8>>, Result<Seq<u8>, ContractError>) {
    match spec_caller(env, ContractError::Failed) {
        Err(e) => (m, Err(e)),
        Ok(caller) => match spec_load_vault(m, vault_id) {
            Err(e) => (m, Err(e)),
            Ok(v) => if v.0 != caller && !v.3.contains(caller) {
                (m, Err(ContractError::Failed))
            } else {
                match spec_load_request(m, access_key(vault_id, requester)) {
                    Err(e) => (m, Err(e)),
                    Ok(req) => if req.1.contains(caller) {
                        (m, one(0))
                    } else {
                        let approvals = req.1.push(caller);
                        (
                            m.insert(access_key(vault_id, requester), request_bytes((req.0, approvals, req.2))),
                            if approvals.len() >= v.2 { one(2) } else { one(1) },
                        )
                    },
                }
            },
        },
    }
}

/// CHECK_ACCESS: 1 for the owner and members, 2 for a DID whose request
/// has reached the threshold, 0 otherwise.
pub open spec fn spec_check_access(m: Map<Seq<u8>, Seq<u8>>, vault_id: Seq<u8>, did: Seq<u8>) -> Result<Seq<u8>, ContractError> {
    match spec_load_vault(m, vault_id) {
        Err(e) => Err(e),
        Ok(v) => if v.0 == did || v.3.contains(did) {
            one(1)
        } else {
            match spec_load_request(m, access_key(vault_id, did)) {
                Ok(req) => if req.1.len() >= v.2 { one(2) } else { one(0) },
                Err(_) => one(0),
            }
        },
    }
}

pub open spec fn spec_dispatch(m: Map<Seq<u8>, Seq<u8>>, env: HostEnv, input: Seq<u8>) -> (Map<Seq<u8>, Seq<u8>>, Result<Seq<u8>, ContractError>) {
    let bad = (m, Err(ContractError::InvalidInput));
    let lim = MAX_DID_LEN as int;
    match spec_read_u8(input, 0) {
        None => bad,
        Some((op, p)) => if op == OP_CREATE_VAULT {
            match spec_read_string(input, p, lim) {
                None => bad,
                Some((file_id, p1)) => if p1 + 1 >= input.len() {
                    bad
                } else if input[p1 + 1] > MAX_MEMBERS || input[p1] == 0 || input[p1] > input[p1 + 1] {
                    bad
                } else {
                    match spec_read_strings(input, p1 + 2, input[p1 + 1] as nat, lim) {
                        None => bad,
                        Some((members, _)) => spec_create_vault(m, env, file_id, input[p1], members),
                    }
                },
            }
        } else if op == OP_ADD_MEMBER || op == OP_REMOVE_MEMBER || op == OP_APPROVE_ACCESS || op == OP_CHECK_ACCESS {
            match spec_read_string(input, p, lim) {
                None => bad,
                Some((vault_id, p1)) => match spec_read_string(input, p1, lim) {
                    None => bad,
                    Some((did, _)) => if op == OP_ADD_MEMBER {
                        spec_add_member(m, env, vault_id, did)
                    } else if op == OP_REMOVE_MEMBER {
                        spec_remove_member(m, env, vault_id, did)
                    } else if op == OP_APPROVE_ACCESS {
                        spec_approve_access(m, env, vault_id, did)
                    } else {
                        (m, spec_check_access(m, vault_id, did))
                    },
                },
            }
        } else if op == OP_REQUEST_ACCESS || op == OP_RESOLVE_VAULT {
            match spec_read_string(input, p, lim) {
                None => bad,
                Some((vault_id, _)) => if op == OP_REQUEST_ACCESS {
                    spec_request_access(m, env, vault_id)
                } else {
                    match spec_load_vault(m, vault_id) {
                        Err(e) => (m, Err(e)),
                        Ok(v) => (m, Ok(vault_bytes(v))),
                    }
                },
            }
        } else {
            bad
        }
    }
}

/// The id of a vault.
pub fn derive_vault_id(owner_did: &[u8], file_id: &[u8]) -> (r: Vec<u8>)
    ensures
        r@ == vault_id_of(owner_did@, file_id@),
{
    let mut input: Vec<u8> = Vec::new();
    append_bytes(&mut input, owner_did);
    append_bytes(&mut input, file_id);
    proof {
        assert(Seq::<u8>::empty() + owner_did@ == owner_did@);
    }
    let hash = sha256(input.as_slice());
    hex_encode(hash.as_slice())
}

fn vault_storage_key(vault_id: &[u8]) -> (r: Vec<u8>)
    ensures
        r@ == vault_key(vault_id@),
{
    key_with("vault:", vault_id)
}

/// The key of a DID's access request to a vault.
pub fn access_request_key(vault_id: &[u8], requester_did: &[u8]) -> (r: Vec<u8>)
    ensures
        r@ == access_key(vault_id@, requester_did@),
{
    let did_hash = sha256(requester_did);
    let head = copy_range(did_hash.as_slice(), 0, 8);
    let h = hex_encode(head.as_slice());
    let mut k = key_with("vault:", vault_id);
    append_bytes(&mut k, ":access:".as_bytes());
    append_bytes(&mut k, h.as_slice());
    k
}

fn load_vault(store: &KvStore, vault_id: &[u8]) -> (r: Result<Vault, ContractError>)
    requires
        store.wf(),
    ensures
        match spec_load_vault(store@, vault_id@) {
            Err(e) => r == Err::<Vault, ContractError>(e),
            Ok(v) => r matches Ok(x) && x@ == v,
        },
{
    let key = vault_storage_key(vault_id);
    let raw = match load_bytes(store, key.as_slice(), VAULT_RECORD_MAX) {
        Ok(raw) => raw,
        Err(_) => {
            return Err(ContractError::HostError);
        },
    };
    decode_vault(raw.as_slice())
}

fn load_access_request(store: &KvStore, key: &[u8]) -> (r: Result<AccessRequest, ContractError>)
    requires
        store.wf(),
    ensures
        match spec_load_request(store@, key@) {
            Err(e) => r == Err::<AccessRequest, ContractError>(e),
            Ok(v) => r matches Ok(x) && x@ == v,
        },
{
    let raw = match load_bytes(store, key, REQUEST_RECORD_MAX) {
        Ok(raw) => raw,
        Err(_) => {
            return Err(ContractError::HostError);
        },
    };
    decode_access_request(raw.as_slice())
}

/// Whether `x` is in the list.
fn list_contains(xs: &Vec<Vec<u8>>, x: &[u8]) -> (r: bool)
    ensures
        r == texts(xs@).contains(x@),
{
    let mut i: usize = 0;
    while i < xs.len()
        invariant
            i <= xs@.len(),
            forall|j: int| 0 <= j < i ==> xs@[j]@ != x@,
        decreases xs@.len() - i,
    {
        if bytes_equal(xs[i].as_slice(), x) {
            assert(texts(xs@)[i as int] == x@);
            return true;
        }
        i = i + 1;
    }
    assert(!texts(xs@).contains(x@)) by {
        if texts(xs@).contains(x@) {
            let j = choose|j: int| 0 <= j < texts(xs@).len() && texts(xs@)[j] == x@;
            assert(xs@[j]@ == x@);
        }
    }
    false
}

/// A copy of a byte string.
fn copy_bytes(x: &[u8]) -> (r: Vec<u8>)
    ensures
        r@ == x@,
{
    let r = copy_range(x, 0, x.len());
    assert(x@.subrange(0, x@.len() as int) =~= x@);
    r
}

/// The list without any copy of `x`.
fn without(xs: &Vec<Vec<u8>>, x: &[u8]) -> (r: Vec<Vec<u8>>)
    ensures
        texts(r@) == texts(xs@).filter(other_than(x@)),
{
    let ghost pred = other_than(x@);
    let mut out: Vec<Vec<u8>> = Vec::new();
    let mut i: usize = 0;
    while i < xs.len()
        invariant
            pred == other_than(x@),
            i <= xs@.len(),
            texts(out@) == texts(xs@).take(i as int).filter(pred),
        decreases xs@.len() - i,
    {
        let ghost before = texts(xs@).take(i as int);
        let ghost after = texts(xs@).take(i + 1);
        let ghost prev = texts(out@);
        proof {
            assert(after.drop_last() =~= before);
            assert(after.last() == xs@[i as int]@);
            reveal_with_fuel(Seq::<Seq<u8>>::filter, 1);
        }
        if !bytes_equal(xs[i].as_slice(), x) {
            out.push(copy_bytes(xs[i].as_slice()));
            assert(texts(out@) =~= prev.push(xs@[i as int]@));
        }
        i = i + 1;
    }
    assert(texts(xs@).take(xs@.len() as int) =~= texts(xs@));
    out
}

/// CREATE_VAULT.
pub fn handle_create_vault(store: &mut KvStore, env: &HostEnv, input: &[u8], cursor: usize) -> (r: Result<Vec<u8>, ContractError>)
    requires
        old(store).wf(),
    ensures
        final(store).wf(),
        (final(store)@, reply_view(r)) == (match spec_read_string(input@, cursor as int, MAX_DID_LEN as int) {
            None => (old(store)@, Err(ContractError::InvalidInput)),
            Some((file_id, p1)) => if p1 + 1 >= input@.len() {
                (old(store)@, Err(ContractError::InvalidInput))
            } else if input@[p1 + 1] > MAX_MEMBERS || input@[p1] == 0 || input@[p1] > input@[p1 + 1] {
                (old(store)@, Err(ContractError::InvalidInput))
            } else {
                match spec_read_strings(input@, p1 + 2, input@[p1 + 1] as nat, MAX_DID_LEN as int) {
                    None => (old(store)@, Err(ContractError::InvalidInput)),
                    Some((members, _)) => spec_create_vault(old(store)@, *env, file_id, input@[p1], members),
                }
            },
        }),
{
    let mut pos = cursor;
    let file_id = read_string(input, &mut pos, MAX_DID_LEN)?;
    if pos >= input.len() {
        return Err(ContractError::InvalidInput);
    }
    let threshold = input[pos];
    pos = pos + 1;
    if pos >= input.len() {
        return Err(ContractError::InvalidInput);
    }
    let member_count = input[pos];
    pos = pos + 1;
    if member_count as usize > MAX_MEMBERS {
        return Err(ContractError::InvalidInput);
    }
    if threshold == 0 || threshold > member_count {
        return Err(ContractError::InvalidInput);
    }
    let members = read_strings(input, &mut pos, member_count)?;
    let caller = get_caller(env, ContractError::Failed)?;
    let vault_id = derive_vault_id(caller.as_slice(), file_id.as_slice());
    let vault = Vault { owner_did: caller, file_id, threshold, members, created_at: 0 };
    let key = vault_storage_key(vault_id.as_slice());
    let record = encode_vault(&vault);
    store.save(key.as_slice(), record.as_slice());
    Ok(vault_id)
}

/// ADD_MEMBER.
pub fn handle_add_member(store: &mut KvStore, env: &HostEnv, vault_id: &[u8], new_member: &[u8]) -> (r: Result<Vec<u8>, ContractError>)
    requires
        old(store).wf(),
    ensures
        final(store).wf(),
        (final(store)@, reply_view(r)) == spec_add_member(old(store)@, *env, vault_id@, new_member@),
{
    let caller = get_caller(env, ContractError::Failed)?;
    let mut vault = load_vault(store, vault_id)?;
    if !bytes_equal(vault.owner_did.as_slice(), caller.as_slice()) {
        return Err(ContractError::Failed);
    }
    if vault.members.len() >= MAX_MEMBERS {
        return Err(ContractError::InvalidInput);
    }
    if list_contains(&vault.members, new_member) {
        return Err(ContractError::InvalidInput);
    }
    let ghost before = texts(vault.members@);
    vault.members.push(copy_bytes(new_member));
    assert(texts(vault.members@) =~= before.push(new_member@));
    let key = vault_storage_key(vault_id);
    let record = encode_vault(&vault);
    store.save(key.as_slice(), record.as_slice());
    Ok(reply_byte(1))
}

/// REMOVE_MEMBER.
pub fn handle_remove_member(store: &mut KvStore, env: &HostEnv, vault_id: &[u8], member_did: &[u8]) -> (r: Result<Vec<u8>, ContractError>)
    requires
        old(store).wf(),
    ensures
        final(store).wf(),
        (final(store)@, reply_view(r)) == spec_remove_member(old(store)@, *env, vault_id@, member_did@),
{
    let caller = get_caller(env, ContractError::Failed)?;
    let vault = load_vault(store, vault_id)?;
    if !bytes_equal(vault.owner_did.as_slice(), caller.as_slice()) {
        return Err(ContractError::Failed);
    }
    if bytes_equal(member_did, vault.owner_did.as_slice()) {
        return Err(ContractError::InvalidInput);
    }
    let members = without(&vault.members, member_did);
    let updated = Vault { owner_did: vault.owner_did, file_id: vault.file_id, threshold: vault.threshold, members, created_at: vault.created_at };
    let key = vault_storage_key(vault_id);
    let record = encode_vault(&updated);
    store.save(key.as_slice(), record.as_slice());
    Ok(reply_byte(1))
}

/// REQUEST_ACCESS.
pub fn handle_request_access(store: &mut KvStore, env: &HostEnv, vault_id: &[u8]) -> (r: Result<Vec<u8>, ContractError>)
    requires
        old(store).wf(),
    ensures
        final(store).wf(),
        (final(store)@, reply_view(r)) == spec_request_access(old(store)@, *env, vault_id@),
{
    let caller = get_caller(env, ContractError::Failed)?;
    let vault = load_vault(store, vault_id)?;
    if list_contains(&vault.members, caller.as_slice()) || bytes_equal(vault.owner_did.as_slice(), caller.as_slice()) {
        return Ok(reply_byte(2));
    }
    let req_key = access_request_key(vault_id, caller.as_slice());
    let request = AccessRequest { requester_did: caller, approvals: Vec::new(), requested_at: 0 };
    assert(texts(request.approvals@) =~= Seq::<Seq<u8>>::empty());
    let record = encode_access_request(&request);
    store.save(req_key.as_slice(), record.as_slice());
    Ok(reply_byte(1))
}

/// APPROVE_ACCESS.
pub fn handle_approve_access(store: &mut KvStore, env: &HostEnv, vault_id: &[u8], requester_did: &[u8]) -> (r: Result<Vec<u8>, ContractError>)
    requires
        old(store).wf(),
    ensures
        final(store).wf(),
        (final(store)@, reply_view(r)) == spec_approve_access(old(store)@, *env, vault_id@, requester_did@),
{
    let caller = get_caller(env, ContractError::Failed)?;
    let vault = load_vault(store, vault_id)?;
    if !bytes_equal(vault.owner_did.as_slice(), caller.as_slice()) && !list_contains(&vault.members, caller.as_slice()) {
        return Err(ContractError::Failed);
    }
    let req_key = access_request_key(vault_id, requester_did);
    let mut request = load_access_request(store, req_key.as_slice())?;
    if list_contains(&request.approvals, caller.as_slice()) {
        return Ok(reply_byte(0));
    }
    let ghost before = texts(request.approvals@);
    request.approvals.push(caller);
    assert(texts(request.approvals@) =~= before.push(env.caller@));
    let record = encode_access_request(&request);
    store.save(req_key.as_slice(), record.as_slice());
    if request.approvals.len() >= vault.threshold as usize {
        Ok(reply_byte(2))
    } else {
        Ok(reply_byte(1))
    }
}

/// CHECK_ACCESS.
pub fn handle_check_access(store: &KvStore, vault_id: &[u8], did: &[u8]) -> (r: Result<Vec<u8>, ContractError>)
    requires
        store.wf(),
    ensures
        reply_view(r) == spec_check_access(store@, vault_id@, did@),
{
    let vault = load_vault(store, vault_id)?;
    if bytes_equal(vault.owner_did.as_slice(), did) || list_contains(&vault.members, did) {
        return Ok(reply_byte(1));
    }
    let req_key = access_request_key(vault_id, did);
    match load_access_request(store, req_key.as_slice()) {
        Ok(req) => {
            if req.approvals.len() >= vault.threshold as usize {
                Ok(reply_byte(2))
            } else {
                Ok(reply_byte(0))
            }
        },
        Err(_) => Ok(reply_byte(0)),
    }
}

/// RESOLVE_VAULT: the vault's record, re-encoded.
pub fn handle_resolve_vault(store: &KvStore, vault_id: &[u8]) -> (r: Result<Vec<u8>, ContractError>)
    requires
        store.wf(),
    ensures
        reply_view(r) == (match spec_load_vault(store@, vault_id@) {
            Err(e) => Err(e),
            Ok(v) => Ok(vault_bytes(v)),
        }),
{
    let vault = load_vault(store, vault_id)?;
    Ok(encode_vault(&vault))
}

/// Handles one call of the contract.
pub fn dispatch(store: &mut KvStore, env: &HostEnv, input: &[u8]) -> (r: Result<Vec<u8>, ContractError>)
    requires
        old(store).wf(),
    ensures
        final(store).wf(),
        (final(store)@, reply_view(r)) == spec_dispatch(old(store)@, *env, input@),
{
    let mut cursor: usize = 0;
    let op = read_u8(input, &mut cursor)?;
    if op == OP_CREATE_VAULT {
        handle_create_vault(store, env, input, cursor)
    } else if op == OP_ADD_MEMBER || op == OP_REMOVE_MEMBER || op == OP_APPROVE_ACCESS || op == OP_CHECK_ACCESS {
        let vault_id = read_string(input, &mut cursor, MAX_DID_LEN)?;
        let did = read_string(input, &mut cursor, MAX_DID_LEN)?;
        if op == OP_ADD_MEMBER {
            handle_add_member(store, env, vault_id.as_slice(), did.as_slice())
        } else if op == OP_REMOVE_MEMBER {
            handle_remove_member(store, env, vault_id.as_slice(), did.as_slice())
        } else if op == OP_APPROVE_ACCESS {
            handle_approve_access(store, env, vault_id.as_slice(), did.as_slice())
        } else {
            handle_check_access(store, vault_id.as_slice(), did.as_slice())
        }
    } else if op == OP_REQUEST_ACCESS || op == OP_RESOLVE_VAULT {
        let vault_id = read_string(input, &mut cursor, MAX_DID_LEN)?;
        if op == OP_REQUEST_ACCESS {
            handle_request_access(store, env, vault_id.as_slice())
        } else {
            handle_resolve_vault(store, vault_id.as_slice())
        }
    } else {
        Err(ContractError::InvalidInput)
    }
}

/// Each text of a list is well-formed UTF-8 of at most `MAX_DID_LEN`
/// bytes.
pub open spec fn texts_ok(xs: Seq<Seq<u8>>) -> bool {
    forall|i: int| 0 <= i < xs.len() ==> #[trigger] xs[i].len() <= MAX_DID_LEN && valid_utf8(xs[i])
}

/// The texts of a vault fit what its record can hold.
pub open spec fn vault_ok(v: VaultV) -> bool {
    &&& v.0.len() <= MAX_DID_LEN && valid_utf8(v.0)
    &&& v.1.len() <= MAX_DID_LEN && valid_utf8(v.1)
    &&& texts_ok(v.3)
    &&& v.3.len() < 256
}

/// The texts of a request fit what its record can hold.
pub open spec fn request_ok(r: AccessRequestV) -> bool {
    &&& r.0.len() <= MAX_DID_LEN && valid_utf8(r.0)
    &&& texts_ok(r.1)
    &&& r.1.len() < 256
}

/// A list of string fields reads back as the list.
proof fn lemma_read_fields(pre: Seq<u8>, xs: Seq<Seq<u8>>, rest: Seq<u8>)
    requires
        texts_ok(xs),
    ensures
        spec_read_strings(pre + fields_bytes(xs) + rest, pre.len() as int, xs.len(), MAX_DID_LEN as int)
            == Some((xs, (pre.len() + fields_bytes(xs).len()) as int)),
    decreases xs.len(),
{
    if xs.len() == 0 {
        assert(xs =~= Seq::<Seq<u8>>::empty());
    } else {
        let ys = xs.drop_last();
        let y = xs.last();
        assert(texts_ok(ys)) by {
            assert forall|i: int| 0 <= i < ys.len() implies #[trigger] ys[i].len() <= MAX_DID_LEN && valid_utf8(ys[i]) by {
                assert(ys[i] == xs[i]);
            }
        }
        assert(xs[xs.len() - 1] == y);
        lemma_read_fields(pre, ys, spec_string_field(y) + rest);
        assert(pre + fields_bytes(ys) + (spec_string_field(y) + rest) =~= pre + fields_bytes(xs) + rest);
        assert(pre + fields_bytes(xs) + rest =~= (pre + fields_bytes(ys)) + spec_string_field(y) + rest);
        lemma_read_string_field(pre + fields_bytes(ys), y, rest, MAX_DID_LEN as int);
        assert(ys.push(y) =~= xs);
    }
}

proof fn lemma_trailing(pre: Seq<u8>, v: u64)
    ensures
        trailing_u64(pre + u64_le_bytes(v), pre.len() as int) == v,
{
    let d = pre + u64_le_bytes(v);
    crate::codec::lemma_u64_roundtrip(v);
    assert(d.subrange(pre.len() as int, pre.len() as int + 8) =~= u64_le_bytes(v));
}

/// A stored vault parses back to itself.
#[verifier::rlimit(100)]
#[verifier::spinoff_prover]
pub proof fn lemma_vault_roundtrip(v: VaultV)
    requires
        vault_ok(v),
    ensures
        spec_decode_vault(vault_bytes(v)) == Some(v),
{
    reveal(spec_decode_vault);
    let b = vault_bytes(v);
    let head = seq![VAULT_VERSION];
    let f0 = spec_string_field(v.0);
    let f1 = spec_string_field(v.1);
    let mid = seq![v.2, (v.3.len() % 256) as u8];
    let fs = fields_bytes(v.3);
    let tail = u64_le_bytes(v.4);
    assert(b =~= head + f0 + (f1 + mid + fs + tail));
    lemma_read_string_field(head, v.0, f1 + mid + fs + tail, MAX_DID_LEN as int);
    assert(b =~= (head + f0) + f1 + (mid + fs + tail));
    lemma_read_string_field(head + f0, v.1, mid + fs + tail, MAX_DID_LEN as int);
    let p2 = (head + f0 + f1).len() as int;
    assert(b[p2] == v.2);
    assert(b[p2 + 1] == (v.3.len() % 256) as u8);
    assert(b =~= (head + f0 + f1 + mid) + fs + tail);
    lemma_read_fields(head + f0 + f1 + mid, v.3, tail);
    assert(b =~= (head + f0 + f1 + mid + fs) + tail);
    lemma_trailing(head + f0 + f1 + mid + fs, v.4);
}

/// A stored access request parses back to itself.
#[verifier::rlimit(100)]
#[verifier::spinoff_prover]
pub proof fn lemma_request_roundtrip(r: AccessRequestV)
    requires
        request_ok(r),
    ensures
        spec_decode_request(request_bytes(r)) == Some(r),
{
    reveal(spec_decode_request);
    request_step_requester(r);
    request_step_approvals(r);
}

#[verifier::rlimit(100)]
#[verifier::spinoff_prover]
proof fn request_step_requester(r: AccessRequestV)
    requires
        request_ok(r),
    ensures
        spec_read_string(request_bytes(r), 0, MAX_DID_LEN as int) == Some((r.0, spec_string_field(r.0).len() as int)),
        request_bytes(r)[spec_string_field(r.0).len() as int] as nat == r.1.len(),
        spec_string_field(r.0).len() < request_bytes(r).len(),
{
    let b = request_bytes(r);
    let f0 = spec_string_field(r.0);
    let rest = seq![(r.1.len() % 256) as u8] + fields_bytes(r.1) + u64_le_bytes(r.2);
    let empty = Seq::<u8>::empty();
    assert(b =~= empty + f0 + rest);
    lemma_read_string_field(empty, r.0, rest, MAX_DID_LEN as int);
    lemma_count_byte(f0, r.1.len(), fields_bytes(r.1) + u64_le_bytes(r.2));
    assert(b =~= f0 + (seq![(r.1.len() % 256) as u8] + (fields_bytes(r.1) + u64_le_bytes(r.2))));
}

proof fn lemma_count_byte(pre: Seq<u8>, n: nat, rest: Seq<u8>)
    requires
        n < 256,
    ensures
        (pre + (seq![(n % 256) as u8] + rest))[pre.len() as int] as nat == n,
        pre.len() < (pre + (seq![(n % 256) as u8] + rest)).len(),
{
    let b = pre + (seq![(n % 256) as u8] + rest);
    assert(b[pre.len() as int] == (n % 256) as u8);
}

#[verifier::rlimit(100)]
#[verifier::spinoff_prover]
proof fn request_step_approvals(r: AccessRequestV)
    requires
        request_ok(r),
    ensures
        ({
            let b = request_bytes(r);
            let p1 = spec_string_field(r.0).len() as int;
            let p2 = p1 + 1 + fields_bytes(r.1).len();
            &&& spec_read_strings(b, p1 + 1, r.1.len(), MAX_DID_LEN as int) == Some((r.1, p2))
            &&& trailing_u64(b, p2) == r.2
        }),
{
    let b = request_bytes(r);
    let head = spec_string_field(r.0) + seq![(r.1.len() % 256) as u8];
    let fs = fields_bytes(r.1);
    let tail = u64_le_bytes(r.2);
    assert(b =~= head + fs + tail);
    lemma_read_fields(head, r.1, tail);
    assert(b =~= (head + fs) + tail);
    lemma_trailing(head + fs, r.2);
}

proof fn lemma_vault_loads(m: Map<Seq<u8>, Seq<u8>>, id: Seq<u8>, v: VaultV)
    requires
        vault_ok(v),
        vault_bytes(v).len() <= VAULT_RECORD_MAX,
    ensures
        spec_load_vault(m.insert(vault_key(id), vault_bytes(v)), id) == Ok::<VaultV, ContractError>(v),
{
    lemma_vault_roundtrip(v);
    assert(prefix_up_to(vault_bytes(v), VAULT_RECORD_MAX as int) =~= vault_bytes(v));
}

proof fn lemma_request_loads(m: Map<Seq<u8>, Seq<u8>>, key: Seq<u8>, r: AccessRequestV)
    requires
        request_ok(r),
        request_bytes(r).len() <= REQUEST_RECORD_MAX,
    ensures
        spec_load_request(m.insert(key, request_bytes(r)), key) == Ok::<AccessRequestV, ContractError>(r),
{
    lemma_request_roundtrip(r);
    assert(prefix_up_to(request_bytes(r), REQUEST_RECORD_MAX as int) =~= request_bytes(r));
}

proof fn lemma_keys_distinct(vault_id: Seq<u8>, did: Seq<u8>)
    ensures
        vault_key(vault_id) != access_key(vault_id, did),
{
    reveal_strlit(":access:");
    vstd::string::is_ascii_spec_bytes(":access:");
    assert(vault_key(vault_id).len() < access_key(vault_id, did).len());
}

proof fn lemma_replies_distinct()
    ensures
        one(0) != one(1),
        one(0) != one(2),
        one(1) != one(2),
{
    assert(seq![0u8][0] != seq![1u8][0]);
    assert(seq![0u8][0] != seq![2u8][0]);
    assert(seq![1u8][0] != seq![2u8][0]);
}

/// The owner and every member of a new vault have access to it (when its
/// record fits the size that is read back).
#[verifier::rlimit(100)]
#[verifier::spinoff_prover]
pub proof fn law_create_then_members_have_access(m: Map<Seq<u8>, Seq<u8>>, env: HostEnv, file_id: Seq<u8>, threshold: u8, members: Seq<Seq<u8>>, did: Seq<u8>)
    requires
        spec_create_vault(m, env, file_id, threshold, members).1 is Ok,
        vault_ok((env.caller@, file_id, threshold, members, 0u64)),
        vault_bytes((env.caller@, file_id, threshold, members, 0u64)).len() <= VAULT_RECORD_MAX,
        did == env.caller@ || members.contains(did),
    ensures
        spec_check_access(spec_create_vault(m, env, file_id, threshold, members).0, vault_id_of(env.caller@, file_id), did) == one(1),
{
    lemma_vault_loads(m, vault_id_of(env.caller@, file_id), (env.caller@, file_id, threshold, members, 0u64));
}

/// A DID whose request just reached the threshold has access (as a
/// member, or by approval).
#[verifier::rlimit(100)]
#[verifier::spinoff_prover]
pub proof fn law_approval_grants_access(m: Map<Seq<u8>, Seq<u8>>, env: HostEnv, vault_id: Seq<u8>, requester: Seq<u8>)
    requires
        spec_approve_access(m, env, vault_id, requester).1 == one(2),
        env.caller@.len() <= MAX_DID_LEN,
        spec_load_request(m, access_key(vault_id, requester)) matches Ok(req)
            && request_ok((req.0, req.1.push(env.caller@), req.2))
            && request_bytes((req.0, req.1.push(env.caller@), req.2)).len() <= REQUEST_RECORD_MAX,
    ensures
        spec_check_access(spec_approve_access(m, env, vault_id, requester).0, vault_id, requester) != one(0),
        spec_check_access(spec_approve_access(m, env, vault_id, requester).0, vault_id, requester) is Ok,
{
    let req = spec_load_request(m, access_key(vault_id, requester))->Ok_0;
    let v = spec_load_vault(m, vault_id)->Ok_0;
    let approvals = req.1.push(env.caller@);
    let key = access_key(vault_id, requester);
    lemma_request_loads(m, key, (req.0, approvals, req.2));
    lemma_keys_distinct(vault_id, requester);
    let m2 = m.insert(key, request_bytes((req.0, approvals, req.2)));
    assert(m2[vault_key(vault_id)] == m[vault_key(vault_id)]);
    assert(spec_load_vault(m2, vault_id) == spec_load_vault(m, vault_id));
    lemma_replies_distinct();
    assert(spec_approve_access(m, env, vault_id, requester).0 == m2);
    assert(approvals.len() >= v.2);
    assert(spec_load_request(m2, key) == Ok::<AccessRequestV, ContractError>((req.0, approvals, req.2)));
}

/// A removed member is no longer a member: it keeps access only through an
/// approved request (when the shortened record fits the size that is
/// read back).
#[verifier::rlimit(100)]
#[verifier::spinoff_prover]
pub proof fn law_removed_member_leaves(m: Map<Seq<u8>, Seq<u8>>, env: HostEnv, vault_id: Seq<u8>, member: Seq<u8>)
    requires
        spec_remove_member(m, env, vault_id, member).1 is Ok,
        spec_load_vault(m, vault_id) matches Ok(v) && vault_bytes((v.0, v.1, v.2, v.3.filter(other_than(member)), v.4)).len() <= VAULT_RECORD_MAX,
    ensures
        spec_load_vault(spec_remove_member(m, env, vault_id, member).0, vault_id) matches Ok(v) && !v.3.contains(member),
        spec_check_access(spec_remove_member(m, env, vault_id, member).0, vault_id, member) != one(1),
{
    lemma_replies_distinct();
    let v = spec_load_vault(m, vault_id)->Ok_0;
    let d = prefix_up_to(m[vault_key(vault_id)], VAULT_RECORD_MAX as int);
    assert(spec_decode_vault(d) == Some(v));
    lemma_decoded_vault_ok(d);
    let kept = v.3.filter(other_than(member));
    lemma_filter_keeps_texts(v.3, member);
    let nv = (v.0, v.1, v.2, kept, v.4);
    lemma_vault_loads(m, vault_id, nv);
    assert(spec_remove_member(m, env, vault_id, member).0 == m.insert(vault_key(vault_id), vault_bytes(nv)));
    assert(!kept.contains(member)) by {
        if kept.contains(member) {
            let j = choose|j: int| 0 <= j < kept.len() && kept[j] == member;
            v.3.lemma_filter_pred(other_than(member), j);
        }
    }
}

proof fn lemma_read_strings_ok(d: Seq<u8>, pos: int, n: nat)
    ensures
        spec_read_strings(d, pos, n, MAX_DID_LEN as int) matches Some((xs, _)) ==> xs.len() == n && texts_ok(xs),
    decreases n,
{
    if n > 0 {
        lemma_read_strings_ok(d, pos, (n - 1) as nat);
    }
}

proof fn lemma_decoded_vault_ok(d: Seq<u8>)
    requires
        spec_decode_vault(d) is Some,
    ensures
        vault_ok(spec_decode_vault(d)->Some_0),
{
    reveal(spec_decode_vault);
    let p1 = spec_read_string(d, 1, MAX_DID_LEN as int)->Some_0.1;
    let p2 = spec_read_string(d, p1, MAX_DID_LEN as int)->Some_0.1;
    lemma_read_strings_ok(d, p2 + 2, d[p2 + 1] as nat);
}

proof fn lemma_filter_keeps_texts(xs: Seq<Seq<u8>>, member: Seq<u8>)
    requires
        texts_ok(xs),
        xs.len() < 256,
    ensures
        texts_ok(xs.filter(other_than(member))),
        xs.filter(other_than(member)).len() < 256,
{
    let pred = other_than(member);
    xs.lemma_filter_len(pred);
    let kept = xs.filter(pred);
    assert forall|i: int| 0 <= i < kept.len() implies #[trigger] kept[i].len() <= MAX_DID_LEN && valid_utf8(kept[i]) by {
        assert(kept.contains(kept[i]));
        xs.lemma_filter_contains_rev(pred, kept[i]);
        let k = choose|k: int| 0 <= k < xs.len() && xs[k] == kept[i];
        assert(xs[k].len() <= MAX_DID_LEN && valid_utf8(xs[k]));
    }
}

/// Creating a vault goes through for every caller the host names with a
/// UTF-8 DID: the reply is the vault's id, and the owner and every listed
/// member then have access (CHECK_ACCESS answers 1).
pub proof fn law_create_vault_grants_access(m: Map<Seq<u8>, Seq<u8>>, env: HostEnv, file_id: Seq<u8>, threshold: u8, members: Seq<Seq<u8>>, did: Seq<u8>)
    requires
        0 < env.caller@.len(),
        vault_ok((env.caller@, file_id, threshold, members, 0u64)),
        vault_bytes((env.caller@, file_id, threshold, members, 0u64)).len() <= VAULT_RECORD_MAX,
        did == env.caller@ || members.contains(did),
    ensures
        spec_create_vault(m, env, file_id, threshold, members).1 == Ok::<Seq<u8>, ContractError>(vault_id_of(env.caller@, file_id)),
        spec_check_access(spec_create_vault(m, env, file_id, threshold, members).0, vault_id_of(env.caller@, file_id), did)
            == Ok::<Seq<u8>, ContractError>(seq![1u8]),
{
    law_create_then_members_have_access(m, env, file_id, threshold, members, did);
}

/// The owner of a vault adds a new member while the list has room: the
/// reply is 1, and the member then has access (CHECK_ACCESS answers 1).
/// Anyone but the owner is refused (`Failed`) and changes nothing.
pub proof fn law_owner_adds_member(m: Map<Seq<u8>, Seq<u8>>, env: HostEnv, vault_id: Seq<u8>, v: VaultV, member: Seq<u8>)
    requires
        0 < env.caller@.len(),
        valid_utf8(env.caller@),
        spec_load_vault(m, vault_id) == Ok::<VaultV, ContractError>(v),
        v.3.len() < MAX_MEMBERS,
        !v.3.contains(member),
        vault_ok((v.0, v.1, v.2, v.3.push(member), v.4)),
        vault_bytes((v.0, v.1, v.2, v.3.push(member), v.4)).len() <= VAULT_RECORD_MAX,
    ensures
        v.0 == env.caller@ ==> {
            &&& spec_add_member(m, env, vault_id, member).1 == Ok::<Seq<u8>, ContractError>(seq![1u8])
            &&& spec_check_access(spec_add_member(m, env, vault_id, member).0, vault_id, member) == Ok::<Seq<u8>, ContractError>(seq![1u8])
        },
        v.0 != env.caller@ ==> spec_add_member(m, env, vault_id, member) == (m, Err::<Seq<u8>, ContractError>(ContractError::Failed)),
{
    let nv = (v.0, v.1, v.2, v.3.push(member), v.4);
    lemma_vault_loads(m, vault_id, nv);
    assert(nv.3[v.3.len() as int] == member);
}

} // verus!
