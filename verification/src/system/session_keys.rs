//! Session keys: a DID owner grants a delegate time-limited authority for
//! a set of operations; other contracts ask whether a caller holds a valid
//! session before acting.
use vstd::prelude::*;
use vstd::string::StringSliceAdditionalSpecFns;
use vstd::utf8::{valid_utf8, decode_utf8};
use crate::codec::{u64_le_bytes, push_u64_le, append_bytes, hex_lower, hex_encode, u64_to_le_vec};
use crate::crypto::{sha256, sha256_digest};
use crate::error::ContractError;
use crate::host::{HostEnv, spec_caller, get_caller, spec_load, load_bytes, key_with, reply_view, reply_byte, Event, event_log, emit};
use crate::spacetime::env::is_white_space;
use crate::store::{KvStore, bytes_equal, prefix_up_to};
use crate::text::{run_end, skip_whitespace, lemma_run_end_bounds};
use crate::utf8::decode_chars;
use crate::wire::{spec_read_u8, spec_read_u64, spec_read_string, spec_read_bytes32, spec_string_field, read_u8, read_u64,
    read_string, read_bytes32, write_string_wrapping, lemma_read_string_field, lemma_read_u64_field};

verus! {

pub const OP_CREATE: u8 = 1;
pub const OP_VALIDATE: u8 = 2;
pub const OP_REVOKE: u8 = 3;
pub const OP_GET: u8 = 4;
pub const OP_LIST: u8 = 5;

pub const STATUS_ACTIVE: u8 = 1;
pub const STATUS_REVOKED: u8 = 0;

pub const MAX_STRING_LEN: usize = 512;
pub const SESSION_RECORD_MAX: usize = 1024;
pub const INDEX_MAX: usize = 8192;

/// A session: who granted it to whom, for which scope, when, until when,
/// its spending limit and what was spent, and its status.
pub struct Session {
    pub owner_did: Vec<u8>,
    pub delegate_did: Vec<u8>,
    pub scope: Vec<u8>,
    pub created_at: u64,
    pub expires_at: u64,
    pub spending_limit: u64,
    pub spent: u64,
    pub status: u8,
}

/// The value of a session.
pub type SessionV = (Seq<u8>, Seq<u8>, Seq<u8>, u64, u64, u64, u64, u8);

impl View for Session {
    type V = SessionV;

    open spec fn view(&self) -> SessionV {
        (self.owner_did@, self.delegate_did@, self.scope@, self.created_at, self.expires_at, self.spending_limit, self.spent, self.status)
    }
}

/// Stored form of a session.
pub open spec fn session_bytes(s: SessionV) -> Seq<u8> {
    spec_string_field(s.0) + spec_string_field(s.1) + spec_string_field(s.2) + u64_le_bytes(s.3) + u64_le_bytes(s.4)
        + u64_le_bytes(s.5) + u64_le_bytes(s.6) + seq![s.7]
}

/// Parses a stored session.
#[verifier::opaque]
pub open spec fn spec_decode_session(d: Seq<u8>) -> Option<SessionV> {
    match spec_read_string(d, 0, MAX_STRING_LEN as int) {
        None => None,
        Some((owner, p1)) => match spec_read_string(d, p1, MAX_STRING_LEN as int) {
            None => None,
            Some((delegate, p2)) => match spec_read_string(d, p2, MAX_STRING_LEN as int) {
                None => None,
                Some((scope, p3)) => match spec_read_u64(d, p3) {
                    None => None,
                    Some((created, p4)) => match spec_read_u64(d, p4) {
                        None => None,
                        Some((expires, p5)) => match spec_read_u64(d, p5) {
                            None => None,
                            Some((limit, p6)) => match spec_read_u64(d, p6) {
                                None => None,
                                Some((spent, p7)) => if p7 >= d.len() {
                                    None
                                } else {
                                    Some((owner, delegate, scope, created, expires, limit, spent, d[p7]))
                                },
                            },
                        },
                    },
                },
            },
        },
    }
}

pub open spec fn session_key(id: Seq<u8>) -> Seq<u8> {
    "sess:".spec_bytes() + hex_lower(id)
}

pub open spec fn index_key(owner: Seq<u8>) -> Seq<u8> {
    "idx:".spec_bytes() + owner
}

/// The id of a session: the SHA-256 digest of the owner, the delegate and
/// the creation time.
pub open spec fn session_id(owner: Seq<u8>, delegate: Seq<u8>, timestamp: u64) -> Seq<u8> {
    sha256_digest(owner + delegate + u64_le_bytes(timestamp))
}

/// `[a, b)` is one of the `|`-separated parts of `s`.
pub open spec fn is_part(s: Seq<char>, a: int, b: int) -> bool {
    &&& 0 <= a <= b <= s.len()
    &&& (a == 0 || s[a - 1] == '|')
    &&& (b == s.len() || s[b] == '|')
    &&& forall|k: int| a <= k < b ==> s[k] != '|'
}

/// The end of `x` once whitespace is cut from the end (down to `start`).
pub open spec fn trimmed_end(x: Seq<char>, start: int, k: int) -> int
    decreases k,
{
    if k > start && k > 0 && is_white_space(x[k - 1]) {
        trimmed_end(x, start, k - 1)
    } else {
        k
    }
}

/// `x` without leading and trailing whitespace (what `str::trim` gives).
pub open spec fn trim_chars(x: Seq<char>) -> Seq<char> {
    let s = run_end(x, 0, |c: char| is_white_space(c));
    x.subrange(s, trimmed_end(x, s, x.len() as int))
}

/// What a scope allows: everything for `*`, else each operation that is
/// one of its `|`-separated parts, whitespace trimmed.
pub open spec fn spec_scope_allows(scope: Seq<char>, operation: Seq<char>) -> bool {
    scope == seq!['*'] || exists|a: int, b: int| is_part(scope, a, b) && trim_chars(scope.subrange(a, b)) == operation
}

/// Encodes a session for storage.
pub fn encode_session(s: &Session) -> (r: Vec<u8>)
    ensures
        r@ == session_bytes(s@),
{
    let mut out: Vec<u8> = Vec::new();
    write_string_wrapping(&mut out, s.owner_did.as_slice());
    write_string_wrapping(&mut out, s.delegate_did.as_slice());
    write_string_wrapping(&mut out, s.scope.as_slice());
    push_u64_le(&mut out, s.created_at);
    push_u64_le(&mut out, s.expires_at);
    push_u64_le(&mut out, s.spending_limit);
    push_u64_le(&mut out, s.spent);
    out.push(s.status);
    assert(out@ =~= session_bytes(s@));
    out
}

/// Parses a stored session.
pub fn decode_session(data: &[u8]) -> (r: Result<Session, ContractError>)
    ensures
        match spec_decode_session(data@) {
            None => r == Err::<Session, ContractError>(ContractError::InvalidInput),
            Some(v) => r matches Ok(s) && s@ == v,
        },
{
    reveal(spec_decode_session);
    let mut pos: usize = 0;
    let owner_did = read_string(data, &mut pos, MAX_STRING_LEN)?;
    let delegate_did = read_string(data, &mut pos, MAX_STRING_LEN)?;
    let scope = read_string(data, &mut pos, MAX_STRING_LEN)?;
    let created_at = read_u64(data, &mut pos)?;
    let expires_at = read_u64(data, &mut pos)?;
    let spending_limit = read_u64(data, &mut pos)?;
    let spent = read_u64(data, &mut pos)?;
    if pos >= data.len() {
        return Err(ContractError::InvalidInput);
    }
    let status = data[pos];
    Ok(Session { owner_did, delegate_did, scope, created_at, expires_at, spending_limit, spent, status })
}

/// `x` without leading and trailing whitespace.
fn trim_slice(x: &[char]) -> (r: Vec<char>)
    ensures
        r@ == trim_chars(x@),
{
    let s = skip_whitespace(x, 0);
    proof {
        lemma_run_end_bounds(x@, 0, |c: char| is_white_space(c));
    }
    let mut e = x.len();
    while e > s && crate::spacetime::env::char_is_whitespace(x[e - 1])
        invariant
            s <= e <= x@.len(),
            trimmed_end(x@, s as int, x@.len() as int) == trimmed_end(x@, s as int, e as int),
        decreases e,
    {
        e = e - 1;
    }
    let mut out: Vec<char> = Vec::new();
    let mut i = s;
    while i < e
        invariant
            s <= i <= e <= x@.len(),
            out@ == x@.subrange(s as int, i as int),
        decreases e - i,
    {
        out.push(x[i]);
        i = i + 1;
        proof {
            assert(out@ =~= x@.subrange(s as int, i as int));
        }
    }
    out
}

fn chars_equal(a: &[char], b: &[char]) -> (r: bool)
    ensures
        r == (a@ == b@),
{
    if a.len() != b.len() {
        return false;
    }
    let mut i: usize = 0;
    while i < a.len()
        invariant
            a@.len() == b@.len(),
            i <= a@.len(),
            forall|j: int| 0 <= j < i ==> a@[j] == b@[j],
        decreases a@.len() - i,
    {
        if a[i] != b[i] {
            return false;
        }
        i = i + 1;
    }
    assert(a@ =~= b@);
    true
}

/// Whether the trimmed characters `scope[start..end]` are `operation`.
fn part_matches(scope: &[char], start: usize, end: usize, operation: &[char]) -> (r: bool)
    requires
        start <= end <= scope@.len(),
    ensures
        r == (trim_chars(scope@.subrange(start as int, end as int)) == operation@),
{
    let mut part: Vec<char> = Vec::new();
    let mut j = start;
    while j < end
        invariant
            start <= j <= end <= scope@.len(),
            part@ == scope@.subrange(start as int, j as int),
        decreases end - j,
    {
        part.push(scope[j]);
        j = j + 1;
        proof {
            assert(part@ =~= scope@.subrange(start as int, j as int));
        }
    }
    let t = trim_slice(part.as_slice());
    chars_equal(t.as_slice(), operation)
}

/// Whether a scope allows an operation: `*` allows everything, and
/// `|`-separated scopes are checked part by part, trimmed.
pub fn scope_allows(scope: &[char], operation: &[char]) -> (r: bool)
    ensures
        r == spec_scope_allows(scope@, operation@),
{
    if scope.len() == 1 && scope[0] == '*' {
        assert(scope@ =~= seq!['*']);
        return true;
    }
    assert(scope@ != seq!['*']);
    let n = scope.len();
    let mut start: usize = 0;
    let mut i: usize = 0;
    while i < n
        invariant
            n == scope@.len(),
            start <= i <= n,
            start == 0 || scope@[start - 1] == '|',
            forall|k: int| start <= k < i ==> scope@[k] != '|',
            forall|a: int, b: int| is_part(scope@, a, b) && b < start ==> trim_chars(scope@.subrange(a, b)) != operation@,
            scope@ != seq!['*'],
        decreases n - i,
    {
        if scope[i] == '|' {
            assert(is_part(scope@, start as int, i as int));
            if part_matches(scope, start, i, operation) {
                return true;
            }
            proof {
                assert forall|a: int, b: int| is_part(scope@, a, b) && b < i + 1 implies trim_chars(scope@.subrange(a, b)) != operation@ by {
                    if b >= start {
                        if a < start {
                            assert(scope@[start - 1] == '|');
                        }
                        if a > start {
                            assert(scope@[a - 1] == '|');
                        }
                        if b < i {
                            assert(scope@[b] == '|');
                        }
                    }
                }
            }
            start = i + 1;
        }
        i = i + 1;
    }
    assert(is_part(scope@, start as int, n as int));
    if part_matches(scope, start, n, operation) {
        return true;
    }
    proof {
        assert forall|a: int, b: int| is_part(scope@, a, b) implies trim_chars(scope@.subrange(a, b)) != operation@ by {
            if b >= start {
                if a < start {
                    assert(scope@[start - 1] == '|');
                }
                if a > start {
                    assert(scope@[a - 1] == '|');
                }
                if b < n {
                    assert(scope@[b] == '|');
                }
            }
        }
    }
    false
}

/// The session stored under an id.
pub open spec fn spec_load_session(m: Map<Seq<u8>, Seq<u8>>, id: Seq<u8>) -> Result<SessionV, ContractError> {
    match spec_load(m, session_key(id), SESSION_RECORD_MAX as int) {
        Err(e) => Err(e),
        Ok(d) => match spec_decode_session(d) {
            None => Err(ContractError::InvalidInput),
            Some(s) => Ok(s),
        },
    }
}

/// The index of an owner's sessions as it reads back: empty when missing.
pub open spec fn spec_index(m: Map<Seq<u8>, Seq<u8>>, owner: Seq<u8>) -> Seq<u8> {
    match spec_load(m, index_key(owner), INDEX_MAX as int) {
        Ok(d) => d,
        Err(_) => Seq::empty(),
    }
}

/// CREATE: the caller grants `delegate` a session for `scope` until
/// `expires_at` (which must be later than now), with a spending limit; the
/// session is stored under its id, the id is appended to the owner's index
/// as hex and a newline, and the reply is 1 and the id.
pub open spec fn spec_create(m: Map<Seq<u8>, Seq<u8>>, env: HostEnv, delegate: Seq<u8>, scope: Seq<u8>, expires_at: u64, limit: u64) -> (Map<Seq<u8>, Seq<u8>>, Result<Seq<u8>, ContractError>) {
    match spec_caller(env, ContractError::Unauthorized) {
        Err(e) => (m, Err(e)),
        Ok(owner) => if expires_at <= env.timestamp {
            (m, Err(ContractError::InvalidInput))
        } else {
            let id = session_id(owner, delegate, env.timestamp);
            let m1 = m.insert(session_key(id), session_bytes((owner, delegate, scope, env.timestamp, expires_at, limit, 0u64, STATUS_ACTIVE)));
            (m1.insert(index_key(owner), spec_index(m1, owner) + hex_lower(id) + seq![10u8]), Ok(seq![1u8] + id))
        },
    }
}

/// VALIDATE: `[1, 1]` when the session is active, held by the caller, not
/// expired, and its scope allows the operation; `[1, 0]` otherwise.
pub open spec fn spec_validate(m: Map<Seq<u8>, Seq<u8>>, env: HostEnv, id: Seq<u8>, operation: Seq<u8>) -> Result<Seq<u8>, ContractError> {
    match spec_load_session(m, id) {
        Err(e) => Err(e),
        Ok(s) => if s.7 != STATUS_ACTIVE {
            Ok(seq![1u8, 0u8])
        } else {
            match spec_caller(env, ContractError::Unauthorized) {
                Err(e) => Err(e),
                Ok(caller) => if s.1 != caller || env.timestamp > s.4
                    || !spec_scope_allows(decode_utf8(s.2), decode_utf8(operation)) {
                    Ok(seq![1u8, 0u8])
                } else {
                    Ok(seq![1u8, 1u8])
                },
            }
        },
    }
}

/// REVOKE: only the session's owner may revoke it; its status becomes
/// REVOKED.
pub open spec fn spec_revoke(m: Map<Seq<u8>, Seq<u8>>, env: HostEnv, id: Seq<u8>) -> (Map<Seq<u8>, Seq<u8>>, Result<Seq<u8>, ContractError>) {
    match spec_load_session(m, id) {
        Err(e) => (m, Err(e)),
        Ok(s) => match spec_caller(env, ContractError::Unauthorized) {
            Err(e) => (m, Err(e)),
            Ok(caller) => if s.0 != caller {
                (m, Err(ContractError::Unauthorized))
            } else {
                (m.insert(session_key(id), session_bytes((s.0, s.1, s.2, s.3, s.4, s.5, s.6, STATUS_REVOKED))), Ok(seq![1u8]))
            },
        },
    }
}

pub open spec fn spec_handle(m: Map<Seq<u8>, Seq<u8>>, env: HostEnv, input: Seq<u8>) -> (Map<Seq<u8>, Seq<u8>>, Result<Seq<u8>, ContractError>) {
    let bad = (m, Err(ContractError::InvalidInput));
    match spec_read_u8(input, 0) {
        None => bad,
        Some((op, p)) => if op == OP_CREATE {
            match spec_read_string(input, p, MAX_STRING_LEN as int) {
                None => bad,
                Some((delegate, p1)) => match spec_read_string(input, p1, MAX_STRING_LEN as int) {
                    None => bad,
                    Some((scope, p2)) => match spec_read_u64(input, p2) {
                        None => bad,
                        Some((expires_at, p3)) => match spec_read_u64(input, p3) {
                            None => bad,
                            Some((limit, _)) => spec_create(m, env, delegate, scope, expires_at, limit),
                        },
                    },
                },
            }
        } else if op == OP_VALIDATE {
            match spec_read_bytes32(input, p) {
                None => bad,
                Some((id, p1)) => match spec_read_string(input, p1, MAX_STRING_LEN as int) {
                    None => bad,
                    Some((operation, _)) => (m, spec_validate(m, env, id, operation)),
                },
            }
        } else if op == OP_REVOKE {
            match spec_read_bytes32(input, p) {
                None => bad,
                Some((id, _)) => spec_revoke(m, env, id),
            }
        } else if op == OP_GET {
            match spec_read_bytes32(input, p) {
                None => bad,
                Some((id, _)) => match spec_load(m, session_key(id), SESSION_RECORD_MAX as int) {
                    Err(e) => (m, Err(e)),
                    Ok(raw) => (m, Ok(seq![1u8] + raw)),
                },
            }
        } else if op == OP_LIST {
            match spec_read_string(input, p, MAX_STRING_LEN as int) {
                None => bad,
                Some((owner, _)) => match spec_load(m, index_key(owner), INDEX_MAX as int) {
                    Ok(raw) => (m, Ok(seq![1u8] + raw)),
                    Err(_) => (m, Ok(seq![1u8])),
                },
            }
        } else {
            bad
        }
    }
}

/// Event of a CREATE that went through: the session id, then the owner.
pub open spec fn create_events(m: Map<Seq<u8>, Seq<u8>>, env: HostEnv, delegate: Seq<u8>, scope: Seq<u8>, expires_at: u64, limit: u64) -> Seq<(Seq<u8>, Seq<u8>)> {
    match spec_caller(env, ContractError::Unauthorized) {
        Ok(owner) => if spec_create(m, env, delegate, scope, expires_at, limit).1 is Ok {
            seq![("session:created".spec_bytes(), session_id(owner, delegate, env.timestamp) + owner)]
        } else {
            seq![]
        },
        Err(_) => seq![],
    }
}

/// Event of a REVOKE that went through: the session id.
pub open spec fn revoke_events(m: Map<Seq<u8>, Seq<u8>>, env: HostEnv, id: Seq<u8>) -> Seq<(Seq<u8>, Seq<u8>)> {
    if spec_revoke(m, env, id).1 is Ok {
        seq![("session:revoked".spec_bytes(), id)]
    } else {
        seq![]
    }
}

/// The event of a call: creations and revocations announce themselves.
pub open spec fn spec_events(m: Map<Seq<u8>, Seq<u8>>, env: HostEnv, input: Seq<u8>) -> Seq<(Seq<u8>, Seq<u8>)> {
    match spec_read_u8(input, 0) {
        None => seq![],
        Some((op, p)) => if op == OP_CREATE {
            match spec_read_string(input, p, MAX_STRING_LEN as int) {
                None => seq![],
                Some((delegate, p1)) => match spec_read_string(input, p1, MAX_STRING_LEN as int) {
                    None => seq![],
                    Some((scope, p2)) => match spec_read_u64(input, p2) {
                        None => seq![],
                        Some((expires_at, p3)) => match spec_read_u64(input, p3) {
                            None => seq![],
                            Some((limit, _)) => create_events(m, env, delegate, scope, expires_at, limit),
                        },
                    },
                },
            }
        } else if op == OP_REVOKE {
            match spec_read_bytes32(input, p) {
                None => seq![],
                Some((id, _)) => revoke_events(m, env, id),
            }
        } else {
            seq![]
        },
    }
}

/// A parsed session's texts are well-formed UTF-8 of at most
/// `MAX_STRING_LEN` bytes.
proof fn lemma_decoded_texts(d: Seq<u8>)
    ensures
        spec_decode_session(d) matches Some(s) ==> valid_utf8(s.0) && valid_utf8(s.1) && valid_utf8(s.2)
            && s.0.len() <= MAX_STRING_LEN && s.1.len() <= MAX_STRING_LEN && s.2.len() <= MAX_STRING_LEN,
{
    reveal(spec_decode_session);
}

/// The id of a session.
pub fn derive_session_id(owner: &[u8], delegate: &[u8], timestamp: u64) -> (r: Vec<u8>)
    ensures
        r@ == session_id(owner@, delegate@, timestamp),
        r@.len() == 32,
{
    let mut input: Vec<u8> = Vec::new();
    append_bytes(&mut input, owner);
    append_bytes(&mut input, delegate);
    push_u64_le(&mut input, timestamp);
    proof {
        assert(Seq::<u8>::empty() + owner@ == owner@);
    }
    sha256(input.as_slice())
}

fn session_storage_key(id: &[u8]) -> (r: Vec<u8>)
    ensures
        r@ == session_key(id@),
{
    let h = hex_encode(id);
    key_with("sess:", h.as_slice())
}

fn index_key_of(owner: &[u8]) -> (r: Vec<u8>)
    ensures
        r@ == index_key(owner@),
{
    key_with("idx:", owner)
}

/// Appends a session id, in hex and followed by a newline, to its owner's
/// index.
pub fn append_to_index(store: &mut KvStore, owner: &[u8], id: &[u8])
    requires
        old(store).wf(),
    ensures
        final(store).wf(),
        final(store)@ == old(store)@.insert(index_key(owner@), spec_index(old(store)@, owner@) + hex_lower(id@) + seq![10u8]),
{
    let key = index_key_of(owner);
    let mut combined = match load_bytes(store, key.as_slice(), INDEX_MAX) {
        Ok(v) => v,
        Err(_) => Vec::new(),
    };
    let h = hex_encode(id);
    append_bytes(&mut combined, h.as_slice());
    combined.push(10u8);
    assert(combined@ =~= spec_index(old(store)@, owner@) + hex_lower(id@) + seq![10u8]);
    store.save(key.as_slice(), combined.as_slice());
}

fn load_session(store: &KvStore, id: &[u8]) -> (r: Result<Session, ContractError>)
    requires
        store.wf(),
    ensures
        match spec_load_session(store@, id@) {
            Err(e) => r == Err::<Session, ContractError>(e),
            Ok(v) => r matches Ok(s) && s@ == v,
        },
{
    let key = session_storage_key(id);
    let raw = load_bytes(store, key.as_slice(), SESSION_RECORD_MAX)?;
    decode_session(raw.as_slice())
}

/// CREATE.
pub fn handle_create(
    store: &mut KvStore,
    env: &HostEnv,
    delegate: &[u8],
    scope: &[u8],
    expires_at: u64,
    limit: u64,
    events: &mut Vec<Event>,
) -> (r: Result<Vec<u8>, ContractError>)
    requires
        old(store).wf(),
    ensures
        final(store).wf(),
        (final(store)@, reply_view(r)) == spec_create(old(store)@, *env, delegate@, scope@, expires_at, limit),
        event_log(final(events)@) == event_log(old(events)@) + create_events(old(store)@, *env, delegate@, scope@, expires_at, limit),
{
    let owner = get_caller(env, ContractError::Unauthorized)?;
    let now = env.timestamp;
    if expires_at <= now {
        return Err(ContractError::InvalidInput);
    }
    let id = derive_session_id(owner.as_slice(), delegate, now);
    let session = Session {
        owner_did: crate::wire::copy_range(owner.as_slice(), 0, owner.len()),
        delegate_did: crate::wire::copy_range(delegate, 0, delegate.len()),
        scope: crate::wire::copy_range(scope, 0, scope.len()),
        created_at: now,
        expires_at,
        spending_limit: limit,
        spent: 0,
        status: STATUS_ACTIVE,
    };
    proof {
        assert(owner@.subrange(0, owner@.len() as int) =~= owner@);
        assert(delegate@.subrange(0, delegate@.len() as int) =~= delegate@);
        assert(scope@.subrange(0, scope@.len() as int) =~= scope@);
    }
    let key = session_storage_key(id.as_slice());
    let record = encode_session(&session);
    store.save(key.as_slice(), record.as_slice());
    append_to_index(store, owner.as_slice(), id.as_slice());
    let mut event: Vec<u8> = Vec::new();
    append_bytes(&mut event, id.as_slice());
    append_bytes(&mut event, owner.as_slice());
    assert(event@ =~= id@ + owner@);
    emit(events, "session:created", event.as_slice());
    let mut out = reply_byte(1);
    append_bytes(&mut out, id.as_slice());
    Ok(out)
}

/// VALIDATE.
pub fn handle_validate(store: &KvStore, env: &HostEnv, id: &[u8], operation: &[u8]) -> (r: Result<Vec<u8>, ContractError>)
    requires
        store.wf(),
        valid_utf8(operation@),
    ensures
        reply_view(r) == spec_validate(store@, *env, id@, operation@),
{
    let session = load_session(store, id)?;
    let invalid = vec![1u8, 0u8];
    assert(invalid@ =~= seq![1u8, 0u8]);
    if session.status != STATUS_ACTIVE {
        return Ok(invalid);
    }
    let caller = get_caller(env, ContractError::Unauthorized)?;
    if !bytes_equal(session.delegate_did.as_slice(), caller.as_slice()) {
        return Ok(invalid);
    }
    if env.timestamp > session.expires_at {
        return Ok(invalid);
    }
    proof {
        let d = spec_load(store@, session_key(id@), SESSION_RECORD_MAX as int)->Ok_0;
        lemma_decoded_texts(d);
    }
    let scope_text = match decode_chars(session.scope.as_slice()) {
        Some(t) => t,
        None => {
            return Ok(invalid);
        },
    };
    let op_text = match decode_chars(operation) {
        Some(t) => t,
        None => {
            return Ok(invalid);
        },
    };
    if !scope_allows(scope_text.as_slice(), op_text.as_slice()) {
        return Ok(invalid);
    }
    let valid = vec![1u8, 1u8];
    assert(valid@ =~= seq![1u8, 1u8]);
    Ok(valid)
}

/// REVOKE.
pub fn handle_revoke(store: &mut KvStore, env: &HostEnv, id: &[u8], events: &mut Vec<Event>) -> (r: Result<Vec<u8>, ContractError>)
    requires
        old(store).wf(),
    ensures
        final(store).wf(),
        (final(store)@, reply_view(r)) == spec_revoke(old(store)@, *env, id@),
        event_log(final(events)@) == event_log(old(events)@) + revoke_events(old(store)@, *env, id@),
{
    let mut session = load_session(store, id)?;
    let caller = get_caller(env, ContractError::Unauthorized)?;
    if !bytes_equal(session.owner_did.as_slice(), caller.as_slice()) {
        return Err(ContractError::Unauthorized);
    }
    session.status = STATUS_REVOKED;
    let key = session_storage_key(id);
    let record = encode_session(&session);
    store.save(key.as_slice(), record.as_slice());
    emit(events, "session:revoked", id);
    Ok(reply_byte(1))
}

/// GET: the raw session record.
pub fn handle_get(store: &KvStore, id: &[u8]) -> (r: Result<Vec<u8>, ContractError>)
    requires
        store.wf(),
    ensures
        reply_view(r) == (match spec_load(store@, session_key(id@), SESSION_RECORD_MAX as int) {
            Err(e) => Err(e),
            Ok(raw) => Ok(seq![1u8] + raw),
        }),
{
    let key = session_storage_key(id);
    let raw = load_bytes(store, key.as_slice(), SESSION_RECORD_MAX)?;
    let mut out = reply_byte(1);
    append_bytes(&mut out, raw.as_slice());
    Ok(out)
}

/// LIST: the owner's index of session ids (empty when there is none).
pub fn handle_list(store: &KvStore, owner: &[u8]) -> (r: Vec<u8>)
    requires
        store.wf(),
    ensures
        r@ == (match spec_load(store@, index_key(owner@), INDEX_MAX as int) {
            Ok(raw) => seq![1u8] + raw,
            Err(_) => seq![1u8],
        }),
{
    let key = index_key_of(owner);
    let mut out = reply_byte(1);
    match load_bytes(store, key.as_slice(), INDEX_MAX) {
        Ok(raw) => {
            append_bytes(&mut out, raw.as_slice());
        },
        Err(_) => {},
    }
    out
}

/// Handles one call of the contract, appending its event to `events`.
pub fn handle(store: &mut KvStore, env: &HostEnv, input: &[u8], events: &mut Vec<Event>) -> (r: Result<Vec<u8>, ContractError>)
    requires
        old(store).wf(),
    ensures
        final(store).wf(),
        (final(store)@, reply_view(r)) == spec_handle(old(store)@, *env, input@),
        event_log(final(events)@) == event_log(old(events)@) + spec_events(old(store)@, *env, input@),
{
    let mut cursor: usize = 0;
    let op = read_u8(input, &mut cursor)?;
    if op == OP_CREATE {
        let delegate = read_string(input, &mut cursor, MAX_STRING_LEN)?;
        let scope = read_string(input, &mut cursor, MAX_STRING_LEN)?;
        let expires_at = read_u64(input, &mut cursor)?;
        let limit = read_u64(input, &mut cursor)?;
        handle_create(store, env, delegate.as_slice(), scope.as_slice(), expires_at, limit, events)
    } else if op == OP_VALIDATE {
        let id = read_bytes32(input, &mut cursor)?;
        let operation = read_string(input, &mut cursor, MAX_STRING_LEN)?;
        handle_validate(store, env, id.as_slice(), operation.as_slice())
    } else if op == OP_REVOKE {
        let id = read_bytes32(input, &mut cursor)?;
        handle_revoke(store, env, id.as_slice(), events)
    } else if op == OP_GET {
        let id = read_bytes32(input, &mut cursor)?;
        handle_get(store, id.as_slice())
    } else if op == OP_LIST {
        let owner = read_string(input, &mut cursor, MAX_STRING_LEN)?;
        Ok(handle_list(store, owner.as_slice()))
    } else {
        Err(ContractError::InvalidInput)
    }
}

/// The texts a session holds: well-formed UTF-8 of at most
/// `MAX_STRING_LEN` bytes.
pub open spec fn session_texts_ok(s: SessionV) -> bool {
    &&& s.0.len() <= MAX_STRING_LEN && valid_utf8(s.0)
    &&& s.1.len() <= MAX_STRING_LEN && valid_utf8(s.1)
    &&& s.2.len() <= MAX_STRING_LEN && valid_utf8(s.2)
}

proof fn session_step_strings(s: SessionV)
    requires
        session_texts_ok(s),
    ensures
        ({
            let b = session_bytes(s);
            let p1 = spec_string_field(s.0).len() as int;
            let p2 = p1 + spec_string_field(s.1).len();
            let p3 = p2 + spec_string_field(s.2).len();
            &&& spec_read_string(b, 0, MAX_STRING_LEN as int) == Some((s.0, p1))
            &&& spec_read_string(b, p1, MAX_STRING_LEN as int) == Some((s.1, p2))
            &&& spec_read_string(b, p2, MAX_STRING_LEN as int) == Some((s.2, p3))
        }),
{
    session_step_string0(s);
    session_step_string1(s);
    session_step_string2(s);
}

spec fn session_tail(s: SessionV) -> Seq<u8> {
    u64_le_bytes(s.3) + u64_le_bytes(s.4) + u64_le_bytes(s.5) + u64_le_bytes(s.6) + seq![s.7]
}

#[verifier::rlimit(100)]
#[verifier::spinoff_prover]
proof fn session_step_string0(s: SessionV)
    requires
        session_texts_ok(s),
    ensures
        spec_read_string(session_bytes(s), 0, MAX_STRING_LEN as int) == Some((s.0, spec_string_field(s.0).len() as int)),
{
    let rest = spec_string_field(s.1) + spec_string_field(s.2) + session_tail(s);
    let empty = Seq::<u8>::empty();
    assert(session_bytes(s) =~= empty + spec_string_field(s.0) + rest);
    lemma_read_string_field(empty, s.0, rest, MAX_STRING_LEN as int);
}

#[verifier::rlimit(100)]
#[verifier::spinoff_prover]
proof fn session_step_string1(s: SessionV)
    requires
        session_texts_ok(s),
    ensures
        spec_read_string(session_bytes(s), spec_string_field(s.0).len() as int, MAX_STRING_LEN as int)
            == Some((s.1, (spec_string_field(s.0).len() + spec_string_field(s.1).len()) as int)),
{
    let rest = spec_string_field(s.2) + session_tail(s);
    assert(session_bytes(s) =~= spec_string_field(s.0) + spec_string_field(s.1) + rest);
    lemma_read_string_field(spec_string_field(s.0), s.1, rest, MAX_STRING_LEN as int);
}

#[verifier::rlimit(100)]
#[verifier::spinoff_prover]
proof fn session_step_string2(s: SessionV)
    requires
        session_texts_ok(s),
    ensures
        spec_read_string(session_bytes(s), (spec_string_field(s.0).len() + spec_string_field(s.1).len()) as int, MAX_STRING_LEN as int)
            == Some((s.2, (spec_string_field(s.0).len() + spec_string_field(s.1).len() + spec_string_field(s.2).len()) as int)),
{
    let pre = spec_string_field(s.0) + spec_string_field(s.1);
    assert(session_bytes(s) =~= pre + spec_string_field(s.2) + session_tail(s));
    lemma_read_string_field(pre, s.2, session_tail(s), MAX_STRING_LEN as int);
}

#[verifier::rlimit(100)]
#[verifier::spinoff_prover]
proof fn session_step_numbers(s: SessionV)
    ensures
        ({
            let b = session_bytes(s);
            let p3 = (spec_string_field(s.0).len() + spec_string_field(s.1).len() + spec_string_field(s.2).len()) as int;
            &&& spec_read_u64(b, p3) == Some((s.3, p3 + 8))
            &&& spec_read_u64(b, p3 + 8) == Some((s.4, p3 + 16))
            &&& spec_read_u64(b, p3 + 16) == Some((s.5, p3 + 24))
            &&& spec_read_u64(b, p3 + 24) == Some((s.6, p3 + 32))
            &&& b.len() == p3 + 33
            &&& b[p3 + 32] == s.7
        }),
{
    let b = session_bytes(s);
    let pre = spec_string_field(s.0) + spec_string_field(s.1) + spec_string_field(s.2);
    let u3 = u64_le_bytes(s.3);
    let u4 = u64_le_bytes(s.4);
    let u5 = u64_le_bytes(s.5);
    let u6 = u64_le_bytes(s.6);
    let last = seq![s.7];
    assert(b =~= pre + u3 + (u4 + u5 + u6 + last));
    lemma_read_u64_field(pre, s.3, u4 + u5 + u6 + last);
    assert(b =~= (pre + u3) + u4 + (u5 + u6 + last));
    lemma_read_u64_field(pre + u3, s.4, u5 + u6 + last);
    assert(b =~= (pre + u3 + u4) + u5 + (u6 + last));
    lemma_read_u64_field(pre + u3 + u4, s.5, u6 + last);
    assert(b =~= (pre + u3 + u4 + u5) + u6 + last);
    lemma_read_u64_field(pre + u3 + u4 + u5, s.6, last);
}

/// A stored session parses back to itself.
#[verifier::rlimit(100)]
#[verifier::spinoff_prover]
pub proof fn lemma_session_roundtrip(s: SessionV)
    requires
        session_texts_ok(s),
    ensures
        spec_decode_session(session_bytes(s)) == Some(s),
{
    reveal(spec_decode_session);
    session_step_strings(s);
    session_step_numbers(s);
}

proof fn lemma_decoded_session_fits(d: Seq<u8>)
    requires
        spec_decode_session(d) is Some,
    ensures
        session_bytes(spec_decode_session(d)->Some_0).len() <= d.len(),
        session_texts_ok(spec_decode_session(d)->Some_0),
{
    reveal(spec_decode_session);
}

proof fn lemma_keys_distinct(id: Seq<u8>, owner: Seq<u8>)
    ensures
        session_key(id) != index_key(owner),
{
    reveal_strlit("sess:");
    reveal_strlit("idx:");
    vstd::string::is_ascii_spec_bytes("sess:");
    vstd::string::is_ascii_spec_bytes("idx:");
    assert(session_key(id)[0] != index_key(owner)[0]);
}

/// A session stored in full loads back as itself.
proof fn lemma_session_loads(m: Map<Seq<u8>, Seq<u8>>, id: Seq<u8>, s: SessionV)
    requires
        session_texts_ok(s),
        session_bytes(s).len() <= SESSION_RECORD_MAX,
    ensures
        spec_load_session(m.insert(session_key(id), session_bytes(s)), id) == Ok::<SessionV, ContractError>(s),
{
    lemma_session_roundtrip(s);
    assert(prefix_up_to(session_bytes(s), SESSION_RECORD_MAX as int) =~= session_bytes(s));
}

/// A session just granted is valid for its delegate, for an operation its
/// scope allows, until it expires (when its record fits the record size
/// that is read back).
#[verifier::rlimit(100)]
#[verifier::spinoff_prover]
pub proof fn law_create_then_validate(
    m: Map<Seq<u8>, Seq<u8>>,
    env: HostEnv,
    delegate: Seq<u8>,
    scope: Seq<u8>,
    expires_at: u64,
    limit: u64,
    later: HostEnv,
    operation: Seq<u8>,
)
    requires
        spec_create(m, env, delegate, scope, expires_at, limit).1 is Ok,
        env.caller@.len() <= MAX_STRING_LEN,
        delegate.len() <= MAX_STRING_LEN && valid_utf8(delegate),
        scope.len() <= MAX_STRING_LEN && valid_utf8(scope),
        session_bytes((env.caller@, delegate, scope, env.timestamp, expires_at, limit, 0u64, STATUS_ACTIVE)).len() <= SESSION_RECORD_MAX,
        later.caller@ == delegate,
        delegate.len() > 0,
        later.timestamp <= expires_at,
        spec_scope_allows(decode_utf8(scope), decode_utf8(operation)),
    ensures
        spec_validate(spec_create(m, env, delegate, scope, expires_at, limit).0, later,
            session_id(env.caller@, delegate, env.timestamp), operation) == Ok::<Seq<u8>, ContractError>(seq![1u8, 1u8]),
{
    let owner = env.caller@;
    let id = session_id(owner, delegate, env.timestamp);
    let sess = (owner, delegate, scope, env.timestamp, expires_at, limit, 0u64, STATUS_ACTIVE);
    let m1 = m.insert(session_key(id), session_bytes(sess));
    lemma_session_loads(m, id, sess);
    lemma_keys_distinct(id, owner);
    let m2 = m1.insert(index_key(owner), spec_index(m1, owner) + hex_lower(id) + seq![10u8]);
    assert(m2[session_key(id)] == m1[session_key(id)]);
    assert(spec_load_session(m2, id) == spec_load_session(m1, id));
}

/// A revoked session is invalid, for every caller and operation.
#[verifier::rlimit(100)]
#[verifier::spinoff_prover]
pub proof fn law_revoke_then_validate(m: Map<Seq<u8>, Seq<u8>>, env: HostEnv, id: Seq<u8>, later: HostEnv, operation: Seq<u8>)
    requires
        spec_revoke(m, env, id).1 is Ok,
    ensures
        spec_validate(spec_revoke(m, env, id).0, later, id, operation) == Ok::<Seq<u8>, ContractError>(seq![1u8, 0u8]),
{
    let s = spec_load_session(m, id)->Ok_0;
    let d = prefix_up_to(m[session_key(id)], SESSION_RECORD_MAX as int);
    assert(spec_decode_session(d) == Some(s));
    lemma_decoded_session_fits(d);
    let revoked = (s.0, s.1, s.2, s.3, s.4, s.5, s.6, STATUS_REVOKED);
    lemma_session_loads(m, id, revoked);
}

/// CREATE of a session, as a call.
pub open spec fn create_call(delegate: Seq<u8>, scope: Seq<u8>, expires_at: u64, limit: u64) -> Seq<u8> {
    seq![OP_CREATE] + spec_string_field(delegate) + spec_string_field(scope) + u64_le_bytes(expires_at) + u64_le_bytes(limit)
}

/// VALIDATE of a session for an operation, as a call.
pub open spec fn validate_call(id: Seq<u8>, operation: Seq<u8>) -> Seq<u8> {
    seq![OP_VALIDATE] + id + spec_string_field(operation)
}

/// REVOKE of a session, as a call.
pub open spec fn revoke_call(id: Seq<u8>) -> Seq<u8> {
    seq![OP_REVOKE] + id
}

#[verifier::rlimit(50)]
proof fn lemma_create_parses(delegate: Seq<u8>, scope: Seq<u8>, expires_at: u64, limit: u64)
    requires
        delegate.len() <= MAX_STRING_LEN && valid_utf8(delegate),
        scope.len() <= MAX_STRING_LEN && valid_utf8(scope),
    ensures ({
        let c = create_call(delegate, scope, expires_at, limit);
        let p1 = 3 + delegate.len() as int;
        let p2 = p1 + 2 + scope.len() as int;
        &&& spec_read_u8(c, 0) == Some((OP_CREATE, 1int))
        &&& spec_read_string(c, 1, MAX_STRING_LEN as int) == Some((delegate, p1))
        &&& spec_read_string(c, p1, MAX_STRING_LEN as int) == Some((scope, p2))
        &&& spec_read_u64(c, p2) == Some((expires_at, p2 + 8))
        &&& spec_read_u64(c, p2 + 8) == Some((limit, p2 + 16))
    }),
{
    let c = create_call(delegate, scope, expires_at, limit);
    let f1 = seq![OP_CREATE] + spec_string_field(delegate);
    let f2 = f1 + spec_string_field(scope);
    let f3 = f2 + u64_le_bytes(expires_at);
    assert(f1.len() == 3 + delegate.len());
    assert(f2.len() == f1.len() + 2 + scope.len());
    assert(spec_read_string(c, 1, MAX_STRING_LEN as int) == Some((delegate, f1.len() as int))) by {
        assert(c =~= seq![OP_CREATE] + spec_string_field(delegate) + (spec_string_field(scope) + u64_le_bytes(expires_at) + u64_le_bytes(limit)));
        lemma_read_string_field(seq![OP_CREATE], delegate, spec_string_field(scope) + u64_le_bytes(expires_at) + u64_le_bytes(limit), MAX_STRING_LEN as int);
    }
    assert(spec_read_string(c, f1.len() as int, MAX_STRING_LEN as int) == Some((scope, f2.len() as int))) by {
        assert(c =~= f1 + spec_string_field(scope) + (u64_le_bytes(expires_at) + u64_le_bytes(limit)));
        lemma_read_string_field(f1, scope, u64_le_bytes(expires_at) + u64_le_bytes(limit), MAX_STRING_LEN as int);
    }
    assert(spec_read_u64(c, f2.len() as int) == Some((expires_at, f2.len() + 8int))) by {
        assert(c =~= f2 + u64_le_bytes(expires_at) + u64_le_bytes(limit));
        lemma_read_u64_field(f2, expires_at, u64_le_bytes(limit));
    }
    assert(spec_read_u64(c, f3.len() as int) == Some((limit, f3.len() + 8int))) by {
        assert(c =~= f3 + u64_le_bytes(limit) + Seq::<u8>::empty());
        lemma_read_u64_field(f3, limit, Seq::<u8>::empty());
    }
}

proof fn lemma_create_parts(m: Map<Seq<u8>, Seq<u8>>, env: HostEnv, c: Seq<u8>, delegate: Seq<u8>, scope: Seq<u8>, expires_at: u64, limit: u64, p1: int, p2: int)
    requires
        spec_read_u8(c, 0) == Some((OP_CREATE, 1int)),
        spec_read_string(c, 1, MAX_STRING_LEN as int) == Some((delegate, p1)),
        spec_read_string(c, p1, MAX_STRING_LEN as int) == Some((scope, p2)),
        spec_read_u64(c, p2) == Some((expires_at, p2 + 8)),
        spec_read_u64(c, p2 + 8) == Some((limit, p2 + 16)),
    ensures
        spec_handle(m, env, c) == spec_create(m, env, delegate, scope, expires_at, limit),
{
}

proof fn lemma_create_call(m: Map<Seq<u8>, Seq<u8>>, env: HostEnv, delegate: Seq<u8>, scope: Seq<u8>, expires_at: u64, limit: u64)
    requires
        delegate.len() <= MAX_STRING_LEN && valid_utf8(delegate),
        scope.len() <= MAX_STRING_LEN && valid_utf8(scope),
    ensures
        spec_handle(m, env, create_call(delegate, scope, expires_at, limit)) == spec_create(m, env, delegate, scope, expires_at, limit),
{
    lemma_create_parses(delegate, scope, expires_at, limit);
    let p1 = 3 + delegate.len() as int;
    lemma_create_parts(m, env, create_call(delegate, scope, expires_at, limit), delegate, scope, expires_at, limit, p1, p1 + 2 + scope.len() as int);
}

proof fn lemma_id_calls_parse(id: Seq<u8>, operation: Seq<u8>)
    requires
        id.len() == 32,
        operation.len() <= MAX_STRING_LEN && valid_utf8(operation),
    ensures
        spec_read_u8(validate_call(id, operation), 0) == Some((OP_VALIDATE, 1int)),
        spec_read_bytes32(validate_call(id, operation), 1) == Some((id, 33int)),
        spec_read_string(validate_call(id, operation), 33, MAX_STRING_LEN as int) == Some((operation, 35 + operation.len() as int)),
        spec_read_u8(revoke_call(id), 0) == Some((OP_REVOKE, 1int)),
        spec_read_bytes32(revoke_call(id), 1) == Some((id, 33int)),
{
    let v = validate_call(id, operation);
    assert(v.subrange(1, 33) =~= id);
    assert(revoke_call(id).subrange(1, 33) =~= id);
    let pre = seq![OP_VALIDATE] + id;
    assert(pre.len() == 33);
    assert(pre + spec_string_field(operation) + Seq::<u8>::empty() =~= v);
    lemma_read_string_field(pre, operation, Seq::<u8>::empty(), MAX_STRING_LEN as int);
}

proof fn lemma_id_parts(m: Map<Seq<u8>, Seq<u8>>, env: HostEnv, v: Seq<u8>, r: Seq<u8>, id: Seq<u8>, operation: Seq<u8>)
    requires
        spec_read_u8(v, 0) == Some((OP_VALIDATE, 1int)),
        spec_read_bytes32(v, 1) == Some((id, 33int)),
        spec_read_string(v, 33, MAX_STRING_LEN as int) == Some((operation, 35 + operation.len() as int)),
        spec_read_u8(r, 0) == Some((OP_REVOKE, 1int)),
        spec_read_bytes32(r, 1) == Some((id, 33int)),
    ensures
        spec_handle(m, env, v) == (m, spec_validate(m, env, id, operation)),
        spec_handle(m, env, r) == spec_revoke(m, env, id),
{
}

proof fn lemma_id_calls(m: Map<Seq<u8>, Seq<u8>>, env: HostEnv, id: Seq<u8>, operation: Seq<u8>)
    requires
        id.len() == 32,
        operation.len() <= MAX_STRING_LEN && valid_utf8(operation),
    ensures
        spec_handle(m, env, validate_call(id, operation)) == (m, spec_validate(m, env, id, operation)),
        spec_handle(m, env, revoke_call(id)) == spec_revoke(m, env, id),
{
    lemma_id_calls_parse(id, operation);
    lemma_id_parts(m, env, validate_call(id, operation), revoke_call(id), id, operation);
}

/// Through the contract's calls: a CREATE that succeeds grants a session
/// that VALIDATE answers as valid (`[1, 1]`) for its delegate, for an
/// operation its scope allows, until it expires; once its owner's REVOKE
/// succeeds, VALIDATE answers invalid (`[1, 0]`) for every caller and
/// operation.
pub proof fn law_session_calls(
    m: Map<Seq<u8>, Seq<u8>>,
    env: HostEnv,
    delegate: Seq<u8>,
    scope: Seq<u8>,
    expires_at: u64,
    limit: u64,
    later: HostEnv,
    operation: Seq<u8>,
    revoker: HostEnv,
)
    requires
        spec_create(m, env, delegate, scope, expires_at, limit).1 is Ok,
        env.caller@.len() <= MAX_STRING_LEN,
        delegate.len() <= MAX_STRING_LEN && valid_utf8(delegate),
        scope.len() <= MAX_STRING_LEN && valid_utf8(scope),
        operation.len() <= MAX_STRING_LEN && valid_utf8(operation),
        session_id(env.caller@, delegate, env.timestamp).len() == 32,
        session_bytes((env.caller@, delegate, scope, env.timestamp, expires_at, limit, 0u64, STATUS_ACTIVE)).len() <= SESSION_RECORD_MAX,
        later.caller@ == delegate,
        delegate.len() > 0,
        later.timestamp <= expires_at,
        spec_scope_allows(decode_utf8(scope), decode_utf8(operation)),
    ensures ({
        let id = session_id(env.caller@, delegate, env.timestamp);
        let m1 = spec_handle(m, env, create_call(delegate, scope, expires_at, limit)).0;
        &&& spec_handle(m, env, create_call(delegate, scope, expires_at, limit)).1 is Ok
        &&& spec_handle(m1, later, validate_call(id, operation)).1 == Ok::<Seq<u8>, ContractError>(seq![1u8, 1u8])
        &&& spec_handle(m1, revoker, revoke_call(id)).1 is Ok ==>
            spec_handle(spec_handle(m1, revoker, revoke_call(id)).0, later, validate_call(id, operation)).1
                == Ok::<Seq<u8>, ContractError>(seq![1u8, 0u8])
    }),
{
    let id = session_id(env.caller@, delegate, env.timestamp);
    lemma_create_call(m, env, delegate, scope, expires_at, limit);
    law_create_then_validate(m, env, delegate, scope, expires_at, limit, later, operation);
    let m1 = spec_create(m, env, delegate, scope, expires_at, limit).0;
    lemma_id_calls(m1, later, id, operation);
    lemma_id_calls(m1, revoker, id, operation);
    if spec_revoke(m1, revoker, id).1 is Ok {
        law_revoke_then_validate(m1, revoker, id, later, operation);
        lemma_id_calls(spec_revoke(m1, revoker, id).0, later, id, operation);
    }
}

} // verus!
