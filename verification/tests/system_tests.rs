use spacekit_stdlib::error::ContractError;
use spacekit_stdlib::host::HostEnv;
use spacekit_stdlib::store::KvStore;
use spacekit_stdlib::system::did_registry::{self, Prepared};
use spacekit_stdlib::system::{session_keys, shared_vault};

const SHA256_ABC: &str = "ba7816bf8f01cfea414140de5dae2223b00361a396177a9cb410ff61f20015ad";

fn s(text: &str) -> Vec<u8> {
    b(text.as_bytes())
}

fn b(bytes: &[u8]) -> Vec<u8> {
    let mut out = (bytes.len() as u16).to_le_bytes().to_vec();
    out.extend_from_slice(bytes);
    out
}

fn call(op: u8, parts: &[Vec<u8>]) -> Vec<u8> {
    let mut out = vec![op];
    for p in parts {
        out.extend_from_slice(p);
    }
    out
}

fn n(v: u64) -> Vec<u8> {
    v.to_le_bytes().to_vec()
}

fn env(caller: &str, ts: u64) -> HostEnv {
    HostEnv { caller: caller.as_bytes().to_vec(), msg_value: 0, timestamp: ts }
}

fn hex(bytes: &[u8]) -> String {
    bytes.iter().map(|x| format!("{:02x}", x)).collect()
}

#[test]
fn session_id_is_the_digest_of_owner_delegate_and_time() {
    let id = session_keys::derive_session_id(b"a", b"b", 0);
    assert_eq!(id.len(), 32);
    assert_eq!(id, session_keys::derive_session_id(b"a", b"b", 0));
    let other = session_keys::derive_session_id(b"a", b"b", 1);
    assert_ne!(id, other);
}

#[test]
fn session_scope_matching() {
    let scope: Vec<char> = "vault_charge | transfer".chars().collect();
    let op = |x: &str| x.chars().collect::<Vec<char>>();
    assert!(session_keys::scope_allows(&scope, &op("transfer")));
    assert!(session_keys::scope_allows(&scope, &op("vault_charge")));
    assert!(!session_keys::scope_allows(&scope, &op("vault")));
    assert!(session_keys::scope_allows(&op("*"), &op("anything")));
    assert!(!session_keys::scope_allows(&op("a|b"), &op("")));
    assert!(session_keys::scope_allows(&op("a||b"), &op("")));
}

#[test]
fn session_create_validate_revoke() {
    let mut store = KvStore::new();
    let owner = env("did:owner", 100);
    let create = call(session_keys::OP_CREATE, &[s("did:agent"), s("vault_charge|transfer"), n(200), n(1000)]);
    let reply = session_keys::handle(&mut store, &owner, &create, &mut Vec::new()).unwrap();
    assert_eq!(reply.len(), 33);
    assert_eq!(reply[0], 1);
    let id = reply[1..].to_vec();
    assert_eq!(id, session_keys::derive_session_id(b"did:owner", b"did:agent", 100));

    let validate = |op: &str| call(session_keys::OP_VALIDATE, &[id.clone(), s(op)]);
    assert_eq!(session_keys::handle(&mut store, &env("did:agent", 150), &validate("transfer"), &mut Vec::new()), Ok(vec![1, 1]));
    assert_eq!(session_keys::handle(&mut store, &env("did:agent", 201), &validate("transfer"), &mut Vec::new()), Ok(vec![1, 0]));
    assert_eq!(session_keys::handle(&mut store, &env("did:other", 150), &validate("transfer"), &mut Vec::new()), Ok(vec![1, 0]));
    assert_eq!(session_keys::handle(&mut store, &env("did:agent", 150), &validate("mint"), &mut Vec::new()), Ok(vec![1, 0]));

    let mut listed = vec![1u8];
    listed.extend_from_slice(hex(&id).as_bytes());
    listed.push(b'\n');
    assert_eq!(session_keys::handle(&mut store, &owner, &call(session_keys::OP_LIST, &[s("did:owner")]), &mut Vec::new()), Ok(listed));

    let revoke = call(session_keys::OP_REVOKE, &[id.clone()]);
    assert_eq!(session_keys::handle(&mut store, &env("did:agent", 150), &revoke, &mut Vec::new()), Err(ContractError::Unauthorized));
    assert_eq!(session_keys::handle(&mut store, &owner, &revoke, &mut Vec::new()), Ok(vec![1]));
    assert_eq!(session_keys::handle(&mut store, &env("did:agent", 150), &validate("transfer"), &mut Vec::new()), Ok(vec![1, 0]));
}

#[test]
fn session_create_refuses_past_expiry() {
    let mut store = KvStore::new();
    let create = call(session_keys::OP_CREATE, &[s("did:agent"), s("*"), n(100), n(0)]);
    assert_eq!(session_keys::handle(&mut store, &env("did:owner", 100), &create, &mut Vec::new()), Err(ContractError::InvalidInput));
    assert_eq!(
        session_keys::handle(&mut store, &env("did:owner", 100), &call(session_keys::OP_GET, &[vec![0u8; 32]]), &mut Vec::new()),
        Err(ContractError::StorageError)
    );
    assert_eq!(
        session_keys::handle(&mut store, &env("did:owner", 100), &call(session_keys::OP_LIST, &[s("did:none")]), &mut Vec::new()),
        Ok(vec![1])
    );
}

#[test]
fn vault_id_is_the_hex_digest_of_owner_and_file() {
    assert_eq!(shared_vault::derive_vault_id(b"ab", b"c"), SHA256_ABC.as_bytes().to_vec());
}

#[test]
fn vault_membership_and_threshold_access() {
    let mut store = KvStore::new();
    let owner = env("did:owner", 0);
    let create = call(shared_vault::OP_CREATE_VAULT, &[s("file-1"), vec![1, 2], s("did:m1"), s("did:m2")]);
    let vault_id = shared_vault::dispatch(&mut store, &owner, &create).unwrap();
    assert_eq!(vault_id, shared_vault::derive_vault_id(b"did:owner", b"file-1"));
    let vid = String::from_utf8(vault_id.clone()).unwrap();

    let check = |did: &str| call(shared_vault::OP_CHECK_ACCESS, &[s(&vid), s(did)]);
    assert_eq!(shared_vault::dispatch(&mut store, &owner, &check("did:owner")), Ok(vec![1]));
    assert_eq!(shared_vault::dispatch(&mut store, &owner, &check("did:m2")), Ok(vec![1]));
    assert_eq!(shared_vault::dispatch(&mut store, &owner, &check("did:guest")), Ok(vec![0]));

    let request = call(shared_vault::OP_REQUEST_ACCESS, &[s(&vid)]);
    assert_eq!(shared_vault::dispatch(&mut store, &env("did:guest", 0), &request), Ok(vec![1]));
    assert_eq!(shared_vault::dispatch(&mut store, &env("did:m1", 0), &request), Ok(vec![2]));
    let approve = call(shared_vault::OP_APPROVE_ACCESS, &[s(&vid), s("did:guest")]);
    assert_eq!(shared_vault::dispatch(&mut store, &env("did:stranger", 0), &approve), Err(ContractError::Failed));
    assert_eq!(shared_vault::dispatch(&mut store, &env("did:m1", 0), &approve), Ok(vec![2]));
    assert_eq!(shared_vault::dispatch(&mut store, &env("did:m1", 0), &approve), Ok(vec![0]));
    assert_eq!(shared_vault::dispatch(&mut store, &owner, &check("did:guest")), Ok(vec![2]));

    let remove = call(shared_vault::OP_REMOVE_MEMBER, &[s(&vid), s("did:m2")]);
    assert_eq!(shared_vault::dispatch(&mut store, &env("did:m1", 0), &remove), Err(ContractError::Failed));
    assert_eq!(shared_vault::dispatch(&mut store, &owner, &remove), Ok(vec![1]));
    assert_eq!(shared_vault::dispatch(&mut store, &owner, &check("did:m2")), Ok(vec![0]));
    let remove_owner = call(shared_vault::OP_REMOVE_MEMBER, &[s(&vid), s("did:owner")]);
    assert_eq!(shared_vault::dispatch(&mut store, &owner, &remove_owner), Err(ContractError::InvalidInput));

    let add = call(shared_vault::OP_ADD_MEMBER, &[s(&vid), s("did:m1")]);
    assert_eq!(shared_vault::dispatch(&mut store, &owner, &add), Err(ContractError::InvalidInput));
    let add_new = call(shared_vault::OP_ADD_MEMBER, &[s(&vid), s("did:m3")]);
    assert_eq!(shared_vault::dispatch(&mut store, &owner, &add_new), Ok(vec![1]));
    assert_eq!(shared_vault::dispatch(&mut store, &owner, &check("did:m3")), Ok(vec![1]));
}

#[test]
fn vault_creation_checks_threshold() {
    let mut store = KvStore::new();
    let owner = env("did:owner", 0);
    let too_high = call(shared_vault::OP_CREATE_VAULT, &[s("f"), vec![2, 1], s("did:m1")]);
    assert_eq!(shared_vault::dispatch(&mut store, &owner, &too_high), Err(ContractError::InvalidInput));
    let zero = call(shared_vault::OP_CREATE_VAULT, &[s("f"), vec![0, 1], s("did:m1")]);
    assert_eq!(shared_vault::dispatch(&mut store, &owner, &zero), Err(ContractError::InvalidInput));
    let nobody = env("", 0);
    let ok = call(shared_vault::OP_CREATE_VAULT, &[s("f"), vec![1, 1], s("did:m1")]);
    assert_eq!(shared_vault::dispatch(&mut store, &nobody, &ok), Err(ContractError::Failed));
    let resolve = call(shared_vault::OP_RESOLVE_VAULT, &[s("missing")]);
    assert_eq!(shared_vault::dispatch(&mut store, &owner, &resolve), Err(ContractError::HostError));
}

fn prepare_and_finish(store: &mut KvStore, input: &[u8], valid: bool) -> Result<Vec<u8>, ContractError> {
    match did_registry::prepare(store, input)? {
        Prepared::Done(reply) => Ok(reply),
        Prepared::Verify(pending) => did_registry::finish(store, pending, valid, &mut Vec::new()),
    }
}

#[test]
fn did_address_and_did_text() {
    assert_eq!(did_registry::derive_address(b"abc"), SHA256_ABC[..40].as_bytes().to_vec());
    assert_eq!(did_registry::build_did(b"main", b"ff"), b"did:spacekit:main:ff".to_vec());
}

#[test]
fn did_register_resolve_rotate_deactivate() {
    let mut store = KvStore::new();
    let register = call(did_registry::OP_REGISTER, &[s("main"), b(b"abc"), b(b"kyber"), b(b"sig")]);
    match did_registry::prepare(&store, &register).unwrap() {
        Prepared::Verify(p) => {
            assert_eq!(p.check().public_key, b"abc".to_vec());
            assert_eq!(p.check().message, b"abckybermain".to_vec());
            assert_eq!(p.check().signature, b"sig".to_vec());
        }
        Prepared::Done(_) => panic!("registration needs a signature check"),
    }
    assert_eq!(prepare_and_finish(&mut store, &register, false), Err(ContractError::HostError));
    let did = format!("did:spacekit:main:{}", &SHA256_ABC[..40]);
    let mut reply = vec![1u8];
    reply.extend_from_slice(&s(&did));
    assert_eq!(prepare_and_finish(&mut store, &register, true), Ok(reply));
    assert_eq!(prepare_and_finish(&mut store, &register, true), Err(ContractError::Failed));

    let resolve = call(did_registry::OP_RESOLVE, &[s(&did)]);
    let doc = prepare_and_finish(&mut store, &resolve, true).unwrap();
    assert_eq!(doc[0], 1);
    assert_eq!(doc[1], did_registry::DOC_VERSION);

    let rotate = call(did_registry::OP_ROTATE, &[s(&did), b(b"new-pk"), b(b"new-kyber"), b(b"sig2")]);
    match did_registry::prepare(&store, &rotate).unwrap() {
        Prepared::Verify(p) => {
            assert_eq!(p.check().public_key, b"abc".to_vec());
            let mut msg = b"new-pknew-kyber".to_vec();
            msg.extend_from_slice(&0u64.to_le_bytes());
            assert_eq!(p.check().message, msg);
        }
        Prepared::Done(_) => panic!("rotation needs a signature check"),
    }
    assert_eq!(prepare_and_finish(&mut store, &rotate, true), Ok(vec![1]));
    let deactivate = call(did_registry::OP_DEACTIVATE, &[s(&did), b(b"sig3")]);
    match did_registry::prepare(&store, &deactivate).unwrap() {
        Prepared::Verify(p) => {
            assert_eq!(p.check().public_key, b"new-pk".to_vec());
            let mut msg = did.as_bytes().to_vec();
            msg.extend_from_slice(&1u64.to_le_bytes());
            assert_eq!(p.check().message, msg);
        }
        Prepared::Done(_) => panic!("deactivation needs a signature check"),
    }
    assert_eq!(prepare_and_finish(&mut store, &deactivate, true), Ok(vec![1]));
    assert_eq!(prepare_and_finish(&mut store, &resolve, true), Err(ContractError::Failed));
}

#[test]
fn session_and_did_events() {
    let mut store = KvStore::new();
    let mut events = Vec::new();
    let owner = env("did:owner", 100);
    let create = call(session_keys::OP_CREATE, &[s("did:agent"), s("*"), n(200), n(0)]);
    let reply = session_keys::handle(&mut store, &owner, &create, &mut events).unwrap();
    let id = reply[1..].to_vec();
    let mut created = id.clone();
    created.extend_from_slice(b"did:owner");
    assert_eq!(events.len(), 1);
    assert_eq!(events[0].name, b"session:created".to_vec());
    assert_eq!(events[0].data, created);
    session_keys::handle(&mut store, &owner, &call(session_keys::OP_REVOKE, &[id.clone()]), &mut events).unwrap();
    assert_eq!(events[1].name, b"session:revoked".to_vec());
    assert_eq!(events[1].data, id);

    let mut store = KvStore::new();
    let mut events = Vec::new();
    let register = call(did_registry::OP_REGISTER, &[s("main"), b(b"abc"), b(b"kyber"), b(b"sig")]);
    let did = format!("did:spacekit:main:{}", &SHA256_ABC[..40]);
    for valid in [false, true] {
        match did_registry::prepare(&store, &register).unwrap() {
            Prepared::Verify(p) => {
                let _ = did_registry::finish(&mut store, p, valid, &mut events);
            }
            Prepared::Done(_) => panic!("registration needs a signature check"),
        }
    }
    assert_eq!(events.len(), 1);
    assert_eq!(events[0].name, b"did:registered".to_vec());
    assert_eq!(events[0].data, did.as_bytes().to_vec());
}
