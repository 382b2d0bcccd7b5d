use spacekit_stdlib::access;
use spacekit_stdlib::codec::{hex_encode, u64_to_decimal};
use spacekit_stdlib::error::ContractError;
use spacekit_stdlib::hello_world;
use spacekit_stdlib::host::HostEnv;
use spacekit_stdlib::marketplace::entitlement_ledger as ledger;
use spacekit_stdlib::reputation;
use spacekit_stdlib::store::KvStore;
use spacekit_stdlib::tube;

fn s(text: &str) -> Vec<u8> {
    let mut out = (text.len() as u16).to_le_bytes().to_vec();
    out.extend_from_slice(text.as_bytes());
    out
}

fn call(op: u8, parts: &[Vec<u8>]) -> Vec<u8> {
    let mut out = vec![op];
    for p in parts {
        out.extend_from_slice(p);
    }
    out
}

fn n(v: u64) -> Vec<u8> {
    v.to_le_bytes().to_vec()
}

fn env(caller: &str, value: u64, ts: u64) -> HostEnv {
    HostEnv { caller: caller.as_bytes().to_vec(), msg_value: value, timestamp: ts }
}

#[test]
fn hello_greets() {
    assert_eq!(hello_world::handle(&s("Ada"), &mut Vec::new()), Ok(b"Hello, Ada!".to_vec()));
    assert_eq!(hello_world::handle(&[5, 0, b'x'], &mut Vec::new()), Err(ContractError::InvalidInput));
}

#[test]
fn codec_texts() {
    assert_eq!(hex_encode(&[0x00, 0xab, 0x7f]), b"00ab7f".to_vec());
    assert_eq!(u64_to_decimal(0), b"0".to_vec());
    assert_eq!(u64_to_decimal(18_446_744_073_709_551_615), b"18446744073709551615".to_vec());
}

#[test]
fn access_grant_then_revoke() {
    let mut store = KvStore::new();
    let has = call(access::OP_HAS_ROLE, &[s("admin"), s("did:a")]);
    assert_eq!(access::handle(&mut store, &has), Ok(vec![1, 0]));
    assert_eq!(access::handle(&mut store, &call(access::OP_GRANT_ROLE, &[s("admin"), s("did:a")])), Ok(vec![1]));
    assert_eq!(access::handle(&mut store, &has), Ok(vec![1, 1]));
    assert_eq!(access::handle(&mut store, &call(access::OP_REVOKE_ROLE, &[s("admin"), s("did:a")])), Ok(vec![1]));
    assert_eq!(access::handle(&mut store, &has), Ok(vec![1, 0]));
    assert_eq!(access::role_member_key(b"r", b"a"), b"access:role:\x01\x00ra".to_vec());
    assert_eq!(access::role_admin_key(b"r"), b"access:admin:r".to_vec());
}

#[test]
fn access_admin_roundtrip() {
    let mut store = KvStore::new();
    assert_eq!(access::handle(&mut store, &call(access::OP_SET_ADMIN, &[s("ops"), s("did:boss")])), Ok(vec![1]));
    let mut expected = vec![1u8];
    expected.extend_from_slice(b"did:boss");
    assert_eq!(access::handle(&mut store, &call(access::OP_GET_ADMIN, &[s("ops")])), Ok(expected));
    assert_eq!(access::handle(&mut store, &call(access::OP_GET_ADMIN, &[s("none")])), Err(ContractError::StorageError));
}

#[test]
fn reputation_get_of_a_short_record_traps() {
    let mut store = KvStore::new();
    let get = call(reputation::OP_GET, &[s("did:x")]);
    assert!(!reputation::handle_traps(&store, &get));
    store.save(b"rep:global:did:x", &[1, 2, 3]);
    assert!(reputation::handle_traps(&store, &get));
    assert!(!reputation::handle_traps(&store, &call(reputation::OP_SUBMIT, &[s("did:x"), vec![5]])));
    reputation::handle(&mut store, &call(reputation::OP_SUBMIT, &[s("did:x"), vec![5]])).unwrap();
    assert!(!reputation::handle_traps(&store, &get));
}

#[test]
fn reputation_averages_scores() {
    let mut store = KvStore::new();
    reputation::handle(&mut store, &call(reputation::OP_SUBMIT, &[s("did:x"), vec![10]])).unwrap();
    reputation::handle(&mut store, &call(reputation::OP_SUBMIT, &[s("did:x"), vec![21]])).unwrap();
    let mut expected = vec![1u8];
    expected.extend_from_slice(&n(15));
    expected.extend_from_slice(&n(2));
    assert_eq!(reputation::handle(&mut store, &call(reputation::OP_GET, &[s("did:x")])), Ok(expected));
}

#[test]
fn tube_publish_then_get() {
    let mut store = KvStore::new();
    let mut blob = (3u32).to_le_bytes().to_vec();
    blob.extend_from_slice(&[9, 8, 7]);
    let publish = call(tube::OP_PUBLISH, &[s("v1"), s("Title"), blob]);
    assert_eq!(tube::handle(&mut store, &publish, &mut Vec::new()), Ok(vec![1]));
    assert_eq!(tube::handle(&mut store, &call(tube::OP_GET_VIDEO, &[s("v1")]), &mut Vec::new()), Ok(vec![9, 8, 7]));
    assert_eq!(tube::handle(&mut store, &call(tube::OP_GET_META, &[s("v1")]), &mut Vec::new()), Ok(b"Title".to_vec()));
    assert_eq!(tube::handle(&mut store, &call(tube::OP_DELETE, &[s("v1")]), &mut Vec::new()), Ok(vec![1]));
    assert_eq!(tube::handle(&mut store, &call(tube::OP_GET_VIDEO, &[s("v1")]), &mut Vec::new()), Err(ContractError::StorageError));
    assert_eq!(tube::handle(&mut store, &call(tube::OP_GET_META, &[s("v1")]), &mut Vec::new()), Err(ContractError::StorageError));
}

#[test]
fn ledger_purchase_verify_revoke() {
    let mut store = KvStore::new();
    let publisher = env("did:pub", 0, 10);
    let create = call(ledger::OP_CREATE_LISTING, &[s("L1"), s("file-9"), n(50), s("SUSD"), vec![ledger::PRICING_SUBSCRIPTION], n(100)]);
    assert_eq!(ledger::dispatch(&mut store, &create, &publisher, &mut Vec::new()), Ok(vec![1]));
    let buyer = env("did:buyer", 50, 1000);
    let purchase = call(ledger::OP_PURCHASE, &[s("L1")]);
    assert_eq!(ledger::dispatch(&mut store, &purchase, &env("did:buyer", 49, 1000), &mut Vec::new()), Err(ContractError::InsufficientPayment));
    let reply = ledger::dispatch(&mut store, &purchase, &buyer, &mut Vec::new()).unwrap();
    assert_eq!(reply.len(), 33);
    let id = reply[1..].to_vec();
    let verify = |who: &str, file: &str, at: u64| {
        let input = call(ledger::OP_VERIFY, &[id.clone(), s(who), s(file)]);
        (input, env("did:any", 0, at))
    };
    let (v, e) = verify("did:buyer", "file-9", 1100);
    assert_eq!(ledger::dispatch(&mut store, &v, &e, &mut Vec::new()), Ok(vec![1, ledger::STATUS_VALID]));
    let (v, e) = verify("did:buyer", "file-9", 1101);
    assert_eq!(ledger::dispatch(&mut store, &v, &e, &mut Vec::new()), Ok(vec![1, ledger::STATUS_EXPIRED]));
    let (v, e) = verify("did:other", "file-9", 1000);
    assert_eq!(ledger::dispatch(&mut store, &v, &e, &mut Vec::new()), Ok(vec![1, ledger::STATUS_WRONG_BUYER]));
    let (v, e) = verify("did:buyer", "file-1", 1000);
    assert_eq!(ledger::dispatch(&mut store, &v, &e, &mut Vec::new()), Ok(vec![1, ledger::STATUS_WRONG_FILE]));
    let revoke = call(ledger::OP_REVOKE, &[id.clone()]);
    assert_eq!(ledger::dispatch(&mut store, &revoke, &buyer, &mut Vec::new()), Err(ContractError::Unauthorized));
    assert_eq!(ledger::dispatch(&mut store, &revoke, &publisher, &mut Vec::new()), Ok(vec![1]));
    let (v, e) = verify("did:buyer", "file-9", 1000);
    assert_eq!(ledger::dispatch(&mut store, &v, &e, &mut Vec::new()), Ok(vec![1, ledger::STATUS_REVOKED]));
}

#[test]
fn bump_arena_aligns_and_refuses_overflow() {
    let mut arena = spacekit_stdlib::arena::BumpArena::new(64);
    assert_eq!(arena.reserve(3, 1), Some(0));
    assert_eq!(arena.pos, 3);
    assert_eq!(arena.reserve(4, 4), Some(4));
    assert_eq!(arena.pos, 8);
    assert_eq!(arena.reserve(100, 8), None);
    assert_eq!(arena.pos, 8);
    assert_eq!(arena.reserve(8, 16), Some(16));
    assert_eq!(arena.pos, 24);
    assert_eq!(arena.reserve(40, 8), Some(24));
    assert_eq!(arena.pos, 64);
    assert_eq!(arena.reserve(1, 1), None);
}

#[test]
fn ledger_flags_subscription_end_past_u64() {
    let mut store = KvStore::new();
    let publisher = env("did:pub", 0, 0);
    let create = call(
        ledger::OP_CREATE_LISTING,
        &[s("L9"), s("file-9"), n(5), s("SUSD"), vec![ledger::PRICING_SUBSCRIPTION], n(u64::MAX)],
    );
    assert_eq!(ledger::dispatch(&mut store, &create, &publisher, &mut Vec::new()), Ok(vec![1]));
    let purchase = call(ledger::OP_PURCHASE, &[s("L9")]);
    assert!(ledger::dispatch_traps(&store, &purchase, &env("did:buyer", 5, 1)));
    assert!(!ledger::dispatch_traps(&store, &purchase, &env("did:buyer", 5, 0)));
    assert!(!ledger::dispatch_traps(&store, &purchase, &env("did:buyer", 4, 1)));
    assert!(!ledger::dispatch_traps(&store, &call(ledger::OP_PURCHASE, &[s("none")]), &env("did:buyer", 5, 1)));
}

#[test]
fn compression_reports_failure_as_zero() {
    assert_eq!(spacekit_stdlib::compression::reported_length(1234), 1234);
    assert_eq!(spacekit_stdlib::compression::reported_length(0), 0);
    assert_eq!(spacekit_stdlib::compression::reported_length(-5), 0);
    assert_eq!(spacekit_stdlib::compression::DEFAULT_MODE, "adaptive");
}

#[test]
fn hello_and_tube_emit_events() {
    let mut events = Vec::new();
    hello_world::handle(&s("Ada"), &mut events).unwrap();
    assert_eq!(events.len(), 1);
    assert_eq!(events[0].name, b"spacekit.hello_world".to_vec());
    assert_eq!(events[0].data, b"Hello, Ada!".to_vec());
    assert!(hello_world::handle(&[9], &mut events).is_err());
    assert_eq!(events.len(), 1);

    let mut store = KvStore::new();
    let mut events = Vec::new();
    let mut publish = call(tube::OP_PUBLISH, &[s("v7"), s("Title")]);
    publish.extend_from_slice(&3u32.to_le_bytes());
    publish.extend_from_slice(b"abc");
    tube::handle(&mut store, &publish, &mut events).unwrap();
    tube::handle(&mut store, &call(tube::OP_GET_META, &[s("v7")]), &mut events).unwrap();
    tube::handle(&mut store, &call(tube::OP_DELETE, &[s("v7")]), &mut events).unwrap();
    assert_eq!(events.len(), 2);
    assert_eq!((events[0].name.clone(), events[0].data.clone()), (b"spacekit.tube.publish".to_vec(), b"v7".to_vec()));
    assert_eq!((events[1].name.clone(), events[1].data.clone()), (b"spacekit.tube.delete".to_vec(), b"v7".to_vec()));
}

#[test]
fn ledger_announces_grants_and_revocations() {
    let mut store = KvStore::new();
    let mut events = Vec::new();
    let publisher = env("did:pub", 0, 10);
    let create = call(ledger::OP_CREATE_LISTING, &[s("L2"), s("f"), n(0), s("SUSD"), vec![0], n(0)]);
    ledger::dispatch(&mut store, &create, &publisher, &mut events).unwrap();
    assert!(events.is_empty());
    let reply = ledger::dispatch(&mut store, &call(ledger::OP_PURCHASE, &[s("L2")]), &env("did:b", 0, 5), &mut events).unwrap();
    let id = reply[1..].to_vec();
    let mut granted = id.clone();
    granted.extend_from_slice(b"did:b\0L2");
    assert_eq!(events.len(), 1);
    assert_eq!(events[0].name, b"entitlement:granted".to_vec());
    assert_eq!(events[0].data, granted);
    ledger::dispatch(&mut store, &call(ledger::OP_REVOKE, &[id.clone()]), &publisher, &mut events).unwrap();
    assert_eq!(events.len(), 2);
    assert_eq!(events[1].name, b"entitlement:revoked".to_vec());
    assert_eq!(events[1].data, id);
}

#[test]
fn access_roles_with_colons_do_not_collide() {
    let mut store = KvStore::new();
    let grant = call(access::OP_GRANT_ROLE, &[s("a:b"), s("c")]);
    assert_eq!(access::handle(&mut store, &grant), Ok(vec![1]));
    assert_eq!(access::handle(&mut store, &call(access::OP_HAS_ROLE, &[s("a:b"), s("c")])), Ok(vec![1, 1]));
    assert_eq!(access::handle(&mut store, &call(access::OP_HAS_ROLE, &[s("a"), s("b:c")])), Ok(vec![1, 0]));
}
