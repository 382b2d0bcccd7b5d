use spacekit_stdlib::error::ContractError;
use spacekit_stdlib::host::HostEnv;
use spacekit_stdlib::payments::{escrow, payable_demo, paymaster, router};
use spacekit_stdlib::store::KvStore;

fn s(text: &str) -> Vec<u8> {
    let mut out = (text.len() as u16).to_le_bytes().to_vec();
    out.extend_from_slice(text.as_bytes());
    out
}

fn call(op: u8, parts: &[Vec<u8>]) -> Vec<u8> {
    let mut out = vec![op];
    for p in parts {
        out.extend_from_slice(p);
    }
    out
}

fn n(v: u64) -> Vec<u8> {
    v.to_le_bytes().to_vec()
}

fn env(caller: &str, value: u64, ts: u64) -> HostEnv {
    HostEnv { caller: caller.as_bytes().to_vec(), msg_value: value, timestamp: ts }
}

fn chars(text: &str) -> Vec<char> {
    text.chars().collect()
}

#[test]
fn escrow_release_marks_the_record() {
    let mut store = KvStore::new();
    let create = call(escrow::OP_CREATE, &[s("e1"), s("SUSD"), s("payer"), s("payee"), n(500), s("arb")]);
    assert_eq!(escrow::handle(&mut store, &create), Ok(vec![1]));
    assert_eq!(escrow::handle(&mut store, &call(escrow::OP_RELEASE, &[s("e1")])), Ok(vec![1]));
    let got = escrow::handle(&mut store, &call(escrow::OP_GET, &[s("e1")])).unwrap();
    assert_eq!(got[0], 1);
    assert_eq!(*got.last().unwrap(), escrow::STATUS_RELEASED);
    assert_eq!(escrow::handle(&mut store, &call(escrow::OP_REFUND, &[s("nope")])), Err(ContractError::StorageError));
}

#[test]
fn router_stores_splits() {
    let mut store = KvStore::new();
    let set = call(router::OP_SET_SPLIT, &[s("r1"), vec![2], s("a"), 7000u16.to_le_bytes().to_vec(), s("b"), 3000u16.to_le_bytes().to_vec()]);
    assert_eq!(router::handle(&mut store, &set), Ok(vec![1]));
    let mut expected = vec![1u8, 2];
    expected.extend_from_slice(&s("a"));
    expected.extend_from_slice(&7000u16.to_le_bytes());
    expected.extend_from_slice(&s("b"));
    expected.extend_from_slice(&3000u16.to_le_bytes());
    assert_eq!(router::handle(&mut store, &call(router::OP_GET_SPLIT, &[s("r1")])), Ok(expected));
    assert_eq!(router::handle(&mut store, &call(router::OP_SET_SPLIT, &[s("r2"), vec![0]])), Err(ContractError::InvalidInput));
}

#[test]
fn paymaster_parses_policy_numbers() {
    let json = chars(r#"{"per_call_max": "250", "daily_max":1000, "expires_at": 99999999999999999999}"#);
    assert_eq!(paymaster::parse_u64_field(&json, &chars("per_call_max")), 250);
    assert_eq!(paymaster::parse_u64_field(&json, &chars("daily_max")), 1000);
    assert_eq!(paymaster::parse_u64_field(&json, &chars("expires_at")), 0);
    assert_eq!(paymaster::parse_u64_field(&json, &chars("missing")), 0);
    assert_eq!(paymaster::parse_u64_field(&chars("daily_max: x"), &chars("daily_max")), 0);
}

#[test]
fn paymaster_parses_policy_lists() {
    let json = chars(r#"{"allowed_ops": ["vault_charge", "search"], "allowed_dids": ["*"]}"#);
    let ops = paymaster::parse_string_field(&json, &chars("allowed_ops"));
    assert_eq!(ops, chars(r#"["vault_charge", "search"]"#));
    let dids = paymaster::parse_string_field(&json, &chars("allowed_dids"));
    assert!(paymaster::policy_allows_did(&dids, &chars("did:anyone")));
    assert!(paymaster::policy_allows_op(&ops, &chars("search")));
    assert!(!paymaster::policy_allows_op(&ops, &chars("vault")));
    assert!(!paymaster::policy_allows_did(&chars(r#"["did:alice2"]"#), &chars("did:alice")));
    assert!(paymaster::policy_allows_did(&chars(r#"["did:alice"]"#), &chars("did:alice")));
    assert!(paymaster::policy_allows_did(&chars(""), &chars("did:x")));
    assert!(paymaster::policy_allows_did(&chars(r#"["*"]"#), &chars("did:x")));
    assert!(!paymaster::policy_allows_op(&ops, &chars("transfer")));
    assert!(paymaster::policy_allows_op(&[], &chars("transfer")));
    assert_eq!(paymaster::parse_string_field(&json, &chars("nothing")), Vec::<char>::new());
}

fn set_policy(store: &mut KvStore, sponsor: &str, json: &str) {
    let r = paymaster::handle(store, &env(sponsor, 0, 0), &call(paymaster::OP_SET_POLICY, &[s(json)]), &mut Vec::new());
    assert_eq!(r, Ok(vec![1]));
}

fn budget(store: &mut KvStore, sponsor: &str) -> Vec<u8> {
    paymaster::handle(store, &env("x", 0, 0), &call(paymaster::OP_GET_BUDGET, &[s(sponsor)]), &mut Vec::new()).unwrap()
}

#[test]
fn paymaster_deposit_withdraw_and_budget() {
    let mut store = KvStore::new();
    let mut expected = vec![1u8];
    expected.extend_from_slice(&n(1000));
    assert_eq!(paymaster::handle(&mut store, &env("sponsor", 1000, 0), &[paymaster::OP_DEPOSIT], &mut Vec::new()), Ok(expected.clone()));
    assert_eq!(budget(&mut store, "sponsor"), expected);
    assert_eq!(
        paymaster::handle(&mut store, &env("sponsor", 0, 0), &call(paymaster::OP_WITHDRAW, &[n(1001)]), &mut Vec::new()),
        Err(ContractError::InsufficientBalance)
    );
    assert_eq!(paymaster::handle(&mut store, &env("sponsor", 0, 0), &call(paymaster::OP_WITHDRAW, &[n(400)]), &mut Vec::new()), Ok(vec![1]));
    let mut after = vec![1u8];
    after.extend_from_slice(&n(600));
    assert_eq!(budget(&mut store, "sponsor"), after);
    assert_eq!(paymaster::handle(&mut store, &env("sponsor", 0, 0), &[paymaster::OP_DEPOSIT], &mut Vec::new()), Err(ContractError::InvalidInput));
    assert_eq!(paymaster::handle(&mut store, &env("", 5, 0), &[paymaster::OP_DEPOSIT], &mut Vec::new()), Err(ContractError::Unauthorized));
}

#[test]
fn paymaster_sponsors_within_policy() {
    let mut store = KvStore::new();
    paymaster::handle(&mut store, &env("sponsor", 1000, 0), &[paymaster::OP_DEPOSIT], &mut Vec::new()).unwrap();
    set_policy(
        &mut store,
        "sponsor",
        r#"{"per_call_max":300,"daily_max":500,"expires_at":1000000,"allowed_ops":["vault_charge"],"allowed_dids":["did:user"]}"#,
    );
    let charge = |amount: u64, op: &str| call(paymaster::OP_SPONSOR_CHARGE, &[s("did:user"), n(amount), s(op)]);
    let sponsor = env("sponsor", 0, 86_400 * 3 + 5);
    assert_eq!(paymaster::handle(&mut store, &sponsor, &charge(200, "vault_charge"), &mut Vec::new()), Ok(vec![1]));
    assert_eq!(paymaster::handle(&mut store, &sponsor, &charge(301, "vault_charge"), &mut Vec::new()), Err(ContractError::InsufficientPayment));
    assert_eq!(paymaster::handle(&mut store, &sponsor, &charge(200, "vault_charge"), &mut Vec::new()), Ok(vec![1]));
    assert_eq!(paymaster::handle(&mut store, &sponsor, &charge(200, "vault_charge"), &mut Vec::new()), Err(ContractError::InsufficientBalance));
    assert_eq!(paymaster::handle(&mut store, &sponsor, &charge(10, "transfer"), &mut Vec::new()), Err(ContractError::Unauthorized));
    let stranger = call(paymaster::OP_SPONSOR_CHARGE, &[s("did:other"), n(10), s("vault_charge")]);
    assert_eq!(paymaster::handle(&mut store, &sponsor, &stranger, &mut Vec::new()), Err(ContractError::Unauthorized));
    let prefix = call(paymaster::OP_SPONSOR_CHARGE, &[s("did:use"), n(10), s("vault_charge")]);
    assert_eq!(paymaster::handle(&mut store, &sponsor, &prefix, &mut Vec::new()), Err(ContractError::Unauthorized));
    let other_sponsor = env("did:nobody", 0, 86_400 * 3 + 5);
    assert_eq!(paymaster::handle(&mut store, &other_sponsor, &charge(10, "vault_charge"), &mut Vec::new()), Err(ContractError::StorageError));
    let late = env("sponsor", 0, 1_000_001);
    assert_eq!(paymaster::handle(&mut store, &late, &charge(10, "vault_charge"), &mut Vec::new()), Err(ContractError::Unauthorized));
    let mut left = vec![1u8];
    left.extend_from_slice(&n(600));
    assert_eq!(budget(&mut store, "sponsor"), left);
}

#[test]
fn paymaster_charge_without_policy_is_a_storage_error() {
    let mut store = KvStore::new();
    let user = env("did:nobody", 0, 0);
    let charge = call(paymaster::OP_SPONSOR_CHARGE, &[s("did:user"), n(1), s("op")]);
    assert_eq!(paymaster::handle(&mut store, &user, &charge, &mut Vec::new()), Err(ContractError::StorageError));
}

#[test]
fn paymaster_get_policy_returns_what_was_set() {
    let mut store = KvStore::new();
    set_policy(&mut store, "sponsor", r#"{"daily_max":5}"#);
    let mut expected = vec![1u8];
    expected.extend_from_slice(br#"{"daily_max":5}"#);
    assert_eq!(
        paymaster::handle(&mut store, &env("x", 0, 0), &call(paymaster::OP_GET_POLICY, &[s("sponsor")]), &mut Vec::new()),
        Ok(expected)
    );
}

#[test]
fn payable_demo_deposit_and_withdraw() {
    let mut store = KvStore::new();
    let caller = env("did:alice", 250, 0);
    assert_eq!(payable_demo::handle(&mut store, &caller, &[payable_demo::OP_DEPOSIT], &mut Vec::new()), Ok(vec![1]));
    assert_eq!(payable_demo::handle(&mut store, &caller, &[payable_demo::OP_TOTAL_RECEIVED], &mut Vec::new()), Ok(n(250)));
    assert_eq!(payable_demo::handle(&mut store, &caller, &call(payable_demo::OP_WITHDRAW, &[n(100)]), &mut Vec::new()), Ok(vec![1]));
    assert_eq!(payable_demo::handle(&mut store, &caller, &[payable_demo::OP_BALANCE], &mut Vec::new()), Ok(n(150)));
    assert_eq!(payable_demo::handle(&mut store, &caller, &[payable_demo::OP_TOTAL_RECEIVED], &mut Vec::new()), Ok(n(250)));
    let key = payable_demo::format_balance_key(b"did:alice");
    assert_eq!(payable_demo::get_balance_for_key(&store, &key), 100);
    assert_eq!(
        payable_demo::handle(&mut store, &caller, &call(payable_demo::OP_WITHDRAW, &[n(151)]), &mut Vec::new()),
        Err(ContractError::InvalidInput)
    );
    let empty = env("did:alice", 0, 0);
    assert_eq!(payable_demo::handle(&mut store, &empty, &[payable_demo::OP_DEPOSIT], &mut Vec::new()), Err(ContractError::InvalidInput));
}

#[test]
fn payable_demo_event_texts() {
    assert_eq!(payable_demo::format_deposit_event(b"did:a", 42), b"did:a|42".to_vec());
    assert_eq!(payable_demo::format_withdraw_event(b"did:a", 7), b"withdraw|did:a|7".to_vec());
}

fn names(events: &[spacekit_stdlib::host::Event]) -> Vec<String> {
    events.iter().map(|e| String::from_utf8(e.name.clone()).unwrap()).collect()
}

#[test]
fn paymaster_events_carry_amounts_and_parties() {
    let mut store = KvStore::new();
    let mut events = Vec::new();
    paymaster::handle(&mut store, &env("sponsor", 1000, 0), &[paymaster::OP_DEPOSIT], &mut events).unwrap();
    let mut deposit = n(1000);
    deposit.extend_from_slice(b"sponsor");
    assert_eq!(events[0].data, deposit);
    paymaster::handle(&mut store, &env("sponsor", 0, 0), &call(paymaster::OP_WITHDRAW, &[n(100)]), &mut events).unwrap();
    let mut withdraw = n(100);
    withdraw.extend_from_slice(&n(900));
    assert_eq!(events[1].data, withdraw);
    let policy = call(paymaster::OP_SET_POLICY, &[s(r#"{"allowed_ops":["op"]}"#)]);
    paymaster::handle(&mut store, &env("sponsor", 0, 0), &policy, &mut events).unwrap();
    assert_eq!(events[2].data, b"sponsor".to_vec());
    let charge = call(paymaster::OP_SPONSOR_CHARGE, &[s("did:u"), n(5), s("op")]);
    paymaster::handle(&mut store, &env("sponsor", 0, 0), &charge, &mut events).unwrap();
    let mut sponsored = n(5);
    sponsored.extend_from_slice(b"sponsor\0did:u\0op");
    assert_eq!(events[3].data, sponsored);
    assert_eq!(names(&events), vec!["paymaster:deposit", "paymaster:withdraw", "paymaster:policy_set", "paymaster:sponsored"]);
    let refused = call(paymaster::OP_SPONSOR_CHARGE, &[s("did:u"), n(5), s("other")]);
    assert!(paymaster::handle(&mut store, &env("sponsor", 0, 0), &refused, &mut events).is_err());
    assert_eq!(events.len(), 4);
}

#[test]
fn payable_demo_emits_event_texts() {
    let mut store = KvStore::new();
    let mut events = Vec::new();
    payable_demo::handle(&mut store, &env("did:a", 42, 0), &[payable_demo::OP_DEPOSIT], &mut events).unwrap();
    payable_demo::handle(&mut store, &env("did:a", 0, 0), &call(payable_demo::OP_WITHDRAW, &[n(7)]), &mut events).unwrap();
    payable_demo::handle(&mut store, &env("", 9, 0), &[payable_demo::OP_DEPOSIT], &mut events).unwrap();
    assert_eq!(names(&events), vec!["payable.deposit", "payable.withdraw"]);
    assert_eq!(events[0].data, b"did:a|42".to_vec());
    assert_eq!(events[1].data, b"withdraw|did:a|7".to_vec());
}
