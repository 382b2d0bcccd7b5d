use spacekit_stdlib::error::ContractError;
use spacekit_stdlib::host::HostEnv;
use spacekit_stdlib::store::KvStore;
use spacekit_stdlib::tokens::{erc1155, erc20, erc721, erc8004};

fn s(text: &str) -> Vec<u8> {
    let mut out = (text.len() as u16).to_le_bytes().to_vec();
    out.extend_from_slice(text.as_bytes());
    out
}

fn call(op: u8, parts: &[Vec<u8>]) -> Vec<u8> {
    let mut out = vec![op];
    for p in parts {
        out.extend_from_slice(p);
    }
    out
}

fn caller(did: &str) -> HostEnv {
    HostEnv { caller: did.as_bytes().to_vec(), msg_value: 0, timestamp: 0 }
}

fn alice() -> HostEnv {
    caller("alice")
}

fn n(v: u64) -> Vec<u8> {
    v.to_le_bytes().to_vec()
}

#[test]
fn erc20_mint_and_transfer_move_balances() {
    let mut store = KvStore::new();
    assert_eq!(erc20::handle(&mut store, &alice(), &call(erc20::OP_MINT, &[s("alice"), n(100)])), Ok(vec![1]));
    assert_eq!(erc20::get_balance(&store, b"alice"), 100);
    assert_eq!(erc20::get_total_supply(&store), 100);
    assert_eq!(erc20::handle(&mut store, &alice(), &call(erc20::OP_TRANSFER, &[s("alice"), s("bob"), n(30)])), Ok(vec![1]));
    assert_eq!(erc20::get_balance(&store, b"alice"), 70);
    assert_eq!(erc20::get_balance(&store, b"bob"), 30);
    assert_eq!(erc20::get_total_supply(&store), 100);
    assert_eq!(erc20::handle(&mut store, &alice(), &call(erc20::OP_BALANCE, &[s("bob")])), Ok(n(30)));
    assert_eq!(erc20::handle(&mut store, &alice(), &call(erc20::OP_TOTAL_SUPPLY, &[])), Ok(n(100)));
}

#[test]
fn erc20_refuses_overdraft_and_empty_input() {
    let mut store = KvStore::new();
    erc20::handle(&mut store, &alice(), &call(erc20::OP_MINT, &[s("alice"), n(10)])).unwrap();
    assert_eq!(
        erc20::handle(&mut store, &alice(), &call(erc20::OP_TRANSFER, &[s("alice"), s("bob"), n(11)])),
        Err(ContractError::InvalidInput)
    );
    assert_eq!(erc20::handle(&mut store, &alice(), &call(erc20::OP_MINT, &[s("alice"), n(0)])), Err(ContractError::InvalidInput));
    assert_eq!(erc20::handle(&mut store, &alice(), &[]), Err(ContractError::InvalidInput));
    assert_eq!(erc20::handle(&mut store, &alice(), &[99]), Err(ContractError::InvalidInput));
    assert_eq!(erc20::get_balance(&store, b"alice"), 10);
}

#[test]
fn erc20_metadata_names_the_token() {
    let mut store = KvStore::new();
    let mut expected = vec![1u8];
    expected.extend_from_slice(&s("SpaceUSD"));
    expected.extend_from_slice(&s("SUSD"));
    expected.push(18);
    assert_eq!(erc20::handle(&mut store, &alice(), &call(erc20::OP_METADATA, &[])), Ok(expected));
}

#[test]
fn erc721_mint_then_owner_of_and_transfer() {
    let mut store = KvStore::new();
    assert_eq!(erc721::handle(&mut store, &call(erc721::OP_MINT, &[n(7), s("alice")])), Ok(vec![1]));
    assert_eq!(erc721::handle(&mut store, &call(erc721::OP_OWNER_OF, &[n(7)])), Ok(b"alice".to_vec()));
    assert_eq!(erc721::handle(&mut store, &call(erc721::OP_TOTAL_SUPPLY, &[])), Ok(n(1)));
    assert_eq!(
        erc721::handle(&mut store, &call(erc721::OP_TRANSFER, &[n(7), s("bob"), s("carol")])),
        Err(ContractError::InvalidInput)
    );
    assert_eq!(erc721::handle(&mut store, &call(erc721::OP_TRANSFER, &[n(7), s("alice"), s("bob")])), Ok(vec![1]));
    assert_eq!(erc721::handle(&mut store, &call(erc721::OP_OWNER_OF, &[n(7)])), Ok(b"bob".to_vec()));
    assert_eq!(erc721::handle(&mut store, &call(erc721::OP_MINT, &[n(7), s("dave")])), Err(ContractError::InvalidInput));
    assert_eq!(erc721::handle(&mut store, &call(erc721::OP_OWNER_OF, &[n(8)])), Err(ContractError::StorageError));
}

#[test]
fn erc721_token_uri_needs_an_owner() {
    let mut store = KvStore::new();
    assert_eq!(
        erc721::handle(&mut store, &call(erc721::OP_SET_TOKEN_URI, &[n(1), s("ipfs://x")])),
        Err(ContractError::InvalidInput)
    );
    erc721::handle(&mut store, &call(erc721::OP_MINT, &[n(1), s("alice")])).unwrap();
    assert_eq!(erc721::handle(&mut store, &call(erc721::OP_SET_TOKEN_URI, &[n(1), s("ipfs://x")])), Ok(vec![1]));
}

#[test]
fn erc1155_mint_burn_and_batch() {
    let mut store = KvStore::new();
    assert_eq!(erc1155::handle(&mut store, &call(erc1155::OP_MINT, &[s("alice"), n(3), n(50)])), Ok(vec![1]));
    assert_eq!(erc1155::get_balance(&store, b"alice", 3), 50);
    assert_eq!(erc1155::handle(&mut store, &call(erc1155::OP_BURN, &[s("alice"), n(3), n(20)])), Ok(vec![1]));
    assert_eq!(erc1155::get_balance(&store, b"alice", 3), 30);
    assert_eq!(
        erc1155::handle(&mut store, &call(erc1155::OP_BURN, &[s("alice"), n(3), n(31)])),
        Err(ContractError::InvalidInput)
    );
    let batch = call(erc1155::OP_BALANCE_OF_BATCH, &[vec![2], s("alice"), n(3), s("bob"), n(3)]);
    let mut expected = vec![1u8];
    expected.extend_from_slice(&n(30));
    expected.extend_from_slice(&n(0));
    assert_eq!(erc1155::handle(&mut store, &batch), Ok(expected));
}

#[test]
fn erc1155_burn_undoes_mint() {
    let mut store = KvStore::new();
    erc1155::handle(&mut store, &call(erc1155::OP_MINT, &[s("alice"), n(9), n(5)])).unwrap();
    erc1155::handle(&mut store, &call(erc1155::OP_MINT, &[s("alice"), n(9), n(4)])).unwrap();
    erc1155::handle(&mut store, &call(erc1155::OP_BURN, &[s("alice"), n(9), n(4)])).unwrap();
    assert_eq!(erc1155::get_balance(&store, b"alice", 9), 5);
}

#[test]
fn erc8004_profiles_feedback_and_validation() {
    let mut store = KvStore::new();
    assert_eq!(erc8004::handle(&mut store, &call(erc8004::OP_AGENT_PROFILE_SET, &[n(1), s("ipfs://agent")])), Ok(vec![1]));
    let mut profile = vec![1u8];
    profile.extend_from_slice(b"ipfs://agent");
    assert_eq!(erc8004::handle(&mut store, &call(erc8004::OP_AGENT_PROFILE_GET, &[n(1)])), Ok(profile));
    erc8004::handle(&mut store, &call(erc8004::OP_AGENT_FEEDBACK_SUBMIT, &[n(1), vec![80]])).unwrap();
    erc8004::handle(&mut store, &call(erc8004::OP_AGENT_FEEDBACK_SUBMIT, &[n(1), vec![90]])).unwrap();
    let mut feedback = vec![1u8];
    feedback.extend_from_slice(&n(85));
    feedback.extend_from_slice(&n(2));
    assert_eq!(erc8004::handle(&mut store, &call(erc8004::OP_AGENT_FEEDBACK_GET, &[n(1)])), Ok(feedback));
    assert_eq!(
        erc8004::handle(&mut store, &call(erc8004::OP_AGENT_VALIDATION_SET, &[s("task-1"), n(1), vec![2], s("ipfs://proof")])),
        Ok(vec![1])
    );
    let mut validation = vec![1u8];
    validation.extend_from_slice(&n(1));
    validation.push(2);
    validation.extend_from_slice(b"ipfs://proof");
    assert_eq!(erc8004::handle(&mut store, &call(erc8004::OP_AGENT_VALIDATION_GET, &[s("task-1")])), Ok(validation));
    assert_eq!(
        erc8004::handle(&mut store, &call(erc8004::OP_AGENT_PROFILE_SET, &[n(2), s("")])),
        Err(ContractError::InvalidInput)
    );
}

#[test]
fn erc20_only_the_caller_tokens_move() {
    let mut store = KvStore::new();
    erc20::handle(&mut store, &alice(), &call(erc20::OP_MINT, &[s("alice"), n(50)])).unwrap();
    let steal = call(erc20::OP_TRANSFER, &[s("alice"), s("mallory"), n(10)]);
    assert_eq!(erc20::handle(&mut store, &caller("mallory"), &steal), Err(ContractError::Unauthorized));
    assert_eq!(erc20::get_balance(&store, b"alice"), 50);
    let to_self = call(erc20::OP_TRANSFER, &[s("alice"), s("alice"), n(20)]);
    assert_eq!(erc20::handle(&mut store, &alice(), &to_self), Ok(vec![1]));
    assert_eq!(erc20::get_balance(&store, b"alice"), 50);
    assert_eq!(erc20::get_total_supply(&store), 50);
}

#[test]
fn erc8004_feedback_get_of_a_short_record_traps() {
    let mut store = KvStore::new();
    let get = call(erc8004::OP_AGENT_FEEDBACK_GET, &[n(7)]);
    assert!(!erc8004::handle_traps(&store, &get));
    store.save(b"astra:erc8004:reputation:7", &[9; 10]);
    assert!(erc8004::handle_traps(&store, &get));
    assert!(!erc8004::handle_traps(&store, &call(erc8004::OP_AGENT_FEEDBACK_GET, &[n(8)])));
    erc8004::handle(&mut store, &call(erc8004::OP_AGENT_FEEDBACK_SUBMIT, &[n(7), vec![40]])).unwrap();
    assert!(!erc8004::handle_traps(&store, &get));
}
