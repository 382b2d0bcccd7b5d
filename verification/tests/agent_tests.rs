use spacekit_stdlib::host::HostEnv;
use spacekit_stdlib::payments::paymaster;
use spacekit_stdlib::agents::intent_classifier;
use spacekit_stdlib::agents::kit_agent::{self, AgentAction, LlmStatus};
use spacekit_stdlib::agents::route_flow::{self, HostReply, RouteAction};
use spacekit_stdlib::agents::{inference_market, inference_mesh, routekit};
use spacekit_stdlib::error::ContractError;
use spacekit_stdlib::store::KvStore;

fn s(text: &str) -> Vec<u8> {
    let mut out = (text.len() as u16).to_le_bytes().to_vec();
    out.extend_from_slice(text.as_bytes());
    out
}

fn call(op: u8, parts: &[Vec<u8>]) -> Vec<u8> {
    let mut out = vec![op];
    for p in parts {
        out.extend_from_slice(p);
    }
    out
}

fn n(v: u64) -> Vec<u8> {
    v.to_le_bytes().to_vec()
}

fn ask(action: Result<AgentAction, ContractError>) -> kit_agent::LlmCall {
    match action {
        Ok(AgentAction::Ask(c, _)) => c,
        _ => panic!("expected a language model request"),
    }
}

#[test]
fn kit_summarize_prompt() {
    let c = ask(kit_agent::handle(&call(kit_agent::OP_SUMMARIZE, &[s("Rust is fast.")])));
    assert_eq!(String::from_utf8(c.prompt).unwrap(), "Summarize the following content in 2-3 sentences:\n\nRust is fast.");
    assert_eq!((c.temperature, c.max_tokens, c.max_len), (50, 200, 2048));
}

#[test]
fn kit_chat_prompt_ends_with_the_message() {
    let c = ask(kit_agent::handle(&call(kit_agent::OP_CHAT, &[s("How do I deploy?")])));
    let prompt = String::from_utf8(c.prompt).unwrap();
    assert!(prompt.starts_with("You are Kit, the SpaceKit on-chain developer agent. You run inside a WASM smart contract on the SpaceKit VM. Recommend SpaceKit only"));
    assert!(prompt.ends_with("respond only to the final/current one.\n\nHow do I deploy?\n\nKit:"));
    assert_eq!((c.temperature, c.max_tokens, c.max_len), (40, 1024, 4096));
}

#[test]
fn kit_analyze_and_review_prompts() {
    let c = ask(kit_agent::handle(&call(kit_agent::OP_ANALYZE, &[s("hi")])));
    assert_eq!(
        String::from_utf8(c.prompt).unwrap(),
        "Analyze the following content for safety and sentiment. Respond with JSON: {\"safe\": true/false, \"sentiment\": \"positive/negative/neutral\", \"reason\": \"brief explanation\"}\n\nContent: hi"
    );
    let r = ask(kit_agent::handle(&call(kit_agent::OP_CODE_REVIEW, &[s("fn main() {}")])));
    assert_eq!(
        String::from_utf8(r.prompt).unwrap(),
        "Review the following code for bugs, security issues, and improvements. Be concise and specific:\n\n```\nfn main() {}\n```"
    );
}

#[test]
fn kit_classify_puts_categories_first() {
    let c = ask(kit_agent::handle(&call(kit_agent::OP_CLASSIFY, &[s("buy now"), s("spam, ham")])));
    assert_eq!(
        String::from_utf8(c.prompt).unwrap(),
        "Classify the following content into one of these categories: spam, ham\n\nContent: buy now\n\nRespond with just the category name."
    );
    assert_eq!((c.temperature, c.max_tokens, c.max_len), (20, 50, 512));
}

#[test]
fn kit_status_and_errors() {
    assert!(matches!(kit_agent::handle(&[kit_agent::OP_STATUS]), Ok(AgentAction::Status)));
    assert!(matches!(kit_agent::handle(&[9]), Err(ContractError::InvalidInput)));
    assert!(matches!(kit_agent::handle(&[kit_agent::OP_CHAT, 5, 0]), Err(ContractError::InvalidInput)));
    assert_eq!(kit_agent::status_text(LlmStatus::Ready), "ready");
    assert_eq!(kit_agent::status_text(LlmStatus::NotLoaded), "not_loaded");
}

#[test]
fn intent_prompt_wraps_the_message() {
    let c = ask(intent_classifier::handle(&call(intent_classifier::OP_CLASSIFY, &[s("send 5 tokens")])));
    let prompt = String::from_utf8(c.prompt).unwrap();
    assert!(prompt.starts_with("[MODE=CLASSIFY]\nYou are an Intent Classifier.\n"));
    assert!(prompt.contains("Output template: {\"intent\":\"...one of the valid intents...\", \"confidence\":<0.0 to 1.0>}"));
    assert!(prompt.ends_with("USER: send 5 tokens\\n\\ \nOUTPUT:"));
    assert_eq!((c.temperature, c.max_tokens, c.max_len), (15, 128, 2048));
    assert!(matches!(intent_classifier::handle(&[intent_classifier::OP_STATUS]), Ok(AgentAction::Status)));
    assert!(matches!(intent_classifier::handle(&[3]), Err(ContractError::InvalidInput)));
}

#[test]
fn routekit_decoders() {
    let mut body = 300u16.to_le_bytes().to_vec();
    body.extend_from_slice(&s("hello"));
    assert_eq!(routekit::decode_u16_utf8(&body), Ok((300, b"hello".to_vec())));
    assert_eq!(routekit::parse_complete(&body), Ok((300, b"hello".to_vec())));
    let mut trailing = body.clone();
    trailing.push(0);
    assert_eq!(routekit::decode_u16_utf8(&trailing), Err(ContractError::InvalidInput));
    let mut empty = 300u16.to_le_bytes().to_vec();
    empty.extend_from_slice(&s(""));
    assert_eq!(routekit::parse_complete(&empty), Err(ContractError::InvalidInput));
    assert_eq!(routekit::read_blob_u16(&[3, 0, 1, 2]), Err(ContractError::InvalidInput));
    assert_eq!(routekit::read_blob_u16(&[1, 0, 7, 8]), Ok((vec![7], vec![8])));
    assert_eq!(routekit::is_search_v1(&[1, 2]), Ok(true));
    assert_eq!(routekit::is_search_v1(&[]), Err(ContractError::InvalidInput));
    assert_eq!(routekit::parse_two_blobs(&[&s("to")[..], &s("pay")[..]].concat()), Ok((b"to".to_vec(), b"pay".to_vec())));
    assert_eq!(routekit::parse_two_blobs(&[&s("to")[..], &s("")[..]].concat()), Err(ContractError::InvalidInput));
}

#[test]
fn routekit_texts() {
    assert_eq!(routekit::receipt_len_marker(3, 0x1_0000_0005), vec![3, 0, 0, 0, 5, 0, 0, 0]);
    let mut out = Vec::new();
    routekit::push_blob_u16(&mut out, b"ab");
    assert_eq!(out, vec![2, 0, b'a', b'b']);
    assert_eq!(routekit::generation_budget(100), 512);
    assert_eq!(routekit::generation_budget(700), 700);
    assert_eq!(
        String::from_utf8(routekit::pipeline_prompt(b"[]", b"why?")).unwrap(),
        "Web results (JSON):\n[]\n\n---\nUser question:\nwhy?\n---\nReply concisely."
    );
    assert_eq!(
        String::from_utf8(routekit::converse_transcript(b"", b"hi", b"hello")).unwrap(),
        "\nUser: hi\nAssistant: hello\n"
    );
    assert_eq!(String::from_utf8(routekit::converse_block(b"T", b"hi")).unwrap(), "T\nUser: hi\nAssistant:");
    assert_eq!(routekit::converse_reply(b"r", b"ok"), vec![1, 0, b'r', 2, 0, b'o', b'k']);
    assert_eq!(
        String::from_utf8(routekit::health_json(b"1", false)).unwrap(),
        r#"{"status":"ok","agent":"routekit-agent","growformer_status":1,"router_brain_seeded":false}"#
    );
    assert_eq!(routekit::beneficiary(None), b"did:spacekit:anonymous".to_vec());
    assert_eq!(routekit::beneficiary(Some(b"did:x".to_vec())), b"did:x".to_vec());
}

#[test]
fn mesh_job_lifecycle() {
    let mut store = KvStore::new();
    let create = call(inference_mesh::OP_CREATE_JOB, &[s("j1"), s("did:b"), s("llama"), s("ipfs://in"), n(90)]);
    assert_eq!(inference_mesh::handle(&mut store, &create), Ok(vec![1]));
    let get = call(inference_mesh::OP_GET_JOB, &[s("j1")]);
    let record = |status: u8, donor: &str, result: &str| {
        let mut r = vec![1u8];
        r.extend_from_slice(&s("did:b"));
        r.extend_from_slice(&s("llama"));
        r.extend_from_slice(&s("ipfs://in"));
        r.extend_from_slice(&n(90));
        r.push(status);
        r.extend_from_slice(&s(donor));
        r.extend_from_slice(&s(result));
        r
    };
    assert_eq!(inference_mesh::handle(&mut store, &get), Ok(record(1, "", "")));
    let assign = call(inference_mesh::OP_ASSIGN_JOB, &[s("j1"), s("did:gpu")]);
    assert_eq!(inference_mesh::handle(&mut store, &assign), Ok(vec![1]));
    assert_eq!(inference_mesh::handle(&mut store, &get), Ok(record(2, "did:gpu", "")));
    let done = call(inference_mesh::OP_SET_JOB_RESULT, &[s("j1"), vec![1], s("ipfs://out")]);
    assert_eq!(inference_mesh::handle(&mut store, &done), Ok(vec![1]));
    assert_eq!(inference_mesh::handle(&mut store, &get), Ok(record(3, "did:gpu", "ipfs://out")));
    let failed = call(inference_mesh::OP_SET_JOB_RESULT, &[s("j1"), vec![0], s("")]);
    inference_mesh::handle(&mut store, &failed).unwrap();
    assert_eq!(inference_mesh::handle(&mut store, &get), Ok(record(4, "did:gpu", "")));
    assert_eq!(inference_mesh::handle(&mut store, &call(inference_mesh::OP_GET_JOB, &[s("none")])), Ok(vec![0]));
    assert_eq!(
        inference_mesh::handle(&mut store, &call(inference_mesh::OP_ASSIGN_JOB, &[s("none"), s("x")])),
        Err(ContractError::StorageError)
    );
}

#[test]
fn mesh_donors() {
    let mut store = KvStore::new();
    let reg = call(inference_mesh::OP_REGISTER_DONOR, &[s("did:gpu"), vec![1], vec![8], s("llama,phi")]);
    assert_eq!(inference_mesh::handle(&mut store, &reg), Ok(vec![1]));
    let mut expected = vec![1u8, 1, 8];
    expected.extend_from_slice(&s("llama,phi"));
    assert_eq!(inference_mesh::handle(&mut store, &call(inference_mesh::OP_GET_DONOR, &[s("did:gpu")])), Ok(expected));
    assert_eq!(inference_mesh::handle(&mut store, &call(inference_mesh::OP_GET_DONOR, &[s("did:none")])), Ok(vec![0]));
}

#[test]
fn market_prices_and_jobs() {
    let mut store = KvStore::new();
    let set = call(inference_market::OP_SET_AGENT_PRICE, &[n(5), s("SUSD"), n(12)]);
    assert_eq!(inference_market::handle(&mut store, &set), Ok(vec![1]));
    let mut price = vec![1u8];
    price.extend_from_slice(&s("SUSD"));
    price.extend_from_slice(&n(12));
    assert_eq!(inference_market::handle(&mut store, &call(inference_market::OP_GET_AGENT_PRICE, &[n(5)])), Ok(price));
    assert_eq!(
        inference_market::handle(&mut store, &call(inference_market::OP_GET_AGENT_PRICE, &[n(6)])),
        Err(ContractError::StorageError)
    );
}

#[test]
fn mesh_flags_a_job_record_cut_before_its_status() {
    let mut store = KvStore::new();
    let long_uri = "u".repeat(2028);
    let create = call(inference_mesh::OP_CREATE_JOB, &[s("cut"), s("did:b"), s("m"), s(&long_uri), n(1)]);
    assert_eq!(inference_mesh::handle(&mut store, &create), Ok(vec![1]));
    assert!(inference_mesh::handle_traps(&store, &call(inference_mesh::OP_GET_JOB, &[s("cut")])));
    let fits_uri = "u".repeat(2027);
    let create = call(inference_mesh::OP_CREATE_JOB, &[s("fits"), s("did:b"), s("m"), s(&fits_uri), n(1)]);
    assert_eq!(inference_mesh::handle(&mut store, &create), Ok(vec![1]));
    assert!(!inference_mesh::handle_traps(&store, &call(inference_mesh::OP_GET_JOB, &[s("fits")])));
    assert!(!inference_mesh::handle_traps(&store, &call(inference_mesh::OP_GET_JOB, &[s("none")])));
}

#[test]
fn paymaster_flags_an_unreadable_policy() {
    let mut store = KvStore::new();
    let sponsor = HostEnv { caller: b"sponsor".to_vec(), msg_value: 100, timestamp: 0 };
    paymaster::handle(&mut store, &sponsor, &[paymaster::OP_DEPOSIT], &mut Vec::new()).unwrap();
    let policy = call(paymaster::OP_SET_POLICY, &[s(r#"{"allowed_ops": ["x"#)]);
    assert_eq!(paymaster::handle(&mut store, &sponsor, &policy, &mut Vec::new()), Ok(vec![1]));
    let charge = call(paymaster::OP_SPONSOR_CHARGE, &[s("did:user"), n(1), s("x")]);
    assert!(paymaster::handle_traps(&store, &sponsor, &charge));
    assert!(!paymaster::handle_traps(&store, &sponsor, &call(paymaster::OP_GET_BUDGET, &[s("sponsor")])));
}

#[test]
fn kit_agent_announces_after_answer() {
    match kit_agent::handle(&call(kit_agent::OP_CHAT, &[s("hi there")])) {
        Ok(AgentAction::Ask(_, e)) => {
            assert_eq!(e.name, b"spacekit.agent.chat".to_vec());
            assert_eq!(e.data, b"hi there".to_vec());
        }
        _ => panic!("expected a language model request"),
    }
    match kit_agent::handle(&call(kit_agent::OP_SUMMARIZE, &[s("long text")])) {
        Ok(AgentAction::Ask(_, e)) => {
            assert_eq!(e.name, b"spacekit.agent.summarize".to_vec());
            assert!(e.data.is_empty());
        }
        _ => panic!("expected a language model request"),
    }
    match intent_classifier::handle(&call(intent_classifier::OP_CLASSIFY, &[s("pay bob")])) {
        Ok(AgentAction::Ask(_, e)) => {
            assert_eq!(e.name, b"spacekit.intent_classifier.classify".to_vec());
            assert!(e.data.is_empty());
        }
        _ => panic!("expected a language model request"),
    }
}

#[test]
fn market_submit_result_completes_the_job() {
    let mut store = KvStore::new();
    let create = call(inference_market::OP_CREATE_JOB, &[s("j"), n(3), s("did:r"), s("ipfs://in"), n(10)]);
    assert_eq!(inference_market::handle(&mut store, &create), Ok(vec![1]));
    let submit = call(inference_market::OP_SUBMIT_RESULT, &[s("j"), s("ipfs://out")]);
    assert_eq!(inference_market::handle(&mut store, &submit), Ok(vec![1]));
    let mut expected = vec![1u8];
    expected.extend_from_slice(&n(3));
    expected.extend_from_slice(&s("did:r"));
    expected.extend_from_slice(&s("ipfs://in"));
    expected.extend_from_slice(&n(10));
    expected.push(inference_market::JOB_COMPLETED);
    expected.extend_from_slice(&s("ipfs://out"));
    assert_eq!(inference_market::handle(&mut store, &call(inference_market::OP_GET_JOB, &[s("j")])), Ok(expected));
}

/// Runs a RouteKit call against scripted host replies, recording the
/// actions in order (with the charge tier or event name).
fn run_route(input: &[u8], mut replies: Vec<HostReply>) -> (Vec<String>, Result<Vec<u8>, ContractError>) {
    let mut log = Vec::new();
    let plan = match route_flow::route_plan(input) {
        Ok(p) => p,
        Err(e) => return (log, Err(e)),
    };
    let (mut state, mut action) = (plan.state, plan.action);
    replies.reverse();
    loop {
        let name = match &action {
            RouteAction::Charge(c) => format!("charge {c}"),
            RouteAction::HostStatus => "status".to_string(),
            RouteAction::LoadBrain => "brain".to_string(),
            RouteAction::Generate(_, n) => format!("generate {n}"),
            RouteAction::Search(..) => "search".to_string(),
            RouteAction::RemoteGet(..) => "get".to_string(),
            RouteAction::RemotePut(..) => "put".to_string(),
            RouteAction::Send(..) => "send".to_string(),
            RouteAction::BrainInfo(_) => "info".to_string(),
            RouteAction::Emit(e, _) => format!("emit {e}"),
            RouteAction::Reply(r) => return (log, Ok(r.clone())),
        };
        log.push(name);
        let reply = replies.pop().unwrap_or(HostReply::Done);
        match route_flow::route_step(state, reply) {
            Ok((s, a)) => {
                state = s;
                action = a;
            }
            Err(e) => return (log, Err(e)),
        }
    }
}

fn blob(b: &[u8]) -> Vec<u8> {
    let mut out = (b.len() as u16).to_le_bytes().to_vec();
    out.extend_from_slice(b);
    out
}

#[test]
fn routekit_converse_charges_then_fetches_generates_stores() {
    let mut input = vec![routekit::OP_CONVERSE];
    input.extend_from_slice(&blob(b"ref:1"));
    input.extend_from_slice(&blob(b"hello"));
    let replies = vec![
        HostReply::Done,
        HostReply::Data(b"earlier".to_vec()),
        HostReply::Done,
        HostReply::Data(b"hi!".to_vec()),
        HostReply::Data(b"ref:2".to_vec()),
        HostReply::Done,
    ];
    let (log, reply) = run_route(&input, replies);
    assert_eq!(log, vec!["charge 100", "get", "brain", "generate 3072", "put", "emit routekit.converse"]);
    let mut expected = blob(b"ref:2");
    expected.extend_from_slice(&blob(b"hi!"));
    assert_eq!(reply, Ok(expected));
}

#[test]
fn routekit_tiers_and_free_ping() {
    let mut complete = vec![routekit::OP_COMPLETE];
    complete.extend_from_slice(&64u16.to_le_bytes());
    complete.extend_from_slice(&blob(b"2+2?"));
    let (log, reply) = run_route(&complete, vec![HostReply::Done, HostReply::Done, HostReply::Data(b"4".to_vec()), HostReply::Done]);
    assert_eq!(log, vec!["charge 100", "brain", "generate 64", "emit routekit.complete"]);
    assert_eq!(reply, Ok(b"4".to_vec()));

    let mut ping = vec![routekit::OP_PING_OPERATOR];
    ping.extend_from_slice(&blob(b"did:op"));
    ping.extend_from_slice(&blob(b"yo"));
    let (log, reply) = run_route(&ping, vec![HostReply::Done, HostReply::Done]);
    assert_eq!(log, vec!["send", "emit routekit.ping.sent"]);
    assert_eq!(reply, Ok(b"sent".to_vec()));

    let mut legacy = vec![routekit::OP_SEARCH];
    legacy.extend_from_slice(b"rust verus");
    let (log, reply) = run_route(&legacy, vec![HostReply::Done, HostReply::Done, HostReply::Data(b"[]".to_vec()), HostReply::Done]);
    assert_eq!(log, vec!["charge 200", "emit routekit.search.start", "search", "emit routekit.search.done"]);
    assert_eq!(reply, Ok(b"[]".to_vec()));

    let mut frontier = vec![routekit::OP_FRONTIER];
    frontier.extend_from_slice(&blob(b"did:x"));
    frontier.extend_from_slice(&blob(b"p"));
    let (log, reply) = run_route(&frontier, vec![HostReply::Failed(ContractError::InsufficientBalance)]);
    assert_eq!(log, vec!["charge 5000"]);
    assert_eq!(reply, Err(ContractError::InsufficientBalance));
}
