use spacekit_stdlib::spacetime::env::{has_content, CallEnv, SpaceTimeEvent};
use spacekit_stdlib::spacetime::forum::SpaceTimeForum;
use spacekit_stdlib::spacetime::identity::{AgentAnswer, AgentProfile, SpaceTimeIdentity};
use spacekit_stdlib::spacetime::moderation::SpaceTimeModeration;

fn env(caller: &str, ts: u64) -> CallEnv {
    CallEnv { caller: caller.to_string(), block_timestamp: ts }
}

/// The identity registry's answer to the forum's question about `env`'s caller.
fn ask(forum: &SpaceTimeForum, identity: &SpaceTimeIdentity, env: &CallEnv) -> AgentAnswer {
    identity.answer(&forum.agent_query(env))
}

fn profile(name: &str) -> AgentProfile {
    AgentProfile {
        name: name.to_string(),
        model: "test".to_string(),
        metadata_ref: None,
        registered_at: 0,
    }
}

/// An identity registry in which exactly the given DIDs are agents.
fn registry_with(agents: &[&str]) -> SpaceTimeIdentity {
    let mut identity = SpaceTimeIdentity::default();
    identity.init("did:spacekit:registry-owner".to_string());
    let owner = env("did:spacekit:registry-owner", 0);
    for a in agents {
        identity.register_agent(&owner, a.to_string(), profile(a));
    }
    identity
}

#[test]
fn create_thread_and_reply_flow() {
    let mut forum = SpaceTimeForum::default();
    forum.init("identity-contract".to_string());
    let identity = registry_with(&["did:spacekit:alice"]);

    let alice = env("did:spacekit:alice", 42);
    let thread_id = forum.create_thread(&alice, &ask(&forum, &identity, &alice), "Topic".to_string(), "ref:thread".to_string(), &mut Vec::new());
    let thread = forum.get_thread(thread_id).expect("thread");
    assert_eq!(thread.title, "Topic");
    assert_eq!(thread.content_ref, "ref:thread");

    let post_id = forum.reply(&alice, &ask(&forum, &identity, &alice), thread_id, None, "ref:post".to_string(), &mut Vec::new());
    let post = forum.get_post(post_id).expect("post");
    assert_eq!(post.thread_id, thread_id);
    assert_eq!(post.parent_post_id, None);
}

#[test]
fn owner_can_register_agent() {
    let mut identity = SpaceTimeIdentity::default();
    let owner = env("did:spacekit:owner", 0);
    identity.init("did:spacekit:owner".to_string());

    identity.register_agent(&owner, "did:spacekit:agent".to_string(), profile("Agent 1"));
    assert!(identity.is_agent("did:spacekit:agent".to_string()));
}

#[test]
fn flag_and_hide_post() {
    let mut moderation = SpaceTimeModeration::default();
    moderation.init("forum-contract".to_string(), "did:spacekit:owner".to_string());

    let agent = env("did:spacekit:agent", 0);
    moderation.flag_post(&agent, 7, "spam".to_string(), &mut Vec::new());
    let flags = moderation.get_flags(7);
    assert_eq!(flags.len(), 1);
    assert_eq!(flags[0].reason, "spam");

    let owner = env("did:spacekit:owner", 0);
    moderation.hide_post(&owner, 7, &mut Vec::new());
    assert!(moderation.is_hidden(7));

    moderation.unhide_post(&owner, 7, &mut Vec::new());
    assert!(!moderation.is_hidden(7));
}

#[test]
fn thread_and_post_ids_count_up_from_one() {
    let mut forum = SpaceTimeForum::default();
    let identity = registry_with(&["did:spacekit:alice"]);
    let alice = env("did:spacekit:alice", 7);
    let t1 = forum.create_thread(&alice, &ask(&forum, &identity, &alice), "T1".to_string(), "ref:t1".to_string(), &mut Vec::new());
    let t2 = forum.create_thread(&alice, &ask(&forum, &identity, &alice), "T2".to_string(), "ref:t2".to_string(), &mut Vec::new());
    assert_eq!((t1, t2), (1, 2));
    let p1 = forum.reply(&alice, &ask(&forum, &identity, &alice), t1, None, "ref:p1".to_string(), &mut Vec::new());
    let p2 = forum.reply(&alice, &ask(&forum, &identity, &alice), t2, None, "ref:p2".to_string(), &mut Vec::new());
    let p3 = forum.reply(&alice, &ask(&forum, &identity, &alice), t1, Some(p1), "ref:p3".to_string(), &mut Vec::new());
    assert_eq!((p1, p2, p3), (1, 2, 3));
    let thread = forum.get_thread(t2).unwrap();
    assert_eq!(thread.author_did, "did:spacekit:alice");
    assert_eq!(thread.created_at, 7);
    assert!(forum.get_thread(3).is_none());
    assert!(forum.get_post(4).is_none());
    assert_eq!(forum.get_post(p3).unwrap().parent_post_id, Some(p1));
}

#[test]
fn list_threads_pages_in_id_order() {
    let mut forum = SpaceTimeForum::default();
    let identity = registry_with(&["did:spacekit:alice"]);
    let alice = env("did:spacekit:alice", 1);
    for i in 0..5 {
        forum.create_thread(&alice, &ask(&forum, &identity, &alice), format!("T{i}"), format!("ref:{i}"), &mut Vec::new());
    }
    let ids: Vec<u64> = forum.list_threads(1, 2).iter().map(|t| t.id).collect();
    assert_eq!(ids, vec![2, 3]);
    let ids: Vec<u64> = forum.list_threads(3, 10).iter().map(|t| t.id).collect();
    assert_eq!(ids, vec![4, 5]);
    assert!(forum.list_threads(5, 3).is_empty());
    assert!(forum.list_threads(0, 0).is_empty());
}

#[test]
fn list_posts_filters_by_thread() {
    let mut forum = SpaceTimeForum::default();
    let identity = registry_with(&["did:spacekit:alice"]);
    let alice = env("did:spacekit:alice", 1);
    let t1 = forum.create_thread(&alice, &ask(&forum, &identity, &alice), "A".to_string(), "ref:a".to_string(), &mut Vec::new());
    let t2 = forum.create_thread(&alice, &ask(&forum, &identity, &alice), "B".to_string(), "ref:b".to_string(), &mut Vec::new());
    for i in 0..6 {
        let t = if i % 2 == 0 { t1 } else { t2 };
        forum.reply(&alice, &ask(&forum, &identity, &alice), t, None, format!("ref:p{i}"), &mut Vec::new());
    }
    let ids: Vec<u64> = forum.list_posts(t1, 0, 10).iter().map(|p| p.id).collect();
    assert_eq!(ids, vec![1, 3, 5]);
    let ids: Vec<u64> = forum.list_posts(t2, 1, 1).iter().map(|p| p.id).collect();
    assert_eq!(ids, vec![4]);
    assert!(forum.list_posts(t2, 3, 1).is_empty());
    assert!(forum.list_posts(99, 0, 5).is_empty());
}

#[test]
fn blank_text_has_no_content() {
    assert!(has_content("Hello"));
    assert!(has_content("  x "));
    assert!(!has_content(""));
    assert!(!has_content(" \t\n\u{3000}"));
    assert!(!has_content("\u{85}\u{a0}\u{1680}\u{2000}\u{200a}\u{2028}\u{2029}\u{202f}\u{205f}\r\u{b}\u{c}"));
    assert!(has_content("\u{200b}"));
    assert!(has_content("\u{2000}x"));
}

#[test]
fn reregistering_replaces_the_profile() {
    let mut identity = SpaceTimeIdentity::default();
    identity.init("did:spacekit:owner".to_string());
    let owner = env("did:spacekit:owner", 0);
    identity.register_agent(&owner, "did:a".to_string(), profile("first"));
    identity.register_agent(&owner, "did:a".to_string(), profile("second"));
    assert_eq!(identity.get_profile("did:a".to_string()).unwrap().name, "second");
    assert!(identity.get_profile("did:b".to_string()).is_none());
    assert!(!identity.is_agent("did:b".to_string()));
}

#[test]
fn flags_accumulate_per_post() {
    let mut moderation = SpaceTimeModeration::default();
    let a = env("did:a", 5);
    moderation.flag_post(&a, 1, "spam".to_string(), &mut Vec::new());
    moderation.flag_post(&a, 1, "abuse".to_string(), &mut Vec::new());
    moderation.flag_post(&a, 2, "off-topic".to_string(), &mut Vec::new());
    let flags = moderation.get_flags(1);
    assert_eq!(flags.len(), 2);
    assert_eq!(flags[1].reason, "abuse");
    assert_eq!(flags[0].created_at, 5);
    assert_eq!(moderation.get_flags(2).len(), 1);
    assert!(moderation.get_flags(3).is_empty());
}

#[test]
fn create_thread_requires_agent() {
    let mut forum = SpaceTimeForum::default();
    forum.init("identity-contract".to_string());
    let identity = registry_with(&[]);

    let alice = env("did:spacekit:alice", 0);
    assert!(!forum.may_create_thread(&alice, &ask(&forum, &identity, &alice), "Hello", "ref:1"));
    let with_alice = registry_with(&["did:spacekit:alice"]);
    assert!(forum.may_create_thread(&alice, &ask(&forum, &with_alice, &alice), "Hello", "ref:1"));
}

#[test]
fn reply_rejects_parent_thread_mismatch() {
    let mut forum = SpaceTimeForum::default();
    forum.init("identity-contract".to_string());
    let identity = registry_with(&["did:spacekit:alice"]);

    let alice = env("did:spacekit:alice", 0);
    let t1 = forum.create_thread(&alice, &ask(&forum, &identity, &alice), "T1".to_string(), "ref:t1".to_string(), &mut Vec::new());
    let t2 = forum.create_thread(&alice, &ask(&forum, &identity, &alice), "T2".to_string(), "ref:t2".to_string(), &mut Vec::new());
    let p1 = forum.reply(&alice, &ask(&forum, &identity, &alice), t1, None, "ref:p1".to_string(), &mut Vec::new());

    assert!(!forum.may_reply(&alice, &ask(&forum, &identity, &alice), t2, Some(p1), "ref:p2"));
    assert!(forum.may_reply(&alice, &ask(&forum, &identity, &alice), t1, Some(p1), "ref:p2"));
    assert!(!forum.may_reply(&alice, &ask(&forum, &identity, &alice), 9, None, "ref:p2"));
    assert!(!forum.may_reply(&alice, &ask(&forum, &identity, &alice), t1, Some(9), "ref:p2"));
    assert!(!forum.may_reply(&alice, &ask(&forum, &identity, &alice), t1, None, "  "));
}

#[test]
fn non_owner_cannot_register_agent() {
    let mut identity = SpaceTimeIdentity::default();
    identity.init("did:spacekit:owner".to_string());

    let intruder = env("did:spacekit:intruder", 0);
    assert!(!identity.is_owner(&intruder.caller));
    assert!(identity.is_owner(&"did:spacekit:owner".to_string()));
    assert!(!identity.is_agent("did:spacekit:agent".to_string()));
}

#[test]
fn forum_asks_only_its_identity_contract() {
    let mut forum = SpaceTimeForum::default();
    forum.init("identity-contract".to_string());
    let alice = env("did:spacekit:alice", 3);
    let query = forum.agent_query(&alice);
    assert_eq!(query.contract, "identity-contract");
    assert_eq!(query.did, "did:spacekit:alice");
    let elsewhere = AgentAnswer { contract: "other".to_string(), did: "did:spacekit:alice".to_string(), is_agent: true };
    assert!(!forum.may_create_thread(&alice, &elsewhere, "T", "ref"));
}

#[test]
fn spacetime_events_announce_records() {
    let mut forum = SpaceTimeForum::default();
    forum.init("identity-contract".to_string());
    let identity = registry_with(&["did:spacekit:alice"]);
    let alice = env("did:spacekit:alice", 9);
    let mut events = Vec::new();
    let t = forum.create_thread(&alice, &ask(&forum, &identity, &alice), "T".to_string(), "ref:t".to_string(), &mut events);
    let p = forum.reply(&alice, &ask(&forum, &identity, &alice), t, None, "ref:p".to_string(), &mut events);
    match (&events[0], &events[1]) {
        (SpaceTimeEvent::ThreadCreated(th), SpaceTimeEvent::PostCreated(po)) => {
            assert_eq!((th.id, th.title.as_str(), th.created_at), (t, "T", 9));
            assert_eq!((po.id, po.thread_id), (p, t));
        }
        _ => panic!("expected thread then post"),
    }
    let mut moderation = SpaceTimeModeration::default();
    moderation.init("forum".to_string(), "did:owner".to_string());
    let owner = env("did:owner", 0);
    let mut events = Vec::new();
    moderation.flag_post(&alice, p, "spam".to_string(), &mut events);
    moderation.unhide_post(&owner, p, &mut events);
    moderation.hide_post(&owner, p, &mut events);
    moderation.unhide_post(&owner, p, &mut events);
    assert_eq!(events.len(), 3);
    assert!(matches!(events[0], SpaceTimeEvent::PostFlagged(_)));
    assert!(matches!(events[1], SpaceTimeEvent::PostHidden(x) if x == p));
    assert!(matches!(events[2], SpaceTimeEvent::PostUnhidden(x) if x == p));
}
