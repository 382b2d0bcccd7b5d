use vstd::prelude::*;
use std::collections::{BTreeMap, BTreeSet};
use crate::spacetime::env::{Address, CallEnv, Did, SpaceTimeEvent};

verus! {

broadcast use {vstd::std_specs::btree::group_btree_axioms, vstd::laws_cmp::group_laws_cmp};

pub type PostId = u64;

/// A report that a post breaks the rules.
#[derive(Clone)]
pub struct Flag {
    pub post_id: PostId,
    pub flagger_did: Did,
    pub reason: String,
    pub created_at: u64,
}

/// A field-by-field copy of a flag.
pub fn copy_flag(f: &Flag) -> (r: Flag)
    ensures
        r == *f,
{
    Flag { post_id: f.post_id, flagger_did: f.flagger_did.clone(), reason: f.reason.clone(), created_at: f.created_at }
}

/// A copy of a list of flags.
pub fn copy_flags(v: &Vec<Flag>) -> (r: Vec<Flag>)
    ensures
        r@ == v@,
{
    let mut out: Vec<Flag> = Vec::new();
    let mut i: usize = 0;
    while i < v.len()
        invariant
            i <= v@.len(),
            out@ == v@.subrange(0, i as int),
        decreases v@.len() - i,
    {
        out.push(copy_flag(&v[i]));
        i = i + 1;
        assert(out@ =~= v@.subrange(0, i as int));
    }
    assert(v@.subrange(0, v@.len() as int) =~= v@);
    out
}

/// Optional moderation: anyone may flag a post, the owner hides and unhides.
pub struct SpaceTimeModeration {
    forum_contract: Address,
    owner: Did,
    flags: BTreeMap<PostId, Vec<Flag>>,
    hidden_posts: BTreeSet<PostId>,
}

impl SpaceTimeModeration {
    /// Address of the forum contract being moderated.
    pub closed spec fn forum_contract(&self) -> Seq<char> {
        self.forum_contract@
    }

    /// The DID that may hide and unhide posts.
    pub closed spec fn owner(&self) -> Seq<char> {
        self.owner@
    }

    /// Whether `did` is the owner.
    pub fn is_owner(&self, did: &Did) -> (r: bool)
        ensures
            r == (did@ == self.owner()),
    {
        self.owner == *did
    }

    /// The flags raised against `post`, oldest first.
    pub closed spec fn flags_of(&self, post: PostId) -> Seq<Flag> {
        if self.flags@.contains_key(post) {
            self.flags@[post]@
        } else {
            Seq::<Flag>::empty()
        }
    }

    /// The hidden posts.
    pub closed spec fn hidden(&self) -> Set<PostId> {
        self.hidden_posts@
    }

    /// No flags, nothing hidden, no owner.
    pub fn new() -> (r: Self)
        ensures
            forall|p: PostId| r.flags_of(p) == Seq::<Flag>::empty(),
            r.hidden() == Set::<PostId>::empty(),
            r.owner() == Seq::<char>::empty(),
            r.forum_contract() == Seq::<char>::empty(),
    {
        SpaceTimeModeration {
            forum_contract: String::new(),
            owner: String::new(),
            flags: BTreeMap::new(),
            hidden_posts: BTreeSet::new(),
        }
    }

    /// Sets the moderated forum and the owner.
    pub fn init(&mut self, forum_contract: Address, owner: Did)
        ensures
            final(self).forum_contract() == forum_contract@,
            final(self).owner() == owner@,
            forall|p: PostId| final(self).flags_of(p) == old(self).flags_of(p),
            final(self).hidden() == old(self).hidden(),
    {
        self.forum_contract = forum_contract;
        self.owner = owner;
    }

    /// Records a flag by the caller against `post_id`, announced with
    /// PostFlagged.
    pub fn flag_post(&mut self, env: &CallEnv, post_id: PostId, reason: String, events: &mut Vec<SpaceTimeEvent>)
        ensures
            final(events)@ == old(events)@.push(SpaceTimeEvent::PostFlagged(Flag {
                post_id,
                flagger_did: env.caller,
                reason,
                created_at: env.block_timestamp,
            })),
            final(self).flags_of(post_id) == old(self).flags_of(post_id).push(Flag {
                post_id,
                flagger_did: env.caller,
                reason,
                created_at: env.block_timestamp,
            }),
            forall|p: PostId| p != post_id ==> final(self).flags_of(p) == old(self).flags_of(p),
            final(self).hidden() == old(self).hidden(),
            final(self).owner() == old(self).owner(),
            final(self).forum_contract() == old(self).forum_contract(),
    {
        let flag = Flag { post_id, flagger_did: env.caller.clone(), reason, created_at: env.block_timestamp };
        events.push(SpaceTimeEvent::PostFlagged(copy_flag(&flag)));
        let mut list = match self.flags.remove(&post_id) {
            Some(v) => v,
            None => Vec::new(),
        };
        list.push(flag);
        self.flags.insert(post_id, list);
        proof {
            assert forall|p: PostId| p != post_id implies final(self).flags_of(p) == old(self).flags_of(p) by {
                assert(self.flags@.contains_key(p) == old(self).flags@.contains_key(p));
            }
        }
    }

    /// Hides a post, announced with PostHidden; only the owner may.
    pub fn hide_post(&mut self, env: &CallEnv, post_id: PostId, events: &mut Vec<SpaceTimeEvent>)
        requires
            env.caller@ == old(self).owner(),
        ensures
            final(events)@ == old(events)@.push(SpaceTimeEvent::PostHidden(post_id)),
            final(self).hidden() == old(self).hidden().insert(post_id),
            forall|p: PostId| final(self).flags_of(p) == old(self).flags_of(p),
            final(self).owner() == old(self).owner(),
            final(self).forum_contract() == old(self).forum_contract(),
    {
        self.hidden_posts.insert(post_id);
        events.push(SpaceTimeEvent::PostHidden(post_id));
    }

    /// Makes a hidden post visible again, announced with PostUnhidden when
    /// it was hidden; only the owner may.
    pub fn unhide_post(&mut self, env: &CallEnv, post_id: PostId, events: &mut Vec<SpaceTimeEvent>)
        requires
            env.caller@ == old(self).owner(),
        ensures
            old(self).hidden().contains(post_id) ==> final(events)@ == old(events)@.push(SpaceTimeEvent::PostUnhidden(post_id)),
            !old(self).hidden().contains(post_id) ==> final(events)@ == old(events)@,
            final(self).hidden() == old(self).hidden().remove(post_id),
            forall|p: PostId| final(self).flags_of(p) == old(self).flags_of(p),
            final(self).owner() == old(self).owner(),
            final(self).forum_contract() == old(self).forum_contract(),
    {
        if self.hidden_posts.remove(&post_id) {
            events.push(SpaceTimeEvent::PostUnhidden(post_id));
        }
    }

    /// Whether the post is hidden.
    pub fn is_hidden(&self, post_id: PostId) -> (r: bool)
        ensures
            r == self.hidden().contains(post_id),
    {
        self.hidden_posts.contains(&post_id)
    }

    /// The flags raised against the post, oldest first.
    pub fn get_flags(&self, post_id: PostId) -> (r: Vec<Flag>)
        ensures
            r@ == self.flags_of(post_id),
    {
        match self.flags.get(&post_id) {
            Some(v) => copy_flags(v),
            None => Vec::new(),
        }
    }
}

impl Default for SpaceTimeModeration {
    fn default() -> (r: Self)
        ensures
            forall|p: PostId| r.flags_of(p) == Seq::<Flag>::empty(),
            r.hidden() == Set::<PostId>::empty(),
            r.owner() == Seq::<char>::empty(),
            r.forum_contract() == Seq::<char>::empty(),
    {
        SpaceTimeModeration::new()
    }
}

} // verus!
