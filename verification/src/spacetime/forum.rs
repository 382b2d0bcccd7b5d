use vstd::prelude::*;
use std::collections::BTreeMap;
use crate::spacetime::env::{Address, CallEnv, Did, is_blank, has_content, SpaceTimeEvent};
use crate::spacetime::identity::{AgentAnswer, AgentQuery};

verus! {

broadcast use {vstd::std_specs::btree::group_btree_axioms, vstd::laws_cmp::group_laws_cmp};

pub type ThreadId = u64;

pub type PostId = u64;

/// A discussion thread.
#[derive(Clone)]
pub struct Thread {
    pub id: ThreadId,
    pub title: String,
    pub author_did: Did,
    pub content_ref: String,
    pub created_at: u64,
}

/// A reply in a thread, possibly to another post of the same thread.
#[derive(Clone)]
pub struct Post {
    pub id: PostId,
    pub thread_id: ThreadId,
    pub parent_post_id: Option<PostId>,
    pub author_did: Did,
    pub content_ref: String,
    pub created_at: u64,
}

/// A field-by-field copy of a thread.
pub fn copy_thread(t: &Thread) -> (r: Thread)
    ensures
        r == *t,
{
    Thread {
        id: t.id,
        title: t.title.clone(),
        author_did: t.author_did.clone(),
        content_ref: t.content_ref.clone(),
        created_at: t.created_at,
    }
}

/// A field-by-field copy of a post.
pub fn copy_post(p: &Post) -> (r: Post)
    ensures
        r == *p,
{
    Post {
        id: p.id,
        thread_id: p.thread_id,
        parent_post_id: p.parent_post_id,
        author_did: p.author_did.clone(),
        content_ref: p.content_ref.clone(),
        created_at: p.created_at,
    }
}

/// Items `offset .. offset + limit` of `s` (as `skip(offset).take(limit)`).
pub open spec fn page<T>(s: Seq<T>, offset: u64, limit: u64) -> Seq<T> {
    if offset as int >= s.len() {
        Seq::<T>::empty()
    } else if s.len() - offset > limit {
        s.subrange(offset as int, offset + limit)
    } else {
        s.subrange(offset as int, s.len() as int)
    }
}

proof fn lemma_page_push<T>(s: Seq<T>, x: T, offset: u64, limit: u64)
    ensures
        page(s.push(x), offset, limit) == if offset <= s.len() < offset + limit {
            page(s, offset, limit).push(x)
        } else {
            page(s, offset, limit)
        },
{
    if offset <= s.len() < offset + limit {
        assert(page(s.push(x), offset, limit) =~= page(s, offset, limit).push(x));
    } else {
        assert(page(s.push(x), offset, limit) =~= page(s, offset, limit));
    }
}

/// The forum: threads and posts, numbered from 1 in order of creation.
pub struct SpaceTimeForum {
    identity_contract: Address,
    threads: BTreeMap<ThreadId, Thread>,
    posts: BTreeMap<PostId, Post>,
    thread_counter: ThreadId,
    post_counter: PostId,
}

impl SpaceTimeForum {
    /// Threads by id.
    pub closed spec fn threads(&self) -> Map<ThreadId, Thread> {
        self.threads@
    }

    /// Posts by id.
    pub closed spec fn posts(&self) -> Map<PostId, Post> {
        self.posts@
    }

    /// Number of threads created so far (the id of the last one).
    pub closed spec fn thread_count(&self) -> u64 {
        self.thread_counter
    }

    /// Number of posts created so far (the id of the last one).
    pub closed spec fn post_count(&self) -> u64 {
        self.post_counter
    }

    /// The numbers of threads and posts created so far.
    pub fn counters(&self) -> (r: (u64, u64))
        ensures
            r == (self.thread_count(), self.post_count()),
    {
        (self.thread_counter, self.post_counter)
    }

    /// Address of the identity contract that decides who is an agent.
    pub closed spec fn identity_contract(&self) -> Seq<char> {
        self.identity_contract@
    }

    /// Threads are numbered 1..=thread_count and posts 1..=post_count; each
    /// post belongs to an existing thread, and a post's parent is an earlier
    /// post of the same thread.
    pub open spec fn wf(&self) -> bool {
        &&& forall|id: u64| #[trigger] self.threads().contains_key(id) <==> 1 <= id <= self.thread_count()
        &&& forall|id: u64| #[trigger] self.threads().contains_key(id) ==> self.threads()[id].id == id
        &&& forall|id: u64| #[trigger] self.posts().contains_key(id) <==> 1 <= id <= self.post_count()
        &&& forall|id: u64| #[trigger] self.posts().contains_key(id) ==> {
            &&& self.posts()[id].id == id
            &&& self.threads().contains_key(self.posts()[id].thread_id)
            &&& match self.posts()[id].parent_post_id {
                Some(p) => 1 <= p < id && self.posts()[p].thread_id == self.posts()[id].thread_id,
                None => true,
            }
        }
    }

    /// Threads in order of their ids.
    pub open spec fn ordered_threads(&self) -> Seq<Thread> {
        Seq::new(self.thread_count() as nat, |i: int| self.threads()[(i + 1) as u64])
    }

    /// Posts in order of their ids.
    pub open spec fn ordered_posts(&self) -> Seq<Post> {
        Seq::new(self.post_count() as nat, |i: int| self.posts()[(i + 1) as u64])
    }

    /// An empty forum.
    pub fn new() -> (r: Self)
        ensures
            r.wf(),
            r.thread_count() == 0,
            r.post_count() == 0,
            r.threads() == Map::<ThreadId, Thread>::empty(),
            r.posts() == Map::<PostId, Post>::empty(),
            r.identity_contract() == Seq::<char>::empty(),
    {
        SpaceTimeForum {
            identity_contract: String::new(),
            threads: BTreeMap::new(),
            posts: BTreeMap::new(),
            thread_counter: 0,
            post_counter: 0,
        }
    }

    /// Sets the identity contract.
    pub fn init(&mut self, identity_contract: Address)
        requires
            old(self).wf(),
        ensures
            final(self).wf(),
            final(self).identity_contract() == identity_contract@,
            final(self).threads() == old(self).threads(),
            final(self).posts() == old(self).posts(),
            final(self).thread_count() == old(self).thread_count(),
            final(self).post_count() == old(self).post_count(),
    {
        self.identity_contract = identity_contract;
        assert(self.threads() == old(self).threads());
        assert(self.posts() == old(self).posts());
    }

    /// The question to put before a caller writes: is the caller an agent,
    /// asked of the identity contract set by `init`.
    pub fn agent_query(&self, env: &CallEnv) -> (q: AgentQuery)
        ensures
            q.contract@ == self.identity_contract(),
            q.did@ == env.caller@,
    {
        AgentQuery { contract: self.identity_contract.clone(), did: env.caller.clone() }
    }

    /// Whether `answer` is this forum's identity contract saying that the
    /// caller is an agent.
    pub open spec fn vouches(&self, env: CallEnv, answer: AgentAnswer) -> bool {
        answer.contract@ == self.identity_contract() && answer.did@ == env.caller@ && answer.is_agent
    }

    fn vouched(&self, env: &CallEnv, answer: &AgentAnswer) -> (r: bool)
        ensures
            r == self.vouches(*env, *answer),
    {
        answer.is_agent && answer.contract == self.identity_contract && answer.did == env.caller
    }

    /// Opens a thread authored by the caller, whom the identity contract set
    /// by `init` vouches for as an agent (`answer`, its reply to
    /// `agent_query`); title and content reference must not be blank. The
    /// new thread is announced with ThreadCreated.
    pub fn create_thread(
        &mut self,
        env: &CallEnv,
        answer: &AgentAnswer,
        title: String,
        content_ref: String,
        events: &mut Vec<SpaceTimeEvent>,
    ) -> (id: ThreadId)
        requires
            old(self).wf(),
            old(self).vouches(*env, *answer),
            !is_blank(title@),
            !is_blank(content_ref@),
            old(self).thread_count() < u64::MAX,
        ensures
            final(self).wf(),
            id == old(self).thread_count() + 1,
            final(self).thread_count() == id,
            final(self).threads() == old(self).threads().insert(id, Thread {
                id,
                title,
                author_did: env.caller,
                content_ref,
                created_at: env.block_timestamp,
            }),
            final(self).posts() == old(self).posts(),
            final(self).post_count() == old(self).post_count(),
            final(self).identity_contract() == old(self).identity_contract(),
            final(events)@ == old(events)@.push(SpaceTimeEvent::ThreadCreated(final(self).threads()[id])),
    {
        self.thread_counter = self.thread_counter + 1;
        let thread = Thread {
            id: self.thread_counter,
            title,
            author_did: env.caller.clone(),
            content_ref,
            created_at: env.block_timestamp,
        };
        let id = thread.id;
        events.push(SpaceTimeEvent::ThreadCreated(copy_thread(&thread)));
        self.threads.insert(id, thread);
        proof {
            assert forall|k: u64| #[trigger] self.threads().contains_key(k) <==> 1 <= k <= self.thread_count() by {
                if k != id {
                    assert(old(self).threads().contains_key(k) <==> 1 <= k <= old(self).thread_count());
                }
            }
            assert forall|k: u64| #[trigger] self.threads().contains_key(k) implies self.threads()[k].id == k by {
                if k != id {
                    assert(old(self).threads().contains_key(k));
                }
            }
            assert forall|k: u64| #[trigger] self.posts().contains_key(k) implies
                self.threads().contains_key(self.posts()[k].thread_id) by {
                assert(old(self).posts().contains_key(k));
            }
        }
        id
    }

    /// Adds a post by the caller, whom the forum's identity contract vouches
    /// for as an agent (`answer`), to an existing thread; a parent post must
    /// belong to the same thread. The new post is announced with
    /// PostCreated.
    pub fn reply(
        &mut self,
        env: &CallEnv,
        answer: &AgentAnswer,
        thread_id: ThreadId,
        parent_post_id: Option<PostId>,
        content_ref: String,
        events: &mut Vec<SpaceTimeEvent>,
    ) -> (id: PostId)
        requires
            old(self).wf(),
            old(self).vouches(*env, *answer),
            old(self).threads().contains_key(thread_id),
            parent_post_id matches Some(p) ==> old(self).posts().contains_key(p)
                && old(self).posts()[p].thread_id == thread_id,
            !is_blank(content_ref@),
            old(self).post_count() < u64::MAX,
        ensures
            final(self).wf(),
            id == old(self).post_count() + 1,
            final(self).post_count() == id,
            final(self).posts() == old(self).posts().insert(id, Post {
                id,
                thread_id,
                parent_post_id,
                author_did: env.caller,
                content_ref,
                created_at: env.block_timestamp,
            }),
            final(self).threads() == old(self).threads(),
            final(self).thread_count() == old(self).thread_count(),
            final(self).identity_contract() == old(self).identity_contract(),
            final(events)@ == old(events)@.push(SpaceTimeEvent::PostCreated(final(self).posts()[id])),
    {
        self.post_counter = self.post_counter + 1;
        let post = Post {
            id: self.post_counter,
            thread_id,
            parent_post_id,
            author_did: env.caller.clone(),
            content_ref,
            created_at: env.block_timestamp,
        };
        let id = post.id;
        events.push(SpaceTimeEvent::PostCreated(copy_post(&post)));
        self.posts.insert(id, post);
        proof {
            assert forall|k: u64| #[trigger] self.posts().contains_key(k) implies {
                &&& self.posts()[k].id == k
                &&& self.threads().contains_key(self.posts()[k].thread_id)
                &&& match self.posts()[k].parent_post_id {
                    Some(p) => 1 <= p < k && self.posts()[p].thread_id == self.posts()[k].thread_id,
                    None => true,
                }
            } by {
                if k != id {
                    assert(old(self).posts().contains_key(k));
                    match self.posts()[k].parent_post_id {
                        Some(p) => {
                            assert(old(self).posts().contains_key(p));
                        },
                        None => {},
                    }
                } else {
                    match parent_post_id {
                        Some(p) => {
                            assert(old(self).posts().contains_key(p));
                        },
                        None => {},
                    }
                }
            }
        }
        id
    }

    /// Whether `create_thread` takes the call: the forum's identity
    /// contract vouches for the caller, title and content reference are not
    /// blank, and the thread counter can grow.
    pub fn may_create_thread(&self, env: &CallEnv, answer: &AgentAnswer, title: &str, content_ref: &str) -> (r: bool)
        ensures
            r == (self.vouches(*env, *answer) && !is_blank(title@) && !is_blank(content_ref@)
                && self.thread_count() < u64::MAX),
    {
        self.vouched(env, answer) && has_content(title) && has_content(content_ref) && self.thread_counter < u64::MAX
    }

    /// Whether `reply` takes the call: the forum's identity contract vouches
    /// for the caller, the thread exists, a parent post exists in the same thread, the content
    /// reference is not blank, and the post counter can grow.
    pub fn may_reply(
        &self,
        env: &CallEnv,
        answer: &AgentAnswer,
        thread_id: ThreadId,
        parent_post_id: Option<PostId>,
        content_ref: &str,
    ) -> (r: bool)
        requires
            self.wf(),
        ensures
            r == (self.vouches(*env, *answer) && self.threads().contains_key(thread_id)
                && (parent_post_id matches Some(p) ==> self.posts().contains_key(p)
                    && self.posts()[p].thread_id == thread_id)
                && !is_blank(content_ref@) && self.post_count() < u64::MAX),
    {
        if !self.vouched(env, answer) {
            return false;
        }
        if self.get_thread(thread_id).is_none() {
            return false;
        }
        match parent_post_id {
            Some(p) => match self.get_post(p) {
                Some(parent) => {
                    if parent.thread_id != thread_id {
                        return false;
                    }
                },
                None => {
                    return false;
                },
            },
            None => {},
        }
        has_content(content_ref) && self.post_counter < u64::MAX
    }

    /// The thread with this id, if any.
    pub fn get_thread(&self, thread_id: ThreadId) -> (r: Option<Thread>)
        requires
            self.wf(),
        ensures
            self.threads().contains_key(thread_id) ==> r == Some(self.threads()[thread_id]),
            !self.threads().contains_key(thread_id) ==> r is None,
    {
        match self.threads.get(&thread_id) {
            Some(t) => Some(copy_thread(t)),
            None => None,
        }
    }

    /// The post with this id, if any.
    pub fn get_post(&self, post_id: PostId) -> (r: Option<Post>)
        requires
            self.wf(),
        ensures
            self.posts().contains_key(post_id) ==> r == Some(self.posts()[post_id]),
            !self.posts().contains_key(post_id) ==> r is None,
    {
        match self.posts.get(&post_id) {
            Some(p) => Some(copy_post(p)),
            None => None,
        }
    }

    /// Threads in id order, skipping `offset` and returning at most `limit`.
    pub fn list_threads(&self, offset: u64, limit: u64) -> (r: Vec<Thread>)
        requires
            self.wf(),
        ensures
            r@ == page(self.ordered_threads(), offset, limit),
    {
        let mut out: Vec<Thread> = Vec::new();
        if limit == 0 || offset >= self.thread_counter {
            assert(page(self.ordered_threads(), offset, limit) =~= Seq::<Thread>::empty());
            return out;
        }
        let end = if self.thread_counter - offset > limit { offset + limit } else { self.thread_counter };
        let mut i = offset;
        while i < end
            invariant
                self.wf(),
                offset <= i <= end <= self.thread_count(),
                out@ == self.ordered_threads().subrange(offset as int, i as int),
            decreases end - i,
        {
            let t = match self.threads.get(&(i + 1)) {
                Some(t) => copy_thread(t),
                None => {
                    assert(false);
                    return out;
                },
            };
            out.push(t);
            i = i + 1;
            assert(out@ =~= self.ordered_threads().subrange(offset as int, i as int));
        }
        out
    }

    /// Posts of `thread_id` in id order, skipping `offset` of them and
    /// returning at most `limit`.
    pub fn list_posts(&self, thread_id: ThreadId, offset: u64, limit: u64) -> (r: Vec<Post>)
        requires
            self.wf(),
        ensures
            r@ == page(self.ordered_posts().filter(|p: Post| p.thread_id == thread_id), offset, limit),
    {
        let ghost pred = |p: Post| p.thread_id == thread_id;
        let mut out: Vec<Post> = Vec::new();
        if limit == 0 {
            assert(page(self.ordered_posts().filter(pred), offset, limit) =~= Seq::<Post>::empty());
            return out;
        }
        let mut matched: u64 = 0;
        let mut i: u64 = 0;
        while i < self.post_counter
            invariant
                self.wf(),
                pred == (|p: Post| p.thread_id == thread_id),
                i <= self.post_count(),
                matched == self.ordered_posts().take(i as int).filter(pred).len(),
                matched <= i,
                out@ == page(self.ordered_posts().take(i as int).filter(pred), offset, limit),
            decreases self.post_count() - i,
        {
            let p = match self.posts.get(&(i + 1)) {
                Some(p) => p,
                None => {
                    assert(false);
                    return out;
                },
            };
            let ghost before = self.ordered_posts().take(i as int);
            let ghost after = self.ordered_posts().take(i + 1);
            proof {
                assert(after.drop_last() =~= before);
                assert(after.last() == *p);
                reveal_with_fuel(Seq::<Post>::filter, 1);
                assert(after.filter(pred) == if pred(*p) { before.filter(pred).push(*p) } else { before.filter(pred) });
                lemma_page_push(before.filter(pred), *p, offset, limit);
            }
            if p.thread_id == thread_id {
                assert(pred(*p));
                assert(after.filter(pred) == before.filter(pred).push(*p));
                if offset <= matched && matched - offset < limit {
                    out.push(copy_post(p));
                }
                matched = matched + 1;
            } else {
                assert(!pred(*p));
                assert(after.filter(pred) == before.filter(pred));
            }
            assert(matched == after.filter(pred).len());
            assert(out@ == page(after.filter(pred), offset, limit));
            i = i + 1;
        }
        assert(self.ordered_posts().take(self.post_count() as int) =~= self.ordered_posts());
        out
    }
}

impl Default for SpaceTimeForum {
    fn default() -> (r: Self)
        ensures
            r.wf(),
            r.thread_count() == 0,
            r.post_count() == 0,
            r.threads() == Map::<ThreadId, Thread>::empty(),
            r.posts() == Map::<PostId, Post>::empty(),
            r.identity_contract() == Seq::<char>::empty(),
    {
        SpaceTimeForum::new()
    }
}

} // verus!
