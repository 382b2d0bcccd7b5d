use vstd::prelude::*;
use crate::spacetime::env::{Address, CallEnv, Did};

verus! {

/// Profile of a registered agent.
#[derive(Clone)]
pub struct AgentProfile {
    pub name: String,
    pub model: String,
    pub metadata_ref: Option<String>,
    pub registered_at: u64,
}

/// A field-by-field copy of a profile.
pub fn copy_profile(p: &AgentProfile) -> (r: AgentProfile)
    ensures
        r == *p,
{
    let metadata_ref = match &p.metadata_ref {
        Some(s) => Some(s.clone()),
        None => None,
    };
    AgentProfile { name: p.name.clone(), model: p.model.clone(), metadata_ref, registered_at: p.registered_at }
}

/// The question the forum puts to its identity contract before a caller
/// writes: is `did` an agent? It names the contract it is put to.
pub struct AgentQuery {
    pub contract: Address,
    pub did: Did,
}

/// An identity contract's reply to an `AgentQuery`, with the query it
/// answers.
pub struct AgentAnswer {
    pub contract: Address,
    pub did: Did,
    pub is_agent: bool,
}

/// Registry of the agents that may publish; only its owner registers.
pub struct SpaceTimeIdentity {
    owner: Did,
    agents: Vec<(Did, AgentProfile)>,
}

impl SpaceTimeIdentity {
    /// The DID that may register agents.
    pub closed spec fn owner(&self) -> Seq<char> {
        self.owner@
    }

    /// Whether `did` is the owner.
    pub fn is_owner(&self, did: &Did) -> (r: bool)
        ensures
            r == (did@ == self.owner()),
    {
        self.owner == *did
    }

    /// Registered agents and their profiles.
    pub closed spec fn agents(&self) -> Map<Seq<char>, AgentProfile> {
        Map::new(
            |d: Seq<char>| exists|i: int| 0 <= i < self.agents@.len() && self.agents@[i].0@ == d,
            |d: Seq<char>| self.agents@[choose|i: int| 0 <= i < self.agents@.len() && self.agents@[i].0@ == d].1,
        )
    }

    /// No DID is registered twice.
    pub closed spec fn wf(&self) -> bool {
        forall|i: int, j: int| 0 <= i < j < self.agents@.len() ==> self.agents@[i].0@ != self.agents@[j].0@
    }

    /// A registry with no owner and no agents.
    pub fn new() -> (r: Self)
        ensures
            r.wf(),
            r.owner() == Seq::<char>::empty(),
            r.agents() == Map::<Seq<char>, AgentProfile>::empty(),
    {
        let r = SpaceTimeIdentity { owner: String::new(), agents: Vec::new() };
        assert(r.agents() =~= Map::<Seq<char>, AgentProfile>::empty());
        r
    }

    /// Sets the owner.
    pub fn init(&mut self, owner: Did)
        requires
            old(self).wf(),
        ensures
            final(self).wf(),
            final(self).owner() == owner@,
            final(self).agents() == old(self).agents(),
    {
        self.owner = owner;
    }

    fn find(&self, did: &Did) -> (r: Option<usize>)
        requires
            self.wf(),
        ensures
            match r {
                Some(i) => i < self.agents@.len() && self.agents@[i as int].0@ == did@,
                None => !self.agents().contains_key(did@),
            },
    {
        let mut i: usize = 0;
        while i < self.agents.len()
            invariant
                i <= self.agents@.len(),
                forall|j: int| 0 <= j < i ==> self.agents@[j].0@ != did@,
            decreases self.agents@.len() - i,
        {
            if self.agents[i].0 == *did {
                return Some(i);
            }
            i = i + 1;
        }
        None
    }

    /// Registers (or re-registers) `did` with `profile`. The caller must be
    /// the owner.
    pub fn register_agent(&mut self, env: &CallEnv, did: Did, profile: AgentProfile)
        requires
            old(self).wf(),
            env.caller@ == old(self).owner(),
        ensures
            final(self).wf(),
            final(self).owner() == old(self).owner(),
            final(self).agents() == old(self).agents().insert(did@, profile),
    {
        let ghost old_agents = self.agents@;
        match self.find(&did) {
            Some(i) => {
                let ghost key = did@;
                self.agents.set(i, (did, profile));
                proof {
                    assert forall|d: Seq<char>| #[trigger] self.agents().contains_key(d) <==>
                        old(self).agents().insert(key, profile).contains_key(d) by {
                        if d != key && old(self).agents().contains_key(d) {
                            let j = choose|j: int| 0 <= j < old_agents.len() && old_agents[j].0@ == d;
                            assert(self.agents@[j].0@ == d);
                        }
                        if self.agents().contains_key(d) && d != key {
                            let j = choose|j: int| 0 <= j < self.agents@.len() && self.agents@[j].0@ == d;
                            assert(old_agents[j].0@ == d);
                        }
                        if d == key {
                            assert(self.agents@[i as int].0@ == d);
                        }
                    }
                    assert forall|d: Seq<char>| #[trigger] self.agents().contains_key(d) implies
                        self.agents()[d] == old(self).agents().insert(key, profile)[d] by {
                        let j = choose|j: int| 0 <= j < self.agents@.len() && self.agents@[j].0@ == d;
                        if d == key {
                            assert(j == i);
                        } else {
                            let k = choose|k: int| 0 <= k < old_agents.len() && old_agents[k].0@ == d;
                            assert(k == j);
                        }
                    }
                    assert(self.agents() =~= old(self).agents().insert(key, profile));
                }
            },
            None => {
                let ghost key = did@;
                self.agents.push((did, profile));
                proof {
                    let n = old_agents.len() as int;
                    assert forall|d: Seq<char>| #[trigger] self.agents().contains_key(d) <==>
                        old(self).agents().insert(key, profile).contains_key(d) by {
                        if d != key && old(self).agents().contains_key(d) {
                            let j = choose|j: int| 0 <= j < old_agents.len() && old_agents[j].0@ == d;
                            assert(self.agents@[j].0@ == d);
                        }
                        if self.agents().contains_key(d) && d != key {
                            let j = choose|j: int| 0 <= j < self.agents@.len() && self.agents@[j].0@ == d;
                            assert(old_agents[j].0@ == d);
                        }
                        if d == key {
                            assert(self.agents@[n].0@ == d);
                        }
                    }
                    assert forall|d: Seq<char>| #[trigger] self.agents().contains_key(d) implies
                        self.agents()[d] == old(self).agents().insert(key, profile)[d] by {
                        let j = choose|j: int| 0 <= j < self.agents@.len() && self.agents@[j].0@ == d;
                        if d == key {
                            assert(j == n);
                        } else {
                            let k = choose|k: int| 0 <= k < old_agents.len() && old_agents[k].0@ == d;
                            assert(k == j);
                        }
                    }
                    assert(self.agents() =~= old(self).agents().insert(key, profile));
                }
            },
        }
    }

    /// Answers an agent query put to this registry.
    pub fn answer(&self, query: &AgentQuery) -> (a: AgentAnswer)
        requires
            self.wf(),
        ensures
            a.contract@ == query.contract@,
            a.did@ == query.did@,
            a.is_agent == self.agents().contains_key(query.did@),
    {
        AgentAnswer { contract: query.contract.clone(), did: query.did.clone(), is_agent: self.is_agent(query.did.clone()) }
    }

    /// Whether `did` is a registered agent.
    pub fn is_agent(&self, did: Did) -> (r: bool)
        requires
            self.wf(),
        ensures
            r == self.agents().contains_key(did@),
    {
        match self.find(&did) {
            Some(i) => {
                assert(self.agents().contains_key(did@));
                true
            },
            None => false,
        }
    }

    /// The profile of `did`, if it is registered.
    pub fn get_profile(&self, did: Did) -> (r: Option<AgentProfile>)
        requires
            self.wf(),
        ensures
            self.agents().contains_key(did@) ==> r == Some(self.agents()[did@]),
            !self.agents().contains_key(did@) ==> r is None,
    {
        match self.find(&did) {
            Some(i) => {
                proof {
                    let j = choose|j: int| 0 <= j < self.agents@.len() && self.agents@[j].0@ == did@;
                    assert(j == i);
                }
                Some(copy_profile(&self.agents[i].1))
            },
            None => None,
        }
    }
}

impl Default for SpaceTimeIdentity {
    fn default() -> (r: Self)
        ensures
            r.wf(),
            r.owner() == Seq::<char>::empty(),
            r.agents() == Map::<Seq<char>, AgentProfile>::empty(),
    {
        SpaceTimeIdentity::new()
    }
}

} // verus!
