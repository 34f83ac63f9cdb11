//! Admission policies: each one accepts an event or rejects it with a reason,
//! and a chain of them stops at the first rejection.
use crate::event::Event;
use std::collections::HashSet;
use vstd::prelude::*;

verus! {

broadcast use vstd::std_specs::hash::group_hash_axioms;

/// First kind of the range that must not be stored.
pub const EPHEMERAL_START: u16 = 20000;

/// First kind after the range that must not be stored.
pub const EPHEMERAL_END: u16 = 30000;

/// Whether `kind` is ephemeral, that is, lies in `[20000, 30000)`.
pub open spec fn is_ephemeral(kind: u16) -> bool {
    EPHEMERAL_START <= kind && kind < EPHEMERAL_END
}

/// The reason given for a kind outside the allowlist.
pub open spec fn kind_reason() -> Seq<char> {
    "Kind not accepted"@
}

/// The reason given for an ephemeral kind.
pub open spec fn ephemeral_reason() -> Seq<char> {
    "Ephemeral kind not accepted"@
}

/// The reason given for a query.
pub open spec fn query_reason() -> Seq<char> {
    "queries not allowed"@
}

/// The decision of a policy.
pub enum PolicyResult {
    Accept,
    Reject(String),
}

impl PolicyResult {
    /// The reason of a rejection, `None` for an acceptance.
    pub open spec fn reason(self) -> Option<Seq<char>> {
        match self {
            PolicyResult::Accept => None,
            PolicyResult::Reject(m) => Some(m@),
        }
    }
}

/// The query policy: no read query is ever admitted.
#[derive(Debug)]
pub struct NoQuery;

impl NoQuery {
    /// Rejects the query, whatever it asks for.
    pub fn admit_query(&self) -> (r: PolicyResult)
        ensures
            r.reason() == Some(query_reason()),
    {
        PolicyResult::Reject("queries not allowed".to_owned())
    }
}

/// Admits the events whose kind is in a configured set.
#[derive(Debug)]
pub struct KindPolicy(HashSet<u16>);

impl KindPolicy {
    /// The kinds that are admitted.
    pub closed spec fn kinds(&self) -> Set<u16> {
        self.0@
    }

    /// A policy that admits the kinds of `kinds` and no others.
    pub fn new(kinds: HashSet<u16>) -> (r: Self)
        ensures
            r.kinds() == kinds@,
    {
        Self(kinds)
    }

    /// Accepts `event` if and only if its kind is in the set.
    pub fn admit_event(&self, event: &Event) -> (r: PolicyResult)
        ensures
            r.reason() == (WritePolicyView::Kinds(self.kinds())).decision(event@.kind),
    {
        let kind = event.kind();
        if self.0.contains(&kind) {
            PolicyResult::Accept
        } else {
            PolicyResult::Reject("Kind not accepted".to_owned())
        }
    }
}

/// Rejects the events of an ephemeral kind.
#[derive(Debug)]
pub struct EphemeralPolicy;

impl EphemeralPolicy {
    /// Rejects `event` if and only if its kind is ephemeral.
    pub fn admit_event(&self, event: &Event) -> (r: PolicyResult)
        ensures
            r.reason() == WritePolicyView::Ephemeral.decision(event@.kind),
    {
        let kind = event.kind();
        if EPHEMERAL_START <= kind && kind < EPHEMERAL_END {
            PolicyResult::Reject("Ephemeral kind not accepted".to_owned())
        } else {
            PolicyResult::Accept
        }
    }
}

/// One write policy of a chain.
#[derive(Debug)]
pub enum WritePolicy {
    Kinds(KindPolicy),
    Ephemeral(EphemeralPolicy),
}

/// What a write policy decides by.
pub enum WritePolicyView {
    Kinds(Set<u16>),
    Ephemeral,
}

impl WritePolicyView {
    /// The reason for which an event of this kind is rejected, `None` where it
    /// is accepted.
    pub open spec fn decision(self, kind: u16) -> Option<Seq<char>> {
        match self {
            WritePolicyView::Kinds(kinds) => if kinds.contains(kind) {
                None
            } else {
                Some(kind_reason())
            },
            WritePolicyView::Ephemeral => if is_ephemeral(kind) {
                Some(ephemeral_reason())
            } else {
                None
            },
        }
    }
}

impl View for WritePolicy {
    type V = WritePolicyView;

    open spec fn view(&self) -> WritePolicyView {
        match self {
            WritePolicy::Kinds(p) => WritePolicyView::Kinds(p.kinds()),
            WritePolicy::Ephemeral(_) => WritePolicyView::Ephemeral,
        }
    }
}

impl WritePolicy {
    /// Asks the policy, whichever it is.
    pub fn admit_event(&self, event: &Event) -> (r: PolicyResult)
        ensures
            r.reason() == self@.decision(event@.kind),
    {
        match self {
            WritePolicy::Kinds(p) => p.admit_event(event),
            WritePolicy::Ephemeral(p) => p.admit_event(event),
        }
    }
}

/// The views of a chain of policies, in order.
pub open spec fn chain_view(policies: Seq<WritePolicy>) -> Seq<WritePolicyView> {
    policies.map_values(|p: WritePolicy| p@)
}

/// The reason given by the first policy of the chain that rejects the kind,
/// `None` where every policy accepts it.
pub open spec fn first_rejection(policies: Seq<WritePolicyView>, kind: u16) -> Option<Seq<char>>
    decreases policies.len(),
{
    if policies.len() == 0 {
        None
    } else {
        match policies[0].decision(kind) {
            Some(reason) => Some(reason),
            None => first_rejection(policies.skip(1), kind),
        }
    }
}

/// Runs the chain in order and stops at the first rejection.
pub fn evaluate(policies: &Vec<WritePolicy>, event: &Event) -> (r: PolicyResult)
    ensures
        r.reason() == first_rejection(chain_view(policies@), event@.kind),
{
    let ghost chain = chain_view(policies@);
    let mut i: usize = 0;
    assert(chain.skip(0) =~= chain);
    while i < policies.len()
        invariant
            i <= policies.len(),
            chain == chain_view(policies@),
            first_rejection(chain, event@.kind) == first_rejection(
                chain.skip(i as int),
                event@.kind,
            ),
        decreases policies.len() - i,
    {
        let decision = policies[i].admit_event(event);
        proof {
            assert(chain.skip(i as int)[0] == policies@[i as int]@);
            assert(chain.skip(i as int).skip(1) =~= chain.skip(i + 1));
        }
        match decision {
            PolicyResult::Reject(reason) => {
                return PolicyResult::Reject(reason);
            },
            PolicyResult::Accept => {},
        }
        i += 1;
    }
    PolicyResult::Accept
}

/// The chain of a configuration: the ephemeral kinds are rejected whatever is
/// configured, and an allowlist, where there is one, is asked after that.
pub open spec fn configured_view(kinds: Option<Set<u16>>) -> Seq<WritePolicyView> {
    match kinds {
        Some(kinds) => seq![WritePolicyView::Ephemeral, WritePolicyView::Kinds(kinds)],
        None => seq![WritePolicyView::Ephemeral],
    }
}

/// The kinds of a configured allowlist as a set.
pub open spec fn configured_kinds(kinds: Option<HashSet<u16>>) -> Option<Set<u16>> {
    match kinds {
        Some(kinds) => Some(kinds@),
        None => None,
    }
}

/// Builds the chain of a configuration with the allowlist `kinds`, if any.
pub fn configured_chain(kinds: Option<HashSet<u16>>) -> (r: Vec<WritePolicy>)
    ensures
        chain_view(r@) == configured_view(configured_kinds(kinds)),
{
    let mut chain: Vec<WritePolicy> = Vec::new();
    chain.push(WritePolicy::Ephemeral(EphemeralPolicy));
    match kinds {
        Some(kinds) => {
            chain.push(WritePolicy::Kinds(KindPolicy::new(kinds)));
        },
        None => {},
    }
    assert(chain_view(chain@) =~= configured_view(configured_kinds(kinds)));
    chain
}

/// What a configured chain decides: an ephemeral kind is rejected as
/// ephemeral; any other kind is rejected where an allowlist is configured and
/// does not hold it, and admitted otherwise.
pub proof fn lemma_configured_chain(kinds: Option<Set<u16>>, kind: u16)
    ensures
        first_rejection(configured_view(kinds), kind) == if is_ephemeral(kind) {
            Some(ephemeral_reason())
        } else if kinds is Some && !kinds->0.contains(kind) {
            Some(kind_reason())
        } else {
            None
        },
{
    let chain = configured_view(kinds);
    reveal_with_fuel(first_rejection, 3);
    if kinds is Some {
        assert(chain.skip(1)[0] == WritePolicyView::Kinds(kinds->0));
        assert(chain.skip(1).skip(1).len() == 0);
    } else {
        assert(chain.skip(1).len() == 0);
    }
}

/// The chain rejects a kind exactly when one of its policies does, and the
/// reason it gives is that of the first such policy.
pub proof fn lemma_first_rejection(policies: Seq<WritePolicyView>, kind: u16)
    ensures
        first_rejection(policies, kind) is Some <==> exists|i: int|
            0 <= i < policies.len() && (#[trigger] policies[i]).decision(kind) is Some,
        first_rejection(policies, kind) is Some ==> exists|i: int|
            {
                &&& 0 <= i < policies.len()
                &&& (#[trigger] policies[i]).decision(kind) == first_rejection(policies, kind)
                &&& forall|j: int| 0 <= j < i ==> (#[trigger] policies[j]).decision(kind) is None
            },
    decreases policies.len(),
{
    if policies.len() == 0 {
    } else if policies[0].decision(kind) is Some {
        assert(policies[0].decision(kind) == first_rejection(policies, kind));
    } else {
        let rest = policies.skip(1);
        lemma_first_rejection(rest, kind);
        assert(forall|i: int| 0 <= i < rest.len() ==> rest[i] == policies[i + 1]);
        if first_rejection(rest, kind) is Some {
            let i = choose|i: int|
                {
                    &&& 0 <= i < rest.len()
                    &&& (#[trigger] rest[i]).decision(kind) == first_rejection(rest, kind)
                    &&& forall|j: int| 0 <= j < i ==> (#[trigger] rest[j]).decision(kind) is None
                };
            assert(policies[i + 1].decision(kind) == first_rejection(policies, kind));
            assert forall|j: int| 0 <= j < i + 1 implies (#[trigger] policies[j]).decision(
                kind,
            ) is None by {
                if j > 0 {
                    assert(rest[j - 1] == policies[j]);
                }
            }
        } else {
            assert forall|i: int| 0 <= i < policies.len() implies (#[trigger] policies[i]).decision(
                kind,
            ) is None by {
                if i > 0 {
                    assert(rest[i - 1] == policies[i]);
                }
            }
        }
    }
}

} // verus!
