use crate::store::Store;
use crate::support::{outcome_is, Dispatch, DispatchResult};
use crate::types::{AccountId, Content};
use vstd::prelude::*;

verus! {

/// Why `caller` cannot claim `content` on the claims `m`, or `None` where
/// the claim is made: a content that has an owner cannot be claimed.
pub open spec fn create_error(m: Map<Seq<char>, Seq<char>>, content: Seq<char>) -> Option<
    Seq<char>,
> {
    if m.contains_key(content) {
        Some("Claim already exists"@)
    } else {
        None
    }
}

/// The claims after `caller` has tried to claim `content` on the claims `m`.
pub open spec fn create_effect(
    m: Map<Seq<char>, Seq<char>>,
    caller: Seq<char>,
    content: Seq<char>,
) -> Map<Seq<char>, Seq<char>> {
    if m.contains_key(content) {
        m
    } else {
        m.insert(content, caller)
    }
}

/// Why `caller` cannot revoke the claim on `content` on the claims `m`, or
/// `None` where the claim is revoked: only the owner of a claim revokes it.
pub open spec fn revoke_error(
    m: Map<Seq<char>, Seq<char>>,
    caller: Seq<char>,
    content: Seq<char>,
) -> Option<Seq<char>> {
    if !m.contains_key(content) {
        Some("No claim found for this content"@)
    } else if m[content] != caller {
        Some("You are not the owner of this claim"@)
    } else {
        None
    }
}

/// The claims after `caller` has tried to revoke the claim on `content` on
/// the claims `m`.
pub open spec fn revoke_effect(
    m: Map<Seq<char>, Seq<char>>,
    caller: Seq<char>,
    content: Seq<char>,
) -> Map<Seq<char>, Seq<char>> {
    if m.contains_key(content) && m[content] == caller {
        m.remove(content)
    } else {
        m
    }
}

/// The registry of claims: for each claimed content, the account that owns it.
#[derive(Debug)]
pub struct Pallet {
    claims: Store<AccountId>,
}

/// The calls that the registry takes.
pub enum Call {
    CreateClaim { claim: Content },
    RevokeClaim { claim: Content },
}

impl Pallet {
    /// The invariant of the representation.
    pub closed spec fn wf(&self) -> bool {
        self.claims.wf()
    }

    /// The owner of each content that has a live claim.
    pub closed spec fn claims(&self) -> Map<Seq<char>, Seq<char>> {
        Map::new(
            |content: Seq<char>| self.claims@.contains_key(content),
            |content: Seq<char>| self.claims@[content]@,
        )
    }

    /// The owner of `content`, if it is claimed.
    pub open spec fn spec_claim(&self, content: Seq<char>) -> Option<Seq<char>> {
        if self.claims().contains_key(content) {
            Some(self.claims()[content])
        } else {
            None
        }
    }

    pub fn new() -> (p: Self)
        ensures
            p.wf(),
            p.claims() == Map::<Seq<char>, Seq<char>>::empty(),
            forall|content: Seq<char>| p.spec_claim(content).is_none(),
    {
        let p = Pallet { claims: Store::new() };
        assert(p.claims() =~= Map::<Seq<char>, Seq<char>>::empty());
        p
    }

    pub fn get_claim(&self, content: &Content) -> (r: Option<&AccountId>)
        requires
            self.wf(),
        ensures
            match r {
                Some(owner) => self.spec_claim(content@) == Some(owner@),
                None => self.spec_claim(content@).is_none(),
            },
    {
        self.claims.get(content)
    }

    /// Records `caller` as the owner of `claim`, unless it has an owner.
    pub fn create_claim(&mut self, caller: AccountId, claim: Content) -> (r: DispatchResult)
        requires
            old(self).wf(),
        ensures
            final(self).wf(),
            outcome_is(r, create_error(old(self).claims(), claim@)),
            final(self).claims() == create_effect(old(self).claims(), caller@, claim@),
            r.is_err() ==> *final(self) == *old(self),
    {
        match self.get_claim(&claim) {
            Some(_) => Err("Claim already exists"),
            None => {
                self.claims.insert(claim, caller);
                assert(self.claims() =~= old(self).claims().insert(claim@, caller@));
                Ok(())
            },
        }
    }

    /// Removes the claim on `claim`, if `caller` owns it.
    pub fn revoke_claim(&mut self, caller: AccountId, claim: Content) -> (r: DispatchResult)
        requires
            old(self).wf(),
        ensures
            final(self).wf(),
            outcome_is(r, revoke_error(old(self).claims(), caller@, claim@)),
            final(self).claims() == revoke_effect(old(self).claims(), caller@, claim@),
            r.is_err() ==> *final(self) == *old(self),
    {
        let claim_owner = match self.get_claim(&claim) {
            Some(owner) => owner,
            None => {
                return Err("No claim found for this content");
            },
        };
        if *claim_owner != caller {
            return Err("You are not the owner of this claim");
        }
        self.claims.remove(&claim);
        assert(self.claims() =~= old(self).claims().remove(claim@));
        Ok(())
    }
}

impl Dispatch for Pallet {
    type Caller = AccountId;

    type Call = Call;

    open spec fn ready(&self) -> bool {
        self.wf()
    }

    /// Routes a call to the operation it names.
    fn dispatch(&mut self, caller: AccountId, call: Call) -> (r: DispatchResult)
        ensures
            outcome_is(r, call_error(old(self).claims(), caller@, call)),
            final(self).claims() == call_effect(old(self).claims(), caller@, call),
            r.is_err() ==> *final(self) == *old(self),
    {
        match call {
            Call::CreateClaim { claim } => self.create_claim(caller, claim),
            Call::RevokeClaim { claim } => self.revoke_claim(caller, claim),
        }
    }
}

/// Why the call `call` of `caller` fails on the claims `m`, or `None`.
pub open spec fn call_error(m: Map<Seq<char>, Seq<char>>, caller: Seq<char>, call: Call) -> Option<
    Seq<char>,
> {
    match call {
        Call::CreateClaim { claim } => create_error(m, claim@),
        Call::RevokeClaim { claim } => revoke_error(m, caller, claim@),
    }
}

/// The claims after the call `call` of `caller` on the claims `m`.
pub open spec fn call_effect(m: Map<Seq<char>, Seq<char>>, caller: Seq<char>, call: Call) -> Map<
    Seq<char>,
    Seq<char>,
> {
    match call {
        Call::CreateClaim { claim } => create_effect(m, caller, claim@),
        Call::RevokeClaim { claim } => revoke_effect(m, caller, claim@),
    }
}

/// Once a content is claimed, nobody can claim it again, whoever asks: the
/// second attempt fails because the claim exists, and the first owner stays.
pub proof fn lemma_claim_is_exclusive(
    m: Map<Seq<char>, Seq<char>>,
    first: Seq<char>,
    second: Seq<char>,
    content: Seq<char>,
)
    requires
        create_error(m, content).is_none(),
    ensures
        create_error(create_effect(m, first, content), content) == Some("Claim already exists"@),
        create_effect(create_effect(m, first, content), second, content) == create_effect(
            m,
            first,
            content,
        ),
        create_effect(m, first, content)[content] == first,
{
}

/// After its owner has revoked a claim, the content has no owner, and anyone
/// can claim it.
pub proof fn lemma_revoked_claim_is_free(
    m: Map<Seq<char>, Seq<char>>,
    owner: Seq<char>,
    next: Seq<char>,
    content: Seq<char>,
)
    requires
        revoke_error(m, owner, content).is_none(),
    ensures
        !revoke_effect(m, owner, content).contains_key(content),
        create_error(revoke_effect(m, owner, content), content).is_none(),
        create_effect(revoke_effect(m, owner, content), next, content)[content] == next,
{
}

} // verus!
