use crate::numeric::{one_u32, zero_u32};
use crate::store::Store;
use crate::types::{AccountId, BlockNumber, Nonce};
use vstd::prelude::*;

verus! {

/// The nonce that the map `m` gives `who`: zero where it has no entry.
pub open spec fn nonce_in(m: Map<Seq<char>, u32>, who: Seq<char>) -> u32 {
    if m.contains_key(who) {
        m[who]
    } else {
        0
    }
}

/// The bookkeeping of the chain: the number of the current block, and for
/// each account the number of extrinsics it has originated.
#[derive(Debug)]
pub struct Pallet {
    block_number: BlockNumber,
    nonce: Store<Nonce>,
}

impl Pallet {
    /// The invariant of the representation.
    pub closed spec fn wf(&self) -> bool {
        self.nonce.wf()
    }

    /// The number of the current block.
    pub closed spec fn spec_block_number(&self) -> u32 {
        self.block_number
    }

    /// The nonces that are stored, by account.
    pub closed spec fn nonces(&self) -> Map<Seq<char>, u32> {
        self.nonce@
    }

    /// The nonce of `who`: zero for an account that was never seen.
    pub open spec fn spec_nonce(&self, who: Seq<char>) -> u32 {
        nonce_in(self.nonces(), who)
    }

    pub fn new() -> (p: Self)
        ensures
            p.wf(),
            p.spec_block_number() == 0,
            p.nonces() == Map::<Seq<char>, u32>::empty(),
            forall|who: Seq<char>| p.spec_nonce(who) == 0,
    {
        Pallet { block_number: zero_u32(), nonce: Store::new() }
    }

    pub fn block_number(&self) -> (n: BlockNumber)
        ensures
            n == self.spec_block_number(),
    {
        self.block_number
    }

    /// Moves on to the next block.
    pub fn inc_block_number(&mut self)
        requires
            old(self).spec_block_number() < u32::MAX,
        ensures
            final(self).spec_block_number() == old(self).spec_block_number() + 1,
            final(self).nonces() == old(self).nonces(),
            old(self).wf() ==> final(self).wf(),
    {
        self.block_number += one_u32();
    }

    /// Counts one more extrinsic of `who`.
    pub fn inc_nonce(&mut self, who: &AccountId)
        requires
            old(self).wf(),
            old(self).spec_nonce(who@) < u32::MAX,
        ensures
            final(self).wf(),
            final(self).spec_block_number() == old(self).spec_block_number(),
            final(self).nonces() == old(self).nonces().insert(
                who@,
                (old(self).spec_nonce(who@) + 1) as u32,
            ),
    {
        let nonce: Nonce = self.get_nonce(who);
        self.nonce.insert(who.clone(), nonce + one_u32());
    }

    pub fn get_nonce(&self, who: &AccountId) -> (n: Nonce)
        requires
            self.wf(),
        ensures
            n == self.spec_nonce(who@),
    {
        match self.nonce.get(who) {
            Some(n) => *n,
            None => zero_u32(),
        }
    }
}

} // verus!
