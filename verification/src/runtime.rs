use crate::balances;
use crate::proof_of_existence;
use crate::support::{outcome_is, Dispatch, DispatchResult};
use crate::system;
use crate::system::nonce_in;
use crate::types::{AccountId, Block, Extrinsic};
use vstd::prelude::*;

verus! {

/// The calls that the runtime takes: for each module, the calls of that module.
pub enum RuntimeCall {
    Balances(balances::Call),
    ProofOfExistence(proof_of_existence::Call),
}

/// The runtime: one instance of each module.
#[derive(Debug)]
pub struct Runtime {
    pub system: system::Pallet,
    pub balances: balances::Pallet,
    pub proof_of_existence: proof_of_existence::Pallet,
}

/// An extrinsic whose call failed while its block was replayed.
#[derive(Debug)]
pub struct ExtrinsicFailure {
    /// The position of the extrinsic in its block.
    pub index: usize,
    /// Why its call failed.
    pub reason: &'static str,
}

impl View for ExtrinsicFailure {
    type V = (int, Seq<char>);

    open spec fn view(&self) -> (int, Seq<char>) {
        (self.index as int, self.reason@)
    }
}

/// What a runtime holds, as mathematical values.
pub ghost struct State {
    pub block_number: u32,
    pub nonces: Map<Seq<char>, u32>,
    pub balances: Map<Seq<char>, u128>,
    pub claims: Map<Seq<char>, Seq<char>>,
}

/// The state before the first block: nothing stored, and block number zero.
pub open spec fn genesis() -> State {
    State {
        block_number: 0,
        nonces: Map::empty(),
        balances: Map::empty(),
        claims: Map::empty(),
    }
}

/// Why the call `call` of `caller` fails in the state `st`, or `None`.
pub open spec fn call_error(st: State, caller: Seq<char>, call: RuntimeCall) -> Option<Seq<char>> {
    match call {
        RuntimeCall::Balances(c) => balances::call_error(st.balances, caller, c),
        RuntimeCall::ProofOfExistence(c) => proof_of_existence::call_error(st.claims, caller, c),
    }
}

/// The state after the call `call` of `caller` in the state `st`: only the
/// module that owns the call changes, and a failed call changes nothing.
pub open spec fn call_effect(st: State, caller: Seq<char>, call: RuntimeCall) -> State {
    match call {
        RuntimeCall::Balances(c) => State {
            balances: balances::call_effect(st.balances, caller, c),
            ..st
        },
        RuntimeCall::ProofOfExistence(c) => State {
            claims: proof_of_existence::call_effect(st.claims, caller, c),
            ..st
        },
    }
}

/// The state `st` with one more extrinsic counted for `caller`.
pub open spec fn count_nonce(st: State, caller: Seq<char>) -> State {
    State { nonces: st.nonces.insert(caller, (nonce_in(st.nonces, caller) + 1) as u32), ..st }
}

/// The state `st` with the block number moved on by one.
pub open spec fn next_block(st: State) -> State {
    State { block_number: (st.block_number + 1) as u32, ..st }
}

/// The state after the extrinsics `exts` have run on `st`, first to last:
/// each one is counted for its caller, then its call takes effect.
pub open spec fn replay(st: State, exts: Seq<Extrinsic>) -> State
    decreases exts.len(),
{
    if exts.len() == 0 {
        st
    } else {
        let mid = count_nonce(replay(st, exts.drop_last()), exts.last().caller@);
        call_effect(mid, exts.last().caller@, exts.last().call)
    }
}

/// The extrinsics of `exts` whose call fails when `exts` run on `st`, in
/// order: for each its position and the reason.
pub open spec fn failures(st: State, exts: Seq<Extrinsic>) -> Seq<(int, Seq<char>)>
    decreases exts.len(),
{
    if exts.len() == 0 {
        Seq::empty()
    } else {
        let mid = count_nonce(replay(st, exts.drop_last()), exts.last().caller@);
        match call_error(mid, exts.last().caller@, exts.last().call) {
            Some(reason) => failures(st, exts.drop_last()).push((exts.len() - 1, reason)),
            None => failures(st, exts.drop_last()),
        }
    }
}

/// How many of the extrinsics `exts` the account `who` originated.
pub open spec fn originated(exts: Seq<Extrinsic>, who: Seq<char>) -> nat
    decreases exts.len(),
{
    if exts.len() == 0 {
        0
    } else if exts.last().caller@ == who {
        originated(exts.drop_last(), who) + 1
    } else {
        originated(exts.drop_last(), who)
    }
}

/// No account's nonce leaves the range of `u32` when `exts` run on `st`.
pub open spec fn nonces_fit(st: State, exts: Seq<Extrinsic>) -> bool {
    forall|who: Seq<char>| nonce_in(st.nonces, who) + #[trigger] originated(exts, who) <= u32::MAX
}

/// An account has originated no more extrinsics among the first `n` of a
/// block than in the whole block.
pub proof fn lemma_originated_prefix(exts: Seq<Extrinsic>, n: int, who: Seq<char>)
    requires
        0 <= n <= exts.len(),
    ensures
        originated(exts.take(n), who) <= originated(exts, who),
    decreases exts.len(),
{
    if n == exts.len() {
        assert(exts.take(n) =~= exts);
    } else {
        assert(exts.take(n) =~= exts.drop_last().take(n));
        lemma_originated_prefix(exts.drop_last(), n, who);
    }
}

/// What an account originated in two runs of extrinsics, one after the
/// other, is the sum of what it originated in each.
pub proof fn lemma_originated_concat(first: Seq<Extrinsic>, second: Seq<Extrinsic>, who: Seq<char>)
    ensures
        originated(first + second, who) == originated(first, who) + originated(second, who),
    decreases second.len(),
{
    if second.len() == 0 {
        assert(first + second =~= first);
    } else {
        assert((first + second).drop_last() =~= first + second.drop_last());
        lemma_originated_concat(first, second.drop_last(), who);
    }
}

/// After a run of extrinsics, the nonce of each account has grown by the
/// number of those that the account originated, whether or not their calls
/// failed, and the block number is what it was.
pub proof fn lemma_replay_counts(st: State, exts: Seq<Extrinsic>, who: Seq<char>)
    requires
        nonce_in(st.nonces, who) + originated(exts, who) <= u32::MAX,
    ensures
        nonce_in(replay(st, exts).nonces, who) == nonce_in(st.nonces, who) + originated(exts, who),
        replay(st, exts).block_number == st.block_number,
    decreases exts.len(),
{
    if exts.len() > 0 {
        lemma_replay_counts(st, exts.drop_last(), who);
    }
}

/// After two blocks, one after the other, the nonce of each account has grown
/// by the number of extrinsics that the account originated in the two.
pub proof fn lemma_two_blocks_count(
    st: State,
    first: Seq<Extrinsic>,
    second: Seq<Extrinsic>,
    who: Seq<char>,
)
    requires
        nonce_in(st.nonces, who) + originated(first + second, who) <= u32::MAX,
    ensures
        nonce_in(
            replay(next_block(replay(next_block(st), first)), second).nonces,
            who,
        ) == nonce_in(st.nonces, who) + originated(first + second, who),
{
    lemma_originated_concat(first, second, who);
    lemma_replay_counts(next_block(st), first, who);
    lemma_replay_counts(next_block(replay(next_block(st), first)), second, who);
}

/// An account that originated one of the extrinsics `exts` is the caller of
/// one of them.
pub proof fn lemma_originated_has_caller(exts: Seq<Extrinsic>, who: Seq<char>)
    requires
        originated(exts, who) > 0,
    ensures
        exists|i: int| 0 <= i < exts.len() && (#[trigger] exts[i]).caller@ == who,
    decreases exts.len(),
{
    if exts.last().caller@ == who {
        assert(exts[exts.len() - 1].caller@ == who);
    } else {
        lemma_originated_has_caller(exts.drop_last(), who);
        let i = choose|i: int|
            0 <= i < exts.drop_last().len() && (#[trigger] exts.drop_last()[i]).caller@ == who;
        assert(exts[i].caller@ == who);
    }
}

/// How many of the extrinsics `exts` the account `who` originated.
pub fn count_originated(exts: &Vec<Extrinsic>, who: &AccountId) -> (n: usize)
    ensures
        n == originated(exts@, who@),
{
    let mut n: usize = 0;
    let mut i: usize = 0;
    while i < exts.len()
        invariant
            i <= exts@.len(),
            n <= i,
            n == originated(exts@.take(i as int), who@),
        decreases exts@.len() - i,
    {
        proof {
            assert(exts@.take(i + 1).drop_last() =~= exts@.take(i as int));
            assert(exts@.take(i + 1).last() == exts@[i as int]);
        }
        if exts[i].caller == *who {
            n += 1;
        }
        i += 1;
    }
    assert(exts@.take(exts@.len() as int) =~= exts@);
    n
}

impl Runtime {
    /// The invariant of the representation: that of each module.
    pub open spec fn wf(&self) -> bool {
        &&& self.system.wf()
        &&& self.balances.wf()
        &&& self.proof_of_existence.wf()
    }

    /// What the runtime holds.
    pub open spec fn state(&self) -> State {
        State {
            block_number: self.system.spec_block_number(),
            nonces: self.system.nonces(),
            balances: self.balances.balances(),
            claims: self.proof_of_existence.claims(),
        }
    }

    /// The runtime before the first block.
    pub fn new() -> (rt: Self)
        ensures
            rt.wf(),
            rt.state() == genesis(),
            forall|who: Seq<char>| rt.system.spec_nonce(who) == 0,
            forall|who: Seq<char>| rt.balances.spec_balance(who) == 0,
            forall|content: Seq<char>| rt.proof_of_existence.spec_claim(content).is_none(),
    {
        Runtime {
            system: system::Pallet::new(),
            balances: balances::Pallet::new(),
            proof_of_existence: proof_of_existence::Pallet::new(),
        }
    }

    /// Whether the runtime can run `block`: the block number can move on,
    /// and, where the header carries the next number, no nonce leaves its
    /// range while the extrinsics are counted.
    pub fn accepts(&self, block: &Block) -> (ok: bool)
        requires
            self.wf(),
        ensures
            ok == (self.state().block_number < u32::MAX && (block.header.block_number
                == self.state().block_number + 1 ==> nonces_fit(
                self.state(),
                block.extrinsics@,
            ))),
    {
        let current = self.system.block_number();
        if current == u32::MAX {
            return false;
        }
        if block.header.block_number != current + 1 {
            return true;
        }
        let ghost st = self.state();
        let ghost exts = block.extrinsics@;
        let mut i: usize = 0;
        while i < block.extrinsics.len()
            invariant
                i <= exts.len(),
                exts == block.extrinsics@,
                st == self.state(),
                st.block_number < u32::MAX,
                block.header.block_number == st.block_number + 1,
                self.wf(),
                forall|j: int|
                    0 <= j < i ==> nonce_in(st.nonces, (#[trigger] exts[j]).caller@) + originated(
                        exts,
                        exts[j].caller@,
                    ) <= u32::MAX,
            decreases exts.len() - i,
        {
            let who = &block.extrinsics[i].caller;
            let count = count_originated(&block.extrinsics, who);
            let room = u32::MAX - self.system.get_nonce(who);
            if count > room as usize {
                assert(nonce_in(st.nonces, who@) + originated(exts, who@) > u32::MAX);
                return false;
            }
            i += 1;
        }
        proof {
            assert forall|who: Seq<char>|
                nonce_in(st.nonces, who) + #[trigger] originated(exts, who) <= u32::MAX by {
                if originated(exts, who) > 0 {
                    lemma_originated_has_caller(exts, who);
                }
            }
        }
        true
    }

    /// Runs a block, and says which of its extrinsics failed. The block
    /// number moves on first. A block whose header does not carry the new
    /// number is rejected, and none of its extrinsics runs. Otherwise every
    /// extrinsic runs, in order, and a call that fails stops nothing.
    pub fn execute_block_with_report(&mut self, block: Block) -> (r: (
        DispatchResult,
        Vec<ExtrinsicFailure>,
    ))
        requires
            old(self).wf(),
            old(self).state().block_number < u32::MAX,
            block.header.block_number == old(self).state().block_number + 1 ==> nonces_fit(
                old(self).state(),
                block.extrinsics@,
            ),
        ensures
            final(self).wf(),
            block.header.block_number != old(self).state().block_number + 1 ==> {
                &&& outcome_is(r.0, Some("block number does not match what is expected"@))
                &&& final(self).state() == next_block(old(self).state())
                &&& r.1@.len() == 0
            },
            block.header.block_number == old(self).state().block_number + 1 ==> {
                &&& r.0.is_ok()
                &&& final(self).state() == replay(next_block(old(self).state()), block.extrinsics@)
                &&& forall|who: Seq<char>|
                    final(self).system.spec_nonce(who) == old(self).system.spec_nonce(who)
                        + #[trigger] originated(block.extrinsics@, who)
                &&& r.1@.map_values(|f: ExtrinsicFailure| f@) == failures(
                    next_block(old(self).state()),
                    block.extrinsics@,
                )
            },
    {
        let mut report: Vec<ExtrinsicFailure> = Vec::new();
        self.system.inc_block_number();
        if block.header.block_number != self.system.block_number() {
            return (Err("block number does not match what is expected"), report);
        }
        let ghost start = self.state();
        let ghost exts = block.extrinsics@;
        assert(exts.len() == block.extrinsics.len());
        let mut index: usize = 0;
        assert(exts.take(0) =~= Seq::<Extrinsic>::empty());
        assert(report@.map_values(|f: ExtrinsicFailure| f@) =~= failures(start, exts.take(0)));
        for ext in it: block.extrinsics.into_iter()
            invariant
                it.seq() == exts,
                exts.len() <= usize::MAX,
                index == it.index(),
                self.wf(),
                nonces_fit(start, exts),
                self.state() == replay(start, exts.take(it.index() as int)),
                report@.map_values(|f: ExtrinsicFailure| f@) == failures(
                    start,
                    exts.take(it.index() as int),
                ),
        {
            let Extrinsic { caller, call } = ext;
            proof {
                let n = index as int;
                assert(exts.take(n + 1).drop_last() =~= exts.take(n));
                assert(exts.take(n + 1).last() == exts[n]);
                lemma_originated_prefix(exts, n + 1, caller@);
                assert(originated(exts.take(n), caller@) < originated(exts.take(n + 1), caller@));
                assert(nonce_in(start.nonces, caller@) + originated(exts, caller@) <= u32::MAX);
                lemma_replay_counts(start, exts.take(n), caller@);
            }
            self.system.inc_nonce(&caller);
            let ghost before = report@;
            match self.dispatch(caller, call) {
                Ok(_) => {},
                Err(reason) => {
                    report.push(ExtrinsicFailure { index, reason });
                    assert(report@.map_values(|f: ExtrinsicFailure| f@) =~= before.map_values(
                        |f: ExtrinsicFailure| f@,
                    ).push((index as int, reason@)));
                },
            }
            index += 1;
        }
        proof {
            assert(exts.take(exts.len() as int) =~= exts);
            assert forall|who: Seq<char>|
                nonce_in(replay(start, exts).nonces, who) == nonce_in(start.nonces, who)
                    + #[trigger] originated(exts, who) by {
                lemma_replay_counts(start, exts, who);
            }
        }
        (Ok(()), report)
    }

    /// Runs a block: as `execute_block_with_report`, without the report.
    pub fn execute_block(&mut self, block: Block) -> (r: DispatchResult)
        requires
            old(self).wf(),
            old(self).state().block_number < u32::MAX,
            block.header.block_number == old(self).state().block_number + 1 ==> nonces_fit(
                old(self).state(),
                block.extrinsics@,
            ),
        ensures
            final(self).wf(),
            block.header.block_number != old(self).state().block_number + 1 ==> {
                &&& outcome_is(r, Some("block number does not match what is expected"@))
                &&& final(self).state() == next_block(old(self).state())
            },
            block.header.block_number == old(self).state().block_number + 1 ==> {
                &&& r.is_ok()
                &&& final(self).state() == replay(next_block(old(self).state()), block.extrinsics@)
                &&& forall|who: Seq<char>|
                    final(self).system.spec_nonce(who) == old(self).system.spec_nonce(who)
                        + #[trigger] originated(block.extrinsics@, who)
            },
    {
        let (result, _) = self.execute_block_with_report(block);
        result
    }
}

impl Dispatch for Runtime {
    type Caller = AccountId;

    type Call = RuntimeCall;

    open spec fn ready(&self) -> bool {
        self.wf()
    }

    /// Routes a call to the module that owns it, and hands back what that
    /// module answers.
    fn dispatch(&mut self, caller: AccountId, call: RuntimeCall) -> (r: DispatchResult)
        ensures
            outcome_is(r, call_error(old(self).state(), caller@, call)),
            final(self).state() == call_effect(old(self).state(), caller@, call),
            r.is_err() ==> *final(self) == *old(self),
    {
        match call {
            RuntimeCall::Balances(call) => self.balances.dispatch(caller, call),
            RuntimeCall::ProofOfExistence(call) => self.proof_of_existence.dispatch(caller, call),
        }
    }
}

} // verus!
