use vstd::prelude::*;

verus! {

/// A block: its header and the extrinsics to run, in order.
pub struct Block<Header, Extrinsic> {
    pub header: Header,
    pub extrinsics: Vec<Extrinsic>,
}

/// Metadata of a block: only its number.
pub struct Header<BlockNumber> {
    pub block_number: BlockNumber,
}

/// Who calls, and what they call.
pub struct Extrinsic<Caller, Call> {
    pub caller: Caller,
    pub call: Call,
}

/// What a call gives back: success, or the reason of the failure.
pub type DispatchResult = Result<(), &'static str>;

/// `r` is a success where `reason` is `None`, and otherwise the failure with
/// the text `reason`.
pub open spec fn outcome_is(r: DispatchResult, reason: Option<Seq<char>>) -> bool {
    match r {
        Ok(_) => reason.is_none(),
        Err(text) => reason == Some(text@),
    }
}

/// A state that takes calls: `dispatch` routes one call to the operation it
/// names and hands back that operation's result.
pub trait Dispatch {
    /// Identifies who makes a call.
    type Caller;

    /// The calls that the state takes.
    type Call;

    /// What must hold of the state before a call, and holds again after it.
    spec fn ready(&self) -> bool;

    fn dispatch(&mut self, caller: Self::Caller, call: Self::Call) -> (r: DispatchResult)
        requires
            old(self).ready(),
        ensures
            final(self).ready(),
    ;
}

} // verus!
