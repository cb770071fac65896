use crate::runtime::RuntimeCall;
use crate::support;
use vstd::prelude::*;

verus! {

/// Identifies an account.
pub type AccountId = String;

/// An amount of funds.
pub type Balance = u128;

/// The number of a block.
pub type BlockNumber = u32;

/// How many extrinsics an account has originated.
pub type Nonce = u32;

/// What a claim is made on.
pub type Content = String;

pub type Extrinsic = support::Extrinsic<AccountId, RuntimeCall>;

pub type Header = support::Header<BlockNumber>;

pub type Block = support::Block<Header, Extrinsic>;

} // verus!
