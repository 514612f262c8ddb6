//! The application side of a proof-of-stake chain's consensus engine: the pending block
//! that each height builds, the checks that transactions pass before they are staged,
//! slashing, and the close of an epoch with its rate, supply and validator-set updates.
use vstd::prelude::*;

pub mod epoch;
pub mod pending;
pub mod rate;
pub mod sync;
pub mod theorems;
pub mod transition;
pub mod validator;
pub mod worker;

verus! {

} // verus!
