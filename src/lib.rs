pub mod accounts;
pub mod amount;
pub mod channel;
pub mod dispute_look_up;
pub mod parser;
pub mod pipeline;

use vstd::prelude::*;

verus! {

/// Identifies one client's account.
pub type ClientID = u16;

/// Identifies one deposit or withdrawal record.
pub type TransactionID = u32;

} // verus!
