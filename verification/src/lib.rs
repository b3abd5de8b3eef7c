//! PECrab: a payment engine that replays transactions into client accounts.
//!
//! Deposits, withdrawals, disputes, resolves and chargebacks arrive as events;
//! [`Payments`] applies them in order and reports the final accounts. This
//! crate holds everything that the program decides. Files, the spill store and
//! tasks belong to its caller.

pub mod account;
pub mod amount;
pub mod dispatch;
pub mod engine;
pub mod env;
pub mod errors;
pub mod events;
pub mod footprint;
pub mod ledger;
pub mod mem_budget;
pub mod model;
pub mod models;
pub mod parallel;
pub mod pending;
pub mod record;
pub mod replay;
pub mod steps;
pub mod text;

pub use engine::Payments;
pub use errors::EngineError;
use vstd::prelude::*;

verus! {

/// The path of the CSV file, from an optional command line argument.
pub fn parse_file_path(arg: Option<String>) -> (r: Result<String, EngineError>)
    ensures
        match arg {
            Some(path) => r == Ok::<String, EngineError>(path),
            None => r matches Err(EngineError::InvalidCliArgument(text)) && text@
                == "CSV filename missing in cli argument"@,
        },
{
    match arg {
        Some(path) => Ok(path),
        None => Err(EngineError::InvalidCliArgument("CSV filename missing in cli argument".to_owned())),
    }
}

} // verus!
