use vstd::prelude::*;

verus! {

/// Why a command or a query was refused.
#[derive(Clone, Copy, Debug, PartialEq, Eq, Structural)]
pub enum ContractError {
    /// The factory was initialised before.
    AlreadyInitialized,
    /// An identity other than the owner asked for an owner-only change.
    Unauthorized,
    /// The pair implementation id is not on the whitelist.
    ImplementationNotApproved,
    /// A record for this ordered pair of assets exists already.
    PairAlreadyExists,
    /// No record exists for this ordered pair of assets.
    RecordNotFound,
    /// The pair's addresses were filled in before.
    AlreadyRegistered,
}

} // verus!
