use vstd::prelude::*;

verus! {

/// Errors that a contract handler reports to its caller.
#[derive(Debug, Clone, Copy, PartialEq, Eq, Structural)]
pub enum ContractError {
    InvalidInput,
    StorageError,
    Unauthorized,
    Failed,
    InsufficientPayment,
    InsufficientBalance,
    HostError,
}

} // verus!
