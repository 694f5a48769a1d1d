use vstd::prelude::*;

verus! {

/// Why an operation on the store was refused.
#[derive(Debug, Clone, Copy, PartialEq, Eq, Structural)]
pub enum ContractError {
    /// No record is filed under the given (owner, id).
    NotFound,
}

} // verus!
