use vstd::prelude::*;

verus! {

/// Why a ledger operation was refused. A refused operation leaves the
/// ledger exactly as it was.
#[derive(Clone, Copy, Debug, PartialEq, Eq, Structural)]
pub enum RewardsError {
    /// The participant's stake is already being withdrawn.
    AlreadyWithdrawing,
    /// The participant's stake fell below the principal they entered with.
    PrincipalDecreased,
    /// Only the owner may close an entry whose stake is not being withdrawn.
    Unauthorized,
    /// The participant already holds a live entry.
    DuplicateEntry,
    /// A zero amount was offered.
    InvalidAmount,
    /// The participant holds no live entry.
    NotEntered,
    /// A total or a product left the range of its integer type.
    Overflow,
    /// A total would fall below what it must still back.
    Underflow,
    /// The rate would divide shares by an empty principal total.
    DivisionByZero,
    /// A participant's current value fell below their principal.
    NegativeYield,
}

} // verus!
