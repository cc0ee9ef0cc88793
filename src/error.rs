use vstd::prelude::*;

verus! {

/// Failures reported by the wallet engine.
#[derive(Clone, Copy, Debug, PartialEq, Eq, Structural)]
pub enum Error {
    /// The available outputs cannot fund the request, or what is left after the
    /// outputs cannot cover the required fee.
    InsufficientFunds,
    /// A caller-supplied value is out of range: a priority fee above the input
    /// total, a malformed address, or amounts whose total leaves the `u64` range.
    InvalidArgument,
    /// Associated private key data ids were given as an empty list.
    AssocPrvKeyDataIdsEmpty,
    /// The associated private key data are not of the form asked for.
    UnexpectedAssocPrvKeyDataIds,
    /// A name that is not one of the account kinds.
    InvalidAccountKind,
}

} // verus!
