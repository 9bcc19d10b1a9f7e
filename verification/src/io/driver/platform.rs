//! What a driver and its operations are.

use vstd::prelude::*;

verus! {

/// An operation in the form that a driver takes.
pub trait PlatformOp: 'static + Sized {
    /// Whether the driver can take the operation.
    spec fn acceptable(self) -> bool;
}

/// Turns a caller's operation into a driver's and back.
pub trait IntoPlatformOp<O: PlatformOp>: Sized {
    /// Whether `op` is the driver's form of this operation.
    spec fn carried_by(self, op: O) -> bool;

    /// Whether the driver can take the operation.
    spec fn fit(self) -> bool;

    /// Whether the driver's operation carries one of this kind.
    spec fn kind_of(op: O) -> bool;

    /// The operation that the driver's carries.
    spec fn carried(op: O) -> Self;

    /// What comes back of the operation where the driver did nothing.
    spec fn untouched(self) -> Self;

    fn into_platform_op(self) -> (op: O)
        ensures
            self.carried_by(op),
            Self::kind_of(op),
            Self::carried(op) == self.untouched(),
            self.fit() ==> op.acceptable(),
    ;

    fn from_platform_op(op: O) -> (inner: Self)
        requires
            Self::kind_of(op),
        ensures
            inner == Self::carried(op),
    ;
}

} // verus!
