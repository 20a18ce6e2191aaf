//! Reasons for which a translation run is abandoned.

use vstd::prelude::*;

verus! {

/// A defect in the instruction stream, or a misuse of the engine, that ends
/// the run. A failed step leaves the translation state untouched.
#[derive(Clone, Copy, Debug, PartialEq, Eq, Structural)]
pub enum TranslateError {
    /// An instruction names a register outside the declared bank.
    UndeclaredRegister,
    /// A label is defined a second time.
    DuplicateLabelDefinition,
    /// A branch names a label that the stream never defines.
    UnresolvedLabelAtEnd,
    /// A subtraction's immediate is the least `i64`, whose negation does not fit.
    SignedOverflowOnSubtractNegation,
    /// An operation would be appended behind the jump that ends a block.
    DoubleTerminationOfBlock,
}

} // verus!
