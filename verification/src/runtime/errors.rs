//! Runtime errors raised by the object lifecycle, table states and arithmetic.

use vstd::prelude::*;

verus! {

/// A runtime error and the values it was raised with.
#[derive(Debug, PartialEq, Eq)]
pub enum RuntimeError {
    /// A reference count would overflow or underflow, or an object would be
    /// released twice.
    RefcountInvariant {
        /// What went wrong.
        message: &'static str,
    },
    /// An object was used after its payload was released.
    UseAfterRelease,
    /// A weak handle was upgraded after its target was released.
    WeakUpgrade,
    /// A value or payload had another type than the one expected.
    TypeMismatch {
        /// Expected type name.
        expected: &'static str,
        /// Actual type name.
        actual: &'static str,
    },
    /// A table was used or moved in a state that does not allow it.
    TableState {
        /// The state or access that was expected.
        expected: &'static str,
        /// The current state.
        actual: &'static str,
    },
    /// A table's `init` hook failed; the table was released.
    TableInit {
        /// What went wrong.
        message: &'static str,
        /// The error the `init` hook returned.
        cause: Box<RuntimeError>,
        /// The error of the `drop` hook that ran while the table was released.
        suppressed: Option<Box<RuntimeError>>,
    },
    /// A table's `drop` hook failed; the table was still released.
    TableDrop {
        /// What went wrong.
        message: &'static str,
        /// The error the `drop` hook returned.
        cause: Box<RuntimeError>,
    },
    /// Division or remainder by zero.
    DivisionByZero {
        /// The operator that divided.
        operator: &'static str,
    },
    /// A numeric result does not fit its width.
    NumericOverflow {
        /// What overflowed.
        message: &'static str,
    },
    /// A value that cannot be hashed was given as a set element.
    UnhashableElement {
        /// The type name of the rejected value.
        type_label: &'static str,
    },
    /// A value is not acceptable where it is used.
    InvalidValue {
        /// Why the value was rejected.
        message: &'static str,
    },
}

} // verus!
