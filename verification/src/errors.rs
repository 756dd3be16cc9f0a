use crate::atmospherics::gasmixtures::gastype::GasType;
use vstd::prelude::*;

verus! {

/// Why an operation on a mixture or a reaction pass failed.
#[derive(Clone, Copy, Debug, PartialEq, Eq)]
pub enum AtmosError {
    /// The species list and the mole list of a construction differ in length.
    VectorLengthMismatch { gas_length: usize, mole_length: usize },
    /// The species was never asserted into the mixture.
    GasNotFound { gas: GasType },
    /// The mixture holds no species at all.
    GasMixtureEmpty,
    /// An amount or a ratio to remove was below what the operation accepts.
    NegativeAmount { value: i64 },
    /// A reaction fired whose effect the mixture cannot take; `reaction` is the
    /// id of the rule.
    ReactionEffectInvariantViolation { reaction: &'static str },
}

} // verus!
