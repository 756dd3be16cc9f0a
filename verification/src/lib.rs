//! Gas mixtures and their chemistry for an enclosed-environment simulation.
//!
//! Every quantity is an exact integer in a fixed unit: amounts of gas in
//! millimoles, temperatures in millikelvin, volumes in litres, heat capacities
//! in millijoules per kelvin, energies in microjoules and pressures in pascals.
//! Nothing is rounded except where a division is part of the formula, and
//! there the result is rounded down.
//!
//! So that no sum or product can overflow, a mixture has limits: on the number
//! of its species, on the amount of each, on their specific heats and on its
//! temperature. A mixture within them, with no species twice and a positive
//! volume, is valid. The operations work on valid mixtures and leave them
//! valid; `GasMixture::is_valid` tells whether a mixture is.

/// Gas mixtures, gas species and reactions.
pub mod atmospherics;
/// The gas catalog and the numeric constants of the simulation.
pub mod constants;
/// The failures that the operations of this library report.
pub mod errors;
