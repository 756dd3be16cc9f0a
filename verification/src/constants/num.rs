use vstd::prelude::*;

verus! {

// Units and limits

/// How many units of a stored quantity make one mole, one kelvin or one
/// kilopascal; a ratio of one is written as this many thousandths.
pub const SCALE: u64 = 1000;

/// Most species that one mixture holds.
pub const MAX_SPECIES: usize = 1024;

/// Most millimoles of one species that a mixture holds.
pub const MAX_MOLES: u64 = 1_000_000_000_000_000;

/// Highest specific heat of a species that a mixture holds, in joules per
/// mole and kelvin.
pub const MAX_SPECIFIC_HEAT: usize = 1_000_000;

/// Highest temperature of a mixture, in millikelvin.
pub const MAX_TEMPERATURE: u64 = 10_000_000_000_000;

// General constants of the atmosphere

/// The ideal gas constant, 8.31 J/(mol K), in thousandths.
pub const R_IDEAL_GAS_EQUATION: u64 = 8310;

/// One atmosphere, in pascals.
pub const ONE_ATMOSPHERE: u64 = 101_325;

/// Temperature of the cosmic microwave background, in millikelvin.
pub const TCMB: u64 = 2_700;

/// Temperature of cryogenic storage, in millikelvin.
pub const TCRYO: u64 = 225_000;

/// Zero degrees Celsius, in millikelvin.
pub const T0C: u64 = 273_150;

/// Twenty degrees Celsius, in millikelvin.
pub const T20C: u64 = 293_150;

// Tanks

/// Temperature at which a tank melts, in millikelvin.
pub const TANK_MELT_TEMPERATURE: u64 = 1_000_000_000;

/// Pressure at which a tank starts to leak, in pascals.
pub const TANK_LEAK_PRESSURE: u64 = 30 * ONE_ATMOSPHERE;

/// Pressure at which a tank ruptures, in pascals.
pub const TANK_RUPTURE_PRESSURE: u64 = 35 * ONE_ATMOSPHERE;

/// Pressure at which a tank bursts into fragments, in pascals.
pub const TANK_FRAGMENT_PRESSURE: u64 = 40 * ONE_ATMOSPHERE;

/// Pressure by which the range of a bursting tank is scaled, in pascals.
pub const TANK_FRAGMENT_SCALE: u64 = 6 * ONE_ATMOSPHERE;

/// Highest release pressure of a tank, in pascals.
pub const TANK_MAX_RELEASE_PRESSURE: u64 = 3 * ONE_ATMOSPHERE;

// Gas reactions

/// Two mixtures whose temperatures differ by no more than this, in
/// millikelvin, keep their temperature when they are merged.
pub const MINIMUM_TEMP_DELTA_TO_CONSIDER: u64 = 500;

/// Moles of oxygen that a mole of burning plasma takes at least, in
/// thousandths.
pub const OXYGEN_BURN_RATE_BASE: u64 = 1_400;

/// By how much the burn rate of plasma is divided.
pub const PLASMA_BURN_RATE_DELTA: usize = 9;

/// Least moles of oxygen for plasma to burn.
pub const PLASMA_MINIMUM_OXYGEN_NEEDED: usize = 2;

/// Ratio of oxygen to plasma from which plasma burns at its full rate.
pub const PLASMA_MINIMUM_OXYGEN_PLASMA_RATIO: usize = 30;

/// Joules released by a mole of burnt carbon.
pub const FIRE_CARBON_ENERGY_RELEASED: usize = 100_000;

/// Joules released by a mole of burnt hydrogen.
pub const FIRE_HYDROGEN_ENERGY_RELEASED: usize = 280_000;

/// Temperature below which water vapor freezes, in kelvin.
pub const WATER_VAPOR_FREEZE: usize = 200;

/// Temperature from which nitrous oxide decomposes, in kelvin.
pub const N2O_DECOMPOSITION_MIN_ENERGY: usize = 1400;

/// Joules released by a mole of decomposed nitrous oxide.
pub const N2O_DECOMPOSITION_ENERGY_RELEASED: usize = 200_000;

/// Joules taken up by the formation of nitryl.
pub const NITRYL_FORMATION_ENERGY: usize = 100_000;

/// By how much the oxygen is divided that burning tritium takes.
pub const TRITIUM_BURN_OXY_FACTOR: usize = 100;

/// By how much the tritium is divided that burns at once.
pub const TRITIUM_BURN_TRIT_FACTOR: usize = 10;

/// Joules of released energy that make one unit of radiation when tritium
/// burns.
pub const TRITIUM_BURN_RADIOACTIVITY_FACTOR: usize = 50_000;

/// Least moles of burnt tritium that give off radiation, in thousandths.
pub const TRITIUM_MINIMUM_RADIATION_ENERGY: u64 = 100;

/// Thermal energy in joules from which tritium burns at its full rate.
pub const MINIMUM_TRIT_OXYBURN_ENERGY: usize = 2_000_000;

/// Ratio of plasma to oxygen from which burning plasma gives tritium.
pub const SUPER_SATURATION_THRESHOLD: usize = 96;

/// Kelvin by which the heat of a stimulum reaction is scaled.
pub const STIMULUM_HEAT_SCALE: usize = 100_000;

/// First rise of the energy curve of stimulum, in thousandths.
pub const STIMULUM_FIRST_RISE: u64 = 650;

/// First drop of the energy curve of stimulum, in thousandths.
pub const STIMULUM_FIRST_DROP: u64 = 65;

/// Moles of hyper-noblium from which other reactions are held down.
pub const REACTION_OPPRESSION_THRESHOLD: usize = 5;

/// Joules taken up by the formation of a mole of hyper-noblium.
pub const NOBLIUM_FORMATION_ENERGY: usize = 2_000_000_000;

/// Moles of stimulum and of nitryl that make a stimulum ball.
pub const STIM_BALL_GAS_AMOUNT: usize = 5;

// Research points

/// Points for a mole of hyper-noblium formed.
pub const NOBLIUM_RESEARCH_AMOUNT: usize = 1000;

/// Points for a mole of BZ formed.
pub const BZ_RESEARCH_SCALE: usize = 4;

/// Most points that one formation of BZ gives.
pub const BZ_RESEARCH_MAX_AMOUNT: usize = 400;

/// Points for a mole of miasma sterilized.
pub const MIASMA_RESEARCH_AMOUNT: usize = 40;

/// Points for a mole of stimulum formed.
pub const STIMULUM_RESEARCH_AMOUNT: usize = 50;

// Fusion

/// Thermal energy in joules from which fusion starts.
pub const FUSION_ENERGY_THRESHOLD: usize = 3_000_000_000;

/// Moles of tritium and of plasma from which fusion starts.
pub const FUSION_MOLE_THRESHOLD: usize = 250;

/// Power that a unit of fusion power adds to the instability, in thousandths.
pub const INSTABILITY_GAS_POWER_FACTOR: u64 = 3;

/// Moles of tritium that one fusion uses up.
pub const FUSION_TRITIUM_MOLES_USED: usize = 1;

/// Joules that bind a mole of plasma.
pub const PLASMA_BINDING_ENERGY: usize = 20_000_000;

/// Volume in litres at which the shape of the vessel neither helps nor
/// hinders fusion.
pub const TOROID_VOLUME_BREAKEVEN: usize = 1000;

/// Temperature from which fusion starts, in kelvin.
pub const FUSION_TEMPERATURE_THRESHOLD: usize = 10000;

/// Joules by which the chance of a particle is scaled.
pub const PARTICLE_CHANCE_CONSTANT: isize = -20_000_000;

/// Most radiation that one fusion gives off.
pub const FUSION_RAD_MAX: usize = 2000;

/// Joules by which the radiation of a fusion is scaled.
pub const FUSION_RAD_COEFFICIENT: isize = -1000;

/// By how much an unstable fusion that takes up energy is held back.
pub const FUSION_INSTABILITY_ENDOTHERMALITY: usize = 2;

} // verus!
