/// The gas catalog: the species that the simulation knows.
pub mod gases;
/// The numeric constants of the simulation and the limits of a mixture.
pub mod num;
