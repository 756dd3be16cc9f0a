pub use crate::atmospherics::gasmixtures::gasmixture::GasMixture;
pub use crate::atmospherics::gasmixtures::gastype::GasType;

/// Reaction rules and the engine that applies them.
pub mod reactions;
