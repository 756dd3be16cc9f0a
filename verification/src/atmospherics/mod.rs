/// Reaction rules and the engine that applies them.
pub mod gases;
/// The mixture model and the species descriptors.
pub mod gasmixtures;
