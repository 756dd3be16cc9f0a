/// A species descriptor that borrows its names.
pub mod basegas;
/// What a mixture is made of: its entries, and what holds of them.
pub mod composition;
/// The gas mixture and its operations.
pub mod gasmixture;
/// A species descriptor of the catalog.
pub mod gastype;
/// What holds of splitting and merging mixtures.
pub mod laws;
