//! Index bookkeeping for a vortex lattice: how per-section geometry is
//! flattened into one panel numbering, how the influence system is laid
//! out over that numbering, and checked access into the resulting arrays.

pub mod layout;
pub mod assembly;
pub mod indexing;
