//! Per-sample processing passes that run either in place, reading and
//! overwriting one region, or out of place, reading one region and writing
//! another, behind one interface.

/// Iterators that pair each value to read with the slot to write.
pub mod iter;

/// Buffers that own the borrows for a pass and run transforms through them.
pub mod buffer;
