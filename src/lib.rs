//! Sub-allocation of device memory: chunks grouped by memory type, first-fit
//! placement inside them, and a single global host mapping.
pub mod attachment;
pub mod memory_chunk;
pub mod memory_manager;
