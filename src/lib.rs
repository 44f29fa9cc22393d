//! Virtual-memory subsystem of a RISC-V kernel: addresses, page-table
//! entries, the four-level page-table tree and its mapper, huge-page
//! coalescing, and the registry of memory regions that feeds the mapper.

pub mod address;
pub mod bits;
pub mod entry;
pub mod level;
pub mod memory_map;
pub mod permission;
pub mod range;
pub mod regions;
pub mod table;
