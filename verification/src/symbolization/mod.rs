//! Symbol resolution support: the address range of the binary in the target
//! process, and resolved frames with their printed form.
pub mod memory_maps;
pub mod symbolizer;
