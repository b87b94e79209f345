//! Text-mode VGA console writer and physical frame allocation for a small
//! x86_64 kernel, with their behaviour stated and proved.

pub mod vga_buffer;
pub mod memory;
pub mod vga_laws;
pub mod memory_laws;
