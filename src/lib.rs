//! Core of a small x86_64 kernel: a text-screen model, a page-table walker
//! over an offset-mapped physical-memory window, a boot frame allocator and
//! the double-fault stack table setup.

pub mod frame_allocator;
pub mod gdt;
pub mod paging;
pub mod vga_buffer;
