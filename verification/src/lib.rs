pub mod boot;
pub mod cpu;
pub mod fmtbuf;
pub mod interrupts;
pub mod kmain;
pub mod memory;
pub mod serial;
pub mod syscall;
pub mod utils;
pub mod vga;
