pub mod multiboot2;
pub mod source;
