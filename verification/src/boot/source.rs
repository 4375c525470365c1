use vstd::prelude::*;

verus! {

/// The value a multiboot2 loader passes to the kernel entry.
pub const MULTIBOOT2_MAGIC: u32 = 0x36d7_6289;

#[derive(Clone, Copy, Debug, PartialEq, Eq, Structural)]
pub enum BootSource {
    GrubMultiboot2,
    Unknown,
}

#[derive(Clone, Copy, Debug, PartialEq, Eq, Structural)]
pub struct BootReport {
    pub source: BootSource,
    pub magic: u32,
}

impl BootReport {
    /// Tells the loader by the magic value the kernel was entered with.
    pub fn detect(boot_magic: u32) -> (r: Self)
        ensures
            r.magic == boot_magic,
            r.source == if boot_magic == MULTIBOOT2_MAGIC {
                BootSource::GrubMultiboot2
            } else {
                BootSource::Unknown
            },
    {
        let source = if boot_magic == MULTIBOOT2_MAGIC {
            BootSource::GrubMultiboot2
        } else {
            BootSource::Unknown
        };
        BootReport { source, magic: boot_magic }
    }

    pub fn source_label(&self) -> (r: &'static str)
        ensures
            r@ == match self.source {
                BootSource::GrubMultiboot2 => "boot source: grub multiboot2"@,
                BootSource::Unknown => "boot source: unknown"@,
            },
    {
        match self.source {
            BootSource::GrubMultiboot2 => "boot source: grub multiboot2",
            BootSource::Unknown => "boot source: unknown",
        }
    }

    pub fn validation_label(&self) -> (r: &'static str)
        ensures
            r@ == match self.source {
                BootSource::GrubMultiboot2 => "boot validation: magic matched"@,
                BootSource::Unknown => "boot validation: magic mismatch"@,
            },
    {
        match self.source {
            BootSource::GrubMultiboot2 => "boot validation: magic matched",
            BootSource::Unknown => "boot validation: magic mismatch",
        }
    }
}

} // verus!
