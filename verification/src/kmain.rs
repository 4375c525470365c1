use vstd::prelude::*;
use crate::boot::multiboot2::{BootInfoError, MultibootInfo, TAG_FRAMEBUFFER, TAG_MMAP, has_tag, parse_spec, tags_of};
use crate::utils::console::{self, ConsoleLine};
use crate::vga;
use crate::fmtbuf::{clip, push_str};
use crate::memory::{MemoryInitReport, frames_text, heap_text, vmm_text};
use vstd::string::StringSliceAdditionalSpecFns;

verus! {

/// What the boot screen says of the boot information at `ptr`.
pub open spec fn boot_info_label_spec(ptr: usize, memory: Seq<u8>) -> Seq<char> {
    if ptr == 0 {
        "boot info: not parsed"@
    } else {
        match parse_spec(ptr, memory) {
            Ok(bytes) => {
                let mmap = has_tag(tags_of(bytes), TAG_MMAP);
                let fb = has_tag(tags_of(bytes), TAG_FRAMEBUFFER);
                if mmap && fb {
                    "boot info: mmap + framebuffer tags found"@
                } else if mmap {
                    "boot info: mmap tag found"@
                } else if fb {
                    "boot info: framebuffer tag found"@
                } else {
                    "boot info: parsed, no mmap/framebuffer tags"@
                }
            },
            Err(BootInfoError::NullPointer) => "boot info: null pointer"@,
            Err(BootInfoError::MisalignedPointer) => "boot info: pointer misaligned"@,
            Err(BootInfoError::InvalidSize) => "boot info: invalid size"@,
        }
    }
}

/// A block that parses is named by the tags it holds: both a memory-map and
/// a framebuffer tag, only one of them, or neither.
pub proof fn law_boot_label_names_tags(ptr: usize, memory: Seq<u8>)
    requires
        ptr != 0,
        parse_spec(ptr, memory) is Ok,
    ensures
        ({
            let tags = tags_of(parse_spec(ptr, memory)->Ok_0);
            &&& has_tag(tags, TAG_MMAP) && has_tag(tags, TAG_FRAMEBUFFER) ==> boot_info_label_spec(ptr, memory)
                == "boot info: mmap + framebuffer tags found"@
            &&& has_tag(tags, TAG_MMAP) && !has_tag(tags, TAG_FRAMEBUFFER) ==> boot_info_label_spec(ptr, memory)
                == "boot info: mmap tag found"@
            &&& !has_tag(tags, TAG_MMAP) && has_tag(tags, TAG_FRAMEBUFFER) ==> boot_info_label_spec(ptr, memory)
                == "boot info: framebuffer tag found"@
            &&& !has_tag(tags, TAG_MMAP) && !has_tag(tags, TAG_FRAMEBUFFER) ==> boot_info_label_spec(ptr, memory)
                == "boot info: parsed, no mmap/framebuffer tags"@
        }),
{
}

/// Parses the boot information at `boot_info_ptr`, whose bytes `memory`
/// holds, and names what was found.
pub fn parse_boot_info_label(boot_info_ptr: usize, memory: &[u8]) -> (r: &'static str)
    ensures
        r@ == boot_info_label_spec(boot_info_ptr, memory@),
{
    if boot_info_ptr == 0 {
        return "boot info: not parsed";
    }
    match MultibootInfo::parse(boot_info_ptr, memory) {
        Ok(info) => info.summary().label(),
        Err(BootInfoError::NullPointer) => "boot info: null pointer",
        Err(BootInfoError::MisalignedPointer) => "boot info: pointer misaligned",
        Err(BootInfoError::InvalidSize) => "boot info: invalid size",
    }
}

/// Whether the loader passed a boot information pointer at all.
pub fn boot_info_state_label(boot_info_ptr: usize) -> (r: &'static str)
    ensures
        r@ == if boot_info_ptr == 0 {
            "boot info ptr: missing"@
        } else {
            "boot info ptr: present"@
        },
{
    if boot_info_ptr == 0 {
        "boot info ptr: missing"
    } else {
        "boot info ptr: present"
    }
}

/// The text of the memory report's first line.
pub open spec fn memory_label_bytes(m: MemoryInitReport) -> Seq<u8> {
    if m.pmm_from_mmap {
        "memory: pmm initialized from multiboot2 mmap".spec_bytes()
    } else {
        "memory: pmm initialized from early fallback config".spec_bytes()
    }
}

/// The boot screen, as rows and their texts: the system's name and the CPU
/// line, a blank row, the memory lines (the address-space probe line only
/// when the probe failed), a blank row, the boot source and what the boot
/// information held.
pub open spec fn boot_screen_spec(
    os_name: Seq<u8>,
    cpu_label: Seq<u8>,
    m: MemoryInitReport,
    source_label: Seq<u8>,
    boot_info_label: Seq<u8>,
) -> Seq<(int, Seq<u8>)> {
    let head = seq![
        (0int, os_name),
        (1int, cpu_label),
        (3int, memory_label_bytes(m)),
        (4int, clip(frames_text(m), 96)),
        (5int, clip(heap_text(m), 80)),
        (6int, clip(vmm_text(m), 96)),
    ];
    if m.vmm_probe_ok {
        head + seq![(8int, source_label), (9int, boot_info_label)]
    } else {
        head + seq![
            (7int, "vmm: kernel address space probe failed".spec_bytes()),
            (9int, source_label),
            (10int, boot_info_label),
        ]
    }
}

fn text_of(s: &str) -> (r: Vec<u8>)
    ensures
        r@ == s.spec_bytes(),
{
    let mut t: Vec<u8> = Vec::new();
    push_str(&mut t, s);
    assert(t@ =~= s.spec_bytes());
    t
}

/// The lines of the boot screen with the rows they go on.
#[verifier::spinoff_prover]
#[verifier::rlimit(30)]
pub fn boot_screen_lines(
    os_name: &str,
    cpu_label: &str,
    memory: MemoryInitReport,
    source_label: &str,
    boot_info_label: &str,
) -> (r: Vec<(usize, Vec<u8>)>)
    ensures
        r@.len() == boot_screen_spec(os_name.spec_bytes(), cpu_label.spec_bytes(), memory, source_label.spec_bytes(), boot_info_label.spec_bytes()).len(),
        forall|i: int| 0 <= i < r@.len() ==> #[trigger] r@[i].0 == boot_screen_spec(os_name.spec_bytes(), cpu_label.spec_bytes(), memory, source_label.spec_bytes(), boot_info_label.spec_bytes())[i].0
            && r@[i].1@ == boot_screen_spec(os_name.spec_bytes(), cpu_label.spec_bytes(), memory, source_label.spec_bytes(), boot_info_label.spec_bytes())[i].1,
{
    let ghost sp = boot_screen_spec(os_name.spec_bytes(), cpu_label.spec_bytes(), memory, source_label.spec_bytes(), boot_info_label.spec_bytes());
    let mut lines: Vec<(usize, Vec<u8>)> = Vec::new();
    let mut row: usize = 0;
    lines.push((row, text_of(os_name)));
    row = row + 1;
    lines.push((row, text_of(cpu_label)));
    row = row + 2;
    lines.push((row, text_of(memory.label())));
    row = row + 1;
    lines.push((row, memory.frames_summary_line()));
    row = row + 1;
    lines.push((row, memory.heap_summary_line()));
    row = row + 1;
    lines.push((row, memory.vmm_summary_line()));
    row = row + 1;
    if !memory.vmm_probe_ok {
        lines.push((row, text_of(memory.vmm_probe_label())));
        row = row + 1;
    }
    row = row + 1;
    lines.push((row, text_of(source_label)));
    row = row + 1;
    lines.push((row, text_of(boot_info_label)));
    assert(lines@.len() == sp.len());
    assert forall|i: int| 0 <= i < lines@.len() implies #[trigger] lines@[i].0 == sp[i].0 && lines@[i].1@ == sp[i].1 by {
    }
    lines
}

/// Writes `msg` on row `row` and moves to the next row.
pub fn write_boot_line(row: &mut usize, msg: &[u8]) -> (r: ConsoleLine)
    requires
        *old(row) < usize::MAX,
    ensures
        *final(row) == *old(row) + 1,
        r.serial@ == msg@ + seq![13u8, 10u8],
        *old(row) >= vga::VGA_HEIGHT ==> r.vga is None,
        *old(row) < vga::VGA_HEIGHT ==> (r.vga matches Some(p) && p.0 == *old(row) * vga::VGA_WIDTH * 2 && p.1@
            == vga::line_cells(msg@)),
{
    let line = console::write_line(*row, msg);
    *row = *row + 1;
    line
}

} // verus!
