use vstd::prelude::*;
use crate::memory::pmm::{PhysFrame, PAGE_SIZE};

verus! {

/// Bytes that the boot page tables map one to one.
pub const BOOT_IDENTITY_MAP_BYTES: usize = 1024 * 1024 * 1024;

#[derive(Clone, Copy, Debug, PartialEq, Eq, Structural)]
pub struct PhysAddr(pub usize);

impl PhysAddr {
    pub fn is_page_aligned(self) -> (r: bool)
        ensures
            r == (self.0 % PAGE_SIZE == 0),
    {
        self.0 % PAGE_SIZE == 0
    }
}

#[derive(Clone, Copy, Debug, PartialEq, Eq, Structural)]
pub struct VirtAddr(pub usize);

impl VirtAddr {
    pub fn is_page_aligned(self) -> (r: bool)
        ensures
            r == (self.0 % PAGE_SIZE == 0),
    {
        self.0 % PAGE_SIZE == 0
    }

    /// The address `pages` pages further on; `None` when it does not fit.
    pub fn checked_add_pages(self, pages: PageCount) -> (r: Option<Self>)
        ensures
            match r {
                Some(v) => v.0 == self.0 + pages.0 * PAGE_SIZE,
                None => self.0 + pages.0 * PAGE_SIZE > usize::MAX,
            },
    {
        let bytes = match pages.0.checked_mul(PAGE_SIZE) {
            Some(b) => b,
            None => return None,
        };
        match self.0.checked_add(bytes) {
            Some(v) => Some(VirtAddr(v)),
            None => None,
        }
    }
}

#[derive(Clone, Copy, Debug, PartialEq, Eq, Structural)]
pub struct PageCount(pub usize);

impl PageCount {
    pub fn is_zero(self) -> (r: bool)
        ensures
            r == (self.0 == 0),
    {
        self.0 == 0
    }
}

/// A virtual page, named by its number.
#[derive(Clone, Copy, Debug, PartialEq, Eq, Structural)]
pub struct Page {
    number: usize,
}

impl View for Page {
    type V = nat;

    closed spec fn view(&self) -> nat {
        self.number as nat
    }
}

impl Page {
    #[verifier::type_invariant]
    spec fn start_fits(self) -> bool {
        self.number * PAGE_SIZE <= usize::MAX
    }

    /// The page that starts at `addr`; `addr` must be page aligned.
    pub fn from_addr(addr: VirtAddr) -> (r: Result<Self, VmmError>)
        ensures
            match r {
                Ok(p) => addr.0 % PAGE_SIZE == 0 && p@ == addr.0 / PAGE_SIZE,
                Err(e) => addr.0 % PAGE_SIZE != 0 && e == VmmError::InvalidAddress,
            },
    {
        if !addr.is_page_aligned() {
            return Err(VmmError::InvalidAddress);
        }
        Ok(Page { number: addr.0 / PAGE_SIZE })
    }

    pub fn start_addr(self) -> (r: VirtAddr)
        ensures
            r.0 == self@ * PAGE_SIZE,
    {
        proof {
            use_type_invariant(&self);
        }
        VirtAddr(self.number * PAGE_SIZE)
    }
}

/// What `PageRange::new` decides for a start address and a page count.
pub open spec fn page_range_error(virt_start: VirtAddr, pages: PageCount) -> Option<VmmError> {
    if pages.0 == 0 {
        Some(VmmError::InvalidLength)
    } else if virt_start.0 % PAGE_SIZE != 0 {
        Some(VmmError::InvalidAddress)
    } else if virt_start.0 + pages.0 * PAGE_SIZE > usize::MAX {
        Some(VmmError::InvalidLength)
    } else {
        None
    }
}

/// A non-empty run of whole pages that ends within the address space.
#[derive(Clone, Copy, Debug, PartialEq, Eq, Structural)]
pub struct PageRange {
    start: Page,
    count: PageCount,
}

impl PageRange {
    pub closed spec fn first_page(self) -> nat {
        self.start@
    }

    pub closed spec fn pages(self) -> PageCount {
        self.count
    }

    pub fn new(virt_start: VirtAddr, pages: PageCount) -> (r: Result<Self, VmmError>)
        ensures
            match r {
                Ok(range) => page_range_error(virt_start, pages) is None && range.first_page() == virt_start.0
                    / PAGE_SIZE && range.pages() == pages,
                Err(e) => page_range_error(virt_start, pages) == Some(e),
            },
    {
        if pages.is_zero() {
            return Err(VmmError::InvalidLength);
        }
        let start = match Page::from_addr(virt_start) {
            Ok(p) => p,
            Err(e) => return Err(e),
        };
        if virt_start.checked_add_pages(pages).is_none() {
            return Err(VmmError::InvalidLength);
        }
        Ok(PageRange { start, count: pages })
    }

    pub fn start_addr(self) -> (r: VirtAddr)
        ensures
            r.0 == self.first_page() * PAGE_SIZE,
    {
        self.start.start_addr()
    }

    pub fn page_count(self) -> (r: PageCount)
        ensures
            r == self.pages(),
    {
        self.count
    }
}

pub const MAP_PRESENT: u64 = 1;
pub const MAP_WRITABLE: u64 = 2;
pub const MAP_USER: u64 = 4;
pub const MAP_NO_EXEC: u64 = 8;

/// Flags of a mapping, as page-table bits.
#[derive(Clone, Copy, Debug, PartialEq, Eq, Structural)]
pub struct MapFlags(u64);

impl View for MapFlags {
    type V = u64;

    closed spec fn view(&self) -> u64 {
        self.0
    }
}

impl MapFlags {
    pub fn present() -> (r: Self)
        ensures
            r@ == MAP_PRESENT,
    {
        MapFlags(MAP_PRESENT)
    }

    pub fn writable() -> (r: Self)
        ensures
            r@ == MAP_WRITABLE,
    {
        MapFlags(MAP_WRITABLE)
    }

    pub fn user() -> (r: Self)
        ensures
            r@ == MAP_USER,
    {
        MapFlags(MAP_USER)
    }

    pub fn no_exec() -> (r: Self)
        ensures
            r@ == MAP_NO_EXEC,
    {
        MapFlags(MAP_NO_EXEC)
    }

    pub fn bits(self) -> (r: u64)
        ensures
            r == self@,
    {
        self.0
    }

    pub fn union(self, other: Self) -> (r: Self)
        ensures
            r@ == self@ | other@,
    {
        MapFlags(self.0 | other.0)
    }

    pub fn from_bits(bits: u64) -> (r: Self)
        ensures
            r@ == bits,
    {
        MapFlags(bits)
    }
}

/// What `MappingRequest::new` decides.
pub open spec fn mapping_request_error(virt_start: VirtAddr, phys_start: PhysFrame, pages: PageCount) -> Option<
    VmmError,
> {
    match page_range_error(virt_start, pages) {
        Some(e) => Some(e),
        None => if phys_start@ * PAGE_SIZE + pages.0 * PAGE_SIZE > usize::MAX {
            Some(VmmError::InvalidLength)
        } else {
            None
        },
    }
}

#[derive(Clone, Copy, Debug, PartialEq, Eq, Structural)]
pub struct MappingRequest {
    pub virt_start: VirtAddr,
    pub phys_start: PhysFrame,
    pub pages: PageCount,
    pub flags: MapFlags,
}

impl MappingRequest {
    /// A request to map `pages` pages from `virt_start` to the frames from
    /// `phys_start`; both runs must fit in the address space.
    pub fn new(virt_start: VirtAddr, phys_start: PhysFrame, pages: PageCount, flags: MapFlags) -> (r: Result<
        Self,
        VmmError,
    >)
        ensures
            match r {
                Ok(req) => mapping_request_error(virt_start, phys_start, pages) is None && req == (MappingRequest {
                    virt_start,
                    phys_start,
                    pages,
                    flags,
                }),
                Err(e) => mapping_request_error(virt_start, phys_start, pages) == Some(e),
            },
    {
        if let Err(e) = PageRange::new(virt_start, pages) {
            return Err(e);
        }
        let phys_end = match pages.0.checked_mul(PAGE_SIZE) {
            Some(bytes) => phys_start.addr().checked_add(bytes),
            None => None,
        };
        if phys_end.is_none() {
            return Err(VmmError::InvalidLength);
        }
        Ok(MappingRequest { virt_start, phys_start, pages, flags })
    }
}

/// An address space: its root page table and the bytes mapped one to one.
#[derive(Clone, Copy, Debug, PartialEq, Eq, Structural)]
pub struct AddressSpace {
    root_table: PhysAddr,
    identity_map_bytes: usize,
}

impl AddressSpace {
    pub closed spec fn root(self) -> PhysAddr {
        self.root_table
    }

    pub closed spec fn identity_bytes(self) -> usize {
        self.identity_map_bytes
    }

    pub fn root_table(self) -> (r: PhysAddr)
        ensures
            r == self.root(),
    {
        self.root_table
    }

    pub fn identity_map_bytes(self) -> (r: usize)
        ensures
            r == self.identity_bytes(),
    {
        self.identity_map_bytes
    }

    pub fn is_identity_mapped(self, addr: VirtAddr) -> (r: bool)
        ensures
            r == (addr.0 < self.identity_bytes()),
    {
        addr.0 < self.identity_map_bytes
    }
}

#[derive(Clone, Copy, Debug, PartialEq, Eq, Structural)]
pub enum VmmError {
    NotInitialized,
    InvalidAddress,
    InvalidLength,
    Unsupported,
}

#[derive(Clone, Copy, Debug, PartialEq, Eq, Structural)]
pub struct VmmInitReport {
    pub page_size: usize,
    pub kernel_root_table: PhysAddr,
    pub identity_map_bytes: usize,
}

impl VmmInitReport {
    pub fn label(self) -> (r: &'static str)
        ensures
            r@ == "memory: vmm initialized from boot paging state"@,
    {
        "memory: vmm initialized from boot paging state"
    }
}

/// The virtual memory manager: the kernel's root page table, once known.
pub struct VmmState {
    initialized: bool,
    kernel_root_table: usize,
}

impl VmmState {
    pub closed spec fn is_initialized(&self) -> bool {
        self.initialized
    }

    pub closed spec fn root(&self) -> usize {
        self.kernel_root_table
    }

    pub fn new() -> (r: Self)
        ensures
            !r.is_initialized(),
            r.root() == 0,
    {
        VmmState { initialized: false, kernel_root_table: 0 }
    }
}

/// Records the active root page table `root` (the value of CR3) as the
/// kernel's.
pub fn init(vmm: &mut VmmState, root: usize) -> (r: VmmInitReport)
    ensures
        final(vmm).is_initialized(),
        final(vmm).root() == root,
        r == (VmmInitReport {
            page_size: PAGE_SIZE,
            kernel_root_table: PhysAddr(root),
            identity_map_bytes: BOOT_IDENTITY_MAP_BYTES,
        }),
{
    vmm.kernel_root_table = root;
    vmm.initialized = true;
    VmmInitReport {
        page_size: PAGE_SIZE,
        kernel_root_table: PhysAddr(root),
        identity_map_bytes: BOOT_IDENTITY_MAP_BYTES,
    }
}

fn ensure_initialized(vmm: &VmmState) -> (r: Result<(), VmmError>)
    ensures
        r == if vmm.is_initialized() {
            Ok::<(), VmmError>(())
        } else {
            Err(VmmError::NotInitialized)
        },
{
    if !vmm.initialized {
        return Err(VmmError::NotInitialized);
    }
    Ok(())
}

/// The kernel's address space.
pub fn kernel_address_space(vmm: &VmmState) -> (r: Result<AddressSpace, VmmError>)
    ensures
        !vmm.is_initialized() ==> r == Err::<AddressSpace, VmmError>(VmmError::NotInitialized),
        vmm.is_initialized() ==> (r matches Ok(s) && s.root() == PhysAddr(vmm.root()) && s.identity_bytes()
            == BOOT_IDENTITY_MAP_BYTES),
{
    if let Err(e) = ensure_initialized(vmm) {
        return Err(e);
    }
    Ok(AddressSpace {
        root_table: PhysAddr(vmm.kernel_root_table),
        identity_map_bytes: BOOT_IDENTITY_MAP_BYTES,
    })
}

/// Maps pages into the kernel address space; page-table updates are not
/// supported yet, so a sound request is refused with `Unsupported`.
pub fn map_pages(vmm: &VmmState, virt_start: VirtAddr, phys_start: PhysFrame, pages: PageCount, flags: MapFlags) -> (r:
    Result<(), VmmError>)
    ensures
        r == Err::<(), VmmError>(if !vmm.is_initialized() {
            VmmError::NotInitialized
        } else {
            match mapping_request_error(virt_start, phys_start, pages) {
                Some(e) => e,
                None => VmmError::Unsupported,
            }
        }),
{
    let s = match kernel_address_space(vmm) {
        Ok(s) => s,
        Err(e) => return Err(e),
    };
    let req = match MappingRequest::new(virt_start, phys_start, pages, flags) {
        Ok(req) => req,
        Err(e) => return Err(e),
    };
    arch_map_pages(s, req)
}

/// Unmaps pages of the kernel address space; refused with `Unsupported`
/// for a sound range, as `map_pages`.
pub fn unmap_pages(vmm: &VmmState, virt_start: VirtAddr, pages: PageCount) -> (r: Result<(), VmmError>)
    ensures
        r == Err::<(), VmmError>(if !vmm.is_initialized() {
            VmmError::NotInitialized
        } else {
            match page_range_error(virt_start, pages) {
                Some(e) => e,
                None => VmmError::Unsupported,
            }
        }),
{
    let s = match kernel_address_space(vmm) {
        Ok(s) => s,
        Err(e) => return Err(e),
    };
    let r = match PageRange::new(virt_start, pages) {
        Ok(r) => r,
        Err(e) => return Err(e),
    };
    arch_unmap_pages(s, r)
}

/// The virtual address of `phys_addr` under the boot identity map.
pub fn identity_map_addr(vmm: &VmmState, phys_addr: PhysAddr) -> (r: Result<VirtAddr, VmmError>)
    ensures
        r == if !vmm.is_initialized() {
            Err(VmmError::NotInitialized)
        } else if phys_addr.0 >= BOOT_IDENTITY_MAP_BYTES {
            Err(VmmError::Unsupported)
        } else {
            Ok::<VirtAddr, VmmError>(VirtAddr(phys_addr.0))
        },
{
    let s = match kernel_address_space(vmm) {
        Ok(s) => s,
        Err(e) => return Err(e),
    };
    let va = VirtAddr(phys_addr.0);
    if !s.is_identity_mapped(va) {
        return Err(VmmError::Unsupported);
    }
    Ok(va)
}

fn arch_map_pages(_address_space: AddressSpace, _request: MappingRequest) -> (r: Result<(), VmmError>)
    ensures
        r == Err::<(), VmmError>(VmmError::Unsupported),
{
    Err(VmmError::Unsupported)
}

fn arch_unmap_pages(_address_space: AddressSpace, _range: PageRange) -> (r: Result<(), VmmError>)
    ensures
        r == Err::<(), VmmError>(VmmError::Unsupported),
{
    Err(VmmError::Unsupported)
}

} // verus!
