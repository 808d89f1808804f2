//! Addresses and address ranges, as 64-bit values. The kernel window maps physical
//! memory at a fixed offset, so a kernel pointer and a physical address convert into
//! each other by adding or subtracting `PPTR_BASE_OFFSET`.
use vstd::prelude::*;

verus! {

/// Where the kernel window starts in the virtual address space.
pub const PPTR_BASE: u64 = 0xFFFF_FFC0_0000_0000;

/// Where physical memory starts.
pub const PADDR_BASE: u64 = 0x0;

/// The distance between a physical address and its kernel pointer.
pub const PPTR_BASE_OFFSET: u64 = 0xFFFF_FFC0_0000_0000;

/// A user virtual address.
#[derive(PartialEq, Eq, Structural, Copy, Clone, Debug)]
pub struct VPtr(pub u64);

/// A physical address.
#[derive(PartialEq, Eq, Structural, Copy, Clone, Debug)]
pub struct PAddr(pub u64);

/// A kernel pointer into the kernel window.
#[derive(PartialEq, Eq, Structural, Copy, Clone, Debug)]
pub struct KernelPtr(pub u64);

/// A capability address in a thread's capability space.
#[derive(PartialEq, Eq, Structural, Copy, Clone, Debug)]
pub struct CPtr(pub u64);

impl VPtr {
    pub fn new(raw: u64) -> (r: Self)
        ensures
            r.0 == raw,
    {
        VPtr(raw)
    }

    pub fn raw(&self) -> (r: u64)
        ensures
            r == self.0,
    {
        self.0
    }

    pub fn null() -> (r: Self)
        ensures
            r.0 == 0,
    {
        VPtr(0)
    }

    pub fn is_null(&self) -> (r: bool)
        ensures
            r == (self.0 == 0),
    {
        self.0 == 0
    }
}

impl PAddr {
    pub fn new(raw: u64) -> (r: Self)
        ensures
            r.0 == raw,
    {
        PAddr(raw)
    }

    pub fn raw(&self) -> (r: u64)
        ensures
            r == self.0,
    {
        self.0
    }

    pub fn null() -> (r: Self)
        ensures
            r.0 == 0,
    {
        PAddr(0)
    }

    pub fn is_null(&self) -> (r: bool)
        ensures
            r == (self.0 == 0),
    {
        self.0 == 0
    }

    /// The kernel pointer that maps this physical address.
    pub fn to_pptr(&self) -> (r: KernelPtr)
        requires
            self.0 + PPTR_BASE_OFFSET <= u64::MAX,
        ensures
            r.0 == self.0 + PPTR_BASE_OFFSET,
    {
        KernelPtr(self.0 + PPTR_BASE_OFFSET)
    }
}

impl KernelPtr {
    pub fn new(raw: u64) -> (r: Self)
        ensures
            r.0 == raw,
    {
        KernelPtr(raw)
    }

    pub fn raw(&self) -> (r: u64)
        ensures
            r == self.0,
    {
        self.0
    }

    pub fn null() -> (r: Self)
        ensures
            r.0 == 0,
    {
        KernelPtr(0)
    }

    pub fn is_null(&self) -> (r: bool)
        ensures
            r == (self.0 == 0),
    {
        self.0 == 0
    }

    /// The address the pointer holds, for reading through it.
    pub fn get_ptr(&self) -> (r: u64)
        ensures
            r == self.0,
    {
        self.0
    }

    /// The address the pointer holds, for writing through it.
    pub fn get_mut_ptr(&self) -> (r: u64)
        ensures
            r == self.0,
    {
        self.0
    }

    /// The address when the pointer is not null.
    pub fn try_get_mut_ref(&self) -> (r: Option<u64>)
        ensures
            r == if self.0 == 0 {
                None::<u64>
            } else {
                Some(self.0)
            },
    {
        if self.is_null() {
            None
        } else {
            Some(self.0)
        }
    }

    /// The physical address this kernel pointer maps.
    pub fn to_paddr(&self) -> (r: PAddr)
        requires
            self.0 >= PPTR_BASE_OFFSET,
        ensures
            r.0 == self.0 - PPTR_BASE_OFFSET,
    {
        PAddr(self.0 - PPTR_BASE_OFFSET)
    }
}

impl CPtr {
    pub fn new(raw: u64) -> (r: Self)
        ensures
            r.0 == raw,
    {
        CPtr(raw)
    }

    pub fn raw(&self) -> (r: u64)
        ensures
            r == self.0,
    {
        self.0
    }

    pub fn null() -> (r: Self)
        ensures
            r.0 == 0,
    {
        CPtr(0)
    }

    pub fn is_null(&self) -> (r: bool)
        ensures
            r == (self.0 == 0),
    {
        self.0 == 0
    }
}

/// A range of kernel pointers, `start` included and `end` excluded.
#[derive(PartialEq, Eq, Structural, Copy, Clone, Debug)]
pub struct Region {
    pub start: KernelPtr,
    pub end: KernelPtr,
}

/// A range of physical addresses, `start` included and `end` excluded.
#[derive(PartialEq, Eq, Structural, Copy, Clone, Debug)]
pub struct PRegion {
    pub start: PAddr,
    pub end: PAddr,
}

/// A range of user virtual addresses, `start` included and `end` excluded.
#[derive(PartialEq, Eq, Structural, Copy, Clone, Debug)]
pub struct VRegion {
    pub start: VPtr,
    pub end: VPtr,
}

impl Region {
    pub fn new(start: KernelPtr, end: KernelPtr) -> (r: Self)
        ensures
            r.start == start && r.end == end,
    {
        Region { start, end }
    }

    pub fn empty() -> (r: Self)
        ensures
            r.start.0 == 0 && r.end.0 == 0,
    {
        Region { start: KernelPtr::new(0), end: KernelPtr::new(0) }
    }

    pub fn is_empty(&self) -> (r: bool)
        ensures
            r == (self.start.0 == self.end.0),
    {
        self.start.raw() == self.end.raw()
    }

    /// The same range as physical addresses.
    pub fn to_pregion(&self) -> (r: PRegion)
        requires
            self.start.0 >= PPTR_BASE_OFFSET,
            self.end.0 >= PPTR_BASE_OFFSET,
        ensures
            r.start.0 == self.start.0 - PPTR_BASE_OFFSET,
            r.end.0 == self.end.0 - PPTR_BASE_OFFSET,
    {
        PRegion::new(self.start.to_paddr(), self.end.to_paddr())
    }
}

impl PRegion {
    pub fn new(start: PAddr, end: PAddr) -> (r: Self)
        ensures
            r.start == start && r.end == end,
    {
        PRegion { start, end }
    }

    pub fn empty() -> (r: Self)
        ensures
            r.start.0 == 0 && r.end.0 == 0,
    {
        PRegion { start: PAddr::new(0), end: PAddr::new(0) }
    }

    pub fn is_empty(&self) -> (r: bool)
        ensures
            r == (self.start.0 == self.end.0),
    {
        self.start.raw() == self.end.raw()
    }

    /// The same range as kernel pointers.
    pub fn to_region(&self) -> (r: Region)
        requires
            self.start.0 + PPTR_BASE_OFFSET <= u64::MAX,
            self.end.0 + PPTR_BASE_OFFSET <= u64::MAX,
        ensures
            r.start.0 == self.start.0 + PPTR_BASE_OFFSET,
            r.end.0 == self.end.0 + PPTR_BASE_OFFSET,
    {
        Region::new(self.start.to_pptr(), self.end.to_pptr())
    }
}

impl VRegion {
    pub fn new(start: VPtr, end: VPtr) -> (r: Self)
        ensures
            r.start == start && r.end == end,
    {
        VRegion { start, end }
    }
}

} // verus!
