//! UEFI tables as the firmware hands them over. Pointers are kept as
//! addresses; following them is the platform layer's job.

use vstd::prelude::*;

verus! {

/// UEFI boot services: addresses of the page allocation entry points.
pub struct UefiBootServices {
    pub allocate_pages: u64,
    pub free_pages: u64,
}

/// UEFI runtime services: addresses of the clock entry points.
pub struct UefiRuntimeServices {
    pub get_time: u64,
    pub set_time: u64,
}

/// Header of an EFI table.
pub struct EfiTableHeader {
    pub signature: u64,
    pub revision: u32,
    pub header_size: u32,
    pub crc32: u32,
}

/// The UEFI system table.
pub struct UefiSystemTable {
    pub hdr: EfiTableHeader,
    pub fw_vendor: u64,
    pub fw_revision: u32,
    pub console_in_handle: u64,
    pub boot_services: u64,
    pub runtime_services: u64,
}

} // verus!
