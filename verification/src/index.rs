//! Well-known ADS index groups.
use vstd::prelude::*;

verus! {

/// Get a u32 handle to the name in the write data; index offset 0.
pub const GET_SYMHANDLE_BYNAME: u32 = 0xF003;

/// Read/write data of a symbol by handle; the handle is the index offset.
pub const RW_SYMVAL_BYHANDLE: u32 = 0xF005;

pub const SYM_UPLOAD: u32 = 0xF00B;

pub const SYM_DT_UPLOAD: u32 = 0xF00E;

pub const SYM_UPLOAD_INFO2: u32 = 0xF00F;

pub const GET_TYPEINFO_BYNAME_EX: u32 = 0xF011;

} // verus!
