//! Enumerations and constants of the key/value store: value type tags,
//! create dispositions, well-known root identifiers and access-mask bits.

#![allow(non_camel_case_types)]

use vstd::prelude::*;

verus! {

/// Type tag of a stored value, identifying the encoding of its bytes.
#[derive(Clone, Copy, PartialEq, Eq, Structural, Debug)]
pub enum RegType {
    REG_NONE,
    REG_SZ,
    REG_EXPAND_SZ,
    REG_BINARY,
    REG_DWORD,
    REG_DWORD_BIG_ENDIAN,
    REG_LINK,
    REG_MULTI_SZ,
    REG_RESOURCE_LIST,
    REG_FULL_RESOURCE_DESCRIPTOR,
    REG_RESOURCE_REQUIREMENTS_LIST,
    REG_QWORD,
}

/// Numeric code of a type tag, as the store transmits it.
pub open spec fn spec_type_code(t: RegType) -> u32 {
    match t {
        RegType::REG_NONE => 0,
        RegType::REG_SZ => 1,
        RegType::REG_EXPAND_SZ => 2,
        RegType::REG_BINARY => 3,
        RegType::REG_DWORD => 4,
        RegType::REG_DWORD_BIG_ENDIAN => 5,
        RegType::REG_LINK => 6,
        RegType::REG_MULTI_SZ => 7,
        RegType::REG_RESOURCE_LIST => 8,
        RegType::REG_FULL_RESOURCE_DESCRIPTOR => 9,
        RegType::REG_RESOURCE_REQUIREMENTS_LIST => 10,
        RegType::REG_QWORD => 11,
    }
}

impl RegType {
    /// The numeric code of this tag.
    pub fn code(&self) -> (c: u32)
        ensures
            c == spec_type_code(*self),
    {
        match self {
            RegType::REG_NONE => 0,
            RegType::REG_SZ => 1,
            RegType::REG_EXPAND_SZ => 2,
            RegType::REG_BINARY => 3,
            RegType::REG_DWORD => 4,
            RegType::REG_DWORD_BIG_ENDIAN => 5,
            RegType::REG_LINK => 6,
            RegType::REG_MULTI_SZ => 7,
            RegType::REG_RESOURCE_LIST => 8,
            RegType::REG_FULL_RESOURCE_DESCRIPTOR => 9,
            RegType::REG_RESOURCE_REQUIREMENTS_LIST => 10,
            RegType::REG_QWORD => 11,
        }
    }

    /// The tag with the given numeric code; `None` for a code the store
    /// does not define.
    pub fn from_code(c: u32) -> (r: Option<RegType>)
        ensures
            match r {
                Some(t) => spec_type_code(t) == c,
                None => c > 11,
            },
    {
        match c {
            0 => Some(RegType::REG_NONE),
            1 => Some(RegType::REG_SZ),
            2 => Some(RegType::REG_EXPAND_SZ),
            3 => Some(RegType::REG_BINARY),
            4 => Some(RegType::REG_DWORD),
            5 => Some(RegType::REG_DWORD_BIG_ENDIAN),
            6 => Some(RegType::REG_LINK),
            7 => Some(RegType::REG_MULTI_SZ),
            8 => Some(RegType::REG_RESOURCE_LIST),
            9 => Some(RegType::REG_FULL_RESOURCE_DESCRIPTOR),
            10 => Some(RegType::REG_RESOURCE_REQUIREMENTS_LIST),
            11 => Some(RegType::REG_QWORD),
            _ => None,
        }
    }
}

/// Outcome of a create-or-open call: exactly one of the two is reported.
#[derive(Clone, Copy, PartialEq, Eq, Structural, Debug)]
pub enum RegDisposition {
    REG_CREATED_NEW_KEY,
    REG_OPENED_EXISTING_KEY,
}

pub use RegType::REG_NONE;
pub use RegType::REG_SZ;
pub use RegType::REG_EXPAND_SZ;
pub use RegType::REG_BINARY;
pub use RegType::REG_DWORD;
pub use RegType::REG_DWORD_BIG_ENDIAN;
pub use RegType::REG_LINK;
pub use RegType::REG_MULTI_SZ;
pub use RegType::REG_RESOURCE_LIST;
pub use RegType::REG_FULL_RESOURCE_DESCRIPTOR;
pub use RegType::REG_RESOURCE_REQUIREMENTS_LIST;
pub use RegType::REG_QWORD;
pub use RegDisposition::REG_CREATED_NEW_KEY;
pub use RegDisposition::REG_OPENED_EXISTING_KEY;

// Well-known root identifiers. A handle to one of these is predefined and
// is never closed.
pub const HKEY_CLASSES_ROOT: u64 = 0x8000_0000;
pub const HKEY_CURRENT_USER: u64 = 0x8000_0001;
pub const HKEY_LOCAL_MACHINE: u64 = 0x8000_0002;
pub const HKEY_USERS: u64 = 0x8000_0003;
pub const HKEY_PERFORMANCE_DATA: u64 = 0x8000_0004;
pub const HKEY_CURRENT_CONFIG: u64 = 0x8000_0005;
pub const HKEY_DYN_DATA: u64 = 0x8000_0006;
pub const HKEY_CURRENT_USER_LOCAL_SETTINGS: u64 = 0x8000_0007;
pub const HKEY_PERFORMANCE_TEXT: u64 = 0x8000_0050;
pub const HKEY_PERFORMANCE_NLSTEXT: u64 = 0x8000_0060;

// Access-mask bits for opening a key.
pub const KEY_QUERY_VALUE: u32 = 0x0001;
pub const KEY_SET_VALUE: u32 = 0x0002;
pub const KEY_CREATE_SUB_KEY: u32 = 0x0004;
pub const KEY_ENUMERATE_SUB_KEYS: u32 = 0x0008;
pub const KEY_NOTIFY: u32 = 0x0010;
pub const KEY_CREATE_LINK: u32 = 0x0020;
pub const KEY_WOW64_64KEY: u32 = 0x0100;
pub const KEY_WOW64_32KEY: u32 = 0x0200;
pub const KEY_WOW64_RES: u32 = 0x0300;
pub const KEY_READ: u32 = 0x2_0019;
pub const KEY_WRITE: u32 = 0x2_0006;
pub const KEY_EXECUTE: u32 = 0x2_0019;
pub const KEY_ALL_ACCESS: u32 = 0xF_003F;

} // verus!
