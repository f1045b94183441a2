//! The tags that the compiler treats specially.

use vstd::prelude::*;

use crate::types::tag::{pack, Tag};

verus! {

/// The feature `size`, which carries parameters and no lookups.
pub fn size() -> (r: Tag)
    ensures
        r == Tag(pack(0x73, 0x69, 0x7A, 0x65)),
{
    Tag::from_bytes(0x73, 0x69, 0x7A, 0x65)
}

/// The feature `aalt`, which gives access to all alternates.
pub fn aalt() -> (r: Tag)
    ensures
        r == Tag(pack(0x61, 0x61, 0x6C, 0x74)),
{
    Tag::from_bytes(0x61, 0x61, 0x6C, 0x74)
}

/// The language `dflt`, which names the default language of a script.
pub fn lang_dflt() -> (r: Tag)
    ensures
        r == Tag(pack(0x64, 0x66, 0x6C, 0x74)),
{
    Tag::from_bytes(0x64, 0x66, 0x6C, 0x74)
}

/// The script `DFLT`, which stands for every script not named otherwise.
pub fn script_dflt() -> (r: Tag)
    ensures
        r == Tag(pack(0x44, 0x46, 0x4C, 0x54)),
{
    Tag::from_bytes(0x44, 0x46, 0x4C, 0x54)
}

} // verus!
