//! Validation of downloaded package archives: a downloaded file is accepted
//! only if it starts with the 4-byte zstd frame magic number.

use vstd::prelude::*;

verus! {

/// The zstd frame magic number `28 B5 2F FD` as the first four bytes.
pub open spec fn is_zst_magic(data: Seq<u8>) -> bool {
    data.len() >= 4 && data[0] == 0x28u8 && data[1] == 0xb5u8 && data[2] == 0x2fu8 && data[3]
        == 0xfdu8
}

/// Accepts exactly the byte strings that begin with the zstd frame magic.
pub fn is_valid_zst(data: &Vec<u8>) -> (r: bool)
    ensures
        r == is_zst_magic(data@),
{
    data.len() >= 4 && data[0] == 0x28 && data[1] == 0xb5 && data[2] == 0x2f && data[3] == 0xfd
}

} // verus!
