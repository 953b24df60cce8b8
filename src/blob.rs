use vstd::prelude::*;

use crate::crypto::os_random_bytes;

verus! {

/// Each overwrite pass writes through a buffer of this many bytes.
pub const SHRED_BUFFER_SIZE: usize = 4096;

/// The fill bytes of the three overwrite passes of a shred, in order: all
/// zeros, all ones, then one random byte.
pub fn shred_patterns() -> (r: Vec<u8>)
    ensures
        r@.len() == 3,
        r@[0] == 0x00,
        r@[1] == 0xFF,
{
    let random = os_random_bytes(1);
    let mut r: Vec<u8> = Vec::new();
    r.push(0x00);
    r.push(0xFF);
    r.push(random[0]);
    r
}

/// How many bytes the next write of a pass covers, when `written` of
/// `file_size` bytes are done.
pub fn shred_chunk_len(file_size: u64, written: u64) -> (r: usize)
    requires
        written < file_size,
    ensures
        r as int == if file_size - written < SHRED_BUFFER_SIZE {
            file_size - written
        } else {
            SHRED_BUFFER_SIZE as int
        },
        0 < r <= SHRED_BUFFER_SIZE,
{
    let left = file_size - written;
    if left < SHRED_BUFFER_SIZE as u64 {
        left as usize
    } else {
        SHRED_BUFFER_SIZE
    }
}

} // verus!
