//! The computing parts of turning the scanner into a daemon.
use vstd::prelude::*;
use crate::procfs::{decimal, decimal_text};

verus! {

/// What the pid file holds: the process id in decimal, then a NUL byte.
pub fn pid_file_contents(pid: u32) -> (c: Vec<u8>)
    ensures
        c@ == decimal_text(pid as int).push(0u8),
{
    let mut c = decimal(pid as i64);
    c.push(0);
    c
}

/// The last descriptor to close: the `OPEN_MAX` limit clamped to `0..=u32::MAX`.
pub fn close_range_limit(open_max: i64) -> (last: u32)
    ensures
        last == (if open_max < 0 {
            0
        } else if open_max > u32::MAX {
            u32::MAX as int
        } else {
            open_max as int
        }),
{
    if open_max < 0 {
        0
    } else if open_max > u32::MAX as i64 {
        u32::MAX
    } else {
        open_max as u32
    }
}

} // verus!
