//! When a chart screenshot must be shrunk before it is sent.

use vstd::prelude::*;

verus! {

/// The longest edge, in pixels, an image may have as sent.
pub const MAX_LONG_EDGE: u32 = 1568;

/// The largest file, in bytes, an image may be as sent.
pub const MAX_BYTES: u64 = 5 * 1024 * 1024;

/// Whether an image must be resized: a file over `MAX_BYTES` always must
/// (and its size is known without decoding); otherwise it must when its
/// longer edge exceeds `MAX_LONG_EDGE`. `dims` are the decoded width and
/// height when known; `None` is returned when they are needed but missing.
pub fn needs_resize(file_len: u64, dims: Option<(u32, u32)>) -> (r: Option<bool>)
    ensures
        file_len > MAX_BYTES ==> r == Some(true),
        file_len <= MAX_BYTES ==> match dims {
            Some((w, h)) => r == Some(w > MAX_LONG_EDGE || h > MAX_LONG_EDGE),
            None => r is None,
        },
{
    if file_len > MAX_BYTES {
        return Some(true);
    }
    match dims {
        Some((w, h)) => {
            let long = if w >= h {
                w
            } else {
                h
            };
            Some(long > MAX_LONG_EDGE)
        },
        None => None,
    }
}

} // verus!
