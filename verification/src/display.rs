//! Monitor metadata used once at startup to size the capture session and
//! the encoder.

use vstd::prelude::*;

verus! {

/// One monitor: its OS handle value, its device name, and its resolution.
pub struct DisplayInfo {
    pub handle: i64,
    pub display_name: String,
    pub resolution: (u32, u32),
}

impl DisplayInfo {
    /// Builds the metadata from a monitor's handle, decoded device name and
    /// bounding rectangle. The resolution is the rectangle's extent.
    pub fn new(handle: i64, display_name: String, left: i32, top: i32, right: i32, bottom: i32) -> (
        r: Self)
        requires
            left <= right,
            top <= bottom,
        ensures
            r.handle == handle,
            r.display_name@ == display_name@,
            r.resolution.0 == right - left,
            r.resolution.1 == bottom - top,
    {
        let width: u32 = ((right as i64) - (left as i64)) as u32;
        let height: u32 = ((bottom as i64) - (top as i64)) as u32;
        DisplayInfo { handle, display_name, resolution: (width, height) }
    }
}

/// Strips the zero padding around a fixed-size UTF-16 device-name buffer:
/// everything from the first unit up to the first zero unit.
pub fn device_name_units(units: &[u16]) -> (r: Vec<u16>)
    ensures
        r@.len() <= units@.len(),
        forall|i: int| 0 <= i < r@.len() ==> r@[i] == units@[i] && r@[i] != 0,
        r@.len() < units@.len() ==> units@[r@.len() as int] == 0,
        forall|i: int| 0 <= i < r@.len() ==> units@[i] != 0,
{
    let n: usize = units.len();
    let mut out: Vec<u16> = Vec::new();
    let mut i: usize = 0;
    while i < n
        invariant
            i <= n,
            n == units@.len(),
            out@.len() == i,
            forall|q: int| 0 <= q < i ==> out@[q] == units@[q] && out@[q] != 0,
        decreases n - i,
    {
        let u: u16 = units[i];
        if u == 0 {
            return out;
        }
        out.push(u);
        i = i + 1;
    }
    out
}

} // verus!
