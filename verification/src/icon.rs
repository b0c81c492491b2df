//! The rendered tray icon: an RGBA bitmap. The drawing itself (arcs, glyphs,
//! supersampling) works on real numbers and is done by the caller.
use vstd::prelude::*;

verus! {

/// An RGBA bitmap, four bytes per pixel, row by row.
pub struct RenderedIcon {
    pub rgba: Vec<u8>,
    pub width: u32,
    pub height: u32,
}

/// How many of the first `n` pixels of `rgba` are not fully transparent.
pub open spec fn opaque_in(rgba: Seq<u8>, n: nat) -> nat
    decreases n,
{
    if n == 0 {
        0
    } else {
        opaque_in(rgba, (n - 1) as nat) + if rgba[4 * (n - 1) + 3] > 0 {
            1nat
        } else {
            0nat
        }
    }
}

impl RenderedIcon {
    /// The buffer holds exactly `width × height` pixels.
    pub open spec fn well_formed(&self) -> bool {
        self.rgba@.len() == 4 * (self.width as int) * (self.height as int)
    }

    /// Number of pixels that are not fully transparent (whole pixels only).
    pub fn opaque_pixels(&self) -> (r: usize)
        ensures
            r == opaque_in(self.rgba@, self.rgba@.len() / 4),
    {
        let len = self.rgba.len();
        let n = len / 4;
        let mut count: usize = 0;
        let mut i: usize = 0;
        while i < n
            invariant
                i <= n,
                n == self.rgba@.len() / 4,
                len == self.rgba@.len(),
                count == opaque_in(self.rgba@, i as nat),
                count <= i,
            decreases n - i,
        {
            assert(4 * i + 3 < self.rgba@.len()) by (nonlinear_arith)
                requires
                    i < n,
                    n == self.rgba@.len() / 4,
            ;
            let j: usize = 4 * i + 3;
            if self.rgba[j] > 0 {
                count = count + 1;
            }
            i = i + 1;
        }
        count
    }
}

} // verus!
