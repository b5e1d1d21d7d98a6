//! The detection settings that the pipeline reads.

use vstd::prelude::*;

verus! {

/// The binary threshold applied to the dilated difference: samples that
/// reach `thresh` become `maxval`, the others become zero.
#[derive(Clone, Copy, Debug, PartialEq, Eq, Structural)]
pub struct Threshold {
    pub thresh: u8,
    pub maxval: u8,
}

/// The settings of one run of the detector, in integer units.
///
/// The dilation window is `kernel_rows` by `kernel_cols` samples. Contours
/// are kept when twice their enclosed area reaches `min_doubled_area`, so a
/// minimum of 10000 pixels is written as 20000.
#[derive(Clone, Copy, Debug, PartialEq, Eq, Structural)]
pub struct Config {
    pub kernel_rows: i32,
    pub kernel_cols: i32,
    pub threshold: Threshold,
    pub min_doubled_area: u64,
}

impl Config {
    /// The settings are usable when the dilation window is not empty.
    pub open spec fn valid(self) -> bool {
        self.kernel_rows >= 1 && self.kernel_cols >= 1
    }

    /// Whether a frame without any difference yields a mask without any
    /// foreground: the threshold must not let zero samples through.
    pub open spec fn quiet_on_still(self) -> bool {
        self.threshold.thresh > 0 || self.threshold.maxval == 0
    }

    /// The built-in settings: a 35 by 35 dilation window, a threshold of 20
    /// filled with 255, and a minimum area of 10000 pixels.
    pub fn new() -> (c: Config)
        ensures
            c == (Config {
                kernel_rows: 35,
                kernel_cols: 35,
                threshold: Threshold { thresh: 20, maxval: 255 },
                min_doubled_area: 20000,
            }),
            c.valid(),
            c.quiet_on_still(),
    {
        Config {
            kernel_rows: 35,
            kernel_cols: 35,
            threshold: Threshold { thresh: 20, maxval: 255 },
            min_doubled_area: 20000,
        }
    }

    /// Whether the settings are usable.
    pub fn is_valid(&self) -> (b: bool)
        ensures
            b == self.valid(),
    {
        self.kernel_rows >= 1 && self.kernel_cols >= 1
    }
}

} // verus!
