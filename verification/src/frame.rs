//! A grayscale frame: a grid of 8-bit samples stored row by row.

use vstd::prelude::*;

verus! {

/// The mathematical content of a frame: its dimensions and its samples in
/// row-major order.
pub struct Grid {
    pub width: nat,
    pub height: nat,
    pub samples: Seq<u8>,
}

impl Grid {
    /// A grid is well formed when it holds exactly one sample per pixel.
    pub open spec fn wf(self) -> bool {
        self.samples.len() == (self.width as int) * (self.height as int)
    }

    /// Whether `(x, y)` names a pixel of the grid.
    pub open spec fn contains(self, x: int, y: int) -> bool {
        0 <= x < self.width && 0 <= y < self.height
    }

    /// The sample at column `x` of row `y`.
    pub open spec fn at(self, x: int, y: int) -> u8
        recommends
            self.wf(),
            self.contains(x, y),
    {
        self.samples[y * self.width + x]
    }

    /// Two grids of the same dimensions.
    pub open spec fn same_shape(self, other: Grid) -> bool {
        self.width == other.width && self.height == other.height
    }

    /// A grid without any foreground (nonzero) sample.
    pub open spec fn is_blank(self) -> bool {
        forall|i: int| 0 <= i < self.samples.len() ==> self.samples[i] == 0
    }

    /// The grid of the given dimensions whose samples all equal `value`.
    pub open spec fn uniform(width: nat, height: nat, value: u8) -> Grid {
        Grid {
            width,
            height,
            samples: Seq::new(((width as int) * (height as int)) as nat, |i: int| value),
        }
    }
}

/// The row-major index of a pixel lies inside the sample sequence.
pub proof fn lemma_index_in_range(width: int, height: int, x: int, y: int)
    requires
        0 <= x < width,
        0 <= y < height,
    ensures
        0 <= y * width + x < width * height,
        y * width + x == x + y * width,
{
    assert(y * width >= 0) by (nonlinear_arith)
        requires
            y >= 0,
            width >= 0,
    ;
    assert((y + 1) * width <= height * width) by (nonlinear_arith)
        requires
            y + 1 <= height,
            width >= 0,
    ;
    assert((y + 1) * width == y * width + width) by (nonlinear_arith);
    assert(height * width == width * height) by (nonlinear_arith);
}

/// A single-channel 8-bit frame.
#[derive(Debug)]
pub struct Frame {
    width: usize,
    height: usize,
    samples: Vec<u8>,
}

impl View for Frame {
    type V = Grid;

    closed spec fn view(&self) -> Grid {
        Grid { width: self.width as nat, height: self.height as nat, samples: self.samples@ }
    }
}

impl Frame {
    /// Every frame holds one sample per pixel.
    #[verifier::type_invariant]
    pub open spec fn inv(&self) -> bool {
        self@.wf()
    }

    /// Builds a frame from its dimensions and its samples in row-major
    /// order; `None` when the number of samples is not `width * height`.
    pub fn new(width: usize, height: usize, samples: Vec<u8>) -> (r: Option<Frame>)
        ensures
            r is Some <==> samples@.len() == width * height,
            r is Some ==> r->0@ == (Grid {
                width: width as nat,
                height: height as nat,
                samples: samples@,
            }),
    {
        let len = samples.len();
        match width.checked_mul(height) {
            Some(n) => {
                if len == n {
                    Some(Frame { width, height, samples })
                } else {
                    None
                }
            },
            None => None,
        }
    }

    /// A frame whose samples all equal `value`; `None` when the number of
    /// pixels does not fit in `usize`.
    pub fn filled(width: usize, height: usize, value: u8) -> (r: Option<Frame>)
        ensures
            r is Some <==> width * height <= usize::MAX,
            r is Some ==> r->0@ == Grid::uniform(width as nat, height as nat, value),
    {
        match width.checked_mul(height) {
            Some(n) => {
                let mut samples: Vec<u8> = Vec::new();
                let mut i: usize = 0;
                while i < n
                    invariant
                        i <= n,
                        samples@.len() == i,
                        forall|k: int| 0 <= k < i ==> samples@[k] == value,
                    decreases n - i,
                {
                    samples.push(value);
                    i += 1;
                }
                assert(samples@ =~= Grid::uniform(width as nat, height as nat, value).samples);
                Some(Frame { width, height, samples })
            },
            None => None,
        }
    }

    /// The number of columns.
    pub fn width(&self) -> (w: usize)
        ensures
            w == self@.width,
    {
        self.width
    }

    /// The number of rows.
    pub fn height(&self) -> (h: usize)
        ensures
            h == self@.height,
    {
        self.height
    }

    /// The samples in row-major order.
    pub fn samples(&self) -> (s: &Vec<u8>)
        ensures
            s@ == self@.samples,
    {
        &self.samples
    }

    /// The sample at column `x` of row `y`, or `None` outside the frame.
    pub fn get(&self, x: usize, y: usize) -> (r: Option<u8>)
        ensures
            r is Some <==> self@.contains(x as int, y as int),
            r is Some ==> r->0 == self@.at(x as int, y as int),
    {
        proof {
            use_type_invariant(self);
        }
        if x < self.width && y < self.height {
            let n = self.samples.len();
            proof {
                lemma_index_in_range(self.width as int, self.height as int, x as int, y as int);
            }
            Some(self.samples[y * self.width + x])
        } else {
            None
        }
    }

    /// Whether the frame has no foreground sample.
    pub fn is_blank(&self) -> (b: bool)
        ensures
            b == self@.is_blank(),
    {
        let n = self.samples.len();
        let mut i: usize = 0;
        while i < n
            invariant
                i <= n,
                n == self.samples@.len(),
                forall|k: int| 0 <= k < i ==> self.samples@[k] == 0,
            decreases n - i,
        {
            if self.samples[i] != 0 {
                assert(self@.samples[i as int] != 0);
                return false;
            }
            i += 1;
        }
        true
    }

    /// Whether both frames have the same dimensions.
    pub fn same_shape(&self, other: &Frame) -> (b: bool)
        ensures
            b == self@.same_shape(other@),
    {
        self.width == other.width && self.height == other.height
    }

    /// Builds a frame of the dimensions of `like` from freshly computed
    /// samples.
    pub(crate) fn with_samples(like: &Frame, samples: Vec<u8>) -> (r: Frame)
        requires
            samples@.len() == like@.samples.len(),
        ensures
            r@ == (Grid { width: like@.width, height: like@.height, samples: samples@ }),
    {
        proof {
            use_type_invariant(like);
        }
        Frame { width: like.width, height: like.height, samples }
    }
}

impl Clone for Frame {
    fn clone(&self) -> (r: Frame)
        ensures
            r@ == self@,
    {
        proof {
            use_type_invariant(self);
        }
        let n = self.samples.len();
        let mut samples: Vec<u8> = Vec::new();
        let mut i: usize = 0;
        while i < n
            invariant
                i <= n,
                n == self.samples@.len(),
                samples@ == self.samples@.take(i as int),
            decreases n - i,
        {
            samples.push(self.samples[i]);
            assert(self.samples@.take(i + 1) =~= self.samples@.take(i as int).push(
                self.samples@[i as int],
            ));
            i += 1;
        }
        assert(samples@ =~= self.samples@);
        Frame { width: self.width, height: self.height, samples }
    }
}

} // verus!
