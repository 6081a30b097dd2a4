use vstd::prelude::*;

use crate::pixel::Pixel;

verus! {

/// A rectangular, row-major grid of 4-channel 8-bit pixels with
/// bounds-checked random access. The cell at column `x` of row `y` sits at
/// index `y * width + x` of the backing store.
pub struct Image {
    width: usize,
    height: usize,
    data: Vec<Pixel>,
}

impl View for Image {
    type V = Seq<Seq<u8>>;

    closed spec fn view(&self) -> Seq<Seq<u8>> {
        Seq::new(self.data@.len(), |i: int| self.data@[i]@)
    }
}

/// A row-major coordinate pair addresses a cell inside the grid.
pub proof fn lemma_row_major_index(w: int, h: int, x: int, y: int)
    requires
        0 <= x < w,
        0 <= y < h,
    ensures
        0 <= y * w + x < w * h,
{
    assert(y * w + x < w * h) by (nonlinear_arith)
        requires
            0 <= x < w,
            0 <= y < h,
    ;
}

impl Image {
    /// The grid's width, as seen by specifications.
    pub closed spec fn spec_width(&self) -> int {
        self.width as int
    }

    /// The grid's height, as seen by specifications.
    pub closed spec fn spec_height(&self) -> int {
        self.height as int
    }

    /// Well-formed: the backing store holds exactly width * height pixels.
    pub open spec fn wf(&self) -> bool {
        self@.len() == self.spec_width() * self.spec_height()
    }

    /// Builds a grid from its dimensions and a row-major pixel store.
    pub fn new(width: usize, height: usize, data: Vec<Pixel>) -> (r: Image)
        requires
            data@.len() == width * height,
        ensures
            r.wf(),
            r.spec_width() == width,
            r.spec_height() == height,
            r@.len() == data@.len(),
            forall|i: int| 0 <= i < data@.len() ==> r@[i] == data@[i]@,
    {
        Image { width, height, data }
    }

    pub fn width(&self) -> (r: usize)
        ensures
            r == self.spec_width(),
    {
        self.width
    }

    pub fn height(&self) -> (r: usize)
        ensures
            r == self.spec_height(),
    {
        self.height
    }

    /// Reads the pixel at column `x` of row `y`.
    pub fn get(&self, x: usize, y: usize) -> (r: Pixel)
        requires
            self.wf(),
            x < self.spec_width(),
            y < self.spec_height(),
        ensures
            r@ == self@[y * self.spec_width() + x],
    {
        proof {
            lemma_row_major_index(self.spec_width(), self.spec_height(), x as int, y as int);
            assert(self.data@.len() == self.data.len());
        }
        self.data[y * self.width + x]
    }

    /// Replaces the pixel at column `x` of row `y`.
    pub fn set(&mut self, x: usize, y: usize, p: Pixel)
        requires
            old(self).wf(),
            x < old(self).spec_width(),
            y < old(self).spec_height(),
        ensures
            final(self).wf(),
            final(self).spec_width() == old(self).spec_width(),
            final(self).spec_height() == old(self).spec_height(),
            final(self)@ == old(self)@.update(y * old(self).spec_width() + x, p@),
    {
        proof {
            lemma_row_major_index(self.spec_width(), self.spec_height(), x as int, y as int);
            assert(self.data@.len() == self.data.len());
        }
        let i: usize = y * self.width + x;
        self.data[i] = p;
        proof {
            assert(self@ =~= old(self)@.update(
                y as int * old(self).spec_width() + x,
                p@,
            ));
        }
    }
}

} // verus!
