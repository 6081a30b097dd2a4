use vstd::prelude::*;

use crate::grid::{lemma_row_major_index, Image};
use crate::pixel::{add_px, add_pixels, calc_errpx, err_px, thresh, thresh_px, threshold_pixel, Pixel};
use vstd::arithmetic::div_mod::{
    lemma_fundamental_div_mod, lemma_fundamental_div_mod_converse_div,
    lemma_fundamental_div_mod_converse_mod, lemma_mod_bound,
};

verus! {

/// Every channel of the pixel is pure black or pure white.
pub open spec fn two_tone_px(p: Seq<u8>) -> bool {
    forall|c: int| 0 <= c < p.len() ==> p[c] == 0 || p[c] == 255
}

/// Every channel of every pixel of the grid is pure black or pure white.
pub open spec fn two_tone(g: Seq<Seq<u8>>) -> bool {
    forall|i: int| 0 <= i < g.len() ==> two_tone_px(g[i])
}

/// Adds the error `e` to the cell at column `x` of row `y` with saturating
/// channel arithmetic, or leaves the grid unchanged when the coordinates
/// fall outside it.
pub open spec fn diffuse_one(
    g: Seq<Seq<u8>>,
    w: int,
    h: int,
    e: Seq<u8>,
    x: int,
    y: int,
) -> Seq<Seq<u8>> {
    if 0 <= x < w && 0 <= y < h {
        g.update(y * w + x, add_px(g[y * w + x], e))
    } else {
        g
    }
}

/// One step of the Atkinson dither at column `x` of row `y`: the pixel is
/// thresholded in place, and an eighth of the quantization error is added to
/// each of the six neighbours (x+1,y), (x+2,y), (x,y+1), (x+1,y+1), (x,y+2)
/// and — except in the leftmost column — (x-1,y+1). Neighbours outside the
/// grid are skipped, and their share of the error is discarded.
pub open spec fn dither_step(g: Seq<Seq<u8>>, w: int, h: int, x: int, y: int) -> Seq<Seq<u8>> {
    let orig = g[y * w + x];
    let newp = thresh_px(orig);
    let e = err_px(orig, newp);
    let g0 = g.update(y * w + x, newp);
    let g1 = diffuse_one(g0, w, h, e, x + 1, y);
    let g2 = diffuse_one(g1, w, h, e, x + 2, y);
    let g3 = diffuse_one(g2, w, h, e, x, y + 1);
    let g4 = diffuse_one(g3, w, h, e, x + 1, y + 1);
    let g5 = diffuse_one(g4, w, h, e, x, y + 2);
    if x > 0 {
        diffuse_one(g5, w, h, e, x - 1, y + 1)
    } else {
        g5
    }
}

/// The grid after the first `k` pixels, in row-major order, have been
/// dithered.
pub open spec fn dither_upto(g: Seq<Seq<u8>>, w: int, h: int, k: int) -> Seq<Seq<u8>>
    decreases k,
{
    if k <= 0 {
        g
    } else {
        dither_step(dither_upto(g, w, h, k - 1), w, h, (k - 1) % w, (k - 1) / w)
    }
}

/// The grid after a full Atkinson dither: every pixel visited once, top to
/// bottom and left to right within each row.
pub open spec fn dither_spec(g: Seq<Seq<u8>>, w: int, h: int) -> Seq<Seq<u8>> {
    dither_upto(g, w, h, w * h)
}

/// Adds the error pixel to the cell at (x, y) when that cell exists;
/// out-of-bounds targets are dropped silently.
fn diffuse(img: &mut Image, x: usize, y: usize, e: &Pixel)
    requires
        old(img).wf(),
    ensures
        final(img).wf(),
        final(img).spec_width() == old(img).spec_width(),
        final(img).spec_height() == old(img).spec_height(),
        final(img)@ == diffuse_one(
            old(img)@,
            old(img).spec_width(),
            old(img).spec_height(),
            e@,
            x as int,
            y as int,
        ),
{
    if x < img.width() && y < img.height() {
        let p = img.get(x, y);
        let corr = add_pixels(&p, e);
        img.set(x, y, corr);
    }
}

/// A thresholded pixel is two-tone.
proof fn lemma_thresh_two_tone(p: Seq<u8>)
    ensures
        two_tone_px(thresh_px(p)),
{
    assert forall|c: int| 0 <= c < thresh_px(p).len() implies thresh_px(p)[c] == 0
        || thresh_px(p)[c] == 255 by {
        assert(thresh_px(p)[c] == thresh(p[c]));
    }
}

/// Diffusing an error into one cell keeps the grid's size and changes no
/// other cell.
proof fn lemma_diffuse_one_frame(g: Seq<Seq<u8>>, w: int, h: int, e: Seq<u8>, x: int, y: int)
    requires
        g.len() == w * h,
    ensures
        diffuse_one(g, w, h, e, x, y).len() == g.len(),
        forall|j: int|
            0 <= j < g.len() && j != y * w + x ==> diffuse_one(g, w, h, e, x, y)[j] == g[j],
{
    if 0 <= x < w && 0 <= y < h {
        lemma_row_major_index(w, h, x, y);
    }
}

/// A dither step changes no cell that comes before its own in row-major
/// order, and leaves its own cell thresholded: every diffusion target sits
/// strictly later in the scan.
proof fn lemma_step_frame(g: Seq<Seq<u8>>, w: int, h: int, x: int, y: int)
    requires
        0 <= x < w,
        0 <= y < h,
        g.len() == w * h,
    ensures
        dither_step(g, w, h, x, y).len() == g.len(),
        dither_step(g, w, h, x, y)[y * w + x] == thresh_px(g[y * w + x]),
        forall|j: int| 0 <= j < y * w + x ==> dither_step(g, w, h, x, y)[j] == g[j],
{
    lemma_row_major_index(w, h, x, y);
    let idx = y * w + x;
    assert((y + 1) * w == y * w + w) by (nonlinear_arith);
    assert((y + 2) * w == y * w + 2 * w) by (nonlinear_arith);
    let orig = g[idx];
    let newp = thresh_px(orig);
    let e = err_px(orig, newp);
    let g0 = g.update(idx, newp);
    let g1 = diffuse_one(g0, w, h, e, x + 1, y);
    let g2 = diffuse_one(g1, w, h, e, x + 2, y);
    let g3 = diffuse_one(g2, w, h, e, x, y + 1);
    let g4 = diffuse_one(g3, w, h, e, x + 1, y + 1);
    let g5 = diffuse_one(g4, w, h, e, x, y + 2);
    let g6 = if x > 0 {
        diffuse_one(g5, w, h, e, x - 1, y + 1)
    } else {
        g5
    };
    assert(g0.len() == g.len() && g0[idx] == newp);
    assert(forall|j: int| 0 <= j < idx ==> g0[j] == g[j]);
    lemma_diffuse_one_frame(g0, w, h, e, x + 1, y);
    assert(g1.len() == g.len() && g1[idx] == newp);
    assert(forall|j: int| 0 <= j < idx ==> g1[j] == g[j]);
    lemma_diffuse_one_frame(g1, w, h, e, x + 2, y);
    assert(g2.len() == g.len() && g2[idx] == newp);
    assert(forall|j: int| 0 <= j < idx ==> g2[j] == g[j]);
    lemma_diffuse_one_frame(g2, w, h, e, x, y + 1);
    assert(g3.len() == g.len() && g3[idx] == newp);
    assert(forall|j: int| 0 <= j < idx ==> g3[j] == g[j]);
    lemma_diffuse_one_frame(g3, w, h, e, x + 1, y + 1);
    assert(g4.len() == g.len() && g4[idx] == newp);
    assert(forall|j: int| 0 <= j < idx ==> g4[j] == g[j]);
    lemma_diffuse_one_frame(g4, w, h, e, x, y + 2);
    assert(g5.len() == g.len() && g5[idx] == newp);
    assert(forall|j: int| 0 <= j < idx ==> g5[j] == g[j]);
    if x > 0 {
        lemma_diffuse_one_frame(g5, w, h, e, x - 1, y + 1);
    }
    assert(g6.len() == g.len() && g6[idx] == newp);
    assert(forall|j: int| 0 <= j < idx ==> g6[j] == g[j]);
    assert(dither_step(g, w, h, x, y) == g6);
}

/// After the first `k` pixels have been dithered, each of them is two-tone,
/// and the grid keeps its size.
proof fn lemma_upto_two_tone(g: Seq<Seq<u8>>, w: int, h: int, k: int)
    requires
        0 <= w,
        0 <= h,
        0 <= k <= w * h,
        g.len() == w * h,
    ensures
        dither_upto(g, w, h, k).len() == g.len(),
        forall|j: int| 0 <= j < k ==> two_tone_px(dither_upto(g, w, h, k)[j]),
    decreases k,
{
    if k > 0 {
        let k1 = k - 1;
        lemma_upto_two_tone(g, w, h, k1);
        assert(0 < w) by (nonlinear_arith)
            requires
                0 <= w,
                0 < w * h,
        ;
        let x = k1 % w;
        let y = k1 / w;
        lemma_mod_bound(k1, w);
        lemma_fundamental_div_mod(k1, w);
        assert(0 <= y && y < h) by (nonlinear_arith)
            requires
                k1 == w * y + x,
                0 <= x < w,
                0 <= k1 < w * h,
                0 < w,
        ;
        let prev = dither_upto(g, w, h, k1);
        lemma_step_frame(prev, w, h, x, y);
        assert(y * w + x == k1);
        assert(dither_upto(g, w, h, k) == dither_step(prev, w, h, x, y));
        assert forall|j: int| 0 <= j < k implies two_tone_px(dither_upto(g, w, h, k)[j]) by {
            if j == k1 {
                lemma_thresh_two_tone(prev[k1]);
                assert(dither_step(prev, w, h, x, y)[k1] == thresh_px(prev[k1]));
                assert(dither_upto(g, w, h, k)[j] == thresh_px(prev[k1]));
            } else {
                assert(0 <= j < k1);
                assert(dither_step(prev, w, h, x, y)[j] == prev[j]);
                assert(two_tone_px(prev[j]));
            }
        }
    }
}

/// Applies an Atkinson dither to a mutable pixel grid, in place: every pixel
/// is thresholded to pure black or white, in row-major order, and six
/// eighths of each quantization error are diffused to the pixel's not yet
/// visited neighbours.
pub fn atkinson(img: &mut Image)
    requires
        old(img).wf(),
    ensures
        final(img).wf(),
        final(img).spec_width() == old(img).spec_width(),
        final(img).spec_height() == old(img).spec_height(),
        final(img)@ == dither_spec(old(img)@, old(img).spec_width(), old(img).spec_height()),
        two_tone(final(img)@),
{
    let w = img.width();
    let h = img.height();
    let ghost g_init = img@;
    let mut y: usize = 0;
    while y < h
        invariant
            y <= h,
            img.wf(),
            img.spec_width() == w,
            img.spec_height() == h,
            g_init.len() == w as int * h as int,
            img@ == dither_upto(g_init, w as int, h as int, y as int * w as int),
        decreases h - y,
    {
        let mut x: usize = 0;
        while x < w
            invariant
                x <= w,
                y < h,
                img.wf(),
                img.spec_width() == w,
                img.spec_height() == h,
                g_init.len() == w as int * h as int,
                img@ == dither_upto(g_init, w as int, h as int, y as int * w as int + x as int),
            decreases w - x,
        {
            let ghost g_pre = img@;
            let px = img.get(x, y);
            let newpx = threshold_pixel(&px);
            img.set(x, y, newpx);
            let errpx = calc_errpx(&px, &newpx);
            diffuse(img, x + 1, y, &errpx);
            if x + 1 < w {
                diffuse(img, x + 2, y, &errpx);
            }
            diffuse(img, x, y + 1, &errpx);
            diffuse(img, x + 1, y + 1, &errpx);
            if y + 1 < h {
                diffuse(img, x, y + 2, &errpx);
            }
            if x > 0 {
                diffuse(img, x - 1, y + 1, &errpx);
            }
            proof {
                let wi = w as int;
                let hi = h as int;
                let xi = x as int;
                let yi = y as int;
                let k1 = yi * wi + xi;
                assert(img@ == dither_step(g_pre, wi, hi, xi, yi));
                lemma_fundamental_div_mod_converse_mod(k1, wi, yi, xi);
                lemma_fundamental_div_mod_converse_div(k1, wi, yi, xi);
                assert(dither_upto(g_init, wi, hi, k1 + 1) == dither_step(
                    dither_upto(g_init, wi, hi, k1),
                    wi,
                    hi,
                    xi,
                    yi,
                ));
            }
            x = x + 1;
        }
        proof {
            assert((y + 1) as int * w as int == y as int * w as int + w as int)
                by (nonlinear_arith);
        }
        y = y + 1;
    }
    proof {
        assert(h as int * w as int == w as int * h as int) by (nonlinear_arith);
        lemma_dither_two_tone(g_init, w as int, h as int);
    }
}

/// Checks that the grid holds a valid dithered image: true exactly when
/// every channel of every pixel is 0 or 255.
pub fn check_two_tone(img: &Image) -> (r: bool)
    requires
        img.wf(),
    ensures
        r == two_tone(img@),
{
    let w = img.width();
    let h = img.height();
    let mut y: usize = 0;
    while y < h
        invariant
            y <= h,
            img.wf(),
            img.spec_width() == w,
            img.spec_height() == h,
            forall|i: int| 0 <= i < y as int * w as int ==> two_tone_px(img@[i]),
        decreases h - y,
    {
        let mut x: usize = 0;
        while x < w
            invariant
                x <= w,
                y < h,
                img.wf(),
                img.spec_width() == w,
                img.spec_height() == h,
                forall|i: int|
                    0 <= i < y as int * w as int + x as int ==> two_tone_px(img@[i]),
            decreases w - x,
        {
            let px = img.get(x, y);
            let ghost idx = y as int * w as int + x as int;
            proof {
                lemma_row_major_index(w as int, h as int, x as int, y as int);
            }
            let mut c: usize = 0;
            while c < 4
                invariant
                    c <= 4,
                    px@.len() == 4,
                    img.wf(),
                    img.spec_width() == w,
                    img.spec_height() == h,
                    0 <= idx < img@.len(),
                    px@ == img@[idx],
                    forall|j: int| 0 <= j < c ==> px@[j] == 0 || px@[j] == 255,
                decreases 4 - c,
            {
                if px.data[c] != 0 && px.data[c] != 255 {
                    proof {
                        assert(!two_tone_px(img@[idx]));
                    }
                    return false;
                }
                c = c + 1;
            }
            assert(two_tone_px(img@[idx]));
            x = x + 1;
        }
        proof {
            assert((y + 1) as int * w as int == y as int * w as int + w as int)
                by (nonlinear_arith);
        }
        y = y + 1;
    }
    proof {
        assert(h as int * w as int == w as int * h as int) by (nonlinear_arith);
    }
    true
}

/// The two-tone postcondition: a fully dithered grid holds only the channel
/// values 0 and 255, and has the same number of pixels as the original.
pub proof fn lemma_dither_two_tone(g: Seq<Seq<u8>>, w: int, h: int)
    requires
        0 <= w,
        0 <= h,
        g.len() == w * h,
    ensures
        dither_spec(g, w, h).len() == g.len(),
        two_tone(dither_spec(g, w, h)),
{
    assert(0 <= w * h) by (nonlinear_arith)
        requires
            0 <= w,
            0 <= h,
    ;
    lemma_upto_two_tone(g, w, h, w * h);
}

/// Determinism: the dither is a pure function of the pixel grid, so two
/// runs over equal grids yield equal — byte-identical — results.
pub proof fn lemma_dither_deterministic(g1: Seq<Seq<u8>>, g2: Seq<Seq<u8>>, w: int, h: int)
    requires
        g1 == g2,
    ensures
        dither_spec(g1, w, h) == dither_spec(g2, w, h),
{
}

/// A pixel of the leftmost column never diffuses error up-left: in a grid at
/// least three pixels wide, the step at (0, y) leaves the cell at the far
/// end of the next row untouched. A two-pixel-wide grid is left out: there
/// that cell is (1, y+1), which the ordinary down-right offset reaches.
pub proof fn lemma_left_edge_no_wrap(g: Seq<Seq<u8>>, w: int, h: int, y: int)
    requires
        3 <= w,
        0 <= y,
        y + 1 < h,
        g.len() == w * h,
    ensures
        dither_step(g, w, h, 0, y)[(y + 1) * w + (w - 1)] == g[(y + 1) * w + (w - 1)],
{
    lemma_row_major_index(w, h, 0, y);
    let idx = y * w;
    let t = (y + 1) * w + (w - 1);
    assert((y + 1) * w == y * w + w) by (nonlinear_arith);
    assert((y + 2) * w == y * w + 2 * w) by (nonlinear_arith);
    let orig = g[idx];
    let newp = thresh_px(orig);
    let e = err_px(orig, newp);
    let g0 = g.update(idx, newp);
    let g1 = diffuse_one(g0, w, h, e, 1, y);
    let g2 = diffuse_one(g1, w, h, e, 2, y);
    let g3 = diffuse_one(g2, w, h, e, 0, y + 1);
    let g4 = diffuse_one(g3, w, h, e, 1, y + 1);
    let g5 = diffuse_one(g4, w, h, e, 0, y + 2);
    assert(dither_step(g, w, h, 0, y) == g5);
    lemma_diffuse_one_frame(g0, w, h, e, 1, y);
    lemma_diffuse_one_frame(g1, w, h, e, 2, y);
    lemma_diffuse_one_frame(g2, w, h, e, 0, y + 1);
    lemma_diffuse_one_frame(g3, w, h, e, 1, y + 1);
    lemma_diffuse_one_frame(g4, w, h, e, 0, y + 2);
    assert(0 <= t < g.len()) by {
        assert((y + 2) * w <= h * w) by (nonlinear_arith)
            requires
                y + 2 <= h,
                0 <= w,
        ;
        assert(h * w == w * h) by (nonlinear_arith);
    }
    assert(t != idx && t != y * w + 1 && t != y * w + 2);
    assert(t != (y + 1) * w + 0 && t != (y + 1) * w + 1 && t != (y + 2) * w + 0);
    assert(g0[t] == g[t]);
    assert(g1[t] == g0[t]);
    assert(g2[t] == g1[t]);
    assert(g3[t] == g2[t]);
    assert(g4[t] == g3[t]);
    assert(g5[t] == g4[t]);
    assert(g5[t] == g[t]);
}

} // verus!
