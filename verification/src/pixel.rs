use vstd::prelude::*;

verus! {

/// A single 4-channel (R, G, B, A) sample with 8 bits per channel.
#[derive(Clone, Copy, Debug, PartialEq, Eq)]
pub struct Pixel {
    pub data: [u8; 4],
}

impl View for Pixel {
    type V = Seq<u8>;

    open spec fn view(&self) -> Seq<u8> {
        self.data@
    }
}

/// A channel pushed to black or white: values below 128 become 0, the rest 255.
pub open spec fn thresh(v: u8) -> u8 {
    if v < 128 {
        0
    } else {
        255
    }
}

/// The quantization error a channel carries after thresholding: the amount the
/// channel was darkened, divided by 8 (one eighth of the error per neighbour).
/// A channel that was brightened carries no error, so the subtraction
/// saturates at zero.
pub open spec fn err_val(o: u8, n: u8) -> u8 {
    if o >= n {
        ((o - n) / 8) as u8
    } else {
        0
    }
}

/// Channel addition clamped at 255.
pub open spec fn sat_add(a: u8, b: u8) -> u8 {
    if a + b > 255 {
        255
    } else {
        (a + b) as u8
    }
}

/// Every channel of the pixel thresholded independently.
pub open spec fn thresh_px(p: Seq<u8>) -> Seq<u8> {
    Seq::new(p.len(), |i: int| thresh(p[i]))
}

/// The per-channel quantization error between an original pixel and its
/// thresholded replacement.
pub open spec fn err_px(o: Seq<u8>, n: Seq<u8>) -> Seq<u8> {
    Seq::new(o.len(), |i: int| err_val(o[i], n[i]))
}

/// Per-channel saturating sum of two pixels.
pub open spec fn add_px(a: Seq<u8>, b: Seq<u8>) -> Seq<u8> {
    Seq::new(a.len(), |i: int| sat_add(a[i], b[i]))
}

/// The error arithmetic stays inside [0, 255]: a channel's diffused error is
/// at most 31 (255 / 8), and adding it to any channel saturates at 255, so
/// no value overflows or wraps.
pub proof fn lemma_error_in_range(o: u8, n: u8, v: u8)
    ensures
        0 <= err_val(o, n) <= 31,
        0 <= sat_add(v, err_val(o, n)) <= 255,
{
}

/// Pushes every channel of a pixel to either black or white.
pub fn threshold_pixel(p: &Pixel) -> (r: Pixel)
    ensures
        r@ == thresh_px(p@),
{
    let mut d: [u8; 4] = p.data;
    let mut i: usize = 0;
    while i < 4
        invariant
            i <= 4,
            d@.len() == 4,
            forall|j: int| 0 <= j < i ==> d@[j] == thresh(p@[j]),
            forall|j: int| i <= j < 4 ==> d@[j] == p@[j],
        decreases 4 - i,
    {
        if d[i] < 128 {
            d[i] = 0;
        } else {
            d[i] = 255;
        }
        i = i + 1;
    }
    let r = Pixel { data: d };
    proof {
        assert(r@ =~= thresh_px(p@));
    }
    r
}

/// Calculates the per-channel error between the original pixel and the new
/// colour: a saturating subtraction, then a right shift by three (division
/// by 8).
pub fn calc_errpx(originalpx: &Pixel, newpx: &Pixel) -> (r: Pixel)
    ensures
        r@ == err_px(originalpx@, newpx@),
{
    let mut result: [u8; 4] = originalpx.data;
    let mut i: usize = 0;
    while i < 4
        invariant
            i <= 4,
            result@.len() == 4,
            forall|j: int| 0 <= j < i ==> result@[j] == err_val(originalpx@[j], newpx@[j]),
            forall|j: int| i <= j < 4 ==> result@[j] == originalpx@[j],
        decreases 4 - i,
    {
        let d = result[i].saturating_sub(newpx.data[i]);
        assert(d >> 3 == d / 8) by (bit_vector);
        result[i] = d >> 3;
        i = i + 1;
    }
    let r = Pixel { data: result };
    proof {
        assert(r@ =~= err_px(originalpx@, newpx@));
    }
    r
}

/// Adds the values of two pixels together channel by channel, saturating at
/// 255 so that no channel overflows.
pub fn add_pixels(a: &Pixel, b: &Pixel) -> (r: Pixel)
    ensures
        r@ == add_px(a@, b@),
{
    let mut result: [u8; 4] = a.data;
    let mut i: usize = 0;
    while i < 4
        invariant
            i <= 4,
            result@.len() == 4,
            forall|j: int| 0 <= j < i ==> result@[j] == sat_add(a@[j], b@[j]),
            forall|j: int| i <= j < 4 ==> result@[j] == a@[j],
        decreases 4 - i,
    {
        result[i] = result[i].saturating_add(b.data[i]);
        i = i + 1;
    }
    let r = Pixel { data: result };
    proof {
        assert(r@ =~= add_px(a@, b@));
    }
    r
}

} // verus!
