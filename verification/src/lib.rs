pub mod dither;
pub mod grid;
pub mod pixel;

pub use dither::{atkinson, check_two_tone};
pub use grid::Image;
pub use pixel::{add_pixels, calc_errpx, threshold_pixel, Pixel};
