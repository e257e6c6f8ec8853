use vstd::prelude::*;
use crate::rtw_image::{ImageView, RtwImage};

verus! {

/// A texture that samples an image by pixel coordinates.
pub struct ImageTexture {
    image: RtwImage,
}

impl View for ImageTexture {
    type V = ImageView;

    /// The texture is seen as the image that it samples.
    closed spec fn view(&self) -> ImageView {
        self.image@
    }
}

impl ImageTexture {
    /// A texture over `image`.
    pub fn new(image: RtwImage) -> (t: ImageTexture)
        ensures
            t@ == image@,
    {
        ImageTexture { image }
    }

    /// The image that this texture samples.
    pub fn image(&self) -> (img: &RtwImage)
        ensures
            img@ == self@,
    {
        &self.image
    }

    /// The texel at pixel `(i, j)`: `None` when the image has no rows (the texture then
    /// shows its debugging colour), otherwise the image's read of `(i, j)`.
    pub fn texel(&self, i: u32, j: u32) -> (p: Option<&[u8]>)
        ensures
            match p {
                None => self@.height == 0,
                Some(px) => self@.height != 0 && px@ == self@.pixel(i as int, j as int),
            },
    {
        if self.image.height() == 0 {
            return None;
        }
        Some(self.image.pixel_data(i, j))
    }
}

/// Whether the checkerboard cell with integer coordinates `(x, y, z)` is even.
pub open spec fn spec_checker_even(x: int, y: int, z: int) -> bool {
    (x + y + z) % 2 == 0
}

/// Whether the checkerboard cell with integer coordinates `(x, y, z)` is even, that is
/// whether `x + y + z` is even.
pub fn checker_is_even(x: i32, y: i32, z: i32) -> (even: bool)
    requires
        i32::MIN <= x + y <= i32::MAX,
        i32::MIN <= x + y + z <= i32::MAX,
    ensures
        even == spec_checker_even(x as int, y as int, z as int),
{
    let s = x + y + z;
    s % 2 == 0
}

/// Neighbouring cells along any axis have opposite colours.
pub proof fn lemma_checker_alternates(x: int, y: int, z: int)
    ensures
        spec_checker_even(x + 1, y, z) == !spec_checker_even(x, y, z),
        spec_checker_even(x, y + 1, z) == !spec_checker_even(x, y, z),
        spec_checker_even(x, y, z + 1) == !spec_checker_even(x, y, z),
{
}

} // verus!
