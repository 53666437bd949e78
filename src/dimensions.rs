//! Page size and margins, and the text area they leave.
//!
//! Lengths on the page are integers in micrometres; text is measured in
//! millipoints (1/1000 pt, with 72 pt to the inch).
use vstd::prelude::*;

verus! {

/// Millipoints in `um` micrometres, rounded down.
pub open spec fn um_to_mpt(um: int) -> int {
    um * 360 / 127
}

/// Millipoints in `um` micrometres, rounded down.
pub fn to_millipoints(um: u32) -> (r: u64)
    ensures
        r == um_to_mpt(um as int),
{
    um as u64 * 360 / 127
}

/// The dimensions of a page, in micrometres.
#[derive(Clone, Copy, Debug)]
pub struct Dimensions {
    pub width: u32,
    pub height: u32,
    pub margin_left: u32,
    pub margin_right: u32,
    pub margin_top: u32,
    pub margin_bottom: u32,
}

impl Dimensions {
    /// Every margin is positive and the margins leave room for text.
    pub open spec fn wf(&self) -> bool {
        &&& self.margin_left > 0
        &&& self.margin_right > 0
        &&& self.margin_top > 0
        &&& self.margin_bottom > 0
        &&& self.margin_left + self.margin_right < self.width
        &&& self.margin_top + self.margin_bottom < self.height
    }

    /// Width left for text between the side margins, in micrometres.
    pub open spec fn text_width(&self) -> int {
        self.width - self.margin_left - self.margin_right
    }

    /// Height left for text between the top and bottom margins, in micrometres.
    pub open spec fn text_height(&self) -> int {
        self.height - self.margin_top - self.margin_bottom
    }

    /// A page of `width` by `height` with the default margins (top 20 mm,
    /// bottom 5 mm, left and right 10 mm).
    pub fn new_default_margins(width: u32, height: u32) -> (r: Self)
        requires
            width > 20_000,
            height > 25_000,
        ensures
            r.wf(),
            r.width == width,
            r.height == height,
            r.margin_top == 20_000,
            r.margin_bottom == 5_000,
            r.margin_left == 10_000,
            r.margin_right == 10_000,
    {
        Dimensions {
            width,
            height,
            margin_top: 20_000,
            margin_bottom: 5_000,
            margin_left: 10_000,
            margin_right: 10_000,
        }
    }

    /// A page with the given size and margins.
    pub fn new(
        width: u32,
        height: u32,
        margin_top: u32,
        margin_bottom: u32,
        margin_left: u32,
        margin_right: u32,
    ) -> (r: Self)
        requires
            margin_left > 0,
            margin_right > 0,
            margin_top > 0,
            margin_bottom > 0,
            margin_left + margin_right < width,
            margin_top + margin_bottom < height,
        ensures
            r.wf(),
            r == (Dimensions { width, height, margin_left, margin_right, margin_top, margin_bottom }),
    {
        Dimensions { width, height, margin_left, margin_right, margin_top, margin_bottom }
    }

    /// The width left for text, in micrometres.
    pub fn max_text_width(&self) -> (r: u32)
        requires
            self.wf(),
        ensures
            r == self.text_width(),
            r > 0,
    {
        self.width - self.margin_left - self.margin_right
    }

    /// The height left for text, in micrometres.
    pub fn max_text_height(&self) -> (r: u32)
        requires
            self.wf(),
        ensures
            r == self.text_height(),
            r > 0,
    {
        self.height - self.margin_top - self.margin_bottom
    }
}

impl Default for Dimensions {
    /// An A4 page (210 mm by 297 mm) with the default margins.
    fn default() -> (r: Self)
        ensures
            r.wf(),
            r == (Dimensions {
                width: 210_000,
                height: 297_000,
                margin_top: 20_000,
                margin_bottom: 5_000,
                margin_left: 10_000,
                margin_right: 10_000,
            }),
    {
        Dimensions {
            width: 210_000,
            height: 297_000,
            margin_top: 20_000,
            margin_bottom: 5_000,
            margin_left: 10_000,
            margin_right: 10_000,
        }
    }
}

} // verus!
