//! The resampling filters that `resize` offers.
use vstd::prelude::*;
use crate::image::Image;

verus! {

/// Available sampling filters.
#[derive(Clone, Copy, Debug, PartialEq, Eq)]
pub enum FilterType {
    /// Nearest neighbour
    Nearest,
    /// Linear filter
    Triangle,
    /// Cubic filter
    CatmullRom,
    /// Gaussian filter
    Gaussian,
    /// Lanczos with window 3
    Lanczos3,
}

/// The radius, in source pixels at scale one, over which each filter's kernel is evaluated.
pub open spec fn spec_support(filter: FilterType) -> nat {
    match filter {
        FilterType::Nearest => 0,
        FilterType::Triangle => 1,
        FilterType::CatmullRom => 2,
        FilterType::Gaussian => 3,
        FilterType::Lanczos3 => 3,
    }
}

impl FilterType {
    /// The support of the filter's kernel: the half width of the window of input
    /// pixels that contribute to one output pixel (before scaling).
    pub fn support(self) -> (r: u32)
        ensures
            r == spec_support(self),
    {
        match self {
            FilterType::Nearest => 0,
            FilterType::Triangle => 1,
            FilterType::CatmullRom => 2,
            FilterType::Gaussian => 3,
            FilterType::Lanczos3 => 3,
        }
    }
}

/// The first step of resizing: when the requested size is the image's own, the
/// result is an unchanged copy of the image (`Some`); otherwise the image has to be
/// resampled (`None`).
pub fn copy_if_same_size<T: Copy>(image: &Image<T>, new_width: u32, new_height: u32) -> (r: Option<
    Image<T>,
>)
    requires
        image.wf(),
    ensures
        (r is Some) <==> (new_width == image.spec_width() && new_height == image.spec_height()),
        r matches Some(copy) ==> copy.wf() && copy.spec_width() == image.spec_width()
            && copy.spec_height() == image.spec_height() && copy.spec_pixels()
            == image.spec_pixels(),
{
    let (width, height) = image.dimensions();
    if new_width == width && new_height == height {
        Some(image.duplicate())
    } else {
        None
    }
}

} // verus!
