//! Core image description types: dimensions, pixel formats, colour spaces and orientations.

use vstd::prelude::*;

verus! {

/// Width and height of an image in pixels.
#[derive(Debug, Clone, Copy, PartialEq, Eq, Structural)]
pub struct ImageDimensions {
    /// Width in pixels.
    pub width: u32,
    /// Height in pixels.
    pub height: u32,
}

impl ImageDimensions {
    /// Creates dimensions from a width and a height.
    pub fn new(width: u32, height: u32) -> (d: Self)
        ensures
            d.width == width,
            d.height == height,
    {
        ImageDimensions { width, height }
    }

    /// Total number of pixels (`width * height`).
    pub fn pixel_count(&self) -> (n: u64)
        ensures
            n == self.width * self.height,
    {
        assert(self.width * self.height <= u32::MAX * u32::MAX) by (nonlinear_arith)
            requires
                self.width <= u32::MAX,
                self.height <= u32::MAX,
        ;
        (self.width as u64) * (self.height as u64)
    }
}

impl Default for ImageDimensions {
    fn default() -> (d: Self)
        ensures
            d.width == 0,
            d.height == 0,
    {
        ImageDimensions { width: 0, height: 0 }
    }
}

} // verus!

verus! {

/// Interleaved 8-bit pixel layouts.
#[derive(Debug, Clone, Copy, PartialEq, Eq, Structural)]
pub enum PixelFormat {
    /// Red, green, blue.
    Rgb8,
    /// Red, green, blue, alpha.
    Rgba8,
    /// Blue, green, red.
    Bgr8,
    /// Blue, green, red, alpha.
    Bgra8,
    /// Single luma channel.
    Gray8,
}

/// Bytes occupied by one pixel of the given format.
pub open spec fn spec_bytes_per_pixel(f: PixelFormat) -> nat {
    match f {
        PixelFormat::Rgb8 => 3,
        PixelFormat::Rgba8 => 4,
        PixelFormat::Bgr8 => 3,
        PixelFormat::Bgra8 => 4,
        PixelFormat::Gray8 => 1,
    }
}

/// Whether the given format carries an alpha channel.
pub open spec fn spec_has_alpha(f: PixelFormat) -> bool {
    f is Rgba8 || f is Bgra8
}

impl PixelFormat {
    /// Bytes occupied by one pixel.
    pub fn bytes_per_pixel(&self) -> (n: usize)
        ensures
            n == spec_bytes_per_pixel(*self),
            1 <= n <= 4,
    {
        match self {
            PixelFormat::Rgb8 => 3,
            PixelFormat::Rgba8 => 4,
            PixelFormat::Bgr8 => 3,
            PixelFormat::Bgra8 => 4,
            PixelFormat::Gray8 => 1,
        }
    }

    /// Whether the format carries an alpha channel.
    pub fn has_alpha(&self) -> (b: bool)
        ensures
            b == spec_has_alpha(*self),
    {
        match self {
            PixelFormat::Rgba8 | PixelFormat::Bgra8 => true,
            _ => false,
        }
    }
}

/// Colour space (or embedded colour profile) of an image.
#[derive(Debug, Clone, PartialEq, Eq)]
pub enum ColorSpace {
    /// sRGB (the default).
    Srgb,
    /// Display P3.
    DisplayP3,
    /// ITU-R BT.2020.
    Rec2020,
    /// Embedded raw ICC profile bytes.
    IccProfile(Vec<u8>),
}

/// Mathematical content of a [`ColorSpace`].
pub enum ColorSpaceView {
    /// sRGB.
    Srgb,
    /// Display P3.
    DisplayP3,
    /// ITU-R BT.2020.
    Rec2020,
    /// ICC profile bytes.
    IccProfile(Seq<u8>),
}

impl View for ColorSpace {
    type V = ColorSpaceView;

    open spec fn view(&self) -> ColorSpaceView {
        match self {
            ColorSpace::Srgb => ColorSpaceView::Srgb,
            ColorSpace::DisplayP3 => ColorSpaceView::DisplayP3,
            ColorSpace::Rec2020 => ColorSpaceView::Rec2020,
            ColorSpace::IccProfile(b) => ColorSpaceView::IccProfile(b@),
        }
    }
}

impl Default for ColorSpace {
    fn default() -> (c: Self)
        ensures
            c is Srgb,
    {
        ColorSpace::Srgb
    }
}

/// The eight EXIF orientations (tag values 1 through 8).
#[derive(Debug, Clone, Copy, PartialEq, Eq, Structural)]
pub enum Orientation {
    /// 1: identity.
    Normal,
    /// 2: flip across the vertical axis.
    MirrorHorizontal,
    /// 3: rotate by 180 degrees.
    Rotate180,
    /// 4: flip across the horizontal axis.
    MirrorVertical,
    /// 5: transpose (mirror horizontally, then rotate 270 degrees clockwise).
    MirrorHorizontalRotate270,
    /// 6: rotate 90 degrees clockwise.
    Rotate90,
    /// 7: transverse (mirror horizontally, then rotate 90 degrees clockwise).
    MirrorHorizontalRotate90,
    /// 8: rotate 270 degrees clockwise.
    Rotate270,
}

/// EXIF tag value of an orientation.
pub open spec fn spec_exif_value(o: Orientation) -> u8 {
    match o {
        Orientation::Normal => 1,
        Orientation::MirrorHorizontal => 2,
        Orientation::Rotate180 => 3,
        Orientation::MirrorVertical => 4,
        Orientation::MirrorHorizontalRotate270 => 5,
        Orientation::Rotate90 => 6,
        Orientation::MirrorHorizontalRotate90 => 7,
        Orientation::Rotate270 => 8,
    }
}

/// Whether the orientation exchanges width and height.
pub open spec fn spec_swaps_dimensions(o: Orientation) -> bool {
    spec_exif_value(o) >= 5
}

impl Orientation {
    /// Parses an EXIF orientation tag value; values outside `1..=8` give `None`.
    pub fn from_exif(value: u8) -> (o: Option<Orientation>)
        ensures
            o is Some <==> 1 <= value <= 8,
            o matches Some(x) ==> spec_exif_value(x) == value,
    {
        match value {
            1 => Some(Orientation::Normal),
            2 => Some(Orientation::MirrorHorizontal),
            3 => Some(Orientation::Rotate180),
            4 => Some(Orientation::MirrorVertical),
            5 => Some(Orientation::MirrorHorizontalRotate270),
            6 => Some(Orientation::Rotate90),
            7 => Some(Orientation::MirrorHorizontalRotate90),
            8 => Some(Orientation::Rotate270),
            _ => None,
        }
    }

    /// EXIF tag value (1 through 8).
    pub fn exif_value(&self) -> (v: u8)
        ensures
            v == spec_exif_value(*self),
    {
        match self {
            Orientation::Normal => 1,
            Orientation::MirrorHorizontal => 2,
            Orientation::Rotate180 => 3,
            Orientation::MirrorVertical => 4,
            Orientation::MirrorHorizontalRotate270 => 5,
            Orientation::Rotate90 => 6,
            Orientation::MirrorHorizontalRotate90 => 7,
            Orientation::Rotate270 => 8,
        }
    }

    /// Whether applying this orientation exchanges width and height.
    pub fn swaps_dimensions(&self) -> (b: bool)
        ensures
            b == spec_swaps_dimensions(*self),
    {
        match self {
            Orientation::MirrorHorizontalRotate270
            | Orientation::Rotate90
            | Orientation::MirrorHorizontalRotate90
            | Orientation::Rotate270 => true,
            _ => false,
        }
    }
}

} // verus!
