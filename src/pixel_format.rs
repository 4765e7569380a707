use vstd::arithmetic::power2::{lemma2_to64, lemma_pow2_strictly_increases, pow2};
use vstd::bits::lemma_u32_shr_is_div;
use vstd::prelude::*;

verus! {

/// Largest number of planes that a pixel format uses.
pub const MAX_NUMBER_OF_PLANES: usize = 4;

/// Number of pixel formats: valid format ordinals are `0..NUMBER_OF_PIXEL_FORMATS`.
pub const NUMBER_OF_PIXEL_FORMATS: u32 = 13;

/// If a plane stride is assigned to this constant, the plane will be assumed to contain packed data
pub const STRIDE_AUTO: usize = 0;

/// Strides that ask for packed data in every plane.
pub const DEFAULT_STRIDES: [usize; MAX_NUMBER_OF_PLANES] = [
    STRIDE_AUTO,
    STRIDE_AUTO,
    STRIDE_AUTO,
    STRIDE_AUTO,
];

/// Field value of a plane descriptor that marks the plane as absent.
pub const PLANE_ABSENT: u32 = 32;

/// An enumeration of supported pixel formats.
///
/// The ordinal of a variant (`format as u32`) is the value that the geometry functions take.
#[derive(Copy, Clone, Debug, PartialEq, Eq)]
pub enum PixelFormat {
    /// Packed 8-bit RGB with alpha channel first.
    ///
    /// Each pixel is a four-byte little-endian value.
    /// A, R, G and B are found in bits `7:0`, `15:8`, `23:16` and `31:24` respectively.
    ///
    /// 32 bits per pixel
    Argb,
    /// Packed 8-bit reverse RGB with alpha channel last.
    ///
    /// Each pixel is a four-byte little-endian value.
    /// B, G, R and A are found in bits `7:0`, `15:8`, `23:16` and `31:24` respectively.
    ///
    /// 32 bits per pixel
    Bgra,
    /// Packed 8-bit reverse RGB without alpha channel.
    ///
    /// 24 bits per pixel
    Bgr,
    /// Packed 8-bit RGB with alpha channel last.
    ///
    /// Each pixel is a four-byte little-endian value.
    /// R, G, B and A are found in bits `7:0`, `15:8`, `23:16` and `31:24` respectively.
    ///
    /// 32 bits per pixel
    Rgba,
    /// Packed 8-bit RGB without alpha channel.
    ///
    /// 24 bits per pixel
    Rgb,
    /// Packed 10-bit reverse RGB with alpha channel last.
    ///
    /// Each pixel is a four-byte little-endian value.
    /// B, G, R and A are found in bits `9:0`, `19:10`, `29:20` and `31:30` respectively.
    ///
    /// 32 bits per pixel
    Bgra30,
    /// Packed 10-bit RGB with alpha channel last.
    ///
    /// Each pixel is a four-byte little-endian value.
    /// R, G, B and A are found in bits `9:0`, `19:10`, `29:20` and `31:30` respectively.
    ///
    /// 32 bits per pixel
    Rgba30,
    /// Planar 8-bit YUV with one luma plane Y then 2 chroma planes U and V.
    ///
    /// Chroma planes are not sub-sampled.
    ///
    /// 24 bits per pixel
    I444,
    /// Planar 8-bit YUV with one luma plane Y then 2 chroma planes U, V.
    ///
    /// Chroma planes are sub-sampled in the horizontal dimension, by a factor of 2.
    ///
    /// 16 bits per pixel
    I422,
    /// Planar 8-bit YUV with one luma plane Y then U chroma plane and last the V chroma plane.
    ///
    /// The two chroma planes are sub-sampled in both the horizontal and vertical dimensions by a factor of 2.
    ///
    /// 12 bits per pixel
    I420,
    /// Planar 8-bit YUV with one luma plane Y then one plane with interleaved U and V values.
    ///
    /// Chroma planes are subsampled in both the horizontal and vertical dimensions by a factor of 2.
    ///
    /// Samples in the UV plane are two-byte little-endian values.
    /// U and V are found in bits `7:0` and `15:8` respectively.
    ///
    /// 12 bits per pixel
    Nv12,
    /// Planar 10-bit YUV with one luma plane Y then 2 chroma planes U and V.
    ///
    /// Chroma planes are not sub-sampled.
    ///
    /// Each sample is a two-byte little-endian value.
    /// S is found in bits `9:0`, with bits `15:10` ignored.
    ///
    /// 48 bits per pixel
    P410,
    /// Planar 10-bit YUV with one luma plane Y then 2 chroma planes U and V.
    ///
    /// The two chroma planes are sub-sampled in both the horizontal and vertical
    /// dimensions by a factor of 2.
    ///
    /// Each sample is a two-byte little-endian value.
    /// S is found in bits `9:0`, with bits `15:10` ignored.
    ///
    /// 24 bits per pixel
    P010,
}

/// The pixel format with the given ordinal (meaningful below `NUMBER_OF_PIXEL_FORMATS`).
pub open spec fn format_of(ordinal: u32) -> PixelFormat {
    if ordinal == 0 {
        PixelFormat::Argb
    } else if ordinal == 1 {
        PixelFormat::Bgra
    } else if ordinal == 2 {
        PixelFormat::Bgr
    } else if ordinal == 3 {
        PixelFormat::Rgba
    } else if ordinal == 4 {
        PixelFormat::Rgb
    } else if ordinal == 5 {
        PixelFormat::Bgra30
    } else if ordinal == 6 {
        PixelFormat::Rgba30
    } else if ordinal == 7 {
        PixelFormat::I444
    } else if ordinal == 8 {
        PixelFormat::I422
    } else if ordinal == 9 {
        PixelFormat::I420
    } else if ordinal == 10 {
        PixelFormat::Nv12
    } else if ordinal == 11 {
        PixelFormat::P410
    } else {
        PixelFormat::P010
    }
}

/// Samples of a plane along one axis of `dimension` samples: all of them, half of them where
/// the axis is subsampled (`Some(true)`), none for an absent plane (`None`).
pub open spec fn extent(dimension: u32, subsampled: Option<bool>) -> nat {
    match subsampled {
        Some(true) => dimension as nat / 2,
        Some(false) => dimension as nat,
        None => 0,
    }
}

impl PixelFormat {
    /// All channels interleaved in one plane.
    pub open spec fn is_packed(self) -> bool {
        match self {
            PixelFormat::Argb | PixelFormat::Bgra | PixelFormat::Bgr | PixelFormat::Rgba
            | PixelFormat::Rgb | PixelFormat::Bgra30 | PixelFormat::Rgba30 => true,
            _ => false,
        }
    }

    /// Index of the format's last plane: its number of planes less one.
    pub open spec fn last_plane(self) -> u32 {
        match self {
            PixelFormat::Nv12 => 1,
            PixelFormat::I444 | PixelFormat::I422 | PixelFormat::I420 | PixelFormat::P410
            | PixelFormat::P010 => 2,
            _ => 0,
        }
    }

    /// Number of planes of the format.
    pub open spec fn plane_count(self) -> u32 {
        (self.last_plane() + 1) as u32
    }

    /// The image width must be even.
    pub open spec fn even_width(self) -> bool {
        match self {
            PixelFormat::I422 | PixelFormat::I420 | PixelFormat::Nv12 | PixelFormat::P010 => true,
            _ => false,
        }
    }

    /// The image height must be even.
    pub open spec fn even_height(self) -> bool {
        match self {
            PixelFormat::I420 | PixelFormat::Nv12 | PixelFormat::P010 => true,
            _ => false,
        }
    }

    /// Bytes per sample (per pixel, for packed formats).
    pub open spec fn bytes_per_sample(self) -> u32 {
        match self {
            PixelFormat::Bgr | PixelFormat::Rgb => 3,
            PixelFormat::I444 | PixelFormat::I422 | PixelFormat::I420 | PixelFormat::Nv12 => 1,
            PixelFormat::P410 | PixelFormat::P010 => 2,
            _ => 4,
        }
    }

    /// Whether the rows of `plane` hold half as many samples as the image is wide;
    /// `None` where the format has no such plane.
    pub open spec fn column_subsampled(self, plane: int) -> Option<bool> {
        if plane < 0 || plane > self.last_plane() {
            None
        } else if plane == 0 {
            Some(false)
        } else {
            match self {
                PixelFormat::I422 | PixelFormat::I420 | PixelFormat::P010 => Some(true),
                _ => Some(false),
            }
        }
    }

    /// Whether `plane` has half as many rows as the image is high;
    /// `None` where the format has no such plane.
    pub open spec fn row_subsampled(self, plane: int) -> Option<bool> {
        if plane < 0 || plane > self.last_plane() {
            None
        } else if plane == 0 {
            Some(false)
        } else {
            match self {
                PixelFormat::I420 | PixelFormat::Nv12 | PixelFormat::P010 => Some(true),
                _ => Some(false),
            }
        }
    }

    /// The format descriptor: last plane index, parity requirements and bytes per sample,
    /// packed into one integer.
    pub open spec fn pf_descriptor(self) -> nat {
        (self.last_plane() + 4 * (if self.even_width() {
            1nat
        } else {
            0nat
        }) + 8 * (if self.even_height() {
            1nat
        } else {
            0nat
        }) + 16 * self.bytes_per_sample()) as nat
    }

    /// The stride descriptor: one field per plane, from `column_subsampled`.
    pub open spec fn stride_descriptor(self) -> nat {
        plane_descriptor(
            shift_field(self.column_subsampled(0)),
            shift_field(self.column_subsampled(1)),
            shift_field(self.column_subsampled(2)),
            shift_field(self.column_subsampled(3)),
        )
    }

    /// The height descriptor: one field per plane, from `row_subsampled`.
    pub open spec fn height_descriptor(self) -> nat {
        plane_descriptor(
            shift_field(self.row_subsampled(0)),
            shift_field(self.row_subsampled(1)),
            shift_field(self.row_subsampled(2)),
            shift_field(self.row_subsampled(3)),
        )
    }
}

/// The descriptor field of a plane: how far a dimension is shifted right for it, or
/// `PLANE_ABSENT`.
pub open spec fn shift_field(subsampled: Option<bool>) -> nat {
    match subsampled {
        Some(true) => 1,
        Some(false) => 0,
        None => PLANE_ABSENT as nat,
    }
}

/// Four six-bit plane fields packed into one integer, plane 0 lowest.
pub open spec fn plane_descriptor(f0: nat, f1: nat, f2: nat, f3: nat) -> nat {
    f0 + 64 * f1 + 4096 * f2 + 262144 * f3
}

/// The six-bit field of `plane` in a plane descriptor.
pub open spec fn descriptor_field(descriptor: nat, plane: nat) -> nat {
    (descriptor / pow2(6 * plane)) % 64
}

/// Builds a format descriptor: bits 0-1 hold the last plane index, bit 2 the even-width
/// requirement, bit 3 the even-height requirement, bits 4 and up the bytes per sample.
pub(crate) fn make_pf_spec(planes: u32, width: u32, height: u32, byte_count: u32) -> (r: u32)
    requires
        planes < 4,
        width < 2,
        height < 2,
        byte_count < 0x1000_0000,
    ensures
        r == planes + 4 * width + 8 * height + 16 * byte_count,
{
    assert((byte_count << 4) | (height << 3) | (width << 2) | planes == planes + 4 * width + 8
        * height + 16 * byte_count) by (bit_vector)
        requires
            planes < 4,
            width < 2,
            height < 2,
            byte_count < 0x1000_0000,
    ;
    (byte_count << 4) | (height << 3) | (width << 2) | planes
}

/// Builds a plane descriptor from four six-bit fields, plane 0 in the lowest bits.
pub(crate) fn make_plane_spec(plane0: u32, plane1: u32, plane2: u32, plane3: u32) -> (r: u32)
    requires
        plane0 < 64,
        plane1 < 64,
        plane2 < 64,
        plane3 < 64,
    ensures
        r == plane_descriptor(plane0 as nat, plane1 as nat, plane2 as nat, plane3 as nat),
{
    assert((plane3 << 18) | (plane2 << 12) | (plane1 << 6) | plane0 == plane0 + 64 * plane1 + 4096
        * plane2 + 262144 * plane3) by (bit_vector)
        requires
            plane0 < 64,
            plane1 < 64,
            plane2 < 64,
            plane3 < 64,
    ;
    (plane3 << 18) | (plane2 << 12) | (plane1 << 6) | plane0
}

/// The descriptor of each format in the registry, by ordinal.
pub(crate) fn pf_spec_of(pixel_format: u32) -> (r: u32)
    requires
        pixel_format < NUMBER_OF_PIXEL_FORMATS,
    ensures
        r == format_of(pixel_format).pf_descriptor(),
{
    match pixel_format {
        0 => make_pf_spec(0, 0, 0, 4),  // Argb
        1 => make_pf_spec(0, 0, 0, 4),  // Bgra
        2 => make_pf_spec(0, 0, 0, 3),  // Bgr
        3 => make_pf_spec(0, 0, 0, 4),  // Rgba
        4 => make_pf_spec(0, 0, 0, 3),  // Rgb
        5 => make_pf_spec(0, 0, 0, 4),  // Bgra30
        6 => make_pf_spec(0, 0, 0, 4),  // Rgba30
        7 => make_pf_spec(2, 0, 0, 1),  // I444
        8 => make_pf_spec(2, 1, 0, 1),  // I422
        9 => make_pf_spec(2, 1, 1, 1),  // I420
        10 => make_pf_spec(1, 1, 1, 1),  // Nv12
        11 => make_pf_spec(2, 0, 0, 2),  // P410
        _ => make_pf_spec(2, 1, 1, 2),  // P010
    }
}

/// The stride descriptor of each format in the registry, by ordinal.
pub(crate) fn stride_spec_of(pixel_format: u32) -> (r: u32)
    requires
        pixel_format < NUMBER_OF_PIXEL_FORMATS,
    ensures
        r == format_of(pixel_format).stride_descriptor(),
{
    let a = PLANE_ABSENT;
    match pixel_format {
        0 => make_plane_spec(0, a, a, a),  // Argb
        1 => make_plane_spec(0, a, a, a),  // Bgra
        2 => make_plane_spec(0, a, a, a),  // Bgr
        3 => make_plane_spec(0, a, a, a),  // Rgba
        4 => make_plane_spec(0, a, a, a),  // Rgb
        5 => make_plane_spec(0, a, a, a),  // Bgra30
        6 => make_plane_spec(0, a, a, a),  // Rgba30
        7 => make_plane_spec(0, 0, 0, a),  // I444
        8 => make_plane_spec(0, 1, 1, a),  // I422
        9 => make_plane_spec(0, 1, 1, a),  // I420
        10 => make_plane_spec(0, 0, a, a),  // Nv12
        11 => make_plane_spec(0, 0, 0, a),  // P410
        _ => make_plane_spec(0, 1, 1, a),  // P010
    }
}

/// The height descriptor of each format in the registry, by ordinal.
pub(crate) fn height_spec_of(pixel_format: u32) -> (r: u32)
    requires
        pixel_format < NUMBER_OF_PIXEL_FORMATS,
    ensures
        r == format_of(pixel_format).height_descriptor(),
{
    let a = PLANE_ABSENT;
    match pixel_format {
        0 => make_plane_spec(0, a, a, a),  // Argb
        1 => make_plane_spec(0, a, a, a),  // Bgra
        2 => make_plane_spec(0, a, a, a),  // Bgr
        3 => make_plane_spec(0, a, a, a),  // Rgba
        4 => make_plane_spec(0, a, a, a),  // Rgb
        5 => make_plane_spec(0, a, a, a),  // Bgra30
        6 => make_plane_spec(0, a, a, a),  // Rgba30
        7 => make_plane_spec(0, 0, 0, a),  // I444
        8 => make_plane_spec(0, 0, 0, a),  // I422
        9 => make_plane_spec(0, 1, 1, a),  // I420
        10 => make_plane_spec(0, 1, a, a),  // Nv12
        11 => make_plane_spec(0, 0, 0, a),  // P410
        _ => make_plane_spec(0, 1, 1, a),  // P010
    }
}

/// The even-width requirement of a format descriptor (bit 2).
pub(crate) fn get_pf_width(pf: u32) -> (r: u32)
    ensures
        r == (pf / 4) % 2,
{
    assert((pf >> 2) & 1 == (pf / 4) % 2) by (bit_vector);
    (pf >> 2) & 1
}

/// The even-height requirement of a format descriptor (bit 3).
pub(crate) fn get_pf_height(pf: u32) -> (r: u32)
    ensures
        r == (pf / 8) % 2,
{
    assert((pf >> 3) & 1 == (pf / 8) % 2) by (bit_vector);
    (pf >> 3) & 1
}

/// The bytes per sample of a format descriptor (bits 4 and up).
pub(crate) fn get_pf_byte_count(pf: u32) -> (r: u32)
    ensures
        r == pf / 16,
{
    assert(pf >> 4 == pf / 16) by (bit_vector);
    pf >> 4
}

/// The last plane index of a format descriptor (bits 0-1).
pub(crate) fn get_pf_planes(pf: u32) -> (r: u32)
    ensures
        r == pf % 4,
{
    assert(pf & 3 == pf % 4) by (bit_vector);
    pf & 3
}

/// The six-bit field of `plane` in a plane descriptor.
pub(crate) fn get_plane_value(bpp: u32, plane: u32) -> (r: u32)
    requires
        plane < 4,
    ensures
        r == descriptor_field(bpp as nat, plane as nat),
{
    let shift: u32 = 6 * plane;
    let v = bpp >> shift;
    proof {
        lemma_u32_shr_is_div(bpp, shift);
    }
    assert(v & 0x3F == v % 64) by (bit_vector);
    v & 0x3F
}

/// One for a plane that the descriptor holds, zero for an absent one.
pub(crate) fn get_plane_mask(bpp: u32, plane: u32) -> (r: usize)
    requires
        plane < 4,
    ensures
        r == if descriptor_field(bpp as nat, plane as nat) == PLANE_ABSENT {
            0usize
        } else {
            1usize
        },
{
    (PLANE_ABSENT != get_plane_value(bpp, plane)) as usize
}

/// `dimension` shifted right by the field of `plane`; zero where the field is
/// `PLANE_ABSENT` or larger.
pub(crate) fn get_plane_spec(dimension: u32, bpp: u32, plane: u32) -> (r: usize)
    requires
        plane < 4,
    ensures
        r == dimension as nat / pow2(descriptor_field(bpp as nat, plane as nat)),
{
    let v = get_plane_value(bpp, plane);
    if v >= PLANE_ABSENT {
        proof {
            lemma2_to64();
            if v > 32 {
                lemma_pow2_strictly_increases(32, v as nat);
            }
            assert(dimension as nat / pow2(v as nat) == 0) by (nonlinear_arith)
                requires
                    pow2(v as nat) >= 0x1_0000_0000,
                    dimension < 0x1_0000_0000,
            ;
        }
        0
    } else {
        proof {
            lemma_u32_shr_is_div(dimension, v);
        }
        (dimension >> v) as usize
    }
}

/// The fields of a format descriptor hold the format's plane count, parity requirements and
/// bytes per sample.
pub(crate) proof fn lemma_pf_fields(f: PixelFormat)
    ensures
        f.pf_descriptor() % 4 == f.last_plane(),
        (f.pf_descriptor() / 4) % 2 == (if f.even_width() {
            1nat
        } else {
            0nat
        }),
        (f.pf_descriptor() / 8) % 2 == (if f.even_height() {
            1nat
        } else {
            0nat
        }),
        f.pf_descriptor() / 16 == f.bytes_per_sample(),
{
}

/// The field of each plane in a format's stride and height descriptors is that plane's shift,
/// or `PLANE_ABSENT`.
pub(crate) proof fn lemma_plane_fields(f: PixelFormat, plane: nat)
    requires
        plane < 4,
    ensures
        descriptor_field(f.stride_descriptor(), plane) == shift_field(f.column_subsampled(plane as int)),
        descriptor_field(f.height_descriptor(), plane) == shift_field(f.row_subsampled(plane as int)),
{
    lemma2_to64();
    assert(6 * plane == 0 || 6 * plane == 6 || 6 * plane == 12 || 6 * plane == 18);
    match f {
        PixelFormat::Argb => {},
        PixelFormat::Bgra => {},
        PixelFormat::Bgr => {},
        PixelFormat::Rgba => {},
        PixelFormat::Rgb => {},
        PixelFormat::Bgra30 => {},
        PixelFormat::Rgba30 => {},
        PixelFormat::I444 => {},
        PixelFormat::I422 => {},
        PixelFormat::I420 => {},
        PixelFormat::Nv12 => {},
        PixelFormat::P410 => {},
        PixelFormat::P010 => {},
    }
}

/// Dividing by two to the power of a plane's descriptor field gives the plane's extent.
pub(crate) proof fn lemma_field_extent(dimension: u32, subsampled: Option<bool>)
    ensures
        dimension as nat / pow2(shift_field(subsampled)) == extent(dimension, subsampled),
{
    lemma2_to64();
    let d = dimension as nat;
    let p = pow2(shift_field(subsampled));
    match subsampled {
        Some(true) => {
            assert(d / p == d / 2) by (nonlinear_arith)
                requires
                    p == 2,
            ;
        },
        Some(false) => {
            assert(d / p == d) by (nonlinear_arith)
                requires
                    p == 1,
            ;
        },
        None => {
            assert(d / p == 0) by (nonlinear_arith)
                requires
                    p == 0x1_0000_0000,
                    d < 0x1_0000_0000,
            ;
        },
    }
}

/// The registry is consistent: a plane is present in a format's stride descriptor, and in its
/// height descriptor, exactly when its index is at most the last plane index that the format
/// descriptor holds.
pub proof fn lemma_descriptors_agree(f: PixelFormat, plane: nat)
    requires
        plane < MAX_NUMBER_OF_PLANES,
    ensures
        descriptor_field(f.stride_descriptor(), plane) != PLANE_ABSENT <==> plane <= f.pf_descriptor()
            % 4,
        descriptor_field(f.height_descriptor(), plane) != PLANE_ABSENT <==> plane <= f.pf_descriptor()
            % 4,
{
    lemma_pf_fields(f);
    lemma_plane_fields(f, plane);
}

} // verus!
