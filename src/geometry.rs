use crate::pixel_format::{
    extent, format_of, get_pf_byte_count, get_pf_height, get_pf_planes, get_pf_width,
    get_plane_mask, get_plane_spec, height_spec_of, lemma_field_extent, lemma_pf_fields,
    lemma_plane_fields, pf_spec_of, stride_spec_of, PixelFormat, MAX_NUMBER_OF_PLANES,
    NUMBER_OF_PIXEL_FORMATS, STRIDE_AUTO,
};
use vstd::prelude::*;

verus! {

/// The width, height and last plane suit the format: the width is even where the format
/// asks for it, so is the height, and `last_plane` is the format's last plane index.
pub open spec fn compatible(f: PixelFormat, width: u32, height: u32, last_plane: u32) -> bool {
    &&& !f.even_width() || width % 2 == 0
    &&& !f.even_height() || height % 2 == 0
    &&& last_plane == f.last_plane()
}

/// The stride of `plane`: the caller's, unless it is missing or `STRIDE_AUTO`; else the bytes
/// of one packed row of the plane (zero for a plane the format does not have).
pub open spec fn effective_stride(f: PixelFormat, width: u32, strides: Seq<usize>, plane: int) -> nat {
    if 0 <= plane < strides.len() && strides[plane] != STRIDE_AUTO {
        strides[plane] as nat
    } else {
        extent(width, f.column_subsampled(plane)) * (f.bytes_per_sample() as nat)
    }
}

/// Bytes of `plane`: its stride times its rows; zero for a plane the format does not have.
pub open spec fn plane_size(
    f: PixelFormat,
    width: u32,
    height: u32,
    strides: Seq<usize>,
    plane: int,
) -> nat {
    effective_stride(f, width, strides, plane) * extent(height, f.row_subsampled(plane))
}

/// Bytes of all planes stored one after another in a single buffer.
pub open spec fn total_size(f: PixelFormat, width: u32, height: u32, strides: Seq<usize>) -> nat {
    plane_size(f, width, height, strides, 0) + plane_size(f, width, height, strides, 1)
        + plane_size(f, width, height, strides, 2) + plane_size(f, width, height, strides, 3)
}

/// Sum of the sizes of planes `0..count`.
pub open spec fn planes_sum(
    f: PixelFormat,
    width: u32,
    height: u32,
    strides: Seq<usize>,
    count: nat,
) -> nat
    decreases count,
{
    if count == 0 {
        0
    } else {
        planes_sum(f, width, height, strides, (count - 1) as nat) + plane_size(
            f,
            width,
            height,
            strides,
            count - 1,
        )
    }
}

/// `get_buffers_size` does its work: `last_plane` is below the plane limit and indexes both
/// slices.
pub open spec fn sizing_accepted(last_plane: u32, strides_len: nat, buffers_len: nat) -> bool {
    &&& last_plane < MAX_NUMBER_OF_PLANES
    &&& last_plane < strides_len
    &&& last_plane < buffers_len
}

/// Every stride, and every size that is asked for, fits in a `usize`.
pub open spec fn sizes_fit(
    f: PixelFormat,
    width: u32,
    height: u32,
    last_plane: u32,
    strides: Seq<usize>,
) -> bool {
    &&& effective_stride(f, width, strides, 0) <= usize::MAX
    &&& effective_stride(f, width, strides, 1) <= usize::MAX
    &&& effective_stride(f, width, strides, 2) <= usize::MAX
    &&& effective_stride(f, width, strides, 3) <= usize::MAX
    &&& last_plane == 0 ==> total_size(f, width, height, strides) <= usize::MAX
    &&& last_plane >= 1 ==> plane_size(f, width, height, strides, 0) <= usize::MAX
    &&& last_plane >= 1 ==> plane_size(f, width, height, strides, 1) <= usize::MAX
    &&& last_plane >= 2 ==> plane_size(f, width, height, strides, 2) <= usize::MAX
    &&& last_plane >= 3 ==> plane_size(f, width, height, strides, 3) <= usize::MAX
}

/// The buffer sizes after a successful sizing: with `last_plane` zero the first entry holds
/// the size of all planes together; else entry `i` holds the size of plane `i` for each `i` up
/// to `last_plane`. Other entries are kept.
pub open spec fn sized_buffers(
    f: PixelFormat,
    width: u32,
    height: u32,
    last_plane: u32,
    strides: Seq<usize>,
    buffers: Seq<usize>,
) -> Seq<usize> {
    if last_plane == 0 {
        buffers.update(0, total_size(f, width, height, strides) as usize)
    } else {
        Seq::new(
            buffers.len(),
            |i: int|
                if i <= last_plane {
                    plane_size(f, width, height, strides, i) as usize
                } else {
                    buffers[i]
                },
        )
    }
}

/// Whether `width`, `height` and `last_plane` suit the format with ordinal `pixel_format`.
pub fn is_compatible(pixel_format: u32, width: u32, height: u32, last_plane: u32) -> (r: bool)
    requires
        pixel_format < NUMBER_OF_PIXEL_FORMATS,
    ensures
        r == compatible(format_of(pixel_format), width, height, last_plane),
{
    let spec = pf_spec_of(pixel_format);
    proof {
        lemma_pf_fields(format_of(pixel_format));
    }
    let w = get_pf_width(spec);
    let h = get_pf_height(spec);
    let p = get_pf_planes(spec);
    let bits = (width & w) | (height & h) | (last_plane ^ p);
    assert(bits == 0 <==> ((w == 0 || width % 2 == 0) && (h == 0 || height % 2 == 0)
        && last_plane == p)) by (bit_vector)
        requires
            w < 2,
            h < 2,
            bits == (width & w) | (height & h) | (last_plane ^ p),
    ;
    bits == 0
}

/// Whether `num_planes` is the number of planes of the format with ordinal `pixel_format`.
pub fn are_planes_compatible(pixel_format: u32, num_planes: u32) -> (r: bool)
    requires
        pixel_format < NUMBER_OF_PIXEL_FORMATS,
    ensures
        r == (num_planes == format_of(pixel_format).plane_count()),
{
    let last_plane = num_planes.wrapping_sub(1);
    let spec = pf_spec_of(pixel_format);
    proof {
        lemma_pf_fields(format_of(pixel_format));
    }
    let p = get_pf_planes(spec);
    assert((last_plane ^ p) == 0 <==> last_plane == p) by (bit_vector);
    (last_plane ^ p) == 0
}

/// The stride of `plane` as `get_buffers_size` derives it from the registry.
fn plane_stride(
    pixel_format: u32,
    width: u32,
    strides: &[usize],
    stride_spec: u32,
    byte_count: usize,
    plane: usize,
) -> (r: usize)
    requires
        pixel_format < NUMBER_OF_PIXEL_FORMATS,
        plane < MAX_NUMBER_OF_PLANES,
        stride_spec == format_of(pixel_format).stride_descriptor(),
        byte_count == format_of(pixel_format).bytes_per_sample(),
        effective_stride(format_of(pixel_format), width, strides@, plane as int) <= usize::MAX,
    ensures
        r == effective_stride(format_of(pixel_format), width, strides@, plane as int),
{
    let ghost f = format_of(pixel_format);
    if plane >= strides.len() || strides[plane] == STRIDE_AUTO {
        let mask = get_plane_mask(stride_spec, plane as u32);
        let columns = get_plane_spec(width, stride_spec, plane as u32);
        proof {
            lemma_plane_fields(f, plane as nat);
            lemma_field_extent(width, f.column_subsampled(plane as int));
            assert(mask * columns == extent(width, f.column_subsampled(plane as int)));
            assert(mask * columns * byte_count == effective_stride(f, width, strides@, plane as int));
        }
        mask * columns * byte_count
    } else {
        strides[plane]
    }
}

/// Rows of `plane` as `get_buffers_size` derives them from the registry.
fn plane_rows(pixel_format: u32, height: u32, height_spec: u32, plane: usize) -> (r: usize)
    requires
        pixel_format < NUMBER_OF_PIXEL_FORMATS,
        plane < MAX_NUMBER_OF_PLANES,
        height_spec == format_of(pixel_format).height_descriptor(),
    ensures
        r == extent(height, format_of(pixel_format).row_subsampled(plane as int)),
{
    proof {
        lemma_plane_fields(format_of(pixel_format), plane as nat);
        lemma_field_extent(height, format_of(pixel_format).row_subsampled(plane as int));
    }
    get_plane_spec(height, height_spec, plane as u32)
}

/// Computes the sizes of the buffers of an image in the format with ordinal `pixel_format`.
///
/// With `last_plane` zero, `buffers_size[0]` gets the size of one buffer that holds all planes;
/// else `buffers_size[i]` gets the size of plane `i` for each `i` up to `last_plane`. A stride
/// of `STRIDE_AUTO`, or one missing from `strides`, asks for packed rows. Returns false, and
/// writes nothing, where `last_plane` is not below `MAX_NUMBER_OF_PLANES` or does not index
/// both slices.
pub fn get_buffers_size(
    pixel_format: u32,
    width: u32,
    height: u32,
    last_plane: u32,
    strides: &[usize],
    buffers_size: &mut [usize],
) -> (r: bool)
    requires
        pixel_format < NUMBER_OF_PIXEL_FORMATS,
        sizing_accepted(last_plane, strides@.len(), old(buffers_size)@.len()) ==> sizes_fit(
            format_of(pixel_format),
            width,
            height,
            last_plane,
            strides@,
        ),
    ensures
        r == sizing_accepted(last_plane, strides@.len(), old(buffers_size)@.len()),
        final(buffers_size)@ == if r {
            sized_buffers(
                format_of(pixel_format),
                width,
                height,
                last_plane,
                strides@,
                old(buffers_size)@,
            )
        } else {
            old(buffers_size)@
        },
{
    let last_plane = last_plane as usize;
    if last_plane >= MAX_NUMBER_OF_PLANES || last_plane >= strides.len() || last_plane
        >= buffers_size.len() {
        return false;
    }
    let ghost f = format_of(pixel_format);
    let pf_spec = pf_spec_of(pixel_format);
    proof {
        lemma_pf_fields(f);
    }
    let byte_count = get_pf_byte_count(pf_spec) as usize;

    let stride_spec = stride_spec_of(pixel_format);
    let mut stride: [usize; MAX_NUMBER_OF_PLANES] = [0usize; MAX_NUMBER_OF_PLANES];
    let mut i: usize = 0;
    while i < MAX_NUMBER_OF_PLANES
        invariant
            i <= MAX_NUMBER_OF_PLANES,
            pixel_format < NUMBER_OF_PIXEL_FORMATS,
            f == format_of(pixel_format),
            stride_spec == f.stride_descriptor(),
            byte_count == f.bytes_per_sample(),
            sizes_fit(f, width, height, last_plane as u32, strides@),
            forall|j: int| 0 <= j < i ==> stride[j] == effective_stride(f, width, strides@, j),
        decreases MAX_NUMBER_OF_PLANES - i,
    {
        stride[i] = plane_stride(pixel_format, width, strides, stride_spec, byte_count, i);
        i += 1;
    }

    let height_spec = height_spec_of(pixel_format);
    if last_plane == 0 {
        let rows0 = plane_rows(pixel_format, height, height_spec, 0);
        let rows1 = plane_rows(pixel_format, height, height_spec, 1);
        let rows2 = plane_rows(pixel_format, height, height_spec, 2);
        let rows3 = plane_rows(pixel_format, height, height_spec, 3);
        assert(stride[0] * rows0 == plane_size(f, width, height, strides@, 0));
        assert(stride[1] * rows1 == plane_size(f, width, height, strides@, 1));
        assert(stride[2] * rows2 == plane_size(f, width, height, strides@, 2));
        assert(stride[3] * rows3 == plane_size(f, width, height, strides@, 3));
        buffers_size[0] = ((stride[0] * rows0) + (stride[1] * rows1)) + ((stride[2] * rows2) + (
        stride[3] * rows3));
    } else {
        let mut i: usize = 0;
        while i <= last_plane
            invariant
                0 < last_plane < MAX_NUMBER_OF_PLANES,
                last_plane < buffers_size@.len(),
                i <= last_plane + 1,
                pixel_format < NUMBER_OF_PIXEL_FORMATS,
                f == format_of(pixel_format),
                height_spec == f.height_descriptor(),
                sizes_fit(f, width, height, last_plane as u32, strides@),
                forall|j: int| 0 <= j < 4 ==> stride[j] == effective_stride(f, width, strides@, j),
                buffers_size@.len() == old(buffers_size)@.len(),
                forall|j: int|
                    0 <= j < buffers_size@.len() ==> #[trigger] buffers_size@[j] == if j < i {
                        plane_size(f, width, height, strides@, j) as usize
                    } else {
                        old(buffers_size)@[j]
                    },
            decreases last_plane + 1 - i,
        {
            let rows = plane_rows(pixel_format, height, height_spec, i);
            assert(plane_size(f, width, height, strides@, i as int) <= usize::MAX);
            assert(stride[i as int] * rows == plane_size(f, width, height, strides@, i as int));
            buffers_size[i] = stride[i] * rows;
            i += 1;
        }
        assert(buffers_size@ =~= sized_buffers(
            f,
            width,
            height,
            last_plane as u32,
            strides@,
            old(buffers_size)@,
        ));
    }
    true
}

/// Sizing all planes into one buffer gives the sum of the sizes that sizing each of the
/// format's planes on its own gives.
pub proof fn lemma_combined_size_is_sum_of_planes(
    pixel_format: u32,
    width: u32,
    height: u32,
    strides: Seq<usize>,
)
    requires
        pixel_format < NUMBER_OF_PIXEL_FORMATS,
    ensures
        total_size(format_of(pixel_format), width, height, strides) == planes_sum(
            format_of(pixel_format),
            width,
            height,
            strides,
            format_of(pixel_format).plane_count() as nat,
        ),
{
    let f = format_of(pixel_format);
    reveal_with_fuel(planes_sum, 5);
    assert(f.plane_count() <= 3);
    assert(extent(height, f.row_subsampled(3)) == 0);
    assert(plane_size(f, width, height, strides, 3) == 0);
    if f.plane_count() <= 2 {
        assert(extent(height, f.row_subsampled(2)) == 0);
        assert(plane_size(f, width, height, strides, 2) == 0);
    }
    if f.plane_count() == 1 {
        assert(extent(height, f.row_subsampled(1)) == 0);
        assert(plane_size(f, width, height, strides, 1) == 0);
    }
}

/// Formats subsampled on both axes (I420, Nv12, P010) refuse every odd width and every odd
/// height; formats without subsampling (the packed ones, I444 and P410) accept every width and
/// height together with their own last plane.
pub proof fn lemma_parity_rules(width: u32, height: u32, last_plane: u32)
    ensures
        width % 2 == 1 || height % 2 == 1 ==> {
            &&& !compatible(PixelFormat::I420, width, height, last_plane)
            &&& !compatible(PixelFormat::Nv12, width, height, last_plane)
            &&& !compatible(PixelFormat::P010, width, height, last_plane)
        },
        forall|f: PixelFormat|
            f.is_packed() || f == PixelFormat::I444 || f == PixelFormat::P410 ==> #[trigger] compatible(
                f,
                width,
                height,
                f.last_plane(),
            ),
{
}

/// An explicit stride for the first plane, larger than the derived one, makes that plane's
/// size its stride times the height, grows the total by the difference of the strides times
/// the height, and leaves the size of every other plane as it was.
pub proof fn lemma_explicit_first_stride(
    pixel_format: u32,
    width: u32,
    height: u32,
    strides: Seq<usize>,
    stride: usize,
)
    requires
        pixel_format < NUMBER_OF_PIXEL_FORMATS,
        strides.len() >= 1,
        strides[0] == STRIDE_AUTO,
        stride > effective_stride(format_of(pixel_format), width, strides, 0),
    ensures
        ({
            let f = format_of(pixel_format);
            let explicit = strides.update(0, stride);
            let derived = effective_stride(f, width, strides, 0);
            &&& plane_size(f, width, height, explicit, 0) == stride * height
            &&& plane_size(f, width, height, strides, 0) == derived * height
            &&& forall|p: int|
                1 <= p < MAX_NUMBER_OF_PLANES ==> #[trigger] plane_size(f, width, height, explicit, p)
                    == plane_size(f, width, height, strides, p)
            &&& total_size(f, width, height, explicit) == total_size(f, width, height, strides) + (
            stride - derived) * height
        }),
{
    let f = format_of(pixel_format);
    let explicit = strides.update(0, stride);
    let derived = effective_stride(f, width, strides, 0);
    assert(extent(height, f.row_subsampled(0)) == height);
    assert forall|p: int| 1 <= p < MAX_NUMBER_OF_PLANES implies #[trigger] plane_size(
        f,
        width,
        height,
        explicit,
        p,
    ) == plane_size(f, width, height, strides, p) by {
        assert(effective_stride(f, width, explicit, p) == effective_stride(f, width, strides, p));
    }
    assert(stride * height - derived * height == (stride - derived) * height) by (nonlinear_arith);
}

} // verus!
