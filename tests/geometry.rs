use color_primitives::{
    are_planes_compatible, get_buffers_size, is_compatible, PixelFormat, DEFAULT_STRIDES,
    MAX_NUMBER_OF_PLANES, NUMBER_OF_PIXEL_FORMATS, STRIDE_AUTO,
};

const ALL_FORMATS: [PixelFormat; 13] = [
    PixelFormat::Argb,
    PixelFormat::Bgra,
    PixelFormat::Bgr,
    PixelFormat::Rgba,
    PixelFormat::Rgb,
    PixelFormat::Bgra30,
    PixelFormat::Rgba30,
    PixelFormat::I444,
    PixelFormat::I422,
    PixelFormat::I420,
    PixelFormat::Nv12,
    PixelFormat::P410,
    PixelFormat::P010,
];

const PACKED: [PixelFormat; 7] = [
    PixelFormat::Argb,
    PixelFormat::Bgra,
    PixelFormat::Bgr,
    PixelFormat::Rgba,
    PixelFormat::Rgb,
    PixelFormat::Bgra30,
    PixelFormat::Rgba30,
];

fn plane_count(format: PixelFormat) -> u32 {
    match format {
        PixelFormat::Nv12 => 2,
        PixelFormat::I444
        | PixelFormat::I422
        | PixelFormat::I420
        | PixelFormat::P410
        | PixelFormat::P010 => 3,
        _ => 1,
    }
}

fn sizes(format: PixelFormat, width: u32, height: u32, last_plane: u32, strides: &[usize]) -> [usize; 4] {
    let mut buffers_size = [0usize; MAX_NUMBER_OF_PLANES];
    assert!(get_buffers_size(
        format as u32,
        width,
        height,
        last_plane,
        strides,
        &mut buffers_size
    ));
    buffers_size
}

#[test]
fn ordinals_are_stable() {
    assert_eq!(NUMBER_OF_PIXEL_FORMATS as usize, ALL_FORMATS.len());
    for (i, format) in ALL_FORMATS.iter().enumerate() {
        assert_eq!(*format as usize, i);
    }
    assert_eq!(DEFAULT_STRIDES, [STRIDE_AUTO; MAX_NUMBER_OF_PLANES]);
}

#[test]
fn bgra_packed_size() {
    let s = sizes(PixelFormat::Bgra, 4, 4, 0, &DEFAULT_STRIDES);
    assert_eq!(s[0], 64);
    assert_eq!(&s[1..], &[0, 0, 0]);
}

#[test]
fn packed_sizes_by_bytes_per_pixel() {
    assert_eq!(sizes(PixelFormat::Bgr, 5, 3, 0, &DEFAULT_STRIDES)[0], 45);
    assert_eq!(sizes(PixelFormat::Rgb, 5, 3, 0, &DEFAULT_STRIDES)[0], 45);
    assert_eq!(sizes(PixelFormat::Argb, 5, 3, 0, &DEFAULT_STRIDES)[0], 60);
    assert_eq!(sizes(PixelFormat::Rgba30, 5, 3, 0, &DEFAULT_STRIDES)[0], 60);
}

#[test]
fn nv12_per_plane_sizes() {
    let s = sizes(PixelFormat::Nv12, 4, 4, 1, &DEFAULT_STRIDES);
    assert_eq!(s, [16, 8, 0, 0]);
    assert_eq!(sizes(PixelFormat::Nv12, 4, 4, 0, &DEFAULT_STRIDES)[0], 24);
}

#[test]
fn i420_per_plane_and_combined_sizes() {
    let s = sizes(PixelFormat::I420, 4, 4, 2, &DEFAULT_STRIDES);
    assert_eq!(&s[..3], &[16, 4, 4]);
    let s = sizes(PixelFormat::I420, 4, 4, 0, &DEFAULT_STRIDES);
    assert_eq!(s[0], 24);
}

#[test]
fn planar_sizes_of_other_formats() {
    assert_eq!(&sizes(PixelFormat::I444, 4, 2, 2, &DEFAULT_STRIDES)[..3], &[8, 8, 8]);
    assert_eq!(&sizes(PixelFormat::I422, 4, 2, 2, &DEFAULT_STRIDES)[..3], &[8, 4, 4]);
    assert_eq!(&sizes(PixelFormat::P410, 4, 2, 2, &DEFAULT_STRIDES)[..3], &[16, 16, 16]);
    assert_eq!(&sizes(PixelFormat::P010, 4, 2, 2, &DEFAULT_STRIDES)[..3], &[16, 4, 4]);
    assert_eq!(sizes(PixelFormat::P010, 4, 2, 0, &DEFAULT_STRIDES)[0], 24);
}

#[test]
fn odd_dimensions_round_down_subsampled_planes() {
    assert_eq!(&sizes(PixelFormat::I420, 5, 3, 2, &DEFAULT_STRIDES)[..3], &[15, 2, 2]);
    assert_eq!(&sizes(PixelFormat::Nv12, 5, 3, 1, &DEFAULT_STRIDES)[..2], &[15, 5]);
}

#[test]
fn combined_size_is_sum_of_plane_sizes() {
    let strides_cases: [[usize; 4]; 2] = [DEFAULT_STRIDES, [64, 48, 40, 0]];
    for strides in strides_cases.iter() {
        for format in ALL_FORMATS.iter() {
            for (width, height) in [(2u32, 2u32), (4, 6), (640, 480), (18, 2)] {
                let last = plane_count(*format) - 1;
                let combined = sizes(*format, width, height, 0, strides)[0];
                let per_plane = sizes(*format, width, height, last, strides);
                let sum: usize = per_plane[..(last as usize + 1)].iter().sum();
                assert_eq!(combined, sum);
            }
        }
    }
}

#[test]
fn subsampled_formats_refuse_odd_dimensions() {
    for format in [PixelFormat::I420, PixelFormat::Nv12, PixelFormat::P010] {
        let last = plane_count(format) - 1;
        assert!(is_compatible(format as u32, 4, 4, last));
        assert!(!is_compatible(format as u32, 3, 4, last));
        assert!(!is_compatible(format as u32, 4, 3, last));
        assert!(!is_compatible(format as u32, 5, 7, last));
    }
    let i422 = PixelFormat::I422 as u32;
    assert!(!is_compatible(i422, 3, 4, 2));
    assert!(is_compatible(i422, 4, 3, 2));
}

#[test]
fn unsubsampled_formats_accept_any_dimensions() {
    let mut formats = PACKED.to_vec();
    formats.push(PixelFormat::I444);
    formats.push(PixelFormat::P410);
    for format in formats {
        let last = plane_count(format) - 1;
        for (width, height) in [(1u32, 1u32), (3, 5), (4, 4), (641, 479)] {
            assert!(is_compatible(format as u32, width, height, last));
        }
    }
}

#[test]
fn is_compatible_needs_the_format_last_plane() {
    assert!(!is_compatible(PixelFormat::I420 as u32, 4, 4, 1));
    assert!(!is_compatible(PixelFormat::I420 as u32, 4, 4, 0));
    assert!(!is_compatible(PixelFormat::Bgra as u32, 4, 4, 2));
    assert!(!is_compatible(PixelFormat::Bgra as u32, 4, 4, 65536));
    assert!(is_compatible(PixelFormat::Nv12 as u32, 4, 4, 1));
}

#[test]
fn planes_compatible_only_with_plane_count() {
    for format in ALL_FORMATS.iter() {
        let count = plane_count(*format);
        for n in 0..=(MAX_NUMBER_OF_PLANES as u32) {
            assert_eq!(are_planes_compatible(*format as u32, n), n == count);
        }
        assert!(!are_planes_compatible(*format as u32, u32::MAX));
    }
}

#[test]
fn rejects_last_plane_out_of_bounds() {
    let strides = [STRIDE_AUTO; 8];
    let mut buffers_size = [7usize; 8];
    let bgra = PixelFormat::Bgra as u32;
    assert!(!get_buffers_size(bgra, 4, 4, 4, &strides, &mut buffers_size));
    assert!(!get_buffers_size(bgra, 4, 4, u32::MAX, &strides, &mut buffers_size));
    assert_eq!(buffers_size, [7; 8]);
}

#[test]
fn rejects_short_slices() {
    let i420 = PixelFormat::I420 as u32;
    let mut buffers_size = [7usize; 4];
    assert!(!get_buffers_size(i420, 4, 4, 2, &[STRIDE_AUTO; 2], &mut buffers_size));
    assert!(!get_buffers_size(i420, 4, 4, 0, &[], &mut buffers_size));
    assert_eq!(buffers_size, [7; 4]);
    let mut short = [7usize; 2];
    assert!(!get_buffers_size(i420, 4, 4, 2, &DEFAULT_STRIDES, &mut short));
    assert!(!get_buffers_size(i420, 4, 4, 0, &DEFAULT_STRIDES, &mut []));
    assert_eq!(short, [7; 2]);
}

#[test]
fn shortest_slices_are_enough() {
    let mut one = [0usize; 1];
    assert!(get_buffers_size(PixelFormat::I420 as u32, 4, 4, 0, &[STRIDE_AUTO], &mut one));
    assert_eq!(one, [24]);
    let mut three = [0usize; 3];
    assert!(get_buffers_size(PixelFormat::I420 as u32, 4, 4, 2, &[0, 0, 0], &mut three));
    assert_eq!(three, [16, 4, 4]);
}

#[test]
fn entries_past_last_plane_are_kept() {
    let mut buffers_size = [9usize; 4];
    assert!(get_buffers_size(PixelFormat::Nv12 as u32, 4, 4, 1, &DEFAULT_STRIDES, &mut buffers_size));
    assert_eq!(buffers_size, [16, 8, 9, 9]);
    let mut buffers_size = [9usize; 4];
    assert!(get_buffers_size(PixelFormat::Nv12 as u32, 4, 4, 0, &DEFAULT_STRIDES, &mut buffers_size));
    assert_eq!(buffers_size, [24, 9, 9, 9]);
}

#[test]
fn explicit_first_stride_scales_only_first_plane() {
    for format in PACKED.iter() {
        let derived = sizes(*format, 4, 3, 0, &DEFAULT_STRIDES)[0];
        let padded = sizes(*format, 4, 3, 0, &[64, 0, 0, 0])[0];
        assert_eq!(padded, 64 * 3);
        assert!(padded > derived);
    }
    let derived = sizes(PixelFormat::I420, 4, 4, 2, &DEFAULT_STRIDES);
    let padded = sizes(PixelFormat::I420, 4, 4, 2, &[32, 0, 0, 0]);
    assert_eq!(padded[0], 32 * 4);
    assert_eq!(&padded[1..3], &derived[1..3]);
}

#[test]
fn explicit_strides_of_chroma_planes() {
    let s = sizes(PixelFormat::I420, 4, 4, 2, &[16, 8, 8, 0]);
    assert_eq!(&s[..3], &[64, 16, 16]);
    let s = sizes(PixelFormat::Nv12, 4, 4, 1, &[0, 16]);
    assert_eq!(&s[..2], &[16, 32]);
}

#[test]
fn strides_of_absent_planes_count_for_nothing() {
    assert_eq!(sizes(PixelFormat::Bgra, 4, 4, 0, &[0, 100, 100, 100])[0], 64);
    assert_eq!(sizes(PixelFormat::Nv12, 4, 4, 0, &[0, 0, 100, 100])[0], 24);
}

#[test]
fn zero_dimensions_give_empty_buffers() {
    assert_eq!(sizes(PixelFormat::I420, 0, 0, 0, &DEFAULT_STRIDES)[0], 0);
    assert_eq!(sizes(PixelFormat::Bgra, 0, 7, 0, &DEFAULT_STRIDES)[0], 0);
    assert_eq!(sizes(PixelFormat::Bgra, 7, 0, 0, &[64])[0], 0);
}

#[test]
fn largest_dimensions() {
    let w = u32::MAX;
    let s = sizes(PixelFormat::Bgra, w, 2, 0, &DEFAULT_STRIDES);
    assert_eq!(s[0], (w as usize) * 4 * 2);
    let s = sizes(PixelFormat::I420, w, w, 2, &DEFAULT_STRIDES);
    assert_eq!(s[1], ((w / 2) as usize) * ((w / 2) as usize));
}
