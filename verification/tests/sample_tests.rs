use image_sample::convolve::filter3x3;
use image_sample::filter::{copy_if_same_size, FilterType};
use image_sample::image::Image;
use image_sample::sample::{horizontal_sample, vertical_sample};
use image_sample::thumbnail::{
    thumbnail, thumbnail_bounds, thumbnail_column_sums, thumbnail_fits, thumbnail_row_sums,
    thumbnail_sample_block, FractionRequest, Span, ThumbnailFraction, ThumbnailSum,
};
use image_sample::unsharpen::{unsharpen, unsharpen_component};
use image_sample::utils::{clamp_i32, clamp_i64, clamp_u32};
use image_sample::window::{bilinear_corners, bilinear_neighbours, sample_window};

fn rgba(r: u16, g: u16, b: u16, a: u16) -> [u16; 4] {
    [r, g, b, a]
}

/// The 2x2 image of the bilinear and nearest sampling tests: red, blue on top, green,
/// alpha below.
fn corners_image() -> Image<[u16; 4]> {
    Image::from_pixels(
        2,
        2,
        vec![
            rgba(255, 0, 0, 0),
            rgba(0, 0, 255, 0),
            rgba(0, 255, 0, 0),
            rgba(0, 0, 0, 255),
        ],
    )
    .unwrap()
}

fn gradient(width: u32, height: u32) -> Image<[u16; 4]> {
    let mut pixels = Vec::new();
    for y in 0..height {
        for x in 0..width {
            pixels.push(rgba((x * 10) as u16, (y * 10) as u16, (x + y) as u16, 255));
        }
    }
    Image::from_pixels(width, height, pixels).unwrap()
}

#[test]
fn filter_supports() {
    assert_eq!(FilterType::Nearest.support(), 0);
    assert_eq!(FilterType::Triangle.support(), 1);
    assert_eq!(FilterType::CatmullRom.support(), 2);
    assert_eq!(FilterType::Gaussian.support(), 3);
    assert_eq!(FilterType::Lanczos3.support(), 3);
}

#[test]
fn clamps() {
    assert_eq!(clamp_i64(-5, 0, 10), 0);
    assert_eq!(clamp_i64(15, 0, 10), 10);
    assert_eq!(clamp_i64(7, 0, 10), 7);
    assert_eq!(clamp_i64(3, 5, 2), 5);
    assert_eq!(clamp_i64(9, 5, 2), 2);
    assert_eq!(clamp_u32(3, 4, 9), 4);
    assert_eq!(clamp_u32(30, 4, 9), 9);
    assert_eq!(clamp_i32(-1, 0, 255), 0);
    assert_eq!(clamp_i32(300, 0, 255), 255);
}

#[test]
fn image_basics() {
    let mut img = Image::new(3, 2, 7u8);
    assert_eq!(img.dimensions(), (3, 2));
    assert_eq!(img.get_pixel(2, 1), 7);
    img.put_pixel(1, 1, 9);
    assert_eq!(img.get_pixel(1, 1), 9);
    assert_eq!(img.get_pixel(1, 0), 7);
    assert_eq!(img.as_pixels(), &vec![7, 7, 7, 7, 9, 7]);
    let copy = img.duplicate();
    assert_eq!(copy.into_pixels(), vec![7, 7, 7, 7, 9, 7]);
    assert!(Image::from_pixels(2, 2, vec![1u8, 2, 3]).is_none());
    assert!(Image::from_pixels(0, 5, Vec::<u8>::new()).is_some());
    assert!(Image::from_pixels(0, 5, vec![1u8]).is_none());
    let img = Image::from_pixels(2, 3, vec![1u8, 2, 3, 4, 5, 6]).unwrap();
    assert_eq!(img.get_pixel(0, 2), 5);
    assert_eq!(img.get_pixel(1, 1), 4);
    assert_eq!(img.width(), 2);
    assert_eq!(img.height(), 3);
}

#[test]
fn sample_window_inside_line() {
    assert_eq!(sample_window(-3, 2, 10), (0, 2));
    assert_eq!(sample_window(4, 7, 10), (4, 7));
    assert_eq!(sample_window(12, 20, 10), (9, 10));
    assert_eq!(sample_window(5, 5, 10), (5, 6));
    assert_eq!(sample_window(5, 2, 10), (5, 6));
    assert_eq!(sample_window(-100, 100, 1), (0, 1));
    for lf in -4i64..14 {
        for rc in -4i64..14 {
            let (l, r) = sample_window(lf, rc, 10);
            assert!(l < r && r <= 10);
        }
    }
}

#[test]
fn sample_window_empty_line() {
    assert_eq!(sample_window(0, 0, 0), (u32::MAX, 0));
    assert_eq!(sample_window(3, 9, 0), (u32::MAX, 0));
    assert_eq!(sample_window(-3, 2, 0), (0, 0));
    assert_eq!(sample_window(-3, 0, 0), (0, 1));
}

#[test]
fn bilinear_neighbours_stay_inside() {
    assert_eq!(bilinear_neighbours(0, 0, 2, 2), (1, 1));
    assert_eq!(bilinear_neighbours(1, 1, 2, 2), (1, 1));
    assert_eq!(bilinear_neighbours(0, 0, 1, 1), (0, 0));
    assert_eq!(bilinear_neighbours(3, 0, 10, 5), (4, 1));
}

#[test]
fn bilinear_corners_of_small_image() {
    let img = corners_image();
    assert_eq!(
        bilinear_corners(&img, 0, 0),
        [
            rgba(255, 0, 0, 0),
            rgba(0, 255, 0, 0),
            rgba(0, 0, 255, 0),
            rgba(0, 0, 0, 255)
        ]
    );
    assert_eq!(bilinear_corners(&img, 1, 1), [rgba(0, 0, 0, 255); 4]);
    assert_eq!(
        bilinear_corners(&img, 1, 0),
        [
            rgba(0, 0, 255, 0),
            rgba(0, 0, 0, 255),
            rgba(0, 0, 255, 0),
            rgba(0, 0, 0, 255)
        ]
    );
}

#[test]
fn thumbnail_sum_accumulates() {
    let mut s = ThumbnailSum::zeroed();
    assert_eq!((s.0, s.1, s.2, s.3), (0, 0, 0, 0));
    s.add_pixel(rgba(1, 2, 3, 4));
    s.add_pixel(rgba(255, 255, 255, 255));
    assert_eq!((s.0, s.1, s.2, s.3), (256, 257, 258, 259));
    assert_eq!(ThumbnailSum::sample_val(200), 200);
}

#[test]
fn block_average_rounds_to_nearest() {
    let img = corners_image();
    // (255 + 0 + 0 + 0 + 2) / 4 = 64, as in the bilinear sampling test's centre.
    assert_eq!(thumbnail_sample_block(&img, 0, 2, 0, 2), [64, 64, 64, 64]);
    // Halves round up: (255 + 0 + 1) / 2 = 128.
    assert_eq!(thumbnail_sample_block(&img, 0, 2, 0, 1), [128, 0, 128, 0]);
    assert_eq!(thumbnail_sample_block(&img, 0, 1, 0, 2), [128, 128, 0, 0]);
    assert_eq!(thumbnail_sample_block(&img, 1, 2, 1, 2), [0, 0, 0, 255]);
    let g = gradient(4, 4);
    // columns 1..3, rows 2..4: r = 10, 20; g = 20, 30; b = 3, 4, 4, 5 -> 16/4 = 4.
    assert_eq!(thumbnail_sample_block(&g, 1, 3, 2, 4), [15, 25, 4, 255]);
}

#[test]
fn block_average_of_uniform_block() {
    let img = Image::new(5, 3, rgba(17, 200, 3, 99));
    assert_eq!(thumbnail_sample_block(&img, 0, 5, 0, 3), rgba(17, 200, 3, 99));
    assert_eq!(thumbnail_sample_block(&img, 2, 4, 1, 2), rgba(17, 200, 3, 99));
}

#[test]
fn block_average_of_large_white_block() {
    let img = Image::new(64, 64, rgba(255, 255, 255, 255));
    assert_eq!(thumbnail_sample_block(&img, 0, 64, 0, 64), rgba(255, 255, 255, 255));
    let img = Image::new(64, 64, rgba(65535, 0, 1, 2));
    assert_eq!(thumbnail_sample_block(&img, 0, 64, 0, 64), rgba(65535, 0, 1, 2));
}

#[test]
fn accumulator_limit_depends_on_the_pixels() {
    let cols = vec![Span { low: 0, high: 300 }];
    let rows = vec![Span { low: 0, high: 300 }];
    // 90000 white u16 pixels sum past u32::MAX; black ones do not.
    let white = Image::new(300, 300, rgba(65535, 65535, 65535, 65535));
    assert!(!thumbnail_fits(&white, &cols, &rows));
    let black = Image::new(300, 300, rgba(0, 0, 0, 0));
    assert!(thumbnail_fits(&black, &cols, &rows));
    assert_eq!(thumbnail(&black, 1, 1, &cols, &rows, no_mix).into_pixels(), vec![rgba(0, 0, 0, 0)]);
    // One white channel in 300 x 300 overflows only that channel.
    let mut one = Image::new(300, 300, rgba(0, 0, 0, 0));
    one.put_pixel(0, 0, rgba(65535, 0, 0, 0));
    assert!(thumbnail_fits(&one, &cols, &rows));
    assert_eq!(thumbnail(&one, 1, 1, &cols, &rows, no_mix).into_pixels(), vec![rgba(1, 0, 0, 0)]);
    // A window edge that ends before the first pixel cannot be built from.
    assert!(!thumbnail_fits(&black, &vec![Span { low: 0, high: 0 }], &rows));
}

#[test]
fn fraction_sums_limit() {
    // Between columns 0 and 1 over 300 rows: white sums overflow, dark ones fit.
    let cols = vec![Span { low: 1, high: 1 }];
    let rows = vec![Span { low: 0, high: 70000 }];
    let white = Image::new(2, 70000, rgba(65535, 0, 0, 0));
    assert!(!thumbnail_fits(&white, &cols, &rows));
    let grey = Image::new(2, 70000, rgba(10, 0, 0, 0));
    assert!(thumbnail_fits(&grey, &cols, &rows));
}

#[test]
fn column_and_row_sums() {
    let g = gradient(3, 3);
    let (l, r) = thumbnail_column_sums(&g, 1, 0, 3);
    assert_eq!((l.0, l.1, l.2, l.3), (30, 30, 6, 765));
    assert_eq!((r.0, r.1, r.2, r.3), (60, 30, 9, 765));
    let (b, t) = thumbnail_row_sums(&g, 0, 2, 1);
    assert_eq!((b.0, b.1, b.2, b.3), (10, 20, 3, 510));
    assert_eq!((t.0, t.1, t.2, t.3), (10, 40, 5, 510));
    let (e, _) = thumbnail_column_sums(&g, 0, 2, 2);
    assert_eq!((e.0, e.1, e.2, e.3), (0, 0, 0, 0));
}

#[test]
fn thumbnail_bounds_clamp() {
    assert_eq!(thumbnail_bounds(Span { low: 2, high: 4 }, 8), (2, 4));
    assert_eq!(thumbnail_bounds(Span { low: 9, high: 12 }, 8), (7, 8));
    assert_eq!(thumbnail_bounds(Span { low: 3, high: 1 }, 8), (3, 3));
    assert_eq!(thumbnail_bounds(Span { low: 8, high: 8 }, 8), (7, 8));
}

fn no_mix(_: FractionRequest) -> [u16; 4] {
    panic!("no window of a downscale blends pixels")
}

#[test]
fn thumbnail_downscale_averages_blocks() {
    let g = gradient(4, 4);
    let cols = vec![Span { low: 0, high: 2 }, Span { low: 2, high: 4 }];
    let rows = vec![Span { low: 0, high: 2 }, Span { low: 2, high: 4 }];
    let out = thumbnail(&g, 2, 2, &cols, &rows, no_mix);
    assert_eq!(out.dimensions(), (2, 2));
    assert_eq!(out.get_pixel(0, 0), thumbnail_sample_block(&g, 0, 2, 0, 2));
    assert_eq!(out.get_pixel(1, 0), thumbnail_sample_block(&g, 2, 4, 0, 2));
    assert_eq!(out.get_pixel(0, 1), thumbnail_sample_block(&g, 0, 2, 2, 4));
    assert_eq!(out.get_pixel(1, 1), thumbnail_sample_block(&g, 2, 4, 2, 4));
    assert_eq!(out.get_pixel(1, 1), rgba(25, 25, 5, 255));
}

#[test]
fn thumbnail_to_one_pixel() {
    let img = corners_image();
    let out = thumbnail(
        &img,
        1,
        1,
        &vec![Span { low: 0, high: 2 }],
        &vec![Span { low: 0, high: 2 }],
        no_mix,
    );
    assert_eq!(out.into_pixels(), vec![[64, 64, 64, 64]]);
}

#[test]
fn thumbnail_same_size_is_identity() {
    let g = gradient(3, 2);
    let cols: Vec<Span> = (0..3).map(|i| Span { low: i, high: i + 1 }).collect();
    let rows: Vec<Span> = (0..2).map(|i| Span { low: i, high: i + 1 }).collect();
    let out = thumbnail(&g, 3, 2, &cols, &rows, no_mix);
    assert_eq!(out.into_pixels(), g.into_pixels());
}

fn tag(req: FractionRequest) -> [u16; 4] {
    match req.fraction {
        ThumbnailFraction::Horizontal { column, bottom, top, left_sums, right_sums } => [
            1,
            column as u16,
            (top - bottom) as u16,
            (left_sums.0 + right_sums.0) as u16,
        ],
        ThumbnailFraction::Vertical { left, right, row, bottom_sums, top_sums } => [
            2,
            row as u16,
            (right - left) as u16,
            (bottom_sums.1 + top_sums.1) as u16,
        ],
        ThumbnailFraction::Corners { column, row, bottom_left, top_right, .. } => [
            3,
            (column * 10 + row) as u16,
            bottom_left[0],
            top_right[0],
        ],
    }
}

#[test]
fn thumbnail_upscale_hands_fractions_to_mix() {
    let img = corners_image();
    // Output column 0 takes input column 0 whole; column 1 lies between columns 0 and 1.
    let cols = vec![Span { low: 0, high: 1 }, Span { low: 1, high: 1 }];
    let rows = vec![Span { low: 0, high: 2 }, Span { low: 1, high: 1 }];
    let out = thumbnail(&img, 2, 2, &cols, &rows, tag);
    // Whole block: column 0, rows 0..2.
    assert_eq!(out.get_pixel(0, 0), [128, 128, 0, 0]);
    // Window [1, 1) x [0, 2): between columns 0 and 1 over rows 0..2.
    assert_eq!(out.get_pixel(1, 0), [1, 0, 2, 255]);
    // Window [0, 1) x [1, 1): between rows 0 and 1 over column 0.
    assert_eq!(out.get_pixel(0, 1), [2, 0, 1, 255]);
    // Window [1, 1) x [1, 1): among the four pixels.
    assert_eq!(out.get_pixel(1, 1), [3, 0, 255, 0]);
    assert!(thumbnail_fits(&img, &cols, &rows));
}

#[test]
fn thumbnail_of_empty_image() {
    let img = Image::from_pixels(0, 0, Vec::<[u16; 4]>::new()).unwrap();
    let out = thumbnail(&img, 2, 3, &vec![], &vec![], no_mix);
    assert_eq!(out.dimensions(), (2, 3));
    assert!(out.into_pixels().iter().all(|p| *p == [0, 0, 0, 0]));
}

#[test]
fn unsharpen_rule() {
    // Difference 50 over threshold 10: 100 + 50 = 150.
    assert_eq!(unsharpen_component(100, 50, 10, 255), Some(150));
    // Clamped to the maximum and to zero.
    assert_eq!(unsharpen_component(200, 50, 10, 255), Some(255));
    assert_eq!(unsharpen_component(20, 80, 10, 255), Some(0));
    // Small differences keep the original.
    assert_eq!(unsharpen_component(100, 95, 10, 255), None);
    assert_eq!(unsharpen_component(100, 110, 10, 255), None);
}

#[test]
fn unsharpen_combines_pixelwise() {
    let a = Image::from_pixels(2, 1, vec![[100i32, 100, 20, 0], [7, 8, 9, 10]]).unwrap();
    let b = Image::from_pixels(2, 1, vec![[50i32, 95, 80, 0], [7, 30, 9, 10]]).unwrap();
    let out = unsharpen(&a, &b, 10, 255);
    assert_eq!(out.dimensions(), (2, 1));
    assert_eq!(
        out.into_pixels(),
        vec![[Some(150), None, Some(0), None], [None, Some(0), None, None]]
    );
}

#[test]
fn unsharpen_high_threshold_keeps_everything() {
    let a = Image::from_pixels(2, 1, vec![[255i32, 0, 20, 0], [7, 8, 9, 10]]).unwrap();
    let b = Image::from_pixels(2, 1, vec![[0i32, 255, 80, 0], [7, 30, 9, 10]]).unwrap();
    let out = unsharpen(&a, &b, 255, 255);
    assert!(out.into_pixels().iter().all(|p| p.iter().all(|c| c.is_none())));
    // A higher threshold changes a subset, to the same values.
    let low = unsharpen(&a, &b, 10, 255).into_pixels();
    let high = unsharpen(&a, &b, 50, 255).into_pixels();
    for (l, h) in low.iter().zip(high.iter()) {
        for c in 0..4 {
            assert!(h[c].is_none() || h[c] == l[c]);
        }
    }
    assert_eq!(high[0], [Some(255), Some(0), Some(0), None]);
    assert_eq!(low[1], [None, Some(0), None, None]);
    assert_eq!(high[1], [None, None, None, None]);
}

#[test]
fn filter3x3_leaves_border() {
    let img = Image::from_pixels(4, 3, (0u32..12).collect()).unwrap();
    let out = filter3x3(&img, 0u32, |n: [u32; 9]| n.iter().sum::<u32>());
    // inner pixels (1, 1) and (2, 1)
    assert_eq!(out.get_pixel(1, 1), 0 + 1 + 2 + 4 + 5 + 6 + 8 + 9 + 10);
    assert_eq!(out.get_pixel(2, 1), 1 + 2 + 3 + 5 + 6 + 7 + 9 + 10 + 11);
    for (x, y) in [(0, 0), (3, 0), (0, 1), (3, 1), (1, 2), (2, 0)] {
        assert_eq!(out.get_pixel(x, y), 0);
    }
    let centre = filter3x3(&img, 99u32, |n: [u32; 9]| n[4]);
    assert_eq!(centre.into_pixels(), vec![99, 99, 99, 99, 99, 5, 6, 99, 99, 99, 99, 99]);
}

#[test]
fn filter3x3_on_thin_images() {
    let img = Image::from_pixels(0, 2, Vec::<u8>::new()).unwrap();
    assert_eq!(filter3x3(&img, 1u8, |n: [u8; 9]| n[0]).dimensions(), (0, 2));
    let img = Image::from_pixels(2, 2, vec![1u8, 2, 3, 4]).unwrap();
    assert_eq!(filter3x3(&img, 0u8, |n: [u8; 9]| n[0]).into_pixels(), vec![0, 0, 0, 0]);
}

#[test]
fn horizontal_pass_reads_windows() {
    let img = Image::from_pixels(4, 2, vec![1u32, 2, 3, 4, 10, 20, 30, 40]).unwrap();
    let edges = vec![(-1i64, 2i64), (1, 9)];
    let out = horizontal_sample(&img, 2, &edges, 0u32, |k: u32, v: Vec<u32>| {
        k * 1000 + v.iter().sum::<u32>()
    });
    assert_eq!(out.dimensions(), (2, 2));
    assert_eq!(out.into_pixels(), vec![3, 1009, 30, 1090]);
}

#[test]
fn vertical_pass_reads_windows() {
    let img = Image::from_pixels(2, 3, vec![1u32, 10, 2, 20, 3, 30]).unwrap();
    let edges = vec![(0i64, 1i64), (1, 3), (5, 5)];
    let out = vertical_sample(&img, 3, &edges, 0u32, |k: u32, v: Vec<u32>| {
        k * 1000 + v.iter().sum::<u32>() * 10 + v.len() as u32
    });
    assert_eq!(out.dimensions(), (2, 3));
    assert_eq!(out.into_pixels(), vec![11, 101, 1052, 1502, 2031, 2301]);
}

#[test]
fn passes_over_empty_lines() {
    let img = Image::from_pixels(0, 2, Vec::<u32>::new()).unwrap();
    let out = horizontal_sample(&img, 3, &vec![(0, 0), (0, 2), (-1, 2)], 7u32, |_k: u32, v: Vec<u32>| {
        v.len() as u32
    });
    assert_eq!(out.into_pixels(), vec![0, 0, 0, 0, 0, 0]);
    // With no rows to read, any window is accepted.
    let img = Image::from_pixels(0, 0, Vec::<u32>::new()).unwrap();
    let out = horizontal_sample(&img, 2, &vec![(-1, 0), (-1, 0)], 7u32, |_k: u32, v: Vec<u32>| {
        v.len() as u32
    });
    assert_eq!(out.dimensions(), (2, 0));
}

#[test]
fn resize_to_same_size_copies() {
    let g = gradient(3, 2);
    let copy = copy_if_same_size(&g, 3, 2).unwrap();
    assert_eq!(copy.into_pixels(), g.duplicate().into_pixels());
    assert!(copy_if_same_size(&g, 2, 3).is_none());
    assert!(copy_if_same_size(&g, 3, 3).is_none());
}

#[test]
fn tiling_windows_partition_line() {
    // Spans that tile a line of 10 pixels into 3 windows.
    let spans = [Span { low: 0, high: 4 }, Span { low: 4, high: 7 }, Span { low: 7, high: 10 }];
    for p in 0..10u32 {
        let n = spans
            .iter()
            .filter(|s| {
                let (l, r) = thumbnail_bounds(**s, 10);
                l <= p && p < r
            })
            .count();
        assert_eq!(n, 1);
    }
}

#[test]
fn block_average_stays_within_values() {
    let img = Image::from_pixels(
        3,
        1,
        vec![rgba(10, 0, 200, 1), rgba(20, 0, 201, 2), rgba(12, 0, 255, 3)],
    )
    .unwrap();
    let m = thumbnail_sample_block(&img, 0, 3, 0, 1);
    assert!(10 <= m[0] && m[0] <= 20);
    assert_eq!(m, rgba(14, 0, 219, 2));
}
