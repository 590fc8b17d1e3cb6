use ansipix::{
    can_resize, grid_of_image, of_image, of_image_with_filter, render, render_image,
    try_of_image_with_filter, EscapeStyle, Pixel,
};
use image::imageops::FilterType;
use image::{DynamicImage, Rgba, RgbaImage};

const ESC: &str = "\x1b";
const UPPER: &str = "\u{2580}";
const LOWER: &str = "\u{2584}";

fn sample(width: u32, height: u32) -> DynamicImage {
    let buffer = RgbaImage::from_fn(width, height, |x, y| {
        let inside = (x as i64 - 16).pow(2) + (y as i64 - 16).pow(2) < 14 * 14;
        if inside {
            Rgba([(x * 8) as u8, (y * 8) as u8, 128, 255])
        } else {
            Rgba([0, 0, 0, 0])
        }
    });
    DynamicImage::ImageRgba8(buffer)
}

fn two_by_two() -> DynamicImage {
    let mut buffer = RgbaImage::new(2, 2);
    buffer.put_pixel(0, 0, Rgba([255, 0, 0, 255]));
    buffer.put_pixel(1, 0, Rgba([0, 255, 0, 255]));
    buffer.put_pixel(0, 1, Rgba([0, 0, 255, 255]));
    buffer.put_pixel(1, 1, Rgba([0, 0, 0, 0]));
    DynamicImage::ImageRgba8(buffer)
}

#[test]
fn filter_types() {
    let img = sample(32, 32);
    let mut time;
    time = std::time::Instant::now(); println!("{} {:?}", of_image_with_filter(&img, (16, 16), 50, false, FilterType::CatmullRom), time.elapsed());
    time = std::time::Instant::now(); println!("{} {:?}", of_image_with_filter(&img, (16, 16), 50, false, FilterType::Gaussian  ), time.elapsed());
    time = std::time::Instant::now(); println!("{} {:?}", of_image_with_filter(&img, (16, 16), 50, false, FilterType::Lanczos3  ), time.elapsed());
    time = std::time::Instant::now(); println!("{} {:?}", of_image            (&img, (16, 16), 50, false                        ), time.elapsed());
    time = std::time::Instant::now(); println!("{} {:?}", of_image_with_filter(&img, (16, 16), 50, false, FilterType::Triangle  ), time.elapsed());
}

#[test]
fn raw_output() {
    let img = sample(32, 32);
    println!("{}", of_image(&img, (8, 8), 10, false));
    println!("{}", of_image(&img, (8, 8), 10, true));
}

#[test]
fn every_filter_gives_eight_lines_of_sixteen_cells() {
    let img = sample(32, 32);
    for filter in [FilterType::Nearest, FilterType::Triangle, FilterType::CatmullRom, FilterType::Gaussian, FilterType::Lanczos3] {
        let out = of_image_with_filter(&img, (16, 16), 50, false, filter);
        assert_eq!(out.lines().count(), 8);
        assert!(out.ends_with('\n'));
        for line in out.lines() {
            let cells = line.matches(' ').count() + line.matches(UPPER).count() + line.matches(LOWER).count();
            assert_eq!(cells, 16);
        }
    }
}

#[test]
fn image_of_target_size_is_rendered_as_it_is() {
    let img = two_by_two();
    let expected = format!(
        "{ESC}[38;2;0;0;255;48;2;255;0;0m{LOWER}{ESC}[0m{ESC}[38;2;0;255;0m{UPPER}{ESC}[0m\n"
    );
    assert_eq!(of_image(&img, (2, 2), 10, false), expected);
    assert_eq!(of_image_with_filter(&img, (2, 2), 10, false, FilterType::Lanczos3), expected);
    assert_eq!(render_image(&img, 10, false), expected);
    assert_eq!(of_image(&img, (2, 2), 10, true), expected.replace(ESC, "\\x1b"));
}

#[test]
fn grid_of_image_reads_each_pixel_at_its_place() {
    let img = two_by_two();
    let g = grid_of_image(&img);
    assert_eq!(g.width(), 2);
    assert_eq!(g.height(), 2);
    assert_eq!(g.pixel(0, 0), Pixel::new(255, 0, 0, 255));
    assert_eq!(g.pixel(1, 0), Pixel::new(0, 255, 0, 255));
    assert_eq!(g.pixel(0, 1), Pixel::new(0, 0, 255, 255));
    assert_eq!(g.pixel(1, 1), Pixel::new(0, 0, 0, 0));
    assert_eq!(render(&g, 10, EscapeStyle::Literal), render_image(&img, 10, false));
}

#[test]
fn grid_of_wide_image_keeps_rows_and_columns_apart() {
    let buffer = RgbaImage::from_fn(3, 2, |x, y| Rgba([x as u8, y as u8, 7, 255]));
    let g = grid_of_image(&DynamicImage::ImageRgba8(buffer));
    assert_eq!(g.width(), 3);
    assert_eq!(g.height(), 2);
    assert_eq!(g.pixel(2, 1), Pixel::new(2, 1, 7, 255));
    assert_eq!(g.pixel(1, 0), Pixel::new(1, 0, 7, 255));
}

#[test]
fn image_without_alpha_is_opaque() {
    let buffer = image::RgbImage::from_pixel(1, 1, image::Rgb([9, 8, 7]));
    let img = DynamicImage::ImageRgb8(buffer);
    assert_eq!(grid_of_image(&img).pixel(0, 0), Pixel::new(9, 8, 7, 255));
    assert_eq!(of_image(&img, (1, 1), 255, false), format!("{ESC}[38;2;9;8;7m{UPPER}{ESC}[0m\n"));
}

#[test]
fn image_without_area_gives_empty_grid() {
    let img = DynamicImage::ImageRgba8(RgbaImage::new(0, 0));
    let g = grid_of_image(&img);
    assert_eq!(g.width(), 0);
    assert_eq!(g.height(), 0);
    assert_eq!(render_image(&img, 10, false), "");
}

#[test]
fn uniform_image_shrinks_to_uniform_cells() {
    let img = DynamicImage::ImageRgba8(RgbaImage::from_pixel(4, 4, Rgba([255, 0, 0, 255])));
    let cell = format!("{ESC}[38;2;255;0;0;48;2;255;0;0m{LOWER}{ESC}[0m");
    assert_eq!(of_image(&img, (2, 2), 10, false), format!("{cell}{cell}\n"));
}

#[test]
fn image_is_resized_to_exactly_the_target() {
    let img = DynamicImage::ImageRgba8(RgbaImage::from_pixel(8, 4, Rgba([1, 2, 3, 255])));
    let out = of_image(&img, (4, 4), 10, false);
    let cell = format!("{ESC}[38;2;1;2;3;48;2;1;2;3m{LOWER}{ESC}[0m");
    assert_eq!(out, format!("{cell}{cell}{cell}{cell}\n{cell}{cell}{cell}{cell}\n"));
}

#[test]
fn text_has_one_line_for_every_two_rows_of_the_target() {
    let img = sample(32, 32);
    for (w, h) in [(1usize, 1usize), (5, 3), (16, 7), (40, 40), (3, 64), (100, 2)] {
        for filter in [FilterType::Nearest, FilterType::Gaussian] {
            let out = of_image_with_filter(&img, (w, h), 50, false, filter);
            assert_eq!(out.matches('\n').count(), (h + 1) / 2);
            assert!(out.ends_with('\n'));
            for line in out.lines() {
                let cells = line.matches(' ').count() + line.matches(UPPER).count() + line.matches(LOWER).count();
                assert_eq!(cells, w);
            }
        }
    }
}

#[test]
fn target_without_area_gives_empty_text() {
    let img = sample(32, 32);
    assert_eq!(of_image(&img, (0, 5), 50, false), "");
    assert_eq!(of_image(&img, (5, 0), 50, false), "");
    assert_eq!(of_image(&img, (0, 0), 50, false), "");
    assert_eq!(of_image_with_filter(&img, (0, 5), 50, true, FilterType::Lanczos3), "");
}

#[test]
fn default_filter_is_nearest_neighbour() {
    let buffer = RgbaImage::from_fn(8, 8, |x, y| Rgba([(x * 30) as u8, (y * 30) as u8, 0, 255]));
    let img = DynamicImage::ImageRgba8(buffer);
    let nearest = of_image_with_filter(&img, (3, 4), 10, false, FilterType::Nearest);
    assert_eq!(of_image(&img, (3, 4), 10, false), nearest);
    assert_ne!(of_image_with_filter(&img, (3, 4), 10, false, FilterType::Triangle), nearest);
    let by_hand = image::imageops::resize(&img, 3, 4, FilterType::Nearest);
    assert_eq!(nearest, render_image(&DynamicImage::ImageRgba8(by_hand), 10, false));
}

#[test]
fn sizes_beyond_memory_are_refused() {
    let img = sample(32, 32);
    let huge = u32::MAX as usize;
    assert!(!can_resize(&img, u32::MAX, u32::MAX));
    assert!(try_of_image_with_filter(&img, (huge, huge), 50, false, FilterType::Nearest).is_none());
    assert!(can_resize(&img, 100000, 20));
    assert!(can_resize(&img, 0, 0));
    let small = try_of_image_with_filter(&img, (6, 6), 50, false, FilterType::Nearest);
    assert_eq!(small, Some(of_image(&img, (6, 6), 50, false)));
}

#[test]
fn wide_target_is_accepted() {
    let img = DynamicImage::ImageRgba8(RgbaImage::from_pixel(2, 2, Rgba([0, 0, 0, 0])));
    let out = of_image(&img, (70000, 2), 10, false);
    assert_eq!(out.len(), 70001);
    assert!(out.starts_with("  "));
    assert!(out.ends_with(" \n"));
}

#[test]
fn same_image_and_arguments_give_same_text() {
    let img = sample(32, 32);
    let first = of_image_with_filter(&img, (12, 12), 50, true, FilterType::Triangle);
    let second = of_image_with_filter(&img, (12, 12), 50, true, FilterType::Triangle);
    assert_eq!(first, second);
}
