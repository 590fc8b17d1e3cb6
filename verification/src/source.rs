use vstd::prelude::*;
use image::imageops::FilterType;
use image::DynamicImage;
use crate::grid::{rows_of, PixelGrid};
use crate::laws::{cell_count, count_of, law_cell_total, law_line_count};
use crate::pixel::{EscapeStyle, Pixel};
use crate::render::{line_count, render, render_text};

verus! {

/// A decoded image of the `image` crate. Its pixels are read through the
/// functions below only.
#[verifier::external_type_specification]
#[verifier::external_body]
pub struct ExDynamicImage(DynamicImage);

/// The resampling filters of the `image` crate.
#[verifier::external_type_specification]
pub struct ExFilterType(FilterType);

/// The number of columns that `DynamicImage::width` reports.
pub uninterp spec fn image_width(img: DynamicImage) -> nat;

/// The number of rows that `DynamicImage::height` reports.
pub uninterp spec fn image_height(img: DynamicImage) -> nat;

/// The channels (red, green, blue, alpha) that `get_pixel` reports for
/// column `x` of row `y`.
pub uninterp spec fn image_pixel(img: DynamicImage, x: nat, y: nat) -> (u8, u8, u8, u8);

/// The image that `DynamicImage::resize_exact` returns for an image, a
/// target width and height, and a filter.
pub uninterp spec fn resized(
    img: DynamicImage,
    nwidth: u32,
    nheight: u32,
    filter: FilterType,
) -> DynamicImage;

/// `DynamicImage::width` returns the width of the underlying buffer.
pub assume_specification[ DynamicImage::width ](img: &DynamicImage) -> (w: u32)
    ensures
        w == image_width(*img),
;

/// `DynamicImage::height` returns the height of the underlying buffer.
pub assume_specification[ DynamicImage::height ](img: &DynamicImage) -> (h: u32)
    ensures
        h == image_height(*img),
;

/// `DynamicImage::resize_exact` returns a new image of exactly `nwidth` by
/// `nheight` pixels, resampled with the given filter. When the target is
/// the image's own size, no resampling takes place: the result has the
/// same pixels. Of the pixels of any other result the contract only says
/// that they are those of `resized`. On its way the function allocates one
/// buffer of the image's width by `nheight` and one of `nwidth` by
/// `nheight`, and panics where the length of either overflows: `requires`
/// keeps both within `resizable`.
pub assume_specification[ DynamicImage::resize_exact ](
    img: &DynamicImage,
    nwidth: u32,
    nheight: u32,
    filter: FilterType,
) -> (out: DynamicImage)
    requires
        resizable(*img, nwidth, nheight),
    ensures
        out == resized(*img, nwidth, nheight, filter),
        image_width(out) == nwidth,
        image_height(out) == nheight,
        nwidth == image_width(*img) && nheight == image_height(*img) ==> same_pixels(out, *img),
;

/// `GenericImageView::get_pixel` on a `DynamicImage` returns the pixel at
/// `(x, y)` as 8-bit RGBA; it panics outside the image's bounds.
#[verifier::external_body]
fn pixel_of_image(img: &DynamicImage, x: u32, y: u32) -> (p: Pixel)
    requires
        x < image_width(*img),
        y < image_height(*img),
    ensures
        (p.red, p.green, p.blue, p.alpha) == image_pixel(*img, x as nat, y as nat),
{
    let p = image::GenericImageView::get_pixel(img, x, y);
    Pixel { red: p.0[0], green: p.0[1], blue: p.0[2], alpha: p.0[3] }
}

/// Whether the buffers for resampling `img` to `nwidth` by `nheight` can
/// be addressed: with sixteen bytes for each pixel, which is the most that
/// a pixel takes, neither buffer exceeds half of what a `usize` counts.
pub open spec fn resizable(img: DynamicImage, nwidth: u32, nheight: u32) -> bool {
    &&& image_width(img) * nheight <= usize::MAX / 32
    &&& nwidth * nheight <= usize::MAX / 32
}

/// Two images of the same size that agree in every pixel.
pub open spec fn same_pixels(a: DynamicImage, b: DynamicImage) -> bool {
    &&& image_width(a) == image_width(b)
    &&& image_height(a) == image_height(b)
    &&& forall|x: nat, y: nat|
        x < image_width(b) && y < image_height(b) ==> #[trigger] image_pixel(a, x, y)
            == image_pixel(b, x, y)
}

/// The pixel that the image holds in column `x` of row `y`.
pub open spec fn image_pixel_at(img: DynamicImage, x: nat, y: nat) -> Pixel {
    let c = image_pixel(img, x, y);
    Pixel { red: c.0, green: c.1, blue: c.2, alpha: c.3 }
}

/// The number of columns of the grid that an image gives: an image without
/// area gives the grid without pixels.
pub open spec fn image_cols(img: DynamicImage) -> nat {
    if image_height(img) == 0 {
        0
    } else {
        image_width(img)
    }
}

/// The rows of the grid that an image gives.
pub open spec fn image_rows(img: DynamicImage) -> Seq<Seq<Pixel>> {
    if image_width(img) == 0 {
        Seq::empty()
    } else {
        Seq::new(
            image_height(img),
            |y: int| Seq::new(image_width(img), |x: int| image_pixel_at(img, x as nat, y as nat)),
        )
    }
}

/// Agreeing images give the same grid.
pub proof fn same_pixels_same_rows(a: DynamicImage, b: DynamicImage)
    requires
        same_pixels(a, b),
    ensures
        image_rows(a) == image_rows(b),
        image_cols(a) == image_cols(b),
{
    if image_width(a) > 0 {
        assert forall|y: int| 0 <= y < image_height(a) implies #[trigger] image_rows(a)[y]
            == image_rows(b)[y] by {
            assert forall|x: int| 0 <= x < image_width(a) implies #[trigger] image_rows(a)[y][x]
                == image_rows(b)[y][x] by {
                assert(image_pixel(a, x as nat, y as nat) == image_pixel(b, x as nat, y as nat));
            }
            assert(image_rows(a)[y] =~= image_rows(b)[y]);
        }
        assert(image_rows(a) =~= image_rows(b));
    }
}

/// Reads every pixel of the image into a grid. An image without columns
/// or without rows holds no pixel, and gives the grid without rows.
pub fn grid_of_image(img: &DynamicImage) -> (grid: PixelGrid)
    ensures
        grid.wf(),
        grid@ == image_rows(*img),
        grid.cols() == image_cols(*img),
{
    let width: u32 = img.width();
    let height: u32 = img.height();
    let mut rows: Vec<Vec<Pixel>> = Vec::new();
    if width > 0 {
        let mut y: u32 = 0;
        while y < height
            invariant
                width == image_width(*img),
                height == image_height(*img),
                width > 0,
                y <= height,
                rows@.len() == y,
                forall|k: int| 0 <= k < y ==> (#[trigger] rows@[k])@ == image_rows(*img)[k],
            decreases height - y,
        {
            let mut row: Vec<Pixel> = Vec::new();
            let mut x: u32 = 0;
            while x < width
                invariant
                    width == image_width(*img),
                    height == image_height(*img),
                    y < height,
                    x <= width,
                    row@.len() == x,
                    forall|k: int|
                        0 <= k < x ==> #[trigger] row@[k] == image_pixel_at(
                            *img,
                            k as nat,
                            y as nat,
                        ),
                decreases width - x,
            {
                row.push(pixel_of_image(img, x, y));
                x += 1;
            }
            assert(row@ =~= image_rows(*img)[y as int]);
            rows.push(row);
            y += 1;
        }
    }
    assert(rows_of(rows) =~= image_rows(*img));
    let cols: usize = if rows.len() == 0 {
        0
    } else {
        width as usize
    };
    PixelGrid::from_rectangle(cols, rows)
}

/// Renders an image as it is, without resizing it.
pub fn render_image(img: &DynamicImage, alpha_threshold: u8, raw: bool) -> (out: String)
    ensures
        out@ == image_text(*img, alpha_threshold, raw),
{
    let grid = grid_of_image(img);
    render(&grid, alpha_threshold, EscapeStyle::from_raw_flag(raw))
}

/// The text that stands for an image: its grid, rendered.
pub open spec fn image_text(img: DynamicImage, alpha_threshold: u8, raw: bool) -> Seq<char> {
    render_text(image_rows(img), image_cols(img), alpha_threshold, EscapeStyle::of_flag(raw))
}

/// The target of a resize, as the image functions take it: each side of
/// `size` as a `u32`.
pub open spec fn target(size: (usize, usize)) -> (u32, u32) {
    (size.0 as u32, size.1 as u32)
}

/// The text of an image resized to `size` with the given filter.
pub open spec fn resized_text(
    img: DynamicImage,
    size: (usize, usize),
    alpha_threshold: u8,
    raw: bool,
    filter: FilterType,
) -> Seq<char> {
    image_text(resized(img, target(size).0, target(size).1, filter), alpha_threshold, raw)
}

/// Tests whether the image can be resized to `nwidth` by `nheight`.
pub fn can_resize(image: &DynamicImage, nwidth: u32, nheight: u32) -> (ok: bool)
    ensures
        ok == resizable(*image, nwidth, nheight),
{
    let limit: u64 = (usize::MAX / 32) as u64;
    let width: u64 = image.width() as u64;
    let new_width: u64 = nwidth as u64;
    let new_height: u64 = nheight as u64;
    assert(width * new_height <= 0xFFFF_FFFF * 0xFFFF_FFFF) by (nonlinear_arith)
        requires
            0 <= width <= 0xFFFF_FFFF,
            0 <= new_height <= 0xFFFF_FFFF,
    ;
    assert(new_width * new_height <= 0xFFFF_FFFF * 0xFFFF_FFFF) by (nonlinear_arith)
        requires
            0 <= new_width <= 0xFFFF_FFFF,
            0 <= new_height <= 0xFFFF_FFFF,
    ;
    width * new_height <= limit && new_width * new_height <= limit
}

/// Resizes the image with the given filter to exactly `size`, a pair of
/// width and height, and renders the result. A pixel is painted when its
/// alpha reaches `alpha_threshold`; `raw` selects the printable form of the
/// escape character.
///
/// The text is that of the resized image, which has the sides of the
/// target: unless the target has no columns, the text has one line for
/// every two rows of the target, and it holds one cell for every column of
/// every line. Where the target is the image's own size, it is the text of
/// the image itself.
pub fn of_image_with_filter(
    image: &DynamicImage,
    size: (usize, usize),
    alpha_threshold: u8,
    raw: bool,
    resize_filter: FilterType,
) -> (out: String)
    requires
        resizable(*image, target(size).0, target(size).1),
    ensures
        out@ == resized_text(*image, size, alpha_threshold, raw, resize_filter),
        image_width(resized(*image, target(size).0, target(size).1, resize_filter)) == target(
            size,
        ).0,
        image_height(resized(*image, target(size).0, target(size).1, resize_filter)) == target(
            size,
        ).1,
        count_of(out@, '\n') == (if target(size).0 == 0 {
            0
        } else {
            line_count(target(size).1 as nat)
        }),
        cell_count(out@) == line_count(target(size).1 as nat) * target(size).0,
        target(size).0 == image_width(*image) && target(size).1 == image_height(*image) ==> out@
            == image_text(*image, alpha_threshold, raw),
{
    let nwidth: u32 = #[verifier::truncate] (size.0 as u32);
    let nheight: u32 = #[verifier::truncate] (size.1 as u32);
    let resized = image.resize_exact(nwidth, nheight, resize_filter);
    proof {
        if nwidth == image_width(*image) && nheight == image_height(*image) {
            same_pixels_same_rows(resized, *image);
        }
        law_line_count(
            image_rows(resized),
            image_cols(resized),
            alpha_threshold,
            EscapeStyle::of_flag(raw),
        );
        law_cell_total(
            image_rows(resized),
            image_cols(resized),
            alpha_threshold,
            EscapeStyle::of_flag(raw),
        );
        let lines = line_count(image_rows(resized).len());
        if nwidth == 0 || nheight == 0 {
            assert(lines == 0);
            assert(line_count(nheight as nat) * nwidth == 0) by (nonlinear_arith)
                requires
                    nwidth == 0 || line_count(nheight as nat) == 0,
            ;
            assert(lines * image_cols(resized) == 0) by (nonlinear_arith)
                requires
                    lines == 0,
            ;
        } else {
            assert(image_rows(resized).len() == nheight);
            assert(image_cols(resized) == nwidth);
        }
    }
    render_image(&resized, alpha_threshold, raw)
}

/// As `of_image_with_filter`, for every image and size: `None` where the
/// image cannot be resized to `size`.
pub fn try_of_image_with_filter(
    image: &DynamicImage,
    size: (usize, usize),
    alpha_threshold: u8,
    raw: bool,
    resize_filter: FilterType,
) -> (out: Option<String>)
    ensures
        out.is_some() == resizable(*image, target(size).0, target(size).1),
        out.is_some() ==> out.unwrap()@ == resized_text(
            *image,
            size,
            alpha_threshold,
            raw,
            resize_filter,
        ),
{
    let nwidth: u32 = #[verifier::truncate] (size.0 as u32);
    let nheight: u32 = #[verifier::truncate] (size.1 as u32);
    if can_resize(image, nwidth, nheight) {
        Some(of_image_with_filter(image, size, alpha_threshold, raw, resize_filter))
    } else {
        None
    }
}

/// As `of_image_with_filter`, with the nearest-neighbour filter.
pub fn of_image(image: &DynamicImage, size: (usize, usize), alpha_threshold: u8, raw: bool) -> (out:
    String)
    requires
        resizable(*image, target(size).0, target(size).1),
    ensures
        out@ == resized_text(*image, size, alpha_threshold, raw, FilterType::Nearest),
        image_width(resized(*image, target(size).0, target(size).1, FilterType::Nearest))
            == target(size).0,
        image_height(resized(*image, target(size).0, target(size).1, FilterType::Nearest))
            == target(size).1,
        count_of(out@, '\n') == (if target(size).0 == 0 {
            0
        } else {
            line_count(target(size).1 as nat)
        }),
        cell_count(out@) == line_count(target(size).1 as nat) * target(size).0,
        target(size).0 == image_width(*image) && target(size).1 == image_height(*image) ==> out@
            == image_text(*image, alpha_threshold, raw),
{
    of_image_with_filter(image, size, alpha_threshold, raw, FilterType::Nearest)
}

} // verus!
