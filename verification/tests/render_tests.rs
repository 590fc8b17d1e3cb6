use ansipix::{render, EscapeStyle, Pixel, PixelGrid};
use ansipix::text::cell_string;

const ESC: &str = "\x1b";
const UPPER: &str = "\u{2580}";
const LOWER: &str = "\u{2584}";

fn px(r: u8, g: u8, b: u8, a: u8) -> Pixel {
    Pixel::new(r, g, b, a)
}

fn grid(rows: Vec<Vec<Pixel>>) -> PixelGrid {
    PixelGrid::from_rows(rows).expect("rectangular rows")
}

fn uniform(width: usize, height: usize, p: Pixel) -> PixelGrid {
    grid(vec![vec![p; width]; height])
}

#[test]
fn two_by_two_scenario() {
    let g = grid(vec![
        vec![px(255, 0, 0, 255), px(0, 255, 0, 255)],
        vec![px(0, 0, 255, 255), px(0, 0, 0, 0)],
    ]);
    let out = render(&g, 10, EscapeStyle::Literal);
    let expected = format!(
        "{ESC}[38;2;0;0;255;48;2;255;0;0m{LOWER}{ESC}[0m{ESC}[38;2;0;255;0m{UPPER}{ESC}[0m\n"
    );
    assert_eq!(out, expected);
}

#[test]
fn single_pixel_has_transparent_lower_half() {
    let g = grid(vec![vec![px(255, 0, 0, 255)]]);
    let out = render(&g, 10, EscapeStyle::Literal);
    assert_eq!(out, format!("{ESC}[38;2;255;0;0m{UPPER}{ESC}[0m\n"));
}

#[test]
fn odd_height_equals_padding_with_transparent_row() {
    let rows = vec![
        vec![px(1, 2, 3, 200), px(4, 5, 6, 3)],
        vec![px(7, 8, 9, 100), px(10, 11, 12, 255)],
        vec![px(13, 14, 15, 255), px(16, 17, 18, 0)],
    ];
    let mut padded = rows.clone();
    padded.push(vec![px(0, 0, 0, 0); 2]);
    for style in [EscapeStyle::Literal, EscapeStyle::Escaped] {
        assert_eq!(render(&grid(rows.clone()), 50, style), render(&grid(padded.clone()), 50, style));
    }
}

#[test]
fn only_lower_pixel_visible() {
    let g = grid(vec![vec![px(9, 9, 9, 49)], vec![px(12, 34, 56, 50)]]);
    let out = render(&g, 50, EscapeStyle::Literal);
    assert_eq!(out, format!("{ESC}[38;2;12;34;56m{LOWER}{ESC}[0m\n"));
}

#[test]
fn both_visible_sets_foreground_to_lower_and_background_to_upper() {
    let top = px(10, 20, 30, 255);
    let bottom = px(40, 50, 60, 255);
    let out = cell_string(top, bottom, 1, EscapeStyle::Literal);
    assert_eq!(out, format!("{ESC}[38;2;40;50;60;48;2;10;20;30m{LOWER}{ESC}[0m"));
    assert_ne!(out, format!("{ESC}[38;2;10;20;30;48;2;40;50;60m{LOWER}{ESC}[0m"));
}

#[test]
fn escaped_style_writes_printable_marker() {
    let g = grid(vec![vec![px(255, 0, 0, 255)]]);
    let out = render(&g, 10, EscapeStyle::Escaped);
    assert_eq!(out, format!("\\x1b[38;2;255;0;0m{UPPER}\\x1b[0m\n"));
    assert!(!out.contains('\x1b'));
}

#[test]
fn escaped_output_with_markers_replaced_is_literal_output() {
    let g = grid(vec![
        vec![px(255, 0, 0, 255), px(0, 255, 0, 9), px(1, 2, 3, 10)],
        vec![px(0, 0, 255, 255), px(0, 0, 0, 0), px(100, 100, 100, 0)],
        vec![px(5, 6, 7, 0), px(8, 9, 10, 200), px(0, 0, 0, 11)],
    ]);
    for threshold in [0u8, 10, 255] {
        let literal = render(&g, threshold, EscapeStyle::Literal);
        let escaped = render(&g, threshold, EscapeStyle::Escaped);
        assert_eq!(escaped.replace("\\x1b", "\x1b"), literal);
    }
}

#[test]
fn render_is_deterministic() {
    let g = grid(vec![
        vec![px(255, 0, 0, 255), px(0, 255, 0, 255)],
        vec![px(0, 0, 255, 255), px(0, 0, 0, 0)],
    ]);
    assert_eq!(render(&g, 10, EscapeStyle::Literal), render(&g, 10, EscapeStyle::Literal));
    assert_eq!(render(&g, 10, EscapeStyle::Escaped), render(&g, 10, EscapeStyle::Escaped));
}

#[test]
fn line_count_is_half_the_height_rounded_up() {
    for height in 1usize..=7 {
        let g = uniform(3, height, px(1, 2, 3, 255));
        let out = render(&g, 10, EscapeStyle::Literal);
        assert_eq!(out.matches('\n').count(), (height + 1) / 2);
        assert!(out.ends_with('\n'));
        assert_eq!(out.lines().count(), (height + 1) / 2);
        for line in out.lines() {
            assert_eq!(line.matches(LOWER).count() + line.matches(UPPER).count(), 3);
        }
    }
}

#[test]
fn fully_transparent_grid_is_spaces_and_newlines() {
    let g = uniform(4, 3, px(200, 100, 50, 0));
    for threshold in [1u8, 10, 255] {
        assert_eq!(render(&g, threshold, EscapeStyle::Literal), "    \n    \n");
        assert_eq!(render(&g, threshold, EscapeStyle::Escaped), "    \n    \n");
    }
}

#[test]
fn zero_threshold_paints_every_cell() {
    let g = uniform(2, 3, px(0, 0, 0, 0));
    let out = render(&g, 0, EscapeStyle::Literal);
    let cell = format!("{ESC}[38;2;0;0;0;48;2;0;0;0m{LOWER}{ESC}[0m");
    assert_eq!(out, format!("{cell}{cell}\n{cell}{cell}\n"));
    assert!(!out.contains(' '));
    assert_eq!(out.matches(ESC).count(), 2 * 2 * 2);
}

#[test]
fn threshold_compares_strictly() {
    let at = px(1, 1, 1, 128);
    let below = px(2, 2, 2, 127);
    assert_eq!(cell_string(at, below, 128, EscapeStyle::Literal), format!("{ESC}[38;2;1;1;1m{UPPER}{ESC}[0m"));
    assert_eq!(cell_string(below, below, 128, EscapeStyle::Literal), " ");
    let opaque = px(3, 3, 3, 255);
    let nearly = px(4, 4, 4, 254);
    assert_eq!(cell_string(nearly, opaque, 255, EscapeStyle::Literal), format!("{ESC}[38;2;3;3;3m{LOWER}{ESC}[0m"));
}

#[test]
fn channels_are_written_in_decimal() {
    let out = cell_string(px(0, 7, 10, 255), px(99, 100, 255, 0), 1, EscapeStyle::Literal);
    assert_eq!(out, format!("{ESC}[38;2;0;7;10m{UPPER}{ESC}[0m"));
    let out = cell_string(px(0, 0, 0, 0), px(99, 100, 255, 1), 1, EscapeStyle::Literal);
    assert_eq!(out, format!("{ESC}[38;2;99;100;255m{LOWER}{ESC}[0m"));
    let out = cell_string(px(109, 210, 201, 1), px(90, 19, 200, 1), 1, EscapeStyle::Escaped);
    assert_eq!(out, format!("\\x1b[38;2;90;19;200;48;2;109;210;201m{LOWER}\\x1b[0m"));
}

#[test]
fn empty_grid_renders_empty_text() {
    let g = grid(vec![]);
    assert_eq!(g.width(), 0);
    assert_eq!(g.height(), 0);
    assert_eq!(render(&g, 10, EscapeStyle::Literal), "");
    assert_eq!(render(&PixelGrid::empty(), 0, EscapeStyle::Escaped), "");
}

#[test]
fn rows_of_unequal_or_zero_length_are_rejected() {
    let p = px(1, 2, 3, 4);
    assert!(PixelGrid::from_rows(vec![vec![p, p], vec![p]]).is_none());
    assert!(PixelGrid::from_rows(vec![vec![p], vec![p, p]]).is_none());
    assert!(PixelGrid::from_rows(vec![vec![], vec![]]).is_none());
    assert!(PixelGrid::from_rows(vec![vec![]]).is_none());
    assert!(PixelGrid::from_rows(vec![vec![p, p], vec![p, p]]).is_some());
}

#[test]
fn grid_accessors() {
    let g = grid(vec![vec![px(1, 1, 1, 1), px(2, 2, 2, 2)], vec![px(3, 3, 3, 3), px(4, 4, 4, 4)], vec![px(5, 5, 5, 5), px(6, 6, 6, 6)]]);
    assert_eq!(g.width(), 2);
    assert_eq!(g.height(), 3);
    assert_eq!(g.pixel(1, 2), px(6, 6, 6, 6));
    assert_eq!(g.get(0, 1), Some(px(3, 3, 3, 3)));
    assert_eq!(g.get(2, 0), None);
    assert_eq!(g.get(0, 3), None);
    assert_eq!(Pixel::transparent(), px(0, 0, 0, 0));
    assert!(px(0, 0, 0, 5).is_visible(5));
    assert!(!px(0, 0, 0, 4).is_visible(5));
    assert_eq!(EscapeStyle::from_raw_flag(true), EscapeStyle::Escaped);
    assert_eq!(EscapeStyle::from_raw_flag(false), EscapeStyle::Literal);
}

#[test]
fn literal_output_with_escape_characters_spelled_out_is_escaped_output() {
    let g = grid(vec![
        vec![px(255, 0, 0, 255), px(0, 255, 0, 9)],
        vec![px(0, 0, 255, 255), px(0, 0, 0, 0)],
        vec![px(5, 6, 7, 0), px(8, 9, 10, 200)],
    ]);
    for threshold in [0u8, 10, 255] {
        let literal = render(&g, threshold, EscapeStyle::Literal);
        let escaped = render(&g, threshold, EscapeStyle::Escaped);
        assert_eq!(literal.replace('\x1b', "\\x1b"), escaped);
    }
}
