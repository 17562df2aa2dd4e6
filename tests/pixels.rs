use forest_green::compose::{color_text, compose_canvas, decimal_text, solid_canvas};
use forest_green::raster::{crop_image, mean_color, Raster, Rgb, Roi};

fn filled(width: u32, height: u32, c: Rgb) -> Raster {
    let rows = (0..height).map(|_| vec![c; width as usize]).collect();
    Raster { width, height, rows }
}

fn rgb(r: u8, g: u8, b: u8) -> Rgb {
    Rgb { r, g, b }
}

#[test]
fn mean_color_works() {
    let expected = rgb(42, 21, 84);
    let image = filled(10, 10, expected);
    let actual = mean_color(&image);
    assert_eq!(expected, actual);
}

#[test]
fn mean_color_uniform_single_pixel_and_wide() {
    assert_eq!(mean_color(&filled(1, 1, rgb(255, 0, 7))), rgb(255, 0, 7));
    assert_eq!(mean_color(&filled(300, 2, rgb(9, 200, 255))), rgb(9, 200, 255));
}

#[test]
fn mean_color_truncates_each_channel() {
    // sums: red 1+2+2 = 5, green 2+2+3 = 7, blue 3+4+255 = 262; three pixels
    let image = Raster {
        width: 3,
        height: 1,
        rows: vec![vec![rgb(1, 2, 3), rgb(2, 2, 4), rgb(2, 3, 255)]],
    };
    assert_eq!(mean_color(&image), rgb(1, 2, 87));
}

#[test]
fn mean_color_truncates_over_rows() {
    let image = Raster {
        width: 2,
        height: 2,
        rows: vec![vec![rgb(0, 0, 0), rgb(1, 1, 1)], vec![rgb(1, 1, 1), rgb(1, 255, 2)]],
    };
    assert_eq!(mean_color(&image), rgb(0, 64, 1));
}

#[test]
fn crop_takes_the_region() {
    let mut image = filled(4, 3, rgb(0, 0, 0));
    image.rows[1][2] = rgb(5, 6, 7);
    image.rows[2][3] = rgb(8, 9, 10);
    let crop = crop_image(&image, &Roi { x: 2, y: 1, width: 2, height: 2 });
    assert_eq!(crop.width, 2);
    assert_eq!(crop.height, 2);
    assert_eq!(crop.rows, vec![vec![rgb(5, 6, 7), rgb(0, 0, 0)], vec![rgb(0, 0, 0), rgb(8, 9, 10)]]);
}

#[test]
fn canvas_is_color_beside_source() {
    let mut image = filled(2, 2, rgb(1, 1, 1));
    image.rows[0][1] = rgb(3, 3, 3);
    let c = rgb(9, 8, 7);
    let canvas = compose_canvas(c, &image);
    assert_eq!(canvas.width, 4);
    assert_eq!(canvas.height, 2);
    assert_eq!(canvas.rows[0], vec![c, c, rgb(1, 1, 1), rgb(3, 3, 3)]);
    assert_eq!(canvas.rows[1], vec![c, c, rgb(1, 1, 1), rgb(1, 1, 1)]);
}

#[test]
fn solid_canvas_is_double_width() {
    let c = rgb(0, 0, 40);
    let canvas = solid_canvas(c, 3, 2);
    assert_eq!(canvas.width, 6);
    assert_eq!(canvas.height, 2);
    assert_eq!(canvas.rows, vec![vec![c; 6], vec![c; 6]]);
}

#[test]
fn decimal_text_has_no_leading_zeros() {
    assert_eq!(decimal_text(0), "0");
    assert_eq!(decimal_text(7), "7");
    assert_eq!(decimal_text(10), "10");
    assert_eq!(decimal_text(99), "99");
    assert_eq!(decimal_text(100), "100");
    assert_eq!(decimal_text(255), "255");
}

#[test]
fn color_text_lists_the_three_channels() {
    assert_eq!(color_text(rgb(42, 21, 84)), "Rgb([42, 21, 84])");
    assert_eq!(color_text(rgb(0, 255, 100)), "Rgb([0, 255, 100])");
}
