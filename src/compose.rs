//! Frame composition: the double-width canvas, the caption lines drawn on
//! it, and the output file name.
use vstd::prelude::*;
use crate::config::Config;
use crate::error::Error;
use crate::raster::{channel_mean, crop_image, mean_color, Raster, Rgb, Roi};
use crate::timestamp::{
    day_first_pattern,
    display_utc,
    format_utc,
    formattable,
    utc_display_of,
    utc_formatted,
    year_first_pattern,
};

verus! {

/// A line of text to draw with its top left corner at `(x, y)`.
pub struct Caption {
    pub text: String,
    pub x: u32,
    pub y: u64,
}

/// A rendered canvas and the captions to draw on it, top to bottom.
pub struct Composite {
    pub image: Raster,
    pub captions: Vec<Caption>,
}

pub open spec fn title_text() -> Seq<char> {
    "Average colour of forest activity"@
}

pub open spec fn digit_char(d: int) -> char {
    "0123456789"@[d]
}

/// The decimal digits of `n`, without leading zeros.
pub open spec fn decimal(n: nat) -> Seq<char>
    decreases n,
{
    if n < 10 {
        seq![digit_char(n as int)]
    } else {
        decimal(n / 10) + seq![digit_char((n % 10) as int)]
    }
}

/// `Rgb([r, g, b])`.
pub open spec fn color_label(c: Rgb) -> Seq<char> {
    "Rgb(["@ + decimal(c.r as nat) + ", "@ + decimal(c.g as nat) + ", "@ + decimal(c.b as nat)
        + "])"@
}

/// `{location}, {date}`.
pub open spec fn place_label(location: Seq<char>, date: Seq<char>) -> Seq<char> {
    location + ", "@ + date
}

pub open spec fn caption_is(c: Caption, text: Seq<char>, x: int, y: int) -> bool {
    c.text@ == text && c.x == x && c.y == y
}

/// The three caption lines stacked from the configured text position.
pub open spec fn stacked_captions(
    captions: Seq<Caption>,
    config: Config,
    date: Seq<char>,
    color: Rgb,
) -> bool {
    &&& captions.len() >= 3
    &&& caption_is(
        captions[0],
        place_label(config.location@, date),
        config.text_x as int,
        config.text_y as int,
    )
    &&& caption_is(
        captions[1],
        title_text(),
        config.text_x as int,
        config.text_y + config.line_height,
    )
    &&& caption_is(
        captions[2],
        color_label(color),
        config.text_x as int,
        config.text_y + 2 * config.line_height,
    )
}

fn digit(d: u8) -> (s: &'static str)
    requires
        d < 10,
    ensures
        s@ == seq![digit_char(d as int)],
{
    let digits = "0123456789";
    proof {
        reveal_strlit("0123456789");
    }
    let s = digits.substring_char(d as usize, d as usize + 1);
    assert(s@ =~= seq![digit_char(d as int)]);
    s
}

/// The decimal text of a channel value.
pub fn decimal_text(n: u8) -> (s: String)
    ensures
        s@ == decimal(n as nat),
{
    let mut s = String::new();
    proof {
        reveal_with_fuel(decimal, 3);
    }
    if n >= 100 {
        s.append(digit(n / 100));
    }
    if n >= 10 {
        s.append(digit((n / 10) % 10));
    }
    s.append(digit(n % 10));
    proof {
        let k = n as nat;
        if k >= 100 {
            assert(k / 10 / 10 == k / 100);
            assert(k / 10 >= 10);
            assert(decimal(k / 10 / 10) =~= seq![digit_char((k / 100) as int)]);
            assert(decimal(k / 10) =~= seq![digit_char((k / 100) as int)] + seq![
                digit_char(((k / 10) % 10) as int),
            ]);
        } else if k >= 10 {
            assert(k / 10 < 10);
            assert((k / 10) % 10 == k / 10);
        }
        assert(s@ =~= decimal(k));
    }
    s
}

/// The text of a colour: `Rgb([r, g, b])`.
pub fn color_text(c: Rgb) -> (s: String)
    ensures
        s@ == color_label(c),
{
    let mut s = String::new();
    s.append("Rgb([");
    s.append(decimal_text(c.r).as_str());
    s.append(", ");
    s.append(decimal_text(c.g).as_str());
    s.append(", ");
    s.append(decimal_text(c.b).as_str());
    s.append("])");
    proof {
        assert(s@ =~= color_label(c));
    }
    s
}

fn place_text(location: &str, date: &str) -> (s: String)
    ensures
        s@ == place_label(location@, date@),
{
    let mut s = String::new();
    s.append(location);
    s.append(", ");
    s.append(date);
    assert(s@ =~= place_label(location@, date@));
    s
}

/// The three caption lines: location and date, the title, and the colour.
fn stack_captions(config: &Config, date: &str, color: Rgb) -> (r: Vec<Caption>)
    ensures
        r@.len() == 3,
        stacked_captions(r@, *config, date@, color),
{
    let mut r: Vec<Caption> = Vec::new();
    let x = config.text_x;
    let y = config.text_y as u64;
    let h = config.line_height as u64;
    r.push(Caption { text: place_text(config.location.as_str(), date), x, y });
    r.push(Caption { text: "Average colour of forest activity".to_string(), x, y: y + h });
    r.push(Caption { text: color_text(color), x, y: y + 2 * h });
    r
}

/// The left half of the canvas in `color`, the right half `image`.
pub open spec fn side_by_side(r: Raster, color: Rgb, image: Raster) -> bool {
    &&& r.wf()
    &&& r.width == 2 * image.width
    &&& r.height == image.height
    &&& forall|x: int, y: int|
        0 <= x < r.width && 0 <= y < r.height ==> #[trigger] r.pixel(x, y) == if x
            < image.width {
            color
        } else {
            image.pixel(x - image.width, y)
        }
}

/// A canvas twice as wide as `image`: its left half filled with `color`,
/// its right half a copy of `image`.
pub fn compose_canvas(color: Rgb, image: &Raster) -> (r: Raster)
    requires
        image.wf(),
        2 * image.width <= u32::MAX,
    ensures
        side_by_side(r, color, *image),
{
    let w = image.width;
    let mut rows: Vec<Vec<Rgb>> = Vec::new();
    let mut y: usize = 0;
    while y < image.rows.len()
        invariant
            image.wf(),
            w == image.width,
            2 * w <= u32::MAX,
            y <= image.height,
            rows@.len() == y,
            forall|j: int| 0 <= j < y ==> (#[trigger] rows@[j])@.len() == 2 * w,
            forall|x: int, j: int|
                0 <= x < 2 * w && 0 <= j < y ==> #[trigger] rows@[j]@[x] == if x < w {
                    color
                } else {
                    image.pixel(x - w, j)
                },
        decreases image.height - y,
    {
        let src = &image.rows[y];
        let mut row: Vec<Rgb> = Vec::new();
        let mut x: u32 = 0;
        while x < w
            invariant
                x <= w,
                row@.len() == x,
                forall|i: int| 0 <= i < x ==> #[trigger] row@[i] == color,
            decreases w - x,
        {
            row.push(color);
            x = x + 1;
        }
        let mut i: usize = 0;
        while i < src.len()
            invariant
                src@.len() == w,
                *src == image.rows@[y as int],
                i <= w,
                row@.len() == w + i,
                forall|k: int| 0 <= k < w ==> #[trigger] row@[k] == color,
                forall|k: int| w <= k < w + i ==> #[trigger] row@[k] == image.pixel(k - w, y as int),
            decreases w - i,
        {
            row.push(src[i]);
            i = i + 1;
        }
        rows.push(row);
        y = y + 1;
    }
    Raster { width: 2 * w, height: image.height, rows }
}

/// A canvas of twice `width` by `height` in one colour.
pub fn solid_canvas(color: Rgb, width: u32, height: u32) -> (r: Raster)
    requires
        2 * width <= u32::MAX,
    ensures
        r.wf(),
        r.width == 2 * width,
        r.height == height,
        forall|x: int, y: int| 0 <= x < r.width && 0 <= y < r.height ==> #[trigger] r.pixel(x, y)
            == color,
{
    let mut rows: Vec<Vec<Rgb>> = Vec::new();
    let mut y: u32 = 0;
    while y < height
        invariant
            2 * width <= u32::MAX,
            y <= height,
            rows@.len() == y,
            forall|j: int| 0 <= j < y ==> (#[trigger] rows@[j])@.len() == 2 * width,
            forall|x: int, j: int|
                0 <= x < 2 * width && 0 <= j < y ==> #[trigger] rows@[j]@[x] == color,
        decreases height - y,
    {
        let mut row: Vec<Rgb> = Vec::new();
        let mut x: u32 = 0;
        while x < 2 * width
            invariant
                2 * width <= u32::MAX,
                x <= 2 * width,
                row@.len() == x,
                forall|i: int| 0 <= i < x ==> #[trigger] row@[i] == color,
            decreases 2 * width - x,
        {
            row.push(color);
            x = x + 1;
        }
        rows.push(row);
        y = y + 1;
    }
    Raster { width: 2 * width, height, rows }
}

/// The mean colour of the region of interest of `image`.
pub open spec fn roi_mean(image: Raster, roi: Roi, m: Rgb) -> bool {
    exists|crop: Raster|
        {
            &&& crop.wf()
            &&& crop.width == roi.width
            &&& crop.height == roi.height
            &&& (forall|x: int, y: int|
                0 <= x < crop.width && 0 <= y < crop.height ==> #[trigger] crop.pixel(x, y)
                    == image.pixel(x + roi.x, y + roi.y))
            &&& m.r == channel_mean(crop, 0)
            &&& m.g == channel_mean(crop, 1)
            &&& m.b == channel_mean(crop, 2)
        }
}

/// The day frame of a source image: the mean colour of its region of
/// interest beside the image itself, captioned with the location and
/// `date`, the title, and the mean colour. Fails where the region of
/// interest does not lie inside the image.
pub fn generate_image(config: &Config, in_image: &Raster, date: &str) -> (r: Result<
    Composite,
    Error,
>)
    requires
        config.wf(),
        in_image.wf(),
        2 * in_image.width <= u32::MAX,
    ensures
        !config.roi.fits(in_image) ==> r == Err::<Composite, Error>(Error::InvalidRoi),
        config.roi.fits(in_image) ==> (r matches Ok(f) && exists|m: Rgb|
            {
                &&& roi_mean(*in_image, config.roi, m)
                &&& side_by_side(f.image, m, *in_image)
                &&& f.captions@.len() == 3
                &&& stacked_captions(f.captions@, *config, date@, m)
            }),
{
    let roi = config.roi;
    if roi.x as u64 + roi.width as u64 > in_image.width as u64 || roi.y as u64 + roi.height as u64
        > in_image.height as u64 {
        return Err(Error::InvalidRoi);
    }
    let crop = crop_image(in_image, &roi);
    let color = mean_color(&crop);
    let image = compose_canvas(color, in_image);
    let captions = stack_captions(config, date, color);
    assert(roi_mean(*in_image, roi, color));
    Ok(Composite { image, captions })
}

/// The captions of a night frame, given the instant's two labels: the three
/// stacked lines in `day_first` form, and a fourth line at the top of the
/// right half in `year_first` form.
pub fn night_captions(config: &Config, width: u32, day_first: &str, year_first: &str) -> (r: Vec<
    Caption,
>)
    ensures
        r@.len() == 4,
        stacked_captions(r@, *config, day_first@, config.night_color),
        caption_is(r@[3], place_label(config.location@, year_first@), width as int, config.text_y as int),
{
    let mut r = stack_captions(config, day_first, config.night_color);
    r.push(
        Caption {
            text: place_text(config.location.as_str(), year_first),
            x: width,
            y: config.text_y as u64,
        },
    );
    r
}

/// The night frame for instant `t`: a canvas of twice `width` by `height`
/// in the night colour, with the captions of `night_captions` for the
/// instant's `DD.MM.YYYY, HH:MM:SS` and `YYYY-MM-DD, HH:MM:SS` labels.
pub fn generate_night_image(config: &Config, width: u32, height: u32, t: i64) -> (r: Result<
    Composite,
    Error,
>)
    requires
        2 * width <= u32::MAX,
    ensures
        formattable(t as int) ==> r is Ok,
        r is Err ==> r == Err::<Composite, Error>(Error::OutOfRange),
        r matches Ok(f) ==> {
            &&& f.image.wf()
            &&& f.image.width == 2 * width
            &&& f.image.height == height
            &&& forall|x: int, y: int|
                0 <= x < f.image.width && 0 <= y < f.image.height ==> #[trigger] f.image.pixel(x, y)
                    == config.night_color
            &&& f.captions@.len() == 4
            &&& stacked_captions(
                f.captions@,
                *config,
                utc_formatted(t as int, day_first_pattern()),
                config.night_color,
            )
            &&& caption_is(
                f.captions@[3],
                place_label(config.location@, utc_formatted(t as int, year_first_pattern())),
                width as int,
                config.text_y as int,
            )
        },
{
    let image = solid_canvas(config.night_color, width, height);
    let day_first = format_utc(t, "%d.%m.%Y, %T");
    let year_first = format_utc(t, "%Y-%m-%d, %T");
    match (day_first, year_first) {
        (Some(d), Some(y)) => {
            let captions = night_captions(config, width, d.as_str(), y.as_str());
            Ok(Composite { image, captions })
        },
        _ => Err(Error::OutOfRange),
    }
}

/// `{stem}_green{instant}.{ext}`, the instant as chrono displays a UTC
/// instant.
pub open spec fn output_name(stem: Seq<char>, ext: Seq<char>, t: int) -> Seq<char> {
    stem + "_green"@ + utc_display_of(t) + "."@ + ext
}

/// The name of the frame rendered at instant `t` from the source file with
/// stem `stem` and extension `ext`.
pub fn output_file_name(stem: &str, ext: &str, t: i64) -> (r: Result<String, Error>)
    ensures
        formattable(t as int) ==> r is Ok,
        r matches Ok(s) ==> s@ == output_name(stem@, ext@, t as int),
        r is Err ==> r == Err::<String, Error>(Error::OutOfRange),
{
    match display_utc(t) {
        Some(d) => {
            let mut s = String::new();
            s.append(stem);
            s.append("_green");
            s.append(d.as_str());
            s.append(".");
            s.append(ext);
            assert(s@ =~= output_name(stem@, ext@, t as int));
            Ok(s)
        },
        None => Err(Error::OutOfRange),
    }
}

} // verus!
