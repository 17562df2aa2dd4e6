//! The run's configuration: the raw values as read, and the checked values
//! the engine works with.
use vstd::prelude::*;
use crate::cursor::Timeline;
use crate::error::Error;
use crate::locations::{find_location, location_map, location_table, lookup};
use crate::raster::{Rgb, Roi};
use crate::timestamp::{formattable, utc_seconds, utc_seconds_of, valid_civil};

verus! {

/// Longest step between frames, in minutes.
pub const MAX_STEP_MINUTES: i64 = 0x4_4444_4444;

/// Configuration values as read, before any check. The font size is not
/// among them: only the text renderer needs it.
pub struct RawConfig {
    pub images_path: String,
    /// Left, top, width and height of the region of interest.
    pub roi: [i32; 4],
    pub font_path: String,
    pub font_color: [u8; 3],
    /// A location code of the location table.
    pub location: String,
    /// Year, month and day of the first frame's day.
    pub start_date: [u32; 3],
    /// Year, month and day of the last frame's day.
    pub end_date: [u32; 3],
    /// Step between frames, in minutes.
    pub duration: i64,
    /// The hours at which night starts and ends.
    pub night_times: [u32; 2],
    pub night_color: [u8; 3],
}

/// The checked configuration. Instants are seconds since the Unix epoch,
/// times of day seconds since midnight.
pub struct Config {
    pub input_path: String,
    pub roi: Roi,
    /// The place that the location code names.
    pub location: String,
    pub start_date: i64,
    pub end_date: i64,
    /// Step between frames, in seconds.
    pub duration: i64,
    pub night_start_time: u32,
    pub night_end_time: u32,
    pub night_color: Rgb,
    /// Where the first caption line is drawn.
    pub text_x: u32,
    pub text_y: u32,
    /// Height of one caption line, in pixels.
    pub line_height: u32,
}

pub open spec fn date_ok(d: [u32; 3]) -> bool {
    d[0] <= 9999 && valid_civil(d[0] as int, d[1] as int, d[2] as int, 0, 0, 0)
}

/// The first check that the raw values fail, if any.
pub open spec fn config_error(raw: RawConfig) -> Option<Error> {
    if lookup(location_table(), raw.location@) is None {
        Some(Error::UnknownLocation)
    } else if raw.roi[0] < 0 || raw.roi[1] < 0 || raw.roi[2] <= 0 || raw.roi[3] <= 0 {
        Some(Error::InvalidRoi)
    } else if raw.night_times[0] >= 24 || raw.night_times[1] >= 24 {
        Some(Error::InvalidNightHours)
    } else if !date_ok(raw.start_date) || !date_ok(raw.end_date) {
        Some(Error::InvalidDate)
    } else if raw.duration < 1 || raw.duration > MAX_STEP_MINUTES {
        Some(Error::InvalidStep)
    } else {
        None
    }
}

impl Config {
    pub open spec fn wf(&self) -> bool {
        &&& 0 < self.duration <= 0x100_0000_0000
        &&& formattable(self.start_date as int)
        &&& formattable(self.end_date as int)
        &&& self.roi.width > 0
        &&& self.roi.height > 0
    }

    /// Checks the raw values and resolves the location code. The first day
    /// starts at 00:00:00 and the last ends at 23:59:59, UTC. The caption
    /// text starts at the top left corner.
    pub fn from(raw: &RawConfig, line_height: u32) -> (r: Result<Config, Error>)
        ensures
            config_error(*raw) matches Some(e) ==> r == Err::<Config, Error>(e),
            config_error(*raw) is None ==> (r matches Ok(c) && {
                &&& c.wf()
                &&& c.input_path@ == raw.images_path@
                &&& lookup(location_table(), raw.location@) == Some(c.location@)
                &&& c.roi == (Roi {
                    x: raw.roi[0] as u32,
                    y: raw.roi[1] as u32,
                    width: raw.roi[2] as u32,
                    height: raw.roi[3] as u32,
                })
                &&& c.start_date == utc_seconds_of(
                    raw.start_date[0] as int,
                    raw.start_date[1] as int,
                    raw.start_date[2] as int,
                    0,
                    0,
                    0,
                )
                &&& c.end_date == utc_seconds_of(
                    raw.end_date[0] as int,
                    raw.end_date[1] as int,
                    raw.end_date[2] as int,
                    23,
                    59,
                    59,
                )
                &&& c.duration == 60 * raw.duration
                &&& c.night_start_time == 3600 * raw.night_times[0]
                &&& c.night_end_time == 3600 * raw.night_times[1]
                &&& c.night_color == (Rgb {
                    r: raw.night_color[0],
                    g: raw.night_color[1],
                    b: raw.night_color[2],
                })
                &&& c.text_x == 0 && c.text_y == 0
                &&& c.line_height == line_height
            }),
    {
        let map = location_map();
        let location = match find_location(&map, raw.location.as_str()) {
            Some(l) => l,
            None => {
                return Err(Error::UnknownLocation);
            },
        };
        if raw.roi[0] < 0 || raw.roi[1] < 0 || raw.roi[2] <= 0 || raw.roi[3] <= 0 {
            return Err(Error::InvalidRoi);
        }
        if raw.night_times[0] >= 24 || raw.night_times[1] >= 24 {
            return Err(Error::InvalidNightHours);
        }
        if raw.start_date[0] > 9999 || raw.end_date[0] > 9999 {
            return Err(Error::InvalidDate);
        }
        let start = utc_seconds(
            raw.start_date[0] as i32,
            raw.start_date[1],
            raw.start_date[2],
            0,
            0,
            0,
        );
        let end = utc_seconds(raw.end_date[0] as i32, raw.end_date[1], raw.end_date[2], 23, 59, 59);
        let (start, end) = match (start, end) {
            (Some(s), Some(e)) => (s, e),
            _ => {
                return Err(Error::InvalidDate);
            },
        };
        if raw.duration < 1 || raw.duration > MAX_STEP_MINUTES {
            return Err(Error::InvalidStep);
        }
        Ok(
            Config {
                input_path: raw.images_path.clone(),
                roi: Roi {
                    x: raw.roi[0] as u32,
                    y: raw.roi[1] as u32,
                    width: raw.roi[2] as u32,
                    height: raw.roi[3] as u32,
                },
                location,
                start_date: start,
                end_date: end,
                duration: 60 * raw.duration,
                night_start_time: 3600 * raw.night_times[0],
                night_end_time: 3600 * raw.night_times[1],
                night_color: Rgb { r: raw.night_color[0], g: raw.night_color[1], b: raw.night_color[2] },
                text_x: 0,
                text_y: 0,
                line_height,
            },
        )
    }

    /// The output timeline that the configuration describes.
    pub fn timeline(&self) -> (tl: Timeline)
        requires
            self.wf(),
        ensures
            tl.wf(),
            tl == (Timeline {
                start: self.start_date,
                end: self.end_date,
                step: self.duration,
                night_start: self.night_start_time,
                night_end: self.night_end_time,
            }),
    {
        Timeline {
            start: self.start_date,
            end: self.end_date,
            step: self.duration,
            night_start: self.night_start_time,
            night_end: self.night_end_time,
        }
    }
}

} // verus!
