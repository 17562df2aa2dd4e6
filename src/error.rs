use vstd::prelude::*;

verus! {

/// Every way a run can fail. Each is fatal: the run stops where it occurs.
#[derive(Debug, PartialEq, Eq)]
pub enum Error {
    /// The configured location code is not in the location table.
    UnknownLocation,
    /// The region of interest is empty, negative, or outside an image.
    InvalidRoi,
    /// A configured start or end date is not a calendar date.
    InvalidDate,
    /// The step between frames is not a positive number of minutes.
    InvalidStep,
    /// A night boundary is not an hour of the day.
    InvalidNightHours,
    /// The input directory holds no image.
    NoImages,
    /// A file name does not carry a timestamp in the expected shape.
    MalformedName(String),
    /// An instant lies outside the range that can be formatted.
    OutOfRange,
}

} // verus!
