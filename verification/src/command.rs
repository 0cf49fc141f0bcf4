//! The command model: a tagged union of operator-level instructions and the
//! validation rules that keep them inside physically reasonable envelopes.
//!
//! Coordinates, altitudes and speeds travel on the wire as decimal numbers.
//! Inside the library they are fixed-point values scaled by `SCALE`
//! (ten-thousandths), so that the bounds below are exact integer
//! comparisons: a latitude of 37.7749 degrees is stored as 377_749.

use vstd::prelude::*;

verus! {

/// Fixed-point scale: wire decimals carry at most four fractional digits.
pub const SCALE: i64 = 10000;

/// Inclusive latitude bound, scaled: 90 degrees.
pub const LAT_MAX: i64 = 90 * 10000;

/// Inclusive longitude bound, scaled: 180 degrees.
pub const LON_MAX: i64 = 180 * 10000;

/// Inclusive speed ceiling, scaled: 50 m/s.
pub const SPEED_MAX: i64 = 50 * 10000;

/// Inclusive rotation bound in whole degrees.
pub const DEGREES_MAX: u16 = 1080;

/// Inclusive filming duration bound in whole seconds.
pub const DURATION_MAX: u16 = 600;

/// A single operator-level instruction, tagged on the wire by the JSON
/// field `type` in snake_case (`go_to`, `take_picture`, `rotate_and_film`,
/// `ping`).  Absent optional fields stay absent through parse and dispatch;
/// they are never replaced by a sentinel value.
pub enum Command {
    GoTo {
        /// Latitude in ten-thousandths of a degree.
        lat: i64,
        /// Longitude in ten-thousandths of a degree.
        lon: i64,
        /// Altitude in ten-thousandths of a metre.
        alt_m: i64,
        /// Speed in ten-thousandths of a metre per second, if requested.
        speed_mps: Option<i64>,
    },
    TakePicture {
        /// Capture mode, free-form (e.g. "photo" or "hdr").
        mode: Option<String>,
    },
    RotateAndFilm {
        /// Rotation in whole degrees.
        degrees: u16,
        /// Filming duration in whole seconds, if requested.
        duration_s: Option<u16>,
        /// Video quality, free-form (e.g. "1080p60").
        quality: Option<String>,
    },
    Ping,
}

/// The mathematical value of a command: the same shape with unbounded
/// integers for the scaled numerics and character sequences for the
/// free-form strings.
pub enum CommandV {
    GoTo { lat: int, lon: int, alt_m: int, speed_mps: Option<int> },
    TakePicture { mode: Option<Seq<char>> },
    RotateAndFilm { degrees: int, duration_s: Option<int>, quality: Option<Seq<char>> },
    Ping,
}

impl View for Command {
    type V = CommandV;

    open spec fn view(&self) -> CommandV {
        match *self {
            Command::GoTo { lat, lon, alt_m, speed_mps } => CommandV::GoTo {
                lat: lat as int,
                lon: lon as int,
                alt_m: alt_m as int,
                speed_mps: match speed_mps {
                    Some(s) => Some(s as int),
                    None => None,
                },
            },
            Command::TakePicture { mode } => CommandV::TakePicture {
                mode: match mode {
                    Some(m) => Some(m@),
                    None => None,
                },
            },
            Command::RotateAndFilm { degrees, duration_s, quality } => CommandV::RotateAndFilm {
                degrees: degrees as int,
                duration_s: match duration_s {
                    Some(d) => Some(d as int),
                    None => None,
                },
                quality: match quality {
                    Some(q) => Some(q@),
                    None => None,
                },
            },
            Command::Ping => CommandV::Ping,
        }
    }
}

impl CommandV {
    /// Whether the command lies inside the physical envelopes that the
    /// bridge enforces before anything reaches the actuator path.
    pub open spec fn is_valid(self) -> bool {
        match self {
            CommandV::GoTo { lat, lon, alt_m, speed_mps } => {
                &&& -LAT_MAX <= lat <= LAT_MAX
                &&& -LON_MAX <= lon <= LON_MAX
                &&& alt_m >= 0
                &&& match speed_mps {
                    Some(s) => 0 < s <= SPEED_MAX,
                    None => true,
                }
            },
            CommandV::TakePicture { .. } => true,
            CommandV::RotateAndFilm { degrees, duration_s, .. } => {
                &&& 1 <= degrees <= DEGREES_MAX
                &&& match duration_s {
                    Some(d) => 1 <= d <= DURATION_MAX,
                    None => true,
                }
            },
            CommandV::Ping => true,
        }
    }

    /// The sentence naming the first violated bound, checked in the fixed
    /// order latitude, longitude, altitude, speed (and degrees before
    /// duration).  Meaningful only when `!self.is_valid()`.
    pub open spec fn violation(self) -> Seq<char> {
        match self {
            CommandV::GoTo { lat, lon, alt_m, .. } => {
                if !(-LAT_MAX <= lat <= LAT_MAX) {
                    "Latitude must be in [-90, 90]"@
                } else if !(-LON_MAX <= lon <= LON_MAX) {
                    "Longitude must be in [-180, 180]"@
                } else if !(alt_m >= 0) {
                    "Altitude must be non-negative"@
                } else {
                    "Speed must be in (0, 50] m/s"@
                }
            },
            CommandV::RotateAndFilm { degrees, .. } => {
                if !(1 <= degrees <= DEGREES_MAX) {
                    "Degrees must be in [1, 1080]"@
                } else {
                    "Duration must be in [1, 600] seconds"@
                }
            },
            _ => Seq::<char>::empty(),
        }
    }
}

impl Command {
    /// Validation: total, pure, and free of I/O.  Returns `Ok` exactly on
    /// the commands inside the envelopes, and otherwise the sentence
    /// naming the first violated bound.
    pub fn validate(&self) -> (r: Result<(), String>)
        ensures
            r is Ok <==> self@.is_valid(),
            r matches Err(m) ==> m@ == self@.violation(),
    {
        match self {
            Command::GoTo { lat, lon, alt_m, speed_mps } => {
                if !(-LAT_MAX <= *lat && *lat <= LAT_MAX) {
                    return Err(String::from_str("Latitude must be in [-90, 90]"));
                }
                if !(-LON_MAX <= *lon && *lon <= LON_MAX) {
                    return Err(String::from_str("Longitude must be in [-180, 180]"));
                }
                if *alt_m < 0 {
                    return Err(String::from_str("Altitude must be non-negative"));
                }
                if let Some(s) = speed_mps {
                    if *s <= 0 || *s > SPEED_MAX {
                        return Err(String::from_str("Speed must be in (0, 50] m/s"));
                    }
                }
                Ok(())
            },
            Command::TakePicture { .. } => Ok(()),
            Command::RotateAndFilm { degrees, duration_s, .. } => {
                if *degrees == 0 || *degrees > DEGREES_MAX {
                    return Err(String::from_str("Degrees must be in [1, 1080]"));
                }
                if let Some(d) = duration_s {
                    if *d == 0 || *d > DURATION_MAX {
                        return Err(String::from_str("Duration must be in [1, 600] seconds"));
                    }
                }
                Ok(())
            },
            Command::Ping => Ok(()),
        }
    }
}

} // verus!
