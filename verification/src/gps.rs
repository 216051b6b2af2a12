//! Positions, in whole numbers: degrees in units of 10⁻⁷, heights in centimetres,
//! speeds in hundredths of a knot and courses in hundredths of a degree.

use crate::text::{chars_of, find, first_index, slice, string_of, trim, trimmed};
use vstd::prelude::*;
use vstd::std_specs::cmp::PartialEqSpecImpl;

verus! {

/// Units per degree of latitude and longitude.
pub const DEGREE: i64 = 10_000_000;

/// The largest latitude, 90°.
pub const MAX_LATITUDE: i64 = 900_000_000;

/// The largest longitude, 180°.
pub const MAX_LONGITUDE: i64 = 1_800_000_000;

/// A position fix.
#[derive(Debug, Clone, Copy)]
pub struct GpsPosition {
    /// Degrees north, in units of 10⁻⁷ degree; south is negative.
    pub latitude: i64,
    /// Degrees east, in units of 10⁻⁷ degree; west is negative.
    pub longitude: i64,
    /// Height in centimetres.
    pub altitude: Option<i32>,
    /// Ground speed in hundredths of a knot.
    pub speed: Option<u32>,
    /// True course in hundredths of a degree.
    pub course: Option<u32>,
    /// Seconds since the Unix epoch.
    pub timestamp: i64,
}

/// Where positions come from.
#[derive(Debug, Clone, PartialEq)]
pub enum GpsSource {
    /// No positions.
    Disabled,
    /// Always the same position.
    Fixed(GpsPosition),
    /// A serial NMEA receiver: device and baud rate.
    SerialNmea(String, u32),
    /// A gpsd server: host and port.
    Gpsd(String, u16),
}

/// Two fixes are the same place if latitude and longitude each differ by less
/// than 10⁻⁶ degree.
pub open spec fn same_place(a: GpsPosition, b: GpsPosition) -> bool {
    -10 < a.latitude - b.latitude < 10 && -10 < a.longitude - b.longitude < 10
}

impl PartialEq for GpsPosition {
    fn eq(&self, other: &Self) -> (r: bool) {
        let dlat: i128 = self.latitude as i128 - other.latitude as i128;
        let dlon: i128 = self.longitude as i128 - other.longitude as i128;
        -10 < dlat && dlat < 10 && -10 < dlon && dlon < 10
    }
}

impl PartialEqSpecImpl for GpsPosition {
    open spec fn obeys_eq_spec() -> bool {
        true
    }

    open spec fn eq_spec(&self, other: &Self) -> bool {
        same_place(*self, *other)
    }
}

impl GpsPosition {
    /// Latitude within ±90° and longitude within ±180°.
    pub open spec fn valid(self) -> bool {
        -MAX_LATITUDE <= self.latitude <= MAX_LATITUDE && -MAX_LONGITUDE <= self.longitude
            <= MAX_LONGITUDE
    }
}

/// Why a fixed position is refused.
#[derive(Debug, Clone, Copy, PartialEq, Eq, Structural)]
pub enum PositionError {
    /// Fewer than two fields.
    Format,
    /// Latitude beyond ±90°.
    LatitudeOutOfRange,
    /// Longitude beyond ±180°.
    LongitudeOutOfRange,
}

/// The fields of a fixed position `lat,lon[,alt]` as they are written, white space
/// around each dropped.
#[derive(Debug, Clone, PartialEq, Eq)]
pub struct PositionFields {
    pub latitude: String,
    pub longitude: String,
    pub altitude: Option<String>,
}

/// The mathematical content of [`PositionFields`].
pub struct PositionFieldsView {
    pub latitude: Seq<char>,
    pub longitude: Seq<char>,
    pub altitude: Option<Seq<char>>,
}

impl View for PositionFields {
    type V = PositionFieldsView;

    open spec fn view(&self) -> PositionFieldsView {
        PositionFieldsView {
            latitude: self.latitude@,
            longitude: self.longitude@,
            altitude: match self.altitude {
                Some(a) => Some(a@),
                None => None,
            },
        }
    }
}

/// The `n`-th of the comma-separated fields of a text, counted from 0, if there
/// are that many.
pub open spec fn field(s: Seq<char>, n: nat) -> Option<Seq<char>>
    decreases n,
{
    let comma = first_index(s, ',');
    if n == 0 {
        Some(s.subrange(0, comma))
    } else if 0 <= comma < s.len() {
        field(s.subrange(comma + 1, s.len() as int), (n - 1) as nat)
    } else {
        None
    }
}

/// The fields of `lat,lon[,alt]`: the first three of the comma-separated fields of
/// the text, each without the white space around it. A text of fewer than two
/// fields has none; fields behind the third are not read.
pub open spec fn fields_of(s: Seq<char>) -> Option<PositionFieldsView> {
    if field(s, 1) is None {
        None
    } else {
        Some(
            PositionFieldsView {
                latitude: trim(field(s, 0)->0),
                longitude: trim(field(s, 1)->0),
                altitude: match field(s, 2) {
                    Some(f) => Some(trim(f)),
                    None => None,
                },
            },
        )
    }
}

/// The fix at a latitude and longitude in units of 10⁻⁷ degree and a height in
/// centimetres, without speed and course, or why there is none: the latitude must
/// lie within ±90° and the longitude within ±180°, the limits included. The
/// latitude is tested first.
pub open spec fn position_in_range(
    latitude: i64,
    longitude: i64,
    altitude: Option<i32>,
    timestamp: i64,
) -> Result<GpsPosition, PositionError> {
    if !(-MAX_LATITUDE <= latitude <= MAX_LATITUDE) {
        Err(PositionError::LatitudeOutOfRange)
    } else if !(-MAX_LONGITUDE <= longitude <= MAX_LONGITUDE) {
        Err(PositionError::LongitudeOutOfRange)
    } else {
        Ok(
            GpsPosition {
                latitude: latitude,
                longitude: longitude,
                altitude: altitude,
                speed: None,
                course: None,
                timestamp: timestamp,
            },
        )
    }
}

impl PositionError {
    /// A sentence that says what is wrong.
    pub fn message(&self) -> (r: String)
        ensures
            r@ == match *self {
                PositionError::Format => "Invalid position format. Use: latitude,longitude[,altitude]"@,
                PositionError::LatitudeOutOfRange => "Latitude must be between -90 and 90"@,
                PositionError::LongitudeOutOfRange => "Longitude must be between -180 and 180"@,
            },
    {
        match self {
            PositionError::Format => "Invalid position format. Use: latitude,longitude[,altitude]".to_owned(),
            PositionError::LatitudeOutOfRange => "Latitude must be between -90 and 90".to_owned(),
            PositionError::LongitudeOutOfRange => "Longitude must be between -180 and 180".to_owned(),
        }
    }
}

/// The `n`-th of the comma-separated fields of `s`, white space around it dropped.
fn trimmed_field(s: &Vec<char>, n: usize) -> (r: Option<Vec<char>>)
    ensures
        match r {
            Some(f) => field(s@, n as nat) is Some && f@ == trim(field(s@, n as nat)->0),
            None => field(s@, n as nat) is None,
        },
{
    let mut rest = slice(s, 0, s.len());
    assert(rest@ =~= s@);
    let mut k: usize = n;
    while k > 0
        invariant
            field(rest@, k as nat) == field(s@, n as nat),
        decreases k,
    {
        let comma = find(&rest, ',');
        if comma >= rest.len() {
            return None;
        }
        rest = slice(&rest, comma + 1, rest.len());
        k -= 1;
    }
    let comma = find(&rest, ',');
    let raw = slice(&rest, 0, comma);
    Some(trimmed(&raw))
}

/// Splits a fixed position `lat,lon[,alt]` into its fields. The numbers in the
/// fields are not read here.
pub fn position_fields(pos_str: &str) -> (r: Result<PositionFields, PositionError>)
    ensures
        match r {
            Ok(f) => fields_of(pos_str@) == Some(f@),
            Err(e) => fields_of(pos_str@) is None && e == PositionError::Format,
        },
{
    let s = chars_of(pos_str);
    let longitude = match trimmed_field(&s, 1) {
        Some(f) => f,
        None => {
            return Err(PositionError::Format);
        },
    };
    let latitude = match trimmed_field(&s, 0) {
        Some(f) => f,
        None => {
            return Err(PositionError::Format);
        },
    };
    let altitude = match trimmed_field(&s, 2) {
        Some(f) => Some(string_of(&f)),
        None => None,
    };
    Ok(
        PositionFields {
            latitude: string_of(&latitude),
            longitude: string_of(&longitude),
            altitude,
        },
    )
}

/// The fixed position at a latitude and longitude in units of 10⁻⁷ degree and a
/// height in centimetres, stamped with the time given; refused where latitude or
/// longitude is out of range.
pub fn fixed_position(latitude: i64, longitude: i64, altitude: Option<i32>, timestamp: i64) -> (r:
    Result<GpsPosition, PositionError>)
    ensures
        r == position_in_range(latitude, longitude, altitude, timestamp),
        r is Ok ==> r->Ok_0.valid(),
{
    if latitude < -MAX_LATITUDE || latitude > MAX_LATITUDE {
        return Err(PositionError::LatitudeOutOfRange);
    }
    if longitude < -MAX_LONGITUDE || longitude > MAX_LONGITUDE {
        return Err(PositionError::LongitudeOutOfRange);
    }
    Ok(GpsPosition { latitude, longitude, altitude, speed: None, course: None, timestamp })
}

} // verus!
