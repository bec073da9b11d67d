//! Coordinate validation, Maidenhead locators and great-circle sample counts.
//!
//! Coordinates cross this module as IEEE-754 binary64 bit patterns (what
//! `f64::to_bits` gives), and locator centres come out as exact multiples of
//! 1/480 of a degree, so every check here is exact.

use vstd::prelude::*;
use crate::textual::{
    chars_to_string, decimal, decimal_chars, extend_chars, is_ws, str_to_chars, to_upper, trim,
    trim_chars, trim_end, trim_start, upper, upper_seq,
};

verus! {

/// Default number of geodesic samples returned when the caller asks for `0`.
pub const DEFAULT_SAMPLE_COUNT: u32 = 64;

/// Minimum supported sample count: a geodesic holds both endpoints.
pub const MIN_SAMPLE_COUNT: u32 = 2;

/// Maximum supported sample count.
pub const MAX_SAMPLE_COUNT: u32 = 512;

/// All bits of a binary64 value but the sign.
pub const MAGNITUDE_MASK: u64 = 0x7fff_ffff_ffff_ffff;

/// The binary64 encoding of `90.0`.
pub const NINETY_DEGREES_BITS: u64 = 0x4056_8000_0000_0000;

/// The binary64 encoding of `180.0`.
pub const ONE_EIGHTY_DEGREES_BITS: u64 = 0x4066_8000_0000_0000;

/// A point as the binary64 encodings of its latitude and longitude in
/// decimal degrees.
#[derive(Debug, Clone, Copy, PartialEq, Eq, Structural)]
pub struct GeoPoint {
    pub latitude_bits: u64,
    pub longitude_bits: u64,
}

/// A point in exact units of 1/480 of a degree.
#[derive(Debug, Clone, Copy, PartialEq, Eq, Structural)]
pub struct GridPoint {
    pub latitude_480ths: i64,
    pub longitude_480ths: i64,
}

/// Errors of the geodesy module; the out-of-range variants carry the
/// offending coordinate's binary64 encoding.
#[derive(Debug, Clone, PartialEq, Eq)]
pub enum GeodesyError {
    LatitudeOutOfRange(u64),
    LongitudeOutOfRange(u64),
    SampleCountOutOfRange(u32),
    InvalidMaidenhead(String),
}

/// The binary64 value encoded by `bits` is finite and its magnitude is at
/// most the value encoded by `limit_bits` (a finite, non-negative value).
/// For non-NaN binary64 values, magnitude order is the unsigned order of the
/// encodings with the sign bit cleared, and every NaN or infinity encodes
/// above any finite magnitude.
pub open spec fn within_magnitude(bits: u64, limit_bits: u64) -> bool {
    (bits & MAGNITUDE_MASK) <= limit_bits
}

/// Latitude within `[-90, 90]` and finite.
pub open spec fn latitude_ok(bits: u64) -> bool {
    within_magnitude(bits, NINETY_DEGREES_BITS)
}

/// Longitude within `[-180, 180]` and finite.
pub open spec fn longitude_ok(bits: u64) -> bool {
    within_magnitude(bits, ONE_EIGHTY_DEGREES_BITS)
}

/// Validates a point's latitude and longitude: both finite, latitude in
/// `[-90, 90]`, longitude in `[-180, 180]`; the latitude is checked first.
pub fn validate_point(point: &GeoPoint) -> (r: Result<(), GeodesyError>)
    ensures
        !latitude_ok(point.latitude_bits) ==> r == Err::<(), GeodesyError>(
            GeodesyError::LatitudeOutOfRange(point.latitude_bits),
        ),
        latitude_ok(point.latitude_bits) && !longitude_ok(point.longitude_bits) ==> r == Err::<
            (),
            GeodesyError,
        >(GeodesyError::LongitudeOutOfRange(point.longitude_bits)),
        latitude_ok(point.latitude_bits) && longitude_ok(point.longitude_bits) ==> r is Ok,
{
    if (point.latitude_bits & MAGNITUDE_MASK) > NINETY_DEGREES_BITS {
        return Err(GeodesyError::LatitudeOutOfRange(point.latitude_bits));
    }
    if (point.longitude_bits & MAGNITUDE_MASK) > ONE_EIGHTY_DEGREES_BITS {
        return Err(GeodesyError::LongitudeOutOfRange(point.longitude_bits));
    }
    Ok(())
}

/// `c - lo` when `lo <= c <= hi`.
pub open spec fn offset_in(c: char, lo: char, hi: char) -> Option<u32> {
    if lo <= c <= hi {
        Some((c as u32 - lo as u32) as u32)
    } else {
        None
    }
}

/// The value of an ASCII decimal digit.
pub open spec fn digit_value(c: char) -> Option<u32> {
    offset_in(c, '0', '9')
}

pub fn char_in_range(c: char, lo: char, hi: char) -> (r: Option<u32>)
    ensures
        r == offset_in(c, lo, hi),
{
    if lo <= c && c <= hi {
        Some((c as u32) - (lo as u32))
    } else {
        None
    }
}

pub fn digit(c: char) -> (r: Option<u32>)
    ensures
        r == digit_value(c),
{
    char_in_range(c, '0', '9')
}

/// The first fault of a locator, as its message, or `None` when every
/// character is in range for its position.
pub open spec fn maidenhead_fault(u: Seq<char>) -> Option<Seq<char>> {
    let len = u.len();
    if !(len == 4 || len == 6 || len == 8) {
        Some("expected 4, 6, or 8 characters, got "@ + decimal(len))
    } else if offset_in(u[0], 'A', 'R') is None {
        Some("bad field char "@ + seq![u[0]])
    } else if offset_in(u[1], 'A', 'R') is None {
        Some("bad field char "@ + seq![u[1]])
    } else if digit_value(u[2]) is None {
        Some("bad square digit "@ + seq![u[2]])
    } else if digit_value(u[3]) is None {
        Some("bad square digit "@ + seq![u[3]])
    } else if len >= 6 && offset_in(u[4], 'A', 'X') is None {
        Some("bad subsquare char "@ + seq![u[4]])
    } else if len >= 6 && offset_in(u[5], 'A', 'X') is None {
        Some("bad subsquare char "@ + seq![u[5]])
    } else if len == 8 && digit_value(u[6]) is None {
        Some("bad extended digit "@ + seq![u[6]])
    } else if len == 8 && digit_value(u[7]) is None {
        Some("bad extended digit "@ + seq![u[7]])
    } else {
        None
    }
}

/// The centre of the locator cell `u` (already checked), in 1/480 degree:
/// field 20°x10°, square 2°x1°, subsquare 5'x2.5', extended square 30"x15".
pub open spec fn maidenhead_center(u: Seq<char>) -> (int, int) {
    let len = u.len();
    let lon = -86400 + 9600 * offset_in(u[0], 'A', 'R').unwrap() + 960 * digit_value(
        u[2],
    ).unwrap() + (if len >= 6 {
        40 * offset_in(u[4], 'A', 'X').unwrap()
    } else {
        0
    }) + (if len == 8 {
        4 * digit_value(u[6]).unwrap()
    } else {
        0
    }) + (if len == 4 {
        480int
    } else if len == 6 {
        20int
    } else {
        2int
    });
    let lat = -43200 + 4800 * offset_in(u[1], 'A', 'R').unwrap() + 480 * digit_value(
        u[3],
    ).unwrap() + (if len >= 6 {
        20 * offset_in(u[5], 'A', 'X').unwrap()
    } else {
        0
    }) + (if len == 8 {
        2 * digit_value(u[7]).unwrap()
    } else {
        0
    }) + (if len == 4 {
        240int
    } else if len == 6 {
        10int
    } else {
        1int
    });
    (lat, lon)
}

fn fault(text: &str, tail: &[char]) -> (e: GeodesyError)
    ensures
        e matches GeodesyError::InvalidMaidenhead(m) && m@ == text@ + tail@,
{
    let mut v = str_to_chars(text);
    extend_chars(&mut v, tail);
    GeodesyError::InvalidMaidenhead(chars_to_string(v.as_slice()))
}

/// Resolves a Maidenhead locator (4, 6 or 8 characters, any case, surrounding
/// whitespace ignored) to the centre of its cell.
pub fn maidenhead_to_geopoint(locator: &str) -> (r: Result<GridPoint, GeodesyError>)
    ensures
        ({
            let u = upper_seq(trim(locator@));
            match maidenhead_fault(u) {
                Some(m) => r matches Err(GeodesyError::InvalidMaidenhead(msg)) && msg@ == m,
                None => r matches Ok(p) && (p.latitude_480ths as int, p.longitude_480ths as int)
                    == maidenhead_center(u),
            }
        }),
{
    let raw = str_to_chars(locator);
    let trimmed = trim_chars(raw.as_slice());
    let mut upper: Vec<char> = Vec::new();
    let mut i: usize = 0;
    while i < trimmed.len()
        invariant
            i <= trimmed.len(),
            upper@ == upper_seq(trimmed@.take(i as int)),
        decreases trimmed.len() - i,
    {
        upper.push(to_upper(trimmed[i]));
        assert(upper_seq(trimmed@.take(i + 1)) =~= upper_seq(trimmed@.take(i as int)).push(
            crate::textual::upper(trimmed@[i as int]),
        ));
        i = i + 1;
    }
    assert(trimmed@.take(trimmed.len() as int) =~= trimmed@);
    let len = upper.len();
    if !(len == 4 || len == 6 || len == 8) {
        let d = decimal_chars(len as u64);
        return Err(fault("expected 4, 6, or 8 characters, got ", d.as_slice()));
    }
    let field_lon = match char_in_range(upper[0], 'A', 'R') {
        Some(v) => v,
        None => return Err(fault("bad field char ", &[upper[0]])),
    };
    let field_lat = match char_in_range(upper[1], 'A', 'R') {
        Some(v) => v,
        None => return Err(fault("bad field char ", &[upper[1]])),
    };
    let sq_lon = match digit(upper[2]) {
        Some(v) => v,
        None => return Err(fault("bad square digit ", &[upper[2]])),
    };
    let sq_lat = match digit(upper[3]) {
        Some(v) => v,
        None => return Err(fault("bad square digit ", &[upper[3]])),
    };
    let mut lon: i64 = -86400 + 9600 * (field_lon as i64) + 960 * (sq_lon as i64);
    let mut lat: i64 = -43200 + 4800 * (field_lat as i64) + 480 * (sq_lat as i64);
    let mut lon_half: i64 = 480;
    let mut lat_half: i64 = 240;
    if len >= 6 {
        let sub_lon = match char_in_range(upper[4], 'A', 'X') {
            Some(v) => v,
            None => return Err(fault("bad subsquare char ", &[upper[4]])),
        };
        let sub_lat = match char_in_range(upper[5], 'A', 'X') {
            Some(v) => v,
            None => return Err(fault("bad subsquare char ", &[upper[5]])),
        };
        lon = lon + 40 * (sub_lon as i64);
        lat = lat + 20 * (sub_lat as i64);
        lon_half = 20;
        lat_half = 10;
    }
    if len == 8 {
        let ext_lon = match digit(upper[6]) {
            Some(v) => v,
            None => return Err(fault("bad extended digit ", &[upper[6]])),
        };
        let ext_lat = match digit(upper[7]) {
            Some(v) => v,
            None => return Err(fault("bad extended digit ", &[upper[7]])),
        };
        lon = lon + 4 * (ext_lon as i64);
        lat = lat + 2 * (ext_lat as i64);
        lon_half = 2;
        lat_half = 1;
    }
    Ok(GridPoint { latitude_480ths: lat + lat_half, longitude_480ths: lon + lon_half })
}

/// Resolves the caller's sample count: 0 means the default, 2 through
/// `MAX_SAMPLE_COUNT` are honoured, anything else is an error.
pub fn resolve_sample_count(requested: u32) -> (r: Result<u32, GeodesyError>)
    ensures
        requested == 0 ==> r == Ok::<u32, GeodesyError>(DEFAULT_SAMPLE_COUNT),
        MIN_SAMPLE_COUNT <= requested <= MAX_SAMPLE_COUNT ==> r == Ok::<u32, GeodesyError>(
            requested,
        ),
        requested == 1 || requested > MAX_SAMPLE_COUNT ==> r == Err::<u32, GeodesyError>(
            GeodesyError::SampleCountOutOfRange(requested),
        ),
{
    if requested == 0 {
        Ok(DEFAULT_SAMPLE_COUNT)
    } else if MIN_SAMPLE_COUNT <= requested && requested <= MAX_SAMPLE_COUNT {
        Ok(requested)
    } else {
        Err(GeodesyError::SampleCountOutOfRange(requested))
    }
}

/// The samples of a path whose great circle is not unique (the same point
/// twice, or antipodes): `max(count, 2)` samples, each at `origin` while its
/// fraction `i / (n - 1)` of the way along is below one half, and at
/// `target` from there on.
pub fn endpoint_samples(origin: GeoPoint, target: GeoPoint, count: u32) -> (r: Vec<GeoPoint>)
    ensures
        r.len() == (if count < 2 {
            2
        } else {
            count as int
        }),
        forall|i: int|
            0 <= i < r.len() ==> r@[i] == (if 2 * i < r.len() - 1 {
                origin
            } else {
                target
            }),
{
    let n: u32 = if count < 2 {
        2
    } else {
        count
    };
    let mut out: Vec<GeoPoint> = Vec::new();
    let mut i: u32 = 0;
    while i < n
        invariant
            2 <= n,
            n == (if count < 2 {
                2
            } else {
                count
            }),
            i <= n,
            out.len() == i,
            forall|k: int| 0 <= k < i ==> out@[k] == (if 2 * k < n - 1 {
                origin
            } else {
                target
            }),
        decreases n - i,
    {
        let first_half = (i as u64) * 2 < (n as u64) - 1;
        out.push(if first_half {
            origin
        } else {
            target
        });
        i = i + 1;
    }
    out
}

/// Locator letters and digits are read without regard to case or to
/// surrounding whitespace: a locator and its upper-case form have the same
/// trimmed, upper-cased text, so the same fault or the same centre.
pub proof fn lemma_maidenhead_ignores_case(locator: Seq<char>)
    ensures
        upper_seq(trim(upper_seq(locator))) == upper_seq(trim(locator)),
{
    lemma_trim_upper(locator);
    assert(upper_seq(upper_seq(trim(locator))) =~= upper_seq(trim(locator)));
}

proof fn lemma_upper_keeps_ws(c: char)
    ensures
        is_ws(upper(c)) == is_ws(c),
        is_ws(c) ==> upper(c) == c,
{
}

proof fn lemma_trim_start_upper(s: Seq<char>)
    ensures
        trim_start(upper_seq(s)) == upper_seq(trim_start(s)),
    decreases s.len(),
{
    if s.len() > 0 {
        lemma_upper_keeps_ws(s[0]);
        if is_ws(s[0]) {
            assert(upper_seq(s).drop_first() =~= upper_seq(s.drop_first()));
            lemma_trim_start_upper(s.drop_first());
        }
    }
}

proof fn lemma_trim_end_upper(s: Seq<char>)
    ensures
        trim_end(upper_seq(s)) == upper_seq(trim_end(s)),
    decreases s.len(),
{
    if s.len() > 0 {
        lemma_upper_keeps_ws(s.last());
        if is_ws(s.last()) {
            assert(upper_seq(s).drop_last() =~= upper_seq(s.drop_last()));
            lemma_trim_end_upper(s.drop_last());
        }
    }
}

proof fn lemma_trim_upper(s: Seq<char>)
    ensures
        trim(upper_seq(s)) == upper_seq(trim(s)),
{
    lemma_trim_start_upper(s);
    lemma_trim_end_upper(trim_start(s));
}

/// A six- or eight-character locator names a cell inside the cell of its
/// first four characters: those are a valid locator too, and the centres
/// differ by less than half that cell (1 degree of longitude, half a degree
/// of latitude).
pub proof fn lemma_subsquare_inside_square(u: Seq<char>)
    requires
        maidenhead_fault(u) is None,
        u.len() >= 6,
    ensures
        maidenhead_fault(u.take(4)) is None,
        -240 < maidenhead_center(u).0 - maidenhead_center(u.take(4)).0 < 240,
        -480 < maidenhead_center(u).1 - maidenhead_center(u.take(4)).1 < 480,
{
}

/// An eight-character locator names a cell inside the cell of its first six
/// characters: those are a valid locator too, and the centres differ by
/// less than half that cell (2.5 minutes of longitude, 1.25 of latitude).
pub proof fn lemma_extended_inside_subsquare(u: Seq<char>)
    requires
        maidenhead_fault(u) is None,
        u.len() == 8,
    ensures
        maidenhead_fault(u.take(6)) is None,
        -10 < maidenhead_center(u).0 - maidenhead_center(u.take(6)).0 < 10,
        -20 < maidenhead_center(u).1 - maidenhead_center(u.take(6)).1 < 20,
{
}

} // verus!
