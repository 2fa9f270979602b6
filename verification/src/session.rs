//! Session state: conversion mode, the two coordinate representations, and
//! the zone descriptor.
use vstd::prelude::*;

use crate::Pair;

verus! {

/// Which representation is the source of truth for the session.
#[derive(Clone, Copy, Debug, PartialEq, Eq, Structural)]
pub enum ConversionMode {
    UTMtoLatLon,
    LatLontoUTM,
}

#[derive(Clone, Copy, Debug, PartialEq, Eq, Structural)]
pub enum Hemisphere {
    North,
    South,
}

/// A projected pair had no valid conversion, or there was nothing to convert.
#[derive(Clone, Copy, Debug, PartialEq, Eq, Structural)]
pub struct ConversionError;

/// A map center in micro-degrees and a discrete zoom level.
#[derive(Clone, Copy, Debug, PartialEq, Eq, Structural)]
pub struct Viewport {
    pub lon: i64,
    pub lat: i64,
    pub zoom: u8,
}

impl ConversionMode {
    pub fn label(&self) -> (s: &'static str)
        ensures
            *self is UTMtoLatLon ==> s@ == "UTM to Lat/Lon"@,
            *self is LatLontoUTM ==> s@ == "Lat/Lon to UTM"@,
    {
        match self {
            ConversionMode::UTMtoLatLon => "UTM to Lat/Lon",
            ConversionMode::LatLontoUTM => "Lat/Lon to UTM",
        }
    }
}

impl Hemisphere {
    pub fn label(&self) -> (s: &'static str)
        ensures
            *self is North ==> s@ == "North"@,
            *self is South ==> s@ == "South"@,
    {
        match self {
            Hemisphere::North => "North",
            Hemisphere::South => "South",
        }
    }
}

/// The mode a pair list is classified into: projected when the magnitude of
/// the second component of the first pair exceeds 1000 units (strictly),
/// geographic otherwise.
pub open spec fn spec_classify(first: Pair) -> ConversionMode {
    if first.y > 1000000000 || first.y < -1000000000 {
        ConversionMode::UTMtoLatLon
    } else {
        ConversionMode::LatLontoUTM
    }
}

/// Classifies a pair list by its first pair.
pub fn classify(first: &Pair) -> (m: ConversionMode)
    ensures
        m == spec_classify(*first),
{
    if first.y > 1000000000 || first.y < -1000000000 {
        ConversionMode::UTMtoLatLon
    } else {
        ConversionMode::LatLontoUTM
    }
}

/// The hemisphere a latitude lies in; the equator counts as north.
pub open spec fn spec_hemisphere_of(lat: i64) -> Hemisphere {
    if lat >= 0 {
        Hemisphere::North
    } else {
        Hemisphere::South
    }
}

/// The zone a longitude falls in before the regional exceptions, saturated
/// to the 0..=255 range as a saturating cast would give it.
pub open spec fn spec_zone_base(lon: int) -> int {
    let t: int = lon + 180000000;
    if t < 0 {
        0
    } else {
        let q: int = t / 6000000;
        if q + 1 > 255 {
            255
        } else {
            q + 1
        }
    }
}

/// The UTM zone number of a geographic point in micro-degrees: six-degree
/// bands counted from the antimeridian, with the exceptional zones around
/// Norway and Svalbard.
pub open spec fn spec_zone_number(lat: int, lon: int) -> int {
    if 56000000 <= lat && lat < 64000000 && 3000000 <= lon && lon < 12000000 {
        32
    } else if 72000000 <= lat && lat <= 84000000 && lon >= 0 && lon < 9000000 {
        31
    } else if 72000000 <= lat && lat <= 84000000 && lon >= 0 && lon < 21000000 {
        33
    } else if 72000000 <= lat && lat <= 84000000 && lon >= 0 && lon < 33000000 {
        35
    } else if 72000000 <= lat && lat <= 84000000 && lon >= 0 && lon < 42000000 {
        37
    } else {
        spec_zone_base(lon)
    }
}

/// The UTM zone number of a geographic point in micro-degrees.
pub fn zone_number(lat: i64, lon: i64) -> (z: u8)
    ensures
        z as int == spec_zone_number(lat as int, lon as int),
{
    if 56000000 <= lat && lat < 64000000 && 3000000 <= lon && lon < 12000000 {
        return 32;
    }
    if 72000000 <= lat && lat <= 84000000 && lon >= 0 {
        if lon < 9000000 {
            return 31;
        }
        if lon < 21000000 {
            return 33;
        }
        if lon < 33000000 {
            return 35;
        }
        if lon < 42000000 {
            return 37;
        }
    }
    if lon < -180000000 {
        return 0;
    }
    if lon >= 1350000000 {
        proof {
            let t: int = lon + 180000000;
            vstd::arithmetic::div_mod::lemma_div_is_ordered(1530000000, t, 6000000);
        }
        return 255;
    }
    let t: u64 = (lon + 180000000) as u64;
    let q: u64 = t / 6000000;
    proof {
        let ti: int = t as int;
        let qi: int = ti / 6000000;
        vstd::arithmetic::div_mod::lemma_fundamental_div_mod(ti, 6000000);
        vstd::arithmetic::div_mod::lemma_mod_bound(ti, 6000000);
        vstd::arithmetic::div_mod::lemma_div_pos_is_pos(ti, 6000000);
        assert(qi < 255) by {
            if qi >= 255 {
                assert(6000000 * qi >= 6000000 * 255) by (nonlinear_arith)
                    requires qi >= 255;
                assert(ti >= 1530000000);
            }
        }
    }
    (q + 1) as u8
}

/// The engine's session state: the conversion mode, the two paired
/// coordinate representations, and the zone descriptor that disambiguates
/// the projected one.
pub struct CoordinatesSuite {
    pub conversion_mode: ConversionMode,
    pub coords_geo: Vec<Pair>,
    pub coords_utm: Vec<Pair>,
    pub utm_zone: u8,
    pub hemisphere: Hemisphere,
}

impl CoordinatesSuite {
    /// A fresh session: geographic mode, no points, zone 30 north.
    pub fn new() -> (s: CoordinatesSuite)
        ensures
            s.conversion_mode == ConversionMode::LatLontoUTM,
            s.coords_geo@ == Seq::<Pair>::empty(),
            s.coords_utm@ == Seq::<Pair>::empty(),
            s.utm_zone == 30,
            s.hemisphere == Hemisphere::North,
    {
        CoordinatesSuite {
            conversion_mode: ConversionMode::LatLontoUTM,
            coords_geo: Vec::new(),
            coords_utm: Vec::new(),
            utm_zone: 30,
            hemisphere: Hemisphere::North,
        }
    }
}

} // verus!
