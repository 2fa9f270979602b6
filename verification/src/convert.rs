//! UTM and geographic conversion over the projection of the `utm` crate.
//!
//! The projection itself runs in the outside crate; values cross that
//! boundary as decimal text, formatted from and parsed back into scaled
//! integers by this crate's verified formatter and parser.  What the
//! projection returns is named by the two uninterpreted functions below, so
//! every contract here is exact relative to those names.
use vstd::prelude::*;

use crate::Pair;
use crate::fmt::format_scaled;
use crate::fmt::spec_format_scaled;
use crate::num::parse_scaled;
use crate::num::spec_parse;
use crate::num::MAX_SCALED;
use crate::session::ConversionError;
use crate::session::ConversionMode;
use crate::session::CoordinatesSuite;
use crate::session::Hemisphere;
use crate::session::classify;
use crate::session::spec_classify;
use crate::session::spec_hemisphere_of;
use crate::session::spec_zone_number;
use crate::session::zone_number;
use crate::extract::parse_number_pairs;
use crate::extract::spec_extract;

verus! {

/// What `utm::wsg84_utm_to_lat_lon` answers for the given easting and
/// northing text, zone and zone letter: the latitude and longitude text, or
/// nothing when an argument does not parse or the projection rejects it.
pub uninterp spec fn utm_inverse(easting: Seq<char>, northing: Seq<char>, zone: u8, letter: char) -> Option<(Seq<char>, Seq<char>)>;

/// What `utm::to_utm_wgs84` answers for the given latitude and longitude
/// text and zone: the northing and easting text, or nothing when an
/// argument does not parse.
pub uninterp spec fn utm_forward(lat: Seq<char>, lon: Seq<char>, zone: u8) -> Option<(Seq<char>, Seq<char>)>;

/// Relies on utm::wsg84_utm_to_lat_lon: it inverts the UTM projection on
/// the WGS84 ellipsoid, answering Err exactly when the easting is outside
/// [100000, 1000000), the northing outside [0, 10000000], the zone outside
/// 1..=60, or the zone letter outside 'C'..='X'; otherwise it returns the
/// latitude and longitude in degrees.  The result depends on the numeric
/// arguments alone, which is what lets its text be named by `utm_inverse`.
#[verifier::external_body]
fn utm_inverse_call(easting: &str, northing: &str, zone: u8, letter: char) -> (r: Option<
    (String, String),
>)
    ensures
        r is None <==> utm_inverse(easting@, northing@, zone, letter) is None,
        r matches Some(p) ==> utm_inverse(easting@, northing@, zone, letter) == Some(
            (p.0@, p.1@),
        ),
{
    let e = match easting.parse() {
        Ok(v) => v,
        Err(_) => return None,
    };
    let n = match northing.parse() {
        Ok(v) => v,
        Err(_) => return None,
    };
    match utm::wsg84_utm_to_lat_lon(e, n, zone, letter) {
        Ok((lat, lon)) => Some((format!("{}", lat), format!("{}", lon))),
        Err(_) => None,
    }
}

/// Relies on utm::to_utm_wgs84: it projects a latitude and longitude in
/// degrees into the given UTM zone on the WGS84 ellipsoid and always
/// returns, giving northing, easting and meridian convergence; the
/// convergence is dropped here.  The result depends on the numeric
/// arguments alone, which is what lets its text be named by `utm_forward`.
#[verifier::external_body]
fn utm_forward_call(lat: &str, lon: &str, zone: u8) -> (r: Option<(String, String)>)
    ensures
        r is None <==> utm_forward(lat@, lon@, zone) is None,
        r matches Some(p) ==> utm_forward(lat@, lon@, zone) == Some((p.0@, p.1@)),
{
    let la = match lat.parse() {
        Ok(v) => v,
        Err(_) => return None,
    };
    let lo = match lon.parse() {
        Ok(v) => v,
        Err(_) => return None,
    };
    let (northing, easting, _convergence) = utm::to_utm_wgs84(la, lo, zone);
    Some((format!("{}", northing), format!("{}", easting)))
}

/// Both components are within the representable scaled range.
pub open spec fn bounded(p: Pair) -> bool {
    &&& -MAX_SCALED < p.x < MAX_SCALED
    &&& -MAX_SCALED < p.y < MAX_SCALED
}

/// The zone letter that stands for a hemisphere: the first northern band
/// letter for north, a southern band letter for south; the inverse
/// projection reads nothing of it but the side of the equator.
pub open spec fn spec_hemisphere_letter(h: Hemisphere) -> char {
    if h is North {
        'N'
    } else {
        'J'
    }
}

fn hemisphere_letter(h: &Hemisphere) -> (c: char)
    ensures
        c == spec_hemisphere_letter(*h),
{
    match h {
        Hemisphere::North => 'N',
        Hemisphere::South => 'J',
    }
}

/// The geographic pair `[lon, lat]` a projected pair inverts to through the
/// projection and the decimal-text boundary; `None` when the projection
/// rejects the pair or an end of the text boundary does not carry a single
/// representable number.
pub open spec fn geo_of(p: Pair, zone: u8, letter: char) -> Option<Pair> {
    if !bounded(p) {
        None
    } else {
        match utm_inverse(
            spec_format_scaled(p.x as int),
            spec_format_scaled(p.y as int),
            zone,
            letter,
        ) {
            None => None,
            Some(strs) => match (spec_parse(strs.0), spec_parse(strs.1)) {
                (Some(la), Some(lo)) => Some(Pair { x: lo, y: la }),
                _ => None,
            },
        }
    }
}

/// The projected pair `[easting, northing]` a geographic pair projects to
/// in the given zone, through the projection and the decimal-text boundary.
pub open spec fn utm_of(p: Pair, zone: u8) -> Option<Pair> {
    if !bounded(p) {
        None
    } else {
        match utm_forward(
            spec_format_scaled(p.y as int),
            spec_format_scaled(p.x as int),
            zone,
        ) {
            None => None,
            Some(strs) => match (spec_parse(strs.0), spec_parse(strs.1)) {
                (Some(n), Some(e)) => Some(Pair { x: e, y: n }),
                _ => None,
            },
        }
    }
}

/// All projected pairs inverted at once: the whole batch, or `None` as soon
/// as any one pair fails.
pub open spec fn geo_batch(utm: Seq<Pair>, zone: u8, letter: char) -> Option<Seq<Pair>> {
    if exists|q: int| 0 <= q < utm.len() && geo_of(#[trigger] utm[q], zone, letter) is None {
        None
    } else {
        Some(Seq::new(utm.len(), |q: int| geo_of(utm[q], zone, letter).unwrap()))
    }
}

/// All geographic pairs projected at once into the zone and hemisphere of
/// the first of them: the batch with its zone descriptor, or `None` when
/// the batch is empty or any one pair fails.
pub open spec fn utm_batch(geo: Seq<Pair>) -> Option<(Seq<Pair>, u8, Hemisphere)> {
    if geo.len() == 0 {
        None
    } else {
        let zone: u8 = spec_zone_number(geo[0].y as int, geo[0].x as int) as u8;
        let h = spec_hemisphere_of(geo[0].y);
        if exists|q: int| 0 <= q < geo.len() && utm_of(#[trigger] geo[q], zone) is None {
            None
        } else {
            Some((Seq::new(geo.len(), |q: int| utm_of(geo[q], zone).unwrap()), zone, h))
        }
    }
}

/// The inversion of one projected pair, against `geo_of`.
fn invert_point(p: Pair, zone: u8, letter: char) -> (r: Option<Pair>)
    ensures
        r == geo_of(p, zone, letter),
{
    if !(-MAX_SCALED < p.x && p.x < MAX_SCALED && -MAX_SCALED < p.y && p.y < MAX_SCALED) {
        return None;
    }
    let ex = format_scaled(p.x);
    let ny = format_scaled(p.y);
    match utm_inverse_call(ex.as_str(), ny.as_str(), zone, letter) {
        None => None,
        Some(strs) => {
            let la = parse_scaled(strs.0.as_str());
            let lo = parse_scaled(strs.1.as_str());
            match (la, lo) {
                (Some(la_v), Some(lo_v)) => Some(Pair { x: lo_v, y: la_v }),
                _ => None,
            }
        },
    }
}

/// The projection of one geographic pair, against `utm_of`.
fn project_point(p: Pair, zone: u8) -> (r: Option<Pair>)
    ensures
        r == utm_of(p, zone),
{
    if !(-MAX_SCALED < p.x && p.x < MAX_SCALED && -MAX_SCALED < p.y && p.y < MAX_SCALED) {
        return None;
    }
    let la = format_scaled(p.y);
    let lo = format_scaled(p.x);
    match utm_forward_call(la.as_str(), lo.as_str(), zone) {
        None => None,
        Some(strs) => {
            let n = parse_scaled(strs.0.as_str());
            let e = parse_scaled(strs.1.as_str());
            match (n, e) {
                (Some(n_v), Some(e_v)) => Some(Pair { x: e_v, y: n_v }),
                _ => None,
            }
        },
    }
}

/// The outcome of re-parsing the session from a text.
#[derive(Clone, Copy, Debug, PartialEq, Eq, Structural)]
pub enum ParseOutcome {
    /// The text held no numeric pair; the session is untouched.
    Empty,
    /// Pairs were taken over and the dependent representation rebuilt.
    Converted,
    /// Pairs were taken over but the conversion failed; the dependent
    /// representation keeps its prior value.
    Failed,
}

impl CoordinatesSuite {
    /// Rebuilds the geographic representation from the projected one, using
    /// the session's zone and hemisphere.  All-or-nothing: on any failure
    /// the geographic representation is left as it was.
    pub fn compute_geo_coords(&mut self) -> (r: Result<(), ConversionError>)
        ensures
            final(self).conversion_mode == old(self).conversion_mode,
            final(self).coords_utm@ == old(self).coords_utm@,
            final(self).utm_zone == old(self).utm_zone,
            final(self).hemisphere == old(self).hemisphere,
            r is Ok <==> old(self).coords_utm@.len() > 0 && geo_batch(
                old(self).coords_utm@,
                old(self).utm_zone,
                spec_hemisphere_letter(old(self).hemisphere),
            ) is Some,
            r is Ok ==> Some(final(self).coords_geo@) == geo_batch(
                old(self).coords_utm@,
                old(self).utm_zone,
                spec_hemisphere_letter(old(self).hemisphere),
            ),
            r is Err ==> final(self).coords_geo@ == old(self).coords_geo@,
    {
        if self.coords_utm.len() == 0 {
            return Err(ConversionError);
        }
        let letter = hemisphere_letter(&self.hemisphere);
        let zone = self.utm_zone;
        let ghost useq = self.coords_utm@;
        let mut out: Vec<Pair> = Vec::new();
        let mut q: usize = 0;
        while q < self.coords_utm.len()
            invariant
                q <= useq.len(),
                self.coords_utm@ == useq,
                letter == spec_hemisphere_letter(self.hemisphere),
                zone == self.utm_zone,
                out@.len() == q,
                forall|t: int| 0 <= t < q ==> geo_of(#[trigger] useq[t], zone, letter)
                    == Some(out@[t]),
            decreases useq.len() - q,
        {
            let p = self.coords_utm[q];
            match invert_point(p, zone, letter) {
                Some(g) => {
                    out.push(g);
                },
                None => {
                    proof {
                        assert(geo_of(useq[q as int], zone, letter) is None);
                    }
                    return Err(ConversionError);
                },
            }
            q = q + 1;
        }
        proof {
            assert(forall|t: int| 0 <= t < useq.len() ==> geo_of(
                #[trigger] useq[t],
                zone,
                letter,
            ) is Some);
            assert(out@ =~= Seq::new(useq.len(), |t: int| geo_of(useq[t], zone, letter).unwrap()));
        }
        self.coords_geo = out;
        Ok(())
    }

    /// Rebuilds the projected representation from the geographic one,
    /// deriving the zone and hemisphere from the first point alone and
    /// projecting every point into that single zone.  All-or-nothing: on
    /// any failure the projected representation and the zone descriptor
    /// keep their prior values.
    pub fn compute_utm_coords(&mut self) -> (r: Result<(), ConversionError>)
        ensures
            final(self).conversion_mode == old(self).conversion_mode,
            final(self).coords_geo@ == old(self).coords_geo@,
            r is Ok <==> utm_batch(old(self).coords_geo@) is Some,
            r is Ok ==> ({
                let b = utm_batch(old(self).coords_geo@).unwrap();
                &&& final(self).coords_utm@ == b.0
                &&& final(self).utm_zone == b.1
                &&& final(self).hemisphere == b.2
            }),
            r is Err ==> final(self).coords_utm@ == old(self).coords_utm@ && final(self).utm_zone == old(self).utm_zone && final(self).hemisphere == old(self).hemisphere,
    {
        if self.coords_geo.len() == 0 {
            return Err(ConversionError);
        }
        let first = self.coords_geo[0];
        let zone = zone_number(first.y, first.x);
        let h = if first.y >= 0 {
            Hemisphere::North
        } else {
            Hemisphere::South
        };
        let ghost gseq = self.coords_geo@;
        let mut out: Vec<Pair> = Vec::new();
        let mut q: usize = 0;
        while q < self.coords_geo.len()
            invariant
                q <= gseq.len(),
                self.coords_geo@ == gseq,
                gseq.len() > 0,
                zone as int == spec_zone_number(gseq[0].y as int, gseq[0].x as int),
                out@.len() == q,
                forall|t: int| 0 <= t < q ==> utm_of(#[trigger] gseq[t], zone) == Some(out@[t]),
            decreases gseq.len() - q,
        {
            let p = self.coords_geo[q];
            match project_point(p, zone) {
                Some(u) => {
                    out.push(u);
                },
                None => {
                    proof {
                        assert(utm_of(gseq[q as int], zone) is None);
                    }
                    return Err(ConversionError);
                },
            }
            q = q + 1;
        }
        proof {
            assert(forall|t: int| 0 <= t < gseq.len() ==> utm_of(#[trigger] gseq[t], zone)
                is Some);
            assert(out@ =~= Seq::new(gseq.len(), |t: int| utm_of(gseq[t], zone).unwrap()));
        }
        self.coords_utm = out;
        self.utm_zone = zone;
        self.hemisphere = h;
        Ok(())
    }

    /// Re-parses the session from a text: extracts its pairs, classifies
    /// them by the second component of the first pair, takes them over as
    /// the authoritative representation, and rebuilds the dependent one.
    /// A text without pairs changes nothing.
    pub fn parse_coordinates(&mut self, text: &str) -> (r: ParseOutcome)
        ensures
            ({
                let pairs = spec_extract(text@);
                &&& (pairs.len() == 0 ==> r is Empty && final(self).conversion_mode == old(self).conversion_mode && final(self).coords_geo@ == old(self).coords_geo@ && final(self).coords_utm@ == old(self).coords_utm@ && final(self).utm_zone == old(self).utm_zone && final(self).hemisphere == old(self).hemisphere)
                &&& (pairs.len() > 0 ==> final(self).conversion_mode == spec_classify(pairs[0]))
                &&& (pairs.len() > 0 && spec_classify(pairs[0]) is UTMtoLatLon ==> ({
                    let gb = geo_batch(
                        pairs,
                        old(self).utm_zone,
                        spec_hemisphere_letter(old(self).hemisphere),
                    );
                    &&& final(self).coords_utm@ == pairs
                    &&& final(self).utm_zone == old(self).utm_zone
                    &&& final(self).hemisphere == old(self).hemisphere
                    &&& (gb is Some ==> Some(final(self).coords_geo@) == gb && r is Converted)
                    &&& (gb is None ==> final(self).coords_geo@ == old(self).coords_geo@ && r
                        is Failed)
                }))
                &&& (pairs.len() > 0 && spec_classify(pairs[0]) is LatLontoUTM ==> ({
                    let swapped = pairs.map_values(|p: Pair| Pair { x: p.y, y: p.x });
                    let ub = utm_batch(swapped);
                    &&& final(self).coords_geo@ == swapped
                    &&& (ub is Some ==> ({
                        let b = ub.unwrap();
                        &&& final(self).coords_utm@ == b.0
                        &&& final(self).utm_zone == b.1
                        &&& final(self).hemisphere == b.2
                        &&& r is Converted
                    }))
                    &&& (ub is None ==> final(self).coords_utm@ == old(self).coords_utm@ && final(self).utm_zone == old(self).utm_zone && final(self).hemisphere == old(self).hemisphere && r is Failed)
                }))
            }),
    {
        let pairs = parse_number_pairs(text);
        if pairs.len() == 0 {
            return ParseOutcome::Empty;
        }
        let mode = classify(&pairs[0]);
        self.conversion_mode = mode;
        match mode {
            ConversionMode::UTMtoLatLon => {
                self.coords_utm = pairs;
                match self.compute_geo_coords() {
                    Ok(()) => ParseOutcome::Converted,
                    Err(_) => ParseOutcome::Failed,
                }
            },
            ConversionMode::LatLontoUTM => {
                let ghost pseq = pairs@;
                let mut g: Vec<Pair> = Vec::new();
                let mut q: usize = 0;
                while q < pairs.len()
                    invariant
                        q <= pseq.len(),
                        pairs@ == pseq,
                        g@.len() == q,
                        forall|t: int| 0 <= t < q ==> g@[t] == (Pair {
                            x: pseq[t].y,
                            y: pseq[t].x,
                        }),
                    decreases pseq.len() - q,
                {
                    let p = pairs[q];
                    g.push(Pair { x: p.y, y: p.x });
                    q = q + 1;
                }
                proof {
                    assert(g@ =~= pseq.map_values(|p: Pair| Pair { x: p.y, y: p.x }));
                }
                self.coords_geo = g;
                match self.compute_utm_coords() {
                    Ok(()) => ParseOutcome::Converted,
                    Err(_) => ParseOutcome::Failed,
                }
            },
        }
    }
}

} // verus!
