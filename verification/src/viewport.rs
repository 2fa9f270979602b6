//! Viewport derivation: centroid and discrete zoom level for a set of
//! geographic points.
//!
//! The zoom level is the first index into a fixed descending table of
//! angular tile widths that the padded bounding range exceeds; the padding
//! factor is 13/10.  A single point always gets a fixed close-in level.
use vstd::prelude::*;

use crate::Pair;
use crate::num::MAX_SCALED;
use crate::session::Viewport;

verus! {

use vstd::arithmetic::div_mod::lemma_div_is_ordered;
use vstd::arithmetic::div_mod::lemma_div_multiples_vanish;
use vstd::arithmetic::div_mod::lemma_hoist_over_denominator;

/// Default map center when there is no point, in micro-degrees.
pub const DEFAULT_LAT: i64 = 41651285;

/// Default map center when there is no point, in micro-degrees.
pub const DEFAULT_LON: i64 = -869147;

/// Fixed close-in zoom level for a single point.
pub const SINGLE_POINT_ZOOM: u8 = 15;

/// The angular width, in micro-degrees, of a map tile at zoom level `i`.
pub open spec fn spec_tile_width(i: int) -> int {
    if i == 0 {
        360000000
    } else if i == 1 {
        180000000
    } else if i == 2 {
        90000000
    } else if i == 3 {
        45000000
    } else if i == 4 {
        22500000
    } else if i == 5 {
        11250000
    } else if i == 6 {
        5625000
    } else if i == 7 {
        2813000
    } else if i == 8 {
        1406000
    } else if i == 9 {
        703000
    } else if i == 10 {
        352000
    } else if i == 11 {
        176000
    } else if i == 12 {
        88000
    } else if i == 13 {
        44000
    } else if i == 14 {
        22000
    } else if i == 15 {
        11000
    } else if i == 16 {
        5000
    } else if i == 17 {
        3000
    } else if i == 18 {
        1000
    } else if i == 19 {
        500
    } else {
        250
    }
}

pub fn tile_width(i: u8) -> (w: i64)
    requires
        i < 21,
    ensures
        w == spec_tile_width(i as int),
{
    if i == 0 {
        360000000
    } else if i == 1 {
        180000000
    } else if i == 2 {
        90000000
    } else if i == 3 {
        45000000
    } else if i == 4 {
        22500000
    } else if i == 5 {
        11250000
    } else if i == 6 {
        5625000
    } else if i == 7 {
        2813000
    } else if i == 8 {
        1406000
    } else if i == 9 {
        703000
    } else if i == 10 {
        352000
    } else if i == 11 {
        176000
    } else if i == 12 {
        88000
    } else if i == 13 {
        44000
    } else if i == 14 {
        22000
    } else if i == 15 {
        11000
    } else if i == 16 {
        5000
    } else if i == 17 {
        3000
    } else if i == 18 {
        1000
    } else if i == 19 {
        500
    } else {
        250
    }
}

/// The first table index whose tile the padded range exceeds, from `i` on;
/// 0 when none does.
pub open spec fn first_exceed(range: int, i: int) -> int
    decreases 21 - i when i <= 21
{
    if i >= 21 {
        0
    } else if 13 * range > 10 * spec_tile_width(i) {
        i
    } else {
        first_exceed(range, i + 1)
    }
}

pub open spec fn spec_min_lat(s: Seq<Pair>) -> int
    decreases s.len()
{
    if s.len() <= 1 {
        if s.len() == 0 {
            0
        } else {
            s[0].y as int
        }
    } else {
        let m: int = spec_min_lat(s.drop_last());
        if (s.last().y as int) < m {
            s.last().y as int
        } else {
            m
        }
    }
}

pub open spec fn spec_max_lat(s: Seq<Pair>) -> int
    decreases s.len()
{
    if s.len() <= 1 {
        if s.len() == 0 {
            0
        } else {
            s[0].y as int
        }
    } else {
        let m: int = spec_max_lat(s.drop_last());
        if (s.last().y as int) > m {
            s.last().y as int
        } else {
            m
        }
    }
}

pub open spec fn spec_min_lon(s: Seq<Pair>) -> int
    decreases s.len()
{
    if s.len() <= 1 {
        if s.len() == 0 {
            0
        } else {
            s[0].x as int
        }
    } else {
        let m: int = spec_min_lon(s.drop_last());
        if (s.last().x as int) < m {
            s.last().x as int
        } else {
            m
        }
    }
}

pub open spec fn spec_max_lon(s: Seq<Pair>) -> int
    decreases s.len()
{
    if s.len() <= 1 {
        if s.len() == 0 {
            0
        } else {
            s[0].x as int
        }
    } else {
        let m: int = spec_max_lon(s.drop_last());
        if (s.last().x as int) > m {
            s.last().x as int
        } else {
            m
        }
    }
}

/// The larger of the latitude and longitude bounding ranges.
pub open spec fn spec_range(s: Seq<Pair>) -> int {
    let lat_range: int = spec_max_lat(s) - spec_min_lat(s);
    let lon_range: int = spec_max_lon(s) - spec_min_lon(s);
    if lat_range > lon_range {
        lat_range
    } else {
        lon_range
    }
}

/// The zoom level of a point set: the fixed close-in level for a single
/// point, else the first tile the padded bounding range exceeds, 0 when it
/// exceeds none (an empty or degenerate set included).
pub open spec fn spec_zoom(s: Seq<Pair>) -> int {
    if s.len() == 1 {
        SINGLE_POINT_ZOOM as int
    } else if s.len() == 0 {
        0
    } else {
        first_exceed(spec_range(s), 0)
    }
}

pub open spec fn sum_lat(s: Seq<Pair>) -> int
    decreases s.len()
{
    if s.len() == 0 {
        0
    } else {
        sum_lat(s.drop_last()) + s.last().y
    }
}

pub open spec fn sum_lon(s: Seq<Pair>) -> int
    decreases s.len()
{
    if s.len() == 0 {
        0
    } else {
        sum_lon(s.drop_last()) + s.last().x
    }
}

/// All components are within the representable scaled range.
pub open spec fn all_bounded(s: Seq<Pair>) -> bool {
    forall|q: int| 0 <= q < s.len() ==> -MAX_SCALED < (#[trigger] s[q]).x < MAX_SCALED
        && -MAX_SCALED < s[q].y < MAX_SCALED
}

impl crate::session::CoordinatesSuite {
    /// The zoom level framing the geographic points, as `spec_zoom` gives
    /// it.  A single point always yields the fixed close-in level,
    /// whatever its value.
    pub fn calculate_zoom_level(&self) -> (z: u8)
        requires
            all_bounded(self.coords_geo@),
        ensures
            z as int == spec_zoom(self.coords_geo@),
            self.coords_geo@.len() == 1 ==> z == SINGLE_POINT_ZOOM,
    {
        let s = &self.coords_geo;
        let n = s.len();
        if n == 1 {
            return SINGLE_POINT_ZOOM;
        }
        if n == 0 {
            return 0;
        }
        let ghost gs = s@;
        let first = s[0];
        let mut min_lat: i64 = first.y;
        let mut max_lat: i64 = first.y;
        let mut min_lon: i64 = first.x;
        let mut max_lon: i64 = first.x;
        let mut q: usize = 1;
        proof {
            assert(gs.subrange(0, 1) =~= seq![gs[0]]);
        }
        while q < n
            invariant
                1 <= q <= n,
                n == gs.len(),
                self.coords_geo@ == gs,
                s@ == gs,
                all_bounded(gs),
                min_lat as int == spec_min_lat(gs.subrange(0, q as int)),
                max_lat as int == spec_max_lat(gs.subrange(0, q as int)),
                min_lon as int == spec_min_lon(gs.subrange(0, q as int)),
                max_lon as int == spec_max_lon(gs.subrange(0, q as int)),
                -MAX_SCALED < min_lat < MAX_SCALED,
                -MAX_SCALED < max_lat < MAX_SCALED,
                -MAX_SCALED < min_lon < MAX_SCALED,
                -MAX_SCALED < max_lon < MAX_SCALED,
            decreases n - q,
        {
            let p = s[q];
            proof {
                assert(gs.subrange(0, q + 1).drop_last() =~= gs.subrange(0, q as int));
                assert(gs.subrange(0, q + 1).last() == gs[q as int]);
            }
            if p.y < min_lat {
                min_lat = p.y;
            }
            if p.y > max_lat {
                max_lat = p.y;
            }
            if p.x < min_lon {
                min_lon = p.x;
            }
            if p.x > max_lon {
                max_lon = p.x;
            }
            q = q + 1;
        }
        proof {
            assert(gs.subrange(0, n as int) =~= gs);
        }
        let lat_range: i64 = max_lat - min_lat;
        let lon_range: i64 = max_lon - min_lon;
        let range: i64 = if lat_range > lon_range {
            lat_range
        } else {
            lon_range
        };
        proof {
            assert(range as int == spec_range(gs));
        }
        let mut i: u8 = 0;
        while i < 21
            invariant
                i <= 21,
                self.coords_geo@ == gs,
                n == gs.len(),
                2 <= n,
                range as int == spec_range(gs),
                first_exceed(range as int, 0) == first_exceed(range as int, i as int),
            decreases 21 - i,
        {
            let w = tile_width(i);
            if 13 * (range as i128) > 10 * (w as i128) {
                proof {
                    assert(13 * (range as int) > 10 * spec_tile_width(i as int));
                    assert(first_exceed(range as int, i as int) == i as int);
                    assert(spec_zoom(gs) == i as int);
                }
                return i;
            }
            i = i + 1;
        }
        0
    }

    /// The viewport framing the geographic points: their centroid, each
    /// coordinate the floor of the arithmetic mean, and the zoom level of
    /// `spec_zoom`; the fixed default location when there is no point.
    pub fn move_map_to_points(&self) -> (v: Viewport)
        requires
            all_bounded(self.coords_geo@),
        ensures
            v.zoom as int == spec_zoom(self.coords_geo@),
            self.coords_geo@.len() == 0 ==> v.lon == DEFAULT_LON && v.lat == DEFAULT_LAT,
            self.coords_geo@.len() > 0 ==> v.lon as int == sum_lon(self.coords_geo@) / (
            self.coords_geo@.len() as int) && v.lat as int == sum_lat(self.coords_geo@) / (
            self.coords_geo@.len() as int),
    {
        let s = &self.coords_geo;
        let n = s.len();
        if n == 0 {
            return Viewport { lon: DEFAULT_LON, lat: DEFAULT_LAT, zoom: 0 };
        }
        let ghost gs = s@;
        let mut slat: i128 = 0;
        let mut slon: i128 = 0;
        let mut q: usize = 0;
        proof {
            assert(gs.subrange(0, 0) =~= Seq::<Pair>::empty());
        }
        while q < n
            invariant
                q <= n,
                n == gs.len(),
                self.coords_geo@ == gs,
                s@ == gs,
                all_bounded(gs),
                slat as int == sum_lat(gs.subrange(0, q as int)),
                slon as int == sum_lon(gs.subrange(0, q as int)),
                -(q as int) * (MAX_SCALED as int) < slat < (q as int) * (MAX_SCALED as int)
                    || slat == 0,
                -(q as int) * (MAX_SCALED as int) < slon < (q as int) * (MAX_SCALED as int)
                    || slon == 0,
            decreases n - q,
        {
            let p = s[q];
            proof {
                assert(gs.subrange(0, q + 1).drop_last() =~= gs.subrange(0, q as int));
                assert(gs.subrange(0, q + 1).last() == gs[q as int]);
                assert((q as int) * (MAX_SCALED as int) + (MAX_SCALED as int) == (q as int + 1)
                    * (MAX_SCALED as int)) by (nonlinear_arith);
                assert(n as int * (MAX_SCALED as int) <= 18446744073709551615
                    * 1000000000000000000) by (nonlinear_arith)
                    requires n as int <= 18446744073709551615;
            }
            slat = slat + (p.y as i128);
            slon = slon + (p.x as i128);
            q = q + 1;
        }
        proof {
            assert(gs.subrange(0, n as int) =~= gs);
        }
        let lat = floor_mean(slat, n);
        let lon = floor_mean(slon, n);
        let zoom = self.calculate_zoom_level();
        Viewport { lon, lat, zoom }
    }
}

/// The floor of `sum / cnt` for a sum of fewer than `cnt` values each below
/// `MAX_SCALED` in magnitude.
fn floor_mean(sum: i128, cnt: usize) -> (m: i64)
    requires
        cnt > 0,
        -(cnt as int) * (MAX_SCALED as int) < sum < (cnt as int) * (MAX_SCALED as int) || sum
            == 0,
    ensures
        m as int == sum as int / cnt as int,
{
    let ghost c: int = cnt as int;
    let ghost mx: int = MAX_SCALED as int;
    proof {
        assert(c * mx <= 18446744073709551615 * 1000000000000000000) by (nonlinear_arith)
            requires
                0 <= c <= 18446744073709551615,
                mx == 1000000000000000000,
        ;
        assert(c * mx >= mx) by (nonlinear_arith)
            requires
                c >= 1,
                mx >= 0,
        ;
    }
    let off: i128 = (cnt as i128) * (MAX_SCALED as i128);
    let num: i128 = sum + off;
    let q128: u128 = (num as u128) / (cnt as u128);
    proof {
        lemma_hoist_over_denominator(sum as int, mx, cnt as nat);
        assert(sum as int / c + mx == (sum as int + mx * c) / c);
        assert(mx * c == c * mx) by (nonlinear_arith);
        // bounds of the floor of the mean
        lemma_div_multiples_vanish(mx, c);
        lemma_div_multiples_vanish(-mx, c);
        assert(c * (-mx) == -(c * mx)) by (nonlinear_arith);
        lemma_div_is_ordered(sum as int, c * mx, c);
        lemma_div_is_ordered(c * (-mx), sum as int, c);
        assert(-mx <= sum as int / c <= mx);
    }
    (q128 as i128 - (MAX_SCALED as i128)) as i64
}

/// From any start index, a range that exceeds the narrowest tile finds an
/// index between the start and the last entry.
proof fn lemma_first_exceed_in_bounds(range: int, i: int)
    requires
        0 <= i <= 20,
        13 * range > 10 * spec_tile_width(20),
    ensures
        i <= first_exceed(range, i) <= 20,
    decreases 21 - i,
{
    if !(13 * range > 10 * spec_tile_width(i)) {
        lemma_first_exceed_in_bounds(range, i + 1);
    }
}

proof fn lemma_first_exceed_monotonic(r1: int, r2: int, i: int)
    requires
        0 <= i <= 20,
        r1 <= r2,
        13 * r1 > 10 * spec_tile_width(20),
    ensures
        first_exceed(r1, i) >= first_exceed(r2, i),
    decreases 21 - i,
{
    if 13 * r2 > 10 * spec_tile_width(i) {
        lemma_first_exceed_in_bounds(r1, i);
    } else {
        lemma_first_exceed_monotonic(r1, r2, i + 1);
    }
}

/// Zoom is monotone in the bounding range: of two multi-point sets whose
/// padded ranges both exceed the narrowest tile, the one spanning the
/// smaller range zooms in at least as far.
pub proof fn lemma_zoom_monotonic(s1: Seq<Pair>, s2: Seq<Pair>)
    requires
        s1.len() >= 2,
        s2.len() >= 2,
        spec_range(s1) <= spec_range(s2),
        13 * spec_range(s1) > 10 * spec_tile_width(20),
    ensures
        spec_zoom(s1) >= spec_zoom(s2),
{
    lemma_first_exceed_monotonic(spec_range(s1), spec_range(s2), 0);
}

} // verus!
