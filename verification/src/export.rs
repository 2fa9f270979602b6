//! Export formatting: tab-delimited text and placemark markup.
//!
//! All functions here are pure renderings of the session's coordinate
//! lists; writing the bytes anywhere is the caller's business.
use vstd::prelude::*;

use crate::Pair;
use crate::fmt::push_scaled;
use crate::fmt::spec_format_scaled;
use crate::session::CoordinatesSuite;
use crate::viewport::all_bounded;

verus! {

/// One delimited line: first field, a tab, second field.
pub open spec fn spec_row(a: i64, b: i64) -> Seq<char> {
    spec_format_scaled(a as int) + "\t"@ + spec_format_scaled(b as int)
}

/// The `latitude<tab>longitude` lines of the geographic pairs from `q` on,
/// separated by newlines, none trailing.
pub open spec fn spec_geo_lines(s: Seq<Pair>, q: int) -> Seq<char>
    decreases s.len() - q when 0 <= q <= s.len()
{
    if q >= s.len() {
        Seq::empty()
    } else if q == s.len() - 1 {
        spec_row(s[q].y, s[q].x)
    } else {
        spec_row(s[q].y, s[q].x) + "\n"@ + spec_geo_lines(s, q + 1)
    }
}

/// The `easting<tab>northing` lines of the projected pairs from `q` on,
/// separated by newlines, none trailing.
pub open spec fn spec_utm_lines(s: Seq<Pair>, q: int) -> Seq<char>
    decreases s.len() - q when 0 <= q <= s.len()
{
    if q >= s.len() {
        Seq::empty()
    } else if q == s.len() - 1 {
        spec_row(s[q].x, s[q].y)
    } else {
        spec_row(s[q].x, s[q].y) + "\n"@ + spec_utm_lines(s, q + 1)
    }
}

/// The `latitude<tab>longitude` data rows from `q` on, one newline after
/// each.
pub open spec fn spec_csv_rows_geo(s: Seq<Pair>, q: int) -> Seq<char>
    decreases s.len() - q when 0 <= q <= s.len()
{
    if q >= s.len() {
        Seq::empty()
    } else {
        spec_row(s[q].y, s[q].x) + "\n"@ + spec_csv_rows_geo(s, q + 1)
    }
}

/// The `easting<tab>northing` data rows from `q` on, one newline after
/// each.
pub open spec fn spec_csv_rows_utm(s: Seq<Pair>, q: int) -> Seq<char>
    decreases s.len() - q when 0 <= q <= s.len()
{
    if q >= s.len() {
        Seq::empty()
    } else {
        spec_row(s[q].x, s[q].y) + "\n"@ + spec_csv_rows_utm(s, q + 1)
    }
}

/// The whole delimited geographic export: the header line, then the rows.
pub open spec fn spec_csv_latlon(s: Seq<Pair>) -> Seq<char> {
    "Latitude\tLongitude\n"@ + spec_csv_rows_geo(s, 0)
}

/// The whole delimited projected export: the header line, then the rows.
pub open spec fn spec_csv_utm(s: Seq<Pair>) -> Seq<char> {
    "Easting\tNorthing\n"@ + spec_csv_rows_utm(s, 0)
}

/// One placemark: a single point element carrying
/// `longitude,latitude,0`.
pub open spec fn spec_placemark(p: Pair) -> Seq<char> {
    "<Placemark>\n                        <Point>\n                            <coordinates>"@
        + spec_format_scaled(p.x as int) + ","@ + spec_format_scaled(p.y as int)
        + ",0</coordinates>\n                        </Point>\n                    </Placemark>"@
}

/// The placemarks of the geographic pairs from `q` on, separated by
/// newlines.
pub open spec fn spec_placemarks(s: Seq<Pair>, q: int) -> Seq<char>
    decreases s.len() - q when 0 <= q <= s.len()
{
    if q >= s.len() {
        Seq::empty()
    } else if q == s.len() - 1 {
        spec_placemark(s[q])
    } else {
        spec_placemark(s[q]) + "\n"@ + spec_placemarks(s, q + 1)
    }
}

/// The whole markup export: one document named Coordinates wrapping the
/// placemarks.
pub open spec fn spec_kml(s: Seq<Pair>) -> Seq<char> {
    "<?xml version=\"1.0\" encoding=\"UTF-8\"?>\n            <kml xmlns=\"http://www.opengis.net/kml/2.2\">\n                <Document>\n                    <name>Coordinates</name>\n                    "@
        + spec_placemarks(s, 0)
        + "\n                </Document>\n            </kml>"@
}

/// Delimited export of an empty coordinate list is exactly the header
/// line: no data row follows it.
pub proof fn lemma_empty_export_is_header()
    ensures
        spec_csv_utm(Seq::<Pair>::empty()) == "Easting\tNorthing\n"@,
        spec_csv_latlon(Seq::<Pair>::empty()) == "Latitude\tLongitude\n"@,
{
    assert(spec_csv_utm(Seq::<Pair>::empty()) =~= "Easting\tNorthing\n"@);
    assert(spec_csv_latlon(Seq::<Pair>::empty()) =~= "Latitude\tLongitude\n"@);
}

/// Appends `spec_row(a, b)` to `out`.
fn push_row(out: &mut String, a: i64, b: i64)
    requires
        -crate::num::MAX_SCALED < a < crate::num::MAX_SCALED,
        -crate::num::MAX_SCALED < b < crate::num::MAX_SCALED,
    ensures
        final(out)@ == old(out)@ + spec_row(a, b),
{
    push_scaled(out, a);
    out.append("\t");
    push_scaled(out, b);
    proof {
        assert(final(out)@ =~= old(out)@ + spec_row(a, b));
    }
}

impl CoordinatesSuite {
    /// The geographic list as clipboard text: one `latitude<tab>longitude`
    /// line per pair.
    pub fn geo_clipboard_text(&self) -> (r: String)
        requires
            all_bounded(self.coords_geo@),
        ensures
            r@ == spec_geo_lines(self.coords_geo@, 0),
    {
        let ghost gs = self.coords_geo@;
        let n = self.coords_geo.len();
        let mut out = String::new();
        let mut q: usize = 0;
        while q < n
            invariant
                q <= n,
                n == gs.len(),
                self.coords_geo@ == gs,
                all_bounded(gs),
                out@ + spec_geo_lines(gs, q as int) == spec_geo_lines(gs, 0),
            decreases n - q,
        {
            let ghost pre = out@;
            let p = self.coords_geo[q];
            push_row(&mut out, p.y, p.x);
            if q + 1 < n {
                out.append("\n");
                proof {
                    assert(pre + (spec_row(gs[q as int].y, gs[q as int].x) + "\n"@) =~= out@);
                    assert(out@ + spec_geo_lines(gs, q + 1) =~= pre + spec_geo_lines(
                        gs,
                        q as int,
                    ));
                }
            } else {
                proof {
                    assert(out@ + spec_geo_lines(gs, q + 1) =~= pre + spec_geo_lines(
                        gs,
                        q as int,
                    ));
                }
            }
            q = q + 1;
        }
        proof {
            assert(out@ + Seq::<char>::empty() =~= out@);
        }
        out
    }

    /// The projected list as clipboard text: one `easting<tab>northing`
    /// line per pair.
    pub fn utm_clipboard_text(&self) -> (r: String)
        requires
            all_bounded(self.coords_utm@),
        ensures
            r@ == spec_utm_lines(self.coords_utm@, 0),
    {
        let ghost gs = self.coords_utm@;
        let n = self.coords_utm.len();
        let mut out = String::new();
        let mut q: usize = 0;
        while q < n
            invariant
                q <= n,
                n == gs.len(),
                self.coords_utm@ == gs,
                all_bounded(gs),
                out@ + spec_utm_lines(gs, q as int) == spec_utm_lines(gs, 0),
            decreases n - q,
        {
            let ghost pre = out@;
            let p = self.coords_utm[q];
            push_row(&mut out, p.x, p.y);
            if q + 1 < n {
                out.append("\n");
                proof {
                    assert(pre + (spec_row(gs[q as int].x, gs[q as int].y) + "\n"@) =~= out@);
                    assert(out@ + spec_utm_lines(gs, q + 1) =~= pre + spec_utm_lines(
                        gs,
                        q as int,
                    ));
                }
            } else {
                proof {
                    assert(out@ + spec_utm_lines(gs, q + 1) =~= pre + spec_utm_lines(
                        gs,
                        q as int,
                    ));
                }
            }
            q = q + 1;
        }
        proof {
            assert(out@ + Seq::<char>::empty() =~= out@);
        }
        out
    }

    /// The delimited geographic export: exactly the header line for an
    /// empty list, one data row per pair after it otherwise.
    pub fn export_csv_latlon(&self) -> (r: String)
        requires
            all_bounded(self.coords_geo@),
        ensures
            r@ == spec_csv_latlon(self.coords_geo@),
    {
        let ghost gs = self.coords_geo@;
        let n = self.coords_geo.len();
        let mut out = String::new();
        out.append("Latitude\tLongitude\n");
        let mut q: usize = 0;
        while q < n
            invariant
                q <= n,
                n == gs.len(),
                self.coords_geo@ == gs,
                all_bounded(gs),
                out@ + spec_csv_rows_geo(gs, q as int) == spec_csv_latlon(gs),
            decreases n - q,
        {
            let ghost pre = out@;
            let p = self.coords_geo[q];
            push_row(&mut out, p.y, p.x);
            out.append("\n");
            proof {
                assert(out@ + spec_csv_rows_geo(gs, q + 1) =~= pre + spec_csv_rows_geo(
                    gs,
                    q as int,
                ));
            }
            q = q + 1;
        }
        proof {
            assert(out@ + Seq::<char>::empty() =~= out@);
        }
        out
    }

    /// The delimited projected export: exactly the header line for an
    /// empty list, one data row per pair after it otherwise.
    pub fn export_csv_utm(&self) -> (r: String)
        requires
            all_bounded(self.coords_utm@),
        ensures
            r@ == spec_csv_utm(self.coords_utm@),
    {
        let ghost gs = self.coords_utm@;
        let n = self.coords_utm.len();
        let mut out = String::new();
        out.append("Easting\tNorthing\n");
        let mut q: usize = 0;
        while q < n
            invariant
                q <= n,
                n == gs.len(),
                self.coords_utm@ == gs,
                all_bounded(gs),
                out@ + spec_csv_rows_utm(gs, q as int) == spec_csv_utm(gs),
            decreases n - q,
        {
            let ghost pre = out@;
            let p = self.coords_utm[q];
            push_row(&mut out, p.x, p.y);
            out.append("\n");
            proof {
                assert(out@ + spec_csv_rows_utm(gs, q + 1) =~= pre + spec_csv_rows_utm(
                    gs,
                    q as int,
                ));
            }
            q = q + 1;
        }
        proof {
            assert(out@ + Seq::<char>::empty() =~= out@);
        }
        out
    }

    /// The placemark-markup export of the geographic list.
    pub fn export_kmz(&self) -> (r: String)
        requires
            all_bounded(self.coords_geo@),
        ensures
            r@ == spec_kml(self.coords_geo@),
    {
        let ghost gs = self.coords_geo@;
        let n = self.coords_geo.len();
        let mut out = String::new();
        out.append(
            "<?xml version=\"1.0\" encoding=\"UTF-8\"?>\n            <kml xmlns=\"http://www.opengis.net/kml/2.2\">\n                <Document>\n                    <name>Coordinates</name>\n                    ",
        );
        let mut q: usize = 0;
        while q < n
            invariant
                q <= n,
                n == gs.len(),
                self.coords_geo@ == gs,
                all_bounded(gs),
                out@ + spec_placemarks(gs, q as int) == Seq::<char>::empty()
                    + "<?xml version=\"1.0\" encoding=\"UTF-8\"?>\n            <kml xmlns=\"http://www.opengis.net/kml/2.2\">\n                <Document>\n                    <name>Coordinates</name>\n                    "@
                    + spec_placemarks(gs, 0),
            decreases n - q,
        {
            let ghost pre = out@;
            let p = self.coords_geo[q];
            out.append("<Placemark>\n                        <Point>\n                            <coordinates>");
            push_scaled(&mut out, p.x);
            out.append(",");
            push_scaled(&mut out, p.y);
            out.append(",0</coordinates>\n                        </Point>\n                    </Placemark>");
            proof {
                assert(out@ =~= pre + spec_placemark(gs[q as int]));
            }
            if q + 1 < n {
                out.append("\n");
                proof {
                    assert(out@ + spec_placemarks(gs, q + 1) =~= pre + spec_placemarks(
                        gs,
                        q as int,
                    ));
                }
            } else {
                proof {
                    assert(out@ + spec_placemarks(gs, q + 1) =~= pre + spec_placemarks(
                        gs,
                        q as int,
                    ));
                }
            }
            q = q + 1;
        }
        out.append("\n                </Document>\n            </kml>");
        proof {
            assert(out@ =~= spec_kml(gs));
        }
        out
    }
}

} // verus!
