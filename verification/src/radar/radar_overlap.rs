//! Which stations compete for pixels, and the proof that the ownership rule
//! gives every point to at most one station.

use crate::radar::formula::{
    spec_q_half_dist, spec_q_inside, spec_q_outside, spec_range_nano,
};
use crate::radar::{rd_wf, Image, Legends, RadarData, RadarImagery};
use vstd::prelude::*;

verus! {

/// Two stations' coverage disks overlap: distinct codes, and the centers lie
/// closer than the sum of the scan radii (compared exactly on squares).
pub open spec fn spec_disks_overlap(a: RadarData, b: RadarData) -> bool {
    let dx = a.center.lon - b.center.lon;
    let dy = a.center.lat - b.center.lat;
    let s = spec_range_nano(a) + spec_range_nano(b);
    a.code@ != b.code@ && s > 0 && dx * dx + dy * dy < s * s
}

/// Computes `spec_disks_overlap`.
pub fn is_overlapping(a: &RadarData, b: &RadarData) -> (r: bool)
    requires
        rd_wf(*a),
        rd_wf(*b),
    ensures
        r == spec_disks_overlap(*a, *b),
{
    if a.code.eq(&b.code) {
        return false;
    }
    let dx: i128 = a.center.lon as i128 - b.center.lon as i128;
    let dy: i128 = a.center.lat as i128 - b.center.lat as i128;
    let ra: i64 = a.range.to_nano_degrees();
    let rb: i64 = b.range.to_nano_degrees();
    let s: i128 = ra as i128 + rb as i128;
    if s <= 0 {
        return false;
    }
    proof {
        assert(0 <= dx * dx <= 2_000_000_000_000_000_000_000_000 && 0 <= dy * dy
            <= 2_000_000_000_000_000_000_000_000 && 0 < s * s
            <= 8_000_000_000_000_000_000_000_000_000_000) by (nonlinear_arith)
            requires
                -800_000_000_000 <= dx <= 800_000_000_000,
                -800_000_000_000 <= dy <= 800_000_000_000,
                0 < s <= 2_000_000_000_000_000,
        ;
    }
    dx * dx + dy * dy < s * s
}

/// Geometry-relevant agreement between two station records: everything the
/// resolver reads is equal (strings by view).
pub open spec fn same_geometry(a: RadarData, b: RadarData) -> bool {
    &&& a.bounds == b.bounds
    &&& a.center == b.center
    &&& a.range == b.range
    &&& a.priority == b.priority
    &&& a.striped == b.striped
    &&& a.code@ == b.code@
}

/// A copy of a station record for the competitor list; frames and palette
/// travel along but carry no contract.
pub(crate) fn copy_station(d: &RadarData) -> (r: RadarData)
    ensures
        same_geometry(r, *d),
{
    RadarData {
        bounds: d.bounds,
        city: d.city.clone(),
        station: d.station.clone(),
        code: d.code.clone(),
        center: d.center,
        range: d.range,
        priority: d.priority,
        striped: d.striped,
        images: d.images.clone(),
        legends: Legends { levels: d.legends.levels.clone(), colors: d.legends.colors.clone() },
    }
}

/// The stations that can take pixels from `radar`: different code,
/// overlapping disk, and priority at least `radar`'s.
pub open spec fn spec_competitors(radar: RadarData, list: Seq<RadarData>) -> Seq<RadarData>
    decreases list.len(),
{
    if list.len() == 0 {
        Seq::empty()
    } else {
        let first = list[0];
        let tail = spec_competitors(radar, list.subrange(1, list.len() as int));
        if first.code@ != radar.code@ && spec_disks_overlap(radar, first) && radar.priority
            <= first.priority {
            seq![first] + tail
        } else {
            tail
        }
    }
}

impl RadarImagery {
    /// Collects, for one station, the competitors among all fetched
    /// stations: the result agrees element-wise with `spec_competitors` on
    /// everything the resolver reads.
    pub fn overlapping_radars(&self, radars: &Vec<Image>, radar: &Image) -> (r: Vec<RadarData>)
        requires
            rd_wf(radar.data),
            forall|i: int| 0 <= i < radars@.len() ==> rd_wf(#[trigger] radars@[i].data),
        ensures
            ({
                let sel = spec_competitors(radar.data, radars@.map_values(|im: Image| im.data));
                &&& r@.len() == sel.len()
                &&& forall|i: int|
                    0 <= i < r@.len() ==> same_geometry(#[trigger] r@[i], sel[i]) && rd_wf(r@[i])
            }),
    {
        let ghost datas = radars@.map_values(|im: Image| im.data);
        let mut overlapping: Vec<RadarData> = Vec::new();
        let mut i: usize = 0;
        let n: usize = radars.len();
        proof {
            assert(datas.skip(0) =~= datas);
        }
        while i < n
            invariant
                0 <= i <= n,
                n == radars@.len(),
                datas == radars@.map_values(|im: Image| im.data),
                rd_wf(radar.data),
                forall|k: int| 0 <= k < radars@.len() ==> rd_wf(#[trigger] radars@[k].data),
                ({
                    let sel = spec_competitors(radar.data, datas);
                    let done = spec_competitors(radar.data, datas.skip(i as int));
                    &&& sel.len() == overlapping@.len() + done.len()
                    &&& forall|k: int|
                        0 <= k < overlapping@.len() ==> same_geometry(
                            #[trigger] overlapping@[k],
                            sel[k],
                        ) && rd_wf(overlapping@[k])
                    &&& forall|k: int|
                        overlapping@.len() <= k < sel.len() ==> sel[k] == done[k - overlapping@.len()]
                }),
            decreases n - i,
        {
            let current = &radars[i];
            proof {
                assert(datas.skip(i as int)[0] == datas[i as int]);
                assert(datas[i as int] == radars@[i as int].data);
                assert(datas.skip(i as int).subrange(1, datas.skip(i as int).len() as int)
                    =~= datas.skip(i as int + 1));
            }
            let take: bool = if current.data.code.eq(&radar.data.code) {
                false
            } else if !is_overlapping(&radar.data, &current.data) {
                false
            } else if radar.data.priority > current.data.priority {
                false
            } else {
                true
            };
            if take {
                let copied: RadarData = copy_station(&current.data);
                overlapping.push(copied);
            }
            i = i + 1;
        }
        proof {
            assert(datas.skip(n as int) =~= Seq::<RadarData>::empty());
        }
        overlapping
    }
}

/// Whether station `s` owns the point `(x, y)` of the plane, among the
/// stations of `all`: strictly inside its own disk, and no competitor
/// preempts the point — a competitor of strictly higher priority must leave
/// the point strictly outside its disk, one of equal priority must leave it
/// outside or on `s`'s side of the perpendicular bisector.
pub open spec fn spec_owns(s: RadarData, all: Seq<RadarData>, x: int, y: int) -> bool {
    &&& spec_q_inside(s, x, y) < 0
    &&& forall|k: int|
        0 <= k < all.len() ==> ({
            let t = #[trigger] all[k];
            (spec_disks_overlap(s, t) && t.priority >= s.priority) ==> (if t.priority
                == s.priority {
                spec_q_outside(t, x, y) < 0 || spec_q_half_dist(s, t, x, y) < 0
            } else {
                spec_q_outside(t, x, y) < 0
            })
        })
}

/// Two strictly overlapped disks whose interiors share a point have centers
/// closer than the sum of their radii (the triangle inequality, carried out
/// on squares with the Lagrange identity).
proof fn lemma_shared_point_brings_centers_close(
    ax: int,
    ay: int,
    ra: int,
    bx: int,
    by: int,
    rb: int,
    x: int,
    y: int,
)
    requires
        ra >= 0,
        rb >= 0,
        (x - ax) * (x - ax) + (y - ay) * (y - ay) < ra * ra,
        (x - bx) * (x - bx) + (y - by) * (y - by) < rb * rb,
    ensures
        (ax - bx) * (ax - bx) + (ay - by) * (ay - by) < (ra + rb) * (ra + rb),
{
    let ux = x - ax;
    let uy = y - ay;
    let wx = bx - x;
    let wy = by - y;
    let nu = ux * ux + uy * uy;
    let nw = wx * wx + wy * wy;
    let c = ux * wx + uy * wy;
    let d = ux * wy - uy * wx;
    assert(nu == (x - ax) * (x - ax) + (y - ay) * (y - ay));
    assert(nw == (x - bx) * (x - bx) + (y - by) * (y - by)) by (nonlinear_arith)
        requires
            wx == bx - x && wy == by - y && nw == wx * wx + wy * wy,
    ;
    assert(nu < ra * ra && nw < rb * rb);
    assert(nu >= 0 && nw >= 0) by (nonlinear_arith)
        requires
            nu == ux * ux + uy * uy && nw == wx * wx + wy * wy,
    ;
    lemma_lagrange(ux, uy, wx, wy, nu, nw, c, d);
    assert(ra > 0 && rb > 0) by (nonlinear_arith)
        requires
            nu >= 0 && nw >= 0 && nu < ra * ra && nw < rb * rb && ra >= 0 && rb >= 0,
    ;
    assert(nu * nw < (ra * rb) * (ra * rb)) by (nonlinear_arith)
        requires
            0 <= nu && nu < ra * ra && 0 <= nw && nw < rb * rb && ra > 0 && rb > 0,
    ;
    assert(c < ra * rb) by (nonlinear_arith)
        requires
            c * c <= nu * nw && nu * nw < (ra * rb) * (ra * rb) && ra > 0 && rb > 0,
    ;
    assert((ax - bx) * (ax - bx) + (ay - by) * (ay - by) < (ra + rb) * (ra + rb))
        by (nonlinear_arith)
        requires
            ux == x - ax && uy == y - ay && wx == bx - x && wy == by - y && nu == ux * ux + uy * uy
                && nw == wx * wx + wy * wy && c == ux * wx + uy * wy && nu < ra * ra && nw < rb
                * rb && c < ra * rb,
    ;
}

/// The Lagrange identity bounds a dot product by the product of the squared
/// norms.
proof fn lemma_lagrange(ux: int, uy: int, wx: int, wy: int, nu: int, nw: int, c: int, d: int)
    requires
        nu == ux * ux + uy * uy,
        nw == wx * wx + wy * wy,
        c == ux * wx + uy * wy,
        d == ux * wy - uy * wx,
    ensures
        c * c <= nu * nw,
{
    let p1 = ux * wx;
    let p2 = uy * wy;
    let p3 = ux * wy;
    let p4 = uy * wx;
    assert(c * c == p1 * p1 + 2 * (p1 * p2) + p2 * p2) by (nonlinear_arith)
        requires
            c == p1 + p2,
    ;
    assert(d * d == p3 * p3 - 2 * (p3 * p4) + p4 * p4) by (nonlinear_arith)
        requires
            d == p3 - p4,
    ;
    assert(p1 * p2 == p3 * p4) by (nonlinear_arith)
        requires
            p1 == ux * wx && p2 == uy * wy && p3 == ux * wy && p4 == uy * wx,
    ;
    assert(nu * nw == (ux * ux) * (wx * wx) + (ux * ux) * (wy * wy) + (uy * uy) * (wx * wx) + (uy
        * uy) * (wy * wy)) by (nonlinear_arith)
        requires
            nu == ux * ux + uy * uy && nw == wx * wx + wy * wy,
    ;
    assert((ux * ux) * (wx * wx) == p1 * p1) by (nonlinear_arith)
        requires
            p1 == ux * wx,
    ;
    assert((ux * ux) * (wy * wy) == p3 * p3) by (nonlinear_arith)
        requires
            p3 == ux * wy,
    ;
    assert((uy * uy) * (wx * wx) == p4 * p4) by (nonlinear_arith)
        requires
            p4 == uy * wx,
    ;
    assert((uy * uy) * (wy * wy) == p2 * p2) by (nonlinear_arith)
        requires
            p2 == uy * wy,
    ;
    assert(d * d >= 0) by (nonlinear_arith);
}

/// The bisector form is antisymmetric in its stations.
proof fn lemma_half_dist_antisymmetric(a: RadarData, b: RadarData, x: int, y: int)
    ensures
        spec_q_half_dist(a, b, x, y) == -spec_q_half_dist(b, a, x, y),
{
}

/// Ownership is exclusive: two distinct stations never both own a point.
/// Ties are broken by the bisector, unequal priorities by the winner's disk,
/// and disks too far apart to overlap cannot both contain the point.
pub proof fn lemma_ownership_unique(all: Seq<RadarData>, i: int, j: int, x: int, y: int)
    requires
        0 <= i < all.len(),
        0 <= j < all.len(),
        all[i].code@ != all[j].code@,
        spec_range_nano(all[i]) >= 0,
        spec_range_nano(all[j]) >= 0,
    ensures
        !(spec_owns(all[i], all, x, y) && spec_owns(all[j], all, x, y)),
{
    let a = all[i];
    let b = all[j];
    if spec_owns(a, all, x, y) && spec_owns(b, all, x, y) {
        if !spec_disks_overlap(a, b) {
            let dx = a.center.lon - b.center.lon;
            let dy = a.center.lat - b.center.lat;
            let ra = spec_range_nano(a);
            let rb = spec_range_nano(b);
            assert(spec_q_inside(a, x, y) < 0 && spec_q_inside(b, x, y) < 0);
            lemma_shared_point_brings_centers_close(
                a.center.lon as int,
                a.center.lat as int,
                ra,
                b.center.lon as int,
                b.center.lat as int,
                rb,
                x,
                y,
            );
            assert(ra + rb > 0) by (nonlinear_arith)
                requires
                    dx * dx + dy * dy < (ra + rb) * (ra + rb) && ra >= 0 && rb >= 0 && dx
                        == a.center.lon - b.center.lon && dy == a.center.lat - b.center.lat,
            ;
            assert(spec_disks_overlap(a, b));
        } else {
            let dx = a.center.lon - b.center.lon;
            let dy = a.center.lat - b.center.lat;
            let s2 = spec_range_nano(a) + spec_range_nano(b);
            assert((b.center.lon - a.center.lon) * (b.center.lon - a.center.lon) + (b.center.lat
                - a.center.lat) * (b.center.lat - a.center.lat) == dx * dx + dy * dy)
                by (nonlinear_arith)
                requires
                    dx == a.center.lon - b.center.lon && dy == a.center.lat - b.center.lat,
            ;
            assert(spec_disks_overlap(b, a));
            assert(spec_owns(a, all, x, y) && 0 <= j < all.len());
            assert(spec_owns(b, all, x, y) && 0 <= i < all.len());
            if a.priority == b.priority {
                lemma_half_dist_antisymmetric(a, b, x, y);
            }
        }
    }
}


/// The bound a competitor places at a point in the ownership resolver:
/// negative exactly when the competitor concedes the point — it lies
/// strictly outside the competitor's disk or, on a priority tie, on this
/// station's side of the bisector.
pub open spec fn spec_bound_of(s: RadarData, t: RadarData, x: int, y: int) -> int {
    let outside = spec_q_outside(t, x, y);
    if t.priority == s.priority {
        let hd = spec_q_half_dist(s, t, x, y);
        if hd < outside {
            hd
        } else {
            outside
        }
    } else {
        outside
    }
}

/// A list agrees with station `s`'s competitor selection element by
/// element, on everything the resolver reads.
pub open spec fn spec_comp_match(s: RadarData, all: Seq<RadarData>, comp: Seq<RadarData>) -> bool {
    &&& comp.len() == spec_competitors(s, all).len()
    &&& forall|i: int|
        0 <= i < comp.len() ==> same_geometry(#[trigger] comp[i], spec_competitors(s, all)[i])
}

/// Every station that meets the competitor conditions appears in the
/// competitor selection.
proof fn lemma_competitor_membership(s: RadarData, list: Seq<RadarData>, m: int)
    requires
        0 <= m < list.len(),
        spec_disks_overlap(s, list[m]),
        s.priority <= list[m].priority,
    ensures
        exists|k: int|
            0 <= k < spec_competitors(s, list).len() && spec_competitors(s, list)[k] == list[m],
    decreases list.len(),
{
    let sel = spec_competitors(s, list);
    let sub = list.subrange(1, list.len() as int);
    if m == 0 {
        assert(sel[0] == list[0]);
    } else {
        assert(sub[m - 1] == list[m]);
        lemma_competitor_membership(s, sub, m - 1);
        let k0 = choose|k: int|
            0 <= k < spec_competitors(s, sub).len() && spec_competitors(s, sub)[k] == sub[m - 1];
        if list[0].code@ != s.code@ && spec_disks_overlap(s, list[0]) && s.priority
            <= list[0].priority {
            assert(sel[k0 + 1] == list[m]);
        } else {
            assert(sel[k0] == list[m]);
        }
    }
}

/// A point strictly inside the station's disk that every listed competitor
/// concedes is owned by the station among all fetched stations, provided
/// the list matches the station's competitor selection.
pub proof fn lemma_bounds_give_ownership(
    s: RadarData,
    all: Seq<RadarData>,
    comp: Seq<RadarData>,
    x: int,
    y: int,
)
    requires
        spec_comp_match(s, all, comp),
        spec_q_inside(s, x, y) < 0,
        forall|k: int| 0 <= k < comp.len() ==> spec_bound_of(s, #[trigger] comp[k], x, y) < 0,
    ensures
        spec_owns(s, all, x, y),
{
    assert forall|m: int| 0 <= m < all.len() implies ({
        let t = #[trigger] all[m];
        (spec_disks_overlap(s, t) && t.priority >= s.priority) ==> (if t.priority == s.priority {
            spec_q_outside(t, x, y) < 0 || spec_q_half_dist(s, t, x, y) < 0
        } else {
            spec_q_outside(t, x, y) < 0
        })
    }) by {
        let t = all[m];
        if spec_disks_overlap(s, t) && t.priority >= s.priority {
            lemma_competitor_membership(s, all, m);
            let k = choose|k: int|
                0 <= k < spec_competitors(s, all).len() && spec_competitors(s, all)[k] == t;
            assert(same_geometry(comp[k], t));
            assert(spec_bound_of(s, comp[k], x, y) < 0);
            assert(spec_q_outside(comp[k], x, y) == spec_q_outside(t, x, y));
            assert(spec_q_half_dist(s, comp[k], x, y) == spec_q_half_dist(s, t, x, y));
        }
    }
}

} // verus!
