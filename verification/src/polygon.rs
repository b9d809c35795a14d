//! The convex hull boundary: an ordered, cyclic, counter-clockwise sequence
//! of vertices, with point classification against its edges and
//! minimal-restructuring insertion and removal.
//!
//! Classification of a point against a directed edge takes the left
//! perpendicular of the edge direction and the sign of its dot product with
//! the displacement from the edge start: positive is interior, zero is
//! boundary, negative is exterior.  Because the coordinates are opaque
//! binary64 patterns, a dot product can encode a not-a-number value; an
//! operation whose left-to-right scan runs into such an unordered
//! comparison reports an explicit absence instead, and each contract says
//! exactly when.

use vstd::prelude::*;

use crate::binary64::ZERO_BITS;
use crate::binary64::le_bits_spec;
use crate::binary64::lt_bits_spec;
use crate::binary64::is_nan_bits;
use crate::binary64::magnitude_of;
use crate::binary64::sign_of;
use crate::binary64::le_bits;
use crate::binary64::lt_bits;
use crate::points::Point;
use crate::points::Vector;
use crate::points::dot_spec;
use crate::points::normal_spec;
use crate::points::point_minus_point;
use crate::points::sq_mag_spec;

verus! {

/// Where a point lies relative to one directed edge.
#[derive(Clone, Copy, PartialEq, Eq, Structural, Debug)]
pub enum EdgeRegion {
    Interior,
    Boundary,
    Exterior,
}

/// A directed edge between two hull vertices.
#[derive(Clone, Copy, PartialEq, Eq, Structural, Debug)]
pub struct PolygonEdge(pub Point, pub Point);

/// The convex hull boundary itself.
#[derive(Debug, PartialEq)]
pub struct ConvexPolygon {
    vertices: Vec<Point>,
}

/// A transient handle on one hull vertex: a borrow of the hull's vertex
/// storage plus an index.  Any mutation of the owning hull invalidates
/// every outstanding cursor.
#[derive(Debug, PartialEq)]
pub struct PolygonVertex<'a> {
    vertices: &'a Vec<Point>,
    index: usize,
}

/// The direction of an edge: its end minus its start.
pub open spec fn edge_direction(e: PolygonEdge) -> Vector {
    point_minus_point(e.1, e.0)
}

/// The classifying dot product of an edge and a point: the left
/// perpendicular of the edge direction, dotted with the displacement from
/// the edge start to the point.
pub open spec fn edge_dot(e: PolygonEdge, p: Point) -> u64 {
    dot_spec(normal_spec(edge_direction(e)), point_minus_point(p, e.0))
}

/// The region a classifying dot product encodes: none when it is
/// unordered (a not-a-number pattern), boundary at zero, exterior when
/// negative, interior when positive.
pub open spec fn region_of_dot(d: u64) -> Option<EdgeRegion> {
    if is_nan_bits(d) {
        None
    } else if magnitude_of(d) == 0 {
        Some(EdgeRegion::Boundary)
    } else if sign_of(d) == 1 {
        Some(EdgeRegion::Exterior)
    } else {
        Some(EdgeRegion::Interior)
    }
}

/// Classification of a point against a directed edge.
pub open spec fn spec_region(e: PolygonEdge, p: Point) -> Option<EdgeRegion> {
    region_of_dot(edge_dot(e, p))
}

/// The cyclic successor of an index in a sequence of length `n`.
pub open spec fn next_idx(n: int, i: int) -> int {
    if i + 1 >= n {
        0
    } else {
        i + 1
    }
}

/// The cyclic predecessor of an index in a sequence of length `n`.
pub open spec fn prev_idx(n: int, i: int) -> int {
    if i == 0 {
        n - 1
    } else {
        i - 1
    }
}

/// The forward edge at a vertex: from the vertex to its cyclic successor.
pub open spec fn fwd_edge_at(s: Seq<Point>, i: int) -> PolygonEdge {
    PolygonEdge(s[i], s[next_idx(s.len() as int, i)])
}

/// The reverse edge at a vertex: from its cyclic predecessor to the vertex.
pub open spec fn rev_edge_at(s: Seq<Point>, i: int) -> PolygonEdge {
    PolygonEdge(s[prev_idx(s.len() as int, i)], s[i])
}

/// What a forward scan of the hull edges finds for a point: the first
/// vertex whose forward edge classifies the point exterior; or that no edge
/// does; or the first vertex at which the classification itself is
/// undefined before any exterior edge was seen.
pub enum ScanResult {
    Witness(int),
    NoWitness,
    Undefined(int),
}

/// The forward exterior-witness scan from index `i` on.
pub open spec fn exterior_scan(s: Seq<Point>, p: Point, i: int) -> ScanResult
    decreases s.len() - i,
{
    if i < 0 || i >= s.len() {
        ScanResult::NoWitness
    } else {
        match spec_region(fwd_edge_at(s, i), p) {
            Option::None => ScanResult::Undefined(i),
            Option::Some(EdgeRegion::Exterior) => ScanResult::Witness(i),
            Option::Some(_) => exterior_scan(s, p, i + 1),
        }
    }
}

/// Whether the hull covers the point: some boolean when every forward edge
/// up to the answer classifies cleanly, none when a classification breaks
/// down first.
pub open spec fn spec_covers(s: Seq<Point>, p: Point) -> Option<bool> {
    match exterior_scan(s, p, 0) {
        ScanResult::Witness(_) => Some(false),
        ScanResult::NoWitness => Some(true),
        ScanResult::Undefined(_) => None,
    }
}

/// The first index at or after `i` holding exactly the given point.
pub open spec fn find_scan(s: Seq<Point>, p: Point, i: int) -> Option<int>
    decreases s.len() - i,
{
    if i < 0 || i >= s.len() {
        None
    } else if s[i] == p {
        Some(i)
    } else {
        find_scan(s, p, i + 1)
    }
}

/// Whether the two incident edges of the vertex at `i` bracket the given
/// direction: the forward edge direction has non-positive dot with it and
/// the reverse edge direction non-negative dot, under the IEEE order.
pub open spec fn brackets(s: Seq<Point>, i: int, objective: Vector) -> bool {
    &&& le_bits_spec(dot_spec(objective, edge_direction(fwd_edge_at(s, i))), ZERO_BITS)
    &&& le_bits_spec(ZERO_BITS, dot_spec(objective, edge_direction(rev_edge_at(s, i))))
}

/// The first index at or after `i` whose incident edges bracket the
/// direction.
pub open spec fn best_scan(s: Seq<Point>, objective: Vector, i: int) -> Option<int>
    decreases s.len() - i,
{
    if i < 0 || i >= s.len() {
        None
    } else if brackets(s, i, objective) {
        Some(i)
    } else {
        best_scan(s, objective, i + 1)
    }
}

/// What a tangent search finds: the vertex it settles on, or that no vertex
/// qualified, or that a classification was unordered first.
pub enum TangentOut {
    Found(int),
    Missing,
    Undefined,
}

/// The backward tangent search: from index `k`, walking cyclically
/// backward for at most `steps` vertices, the first vertex whose reverse
/// edge classifies the point interior.
pub open spec fn rev_tangent_scan(s: Seq<Point>, p: Point, k: int, steps: int) -> TangentOut
    decreases steps,
{
    if steps <= 0 {
        TangentOut::Missing
    } else {
        match spec_region(rev_edge_at(s, k), p) {
            Option::None => TangentOut::Undefined,
            Option::Some(EdgeRegion::Interior) => TangentOut::Found(k),
            Option::Some(_) => rev_tangent_scan(s, p, prev_idx(s.len() as int, k), steps - 1),
        }
    }
}

/// The forward tangent search: from index `k`, walking cyclically forward
/// for at most `steps` vertices, the first vertex whose forward edge
/// classifies the point interior.
pub open spec fn fwd_tangent_scan(s: Seq<Point>, p: Point, k: int, steps: int) -> TangentOut
    decreases steps,
{
    if steps <= 0 {
        TangentOut::Missing
    } else {
        match spec_region(fwd_edge_at(s, k), p) {
            Option::None => TangentOut::Undefined,
            Option::Some(EdgeRegion::Interior) => TangentOut::Found(k),
            Option::Some(_) => fwd_tangent_scan(s, p, next_idx(s.len() as int, k), steps - 1),
        }
    }
}

/// The vertices kept by a splice that replaces everything cyclically
/// strictly between the tangent vertices `v0` and `v1` with the new point.
pub open spec fn splice_kept(s: Seq<Point>, v0: int, v1: int, p: Point) -> Seq<Point> {
    if v0 < v1 {
        s.subrange(0, v0 + 1) + seq![p] + s.subrange(v1, s.len() as int)
    } else {
        s.subrange(v1, v0 + 1).push(p)
    }
}

/// The vertices evicted by that splice, in the order the splice drains
/// them.
pub open spec fn splice_removed(s: Seq<Point>, v0: int, v1: int) -> Seq<Point> {
    if v0 < v1 {
        s.subrange(v0 + 1, v1)
    } else {
        s.subrange(v0 + 1, s.len() as int) + s.subrange(0, v1)
    }
}

/// What one insertion does to the hull: the new vertex sequence and the
/// evicted points, or nothing at all when the insertion would have run into
/// an unordered classification or a failed tangent search (an internal
/// consistency breakdown).
pub open spec fn insert_spec(s: Seq<Point>, p: Point) -> Option<(Seq<Point>, Seq<Point>)> {
    match exterior_scan(s, p, 0) {
        ScanResult::Undefined(_) => None,
        ScanResult::Witness(i) => match rev_tangent_scan(s, p, i, s.len() as int) {
            TangentOut::Found(v0) => match fwd_tangent_scan(
                s,
                p,
                next_idx(s.len() as int, i),
                s.len() as int,
            ) {
                TangentOut::Found(v1) => if v0 == v1 {
                    None
                } else {
                    Some((splice_kept(s, v0, v1, p), splice_removed(s, v0, v1)))
                },
                _ => None,
            },
            _ => None,
        },
        ScanResult::NoWitness => if s.len() <= 1 && find_scan(s, p, 0) is None {
            Some((s.push(p), Seq::<Point>::empty()))
        } else {
            Some((s, seq![p]))
        },
    }
}

/// A witness found by the forward exterior scan lies in range.
pub proof fn lemma_exterior_scan_witness_range(s: Seq<Point>, p: Point, i: int)
    requires
        0 <= i,
    ensures
        exterior_scan(s, p, i) matches ScanResult::Witness(w) ==> i <= w < s.len(),
    decreases s.len() - i,
{
    if i < s.len() {
        lemma_exterior_scan_witness_range(s, p, i + 1);
    }
}

/// A vertex found by a tangent search lies in range.
pub proof fn lemma_tangent_found_range(s: Seq<Point>, p: Point, k: int, steps: int)
    requires
        0 <= k < s.len(),
    ensures
        rev_tangent_scan(s, p, k, steps) matches TangentOut::Found(v) ==> 0 <= v < s.len(),
        fwd_tangent_scan(s, p, k, steps) matches TangentOut::Found(v) ==> 0 <= v < s.len(),
    decreases steps,
{
    if steps > 0 && s.len() > 0 {
        lemma_tangent_found_range(s, p, prev_idx(s.len() as int, k), steps - 1);
        lemma_tangent_found_range(s, p, next_idx(s.len() as int, k), steps - 1);
    }
}

/// The point sits at an index exactly when the find scan succeeds.
pub proof fn lemma_find_scan_contains(s: Seq<Point>, p: Point, i: int)
    requires
        0 <= i,
    ensures
        find_scan(s, p, i) is Some <==> exists|j: int| i <= j < s.len() && s[j] == p,
        find_scan(s, p, i) matches Some(w) ==> i <= w < s.len() && s[w] == p,
    decreases s.len() - i,
{
    if i < s.len() {
        lemma_find_scan_contains(s, p, i + 1);
        if s[i] == p {
            assert(i <= i < s.len() && s[i] == p);
        }
    }
}

/// The farthest-vertex fold: walk the vertices from index `i` with the
/// running best `best`, skip the excluded points, and replace the best
/// whenever a vertex lies strictly farther from `center` under the IEEE
/// order of rounded squared distances.
pub open spec fn farthest_scan(
    s: Seq<Point>,
    center: Point,
    ex0: Option<Point>,
    ex1: Option<Point>,
    i: int,
    best: Option<Point>,
) -> Option<Point>
    decreases s.len() - i,
{
    if i < 0 || i >= s.len() {
        best
    } else {
        let pos = s[i];
        if (ex0 is Some && ex0->0 == pos) || (ex1 is Some && ex1->0 == pos) {
            farthest_scan(s, center, ex0, ex1, i + 1, best)
        } else {
            let b2 = match best {
                Option::None => Some(pos),
                Option::Some(b) => if lt_bits_spec(
                    sq_mag_spec(point_minus_point(b, center)),
                    sq_mag_spec(point_minus_point(pos, center)),
                ) {
                    Some(pos)
                } else {
                    Some(b)
                },
            };
            farthest_scan(s, center, ex0, ex1, i + 1, b2)
        }
    }
}

/// The bracket scan finds the first qualifying vertex: a hit lies in range,
/// brackets the direction, and no earlier vertex does; a miss means no
/// vertex at all does.
pub proof fn lemma_best_scan_first(s: Seq<Point>, objective: Vector, i: int)
    requires
        0 <= i,
    ensures
        best_scan(s, objective, i) matches Some(w) ==> i <= w < s.len() && brackets(s, w, objective)
            && (forall|k: int| i <= k < w ==> !brackets(s, k, objective)),
        best_scan(s, objective, i) is None ==> forall|k: int|
            i <= k < s.len() ==> !brackets(s, k, objective),
    decreases s.len() - i,
{
    if i < s.len() {
        lemma_best_scan_first(s, objective, i + 1);
    }
}

/// The edge scan ends without a witness exactly when every forward edge
/// classifies the point cleanly and none classifies it exterior.
proof fn lemma_exterior_scan_clean(s: Seq<Point>, p: Point, i: int)
    requires
        0 <= i,
    ensures
        exterior_scan(s, p, i) == ScanResult::NoWitness <==> (forall|k: int|
            i <= k < s.len() ==> ((#[trigger] spec_region(fwd_edge_at(s, k), p)) matches Some(
                reg,
            ) && reg != EdgeRegion::Exterior)),
    decreases s.len() - i,
{
    if i < s.len() {
        lemma_exterior_scan_clean(s, p, i + 1);
    }
}

/// Law: the hull covers a point — with a clean answer — exactly when every
/// forward hull edge classifies it and none classifies it exterior.
pub proof fn lemma_covers_means_no_exterior_edge(s: Seq<Point>, p: Point)
    ensures
        spec_covers(s, p) == Some(true) <==> (forall|k: int|
            0 <= k < s.len() ==> ((#[trigger] spec_region(fwd_edge_at(s, k), p)) matches Some(
                reg,
            ) && reg != EdgeRegion::Exterior)),
{
    lemma_exterior_scan_clean(s, p, 0);
}

/// Conservation of points through one hull insertion: when the hull holds
/// no duplicates and the new point is fresh, the new hull and the evicted
/// points are disjoint and duplicate-free, together they hold exactly the
/// old vertices plus the new point, and exactly one point was gained
/// overall.
pub proof fn lemma_insert_accounting(s: Seq<Point>, p: Point)
    requires
        s.no_duplicates(),
        !s.contains(p),
        insert_spec(s, p) is Some,
    ensures
        ({
            let (h, ev) = insert_spec(s, p)->Some_0;
            &&& h.no_duplicates()
            &&& ev.no_duplicates()
            &&& h.len() + ev.len() == s.len() + 1
            &&& forall|q: Point|
                #![auto]
                h.contains(q) || ev.contains(q) <==> s.contains(q) || q == p
            &&& forall|q: Point| !(#[trigger] h.contains(q) && ev.contains(q))
        }),
{
    let (h, ev) = insert_spec(s, p)->Some_0;
    assert forall|i: int| 0 <= i < s.len() implies s[i] != p by {
        if s[i] == p {
            assert(s.contains(p));
        }
    }
    match exterior_scan(s, p, 0) {
        ScanResult::Undefined(_) => {},
        ScanResult::NoWitness => {
            if s.len() <= 1 && find_scan(s, p, 0) is None {
                assert(h == s.push(p));
                assert forall|q: Point| #![auto]
                    h.contains(q) || ev.contains(q) <==> s.contains(q) || q == p by {
                    if s.contains(q) {
                        let j = choose|j: int| 0 <= j < s.len() && s[j] == q;
                        assert(h[j] == q);
                    }
                    if q == p {
                        assert(h[s.len() as int] == p);
                    }
                    if h.contains(q) {
                        let j = choose|j: int| 0 <= j < h.len() && h[j] == q;
                        if j < s.len() {
                            assert(s[j] == q);
                        }
                    }
                }
            } else {
                assert(h == s && ev == seq![p]);
                assert forall|q: Point| #![auto]
                    h.contains(q) || ev.contains(q) <==> s.contains(q) || q == p by {
                    assert(ev[0] == p);
                }
                assert forall|q: Point| !(#[trigger] h.contains(q) && ev.contains(q)) by {
                    if h.contains(q) && ev.contains(q) {
                        assert(q == p);
                        assert(s.contains(p));
                    }
                }
            }
        },
        ScanResult::Witness(i) => {
            lemma_exterior_scan_witness_range(s, p, 0);
            let n = s.len() as int;
            lemma_tangent_found_range(s, p, i, n);
            let v0 = rev_tangent_scan(s, p, i, n)->Found_0;
            lemma_tangent_found_range(s, p, next_idx(n, i), n);
            let v1 = fwd_tangent_scan(s, p, next_idx(n, i), n)->Found_0;
            assert(h == splice_kept(s, v0, v1, p) && ev == splice_removed(s, v0, v1));
            if v0 < v1 {
                // h = s[..v0+1] + [p] + s[v1..], ev = s[v0+1..v1]
                assert(h.len() + ev.len() == s.len() + 1);
                assert forall|a: int, b: int|
                    0 <= a < h.len() && 0 <= b < h.len() && a != b implies h[a] != h[b] by {
                    assert(h[a] == (if a <= v0 {
                        s[a]
                    } else if a == v0 + 1 {
                        p
                    } else {
                        s[v1 + a - (v0 + 2)]
                    }));
                    assert(h[b] == (if b <= v0 {
                        s[b]
                    } else if b == v0 + 1 {
                        p
                    } else {
                        s[v1 + b - (v0 + 2)]
                    }));
                }
                assert(ev.no_duplicates());
                assert forall|q: Point| #![auto]
                    h.contains(q) || ev.contains(q) <==> s.contains(q) || q == p by {
                    if s.contains(q) {
                        let j = choose|j: int| 0 <= j < s.len() && s[j] == q;
                        if j <= v0 {
                            assert(h[j] == q);
                        } else if j < v1 {
                            assert(ev[j - (v0 + 1)] == q);
                        } else {
                            assert(h[j - v1 + v0 + 2] == q);
                        }
                    }
                    if q == p {
                        assert(h[v0 + 1] == p);
                    }
                    if h.contains(q) {
                        let j = choose|j: int| 0 <= j < h.len() && h[j] == q;
                        if j <= v0 {
                            assert(s[j] == q);
                        } else if j > v0 + 1 {
                            assert(s[v1 + j - (v0 + 2)] == q);
                        }
                    }
                    if ev.contains(q) {
                        let j = choose|j: int| 0 <= j < ev.len() && ev[j] == q;
                        assert(s[v0 + 1 + j] == q);
                    }
                }
                assert forall|q: Point| !(#[trigger] h.contains(q) && ev.contains(q)) by {
                    if h.contains(q) && ev.contains(q) {
                        let a = choose|a: int| 0 <= a < h.len() && h[a] == q;
                        let b = choose|b: int| 0 <= b < ev.len() && ev[b] == q;
                        assert(ev[b] == s[v0 + 1 + b]);
                        if a <= v0 {
                            assert(s[a] == s[v0 + 1 + b]);
                        } else if a == v0 + 1 {
                            assert(s.contains(p));
                        } else {
                            assert(s[v1 + a - (v0 + 2)] == s[v0 + 1 + b]);
                        }
                    }
                }
            } else {
                // v1 < v0: h = s[v1..v0+1] + [p], ev = s[v0+1..] + s[..v1]
                assert(h.len() + ev.len() == s.len() + 1);
                assert forall|a: int, b: int|
                    0 <= a < h.len() && 0 <= b < h.len() && a != b implies h[a] != h[b] by {
                    assert(h[a] == (if a < h.len() - 1 {
                        s[v1 + a]
                    } else {
                        p
                    }));
                    assert(h[b] == (if b < h.len() - 1 {
                        s[v1 + b]
                    } else {
                        p
                    }));
                }
                assert forall|a: int, b: int|
                    0 <= a < ev.len() && 0 <= b < ev.len() && a != b implies ev[a] != ev[b] by {
                    assert(ev[a] == (if a < s.len() - v0 - 1 {
                        s[v0 + 1 + a]
                    } else {
                        s[a - (s.len() - v0 - 1)]
                    }));
                    assert(ev[b] == (if b < s.len() - v0 - 1 {
                        s[v0 + 1 + b]
                    } else {
                        s[b - (s.len() - v0 - 1)]
                    }));
                }
                assert forall|q: Point| #![auto]
                    h.contains(q) || ev.contains(q) <==> s.contains(q) || q == p by {
                    if s.contains(q) {
                        let j = choose|j: int| 0 <= j < s.len() && s[j] == q;
                        if j < v1 {
                            assert(ev[s.len() - v0 - 1 + j] == q);
                        } else if j <= v0 {
                            assert(h[j - v1] == q);
                        } else {
                            assert(ev[j - (v0 + 1)] == q);
                        }
                    }
                    if q == p {
                        assert(h[h.len() - 1] == p);
                    }
                    if h.contains(q) {
                        let j = choose|j: int| 0 <= j < h.len() && h[j] == q;
                        if j < h.len() - 1 {
                            assert(s[v1 + j] == q);
                        }
                    }
                    if ev.contains(q) {
                        let j = choose|j: int| 0 <= j < ev.len() && ev[j] == q;
                        if j < s.len() - v0 - 1 {
                            assert(s[v0 + 1 + j] == q);
                        } else {
                            assert(s[j - (s.len() - v0 - 1)] == q);
                        }
                    }
                }
                assert forall|q: Point| !(#[trigger] h.contains(q) && ev.contains(q)) by {
                    if h.contains(q) && ev.contains(q) {
                        let a = choose|a: int| 0 <= a < h.len() && h[a] == q;
                        let b = choose|b: int| 0 <= b < ev.len() && ev[b] == q;
                        let sa = if a < h.len() - 1 {
                            v1 + a
                        } else {
                            -1
                        };
                        let sb = if b < s.len() - v0 - 1 {
                            v0 + 1 + b
                        } else {
                            b - (s.len() - v0 - 1)
                        };
                        if a < h.len() - 1 {
                            assert(s[sa] == q && s[sb] == q && sa != sb);
                        } else {
                            assert(s[sb] == p);
                            assert(s.contains(p));
                        }
                    }
                }
            }
        },
    }
}

/// What an exec scan over the hull reports.
enum ScanOut {
    Witness(usize),
    NoWitness,
    Undefined,
}

impl PolygonEdge {
    /// The direction of this edge.
    pub fn direction(&self) -> (r: Vector)
        ensures
            r == edge_direction(*self),
    {
        self.1.sub(self.0)
    }

    /// Classify a point against this edge, or report that the classifying
    /// dot product is unordered.
    pub fn region(&self, point: Point) -> (r: Option<EdgeRegion>)
        ensures
            r == spec_region(*self, point),
    {
        let d = self.direction().normal().dot(point.sub(self.0));
        let mag: u64 = d & 0x7FFF_FFFF_FFFF_FFFFu64;
        if mag > 0x7FF0_0000_0000_0000u64 {
            None
        } else if mag == 0 {
            Some(EdgeRegion::Boundary)
        } else if (d >> 63u64) == 1 {
            Some(EdgeRegion::Exterior)
        } else {
            proof {
                assert(d >> 63u64 == 0 || d >> 63u64 == 1) by (bit_vector);
            }
            Some(EdgeRegion::Interior)
        }
    }
}

impl<'a> PolygonVertex<'a> {
    /// The hull vertex sequence this cursor walks.
    pub closed spec fn hull(&self) -> Seq<Point> {
        self.vertices@
    }

    /// The index this cursor stands at.
    pub closed spec fn idx(&self) -> int {
        self.index as int
    }

    /// A cursor is well formed when its index lies inside the hull.
    pub open spec fn wf(&self) -> bool {
        0 <= self.idx() < self.hull().len()
    }

    /// The position of the vertex under the cursor.
    pub fn position(&self) -> (r: Point)
        requires
            self.wf(),
        ensures
            r == self.hull()[self.idx()],
    {
        self.vertices[self.index]
    }

    /// The cursor one vertex forward, cyclically.
    pub fn fwd_vertex(&self) -> (r: Self)
        requires
            self.wf(),
        ensures
            r.hull() == self.hull(),
            r.idx() == next_idx(self.hull().len() as int, self.idx()),
            r.wf(),
    {
        let n = self.vertices.len();
        let i = if self.index + 1 >= n {
            0
        } else {
            self.index + 1
        };
        PolygonVertex { vertices: self.vertices, index: i }
    }

    /// The cursor one vertex backward, cyclically.
    pub fn rev_vertex(&self) -> (r: Self)
        requires
            self.wf(),
        ensures
            r.hull() == self.hull(),
            r.idx() == prev_idx(self.hull().len() as int, self.idx()),
            r.wf(),
    {
        let i = if self.index == 0 {
            self.vertices.len() - 1
        } else {
            self.index - 1
        };
        PolygonVertex { vertices: self.vertices, index: i }
    }

    /// The forward edge at the cursor.
    pub fn fwd_edge(&self) -> (r: PolygonEdge)
        requires
            self.wf(),
        ensures
            r == fwd_edge_at(self.hull(), self.idx()),
    {
        let n = self.vertices.len();
        let j = if self.index + 1 >= n {
            0
        } else {
            self.index + 1
        };
        PolygonEdge(self.vertices[self.index], self.vertices[j])
    }

    /// The reverse edge at the cursor.
    pub fn rev_edge(&self) -> (r: PolygonEdge)
        requires
            self.wf(),
        ensures
            r == rev_edge_at(self.hull(), self.idx()),
    {
        let j = if self.index == 0 {
            self.vertices.len() - 1
        } else {
            self.index - 1
        };
        PolygonEdge(self.vertices[j], self.vertices[self.index])
    }

    /// The bare index of this cursor, for a later call back into the hull.
    pub fn to_id(self) -> (r: usize)
        ensures
            r as int == self.idx(),
    {
        self.index
    }
}

impl View for ConvexPolygon {
    type V = Seq<Point>;

    closed spec fn view(&self) -> Seq<Point> {
        self.vertices@
    }
}

impl ConvexPolygon {
    /// The empty hull.
    pub fn new() -> (r: Self)
        ensures
            r@ == Seq::<Point>::empty(),
    {
        ConvexPolygon { vertices: Vec::new() }
    }

    /// The number of hull vertices.
    pub fn degree(&self) -> (r: usize)
        ensures
            r == self@.len(),
    {
        self.vertices.len()
    }

    /// A cursor at the given index.
    fn vertex(&self, index: usize) -> (r: PolygonVertex)
        requires
            index < self@.len(),
        ensures
            r.hull() == self@,
            r.idx() == index as int,
    {
        PolygonVertex { vertices: &self.vertices, index }
    }

    /// A cursor at vertex zero, as a traversal start.  It is well formed
    /// only when the hull is not empty.
    pub fn some_vertex(&self) -> (r: PolygonVertex)
        ensures
            r.hull() == self@,
            r.idx() == 0,
    {
        PolygonVertex { vertices: &self.vertices, index: 0 }
    }

    /// Whether the hull covers the point: no forward edge classifies it
    /// exterior.  Reports none when a classification is unordered before
    /// the answer is settled.
    pub fn covers(&self, point: Point) -> (r: Option<bool>)
        ensures
            r == spec_covers(self@, point),
    {
        let n = self.vertices.len();
        let mut i: usize = 0;
        while i < n
            invariant
                n == self@.len(),
                0 <= i <= n,
                exterior_scan(self@, point, 0) == exterior_scan(self@, point, i as int),
            decreases n - i,
        {
            let e = self.vertex(i).fwd_edge();
            match e.region(point) {
                Option::None => {
                    return None;
                },
                Option::Some(EdgeRegion::Exterior) => {
                    return Some(false);
                },
                Option::Some(_) => {},
            }
            i = i + 1;
        }
        Some(true)
    }

    /// The cursor at the hull vertex bit-equal to the point, if any: the
    /// first such vertex in index order.
    pub fn find(&self, point: Point) -> (r: Option<PolygonVertex>)
        ensures
            match find_scan(self@, point, 0) {
                Some(j) => {
                    &&& r is Some
                    &&& r->Some_0.hull() == self@
                    &&& r->Some_0.idx() == j
                    &&& r->Some_0.wf()
                },
                None => r is None,
            },
    {
        let n = self.vertices.len();
        let mut i: usize = 0;
        while i < n
            invariant
                n == self@.len(),
                0 <= i <= n,
                find_scan(self@, point, 0) == find_scan(self@, point, i as int),
            decreases n - i,
        {
            if self.vertices[i] == point {
                return Some(self.vertex(i));
            }
            i = i + 1;
        }
        None
    }

    /// The first vertex, in index order from vertex zero, whose two
    /// incident edges bracket the given direction — the supporting vertex
    /// along it.  None when no vertex qualifies (in particular on an empty
    /// hull).
    pub fn find_best(&self, objective: Vector) -> (r: Option<PolygonVertex>)
        ensures
            match best_scan(self@, objective, 0) {
                Some(j) => {
                    &&& r is Some
                    &&& r->Some_0.hull() == self@
                    &&& r->Some_0.idx() == j
                    &&& r->Some_0.wf()
                },
                None => r is None,
            },
    {
        let n = self.vertices.len();
        let mut i: usize = 0;
        while i < n
            invariant
                n == self@.len(),
                0 <= i <= n,
                best_scan(self@, objective, 0) == best_scan(self@, objective, i as int),
            decreases n - i,
        {
            let v = self.vertex(i);
            let fwd_ok = le_bits(objective.dot(v.fwd_edge().direction()), ZERO_BITS);
            let rev_ok = le_bits(ZERO_BITS, objective.dot(v.rev_edge().direction()));
            if fwd_ok && rev_ok {
                return Some(self.vertex(i));
            }
            i = i + 1;
        }
        None
    }

    /// The forward exterior-witness scan, as the insertion needs it.
    fn exterior_witness_idx(&self, point: Point) -> (r: ScanOut)
        ensures
            match r {
                ScanOut::Witness(i) => exterior_scan(self@, point, 0) == ScanResult::Witness(
                    i as int,
                ),
                ScanOut::NoWitness => exterior_scan(self@, point, 0) == ScanResult::NoWitness,
                ScanOut::Undefined => exterior_scan(self@, point, 0) is Undefined,
            },
    {
        let n = self.vertices.len();
        let mut i: usize = 0;
        while i < n
            invariant
                n == self@.len(),
                0 <= i <= n,
                exterior_scan(self@, point, 0) == exterior_scan(self@, point, i as int),
            decreases n - i,
        {
            let e = self.vertex(i).fwd_edge();
            match e.region(point) {
                Option::None => {
                    return ScanOut::Undefined;
                },
                Option::Some(EdgeRegion::Exterior) => {
                    return ScanOut::Witness(i);
                },
                Option::Some(_) => {},
            }
            i = i + 1;
        }
        ScanOut::NoWitness
    }

    /// The backward tangent search from `start`, over at most one full turn.
    fn rev_tangent_idx(&self, point: Point, start: usize) -> (r: Option<usize>)
        requires
            start < self@.len(),
        ensures
            match r {
                Some(v) => rev_tangent_scan(self@, point, start as int, self@.len() as int)
                    == TangentOut::Found(v as int) && v < self@.len(),
                None => !(rev_tangent_scan(self@, point, start as int, self@.len() as int)
                    is Found),
            },
    {
        let n = self.vertices.len();
        let mut k: usize = start;
        let mut j: usize = 0;
        while j < n
            invariant
                n == self@.len(),
                k < n,
                j <= n,
                rev_tangent_scan(self@, point, start as int, n as int) == rev_tangent_scan(
                    self@,
                    point,
                    k as int,
                    n - j,
                ),
            decreases n - j,
        {
            match self.vertex(k).rev_edge().region(point) {
                Option::None => {
                    return None;
                },
                Option::Some(EdgeRegion::Interior) => {
                    return Some(k);
                },
                Option::Some(_) => {
                    k = if k == 0 {
                        n - 1
                    } else {
                        k - 1
                    };
                    j = j + 1;
                },
            }
        }
        None
    }

    /// The forward tangent search from `start`, over at most one full turn.
    fn fwd_tangent_idx(&self, point: Point, start: usize) -> (r: Option<usize>)
        requires
            start < self@.len(),
        ensures
            match r {
                Some(v) => fwd_tangent_scan(self@, point, start as int, self@.len() as int)
                    == TangentOut::Found(v as int) && v < self@.len(),
                None => !(fwd_tangent_scan(self@, point, start as int, self@.len() as int)
                    is Found),
            },
    {
        let n = self.vertices.len();
        let mut k: usize = start;
        let mut j: usize = 0;
        while j < n
            invariant
                n == self@.len(),
                k < n,
                j <= n,
                fwd_tangent_scan(self@, point, start as int, n as int) == fwd_tangent_scan(
                    self@,
                    point,
                    k as int,
                    n - j,
                ),
            decreases n - j,
        {
            match self.vertex(k).fwd_edge().region(point) {
                Option::None => {
                    return None;
                },
                Option::Some(EdgeRegion::Interior) => {
                    return Some(k);
                },
                Option::Some(_) => {
                    k = if k + 1 >= n {
                        0
                    } else {
                        k + 1
                    };
                    j = j + 1;
                },
            }
        }
        None
    }

    /// Insert a point into the hull.
    ///
    /// When some forward edge classifies the point exterior, the two tangent
    /// vertices are found by the backward and forward searches, everything
    /// cyclically strictly between them is evicted and returned in drain
    /// order, and the point is spliced in between them.  When no edge does,
    /// a hull of fewer than two vertices absorbs the point as a new
    /// bootstrap vertex (unless it already is one), and otherwise the point
    /// is handed back as the single "evicted" point, to be filed as
    /// interior.  `None` reports the breakdowns on which this operation has
    /// no defined result — an unordered classification, a failed tangent
    /// search, or coinciding tangent vertices — and leaves the hull
    /// unchanged.
    pub fn insert(&mut self, new_point: Point) -> (r: Option<Vec<Point>>)
        ensures
            match insert_spec(old(self)@, new_point) {
                Some(pair) => ({
                    &&& r matches Some(ev) && ev@ == pair.1
                    &&& final(self)@ == pair.0
                }),
                None => r is None && final(self)@ == old(self)@,
            },
    {
        let ghost s0 = self@;
        match self.exterior_witness_idx(new_point) {
            ScanOut::Undefined => None,
            ScanOut::NoWitness => {
                if self.vertices.len() <= 1 {
                    match self.find(new_point) {
                        None => {
                            proof {
                                lemma_find_scan_contains(s0, new_point, 0);
                            }
                            self.vertices.push(new_point);
                            let removed: Vec<Point> = Vec::new();
                            Some(removed)
                        },
                        Some(_) => {
                            let mut removed: Vec<Point> = Vec::new();
                            removed.push(new_point);
                            assert(removed@ == seq![new_point]);
                            Some(removed)
                        },
                    }
                } else {
                    let mut removed: Vec<Point> = Vec::new();
                    removed.push(new_point);
                    assert(removed@ == seq![new_point]);
                    Some(removed)
                }
            },
            ScanOut::Witness(i) => {
                let n = self.vertices.len();
                proof {
                    lemma_exterior_scan_witness_range(s0, new_point, 0);
                }
                let v0 = match self.rev_tangent_idx(new_point, i) {
                    None => {
                        return None;
                    },
                    Some(v) => v,
                };
                let fwd_start = if i + 1 >= n {
                    0
                } else {
                    i + 1
                };
                let v1 = match self.fwd_tangent_idx(new_point, fwd_start) {
                    None => {
                        return None;
                    },
                    Some(v) => v,
                };
                if v0 == v1 {
                    return None;
                }
                let mut removed: Vec<Point> = Vec::new();
                if v0 < v1 {
                    let mut t: usize = 0;
                    let total = v1 - v0 - 1;
                    while t < total
                        invariant
                            v0 + 1 <= v1 <= s0.len(),
                            total == v1 - v0 - 1,
                            0 <= t <= total,
                            removed@ == s0.subrange(v0 + 1, v0 + 1 + t),
                            self@ == s0.subrange(0, v0 + 1) + s0.subrange(v0 + 1 + t, s0.len() as int),
                        decreases total - t,
                    {
                        let q = self.vertices.remove(v0 + 1);
                        removed.push(q);
                        proof {
                            assert(removed@ =~= s0.subrange(v0 + 1, v0 + 2 + t));
                            assert(self@ =~= s0.subrange(0, v0 + 1) + s0.subrange(
                                v0 + 2 + t,
                                s0.len() as int,
                            ));
                        }
                        t = t + 1;
                    }
                    self.vertices.insert(v0 + 1, new_point);
                    proof {
                        assert(self@ =~= splice_kept(s0, v0 as int, v1 as int, new_point));
                        assert(removed@ =~= splice_removed(s0, v0 as int, v1 as int));
                    }
                    Some(removed)
                } else {
                    while self.vertices.len() > v0 + 1
                        invariant
                            v1 < v0 < s0.len(),
                            v0 + 1 <= self@.len(),
                            removed@ == s0.subrange(v0 + 1, v0 + 1 + removed@.len() as int),
                            removed@.len() <= s0.len() - v0 - 1,
                            self@ == s0.subrange(0, v0 + 1) + s0.subrange(
                                v0 + 1 + removed@.len() as int,
                                s0.len() as int,
                            ),
                        decreases self@.len(),
                    {
                        let ghost m = removed@.len() as int;
                        let q = self.vertices.remove(v0 + 1);
                        removed.push(q);
                        proof {
                            assert(removed@ =~= s0.subrange(v0 + 1, v0 + 2 + m));
                            assert(self@ =~= s0.subrange(0, v0 + 1) + s0.subrange(
                                v0 + 2 + m,
                                s0.len() as int,
                            ));
                        }
                    }
                    proof {
                        assert(removed@ =~= s0.subrange(v0 + 1, s0.len() as int));
                        assert(self@ =~= s0.subrange(0, v0 + 1));
                    }
                    let mut t: usize = 0;
                    while t < v1
                        invariant
                            v1 < v0 < s0.len(),
                            0 <= t <= v1,
                            removed@ == s0.subrange(v0 + 1, s0.len() as int) + s0.subrange(
                                0,
                                t as int,
                            ),
                            self@ == s0.subrange(t as int, v0 + 1),
                        decreases v1 - t,
                    {
                        let q = self.vertices.remove(0);
                        removed.push(q);
                        proof {
                            assert(removed@ =~= s0.subrange(v0 + 1, s0.len() as int) + s0.subrange(
                                0,
                                t + 1,
                            ));
                            assert(self@ =~= s0.subrange(t + 1, v0 + 1));
                        }
                        t = t + 1;
                    }
                    self.vertices.push(new_point);
                    proof {
                        assert(self@ =~= splice_kept(s0, v0 as int, v1 as int, new_point));
                        assert(removed@ =~= splice_removed(s0, v0 as int, v1 as int));
                    }
                    Some(removed)
                }
            },
        }
    }

    /// The vertex position at an index.
    pub(crate) fn position_at(&self, index: usize) -> (r: Point)
        requires
            index < self@.len(),
        ensures
            r == self@[index as int],
    {
        self.vertices[index]
    }

    /// The vertex farthest from `center` under the IEEE order of rounded
    /// squared distances, skipping the excluded points; earlier vertices win
    /// ties.
    pub(crate) fn farthest_excluding(
        &self,
        center: Point,
        ex0: Option<Point>,
        ex1: Option<Point>,
    ) -> (r: Option<Point>)
        ensures
            r == farthest_scan(self@, center, ex0, ex1, 0, None),
    {
        let n = self.vertices.len();
        let mut best: Option<Point> = None;
        let mut i: usize = 0;
        while i < n
            invariant
                n == self@.len(),
                0 <= i <= n,
                farthest_scan(self@, center, ex0, ex1, 0, None) == farthest_scan(
                    self@,
                    center,
                    ex0,
                    ex1,
                    i as int,
                    best,
                ),
            decreases n - i,
        {
            let pos = self.vertices[i];
            let skip0 = match ex0 {
                Some(e) => e == pos,
                None => false,
            };
            let skip1 = match ex1 {
                Some(e) => e == pos,
                None => false,
            };
            if !(skip0 || skip1) {
                best = match best {
                    None => Some(pos),
                    Some(b) => if lt_bits(b.sub(center).sq_mag(), pos.sub(center).sq_mag()) {
                        Some(pos)
                    } else {
                        Some(b)
                    },
                };
            }
            i = i + 1;
        }
        best
    }

    /// A fresh hull with the same vertex sequence.
    pub(crate) fn duplicate(&self) -> (r: Self)
        ensures
            r@ == self@,
    {
        let n = self.vertices.len();
        let mut v: Vec<Point> = Vec::new();
        let mut i: usize = 0;
        while i < n
            invariant
                n == self@.len(),
                0 <= i <= n,
                v@ == self@.subrange(0, i as int),
            decreases n - i,
        {
            v.push(self.vertices[i]);
            proof {
                assert(v@ =~= self@.subrange(0, i + 1));
            }
            i = i + 1;
        }
        proof {
            assert(v@ =~= self@);
        }
        ConvexPolygon { vertices: v }
    }

    /// Remove exactly the vertex at the given index, shifting later indices
    /// down by one.  Convexity is not repaired here; that is the caller's
    /// responsibility.
    pub fn remove(&mut self, index: usize) -> (r: Point)
        requires
            index < old(self)@.len(),
        ensures
            r == old(self)@[index as int],
            final(self)@ == old(self)@.remove(index as int),
    {
        self.vertices.remove(index)
    }
}

} // verus!
