//! The sliding point cloud: one convex hull, a first-in-first-out log of
//! all active points, and the set of active points known to lie strictly
//! inside the hull.
//!
//! The governing invariant is the accounting equation: the window holds
//! exactly the hull vertices and the interior points, disjointly, so its
//! length is the hull degree plus the interior count.  `push` and `pop`
//! preserve it — proved below — as long as no active point is pushed a
//! second time while it is still active (a duplicate push collapses in the
//! interior set and breaks the count).

use vstd::prelude::*;

use crate::binary64::NAN_BITS;
use crate::binary64::ONE_BITS;
use crate::binary64::NEG_ONE_BITS;
use crate::binary64::TWO_BITS;
use crate::binary64::ZERO_BITS;
use crate::binary64::quot_bits;
use crate::binary64::sum_bits;
use crate::binary64::add_bits;
use crate::binary64::div_bits;
use crate::circle::ClosedCircle;
use crate::circle::circle_covers;
use crate::circle::three_point_circle;
use crate::circle::two_point_circle;
use crate::points::Point;
use crate::points::Vector;
use crate::polygon::ConvexPolygon;
use crate::polygon::best_scan;
use crate::polygon::farthest_scan;
use crate::polygon::find_scan;
use crate::polygon::insert_spec;
use crate::polygon::lemma_find_scan_contains;
use crate::polygon::lemma_insert_accounting;
use crate::polygon::next_idx;
use crate::polygon::prev_idx;
use crate::polygon::spec_covers;

verus! {

/// The sliding point cloud.
pub struct MovingPointCloud {
    cover: ConvexPolygon,
    interior: Vec<Point>,
    point_log: Vec<Point>,
}

/// The accounting invariant of a cloud, over its three views: no sequence
/// repeats a point, no point is both a hull vertex and an interior point,
/// the window holds exactly the union, and so its length is the sum.
pub open spec fn wf_parts(hull: Seq<Point>, interior: Seq<Point>, window: Seq<Point>) -> bool {
    &&& window.no_duplicates()
    &&& hull.no_duplicates()
    &&& interior.no_duplicates()
    &&& forall|q: Point| #![auto] !(hull.contains(q) && interior.contains(q))
    &&& forall|q: Point| #![auto]
        window.contains(q) <==> hull.contains(q) || interior.contains(q)
    &&& window.len() == hull.len() + interior.len()
}

/// Add points to an interior set one at a time, in order, skipping those
/// already present.
pub open spec fn interior_plus(s: Seq<Point>, add: Seq<Point>) -> Seq<Point>
    decreases add.len(),
{
    if add.len() == 0 {
        s
    } else {
        let s1 = if s.contains(add[0]) {
            s
        } else {
            s.push(add[0])
        };
        interior_plus(s1, add.drop_first())
    }
}

/// The interior set with the first occurrence of a point taken out, when
/// there is one.
pub open spec fn remove_first(s: Seq<Point>, p: Point) -> Seq<Point> {
    match find_scan(s, p, 0) {
        Some(j) => s.remove(j),
        None => s,
    }
}

/// What one `push` does to the three views: the window grows at the back,
/// the hull takes the point in, and whatever the hull evicted joins the
/// interior set.  None on the hull-insertion breakdowns.
pub open spec fn push_spec(hull: Seq<Point>, interior: Seq<Point>, window: Seq<Point>, p: Point)
    -> Option<(Seq<Point>, Seq<Point>, Seq<Point>)> {
    match insert_spec(hull, p) {
        None => None,
        Some(pair) => Some((pair.0, interior_plus(interior, pair.1), window.push(p))),
    }
}

/// The "lost region" polygon left by an evicted hull vertex: a scratch hull
/// built by inserting the vertex's two former neighbors and then the vertex
/// itself.  None when one of those insertions breaks down.
pub open spec fn lost_region_spec(a: Point, b: Point, c: Point) -> Option<Seq<Point>> {
    match insert_spec(Seq::<Point>::empty(), a) {
        None => None,
        Some(p1) => match insert_spec(p1.0, b) {
            None => None,
            Some(p2) => match insert_spec(p2.0, c) {
                None => None,
                Some(p3) => Some(p3.0),
            },
        },
    }
}

/// The rescan after a hull vertex is evicted: walk the interior points in
/// order; each one covered by the lost region leaves the interior set and is
/// re-inserted into the hull, whose evictions rejoin the interior set.  None
/// on any classification or insertion breakdown along the way.
pub open spec fn rescan(
    lost: Seq<Point>,
    hull: Seq<Point>,
    old_int: Seq<Point>,
    j: int,
    acc: Seq<Point>,
) -> Option<(Seq<Point>, Seq<Point>)>
    decreases old_int.len() - j,
{
    if j < 0 || j >= old_int.len() {
        Some((hull, acc))
    } else {
        let q = old_int[j];
        match spec_covers(lost, q) {
            None => None,
            Some(false) => rescan(lost, hull, old_int, j + 1, acc.push(q)),
            Some(true) => match insert_spec(hull, q) {
                None => None,
                Some(pair) => rescan(lost, pair.0, old_int, j + 1, interior_plus(acc, pair.1)),
            },
        }
    }
}

/// What one `pop` does to the three views.  On an empty window, nothing.
/// Otherwise the oldest point leaves the window; when it is an interior
/// point it simply leaves the interior set; when it is a hull vertex, the
/// vertex is removed and the rescan above repairs the hull.  None reports
/// the breakdowns — the point in neither the interior set nor the hull (the
/// accounting is broken), or a rescan failure.
pub open spec fn pop_spec(hull: Seq<Point>, interior: Seq<Point>, window: Seq<Point>) -> Option<
    (Seq<Point>, Seq<Point>, Seq<Point>),
> {
    if window.len() == 0 {
        Some((hull, interior, window))
    } else {
        let p = window[0];
        let win1 = window.drop_first();
        if interior.contains(p) {
            Some((hull, remove_first(interior, p), win1))
        } else {
            match find_scan(hull, p, 0) {
                None => None,
                Some(i) => {
                    let n = hull.len() as int;
                    match lost_region_spec(hull[prev_idx(n, i)], hull[next_idx(n, i)], hull[i]) {
                        None => None,
                        Some(lost) => match rescan(
                            lost,
                            hull.remove(i),
                            interior,
                            0,
                            Seq::<Point>::empty(),
                        ) {
                            None => None,
                            Some(pair) => Some((pair.0, pair.1, win1)),
                        },
                    }
                },
            }
        }
    }
}

/// Membership and duplicate-freedom of a concatenation.
proof fn lemma_concat_facts(a: Seq<Point>, b: Seq<Point>)
    ensures
        forall|q: Point| #![auto] (a + b).contains(q) <==> a.contains(q) || b.contains(q),
        (a.no_duplicates() && b.no_duplicates() && (forall|q: Point| #![auto]
            !(a.contains(q) && b.contains(q)))) ==> (a + b).no_duplicates(),
{
    assert forall|q: Point| #![auto]
        (a + b).contains(q) <==> a.contains(q) || b.contains(q) by {
        if (a + b).contains(q) {
            let k = choose|k: int| 0 <= k < (a + b).len() && (a + b)[k] == q;
            if k < a.len() {
                assert(a[k] == q);
            } else {
                assert(b[k - a.len()] == q);
            }
        }
        if a.contains(q) {
            let k = choose|k: int| 0 <= k < a.len() && a[k] == q;
            assert((a + b)[k] == q);
        }
        if b.contains(q) {
            let k = choose|k: int| 0 <= k < b.len() && b[k] == q;
            assert((a + b)[k + a.len()] == q);
        }
    }
    if a.no_duplicates() && b.no_duplicates() && (forall|q: Point| #![auto]
        !(a.contains(q) && b.contains(q))) {
        assert forall|i: int, j: int|
            0 <= i < (a + b).len() && 0 <= j < (a + b).len() && i != j implies (a + b)[i] != (a
            + b)[j] by {
            if i < a.len() && j < a.len() {
            } else if i >= a.len() && j >= a.len() {
            } else if i < a.len() && j >= a.len() {
                if (a + b)[i] == (a + b)[j] {
                    assert(a.contains(a[i]));
                    assert(b.contains(b[j - a.len()]));
                }
            } else {
                if (a + b)[i] == (a + b)[j] {
                    assert(a.contains(a[j]));
                    assert(b.contains(b[i - a.len()]));
                }
            }
        }
    }
}

/// Folding a set-insert over points none of which is already present, with
/// no duplicates among them, is plain concatenation.
proof fn lemma_interior_plus_disjoint(s: Seq<Point>, add: Seq<Point>)
    requires
        add.no_duplicates(),
        forall|q: Point| #![auto] add.contains(q) ==> !s.contains(q),
    ensures
        interior_plus(s, add) == s + add,
    decreases add.len(),
{
    if add.len() == 0 {
        assert(s + add =~= s);
    } else {
        assert(add.contains(add[0]));
        let s1 = s.push(add[0]);
        assert forall|q: Point| #![auto] add.drop_first().contains(q) implies !s1.contains(
            q,
        ) by {
            let k = choose|k: int| 0 <= k < add.drop_first().len() && add.drop_first()[k] == q;
            assert(add[k + 1] == q);
            assert(add.contains(q));
            assert(q != add[0]);
            lemma_concat_facts(s, seq![add[0]]);
            assert(s1 =~= s + seq![add[0]]);
        }
        assert(add.drop_first().no_duplicates()) by {
            assert forall|i: int, j: int|
                0 <= i < add.drop_first().len() && 0 <= j < add.drop_first().len() && i != j
                implies add.drop_first()[i] != add.drop_first()[j] by {
                assert(add.drop_first()[i] == add[i + 1]);
                assert(add.drop_first()[j] == add[j + 1]);
            }
        }
        lemma_interior_plus_disjoint(s1, add.drop_first());
        assert(s1 + add.drop_first() =~= s + add);
    }
}

/// Appending one more point to the fold is one more set-insert step.
proof fn lemma_interior_plus_snoc(s: Seq<Point>, a: Seq<Point>, x: Point)
    ensures
        interior_plus(s, a.push(x)) == ({
            let t = interior_plus(s, a);
            if t.contains(x) {
                t
            } else {
                t.push(x)
            }
        }),
    decreases a.len(),
{
    if a.len() == 0 {
        assert(a.push(x)[0] == x);
        assert(a.push(x).drop_first() =~= Seq::<Point>::empty());
        assert(interior_plus(s, a) == s);
        let s1 = if s.contains(x) {
            s
        } else {
            s.push(x)
        };
        assert(interior_plus(s1, Seq::<Point>::empty()) == s1);
    } else {
        assert(a.push(x)[0] == a[0]);
        assert(a.push(x).drop_first() =~= a.drop_first().push(x));
        let s1 = if s.contains(a[0]) {
            s
        } else {
            s.push(a[0])
        };
        lemma_interior_plus_snoc(s1, a.drop_first(), x);
    }
}

/// Removing one position from a duplicate-free sequence removes exactly
/// that point from its membership.
proof fn lemma_remove_keeps(s: Seq<Point>, j: int)
    requires
        0 <= j < s.len(),
        s.no_duplicates(),
    ensures
        s.remove(j).no_duplicates(),
        s.remove(j).len() == s.len() - 1,
        forall|q: Point| #![auto] s.remove(j).contains(q) <==> (s.contains(q) && q != s[j]),
{
    let t = s.remove(j);
    assert forall|q: Point| #![auto]
        t.contains(q) <==> (s.contains(q) && q != s[j]) by {
        if t.contains(q) {
            let k = choose|k: int| 0 <= k < t.len() && t[k] == q;
            if k < j {
                assert(s[k] == q);
                assert(s[k] != s[j]);
            } else {
                assert(s[k + 1] == q);
                assert(s[k + 1] != s[j]);
            }
        }
        if s.contains(q) && q != s[j] {
            let k = choose|k: int| 0 <= k < s.len() && s[k] == q;
            if k < j {
                assert(t[k] == q);
            } else {
                assert(k != j);
                assert(t[k - 1] == q);
            }
        }
    }
    assert forall|a: int, b: int|
        0 <= a < t.len() && 0 <= b < t.len() && a != b implies t[a] != t[b] by {
        assert(t[a] == (if a < j {
            s[a]
        } else {
            s[a + 1]
        }));
        assert(t[b] == (if b < j {
            s[b]
        } else {
            s[b + 1]
        }));
    }
}

/// One `push` of a fresh point preserves the accounting invariant.
proof fn lemma_push_wf(h0: Seq<Point>, int0: Seq<Point>, w0: Seq<Point>, p: Point)
    requires
        wf_parts(h0, int0, w0),
        !w0.contains(p),
        insert_spec(h0, p) is Some,
    ensures
        ({
            let (h1, ev) = insert_spec(h0, p)->Some_0;
            wf_parts(h1, interior_plus(int0, ev), w0.push(p))
        }),
{
    let (h1, ev) = insert_spec(h0, p)->Some_0;
    assert(!h0.contains(p));
    lemma_insert_accounting(h0, p);
    assert forall|q: Point| #![auto] ev.contains(q) implies !int0.contains(q) by {
        assert(h1.contains(q) || ev.contains(q));
        assert(h0.contains(q) || q == p);
        if h0.contains(q) {
            assert(!int0.contains(q));
        } else {
            assert(q == p);
            if int0.contains(p) {
                assert(w0.contains(p));
            }
        }
    }
    lemma_interior_plus_disjoint(int0, ev);
    let int1 = int0 + ev;
    let w1 = w0.push(p);
    lemma_concat_facts(int0, ev);
    lemma_concat_facts(w0, seq![p]);
    assert(w1 =~= w0 + seq![p]);
    assert forall|q: Point| #![auto] seq![p].contains(q) <==> q == p by {
        if seq![p].contains(q) {
            let k = choose|k: int| 0 <= k < 1 && seq![p][k] == q;
            assert(seq![p][0] == p);
        }
        if q == p {
            assert(seq![p][0] == p);
        }
    }
    assert(int1.no_duplicates()) by {
        assert forall|q: Point| #![auto] !(int0.contains(q) && ev.contains(q)) by {}
    }
    assert(w1.no_duplicates()) by {
        assert forall|q: Point| #![auto] !(w0.contains(q) && seq![p].contains(q)) by {
            if seq![p].contains(q) {
                assert(q == p);
            }
        }
    }
    assert forall|q: Point| #![auto] !(h1.contains(q) && int1.contains(q)) by {
        if h1.contains(q) && int1.contains(q) {
            if int0.contains(q) {
                assert(h0.contains(q) || q == p);
                if q == p {
                    assert(w0.contains(p));
                }
            } else {
                assert(ev.contains(q));
            }
        }
    }
    assert forall|q: Point| #![auto]
        w1.contains(q) <==> h1.contains(q) || int1.contains(q) by {
        assert(w1.contains(q) <==> w0.contains(q) || q == p);
        assert(int1.contains(q) <==> int0.contains(q) || ev.contains(q));
        assert(h1.contains(q) || ev.contains(q) <==> h0.contains(q) || q == p);
        if q == p && h1.contains(p) {
        }
        if q == p && !h1.contains(p) {
            assert(ev.contains(p));
        }
    }
    assert(w1.len() == h1.len() + int1.len());
}

/// The rescan preserves the accounting: given the disjointness and counting
/// facts tying the hull, the settled interior points, and the not yet
/// rescanned interior points to the popped window `w`, a successful rescan
/// hands back a hull and an interior set that partition `w` exactly.
proof fn lemma_rescan_wf(
    lost: Seq<Point>,
    hull: Seq<Point>,
    old_int: Seq<Point>,
    j: int,
    acc: Seq<Point>,
    w: Seq<Point>,
)
    requires
        0 <= j <= old_int.len(),
        old_int.no_duplicates(),
        hull.no_duplicates(),
        acc.no_duplicates(),
        forall|q: Point| #![auto] !(hull.contains(q) && acc.contains(q)),
        forall|k: int|
            j <= k < old_int.len() ==> !hull.contains(#[trigger] old_int[k]) && !acc.contains(
                old_int[k],
            ),
        forall|q: Point| #![auto]
            w.contains(q) <==> hull.contains(q) || acc.contains(q) || (exists|k: int|
                j <= k < old_int.len() && old_int[k] == q),
        hull.len() + acc.len() + (old_int.len() - j) == w.len(),
        rescan(lost, hull, old_int, j, acc) is Some,
    ensures
        ({
            let (h2, a2) = rescan(lost, hull, old_int, j, acc)->Some_0;
            &&& h2.no_duplicates()
            &&& a2.no_duplicates()
            &&& forall|q: Point| #![auto] !(h2.contains(q) && a2.contains(q))
            &&& forall|q: Point| #![auto] w.contains(q) <==> h2.contains(q) || a2.contains(q)
            &&& h2.len() + a2.len() == w.len()
        }),
    decreases old_int.len() - j,
{
    if j >= old_int.len() {
        assert forall|q: Point| #![auto]
            w.contains(q) <==> hull.contains(q) || acc.contains(q) by {}
    } else {
        let q = old_int[j];
        assert forall|x: Point| #![auto] seq![q].contains(x) <==> x == q by {
            if seq![q].contains(x) {
                let k = choose|k: int| 0 <= k < 1 && seq![q][k] == x;
                assert(seq![q][0] == q);
            }
            if x == q {
                assert(seq![q][0] == q);
            }
        }
        match spec_covers(lost, q) {
            None => {},
            Some(false) => {
                let acc2 = acc.push(q);
                assert(acc2 =~= acc + seq![q]);
                lemma_concat_facts(acc, seq![q]);
                assert(acc2.no_duplicates());
                assert forall|k: int|
                    j + 1 <= k < old_int.len() implies !hull.contains(#[trigger] old_int[k])
                    && !acc2.contains(old_int[k]) by {
                    assert(old_int[k] != q);
                }
                assert forall|x: Point| #![auto]
                    w.contains(x) <==> hull.contains(x) || acc2.contains(x) || (exists|k: int|
                        j + 1 <= k < old_int.len() && old_int[k] == x) by {
                    if w.contains(x) {
                        if !hull.contains(x) && !acc.contains(x) {
                            let k = choose|k: int|
                                j <= k < old_int.len() && old_int[k] == x;
                            if k == j {
                                assert(acc2.contains(q));
                            } else {
                                assert(j + 1 <= k < old_int.len() && old_int[k] == x);
                            }
                        }
                    }
                    if acc2.contains(x) && !acc.contains(x) {
                        assert(x == q);
                        assert(j <= j < old_int.len() && old_int[j] == x);
                    }
                    if exists|k: int| j + 1 <= k < old_int.len() && old_int[k] == x {
                        let k = choose|k: int| j + 1 <= k < old_int.len() && old_int[k] == x;
                        assert(j <= k < old_int.len() && old_int[k] == x);
                    }
                }
                lemma_rescan_wf(lost, hull, old_int, j + 1, acc2, w);
            },
            Some(true) => {
                let pair = insert_spec(hull, q)->Some_0;
                let h2 = pair.0;
                let ev = pair.1;
                assert(!hull.contains(q));
                lemma_insert_accounting(hull, q);
                assert forall|x: Point| #![auto] ev.contains(x) implies !acc.contains(x) by {
                    assert(h2.contains(x) || ev.contains(x));
                    assert(hull.contains(x) || x == q);
                }
                lemma_interior_plus_disjoint(acc, ev);
                let acc2 = acc + ev;
                lemma_concat_facts(acc, ev);
                assert(acc2.no_duplicates());
                assert forall|x: Point| #![auto] !(h2.contains(x) && acc2.contains(x)) by {
                    if h2.contains(x) && acc2.contains(x) {
                        if acc.contains(x) {
                            assert(hull.contains(x) || x == q);
                        } else {
                            assert(ev.contains(x));
                        }
                    }
                }
                assert forall|k: int|
                    j + 1 <= k < old_int.len() implies !h2.contains(#[trigger] old_int[k])
                    && !acc2.contains(old_int[k]) by {
                    let x = old_int[k];
                    assert(x != q);
                    if h2.contains(x) || ev.contains(x) {
                        assert(hull.contains(x) || x == q);
                    }
                }
                assert forall|x: Point| #![auto]
                    w.contains(x) <==> h2.contains(x) || acc2.contains(x) || (exists|k: int|
                        j + 1 <= k < old_int.len() && old_int[k] == x) by {
                    if w.contains(x) {
                        if !hull.contains(x) && !acc.contains(x) {
                            let k = choose|k: int|
                                j <= k < old_int.len() && old_int[k] == x;
                            if k == j {
                                assert(h2.contains(q) || ev.contains(q));
                            } else {
                                assert(j + 1 <= k < old_int.len() && old_int[k] == x);
                            }
                        } else {
                            if hull.contains(x) {
                                assert(h2.contains(x) || ev.contains(x));
                            }
                        }
                    }
                    if h2.contains(x) || acc2.contains(x) {
                        if h2.contains(x) || ev.contains(x) {
                            assert(hull.contains(x) || x == q);
                            if x == q {
                                assert(j <= j < old_int.len() && old_int[j] == x);
                            }
                        }
                    }
                    if exists|k: int| j + 1 <= k < old_int.len() && old_int[k] == x {
                        let k = choose|k: int| j + 1 <= k < old_int.len() && old_int[k] == x;
                        assert(j <= k < old_int.len() && old_int[k] == x);
                    }
                }
                assert(h2.len() + ev.len() == hull.len() + 1);
                assert(acc2.len() == acc.len() + ev.len());
                lemma_rescan_wf(lost, h2, old_int, j + 1, acc2, w);
            },
        }
    }
}

/// Law: in a well-formed cloud the oldest point is always accounted for —
/// when it is not an interior point it is a hull vertex, so the lookup that
/// `pop` makes succeeds and the "in neither place" breakdown cannot happen.
pub proof fn lemma_pop_point_is_accounted(hull: Seq<Point>, interior: Seq<Point>, window: Seq<
    Point,
>)
    requires
        wf_parts(hull, interior, window),
        window.len() > 0,
        !interior.contains(window[0]),
    ensures
        find_scan(hull, window[0], 0) is Some,
{
    assert(window.contains(window[0]));
    lemma_find_scan_contains(hull, window[0], 0);
}

/// Whether a point occurs in a vector of points.
fn contains_point(v: &Vec<Point>, p: Point) -> (r: bool)
    ensures
        r == v@.contains(p),
{
    let n = v.len();
    let mut i: usize = 0;
    while i < n
        invariant
            n == v@.len(),
            0 <= i <= n,
            forall|k: int| 0 <= k < i ==> v@[k] != p,
        decreases n - i,
    {
        if v[i] == p {
            assert(v@.contains(p));
            return true;
        }
        i = i + 1;
    }
    assert(!v@.contains(p)) by {
        if v@.contains(p) {
            let k = choose|k: int| 0 <= k < v@.len() && v@[k] == p;
        }
    }
    false
}

/// Remove the first occurrence of a point from a vector of points, if any.
fn remove_point(v: &mut Vec<Point>, p: Point)
    ensures
        final(v)@ == remove_first(old(v)@, p),
{
    let n = v.len();
    let mut i: usize = 0;
    while i < n
        invariant
            n == v@.len(),
            0 <= i <= n,
            v@ == old(v)@,
            find_scan(v@, p, 0) == find_scan(v@, p, i as int),
        decreases n - i,
    {
        if v[i] == p {
            v.remove(i);
            return;
        }
        i = i + 1;
    }
}

impl MovingPointCloud {
    /// The hull vertex sequence.
    pub closed spec fn hull(&self) -> Seq<Point> {
        self.cover@
    }

    /// The interior points, in insertion order.
    pub closed spec fn interior_pts(&self) -> Seq<Point> {
        self.interior@
    }

    /// The active points, oldest first.
    pub closed spec fn window(&self) -> Seq<Point> {
        self.point_log@
    }

    /// The accounting invariant.
    pub open spec fn wf(&self) -> bool {
        wf_parts(self.hull(), self.interior_pts(), self.window())
    }

    /// An empty cloud.
    pub fn new() -> (r: Self)
        ensures
            r.hull() == Seq::<Point>::empty(),
            r.interior_pts() == Seq::<Point>::empty(),
            r.window() == Seq::<Point>::empty(),
            r.wf(),
    {
        let r = MovingPointCloud {
            cover: ConvexPolygon::new(),
            interior: Vec::new(),
            point_log: Vec::new(),
        };
        proof {
            assert forall|q: Point| #![auto] !r.hull().contains(q) by {}
            assert forall|q: Point| #![auto] !r.window().contains(q) by {}
            assert forall|q: Point| #![auto] !r.interior_pts().contains(q) by {}
        }
        r
    }

    /// The number of active points, which the invariant makes equal to the
    /// hull degree plus the interior count.
    pub fn len(&self) -> (r: usize)
        requires
            self.wf(),
        ensures
            r == self.window().len(),
            r == self.hull().len() + self.interior_pts().len(),
    {
        self.point_log.len()
    }

    /// Append one point to the window and feed it to the hull; whatever the
    /// hull evicts joins the interior set.  False reports the hull-insertion
    /// breakdown (on which the cloud is unchanged).  A fresh point — one not
    /// currently in the window — preserves the accounting invariant.
    pub fn push(&mut self, p: Point) -> (r: bool)
        ensures
            match push_spec(old(self).hull(), old(self).interior_pts(), old(self).window(), p) {
                Some(t) => {
                    &&& r
                    &&& final(self).hull() == t.0
                    &&& final(self).interior_pts() == t.1
                    &&& final(self).window() == t.2
                },
                None => {
                    &&& !r
                    &&& final(self).hull() == old(self).hull()
                    &&& final(self).interior_pts() == old(self).interior_pts()
                    &&& final(self).window() == old(self).window()
                },
            },
            old(self).wf() && !old(self).window().contains(p) && r ==> final(self).wf(),
    {
        let ghost h0 = self.hull();
        let ghost int0 = self.interior_pts();
        let ghost w0 = self.window();
        let evicted = match self.cover.insert(p) {
            None => {
                return false;
            },
            Some(ev) => ev,
        };
        self.point_log.push(p);
        let ghost evs = evicted@;
        let n = evicted.len();
        let mut i: usize = 0;
        while i < n
            invariant
                n == evs.len(),
                0 <= i <= n,
                evicted@ == evs,
                self.hull() == insert_spec(h0, p)->Some_0.0,
                insert_spec(h0, p) is Some,
                evs == insert_spec(h0, p)->Some_0.1,
                self.window() == w0.push(p),
                self.interior_pts() == interior_plus(int0, evs.subrange(0, i as int)),
            decreases n - i,
        {
            let q = evicted[i];
            proof {
                lemma_interior_plus_snoc(int0, evs.subrange(0, i as int), q);
                assert(evs.subrange(0, i + 1) =~= evs.subrange(0, i as int).push(q));
            }
            if !contains_point(&self.interior, q) {
                self.interior.push(q);
            }
            i = i + 1;
        }
        proof {
            assert(evs.subrange(0, evs.len() as int) =~= evs);
            if wf_parts(h0, int0, w0) && !w0.contains(p) {
                lemma_push_wf(h0, int0, w0, p);
            }
        }
        true
    }

    /// Pop the oldest point; on an empty window, do nothing.  An interior
    /// point simply leaves the interior set.  A hull vertex is removed, and
    /// every interior point covered by the lost region it leaves behind is
    /// promoted back into the hull, whose evictions rejoin the interior
    /// set.  False reports a breakdown — the popped point in neither the
    /// interior set nor the hull (broken accounting), or an unordered
    /// classification or failed promotion during the repair — and leaves
    /// the cloud unchanged.  A successful pop on a well-formed cloud
    /// preserves the accounting invariant.
    pub fn pop(&mut self) -> (r: bool)
        ensures
            r == (pop_spec(old(self).hull(), old(self).interior_pts(), old(self).window())
                is Some),
            r ==> ({
                let t = pop_spec(
                    old(self).hull(),
                    old(self).interior_pts(),
                    old(self).window(),
                )->Some_0;
                &&& final(self).hull() == t.0
                &&& final(self).interior_pts() == t.1
                &&& final(self).window() == t.2
            }),
            !r ==> ({
                &&& final(self).hull() == old(self).hull()
                &&& final(self).interior_pts() == old(self).interior_pts()
                &&& final(self).window() == old(self).window()
            }),
            old(self).wf() && r ==> final(self).wf(),
    {
        let ghost h0 = self.hull();
        let ghost int0 = self.interior_pts();
        let ghost w0 = self.window();
        if self.point_log.len() == 0 {
            return true;
        }
        let p = self.point_log[0];
        if contains_point(&self.interior, p) {
            remove_point(&mut self.interior, p);
            self.point_log.remove(0);
            proof {
                assert(w0.drop_first() =~= w0.remove(0));
                if wf_parts(h0, int0, w0) {
                    lemma_find_scan_contains(int0, p, 0);
                    let jj = find_scan(int0, p, 0)->Some_0;
                    lemma_remove_keeps(int0, jj);
                    lemma_remove_keeps(w0, 0);
                    let int1 = int0.remove(jj);
                    let w1 = w0.remove(0);
                    assert(!h0.contains(p));
                    assert forall|q: Point| #![auto]
                        w1.contains(q) <==> h0.contains(q) || int1.contains(q) by {
                        if h0.contains(q) {
                            assert(q != p);
                            assert(w0.contains(q));
                        }
                        if int1.contains(q) {
                            assert(w0.contains(q));
                        }
                    }
                    assert(wf_parts(h0, int1, w1));
                }
            }
            return true;
        }
        let vertex = match self.cover.find(p) {
            None => {
                return false;
            },
            Some(v) => v,
        };
        let ghost i = vertex.idx();
        proof {
            lemma_find_scan_contains(h0, p, 0);
        }
        let rev_pos = vertex.rev_vertex().position();
        let fwd_pos = vertex.fwd_vertex().position();
        let vertex_id = vertex.to_id();
        let mut lost = ConvexPolygon::new();
        match lost.insert(rev_pos) {
            None => {
                return false;
            },
            Some(_) => {},
        }
        match lost.insert(fwd_pos) {
            None => {
                return false;
            },
            Some(_) => {},
        }
        match lost.insert(p) {
            None => {
                return false;
            },
            Some(_) => {},
        }
        let ghost lostseq = lost@;
        let ghost n0 = h0.len() as int;
        proof {
            assert(lost_region_spec(h0[prev_idx(n0, i)], h0[next_idx(n0, i)], h0[i]) == Some(
                lostseq,
            ));
        }
        let mut new_cover = self.cover.duplicate();
        let _ = new_cover.remove(vertex_id);
        let ghost hull1 = h0.remove(i);
        let mut new_interior: Vec<Point> = Vec::new();
        let n_int = self.interior.len();
        let mut j: usize = 0;
        while j < n_int
            invariant
                n_int == int0.len(),
                0 <= j <= n_int,
                h0 == old(self).hull(),
                int0 == old(self).interior_pts(),
                w0 == old(self).window(),
                self.hull() == h0,
                self.interior_pts() == int0,
                self.window() == w0,
                w0.len() > 0,
                p == w0[0],
                !int0.contains(p),
                find_scan(h0, p, 0) == Some(i),
                0 <= i < h0.len(),
                h0[i] == p,
                n0 == h0.len() as int,
                lost@ == lostseq,
                lost_region_spec(h0[prev_idx(n0, i)], h0[next_idx(n0, i)], h0[i]) == Some(
                    lostseq,
                ),
                hull1 == h0.remove(i),
                rescan(lostseq, hull1, int0, 0, Seq::<Point>::empty()) == rescan(
                    lostseq,
                    new_cover@,
                    int0,
                    j as int,
                    new_interior@,
                ),
            decreases n_int - j,
        {
            let q = self.interior[j];
            match lost.covers(q) {
                None => {
                    return false;
                },
                Some(true) => {
                    let ghost acc0 = new_interior@;
                    match new_cover.insert(q) {
                        None => {
                            return false;
                        },
                        Some(ev) => {
                            let ghost evs = ev@;
                            let m = ev.len();
                            let mut t: usize = 0;
                            while t < m
                                invariant
                                    m == evs.len(),
                                    0 <= t <= m,
                                    ev@ == evs,
                                    new_interior@ == interior_plus(acc0, evs.subrange(0, t as int)),
                                decreases m - t,
                            {
                                let x = ev[t];
                                proof {
                                    lemma_interior_plus_snoc(acc0, evs.subrange(0, t as int), x);
                                    assert(evs.subrange(0, t + 1) =~= evs.subrange(
                                        0,
                                        t as int,
                                    ).push(x));
                                }
                                if !contains_point(&new_interior, x) {
                                    new_interior.push(x);
                                }
                                t = t + 1;
                            }
                            proof {
                                assert(evs.subrange(0, m as int) =~= evs);
                            }
                        },
                    }
                },
                Some(false) => {
                    new_interior.push(q);
                },
            }
            j = j + 1;
        }
        self.cover = new_cover;
        self.interior = new_interior;
        self.point_log.remove(0);
        proof {
            assert(w0.drop_first() =~= w0.remove(0));
            if wf_parts(h0, int0, w0) {
                lemma_remove_keeps(h0, i);
                lemma_remove_keeps(w0, 0);
                let w1 = w0.remove(0);
                let e = Seq::<Point>::empty();
                assert forall|k: int|
                    0 <= k < int0.len() implies !hull1.contains(#[trigger] int0[k])
                    && !e.contains(int0[k]) by {
                    assert(int0.contains(int0[k]));
                    if hull1.contains(int0[k]) {
                        assert(h0.contains(int0[k]));
                    }
                }
                assert forall|q: Point| #![auto]
                    w1.contains(q) <==> hull1.contains(q) || e.contains(q) || (exists|k: int|
                        0 <= k < int0.len() && int0[k] == q) by {
                    if w1.contains(q) {
                        assert(w0.contains(q) && q != p);
                        if h0.contains(q) {
                            assert(hull1.contains(q));
                        } else {
                            assert(int0.contains(q));
                            let k = choose|k: int| 0 <= k < int0.len() && int0[k] == q;
                            assert(0 <= k < int0.len() && int0[k] == q);
                        }
                    }
                    if hull1.contains(q) {
                        assert(h0.contains(q) && q != p);
                        assert(w0.contains(q));
                    }
                    if exists|k: int| 0 <= k < int0.len() && int0[k] == q {
                        let k = choose|k: int| 0 <= k < int0.len() && int0[k] == q;
                        assert(int0.contains(q));
                        assert(q != p);
                        assert(w0.contains(q));
                    }
                }
                lemma_rescan_wf(lostseq, hull1, int0, 0, e, w1);
            }
        }
        true
    }

    /// Push each of the given points in order, stopping at the first
    /// breakdown; true when all of them went in.  When neither the window
    /// nor the new points repeat a point, the accounting invariant is
    /// preserved however far the pushes got.
    pub fn extend(&mut self, points: Vec<Point>) -> (r: bool)
        ensures
            ({
                let t = extend_spec(
                    old(self).hull(),
                    old(self).interior_pts(),
                    old(self).window(),
                    points@,
                );
                &&& r == t.1
                &&& final(self).hull() == t.0.0
                &&& final(self).interior_pts() == t.0.1
                &&& final(self).window() == t.0.2
            }),
            old(self).wf() && (old(self).window() + points@).no_duplicates()
                ==> final(self).wf(),
    {
        let ghost w0 = old(self).window();
        let n = points.len();
        proof {
            assert(points@.subrange(0, n as int) =~= points@);
            assert(w0 + points@.subrange(0, 0) =~= w0);
        }
        let mut i: usize = 0;
        while i < n
            invariant
                n == points@.len(),
                0 <= i <= n,
                w0 == old(self).window(),
                extend_spec(old(self).hull(), old(self).interior_pts(), old(self).window(),
                    points@) == extend_spec(self.hull(), self.interior_pts(), self.window(),
                    points@.subrange(i as int, n as int)),
                old(self).wf() && (w0 + points@).no_duplicates() ==> self.wf() && self.window()
                    == w0 + points@.subrange(0, i as int),
            decreases n - i,
        {
            let ghost pre = points@.subrange(i as int, n as int);
            proof {
                assert(pre[0] == points@[i as int]);
                assert(pre.drop_first() =~= points@.subrange(i + 1, n as int));
                if old(self).wf() && (w0 + points@).no_duplicates() {
                    assert(!self.window().contains(points@[i as int])) by {
                        if self.window().contains(points@[i as int]) {
                            let k = choose|k: int|
                                0 <= k < self.window().len() && self.window()[k] == points@[i
                                    as int];
                            assert((w0 + points@)[k] == points@[i as int]);
                            assert((w0 + points@)[w0.len() + i] == points@[i as int]);
                        }
                    }
                }
            }
            if !self.push(points[i]) {
                return false;
            }
            proof {
                if old(self).wf() && (w0 + points@).no_duplicates() {
                    assert((w0 + points@.subrange(0, i as int)).push(points@[i as int]) =~= w0
                        + points@.subrange(0, i + 1));
                }
            }
            i = i + 1;
        }
        proof {
            assert(points@.subrange(n as int, n as int) =~= Seq::<Point>::empty());
        }
        true
    }

    /// The current enclosing circle, derived from the hull alone.
    pub fn cover_circle(&self) -> (r: Option<ClosedCircle>)
        ensures
            r == cover_circle_spec(self.hull()),
    {
        let n = self.cover.degree();
        if n == 0 {
            return Some(
                ClosedCircle {
                    center: Point { x: NAN_BITS, y: NAN_BITS },
                    sq_radius: ZERO_BITS,
                },
            );
        }
        if n == 1 {
            let v = self.cover.some_vertex();
            return Some(ClosedCircle { center: v.position(), sq_radius: ZERO_BITS });
        }
        let left = match self.cover.find_best(Vector { x: NEG_ONE_BITS, y: ZERO_BITS }) {
            None => {
                return None;
            },
            Some(v) => v.position(),
        };
        let right = match self.cover.find_best(Vector { x: ONE_BITS, y: ZERO_BITS }) {
            None => {
                return None;
            },
            Some(v) => v.position(),
        };
        let down = match self.cover.find_best(Vector { x: ZERO_BITS, y: NEG_ONE_BITS }) {
            None => {
                return None;
            },
            Some(v) => v.position(),
        };
        let up = match self.cover.find_best(Vector { x: ZERO_BITS, y: ONE_BITS }) {
            None => {
                return None;
            },
            Some(v) => v.position(),
        };
        let center = Point {
            x: div_bits(add_bits(left.x, right.x), TWO_BITS),
            y: div_bits(add_bits(down.y, up.y), TWO_BITS),
        };
        let p1 = match self.cover.farthest_excluding(center, None, None) {
            None => {
                return None;
            },
            Some(p) => p,
        };
        let p2 = match self.cover.farthest_excluding(center, Some(p1), None) {
            None => {
                return None;
            },
            Some(p) => p,
        };
        let circ_2pt = ClosedCircle::from_two_points(p1, p2);
        match self.cover.farthest_excluding(center, Some(p1), Some(p2)) {
            Some(p3) => if !circ_2pt.covers(p3) {
                Some(ClosedCircle::from_three_points(p1, p2, p3))
            } else {
                Some(circ_2pt)
            },
            None => Some(circ_2pt),
        }
    }
}

/// What `cover_circle` answers, from the hull alone.  An empty hull gives
/// the sentinel circle (not-a-number center, zero squared radius, meaning
/// "no data"); a single vertex gives the zero-radius circle there.
/// Otherwise: the approximate center is the midpoint of the axis-aligned
/// bounding box found by the four cardinal support queries; the two hull
/// vertices farthest from it give a diametral circle; if the farthest
/// remaining vertex is not covered by it, the circumscribed circle of the
/// three is the answer, else the diametral one.  None when a support query
/// finds no bracketing vertex or a farthest-vertex scan comes back empty.
pub open spec fn cover_circle_spec(s: Seq<Point>) -> Option<ClosedCircle> {
    if s.len() == 0 {
        Some(ClosedCircle { center: Point { x: NAN_BITS, y: NAN_BITS }, sq_radius: ZERO_BITS })
    } else if s.len() == 1 {
        Some(ClosedCircle { center: s[0], sq_radius: ZERO_BITS })
    } else {
        let bl = best_scan(s, Vector { x: NEG_ONE_BITS, y: ZERO_BITS }, 0);
        let br = best_scan(s, Vector { x: ONE_BITS, y: ZERO_BITS }, 0);
        let bd = best_scan(s, Vector { x: ZERO_BITS, y: NEG_ONE_BITS }, 0);
        let bu = best_scan(s, Vector { x: ZERO_BITS, y: ONE_BITS }, 0);
        if bl is None || br is None || bd is None || bu is None {
            None
        } else {
            let center = (Point {
                x: quot_bits(sum_bits(s[bl->Some_0].x, s[br->Some_0].x), TWO_BITS),
                y: quot_bits(sum_bits(s[bd->Some_0].y, s[bu->Some_0].y), TWO_BITS),
            });
            match farthest_scan(s, center, None, None, 0, None) {
                None => None,
                Some(p1) => match farthest_scan(s, center, Some(p1), None, 0, None) {
                    None => None,
                    Some(p2) => {
                        let c2 = two_point_circle(p1, p2);
                        match farthest_scan(s, center, Some(p1), Some(p2), 0, None) {
                            Some(p3) => if !circle_covers(c2, p3) {
                                Some(three_point_circle(p1, p2, p3))
                            } else {
                                Some(c2)
                            },
                            None => Some(c2),
                        }
                    },
                },
            }
        }
    }
}

/// What `extend` does: fold `push` over the points in order; on the first
/// breakdown it stops, leaving the cloud as the earlier pushes made it.
pub open spec fn extend_spec(
    hull: Seq<Point>,
    interior: Seq<Point>,
    window: Seq<Point>,
    pts: Seq<Point>,
) -> ((Seq<Point>, Seq<Point>, Seq<Point>), bool)
    decreases pts.len(),
{
    if pts.len() == 0 {
        ((hull, interior, window), true)
    } else {
        match push_spec(hull, interior, window, pts[0]) {
            None => ((hull, interior, window), false),
            Some(t) => extend_spec(t.0, t.1, t.2, pts.drop_first()),
        }
    }
}

} // verus!
