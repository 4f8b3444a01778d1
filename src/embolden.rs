use vstd::prelude::*;

verus! {

/// Forward distance from index `a` to index `b` on a ring of `len` indices.
pub open spec fn ring_dist(a: int, b: int, len: int) -> int {
    if a <= b {
        b - a
    } else {
        b + len - a
    }
}

/// `u` is index `x` on a ring of `len` indices, unrolled by at most two laps.
spec fn lap(x: int, u: int, len: int) -> bool {
    u == x || u == x + len || u == x + 2 * len
}

/// `d` is a direction that `edge` may give between two of the points `pts`.
pub open spec fn edge_dir<P, D, FE: Fn(P, P) -> Option<D>>(edge: FE, pts: Seq<P>, d: D) -> bool {
    exists|a: int, b: int|
        0 <= a < pts.len() && 0 <= b < pts.len() && #[trigger] edge.ensures((pts[a], pts[b]), Some(d))
}

/// Point `b` is point `a` moved by `offset` for the corner between two
/// directions that `edge` gave between points of `pts`.
pub open spec fn offset_of<P, D, FE: Fn(P, P) -> Option<D>, FO: Fn(P, D, D) -> P>(
    edge: FE,
    offset: FO,
    pts: Seq<P>,
    a: P,
    b: P,
) -> bool {
    exists|d: D, e: D|
        #[trigger] offset.ensures((a, d, e), b) && edge_dir::<P, D, FE>(edge, pts, d)
            && edge_dir::<P, D, FE>(edge, pts, e)
}

/// No two of the given points form an edge of nonzero length.
pub open spec fn no_edges<P, D, FE: Fn(P, P) -> Option<D>>(edge: FE, pts: Seq<P>) -> bool {
    forall|a: int, b: int, r: Option<D>|
        0 <= a < pts.len() && 0 <= b < pts.len() && #[trigger] edge.ensures((pts[a], pts[b]), r)
            ==> r is None
}

/// How many leading points of a contour of `n` points the sweep visits: a
/// closed contour leaves out its last point, which repeats the first.
pub open spec fn swept(n: nat, closed: bool) -> nat {
    if closed {
        (n - 1) as nat
    } else {
        n
    }
}

/// `edge` surely finds an edge of nonzero length from `a` to `b`.
pub open spec fn must_edge<P, D, FE: Fn(P, P) -> Option<D>>(edge: FE, a: P, b: P) -> bool {
    forall|r: Option<D>| #[trigger] edge.ensures((a, b), r) ==> r is Some
}

/// The sweep of a ring of points is bound to find a corner: some point is
/// surely reached by an edge from the ring's last point, and every point
/// that may be reached from the last point surely reaches back to it.
pub open spec fn finds_corner<P, D, FE: Fn(P, P) -> Option<D>>(edge: FE, ring: Seq<P>) -> bool {
    let last = ring.len() - 1;
    &&& exists|a: int| 0 <= a < last && #[trigger] must_edge::<P, D, FE>(edge, ring[last], ring[a])
    &&& reaches_back::<P, D, FE>(edge, ring)
}

/// Every point that an edge from the ring's last point may reach surely
/// reaches back to it.
pub open spec fn reaches_back<P, D, FE: Fn(P, P) -> Option<D>>(edge: FE, ring: Seq<P>) -> bool {
    let last = ring.len() - 1;
    forall|a: int, d: D|
        0 <= a < last && #[trigger] edge.ensures((ring[last], ring[a]), Some(d))
            ==> must_edge::<P, D, FE>(edge, ring[a], ring[last])
}

/// The index after `p` on a ring of `len` indices.
pub open spec fn ring_next(p: int, len: int) -> int {
    if p + 1 < len {
        p + 1
    } else {
        0
    }
}

/// The index before `p` on a ring of `len` indices.
pub open spec fn ring_prev(p: int, len: int) -> int {
    if p > 0 {
        p - 1
    } else {
        len - 1
    }
}

/// The ring has at least two points, and `edge` surely finds an edge of
/// nonzero length from each point to the next one.
pub open spec fn all_edges<P, D, FE: Fn(P, P) -> Option<D>>(edge: FE, ring: Seq<P>) -> bool {
    &&& ring.len() >= 2
    &&& forall|p: int|
        0 <= p < ring.len() ==> #[trigger] must_edge::<P, D, FE>(
            edge,
            ring[p],
            ring[ring_next(p, ring.len() as int)],
        )
}

/// Point `b` is point `a` moved by `offset` for the corner at index `p` of
/// the ring: between the direction that `edge` gave from the point before
/// to the point at `p`, and the one it gave from there to the point after.
pub open spec fn moved_at_vertex<P, D, FE: Fn(P, P) -> Option<D>, FO: Fn(P, D, D) -> P>(
    edge: FE,
    offset: FO,
    ring: Seq<P>,
    p: int,
    a: P,
    b: P,
) -> bool {
    let len = ring.len() as int;
    exists|d: D, e: D|
        #[trigger] offset.ensures((a, d, e), b) && edge.ensures(
            (ring[ring_prev(p, len)], ring[p]),
            Some(d),
        ) && edge.ensures((ring[p], ring[ring_next(p, len)]), Some(e))
}

/// `after` is what the sweep makes of a contour whose points were `before`,
/// taken as closed or not: the length stays; a contour of fewer than two
/// points is kept; a closed one ends with its first point again; of the swept
/// points either none moves or each is moved once by `offset`, at a corner
/// between directions that `edge` gave, and each is moved where the sweep is
/// bound to find a corner; where every edge from a swept point to the next
/// has nonzero length, each point is moved for the corner at its own vertex,
/// between its incoming and its outgoing edge; where `edge` finds no
/// edge of nonzero length, no swept point moves, and a contour that starts
/// and ends at the same point is kept whole.
pub open spec fn swept_result<P, D, FE: Fn(P, P) -> Option<D>, FO: Fn(P, D, D) -> P>(
    edge: FE,
    offset: FO,
    closed: bool,
    before: Seq<P>,
    after: Seq<P>,
) -> bool {
    let n = before.len();
    let len = swept(n, closed);
    &&& after.len() == n
    &&& n < 2 ==> after == before
    &&& closed ==> after[n - 1] == after[0]
    &&& (forall|p: int| 0 <= p < len ==> #[trigger] after[p] == before[p]) || (forall|p: int|
        0 <= p < len ==> offset_of::<P, D, FE, FO>(edge, offset, before, before[p], #[trigger] after[p]))
    &&& finds_corner::<P, D, FE>(edge, before.take(len as int)) ==> forall|p: int|
        0 <= p < len ==> offset_of::<P, D, FE, FO>(edge, offset, before, before[p], #[trigger] after[p])
    &&& all_edges::<P, D, FE>(edge, before.take(len as int)) ==> forall|p: int|
        0 <= p < len ==> moved_at_vertex::<P, D, FE, FO>(
            edge,
            offset,
            before.take(len as int),
            p,
            before[p],
            #[trigger] after[p],
        )
    &&& no_edges::<P, D, FE>(edge, before) ==> forall|p: int|
        0 <= p < len ==> #[trigger] after[p] == before[p]
    &&& (n > 0 && no_edges::<P, D, FE>(edge, before) && before[0] == before[n - 1]) ==> after
        == before
}

/// Where the corner offset leaves every point where it is, as a zero
/// strength does, the sweep moves no point: only a closed contour's last
/// point may change, to repeat the first.
pub proof fn lemma_still_offset_keeps_points<P, D, FE: Fn(P, P) -> Option<D>, FO: Fn(P, D, D) -> P>(
    edge: FE,
    offset: FO,
    closed: bool,
    before: Seq<P>,
    after: Seq<P>,
)
    requires
        swept_result::<P, D, FE, FO>(edge, offset, closed, before, after),
        forall|p: P, d: D, e: D, r: P| #[trigger] offset.ensures((p, d, e), r) ==> r == p,
    ensures
        after.len() == before.len(),
        forall|p: int| 0 <= p < swept(before.len(), closed) ==> #[trigger] after[p] == before[p],
        closed ==> after[before.len() - 1] == after[0],
{
    let len = swept(before.len(), closed);
    assert forall|p: int| 0 <= p < len implies #[trigger] after[p] == before[p] by {
        if offset_of::<P, D, FE, FO>(edge, offset, before, before[p], after[p]) {
            let (d, e) = choose|d: D, e: D| #[trigger] offset.ensures((before[p], d, e), after[p]);
        }
    }
}

/// Where `same` can only find two equal points equal, a contour that starts
/// and ends at the same point is still closed after emboldening: its last
/// point repeats its first.
pub proof fn lemma_closed_stays_closed<P, D, FQ: Fn(P, P) -> bool, FE: Fn(P, P) -> Option<D>, FO: Fn(P, D, D) -> P>(
    same: FQ,
    edge: FE,
    offset: FO,
    before: Seq<P>,
    after: Seq<P>,
)
    requires
        emboldened::<P, D, FQ, FE, FO>(same, edge, offset, before, after),
        forall|a: P, b: bool| #[trigger] same.ensures((a, a), b) ==> b,
        before.len() > 1,
        before[0] == before[before.len() - 1],
    ensures
        after.len() == before.len(),
        after[after.len() - 1] == after[0],
{
    let closed = choose|closed: bool|
        {
            &&& closed ==> before.len() > 1 && same.ensures(
                (before[0], before[before.len() - 1]),
                true,
            )
            &&& (before.len() > 1 && forall|b: bool|
                #[trigger] same.ensures((before[0], before[before.len() - 1]), b) ==> b) ==> closed
            &&& #[trigger] swept_result::<P, D, FE, FO>(edge, offset, closed, before, after)
        };
    assert(forall|b: bool| #[trigger] same.ensures((before[0], before[before.len() - 1]), b) ==> b);
}

/// `after` is what emboldening makes of a contour whose points were
/// `before`: the sweep's result, with the contour taken as closed only where
/// it has more than one point and `same` found its ends equal, and surely
/// taken as closed where `same` can only find them equal.
pub open spec fn emboldened<P, D, FQ: Fn(P, P) -> bool, FE: Fn(P, P) -> Option<D>, FO: Fn(P, D, D) -> P>(
    same: FQ,
    edge: FE,
    offset: FO,
    before: Seq<P>,
    after: Seq<P>,
) -> bool {
    let n = before.len();
    exists|closed: bool|
        {
            &&& closed ==> n > 1 && same.ensures((before[0], before[n - 1]), true)
            &&& (n > 1 && forall|b: bool| #[trigger] same.ensures((before[0], before[n - 1]), b) ==> b)
                ==> closed
            &&& #[trigger] swept_result::<P, D, FE, FO>(edge, offset, closed, before, after)
        }
}

/// The sweep stops where its trailing index meets its leading one or comes
/// back to the anchor.
fn sweep_done<D>(i: usize, j: usize, anchor: &Option<(usize, D)>) -> (r: bool)
    ensures
        r == (i == j || (anchor matches Some((kv, _)) && kv == i)),
{
    match anchor {
        Some((kv, _)) => *kv == i || i == j,
        None => i == j,
    }
}

/// Whether a contour is closed: it has more than one point and `same` finds
/// its first and last point equal.
pub fn is_closed<P: Copy, FQ: Fn(P, P) -> bool>(points: &Vec<P>, same: &FQ) -> (r: bool)
    requires
        forall|a: P, b: P| #[trigger] same.requires((a, b)),
    ensures
        r ==> points@.len() > 1,
        r ==> same.ensures((points@[0], points@[points@.len() - 1]), true),
        points@.len() > 1 && (forall|b: bool|
            #[trigger] same.ensures((points@[0], points@[points@.len() - 1]), b) ==> b) ==> r,
{
    let n = points.len();
    if n > 1 {
        same(points[0], points[n - 1])
    } else {
        false
    }
}

/// Emboldens one contour in place.
///
/// The sweep walks the contour as a ring (a closed contour without its
/// repeated last point). `edge(a, b)` gives the direction of the edge from
/// `a` to `b`, or `None` where it has zero length; such edges are skipped.
/// At each corner between an incoming and an outgoing edge, every point from
/// the previous corner up to the corner itself is replaced by
/// `offset(point, incoming, outgoing)`. The first corner found is the anchor:
/// the sweep stops when it comes back to it, so each point moves at most
/// once. A closed contour gets its last point reset to its first.
pub fn embolden_points<P: Copy, D: Copy, FE: Fn(P, P) -> Option<D>, FO: Fn(P, D, D) -> P>(
    points: &mut Vec<P>,
    closed: bool,
    edge: &FE,
    offset: &FO,
)
    requires
        closed ==> old(points)@.len() > 1,
        forall|a: P, b: P| #[trigger] edge.requires((a, b)),
        forall|p: P, d: D, e: D| #[trigger] offset.requires((p, d, e)),
    ensures
        swept_result::<P, D, FE, FO>(*edge, *offset, closed, old(points)@, final(points)@),
{
    let n = points.len();
    if n < 2 {
        return;
    }
    let ghost old_pts = points@;
    let last: usize = if closed {
        n - 2
    } else {
        n - 1
    };
    let len: usize = last + 1;
    let mut in_dir: Option<D> = None;
    let mut anchor: Option<(usize, D)> = None;
    let mut i: usize = last;
    let mut j: usize = 0;
    // `gi`, `gj` and `gk` are `i`, `j` and the anchor's index unrolled
    // around the ring: they only grow, which bounds the sweep to under three
    // laps and tells which points it has already moved.
    let ghost mut gi: int = last as int;
    let ghost mut gj: int = len as int;
    let ghost mut gk: int = 0;
    let ghost ring = old_pts.take(len as int);
    let ghost h = all_edges::<P, D, FE>(*edge, ring);
    while !sweep_done(i, j, &anchor)
        invariant
            points@.len() == n,
            old_pts.len() == n,
            n >= 2,
            len == last + 1,
            len == swept(n as nat, closed),
            forall|a: P, b: P| #[trigger] edge.requires((a, b)),
            forall|p: P, d: D, e: D| #[trigger] offset.requires((p, d, e)),
            0 <= i < len,
            0 <= j < len,
            lap(i as int, gi, len as int),
            lap(j as int, gj, len as int),
            gi < gj <= gi + len,
            gj <= 3 * len,
            in_dir is None ==> anchor is None && gi == last,
            anchor is None ==> gi <= 2 * len - 2,
            anchor matches Some((kv, _)) ==> {
                &&& in_dir is Some
                &&& kv < len
                &&& lap(kv as int, gk, len as int)
                &&& gk < gi <= gk + len
                &&& gj <= gk + len + 1
                &&& (gj == gk + len + 1 ==> gi == gk + len)
                &&& gk <= 2 * len - 2
            },
            forall|p: int|
                0 <= p < len ==> {
                    if (anchor matches Some((kv, _)) && ring_dist(kv as int, p, len as int) < gi
                        - gk) {
                        offset_of::<P, D, FE, FO>(*edge, *offset, old_pts, old_pts[p], #[trigger] points@[p])
                    } else {
                        points@[p] == old_pts[p]
                    }
                },
            forall|p: int| len <= p < n ==> #[trigger] points@[p] == old_pts[p],
            no_edges::<P, D, FE>(*edge, old_pts) ==> in_dir is None,
            in_dir matches Some(d) ==> edge_dir::<P, D, FE>(*edge, old_pts, d),
            anchor matches Some((_, d)) ==> edge_dir::<P, D, FE>(*edge, old_pts, d),
            ring.len() == len,
            forall|x: int| 0 <= x < len ==> #[trigger] ring[x] == old_pts[x],
            h == all_edges::<P, D, FE>(*edge, ring),
            h ==> gj == gi + 1,
            h ==> (anchor is None && in_dir is Some ==> i == 0 && gi == len),
            h ==> (in_dir matches Some(d) ==> edge.ensures(
                (ring[ring_prev(i as int, len as int)], ring[i as int]),
                Some(d),
            )),
            h ==> (anchor matches Some((kv, a)) ==> kv == 0 && gk == len && edge.ensures(
                (ring[last as int], ring[0]),
                Some(a),
            )),
            h ==> forall|p: int|
                0 <= p < gi - len && p < len ==> moved_at_vertex::<P, D, FE, FO>(
                    *edge,
                    *offset,
                    ring,
                    p,
                    old_pts[p],
                    #[trigger] points@[p],
                ),
            in_dir is None ==> gj == j + len && forall|a: int|
                0 <= a < j ==> !#[trigger] must_edge::<P, D, FE>(
                    *edge,
                    old_pts[last as int],
                    old_pts[a],
                ),
            (in_dir is Some && anchor is None) ==> i != last && (reaches_back::<P, D, FE>(
                *edge,
                old_pts.take(len as int),
            ) ==> must_edge::<P, D, FE>(*edge, old_pts[i as int], old_pts[last as int]) && gj
                - gi <= ring_dist(i as int, last as int, len as int)),
        decreases 3 * len - gj,
    {
        let cached: Option<D> = match anchor {
            Some((kv, a)) => if kv == j {
                Some(a)
            } else {
                None
            },
            None => None,
        };
        let e: Option<D> = match cached {
            Some(a) => Some(a),
            None => edge(points[i], points[j]),
        };
        proof {
            if h {
                assert(j as int == ring_next(i as int, len as int));
                assert(must_edge::<P, D, FE>(
                    *edge,
                    ring[i as int],
                    ring[ring_next(i as int, len as int)],
                ));
                if cached is Some {
                    assert(i == last);
                }
            }
            if cached is None {
                if anchor is Some {
                    let kv = anchor.unwrap().0;
                    assert(ring_dist(kv as int, i as int, len as int) == gi - gk);
                    assert(ring_dist(kv as int, j as int, len as int) == gj - gk);
                }
                assert(points@[i as int] == old_pts[i as int]);
                assert(points@[j as int] == old_pts[j as int]);
                if e is Some {
                    let d = e.unwrap();
                    assert(edge.ensures((old_pts[i as int], old_pts[j as int]), Some(d)));
                    assert(edge_dir::<P, D, FE>(*edge, old_pts, d));
                }
            }
            if anchor is None {
                assert(points@[i as int] == old_pts[i as int]);
                assert(points@[j as int] == old_pts[j as int]);
                assert(old_pts.take(len as int)[last as int] == old_pts[last as int]);
                assert(old_pts.take(len as int)[j as int] == old_pts[j as int]);
            }
            if in_dir is Some && anchor is None && reaches_back::<P, D, FE>(
                *edge,
                old_pts.take(len as int),
            ) {
                assert(e is None ==> j != last);
                assert(j != last ==> gj - gi != ring_dist(i as int, last as int, len as int));
            }
        }
        if e.is_none() {
            j = if j < last {
                j + 1
            } else {
                0
            };
            proof {
                gj = gj + 1;
            }
            continue;
        }
        let out = e.unwrap();
        match in_dir {
            Some(ind) => {
                if anchor.is_none() {
                    anchor = Some((i, ind));
                    proof {
                        gk = gi;
                    }
                }
                let kv = anchor.unwrap().0;
                while i != j
                    invariant
                        points@.len() == n,
                        old_pts.len() == n,
                        len == last + 1,
                        len <= n,
                        forall|p: P, d: D, e: D| #[trigger] offset.requires((p, d, e)),
                        edge_dir::<P, D, FE>(*edge, old_pts, ind),
                        edge_dir::<P, D, FE>(*edge, old_pts, out),
                        ring.len() == len,
                        forall|x: int| 0 <= x < len ==> #[trigger] ring[x] == old_pts[x],
                        h ==> kv == 0 && gk == len && gj <= gi + 1,
                        h && gi < gj ==> edge.ensures(
                            (ring[ring_prev(i as int, len as int)], ring[i as int]),
                            Some(ind),
                        ) && edge.ensures(
                            (ring[i as int], ring[ring_next(i as int, len as int)]),
                            Some(out),
                        ),
                        h ==> forall|p: int|
                            0 <= p < gi - len && p < len ==> moved_at_vertex::<P, D, FE, FO>(
                                *edge,
                                *offset,
                                ring,
                                p,
                                old_pts[p],
                                #[trigger] points@[p],
                            ),
                        0 <= i < len,
                        0 <= j < len,
                        kv < len,
                        anchor == Some((kv, anchor.unwrap().1)),
                        lap(i as int, gi, len as int),
                        lap(j as int, gj, len as int),
                        lap(kv as int, gk, len as int),
                        gk <= gi <= gj,
                        gj < gi + len,
                        gj <= gk + len,
                        forall|p: int|
                            0 <= p < len ==> {
                                if ring_dist(kv as int, p, len as int) < gi - gk {
                                    offset_of::<P, D, FE, FO>(
                                        *edge,
                                        *offset,
                                        old_pts,
                                        old_pts[p],
                                        #[trigger] points@[p],
                                    )
                                } else {
                                    points@[p] == old_pts[p]
                                }
                            },
                        forall|p: int| len <= p < n ==> #[trigger] points@[p] == old_pts[p],
                    decreases gj - gi,
                {
                    let q = offset(points[i], ind, out);
                    assert(ring_dist(kv as int, i as int, len as int) == gi - gk);
                    assert(offset.ensures((old_pts[i as int], ind, out), q));
                    assert(offset_of::<P, D, FE, FO>(*edge, *offset, old_pts, old_pts[i as int], q));
                    proof {
                        if h {
                            assert(i as int == gi - len);
                            assert(moved_at_vertex::<P, D, FE, FO>(
                                *edge,
                                *offset,
                                ring,
                                i as int,
                                old_pts[i as int],
                                q,
                            ));
                        }
                    }
                    points.set(i, q);
                    i = if i < last {
                        i + 1
                    } else {
                        0
                    };
                    proof {
                        gi = gi + 1;
                    }
                }
            },
            None => {
                proof {
                    assert(j < last);
                    assert(edge.ensures((old_pts.take(len as int)[last as int], old_pts.take(len as int)[j as int]), Some(out)));
                }
                i = j;
                proof {
                    gi = gj;
                    assert(i != last);
                    assert(ring_dist(i as int, last as int, len as int) >= 1);
                    let ring = old_pts.take(len as int);
                    assert(ring.len() - 1 == last);
                    if reaches_back::<P, D, FE>(*edge, ring) {
                        assert(edge.ensures((ring[last as int], ring[i as int]), Some(out)));
                        assert(must_edge::<P, D, FE>(*edge, ring[i as int], ring[last as int]));
                        assert(ring[i as int] == old_pts[i as int]);
                        assert(ring[last as int] == old_pts[last as int]);
                    }
                }
            },
        }
        in_dir = Some(out);
        j = if j < last {
            j + 1
        } else {
            0
        };
        proof {
            gj = gj + 1;
        }
    }
    proof {
        let ring = old_pts.take(len as int);
        assert(ring.len() == len);
        assert(ring[last as int] == old_pts[last as int]);
        if anchor is None {
            if finds_corner::<P, D, FE>(*edge, ring) {
                let a = choose|a: int|
                    0 <= a < last && #[trigger] must_edge::<P, D, FE>(*edge, ring[last as int], ring[a]);
                assert(ring[a] == old_pts[a]);
                assert(false);
            }
            assert(!h);
        } else {
            assert(gi == gk + len);
            assert forall|p: int| 0 <= p < len implies offset_of::<P, D, FE, FO>(
                *edge,
                *offset,
                old_pts,
                old_pts[p],
                #[trigger] points@[p],
            ) by {
                assert(ring_dist(anchor.unwrap().0 as int, p, len as int) < len);
            }
        }
    }
    let ghost swept_pts = points@;
    if closed {
        let first = points[0];
        points.set(n - 1, first);
    }
    proof {
        let after = points@;
        assert forall|p: int| 0 <= p < len implies #[trigger] after[p] == swept_pts[p] by {}
        if no_edges::<P, D, FE>(*edge, old_pts) && old_pts[0] == old_pts[n - 1] {
            assert(after =~= old_pts);
        }
    }
}

/// Emboldens one contour in place, finding first with `same` whether it is
/// closed.
pub fn embolden_contour<
    P: Copy,
    D: Copy,
    FQ: Fn(P, P) -> bool,
    FE: Fn(P, P) -> Option<D>,
    FO: Fn(P, D, D) -> P,
>(points: &mut Vec<P>, same: &FQ, edge: &FE, offset: &FO)
    requires
        forall|a: P, b: P| #[trigger] same.requires((a, b)),
        forall|a: P, b: P| #[trigger] edge.requires((a, b)),
        forall|p: P, d: D, e: D| #[trigger] offset.requires((p, d, e)),
    ensures
        emboldened::<P, D, FQ, FE, FO>(*same, *edge, *offset, old(points)@, final(points)@),
{
    let ghost before = points@;
    let closed = is_closed(points, same);
    embolden_points(points, closed, edge, offset);
    assert(swept_result::<P, D, FE, FO>(*edge, *offset, closed, before, points@));
}

} // verus!
