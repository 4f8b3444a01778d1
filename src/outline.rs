use vstd::prelude::*;
use crate::embolden::{emboldened, embolden_contour};
use crate::path::{
    Verb, Segment, arity, verb_of, points_of, segment_at, total_arity, replay,
    lemma_replay_push,
};

verus! {

/// One sub-path: its verbs, and the points they consume, in order.
#[derive(Debug)]
pub struct Contour<P> {
    pub verbs: Vec<Verb>,
    pub points: Vec<P>,
}

impl<P> Contour<P> {
    /// The points are exactly those that the verbs consume.
    pub open spec fn wf(&self) -> bool {
        self.points@.len() == total_arity(self.verbs@)
    }
}

/// The segments of a run of contours, each contour replayed over its own points.
pub open spec fn emitted<P>(cs: Seq<Contour<P>>) -> Seq<Segment<P>>
    decreases cs.len(),
{
    if cs.len() == 0 {
        seq![]
    } else {
        emitted(cs.drop_last()) + replay(cs.last().verbs@, cs.last().points@)
    }
}

/// All points of a run of contours, contour after contour.
pub open spec fn all_points<P>(cs: Seq<Contour<P>>) -> Seq<P>
    decreases cs.len(),
{
    if cs.len() == 0 {
        seq![]
    } else {
        all_points(cs.drop_last()) + cs.last().points@
    }
}

/// The verbs and points of each contour.
pub open spec fn views<P>(cs: Seq<Contour<P>>) -> Seq<(Seq<Verb>, Seq<P>)> {
    cs.map_values(|c: Contour<P>| (c.verbs@, c.points@))
}

/// The contours of a path: it is cut after each `Close`, and each contour
/// holds its commands' verbs and points in order.
pub open spec fn split_path<P>(segs: Seq<Segment<P>>) -> Seq<(Seq<Verb>, Seq<P>)>
    decreases segs.len(),
{
    if segs.len() == 0 {
        seq![]
    } else {
        let pre = segs.drop_last();
        let s = segs.last();
        let cs = split_path(pre);
        if pre.len() == 0 || verb_of(pre.last()) == Verb::Close {
            cs.push((seq![verb_of(s)], points_of(s)))
        } else {
            cs.drop_last().push((cs.last().0.push(verb_of(s)), cs.last().1 + points_of(s)))
        }
    }
}

/// The number of points in a prefix of a run of verbs never exceeds that of a
/// longer prefix.
pub proof fn lemma_total_arity_prefix(vs: Seq<Verb>, i: int, j: int)
    requires
        0 <= i <= j <= vs.len(),
    ensures
        total_arity(vs.take(i)) <= total_arity(vs.take(j)),
    decreases j - i,
{
    if i < j {
        lemma_total_arity_prefix(vs, i, j - 1);
        assert(vs.take(j).drop_last() == vs.take(j - 1));
    }
}

/// A glyph outline: its contours in rendering order, and whether its source
/// uses the cubic-curve winding convention.
#[derive(Debug)]
pub struct Outline<P> {
    cubic: bool,
    contours: Vec<Contour<P>>,
}

impl<P> Outline<P> {
    /// The contours, in rendering order.
    pub closed spec fn contours(&self) -> Seq<Contour<P>> {
        self.contours@
    }

    /// Whether the source uses the cubic-curve winding convention.
    pub closed spec fn cubic(&self) -> bool {
        self.cubic
    }

    /// Every contour holds exactly the points its verbs consume.
    pub open spec fn wf(&self) -> bool {
        forall|c: int| 0 <= c < self.contours().len() ==> (#[trigger] self.contours()[c]).wf()
    }

    /// The segments that replaying this outline produces.
    pub open spec fn segments(&self) -> Seq<Segment<P>> {
        emitted(self.contours())
    }

    /// An outline with no contours.
    pub fn new(cubic: bool) -> (r: Outline<P>)
        ensures
            r.contours().len() == 0,
            r.cubic() == cubic,
            r.wf(),
    {
        Outline { cubic, contours: Vec::new() }
    }

    /// Whether the source uses the cubic-curve winding convention.
    pub fn is_cubic(&self) -> (r: bool)
        ensures
            r == self.cubic(),
    {
        self.cubic
    }

    /// The number of contours.
    pub fn contour_count(&self) -> (r: usize)
        ensures
            r == self.contours().len(),
    {
        self.contours.len()
    }
}

impl<P: Copy> Outline<P> {
    /// Replays every contour's verbs over its points, in order.
    pub fn emit(&self) -> (r: Vec<Segment<P>>)
        requires
            self.wf(),
        ensures
            r@ == self.segments(),
    {
        let cs = &self.contours;
        let mut out: Vec<Segment<P>> = Vec::new();
        let mut ci: usize = 0;
        while ci < cs.len()
            invariant
                0 <= ci <= cs@.len(),
                cs@ == self.contours(),
                self.wf(),
                out@ == emitted(cs@.take(ci as int)),
            decreases cs@.len() - ci,
        {
            let c = &cs[ci];
            assert(self.contours()[ci as int].wf());
            let ghost before = out@;
            let mut vi: usize = 0;
            let mut pi: usize = 0;
            while vi < c.verbs.len()
                invariant
                    0 <= vi <= c.verbs@.len(),
                    c.wf(),
                    pi == total_arity(c.verbs@.take(vi as int)),
                    out@ == before + replay(c.verbs@.take(vi as int), c.points@),
                decreases c.verbs@.len() - vi,
            {
                proof {
                    lemma_total_arity_prefix(c.verbs@, vi + 1, c.verbs@.len() as int);
                    assert(c.verbs@.take(c.verbs@.len() as int) == c.verbs@);
                    assert(c.verbs@.take(vi + 1).drop_last() == c.verbs@.take(vi as int));
                }
                let v = c.verbs[vi];
                let np = c.points.len();
                assert(c.verbs@.take(vi + 1).last() == v);
                assert(total_arity(c.verbs@.take(vi + 1)) == pi + arity(v));
                assert(total_arity(c.verbs@.take(c.verbs@.len() as int)) == c.points@.len());
                assert(pi + arity(v) <= np);
                let s = match v {
                    Verb::MoveTo => Segment::MoveTo(c.points[pi]),
                    Verb::LineTo => Segment::LineTo(c.points[pi]),
                    Verb::QuadTo => Segment::QuadTo(c.points[pi], c.points[pi + 1]),
                    Verb::CurveTo => Segment::CurveTo(
                        c.points[pi],
                        c.points[pi + 1],
                        c.points[pi + 2],
                    ),
                    Verb::Close => Segment::Close,
                };
                assert(s == segment_at(v, c.points@.skip(pi as int)));
                out.push(s);
                pi = pi + v.arity();
                vi = vi + 1;
                assert(out@ == before + replay(c.verbs@.take(vi as int), c.points@));
            }
            assert(c.verbs@.take(c.verbs@.len() as int) == c.verbs@);
            assert(cs@.take(ci + 1).drop_last() == cs@.take(ci as int));
            ci = ci + 1;
        }
        assert(cs@.take(cs@.len() as int) == cs@);
        out
    }
}

/// A copy of a vector of plain values.
fn copy_vec<T: Copy>(v: &Vec<T>) -> (r: Vec<T>)
    ensures
        r@ == v@,
{
    let mut r: Vec<T> = Vec::new();
    let mut i: usize = 0;
    while i < v.len()
        invariant
            0 <= i <= v@.len(),
            r@ == v@.take(i as int),
        decreases v@.len() - i,
    {
        r.push(v[i]);
        assert(v@.take(i + 1) == v@.take(i as int).push(v@[i as int]));
        i = i + 1;
    }
    assert(v@.take(v@.len() as int) == v@);
    r
}

impl<P: Copy> Outline<P> {
    /// Every point of every contour, contour after contour, curve control
    /// points included.
    pub fn points(&self) -> (r: Vec<P>)
        ensures
            r@ == all_points(self.contours()),
    {
        let cs = &self.contours;
        let mut r: Vec<P> = Vec::new();
        let mut ci: usize = 0;
        while ci < cs.len()
            invariant
                0 <= ci <= cs@.len(),
                cs@ == self.contours(),
                r@ == all_points(cs@.take(ci as int)),
            decreases cs@.len() - ci,
        {
            let ps = &cs[ci].points;
            let ghost before = r@;
            let mut pi: usize = 0;
            while pi < ps.len()
                invariant
                    0 <= pi <= ps@.len(),
                    r@ == before + ps@.take(pi as int),
                decreases ps@.len() - pi,
            {
                r.push(ps[pi]);
                assert(ps@.take(pi + 1) == ps@.take(pi as int).push(ps@[pi as int]));
                pi = pi + 1;
            }
            assert(ps@.take(ps@.len() as int) == ps@);
            assert(cs@.take(ci + 1).drop_last() == cs@.take(ci as int));
            ci = ci + 1;
        }
        assert(cs@.take(cs@.len() as int) == cs@);
        r
    }

    /// Emboldens every contour (see `embolden_contour`). `same` tells whether
    /// two points are equal, `edge` gives the direction of the edge between
    /// two points (`None` where it has zero length), and `offset` moves a
    /// point for the corner between an incoming and an outgoing direction.
    pub fn embolden<D: Copy, FQ: Fn(P, P) -> bool, FE: Fn(P, P) -> Option<D>, FO: Fn(
        P,
        D,
        D,
    ) -> P>(&mut self, same: FQ, edge: FE, offset: FO)
        requires
            old(self).wf(),
            forall|a: P, b: P| #[trigger] same.requires((a, b)),
            forall|a: P, b: P| #[trigger] edge.requires((a, b)),
            forall|p: P, d: D, e: D| #[trigger] offset.requires((p, d, e)),
        ensures
            final(self).wf(),
            final(self).cubic() == old(self).cubic(),
            final(self).contours().len() == old(self).contours().len(),
            forall|c: int|
                0 <= c < old(self).contours().len() ==> (#[trigger] final(self).contours()[c]).verbs@
                    == old(self).contours()[c].verbs@ && emboldened::<P, D, FQ, FE, FO>(
                    same,
                    edge,
                    offset,
                    old(self).contours()[c].points@,
                    final(self).contours()[c].points@,
                ),
    {
        let mut out: Vec<Contour<P>> = Vec::new();
        let mut ci: usize = 0;
        while ci < self.contours.len()
            invariant
                0 <= ci <= self.contours@.len(),
                self.contours@ == old(self).contours@,
                self.wf(),
                out@.len() == ci,
                forall|a: P, b: P| #[trigger] same.requires((a, b)),
                forall|a: P, b: P| #[trigger] edge.requires((a, b)),
                forall|p: P, d: D, e: D| #[trigger] offset.requires((p, d, e)),
                forall|c: int|
                    0 <= c < ci ==> (#[trigger] out@[c]).verbs@ == self.contours@[c].verbs@
                        && emboldened::<P, D, FQ, FE, FO>(
                        same,
                        edge,
                        offset,
                        self.contours@[c].points@,
                        out@[c].points@,
                    ),
            decreases self.contours@.len() - ci,
        {
            let verbs = copy_vec(&self.contours[ci].verbs);
            let mut points = copy_vec(&self.contours[ci].points);
            embolden_contour(&mut points, &same, &edge, &offset);
            out.push(Contour { verbs, points });
            ci = ci + 1;
        }
        self.contours = out;
        assert forall|c: int| 0 <= c < self.contours().len() implies (
        #[trigger] self.contours()[c]).wf() by {
            assert(old(self).contours()[c].wf());
        }
    }

    /// Applies `shear` to every point; the verbs stay as they are.
    pub fn oblique<F: Fn(P) -> P>(&mut self, shear: F)
        requires
            old(self).wf(),
            forall|p: P| #[trigger] shear.requires((p,)),
        ensures
            final(self).wf(),
            final(self).cubic() == old(self).cubic(),
            final(self).contours().len() == old(self).contours().len(),
            forall|c: int|
                0 <= c < old(self).contours().len() ==> {
                    let before = old(self).contours()[c];
                    let after = #[trigger] final(self).contours()[c];
                    &&& after.verbs@ == before.verbs@
                    &&& after.points@.len() == before.points@.len()
                    &&& forall|p: int|
                        0 <= p < before.points@.len() ==> shear.ensures(
                            (before.points@[p],),
                            #[trigger] after.points@[p],
                        )
                },
    {
        let mut out: Vec<Contour<P>> = Vec::new();
        let mut ci: usize = 0;
        while ci < self.contours.len()
            invariant
                0 <= ci <= self.contours@.len(),
                self.contours@ == old(self).contours@,
                self.wf(),
                out@.len() == ci,
                forall|p: P| #[trigger] shear.requires((p,)),
                forall|c: int|
                    0 <= c < ci ==> {
                        let before = self.contours@[c];
                        let after = #[trigger] out@[c];
                        &&& after.verbs@ == before.verbs@
                        &&& after.points@.len() == before.points@.len()
                        &&& forall|p: int|
                            0 <= p < before.points@.len() ==> shear.ensures(
                                (before.points@[p],),
                                #[trigger] after.points@[p],
                            )
                    },
            decreases self.contours@.len() - ci,
        {
            let verbs = copy_vec(&self.contours[ci].verbs);
            let src = &self.contours[ci].points;
            let mut points: Vec<P> = Vec::new();
            let mut pi: usize = 0;
            while pi < src.len()
                invariant
                    0 <= pi <= src@.len(),
                    points@.len() == pi,
                    forall|p: P| #[trigger] shear.requires((p,)),
                    forall|p: int| 0 <= p < pi ==> shear.ensures((src@[p],), #[trigger] points@[p]),
                decreases src@.len() - pi,
            {
                points.push(shear(src[pi]));
                pi = pi + 1;
            }
            out.push(Contour { verbs, points });
            ci = ci + 1;
        }
        self.contours = out;
        assert forall|c: int| 0 <= c < self.contours().len() implies (
        #[trigger] self.contours()[c]).wf() by {
            assert(old(self).contours()[c].wf());
        }
    }
}

/// Builds an outline from a path, one drawing command at a time. Each
/// command goes to the current contour; the current contour advances to a
/// fresh one, opened by the next command, once per `close`.
pub struct Recorder<P> {
    outline: Outline<P>,
    pending: bool,
}

impl<P> Recorder<P> {
    /// The outline recorded so far.
    pub closed spec fn outline(&self) -> Outline<P> {
        self.outline
    }

    /// Whether the next command opens a new contour.
    pub closed spec fn pending(&self) -> bool {
        self.pending
    }

    /// How many contours there are once the next command is recorded.
    pub open spec fn contours_after_next(&self) -> int {
        self.outline().contours().len() + if self.pending() {
            1int
        } else {
            0int
        }
    }

    /// `next` is this recorder with `s` recorded into the current contour: a
    /// fresh, empty one where a new contour is due, else the last one; the
    /// other contours stay as they are.
    pub open spec fn records_into_current(&self, next: Recorder<P>, s: Segment<P>) -> bool {
        let cs = self.outline().contours();
        let ns = next.outline().contours();
        &&& ns.len() == self.contours_after_next()
        &&& ns.drop_last() == (if self.pending() {
            cs
        } else {
            cs.drop_last()
        })
        &&& ns.last().verbs@ == (if self.pending() {
            Seq::<Verb>::empty()
        } else {
            cs.last().verbs@
        }).push(verb_of(s))
        &&& ns.last().points@ == (if self.pending() {
            Seq::<P>::empty()
        } else {
            cs.last().points@
        }) + points_of(s)
    }

    /// The segments recorded so far.
    pub open spec fn recorded(&self) -> Seq<Segment<P>> {
        self.outline().segments()
    }

    /// The recorded outline is consistent, and where no new contour is due
    /// the current one exists.
    pub open spec fn wf(&self) -> bool {
        &&& self.outline().wf()
        &&& (!self.pending() ==> self.outline().contours().len() > 0)
    }

    /// An empty recorder; the first command opens the first contour.
    pub fn new(cubic: bool) -> (r: Recorder<P>)
        ensures
            r.wf(),
            r.pending(),
            r.recorded() == Seq::<Segment<P>>::empty(),
            r.outline().contours().len() == 0,
            r.outline().cubic() == cubic,
    {
        Recorder { outline: Outline::new(cubic), pending: true }
    }

    /// Appends a segment to the current contour, opening it first if the last
    /// command closed the one before.
    pub fn push(&mut self, s: Segment<P>)
        requires
            old(self).wf(),
        ensures
            final(self).wf(),
            final(self).recorded() == old(self).recorded().push(s),
            final(self).outline().cubic() == old(self).outline().cubic(),
            final(self).outline().contours().len() == old(self).contours_after_next(),
            old(self).records_into_current(*final(self), s),
            final(self).pending() == (verb_of(s) == Verb::Close),
    {
        let ghost cs0 = self.outline.contours@;
        let mut c = if self.pending {
            Contour { verbs: Vec::new(), points: Vec::new() }
        } else {
            match self.outline.contours.pop() {
                Some(c) => c,
                None => Contour { verbs: Vec::new(), points: Vec::new() },
            }
        };
        let ghost head = self.outline.contours@;
        let ghost c0 = c;
        proof {
            if !self.pending {
                assert(head == cs0.drop_last());
                assert(c0 == cs0.last());
            } else {
                assert(head == cs0);
                assert(replay(c0.verbs@, c0.points@) == Seq::<Segment<P>>::empty());
            }
            assert(c0.wf());
            lemma_replay_push(c0.verbs@, c0.points@, s);
        }
        let closing = match &s {
            Segment::Close => true,
            _ => false,
        };
        c.verbs.push(
            match &s {
                Segment::MoveTo(_) => Verb::MoveTo,
                Segment::LineTo(_) => Verb::LineTo,
                Segment::QuadTo(_, _) => Verb::QuadTo,
                Segment::CurveTo(_, _, _) => Verb::CurveTo,
                Segment::Close => Verb::Close,
            },
        );
        match s {
            Segment::MoveTo(p) => c.points.push(p),
            Segment::LineTo(p) => c.points.push(p),
            Segment::QuadTo(p1, p) => {
                c.points.push(p1);
                c.points.push(p);
            },
            Segment::CurveTo(p1, p2, p) => {
                c.points.push(p1);
                c.points.push(p2);
                c.points.push(p);
            },
            Segment::Close => {},
        }
        assert(c.verbs@ == c0.verbs@.push(verb_of(s)));
        assert(c.points@ == c0.points@ + points_of(s));
        self.outline.contours.push(c);
        proof {
            let cs1 = self.outline.contours@;
            assert(cs1.drop_last() == head);
            assert forall|k: int| 0 <= k < cs1.len() implies (#[trigger] cs1[k]).wf() by {
                if k < head.len() {
                    assert(cs1[k] == cs0[k]);
                }
            }
            if !self.pending {
                assert(emitted(cs0) == emitted(head) + replay(c0.verbs@, c0.points@));
            } else {
                assert(emitted(head) + replay(c0.verbs@, c0.points@) == emitted(cs0));
            }
        }
        self.pending = closing;
    }

    /// Starts a sub-path at `p`.
    pub fn move_to(&mut self, p: P)
        requires
            old(self).wf(),
        ensures
            final(self).wf(),
            final(self).recorded() == old(self).recorded().push(Segment::MoveTo(p)),
            old(self).records_into_current(*final(self), Segment::MoveTo(p)),
            final(self).outline().cubic() == old(self).outline().cubic(),
            final(self).outline().contours().len() == old(self).contours_after_next(),
            !final(self).pending(),
    {
        self.push(Segment::MoveTo(p));
    }

    /// A straight line to `p`.
    pub fn line_to(&mut self, p: P)
        requires
            old(self).wf(),
        ensures
            final(self).wf(),
            final(self).recorded() == old(self).recorded().push(Segment::LineTo(p)),
            old(self).records_into_current(*final(self), Segment::LineTo(p)),
            final(self).outline().cubic() == old(self).outline().cubic(),
            final(self).outline().contours().len() == old(self).contours_after_next(),
            !final(self).pending(),
    {
        self.push(Segment::LineTo(p));
    }

    /// A quadratic curve through control point `p1` to `p`.
    pub fn quad_to(&mut self, p1: P, p: P)
        requires
            old(self).wf(),
        ensures
            final(self).wf(),
            final(self).recorded() == old(self).recorded().push(Segment::QuadTo(p1, p)),
            old(self).records_into_current(*final(self), Segment::QuadTo(p1, p)),
            final(self).outline().cubic() == old(self).outline().cubic(),
            final(self).outline().contours().len() == old(self).contours_after_next(),
            !final(self).pending(),
    {
        self.push(Segment::QuadTo(p1, p));
    }

    /// A cubic curve through control points `p1` and `p2` to `p`.
    pub fn curve_to(&mut self, p1: P, p2: P, p: P)
        requires
            old(self).wf(),
        ensures
            final(self).wf(),
            final(self).recorded() == old(self).recorded().push(Segment::CurveTo(p1, p2, p)),
            old(self).records_into_current(*final(self), Segment::CurveTo(p1, p2, p)),
            final(self).outline().cubic() == old(self).outline().cubic(),
            final(self).outline().contours().len() == old(self).contours_after_next(),
            !final(self).pending(),
    {
        self.push(Segment::CurveTo(p1, p2, p));
    }

    /// Closes the current contour; the next command opens a new one.
    pub fn close(&mut self)
        requires
            old(self).wf(),
        ensures
            final(self).wf(),
            final(self).recorded() == old(self).recorded().push(Segment::Close),
            old(self).records_into_current(*final(self), Segment::Close),
            final(self).outline().cubic() == old(self).outline().cubic(),
            final(self).outline().contours().len() == old(self).contours_after_next(),
            final(self).pending(),
    {
        self.push(Segment::Close);
    }

    /// The recorded outline.
    pub fn finish(self) -> (r: Outline<P>)
        requires
            self.wf(),
        ensures
            r == self.outline(),
            r.wf(),
            r.segments() == self.recorded(),
    {
        self.outline
    }
}

/// Records a whole path. Emitting the result gives the path back:
/// `record(cubic, segs).emit()` equals `segs`.
pub fn record<P: Copy>(cubic: bool, segs: &Vec<Segment<P>>) -> (r: Outline<P>)
    ensures
        r.wf(),
        r.cubic() == cubic,
        r.segments() == segs@,
        views(r.contours()) == split_path(segs@),
{
    let mut rec: Recorder<P> = Recorder::new(cubic);
    let mut i: usize = 0;
    while i < segs.len()
        invariant
            0 <= i <= segs@.len(),
            rec.wf(),
            rec.outline().cubic() == cubic,
            rec.recorded() == segs@.take(i as int),
            views(rec.outline().contours()) == split_path(segs@.take(i as int)),
            rec.pending() == (i == 0 || verb_of(segs@[i - 1]) == Verb::Close),
        decreases segs@.len() - i,
    {
        let ghost r0 = rec;
        rec.push(segs[i]);
        proof {
            let pre = segs@.take(i as int);
            let cur = segs@.take(i + 1);
            assert(cur.drop_last() == pre);
            assert(cur.last() == segs@[i as int]);
            if i > 0 {
                assert(pre.last() == segs@[i - 1]);
            }
            let cs0 = r0.outline().contours();
            let cs1 = rec.outline().contours();
            assert(views(cs1).drop_last() =~= views(cs1.drop_last()));
            if !r0.pending() {
                assert(views(cs0).drop_last() =~= views(cs0.drop_last()));
                assert(views(cs0).last() == (cs0.last().verbs@, cs0.last().points@));
            }
            assert(views(cs1) =~= split_path(cur));
        }
        assert(segs@.take(i + 1) == segs@.take(i as int).push(segs@[i as int]));
        i = i + 1;
    }
    assert(segs@.take(segs@.len() as int) == segs@);
    rec.finish()
}

} // verus!
