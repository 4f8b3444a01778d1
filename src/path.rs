use vstd::prelude::*;

verus! {

/// A drawing command tag; it carries no coordinates of its own.
#[derive(Clone, Copy, Debug, PartialEq, Eq, Structural)]
pub enum Verb {
    MoveTo,
    LineTo,
    QuadTo,
    CurveTo,
    Close,
}

/// One drawing command together with its points, as a path source hands it
/// out and as a path sink takes it back.
#[derive(Clone, Copy, Debug, PartialEq)]
pub enum Segment<P> {
    MoveTo(P),
    LineTo(P),
    /// Control point, end point.
    QuadTo(P, P),
    /// First control point, second control point, end point.
    CurveTo(P, P, P),
    Close,
}

/// How many points a verb consumes.
pub open spec fn arity(v: Verb) -> nat {
    match v {
        Verb::MoveTo => 1,
        Verb::LineTo => 1,
        Verb::QuadTo => 2,
        Verb::CurveTo => 3,
        Verb::Close => 0,
    }
}

/// The verb of a segment.
pub open spec fn verb_of<P>(s: Segment<P>) -> Verb {
    match s {
        Segment::MoveTo(_) => Verb::MoveTo,
        Segment::LineTo(_) => Verb::LineTo,
        Segment::QuadTo(_, _) => Verb::QuadTo,
        Segment::CurveTo(_, _, _) => Verb::CurveTo,
        Segment::Close => Verb::Close,
    }
}

/// The points of a segment, in the order in which they are stored.
pub open spec fn points_of<P>(s: Segment<P>) -> Seq<P> {
    match s {
        Segment::MoveTo(p) => seq![p],
        Segment::LineTo(p) => seq![p],
        Segment::QuadTo(p1, p) => seq![p1, p],
        Segment::CurveTo(p1, p2, p) => seq![p1, p2, p],
        Segment::Close => seq![],
    }
}

/// The segment that verb `v` forms with the points at the front of `ps`.
pub open spec fn segment_at<P>(v: Verb, ps: Seq<P>) -> Segment<P> {
    match v {
        Verb::MoveTo => Segment::MoveTo(ps[0]),
        Verb::LineTo => Segment::LineTo(ps[0]),
        Verb::QuadTo => Segment::QuadTo(ps[0], ps[1]),
        Verb::CurveTo => Segment::CurveTo(ps[0], ps[1], ps[2]),
        Verb::Close => Segment::Close,
    }
}

/// The number of points that a run of verbs consumes.
pub open spec fn total_arity(vs: Seq<Verb>) -> nat
    decreases vs.len(),
{
    if vs.len() == 0 {
        0
    } else {
        total_arity(vs.drop_last()) + arity(vs.last())
    }
}

/// The segments obtained by replaying `vs` over `ps`, each verb taking the
/// next `arity` points.
pub open spec fn replay<P>(vs: Seq<Verb>, ps: Seq<P>) -> Seq<Segment<P>>
    decreases vs.len(),
{
    if vs.len() == 0 {
        seq![]
    } else {
        replay(vs.drop_last(), ps).push(
            segment_at(vs.last(), ps.skip(total_arity(vs.drop_last()) as int)),
        )
    }
}

/// A replay reads only the points that its verbs consume.
pub proof fn lemma_replay_reads_prefix<P>(vs: Seq<Verb>, ps1: Seq<P>, ps2: Seq<P>)
    requires
        ps1.len() >= total_arity(vs),
        ps2.len() >= total_arity(vs),
        forall|i: int| 0 <= i < total_arity(vs) ==> ps1[i] == ps2[i],
    ensures
        replay(vs, ps1) == replay(vs, ps2),
    decreases vs.len(),
{
    if vs.len() > 0 {
        let pre = vs.drop_last();
        let at = total_arity(pre) as int;
        lemma_replay_reads_prefix(pre, ps1, ps2);
        let s1 = ps1.skip(at);
        let s2 = ps2.skip(at);
        assert(forall|i: int| 0 <= i < arity(vs.last()) ==> s1[i] == ps1[at + i] && s2[i] == ps2[at + i]);
        assert(segment_at(vs.last(), s1) == segment_at(vs.last(), s2));
    }
}

/// Appending a segment's verb and points to a consistent run appends the
/// segment to its replay.
pub proof fn lemma_replay_push<P>(vs: Seq<Verb>, ps: Seq<P>, s: Segment<P>)
    requires
        ps.len() == total_arity(vs),
    ensures
        (ps + points_of(s)).len() == total_arity(vs.push(verb_of(s))),
        replay(vs.push(verb_of(s)), ps + points_of(s)) == replay(vs, ps).push(s),
{
    let vs2 = vs.push(verb_of(s));
    let ps2 = ps + points_of(s);
    assert(vs2.drop_last() == vs);
    lemma_replay_reads_prefix(vs, ps, ps2);
    assert(ps2.skip(ps.len() as int) == points_of(s));
}

impl Verb {
    /// The number of points this verb consumes.
    pub fn arity(&self) -> (r: usize)
        ensures
            r == arity(*self),
    {
        match self {
            Verb::MoveTo => 1,
            Verb::LineTo => 1,
            Verb::QuadTo => 2,
            Verb::CurveTo => 3,
            Verb::Close => 0,
        }
    }
}

} // verus!
