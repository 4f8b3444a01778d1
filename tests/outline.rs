use ttf_utils::{embolden_points, is_closed, record, Outline, Recorder, Segment, Verb};

#[derive(Clone, Copy, Debug, PartialEq)]
struct Pt {
    x: f32,
    y: f32,
}

fn pt(x: f32, y: f32) -> Pt {
    Pt { x, y }
}

type Dir = (f32, f32, f32);

fn same(a: Pt, b: Pt) -> bool {
    a == b
}

fn edge(a: Pt, b: Pt) -> Option<Dir> {
    let x = b.x - a.x;
    let y = b.y - a.y;
    let len = (x * x + y * y).sqrt();
    if len != 0.0 {
        Some((x / len, y / len, len))
    } else {
        None
    }
}

fn offset(strength: f32, cubic: bool) -> impl Fn(Pt, Dir, Dir) -> Pt {
    move |p: Pt, i: Dir, o: Dir| {
        let d = i.0 * o.0 + i.1 * o.1;
        let (sx, sy) = if d > -0.9375 {
            let d = d + 1.0;
            let mut q = o.0 * i.1 - o.1 * i.0;
            if !cubic {
                q = -q;
            }
            let len = i.2.min(o.2);
            let (x, y) = if cubic {
                (i.1 + o.1, -(i.0 + o.0))
            } else {
                (-(i.1 + o.1), i.0 + o.0)
            };
            if strength * q <= len * d {
                (x * strength / d, y * strength / d)
            } else {
                (x * len / q, y * len / q)
            }
        } else {
            (0.0, 0.0)
        };
        pt(p.x + (strength + sx), p.y + (strength + sy))
    }
}

fn polygon(cubic: bool, pts: &[(f32, f32)]) -> Outline<Pt> {
    let mut rec = Recorder::new(cubic);
    rec.move_to(pt(pts[0].0, pts[0].1));
    for &(x, y) in &pts[1..] {
        rec.line_to(pt(x, y));
    }
    rec.close();
    rec.finish()
}

fn bbox(o: &Outline<Pt>) -> (f32, f32, f32, f32) {
    let mut b = (f32::INFINITY, f32::INFINITY, f32::NEG_INFINITY, f32::NEG_INFINITY);
    for p in o.points() {
        b = (b.0.min(p.x), b.1.min(p.y), b.2.max(p.x), b.3.max(p.y));
    }
    b
}

fn embolden(o: &mut Outline<Pt>, strength: f32) {
    let cubic = o.is_cubic();
    o.embolden(same, edge, offset(strength, cubic));
}

fn coords(o: &Outline<Pt>) -> Vec<(f32, f32)> {
    o.points().iter().map(|p| (p.x, p.y)).collect()
}

const SQUARE: [(f32, f32); 5] = [(0.0, 0.0), (10.0, 0.0), (10.0, 10.0), (0.0, 10.0), (0.0, 0.0)];

#[test]
fn record_then_emit_gives_the_path_back() {
    let segs = vec![
        Segment::MoveTo(pt(0.0, 0.0)),
        Segment::LineTo(pt(5.0, 0.0)),
        Segment::QuadTo(pt(7.0, 1.0), pt(8.0, 3.0)),
        Segment::CurveTo(pt(8.0, 5.0), pt(4.0, 6.0), pt(0.0, 0.0)),
        Segment::Close,
        Segment::MoveTo(pt(1.5, 1.5)),
        Segment::LineTo(pt(2.5, -1.25)),
    ];
    let o = record(true, &segs);
    assert_eq!(o.emit(), segs);
    assert_eq!(o.contour_count(), 2);
    assert!(o.is_cubic());
}

#[test]
fn recorder_opens_a_contour_per_close() {
    let mut rec = Recorder::new(false);
    rec.move_to(pt(0.0, 0.0));
    rec.line_to(pt(1.0, 0.0));
    rec.close();
    rec.close();
    rec.move_to(pt(2.0, 2.0));
    rec.quad_to(pt(3.0, 3.0), pt(2.0, 2.0));
    rec.curve_to(pt(1.0, 1.0), pt(0.0, 1.0), pt(2.0, 2.0));
    rec.close();
    let o = rec.finish();
    assert_eq!(o.contour_count(), 3);
    assert_eq!(o.points().len(), 8);
    assert_eq!(
        o.emit(),
        vec![
            Segment::MoveTo(pt(0.0, 0.0)),
            Segment::LineTo(pt(1.0, 0.0)),
            Segment::Close,
            Segment::Close,
            Segment::MoveTo(pt(2.0, 2.0)),
            Segment::QuadTo(pt(3.0, 3.0), pt(2.0, 2.0)),
            Segment::CurveTo(pt(1.0, 1.0), pt(0.0, 1.0), pt(2.0, 2.0)),
            Segment::Close,
        ]
    );
}

#[test]
fn empty_outline_emits_nothing() {
    let o: Outline<Pt> = Outline::new(false);
    assert!(o.emit().is_empty());
    assert!(o.points().is_empty());
    let o = record::<Pt>(false, &Vec::new());
    assert_eq!(o.contour_count(), 0);
}

#[test]
fn verb_arities() {
    assert_eq!(Verb::MoveTo.arity(), 1);
    assert_eq!(Verb::LineTo.arity(), 1);
    assert_eq!(Verb::QuadTo.arity(), 2);
    assert_eq!(Verb::CurveTo.arity(), 3);
    assert_eq!(Verb::Close.arity(), 0);
}

#[test]
fn embolden_square_quadratic_winding() {
    let mut o = polygon(false, &SQUARE);
    assert_eq!(bbox(&o), (0.0, 0.0, 10.0, 10.0));
    embolden(&mut o, 1.0);
    assert_eq!(
        coords(&o),
        vec![(2.0, 2.0), (10.0, 2.0), (10.0, 10.0), (2.0, 10.0), (2.0, 2.0)]
    );
    assert_eq!(bbox(&o), (2.0, 2.0, 10.0, 10.0));
}

#[test]
fn embolden_square_cubic_winding() {
    let mut o = polygon(true, &SQUARE);
    embolden(&mut o, 1.0);
    assert_eq!(
        coords(&o),
        vec![(0.0, 0.0), (12.0, 0.0), (12.0, 12.0), (0.0, 12.0), (0.0, 0.0)]
    );
    assert_eq!(bbox(&o), (0.0, 0.0, 12.0, 12.0));
}

#[test]
fn winding_flag_mirrors_the_lateral_shift() {
    let strength = 1.0;
    let mut q = polygon(false, &SQUARE);
    let mut c = polygon(true, &SQUARE);
    embolden(&mut q, strength);
    embolden(&mut c, strength);
    for ((p0, pq), pc) in SQUARE.iter().zip(coords(&q)).zip(coords(&c)) {
        let lateral_q = (pq.0 - p0.0 - strength, pq.1 - p0.1 - strength);
        let lateral_c = (pc.0 - p0.0 - strength, pc.1 - p0.1 - strength);
        assert_eq!(lateral_q.0, -lateral_c.0);
        assert_eq!(lateral_q.1, -lateral_c.1);
    }
}

#[test]
fn embolden_zero_strength_keeps_points() {
    let tri = [(0.0, 0.0), (7.0, 1.0), (3.0, 9.0), (0.0, 0.0)];
    for cubic in [false, true] {
        for shape in [&SQUARE[..], &tri[..]] {
            let mut o = polygon(cubic, shape);
            let before = coords(&o);
            embolden(&mut o, 0.0);
            assert_eq!(coords(&o), before);
        }
    }
}

#[test]
fn embolden_keeps_closed_contours_closed() {
    let tri = [(0.0, 0.0), (7.25, 1.5), (3.0, 9.75), (0.0, 0.0)];
    for strength in [0.5, 3.0, 40.0, -2.0] {
        let mut o = polygon(false, &tri);
        embolden(&mut o, strength);
        let ps = coords(&o);
        assert_eq!(ps[0], ps[3]);
        assert_ne!(ps[1], (7.25, 1.5));
    }
}

#[test]
fn embolden_open_contour() {
    let mut pts = vec![pt(0.0, 0.0), pt(10.0, 0.0), pt(10.0, 10.0)];
    assert!(!is_closed(&pts, &same));
    embolden_points(&mut pts, false, &edge, &offset(1.0, false));
    assert_eq!(pts, vec![pt(3.4142134, 2.0), pt(10.0, 2.0), pt(10.0, 8.585787)]);
}

#[test]
fn embolden_near_reversal_has_no_lateral_shift() {
    let mut pts = vec![pt(0.0, 0.0), pt(10.0, 0.0), pt(0.0, 1.0)];
    embolden_points(&mut pts, false, &edge, &offset(2.0, false));
    assert_eq!(pts[0], pt(3.0, 3.0));
    assert_eq!(pts[1], pt(12.0, 2.0));
    assert_eq!(pts[2], pt(2.9049876, 2.0));
}

#[test]
fn embolden_skips_zero_length_edges() {
    let shape = [(0.0, 0.0), (10.0, 0.0), (10.0, 10.0), (0.0, 10.0), (0.0, 10.0), (0.0, 0.0)];
    let mut o = polygon(false, &shape);
    embolden(&mut o, 1.0);
    assert_eq!(
        coords(&o),
        vec![(2.0, 2.0), (10.0, 2.0), (10.0, 10.0), (2.0, 10.0), (2.0, 10.0), (2.0, 2.0)]
    );
}

#[test]
fn embolden_two_point_closed_contour() {
    let mut o = polygon(false, &[(0.0, 0.0), (10.0, 0.0), (0.0, 0.0)]);
    embolden(&mut o, 1.0);
    assert_eq!(coords(&o), vec![(1.0, 1.0), (11.0, 1.0), (1.0, 1.0)]);
}

#[test]
fn embolden_leaves_degenerate_contours_alone() {
    let mut rec = Recorder::new(false);
    rec.close();
    rec.move_to(pt(4.0, 5.0));
    rec.close();
    rec.move_to(pt(3.0, 3.0));
    rec.line_to(pt(3.0, 3.0));
    rec.line_to(pt(3.0, 3.0));
    rec.close();
    let mut o = rec.finish();
    let before = o.emit();
    for strength in [0.0, 1.0, 25.0] {
        embolden(&mut o, strength);
        assert_eq!(o.emit(), before);
    }
}

#[test]
fn embolden_empty_outline() {
    let mut o: Outline<Pt> = Outline::new(true);
    embolden(&mut o, 3.0);
    assert_eq!(o.contour_count(), 0);
}

#[test]
fn is_closed_needs_two_points() {
    assert!(!is_closed(&vec![pt(1.0, 1.0)], &same));
    assert!(!is_closed(&Vec::<Pt>::new(), &same));
    assert!(is_closed(&vec![pt(1.0, 1.0), pt(1.0, 1.0)], &same));
    assert!(!is_closed(&vec![pt(1.0, 1.0), pt(1.0, 2.0)], &same));
}

#[test]
fn embolden_points_resets_the_closing_point() {
    let mut pts = vec![pt(0.0, 0.0), pt(10.0, 0.0), pt(10.0, 10.0), pt(0.0, 10.0), pt(0.0, 0.0)];
    embolden_points(&mut pts, true, &edge, &offset(1.0, false));
    assert_eq!(pts[4], pts[0]);
    assert_eq!(pts[0], pt(2.0, 2.0));
}

#[test]
fn oblique_is_a_shear() {
    let k = 0.25;
    let mut o = polygon(false, &[(1.0, 0.0), (5.0, 4.0), (-3.0, -8.0), (1.0, 0.0)]);
    let before = coords(&o);
    o.oblique(|p: Pt| if p.y != 0.0 { pt(p.x + p.y * k, p.y) } else { p });
    let after = coords(&o);
    assert_eq!(after, vec![(1.0, 0.0), (6.0, 4.0), (-5.0, -8.0), (1.0, 0.0)]);
    for (b, a) in before.iter().zip(&after) {
        assert_eq!(a.1, b.1);
        assert_eq!(a.0, b.0 + b.1 * k);
    }
    assert_eq!(o.emit().len(), 5);
}
