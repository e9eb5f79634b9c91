//! Snapping a moved or resized shape onto alignment lines: the slide's edges and centre and
//! the edges and centres of the other shapes in the same container.
//!
//! The snap radius arrives in EMU; converting it from screen pixels is the caller's business.

use crate::frame::{drags_bottom, drags_left, drags_right, drags_top, MIN_FRAME_EMU};
use crate::geom::{half_toward_zero, PointEmu, RectEmu, SizeEmu};
use crate::presentation::{listing, Presentation, Selector};
use crate::world::{Entity, World};
use vstd::prelude::*;

verus! {

/// The magnitude of `d`.
pub open spec fn magnitude(d: int) -> int {
    if d < 0 {
        -d
    } else {
        d
    }
}

/// `i` is the first index of a smallest delta among those of magnitude at most `thr`.
pub open spec fn is_best(ds: Seq<int>, thr: int, i: int) -> bool {
    &&& 0 <= i < ds.len()
    &&& magnitude(ds[i]) <= thr
    &&& forall|j: int|
        0 <= j < ds.len() && magnitude(#[trigger] ds[j]) <= thr ==> magnitude(ds[i]) <= magnitude(
            ds[j],
        ) && (j < i ==> magnitude(ds[i]) < magnitude(ds[j]))
}

/// The smallest delta of magnitude at most `thr` (the first such, on ties), if any.
pub open spec fn best_delta(ds: Seq<int>, thr: int) -> Option<int> {
    if exists|i: int| is_best(ds, thr, i) {
        Some(ds[choose|i: int| is_best(ds, thr, i)])
    } else {
        None
    }
}

/// The deltas that move `v` onto each candidate line, in the candidates' order.
pub open spec fn deltas(cands: Seq<i64>, v: int) -> Seq<int> {
    cands.map_values(|c: i64| c - v)
}

/// An optional `i64` as an optional integer.
pub open spec fn widen(o: Option<i64>) -> Option<int> {
    match o {
        Some(d) => Some(d as int),
        None => None,
    }
}

/// A delta whose magnitude an `i64` can hold.
pub open spec fn fits_delta(d: int) -> bool {
    i64::MIN < d <= i64::MAX
}

pub open spec fn fits(v: int) -> bool {
    i64::MIN <= v <= i64::MAX
}

/// The start, middle and end of a span.
pub open spec fn span_lines(start: int, size: int) -> Seq<int> {
    seq![start, start + half_toward_zero(size), start + size]
}

/// The x lines the shapes of `kids`, except `moving`, contribute, in order.
pub open spec fn shape_lines_x(w: &World, kids: Seq<Entity>, moving: Entity) -> Seq<int>
    decreases kids.len(),
{
    if kids.len() == 0 {
        Seq::empty()
    } else {
        let rest = shape_lines_x(w, kids.drop_last(), moving);
        let e = kids.last();
        if e != moving && w.frames@.contains_key(e.0) {
            let f = w.frames@[e.0];
            rest + span_lines(f.origin.x as int, f.size.w as int)
        } else {
            rest
        }
    }
}

/// The y lines the shapes of `kids`, except `moving`, contribute, in order.
pub open spec fn shape_lines_y(w: &World, kids: Seq<Entity>, moving: Entity) -> Seq<int>
    decreases kids.len(),
{
    if kids.len() == 0 {
        Seq::empty()
    } else {
        let rest = shape_lines_y(w, kids.drop_last(), moving);
        let e = kids.last();
        if e != moving && w.frames@.contains_key(e.0) {
            let f = w.frames@[e.0];
            rest + span_lines(f.origin.y as int, f.size.h as int)
        } else {
            rest
        }
    }
}

/// Every shape of `kids` has its right and bottom edges within `i64`.
pub open spec fn frames_fit(w: &World, kids: Seq<Entity>) -> bool {
    forall|i: int|
        0 <= i < kids.len() && w.frames@.contains_key(#[trigger] kids[i].0) ==> {
            let f = w.frames@[kids[i].0];
            fits(f.origin.x + f.size.w) && fits(f.origin.y + f.size.h)
        }
}

fn push_span(v: &mut Vec<i64>, start: i64, size: i64)
    requires
        fits(start + size),
    ensures
        final(v)@.map_values(|c: i64| c as int) == old(v)@.map_values(|c: i64| c as int)
            + span_lines(start as int, size as int),
{
    let ghost before = v@.map_values(|c: i64| c as int);
    v.push(start);
    v.push(start + size / 2);
    v.push(start + size);
    assert(v@.map_values(|c: i64| c as int) =~= before + span_lines(start as int, size as int));
}

/// The alignment lines a shape being moved inside `container` can snap to, along x and
/// along y: the slide's edges and centre, then the edges and centre of every other shape of
/// the container, in sibling order.
pub fn snap_candidates(pres: &Presentation, container: Entity, moving: Entity) -> (r: (
    Vec<i64>,
    Vec<i64>,
))
    requires
        frames_fit(&pres.world, listing(&pres.world, Selector::ChildOf(container))),
    ensures
        r.0@.map_values(|c: i64| c as int) == span_lines(0, pres.slide_size.w as int)
            + shape_lines_x(&pres.world, listing(&pres.world, Selector::ChildOf(container)), moving),
        r.1@.map_values(|c: i64| c as int) == span_lines(0, pres.slide_size.h as int)
            + shape_lines_y(&pres.world, listing(&pres.world, Selector::ChildOf(container)), moving),
{
    let kids = pres.children(container);
    let mut xs: Vec<i64> = Vec::new();
    let mut ys: Vec<i64> = Vec::new();
    push_span(&mut xs, 0, pres.slide_size.w);
    push_span(&mut ys, 0, pres.slide_size.h);
    let ghost base_x = xs@.map_values(|c: i64| c as int);
    let ghost base_y = ys@.map_values(|c: i64| c as int);
    let mut i: usize = 0;
    while i < kids.len()
        invariant
            kids@ == listing(&pres.world, Selector::ChildOf(container)),
            frames_fit(&pres.world, kids@),
            i <= kids.len(),
            xs@.map_values(|c: i64| c as int) == base_x + shape_lines_x(
                &pres.world,
                kids@.take(i as int),
                moving,
            ),
            ys@.map_values(|c: i64| c as int) == base_y + shape_lines_y(
                &pres.world,
                kids@.take(i as int),
                moving,
            ),
        decreases kids.len() - i,
    {
        let other = kids[i];
        assert(kids@.take(i + 1).drop_last() =~= kids@.take(i as int));
        if other != moving {
            match pres.world.frames.get(&other.0) {
                Some(f) => {
                    assert(kids@[i as int].0 == other.0);
                    push_span(&mut xs, f.origin.x, f.size.w);
                    push_span(&mut ys, f.origin.y, f.size.h);
                    assert(xs@.map_values(|c: i64| c as int) =~= base_x + shape_lines_x(
                        &pres.world,
                        kids@.take(i + 1),
                        moving,
                    ));
                    assert(ys@.map_values(|c: i64| c as int) =~= base_y + shape_lines_y(
                        &pres.world,
                        kids@.take(i + 1),
                        moving,
                    ));
                },
                None => {},
            }
        }
        i = i + 1;
    }
    assert(kids@.take(kids.len() as int) =~= kids@);
    (xs, ys)
}

/// The smallest delta in `ds` whose magnitude is at most `thr` (the first on ties).
fn pick_nearest(ds: &Vec<i64>, thr: i64) -> (r: Option<i64>)
    requires
        forall|i: int| 0 <= i < ds.len() ==> fits_delta(#[trigger] ds@[i] as int),
    ensures
        widen(r) == best_delta(ds@.map_values(|d: i64| d as int), thr as int),
{
    let ghost s = ds@.map_values(|d: i64| d as int);
    let mut best: Option<i64> = None;
    let ghost mut bi: int = -1;
    let mut k: usize = 0;
    while k < ds.len()
        invariant
            s == ds@.map_values(|d: i64| d as int),
            forall|i: int| 0 <= i < ds.len() ==> fits_delta(#[trigger] ds@[i] as int),
            k <= ds.len(),
            match best {
                Some(b) => is_best(s.take(k as int), thr as int, bi) && b == s[bi],
                None => forall|j: int| 0 <= j < k ==> magnitude(#[trigger] s[j]) > thr,
            },
        decreases ds.len() - k,
    {
        let d = ds[k];
        let ad = if d < 0 {
            -d
        } else {
            d
        };
        let take = ad <= thr && match best {
            Some(b) => ad < (if b < 0 {
                -b
            } else {
                b
            }),
            None => true,
        };
        proof {
            assert(s[k as int] == d);
            assert(s.take(k + 1).drop_last() =~= s.take(k as int));
        }
        if take {
            best = Some(d);
            proof {
                bi = k as int;
                assert forall|j: int|
                    0 <= j < s.take(k + 1).len() && magnitude(
                        #[trigger] s.take(k + 1)[j],
                    ) <= thr implies magnitude(s.take(k + 1)[bi]) <= magnitude(s.take(k + 1)[j])
                    && (j < bi ==> magnitude(s.take(k + 1)[bi]) < magnitude(
                    s.take(k + 1)[j],
                )) by {
                    if j < k {
                        assert(s.take(k + 1)[j] == s.take(k as int)[j]);
                    }
                }
            }
        } else {
            proof {
                match best {
                    Some(b) => {
                        assert forall|j: int|
                            0 <= j < s.take(k + 1).len() && magnitude(
                                #[trigger] s.take(k + 1)[j],
                            ) <= thr implies magnitude(s.take(k + 1)[bi]) <= magnitude(
                            s.take(k + 1)[j],
                        ) && (j < bi ==> magnitude(s.take(k + 1)[bi]) < magnitude(
                            s.take(k + 1)[j],
                        )) by {
                            if j < k {
                                assert(s.take(k + 1)[j] == s.take(k as int)[j]);
                            }
                        }
                    },
                    None => {},
                }
            }
        }
        k = k + 1;
    }
    proof {
        assert(s.take(ds.len() as int) =~= s);
        match best {
            Some(b) => {
                let c = choose|i: int| is_best(s, thr as int, i);
                assert(is_best(s, thr as int, bi));
                if c < bi {
                    assert(magnitude(s[bi]) < magnitude(s[c]));
                } else if bi < c {
                    assert(magnitude(s[c]) < magnitude(s[bi]));
                }
            },
            None => {
                assert(!exists|i: int| is_best(s, thr as int, i));
            },
        }
    }
    best
}

/// The deltas that move `v` onto each candidate, appended to `out`.
fn push_deltas(out: &mut Vec<i64>, cands: &Vec<i64>, v: i64)
    requires
        forall|i: int| 0 <= i < cands.len() ==> fits_delta(#[trigger] cands@[i] - v),
    ensures
        final(out)@.map_values(|d: i64| d as int) == old(out)@.map_values(|d: i64| d as int)
            + deltas(cands@, v as int),
        forall|i: int|
            0 <= i < final(out)@.len() ==> (#[trigger] final(out)@[i] == (if i < old(out)@.len() {
                old(out)@[i] as int
            } else {
                cands@[i - old(out)@.len()] - v
            })),
{
    let ghost before = out@;
    let mut k: usize = 0;
    while k < cands.len()
        invariant
            forall|i: int| 0 <= i < cands.len() ==> fits_delta(#[trigger] cands@[i] - v),
            k <= cands.len(),
            out@ == before + cands@.take(k as int).map_values(|c: i64| (c - v) as i64),
        decreases cands.len() - k,
    {
        assert(fits_delta(cands@[k as int] - v));
        out.push(cands[k] - v);
        k = k + 1;
        assert(out@ =~= before + cands@.take(k as int).map_values(|c: i64| (c - v) as i64));
    }
    assert(cands@.take(cands.len() as int) =~= cands@);
    assert(out@.map_values(|d: i64| d as int) =~= before.map_values(|d: i64| d as int) + deltas(
        cands@,
        v as int,
    ));
}

/// The smallest delta moving `v` onto one of `cands` within `thr`, if any.
fn nearest(v: i64, cands: &Vec<i64>, thr: i64) -> (r: Option<i64>)
    requires
        forall|i: int| 0 <= i < cands.len() ==> fits_delta(#[trigger] cands@[i] - v),
    ensures
        widen(r) == best_delta(deltas(cands@, v as int), thr as int),
{
    let mut ds: Vec<i64> = Vec::new();
    push_deltas(&mut ds, cands, v);
    assert(Seq::<i64>::empty().map_values(|d: i64| d as int) + deltas(cands@, v as int) =~= deltas(
        cands@,
        v as int,
    ));
    pick_nearest(&ds, thr)
}

/// One axis of a resized frame after snapping, as (start, size): when the end edge moves it
/// snaps with the start fixed; when the start edge moves it snaps with the end fixed; either
/// way the size stays at least one point.
pub open spec fn snap_axis(
    moves_end: bool,
    moves_start: bool,
    start: int,
    size: int,
    cands: Seq<i64>,
    thr: int,
) -> (int, int) {
    if moves_end {
        match best_delta(deltas(cands, start + size), thr) {
            Some(d) => (start, if size + d < MIN_FRAME_EMU {
                MIN_FRAME_EMU as int
            } else {
                size + d
            }),
            None => (start, size),
        }
    } else if moves_start {
        match best_delta(deltas(cands, start), thr) {
            Some(d) => {
                let end = start + size;
                let s2 = if start + d < end - MIN_FRAME_EMU {
                    start + d
                } else {
                    end - MIN_FRAME_EMU
                };
                (s2, end - s2)
            },
            None => (start, size),
        }
    } else {
        (start, size)
    }
}

/// The arithmetic of snapping one axis of a resized frame stays within `i64`.
pub open spec fn snap_axis_fits(
    moves_end: bool,
    moves_start: bool,
    start: int,
    size: int,
    cands: Seq<i64>,
    thr: int,
) -> bool {
    if moves_end {
        &&& fits(start + size)
        &&& forall|i: int| 0 <= i < cands.len() ==> fits_delta(#[trigger] cands[i] - (start + size))
        &&& best_delta(deltas(cands, start + size), thr) matches Some(d) ==> fits(size + d)
    } else if moves_start {
        &&& forall|i: int| 0 <= i < cands.len() ==> fits_delta(#[trigger] cands[i] - start)
        &&& best_delta(deltas(cands, start), thr) matches Some(d) ==> {
            &&& fits(start + size)
            &&& fits(start + d)
            &&& fits(start + size - MIN_FRAME_EMU)
            &&& fits(snap_axis(moves_end, moves_start, start, size, cands, thr).1)
        }
    } else {
        true
    }
}

fn snap_axis_exec(
    moves_end: bool,
    moves_start: bool,
    start: i64,
    size: i64,
    cands: &Vec<i64>,
    thr: i64,
) -> (r: (i64, i64))
    requires
        snap_axis_fits(moves_end, moves_start, start as int, size as int, cands@, thr as int),
    ensures
        (r.0 as int, r.1 as int) == snap_axis(
            moves_end,
            moves_start,
            start as int,
            size as int,
            cands@,
            thr as int,
        ),
{
    let min = MIN_FRAME_EMU;
    if moves_end {
        match nearest(start + size, cands, thr) {
            Some(d) => {
                let w = size + d;
                (start, if w < min {
                    min
                } else {
                    w
                })
            },
            None => (start, size),
        }
    } else if moves_start {
        match nearest(start, cands, thr) {
            Some(d) => {
                let end = start + size;
                let s2 = if start + d < end - min {
                    start + d
                } else {
                    end - min
                };
                (s2, end - s2)
            },
            None => (start, size),
        }
    } else {
        (start, size)
    }
}

/// Snap a frame being resized by `handle` (numbered as in [`crate::frame`]): only the edges
/// the handle drags move onto the nearest line within `thr` EMU, the opposite edges stay put,
/// and the size stays at least one point.
pub fn snap_resize(handle: usize, nf: RectEmu, xs: &Vec<i64>, ys: &Vec<i64>, thr: i64) -> (r:
    RectEmu)
    requires
        snap_axis_fits(
            drags_right(handle),
            drags_left(handle),
            nf.origin.x as int,
            nf.size.w as int,
            xs@,
            thr as int,
        ),
        snap_axis_fits(
            drags_bottom(handle),
            drags_top(handle),
            nf.origin.y as int,
            nf.size.h as int,
            ys@,
            thr as int,
        ),
    ensures
        (r.origin.x as int, r.size.w as int) == snap_axis(
            drags_right(handle),
            drags_left(handle),
            nf.origin.x as int,
            nf.size.w as int,
            xs@,
            thr as int,
        ),
        (r.origin.y as int, r.size.h as int) == snap_axis(
            drags_bottom(handle),
            drags_top(handle),
            nf.origin.y as int,
            nf.size.h as int,
            ys@,
            thr as int,
        ),
{
    let right = handle == 2 || handle == 3 || handle == 4;
    let left = handle == 0 || handle == 6 || handle == 7;
    let bottom = handle == 4 || handle == 5 || handle == 6;
    let top = handle == 0 || handle == 1 || handle == 2;
    let (x, w) = snap_axis_exec(right, left, nf.origin.x, nf.size.w, xs, thr);
    let (y, h) = snap_axis_exec(bottom, top, nf.origin.y, nf.size.h, ys, thr);
    RectEmu { origin: PointEmu::new(x, y), size: SizeEmu::new(w, h) }
}

/// The deltas that move each of a span's start, middle and end onto each candidate, anchor
/// by anchor.
pub open spec fn span_deltas(cands: Seq<i64>, start: int, size: int) -> Seq<int> {
    deltas(cands, start) + deltas(cands, start + half_toward_zero(size)) + deltas(
        cands,
        start + size,
    )
}

/// The arithmetic of snapping a moved span stays within `i64`.
pub open spec fn snap_move_fits(start: int, size: int, cands: Seq<i64>, thr: int) -> bool {
    &&& fits(start + size)
    &&& forall|i: int|
        0 <= i < cands.len() ==> {
            &&& fits_delta(#[trigger] cands[i] - start)
            &&& fits_delta(cands[i] - (start + half_toward_zero(size)))
            &&& fits_delta(cands[i] - (start + size))
        }
    &&& best_delta(span_deltas(cands, start, size), thr) matches Some(d) ==> fits(start + d)
}

/// The start of a moved span after snapping: shifted by the smallest delta that puts its
/// start, middle or end on a candidate within `thr`, else unchanged.
pub open spec fn snap_move(start: int, size: int, cands: Seq<i64>, thr: int) -> int {
    match best_delta(span_deltas(cands, start, size), thr) {
        Some(d) => start + d,
        None => start,
    }
}

fn snap_move_exec(start: i64, size: i64, cands: &Vec<i64>, thr: i64) -> (r: i64)
    requires
        snap_move_fits(start as int, size as int, cands@, thr as int),
    ensures
        r == snap_move(start as int, size as int, cands@, thr as int),
{
    let mut ds: Vec<i64> = Vec::new();
    let mid = start + size / 2;
    let end = start + size;
    assert forall|i: int| 0 <= i < cands.len() implies fits_delta(#[trigger] cands@[i] - start) && fits_delta(cands@[i] - mid) && fits_delta(cands@[i] - end) by {
        assert(fits_delta(cands@[i] - start));
    }
    push_deltas(&mut ds, cands, start);
    push_deltas(&mut ds, cands, mid);
    push_deltas(&mut ds, cands, end);
    assert(ds@.map_values(|d: i64| d as int) =~= span_deltas(cands@, start as int, size as int));
    match pick_nearest(&ds, thr) {
        Some(d) => start + d,
        None => start,
    }
}

/// Snap a frame being moved: along each axis, shift it by the smallest delta that puts its
/// start, centre or end on one of the lines within `thr` EMU. The size does not change.
pub fn snap_frame(nf: RectEmu, xs: &Vec<i64>, ys: &Vec<i64>, thr: i64) -> (r: RectEmu)
    requires
        snap_move_fits(nf.origin.x as int, nf.size.w as int, xs@, thr as int),
        snap_move_fits(nf.origin.y as int, nf.size.h as int, ys@, thr as int),
    ensures
        r.origin.x == snap_move(nf.origin.x as int, nf.size.w as int, xs@, thr as int),
        r.origin.y == snap_move(nf.origin.y as int, nf.size.h as int, ys@, thr as int),
        r.size == nf.size,
{
    let ox = snap_move_exec(nf.origin.x, nf.size.w, xs, thr);
    let oy = snap_move_exec(nf.origin.y, nf.size.h, ys, thr);
    RectEmu { origin: PointEmu::new(ox, oy), size: nf.size }
}

/// The delta `best_delta` picks is one of the deltas, of magnitude at most `thr` and no
/// larger than any other such; it picks none exactly when no delta is that small.
pub proof fn lemma_best_delta(ds: Seq<int>, thr: int)
    ensures
        best_delta(ds, thr) matches Some(d) ==> exists|i: int|
            is_best(ds, thr, i) && #[trigger] ds[i] == d,
        best_delta(ds, thr) is None <==> forall|j: int|
            0 <= j < ds.len() ==> magnitude(#[trigger] ds[j]) > thr,
{
    if exists|i: int| is_best(ds, thr, i) {
        let i = choose|i: int| is_best(ds, thr, i);
        assert(ds[i] == ds[i]);
    } else {
        if exists|j: int| 0 <= j < ds.len() && magnitude(#[trigger] ds[j]) <= thr {
            let j0 = choose|j: int| 0 <= j < ds.len() && magnitude(#[trigger] ds[j]) <= thr;
            lemma_best_exists(ds, thr, j0);
        }
    }
}

/// Some delta of magnitude at most `thr` makes a best one exist.
proof fn lemma_best_exists(ds: Seq<int>, thr: int, j0: int)
    requires
        0 <= j0 < ds.len(),
        magnitude(ds[j0]) <= thr,
    ensures
        exists|i: int| is_best(ds, thr, i),
    decreases magnitude(ds[j0]), j0,
{
    if is_best(ds, thr, j0) {
    } else {
        let j = choose|j: int|
            !(0 <= j < ds.len() && magnitude(#[trigger] ds[j]) <= thr ==> magnitude(ds[j0]) <= magnitude(
                ds[j],
            ) && (j < j0 ==> magnitude(ds[j0]) < magnitude(ds[j])));
        lemma_best_exists(ds, thr, j);
    }
}

/// Resizing snaps only the edge the handle drags: the start stays put when the end moves,
/// the end stays put when the start moves, nothing moves when neither does, and a snapped
/// size is at least one point.
pub proof fn law_resize_snap_keeps_anchored_edge(
    moves_end: bool,
    moves_start: bool,
    start: int,
    size: int,
    cands: Seq<i64>,
    thr: int,
)
    ensures
        ({
            let (s2, z2) = snap_axis(moves_end, moves_start, start, size, cands, thr);
            &&& moves_end ==> s2 == start
            &&& moves_start && !moves_end ==> s2 + z2 == start + size
            &&& !moves_end && !moves_start ==> s2 == start && z2 == size
            &&& moves_end && best_delta(deltas(cands, start + size), thr) is Some ==> z2
                >= MIN_FRAME_EMU
            &&& moves_start && !moves_end && best_delta(deltas(cands, start), thr) is Some ==> z2
                >= MIN_FRAME_EMU
        }),
{
}

/// A moved span that snapped has its start, middle or end on one of the candidate lines,
/// and moved by at most `thr`; one that did not snap had no line within `thr` of any of
/// the three.
pub proof fn law_move_snap_lands_on_line(start: int, size: int, cands: Seq<i64>, thr: int)
    ensures
        ({
            let s2 = snap_move(start, size, cands, thr);
            match best_delta(span_deltas(cands, start, size), thr) {
                Some(d) => {
                    &&& magnitude(s2 - start) <= thr
                    &&& exists|i: int|
                        0 <= i < cands.len() && (#[trigger] cands[i] == s2 || cands[i] == s2
                            + half_toward_zero(size) || cands[i] == s2 + size)
                },
                None => forall|i: int|
                    0 <= i < cands.len() ==> magnitude(#[trigger] cands[i] - start) > thr
                        && magnitude(cands[i] - (start + half_toward_zero(size))) > thr
                        && magnitude(cands[i] - (start + size)) > thr,
            }
        }),
{
    let ds = span_deltas(cands, start, size);
    let n = cands.len() as int;
    lemma_best_delta(ds, thr);
    match best_delta(ds, thr) {
        Some(d) => {
            let i = choose|i: int| is_best(ds, thr, i) && #[trigger] ds[i] == d;
            if i < n {
                assert(cands[i] == start + d);
            } else if i < 2 * n {
                assert(ds[i] == cands[i - n] - (start + half_toward_zero(size)));
            } else {
                assert(ds[i] == cands[i - 2 * n] - (start + size));
            }
        },
        None => {
            assert forall|i: int| 0 <= i < n implies magnitude(#[trigger] cands[i] - start) > thr
                && magnitude(cands[i] - (start + half_toward_zero(size))) > thr && magnitude(
                cands[i] - (start + size),
            ) > thr by {
                assert(ds[i] == cands[i] - start);
                assert(ds[i + n] == cands[i] - (start + half_toward_zero(size)));
                assert(ds[i + 2 * n] == cands[i] - (start + size));
            }
        },
    }
}

} // verus!
