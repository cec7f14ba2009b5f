//! What a flood fill reaches, and the proof that the stack-driven fill in
//! `Canvas::flood_fill` paints exactly that region.

use vstd::prelude::*;
use crate::color::PixelColor;
use crate::grid::{Change, shaped, inside, put, change_positions, distinct_positions, grid_count};

verus! {

/// `p` and `q` are horizontal or vertical neighbours.
pub open spec fn adjacent(p: (int, int), q: (int, int)) -> bool {
    ||| p.0 == q.0 && (p.1 == q.1 + 1 || q.1 == p.1 + 1)
    ||| p.1 == q.1 && (p.0 == q.0 + 1 || q.0 == p.0 + 1)
}

/// Step `i` of `path` goes to a neighbour.
pub open spec fn step_ok(path: Seq<(int, int)>, i: int) -> bool {
    adjacent(path[i], path[i + 1])
}

/// `path` is a non-empty walk between neighbouring cells of the canvas, each of
/// which holds `t` in `g`.
pub open spec fn fill_path(g: Seq<Seq<Option<PixelColor>>>, w: int, h: int, t: Option<PixelColor>, path: Seq<(int, int)>) -> bool {
    &&& path.len() > 0
    &&& forall|i: int| 0 <= i < path.len() ==> inside(w, h, (#[trigger] path[i]).0, path[i].1) && g[path[i].1][path[i].0] == t
    &&& forall|i: int| 0 <= i < path.len() - 1 ==> #[trigger] step_ok(path, i)
}

/// `p` is reached by a fill started at `(sx, sy)`: a walk through cells of the
/// start cell's colour leads from the start to `p`.
pub open spec fn reaches(g: Seq<Seq<Option<PixelColor>>>, w: int, h: int, sx: int, sy: int, p: (int, int)) -> bool {
    exists|path: Seq<(int, int)>|
        #[trigger] fill_path(g, w, h, g[sy][sx], path) && path[0] == (sx, sy) && path.last() == p
}

/// `g` with every cell reached from `(sx, sy)` painted `c`.
pub open spec fn filled(g: Seq<Seq<Option<PixelColor>>>, w: int, h: int, sx: int, sy: int, c: Option<PixelColor>) -> Seq<Seq<Option<PixelColor>>> {
    Seq::new(h as nat, |y: int| Seq::new(w as nat, |x: int| if reaches(g, w, h, sx, sy, (x, y)) { c } else { g[y][x] }))
}

/// `ch` records a fill from `(sx, sy)`: it names each reached position once,
/// and each recorded old value is the start cell's colour.
pub open spec fn fill_log(g: Seq<Seq<Option<PixelColor>>>, w: int, h: int, sx: int, sy: int, ch: Seq<Change>) -> bool {
    &&& forall|p: (int, int)| #[trigger] change_positions(ch).contains(p) <==> reaches(g, w, h, sx, sy, p)
    &&& distinct_positions(ch)
    &&& forall|i: int| 0 <= i < ch.len() ==> (#[trigger] ch[i]).2 == g[sy][sx]
}

/// `g` with every cell whose position is in `s` painted `c`.
pub open spec fn painted(g: Seq<Seq<Option<PixelColor>>>, w: int, h: int, s: Set<(int, int)>, c: Option<PixelColor>) -> Seq<Seq<Option<PixelColor>>> {
    Seq::new(h as nat, |y: int| Seq::new(w as nat, |x: int| if s.contains((x, y)) { c } else { g[y][x] }))
}

/// Positions of a stack of coordinates.
pub open spec fn points(s: Seq<(usize, usize)>) -> Seq<(int, int)> {
    s.map_values(|e: (usize, usize)| (e.0 as int, e.1 as int))
}

/// What holds at each turn of the fill loop: `g` is the canvas now, `ch` the
/// changes so far and `sp` the stack of positions still to visit.
pub open spec fn fill_inv(
    g0: Seq<Seq<Option<PixelColor>>>,
    w: int,
    h: int,
    sx: int,
    sy: int,
    c: Option<PixelColor>,
    g: Seq<Seq<Option<PixelColor>>>,
    ch: Seq<Change>,
    sp: Seq<(int, int)>,
) -> bool {
    let t = g0[sy][sx];
    let done = change_positions(ch);
    &&& shaped(g0, w, h)
    &&& inside(w, h, sx, sy)
    &&& c != t
    &&& g == painted(g0, w, h, done, c)
    &&& forall|i: int| 0 <= i < ch.len() ==> inside(w, h, (#[trigger] ch[i]).0 as int, ch[i].1 as int)
            && ch[i].2 == t && g0[ch[i].1 as int][ch[i].0 as int] == t
    &&& distinct_positions(ch)
    &&& forall|p: (int, int)| #[trigger] done.contains(p) ==> reaches(g0, w, h, sx, sy, p)
    &&& forall|k: int| 0 <= k < sp.len() ==> (#[trigger] sp[k] == (sx, sy)
            || exists|p: (int, int)| done.contains(p) && #[trigger] adjacent(p, sp[k]))
    &&& forall|p: (int, int), q: (int, int)|
            #[trigger] done.contains(p) && #[trigger] adjacent(p, q) && inside(w, h, q.0, q.1) && g0[q.1][q.0] == t
            ==> done.contains(q) || sp.contains(q)
    &&& done.contains((sx, sy)) || sp.contains((sx, sy))
}

pub proof fn lemma_fill_init(g0: Seq<Seq<Option<PixelColor>>>, w: int, h: int, sx: int, sy: int, c: Option<PixelColor>)
    requires
        shaped(g0, w, h),
        inside(w, h, sx, sy),
        c != g0[sy][sx],
    ensures
        fill_inv(g0, w, h, sx, sy, c, g0, Seq::empty(), seq![(sx, sy)]),
{
    let done = change_positions(Seq::<Change>::empty());
    assert(done =~= Set::empty());
    assert(painted(g0, w, h, done, c) =~~= g0);
    assert(seq![(sx, sy)][0] == (sx, sy));
}

/// Popping a position that is off the canvas or no longer holds the start
/// colour keeps the invariant.
pub proof fn lemma_fill_skip(
    g0: Seq<Seq<Option<PixelColor>>>,
    w: int,
    h: int,
    sx: int,
    sy: int,
    c: Option<PixelColor>,
    g: Seq<Seq<Option<PixelColor>>>,
    ch: Seq<Change>,
    sp: Seq<(int, int)>,
)
    requires
        fill_inv(g0, w, h, sx, sy, c, g, ch, sp),
        sp.len() > 0,
        !inside(w, h, sp.last().0, sp.last().1) || g[sp.last().1][sp.last().0] != g0[sy][sx],
    ensures
        fill_inv(g0, w, h, sx, sy, c, g, ch, sp.drop_last()),
{
    let t = g0[sy][sx];
    let done = change_positions(ch);
    let q = sp.last();
    let sp2 = sp.drop_last();
    assert forall|k: int| 0 <= k < sp2.len() implies (#[trigger] sp2[k] == (sx, sy)
            || exists|p: (int, int)| done.contains(p) && #[trigger] adjacent(p, sp2[k])) by {
        assert(sp2[k] == sp[k]);
    }
    // A popped position that is skipped is either already painted or never held `t`.
    assert(inside(w, h, q.0, q.1) && g0[q.1][q.0] == t ==> done.contains(q)) by {
        if inside(w, h, q.0, q.1) && g0[q.1][q.0] == t {
            assert(g[q.1][q.0] == (if done.contains((q.0, q.1)) { c } else { g0[q.1][q.0] }));
        }
    }
    assert forall|p: (int, int), r: (int, int)|
        #[trigger] done.contains(p) && #[trigger] adjacent(p, r) && inside(w, h, r.0, r.1) && g0[r.1][r.0] == t
        implies done.contains(r) || sp2.contains(r) by {
        if !done.contains(r) {
            assert(sp.contains(r));
            let k = choose|k: int| 0 <= k < sp.len() && sp[k] == r;
            if k < sp.len() - 1 {
                assert(sp2[k] == r);
            }
        }
    }
    if !done.contains((sx, sy)) {
        let k = choose|k: int| 0 <= k < sp.len() && sp[k] == (sx, sy);
        if k < sp.len() - 1 {
            assert(sp2[k] == (sx, sy));
        } else {
            assert(g[sy][sx] == (if done.contains((sx, sy)) { c } else { g0[sy][sx] }));
        }
    }
}

/// A walk that reaches `p` extends to any neighbour of `p` that holds the
/// start colour.
pub proof fn lemma_reaches_step(g0: Seq<Seq<Option<PixelColor>>>, w: int, h: int, sx: int, sy: int, p: (int, int), q: (int, int))
    requires
        reaches(g0, w, h, sx, sy, p),
        adjacent(p, q),
        inside(w, h, q.0, q.1),
        g0[q.1][q.0] == g0[sy][sx],
    ensures
        reaches(g0, w, h, sx, sy, q),
{
    let t = g0[sy][sx];
    let path = choose|path: Seq<(int, int)>| #[trigger] fill_path(g0, w, h, t, path) && path[0] == (sx, sy) && path.last() == p;
    let path2 = path.push(q);
    assert forall|i: int| 0 <= i < path2.len() - 1 implies #[trigger] step_ok(path2, i) by {
        if i < path.len() - 1 {
            assert(step_ok(path, i));
        }
    }
    assert forall|i: int| 0 <= i < path2.len() implies inside(w, h, (#[trigger] path2[i]).0, path2[i].1) && g0[path2[i].1][path2[i].0] == t by {
        if i < path.len() {
            assert(path2[i] == path[i]);
        }
    }
    assert(fill_path(g0, w, h, t, path2));
}

/// The start position is reached by the one-cell walk.
pub proof fn lemma_reaches_start(g0: Seq<Seq<Option<PixelColor>>>, w: int, h: int, sx: int, sy: int)
    requires
        inside(w, h, sx, sy),
    ensures
        reaches(g0, w, h, sx, sy, (sx, sy)),
{
    let path = seq![(sx, sy)];
    assert(path[0] == (sx, sy));
    assert(fill_path(g0, w, h, g0[sy][sx], path));
}

/// Painting a popped position that still holds the start colour, recording
/// it, and pushing its neighbours keeps the invariant.
pub proof fn lemma_fill_paint(
    g0: Seq<Seq<Option<PixelColor>>>,
    w: int,
    h: int,
    sx: int,
    sy: int,
    c: Option<PixelColor>,
    g: Seq<Seq<Option<PixelColor>>>,
    ch: Seq<Change>,
    sp: Seq<(int, int)>,
    e: Change,
    sp2: Seq<(int, int)>,
)
    requires
        fill_inv(g0, w, h, sx, sy, c, g, ch, sp),
        sp.len() > 0,
        inside(w, h, sp.last().0, sp.last().1),
        g[sp.last().1][sp.last().0] == g0[sy][sx],
        e.0 as int == sp.last().0,
        e.1 as int == sp.last().1,
        e.2 == g0[sy][sx],
        sp2.len() >= sp.len() - 1,
        forall|k: int| 0 <= k < sp.len() - 1 ==> sp2[k] == sp[k],
        forall|k: int| sp.len() - 1 <= k < sp2.len() ==> adjacent(sp.last(), #[trigger] sp2[k]),
        forall|r: (int, int)| adjacent(sp.last(), r) && inside(w, h, r.0, r.1) ==> #[trigger] sp2.contains(r),
    ensures
        fill_inv(g0, w, h, sx, sy, c, put(g, sp.last().0, sp.last().1, c), ch.push(e), sp2),
{
    let t = g0[sy][sx];
    let done = change_positions(ch);
    let q = sp.last();
    let ch2 = ch.push(e);
    let done2 = change_positions(ch2);
    let g2 = put(g, q.0, q.1, c);
    assert(g[q.1][q.0] == (if done.contains((q.0, q.1)) { c } else { g0[q.1][q.0] }));
    assert(!done.contains(q));
    assert(g0[q.1][q.0] == t);

    assert forall|p: (int, int)| done2.contains(p) == (done.contains(p) || p == q) by {
        if done2.contains(p) {
            let i = choose|i: int| 0 <= i < ch2.len() && (#[trigger] ch2[i]).0 == p.0 && ch2[i].1 == p.1;
            if i < ch.len() {
                assert(ch[i] == ch2[i]);
            }
        }
        if done.contains(p) {
            let i = choose|i: int| 0 <= i < ch.len() && (#[trigger] ch[i]).0 == p.0 && ch[i].1 == p.1;
            assert(ch2[i] == ch[i]);
        }
        if p == q {
            assert(ch2[ch.len() as int] == e);
        }
    }
    assert(done2 =~= done.insert(q));
    assert(g2 =~~= painted(g0, w, h, done2, c));

    assert forall|i: int| 0 <= i < ch2.len() implies inside(w, h, (#[trigger] ch2[i]).0 as int, ch2[i].1 as int)
            && ch2[i].2 == t && g0[ch2[i].1 as int][ch2[i].0 as int] == t by {
        if i < ch.len() {
            assert(ch2[i] == ch[i]);
        }
    }
    assert forall|i: int, j: int|
        0 <= i < ch2.len() && 0 <= j < ch2.len() && i != j implies !((#[trigger] ch2[i]).0 == (#[trigger] ch2[j]).0 && ch2[i].1 == ch2[j].1) by {
        if i < ch.len() && j < ch.len() {
            assert(ch2[i] == ch[i] && ch2[j] == ch[j]);
        } else if i < ch.len() {
            assert(ch2[i] == ch[i]);
            if ch2[i].0 == ch2[j].0 && ch2[i].1 == ch2[j].1 {
                assert(done.contains(q));
            }
        } else {
            assert(ch2[j] == ch[j]);
            if ch2[i].0 == ch2[j].0 && ch2[i].1 == ch2[j].1 {
                assert(done.contains(q));
            }
        }
    }

    // Soundness: the newly painted position is reached.
    if q == (sx, sy) {
        lemma_reaches_start(g0, w, h, sx, sy);
    } else {
        assert(sp[sp.len() - 1] == q);
        let p = choose|p: (int, int)| done.contains(p) && #[trigger] adjacent(p, sp[sp.len() - 1]);
        lemma_reaches_step(g0, w, h, sx, sy, p, q);
    }
    assert forall|p: (int, int)| #[trigger] done2.contains(p) implies reaches(g0, w, h, sx, sy, p) by {
        if p != q {
            assert(done.contains(p));
        }
    }

    assert forall|k: int| 0 <= k < sp2.len() implies (#[trigger] sp2[k] == (sx, sy)
            || exists|p: (int, int)| done2.contains(p) && #[trigger] adjacent(p, sp2[k])) by {
        if k < sp.len() - 1 {
            assert(sp2[k] == sp[k]);
            if sp[k] != (sx, sy) {
                let p = choose|p: (int, int)| done.contains(p) && #[trigger] adjacent(p, sp[k]);
                assert(done2.contains(p));
            }
        } else {
            assert(adjacent(q, sp2[k]));
            assert(done2.contains(q));
        }
    }

    assert forall|p: (int, int), r: (int, int)|
        #[trigger] done2.contains(p) && #[trigger] adjacent(p, r) && inside(w, h, r.0, r.1) && g0[r.1][r.0] == t
        implies done2.contains(r) || sp2.contains(r) by {
        if p == q {
            assert(sp2.contains(r));
        } else {
            assert(done.contains(p));
            if !done.contains(r) {
                assert(sp.contains(r));
                let k = choose|k: int| 0 <= k < sp.len() && sp[k] == r;
                if k < sp.len() - 1 {
                    assert(sp2[k] == r);
                } else {
                    assert(r == q);
                }
            }
        }
    }
    if !done.contains((sx, sy)) {
        let k = choose|k: int| 0 <= k < sp.len() && sp[k] == (sx, sy);
        if k < sp.len() - 1 {
            assert(sp2[k] == (sx, sy));
        }
    }
}

/// Every cell of a walk from the start lies in a set that holds the start and
/// is closed under stepping to neighbours of the start colour.
pub proof fn lemma_closed_walk(
    g0: Seq<Seq<Option<PixelColor>>>,
    w: int,
    h: int,
    sx: int,
    sy: int,
    done: Set<(int, int)>,
    path: Seq<(int, int)>,
    n: int,
)
    requires
        fill_path(g0, w, h, g0[sy][sx], path),
        path[0] == (sx, sy),
        done.contains((sx, sy)),
        forall|p: (int, int), q: (int, int)|
            #[trigger] done.contains(p) && #[trigger] adjacent(p, q) && inside(w, h, q.0, q.1) && g0[q.1][q.0] == g0[sy][sx]
            ==> done.contains(q),
        0 <= n < path.len(),
    ensures
        done.contains(path[n]),
    decreases n,
{
    if n > 0 {
        lemma_closed_walk(g0, w, h, sx, sy, done, path, n - 1);
        assert(step_ok(path, n - 1));
        assert(done.contains(path[n - 1]));
        assert(inside(w, h, path[n].0, path[n].1));
    }
}

/// When the stack is empty, the painted positions are exactly the reached ones.
pub proof fn lemma_fill_done(
    g0: Seq<Seq<Option<PixelColor>>>,
    w: int,
    h: int,
    sx: int,
    sy: int,
    c: Option<PixelColor>,
    g: Seq<Seq<Option<PixelColor>>>,
    ch: Seq<Change>,
)
    requires
        fill_inv(g0, w, h, sx, sy, c, g, ch, Seq::empty()),
    ensures
        g == filled(g0, w, h, sx, sy, c),
        forall|p: (int, int)| #[trigger] change_positions(ch).contains(p) <==> reaches(g0, w, h, sx, sy, p),
{
    let t = g0[sy][sx];
    let done = change_positions(ch);
    assert(!Seq::<(int, int)>::empty().contains((sx, sy)));
    assert forall|p: (int, int), q: (int, int)|
        #[trigger] done.contains(p) && #[trigger] adjacent(p, q) && inside(w, h, q.0, q.1) && g0[q.1][q.0] == t
        implies done.contains(q) by {
        assert(!Seq::<(int, int)>::empty().contains(q));
    }
    assert forall|p: (int, int)| reaches(g0, w, h, sx, sy, p) implies #[trigger] done.contains(p) by {
        let path = choose|path: Seq<(int, int)>| #[trigger] fill_path(g0, w, h, t, path) && path[0] == (sx, sy) && path.last() == p;
        lemma_closed_walk(g0, w, h, sx, sy, done, path, path.len() - 1);
    }
    assert(g =~~= filled(g0, w, h, sx, sy, c));
}

/// The on-canvas neighbours of `q`, in the order a fill pushes them: left,
/// right, up, down.
pub open spec fn neighbours(q: (int, int), w: int, h: int) -> Seq<(int, int)> {
    (if q.0 > 0 { seq![(q.0 - 1, q.1)] } else { Seq::empty() })
        + (if q.0 + 1 < w { seq![(q.0 + 1, q.1)] } else { Seq::empty() })
        + (if q.1 > 0 { seq![(q.0, q.1 - 1)] } else { Seq::empty() })
        + (if q.1 + 1 < h { seq![(q.0, q.1 + 1)] } else { Seq::empty() })
}

/// One turn of a fill on the state (canvas, stack, changes): pop a position;
/// if it is on the canvas and holds `t`, record it, paint it `c` and push its
/// neighbours.
pub open spec fn fill_turn(
    w: int,
    h: int,
    t: Option<PixelColor>,
    c: Option<PixelColor>,
    s: (Seq<Seq<Option<PixelColor>>>, Seq<(int, int)>, Seq<Change>),
) -> (Seq<Seq<Option<PixelColor>>>, Seq<(int, int)>, Seq<Change>) {
    let q = s.1.last();
    if !inside(w, h, q.0, q.1) || s.0[q.1][q.0] != t {
        (s.0, s.1.drop_last(), s.2)
    } else {
        (put(s.0, q.0, q.1, c), s.1.drop_last() + neighbours(q, w, h), s.2.push((q.0 as usize, q.1 as usize, s.0[q.1][q.0])))
    }
}

/// The changes recorded by at most `fuel` turns from `s`, stopping when the
/// stack is empty.
pub open spec fn fill_run(
    w: int,
    h: int,
    t: Option<PixelColor>,
    c: Option<PixelColor>,
    s: (Seq<Seq<Option<PixelColor>>>, Seq<(int, int)>, Seq<Change>),
    fuel: nat,
) -> Seq<Change>
    decreases fuel,
{
    if s.1.len() == 0 || fuel == 0 {
        s.2
    } else {
        fill_run(w, h, t, c, fill_turn(w, h, t, c, s), (fuel - 1) as nat)
    }
}

/// The changes of a fill from `(sx, sy)`, in the order the fill makes them.
/// Each turn either pops a position without painting, or paints a cell of
/// the start colour (at most as many as there are) and pushes at most four
/// positions, so the budget below is never exhausted while the stack is
/// non-empty.
pub open spec fn fill_order(g: Seq<Seq<Option<PixelColor>>>, w: int, h: int, sx: int, sy: int, c: Option<PixelColor>) -> Seq<Change> {
    fill_run(w, h, g[sy][sx], c, (g, seq![(sx, sy)], Seq::empty()), (5 * grid_count(g, g[sy][sx]) + 1) as nat)
}

} // verus!
