//! The mathematical model of a canvas: a sequence of rows of optional colours,
//! and what drawing and restoring do to it.

use vstd::prelude::*;
use crate::color::PixelColor;

verus! {

/// One recorded pixel write: column, row, and the value that was there before.
pub type Change = (usize, usize, Option<PixelColor>);

/// `g` has `h` rows of `w` cells each.
pub open spec fn shaped(g: Seq<Seq<Option<PixelColor>>>, w: int, h: int) -> bool {
    &&& g.len() == h
    &&& forall|y: int| 0 <= y < h ==> #[trigger] g[y].len() == w
}

/// `(x, y)` lies on a `w` by `h` canvas.
pub open spec fn inside(w: int, h: int, x: int, y: int) -> bool {
    0 <= x < w && 0 <= y < h
}

/// The value read at `(x, y)`: the cell when it is on the `w` by `h` canvas,
/// `None` otherwise.
pub open spec fn cell(g: Seq<Seq<Option<PixelColor>>>, w: int, h: int, x: int, y: int) -> Option<PixelColor> {
    if inside(w, h, x, y) { g[y][x] } else { None }
}

/// `g` with the cell at column `x`, row `y` replaced by `c`.
pub open spec fn put(
    g: Seq<Seq<Option<PixelColor>>>,
    x: int,
    y: int,
    c: Option<PixelColor>,
) -> Seq<Seq<Option<PixelColor>>> {
    g.update(y, g[y].update(x, c))
}

/// `g` after writing `c` at `(x, y)` when that cell is on the `w` by `h`
/// canvas; unchanged otherwise.
pub open spec fn put_checked(
    g: Seq<Seq<Option<PixelColor>>>,
    w: int,
    h: int,
    x: int,
    y: int,
    c: Option<PixelColor>,
) -> Seq<Seq<Option<PixelColor>>> {
    if inside(w, h, x, y) { put(g, x, y, c) } else { g }
}

/// The set of positions that a list of changes names.
pub open spec fn change_positions(ch: Seq<Change>) -> Set<(int, int)> {
    Set::new(|p: (int, int)| exists|i: int| 0 <= i < ch.len() && (#[trigger] ch[i]).0 == p.0 && ch[i].1 == p.1)
}

/// No two changes name the same position.
pub open spec fn distinct_positions(ch: Seq<Change>) -> bool {
    forall|i: int, j: int|
        0 <= i < ch.len() && 0 <= j < ch.len() && i != j ==> !((#[trigger] ch[i]).0 == (#[trigger] ch[j]).0 && ch[i].1 == ch[j].1)
}

/// Writing back the old value of each change, first to last.
pub open spec fn restore(g: Seq<Seq<Option<PixelColor>>>, w: int, h: int, ch: Seq<Change>) -> Seq<Seq<Option<PixelColor>>>
    decreases ch.len(),
{
    if ch.len() == 0 {
        g
    } else {
        let e = ch.last();
        put_checked(restore(g, w, h, ch.drop_last()), w, h, e.0 as int, e.1 as int, e.2)
    }
}

/// How many cells of the row `r` hold `t`.
pub open spec fn row_count(r: Seq<Option<PixelColor>>, t: Option<PixelColor>) -> nat
    decreases r.len(),
{
    if r.len() == 0 {
        0
    } else {
        row_count(r.drop_last(), t) + if r.last() == t { 1nat } else { 0nat }
    }
}

/// How many cells of `g` hold `t`.
pub open spec fn grid_count(g: Seq<Seq<Option<PixelColor>>>, t: Option<PixelColor>) -> nat
    decreases g.len(),
{
    if g.len() == 0 {
        0
    } else {
        grid_count(g.drop_last(), t) + row_count(g.last(), t)
    }
}

pub proof fn lemma_row_count_update(r: Seq<Option<PixelColor>>, i: int, c: Option<PixelColor>, t: Option<PixelColor>)
    requires
        0 <= i < r.len(),
    ensures
        row_count(r.update(i, c), t) + (if r[i] == t { 1int } else { 0int })
            == row_count(r, t) + (if c == t { 1int } else { 0int }),
    decreases r.len(),
{
    let r2 = r.update(i, c);
    if i == r.len() - 1 {
        assert(r2.drop_last() =~= r.drop_last());
    } else {
        assert(r2.drop_last() =~= r.drop_last().update(i, c));
        lemma_row_count_update(r.drop_last(), i, c, t);
    }
}

pub proof fn lemma_grid_count_update(g: Seq<Seq<Option<PixelColor>>>, y: int, r: Seq<Option<PixelColor>>, t: Option<PixelColor>)
    requires
        0 <= y < g.len(),
    ensures
        grid_count(g.update(y, r), t) + row_count(g[y], t) == grid_count(g, t) + row_count(r, t),
    decreases g.len(),
{
    let g2 = g.update(y, r);
    if y == g.len() - 1 {
        assert(g2.drop_last() =~= g.drop_last());
    } else {
        assert(g2.drop_last() =~= g.drop_last().update(y, r));
        lemma_grid_count_update(g.drop_last(), y, r, t);
    }
}

/// Overwriting a cell that holds `t` with something else lowers the count of
/// `t` by one.
pub proof fn lemma_grid_count_put(g: Seq<Seq<Option<PixelColor>>>, x: int, y: int, c: Option<PixelColor>, t: Option<PixelColor>)
    requires
        0 <= y < g.len(),
        0 <= x < g[y].len(),
        g[y][x] == t,
        c != t,
    ensures
        grid_count(put(g, x, y, c), t) + 1 == grid_count(g, t),
{
    lemma_row_count_update(g[y], x, c, t);
    lemma_grid_count_update(g, y, g[y].update(x, c), t);
}

/// `g` after writing `c` at each of `pts` in turn, skipping positions off the
/// `w` by `h` canvas.
pub open spec fn paint_all(
    g: Seq<Seq<Option<PixelColor>>>,
    w: int,
    h: int,
    pts: Seq<(int, int)>,
    c: Option<PixelColor>,
) -> Seq<Seq<Option<PixelColor>>>
    decreases pts.len(),
{
    if pts.len() == 0 {
        g
    } else {
        let p = pts.last();
        put_checked(paint_all(g, w, h, pts.drop_last(), c), w, h, p.0, p.1, c)
    }
}

/// The record of those writes: for each on-canvas position of `pts`, in
/// order, the position and the value it held just before it was written.
pub open spec fn paint_log(
    g: Seq<Seq<Option<PixelColor>>>,
    w: int,
    h: int,
    pts: Seq<(int, int)>,
    c: Option<PixelColor>,
) -> Seq<Change>
    decreases pts.len(),
{
    if pts.len() == 0 {
        Seq::empty()
    } else {
        let p = pts.last();
        let before = paint_all(g, w, h, pts.drop_last(), c);
        let log = paint_log(g, w, h, pts.drop_last(), c);
        if inside(w, h, p.0, p.1) {
            log.push((p.0 as usize, p.1 as usize, before[p.1][p.0]))
        } else {
            log
        }
    }
}

pub proof fn lemma_put_shaped(g: Seq<Seq<Option<PixelColor>>>, w: int, h: int, x: int, y: int, c: Option<PixelColor>)
    requires
        shaped(g, w, h),
        inside(w, h, x, y),
    ensures
        shaped(put(g, x, y, c), w, h),
{
    assert forall|r: int| 0 <= r < h implies #[trigger] put(g, x, y, c)[r].len() == w by {
        assert(g[r].len() == w);
    }
}

pub proof fn lemma_paint_all_shaped(g: Seq<Seq<Option<PixelColor>>>, w: int, h: int, pts: Seq<(int, int)>, c: Option<PixelColor>)
    requires
        shaped(g, w, h),
    ensures
        shaped(paint_all(g, w, h, pts, c), w, h),
    decreases pts.len(),
{
    if pts.len() > 0 {
        lemma_paint_all_shaped(g, w, h, pts.drop_last(), c);
        let p = pts.last();
        if inside(w, h, p.0, p.1) {
            lemma_put_shaped(paint_all(g, w, h, pts.drop_last(), c), w, h, p.0, p.1, c);
        }
    }
}

/// Restoring changes with distinct positions writes each change's old value
/// at its position and leaves every other cell as it was.
pub proof fn lemma_restore_pointwise(g: Seq<Seq<Option<PixelColor>>>, w: int, h: int, ch: Seq<Change>)
    requires
        shaped(g, w, h),
        distinct_positions(ch),
    ensures
        shaped(restore(g, w, h, ch), w, h),
        forall|i: int| 0 <= i < ch.len() && inside(w, h, (#[trigger] ch[i]).0 as int, ch[i].1 as int)
            ==> restore(g, w, h, ch)[ch[i].1 as int][ch[i].0 as int] == ch[i].2,
        forall|x: int, y: int| inside(w, h, x, y) && !change_positions(ch).contains((x, y))
            ==> #[trigger] restore(g, w, h, ch)[y][x] == g[y][x],
    decreases ch.len(),
{
    if ch.len() > 0 {
        let ch0 = ch.drop_last();
        let e = ch.last();
        assert forall|i: int, j: int|
            0 <= i < ch0.len() && 0 <= j < ch0.len() && i != j implies !((#[trigger] ch0[i]).0 == (#[trigger] ch0[j]).0 && ch0[i].1 == ch0[j].1) by {
            assert(ch0[i] == ch[i] && ch0[j] == ch[j]);
        }
        lemma_restore_pointwise(g, w, h, ch0);
        let r0 = restore(g, w, h, ch0);
        let r = restore(g, w, h, ch);
        assert(r == put_checked(r0, w, h, e.0 as int, e.1 as int, e.2));
        if inside(w, h, e.0 as int, e.1 as int) {
            lemma_put_shaped(r0, w, h, e.0 as int, e.1 as int, e.2);
        }
        assert forall|i: int| 0 <= i < ch.len() && inside(w, h, (#[trigger] ch[i]).0 as int, ch[i].1 as int)
            implies r[ch[i].1 as int][ch[i].0 as int] == ch[i].2 by {
            if i < ch.len() - 1 {
                assert(ch0[i] == ch[i]);
                assert(!(ch[i].0 == ch[ch.len() - 1].0 && ch[i].1 == ch[ch.len() - 1].1));
            }
        }
        assert forall|x: int, y: int| inside(w, h, x, y) && !change_positions(ch).contains((x, y))
            implies #[trigger] r[y][x] == g[y][x] by {
            if change_positions(ch0).contains((x, y)) {
                let i = choose|i: int| 0 <= i < ch0.len() && (#[trigger] ch0[i]).0 == x && ch0[i].1 == y;
                assert(ch[i] == ch0[i]);
            }
            assert(!(e.0 == x && e.1 == y)) by {
                if e.0 == x && e.1 == y {
                    assert(ch[ch.len() - 1] == e);
                }
            }
        }
    }
}

/// Painting a list of distinct positions: each on-canvas position of the list
/// gets `c`, every other cell keeps its value, and the log names each
/// on-canvas position once, with the value it held in `g`.
pub proof fn lemma_paint_pointwise(
    g: Seq<Seq<Option<PixelColor>>>,
    w: int,
    h: int,
    pts: Seq<(int, int)>,
    c: Option<PixelColor>,
)
    requires
        shaped(g, w, h),
        w <= usize::MAX + 1,
        h <= usize::MAX + 1,
        pts.no_duplicates(),
    ensures
        forall|x: int, y: int| inside(w, h, x, y)
            ==> #[trigger] paint_all(g, w, h, pts, c)[y][x] == if pts.contains((x, y)) { c } else { g[y][x] },
        forall|p: (int, int)| #[trigger] change_positions(paint_log(g, w, h, pts, c)).contains(p)
            <==> (inside(w, h, p.0, p.1) && pts.contains(p)),
        distinct_positions(paint_log(g, w, h, pts, c)),
        forall|i: int| 0 <= i < paint_log(g, w, h, pts, c).len() ==> {
            let e = #[trigger] paint_log(g, w, h, pts, c)[i];
            inside(w, h, e.0 as int, e.1 as int) && e.2 == g[e.1 as int][e.0 as int]
        },
    decreases pts.len(),
{
    if pts.len() > 0 {
        let p0 = pts.drop_last();
        let p = pts.last();
        assert forall|i: int, j: int| 0 <= i < p0.len() && 0 <= j < p0.len() && i != j implies p0[i] != p0[j] by {
            assert(p0[i] == pts[i] && p0[j] == pts[j]);
        }
        lemma_paint_pointwise(g, w, h, p0, c);
        lemma_paint_all_shaped(g, w, h, p0, c);
        let a0 = paint_all(g, w, h, p0, c);
        let l0 = paint_log(g, w, h, p0, c);
        let a = paint_all(g, w, h, pts, c);
        let l = paint_log(g, w, h, pts, c);
        assert(!p0.contains(p)) by {
            if p0.contains(p) {
                let k = choose|k: int| 0 <= k < p0.len() && p0[k] == p;
                assert(pts[k] == pts[pts.len() - 1]);
            }
        }
        assert forall|q: (int, int)| pts.contains(q) == (p0.contains(q) || q == p) by {
            if pts.contains(q) && q != p {
                let k = choose|k: int| 0 <= k < pts.len() && pts[k] == q;
                assert(p0[k] == q);
            }
            if p0.contains(q) {
                let k = choose|k: int| 0 <= k < p0.len() && p0[k] == q;
                assert(pts[k] == q);
            }
            if q == p {
                assert(pts[pts.len() - 1] == q);
            }
        }
        assert forall|x: int, y: int| inside(w, h, x, y)
            implies #[trigger] a[y][x] == if pts.contains((x, y)) { c } else { g[y][x] } by {
            assert(a0[y][x] == if p0.contains((x, y)) { c } else { g[y][x] });
        }
        if inside(w, h, p.0, p.1) {
            let e = (p.0 as usize, p.1 as usize, a0[p.1][p.0]);
            assert(l == l0.push(e));
            assert(a0[p.1][p.0] == g[p.1][p.0]);
            assert forall|q: (int, int)| #[trigger] change_positions(l).contains(q)
                <==> (inside(w, h, q.0, q.1) && pts.contains(q)) by {
                if change_positions(l).contains(q) {
                    let i = choose|i: int| 0 <= i < l.len() && (#[trigger] l[i]).0 == q.0 && l[i].1 == q.1;
                    if i < l0.len() {
                        assert(l[i] == l0[i]);
                        assert(change_positions(l0).contains(q));
                    }
                }
                if inside(w, h, q.0, q.1) && pts.contains(q) {
                    if q == p {
                        assert(l[l0.len() as int] == e);
                    } else {
                        assert(change_positions(l0).contains(q));
                        let i = choose|i: int| 0 <= i < l0.len() && (#[trigger] l0[i]).0 == q.0 && l0[i].1 == q.1;
                        assert(l[i] == l0[i]);
                    }
                }
            }
            assert forall|i: int, j: int|
                0 <= i < l.len() && 0 <= j < l.len() && i != j implies !((#[trigger] l[i]).0 == (#[trigger] l[j]).0 && l[i].1 == l[j].1) by {
                if i < l0.len() && j < l0.len() {
                    assert(l[i] == l0[i] && l[j] == l0[j]);
                } else if i < l0.len() {
                    assert(l[i] == l0[i]);
                    if l[i].0 == l[j].0 && l[i].1 == l[j].1 {
                        assert(change_positions(l0).contains(p));
                    }
                } else {
                    assert(l[j] == l0[j]);
                    if l[i].0 == l[j].0 && l[i].1 == l[j].1 {
                        assert(change_positions(l0).contains(p));
                    }
                }
            }
            assert forall|i: int| 0 <= i < l.len() implies {
                let e = #[trigger] l[i];
                inside(w, h, e.0 as int, e.1 as int) && e.2 == g[e.1 as int][e.0 as int]
            } by {
                if i < l0.len() {
                    assert(l[i] == l0[i]);
                }
            }
        } else {
            assert(l == l0);
            assert forall|q: (int, int)| #[trigger] change_positions(l).contains(q)
                <==> (inside(w, h, q.0, q.1) && pts.contains(q)) by {
                assert(change_positions(l0).contains(q) <==> (inside(w, h, q.0, q.1) && p0.contains(q)));
            }
        }
    }
}

/// Writing back the log of a painting of distinct positions gives back the
/// canvas as it was before.
pub proof fn lemma_paint_then_restore(
    g: Seq<Seq<Option<PixelColor>>>,
    w: int,
    h: int,
    pts: Seq<(int, int)>,
    c: Option<PixelColor>,
)
    requires
        shaped(g, w, h),
        w <= usize::MAX + 1,
        h <= usize::MAX + 1,
        pts.no_duplicates(),
    ensures
        restore(paint_all(g, w, h, pts, c), w, h, paint_log(g, w, h, pts, c)) == g,
{
    let a = paint_all(g, w, h, pts, c);
    let l = paint_log(g, w, h, pts, c);
    lemma_paint_pointwise(g, w, h, pts, c);
    lemma_paint_all_shaped(g, w, h, pts, c);
    lemma_restore_pointwise(a, w, h, l);
    let r = restore(a, w, h, l);
    assert forall|y: int| 0 <= y < h implies #[trigger] r[y] =~= g[y] by {
        assert forall|x: int| 0 <= x < w implies r[y][x] == g[y][x] by {
            if change_positions(l).contains((x, y)) {
                let i = choose|i: int| 0 <= i < l.len() && (#[trigger] l[i]).0 == x && l[i].1 == y;
                assert(r[l[i].1 as int][l[i].0 as int] == l[i].2);
            } else {
                assert(a[y][x] == g[y][x]);
            }
        }
    }
    assert(r =~= g);
}

} // verus!
