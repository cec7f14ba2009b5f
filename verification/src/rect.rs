//! The cells of a rectangle, in the order `Canvas::draw_rect` visits them.

use vstd::prelude::*;

verus! {

pub open spec fn min_int(a: int, b: int) -> int {
    if a <= b { a } else { b }
}

pub open spec fn max_int(a: int, b: int) -> int {
    if a <= b { b } else { a }
}

/// The rectangle spanned by its corners, as `(min_x, min_y, max_x, max_y)`.
pub open spec fn span(x0: int, y0: int, x1: int, y1: int) -> (int, int, int, int) {
    (min_int(x0, x1), min_int(y0, y1), max_int(x0, x1), max_int(y0, y1))
}

/// `(x, y)` lies on the border of the rectangle `r`.
pub open spec fn on_border(r: (int, int, int, int), x: int, y: int) -> bool {
    x == r.0 || x == r.2 || y == r.1 || y == r.3
}

/// The drawn cells among the first `n` cells of row `y` of `r`, left to right:
/// all of them when `filled`, otherwise those on the border.
pub open spec fn rect_row(r: (int, int, int, int), filled: bool, y: int, n: nat) -> Seq<(int, int)>
    decreases n,
{
    if n == 0 {
        Seq::empty()
    } else {
        let x = r.0 + n - 1;
        let before = rect_row(r, filled, y, (n - 1) as nat);
        if filled || on_border(r, x, y) { before.push((x, y)) } else { before }
    }
}

/// The drawn cells of the first `rows` rows of `r`, top to bottom.
pub open spec fn rect_rows(r: (int, int, int, int), filled: bool, rows: nat) -> Seq<(int, int)>
    decreases rows,
{
    if rows == 0 {
        Seq::empty()
    } else {
        rect_rows(r, filled, (rows - 1) as nat) + rect_row(r, filled, r.1 + rows - 1, (r.2 - r.0 + 1) as nat)
    }
}

/// The drawn cells of the rectangle with corners `(x0, y0)` and `(x1, y1)`,
/// row by row from the top, each row from the left.
pub open spec fn rect_points(x0: int, y0: int, x1: int, y1: int, filled: bool) -> Seq<(int, int)> {
    let r = span(x0, y0, x1, y1);
    rect_rows(r, filled, (r.3 - r.1 + 1) as nat)
}

/// A row's cells lie in that row, left to right, without repeats.
pub proof fn lemma_rect_row_order(r: (int, int, int, int), filled: bool, y: int, n: nat)
    ensures
        forall|k: int| 0 <= k < rect_row(r, filled, y, n).len()
            ==> (#[trigger] rect_row(r, filled, y, n)[k]).1 == y && r.0 <= rect_row(r, filled, y, n)[k].0 < r.0 + n,
        forall|i: int, j: int| 0 <= i < j < rect_row(r, filled, y, n).len()
            ==> (#[trigger] rect_row(r, filled, y, n)[i]).0 < (#[trigger] rect_row(r, filled, y, n)[j]).0,
    decreases n,
{
    if n > 0 {
        lemma_rect_row_order(r, filled, y, (n - 1) as nat);
        let t = rect_row(r, filled, y, n);
        let a = rect_row(r, filled, y, (n - 1) as nat);
        let x = r.0 + n - 1;
        if filled || on_border(r, x, y) {
            assert(t == a.push((x, y)));
            assert forall|k: int| 0 <= k < t.len() implies (#[trigger] t[k]).1 == y && r.0 <= t[k].0 < r.0 + n by {
                if k < a.len() {
                    assert(t[k] == a[k]);
                }
            }
            assert forall|i: int, j: int| 0 <= i < j < t.len() implies (#[trigger] t[i]).0 < (#[trigger] t[j]).0 by {
                assert(t[i] == a[i]);
                if j < a.len() {
                    assert(t[j] == a[j]);
                }
            }
        } else {
            assert(t == a);
        }
    }
}

/// The cells of the first rows come row by row from the top, each row left to
/// right, so no cell comes twice.
pub proof fn lemma_rect_rows_order(r: (int, int, int, int), filled: bool, rows: nat)
    ensures
        forall|k: int| 0 <= k < rect_rows(r, filled, rows).len()
            ==> r.1 <= (#[trigger] rect_rows(r, filled, rows)[k]).1 < r.1 + rows,
        forall|i: int, j: int| 0 <= i < j < rect_rows(r, filled, rows).len()
            ==> (#[trigger] rect_rows(r, filled, rows)[i]).1 < (#[trigger] rect_rows(r, filled, rows)[j]).1
                || (rect_rows(r, filled, rows)[i].1 == rect_rows(r, filled, rows)[j].1
                    && rect_rows(r, filled, rows)[i].0 < rect_rows(r, filled, rows)[j].0),
        rect_rows(r, filled, rows).no_duplicates(),
    decreases rows,
{
    let t = rect_rows(r, filled, rows);
    if rows > 0 {
        let a = rect_rows(r, filled, (rows - 1) as nat);
        let b = rect_row(r, filled, r.1 + rows - 1, (r.2 - r.0 + 1) as nat);
        lemma_rect_rows_order(r, filled, (rows - 1) as nat);
        lemma_rect_row_order(r, filled, r.1 + rows - 1, (r.2 - r.0 + 1) as nat);
        assert(t == a + b);
        assert forall|k: int| 0 <= k < t.len() implies r.1 <= (#[trigger] t[k]).1 < r.1 + rows by {
            if k < a.len() {
                assert(t[k] == a[k]);
            } else {
                assert(t[k] == b[k - a.len()]);
            }
        }
        assert forall|i: int, j: int| 0 <= i < j < t.len()
            implies (#[trigger] t[i]).1 < (#[trigger] t[j]).1 || (t[i].1 == t[j].1 && t[i].0 < t[j].0) by {
            if j < a.len() {
                assert(t[i] == a[i] && t[j] == a[j]);
            } else if i < a.len() {
                assert(t[i] == a[i] && t[j] == b[j - a.len()]);
            } else {
                assert(t[i] == b[i - a.len()] && t[j] == b[j - a.len()]);
            }
        }
    }
    assert forall|i: int, j: int| 0 <= i < t.len() && 0 <= j < t.len() && i != j implies t[i] != t[j] by {
        if i < j {
            assert(t[i].1 < t[j].1 || (t[i].1 == t[j].1 && t[i].0 < t[j].0));
        } else {
            assert(t[j].1 < t[i].1 || (t[j].1 == t[i].1 && t[j].0 < t[i].0));
        }
    }
}

/// Which cells the first `n` columns of row `y` hold.
pub proof fn lemma_rect_row_members(r: (int, int, int, int), filled: bool, y: int, n: nat, p: (int, int))
    ensures
        rect_row(r, filled, y, n).contains(p)
            <==> (p.1 == y && r.0 <= p.0 < r.0 + n && (filled || on_border(r, p.0, p.1))),
    decreases n,
{
    if n > 0 {
        lemma_rect_row_members(r, filled, y, (n - 1) as nat, p);
        let t = rect_row(r, filled, y, n);
        let a = rect_row(r, filled, y, (n - 1) as nat);
        let x = r.0 + n - 1;
        if filled || on_border(r, x, y) {
            assert(t == a.push((x, y)));
            if a.contains(p) {
                let k = choose|k: int| 0 <= k < a.len() && a[k] == p;
                assert(t[k] == p);
            }
            if p == (x, y) {
                assert(t[a.len() as int] == p);
            }
            if t.contains(p) && p != (x, y) {
                let k = choose|k: int| 0 <= k < t.len() && t[k] == p;
                assert(a[k] == p);
            }
        } else {
            assert(t == a);
        }
    }
}

/// Which cells the first `rows` rows hold.
pub proof fn lemma_rect_rows_members(r: (int, int, int, int), filled: bool, rows: nat, p: (int, int))
    requires
        r.0 <= r.2,
    ensures
        rect_rows(r, filled, rows).contains(p)
            <==> (r.1 <= p.1 < r.1 + rows && r.0 <= p.0 < r.0 + (r.2 - r.0 + 1) && (filled || on_border(r, p.0, p.1))),
    decreases rows,
{
    if rows > 0 {
        let a = rect_rows(r, filled, (rows - 1) as nat);
        let y = r.1 + rows - 1;
        let b = rect_row(r, filled, y, (r.2 - r.0 + 1) as nat);
        let t = rect_rows(r, filled, rows);
        lemma_rect_rows_members(r, filled, (rows - 1) as nat, p);
        lemma_rect_row_members(r, filled, y, (r.2 - r.0 + 1) as nat, p);
        assert(t == a + b);
        if a.contains(p) {
            let k = choose|k: int| 0 <= k < a.len() && a[k] == p;
            assert(t[k] == p);
        }
        if b.contains(p) {
            let k = choose|k: int| 0 <= k < b.len() && b[k] == p;
            assert(t[a.len() + k] == p);
        }
        if t.contains(p) {
            let k = choose|k: int| 0 <= k < t.len() && t[k] == p;
            if k < a.len() {
                assert(a[k] == p);
            } else {
                assert(b[k - a.len()] == p);
            }
        }
    }
}

} // verus!
