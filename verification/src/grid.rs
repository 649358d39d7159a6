use vstd::prelude::*;
use vstd::arithmetic::div_mod::{
    lemma_fundamental_div_mod, lemma_mod_bound, lemma_div_is_ordered, lemma_div_pos_is_pos,
    lemma_div_nonincreasing,
};

verus! {

/// A rectangle on the render surface, in cells or pixels.
#[derive(Clone, Copy, PartialEq, Eq, Structural, Debug)]
pub struct Rect {
    pub x: u16,
    pub y: u16,
    pub width: u16,
    pub height: u16,
}

impl Rect {
    /// Both far corners still fit the coordinate type.
    pub open spec fn wf(self) -> bool {
        self.x + self.width <= 65535 && self.y + self.height <= 65535
    }
}

/// `rc` lies within `outer`.
pub open spec fn rect_in(rc: Rect, outer: Rect) -> bool {
    &&& outer.x <= rc.x
    &&& rc.x + rc.width <= outer.x + outer.width
    &&& outer.y <= rc.y
    &&& rc.y + rc.height <= outer.y + outer.height
}

/// The point `(px, py)` lies within `rc`.
pub open spec fn rect_covers(rc: Rect, px: int, py: int) -> bool {
    rc.x <= px < rc.x + rc.width && rc.y <= py < rc.y + rc.height
}

/// No point lies within both rectangles.
pub open spec fn rects_disjoint(a: Rect, b: Rect) -> bool {
    forall|px: int, py: int|
        !(#[trigger] rect_covers(a, px, py) && #[trigger] rect_covers(b, px, py))
}

/// The least square at or above `n`, searched upward from `c`.
pub open spec fn csqrt_from(n: nat, c: nat) -> nat
    decreases (if c * c < n {
        n - c * c
    } else {
        0
    })
        via csqrt_from_decreases
{
    if c * c >= n {
        c
    } else {
        csqrt_from(n, (c + 1) as nat)
    }
}

#[via_fn]
proof fn csqrt_from_decreases(n: nat, c: nat) {
    if c * c < n {
        assert(c * c < (c + 1) * (c + 1)) by (nonlinear_arith);
    }
}

/// The ceiling of the square root of `n`.
pub open spec fn ceil_sqrt(n: nat) -> nat {
    csqrt_from(n, 0)
}

proof fn lemma_csqrt_from(n: nat, c: nat)
    requires
        c == 0 || (c - 1) * (c - 1) < n,
    ensures
        csqrt_from(n, c) * csqrt_from(n, c) >= n,
        csqrt_from(n, c) >= c,
        csqrt_from(n, c) == 0 || (csqrt_from(n, c) - 1) * (csqrt_from(n, c) - 1) < n,
    decreases (if c * c < n {
        n - c * c
    } else {
        0
    }),
{
    if c * c >= n {
    } else {
        assert(c * c < (c + 1) * (c + 1)) by (nonlinear_arith);
        lemma_csqrt_from(n, (c + 1) as nat);
    }
}

/// `ceil_sqrt(n)` is the least value whose square reaches `n`.
pub proof fn lemma_ceil_sqrt(n: nat)
    ensures
        ceil_sqrt(n) * ceil_sqrt(n) >= n,
        ceil_sqrt(n) == 0 || (ceil_sqrt(n) - 1) * (ceil_sqrt(n) - 1) < n,
        n >= 1 ==> ceil_sqrt(n) >= 1,
{
    lemma_csqrt_from(n, 0);
}

pub fn ceil_sqrt_exec(n: usize) -> (r: usize)
    ensures
        r as nat == ceil_sqrt(n as nat),
{
    let mut c: usize = 0;
    loop
        invariant
            0 <= c <= n,
            c == 0 || (c - 1) * (c - 1) < n,
            csqrt_from(n as nat, c as nat) == ceil_sqrt(n as nat),
        decreases n - c,
    {
        let grow = if n == 0 {
            false
        } else if c == 0 {
            true
        } else {
            c <= (n - 1) / c
        };
        proof {
            if c >= 1 && n >= 1 {
                lemma_fundamental_div_mod(n as int - 1, c as int);
                lemma_mod_bound(n as int - 1, c as int);
                assert((c as int <= (n as int - 1) / (c as int)) == ((c as int) * (c as int) < n
                    as int)) by (nonlinear_arith)
                    requires
                        n as int >= 1,
                        c as int >= 1,
                        n as int - 1 == (c as int) * ((n as int - 1) / (c as int)) + (n as int - 1)
                            % (c as int),
                        0 <= (n as int - 1) % (c as int) < c as int,
                ;
            }
            assert(grow == (c * c < n));
        }
        if !grow {
            return c;
        }
        proof {
            if c >= 1 {
                assert(c <= c * c) by (nonlinear_arith)
                    requires
                        c >= 1,
                ;
            }
        }
        c = c + 1;
    }
}

/// Number of grid columns for `n` clocks: the ceiling of the square root.
pub open spec fn grid_cols(n: nat) -> nat {
    ceil_sqrt(n)
}

/// Number of grid rows for `n` clocks: the ceiling of `n / cols`.
pub open spec fn grid_rows(n: nat) -> nat {
    ((n - 1) / (grid_cols(n) as int) + 1) as nat
}

/// Width of every cell but the last in a band; the last absorbs the remainder.
pub open spec fn cell_width(canvas: Rect, n: nat) -> int {
    (canvas.width as int) / (grid_cols(n) as int)
}

/// Height of every band but the last; the last absorbs the remainder.
pub open spec fn band_height(canvas: Rect, n: nat) -> int {
    (canvas.height as int) / (grid_rows(n) as int)
}

/// The rectangle of clock `i` in an `n`-clock grid over `canvas`: clock `i`
/// sits in band `i / cols`, cell `i % cols`; the last cell of a band and the
/// last band absorb the division remainders.
pub open spec fn grid_rect_matches(rc: Rect, i: int, n: nat, canvas: Rect) -> bool {
    let cols = grid_cols(n) as int;
    let rows = grid_rows(n) as int;
    let cw = cell_width(canvas, n);
    let bh = band_height(canvas, n);
    let row = i / cols;
    let col = i % cols;
    &&& rc.x == canvas.x + col * cw
    &&& rc.y == canvas.y + row * bh
    &&& rc.width == if col == cols - 1 {
        canvas.width - (cols - 1) * cw
    } else {
        cw
    }
    &&& rc.height == if row == rows - 1 {
        canvas.height - (rows - 1) * bh
    } else {
        bh
    }
}

/// Lay `count` clocks out on `canvas` as a near-square grid, one rectangle per
/// clock, in clock order.
pub fn compute_grid(count: usize, canvas: Rect) -> (r: Vec<Rect>)
    requires
        canvas.wf(),
    ensures
        r@.len() == count,
        forall|i: int|
            0 <= i < count ==> grid_rect_matches(#[trigger] r@[i], i, count as nat, canvas),
        forall|i: int| 0 <= i < count ==> rect_in(#[trigger] r@[i], canvas),
        forall|i: int, j: int|
            0 <= i < count && 0 <= j < count && i != j ==> rects_disjoint(
                #[trigger] r@[i],
                #[trigger] r@[j],
            ),
{
    let mut rects: Vec<Rect> = Vec::new();
    if count == 0 {
        return rects;
    }
    let cols = ceil_sqrt_exec(count);
    proof {
        lemma_ceil_sqrt(count as nat);
    }
    let rows = (count - 1) / cols + 1;
    let cw = (canvas.width as usize) / cols;
    let bh = (canvas.height as usize) / rows;
    proof {
        lemma_fundamental_div_mod(canvas.width as int, cols as int);
        lemma_mod_bound(canvas.width as int, cols as int);
        assert(cols * cw <= canvas.width);
        lemma_fundamental_div_mod(canvas.height as int, rows as int);
        lemma_mod_bound(canvas.height as int, rows as int);
        assert(rows * bh <= canvas.height);
        lemma_div_nonincreasing(canvas.width as int, cols as int);
        lemma_div_nonincreasing(canvas.height as int, rows as int);
    }
    let mut i: usize = 0;
    while i < count
        invariant
            0 <= i <= count,
            count >= 1,
            canvas.wf(),
            cols as nat == grid_cols(count as nat),
            cols >= 1,
            rows as int == grid_rows(count as nat),
            rows >= 1,
            cw as int == cell_width(canvas, count as nat),
            bh as int == band_height(canvas, count as nat),
            cols * cw <= canvas.width,
            rows * bh <= canvas.height,
            cw <= canvas.width,
            bh <= canvas.height,
            rects@.len() == i,
            forall|k: int|
                0 <= k < i ==> grid_rect_matches(#[trigger] rects@[k], k, count as nat, canvas),
        decreases count - i,
    {
        let row = i / cols;
        let col = i % cols;
        proof {
            lemma_mod_bound(i as int, cols as int);
            lemma_div_pos_is_pos(i as int, cols as int);
            lemma_div_is_ordered(i as int, count as int - 1, cols as int);
            assert((count as int - 1) / (cols as int) == rows - 1);
            assert(col as int * cw as int <= (cols as int - 1) * cw as int) by (nonlinear_arith)
                requires
                    col as int <= cols as int - 1,
                    cw as int >= 0,
            ;
            assert((cols as int - 1) * cw as int == cols as int * cw as int - cw as int)
                by (nonlinear_arith);
            assert(row as int * bh as int <= (rows as int - 1) * bh as int) by (nonlinear_arith)
                requires
                    row as int <= rows as int - 1,
                    bh as int >= 0,
            ;
            assert((rows as int - 1) * bh as int == rows as int * bh as int - bh as int)
                by (nonlinear_arith);
        }
        let xoff = col * cw;
        let yoff = row * bh;
        let x = canvas.x + (xoff as u16);
        let y = canvas.y + (yoff as u16);
        let w: u16 = if col == cols - 1 {
            canvas.width - (((cols - 1) * cw) as u16)
        } else {
            cw as u16
        };
        let h: u16 = if row == rows - 1 {
            canvas.height - (((rows - 1) * bh) as u16)
        } else {
            bh as u16
        };
        let rc = Rect { x, y, width: w, height: h };
        rects.push(rc);
        proof {
            assert(grid_rect_matches(rc, i as int, count as nat, canvas));
        }
        i = i + 1;
    }
    proof {
        lemma_grid_properties(rects@, count as nat, canvas);
    }
    rects
}

/// The grid is near-square and has no fully empty row: `cols * rows` reaches
/// `n`, and one band fewer would not.
pub proof fn lemma_grid_shape(n: nat)
    requires
        n >= 1,
    ensures
        grid_cols(n) >= 1,
        grid_rows(n) >= 1,
        grid_cols(n) * grid_rows(n) >= n,
        grid_cols(n) * (grid_rows(n) - 1) < n,
{
    lemma_ceil_sqrt(n);
    let c = grid_cols(n) as int;
    let r = grid_rows(n) as int;
    assert(c >= 1);
    let q = (n as int - 1) / c;
    lemma_fundamental_div_mod(n as int - 1, c);
    lemma_mod_bound(n as int - 1, c);
    lemma_div_pos_is_pos(n as int - 1, c);
    assert(r == q + 1);
    assert(c * q <= n - 1);
    assert(c * r == c * q + c) by (nonlinear_arith)
        requires
            r == q + 1,
    ;
    assert(c * r >= n);
    assert(c * (r - 1) == c * q);
}

/// Every grid rectangle lies within the canvas.
pub proof fn lemma_grid_rect_in_canvas(rc: Rect, i: int, n: nat, canvas: Rect)
    requires
        canvas.wf(),
        n >= 1,
        0 <= i < n,
        grid_rect_matches(rc, i, n, canvas),
    ensures
        rect_in(rc, canvas),
{
    lemma_grid_shape(n);
    let cols = grid_cols(n) as int;
    let rows = grid_rows(n) as int;
    let cw = cell_width(canvas, n);
    let bh = band_height(canvas, n);
    let row = i / cols;
    let col = i % cols;
    lemma_mod_bound(i, cols);
    lemma_div_pos_is_pos(i, cols);
    lemma_div_is_ordered(i, n as int - 1, cols);
    assert((n as int - 1) / cols == rows - 1);
    lemma_fundamental_div_mod(canvas.width as int, cols);
    lemma_mod_bound(canvas.width as int, cols);
    assert(cols * cw <= canvas.width);
    lemma_fundamental_div_mod(canvas.height as int, rows);
    lemma_mod_bound(canvas.height as int, rows);
    assert(rows * bh <= canvas.height);
    lemma_div_pos_is_pos(canvas.width as int, cols);
    lemma_div_pos_is_pos(canvas.height as int, rows);
    assert(col * cw >= 0) by (nonlinear_arith)
        requires
            col >= 0,
            cw >= 0,
    ;
    assert(row * bh >= 0) by (nonlinear_arith)
        requires
            row >= 0,
            bh >= 0,
    ;
    if col == cols - 1 {
        assert(rc.x + rc.width <= canvas.x + canvas.width);
    } else {
        assert((col + 1) * cw <= cols * cw) by (nonlinear_arith)
            requires
                col + 1 <= cols,
                cw >= 0,
        ;
        assert(col * cw + cw == (col + 1) * cw) by (nonlinear_arith);
        assert(rc.x + rc.width <= canvas.x + canvas.width);
    }
    if row == rows - 1 {
        assert(rc.y + rc.height <= canvas.y + canvas.height);
    } else {
        assert((row + 1) * bh <= rows * bh) by (nonlinear_arith)
            requires
                row + 1 <= rows,
                bh >= 0,
        ;
        assert(row * bh + bh == (row + 1) * bh) by (nonlinear_arith);
        assert(rc.y + rc.height <= canvas.y + canvas.height);
    }
}

/// Two distinct clock indices receive rectangles with no point in common.
pub proof fn lemma_grid_rects_disjoint(a: Rect, b: Rect, i: int, j: int, n: nat, canvas: Rect)
    requires
        canvas.wf(),
        n >= 1,
        0 <= i < n,
        0 <= j < n,
        i != j,
        grid_rect_matches(a, i, n, canvas),
        grid_rect_matches(b, j, n, canvas),
    ensures
        rects_disjoint(a, b),
{
    lemma_grid_shape(n);
    let cols = grid_cols(n) as int;
    let rows = grid_rows(n) as int;
    let cw = cell_width(canvas, n);
    let bh = band_height(canvas, n);
    let ri = i / cols;
    let ci = i % cols;
    let rj = j / cols;
    let cj = j % cols;
    lemma_fundamental_div_mod(i, cols);
    lemma_fundamental_div_mod(j, cols);
    lemma_mod_bound(i, cols);
    lemma_mod_bound(j, cols);
    lemma_div_pos_is_pos(i, cols);
    lemma_div_pos_is_pos(j, cols);
    lemma_div_is_ordered(i, n as int - 1, cols);
    lemma_div_is_ordered(j, n as int - 1, cols);
    assert((n as int - 1) / cols == rows - 1);
    lemma_div_pos_is_pos(canvas.width as int, cols);
    lemma_div_pos_is_pos(canvas.height as int, rows);
    if ri == rj && ci == cj {
        assert(i == cols * ri + ci);
        assert(j == cols * rj + cj);
        assert(false);
    }
    if ri != rj {
        if ri < rj {
            assert(a.height == bh);
            assert((ri + 1) * bh <= rj * bh) by (nonlinear_arith)
                requires
                    ri + 1 <= rj,
                    bh >= 0,
            ;
            assert(ri * bh + bh == (ri + 1) * bh) by (nonlinear_arith);
            assert(a.y + a.height <= b.y);
        } else {
            assert(b.height == bh);
            assert((rj + 1) * bh <= ri * bh) by (nonlinear_arith)
                requires
                    rj + 1 <= ri,
                    bh >= 0,
            ;
            assert(rj * bh + bh == (rj + 1) * bh) by (nonlinear_arith);
            assert(b.y + b.height <= a.y);
        }
        assert forall|px: int, py: int|
            !(#[trigger] rect_covers(a, px, py) && #[trigger] rect_covers(b, px, py)) by {
        }
    } else {
        if ci < cj {
            assert(a.width == cw);
            assert((ci + 1) * cw <= cj * cw) by (nonlinear_arith)
                requires
                    ci + 1 <= cj,
                    cw >= 0,
            ;
            assert(ci * cw + cw == (ci + 1) * cw) by (nonlinear_arith);
            assert(a.x + a.width <= b.x);
        } else {
            assert(b.width == cw);
            assert((cj + 1) * cw <= ci * cw) by (nonlinear_arith)
                requires
                    cj + 1 <= ci,
                    cw >= 0,
            ;
            assert(cj * cw + cw == (cj + 1) * cw) by (nonlinear_arith);
            assert(b.x + b.width <= a.x);
        }
        assert forall|px: int, py: int|
            !(#[trigger] rect_covers(a, px, py) && #[trigger] rect_covers(b, px, py)) by {
        }
    }
}

/// A full grid of `n` rectangles lies within the canvas and is pairwise
/// disjoint.
pub proof fn lemma_grid_properties(rects: Seq<Rect>, n: nat, canvas: Rect)
    requires
        canvas.wf(),
        rects.len() == n,
        forall|i: int| 0 <= i < n ==> grid_rect_matches(#[trigger] rects[i], i, n, canvas),
    ensures
        forall|i: int| 0 <= i < n ==> rect_in(#[trigger] rects[i], canvas),
        forall|i: int, j: int|
            0 <= i < n && 0 <= j < n && i != j ==> rects_disjoint(
                #[trigger] rects[i],
                #[trigger] rects[j],
            ),
{
    assert forall|i: int| 0 <= i < n implies rect_in(#[trigger] rects[i], canvas) by {
        lemma_grid_rect_in_canvas(rects[i], i, n, canvas);
    }
    assert forall|i: int, j: int| 0 <= i < n && 0 <= j < n && i != j implies rects_disjoint(
        #[trigger] rects[i],
        #[trigger] rects[j],
    ) by {
        lemma_grid_rects_disjoint(rects[i], rects[j], i, j, n, canvas);
    }
}

/// Padding above a four-line block vertically centered in a bordered area of
/// height `h`: half the space left inside the borders, the remainder absorbed
/// below.
pub open spec fn v_padding(h: int) -> int {
    let inner = if h >= 2 {
        h - 2
    } else {
        0
    };
    if inner >= 4 {
        (inner - 4) / 2
    } else {
        0
    }
}

/// Height of the centered content block: four lines where they fit.
pub open spec fn content_height(h: int) -> int {
    if h - v_padding(h) >= 4 {
        4
    } else {
        h - v_padding(h)
    }
}

/// The rectangle of the four text lines of a clock, vertically centered in its
/// cell.
pub fn content_rect(area: Rect) -> (r: Rect)
    requires
        area.wf(),
    ensures
        r.x == area.x,
        r.width == area.width,
        r.y == area.y + v_padding(area.height as int),
        r.height == content_height(area.height as int),
        rect_in(r, area),
{
    let inner: u16 = if area.height >= 2 {
        area.height - 2
    } else {
        0
    };
    let pad: u16 = if inner >= 4 {
        (inner - 4) / 2
    } else {
        0
    };
    let ch: u16 = if area.height - pad >= 4 {
        4
    } else {
        area.height - pad
    };
    Rect { x: area.x, y: area.y + pad, width: area.width, height: ch }
}

} // verus!
