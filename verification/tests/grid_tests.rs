use world_clock::grid::{ceil_sqrt_exec, compute_grid, content_rect, Rect};

fn rect(x: u16, y: u16, w: u16, h: u16) -> Rect {
    Rect { x, y, width: w, height: h }
}

#[test]
fn ceil_sqrt_values() {
    assert_eq!(ceil_sqrt_exec(0), 0);
    assert_eq!(ceil_sqrt_exec(1), 1);
    assert_eq!(ceil_sqrt_exec(2), 2);
    assert_eq!(ceil_sqrt_exec(3), 2);
    assert_eq!(ceil_sqrt_exec(4), 2);
    assert_eq!(ceil_sqrt_exec(5), 3);
    assert_eq!(ceil_sqrt_exec(9), 3);
    assert_eq!(ceil_sqrt_exec(10), 4);
    assert_eq!(ceil_sqrt_exec(16), 4);
    assert_eq!(ceil_sqrt_exec(17), 5);
}

#[test]
fn empty_grid_is_empty() {
    let r = compute_grid(0, rect(0, 0, 100, 50));
    assert_eq!(r.len(), 0);
}

#[test]
fn grid_returns_one_rect_per_clock() {
    for n in 0..=20 {
        assert_eq!(compute_grid(n, rect(0, 0, 97, 41)).len(), n);
    }
}

#[test]
fn five_clocks_land_in_three_by_two_grid() {
    // cols = ceil(sqrt(5)) = 3, rows = ceil(5/3) = 2 on a 90x40 canvas
    let r = compute_grid(5, rect(0, 0, 90, 40));
    assert_eq!(r.len(), 5);
    assert_eq!(r[0], rect(0, 0, 30, 20));
    assert_eq!(r[1], rect(30, 0, 30, 20));
    assert_eq!(r[2], rect(60, 0, 30, 20));
    assert_eq!(r[3], rect(0, 20, 30, 20));
    // the fifth clock sits in band 1, cell 1; cell 2 of that band stays unused
    assert_eq!(r[4], rect(30, 20, 30, 20));
}

#[test]
fn last_cell_absorbs_width_remainder() {
    let r = compute_grid(2, rect(0, 0, 11, 10));
    assert_eq!(r[0], rect(0, 0, 5, 10));
    assert_eq!(r[1], rect(5, 0, 6, 10));
}

#[test]
fn last_band_absorbs_height_remainder() {
    // cols = 2, rows = 2 for n = 4; height 11 splits 5 + 6
    let r = compute_grid(4, rect(0, 0, 10, 11));
    assert_eq!(r[0], rect(0, 0, 5, 5));
    assert_eq!(r[3], rect(5, 5, 5, 6));
}

fn intervals_disjoint(a0: u32, a1: u32, b0: u32, b1: u32) -> bool {
    a1 <= b0 || b1 <= a0
}

#[test]
fn grid_rects_lie_in_canvas_and_do_not_overlap() {
    let canvas = rect(3, 7, 83, 29);
    for n in 1..=12 {
        let r = compute_grid(n, canvas);
        for a in &r {
            assert!(a.x >= canvas.x);
            assert!(a.y >= canvas.y);
            assert!(a.x as u32 + a.width as u32 <= canvas.x as u32 + canvas.width as u32);
            assert!(a.y as u32 + a.height as u32 <= canvas.y as u32 + canvas.height as u32);
        }
        for i in 0..r.len() {
            for j in 0..r.len() {
                if i != j {
                    let (a, b) = (&r[i], &r[j]);
                    let x_apart = intervals_disjoint(
                        a.x as u32,
                        a.x as u32 + a.width as u32,
                        b.x as u32,
                        b.x as u32 + b.width as u32,
                    );
                    let y_apart = intervals_disjoint(
                        a.y as u32,
                        a.y as u32 + a.height as u32,
                        b.y as u32,
                        b.y as u32 + b.height as u32,
                    );
                    assert!(x_apart || y_apart);
                }
            }
        }
    }
}

#[test]
fn no_band_is_fully_empty() {
    // cols * (rows - 1) < n: the last band always holds at least one clock
    for n in 1usize..=30 {
        let cols = ceil_sqrt_exec(n);
        let rows = (n - 1) / cols + 1;
        assert!(cols * rows >= n);
        assert!(cols * (rows - 1) < n);
    }
}

#[test]
fn content_rect_centers_four_lines() {
    // height 10: 8 rows inside the borders, padding (8 - 4) / 2 = 2
    let c = content_rect(rect(0, 0, 30, 10));
    assert_eq!(c, rect(0, 2, 30, 4));
    // height 3: nothing to center, the block is clipped to the area
    let c = content_rect(rect(5, 5, 20, 3));
    assert_eq!(c, rect(5, 5, 20, 3));
    // odd leftover space goes below the block
    let c = content_rect(rect(0, 0, 10, 11));
    assert_eq!(c, rect(0, 2, 10, 4));
}
