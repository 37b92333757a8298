//! Cellular grids and their frames: a Game of Life step, scaled grayscale frames of a
//! grid, and two fixed palettes.
use vstd::prelude::*;

verus! {

/// The cells of a grid, row by row.
pub open spec fn cells(grid: Seq<Vec<i64>>) -> Seq<Seq<i64>> {
    Seq::new(grid.len(), |y: int| grid[y]@)
}

proof fn lemma_rows(grid: Seq<Vec<i64>>)
    ensures
        cells(grid).len() == grid.len(),
        forall|q: int| 0 <= q < grid.len() ==> #[trigger] grid[q]@ == cells(grid)[q],
{
}

/// A grid of `h` rows of `w` cells each.
pub open spec fn grid_shape(g: Seq<Seq<i64>>, w: int, h: int) -> bool {
    &&& g.len() == h
    &&& forall|y: int| 0 <= y < h ==> #[trigger] g[y].len() == w
}

/// The cell at `(x, y)` with both coordinates taken around the torus; `x` and `y` may
/// be one step outside the grid.
pub open spec fn wrapped(g: Seq<Seq<i64>>, w: int, h: int, x: int, y: int) -> int {
    g[(y + h) % h][(x + w) % w] as int
}

/// The sum of the eight cells around `(x, y)`.
pub open spec fn neighbour_sum(g: Seq<Seq<i64>>, w: int, h: int, x: int, y: int) -> int {
    wrapped(g, w, h, x - 1, y - 1) + wrapped(g, w, h, x, y - 1) + wrapped(g, w, h, x + 1, y - 1)
        + wrapped(g, w, h, x - 1, y) + wrapped(g, w, h, x + 1, y) + wrapped(g, w, h, x - 1, y + 1)
        + wrapped(g, w, h, x, y + 1) + wrapped(g, w, h, x + 1, y + 1)
}

/// Conway's rule: a live cell (1) stays alive with 2 or 3 live neighbours, a dead cell
/// (0) is born with exactly 3; every other cell becomes dead.
pub open spec fn life_rule(alive: int, count: int) -> i64 {
    if alive == 1 && (count == 2 || count == 3) {
        1
    } else if alive == 0 && count == 3 {
        1
    } else {
        0
    }
}

/// The next generation of a `w` by `h` torus.
pub open spec fn life_step(g: Seq<Seq<i64>>, w: int, h: int) -> Seq<Seq<i64>> {
    Seq::new(
        h as nat,
        |y: int| Seq::new(w as nat, |x: int| life_rule(g[y][x] as int, neighbour_sum(g, w, h, x, y))),
    )
}

/// Generation `k` from `g`.
pub open spec fn generation(g: Seq<Seq<i64>>, w: int, h: int, k: nat) -> Seq<Seq<i64>>
    decreases k,
{
    if k == 0 {
        g
    } else {
        life_step(generation(g, w, h, (k - 1) as nat), w, h)
    }
}

/// Every cell is 0 or 1.
pub open spec fn cells_binary(g: Seq<Seq<i64>>) -> bool {
    forall|y: int, x: int| 0 <= y < g.len() && 0 <= x < g[y].len() ==> 0 <= #[trigger] g[y][x] <= 1
}

proof fn lemma_wrap(a: int, n: int)
    requires
        0 <= a < 2 * n,
    ensures
        a % n == if a < n {
            a
        } else {
            a - n
        },
{
    if a < n {
        vstd::arithmetic::div_mod::lemma_fundamental_div_mod_converse(a, n, 0, a);
    } else {
        vstd::arithmetic::div_mod::lemma_fundamental_div_mod_converse(a, n, 1, a - n);
    }
}

/// The index one step before `i` around a ring of `n`.
fn ring_prev(i: usize, n: usize) -> (r: usize)
    requires
        i < n,
    ensures
        r == (i - 1 + n) % (n as int),
        r < n,
{
    proof {
        lemma_wrap(i - 1 + n, n as int);
    }
    if i == 0 {
        n - 1
    } else {
        i - 1
    }
}

/// The index one step after `i` around a ring of `n`.
fn ring_next(i: usize, n: usize) -> (r: usize)
    requires
        i < n,
    ensures
        r == (i + 1 + n) % (n as int),
        r < n,
{
    proof {
        lemma_wrap(i + 1, n as int);
        vstd::arithmetic::div_mod::lemma_mod_add_multiples_vanish(i + 1, n as int);
    }
    if i + 1 == n {
        0
    } else {
        i + 1
    }
}

/// One Game of Life generation on a `w` by `h` torus.
pub fn next_state(grid: &Vec<Vec<i64>>, w: i64, h: i64) -> (r: Vec<Vec<i64>>)
    requires
        w > 0,
        h > 0,
        grid_shape(cells(grid@), w as int, h as int),
        cells_binary(cells(grid@)),
    ensures
        grid_shape(cells(r@), w as int, h as int),
        cells(r@) == life_step(cells(grid@), w as int, h as int),
        forall|y: int, x: int|
            0 <= y < h && 0 <= x < w ==> #[trigger] cells(r@)[y][x] == life_rule(
                cells(grid@)[y][x] as int,
                neighbour_sum(cells(grid@), w as int, h as int, x, y),
            ),
{
    proof {
        lemma_rows(grid@);
    }
    let hu = grid.len();
    let wu = grid[0].len();
    let mut nxt: Vec<Vec<i64>> = Vec::new();
    let mut y: usize = 0;
    while y < hu
        invariant
            y <= hu,
            hu == h,
            wu == w,
            w > 0,
            h > 0,
            grid_shape(cells(grid@), w as int, h as int),
            cells_binary(cells(grid@)),
            nxt@.len() == y,
            forall|q: int| 0 <= q < y ==> #[trigger] nxt@[q]@.len() == w,
            forall|q: int, x: int|
                0 <= q < y && 0 <= x < w ==> #[trigger] nxt@[q]@[x] == life_rule(
                    cells(grid@)[q][x] as int,
                    neighbour_sum(cells(grid@), w as int, h as int, x, q),
                ),
        decreases hu - y,
    {
        let ym = ring_prev(y, hu);
        let yp = ring_next(y, hu);
        proof {
            lemma_wrap(y + hu, hu as int);
        }
        let mut row: Vec<i64> = Vec::new();
        let mut x: usize = 0;
        while x < wu
            invariant
                x <= wu,
                y < hu,
                hu == h,
                wu == w,
                ym == (y - 1 + h) % (h as int),
                y == (y + h) % (h as int),
                yp == (y + 1 + h) % (h as int),
                ym < hu,
                yp < hu,
                grid_shape(cells(grid@), w as int, h as int),
                cells_binary(cells(grid@)),
                row@.len() == x,
                forall|k: int|
                    0 <= k < x ==> #[trigger] row@[k] == life_rule(
                        cells(grid@)[y as int][k] as int,
                        neighbour_sum(cells(grid@), w as int, h as int, k, y as int),
                    ),
            decreases wu - x,
        {
            let xm = ring_prev(x, wu);
            let xp = ring_next(x, wu);
            proof {
                lemma_wrap(x + wu, wu as int);
                lemma_rows(grid@);
            }
            let cnt = grid[ym][xm] + grid[ym][x] + grid[ym][xp] + grid[y][xm] + grid[y][xp]
                + grid[yp][xm] + grid[yp][x] + grid[yp][xp];
            let alive = grid[y][x];
            assert(cnt == neighbour_sum(cells(grid@), w as int, h as int, x as int, y as int));
            if alive == 1 && (cnt == 2 || cnt == 3) {
                row.push(1);
            } else if alive == 0 && cnt == 3 {
                row.push(1);
            } else {
                row.push(0);
            }
            x = x + 1;
        }
        nxt.push(row);
        y = y + 1;
    }
    proof {
        lemma_rows(nxt@);
    }
    assert(cells(nxt@) =~= life_step(cells(grid@), w as int, h as int)) by {
        assert forall|q: int| 0 <= q < h implies #[trigger] cells(nxt@)[q] =~= life_step(
            cells(grid@),
            w as int,
            h as int,
        )[q] by {
            lemma_rows(nxt@);
        }
    }
    nxt
}

proof fn lemma_generation_shape(g: Seq<Seq<i64>>, w: int, h: int, k: nat)
    requires
        w > 0,
        h > 0,
        grid_shape(g, w, h),
        cells_binary(g),
    ensures
        grid_shape(generation(g, w, h, k), w, h),
        cells_binary(generation(g, w, h, k)),
    decreases k,
{
    if k > 0 {
        lemma_generation_shape(g, w, h, (k - 1) as nat);
    }
}

/// The gray level of a cell: `nonzero` for a cell other than 0, else `zero`.
pub open spec fn shade(cell: i64, zero: u8, nonzero: u8) -> u8 {
    if cell != 0 {
        nonzero
    } else {
        zero
    }
}

/// The frame of a `w` by `h` grid with every cell drawn as a `scale` by `scale`
/// square: pixel `p` of the `w * scale` wide frame shows the cell it lies in.
pub open spec fn scaled_frame(
    g: Seq<Seq<i64>>,
    w: int,
    h: int,
    scale: int,
    zero: u8,
    nonzero: u8,
) -> Seq<u8> {
    Seq::new(
        (w * scale * h * scale) as nat,
        |p: int| shade(g[(p / (w * scale)) / scale][(p % (w * scale)) / scale], zero, nonzero),
    )
}

/// What the frame functions need: positive sizes and a frame that fits in memory.
pub open spec fn frame_fits(w: int, h: int, scale: int) -> bool {
    &&& w > 0
    &&& h > 0
    &&& scale > 0
    &&& w * scale * h * scale <= usize::MAX
}

proof fn lemma_pixel_cell(py: int, px: int, width: int, scale: int, w: int, h: int)
    requires
        0 <= py < h * scale,
        0 <= px < width,
        width == w * scale,
        w > 0,
        h > 0,
        scale > 0,
    ensures
        (py * width + px) / width == py,
        (py * width + px) % width == px,
        0 <= py / scale < h,
        0 <= px / scale < w,
        py * width + px < width * (h * scale),
{
    vstd::arithmetic::div_mod::lemma_fundamental_div_mod_converse(py * width + px, width, py, px);
    vstd::arithmetic::div_mod::lemma_div_is_ordered(py, h * scale - 1, scale);
    vstd::arithmetic::div_mod::lemma_div_is_ordered(px, width - 1, scale);
    assert((h * scale - 1) / scale < h) by {
        assert(h * scale - 1 == (h - 1) * scale + (scale - 1)) by (nonlinear_arith);
        vstd::arithmetic::div_mod::lemma_fundamental_div_mod_converse(h * scale - 1, scale, h - 1, scale - 1);
    }
    assert((width - 1) / scale < w) by {
        assert(width - 1 == (w - 1) * scale + (scale - 1)) by (nonlinear_arith)
            requires
                width == w * scale,
        ;
        vstd::arithmetic::div_mod::lemma_fundamental_div_mod_converse(width - 1, scale, w - 1, scale - 1);
    }
    vstd::arithmetic::div_mod::lemma_div_pos_is_pos(py, scale);
    vstd::arithmetic::div_mod::lemma_div_pos_is_pos(px, scale);
    assert(py * width + px < width * (h * scale)) by (nonlinear_arith)
        requires
            0 <= py < h * scale,
            0 <= px < width,
    ;
}

/// Draws each cell of a `w` by `h` grid as a `scale` by `scale` square of gray
/// `nonzero` or `zero`, row by row.
fn draw_scaled(grid: &Vec<Vec<i64>>, w: i64, h: i64, scale: i64, zero: u8, nonzero: u8) -> (r:
    Vec<u8>)
    requires
        frame_fits(w as int, h as int, scale as int),
        grid_shape(cells(grid@), w as int, h as int),
    ensures
        r@ == scaled_frame(cells(grid@), w as int, h as int, scale as int, zero, nonzero),
{
    assert(w * scale <= w * scale * h * scale) by (nonlinear_arith)
        requires
            w > 0,
            h > 0,
            scale > 0,
    ;
    assert(h * scale <= w * scale * h * scale) by (nonlinear_arith)
        requires
            w > 0,
            h > 0,
            scale > 0,
    ;
    assert(w <= w * scale && h <= h * scale && scale <= w * scale) by (nonlinear_arith)
        requires
            w > 0,
            h > 0,
            scale > 0,
    ;
    let wu = w as usize;
    let hu = h as usize;
    let su = scale as usize;
    let width = wu * su;
    let height = hu * su;
    let ghost n = w * scale * h * scale;
    assert(width * height == n) by (nonlinear_arith)
        requires
            width == w * scale,
            height == h * scale,
            n == w * scale * h * scale,
    ;
    let mut frame: Vec<u8> = Vec::new();
    let mut py: usize = 0;
    while py < height
        invariant
            py <= height,
            width == w * scale,
            height == h * scale,
            width * height == n,
            n <= usize::MAX,
            n == w * scale * h * scale,
            su == scale,
            frame_fits(w as int, h as int, scale as int),
            grid_shape(cells(grid@), w as int, h as int),
            frame@.len() == py * width,
            forall|p: int|
                0 <= p < py * width ==> #[trigger] frame@[p] == scaled_frame(
                    cells(grid@),
                    w as int,
                    h as int,
                    scale as int,
                    zero,
                    nonzero,
                )[p],
        decreases height - py,
    {
        let cy = py / su;
        let mut px: usize = 0;
        while px < width
            invariant
                px <= width,
                py < height,
                width == w * scale,
                height == h * scale,
                width * height == n,
                n <= usize::MAX,
                n == w * scale * h * scale,
                su == scale,
                cy as int == py as int / (scale as int),
                frame_fits(w as int, h as int, scale as int),
                grid_shape(cells(grid@), w as int, h as int),
                frame@.len() == py * width + px,
                forall|p: int|
                    0 <= p < py * width + px ==> #[trigger] frame@[p] == scaled_frame(
                        cells(grid@),
                        w as int,
                        h as int,
                        scale as int,
                        zero,
                        nonzero,
                    )[p],
            decreases width - px,
        {
            proof {
                lemma_pixel_cell(py as int, px as int, width as int, scale as int, w as int, h as int);
                lemma_rows(grid@);
            }
            let cx = px / su;
            let v = if grid[cy][cx] != 0 {
                nonzero
            } else {
                zero
            };
            let ghost sf = scaled_frame(cells(grid@), w as int, h as int, scale as int, zero, nonzero);
            let ghost at = py * width + px;
            assert(width * (h * scale) == n) by (nonlinear_arith)
                requires
                    width == w * scale,
                    n == w * scale * h * scale,
            ;
            assert(sf[at] == v);
            frame.push(v);
            assert forall|p: int| 0 <= p < py * width + px + 1 implies #[trigger] frame@[p] == sf[p] by {
                if p < at {
                }
            }
            px = px + 1;
        }
        assert(py * width + width == (py + 1) * width) by (nonlinear_arith);
        py = py + 1;
    }
    assert(height * width == n) by (nonlinear_arith)
        requires
            width * height == n,
    ;
    assert(frame@ =~= scaled_frame(cells(grid@), w as int, h as int, scale as int, zero, nonzero));
    frame
}

/// The frame of a Game of Life grid: live cells white, dead cells black, each cell a
/// `cell` by `cell` square.
pub fn render(grid: &Vec<Vec<i64>>, w: i64, h: i64, cell: i64) -> (r: Vec<u8>)
    requires
        frame_fits(w as int, h as int, cell as int),
        grid_shape(cells(grid@), w as int, h as int),
    ensures
        r@ == scaled_frame(cells(grid@), w as int, h as int, cell as int, 0, 255),
{
    draw_scaled(grid, w, h, cell, 0, 255)
}

/// The frame of a maze grid: open cells (0) white, walls gray 40, each cell a `scale`
/// by `scale` square.
pub fn capture(grid: &Vec<Vec<i64>>, w: i64, h: i64, scale: i64) -> (r: Vec<u8>)
    requires
        frame_fits(w as int, h as int, scale as int),
        grid_shape(cells(grid@), w as int, h as int),
    ensures
        r@ == scaled_frame(cells(grid@), w as int, h as int, scale as int, 255, 40),
{
    draw_scaled(grid, w, h, scale, 255, 40)
}

/// The frame of an ant's grid, one pixel per cell: visited cells white, others black.
pub fn capture_cells(grid: &Vec<Vec<i64>>, w: i64, h: i64) -> (r: Vec<u8>)
    requires
        frame_fits(w as int, h as int, 1),
        grid_shape(cells(grid@), w as int, h as int),
    ensures
        r@ == scaled_frame(cells(grid@), w as int, h as int, 1, 0, 255),
{
    draw_scaled(grid, w, h, 1, 0, 255)
}

/// The frames of `steps` generations from `grid`, each cell a `cell` by `cell` square.
pub fn life_frames(grid: Vec<Vec<i64>>, w: i64, h: i64, cell: i64, steps: i64) -> (r: Vec<Vec<u8>>)
    requires
        frame_fits(w as int, h as int, cell as int),
        grid_shape(cells(grid@), w as int, h as int),
        cells_binary(cells(grid@)),
    ensures
        r@.len() == if steps > 0 {
            steps as int
        } else {
            0
        },
        forall|k: int|
            0 <= k < r@.len() ==> #[trigger] r@[k]@ == scaled_frame(
                generation(cells(grid@), w as int, h as int, k as nat),
                w as int,
                h as int,
                cell as int,
                0,
                255,
            ),
{
    let ghost g0 = cells(grid@);
    let mut g = grid;
    let mut frames: Vec<Vec<u8>> = Vec::new();
    let mut k: i64 = 0;
    while k < steps
        invariant
            0 <= k,
            steps > 0 ==> k <= steps,
            steps <= 0 ==> k == 0,
            frame_fits(w as int, h as int, cell as int),
            grid_shape(g0, w as int, h as int),
            cells_binary(g0),
            cells(g@) == generation(g0, w as int, h as int, k as nat),
            frames@.len() == k,
            forall|j: int|
                0 <= j < k ==> #[trigger] frames@[j]@ == scaled_frame(
                    generation(g0, w as int, h as int, j as nat),
                    w as int,
                    h as int,
                    cell as int,
                    0,
                    255,
                ),
        decreases steps - k,
    {
        proof {
            lemma_generation_shape(g0, w as int, h as int, k as nat);
        }
        frames.push(render(&g, w, h, cell));
        g = next_state(&g, w, h);
        k = k + 1;
    }
    frames
}

/// Where the ant stands and faces (0 up, 1 right, 2 down, 3 left), and the grid.
pub open spec fn ant_start(w: int, h: int) -> (Seq<Seq<i64>>, int, int, int) {
    (Seq::new(h as nat, |y: int| Seq::new(w as nat, |x: int| 0i64)), w / 2, h / 2, 0)
}

/// One move of Langton's ant: on a clear cell turn right and mark it, on a marked
/// cell turn left and clear it, then step forward around the torus.
pub open spec fn ant_step(s: (Seq<Seq<i64>>, int, int, int), w: int, h: int) -> (
    Seq<Seq<i64>>,
    int,
    int,
    int,
) {
    let (g, x, y, d) = s;
    let clear = g[y][x] == 0;
    let nd = if clear {
        (d + 1) % 4
    } else {
        (d + 3) % 4
    };
    let ng = g.update(y, g[y].update(x, if clear {
        1i64
    } else {
        0i64
    }));
    if nd == 0 {
        (ng, x, (y - 1 + h) % h, nd)
    } else if nd == 1 {
        (ng, (x + 1) % w, y, nd)
    } else if nd == 2 {
        (ng, x, (y + 1) % h, nd)
    } else {
        (ng, (x - 1 + w) % w, y, nd)
    }
}

/// The ant's state after `n` moves.
pub open spec fn ant_after(w: int, h: int, n: nat) -> (Seq<Seq<i64>>, int, int, int)
    decreases n,
{
    if n == 0 {
        ant_start(w, h)
    } else {
        ant_step(ant_after(w, h, (n - 1) as nat), w, h)
    }
}

proof fn lemma_ant_state(w: int, h: int, n: nat)
    requires
        w > 0,
        h > 0,
    ensures
        grid_shape(ant_after(w, h, n).0, w, h),
        0 <= ant_after(w, h, n).1 < w,
        0 <= ant_after(w, h, n).2 < h,
        0 <= ant_after(w, h, n).3 < 4,
    decreases n,
{
    if n > 0 {
        lemma_ant_state(w, h, (n - 1) as nat);
    }
}

proof fn lemma_capture_count(i: int, c: int)
    requires
        i >= 0,
        c > 0,
    ensures
        (c - 1) / c == 0,
        (i + c) / c == (i + c - 1) / c + if i % c == 0 {
            1int
        } else {
            0int
        },
        i % c == 0 ==> ((i + c - 1) / c) * c == i,
{
    let q = i / c;
    let r = i % c;
    vstd::arithmetic::div_mod::lemma_fundamental_div_mod(i, c);
    vstd::arithmetic::div_mod::lemma_fundamental_div_mod_converse(c - 1, c, 0, c - 1);
    assert(i + c == (q + 1) * c + r) by (nonlinear_arith)
        requires
            i == c * q + r,
    ;
    vstd::arithmetic::div_mod::lemma_fundamental_div_mod_converse(i + c, c, q + 1, r);
    if r == 0 {
        assert(i + c - 1 == q * c + (c - 1)) by (nonlinear_arith)
            requires
                i == c * q + r,
                r == 0,
        ;
        vstd::arithmetic::div_mod::lemma_fundamental_div_mod_converse(i + c - 1, c, q, c - 1);
        assert(q * c == i) by (nonlinear_arith)
            requires
                i == c * q + r,
                r == 0,
        ;
    } else {
        assert(i + c - 1 == (q + 1) * c + (r - 1)) by (nonlinear_arith)
            requires
                i == c * q + r,
        ;
        vstd::arithmetic::div_mod::lemma_fundamental_div_mod_converse(i + c - 1, c, q + 1, r - 1);
    }
}

/// Runs Langton's ant for `steps` moves from the middle of a clear `w` by `h` torus and
/// keeps a one-pixel-per-cell frame after every `capture_every`-th move, starting with
/// the first.
pub fn ant_frames(w: i64, h: i64, steps: i64, capture_every: i64) -> (r: Vec<Vec<u8>>)
    requires
        frame_fits(w as int, h as int, 1),
        steps >= 0,
        capture_every > 0,
        steps < i64::MAX,
    ensures
        r@.len() == (steps + capture_every - 1) / (capture_every as int),
        forall|k: int|
            0 <= k < r@.len() ==> #[trigger] r@[k]@ == scaled_frame(
                ant_after(w as int, h as int, (k * capture_every + 1) as nat).0,
                w as int,
                h as int,
                1,
                0,
                255,
            ),
{
    assert(w <= w * 1 * h * 1 && h <= w * 1 * h * 1) by (nonlinear_arith)
        requires
            w > 0,
            h > 0,
    ;
    let wu = w as usize;
    let hu = h as usize;
    let mut grid: Vec<Vec<i64>> = Vec::new();
    let mut yy: usize = 0;
    while yy < hu
        invariant
            yy <= hu,
            hu == h,
            wu == w,
            cells(grid@) == Seq::new(yy as nat, |y: int| Seq::new(w as nat, |x: int| 0i64)),
        decreases hu - yy,
    {
        let mut row: Vec<i64> = Vec::new();
        let mut xx: usize = 0;
        while xx < wu
            invariant
                xx <= wu,
                row@ == Seq::new(xx as nat, |x: int| 0i64),
            decreases wu - xx,
        {
            row.push(0);
            xx = xx + 1;
            assert(row@ =~= Seq::new(xx as nat, |x: int| 0i64));
        }
        let ghost prev = grid@;
        grid.push(row);
        yy = yy + 1;
        proof {
            lemma_rows(prev);
            lemma_rows(grid@);
            assert forall|q: int| 0 <= q < yy implies #[trigger] cells(grid@)[q] == Seq::new(
                w as nat,
                |x: int| 0i64,
            ) by {
                if q < yy - 1 {
                    assert(grid@[q] == prev[q]);
                }
            }
        }
        assert(cells(grid@) =~= Seq::new(yy as nat, |y: int| Seq::new(w as nat, |x: int| 0i64)));
    }
    let mut x: usize = wu / 2;
    let mut y: usize = hu / 2;
    let mut d: u8 = 0;
    let mut frames: Vec<Vec<u8>> = Vec::new();
    let mut i: i64 = 0;
    proof {
        assert(cells(grid@) =~= ant_start(w as int, h as int).0);
        lemma_capture_count(0, capture_every as int);
    }
    while i < steps
        invariant
            0 <= i <= steps < i64::MAX,
            capture_every > 0,
            hu == h,
            wu == w,
            frame_fits(w as int, h as int, 1),
            grid@.len() == h,
            (cells(grid@), x as int, y as int, d as int) == ant_after(w as int, h as int, i as nat),
            frames@.len() == (i + capture_every - 1) / (capture_every as int),
            forall|k: int|
                0 <= k < frames@.len() ==> #[trigger] frames@[k]@ == scaled_frame(
                    ant_after(w as int, h as int, (k * capture_every + 1) as nat).0,
                    w as int,
                    h as int,
                    1,
                    0,
                    255,
                ),
        decreases steps - i,
    {
        proof {
            lemma_ant_state(w as int, h as int, i as nat);
            lemma_rows(grid@);
        }
        let ghost before = ant_after(w as int, h as int, i as nat);
        let ghost old_grid = grid@;
        let ghost after = ant_step(before, w as int, h as int);
        let clear = grid[y][x] == 0;
        d = if clear {
            (d + 1) % 4
        } else {
            (d + 3) % 4
        };
        let mut row = grid[y].clone();
        assert(row@ =~= old_grid[y as int]@);
        row.set(x, if clear {
            1
        } else {
            0
        });
        grid.set(y, row);
        proof {
            lemma_rows(grid@);
            lemma_rows(old_grid);
            assert forall|q: int| 0 <= q < h implies #[trigger] cells(grid@)[q] == after.0[q] by {
                if q != y {
                    assert(grid@[q] == old_grid[q]);
                }
            }
            assert(cells(grid@) =~= after.0);
            vstd::arithmetic::div_mod::lemma_mod_add_multiples_vanish(x + 1, w as int);
            vstd::arithmetic::div_mod::lemma_mod_add_multiples_vanish(y + 1, h as int);
        }
        if d == 0 {
            y = ring_prev(y, hu);
        } else if d == 1 {
            x = ring_next(x, wu);
        } else if d == 2 {
            y = ring_next(y, hu);
        } else {
            x = ring_prev(x, wu);
        }
        proof {
            lemma_capture_count(i as int, capture_every as int);
        }
        if i % capture_every == 0 {
            frames.push(capture_cells(&grid, w, h));
        }
        i = i + 1;
    }
    frames
}

/// Entry `i` of the particle palette: `(i, 3i mod 256, 255 - i)`.
pub open spec fn particle_palette() -> Seq<u8> {
    Seq::new(
        768,
        |k: int|
            {
                let i = k / 3;
                if k % 3 == 0 {
                    i as u8
                } else if k % 3 == 1 {
                    ((i * 3) % 256) as u8
                } else {
                    (255 - i) as u8
                }
            },
    )
}

/// The particle palette.
pub fn color_palette() -> (r: Vec<u8>)
    ensures
        r@ == particle_palette(),
{
    let mut p = Vec::<u8>::new();
    let mut i: i64 = 0;
    while i < 256
        invariant
            0 <= i <= 256,
            p@ =~= particle_palette().subrange(0, 3 * i),
        decreases 256 - i,
    {
        p.push(i as u8);
        p.push(((i * 3) % 256) as u8);
        p.push((255 - i) as u8);
        i = i + 1;
        assert(p@ =~= particle_palette().subrange(0, 3 * i));
    }
    p
}

/// Entry `i` of the fire palette: black to red over `0..85`, red to yellow over
/// `85..170`, yellow to white over `170..256`, in steps of 3.
pub open spec fn fire_entry(i: int) -> (int, int, int) {
    if i < 85 {
        (i * 3, 0, 0)
    } else if i < 170 {
        (255, (i - 85) * 3, 0)
    } else {
        (255, 255, (i - 170) * 3)
    }
}

/// The fire palette, entry after entry.
pub open spec fn fire_colors() -> Seq<u8> {
    Seq::new(
        768,
        |k: int|
            {
                let (r, g, b) = fire_entry(k / 3);
                if k % 3 == 0 {
                    r as u8
                } else if k % 3 == 1 {
                    g as u8
                } else {
                    b as u8
                }
            },
    )
}

/// The fire palette.
pub fn fire_palette() -> (r: Vec<u8>)
    ensures
        r@ == fire_colors(),
{
    let mut p = Vec::<u8>::new();
    let mut i: i64 = 0;
    while i < 256
        invariant
            0 <= i <= 256,
            p@ =~= fire_colors().subrange(0, 3 * i),
        decreases 256 - i,
    {
        let mut r: i64 = 0;
        let mut g: i64 = 0;
        let mut b: i64 = 0;
        if i < 85 {
            r = i * 3;
        } else if i < 170 {
            r = 255;
            g = (i - 85) * 3;
        } else {
            r = 255;
            g = 255;
            b = (i - 170) * 3;
        }
        p.push(r as u8);
        p.push(g as u8);
        p.push(b as u8);
        i = i + 1;
        assert(p@ =~= fire_colors().subrange(0, 3 * i));
    }
    p
}

} // verus!
