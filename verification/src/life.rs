//! The simulation step: neighbor counting and the B3/S23 transition rule,
//! applied uniformly against the previous generation.

use vstd::prelude::*;
use vstd::arithmetic::div_mod::lemma_fundamental_div_mod;
use vstd::arithmetic::div_mod::lemma_mod_bound;
use crate::board::Board;
use crate::board::lemma_cell_index_bound;
use crate::board::lemma_cell_index_coords;
use crate::color::Color;
use crate::color::black;
use crate::color::white;
use crate::framebuffer::FrameBuffer;

verus! {

/// Whether `(x, y)` is a coordinate inside a `w`-by-`h` grid. Cells outside
/// the grid are treated as permanently dead: the boundary is hard, there is
/// no wrap-around.
pub open spec fn in_grid(w: int, h: int, x: int, y: int) -> bool {
    0 <= x < w && 0 <= y < h
}

/// Whether the grid `g` (in row-major order, `w` by `h`) has a live cell at
/// `(x, y)`; coordinates outside the grid count as dead.
pub open spec fn alive_at(g: Seq<bool>, w: int, h: int, x: int, y: int) -> bool {
    in_grid(w, h, x, y) && g[y * w + x]
}

/// One if the grid has a live cell at `(x, y)`, zero otherwise.
pub open spec fn live_as_int(g: Seq<bool>, w: int, h: int, x: int, y: int) -> int {
    if alive_at(g, w, h, x, y) {
        1int
    } else {
        0int
    }
}

/// How many of the eight cells around `(x, y)` are alive. Only coordinates
/// inside the grid can contribute; the cell itself is not counted.
pub open spec fn neighbor_count(g: Seq<bool>, w: int, h: int, x: int, y: int) -> int {
    live_as_int(g, w, h, x - 1, y - 1) + live_as_int(g, w, h, x, y - 1) + live_as_int(
        g,
        w,
        h,
        x + 1,
        y - 1,
    ) + live_as_int(g, w, h, x - 1, y) + live_as_int(g, w, h, x + 1, y) + live_as_int(
        g,
        w,
        h,
        x - 1,
        y + 1,
    ) + live_as_int(g, w, h, x, y + 1) + live_as_int(g, w, h, x + 1, y + 1)
}

/// The B3/S23 rule: a live cell survives with two or three live neighbors
/// (it dies of underpopulation below two and of overpopulation above
/// three); a dead cell is born with exactly three live neighbors and stays
/// dead otherwise.
pub open spec fn next_state(alive: bool, n: int) -> bool {
    if alive {
        n == 2 || n == 3
    } else {
        n == 3
    }
}

/// The whole next generation, computed cell by cell from the untouched
/// previous generation.
pub open spec fn step(g: Seq<bool>, w: int, h: int) -> Seq<bool> {
    Seq::new((w * h) as nat, |i: int| next_state(g[i], neighbor_count(g, w, h, i % w, i / w)))
}

/// The grid after `n` simulation steps.
pub open spec fn steps(g: Seq<bool>, w: int, h: int, n: nat) -> Seq<bool>
    decreases n,
{
    if n == 0 {
        g
    } else {
        step(steps(g, w, h, (n - 1) as nat), w, h)
    }
}

/// A grid with no live cell at all.
pub open spec fn all_dead(g: Seq<bool>) -> bool {
    forall|i: int| 0 <= i < g.len() ==> !g[i]
}

/// Counts the live cells among the eight neighbors of `(x, y)`, reading
/// only coordinates that lie inside the board.
pub fn count_neighbors(board: &Board, x: usize, y: usize) -> (n: usize)
    requires
        board.wf(),
        x < board.width,
        y < board.height,
    ensures
        n == neighbor_count(
            board.grid(),
            board.width as int,
            board.height as int,
            x as int,
            y as int,
        ),
        n <= 8,
{
    let w = board.width;
    let h = board.height;
    let mut count: usize = 0;
    if x > 0 && y > 0 && board.cell(x - 1, y - 1) {
        count = count + 1;
    }
    if y > 0 && board.cell(x, y - 1) {
        count = count + 1;
    }
    if x + 1 < w && y > 0 && board.cell(x + 1, y - 1) {
        count = count + 1;
    }
    if x > 0 && board.cell(x - 1, y) {
        count = count + 1;
    }
    if x + 1 < w && board.cell(x + 1, y) {
        count = count + 1;
    }
    if x > 0 && y + 1 < h && board.cell(x - 1, y + 1) {
        count = count + 1;
    }
    if y + 1 < h && board.cell(x, y + 1) {
        count = count + 1;
    }
    if x + 1 < w && y + 1 < h && board.cell(x + 1, y + 1) {
        count = count + 1;
    }
    count
}

/// Computes the next generation on a fresh board, leaving the input board
/// untouched; the dimensions carry over unchanged.
pub fn update_board(board: &Board) -> (next: Board)
    requires
        board.wf(),
    ensures
        next.wf(),
        next.width == board.width,
        next.height == board.height,
        next.grid() == step(board.grid(), board.width as int, board.height as int),
{
    let w = board.width;
    let h = board.height;
    let ghost g = board.grid();
    let ghost next_g = step(g, w as int, h as int);
    let mut cells: Vec<bool> = Vec::new();
    let mut y: usize = 0;
    while y < h
        invariant
            y <= h,
            board.wf(),
            w == board.width,
            h == board.height,
            g == board.grid(),
            next_g == step(g, w as int, h as int),
            cells@.len() == y * w,
            forall|i: int| 0 <= i < y * w ==> cells@[i] == next_g[i],
        decreases h - y,
    {
        let mut x: usize = 0;
        proof {
            lemma_cell_index_bound(w as int, h as int, 0, y as int);
        }
        while x < w
            invariant
                x <= w,
                y < h,
                board.wf(),
                w == board.width,
                h == board.height,
                g == board.grid(),
                next_g == step(g, w as int, h as int),
                cells@.len() == y * w + x,
                forall|i: int| 0 <= i < y * w + x ==> cells@[i] == next_g[i],
            decreases w - x,
        {
            let alive = board.cell(x, y);
            let neighbors = count_neighbors(board, x, y);
            let next_alive = if alive {
                neighbors == 2 || neighbors == 3
            } else {
                neighbors == 3
            };
            proof {
                lemma_cell_index_bound(w as int, h as int, x as int, y as int);
                lemma_cell_index_coords(w as int, x as int, y as int);
                assert(next_g[y * w + x] == next_alive);
            }
            cells.push(next_alive);
            x = x + 1;
        }
        y = y + 1;
        proof {
            assert(y * w == (y - 1) * w + w) by (nonlinear_arith);
        }
    }
    let next = Board { width: w, height: h, cells };
    proof {
        assert(h as int * w as int == w as int * h as int) by (nonlinear_arith);
        assert(next.grid().len() == next_g.len());
        assert(next.grid() =~= next_g);
    }
    next
}

/// The color a cell is drawn with: white when alive, black when dead.
pub open spec fn cell_color(g: Seq<bool>, i: int) -> Color {
    if g[i] {
        white()
    } else {
        black()
    }
}

/// Draws the board into the pixel buffer, one pixel per cell: live cells
/// white, dead cells black.
pub fn render(framebuffer: &mut FrameBuffer, board: &Board)
    requires
        old(framebuffer).wf(),
        board.wf(),
        old(framebuffer).width == board.width,
        old(framebuffer).height == board.height,
    ensures
        final(framebuffer).wf(),
        final(framebuffer).width == old(framebuffer).width,
        final(framebuffer).height == old(framebuffer).height,
        final(framebuffer).background_color == old(framebuffer).background_color,
        forall|i: int|
            0 <= i < board.width * board.height ==> final(framebuffer).buffer@[i] == cell_color(
                board.grid(),
                i,
            ),
        final(framebuffer).current_color == cell_color(
            board.grid(),
            board.width * board.height - 1,
        ),
{
    let w = board.width;
    let h = board.height;
    let ghost g = board.grid();
    let mut y: usize = 0;
    while y < h
        invariant
            y <= h,
            board.wf(),
            w == board.width,
            h == board.height,
            g == board.grid(),
            framebuffer.wf(),
            framebuffer.width == w,
            framebuffer.height == h,
            framebuffer.background_color == old(framebuffer).background_color,
            y == 0 ==> framebuffer.current_color == old(framebuffer).current_color,
            y > 0 ==> framebuffer.current_color == cell_color(g, y * w - 1),
            forall|i: int| 0 <= i < y * w ==> framebuffer.buffer@[i] == cell_color(g, i),
        decreases h - y,
    {
        let mut x: usize = 0;
        proof {
            lemma_cell_index_bound(w as int, h as int, 0, y as int);
            if y > 0 {
                assert(y * w >= 1) by (nonlinear_arith)
                    requires
                        y >= 1,
                        w >= 1,
                ;
            }
        }
        while x < w
            invariant
                x <= w,
                y < h,
                board.wf(),
                w == board.width,
                h == board.height,
                g == board.grid(),
                framebuffer.wf(),
                framebuffer.width == w,
                framebuffer.height == h,
                framebuffer.background_color == old(framebuffer).background_color,
                y * w + x == 0 ==> framebuffer.current_color == old(framebuffer).current_color,
                y * w + x > 0 ==> framebuffer.current_color == cell_color(g, y * w + x - 1),
                forall|i: int| 0 <= i < y * w + x ==> framebuffer.buffer@[i] == cell_color(g, i),
            decreases w - x,
        {
            let color = if board.cell(x, y) {
                Color::new(255, 255, 255)
            } else {
                Color::new(0, 0, 0)
            };
            proof {
                lemma_cell_index_bound(w as int, h as int, x as int, y as int);
                assert(color == cell_color(g, y * w + x));
            }
            framebuffer.set_current_color(color);
            framebuffer.point(x, y);
            x = x + 1;
        }
        y = y + 1;
        proof {
            assert(y * w == (y - 1) * w + w) by (nonlinear_arith);
        }
    }
    proof {
        assert(h * w == w * h) by (nonlinear_arith);
        assert(w * h > 0) by (nonlinear_arith)
            requires
                w >= 1,
                h >= 1,
        ;
    }
}

/// No cell of a fully dead board has a live neighbor.
proof fn lemma_dead_board_has_no_live_cells(g: Seq<bool>, w: int, h: int)
    requires
        w >= 0,
        h >= 0,
        g.len() == w * h,
        all_dead(g),
    ensures
        forall|x: int, y: int| !alive_at(g, w, h, x, y),
{
    assert forall|x: int, y: int| !alive_at(g, w, h, x, y) by {
        if in_grid(w, h, x, y) {
            lemma_cell_index_bound(w, h, x, y);
        }
    }
}

/// No spontaneous birth: one step of the rule leaves a fully dead board
/// fully dead, since no dead cell has the three live neighbors a birth
/// needs.
pub proof fn lemma_dead_board_step(g: Seq<bool>, w: int, h: int)
    requires
        w >= 0,
        h >= 0,
        g.len() == w * h,
        all_dead(g),
    ensures
        step(g, w, h).len() == w * h,
        all_dead(step(g, w, h)),
{
    lemma_dead_board_has_no_live_cells(g, w, h);
    assert forall|i: int| 0 <= i < step(g, w, h).len() implies !step(g, w, h)[i] by {
        assert(neighbor_count(g, w, h, i % w, i / w) == 0);
    }
}

/// A fully dead board remains fully dead after any number of steps.
pub proof fn lemma_dead_board_stays_dead(g: Seq<bool>, w: int, h: int, n: nat)
    requires
        w >= 0,
        h >= 0,
        g.len() == w * h,
        all_dead(g),
    ensures
        steps(g, w, h, n).len() == w * h,
        all_dead(steps(g, w, h, n)),
    decreases n,
{
    if n > 0 {
        lemma_dead_board_stays_dead(g, w, h, (n - 1) as nat);
        lemma_dead_board_step(steps(g, w, h, (n - 1) as nat), w, h);
    }
}

/// A row-major index below `w * h` decomposes into a column below `w` and
/// a row below `h`.
pub proof fn lemma_index_to_coords(w: int, h: int, i: int)
    requires
        w > 0,
        h > 0,
        0 <= i < w * h,
    ensures
        0 <= i % w < w,
        0 <= i / w < h,
        i == (i / w) * w + i % w,
{
    lemma_fundamental_div_mod(i, w);
    lemma_mod_bound(i, w);
    let q = i / w;
    let r = i % w;
    assert(w * q == q * w) by (nonlinear_arith);
    assert(0 <= q && q < h) by (nonlinear_arith)
        requires
            i == w * q + r,
            0 <= r < w,
            0 <= i < w * h,
            w > 0,
    ;
}

/// Whether `(x, y)` is one of the four cells of the 2-by-2 block whose
/// upper-left cell is `(x0, y0)`.
pub open spec fn in_block(x0: int, y0: int, x: int, y: int) -> bool {
    x0 <= x <= x0 + 1 && y0 <= y <= y0 + 1
}

/// A 2-by-2 block of live cells on an otherwise dead grid is a still life:
/// each block cell has exactly three live neighbors and survives, every
/// other cell sees at most two live cells and stays dead, so one step
/// leaves the grid unchanged.
pub proof fn lemma_block_still_life(g: Seq<bool>, w: int, h: int, x0: int, y0: int)
    requires
        g.len() == w * h,
        0 <= x0,
        x0 + 1 < w,
        0 <= y0,
        y0 + 1 < h,
        forall|x: int, y: int| #[trigger]
            alive_at(g, w, h, x, y) <==> in_grid(w, h, x, y) && in_block(x0, y0, x, y),
    ensures
        step(g, w, h) == g,
{
    assert forall|i: int| 0 <= i < w * h implies step(g, w, h)[i] == g[i] by {
        lemma_index_to_coords(w, h, i);
        let x = i % w;
        let y = i / w;
        assert(alive_at(g, w, h, x, y) == g[i]);
        if in_block(x0, y0, x, y) {
            assert(neighbor_count(g, w, h, x, y) == 3);
        } else {
            assert(neighbor_count(g, w, h, x, y) <= 2);
        }
        assert(step(g, w, h)[i] == next_state(g[i], neighbor_count(g, w, h, x, y)));
    }
    assert(step(g, w, h) =~= g);
}

/// Whether `(x, y)` is one of the three cells of the vertical blinker
/// centered at `(cx, cy)`.
pub open spec fn in_vertical_blinker(cx: int, cy: int, x: int, y: int) -> bool {
    x == cx && cy - 1 <= y <= cy + 1
}

/// Whether `(x, y)` is one of the three cells of the horizontal blinker
/// centered at `(cx, cy)`.
pub open spec fn in_horizontal_blinker(cx: int, cy: int, x: int, y: int) -> bool {
    y == cy && cx - 1 <= x <= cx + 1
}

/// One step turns a vertical blinker on an otherwise dead grid into the
/// horizontal blinker with the same center: the center survives with two
/// live neighbors, the two end cells die, and the two cells beside the
/// center are born with exactly three live neighbors.
pub proof fn lemma_vertical_blinker_step(g: Seq<bool>, w: int, h: int, cx: int, cy: int)
    requires
        g.len() == w * h,
        1 <= cx,
        cx + 1 < w,
        1 <= cy,
        cy + 1 < h,
        forall|x: int, y: int| #[trigger]
            alive_at(g, w, h, x, y) <==> in_grid(w, h, x, y) && in_vertical_blinker(cx, cy, x, y),
    ensures
        step(g, w, h).len() == w * h,
        forall|x: int, y: int| #[trigger]
            alive_at(step(g, w, h), w, h, x, y) <==> in_grid(w, h, x, y)
                && in_horizontal_blinker(cx, cy, x, y),
{
    assert forall|x: int, y: int| #[trigger]
        alive_at(step(g, w, h), w, h, x, y) <==> in_grid(w, h, x, y) && in_horizontal_blinker(
        cx,
        cy,
        x,
        y,
    ) by {
        if in_grid(w, h, x, y) {
            lemma_cell_index_bound(w, h, x, y);
            lemma_cell_index_coords(w, x, y);
            assert(step(g, w, h)[y * w + x] == next_state(
                g[y * w + x],
                neighbor_count(g, w, h, x, y),
            ));
            assert(g[y * w + x] == alive_at(g, w, h, x, y));
        }
    }
}

/// One step turns a horizontal blinker on an otherwise dead grid back into
/// the vertical blinker with the same center.
pub proof fn lemma_horizontal_blinker_step(g: Seq<bool>, w: int, h: int, cx: int, cy: int)
    requires
        g.len() == w * h,
        1 <= cx,
        cx + 1 < w,
        1 <= cy,
        cy + 1 < h,
        forall|x: int, y: int| #[trigger]
            alive_at(g, w, h, x, y) <==> in_grid(w, h, x, y) && in_horizontal_blinker(
                cx,
                cy,
                x,
                y,
            ),
    ensures
        step(g, w, h).len() == w * h,
        forall|x: int, y: int| #[trigger]
            alive_at(step(g, w, h), w, h, x, y) <==> in_grid(w, h, x, y) && in_vertical_blinker(
                cx,
                cy,
                x,
                y,
            ),
{
    assert forall|x: int, y: int| #[trigger]
        alive_at(step(g, w, h), w, h, x, y) <==> in_grid(w, h, x, y) && in_vertical_blinker(
        cx,
        cy,
        x,
        y,
    ) by {
        if in_grid(w, h, x, y) {
            lemma_cell_index_bound(w, h, x, y);
            lemma_cell_index_coords(w, x, y);
            assert(step(g, w, h)[y * w + x] == next_state(
                g[y * w + x],
                neighbor_count(g, w, h, x, y),
            ));
            assert(g[y * w + x] == alive_at(g, w, h, x, y));
        }
    }
}

/// The classic three-cell blinker oscillates with period two: two steps
/// return a dead-bordered vertical blinker to exactly its starting grid.
pub proof fn lemma_blinker_period_two(g: Seq<bool>, w: int, h: int, cx: int, cy: int)
    requires
        g.len() == w * h,
        1 <= cx,
        cx + 1 < w,
        1 <= cy,
        cy + 1 < h,
        forall|x: int, y: int| #[trigger]
            alive_at(g, w, h, x, y) <==> in_grid(w, h, x, y) && in_vertical_blinker(cx, cy, x, y),
    ensures
        steps(g, w, h, 2) == g,
{
    let g1 = step(g, w, h);
    lemma_vertical_blinker_step(g, w, h, cx, cy);
    lemma_horizontal_blinker_step(g1, w, h, cx, cy);
    let g2 = step(g1, w, h);
    assert(steps(g, w, h, 1) == step(steps(g, w, h, 0), w, h));
    assert(steps(g, w, h, 2) == g2);
    assert forall|i: int| 0 <= i < w * h implies g2[i] == g[i] by {
        lemma_index_to_coords(w, h, i);
        let x = i % w;
        let y = i / w;
        assert(in_grid(w, h, x, y));
        assert(g2[i] == alive_at(g2, w, h, x, y));
        assert(g[i] == alive_at(g, w, h, x, y));
        assert(alive_at(g2, w, h, x, y) <==> in_grid(w, h, x, y) && in_vertical_blinker(
            cx,
            cy,
            x,
            y,
        ));
    }
    assert(g2 =~= g);
}

/// A cell on the grid boundary can see at most five of its eight neighbor
/// offsets inside the grid, so its count never exceeds five.
pub proof fn lemma_boundary_neighbor_bound(g: Seq<bool>, w: int, h: int, x: int, y: int)
    requires
        in_grid(w, h, x, y),
        x == 0 || y == 0 || x == w - 1 || y == h - 1,
    ensures
        neighbor_count(g, w, h, x, y) <= 5,
{
}

/// A corner cell can see at most three of its eight neighbor offsets
/// inside the grid, so its count never exceeds three.
pub proof fn lemma_corner_neighbor_bound(g: Seq<bool>, w: int, h: int, x: int, y: int)
    requires
        in_grid(w, h, x, y),
        x == 0 || x == w - 1,
        y == 0 || y == h - 1,
    ensures
        neighbor_count(g, w, h, x, y) <= 3,
{
}

} // verus!
