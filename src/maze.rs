use vstd::prelude::*;
use vstd::arithmetic::div_mod::lemma_fundamental_div_mod_converse;
use crate::point::Point;

verus! {

/// The state of one grid position.
#[derive(Clone, Copy, Debug, PartialEq, Eq, Structural)]
pub enum Cell {
    Wall,
    Open,
}

/// Why a maze or its geometry could not be built.
#[derive(Clone, Copy, Debug, PartialEq, Eq, Structural)]
pub enum MazeError {
    /// Width or height below three, even, or a grid too large to address.
    InvalidDimensions,
    /// A map without a single open cell.
    EmptyMap,
}

/// Multiplier of the generator's linear congruential random source.
pub const RNG_MUL: u64 = 6364136223846793005;

/// Increment of the generator's linear congruential random source.
pub const RNG_INC: u64 = 1442695040888963407;

/// The next state of the random source.
pub open spec fn rng_next(s: u64) -> u64 {
    s.wrapping_mul(RNG_MUL).wrapping_add(RNG_INC)
}

/// Which of `n` choices the random state `r` selects.
pub open spec fn pick(r: u64, n: int) -> int {
    (r >> 33u64) as int % n
}

/// Dimensions the generator accepts: odd, at least three, and a cell count that fits `usize`.
pub open spec fn valid_dims(w: int, h: int) -> bool {
    w >= 3 && h >= 3 && w % 2 == 1 && h % 2 == 1 && w * h <= usize::MAX
}

/// A logical cell of the doubled grid sits at odd coordinates in both axes.
pub open spec fn is_logical(x: int, y: int) -> bool {
    x % 2 == 1 && y % 2 == 1
}

/// A passage position joins two logical cells: exactly one of its coordinates is odd.
pub open spec fn is_passage(x: int, y: int) -> bool {
    (x % 2 == 1) != (y % 2 == 1)
}

/// Whether `(x, y)` lies on the grid's outer ring.
pub open spec fn on_border(w: int, h: int, x: int, y: int) -> bool {
    x == 0 || y == 0 || x == w - 1 || y == h - 1
}

/// Position of `(x, y)` in the row-major cell sequence.
pub open spec fn index_of(w: int, x: int, y: int) -> int {
    y * w + x
}

/// Whether `(x, y)` lies on the grid and holds an open cell.
pub open spec fn is_open(cells: Seq<Cell>, w: int, h: int, x: int, y: int) -> bool {
    0 <= x < w && 0 <= y < h && cells[index_of(w, x, y)] == Cell::Open
}

/// Number of positions `k < n` that hold `c` and whose logical-cell status is `logical`.
pub open spec fn count_cells(cells: Seq<Cell>, w: int, n: int, c: Cell, logical: bool) -> int
    decreases n,
{
    if n <= 0 {
        0
    } else {
        count_cells(cells, w, n - 1, c, logical) + if cells[n - 1] == c && is_logical(
            (n - 1) % w,
            (n - 1) / w,
        ) == logical {
            1int
        } else {
            0int
        }
    }
}

/// Column step of direction `d` (0 up, 1 down, 2 left, 3 right).
pub open spec fn dx(d: u8) -> int {
    if d == 2 {
        -1
    } else if d == 3 {
        1
    } else {
        0
    }
}

/// Row step of direction `d` (0 up, 1 down, 2 left, 3 right).
pub open spec fn dy(d: u8) -> int {
    if d == 0 {
        -1
    } else if d == 1 {
        1
    } else {
        0
    }
}

/// Whether the logical neighbour two steps from `(x, y)` in direction `d` is on the grid and unvisited.
pub open spec fn can_go(cells: Seq<Cell>, w: int, h: int, x: int, y: int, d: u8) -> bool {
    let nx = x + 2 * dx(d);
    let ny = y + 2 * dy(d);
    0 <= nx < w && 0 <= ny < h && cells[index_of(w, nx, ny)] == Cell::Wall
}

/// `seq![d]` when direction `d` leads to an unvisited neighbour, else nothing.
pub open spec fn if_can_go(cells: Seq<Cell>, w: int, h: int, x: int, y: int, d: u8) -> Seq<u8> {
    if can_go(cells, w, h, x, y, d) {
        seq![d]
    } else {
        Seq::empty()
    }
}

/// The directions with an unvisited neighbour, in the order up, down, left, right.
pub open spec fn candidates(cells: Seq<Cell>, w: int, h: int, x: int, y: int) -> Seq<u8> {
    if_can_go(cells, w, h, x, y, 0) + if_can_go(cells, w, h, x, y, 1) + if_can_go(
        cells,
        w,
        h,
        x,
        y,
        2,
    ) + if_can_go(cells, w, h, x, y, 3)
}

/// The state of the depth-first carving between two steps.
pub struct GenState {
    pub cells: Seq<Cell>,
    pub stack: Seq<Point>,
    pub rng: u64,
}

/// The carving state made of its three parts.
pub open spec fn gen_state(cells: Seq<Cell>, stack: Seq<Point>, rng: u64) -> GenState {
    GenState { cells, stack, rng }
}

/// One step of the carving: backtrack when the top of the stack has no unvisited
/// neighbour, else open the passage to a randomly chosen one and push it.
#[verifier::opaque]
pub open spec fn step(st: GenState, w: int, h: int) -> GenState {
    let cur = st.stack.last();
    let x = cur.x as int;
    let y = cur.y as int;
    let c = candidates(st.cells, w, h, x, y);
    if c.len() == 0 {
        GenState { cells: st.cells, stack: st.stack.drop_last(), rng: st.rng }
    } else {
        let r = rng_next(st.rng);
        let d = c[pick(r, c.len() as int)];
        let nx = x + 2 * dx(d);
        let ny = y + 2 * dy(d);
        GenState {
            cells: st.cells.update(index_of(w, x + dx(d), y + dy(d)), Cell::Open).update(
                index_of(w, nx, ny),
                Cell::Open,
            ),
            stack: st.stack.push(Point { x: nx as usize, y: ny as usize }),
            rng: r,
        }
    }
}

/// Steps of the carving until the stack is empty, at most `fuel` of them.
pub open spec fn run(st: GenState, w: int, h: int, fuel: nat) -> GenState
    decreases fuel,
{
    if fuel == 0 || st.stack.len() == 0 {
        st
    } else {
        run(step(st, w, h), w, h, (fuel - 1) as nat)
    }
}

/// While the stack is non-empty and fuel is left, a run takes one more step.
proof fn lemma_run_unfold(st: GenState, w: int, h: int, fuel: nat)
    requires
        st.stack.len() > 0,
        fuel > 0,
    ensures
        run(st, w, h, fuel) == run(step(st, w, h), w, h, (fuel - 1) as nat),
{
}

/// The entrance of every generated maze: the first logical cell.
pub open spec fn start_point() -> Point {
    Point { x: 1, y: 1 }
}

/// The state before the first step: all walls but the start cell, which is on the stack.
pub open spec fn initial_state(w: int, h: int, seed: u64) -> GenState {
    GenState {
        cells: Seq::new((w * h) as nat, |i: int| Cell::Wall).update(index_of(w, 1, 1), Cell::Open),
        stack: seq![start_point()],
        rng: seed,
    }
}

/// A bound on the number of steps the carving takes.
pub open spec fn step_budget(w: int, h: int) -> nat {
    (2 * (w * h) + 2) as nat
}

/// The cells of the maze generated for these dimensions and seed.
pub open spec fn maze_cells(w: int, h: int, seed: u64) -> Seq<Cell> {
    run(initial_state(w, h, seed), w, h, step_budget(w, h)).cells
}


/// Two grid positions that share a side.
pub open spec fn adjacent(a: (int, int), b: (int, int)) -> bool {
    (a.0 == b.0 && (a.1 - b.1 == 1 || b.1 - a.1 == 1)) || (a.1 == b.1 && (a.0 - b.0 == 1 || b.0
        - a.0 == 1))
}

/// A non-empty walk through open cells, each step to a side neighbour.
pub open spec fn is_open_path(cells: Seq<Cell>, w: int, h: int, path: Seq<(int, int)>) -> bool {
    &&& path.len() > 0
    &&& forall|i: int| 0 <= i < path.len() ==> #[trigger] is_open(cells, w, h, path[i].0, path[i].1)
    &&& forall|i: int| 0 <= i < path.len() - 1 ==> #[trigger] adjacent(path[i], path[i + 1])
}

/// Whether an open walk leads from `from` to `to`.
pub open spec fn reachable(cells: Seq<Cell>, w: int, h: int, from: (int, int), to: (int, int)) -> bool {
    exists|path: Seq<(int, int)>|
        #[trigger] is_open_path(cells, w, h, path) && path[0] == from && path.last() == to
}

/// No open cell on the outer ring, and none at a position with both coordinates even.
#[verifier::opaque]
pub open spec fn contained(cells: Seq<Cell>, w: int, h: int) -> bool {
    forall|x: int, y: int|
        #[trigger] is_open(cells, w, h, x, y) ==> !on_border(w, h, x, y) && (is_logical(x, y)
            || is_passage(x, y))
}

/// Every open passage joins two open logical cells.
#[verifier::opaque]
pub open spec fn passages_joined(cells: Seq<Cell>, w: int, h: int) -> bool {
    forall|x: int, y: int|
        #[trigger] is_open(cells, w, h, x, y) && is_passage(x, y) ==> if x % 2 == 1 {
            is_open(cells, w, h, x, y - 1) && is_open(cells, w, h, x, y + 1)
        } else {
            is_open(cells, w, h, x - 1, y) && is_open(cells, w, h, x + 1, y)
        }
}

/// Every open cell can be reached from the start cell.
#[verifier::opaque]
pub open spec fn connected(cells: Seq<Cell>, w: int, h: int, start: (int, int)) -> bool {
    forall|x: int, y: int| #[trigger]
        is_open(cells, w, h, x, y) ==> reachable(cells, w, h, start, (x, y))
}

/// Open passages: one fewer than open logical cells, as in a spanning tree.
pub open spec fn tree_count(cells: Seq<Cell>, w: int, h: int) -> bool {
    count_cells(cells, w, w * h, Cell::Open, false) + 1 == count_cells(
        cells,
        w,
        w * h,
        Cell::Open,
        true,
    )
}

/// A logical cell is settled once no direction leads to an unvisited neighbour.
pub open spec fn settled(cells: Seq<Cell>, w: int, h: int, x: int, y: int) -> bool {
    !can_go(cells, w, h, x, y, 0) && !can_go(cells, w, h, x, y, 1) && !can_go(cells, w, h, x, y, 2)
        && !can_go(cells, w, h, x, y, 3)
}

/// Every open logical cell is settled or still waits on the stack.
#[verifier::opaque]
pub open spec fn frontier_on_stack(cells: Seq<Cell>, stack: Seq<Point>, w: int, h: int) -> bool {
    forall|x: int, y: int| #[trigger]
        is_open(cells, w, h, x, y) && is_logical(x, y) ==> settled(cells, w, h, x, y)
            || stack.contains(Point { x: x as usize, y: y as usize })
}

/// Every logical cell of the grid is open.
#[verifier::opaque]
pub open spec fn spanning(cells: Seq<Cell>, w: int, h: int) -> bool {
    forall|x: int, y: int|
        0 <= x < w && 0 <= y < h && is_logical(x, y) ==> #[trigger] is_open(cells, w, h, x, y)
}

/// What holds of every generated maze.
pub open spec fn is_perfect_maze(m: MazeModel) -> bool {
    let s = (m.start.x as int, m.start.y as int);
    &&& is_open(m.cells, m.width, m.height, s.0, s.1)
    &&& contained(m.cells, m.width, m.height)
    &&& passages_joined(m.cells, m.width, m.height)
    &&& connected(m.cells, m.width, m.height, s)
    &&& tree_count(m.cells, m.width, m.height)
    &&& spanning(m.cells, m.width, m.height)
}

/// What holds between two steps of the carving.
pub open spec fn carve_inv(cells: Seq<Cell>, stack: Seq<Point>, w: int, h: int) -> bool {
    &&& valid_dims(w, h)
    &&& cells.len() == w * h
    &&& is_open(cells, w, h, 1, 1)
    &&& forall|i: int|
        0 <= i < stack.len() ==> is_logical(#[trigger] stack[i].x as int, stack[i].y as int)
            && is_open(cells, w, h, stack[i].x as int, stack[i].y as int)
    &&& contained(cells, w, h)
    &&& passages_joined(cells, w, h)
    &&& connected(cells, w, h, (1, 1))
    &&& tree_count(cells, w, h)
    &&& frontier_on_stack(cells, stack, w, h)
}

/// What the carving has left to do: each push opens a logical cell, each pop shrinks the stack.
pub open spec fn carve_measure(st: GenState, w: int, h: int) -> int {
    2 * count_cells(st.cells, w, w * h, Cell::Wall, true) + st.stack.len()
}


/// At most four candidate directions, each a direction with an unvisited neighbour.
proof fn lemma_candidates(cells: Seq<Cell>, w: int, h: int, x: int, y: int)
    ensures
        candidates(cells, w, h, x, y).len() <= 4,
        forall|i: int|
            0 <= i < candidates(cells, w, h, x, y).len() ==> #[trigger] candidates(
                cells,
                w,
                h,
                x,
                y,
            )[i] <= 3 && can_go(cells, w, h, x, y, candidates(cells, w, h, x, y)[i]),
{
    let a = if_can_go(cells, w, h, x, y, 0);
    let b = if_can_go(cells, w, h, x, y, 1);
    let c = if_can_go(cells, w, h, x, y, 2);
    let d = if_can_go(cells, w, h, x, y, 3);
    let all = candidates(cells, w, h, x, y);
    assert(all == a + b + c + d);
    assert forall|i: int| 0 <= i < all.len() implies #[trigger] all[i] <= 3 && can_go(
        cells,
        w,
        h,
        x,
        y,
        all[i],
    ) by {
        if i < a.len() {
            assert(all[i] == a[i]);
        } else if i < a.len() + b.len() {
            assert(all[i] == b[i - a.len()]);
        } else if i < a.len() + b.len() + c.len() {
            assert(all[i] == c[i - a.len() - b.len()]);
        } else {
            assert(all[i] == d[i - a.len() - b.len() - c.len()]);
        }
    }
}

/// A walk through open cells stays open when no cell closes.
proof fn lemma_path_mono(s: Seq<Cell>, t: Seq<Cell>, w: int, h: int, path: Seq<(int, int)>)
    requires
        is_open_path(s, w, h, path),
        forall|a: int, b: int| is_open(s, w, h, a, b) ==> #[trigger] is_open(t, w, h, a, b),
    ensures
        is_open_path(t, w, h, path),
{
    assert forall|i: int| 0 <= i < path.len() implies #[trigger] is_open(
        t,
        w,
        h,
        path[i].0,
        path[i].1,
    ) by {
        assert(is_open(s, w, h, path[i].0, path[i].1));
    }
}

/// Opening a passage and the cell behind it keeps every open cell reachable.
proof fn lemma_push_connected(
    s: Seq<Cell>,
    s2: Seq<Cell>,
    w: int,
    h: int,
    cur: (int, int),
    p: (int, int),
    nb: (int, int),
)
    requires
        connected(s, w, h, (1, 1)),
        is_open(s, w, h, cur.0, cur.1),
        is_open(s2, w, h, p.0, p.1),
        is_open(s2, w, h, nb.0, nb.1),
        adjacent(cur, p),
        adjacent(p, nb),
        forall|a: int, b: int| is_open(s, w, h, a, b) ==> #[trigger] is_open(s2, w, h, a, b),
        forall|a: int, b: int| #[trigger]
            is_open(s2, w, h, a, b) ==> is_open(s, w, h, a, b) || (a, b) == p || (a, b) == nb,
    ensures
        connected(s2, w, h, (1, 1)),
{
    reveal(connected);
    assert(reachable(s, w, h, (1, 1), cur));
    let path_c = choose|path: Seq<(int, int)>|
        #[trigger] is_open_path(s, w, h, path) && path[0] == (1int, 1int) && path.last() == cur;
    lemma_path_mono(s, s2, w, h, path_c);
    let path_p = path_c.push(p);
    let path_n = path_p.push(nb);
    assert(is_open_path(s2, w, h, path_p)) by {
        assert forall|i: int| 0 <= i < path_p.len() - 1 implies #[trigger] adjacent(
            path_p[i],
            path_p[i + 1],
        ) by {
            if i < path_c.len() - 1 {
                assert(adjacent(path_c[i], path_c[i + 1]));
            }
        }
        assert forall|i: int| 0 <= i < path_p.len() implies #[trigger] is_open(
            s2,
            w,
            h,
            path_p[i].0,
            path_p[i].1,
        ) by {
            if i < path_c.len() {
                assert(is_open(s2, w, h, path_c[i].0, path_c[i].1));
            }
        }
    }
    assert(is_open_path(s2, w, h, path_n)) by {
        assert forall|i: int| 0 <= i < path_n.len() - 1 implies #[trigger] adjacent(
            path_n[i],
            path_n[i + 1],
        ) by {
            if i < path_p.len() - 1 {
                assert(adjacent(path_p[i], path_p[i + 1]));
            }
        }
        assert forall|i: int| 0 <= i < path_n.len() implies #[trigger] is_open(
            s2,
            w,
            h,
            path_n[i].0,
            path_n[i].1,
        ) by {
            if i < path_p.len() {
                assert(is_open(s2, w, h, path_p[i].0, path_p[i].1));
            }
        }
    }
    assert forall|a: int, b: int| #[trigger] is_open(s2, w, h, a, b) implies reachable(
        s2,
        w,
        h,
        (1, 1),
        (a, b),
    ) by {
        if (a, b) == p {
            assert(path_p.last() == (a, b));
        } else if (a, b) == nb {
            assert(path_n.last() == (a, b));
        } else {
            assert(reachable(s, w, h, (1, 1), (a, b)));
            let pth = choose|path: Seq<(int, int)>|
                #[trigger] is_open_path(s, w, h, path) && path[0] == (1int, 1int) && path.last()
                    == (a, b);
            lemma_path_mono(s, s2, w, h, pth);
        }
    }
}

/// Opening a passage together with both cells it joins keeps passages joined and the grid contained.
proof fn lemma_push_shape(
    s: Seq<Cell>,
    s2: Seq<Cell>,
    w: int,
    h: int,
    cur: (int, int),
    p: (int, int),
    nb: (int, int),
)
    requires
        valid_dims(w, h),
        contained(s, w, h),
        passages_joined(s, w, h),
        is_open(s2, w, h, cur.0, cur.1),
        is_open(s2, w, h, nb.0, nb.1),
        is_logical(cur.0, cur.1),
        is_logical(nb.0, nb.1),
        0 <= cur.0 < w && 0 <= cur.1 < h,
        0 <= nb.0 < w && 0 <= nb.1 < h,
        (cur.0 == nb.0 && (cur.1 - nb.1 == 2 || nb.1 - cur.1 == 2)) || (cur.1 == nb.1 && (cur.0
            - nb.0 == 2 || nb.0 - cur.0 == 2)),
        p == ((cur.0 + nb.0) / 2, (cur.1 + nb.1) / 2),
        forall|a: int, b: int| is_open(s, w, h, a, b) ==> #[trigger] is_open(s2, w, h, a, b),
        forall|a: int, b: int| #[trigger]
            is_open(s2, w, h, a, b) ==> is_open(s, w, h, a, b) || (a, b) == p || (a, b) == nb,
    ensures
        contained(s2, w, h),
        passages_joined(s2, w, h),
{
    reveal(contained);
    reveal(passages_joined);
    assert forall|a: int, b: int| #[trigger]
        is_open(s2, w, h, a, b) && is_passage(a, b) implies if a % 2 == 1 {
        is_open(s2, w, h, a, b - 1) && is_open(s2, w, h, a, b + 1)
    } else {
        is_open(s2, w, h, a - 1, b) && is_open(s2, w, h, a + 1, b)
    } by {
        if is_open(s, w, h, a, b) {
            if a % 2 == 1 {
                assert(is_open(s, w, h, a, b - 1) && is_open(s, w, h, a, b + 1));
            } else {
                assert(is_open(s, w, h, a - 1, b) && is_open(s, w, h, a + 1, b));
            }
        } else {
            assert((a, b) == p);
            if cur.0 == nb.0 {
                assert(a == cur.0 && a % 2 == 1);
                if cur.1 < nb.1 {
                    assert(b - 1 == cur.1 && b + 1 == nb.1);
                } else {
                    assert(b + 1 == cur.1 && b - 1 == nb.1);
                }
            } else {
                assert(b == cur.1 && a % 2 == 0);
                if cur.0 < nb.0 {
                    assert(a - 1 == cur.0 && a + 1 == nb.0);
                } else {
                    assert(a + 1 == cur.0 && a - 1 == nb.0);
                }
            }
        }
    }
    assert forall|a: int, b: int| #[trigger] is_open(s2, w, h, a, b) implies !on_border(
        w,
        h,
        a,
        b,
    ) && (is_logical(a, b) || is_passage(a, b)) by {
        if is_open(s, w, h, a, b) {
        }
    }
}

/// The cells after opening the passage in direction `d` of `(x, y)` and the cell behind it.
pub open spec fn carve_cells(cells: Seq<Cell>, w: int, x: int, y: int, d: u8) -> Seq<Cell> {
    cells.update(index_of(w, x + dx(d), y + dy(d)), Cell::Open).update(
        index_of(w, x + 2 * dx(d), y + 2 * dy(d)),
        Cell::Open,
    )
}

/// Carving towards an unvisited neighbour keeps the invariant and opens one logical cell.
#[verifier::rlimit(40)]
proof fn lemma_carve(s: Seq<Cell>, stack: Seq<Point>, w: int, h: int, x: int, y: int, d: u8)
    requires
        carve_inv(s, stack, w, h),
        is_logical(x, y),
        is_open(s, w, h, x, y),
        d <= 3,
        can_go(s, w, h, x, y, d),
    ensures
        carve_inv(
            carve_cells(s, w, x, y, d),
            stack.push(Point { x: (x + 2 * dx(d)) as usize, y: (y + 2 * dy(d)) as usize }),
            w,
            h,
        ),
        count_cells(carve_cells(s, w, x, y, d), w, w * h, Cell::Wall, true) == count_cells(
            s,
            w,
            w * h,
            Cell::Wall,
            true,
        ) - 1,
{
    let px = x + dx(d);
    let py = y + dy(d);
    let nx = x + 2 * dx(d);
    let ny = y + 2 * dy(d);
    lemma_index(w, h, x, y);
    lemma_index(w, h, px, py);
    lemma_index(w, h, nx, ny);
    let ip = index_of(w, px, py);
    let inn = index_of(w, nx, ny);
    let s1 = s.update(ip, Cell::Open);
    let s2 = s1.update(inn, Cell::Open);
    assert(carve_cells(s, w, x, y, d) == s2);
    assert(ip != inn);
    assert(is_passage(px, py));
    assert(is_logical(nx, ny));
    assert(s[ip] == Cell::Wall) by {
        reveal(passages_joined);
        if s[ip] == Cell::Open {
            assert(is_open(s, w, h, px, py));
        }
    }
    let n = w * h;
    lemma_count_update(s, w, n, Cell::Open, false, ip, Cell::Open);
    lemma_count_update(s, w, n, Cell::Open, true, ip, Cell::Open);
    lemma_count_update(s, w, n, Cell::Wall, true, ip, Cell::Open);
    lemma_count_update(s1, w, n, Cell::Open, false, inn, Cell::Open);
    lemma_count_update(s1, w, n, Cell::Open, true, inn, Cell::Open);
    lemma_count_update(s1, w, n, Cell::Wall, true, inn, Cell::Open);
    assert forall|a: int, b: int| is_open(s, w, h, a, b) implies #[trigger] is_open(
        s2,
        w,
        h,
        a,
        b,
    ) by {
        lemma_index(w, h, a, b);
    }
    assert forall|a: int, b: int| #[trigger]
        is_open(s2, w, h, a, b) implies is_open(s, w, h, a, b) || (a, b) == (px, py) || (a, b) == (
        nx,
        ny,
    ) by {
        if 0 <= a < w && 0 <= b < h {
            lemma_index(w, h, a, b);
        }
    }
    assert(is_open(s2, w, h, px, py));
    assert(is_open(s2, w, h, nx, ny));
    lemma_push_connected(s, s2, w, h, (x, y), (px, py), (nx, ny));
    lemma_push_shape(s, s2, w, h, (x, y), (px, py), (nx, ny));
    assert forall|j: int| 0 <= j < s.len() && s2[j] == Cell::Wall implies #[trigger] s[j]
        == Cell::Wall by {}
    lemma_push_frontier(s, s2, stack, w, h, (px, py), (nx, ny));
    let st2 = stack.push(Point { x: nx as usize, y: ny as usize });
    assert forall|i: int| 0 <= i < st2.len() implies is_logical(
        #[trigger] st2[i].x as int,
        st2[i].y as int,
    ) && is_open(s2, w, h, st2[i].x as int, st2[i].y as int) by {
        if i < stack.len() {
            assert(st2[i] == stack[i]);
        }
    }
}

/// Opening cells keeps settled cells settled, and the new logical cell waits on the stack.
proof fn lemma_push_frontier(
    s: Seq<Cell>,
    s2: Seq<Cell>,
    stack: Seq<Point>,
    w: int,
    h: int,
    p: (int, int),
    nb: (int, int),
)
    requires
        valid_dims(w, h),
        s.len() == w * h,
        frontier_on_stack(s, stack, w, h),
        s2.len() == s.len(),
        forall|j: int| 0 <= j < s.len() && s2[j] == Cell::Wall ==> #[trigger] s[j] == Cell::Wall,
        forall|a: int, b: int| is_open(s, w, h, a, b) ==> #[trigger] is_open(s2, w, h, a, b),
        forall|a: int, b: int| #[trigger]
            is_open(s2, w, h, a, b) ==> is_open(s, w, h, a, b) || (a, b) == p || (a, b) == nb,
        !is_logical(p.0, p.1),
        0 <= nb.0 && 0 <= nb.1,
    ensures
        frontier_on_stack(s2, stack.push(Point { x: nb.0 as usize, y: nb.1 as usize }), w, h),
{
    reveal(frontier_on_stack);
    let st2 = stack.push(Point { x: nb.0 as usize, y: nb.1 as usize });
    assert forall|a: int, b: int| #[trigger]
        is_open(s2, w, h, a, b) && is_logical(a, b) implies settled(s2, w, h, a, b)
        || st2.contains(Point { x: a as usize, y: b as usize }) by {
        if (a, b) == nb {
            assert(st2[stack.len() as int] == Point { x: a as usize, y: b as usize });
        } else {
            assert(is_open(s, w, h, a, b));
            if stack.contains(Point { x: a as usize, y: b as usize }) {
                let i = choose|i: int|
                    0 <= i < stack.len() && stack[i] == Point { x: a as usize, y: b as usize };
                assert(st2[i] == stack[i]);
            } else {
                assert(settled(s, w, h, a, b));
                assert forall|d: u8| d <= 3 implies !can_go(s2, w, h, a, b, d) by {
                    if can_go(s2, w, h, a, b, d) {
                        let nx = a + 2 * dx(d);
                        let ny = b + 2 * dy(d);
                        lemma_index(w, h, nx, ny);
                        assert(s[index_of(w, nx, ny)] == Cell::Wall);
                        assert(can_go(s, w, h, a, b, d));
                    }
                }
                assert(!can_go(s2, w, h, a, b, 0));
                assert(!can_go(s2, w, h, a, b, 1));
                assert(!can_go(s2, w, h, a, b, 2));
                assert(!can_go(s2, w, h, a, b, 3));
            }
        }
    }
}

/// Backtracking from a cell without unvisited neighbours keeps every open cell settled or stacked.
proof fn lemma_pop_frontier(s: Seq<Cell>, stack: Seq<Point>, w: int, h: int)
    requires
        valid_dims(w, h),
        frontier_on_stack(s, stack, w, h),
        stack.len() > 0,
        candidates(s, w, h, stack.last().x as int, stack.last().y as int).len() == 0,
    ensures
        frontier_on_stack(s, stack.drop_last(), w, h),
{
    reveal(frontier_on_stack);
    lemma_dims_small(w, h);
    let cur = stack.last();
    let st2 = stack.drop_last();
    assert forall|a: int, b: int| #[trigger]
        is_open(s, w, h, a, b) && is_logical(a, b) implies settled(s, w, h, a, b) || st2.contains(
        Point { x: a as usize, y: b as usize },
    ) by {
        if !settled(s, w, h, a, b) {
            let pt = Point { x: a as usize, y: b as usize };
            assert(stack.contains(pt));
            let i = choose|i: int| 0 <= i < stack.len() && stack[i] == pt;
            if i == stack.len() - 1 {
                assert(cur.x as int == a && cur.y as int == b);
                assert(if_can_go(s, w, h, a, b, 0).len() == 0);
                assert(if_can_go(s, w, h, a, b, 1).len() == 0);
                assert(if_can_go(s, w, h, a, b, 2).len() == 0);
                assert(if_can_go(s, w, h, a, b, 3).len() == 0);
            } else {
                assert(st2[i] == pt);
            }
        }
    }
}

/// In a row where every open logical cell is settled, an open logical cell opens the rest of the row to its right.
proof fn lemma_walk_right(s: Seq<Cell>, w: int, h: int, x: int, y: int)
    requires
        valid_dims(w, h),
        s.len() == w * h,
        forall|a: int, b: int| #[trigger]
            is_open(s, w, h, a, b) && is_logical(a, b) ==> settled(s, w, h, a, b),
        is_open(s, w, h, x, y),
        is_logical(x, y),
    ensures
        forall|a: int| x <= a < w && is_logical(a, y) ==> #[trigger] is_open(s, w, h, a, y),
    decreases w - x,
{
    assert(settled(s, w, h, x, y));
    assert(!can_go(s, w, h, x, y, 3));
    if x + 2 < w {
        lemma_index(w, h, x + 2, y);
        assert(is_open(s, w, h, x + 2, y));
        lemma_walk_right(s, w, h, x + 2, y);
    }
}

/// Where every open logical cell is settled and the start is open, every logical cell is open.
proof fn lemma_walk_down(s: Seq<Cell>, w: int, h: int, y: int)
    requires
        valid_dims(w, h),
        s.len() == w * h,
        forall|a: int, b: int| #[trigger]
            is_open(s, w, h, a, b) && is_logical(a, b) ==> settled(s, w, h, a, b),
        is_open(s, w, h, 1, y),
        is_logical(1, y),
    ensures
        forall|a: int, b: int|
            0 <= a < w && y <= b < h && is_logical(a, b) ==> #[trigger] is_open(s, w, h, a, b),
    decreases h - y,
{
    lemma_walk_right(s, w, h, 1, y);
    assert(settled(s, w, h, 1, y));
    assert(!can_go(s, w, h, 1, y, 1));
    if y + 2 < h {
        lemma_index(w, h, 1, y + 2);
        assert(is_open(s, w, h, 1, y + 2));
        lemma_walk_down(s, w, h, y + 2);
    }
}

/// When the stack is empty, the carving has opened every logical cell.
proof fn lemma_spanning(s: Seq<Cell>, w: int, h: int)
    requires
        valid_dims(w, h),
        s.len() == w * h,
        is_open(s, w, h, 1, 1),
        frontier_on_stack(s, Seq::empty(), w, h),
    ensures
        spanning(s, w, h),
{
    reveal(frontier_on_stack);
    reveal(spanning);
    assert forall|a: int, b: int| #[trigger]
        is_open(s, w, h, a, b) && is_logical(a, b) implies settled(s, w, h, a, b) by {
        assert(!Seq::<Point>::empty().contains(Point { x: a as usize, y: b as usize }));
    }
    lemma_walk_down(s, w, h, 1);
}

/// One step of the carving keeps its invariant and lowers its measure.
proof fn lemma_step(st: GenState, w: int, h: int)
    requires
        carve_inv(st.cells, st.stack, w, h),
        st.stack.len() > 0,
    ensures
        carve_inv(step(st, w, h).cells, step(st, w, h).stack, w, h),
        carve_measure(step(st, w, h), w, h) < carve_measure(st, w, h),
{
    reveal(step);
    let s = st.cells;
    let cur = st.stack.last();
    let x = cur.x as int;
    let y = cur.y as int;
    assert(is_logical(x, y) && is_open(s, w, h, x, y));
    let c = candidates(s, w, h, x, y);
    let nxt = step(st, w, h);
    if c.len() == 0 {
        lemma_pop_frontier(s, st.stack, w, h);
        assert forall|i: int| 0 <= i < nxt.stack.len() implies is_logical(
            #[trigger] nxt.stack[i].x as int,
            nxt.stack[i].y as int,
        ) && is_open(s, w, h, nxt.stack[i].x as int, nxt.stack[i].y as int) by {
            assert(nxt.stack[i] == st.stack[i]);
        }
    } else {
        lemma_candidates(s, w, h, x, y);
        let r = rng_next(st.rng);
        let k = pick(r, c.len() as int);
        assert(0 <= k < c.len());
        let d = c[k];
        assert(d <= 3 && can_go(s, w, h, x, y, d));
        lemma_carve(s, st.stack, w, h, x, y, d);
        assert(nxt.cells == carve_cells(s, w, x, y, d));
    }
}

/// No position holds `c`: the count is zero.
proof fn lemma_count_none(cells: Seq<Cell>, w: int, n: int, c: Cell, logical: bool)
    requires
        forall|k: int| 0 <= k < n ==> cells[k] != c,
    ensures
        count_cells(cells, w, n, c, logical) == 0,
    decreases n,
{
    if n > 0 {
        lemma_count_none(cells, w, n - 1, c, logical);
    }
}

/// The state before the first step meets the carving's invariant, within the step budget.
proof fn lemma_initial(w: int, h: int, seed: u64)
    requires
        valid_dims(w, h),
    ensures
        carve_inv(initial_state(w, h, seed).cells, initial_state(w, h, seed).stack, w, h),
        carve_measure(initial_state(w, h, seed), w, h) < step_budget(w, h),
{
    let n = w * h;
    let s0 = Seq::new(n as nat, |i: int| Cell::Wall);
    let st = initial_state(w, h, seed);
    let s = st.cells;
    lemma_index(w, h, 1, 1);
    let k = index_of(w, 1, 1);
    assert(s == s0.update(k, Cell::Open));
    lemma_count_none(s0, w, n, Cell::Open, true);
    lemma_count_none(s0, w, n, Cell::Open, false);
    lemma_count_update(s0, w, n, Cell::Open, true, k, Cell::Open);
    lemma_count_update(s0, w, n, Cell::Open, false, k, Cell::Open);
    lemma_count_bounds(s, w, n, Cell::Wall, true);
    assert forall|a: int, b: int| #[trigger] is_open(s, w, h, a, b) implies a == 1 && b == 1 by {
        lemma_index(w, h, a, b);
    }
    assert(is_open(s, w, h, 1, 1));
    assert(contained(s, w, h)) by {
        reveal(contained);
    }
    assert(passages_joined(s, w, h)) by {
        reveal(passages_joined);
    }
    assert(connected(s, w, h, (1, 1))) by {
        reveal(connected);
        let path = seq![(1int, 1int)];
        assert(is_open_path(s, w, h, path));
        assert forall|a: int, b: int| #[trigger] is_open(s, w, h, a, b) implies reachable(
            s,
            w,
            h,
            (1, 1),
            (a, b),
        ) by {
            assert(path.last() == (a, b));
        }
    }
    assert(is_logical(st.stack[0].x as int, st.stack[0].y as int));
    assert(frontier_on_stack(s, st.stack, w, h)) by {
        reveal(frontier_on_stack);
        assert forall|a: int, b: int| #[trigger]
            is_open(s, w, h, a, b) && is_logical(a, b) implies settled(s, w, h, a, b)
            || st.stack.contains(Point { x: a as usize, y: b as usize }) by {
            assert(st.stack[0] == Point { x: a as usize, y: b as usize });
        }
    }
}

/// Running the carving to its end keeps the invariant and empties the stack.
proof fn lemma_run(st: GenState, w: int, h: int, fuel: nat)
    requires
        carve_inv(st.cells, st.stack, w, h),
        carve_measure(st, w, h) < fuel,
    ensures
        carve_inv(run(st, w, h, fuel).cells, run(st, w, h, fuel).stack, w, h),
        run(st, w, h, fuel).stack.len() == 0,
    decreases fuel,
{
    lemma_count_bounds(st.cells, w, w * h, Cell::Wall, true);
    if st.stack.len() > 0 {
        lemma_step(st, w, h);
        lemma_run(step(st, w, h), w, h, (fuel - 1) as nat);
    }
}

/// Dimensions the generator accepts leave room for a step past the border and fit `i64`.
pub(crate) proof fn lemma_dims_small(w: int, h: int)
    requires
        valid_dims(w, h),
    ensures
        w + 2 <= usize::MAX,
        h + 2 <= usize::MAX,
        w <= i64::MAX,
        h <= i64::MAX,
{
    assert(usize::MAX <= u64::MAX);
    assert(3 * w <= usize::MAX && 3 * h <= usize::MAX) by (nonlinear_arith)
        requires
            w * h <= usize::MAX,
            w >= 3,
            h >= 3,
    ;
}

/// Generation is a function of its inputs: two mazes generated with the same width,
/// height and seed are identical, cell for cell.
pub proof fn lemma_generation_deterministic(w: int, h: int, seed: u64, a: MazeModel, b: MazeModel)
    requires
        a == maze_model(w, h, seed),
        b == maze_model(w, h, seed),
    ensures
        a.cells == b.cells,
        a == b,
{
}

/// The map generated for these dimensions and seed.
pub open spec fn maze_model(w: int, h: int, seed: u64) -> MazeModel {
    MazeModel { width: w, height: h, cells: maze_cells(w, h, seed), start: start_point() }
}

/// Every maze the generator yields is perfect: every logical cell is open, every open
/// cell is reachable from the start, no open cell lies on the border or at a position
/// with both coordinates even, each open passage joins two open logical cells, and the
/// open passages number one fewer than the open logical cells.
pub proof fn lemma_generated_maze_is_perfect(w: int, h: int, seed: u64)
    requires
        valid_dims(w, h),
    ensures
        is_perfect_maze(maze_model(w, h, seed)),
        maze_model(w, h, seed).cells.len() == w * h,
{
    lemma_initial(w, h, seed);
    let fin = run(initial_state(w, h, seed), w, h, step_budget(w, h));
    lemma_run(initial_state(w, h, seed), w, h, step_budget(w, h));
    assert(fin.stack =~= Seq::empty());
    lemma_spanning(fin.cells, w, h);
}

/// The abstract content of a map.
pub struct MazeModel {
    pub width: int,
    pub height: int,
    pub cells: Seq<Cell>,
    pub start: Point,
}

/// A rectangular grid of cells with a designated entrance.
#[derive(Clone, Debug, PartialEq, Eq)]
pub struct Maze {
    width: usize,
    height: usize,
    cells: Vec<Cell>,
    start: Point,
}

impl View for Maze {
    type V = MazeModel;

    closed spec fn view(&self) -> MazeModel {
        MazeModel {
            width: self.width as int,
            height: self.height as int,
            cells: self.cells@,
            start: self.start,
        }
    }
}

/// Row-major positions of grid cells are in range and give back their column and row.
pub(crate) proof fn lemma_index(w: int, h: int, x: int, y: int)
    requires
        0 <= x < w,
        0 <= y < h,
    ensures
        0 <= index_of(w, x, y) < w * h,
        index_of(w, x, y) % w == x,
        index_of(w, x, y) / w == y,
{
    assert(0 <= y * w + x < w * h) by (nonlinear_arith)
        requires
            0 <= x < w,
            0 <= y < h,
    ;
    lemma_fundamental_div_mod_converse(y * w + x, w, y, x);
}

/// A count of positions lies between zero and the number of positions.
proof fn lemma_count_bounds(cells: Seq<Cell>, w: int, n: int, c: Cell, logical: bool)
    ensures
        0 <= count_cells(cells, w, n, c, logical) <= if n < 0 { 0 } else { n },
    decreases n,
{
    if n > 0 {
        lemma_count_bounds(cells, w, n - 1, c, logical);
    }
}

/// How a count changes when one position is overwritten.
proof fn lemma_count_update(
    cells: Seq<Cell>,
    w: int,
    n: int,
    c: Cell,
    logical: bool,
    k: int,
    v: Cell,
)
    requires
        0 <= k < cells.len(),
        n <= cells.len(),
    ensures
        count_cells(cells.update(k, v), w, n, c, logical) == count_cells(cells, w, n, c, logical)
            + if k < n && is_logical(k % w, k / w) == logical {
            (if v == c {
                1int
            } else {
                0int
            }) - (if cells[k] == c {
                1int
            } else {
                0int
            })
        } else {
            0int
        },
    decreases n,
{
    if n > 0 {
        lemma_count_update(cells, w, n - 1, c, logical, k, v);
    }
}

/// The directions from `(x, y)` towards an unvisited logical neighbour, in the order up, down, left, right.
fn unvisited_dirs(cells: &Vec<Cell>, width: usize, height: usize, x: usize, y: usize) -> (r: Vec<u8>)
    requires
        valid_dims(width as int, height as int),
        cells@.len() == width * height,
        x < width,
        y < height,
        width + 2 <= usize::MAX,
        height + 2 <= usize::MAX,
    ensures
        r@ == candidates(cells@, width as int, height as int, x as int, y as int),
{
    let ghost w = width as int;
    let ghost h = height as int;
    let mut cands: Vec<u8> = Vec::new();
    if y >= 2 {
        proof {
            lemma_index(w, h, x as int, y - 2);
        }
        if cells[(y - 2) * width + x] == Cell::Wall {
            cands.push(0);
        }
    }
    assert(cands@ =~= if_can_go(cells@, w, h, x as int, y as int, 0));
    let ghost c0 = cands@;
    if y + 2 < height {
        proof {
            lemma_index(w, h, x as int, y + 2);
        }
        if cells[(y + 2) * width + x] == Cell::Wall {
            cands.push(1);
        }
    }
    assert(cands@ =~= c0 + if_can_go(cells@, w, h, x as int, y as int, 1));
    let ghost c1 = cands@;
    if x >= 2 {
        proof {
            lemma_index(w, h, x - 2, y as int);
        }
        if cells[y * width + (x - 2)] == Cell::Wall {
            cands.push(2);
        }
    }
    assert(cands@ =~= c1 + if_can_go(cells@, w, h, x as int, y as int, 2));
    let ghost c2 = cands@;
    if x + 2 < width {
        proof {
            lemma_index(w, h, x + 2, y as int);
        }
        if cells[y * width + (x + 2)] == Cell::Wall {
            cands.push(3);
        }
    }
    assert(cands@ =~= c2 + if_can_go(cells@, w, h, x as int, y as int, 3));
    cands
}

/// Performs one step of the carving on the working state.
fn carve_step(
    cells: &mut Vec<Cell>,
    stack: &mut Vec<Point>,
    rng: &mut u64,
    width: usize,
    height: usize,
)
    requires
        carve_inv(old(cells)@, old(stack)@, width as int, height as int),
        old(stack)@.len() > 0,
        width + 2 <= usize::MAX,
        height + 2 <= usize::MAX,
    ensures
        gen_state(final(cells)@, final(stack)@, *final(rng)) == step(
            gen_state(old(cells)@, old(stack)@, *old(rng)),
            width as int,
            height as int,
        ),
{
    reveal(step);
    let ghost w = width as int;
    let ghost h = height as int;
    let ghost st = gen_state(cells@, stack@, *rng);
    let top = stack.len() - 1;
    let cur = stack[top];
    let x = cur.x;
    let y = cur.y;
    assert(is_logical(stack@[top as int].x as int, stack@[top as int].y as int));
    assert(is_open(cells@, w, h, x as int, y as int));
    let cands = unvisited_dirs(cells, width, height, x, y);
    if cands.len() == 0 {
        stack.pop();
        assert(stack@ =~= st.stack.drop_last());
    } else {
        proof {
            lemma_candidates(cells@, w, h, x as int, y as int);
        }
        let r = rng.wrapping_mul(RNG_MUL).wrapping_add(RNG_INC);
        *rng = r;
        let k = ((r >> 33) % (cands.len() as u64)) as usize;
        assert(k as int == pick(r, cands@.len() as int));
        let d = cands[k];
        assert(can_go(cells@, w, h, x as int, y as int, d));
        let (px, py, nx, ny) = if d == 0 {
            (x, y - 1, x, y - 2)
        } else if d == 1 {
            (x, y + 1, x, y + 2)
        } else if d == 2 {
            (x - 1, y, x - 2, y)
        } else {
            (x + 1, y, x + 2, y)
        };
        proof {
            lemma_index(w, h, px as int, py as int);
            lemma_index(w, h, nx as int, ny as int);
        }
        cells.set(py * width + px, Cell::Open);
        cells.set(ny * width + nx, Cell::Open);
        stack.push(Point { x: nx, y: ny });
    }
}

impl Maze {
    /// The structural facts every map keeps.
    pub open spec fn wf(&self) -> bool {
        &&& valid_dims(self@.width, self@.height)
        &&& self@.cells.len() == self@.width * self@.height
        &&& self@.start.x < self@.width
        &&& self@.start.y < self@.height
    }

    /// Number of grid columns.
    pub fn width(&self) -> (r: usize)
        ensures
            r == self@.width,
    {
        self.width
    }

    /// Number of grid rows.
    pub fn height(&self) -> (r: usize)
        ensures
            r == self@.height,
    {
        self.height
    }

    /// The maze entrance.
    pub fn get_start(&self) -> (r: Point)
        ensures
            r == self@.start,
    {
        self.start
    }

    /// The state of the cell at `(x, y)`.
    pub fn cell(&self, x: usize, y: usize) -> (r: Cell)
        requires
            self.wf(),
            x < self@.width,
            y < self@.height,
        ensures
            r == self@.cells[index_of(self@.width, x as int, y as int)],
    {
        proof {
            lemma_index(self@.width, self@.height, x as int, y as int);
        }
        self.cells[y * self.width + x]
    }

    /// Whether `(x, y)` lies on the grid and is open.
    pub fn is_open_at(&self, x: usize, y: usize) -> (r: bool)
        requires
            self.wf(),
        ensures
            r == is_open(self@.cells, self@.width, self@.height, x as int, y as int),
    {
        if x < self.width && y < self.height {
            self.cell(x, y) == Cell::Open
        } else {
            false
        }
    }

    /// Generates a maze of `width` by `height` grid positions by randomized depth-first
    /// carving seeded with `seed`; dimensions must be odd and at least three.
    pub fn generate(width: usize, height: usize, seed: u64) -> (r: Result<Maze, MazeError>)
        ensures
            match r {
                Ok(m) => {
                    &&& valid_dims(width as int, height as int)
                    &&& m.wf()
                    &&& m@ == maze_model(width as int, height as int, seed)
                    &&& is_perfect_maze(m@)
                },
                Err(e) => !valid_dims(width as int, height as int) && e
                    == MazeError::InvalidDimensions,
            },
    {
        if width < 3 || height < 3 || width % 2 == 0 || height % 2 == 0 {
            return Err(MazeError::InvalidDimensions);
        }
        let n = match width.checked_mul(height) {
            Some(n) => n,
            None => {
                return Err(MazeError::InvalidDimensions);
            },
        };
        let ghost w = width as int;
        let ghost h = height as int;
        proof {
            lemma_dims_small(w, h);
        }
        let mut cells: Vec<Cell> = Vec::new();
        let mut i: usize = 0;
        while i < n
            invariant
                i <= n,
                cells@ == Seq::new(i as nat, |j: int| Cell::Wall),
            decreases n - i,
        {
            cells.push(Cell::Wall);
            i = i + 1;
            assert(cells@ =~= Seq::new(i as nat, |j: int| Cell::Wall));
        }
        proof {
            lemma_index(w, h, 1, 1);
        }
        cells.set(width + 1, Cell::Open);
        let mut stack: Vec<Point> = Vec::new();
        stack.push(Point { x: 1, y: 1 });
        let mut rng: u64 = seed;
        proof {
            lemma_initial(w, h, seed);
            assert(stack@ =~= seq![start_point()]);
            assert(gen_state(cells@, stack@, rng) == initial_state(w, h, seed));
        }
        let ghost mut fuel: nat = step_budget(w, h);
        while stack.len() > 0
            invariant
                valid_dims(w, h),
                w == width,
                h == height,
                n == w * h,
                w + 2 <= usize::MAX,
                h + 2 <= usize::MAX,
                carve_inv(cells@, stack@, w, h),
                run(gen_state(cells@, stack@, rng), w, h, fuel) == run(
                    initial_state(w, h, seed),
                    w,
                    h,
                    step_budget(w, h),
                ),
                carve_measure(gen_state(cells@, stack@, rng), w, h) < fuel,
            decreases carve_measure(gen_state(cells@, stack@, rng), w, h),
        {
            let ghost st = gen_state(cells@, stack@, rng);
            proof {
                lemma_step(st, w, h);
                lemma_count_bounds(cells@, w, w * h, Cell::Wall, true);
            }
            carve_step(&mut cells, &mut stack, &mut rng, width, height);
            proof {
                lemma_run_unfold(st, w, h, fuel);
                lemma_count_bounds(cells@, w, w * h, Cell::Wall, true);
                fuel = (fuel - 1) as nat;
            }
        }
        proof {
            lemma_generated_maze_is_perfect(w, h, seed);
        }
        let m = Maze { width, height, cells, start: Point { x: 1, y: 1 } };
        assert(m@ == maze_model(w, h, seed));
        Ok(m)
    }
}

} // verus!
