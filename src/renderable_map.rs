use vstd::prelude::*;
use crate::cube::{Cube, FaceMask, Vec3, vec3};
use crate::maze::{
    Cell, Maze, MazeError, MazeModel, index_of, is_open, lemma_dims_small, lemma_index, valid_dims,
};

verus! {

/// A wall shows a side only where an open cell lies next to it, and always its top.
pub open spec fn wall_faces(m: MazeModel, x: int, y: int) -> FaceMask {
    FaceMask {
        front: is_open(m.cells, m.width, m.height, x, y - 1),
        back: is_open(m.cells, m.width, m.height, x, y + 1),
        left: is_open(m.cells, m.width, m.height, x - 1, y),
        right: is_open(m.cells, m.width, m.height, x + 1, y),
        bottom: false,
        top: true,
    }
}

/// A floor tile shows only its top.
pub open spec fn floor_faces() -> FaceMask {
    FaceMask { front: false, back: false, left: false, right: false, bottom: false, top: true }
}

/// The wall cube of grid cell `(x, y)`: it stands on the floor plane, spanning
/// `[x, x + 1] x [0, 1] x [y, y + 1]`.
pub open spec fn wall_cube(m: MazeModel, x: int, y: int) -> Cube {
    Cube { position: vec3(x as i64, 0, y as i64), faces: wall_faces(m, x, y) }
}

/// The floor cube of grid cell `(x, y)`: it lies just below the floor plane, so
/// that its top face is the floor tile `[x, x + 1] x {0} x [y, y + 1]`.
pub open spec fn floor_cube(x: int, y: int) -> Cube {
    Cube { position: vec3(x as i64, -1i64, y as i64), faces: floor_faces() }
}

/// The cube of the cell at row-major position `k`.
pub open spec fn cube_of(m: MazeModel, k: int) -> Cube {
    let x = k % m.width;
    let y = k / m.width;
    if m.cells[k] == Cell::Open {
        floor_cube(x, y)
    } else {
        wall_cube(m, x, y)
    }
}

/// The cubes of the first `n` cells in row-major order, floors (`open`) or walls.
pub open spec fn cubes_upto(m: MazeModel, n: int, open: bool) -> Seq<Cube>
    decreases n,
{
    if n <= 0 {
        Seq::empty()
    } else {
        cubes_upto(m, n - 1, open) + if (m.cells[n - 1] == Cell::Open) == open {
            seq![cube_of(m, n - 1)]
        } else {
            Seq::empty()
        }
    }
}

/// The wall cubes of a map, row by row.
pub open spec fn wall_cubes(m: MazeModel) -> Seq<Cube> {
    cubes_upto(m, m.width * m.height, false)
}

/// The floor cubes of a map, row by row.
pub open spec fn floor_cubes(m: MazeModel) -> Seq<Cube> {
    cubes_upto(m, m.width * m.height, true)
}

/// The row-major cell position under a cube's footprint.
pub open spec fn footprint_index(w: int, c: Cube) -> int {
    index_of(w, c.position.x as int, c.position.z as int)
}

/// The cube of cell `k` lies over that cell.
proof fn lemma_cube_of(m: MazeModel, k: int)
    requires
        valid_dims(m.width, m.height),
        0 <= k < m.width * m.height,
    ensures
        0 <= k % m.width < m.width,
        0 <= k / m.width < m.height,
        cube_of(m, k).position.x as int == k % m.width,
        cube_of(m, k).position.z as int == k / m.width,
        footprint_index(m.width, cube_of(m, k)) == k,
{
    let w = m.width;
    let h = m.height;
    lemma_dims_small(w, h);
    let x = k % w;
    let y = k / w;
    assert(k == index_of(w, x, y) && 0 <= x < w && 0 <= y < h) by (nonlinear_arith)
        requires
            x == k % w,
            y == k / w,
            0 <= k < w * h,
            w > 0,
    ;
}

/// Each of the first `n` cells gives one cube, floor or wall.
proof fn lemma_cubes_len(m: MazeModel, n: int)
    requires
        0 <= n,
    ensures
        cubes_upto(m, n, true).len() + cubes_upto(m, n, false).len() == n,
    decreases n,
{
    if n > 0 {
        lemma_cubes_len(m, n - 1);
    }
}

/// The cubes of the first `n` cells: each is the cube of a cell of the right kind,
/// they come in strictly increasing cell order, and each such cell has its cube.
proof fn lemma_cubes_upto(m: MazeModel, n: int, open: bool)
    requires
        valid_dims(m.width, m.height),
        m.cells.len() == m.width * m.height,
        0 <= n <= m.width * m.height,
    ensures
        forall|i: int|
            0 <= i < cubes_upto(m, n, open).len() ==> {
                let c = #[trigger] cubes_upto(m, n, open)[i];
                let k = footprint_index(m.width, c);
                &&& 0 <= k < n
                &&& c == cube_of(m, k)
                &&& (m.cells[k] == Cell::Open) == open
            },
        forall|i: int, j: int|
            0 <= i < j < cubes_upto(m, n, open).len() ==> footprint_index(
                m.width,
                #[trigger] cubes_upto(m, n, open)[i],
            ) < footprint_index(m.width, #[trigger] cubes_upto(m, n, open)[j]),
        forall|k: int|
            0 <= k < n && (m.cells[k] == Cell::Open) == open ==> #[trigger] cubes_upto(
                m,
                n,
                open,
            ).contains(cube_of(m, k)),
    decreases n,
{
    if n > 0 {
        lemma_cubes_upto(m, n - 1, open);
        let prev = cubes_upto(m, n - 1, open);
        let cur = cubes_upto(m, n, open);
        lemma_cube_of(m, n - 1);
        assert forall|i: int| 0 <= i < prev.len() implies #[trigger] cur[i] == prev[i] by {}
        assert forall|k: int|
            0 <= k < n && (m.cells[k] == Cell::Open) == open implies #[trigger] cur.contains(
            cube_of(m, k),
        ) by {
            if k < n - 1 {
                assert(prev.contains(cube_of(m, k)));
                let i = choose|i: int| 0 <= i < prev.len() && prev[i] == cube_of(m, k);
                assert(cur[i] == cube_of(m, k));
            } else {
                assert(cur[cur.len() - 1] == cube_of(m, k));
            }
        }
    }
}

/// Every cell of a map becomes exactly one cube: the floor cubes and the wall cubes
/// together number `width * height`; each open cell `(x, y)` has the floor cube at
/// `(x, -1, y)` and each wall cell the wall cube at `(x, 0, y)`; every cube lies over
/// a cell of its kind, and no two cubes cover the same cell.
pub proof fn lemma_geometry_complete(m: MazeModel)
    requires
        valid_dims(m.width, m.height),
        m.cells.len() == m.width * m.height,
    ensures
        wall_cubes(m).len() + floor_cubes(m).len() == m.width * m.height,
        forall|x: int, y: int|
            0 <= x < m.width && 0 <= y < m.height && #[trigger] is_open(
                m.cells,
                m.width,
                m.height,
                x,
                y,
            ) ==> floor_cubes(m).contains(floor_cube(x, y)),
        forall|x: int, y: int|
            0 <= x < m.width && 0 <= y < m.height && !#[trigger] is_open(
                m.cells,
                m.width,
                m.height,
                x,
                y,
            ) ==> wall_cubes(m).contains(wall_cube(m, x, y)),
        forall|i: int|
            0 <= i < floor_cubes(m).len() ==> {
                let c = #[trigger] floor_cubes(m)[i];
                let x = c.position.x as int;
                let y = c.position.z as int;
                &&& 0 <= x < m.width && 0 <= y < m.height
                &&& is_open(m.cells, m.width, m.height, x, y)
                &&& c == floor_cube(x, y)
            },
        forall|i: int|
            0 <= i < wall_cubes(m).len() ==> {
                let c = #[trigger] wall_cubes(m)[i];
                let x = c.position.x as int;
                let y = c.position.z as int;
                &&& 0 <= x < m.width && 0 <= y < m.height
                &&& !is_open(m.cells, m.width, m.height, x, y)
                &&& c == wall_cube(m, x, y)
            },
        forall|i: int, j: int|
            0 <= i < j < floor_cubes(m).len() ==> (#[trigger] floor_cubes(m)[i]).position != (
            #[trigger] floor_cubes(m)[j]).position,
        forall|i: int, j: int|
            0 <= i < j < wall_cubes(m).len() ==> (#[trigger] wall_cubes(m)[i]).position != (
            #[trigger] wall_cubes(m)[j]).position,
        forall|i: int, j: int|
            0 <= i < wall_cubes(m).len() && 0 <= j < floor_cubes(m).len() ==> footprint_index(
                m.width,
                #[trigger] wall_cubes(m)[i],
            ) != footprint_index(m.width, #[trigger] floor_cubes(m)[j]),
{
    let w = m.width;
    let h = m.height;
    let n = w * h;
    lemma_cubes_len(m, n);
    lemma_cubes_upto(m, n, true);
    lemma_cubes_upto(m, n, false);
    let fl = floor_cubes(m);
    let wl = wall_cubes(m);
    assert forall|x: int, y: int|
        0 <= x < w && 0 <= y < h && #[trigger] is_open(
            m.cells,
            w,
            h,
            x,
            y,
        ) implies fl.contains(floor_cube(x, y)) by {
        lemma_index(w, h, x, y);
        let k = index_of(w, x, y);
        assert(fl.contains(cube_of(m, k)));
    }
    assert forall|x: int, y: int|
        0 <= x < w && 0 <= y < h && !#[trigger] is_open(
            m.cells,
            w,
            h,
            x,
            y,
        ) implies wl.contains(wall_cube(m, x, y)) by {
        lemma_index(w, h, x, y);
        let k = index_of(w, x, y);
        assert(wl.contains(cube_of(m, k)));
    }
    assert forall|i: int| 0 <= i < fl.len() implies {
        let c = #[trigger] fl[i];
        let x = c.position.x as int;
        let y = c.position.z as int;
        &&& 0 <= x < w && 0 <= y < h
        &&& is_open(m.cells, w, h, x, y)
        &&& c == floor_cube(x, y)
    } by {
        lemma_cube_of(m, footprint_index(w, fl[i]));
    }
    assert forall|i: int| 0 <= i < wl.len() implies {
        let c = #[trigger] wl[i];
        let x = c.position.x as int;
        let y = c.position.z as int;
        &&& 0 <= x < w && 0 <= y < h
        &&& !is_open(m.cells, w, h, x, y)
        &&& c == wall_cube(m, x, y)
    } by {
        lemma_cube_of(m, footprint_index(w, wl[i]));
    }
    assert forall|i: int, j: int| 0 <= i < j < fl.len() implies (#[trigger] fl[i]).position != (
    #[trigger] fl[j]).position by {
        assert(footprint_index(w, fl[i]) < footprint_index(w, fl[j]));
    }
    assert forall|i: int, j: int| 0 <= i < j < wl.len() implies (#[trigger] wl[i]).position != (
    #[trigger] wl[j]).position by {
        assert(footprint_index(w, wl[i]) < footprint_index(w, wl[j]));
    }
}

/// A map turned into cubes, with the two textures it is drawn with.
pub struct RenderableMap<T> {
    maze: Maze,
    walls: Vec<Cube>,
    floors: Vec<Cube>,
    floor_texture: T,
    wall_texture: T,
}

impl<T> RenderableMap<T> {
    pub closed spec fn spec_maze(&self) -> MazeModel {
        self.maze@
    }

    pub closed spec fn spec_walls(&self) -> Seq<Cube> {
        self.walls@
    }

    pub closed spec fn spec_floors(&self) -> Seq<Cube> {
        self.floors@
    }

    pub closed spec fn spec_floor_texture(&self) -> T {
        self.floor_texture
    }

    pub closed spec fn spec_wall_texture(&self) -> T {
        self.wall_texture
    }

    /// Builds one cube for every cell of `maze`: a floor tile for each open cell and a
    /// wall block for each wall cell. A map without an open cell is refused.
    pub fn new(maze: Maze, floor_texture: T, wall_texture: T) -> (r: Result<
        RenderableMap<T>,
        MazeError,
    >)
        requires
            maze.wf(),
        ensures
            match r {
                Ok(rm) => {
                    &&& floor_cubes(maze@).len() > 0
                    &&& rm.spec_maze() == maze@
                    &&& rm.spec_walls() == wall_cubes(maze@)
                    &&& rm.spec_floors() == floor_cubes(maze@)
                    &&& rm.spec_floor_texture() == floor_texture
                    &&& rm.spec_wall_texture() == wall_texture
                },
                Err(e) => e == MazeError::EmptyMap && floor_cubes(maze@).len() == 0,
            },
    {
        let w = maze.width();
        let h = maze.height();
        let ghost m = maze@;
        proof {
            lemma_dims_small(w as int, h as int);
        }
        let n = w * h;
        let mut walls: Vec<Cube> = Vec::new();
        let mut floors: Vec<Cube> = Vec::new();
        let mut k: usize = 0;
        while k < n
            invariant
                maze.wf(),
                m == maze@,
                w == m.width,
                h == m.height,
                n == w * h,
                w + 2 <= usize::MAX,
                h + 2 <= usize::MAX,
                w <= i64::MAX,
                h <= i64::MAX,
                k <= n,
                walls@ == cubes_upto(m, k as int, false),
                floors@ == cubes_upto(m, k as int, true),
            decreases n - k,
        {
            let x = k % w;
            let y = k / w;
            assert(k as int == index_of(w as int, x as int, y as int) && y < h) by (nonlinear_arith)
                requires
                    x == k % w,
                    y == k / w,
                    k < w * h,
                    w > 0,
            ;
            if maze.cell(x, y) == Cell::Open {
                floors.push(Cube::new(Vec3::new(x as i64, -1, y as i64), floor_faces_exec()));
            } else {
                let faces = FaceMask {
                    front: y > 0 && maze.is_open_at(x, y - 1),
                    back: maze.is_open_at(x, y + 1),
                    left: x > 0 && maze.is_open_at(x - 1, y),
                    right: maze.is_open_at(x + 1, y),
                    bottom: false,
                    top: true,
                };
                walls.push(Cube::new(Vec3::new(x as i64, 0, y as i64), faces));
            }
            k = k + 1;
            assert(walls@ =~= cubes_upto(m, k as int, false));
            assert(floors@ =~= cubes_upto(m, k as int, true));
        }
        if floors.len() == 0 {
            return Err(MazeError::EmptyMap);
        }
        Ok(RenderableMap { maze, walls, floors, floor_texture, wall_texture })
    }
}

impl<T> RenderableMap<T> {
    /// The wall cubes, row by row.
    pub fn get_walls(&self) -> (r: &Vec<Cube>)
        ensures
            r@ == self.spec_walls(),
    {
        &self.walls
    }

    /// The floor cubes, row by row.
    pub fn get_floors(&self) -> (r: &Vec<Cube>)
        ensures
            r@ == self.spec_floors(),
    {
        &self.floors
    }

    /// The texture the walls are drawn with.
    pub fn get_wall_texture(&self) -> (r: &T)
        ensures
            *r == self.spec_wall_texture(),
    {
        &self.wall_texture
    }

    /// The texture the floor is drawn with.
    pub fn get_floor_texture(&self) -> (r: &T)
        ensures
            *r == self.spec_floor_texture(),
    {
        &self.floor_texture
    }

    /// The map the cubes were built from.
    pub fn get_map(&self) -> (r: &Maze)
        ensures
            r@ == self.spec_maze(),
    {
        &self.maze
    }
}

fn floor_faces_exec() -> (r: FaceMask)
    ensures
        r == floor_faces(),
{
    FaceMask { front: false, back: false, left: false, right: false, bottom: false, top: true }
}

} // verus!
