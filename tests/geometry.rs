use std::collections::HashSet;

use maze3d::cube::{Cube, FaceMask, Vec3, Vertex};
use maze3d::maze::{Cell, Maze};
use maze3d::renderable_map::RenderableMap;

fn top_only() -> FaceMask {
    FaceMask { front: false, back: false, left: false, right: false, bottom: false, top: true }
}

fn all_faces() -> FaceMask {
    FaceMask { front: true, back: true, left: true, right: true, bottom: true, top: true }
}

#[test]
fn five_by_five_seed_42_geometry() {
    let m = Maze::generate(5, 5, 42).unwrap();
    let r = RenderableMap::new(m, "floor", "wall").unwrap();
    assert_eq!(r.get_floors().len(), 7);
    assert_eq!(r.get_walls().len(), 18);
    let mut seen = HashSet::new();
    for c in r.get_walls().iter().chain(r.get_floors().iter()) {
        assert!(seen.insert((c.position.x, c.position.z)));
    }
    assert_eq!(seen.len(), 25);
    assert_eq!(*r.get_floor_texture(), "floor");
    assert_eq!(*r.get_wall_texture(), "wall");
    assert_eq!(r.get_map().width(), 5);
}

#[test]
fn cube_count_matches_grid_area() {
    for seed in [0u64, 5, 77] {
        let m = Maze::generate(9, 7, seed).unwrap();
        let r = RenderableMap::new(m, 0u32, 1u32).unwrap();
        assert_eq!(r.get_walls().len() + r.get_floors().len(), 63);
    }
}

#[test]
fn cubes_sit_at_their_grid_positions() {
    let m = Maze::generate(7, 7, 3).unwrap();
    let r = RenderableMap::new(m.clone(), (), ()).unwrap();
    // the four corners and the centre
    for (gx, gy) in [(0usize, 0usize), (6, 0), (0, 6), (6, 6), (3, 3), (1, 1)] {
        let floor = r
            .get_floors()
            .iter()
            .find(|c| c.position.x == gx as i64 && c.position.z == gy as i64);
        let wall = r
            .get_walls()
            .iter()
            .find(|c| c.position.x == gx as i64 && c.position.z == gy as i64);
        if m.cell(gx, gy) == Cell::Open {
            assert_eq!(floor.unwrap().position, Vec3::new(gx as i64, -1, gy as i64));
            assert_eq!(floor.unwrap().faces, top_only());
            assert!(wall.is_none());
        } else {
            assert_eq!(wall.unwrap().position, Vec3::new(gx as i64, 0, gy as i64));
            assert!(floor.is_none());
        }
    }
    // the start cell is open, so the camera starts over a floor tile
    assert!(r.get_floors().iter().any(|c| c.position == Vec3::new(1, -1, 1)));
}

#[test]
fn wall_faces_point_at_open_neighbours() {
    let m = Maze::generate(3, 3, 0).unwrap();
    let r = RenderableMap::new(m, (), ()).unwrap();
    let above = r.get_walls().iter().find(|c| c.position == Vec3::new(1, 0, 0)).unwrap();
    assert_eq!(
        above.faces,
        FaceMask { front: false, back: true, left: false, right: false, bottom: false, top: true }
    );
    let left = r.get_walls().iter().find(|c| c.position == Vec3::new(0, 0, 1)).unwrap();
    assert!(left.faces.right && !left.faces.left && !left.faces.front && !left.faces.back);
    let corner = r.get_walls().iter().find(|c| c.position == Vec3::new(0, 0, 0)).unwrap();
    assert_eq!(
        corner.faces,
        FaceMask { front: false, back: false, left: false, right: false, bottom: false, top: true }
    );
}

#[test]
fn top_face_vertices() {
    let c = Cube::new(Vec3::new(4, -1, 2), top_only());
    let v: Vec<Vertex> = c.vertices();
    assert_eq!(v.len(), 6);
    for vert in &v {
        assert_eq!(vert.normal, Vec3::new(0, 1, 0));
        assert_eq!(vert.position.y, 1);
    }
    assert_eq!(v[0].position, Vec3::new(0, 1, 0));
    assert_eq!(v[2].position, Vec3::new(1, 1, 1));
    assert_eq!(v[3], v[0]);
    assert_eq!(v[4], v[2]);
    assert_eq!((v[1].tex_coord.u, v[1].tex_coord.v), (1, 0));
}

#[test]
fn all_faces_give_thirty_six_vertices() {
    let c = Cube::new(Vec3::new(0, 0, 0), all_faces());
    let v = c.vertices();
    assert_eq!(v.len(), 36);
    let normals: Vec<Vec3> = v.iter().step_by(6).map(|x| x.normal).collect();
    assert_eq!(
        normals,
        vec![
            Vec3::new(0, 0, -1),
            Vec3::new(0, 0, 1),
            Vec3::new(-1, 0, 0),
            Vec3::new(1, 0, 0),
            Vec3::new(0, -1, 0),
            Vec3::new(0, 1, 0),
        ]
    );
    for vert in &v {
        for k in [vert.position.x, vert.position.y, vert.position.z] {
            assert!(k == 0 || k == 1);
        }
    }
    let none = Cube::new(Vec3::new(0, 0, 0), FaceMask {
        front: false,
        back: false,
        left: false,
        right: false,
        bottom: false,
        top: false,
    });
    assert!(none.vertices().is_empty());
}

#[test]
fn model_matrix_translates() {
    let c = Cube::new(Vec3::new(3, 0, -2), all_faces());
    assert_eq!(c.model_matrix(), [[1, 0, 0, 0], [0, 1, 0, 0], [0, 0, 1, 0], [3, 0, -2, 1]]);
}
