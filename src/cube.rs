use vstd::prelude::*;

verus! {

/// An integer 3-vector: a world position, a vertex position in the unit cube, or a face normal.
#[derive(Clone, Copy, Debug, PartialEq, Eq, Structural)]
pub struct Vec3 {
    pub x: i64,
    pub y: i64,
    pub z: i64,
}

pub open spec fn vec3(x: i64, y: i64, z: i64) -> Vec3 {
    Vec3 { x, y, z }
}

impl Vec3 {
    pub fn new(x: i64, y: i64, z: i64) -> (r: Vec3)
        ensures
            r == vec3(x, y, z),
    {
        Vec3 { x, y, z }
    }
}

/// A texture coordinate: a corner of the texture square.
#[derive(Clone, Copy, Debug, PartialEq, Eq, Structural)]
pub struct TexCoord {
    pub u: i64,
    pub v: i64,
}

/// One corner of a triangle: where it is in the unit cube, which way its face points,
/// and which corner of the texture it shows.
#[derive(Clone, Copy, Debug, PartialEq, Eq, Structural)]
pub struct Vertex {
    pub position: Vec3,
    pub normal: Vec3,
    pub tex_coord: TexCoord,
}

/// Which of the six faces of a cube are emitted. The grid's rows run along `z`:
/// `front` faces towards `-z`, `back` towards `+z`, `left` towards `-x`,
/// `right` towards `+x`, `bottom` towards `-y` and `top` towards `+y`.
#[derive(Clone, Copy, Debug, PartialEq, Eq, Structural)]
pub struct FaceMask {
    pub front: bool,
    pub back: bool,
    pub left: bool,
    pub right: bool,
    pub bottom: bool,
    pub top: bool,
}

/// Face numbers, in emission order.
pub const FRONT: u8 = 0;
pub const BACK: u8 = 1;
pub const LEFT: u8 = 2;
pub const RIGHT: u8 = 3;
pub const BOTTOM: u8 = 4;
pub const TOP: u8 = 5;

/// Corner `i` (0 to 3, counter-clockwise seen from outside) of face `face` of the unit cube.
pub open spec fn corner_spec(face: u8, i: u8) -> Vec3 {
    if face == 0 && i == 0 {
        vec3(0, 0, 0)
    } else if face == 0 && i == 1 {
        vec3(1, 0, 0)
    } else if face == 0 && i == 2 {
        vec3(1, 1, 0)
    } else if face == 0 && i == 3 {
        vec3(0, 1, 0)
    } else if face == 1 && i == 0 {
        vec3(1, 0, 1)
    } else if face == 1 && i == 1 {
        vec3(0, 0, 1)
    } else if face == 1 && i == 2 {
        vec3(0, 1, 1)
    } else if face == 1 && i == 3 {
        vec3(1, 1, 1)
    } else if face == 2 && i == 0 {
        vec3(0, 0, 1)
    } else if face == 2 && i == 1 {
        vec3(0, 0, 0)
    } else if face == 2 && i == 2 {
        vec3(0, 1, 0)
    } else if face == 2 && i == 3 {
        vec3(0, 1, 1)
    } else if face == 3 && i == 0 {
        vec3(1, 0, 0)
    } else if face == 3 && i == 1 {
        vec3(1, 0, 1)
    } else if face == 3 && i == 2 {
        vec3(1, 1, 1)
    } else if face == 3 && i == 3 {
        vec3(1, 1, 0)
    } else if face == 4 && i == 0 {
        vec3(0, 0, 1)
    } else if face == 4 && i == 1 {
        vec3(1, 0, 1)
    } else if face == 4 && i == 2 {
        vec3(1, 0, 0)
    } else if face == 4 && i == 3 {
        vec3(0, 0, 0)
    } else if face == 5 && i == 0 {
        vec3(0, 1, 0)
    } else if face == 5 && i == 1 {
        vec3(1, 1, 0)
    } else if face == 5 && i == 2 {
        vec3(1, 1, 1)
    } else {
        vec3(0, 1, 1)
    }
}

/// The outward normal of face `face`.
pub open spec fn normal_spec(face: u8) -> Vec3 {
    if face == 0 {
        vec3(0, 0, -1i64)
    } else if face == 1 {
        vec3(0, 0, 1)
    } else if face == 2 {
        vec3(-1i64, 0, 0)
    } else if face == 3 {
        vec3(1, 0, 0)
    } else if face == 4 {
        vec3(0, -1i64, 0)
    } else {
        vec3(0, 1, 0)
    }
}

/// The texture corner shown at corner `i` of a face.
pub open spec fn tex_spec(i: u8) -> TexCoord {
    if i == 0 {
        TexCoord { u: 0, v: 0 }
    } else if i == 1 {
        TexCoord { u: 1, v: 0 }
    } else if i == 2 {
        TexCoord { u: 1, v: 1 }
    } else {
        TexCoord { u: 0, v: 1 }
    }
}

/// The face corner used by vertex `k` of the two triangles (0, 1, 2) and (0, 2, 3).
pub open spec fn triangle_corner(k: int) -> u8 {
    if k < 3 {
        k as u8
    } else if k == 3 {
        0
    } else {
        (k - 2) as u8
    }
}

/// The six vertices of face `face`: two triangles sharing the diagonal from corner 0 to corner 2.
pub open spec fn face_vertices(face: u8) -> Seq<Vertex> {
    Seq::new(
        6,
        |k: int|
            Vertex {
                position: corner_spec(face, triangle_corner(k)),
                normal: normal_spec(face),
                tex_coord: tex_spec(triangle_corner(k)),
            },
    )
}

pub open spec fn face_if(on: bool, face: u8) -> Seq<Vertex> {
    if on {
        face_vertices(face)
    } else {
        Seq::empty()
    }
}

/// The triangle list of the faces a mask selects, face after face in emission order.
pub open spec fn mask_vertices(m: FaceMask) -> Seq<Vertex> {
    face_if(m.front, FRONT) + face_if(m.back, BACK) + face_if(m.left, LEFT) + face_if(
        m.right,
        RIGHT,
    ) + face_if(m.bottom, BOTTOM) + face_if(m.top, TOP)
}

/// The column-major model matrix that moves the unit cube to `p`.
pub open spec fn translation_spec(p: Vec3) -> Seq<Seq<i64>> {
    seq![seq![1, 0, 0, 0], seq![0, 1, 0, 0], seq![0, 0, 1, 0], seq![p.x, p.y, p.z, 1]]
}

fn corner(face: u8, i: u8) -> (r: Vec3)
    ensures
        r == corner_spec(face, i),
{
    if face == 0 && i == 0 {
        Vec3::new(0, 0, 0)
    } else if face == 0 && i == 1 {
        Vec3::new(1, 0, 0)
    } else if face == 0 && i == 2 {
        Vec3::new(1, 1, 0)
    } else if face == 0 && i == 3 {
        Vec3::new(0, 1, 0)
    } else if face == 1 && i == 0 {
        Vec3::new(1, 0, 1)
    } else if face == 1 && i == 1 {
        Vec3::new(0, 0, 1)
    } else if face == 1 && i == 2 {
        Vec3::new(0, 1, 1)
    } else if face == 1 && i == 3 {
        Vec3::new(1, 1, 1)
    } else if face == 2 && i == 0 {
        Vec3::new(0, 0, 1)
    } else if face == 2 && i == 1 {
        Vec3::new(0, 0, 0)
    } else if face == 2 && i == 2 {
        Vec3::new(0, 1, 0)
    } else if face == 2 && i == 3 {
        Vec3::new(0, 1, 1)
    } else if face == 3 && i == 0 {
        Vec3::new(1, 0, 0)
    } else if face == 3 && i == 1 {
        Vec3::new(1, 0, 1)
    } else if face == 3 && i == 2 {
        Vec3::new(1, 1, 1)
    } else if face == 3 && i == 3 {
        Vec3::new(1, 1, 0)
    } else if face == 4 && i == 0 {
        Vec3::new(0, 0, 1)
    } else if face == 4 && i == 1 {
        Vec3::new(1, 0, 1)
    } else if face == 4 && i == 2 {
        Vec3::new(1, 0, 0)
    } else if face == 4 && i == 3 {
        Vec3::new(0, 0, 0)
    } else if face == 5 && i == 0 {
        Vec3::new(0, 1, 0)
    } else if face == 5 && i == 1 {
        Vec3::new(1, 1, 0)
    } else if face == 5 && i == 2 {
        Vec3::new(1, 1, 1)
    } else {
        Vec3::new(0, 1, 1)
    }
}

fn normal(face: u8) -> (r: Vec3)
    ensures
        r == normal_spec(face),
{
    if face == 0 {
        Vec3::new(0, 0, -1)
    } else if face == 1 {
        Vec3::new(0, 0, 1)
    } else if face == 2 {
        Vec3::new(-1, 0, 0)
    } else if face == 3 {
        Vec3::new(1, 0, 0)
    } else if face == 4 {
        Vec3::new(0, -1, 0)
    } else {
        Vec3::new(0, 1, 0)
    }
}

fn tex_coord(i: u8) -> (r: TexCoord)
    ensures
        r == tex_spec(i),
{
    if i == 0 {
        TexCoord { u: 0, v: 0 }
    } else if i == 1 {
        TexCoord { u: 1, v: 0 }
    } else if i == 2 {
        TexCoord { u: 1, v: 1 }
    } else {
        TexCoord { u: 0, v: 1 }
    }
}

/// Appends the six vertices of face `face` to `out`.
pub fn push_face(out: &mut Vec<Vertex>, face: u8)
    ensures
        final(out)@ == old(out)@ + face_vertices(face),
{
    let n = normal(face);
    let order: [u8; 6] = [0, 1, 2, 0, 2, 3];
    let ghost start = out@;
    let mut k: usize = 0;
    while k < 6
        invariant
            k <= 6,
            order@ == seq![0u8, 1, 2, 0, 2, 3],
            n == normal_spec(face),
            out@ == start + face_vertices(face).take(k as int),
        decreases 6 - k,
    {
        let c = order[k];
        assert(c == triangle_corner(k as int));
        let v = Vertex { position: corner(face, c), normal: n, tex_coord: tex_coord(c) };
        assert(v == face_vertices(face)[k as int]);
        out.push(v);
        k = k + 1;
        assert(out@ =~= start + face_vertices(face).take(k as int));
    }
    assert(face_vertices(face).take(6) =~= face_vertices(face));
}

/// A unit cube placed at an integer world position, with the faces it emits.
#[derive(Clone, Copy, Debug, PartialEq, Eq, Structural)]
pub struct Cube {
    pub position: Vec3,
    pub faces: FaceMask,
}

impl Cube {
    pub fn new(position: Vec3, faces: FaceMask) -> (r: Cube)
        ensures
            r.position == position,
            r.faces == faces,
    {
        Cube { position, faces }
    }

    /// The triangle list of the selected faces, in the cube's own unit coordinates.
    pub fn vertices(&self) -> (r: Vec<Vertex>)
        ensures
            r@ == mask_vertices(self.faces),
    {
        let mut out: Vec<Vertex> = Vec::new();
        if self.faces.front {
            push_face(&mut out, FRONT);
        }
        assert(out@ =~= face_if(self.faces.front, FRONT));
        if self.faces.back {
            push_face(&mut out, BACK);
        }
        assert(out@ =~= face_if(self.faces.front, FRONT) + face_if(self.faces.back, BACK));
        if self.faces.left {
            push_face(&mut out, LEFT);
        }
        assert(out@ =~= face_if(self.faces.front, FRONT) + face_if(self.faces.back, BACK)
            + face_if(self.faces.left, LEFT));
        if self.faces.right {
            push_face(&mut out, RIGHT);
        }
        assert(out@ =~= face_if(self.faces.front, FRONT) + face_if(self.faces.back, BACK)
            + face_if(self.faces.left, LEFT) + face_if(self.faces.right, RIGHT));
        if self.faces.bottom {
            push_face(&mut out, BOTTOM);
        }
        assert(out@ =~= face_if(self.faces.front, FRONT) + face_if(self.faces.back, BACK)
            + face_if(self.faces.left, LEFT) + face_if(self.faces.right, RIGHT) + face_if(
            self.faces.bottom,
            BOTTOM,
        ));
        if self.faces.top {
            push_face(&mut out, TOP);
        }
        assert(out@ =~= mask_vertices(self.faces));
        out
    }

    /// The model matrix, column by column: a translation to the cube's position.
    pub fn model_matrix(&self) -> (r: [[i64; 4]; 4])
        ensures
            r@.len() == 4,
            forall|c: int| 0 <= c < 4 ==> #[trigger] r@[c]@ == translation_spec(self.position)[c],
    {
        let p = self.position;
        let r: [[i64; 4]; 4] = [[1, 0, 0, 0], [0, 1, 0, 0], [0, 0, 1, 0], [p.x, p.y, p.z, 1]];
        assert(r@[0]@ =~= translation_spec(p)[0]);
        assert(r@[1]@ =~= translation_spec(p)[1]);
        assert(r@[2]@ =~= translation_spec(p)[2]);
        assert(r@[3]@ =~= translation_spec(p)[3]);
        r
    }
}

} // verus!
