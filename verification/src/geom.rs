use vstd::prelude::*;
use vstd::string::StringExecFns;

verus! {

/// Ownership requested for the final mesh buffers. `Shared` asks the caller
/// to hand the buffers to reference-counted storage; `Exclusive` keeps them
/// owned by the mesh alone. The choice has no effect on the geometry.
#[derive(Clone, Copy, PartialEq, Eq, Structural, Debug)]
pub enum StorageMode {
    Exclusive,
    Shared,
}

/// An optional 0-based attribute index inside a face corner. A corner that
/// omits its texture-coordinate or normal reference carries `Absent`.
#[derive(Clone, Copy, PartialEq, Eq, Structural, Debug)]
pub enum OptIndex {
    Absent,
    Index(u32),
}

impl OptIndex {
    pub open spec fn is_present(self) -> bool {
        self is Index
    }

    /// The held index, or -1 when absent.
    pub open spec fn val(self) -> int {
        match self {
            OptIndex::Index(i) => i as int,
            OptIndex::Absent => -1,
        }
    }
}

/// One vertex reference of a face: a 0-based position index and optional
/// 0-based texture-coordinate and normal indices.
#[derive(Clone, Copy, PartialEq, Eq, Structural, Debug)]
pub struct FaceCorner {
    pub position: u32,
    pub tex: OptIndex,
    pub normal: OptIndex,
}

/// One output triangle, as three indices into the output vertex list.
#[derive(Clone, Copy, PartialEq, Eq, Structural, Debug)]
pub struct Triangle {
    pub a: usize,
    pub b: usize,
    pub c: usize,
}

/// A position record: the three numeric tokens of a `v` line, kept verbatim.
#[derive(Debug)]
pub struct Position {
    pub x: String,
    pub y: String,
    pub z: String,
}

/// A normal record: the three numeric tokens of a `vn` line, kept verbatim.
#[derive(Debug)]
pub struct Normal {
    pub x: String,
    pub y: String,
    pub z: String,
}

/// A texture-coordinate record: the two numeric tokens of a `vt` line.
#[derive(Debug)]
pub struct TexCoord {
    pub u: String,
    pub v: String,
}

/// Mathematical value of a three-component record.
#[verifier::ext_equal]
pub ghost struct Text3 {
    pub x: Seq<char>,
    pub y: Seq<char>,
    pub z: Seq<char>,
}

/// Mathematical value of a two-component record.
#[verifier::ext_equal]
pub ghost struct Text2 {
    pub u: Seq<char>,
    pub v: Seq<char>,
}

impl View for Position {
    type V = Text3;

    open spec fn view(&self) -> Text3 {
        Text3 { x: self.x@, y: self.y@, z: self.z@ }
    }
}

impl View for Normal {
    type V = Text3;

    open spec fn view(&self) -> Text3 {
        Text3 { x: self.x@, y: self.y@, z: self.z@ }
    }
}

impl View for TexCoord {
    type V = Text2;

    open spec fn view(&self) -> Text2 {
        Text2 { u: self.u@, v: self.v@ }
    }
}

pub open spec fn position_views(s: Seq<Position>) -> Seq<Text3> {
    s.map_values(|p: Position| p@)
}

pub open spec fn normal_views(s: Seq<Normal>) -> Seq<Text3> {
    s.map_values(|p: Normal| p@)
}

pub open spec fn tex_views(s: Seq<TexCoord>) -> Seq<Text2> {
    s.map_values(|p: TexCoord| p@)
}

/// The final mesh: a deduplicated vertex set (positions, and the optional
/// per-vertex normals and texture coordinates), the triangle list over it,
/// and the storage mode requested by the caller.
pub struct Mesh {
    pub positions: Vec<Position>,
    pub triangles: Vec<Triangle>,
    pub normals: Option<Vec<Normal>>,
    pub tex_coords: Option<Vec<TexCoord>>,
    pub storage: StorageMode,
}

/// Mathematical value of a mesh.
#[verifier::ext_equal]
pub ghost struct MeshModel {
    pub positions: Seq<Text3>,
    pub triangles: Seq<Triangle>,
    pub normals: Option<Seq<Text3>>,
    pub tex_coords: Option<Seq<Text2>>,
    pub storage: StorageMode,
}

impl View for Mesh {
    type V = MeshModel;

    open spec fn view(&self) -> MeshModel {
        MeshModel {
            positions: position_views(self.positions@),
            triangles: self.triangles@,
            normals: match self.normals {
                Some(ns) => Some(normal_views(ns@)),
                None => None,
            },
            tex_coords: match self.tex_coords {
                Some(ts) => Some(tex_views(ts@)),
                None => None,
            },
            storage: self.storage,
        }
    }
}

fn copy_text(s: &String) -> (r: String)
    ensures
        r@ == s@,
{
    String::from_str(s.as_str())
}

pub fn copy_position(p: &Position) -> (r: Position)
    ensures
        r@ == p@,
{
    Position { x: copy_text(&p.x), y: copy_text(&p.y), z: copy_text(&p.z) }
}

pub fn copy_normal(p: &Normal) -> (r: Normal)
    ensures
        r@ == p@,
{
    Normal { x: copy_text(&p.x), y: copy_text(&p.y), z: copy_text(&p.z) }
}

pub fn copy_tex(p: &TexCoord) -> (r: TexCoord)
    ensures
        r@ == p@,
{
    TexCoord { u: copy_text(&p.u), v: copy_text(&p.v) }
}

} // verus!
