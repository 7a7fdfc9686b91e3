//! A verified loader for a line-oriented 3D geometry text format: positions,
//! optional per-vertex normals and texture coordinates, and polygonal faces
//! referencing them by 1-based index. The loader tokenizes the document line
//! by line, triangulates n-gon faces on the fly, deduplicates identical
//! (position, texture, normal) corner triples, and emits a compact mesh of
//! unique vertices plus a triangle index list.

pub mod dedup;
pub mod diag;
pub mod geom;
pub mod num;
pub mod parser;
pub mod text;

pub use dedup::reformat;
pub use diag::ElementKind;
pub use diag::ErrorDetail;
pub use diag::ParseError;
pub use diag::Warning;
pub use diag::error;
pub use diag::warn;
pub use geom::FaceCorner;
pub use geom::Mesh;
pub use geom::Normal;
pub use geom::OptIndex;
pub use geom::Position;
pub use geom::StorageMode;
pub use geom::TexCoord;
pub use geom::Triangle;
pub use parser::parse;
