use obj_loader::reformat;
use obj_loader::error;
use obj_loader::warn;
use obj_loader::ElementKind;
use obj_loader::ErrorDetail;
use obj_loader::FaceCorner;
use obj_loader::OptIndex;
use obj_loader::Position;
use obj_loader::StorageMode;
use obj_loader::Triangle;
use obj_loader::Warning;

fn p(x: &str, y: &str, z: &str) -> Position {
    Position { x: x.to_string(), y: y.to_string(), z: z.to_string() }
}

fn corner(i: u32) -> FaceCorner {
    FaceCorner { position: i, tex: OptIndex::Absent, normal: OptIndex::Absent }
}

#[test]
fn reformat_assigns_vertices_in_first_occurrence_order() {
    let coords = vec![p("0", "0", "0"), p("1", "0", "0"), p("0", "1", "0")];
    let corners = vec![corner(2), corner(0), corner(2), corner(1), corner(0), corner(2)];
    let m = reformat(coords, None, None, corners, false);
    // distinct triples, in order of first occurrence: 2, 0, 1
    assert_eq!(m.positions.len(), 3);
    assert_eq!(m.positions[0].y.as_str(), "1");
    assert_eq!(m.positions[1].x.as_str(), "0");
    assert_eq!(m.positions[2].x.as_str(), "1");
    assert_eq!(m.triangles, vec![Triangle { a: 0, b: 1, c: 0 }, Triangle { a: 2, b: 1, c: 0 }]);
    assert_eq!(m.storage, StorageMode::Exclusive);
}

#[test]
fn reformat_empty_input_gives_empty_mesh() {
    let m = reformat(Vec::new(), None, None, Vec::new(), true);
    assert_eq!(m.positions.len(), 0);
    assert_eq!(m.triangles.len(), 0);
    assert_eq!(m.storage, StorageMode::Shared);
}

#[test]
fn error_carries_line_and_detail() {
    let e = error(41, ErrorDetail::FaceTooShort);
    assert_eq!(e.line, 41);
    assert!(matches!(e.detail, ErrorDetail::FaceTooShort));
    let e2 = error(7, ErrorDetail::InvalidNumber { token: "abc".to_string() });
    assert_eq!(e2.line, 7);
    match e2.detail {
        ErrorDetail::InvalidNumber { token } => assert_eq!(token, "abc"),
        _ => panic!("wrong detail"),
    }
}

#[test]
fn warn_builds_the_component_count_warning() {
    let w = warn(3, ElementKind::Normal);
    assert_eq!(w, Warning::TooManyComponents { line: 3, kind: ElementKind::Normal });
}
