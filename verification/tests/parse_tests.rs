use obj_loader::parse;
use obj_loader::ElementKind;
use obj_loader::ErrorDetail;
use obj_loader::StorageMode;
use obj_loader::Triangle;
use obj_loader::Warning;

fn pos_strs(m: &obj_loader::Mesh) -> Vec<(&str, &str, &str)> {
    m.positions.iter().map(|p| (p.x.as_str(), p.y.as_str(), p.z.as_str())).collect()
}

#[test]
fn single_triangle() {
    let (r, warnings) = parse("v 0 0 0\nv 1 0 0\nv 0 1 0\nf 1 2 3\n", false);
    let m = r.ok().unwrap();
    assert_eq!(m.positions.len(), 3);
    assert_eq!(m.triangles.len(), 1);
    assert_eq!(m.triangles[0], Triangle { a: 0, b: 1, c: 2 });
    assert!(m.normals.is_none());
    assert!(m.tex_coords.is_none());
    assert_eq!(pos_strs(&m), vec![("0", "0", "0"), ("1", "0", "0"), ("0", "1", "0")]);
    assert!(warnings.is_empty());
    assert_eq!(m.storage, StorageMode::Exclusive);
}

#[test]
fn one_based_reference_resolves_to_first_position() {
    let (r, _) = parse("v 7 8 9\nv 1 0 0\nv 0 1 0\nf 1 2 3\n", false);
    let m = r.ok().unwrap();
    // the corner `1` selects positions[0], the record of `v 7 8 9`
    assert_eq!(m.positions[0].x.as_str(), "7");
    assert_eq!(m.triangles[0].a, 0);
}

#[test]
fn quad_is_fanned_into_two_triangles() {
    let (r, _) = parse("v 0 0 0\nv 1 0 0\nv 1 1 0\nv 0 1 0\nf 1 2 3 4\n", false);
    let m = r.ok().unwrap();
    assert_eq!(m.positions.len(), 4);
    assert_eq!(m.triangles.len(), 2);
    assert_eq!(m.triangles[0], Triangle { a: 0, b: 1, c: 2 });
    assert_eq!(m.triangles[1], Triangle { a: 0, b: 2, c: 3 });
}

#[test]
fn pentagon_fan_follows_the_offset_pattern() {
    let doc = "v 0 0 0\nv 1 0 0\nv 2 0 0\nv 3 0 0\nv 4 0 0\nf 1 2 3 4 5\n";
    let (r, _) = parse(doc, false);
    let m = r.ok().unwrap();
    assert_eq!(m.triangles.len(), 3);
    assert_eq!(m.triangles[0], Triangle { a: 0, b: 1, c: 2 });
    assert_eq!(m.triangles[1], Triangle { a: 0, b: 2, c: 3 });
    // the third triangle fans from the third corner, not the first
    assert_eq!(m.triangles[2], Triangle { a: 2, b: 3, c: 4 });
}

#[test]
fn corners_with_equal_triples_share_one_vertex() {
    let (r, _) = parse("v 0 0 0\nv 1 0 0\nf 1 2 1\n", false);
    let m = r.ok().unwrap();
    assert_eq!(m.positions.len(), 2);
    assert_eq!(m.triangles[0], Triangle { a: 0, b: 1, c: 0 });
}

#[test]
fn dedup_spans_faces() {
    let doc = "v 0 0 0\nv 1 0 0\nv 0 1 0\nv 1 1 0\nf 1 2 3\nf 2 3 4\n";
    let (r, _) = parse(doc, false);
    let m = r.ok().unwrap();
    // 4 distinct corners over 6 references
    assert_eq!(m.positions.len(), 4);
    assert_eq!(m.triangles.len(), 2);
    assert_eq!(m.triangles[1], Triangle { a: 1, b: 2, c: 3 });
}

#[test]
fn same_position_different_normal_stays_distinct() {
    let doc = "v 0 0 0\nv 1 0 0\nv 0 1 0\nvn 0 0 1\nvn 0 1 0\nf 1//1 2//1 3//1\nf 1//2 2//1 3//1\n";
    let (r, _) = parse(doc, false);
    let m = r.ok().unwrap();
    // corner 1//2 differs from 1//1 only in its normal, so a new vertex
    assert_eq!(m.positions.len(), 4);
    let normals = m.normals.unwrap();
    assert_eq!(normals.len(), 4);
    assert_eq!(normals[3].y.as_str(), "1");
}

#[test]
fn too_few_position_components_is_fatal() {
    let (r, _) = parse("v 0 0 0\nv 1 2\n", false);
    let e = r.err().unwrap();
    assert_eq!(e.line, 1);
    assert!(matches!(e.detail, ErrorDetail::TooFewComponents { kind: ElementKind::Position }));
}

#[test]
fn too_few_texcoord_components_is_fatal() {
    let (r, _) = parse("vt 1\n", false);
    let e = r.err().unwrap();
    assert_eq!(e.line, 0);
    assert!(matches!(e.detail, ErrorDetail::TooFewComponents { kind: ElementKind::TexCoord }));
}

#[test]
fn unparsable_number_is_fatal_with_token() {
    let (r, _) = parse("v 0 zero 0\n", false);
    let e = r.err().unwrap();
    assert_eq!(e.line, 0);
    match e.detail {
        ErrorDetail::InvalidNumber { token } => assert_eq!(token, "zero"),
        _ => panic!("wrong error"),
    }
}

#[test]
fn unparsable_index_is_fatal_with_token() {
    let (r, _) = parse("v 0 0 0\nv 1 0 0\nv 0 1 0\nf 1 2 x\n", false);
    let e = r.err().unwrap();
    assert_eq!(e.line, 3);
    match e.detail {
        ErrorDetail::InvalidIndex { token } => assert_eq!(token, "x"),
        _ => panic!("wrong error"),
    }
}

#[test]
fn zero_index_is_rejected() {
    let (r, _) = parse("v 0 0 0\nf 0 1 1\n", false);
    let e = r.err().unwrap();
    assert_eq!(e.line, 1);
    assert!(matches!(e.detail, ErrorDetail::InvalidIndex { .. }));
}

#[test]
fn face_with_two_corners_is_fatal() {
    let (r, _) = parse("v 0 0 0\nv 1 0 0\nf 1 2\n", false);
    let e = r.err().unwrap();
    assert_eq!(e.line, 2);
    assert!(matches!(e.detail, ErrorDetail::FaceTooShort));
}

#[test]
fn dangling_position_reference_is_fatal() {
    let (r, _) = parse("v 0 0 0\nf 1 2 3\n", false);
    let e = r.err().unwrap();
    assert_eq!(e.line, 1);
    assert!(matches!(
        e.detail,
        ErrorDetail::IndexOutOfRange { kind: ElementKind::Position, index: 1 }
    ));
}

#[test]
fn missing_texcoord_drops_the_whole_array_with_a_warning() {
    let doc = "v 0 0 0\nv 1 0 0\nv 0 1 0\nvt 0 0\nvn 0 0 1\nf 1/1/1 2/1/1 3//1\n";
    let (r, warnings) = parse(doc, false);
    let m = r.ok().unwrap();
    assert!(m.tex_coords.is_none());
    assert!(m.normals.is_some());
    assert!(warnings.contains(&Warning::TexCoordsDropped));
    assert!(!warnings.contains(&Warning::NormalsDropped));
}

#[test]
fn omitted_attributes_without_records_drop_silently() {
    let (r, warnings) = parse("v 0 0 0\nv 1 0 0\nv 0 1 0\nf 1 2 3\n", false);
    let m = r.ok().unwrap();
    assert!(m.tex_coords.is_none());
    assert!(m.normals.is_none());
    // nothing was collected, so nothing is reported as discarded
    assert!(warnings.is_empty());
}

#[test]
fn unknown_keyword_warns_and_is_ignored() {
    let (r, warnings) = parse("usemtl stone\nv 0 0 0\nv 1 0 0\nv 0 1 0\nf 1 2 3\n", false);
    let m = r.ok().unwrap();
    assert_eq!(m.positions.len(), 3);
    assert_eq!(warnings, vec![Warning::UnknownKeyword { line: 0 }]);
}

#[test]
fn extra_components_warn_and_are_discarded() {
    let (r, warnings) = parse("v 1 2 3 4 5\n", false);
    let m = r.ok().unwrap();
    assert_eq!(m.positions.len(), 0);
    assert_eq!(
        warnings,
        vec![
            Warning::TooManyComponents { line: 0, kind: ElementKind::Position },
            Warning::TooManyComponents { line: 0, kind: ElementKind::Position },
        ]
    );
}

#[test]
fn extra_component_must_still_be_numeric() {
    let (r, warnings) = parse("v 1 2 3 oops\n", false);
    let e = r.err().unwrap();
    assert_eq!(e.line, 0);
    assert!(matches!(e.detail, ErrorDetail::InvalidNumber { .. }));
    assert!(warnings.is_empty());
}

#[test]
fn blank_lines_and_crlf_are_accepted() {
    let (r, warnings) = parse("v 0 0 0\r\n\r\nv 1 0 0\r\nv 0 1 0\r\nf 1 2 3\r\n", false);
    let m = r.ok().unwrap();
    assert_eq!(m.positions.len(), 3);
    assert!(warnings.is_empty());
}

#[test]
fn float_token_forms_are_accepted() {
    let (r, _) = parse("v 1e3 -2.5 .5\nv +0.25 inf nan\nv 1. 2 3\nf 1 2 3\n", false);
    let m = r.ok().unwrap();
    assert_eq!(m.positions[0].x.as_str(), "1e3");
    assert_eq!(m.positions[1].x.as_str(), "+0.25");
    assert_eq!(m.positions[1].y.as_str(), "inf");
    assert_eq!(m.positions[1].z.as_str(), "nan");
}

#[test]
fn plus_signed_index_is_accepted() {
    let (r, _) = parse("v 0 0 0\nv 1 0 0\nv 0 1 0\nf +1 2 3\n", false);
    let m = r.ok().unwrap();
    assert_eq!(m.triangles[0], Triangle { a: 0, b: 1, c: 2 });
}

#[test]
fn empty_document_keeps_empty_attribute_arrays() {
    let (r, warnings) = parse("", false);
    let m = r.ok().unwrap();
    assert_eq!(m.positions.len(), 0);
    assert_eq!(m.triangles.len(), 0);
    // no corner omitted anything, so the (empty) arrays survive
    assert!(m.normals.is_some());
    assert!(m.tex_coords.is_some());
    assert!(warnings.is_empty());
}

#[test]
fn shared_flag_is_carried_through() {
    let (r, _) = parse("v 0 0 0\nv 1 0 0\nv 0 1 0\nf 1 2 3\n", true);
    let m = r.ok().unwrap();
    assert_eq!(m.storage, StorageMode::Shared);
}

#[test]
fn index_too_wide_for_u32_is_rejected() {
    let (r, _) = parse("v 0 0 0\nf 4294967296 1 1\n", false);
    let e = r.err().unwrap();
    assert_eq!(e.line, 1);
    match e.detail {
        ErrorDetail::InvalidIndex { token } => assert_eq!(token, "4294967296"),
        _ => panic!("wrong error"),
    }
}

#[test]
fn largest_index_token_parses_and_faults_cleanly() {
    let (r, _) = parse("v 0 0 0\nf 4294967295 1 1\n", false);
    let e = r.err().unwrap();
    assert_eq!(e.line, 1);
    assert!(matches!(
        e.detail,
        ErrorDetail::IndexOutOfRange { kind: ElementKind::Position, index: 4294967294 }
    ));
}

#[test]
fn trailing_slash_leaves_the_attribute_absent() {
    let (r, _) = parse("v 0 0 0\nv 1 0 0\nv 0 1 0\nf 1/ 2/ 3/\n", false);
    let m = r.ok().unwrap();
    assert_eq!(m.positions.len(), 3);
    assert!(m.tex_coords.is_none());
    assert!(m.normals.is_none());
}

#[test]
fn dangling_normal_reference_is_fatal() {
    let (r, _) = parse("v 0 0 0\nv 1 0 0\nv 0 1 0\nvn 0 0 1\nf 1//1 2//2 3//1\n", false);
    let e = r.err().unwrap();
    assert_eq!(e.line, 4);
    assert!(matches!(
        e.detail,
        ErrorDetail::IndexOutOfRange { kind: ElementKind::Normal, index: 1 }
    ));
}

#[test]
fn keyword_alone_is_missing_its_components() {
    let (r, _) = parse("v\n", false);
    let e = r.err().unwrap();
    assert_eq!(e.line, 0);
    assert!(matches!(e.detail, ErrorDetail::TooFewComponents { kind: ElementKind::Position }));
}

#[test]
fn too_few_normal_components_is_fatal() {
    let (r, _) = parse("vn 1 2\n", false);
    let e = r.err().unwrap();
    assert_eq!(e.line, 0);
    assert!(matches!(e.detail, ErrorDetail::TooFewComponents { kind: ElementKind::Normal }));
}

#[test]
fn missing_normal_drops_collected_normals_with_a_warning() {
    let doc = "v 0 0 0\nv 1 0 0\nv 0 1 0\nvn 0 0 1\nf 1//1 2//1 3\n";
    let (r, warnings) = parse(doc, false);
    let m = r.ok().unwrap();
    assert!(m.normals.is_none());
    assert_eq!(warnings, vec![Warning::NormalsDropped]);
}

#[test]
fn bare_exponent_and_lone_dot_are_rejected() {
    for doc in ["v 1e 0 0\n", "v . 0 0\n", "v --1 0 0\n", "v - 0 0\n"] {
        let (r, _) = parse(doc, false);
        let e = r.err().unwrap();
        assert_eq!(e.line, 0);
        assert!(matches!(e.detail, ErrorDetail::InvalidNumber { .. }));
    }
}

#[test]
fn infinity_word_is_a_number() {
    let (r, _) = parse("v -Infinity 2. .25\nf 1 1 1\n", false);
    let m = r.ok().unwrap();
    assert_eq!(m.positions[0].x.as_str(), "-Infinity");
}

#[test]
fn warning_precedes_a_later_fatal_error_on_the_same_line() {
    let (r, warnings) = parse("v 1 2 3 4 oops\n", false);
    let e = r.err().unwrap();
    assert_eq!(e.line, 0);
    assert!(matches!(e.detail, ErrorDetail::InvalidNumber { .. }));
    assert_eq!(
        warnings,
        vec![Warning::TooManyComponents { line: 0, kind: ElementKind::Position }]
    );
}
