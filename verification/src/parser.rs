use vstd::prelude::*;
use crate::dedup::reformat;
use crate::dedup::reformat_model;
use crate::diag::ElementKind;
use crate::diag::ErrorDetail;
use crate::diag::ErrorDetailModel;
use crate::diag::ErrorModel;
use crate::diag::ParseError;
use crate::diag::Warning;
use crate::diag::error;
use crate::diag::warn;
use crate::geom::FaceCorner;
use crate::geom::Mesh;
use crate::geom::MeshModel;
use crate::geom::Normal;
use crate::geom::OptIndex;
use crate::geom::Position;
use crate::geom::TexCoord;
use crate::geom::Text2;
use crate::geom::Text3;
use crate::geom::normal_views;
use crate::geom::position_views;
use crate::geom::tex_views;
use crate::num::check_float;
use crate::num::is_float_token;
use crate::num::is_uint_token;
use crate::num::parse_uint;
use crate::num::uint_token_val;
use crate::text::lemma_find_nl_bounds;
use crate::text::lines_from;
use crate::text::scan_line_end;
use crate::text::spec_fields;
use crate::text::spec_lines;
use crate::text::spec_words;
use crate::text::split_fields;
use crate::text::split_words;
use vstd::string::StrSliceExecFns;
use vstd::string::StringExecFns;

verus! {

// ---------------------------------------------------------------------------
// The per-line state machine, as a mathematical function of the document.
// ---------------------------------------------------------------------------

/// What a line's leading keyword selects.
#[derive(Clone, Copy, PartialEq, Eq, Structural, Debug)]
pub enum LineKind {
    Pos,
    Norm,
    Tex,
    Face,
    Other,
}

pub open spec fn keyword_of(w: Seq<char>) -> LineKind {
    if w.len() == 1 && w[0] == 'v' {
        LineKind::Pos
    } else if w.len() == 2 && w[0] == 'v' && w[1] == 'n' {
        LineKind::Norm
    } else if w.len() == 2 && w[0] == 'v' && w[1] == 't' {
        LineKind::Tex
    } else if w.len() == 1 && w[0] == 'f' {
        LineKind::Face
    } else {
        LineKind::Other
    }
}

/// Everything the line parser accumulates.
#[verifier::ext_equal]
pub ghost struct GeomState {
    pub positions: Seq<Text3>,
    pub normals: Seq<Text3>,
    pub uvs: Seq<Text2>,
    pub corners: Seq<FaceCorner>,
    /// For each entry of `corners`, the 0-based line it came from.
    pub corner_lines: Seq<int>,
}

pub open spec fn empty_state() -> GeomState {
    GeomState { positions: seq![], normals: seq![], uvs: seq![], corners: seq![], corner_lines: seq![] }
}

/// First word index at or after `j` that is not a floating-point token, or
/// the word count.
pub open spec fn first_bad_float(ws: Seq<Seq<char>>, j: int) -> int
    decreases ws.len() - j,
{
    if j < 0 || j >= ws.len() || !is_float_token(ws[j]) {
        j
    } else {
        first_bad_float(ws, j + 1)
    }
}

/// The extra-component warnings a `v`/`vn`/`vt` line emits before its first
/// bad word (or before its end): one per word beyond the slot count.
pub open spec fn vnt_warns(l: int, kind: ElementKind, slots: int, upto: int) -> Seq<Warning> {
    Seq::new(
        if upto > slots + 1 {
            (upto - slots - 1) as nat
        } else {
            0
        },
        |q: int| Warning::TooManyComponents { line: l as usize, kind },
    )
}

/// Appends the finished record of a `v`, `vn` or `vt` line.
pub open spec fn apply_record(st: GeomState, kind: ElementKind, ws: Seq<Seq<char>>) -> GeomState {
    match kind {
        ElementKind::Position => GeomState {
            positions: st.positions.push(Text3 { x: ws[1], y: ws[2], z: ws[3] }),
            ..st
        },
        ElementKind::Normal => GeomState {
            normals: st.normals.push(Text3 { x: ws[1], y: ws[2], z: ws[3] }),
            ..st
        },
        ElementKind::TexCoord => GeomState {
            uvs: st.uvs.push(Text2 { u: ws[1], v: ws[2] }),
            ..st
        },
    }
}

/// A `v`, `vn` or `vt` line: every word after the keyword must be a number
/// (fatal otherwise, at the first bad word); words beyond the slot count are
/// discarded with a warning; fewer components than slots is fatal.
pub open spec fn vnt_step(st: GeomState, l: int, ws: Seq<Seq<char>>, kind: ElementKind) -> (
    Seq<Warning>,
    Result<GeomState, ErrorModel>,
) {
    let slots: int = if kind is TexCoord {
        2
    } else {
        3
    };
    let bad = first_bad_float(ws, 1);
    let warns = vnt_warns(l, kind, slots, bad);
    if bad < ws.len() {
        (
            warns,
            Err(ErrorModel { line: l, detail: ErrorDetailModel::InvalidNumber { token: ws[bad] } }),
        )
    } else if ws.len() - 1 < slots {
        (warns, Err(ErrorModel { line: l, detail: ErrorDetailModel::TooFewComponents { kind } }))
    } else {
        (warns, Ok(apply_record(st, kind, ws)))
    }
}

// ---------------------------------------------------------------------------
// Face corners.
// ---------------------------------------------------------------------------

/// A corner field must be parsed when it is the position field or non-empty.
pub open spec fn field_needed(fs: Seq<Seq<char>>, k: int) -> bool {
    k == 0 || fs[k].len() > 0
}

/// A needed field must be a decimal index token with a positive value
/// (references are 1-based).
pub open spec fn field_ok(fs: Seq<Seq<char>>, k: int) -> bool {
    !field_needed(fs, k) || (is_uint_token(fs[k]) && uint_token_val(fs[k]) >= 1)
}

/// First field index in `[k, end)` that fails, or `end`.
pub open spec fn first_bad_field(fs: Seq<Seq<char>>, k: int, end: int) -> int
    decreases end - k,
{
    if k < 0 || k >= end || !field_ok(fs, k) {
        k
    } else {
        first_bad_field(fs, k + 1, end)
    }
}

/// Only the first three fields of a corner word are read.
pub open spec fn corner_end(fs: Seq<Seq<char>>) -> int {
    if fs.len() < 3 {
        fs.len() as int
    } else {
        3
    }
}

/// The corner a face word denotes, or the first offending field. Indices
/// are converted from 1-based to 0-based; an omitted field stays absent.
pub open spec fn corner_of(w: Seq<char>) -> Result<FaceCorner, Seq<char>> {
    let fs = spec_fields(w);
    let end = corner_end(fs);
    let bad = first_bad_field(fs, 0, end);
    if bad < end {
        Err(fs[bad])
    } else {
        Ok(
            FaceCorner {
                position: (uint_token_val(fs[0]) - 1) as u32,
                tex: if fs.len() > 1 && fs[1].len() > 0 {
                    OptIndex::Index((uint_token_val(fs[1]) - 1) as u32)
                } else {
                    OptIndex::Absent
                },
                normal: if fs.len() > 2 && fs[2].len() > 0 {
                    OptIndex::Index((uint_token_val(fs[2]) - 1) as u32)
                } else {
                    OptIndex::Absent
                },
            },
        )
    }
}

/// First word index at or after `j` whose corner fails, or the word count.
pub open spec fn first_bad_corner(ws: Seq<Seq<char>>, j: int) -> int
    decreases ws.len() - j,
{
    if j < 0 || j >= ws.len() || corner_of(ws[j]) is Err {
        j
    } else {
        first_bad_corner(ws, j + 1)
    }
}

/// The corners of a face line, one per word after the keyword.
pub open spec fn face_corners(ws: Seq<Seq<char>>) -> Seq<FaceCorner> {
    Seq::new((ws.len() - 1) as nat, |j: int| corner_of(ws[j + 1])->Ok_0)
}

/// Fan triangulation. The first three corners stand as they are; every
/// further corner first re-emits the corner `count` entries before the end
/// of what was emitted and the most recent corner, then itself.
pub open spec fn spec_fan(cs: Seq<FaceCorner>) -> Seq<FaceCorner>
    decreases cs.len(),
{
    if cs.len() <= 3 {
        cs
    } else {
        let prev = spec_fan(cs.drop_last());
        let p1 = prev[prev.len() - (cs.len() - 1)];
        let p2 = prev[prev.len() - 1];
        prev.push(p1).push(p2).push(cs.last())
    }
}

pub proof fn lemma_fan_len(cs: Seq<FaceCorner>)
    ensures
        cs.len() <= 3 ==> spec_fan(cs).len() == cs.len(),
        cs.len() > 3 ==> spec_fan(cs).len() == 3 * (cs.len() - 2),
    decreases cs.len(),
{
    if cs.len() > 3 {
        lemma_fan_len(cs.drop_last());
    }
}

/// An `f` line: every word after the keyword must be a well-formed corner
/// (fatal otherwise, at the first bad field); fewer than three corners is
/// fatal; the triangulated corners are appended, remembering the line.
pub open spec fn face_step(st: GeomState, l: int, ws: Seq<Seq<char>>) -> (
    Seq<Warning>,
    Result<GeomState, ErrorModel>,
) {
    let bad = first_bad_corner(ws, 1);
    if bad < ws.len() {
        (
            seq![],
            Err(
                ErrorModel {
                    line: l,
                    detail: ErrorDetailModel::InvalidIndex { token: corner_of(ws[bad])->Err_0 },
                },
            ),
        )
    } else if ws.len() - 1 < 3 {
        (seq![], Err(ErrorModel { line: l, detail: ErrorDetailModel::FaceTooShort }))
    } else {
        let out = spec_fan(face_corners(ws));
        (
            seq![],
            Ok(
                GeomState {
                    corners: st.corners + out,
                    corner_lines: st.corner_lines + Seq::new(out.len(), |q: int| l),
                    ..st
                },
            ),
        )
    }
}

/// One line of the document: blank lines do nothing, unknown keywords warn,
/// the four keywords run their own step.
pub open spec fn line_step(st: GeomState, l: int, line: Seq<char>) -> (
    Seq<Warning>,
    Result<GeomState, ErrorModel>,
) {
    let ws = spec_words(line);
    if ws.len() == 0 {
        (seq![], Ok(st))
    } else {
        match keyword_of(ws[0]) {
            LineKind::Pos => vnt_step(st, l, ws, ElementKind::Position),
            LineKind::Norm => vnt_step(st, l, ws, ElementKind::Normal),
            LineKind::Tex => vnt_step(st, l, ws, ElementKind::TexCoord),
            LineKind::Face => face_step(st, l, ws),
            LineKind::Other => (seq![Warning::UnknownKeyword { line: l as usize }], Ok(st)),
        }
    }
}

/// The first `n` lines, run in order; a fatal error freezes the outcome.
pub open spec fn run_lines(lines: Seq<Seq<char>>, n: int) -> (
    Seq<Warning>,
    Result<GeomState, ErrorModel>,
)
    decreases n,
{
    if n <= 0 {
        (seq![], Ok(empty_state()))
    } else {
        let prev = run_lines(lines, n - 1);
        match prev.1 {
            Err(e) => prev,
            Ok(st) => {
                let step = line_step(st, n - 1, lines[n - 1]);
                (prev.0 + step.0, step.1)
            },
        }
    }
}

pub proof fn lemma_run_error_persists(lines: Seq<Seq<char>>, k: int, n: int)
    requires
        0 <= k <= n,
        run_lines(lines, k).1 is Err,
    ensures
        run_lines(lines, n) == run_lines(lines, k),
    decreases n - k,
{
    if k < n {
        lemma_run_error_persists(lines, k, n - 1);
    }
}

/// After any successful run the corner count is a multiple of three — each
/// face line contributes whole triangles — and every corner remembers its
/// line.
pub proof fn lemma_run_wf(lines: Seq<Seq<char>>, n: int)
    requires
        0 <= n,
    ensures
        run_lines(lines, n).1 matches Ok(st) ==> st.corners.len() % 3 == 0
            && st.corner_lines.len() == st.corners.len(),
    decreases n,
{
    if n > 0 {
        lemma_run_wf(lines, n - 1);
        if run_lines(lines, n - 1).1 is Ok {
            let st = run_lines(lines, n - 1).1->Ok_0;
            let ws = spec_words(lines[n - 1]);
            if ws.len() > 0 && keyword_of(ws[0]) is Face && first_bad_corner(ws, 1) >= ws.len()
                && ws.len() - 1 >= 3 {
                lemma_fan_len(face_corners(ws));
            }
        }
    }
}

// ---------------------------------------------------------------------------
// Whole-mesh attribute scan, validation and final assembly.
// ---------------------------------------------------------------------------

pub open spec fn missing_tex(cs: Seq<FaceCorner>) -> bool {
    exists|i: int| 0 <= i < cs.len() && !(#[trigger] cs[i]).tex.is_present()
}

pub open spec fn missing_normal(cs: Seq<FaceCorner>) -> bool {
    exists|i: int| 0 <= i < cs.len() && !(#[trigger] cs[i]).normal.is_present()
}

/// The mesh-wide warnings for attributes collected but dropped.
pub open spec fn drop_warnings(st: GeomState) -> Seq<Warning> {
    let wu: Seq<Warning> = if st.uvs.len() > 0 && missing_tex(st.corners) {
        seq![Warning::TexCoordsDropped]
    } else {
        seq![]
    };
    let wn: Seq<Warning> = if st.normals.len() > 0 && missing_normal(st.corners) {
        seq![Warning::NormalsDropped]
    } else {
        seq![]
    };
    wu + wn
}

/// The reference a corner makes that no record answers, if any. A dropped
/// attribute is never looked up, so it cannot fault.
pub open spec fn corner_fault(st: GeomState, i: int) -> Option<(ElementKind, u32)> {
    let c = st.corners[i];
    if c.position as int >= st.positions.len() {
        Some((ElementKind::Position, c.position))
    } else if !missing_tex(st.corners) && c.tex.val() >= st.uvs.len() {
        Some((ElementKind::TexCoord, c.tex.val() as u32))
    } else if !missing_normal(st.corners) && c.normal.val() >= st.normals.len() {
        Some((ElementKind::Normal, c.normal.val() as u32))
    } else {
        None
    }
}

/// First corner with a dangling reference, or the corner count.
pub open spec fn first_fault(st: GeomState, i: int) -> int
    decreases st.corners.len() - i,
{
    if i < 0 || i >= st.corners.len() || corner_fault(st, i) is Some {
        i
    } else {
        first_fault(st, i + 1)
    }
}

/// The whole parse: lines run in order; then the attribute scan decides
/// which optional arrays survive; then every corner reference is checked;
/// then the corners are deduplicated and triangulated into the mesh.
pub open spec fn spec_parse(doc: Seq<char>, shared: bool) -> (
    Seq<Warning>,
    Result<MeshModel, ErrorModel>,
) {
    let lines = spec_lines(doc);
    let run = run_lines(lines, lines.len() as int);
    match run.1 {
        Err(e) => (run.0, Err(e)),
        Ok(st) => {
            let warns = run.0 + drop_warnings(st);
            let f = first_fault(st, 0);
            if f < st.corners.len() {
                (
                    warns,
                    Err(
                        ErrorModel {
                            line: st.corner_lines[f],
                            detail: ErrorDetailModel::IndexOutOfRange {
                                kind: corner_fault(st, f).unwrap().0,
                                index: corner_fault(st, f).unwrap().1,
                            },
                        },
                    ),
                )
            } else {
                (
                    warns,
                    Ok(
                        reformat_model(
                            st.positions,
                            if missing_normal(st.corners) {
                                None
                            } else {
                                Some(st.normals)
                            },
                            if missing_tex(st.corners) {
                                None
                            } else {
                                Some(st.uvs)
                            },
                            st.corners,
                            shared,
                        ),
                    ),
                )
            }
        },
    }
}

// ---------------------------------------------------------------------------
// Executable parser.
// ---------------------------------------------------------------------------

/// Copies the characters `[a, b)` of `s` into an owned token.
fn token_string(s: &str, a: usize, b: usize) -> (t: String)
    requires
        a <= b <= s@.len(),
    ensures
        t@ == s@.subrange(a as int, b as int),
{
    String::from_str(s.substring_char(a, b))
}

/// Classifies a line's first word.
fn classify(s: &str, a: usize, b: usize) -> (k: LineKind)
    requires
        a <= b <= s@.len(),
    ensures
        k == keyword_of(s@.subrange(a as int, b as int)),
{
    let len = b - a;
    if len == 1 {
        let c = s.get_char(a);
        if c == 'v' {
            LineKind::Pos
        } else if c == 'f' {
            LineKind::Face
        } else {
            LineKind::Other
        }
    } else if len == 2 && s.get_char(a) == 'v' {
        let c = s.get_char(a + 1);
        if c == 'n' {
            LineKind::Norm
        } else if c == 't' {
            LineKind::Tex
        } else {
            LineKind::Other
        }
    } else {
        LineKind::Other
    }
}

/// Parses one face-corner word `[a, b)` of `s`.
fn parse_corner(s: &str, a: usize, b: usize, l: usize) -> (r: Result<FaceCorner, ParseError>)
    requires
        a <= b <= s@.len(),
    ensures
        ({
            let w = s@.subrange(a as int, b as int);
            match (r, corner_of(w)) {
                (Ok(c), Ok(cc)) => c == cc,
                (Err(e), Err(tok)) => e@ == (ErrorModel {
                    line: l as int,
                    detail: ErrorDetailModel::InvalidIndex { token: tok },
                }),
                _ => false,
            }
        }),
{
    let ghost w = s@.subrange(a as int, b as int);
    let ghost sfs = spec_fields(w);
    let fs = split_fields(s, a, b);
    let ghost end = corner_end(sfs);
    // the position field is always required
    let f0 = fs[0];
    let t0 = s.substring_char(f0.0, f0.1);
    let position: u32 = match parse_uint(t0) {
        Some(v) if v >= 1 => v - 1,
        _ => {
            assert(!field_ok(sfs, 0));
            assert(first_bad_field(sfs, 0, end) == 0);
            return Err(error(l, ErrorDetail::InvalidIndex { token: token_string(s, f0.0, f0.1) }));
        },
    };
    assert(field_ok(sfs, 0));
    let tex: OptIndex = if fs.len() > 1 {
        let f1 = fs[1];
        if f1.1 > f1.0 {
            assert(sfs[1].len() > 0);
            let t1 = s.substring_char(f1.0, f1.1);
            match parse_uint(t1) {
                Some(v) if v >= 1 => OptIndex::Index(v - 1),
                _ => {
                    assert(!field_ok(sfs, 1));
                    assert(first_bad_field(sfs, 0, end) == 1) by {
                        assert(first_bad_field(sfs, 1, end) == 1);
                    }
                    return Err(
                        error(l, ErrorDetail::InvalidIndex { token: token_string(s, f1.0, f1.1) }),
                    );
                },
            }
        } else {
            assert(sfs[1].len() == 0);
            OptIndex::Absent
        }
    } else {
        OptIndex::Absent
    };
    assert(1 < end ==> field_ok(sfs, 1));
    let normal: OptIndex = if fs.len() > 2 {
        let f2 = fs[2];
        if f2.1 > f2.0 {
            assert(sfs[2].len() > 0);
            let t2 = s.substring_char(f2.0, f2.1);
            match parse_uint(t2) {
                Some(v) if v >= 1 => OptIndex::Index(v - 1),
                _ => {
                    assert(!field_ok(sfs, 2));
                    assert(first_bad_field(sfs, 0, end) == 2) by {
                        assert(first_bad_field(sfs, 2, end) == 2);
                        assert(first_bad_field(sfs, 1, end) == 2);
                    }
                    return Err(
                        error(l, ErrorDetail::InvalidIndex { token: token_string(s, f2.0, f2.1) }),
                    );
                },
            }
        } else {
            assert(sfs[2].len() == 0);
            OptIndex::Absent
        }
    } else {
        OptIndex::Absent
    };
    assert(2 < end ==> field_ok(sfs, 2));
    assert(first_bad_field(sfs, 0, end) == end) by {
        if 0 < end {
            assert(first_bad_field(sfs, 0, end) == first_bad_field(sfs, 1, end));
        }
        if 1 < end {
            assert(first_bad_field(sfs, 1, end) == first_bad_field(sfs, 2, end));
        }
        if 2 < end {
            assert(first_bad_field(sfs, 2, end) == first_bad_field(sfs, 3, end));
        }
    }
    Ok(FaceCorner { position, tex, normal })
}

/// Parses the components of a `v`, `vn` or `vt` line: every word after the
/// keyword must be numeric; the first `slots` are kept, the rest warned
/// away; fewer than `slots` is fatal.
#[verifier::loop_isolation(false)]
fn parse_components(
    s: &str,
    l: usize,
    ws: &Vec<(usize, usize)>,
    Ghost(line): Ghost<Seq<char>>,
    slots: usize,
    kind: ElementKind,
    warnings: &mut Vec<Warning>,
) -> (r: Result<Vec<String>, ParseError>)
    requires
        2 <= slots <= 3,
        ws@.len() >= 1,
        ws@.len() == spec_words(line).len(),
        forall|k: int|
            0 <= k < ws@.len() ==> (#[trigger] ws@[k]).0 <= ws@[k].1 <= s@.len()
                && s@.subrange(ws@[k].0 as int, ws@[k].1 as int) == spec_words(line)[k],
    ensures
        ({
            let sws = spec_words(line);
            let bad = first_bad_float(sws, 1);
            &&& final(warnings)@ == old(warnings)@ + vnt_warns(l as int, kind, slots as int, bad)
            &&& match r {
                Ok(toks) => bad == sws.len() && sws.len() - 1 >= slots && toks@.len() == slots
                    && (forall|q: int| 0 <= q < slots ==> (#[trigger] toks@[q])@ == sws[q + 1]),
                Err(e) => (bad < sws.len() && e@ == (ErrorModel {
                    line: l as int,
                    detail: ErrorDetailModel::InvalidNumber { token: sws[bad] },
                })) || (bad == sws.len() && sws.len() - 1 < slots && e@ == (ErrorModel {
                    line: l as int,
                    detail: ErrorDetailModel::TooFewComponents { kind },
                })),
            }
        }),
{
    let ghost sws = spec_words(line);
    let mut toks: Vec<String> = Vec::new();
    let mut j: usize = 1;
    while j < ws.len()
        invariant
            1 <= j <= sws.len(),
            first_bad_float(sws, 1) == first_bad_float(sws, j as int),
            toks@.len() == (if j - 1 <= slots {
                (j - 1) as int
            } else {
                slots as int
            }),
            forall|q: int| 0 <= q < toks@.len() ==> (#[trigger] toks@[q])@ == sws[q + 1],
            warnings@ == old(warnings)@ + vnt_warns(l as int, kind, slots as int, j as int),
        decreases ws@.len() - j,
    {
        let sp = ws[j];
        let tok = s.substring_char(sp.0, sp.1);
        assert(tok@ == sws[j as int]);
        if !check_float(tok) {
            assert(first_bad_float(sws, j as int) == j);
            return Err(error(l, ErrorDetail::InvalidNumber { token: token_string(s, sp.0, sp.1) }));
        }
        assert(first_bad_float(sws, j as int) == first_bad_float(sws, j + 1));
        if j - 1 < slots {
            toks.push(String::from_str(tok));
        } else {
            let w = warn(l, kind);
            warnings.push(w);
            proof {
                assert(warnings@ =~= old(warnings)@ + vnt_warns(
                    l as int,
                    kind,
                    slots as int,
                    j + 1,
                ));
            }
        }
        j = j + 1;
    }
    assert(first_bad_float(sws, j as int) == j);
    if ws.len() - 1 < slots {
        return Err(error(l, ErrorDetail::TooFewComponents { kind }));
    }
    Ok(toks)
}

/// Runs one line of the document against the accumulated state.
#[verifier::loop_isolation(false)]
fn process_line(
    s: &str,
    l: usize,
    lo: usize,
    hi: usize,
    positions: &mut Vec<Position>,
    normals: &mut Vec<Normal>,
    uvs: &mut Vec<TexCoord>,
    corners: &mut Vec<FaceCorner>,
    corner_lines: &mut Vec<usize>,
    warnings: &mut Vec<Warning>,
) -> (r: Result<(), ParseError>)
    requires
        lo <= hi <= s@.len(),
    ensures
        ({
            let line = s@.subrange(lo as int, hi as int);
            let st0 = GeomState {
                positions: position_views(old(positions)@),
                normals: normal_views(old(normals)@),
                uvs: tex_views(old(uvs)@),
                corners: old(corners)@,
                corner_lines: old(corner_lines)@.map_values(|x: usize| x as int),
            };
            let step = line_step(st0, l as int, line);
            &&& final(warnings)@ == old(warnings)@ + step.0
            &&& match (r, step.1) {
                (Ok(_), Ok(st1)) => position_views(final(positions)@) == st1.positions
                    && normal_views(final(normals)@) == st1.normals && tex_views(final(uvs)@)
                    == st1.uvs && final(corners)@ == st1.corners
                    && final(corner_lines)@.map_values(|x: usize| x as int) == st1.corner_lines,
                (Err(e), Err(em)) => e@ == em,
                _ => false,
            }
        }),
{
    let ghost line = s@.subrange(lo as int, hi as int);
    let ghost sws = spec_words(line);
    let ghost st0 = GeomState {
        positions: position_views(positions@),
        normals: normal_views(normals@),
        uvs: tex_views(uvs@),
        corners: corners@,
        corner_lines: corner_lines@.map_values(|x: usize| x as int),
    };
    let ws = split_words(s, lo, hi);
    if ws.len() == 0 {
        proof {
            assert(warnings@ =~= warnings@ + line_step(st0, l as int, line).0);
        }
        return Ok(());
    }
    let sp0 = ws[0];
    let kw = classify(s, sp0.0, sp0.1);
    match kw {
        LineKind::Pos => {
            match parse_components(s, l, &ws, Ghost(line), 3, ElementKind::Position, warnings) {
                Err(e) => Err(e),
                Ok(mut toks) => {
                    let z = toks.pop().unwrap();
                    let y = toks.pop().unwrap();
                    let x = toks.pop().unwrap();
                    positions.push(Position { x, y, z });
                    proof {
                        assert(position_views(positions@) =~= st0.positions.push(
                            Text3 { x: sws[1], y: sws[2], z: sws[3] },
                        ));
                    }
                    Ok(())
                },
            }
        },
        LineKind::Norm => {
            match parse_components(s, l, &ws, Ghost(line), 3, ElementKind::Normal, warnings) {
                Err(e) => Err(e),
                Ok(mut toks) => {
                    let z = toks.pop().unwrap();
                    let y = toks.pop().unwrap();
                    let x = toks.pop().unwrap();
                    normals.push(Normal { x, y, z });
                    proof {
                        assert(normal_views(normals@) =~= st0.normals.push(
                            Text3 { x: sws[1], y: sws[2], z: sws[3] },
                        ));
                    }
                    Ok(())
                },
            }
        },
        LineKind::Tex => {
            match parse_components(s, l, &ws, Ghost(line), 2, ElementKind::TexCoord, warnings) {
                Err(e) => Err(e),
                Ok(mut toks) => {
                    let v = toks.pop().unwrap();
                    let u = toks.pop().unwrap();
                    uvs.push(TexCoord { u, v });
                    proof {
                        assert(tex_views(uvs@) =~= st0.uvs.push(Text2 { u: sws[1], v: sws[2] }));
                    }
                    Ok(())
                },
            }
        },
        LineKind::Face => {
            let mut local: Vec<FaceCorner> = Vec::new();
            let mut j: usize = 1;
            while j < ws.len()
                invariant
                    1 <= j <= sws.len(),
                    first_bad_corner(sws, 1) == first_bad_corner(sws, j as int),
                    local@ == spec_fan(Seq::new((j - 1) as nat, |q: int| corner_of(sws[q + 1])->Ok_0)),
                    local@.len() == (if j - 1 <= 3 {
                        (j - 1) as int
                    } else {
                        3 * (j - 1 - 2)
                    }),
                    warnings@ == old(warnings)@,
                decreases ws@.len() - j,
            {
                let ghost pref = Seq::new((j - 1) as nat, |q: int| corner_of(sws[q + 1])->Ok_0);
                let sp = ws[j];
                match parse_corner(s, sp.0, sp.1, l) {
                    Err(e) => {
                        assert(first_bad_corner(sws, j as int) == j);
                        proof {
                            assert(warnings@ =~= old(warnings)@ + line_step(
                                st0,
                                l as int,
                                line,
                            ).0);
                        }
                        return Err(e);
                    },
                    Ok(c) => {
                        assert(corner_of(sws[j as int]) is Ok && c == corner_of(
                            sws[j as int],
                        )->Ok_0);
                        assert(first_bad_corner(sws, j as int) == first_bad_corner(sws, j + 1));
                        let ghost pref1 = Seq::new(j as nat, |q: int| corner_of(sws[q + 1])->Ok_0);
                        proof {
                            assert(pref1.drop_last() =~= pref);
                            assert(pref1.last() == c);
                            lemma_fan_len(pref1);
                        }
                        let cnt = j - 1;
                        let m = local.len();
                        if cnt >= 3 {
                            let p1 = local[m - cnt];
                            let p2 = local[m - 1];
                            local.push(p1);
                            local.push(p2);
                            local.push(c);
                            proof {
                                assert(local@ =~= spec_fan(pref1));
                            }
                        } else {
                            local.push(c);
                            proof {
                                assert(spec_fan(pref1) == pref1);
                                assert(local@ =~= pref1);
                            }
                        }
                    },
                }
                j = j + 1;
            }
            assert(first_bad_corner(sws, j as int) == j);
            if ws.len() - 1 < 3 {
                proof {
                    assert(warnings@ =~= old(warnings)@ + line_step(st0, l as int, line).0);
                }
                return Err(error(l, ErrorDetail::FaceTooShort));
            }
            proof {
                assert(Seq::new((j - 1) as nat, |q: int| corner_of(sws[q + 1])->Ok_0)
                    =~= face_corners(sws));
            }
            let ghost out = spec_fan(face_corners(sws));
            let add = local.len();
            let mut q: usize = 0;
            while q < add
                invariant
                    0 <= q <= add,
                    add == local@.len(),
                    local@ == out,
                    corners@ == st0.corners + out.take(q as int),
                    corner_lines@.map_values(|x: usize| x as int) == st0.corner_lines + Seq::new(
                        q as nat,
                        |y: int| l as int,
                    ),
                    warnings@ == old(warnings)@,
                decreases add - q,
            {
                let ghost pre = corner_lines@;
                corners.push(local[q]);
                corner_lines.push(l);
                proof {
                    assert(corners@ =~= st0.corners + out.take(q + 1));
                    let lhs = corner_lines@.map_values(|x: usize| x as int);
                    let rhs = st0.corner_lines + Seq::new((q + 1) as nat, |y: int| l as int);
                    assert(corner_lines@ == pre.push(l));
                    assert forall|ii: int| 0 <= ii < lhs.len() implies lhs[ii] == rhs[ii] by {
                        assert(lhs[ii] == corner_lines@[ii] as int);
                        if ii < pre.len() {
                            assert(corner_lines@[ii] == pre[ii]);
                            assert(pre.map_values(|x: usize| x as int)[ii] == pre[ii] as int);
                        }
                    }
                    assert(lhs =~= rhs);
                }
                q = q + 1;
            }
            proof {
                assert(out.take(out.len() as int) =~= out);
                assert(warnings@ =~= old(warnings)@ + line_step(st0, l as int, line).0);
            }
            Ok(())
        },
        LineKind::Other => {
            warnings.push(Warning::UnknownKeyword { line: l });
            proof {
                assert(warnings@ =~= old(warnings)@ + line_step(st0, l as int, line).0);
            }
            Ok(())
        },
    }
}

// ---------------------------------------------------------------------------
// Whole-document parse.
// ---------------------------------------------------------------------------

pub proof fn lemma_first_fault_bounds(st: GeomState, i: int)
    requires
        0 <= i <= st.corners.len(),
    ensures
        i <= first_fault(st, i) <= st.corners.len(),
        forall|k: int| i <= k < first_fault(st, i) ==> corner_fault(st, k) is None,
        first_fault(st, i) == st.corners.len() || corner_fault(st, first_fault(st, i)) is Some,
    decreases st.corners.len() - i,
{
    if i < st.corners.len() && corner_fault(st, i) is None {
        lemma_first_fault_bounds(st, i + 1);
    }
}

/// Scans the corners once for omitted attribute references.
#[verifier::loop_isolation(false)]
fn scan_missing(corners: &Vec<FaceCorner>) -> (r: (bool, bool))
    ensures
        r.0 == missing_tex(corners@),
        r.1 == missing_normal(corners@),
{
    let cs = corners;
    let mut mt = false;
    let mut mn = false;
    let mut i: usize = 0;
    while i < cs.len()
        invariant
            0 <= i <= cs@.len(),
            mt == missing_tex(cs@.take(i as int)),
            mn == missing_normal(cs@.take(i as int)),
        decreases cs@.len() - i,
    {
        let c = cs[i];
        let t_absent = match c.tex {
            OptIndex::Absent => true,
            OptIndex::Index(_) => false,
        };
        let n_absent = match c.normal {
            OptIndex::Absent => true,
            OptIndex::Index(_) => false,
        };
        proof {
            let p = cs@.take(i as int);
            let p1 = cs@.take(i + 1);
            assert(forall|k: int| 0 <= k < i ==> p1[k] == p[k]);
            assert(p1[i as int] == cs@[i as int]);
            if mt || t_absent {
                if mt {
                    let w = choose|w: int| 0 <= w < p.len() && !(#[trigger] p[w]).tex.is_present();
                    assert(!p1[w].tex.is_present());
                }
                assert(missing_tex(p1));
            } else {
                if missing_tex(p1) {
                    let w = choose|w: int|
                        0 <= w < p1.len() && !(#[trigger] p1[w]).tex.is_present();
                    if w < i {
                        assert(!p[w].tex.is_present());
                    }
                    assert(false);
                }
            }
            if mn || n_absent {
                if mn {
                    let w = choose|w: int|
                        0 <= w < p.len() && !(#[trigger] p[w]).normal.is_present();
                    assert(!p1[w].normal.is_present());
                }
                assert(missing_normal(p1));
            } else {
                if missing_normal(p1) {
                    let w = choose|w: int|
                        0 <= w < p1.len() && !(#[trigger] p1[w]).normal.is_present();
                    if w < i {
                        assert(!p[w].normal.is_present());
                    }
                    assert(false);
                }
            }
        }
        if t_absent {
            mt = true;
        }
        if n_absent {
            mn = true;
        }
        i = i + 1;
    }
    proof {
        assert(cs@.take(cs@.len() as int) =~= cs@);
    }
    (mt, mn)
}

/// Checks every corner reference against the collected records and reports
/// the first dangling one.
#[verifier::loop_isolation(false)]
fn find_fault(
    corners: &Vec<FaceCorner>,
    corner_lines: &Vec<usize>,
    n_pos: usize,
    n_norm: usize,
    n_uv: usize,
    mt: bool,
    mn: bool,
    Ghost(st): Ghost<GeomState>,
) -> (r: Option<ParseError>)
    requires
        st.corners == corners@,
        st.corner_lines == corner_lines@.map_values(|x: usize| x as int),
        corner_lines@.len() == corners@.len(),
        st.positions.len() == n_pos,
        st.normals.len() == n_norm,
        st.uvs.len() == n_uv,
        mt == missing_tex(corners@),
        mn == missing_normal(corners@),
    ensures
        ({
            let f = first_fault(st, 0);
            match r {
                Some(e) => f < st.corners.len() && e@ == (ErrorModel {
                    line: st.corner_lines[f],
                    detail: ErrorDetailModel::IndexOutOfRange {
                        kind: corner_fault(st, f).unwrap().0,
                        index: corner_fault(st, f).unwrap().1,
                    },
                }),
                None => f == st.corners.len(),
            }
        }),
{
    let mut i: usize = 0;
    while i < corners.len()
        invariant
            0 <= i <= corners@.len(),
            first_fault(st, 0) == first_fault(st, i as int),
        decreases corners@.len() - i,
    {
        let c = corners[i];
        let fault: Option<(ElementKind, u32)> = if c.position as usize >= n_pos {
            Some((ElementKind::Position, c.position))
        } else {
            let tex_fault: Option<(ElementKind, u32)> = if !mt {
                match c.tex {
                    OptIndex::Index(t) => {
                        if t as usize >= n_uv {
                            Some((ElementKind::TexCoord, t))
                        } else {
                            None
                        }
                    },
                    OptIndex::Absent => None,
                }
            } else {
                None
            };
            match tex_fault {
                Some(f) => Some(f),
                None => {
                    if !mn {
                        match c.normal {
                            OptIndex::Index(t) => {
                                if t as usize >= n_norm {
                                    Some((ElementKind::Normal, t))
                                } else {
                                    None
                                }
                            },
                            OptIndex::Absent => None,
                        }
                    } else {
                        None
                    }
                },
            }
        };
        match fault {
            Some(f) => {
                assert(corner_fault(st, i as int) == Some(f));
                assert(first_fault(st, i as int) == i);
                return Some(error(corner_lines[i], ErrorDetail::IndexOutOfRange {
                    kind: f.0,
                    index: f.1,
                }));
            },
            None => {
                assert(corner_fault(st, i as int) is None);
                assert(first_fault(st, i as int) == first_fault(st, i + 1));
            },
        }
        i = i + 1;
    }
    assert(first_fault(st, i as int) == i);
    None
}

/// Parses a whole document. The result pins down, for every input, the
/// warnings emitted, whether the parse fails, which error it fails with,
/// and the exact mesh a successful parse builds; see [`spec_parse`].
#[verifier::loop_isolation(false)]
pub fn parse(string: &str, shared: bool) -> (r: (Result<Mesh, ParseError>, Vec<Warning>))
    ensures
        ({
            let sp = spec_parse(string@, shared);
            &&& r.1@ == sp.0
            &&& match (r.0, sp.1) {
                (Ok(m), Ok(mm)) => m@ == mm,
                (Err(e), Err(em)) => e@ == em,
                _ => false,
            }
        }),
{
    let n = string.unicode_len();
    let ghost lines = spec_lines(string@);
    let mut positions: Vec<Position> = Vec::new();
    let mut normals: Vec<Normal> = Vec::new();
    let mut uvs: Vec<TexCoord> = Vec::new();
    let mut corners: Vec<FaceCorner> = Vec::new();
    let mut corner_lines: Vec<usize> = Vec::new();
    let mut warnings: Vec<Warning> = Vec::new();
    let mut pos: usize = 0;
    let mut l: usize = 0;
    proof {
        assert(position_views(positions@) =~= empty_state().positions);
        assert(normal_views(normals@) =~= empty_state().normals);
        assert(tex_views(uvs@) =~= empty_state().uvs);
        assert(corner_lines@.map_values(|x: usize| x as int) =~= empty_state().corner_lines);
        assert(run_lines(lines, 0).0 =~= warnings@);
        assert(run_lines(lines, 0).1->Ok_0 =~= empty_state());
    }
    while pos < n
        invariant
            0 <= pos <= n,
            n == string@.len(),
            l <= pos,
            0 <= l as int <= lines.len(),
            lines_from(string@, pos as int) == lines.skip(l as int),
            run_lines(lines, l as int).0 == warnings@,
            run_lines(lines, l as int).1 == Ok::<GeomState, ErrorModel>(
                GeomState {
                    positions: position_views(positions@),
                    normals: normal_views(normals@),
                    uvs: tex_views(uvs@),
                    corners: corners@,
                    corner_lines: corner_lines@.map_values(|x: usize| x as int),
                },
            ),
        decreases n - pos,
    {
        let ghost st_before = GeomState {
            positions: position_views(positions@),
            normals: normal_views(normals@),
            uvs: tex_views(uvs@),
            corners: corners@,
            corner_lines: corner_lines@.map_values(|x: usize| x as int),
        };
        let e = scan_line_end(string, pos, n);
        proof {
            lemma_find_nl_bounds(string@, pos as int);
            assert(lines.skip(l as int)[0] == lines[l as int]);
            assert(lines[l as int] == string@.subrange(pos as int, e as int));
            assert(lines.skip(l as int).len() > 0);
        }
        let res = process_line(
            string,
            l,
            pos,
            e,
            &mut positions,
            &mut normals,
            &mut uvs,
            &mut corners,
            &mut corner_lines,
            &mut warnings,
        );
        proof {
            assert(run_lines(lines, l + 1).0 == run_lines(lines, l as int).0 + line_step(
                st_before,
                l as int,
                lines[l as int],
            ).0);
        }
        match res {
            Err(err) => {
                proof {
                    assert(run_lines(lines, l + 1).1 is Err);
                    lemma_run_error_persists(lines, l + 1, lines.len() as int);
                }
                return (Err(err), warnings);
            },
            Ok(_) => {},
        }
        proof {
            let st1 = line_step(st_before, l as int, lines[l as int]).1->Ok_0;
            assert(GeomState {
                positions: position_views(positions@),
                normals: normal_views(normals@),
                uvs: tex_views(uvs@),
                corners: corners@,
                corner_lines: corner_lines@.map_values(|x: usize| x as int),
            } =~= st1);
            assert(lines.skip(l as int).drop_first() =~= lines.skip(l + 1));
            assert(lines_from(string@, pos as int).drop_first() =~= lines_from(
                string@,
                e + 1,
            ));
        }
        if e < n {
            pos = e + 1;
        } else {
            pos = n;
            proof {
                assert(lines_from(string@, e + 1) =~= Seq::<Seq<char>>::empty());
                assert(lines_from(string@, n as int) =~= Seq::<Seq<char>>::empty());
            }
        }
        l = l + 1;
    }
    proof {
        assert(lines_from(string@, pos as int) =~= Seq::<Seq<char>>::empty());
        assert(lines.skip(l as int).len() == 0);
        assert(l as int == lines.len());
    }
    let ghost st = GeomState {
        positions: position_views(positions@),
        normals: normal_views(normals@),
        uvs: tex_views(uvs@),
        corners: corners@,
        corner_lines: corner_lines@.map_values(|x: usize| x as int),
    };
    let ghost run_warns = warnings@;
    let (mt, mn) = scan_missing(&corners);
    if uvs.len() > 0 && mt {
        warnings.push(Warning::TexCoordsDropped);
    }
    if normals.len() > 0 && mn {
        warnings.push(Warning::NormalsDropped);
    }
    proof {
        assert(warnings@ =~= run_warns + drop_warnings(st));
        lemma_run_wf(lines, lines.len() as int);
    }
    match find_fault(
        &corners,
        &corner_lines,
        positions.len(),
        normals.len(),
        uvs.len(),
        mt,
        mn,
        Ghost(st),
    ) {
        Some(e) => {
            return (Err(e), warnings);
        },
        None => {},
    }
    proof {
        lemma_first_fault_bounds(st, 0);
        assert forall|i: int| 0 <= i < corners@.len() implies (#[trigger] corners@[i]).position
            < positions@.len() by {
            assert(corner_fault(st, i) is None);
        }
        if !mt {
            assert forall|i: int|
                0 <= i < corners@.len() implies (#[trigger] corners@[i]).tex is Index
                && corners@[i].tex.val() < uvs@.len() by {
                assert(corners@[i].tex.is_present());
                assert(corner_fault(st, i) is None);
            }
        }
        if !mn {
            assert forall|i: int|
                0 <= i < corners@.len() implies (#[trigger] corners@[i]).normal is Index
                && corners@[i].normal.val() < normals@.len() by {
                assert(corners@[i].normal.is_present());
                assert(corner_fault(st, i) is None);
            }
        }
    }
    let mesh = reformat(
        positions,
        if mn {
            None
        } else {
            Some(normals)
        },
        if mt {
            None
        } else {
            Some(uvs)
        },
        corners,
        shared,
    );
    (Ok(mesh), warnings)
}

// ---------------------------------------------------------------------------
// Laws of the whole parse.
// ---------------------------------------------------------------------------

/// Law: on every document the parse accepts, the triangle list covers the
/// corner sequence exactly — three index entries per triangle, none dropped —
/// so the count of triangle-index entries is a multiple of three.
pub proof fn lemma_triangle_entries(doc: Seq<char>, shared: bool)
    requires
        spec_parse(doc, shared).1 is Ok,
    ensures
        ({
            let lines = spec_lines(doc);
            let st = run_lines(lines, lines.len() as int).1->Ok_0;
            let m = spec_parse(doc, shared).1->Ok_0;
            &&& st.corners.len() % 3 == 0
            &&& m.triangles.len() * 3 == st.corners.len()
        }),
{
    let lines = spec_lines(doc);
    lemma_run_wf(lines, lines.len() as int);
}

/// Law: every index of every output triangle is strictly below the output
/// vertex count.
pub proof fn lemma_triangle_indices_bounded(doc: Seq<char>, shared: bool)
    requires
        spec_parse(doc, shared).1 is Ok,
    ensures
        ({
            let m = spec_parse(doc, shared).1->Ok_0;
            forall|t: int|
                0 <= t < m.triangles.len() ==> (#[trigger] m.triangles[t]).a < m.positions.len()
                    && m.triangles[t].b < m.positions.len() && m.triangles[t].c
                    < m.positions.len()
        }),
{
    let lines = spec_lines(doc);
    lemma_run_wf(lines, lines.len() as int);
    let st = run_lines(lines, lines.len() as int).1->Ok_0;
    crate::dedup::lemma_triangles_in_range(
        st.positions,
        if missing_normal(st.corners) {
            None
        } else {
            Some(st.normals)
        },
        if missing_tex(st.corners) {
            None
        } else {
            Some(st.uvs)
        },
        st.corners,
        shared,
    );
}

/// Law: all-or-nothing attributes. If any corner of the document omits its
/// texture-coordinate index, the mesh has no texture array at all, even when
/// `vt` records were collected; when every corner carries one, the array is
/// present. The same holds for normals.
pub proof fn lemma_all_or_nothing(doc: Seq<char>, shared: bool)
    requires
        spec_parse(doc, shared).1 is Ok,
    ensures
        ({
            let lines = spec_lines(doc);
            let st = run_lines(lines, lines.len() as int).1->Ok_0;
            let m = spec_parse(doc, shared).1->Ok_0;
            &&& m.tex_coords is Some <==> !missing_tex(st.corners)
            &&& m.normals is Some <==> !missing_normal(st.corners)
        }),
{
}

/// Law: 1-based to 0-based conversion — a well-formed corner's position
/// index is exactly the value of its first field minus one.
pub proof fn lemma_one_based(w: Seq<char>)
    requires
        corner_of(w) is Ok,
    ensures
        corner_of(w)->Ok_0.position as int == uint_token_val(spec_fields(w)[0]) - 1,
{
    let fs = spec_fields(w);
    let end = corner_end(fs);
    assert(fs.len() >= 1);
    assert(!(first_bad_field(fs, 0, end) < end));
    if end > 0 {
        assert(field_ok(fs, 0)) by {
            if !field_ok(fs, 0) {
                assert(first_bad_field(fs, 0, end) == 0);
            }
        }
    }
}

} // verus!
