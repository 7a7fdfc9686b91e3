use vstd::prelude::*;

verus! {

/// The record type a diagnostic speaks about.
#[derive(Clone, Copy, PartialEq, Eq, Structural, Debug)]
pub enum ElementKind {
    Position,
    Normal,
    TexCoord,
}

/// A non-fatal diagnostic. Warnings never stop the parse; they are returned
/// beside the result so that no diagnostic is swallowed.
#[derive(Clone, Copy, PartialEq, Eq, Structural, Debug)]
pub enum Warning {
    /// A line whose first word is not a recognized keyword was ignored.
    UnknownKeyword { line: usize },
    /// A component beyond the expected slot count was discarded.
    TooManyComponents { line: usize, kind: ElementKind },
    /// Texture coordinates were collected but some face corner omits its
    /// texture index, so the whole texture array is dropped.
    TexCoordsDropped,
    /// Normals were collected but some face corner omits its normal index,
    /// so the whole normal array is dropped.
    NormalsDropped,
}

/// What went fatally wrong on a line.
#[derive(Debug)]
pub enum ErrorDetail {
    /// A word of a `v`, `vn` or `vt` line is not a numeric token.
    InvalidNumber { token: String },
    /// A face-corner field is not a positive integer index that fits.
    InvalidIndex { token: String },
    /// A `v`, `vn` or `vt` line ended with fewer components than required.
    TooFewComponents { kind: ElementKind },
    /// An `f` line declared fewer than 3 corners.
    FaceTooShort,
    /// A face corner references a record that was never declared.
    IndexOutOfRange { kind: ElementKind, index: u32 },
}

/// A fatal diagnostic: the 0-based line it arose on, and its detail.
/// A fatal error aborts the whole parse.
#[derive(Debug)]
pub struct ParseError {
    pub line: usize,
    pub detail: ErrorDetail,
}

/// Mathematical value of an [`ErrorDetail`].
#[verifier::ext_equal]
pub ghost enum ErrorDetailModel {
    InvalidNumber { token: Seq<char> },
    InvalidIndex { token: Seq<char> },
    TooFewComponents { kind: ElementKind },
    FaceTooShort,
    IndexOutOfRange { kind: ElementKind, index: u32 },
}

/// Mathematical value of a [`ParseError`].
#[verifier::ext_equal]
pub ghost struct ErrorModel {
    pub line: int,
    pub detail: ErrorDetailModel,
}

impl View for ErrorDetail {
    type V = ErrorDetailModel;

    open spec fn view(&self) -> ErrorDetailModel {
        match self {
            ErrorDetail::InvalidNumber { token } => ErrorDetailModel::InvalidNumber {
                token: token@,
            },
            ErrorDetail::InvalidIndex { token } => ErrorDetailModel::InvalidIndex { token: token@ },
            ErrorDetail::TooFewComponents { kind } => ErrorDetailModel::TooFewComponents {
                kind: *kind,
            },
            ErrorDetail::FaceTooShort => ErrorDetailModel::FaceTooShort,
            ErrorDetail::IndexOutOfRange { kind, index } => ErrorDetailModel::IndexOutOfRange {
                kind: *kind,
                index: *index,
            },
        }
    }
}

impl View for ParseError {
    type V = ErrorModel;

    open spec fn view(&self) -> ErrorModel {
        ErrorModel { line: self.line as int, detail: self.detail@ }
    }
}

/// Builds the fatal diagnostic for the given 0-based line.
pub fn error(line: usize, detail: ErrorDetail) -> (e: ParseError)
    ensures
        e@ == (ErrorModel { line: line as int, detail: detail@ }),
{
    ParseError { line, detail }
}

/// Builds the per-line warning for a component beyond the expected count.
pub fn warn(line: usize, kind: ElementKind) -> (w: Warning)
    ensures
        w == (Warning::TooManyComponents { line, kind }),
{
    Warning::TooManyComponents { line, kind }
}

} // verus!
