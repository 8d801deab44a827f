//! The diagnostic mapper.
//!
//! Turns one structural parse failure plus the original source text into a
//! rendering-ready diagnostic: a severity, a message, and one primary
//! labeled byte range.  Every range handed out is snapped to character
//! boundaries first, so a renderer can never be made to split a multi-byte
//! character, even when the failure carried a raw byte offset.

use crate::error::{Error, ErrorModel};
use vstd::prelude::*;
use vstd::string::{StringExecFns, StringSliceAdditionalSpecFns};
use vstd::utf8::{is_char_boundary, valid_utf8};

verus! {

broadcast use vstd::utf8::group_utf8_lib;

/// How serious a diagnostic is.
#[derive(Debug, Clone, Copy, PartialEq, Eq, Structural)]
pub enum Severity {
    Error,
    Warning,
}

/// One labeled byte range of the source text.
#[derive(Debug, PartialEq, Eq)]
pub struct Label {
    pub start: usize,
    pub end: usize,
    pub message: String,
}

/// A rendering-ready diagnostic: a severity, a top-level message, and
/// labeled source ranges, the first of which is primary.
#[derive(Debug, PartialEq, Eq)]
pub struct Diagnostic {
    pub severity: Severity,
    pub message: String,
    pub labels: Vec<Label>,
}

/// Model of a label.
pub struct LabelModel {
    pub start: int,
    pub end: int,
    pub message: Seq<char>,
}

/// Model of a diagnostic.
pub struct DiagnosticModel {
    pub severity: Severity,
    pub message: Seq<char>,
    pub labels: Seq<LabelModel>,
}

impl View for Label {
    type V = LabelModel;

    open spec fn view(&self) -> LabelModel {
        LabelModel { start: self.start as int, end: self.end as int, message: self.message@ }
    }
}

impl View for Diagnostic {
    type V = DiagnosticModel;

    open spec fn view(&self) -> DiagnosticModel {
        DiagnosticModel {
            severity: self.severity,
            message: self.message@,
            labels: Seq::new(self.labels@.len(), |k: int| self.labels@[k]@),
        }
    }
}

/// The comma-joined list of the given items.
pub open spec fn spec_comma_list(xs: Seq<Seq<char>>) -> Seq<char>
    decreases xs.len(),
{
    if xs.len() == 0 {
        Seq::empty()
    } else if xs.len() == 1 {
        xs[0]
    } else {
        xs[0] + ", "@ + spec_comma_list(xs.drop_first())
    }
}

/// How an expected-set reads: nothing, one alternative, or a comma list
/// with a final `or`.
pub open spec fn spec_join_expected(xs: Seq<Seq<char>>) -> Seq<char> {
    if xs.len() == 0 {
        "Didn't know what to expect?"@
    } else if xs.len() == 1 {
        "Expected: "@ + xs[0]
    } else {
        "Expected: "@ + spec_comma_list(xs.take(xs.len() - 1)) + " or "@ + xs.last()
    }
}

/// Joins the items `[from, to)` of `expected` with commas.
fn comma_list(expected: &Vec<String>, from: usize, to: usize) -> (r: String)
    requires
        from <= to <= expected@.len(),
    ensures
        r@ == spec_comma_list(expected.deep_view().subrange(from as int, to as int)),
    decreases to - from,
{
    let ghost xs = expected.deep_view().subrange(from as int, to as int);
    proof {
        assert(expected.deep_view().len() == expected@.len());
    }
    if from >= to {
        let r = String::new();
        proof {
            assert(r@ =~= spec_comma_list(xs));
        }
        r
    } else if from + 1 == to {
        let r = String::from_str(expected[from].as_str());
        proof {
            assert(xs[0] == expected.deep_view()[from as int]);
        }
        r
    } else {
        let mut s = String::from_str(expected[from].as_str());
        s.append(", ");
        let rest = comma_list(expected, from + 1, to);
        s.append(rest.as_str());
        proof {
            assert(xs.drop_first() =~= expected.deep_view().subrange(from + 1, to as int));
            assert(xs[0] == expected.deep_view()[from as int]);
            assert(s@ =~= xs[0] + ", "@ + spec_comma_list(xs.drop_first()));
        }
        s
    }
}

/// Formats an expected-set: `"a"`, `"a or b"`, or `"a, b, ... or z"`, and an
/// explicit sentence when nothing at all was expected.
pub fn join_expected(expected: &Vec<String>) -> (r: String)
    ensures
        r@ == spec_join_expected(expected.deep_view()),
{
    let n = expected.len();
    proof {
        assert(expected.deep_view().len() == expected@.len());
    }
    if n == 0 {
        String::from_str("Didn't know what to expect?")
    } else if n == 1 {
        let mut s = String::from_str("Expected: ");
        s.append(expected[0].as_str());
        proof {
            assert(expected.deep_view()[0] == expected[0 as int].deep_view());
        }
        s
    } else {
        let mut s = String::from_str("Expected: ");
        let list = comma_list(expected, 0, n - 1);
        s.append(list.as_str());
        s.append(" or ");
        s.append(expected[n - 1].as_str());
        proof {
            let xs = expected.deep_view();
            assert(xs.subrange(0, n - 1) =~= xs.take(xs.len() - 1));
            assert(xs[n - 1] == expected[n - 1].deep_view());
            assert(s@ =~= "Expected: "@ + spec_comma_list(xs.take(xs.len() - 1)) + " or "@
                + xs.last());
        }
        s
    }
}

/// The smallest character boundary at or after `i`, or `i` itself
/// unchanged when `i` lies beyond the end of the text.
pub open spec fn spec_snap(bytes: Seq<u8>, i: int) -> int
    decreases bytes.len() - i,
    when 0 <= i
{
    if i >= bytes.len() {
        i
    } else if is_char_boundary(bytes, i) {
        i
    } else {
        spec_snap(bytes, i + 1)
    }
}

/// Snapping never moves backwards, never leaves the text when it started
/// inside it, always lands on a character boundary, and lands on the
/// smallest boundary at or after its start.
pub proof fn lemma_snap_smallest_boundary(bytes: Seq<u8>, i: int)
    requires
        valid_utf8(bytes),
        0 <= i <= bytes.len(),
    ensures
        i <= spec_snap(bytes, i) <= bytes.len(),
        is_char_boundary(bytes, spec_snap(bytes, i)),
        forall|k: int| i <= k < spec_snap(bytes, i) ==> !is_char_boundary(bytes, k),
    decreases bytes.len() - i,
{
    if i >= bytes.len() {
        assert(is_char_boundary(bytes, bytes.len() as int));
    } else if is_char_boundary(bytes, i) {
    } else {
        lemma_snap_smallest_boundary(bytes, i + 1);
    }
}

/// Snaps one byte offset of the text up to a character boundary.
fn snap_pos(data: &str, i: usize) -> (r: usize)
    ensures
        r as int == spec_snap(data.spec_bytes(), i as int),
{
    let n = data.as_bytes().len();
    let mut p: usize = i;
    if p > n {
        return p;
    }
    loop
        invariant
            p <= n,
            n == data.spec_bytes().len(),
            spec_snap(data.spec_bytes(), i as int) == spec_snap(data.spec_bytes(), p as int),
        ensures
            p <= n,
            spec_snap(data.spec_bytes(), i as int) == p as int,
        decreases n - p,
    {
        if p >= n {
            break ;
        }
        if data.is_char_boundary(p) {
            break ;
        }
        p = p + 1;
    }
    p
}

/// What the mapper produces for each failure shape: a fixed message, and
/// one primary label whose range is snapped to character boundaries.  Point
/// failures get a collapsed range; failures with an expected-set carry its
/// formatted text on the label.
pub open spec fn spec_codespan(bytes: Seq<u8>, e: ErrorModel) -> DiagnosticModel {
    match e {
        ErrorModel::InvalidToken { location } => DiagnosticModel {
            severity: Severity::Error,
            message: "Invalid token"@,
            labels: seq![
                LabelModel {
                    start: spec_snap(bytes, location),
                    end: spec_snap(bytes, location),
                    message: Seq::empty(),
                },
            ],
        },
        ErrorModel::UnrecognizedEOF { location, expected } => DiagnosticModel {
            severity: Severity::Error,
            message: "Unexpected EOF"@,
            labels: seq![
                LabelModel {
                    start: spec_snap(bytes, location),
                    end: spec_snap(bytes, location),
                    message: spec_join_expected(expected),
                },
            ],
        },
        ErrorModel::UnrecognizedToken { start, token, end, expected } => DiagnosticModel {
            severity: Severity::Error,
            message: "Unrecognized token"@,
            labels: seq![
                LabelModel {
                    start: spec_snap(bytes, start),
                    end: spec_snap(bytes, end),
                    message: spec_join_expected(expected),
                },
            ],
        },
        ErrorModel::ExtraToken { start, token, end } => DiagnosticModel {
            severity: Severity::Error,
            message: "Extra token"@,
            labels: seq![
                LabelModel {
                    start: spec_snap(bytes, start),
                    end: spec_snap(bytes, end),
                    message: Seq::empty(),
                },
            ],
        },
        ErrorModel::User { start, end } => DiagnosticModel {
            severity: Severity::Error,
            message: "Invalid token"@,
            labels: seq![
                LabelModel {
                    start: spec_snap(bytes, start),
                    end: spec_snap(bytes, end),
                    message: Seq::empty(),
                },
            ],
        },
    }
}

/// Builds a diagnostic with one label.
fn one_label_diag(message: &str, start: usize, end: usize, label_msg: String) -> (d: Diagnostic)
    ensures
        d@ == (DiagnosticModel {
            severity: Severity::Error,
            message: message@,
            labels: seq![
                LabelModel { start: start as int, end: end as int, message: label_msg@ },
            ],
        }),
{
    let ghost lm = label_msg@;
    let mut labels: Vec<Label> = Vec::new();
    labels.push(Label { start, end, message: label_msg });
    let d = Diagnostic { severity: Severity::Error, message: String::from_str(message), labels };
    proof {
        assert(d@.labels =~= seq![LabelModel { start: start as int, end: end as int, message: lm }]);
    }
    d
}

/// Maps one parse failure, with the source unit it arose in, to its
/// diagnostic.  The display name of the unit plays no part in the mapping.
pub fn codespan<'a>(filename: &'a str, data: &'a str, error: &Error<'a>) -> (d: Diagnostic)
    ensures
        d@ == spec_codespan(data.spec_bytes(), error@),
{
    let _ = filename;
    match error {
        Error::InvalidToken { location } => {
            let p = snap_pos(data, *location);
            one_label_diag("Invalid token", p, p, String::new())
        },
        Error::UnrecognizedEOF { location, expected } => {
            let p = snap_pos(data, *location);
            one_label_diag("Unexpected EOF", p, p, join_expected(expected))
        },
        Error::UnrecognizedToken { token, expected } => {
            let s = snap_pos(data, token.0);
            let e = snap_pos(data, token.2);
            one_label_diag("Unrecognized token", s, e, join_expected(expected))
        },
        Error::ExtraToken { token } => {
            let s = snap_pos(data, token.0);
            let e = snap_pos(data, token.2);
            one_label_diag("Extra token", s, e, String::new())
        },
        Error::User { error } => {
            let s = snap_pos(data, error.start);
            let e = snap_pos(data, error.end);
            one_label_diag("Invalid token", s, e, String::new())
        },
    }
}

} // verus!
