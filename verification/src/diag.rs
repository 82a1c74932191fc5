//! Diagnostics: structured error values with a verified message rendering.

use vstd::prelude::*;
use vstd::string::StringExecFns;

use crate::model::dec_rep;
use crate::model::spec_digit;
use crate::model::spec_message;
use crate::model::SpecDiag;
use crate::text::string_of;

verus! {

/// A parse failure: its kind and, for failures inside the body, the
/// 1-indexed physical line number of the original input and the raw
/// (pre-trim) text of the offending line.
#[derive(Debug, PartialEq, Eq)]
pub enum Diagnostic {
    InvalidPrefix,
    InvalidSuffix,
    MissingAssignment { line: usize, text: String },
    UnclosedArray { line: usize, text: String },
    MalformedArrayItem { line: usize, text: String },
    ExpectingField { line: usize, text: String },
}

impl View for Diagnostic {
    type V = SpecDiag;

    open spec fn view(&self) -> SpecDiag {
        match self {
            Diagnostic::InvalidPrefix => SpecDiag::InvalidPrefix,
            Diagnostic::InvalidSuffix => SpecDiag::InvalidSuffix,
            Diagnostic::MissingAssignment { line, text } => SpecDiag::MissingAssignment {
                line: *line as int,
                text: text@,
            },
            Diagnostic::UnclosedArray { line, text } => SpecDiag::UnclosedArray {
                line: *line as int,
                text: text@,
            },
            Diagnostic::MalformedArrayItem { line, text } => SpecDiag::MalformedArrayItem {
                line: *line as int,
                text: text@,
            },
            Diagnostic::ExpectingField { line, text } => SpecDiag::ExpectingField {
                line: *line as int,
                text: text@,
            },
        }
    }
}

/// The character of one decimal digit.
fn digit_char(d: usize) -> (c: char)
    requires
        d < 10,
    ensures
        c == spec_digit(d as int),
{
    if d == 0 {
        '0'
    } else if d == 1 {
        '1'
    } else if d == 2 {
        '2'
    } else if d == 3 {
        '3'
    } else if d == 4 {
        '4'
    } else if d == 5 {
        '5'
    } else if d == 6 {
        '6'
    } else if d == 7 {
        '7'
    } else if d == 8 {
        '8'
    } else {
        '9'
    }
}

/// The decimal digits of `n`, most significant first.
fn usize_digits(n: usize) -> (r: Vec<char>)
    ensures
        r@ == dec_rep(n as int),
    decreases n,
{
    if n < 10 {
        let mut v: Vec<char> = Vec::new();
        v.push(digit_char(n));
        assert(v@ =~= seq![spec_digit(n as int)]);
        v
    } else {
        proof {
            assert(1 <= n as int / 10 && n as int / 10 < n as int) by (nonlinear_arith)
                requires
                    n >= 10,
            ;
        }
        let mut v = usize_digits(n / 10);
        v.push(digit_char(n % 10));
        v
    }
}

/// The decimal rendering of `n`.
fn usize_string(n: usize) -> (r: String)
    ensures
        r@ == dec_rep(n as int),
{
    let digits = usize_digits(n);
    string_of(&digits)
}

/// The trailing part of a body diagnostic's message: the line number and the
/// raw text of the line.
fn locate(line: usize, text: &String) -> (r: String)
    ensures
        r@ == dec_rep(line as int) + ", for string "@ + text@,
{
    let mut m = usize_string(line);
    m.append(", for string ");
    m.append(text.as_str());
    m
}

impl Diagnostic {
    /// The human-readable message of this diagnostic.
    pub fn message(&self) -> (r: String)
        ensures
            r@ == spec_message(self@),
    {
        match self {
            Diagnostic::InvalidPrefix => "Invalid prefix for wiki string".to_owned(),
            Diagnostic::InvalidSuffix => "Invalid suffix for wiki string".to_owned(),
            Diagnostic::MissingAssignment { line, text } => {
                let mut m = "Failed to read start line, expected sign equal on line: ".to_owned();
                m.append(locate(*line, text).as_str());
                m
            },
            Diagnostic::UnclosedArray { line, text } => {
                let mut m = "Wiki array not closed on line: ".to_owned();
                m.append(locate(*line, text).as_str());
                m
            },
            Diagnostic::MalformedArrayItem { line, text } => {
                let mut m = "Malformed wiki array item on line: ".to_owned();
                m.append(locate(*line, text).as_str());
                m
            },
            Diagnostic::ExpectingField { line, text } => {
                let mut m = "Expecting new fields on line: ".to_owned();
                m.append(locate(*line, text).as_str());
                m
            },
        }
    }
}

} // verus!
