//! The mathematical model of the infobox format.
//!
//! Everything the executable parser does is defined here first, as total spec
//! functions over `Seq<char>`: normalization of line endings, trimming,
//! locating characters, splitting the body into lines, and the two-state
//! field machine.  [`spec_parse`] composes them into the full pipeline; the
//! executable [`crate::parser::parse`] is proved to return exactly its result.

use vstd::prelude::*;

verus! {

// ---------------------------------------------------------------------------
// Character classes
// ---------------------------------------------------------------------------

/// Horizontal whitespace: the only characters field trimming removes.
pub open spec fn is_sp(c: char) -> bool {
    c == ' ' || c == '\t'
}

/// Leading whitespace of the whole input: spaces, tabs and newlines.
pub open spec fn is_lws(c: char) -> bool {
    is_sp(c) || c == '\n'
}

/// Trailing whitespace of the whole input.
pub open spec fn is_tws(c: char) -> bool {
    is_lws(c) || c == '\r'
}

// ---------------------------------------------------------------------------
// Searching and counting
// ---------------------------------------------------------------------------

/// Index of the first occurrence of `c` in `s` at or after `i`; `s.len()` when absent.
pub open spec fn find_from(s: Seq<char>, i: int, c: char) -> int
    decreases s.len() - i
        when 0 <= i <= s.len()
{
    if i >= s.len() {
        s.len() as int
    } else if s[i] == c {
        i
    } else {
        find_from(s, i + 1, c)
    }
}

pub proof fn lemma_find_bounds(s: Seq<char>, i: int, c: char)
    requires
        0 <= i <= s.len(),
    ensures
        i <= find_from(s, i, c) <= s.len(),
        find_from(s, i, c) < s.len() ==> s[find_from(s, i, c)] == c,
        forall|k: int| i <= k < find_from(s, i, c) ==> s[k] != c,
    decreases s.len() - i,
{
    if i < s.len() && s[i] != c {
        lemma_find_bounds(s, i + 1, c);
    }
}

/// Exact position: if `c` first occurs at `j` (looking from `i`), `find_from` returns `j`.
pub proof fn lemma_find_at(s: Seq<char>, i: int, j: int, c: char)
    requires
        0 <= i <= j < s.len(),
        s[j] == c,
        forall|k: int| i <= k < j ==> s[k] != c,
    ensures
        find_from(s, i, c) == j,
{
    lemma_find_bounds(s, i, c);
    let f = find_from(s, i, c);
    if f < j {
        assert(s[f] != c);
    }
    if f > j {
        assert(s[j] != c);
    }
}

/// If `c` does not occur at or after `i`, `find_from` returns `s.len()`.
pub proof fn lemma_find_absent(s: Seq<char>, i: int, c: char)
    requires
        0 <= i <= s.len(),
        forall|k: int| i <= k < s.len() ==> s[k] != c,
    ensures
        find_from(s, i, c) == s.len(),
{
    lemma_find_bounds(s, i, c);
    let f = find_from(s, i, c);
    if f < s.len() {
        assert(s[f] != c);
    }
}

/// The number of newline characters of `s` in the index range `[i, j)`.
pub open spec fn nl_count(s: Seq<char>, i: int, j: int) -> int
    decreases j - i
        when 0 <= i <= j <= s.len()
{
    if i >= j {
        0
    } else {
        (if s[i] == '\n' {
            1int
        } else {
            0int
        }) + nl_count(s, i + 1, j)
    }
}

pub proof fn lemma_nl_split(s: Seq<char>, i: int, j: int, k: int)
    requires
        0 <= i <= j <= k <= s.len(),
    ensures
        nl_count(s, i, k) == nl_count(s, i, j) + nl_count(s, j, k),
    decreases j - i,
{
    if i < j {
        lemma_nl_split(s, i + 1, j, k);
    }
}

pub proof fn lemma_nl_nonneg(s: Seq<char>, i: int, j: int)
    requires
        0 <= i <= j <= s.len(),
    ensures
        nl_count(s, i, j) >= 0,
    decreases j - i,
{
    if i < j {
        lemma_nl_nonneg(s, i + 1, j);
    }
}

pub proof fn lemma_nl_zero(s: Seq<char>, i: int, j: int)
    requires
        0 <= i <= j <= s.len(),
        forall|k: int| i <= k < j ==> s[k] != '\n',
    ensures
        nl_count(s, i, j) == 0,
    decreases j - i,
{
    if i < j {
        lemma_nl_zero(s, i + 1, j);
    }
}

/// A positive newline count in `[i, len)` means the newline search from `i`
/// lands inside the sequence.
pub proof fn lemma_nl_find(s: Seq<char>, i: int)
    requires
        0 <= i <= s.len(),
        nl_count(s, i, s.len() as int) >= 1,
    ensures
        find_from(s, i, '\n') < s.len(),
    decreases s.len() - i,
{
    if i < s.len() && s[i] != '\n' {
        lemma_nl_find(s, i + 1);
    }
}

// ---------------------------------------------------------------------------
// Trimming
// ---------------------------------------------------------------------------

/// First index at or after `i` holding a character that is not a space or tab.
pub open spec fn sp_start(s: Seq<char>, i: int) -> int
    decreases s.len() - i
        when 0 <= i <= s.len()
{
    if i >= s.len() {
        i
    } else if is_sp(s[i]) {
        sp_start(s, i + 1)
    } else {
        i
    }
}

pub proof fn lemma_sp_start_bounds(s: Seq<char>, i: int)
    requires
        0 <= i <= s.len(),
    ensures
        i <= sp_start(s, i) <= s.len(),
        sp_start(s, i) < s.len() ==> !is_sp(s[sp_start(s, i)]),
        forall|k: int| i <= k < sp_start(s, i) ==> is_sp(s[k]),
    decreases s.len() - i,
{
    if i < s.len() && is_sp(s[i]) {
        lemma_sp_start_bounds(s, i + 1);
    }
}

/// Exact position: if the characters before `j` are all spaces or tabs and
/// the one at `j` (if any) is not, the space scan stops at `j`.
pub proof fn lemma_sp_start_at(s: Seq<char>, j: int)
    requires
        0 <= j <= s.len(),
        forall|k: int| 0 <= k < j ==> is_sp(s[k]),
        j < s.len() ==> !is_sp(s[j]),
    ensures
        sp_start(s, 0) == j,
{
    lemma_sp_start_bounds(s, 0);
    let a = sp_start(s, 0);
    if a < j {
        assert(is_sp(s[a]));
    }
    if a > j {
        assert(is_sp(s[j]));
    }
}

/// End of `s.take(i)` once trailing spaces and tabs are dropped.
pub open spec fn sp_end(s: Seq<char>, i: int) -> int
    decreases i
        when 0 <= i <= s.len()
{
    if i <= 0 {
        0
    } else if is_sp(s[i - 1]) {
        sp_end(s, i - 1)
    } else {
        i
    }
}

pub proof fn lemma_sp_end_bounds(s: Seq<char>, i: int)
    requires
        0 <= i <= s.len(),
    ensures
        0 <= sp_end(s, i) <= i,
        sp_end(s, i) > 0 ==> !is_sp(s[sp_end(s, i) - 1]),
        forall|k: int| sp_end(s, i) <= k < i ==> is_sp(s[k]),
    decreases i,
{
    if i > 0 && is_sp(s[i - 1]) {
        lemma_sp_end_bounds(s, i - 1);
    }
}

/// Exact position: if the characters from `j` on are all spaces or tabs and
/// the one before `j` (if any) is not, the trailing-space scan stops at `j`.
pub proof fn lemma_sp_end_at(s: Seq<char>, j: int)
    requires
        0 <= j <= s.len(),
        forall|k: int| j <= k < s.len() ==> is_sp(s[k]),
        j > 0 ==> !is_sp(s[j - 1]),
    ensures
        sp_end(s, s.len() as int) == j,
{
    lemma_sp_end_bounds(s, s.len() as int);
    let e = sp_end(s, s.len() as int);
    if e < j {
        assert(is_sp(s[j - 1]));
    }
    if e > j {
        assert(is_sp(s[e - 1]));
    }
}

/// `s` without leading spaces and tabs.
pub open spec fn ltrim_sp(s: Seq<char>) -> Seq<char> {
    s.skip(sp_start(s, 0))
}

/// `s` without trailing spaces and tabs.
pub open spec fn rtrim_sp(s: Seq<char>) -> Seq<char> {
    s.take(sp_end(s, s.len() as int))
}

/// `s` without leading or trailing spaces and tabs.
pub open spec fn trim_sp(s: Seq<char>) -> Seq<char> {
    rtrim_sp(ltrim_sp(s))
}

/// A sequence whose ends are free of spaces and tabs is its own trim.
pub proof fn lemma_trim_id(s: Seq<char>)
    requires
        s.len() == 0 || (!is_sp(s[0]) && !is_sp(s[s.len() - 1])),
    ensures
        ltrim_sp(s) == s,
        rtrim_sp(s) == s,
        trim_sp(s) == s,
{
    assert(sp_start(s, 0) == 0);
    assert(ltrim_sp(s) =~= s);
    assert(sp_end(s, s.len() as int) == s.len() as int);
    assert(rtrim_sp(s) =~= s);
}

/// A sequence equal to its own trim is also equal to its one-sided trims,
/// and its end characters (if any) are not spaces or tabs.
pub proof fn lemma_trim_parts(s: Seq<char>)
    requires
        trim_sp(s) == s,
    ensures
        ltrim_sp(s) == s,
        rtrim_sp(s) == s,
        s.len() > 0 ==> !is_sp(s[0]) && !is_sp(s[s.len() - 1]),
{
    lemma_sp_start_bounds(s, 0);
    let a = sp_start(s, 0);
    let lt = ltrim_sp(s);
    lemma_sp_end_bounds(lt, lt.len() as int);
    let e = sp_end(lt, lt.len() as int);
    assert(trim_sp(s).len() == e);
    assert(a == 0);
    assert(ltrim_sp(s) =~= s);
    assert(e == s.len());
    assert(rtrim_sp(s) =~= s);
    if s.len() > 0 {
        if is_sp(s[0]) {
            lemma_sp_start_bounds(s, 1);
            assert(false);
        }
        if is_sp(s[s.len() - 1]) {
            lemma_sp_end_bounds(s, s.len() as int - 1);
            assert(false);
        }
    }
}

// ---------------------------------------------------------------------------
// Whole-input normalization
// ---------------------------------------------------------------------------

/// Every CRLF pair replaced by a single newline; all other characters kept.
pub open spec fn norm_eol(s: Seq<char>) -> Seq<char>
    decreases s.len(),
{
    if s.len() == 0 {
        s
    } else if s.len() >= 2 && s[0] == '\r' && s[1] == '\n' {
        seq!['\n'] + norm_eol(s.skip(2))
    } else {
        seq![s[0]] + norm_eol(s.skip(1))
    }
}

/// First index of the normalized input holding a significant character.
pub open spec fn lws_start(s: Seq<char>, i: int) -> int
    decreases s.len() - i
        when 0 <= i <= s.len()
{
    if i >= s.len() {
        i
    } else if is_lws(s[i]) {
        lws_start(s, i + 1)
    } else {
        i
    }
}

/// End of the input once trailing whitespace is dropped.
pub open spec fn tws_end(s: Seq<char>, i: int) -> int
    decreases i
        when 0 <= i <= s.len()
{
    if i <= 0 {
        0
    } else if is_tws(s[i - 1]) {
        tws_end(s, i - 1)
    } else {
        i
    }
}

/// The normalized input with the leading and trailing whitespace regions removed.
pub open spec fn trim_input(s: Seq<char>) -> Seq<char> {
    let a = lws_start(s, 0);
    let b = tws_end(s, s.len() as int);
    if a <= b {
        s.subrange(a, b)
    } else {
        Seq::empty()
    }
}

/// The physical line number of the first body line: line 1 holds the opening
/// marker, so the first line after it is line 2, shifted by every newline
/// skipped in the leading whitespace region.
pub open spec fn line_base(s: Seq<char>) -> int {
    2 + nl_count(s, 0, lws_start(s, 0))
}

// ---------------------------------------------------------------------------
// Envelope
// ---------------------------------------------------------------------------

/// The text opens with the literal marker `{{Infobox` followed by whitespace.
pub open spec fn has_prefix(s: Seq<char>) -> bool {
    s.len() >= 10 && s[0] == '{' && s[1] == '{' && s[2] == 'I' && s[3] == 'n' && s[4] == 'f'
        && s[5] == 'o' && s[6] == 'b' && s[7] == 'o' && s[8] == 'x' && is_lws(s[9])
}

/// The text ends with the literal marker `}}`.
pub open spec fn has_suffix(s: Seq<char>) -> bool {
    s.len() >= 2 && s[s.len() - 2] == '}' && s[s.len() - 1] == '}'
}

/// Where the type token ends: the first newline, or the first closing brace
/// when the whole block sits on a single line.
pub open spec fn type_end(s: Seq<char>) -> int {
    if find_from(s, 0, '\n') < s.len() {
        find_from(s, 0, '\n')
    } else {
        find_from(s, 0, '}')
    }
}

/// The declared type: the text between the opening marker and the end of the
/// first line, trimmed of spaces and tabs.
pub open spec fn spec_type_token(s: Seq<char>) -> Seq<char> {
    if s.len() >= 10 && type_end(s) >= 10 {
        trim_sp(s.subrange(10, type_end(s)))
    } else {
        Seq::empty()
    }
}

// ---------------------------------------------------------------------------
// Lines
// ---------------------------------------------------------------------------

/// The complete lines of `s` starting at `pos`: each segment ending in a
/// newline, in order.  A final segment without a newline is not a line.
pub open spec fn lines_from(s: Seq<char>, pos: int) -> Seq<Seq<char>>
    decreases s.len() - pos
        when 0 <= pos <= s.len()
        via lines_from_dec
{
    let j = find_from(s, pos, '\n');
    if j >= s.len() {
        Seq::empty()
    } else {
        seq![s.subrange(pos, j)] + lines_from(s, j + 1)
    }
}

#[via_fn]
proof fn lines_from_dec(s: Seq<char>, pos: int) {
    lemma_find_bounds(s, pos, '\n');
}

// ---------------------------------------------------------------------------
// Records, diagnostics and the field machine
// ---------------------------------------------------------------------------

/// The model of one parsed field.
#[verifier::ext_equal]
pub enum SpecField {
    Scalar { key: Seq<char>, value: Seq<char> },
    List { key: Seq<char>, items: Seq<(Seq<char>, Seq<char>)> },
}

/// The model of a parse result.
#[verifier::ext_equal]
pub struct SpecWiki {
    pub type_token: Seq<char>,
    pub fields: Seq<SpecField>,
}

/// The model of a diagnostic: a kind, and for body errors the 1-indexed
/// physical line number together with the raw (pre-trim) text of the line.
#[verifier::ext_equal]
pub enum SpecDiag {
    InvalidPrefix,
    InvalidSuffix,
    MissingAssignment { line: int, text: Seq<char> },
    UnclosedArray { line: int, text: Seq<char> },
    MalformedArrayItem { line: int, text: Seq<char> },
    ExpectingField { line: int, text: Seq<char> },
}

/// The state of the field machine: outside or inside an array block.
#[verifier::ext_equal]
pub enum SpecState {
    Normal,
    InArray { key: Seq<char>, items: Seq<(Seq<char>, Seq<char>)> },
}

/// Splits a field-start line (already stripped of its leading `|`) at the
/// first `=`: key trimmed of trailing, value of leading, spaces and tabs.
pub open spec fn spec_read_start(m: Seq<char>) -> Option<(Seq<char>, Seq<char>)> {
    let j = find_from(m, 0, '=');
    if j >= m.len() {
        None
    } else {
        Some((rtrim_sp(m.take(j)), ltrim_sp(m.skip(j + 1))))
    }
}

/// Splits the inside of a bracketed array item at the first `|`; without one
/// the sub-key is empty.  Both parts are trimmed of spaces and tabs.
pub open spec fn spec_read_item(inner: Seq<char>) -> (Seq<char>, Seq<char>) {
    let j = find_from(inner, 0, '|');
    if j >= inner.len() {
        (Seq::empty(), trim_sp(inner))
    } else {
        (trim_sp(inner.take(j)), trim_sp(inner.skip(j + 1)))
    }
}

/// Whether a trimmed line has the exact `[` ... `]` shape of an array item.
pub open spec fn item_bracketed(l: Seq<char>) -> bool {
    l.len() >= 2 && l[0] == '[' && l[l.len() - 1] == ']'
}

/// The field machine: walks the body lines from index `i`, in state `st`,
/// with the fields read so far, and returns all fields or the first
/// diagnostic.  Line `i` is physical line `base + i`.
pub open spec fn run_machine(
    lines: Seq<Seq<char>>,
    base: int,
    i: int,
    st: SpecState,
    fields: Seq<SpecField>,
) -> Result<Seq<SpecField>, SpecDiag>
    decreases lines.len() - i
        when 0 <= i <= lines.len()
{
    if i >= lines.len() {
        match st {
            SpecState::Normal => Ok(fields),
            SpecState::InArray { .. } => Err(SpecDiag::UnclosedArray {
                line: base + lines.len(),
                text: if lines.len() == 0 {
                    Seq::empty()
                } else {
                    lines.last()
                },
            }),
        }
    } else {
        let raw = lines[i];
        let l = trim_sp(raw);
        if l.len() == 0 {
            run_machine(lines, base, i + 1, st, fields)
        } else if l[0] == '|' {
            match st {
                SpecState::InArray { .. } => Err(SpecDiag::UnclosedArray {
                    line: base + i,
                    text: raw,
                }),
                SpecState::Normal => match spec_read_start(ltrim_sp(l.skip(1))) {
                    None => Err(SpecDiag::MissingAssignment { line: base + i, text: raw }),
                    Some(kv) => if kv.1 == seq!['{'] {
                        run_machine(
                            lines,
                            base,
                            i + 1,
                            SpecState::InArray { key: kv.0, items: Seq::empty() },
                            fields,
                        )
                    } else {
                        run_machine(
                            lines,
                            base,
                            i + 1,
                            SpecState::Normal,
                            fields.push(SpecField::Scalar { key: kv.0, value: kv.1 }),
                        )
                    },
                },
            }
        } else {
            match st {
                SpecState::Normal => Err(SpecDiag::ExpectingField { line: base + i, text: raw }),
                SpecState::InArray { key, items } => {
                    if l == seq!['}'] {
                        run_machine(
                            lines,
                            base,
                            i + 1,
                            SpecState::Normal,
                            fields.push(SpecField::List { key, items }),
                        )
                    } else if item_bracketed(l) {
                        run_machine(
                            lines,
                            base,
                            i + 1,
                            SpecState::InArray {
                                key,
                                items: items.push(spec_read_item(l.subrange(1, l.len() - 1))),
                            },
                            fields,
                        )
                    } else {
                        Err(SpecDiag::MalformedArrayItem { line: base + i, text: raw })
                    }
                },
            }
        }
    }
}

// ---------------------------------------------------------------------------
// The full pipeline
// ---------------------------------------------------------------------------

/// What parsing an arbitrary input returns: the record, or the first
/// diagnostic.  This is the single function the executable parser is held to.
pub open spec fn spec_parse(input: Seq<char>) -> Result<SpecWiki, SpecDiag> {
    let n = norm_eol(input);
    let t = trim_input(n);
    if t.len() == 0 {
        Ok(SpecWiki { type_token: Seq::empty(), fields: Seq::empty() })
    } else if !has_prefix(t) {
        Err(SpecDiag::InvalidPrefix)
    } else if !has_suffix(t) {
        Err(SpecDiag::InvalidSuffix)
    } else {
        let tt = spec_type_token(t);
        if nl_count(t, 0, t.len() as int) <= 1 {
            Ok(SpecWiki { type_token: tt, fields: Seq::empty() })
        } else {
            match run_machine(
                lines_from(t, find_from(t, 0, '\n') + 1),
                line_base(n),
                0,
                SpecState::Normal,
                Seq::empty(),
            ) {
                Ok(fields) => Ok(SpecWiki { type_token: tt, fields }),
                Err(d) => Err(d),
            }
        }
    }
}

// ---------------------------------------------------------------------------
// Decimal rendering (used by diagnostics' messages)
// ---------------------------------------------------------------------------

/// The character of one decimal digit.
pub open spec fn spec_digit(d: int) -> char {
    if d == 0 {
        '0'
    } else if d == 1 {
        '1'
    } else if d == 2 {
        '2'
    } else if d == 3 {
        '3'
    } else if d == 4 {
        '4'
    } else if d == 5 {
        '5'
    } else if d == 6 {
        '6'
    } else if d == 7 {
        '7'
    } else if d == 8 {
        '8'
    } else {
        '9'
    }
}

/// The usual decimal rendering of a non-negative integer, no leading zeros.
pub open spec fn dec_rep(n: int) -> Seq<char>
    decreases n
        when n >= 0
        via dec_rep_dec
{
    if n < 10 {
        seq![spec_digit(n)]
    } else {
        dec_rep(n / 10).push(spec_digit(n % 10))
    }
}

#[via_fn]
proof fn dec_rep_dec(n: int) {
    if n >= 10 {
        assert(1 <= n / 10 && n / 10 < n) by (nonlinear_arith)
            requires
                n >= 10,
        ;
    }
}

/// The message text of each diagnostic.
pub open spec fn spec_message(d: SpecDiag) -> Seq<char> {
    match d {
        SpecDiag::InvalidPrefix => "Invalid prefix for wiki string"@,
        SpecDiag::InvalidSuffix => "Invalid suffix for wiki string"@,
        SpecDiag::MissingAssignment { line, text } => "Failed to read start line, expected sign equal on line: "@
            + dec_rep(line) + ", for string "@ + text,
        SpecDiag::UnclosedArray { line, text } => "Wiki array not closed on line: "@ + dec_rep(
            line,
        ) + ", for string "@ + text,
        SpecDiag::MalformedArrayItem { line, text } => "Malformed wiki array item on line: "@
            + dec_rep(line) + ", for string "@ + text,
        SpecDiag::ExpectingField { line, text } => "Expecting new fields on line: "@ + dec_rep(
            line,
        ) + ", for string "@ + text,
    }
}

} // verus!
