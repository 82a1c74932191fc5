//! Laws of the parser, proved against [`crate::model::spec_parse`].
//!
//! Round-tripping well-formed scalar and array fields through rendering and
//! parsing, insensitivity of the field machine to spaces and tabs around the
//! markers, and preservation of duplicate keys in source order.

use vstd::prelude::*;

use crate::model::find_from;
use crate::model::has_prefix;
use crate::model::has_suffix;
use crate::model::is_lws;
use crate::model::is_sp;
use crate::model::is_tws;
use crate::model::item_bracketed;
use crate::model::lemma_find_absent;
use crate::model::lemma_find_at;
use crate::model::lemma_nl_nonneg;
use crate::model::lemma_nl_split;
use crate::model::lemma_nl_zero;
use crate::model::lemma_trim_id;
use crate::model::lemma_trim_parts;
use crate::model::line_base;
use crate::model::lines_from;
use crate::model::ltrim_sp;
use crate::model::lws_start;
use crate::model::nl_count;
use crate::model::norm_eol;
use crate::model::rtrim_sp;
use crate::model::run_machine;
use crate::model::sp_end;
use crate::model::sp_start;
use crate::model::spec_parse;
use crate::model::spec_read_item;
use crate::model::spec_read_start;
use crate::model::spec_type_token;
use crate::model::trim_input;
use crate::model::trim_sp;
use crate::model::tws_end;
use crate::model::type_end;
use crate::model::SpecDiag;
use crate::model::SpecField;
use crate::model::SpecState;
use crate::model::SpecWiki;

verus! {

// ---------------------------------------------------------------------------
// Vocabulary
// ---------------------------------------------------------------------------

/// `c` does not occur in `s`.
pub open spec fn no_char(s: Seq<char>, c: char) -> bool {
    forall|i: int| 0 <= i < s.len() ==> s[i] != c
}

/// A token that survives the parser's trimming and line splitting unchanged.
pub open spec fn good_token(t: Seq<char>) -> bool {
    trim_sp(t) == t && no_char(t, '\n') && no_char(t, '\r')
}

/// A (key, value) pair that a `|key=value` line can carry faithfully:
/// the key holds no `=`, `\n` or `|`, the value is not the literal `{`,
/// and neither side carries surrounding whitespace or a stray `\r`.
pub open spec fn good_pair(p: (Seq<char>, Seq<char>)) -> bool {
    &&& good_token(p.0)
    &&& no_char(p.0, '=')
    &&& no_char(p.0, '|')
    &&& good_token(p.1)
    &&& p.1 != seq!['{']
}

/// A (sub-key, sub-value) pair that a `[sub_key|sub_value]` line (or
/// `[sub_value]` when the sub-key is empty) can carry faithfully.
pub open spec fn good_item(p: (Seq<char>, Seq<char>)) -> bool {
    &&& good_token(p.0)
    &&& no_char(p.0, '|')
    &&& good_token(p.1)
    &&& (p.0.len() == 0 ==> no_char(p.1, '|'))
}

/// The opening marker followed by one space.
pub open spec fn env_open() -> Seq<char> {
    seq!['{', '{', 'I', 'n', 'f', 'o', 'b', 'o', 'x', ' ']
}

/// The rendering of one scalar field.
pub open spec fn scalar_line(k: Seq<char>, v: Seq<char>) -> Seq<char> {
    seq!['|'] + k + seq!['='] + v
}

pub open spec fn scalar_lines(pairs: Seq<(Seq<char>, Seq<char>)>) -> Seq<Seq<char>> {
    pairs.map_values(|p: (Seq<char>, Seq<char>)| scalar_line(p.0, p.1))
}

pub open spec fn scalar_fields(pairs: Seq<(Seq<char>, Seq<char>)>) -> Seq<SpecField> {
    pairs.map_values(|p: (Seq<char>, Seq<char>)| SpecField::Scalar { key: p.0, value: p.1 })
}

/// The rendering of one array item.
pub open spec fn item_line(p: (Seq<char>, Seq<char>)) -> Seq<char> {
    if p.0.len() == 0 {
        seq!['['] + p.1 + seq![']']
    } else {
        seq!['['] + p.0 + seq!['|'] + p.1 + seq![']']
    }
}

pub open spec fn item_lines(items: Seq<(Seq<char>, Seq<char>)>) -> Seq<Seq<char>> {
    items.map_values(|p: (Seq<char>, Seq<char>)| item_line(p))
}

/// The body lines of one array field: its opening line, its items, and the
/// closing line.
pub open spec fn array_lines(key: Seq<char>, items: Seq<(Seq<char>, Seq<char>)>) -> Seq<Seq<char>> {
    seq![seq!['|'] + key + seq!['=', '{']] + item_lines(items) + seq![seq!['}']]
}

/// Body lines joined back into text, each terminated by a newline.
pub open spec fn join_lines(ls: Seq<Seq<char>>) -> Seq<char>
    decreases ls.len(),
{
    if ls.len() == 0 {
        Seq::empty()
    } else {
        ls[0] + seq!['\n'] + join_lines(ls.skip(1))
    }
}

/// A whole rendered block: envelope, type token, and body lines.
pub open spec fn render_block(tt: Seq<char>, body: Seq<Seq<char>>) -> Seq<char> {
    env_open() + tt + seq!['\n'] + join_lines(body) + seq!['}', '}']
}

pub open spec fn render_scalars(tt: Seq<char>, pairs: Seq<(Seq<char>, Seq<char>)>) -> Seq<char> {
    render_block(tt, scalar_lines(pairs))
}

pub open spec fn render_array(
    tt: Seq<char>,
    key: Seq<char>,
    items: Seq<(Seq<char>, Seq<char>)>,
) -> Seq<char> {
    render_block(tt, array_lines(key, items))
}

// ---------------------------------------------------------------------------
// Small facts about characters in sequences
// ---------------------------------------------------------------------------

proof fn lemma_no_char_concat(a: Seq<char>, b: Seq<char>, c: char)
    requires
        no_char(a, c),
        no_char(b, c),
    ensures
        no_char(a + b, c),
{
    assert forall|i: int| 0 <= i < (a + b).len() implies (a + b)[i] != c by {
        if i < a.len() {
            assert((a + b)[i] == a[i]);
        } else {
            assert((a + b)[i] == b[i - a.len()]);
        }
    }
}

proof fn lemma_no_char_one(x: char, c: char)
    requires
        x != c,
    ensures
        no_char(seq![x], c),
{
    assert forall|i: int| 0 <= i < 1 implies seq![x][i] != c by {
        assert(seq![x][0] == x);
    }
}

proof fn lemma_no_char_two(x: char, y: char, c: char)
    requires
        x != c,
        y != c,
    ensures
        no_char(seq![x, y], c),
{
    assert forall|i: int| 0 <= i < 2 implies seq![x, y][i] != c by {
        assert(seq![x, y][0] == x);
        assert(seq![x, y][1] == y);
    }
}

proof fn lemma_env_no_char(c: char)
    requires
        c != '{' && c != 'I' && c != 'n' && c != 'f' && c != 'o' && c != 'b' && c != 'x' && c
            != ' ',
    ensures
        no_char(env_open(), c),
{
    assert forall|i: int| 0 <= i < env_open().len() implies env_open()[i] != c by {
        assert(env_open()[0] == '{');
        assert(env_open()[1] == '{');
        assert(env_open()[2] == 'I');
        assert(env_open()[3] == 'n');
        assert(env_open()[4] == 'f');
        assert(env_open()[5] == 'o');
        assert(env_open()[6] == 'b');
        assert(env_open()[7] == 'o');
        assert(env_open()[8] == 'x');
        assert(env_open()[9] == ' ');
    }
}

proof fn lemma_join_no_char(ls: Seq<Seq<char>>, c: char)
    requires
        c != '\n',
        forall|k: int| 0 <= k < ls.len() ==> no_char(#[trigger] ls[k], c),
    ensures
        no_char(join_lines(ls), c),
    decreases ls.len(),
{
    if ls.len() == 0 {
        assert(no_char(Seq::empty(), c));
    } else {
        lemma_no_char_one('\n', c);
        lemma_no_char_concat(ls[0], seq!['\n'], c);
        assert forall|k: int| 0 <= k < ls.skip(1).len() implies no_char(
            #[trigger] ls.skip(1)[k],
            c,
        ) by {
            assert(ls.skip(1)[k] == ls[k + 1]);
        }
        lemma_join_no_char(ls.skip(1), c);
        lemma_no_char_concat(ls[0] + seq!['\n'], join_lines(ls.skip(1)), c);
    }
}

/// An input without carriage returns is already normalized.
proof fn lemma_norm_id(s: Seq<char>)
    requires
        no_char(s, '\r'),
    ensures
        norm_eol(s) == s,
    decreases s.len(),
{
    if s.len() > 0 {
        assert(s[0] != '\r');
        assert forall|i: int| 0 <= i < s.skip(1).len() implies s.skip(1)[i] != '\r' by {
            assert(s.skip(1)[i] == s[i + 1]);
        }
        lemma_norm_id(s.skip(1));
        assert(seq![s[0]] + s.skip(1) =~= s);
    }
}

// ---------------------------------------------------------------------------
// Splitting rendered bodies back into lines
// ---------------------------------------------------------------------------

/// Text that is a newline-terminated join of newline-free lines, followed by
/// a newline-free tail, splits back into exactly those lines.
proof fn lemma_lines_of_join(s: Seq<char>, pos: int, ls: Seq<Seq<char>>, tail: Seq<char>)
    requires
        0 <= pos <= s.len(),
        s.skip(pos) == join_lines(ls) + tail,
        forall|k: int| 0 <= k < ls.len() ==> no_char(#[trigger] ls[k], '\n'),
        no_char(tail, '\n'),
    ensures
        lines_from(s, pos) == ls,
    decreases ls.len(),
{
    if ls.len() == 0 {
        assert(s.skip(pos) =~= tail);
        assert forall|k: int| pos <= k < s.len() implies s[k] != '\n' by {
            assert(s.skip(pos)[k - pos] == s[k]);
        }
        lemma_find_absent(s, pos, '\n');
        assert(lines_from(s, pos) =~= ls);
    } else {
        let l0 = ls[0];
        let rest = ls.skip(1);
        assert(join_lines(ls) == l0 + seq!['\n'] + join_lines(rest));
        let j = pos + l0.len();
        assert(s.skip(pos).len() == join_lines(ls).len() + tail.len());
        assert(j < s.len());
        assert(s[j] == s.skip(pos)[l0.len() as int]);
        assert((l0 + seq!['\n'] + join_lines(rest) + tail)[l0.len() as int] == '\n');
        assert(s[j] == '\n');
        assert forall|k: int| pos <= k < j implies s[k] != '\n' by {
            assert(s.skip(pos)[k - pos] == s[k]);
            assert((l0 + seq!['\n'] + join_lines(rest) + tail)[k - pos] == l0[k - pos]);
        }
        lemma_find_at(s, pos, j, '\n');
        assert(s.subrange(pos, j) =~= l0) by {
            assert forall|m: int| 0 <= m < l0.len() implies s.subrange(pos, j)[m] == l0[m] by {
                assert(s.subrange(pos, j)[m] == s[pos + m]);
                assert(s.skip(pos)[m] == s[pos + m]);
                assert((l0 + seq!['\n'] + join_lines(rest) + tail)[m] == l0[m]);
            }
        }
        assert(s.skip(j + 1) =~= join_lines(rest) + tail) by {
            assert(s.skip(j + 1).len() == join_lines(rest).len() + tail.len());
            assert forall|m: int| 0 <= m < s.skip(j + 1).len() implies s.skip(j + 1)[m]
                == (join_lines(rest) + tail)[m] by {
                assert(s.skip(j + 1)[m] == s[j + 1 + m]);
                assert(s.skip(pos)[l0.len() + 1 + m] == s[j + 1 + m]);
                assert((l0 + seq!['\n'] + join_lines(rest) + tail)[l0.len() + 1 + m]
                    == (join_lines(rest) + tail)[m]);
            }
        }
        assert forall|k: int| 0 <= k < rest.len() implies no_char(#[trigger] rest[k], '\n') by {
            assert(rest[k] == ls[k + 1]);
        }
        lemma_lines_of_join(s, j + 1, rest, tail);
        assert(seq![l0] + rest =~= ls);
    }
}

// ---------------------------------------------------------------------------
// The envelope of a rendered block
// ---------------------------------------------------------------------------

/// What parsing sees of a rendered block before the field machine runs:
/// the block is already normalized and trimmed, carries the envelope, its
/// type token reads back exactly, and its body splits into the given lines.
proof fn lemma_render_envelope(tt: Seq<char>, body: Seq<Seq<char>>)
    requires
        good_token(tt),
        forall|k: int| 0 <= k < body.len() ==> no_char(#[trigger] body[k], '\n'),
        forall|k: int| 0 <= k < body.len() ==> no_char(#[trigger] body[k], '\r'),
    ensures
        ({
            let r = render_block(tt, body);
            &&& norm_eol(r) == r
            &&& trim_input(r) == r
            &&& line_base(r) == 2
            &&& r.len() > 0
            &&& has_prefix(r)
            &&& has_suffix(r)
            &&& find_from(r, 0, '\n') == 10 + tt.len()
            &&& spec_type_token(r) == tt
            &&& lines_from(r, 11 + tt.len() as int) == body
            &&& (body.len() == 0 ==> nl_count(r, 0, r.len() as int) == 1)
            &&& (body.len() >= 1 ==> nl_count(r, 0, r.len() as int) >= 2)
        }),
{
    let r = render_block(tt, body);
    let j1 = 10 + tt.len() as int;
    assert(env_open()[0] == '{');
    assert(env_open()[1] == '{');
    assert(env_open()[2] == 'I');
    assert(env_open()[3] == 'n');
    assert(env_open()[4] == 'f');
    assert(env_open()[5] == 'o');
    assert(env_open()[6] == 'b');
    assert(env_open()[7] == 'o');
    assert(env_open()[8] == 'x');
    assert(env_open()[9] == ' ');
    assert(r.len() == 13 + tt.len() + join_lines(body).len());
    assert(forall|i: int| 0 <= i < 10 ==> r[i] == env_open()[i]);
    // no carriage return anywhere, so normalization is the identity
    lemma_env_no_char('\r');
    lemma_no_char_one('\n', '\r');
    lemma_join_no_char(body, '\r');
    lemma_no_char_two('}', '}', '\r');
    lemma_no_char_concat(env_open(), tt, '\r');
    lemma_no_char_concat(env_open() + tt, seq!['\n'], '\r');
    lemma_no_char_concat(env_open() + tt + seq!['\n'], join_lines(body), '\r');
    lemma_no_char_concat(env_open() + tt + seq!['\n'] + join_lines(body), seq!['}', '}'], '\r');
    lemma_norm_id(r);
    // the block is already trimmed: it starts with `{` and ends with `}`
    assert(r[0] == '{');
    assert(r[r.len() - 1] == '}');
    assert(r[r.len() - 2] == '}');
    assert(!is_lws(r[0]));
    assert(lws_start(r, 0) == 0);
    assert(!is_tws(r[r.len() - 1]));
    assert(tws_end(r, r.len() as int) == r.len() as int);
    assert(r.subrange(0, r.len() as int) =~= r);
    assert(trim_input(r) == r);
    assert(nl_count(r, 0, 0) == 0);
    assert(line_base(r) == 2);
    // envelope markers
    assert(is_lws(r[9]));
    assert(has_prefix(r));
    assert(has_suffix(r));
    // the first newline is the one ending the envelope line
    assert(r[j1] == '\n');
    lemma_env_no_char('\n');
    assert forall|k: int| 0 <= k < j1 implies r[k] != '\n' by {
        if k < 10 {
            assert(r[k] == env_open()[k]);
        } else {
            assert(r[k] == tt[k - 10]);
        }
    }
    lemma_find_at(r, 0, j1, '\n');
    // the type token reads back exactly
    assert(type_end(r) == j1);
    assert(r.subrange(10, j1) =~= tt);
    assert(spec_type_token(r) == trim_sp(tt));
    // the body splits back into its lines
    assert(r.skip(j1 + 1) =~= join_lines(body) + seq!['}', '}']) by {
        assert forall|m: int| 0 <= m < r.skip(j1 + 1).len() implies r.skip(j1 + 1)[m] == (
        join_lines(body) + seq!['}', '}'])[m] by {
            assert(r.skip(j1 + 1)[m] == r[j1 + 1 + m]);
        }
    }
    lemma_no_char_two('}', '}', '\n');
    lemma_lines_of_join(r, j1 + 1, body, seq!['}', '}']);
    // newline counts
    lemma_nl_split(r, 0, j1, r.len() as int);
    lemma_nl_split(r, j1, j1 + 1, r.len() as int);
    lemma_nl_zero(r, 0, j1);
    assert(nl_count(r, j1 + 1, j1 + 1) == 0);
    assert(nl_count(r, j1, j1 + 1) == 1);
    if body.len() == 0 {
        assert forall|k: int| j1 + 1 <= k < r.len() implies r[k] != '\n' by {
            assert(r.skip(j1 + 1)[k - j1 - 1] == r[k]);
            assert((join_lines(body) + seq!['}', '}'])[k - j1 - 1] == seq!['}', '}'][k - j1 - 1]);
        }
        lemma_nl_zero(r, j1 + 1, r.len() as int);
        assert(nl_count(r, 0, r.len() as int) == 1);
    } else {
        let l0 = body[0];
        let j2 = j1 + 1 + l0.len();
        assert(join_lines(body) == l0 + seq!['\n'] + join_lines(body.skip(1)));
        assert(r.skip(j1 + 1)[l0.len() as int] == r[j2]);
        assert((join_lines(body) + seq!['}', '}'])[l0.len() as int] == '\n');
        assert(r[j2] == '\n');
        lemma_nl_split(r, j1 + 1, j2, r.len() as int);
        lemma_nl_split(r, j2, j2 + 1, r.len() as int);
        assert(nl_count(r, j2 + 1, j2 + 1) == 0);
        assert(nl_count(r, j2, j2 + 1) == 1);
        lemma_nl_nonneg(r, j1 + 1, j2);
        lemma_nl_nonneg(r, j2 + 1, r.len() as int);
        assert(nl_count(r, 0, r.len() as int) >= 2);
    }
}

// ---------------------------------------------------------------------------
// The machine on rendered scalar lines
// ---------------------------------------------------------------------------

/// Reading the rendered line of a good pair recovers the pair.
proof fn lemma_scalar_line_reads_back(k: Seq<char>, v: Seq<char>)
    requires
        good_pair((k, v)),
    ensures
        ({
            let l = scalar_line(k, v);
            &&& trim_sp(l) == l
            &&& l.len() > 0
            &&& l[0] == '|'
            &&& ltrim_sp(l.skip(1)) == k + seq!['='] + v
            &&& spec_read_start(k + seq!['='] + v) == Some((k, v))
        }),
{
    let l = scalar_line(k, v);
    let m = k + seq!['='] + v;
    lemma_trim_parts(k);
    lemma_trim_parts(v);
    assert(l[0] == '|');
    assert(l.len() == 2 + k.len() + v.len());
    if v.len() > 0 {
        assert(l[l.len() - 1] == v[v.len() - 1]);
    } else {
        assert(l[l.len() - 1] == '=');
    }
    lemma_trim_id(l);
    assert(l.skip(1) =~= m);
    if k.len() > 0 {
        assert(m[0] == k[0]);
    } else {
        assert(m[0] == '=');
    }
    assert(!is_sp(m[0]));
    assert(sp_start(m, 0) == 0);
    assert(ltrim_sp(m) =~= m);
    assert(m[k.len() as int] == '=');
    assert forall|q: int| 0 <= q < k.len() implies m[q] != '=' by {
        assert(m[q] == k[q]);
    }
    lemma_find_at(m, 0, k.len() as int, '=');
    assert(m.take(k.len() as int) =~= k);
    assert(m.skip(k.len() as int + 1) =~= v);
    assert(spec_read_start(m) == Some((rtrim_sp(k), ltrim_sp(v))));
}

/// The machine consumes a tail of rendered scalar lines and appends exactly
/// the corresponding scalar fields.
proof fn lemma_run_scalars(
    all: Seq<Seq<char>>,
    pairs: Seq<(Seq<char>, Seq<char>)>,
    base: int,
    i: int,
    fields: Seq<SpecField>,
)
    requires
        all == scalar_lines(pairs),
        0 <= i <= pairs.len(),
        forall|k: int| 0 <= k < pairs.len() ==> good_pair(#[trigger] pairs[k]),
    ensures
        run_machine(all, base, i, SpecState::Normal, fields) == Ok::<Seq<SpecField>, SpecDiag>(
            fields + scalar_fields(pairs).skip(i),
        ),
    decreases pairs.len() - i,
{
    if i == pairs.len() {
        assert(scalar_fields(pairs).skip(i) =~= Seq::<SpecField>::empty());
        assert(fields + scalar_fields(pairs).skip(i) =~= fields);
    } else {
        let p = pairs[i];
        let l = scalar_line(p.0, p.1);
        assert(all[i] == l);
        lemma_scalar_line_reads_back(p.0, p.1);
        let fields2 = fields.push(SpecField::Scalar { key: p.0, value: p.1 });
        assert(run_machine(all, base, i, SpecState::Normal, fields) == run_machine(
            all,
            base,
            i + 1,
            SpecState::Normal,
            fields2,
        ));
        lemma_run_scalars(all, pairs, base, i + 1, fields2);
        assert(fields2 + scalar_fields(pairs).skip(i + 1) =~= fields + scalar_fields(pairs).skip(
            i,
        )) by {
            assert(scalar_fields(pairs).skip(i)[0] == SpecField::Scalar { key: p.0, value: p.1 });
        }
    }
}

// ---------------------------------------------------------------------------
// The machine on rendered array lines
// ---------------------------------------------------------------------------

/// Reading the rendered line of a good item recovers the item.
proof fn lemma_item_line_reads_back(p: (Seq<char>, Seq<char>))
    requires
        good_item(p),
    ensures
        ({
            let l = item_line(p);
            &&& trim_sp(l) == l
            &&& l.len() >= 2
            &&& l[0] == '['
            &&& l[l.len() - 1] == ']'
            &&& l != seq!['}']
            &&& item_bracketed(l)
            &&& spec_read_item(l.subrange(1, l.len() - 1)) == p
        }),
{
    let l = item_line(p);
    lemma_trim_parts(p.0);
    lemma_trim_parts(p.1);
    assert(l[0] == '[');
    assert(l[l.len() - 1] == ']');
    lemma_trim_id(l);
    assert(l != seq!['}']);
    let inner = l.subrange(1, l.len() - 1);
    if p.0.len() == 0 {
        assert(inner =~= p.1);
        lemma_find_absent(inner, 0, '|');
        assert(spec_read_item(inner) == (Seq::<char>::empty(), trim_sp(p.1)));
    } else {
        assert(inner =~= p.0 + seq!['|'] + p.1);
        assert(inner[p.0.len() as int] == '|');
        assert forall|q: int| 0 <= q < p.0.len() implies inner[q] != '|' by {
            assert(inner[q] == p.0[q]);
        }
        lemma_find_at(inner, 0, p.0.len() as int, '|');
        assert(inner.take(p.0.len() as int) =~= p.0);
        assert(inner.skip(p.0.len() as int + 1) =~= p.1);
        assert(spec_read_item(inner) == (trim_sp(p.0), trim_sp(p.1)));
    }
}

/// Inside an array block the machine consumes the remaining rendered item
/// lines and the closing line, and appends exactly one list field.
proof fn lemma_run_items(
    all: Seq<Seq<char>>,
    items: Seq<(Seq<char>, Seq<char>)>,
    base: int,
    j: int,
    key: Seq<char>,
    fields: Seq<SpecField>,
)
    requires
        all.len() == items.len() + 2,
        forall|k: int| 0 <= k < items.len() ==> all[k + 1] == item_line(#[trigger] items[k]),
        forall|k: int| 0 <= k < items.len() ==> good_item(#[trigger] items[k]),
        all[all.len() - 1] == seq!['}'],
        0 <= j <= items.len(),
    ensures
        run_machine(
            all,
            base,
            1 + j,
            SpecState::InArray { key, items: items.take(j) },
            fields,
        ) == Ok::<Seq<SpecField>, SpecDiag>(fields.push(SpecField::List { key, items })),
    decreases items.len() - j,
{
    if j == items.len() {
        let l = seq!['}'];
        assert(all[1 + j] == l);
        lemma_no_char_one('}', ' ');
        assert(!is_sp(l[0]));
        lemma_trim_id(l);
        assert(l[0] != '|');
        assert(items.take(j) =~= items);
        assert(run_machine(
            all,
            base,
            1 + j,
            SpecState::InArray { key, items: items.take(j) },
            fields,
        ) == run_machine(
            all,
            base,
            2 + j,
            SpecState::Normal,
            fields.push(SpecField::List { key, items: items.take(j) }),
        ));
    } else {
        let p = items[j];
        let l = item_line(p);
        assert(all[1 + j] == l);
        lemma_item_line_reads_back(p);
        assert(l[0] != '|');
        assert(items.take(j).push(p) =~= items.take(j + 1));
        assert(run_machine(
            all,
            base,
            1 + j,
            SpecState::InArray { key, items: items.take(j) },
            fields,
        ) == run_machine(
            all,
            base,
            2 + j,
            SpecState::InArray { key, items: items.take(j + 1) },
            fields,
        ));
        lemma_run_items(all, items, base, j + 1, key, fields);
    }
}

// ---------------------------------------------------------------------------
// The laws
// ---------------------------------------------------------------------------

/// Round trip of scalar fields: rendering any sequence of good (key, value)
/// pairs as `|key=value` lines inside a valid envelope and parsing the result
/// yields exactly those scalar fields, in order — duplicates included.
pub proof fn scalar_round_trip(tt: Seq<char>, pairs: Seq<(Seq<char>, Seq<char>)>)
    requires
        good_token(tt),
        forall|k: int| 0 <= k < pairs.len() ==> good_pair(#[trigger] pairs[k]),
    ensures
        spec_parse(render_scalars(tt, pairs)) == Ok::<SpecWiki, SpecDiag>(
            SpecWiki { type_token: tt, fields: scalar_fields(pairs) },
        ),
{
    let body = scalar_lines(pairs);
    assert forall|k: int| 0 <= k < body.len() implies no_char(#[trigger] body[k], '\n') && no_char(
        body[k],
        '\r',
    ) by {
        let p = pairs[k];
        assert(body[k] == scalar_line(p.0, p.1));
        lemma_no_char_one('|', '\n');
        lemma_no_char_one('=', '\n');
        lemma_no_char_concat(seq!['|'], p.0, '\n');
        lemma_no_char_concat(seq!['|'] + p.0, seq!['='], '\n');
        lemma_no_char_concat(seq!['|'] + p.0 + seq!['='], p.1, '\n');
        lemma_no_char_one('|', '\r');
        lemma_no_char_one('=', '\r');
        lemma_no_char_concat(seq!['|'], p.0, '\r');
        lemma_no_char_concat(seq!['|'] + p.0, seq!['='], '\r');
        lemma_no_char_concat(seq!['|'] + p.0 + seq!['='], p.1, '\r');
    }
    lemma_render_envelope(tt, body);
    if pairs.len() == 0 {
        assert(scalar_fields(pairs) =~= Seq::<SpecField>::empty());
    } else {
        lemma_run_scalars(body, pairs, 2, 0, Seq::empty());
        assert(Seq::<SpecField>::empty() + scalar_fields(pairs).skip(0) =~= scalar_fields(pairs));
    }
}

/// Round trip of one array field: rendering `|key={`, one line per item, and
/// a closing `}` inside a valid envelope and parsing the result yields
/// exactly one list field with the items in order.
pub proof fn array_round_trip(tt: Seq<char>, key: Seq<char>, items: Seq<(Seq<char>, Seq<char>)>)
    requires
        good_token(tt),
        good_token(key),
        no_char(key, '='),
        forall|k: int| 0 <= k < items.len() ==> good_item(#[trigger] items[k]),
    ensures
        spec_parse(render_array(tt, key, items)) == Ok::<SpecWiki, SpecDiag>(
            SpecWiki {
                type_token: tt,
                fields: seq![SpecField::List { key, items }],
            },
        ),
{
    let body = array_lines(key, items);
    let open = seq!['|'] + key + seq!['=', '{'];
    lemma_trim_parts(key);
    // every body line is free of newlines and carriage returns
    assert forall|k: int| 0 <= k < body.len() implies no_char(#[trigger] body[k], '\n') && no_char(
        body[k],
        '\r',
    ) by {
        lemma_no_char_one('|', '\n');
        lemma_no_char_one('|', '\r');
        lemma_no_char_two('=', '{', '\n');
        lemma_no_char_two('=', '{', '\r');
        lemma_no_char_one('}', '\n');
        lemma_no_char_one('}', '\r');
        lemma_no_char_one('[', '\n');
        lemma_no_char_one('[', '\r');
        lemma_no_char_one(']', '\n');
        lemma_no_char_one(']', '\r');
        if k == 0 {
            assert(body[k] == open);
            lemma_no_char_concat(seq!['|'], key, '\n');
            lemma_no_char_concat(seq!['|'] + key, seq!['=', '{'], '\n');
            lemma_no_char_concat(seq!['|'], key, '\r');
            lemma_no_char_concat(seq!['|'] + key, seq!['=', '{'], '\r');
        } else if k == body.len() - 1 {
            assert(body[k] == seq!['}']);
        } else {
            let p = items[k - 1];
            assert(body[k] == item_lines(items)[k - 1]);
            assert(body[k] == item_line(p));
            if p.0.len() == 0 {
                lemma_no_char_concat(seq!['['], p.1, '\n');
                lemma_no_char_concat(seq!['['] + p.1, seq![']'], '\n');
                lemma_no_char_concat(seq!['['], p.1, '\r');
                lemma_no_char_concat(seq!['['] + p.1, seq![']'], '\r');
            } else {
                lemma_no_char_concat(seq!['['], p.0, '\n');
                lemma_no_char_concat(seq!['['] + p.0, seq!['|'], '\n');
                lemma_no_char_concat(seq!['['] + p.0 + seq!['|'], p.1, '\n');
                lemma_no_char_concat(seq!['['] + p.0 + seq!['|'] + p.1, seq![']'], '\n');
                lemma_no_char_concat(seq!['['], p.0, '\r');
                lemma_no_char_concat(seq!['['] + p.0, seq!['|'], '\r');
                lemma_no_char_concat(seq!['['] + p.0 + seq!['|'], p.1, '\r');
                lemma_no_char_concat(seq!['['] + p.0 + seq!['|'] + p.1, seq![']'], '\r');
            }
        }
    }
    lemma_render_envelope(tt, body);
    // the opening line starts the array block
    assert(body[0] == open);
    assert(open[0] == '|');
    assert(open[open.len() - 1] == '{');
    lemma_trim_id(open);
    let m = key + seq!['=', '{'];
    assert(open.skip(1) =~= m);
    if key.len() > 0 {
        assert(m[0] == key[0]);
    } else {
        assert(m[0] == '=');
    }
    assert(!is_sp(m[0]));
    assert(sp_start(m, 0) == 0);
    assert(ltrim_sp(m) =~= m);
    assert(m[key.len() as int] == '=');
    assert forall|q: int| 0 <= q < key.len() implies m[q] != '=' by {
        assert(m[q] == key[q]);
    }
    lemma_find_at(m, 0, key.len() as int, '=');
    assert(m.take(key.len() as int) =~= key);
    assert(m.skip(key.len() as int + 1) =~= seq!['{']);
    assert(!is_sp('{'));
    assert(sp_start(seq!['{'], 0) == 0);
    assert(ltrim_sp(seq!['{']) =~= seq!['{']);
    assert(spec_read_start(m) == Some((key, seq!['{'])));
    assert(items.take(0) =~= Seq::<(Seq<char>, Seq<char>)>::empty());
    assert(run_machine(body, 2, 0, SpecState::Normal, Seq::empty()) == run_machine(
        body,
        2,
        1,
        SpecState::InArray { key, items: items.take(0) },
        Seq::empty(),
    ));
    assert forall|k: int| 0 <= k < items.len() implies body[k + 1] == item_line(
        #[trigger] items[k],
    ) by {
        assert(body[k + 1] == item_lines(items)[k]);
    }
    assert(body[body.len() - 1] == seq!['}']);
    lemma_run_items(body, items, 2, 0, key, Seq::empty());
    assert(Seq::<SpecField>::empty().push(SpecField::List { key, items }) =~= seq![
        SpecField::List { key, items },
    ]);
}

/// Whether two diagnostics have the same kind and line number; the raw line
/// text is allowed to differ.
pub open spec fn diag_like(a: SpecDiag, b: SpecDiag) -> bool {
    match (a, b) {
        (SpecDiag::InvalidPrefix, SpecDiag::InvalidPrefix) => true,
        (SpecDiag::InvalidSuffix, SpecDiag::InvalidSuffix) => true,
        (
            SpecDiag::MissingAssignment { line: l1, .. },
            SpecDiag::MissingAssignment { line: l2, .. },
        ) => l1 == l2,
        (SpecDiag::UnclosedArray { line: l1, .. }, SpecDiag::UnclosedArray { line: l2, .. }) => l1
            == l2,
        (
            SpecDiag::MalformedArrayItem { line: l1, .. },
            SpecDiag::MalformedArrayItem { line: l2, .. },
        ) => l1 == l2,
        (SpecDiag::ExpectingField { line: l1, .. }, SpecDiag::ExpectingField { line: l2, .. }) => l1
            == l2,
        _ => false,
    }
}

/// Whitespace idempotence of the field machine: two bodies whose lines agree
/// once spaces and tabs around the markers are trimmed parse to the same
/// fields; failures have the same kind and line number.
pub proof fn whitespace_insensitive(
    ls1: Seq<Seq<char>>,
    ls2: Seq<Seq<char>>,
    base: int,
    i: int,
    st: SpecState,
    fields: Seq<SpecField>,
)
    requires
        ls1.len() == ls2.len(),
        0 <= i <= ls1.len(),
        forall|k: int| 0 <= k < ls1.len() ==> trim_sp(ls1[k]) == trim_sp(#[trigger] ls2[k]),
    ensures
        ({
            let r1 = run_machine(ls1, base, i, st, fields);
            let r2 = run_machine(ls2, base, i, st, fields);
            match (r1, r2) {
                (Ok(f1), Ok(f2)) => f1 == f2,
                (Err(d1), Err(d2)) => diag_like(d1, d2),
                _ => false,
            }
        }),
    decreases ls1.len() - i,
{
    if i < ls1.len() {
        let l = trim_sp(ls1[i]);
        assert(trim_sp(ls2[i]) == l);
        if l.len() == 0 {
            whitespace_insensitive(ls1, ls2, base, i + 1, st, fields);
        } else if l[0] == '|' {
            match st {
                SpecState::InArray { .. } => {},
                SpecState::Normal => match spec_read_start(ltrim_sp(l.skip(1))) {
                    None => {},
                    Some(kv) => {
                        if kv.1 == seq!['{'] {
                            whitespace_insensitive(
                                ls1,
                                ls2,
                                base,
                                i + 1,
                                SpecState::InArray { key: kv.0, items: Seq::empty() },
                                fields,
                            );
                        } else {
                            whitespace_insensitive(
                                ls1,
                                ls2,
                                base,
                                i + 1,
                                SpecState::Normal,
                                fields.push(SpecField::Scalar { key: kv.0, value: kv.1 }),
                            );
                        }
                    },
                },
            }
        } else {
            match st {
                SpecState::Normal => {},
                SpecState::InArray { key, items } => {
                    if l == seq!['}'] {
                        whitespace_insensitive(
                            ls1,
                            ls2,
                            base,
                            i + 1,
                            SpecState::Normal,
                            fields.push(SpecField::List { key, items }),
                        );
                    } else if item_bracketed(l) {
                        whitespace_insensitive(
                            ls1,
                            ls2,
                            base,
                            i + 1,
                            SpecState::InArray {
                                key,
                                items: items.push(spec_read_item(l.subrange(1, l.len() - 1))),
                            },
                            fields,
                        );
                    }
                },
            }
        }
    }
}

/// Whitespace idempotence at the input level: two rendered blocks with the
/// same type token whose body lines agree once spaces and tabs are trimmed
/// parse to identical records; failures have the same kind and line number.
pub proof fn parse_space_insensitive(tt: Seq<char>, body1: Seq<Seq<char>>, body2: Seq<Seq<char>>)
    requires
        good_token(tt),
        body1.len() == body2.len(),
        body1.len() >= 1,
        forall|k: int| 0 <= k < body1.len() ==> no_char(#[trigger] body1[k], '\n'),
        forall|k: int| 0 <= k < body1.len() ==> no_char(#[trigger] body1[k], '\r'),
        forall|k: int| 0 <= k < body2.len() ==> no_char(#[trigger] body2[k], '\n'),
        forall|k: int| 0 <= k < body2.len() ==> no_char(#[trigger] body2[k], '\r'),
        forall|k: int| 0 <= k < body1.len() ==> trim_sp(body1[k]) == trim_sp(#[trigger] body2[k]),
    ensures
        ({
            let r1 = spec_parse(render_block(tt, body1));
            let r2 = spec_parse(render_block(tt, body2));
            match (r1, r2) {
                (Ok(w1), Ok(w2)) => w1 == w2,
                (Err(d1), Err(d2)) => diag_like(d1, d2),
                _ => false,
            }
        }),
{
    lemma_render_envelope(tt, body1);
    lemma_render_envelope(tt, body2);
    whitespace_insensitive(body1, body2, 2, 0, SpecState::Normal, Seq::empty());
}

/// `s` holds only spaces and tabs.
pub open spec fn all_sp(s: Seq<char>) -> bool {
    forall|i: int| 0 <= i < s.len() ==> is_sp(s[i])
}

proof fn lemma_ltrim_pad(p: Seq<char>, s: Seq<char>)
    requires
        all_sp(p),
    ensures
        ltrim_sp(p + s) == ltrim_sp(s),
{
    crate::model::lemma_sp_start_bounds(s, 0);
    let a = sp_start(s, 0);
    let j = p.len() as int + a;
    assert forall|k: int| 0 <= k < j implies is_sp((p + s)[k]) by {
        if k < p.len() {
            assert((p + s)[k] == p[k]);
        } else {
            assert((p + s)[k] == s[k - p.len()]);
        }
    }
    if j < (p + s).len() {
        assert((p + s)[j] == s[a]);
    }
    crate::model::lemma_sp_start_at(p + s, j);
    assert((p + s).skip(j) =~= s.skip(a));
}

proof fn lemma_rtrim_pad(s: Seq<char>, p: Seq<char>)
    requires
        all_sp(p),
    ensures
        rtrim_sp(s + p) == rtrim_sp(s),
{
    crate::model::lemma_sp_end_bounds(s, s.len() as int);
    let e = sp_end(s, s.len() as int);
    assert forall|k: int| e <= k < (s + p).len() implies is_sp((s + p)[k]) by {
        if k < s.len() {
            assert((s + p)[k] == s[k]);
        } else {
            assert((s + p)[k] == p[k - s.len()]);
        }
    }
    if e > 0 {
        assert((s + p)[e - 1] == s[e - 1]);
    }
    crate::model::lemma_sp_end_at(s + p, e);
    assert((s + p).take(e) =~= s.take(e));
}

proof fn lemma_trim_pad(p1: Seq<char>, s: Seq<char>, p2: Seq<char>)
    requires
        all_sp(p1),
        all_sp(p2),
    ensures
        trim_sp(p1 + s + p2) == trim_sp(s),
{
    assert(p1 + s + p2 =~= p1 + (s + p2));
    lemma_ltrim_pad(p1, s + p2);
    crate::model::lemma_sp_start_bounds(s, 0);
    let a = sp_start(s, 0);
    if a < s.len() {
        assert forall|k: int| 0 <= k < a implies is_sp((s + p2)[k]) by {
            assert((s + p2)[k] == s[k]);
        }
        assert((s + p2)[a] == s[a]);
        crate::model::lemma_sp_start_at(s + p2, a);
        assert((s + p2).skip(a) =~= s.skip(a) + p2);
        lemma_rtrim_pad(s.skip(a), p2);
    } else {
        // `s` holds only spaces and tabs, so both sides trim to nothing
        assert forall|k: int| 0 <= k < (s + p2).len() implies is_sp((s + p2)[k]) by {
            if k < s.len() {
                assert((s + p2)[k] == s[k]);
            } else {
                assert((s + p2)[k] == p2[k - s.len()]);
            }
        }
        crate::model::lemma_sp_start_at(s + p2, (s + p2).len() as int);
        assert(ltrim_sp(s + p2) =~= Seq::<char>::empty());
        assert(ltrim_sp(s) =~= Seq::<char>::empty());
        assert(sp_end(Seq::<char>::empty(), 0) == 0);
        assert(rtrim_sp(Seq::<char>::empty()) =~= Seq::<char>::empty());
    }
}

/// Whitespace idempotence around `=`: spaces and tabs inserted on either
/// side of the assignment sign of a field-start line change neither the key
/// nor the value that the line reads as.
pub proof fn read_start_space_insensitive(
    k: Seq<char>,
    v: Seq<char>,
    p1: Seq<char>,
    p2: Seq<char>,
)
    requires
        no_char(k, '='),
        all_sp(p1),
        all_sp(p2),
    ensures
        spec_read_start(k + p1 + seq!['='] + p2 + v) == spec_read_start(k + seq!['='] + v),
{
    let m1 = k + seq!['='] + v;
    let m2 = k + p1 + seq!['='] + p2 + v;
    assert(m1[k.len() as int] == '=');
    assert forall|q: int| 0 <= q < k.len() implies m1[q] != '=' by {
        assert(m1[q] == k[q]);
    }
    lemma_find_at(m1, 0, k.len() as int, '=');
    assert(m1.take(k.len() as int) =~= k);
    assert(m1.skip(k.len() as int + 1) =~= v);
    let j = k.len() as int + p1.len() as int;
    assert(m2[j] == '=');
    assert forall|q: int| 0 <= q < j implies m2[q] != '=' by {
        if q < k.len() {
            assert(m2[q] == k[q]);
        } else {
            assert(m2[q] == p1[q - k.len()]);
            assert(is_sp(m2[q]));
        }
    }
    lemma_find_at(m2, 0, j, '=');
    assert(m2.take(j) =~= k + p1);
    assert(m2.skip(j + 1) =~= p2 + v);
    lemma_rtrim_pad(k, p1);
    lemma_ltrim_pad(p2, v);
}

/// Whitespace idempotence around the `|` of an array item: spaces and tabs
/// inserted around the separator, or at either end of the item's inside,
/// change neither the sub-key nor the sub-value it reads as.
pub proof fn read_item_space_insensitive(
    sk: Seq<char>,
    sv: Seq<char>,
    p1: Seq<char>,
    p2: Seq<char>,
    p3: Seq<char>,
    p4: Seq<char>,
)
    requires
        no_char(sk, '|'),
        all_sp(p1),
        all_sp(p2),
        all_sp(p3),
        all_sp(p4),
    ensures
        spec_read_item(p1 + sk + p2 + seq!['|'] + p3 + sv + p4) == spec_read_item(
            sk + seq!['|'] + sv,
        ),
{
    let m1 = sk + seq!['|'] + sv;
    let m2 = p1 + sk + p2 + seq!['|'] + p3 + sv + p4;
    assert(m1[sk.len() as int] == '|');
    assert forall|q: int| 0 <= q < sk.len() implies m1[q] != '|' by {
        assert(m1[q] == sk[q]);
    }
    lemma_find_at(m1, 0, sk.len() as int, '|');
    assert(m1.take(sk.len() as int) =~= sk);
    assert(m1.skip(sk.len() as int + 1) =~= sv);
    let j = p1.len() as int + sk.len() as int + p2.len() as int;
    assert(m2[j] == '|');
    assert forall|q: int| 0 <= q < j implies m2[q] != '|' by {
        if q < p1.len() {
            assert(m2[q] == p1[q]);
            assert(is_sp(m2[q]));
        } else if q < p1.len() + sk.len() {
            assert(m2[q] == sk[q - p1.len()]);
        } else {
            assert(m2[q] == p2[q - p1.len() - sk.len()]);
            assert(is_sp(m2[q]));
        }
    }
    lemma_find_at(m2, 0, j, '|');
    assert(m2.take(j) =~= p1 + sk + p2);
    assert(m2.skip(j + 1) =~= p3 + sv + p4);
    lemma_trim_pad(p1, sk, p2);
    lemma_trim_pad(p3, sv, p4);
    // both sides trim the separated halves the same way
    assert(trim_sp(m2.take(j)) == trim_sp(sk));
    assert(trim_sp(m2.skip(j + 1)) == trim_sp(sv));
}

/// Order preservation with duplicate keys: two scalar fields with the same
/// key parse back as two fields, in source order, without deduplication.
pub proof fn duplicate_keys_preserved(
    tt: Seq<char>,
    k: Seq<char>,
    v1: Seq<char>,
    v2: Seq<char>,
)
    requires
        good_token(tt),
        good_pair((k, v1)),
        good_pair((k, v2)),
    ensures
        spec_parse(render_scalars(tt, seq![(k, v1), (k, v2)])) == Ok::<SpecWiki, SpecDiag>(
            SpecWiki {
                type_token: tt,
                fields: seq![
                    SpecField::Scalar { key: k, value: v1 },
                    SpecField::Scalar { key: k, value: v2 },
                ],
            },
        ),
{
    let pairs = seq![(k, v1), (k, v2)];
    assert(pairs[0] == (k, v1));
    assert(pairs[1] == (k, v2));
    scalar_round_trip(tt, pairs);
    assert(scalar_fields(pairs) =~= seq![
        SpecField::Scalar { key: k, value: v1 },
        SpecField::Scalar { key: k, value: v2 },
    ]);
}

} // verus!
