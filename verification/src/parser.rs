//! The executable parser, proved to follow [`crate::model::spec_parse`].

use vstd::prelude::*;

use crate::diag::Diagnostic;
use crate::model::has_prefix;
use crate::model::has_suffix;
use crate::model::lemma_nl_find;
use crate::model::line_base;
use crate::model::lines_from;
use crate::model::lws_start;
use crate::model::nl_count;
use crate::model::norm_eol;
use crate::model::run_machine;
use crate::model::spec_parse;
use crate::model::spec_read_item;
use crate::model::spec_read_start;
use crate::model::spec_type_token;
use crate::model::trim_input;
use crate::model::tws_end;
use crate::model::type_end;
use crate::model::SpecDiag;
use crate::model::SpecField;
use crate::model::SpecState;
use crate::model::SpecWiki;
use crate::record::field_views;
use crate::record::item_views;
use crate::record::Wiki;
use crate::record::WikiField;
use crate::text::chars_of;
use crate::text::find_char;
use crate::text::string_of;
use crate::text::subvec;
use crate::text::trim_left_space;
use crate::text::trim_right_space;
use crate::text::trim_space;
use crate::text::unify_eol;

verus! {

/// The models of a sequence of line buffers.
pub open spec fn seq_views(l: Seq<Vec<char>>) -> Seq<Seq<char>> {
    l.map_values(|v: Vec<char>| v@)
}

/// Normalizes line endings, records the line baseline of the leading
/// whitespace region, and trims the input at both ends.
pub fn process_input(s: &Vec<char>) -> (r: (Vec<char>, usize))
    requires
        s@.len() + 2 <= usize::MAX,
    ensures
        r.0@ == trim_input(norm_eol(s@)),
        r.1 as int == line_base(norm_eol(s@)),
        r.1 as int + r.0@.len() <= 2 + s@.len(),
{
    let n = unify_eol(s);
    let mut a: usize = 0;
    let mut cnt: usize = 0;
    while a < n.len() && (n[a] == ' ' || n[a] == '\t' || n[a] == '\n')
        invariant
            a <= n@.len(),
            n@ == norm_eol(s@),
            n@.len() <= s@.len(),
            s@.len() + 2 <= usize::MAX,
            lws_start(n@, 0) == lws_start(n@, a as int),
            cnt == nl_count(n@, 0, a as int),
            cnt <= a,
        decreases n@.len() - a,
    {
        proof {
            assert(lws_start(n@, a as int) == lws_start(n@, a as int + 1));
            crate::model::lemma_nl_split(n@, 0, a as int, a as int + 1);
            assert(nl_count(n@, a as int + 1, a as int + 1) == 0);
            assert(nl_count(n@, a as int, a as int + 1) == (if n@[a as int] == '\n' {
                1int
            } else {
                0int
            }));
        }
        if n[a] == '\n' {
            cnt = cnt + 1;
        }
        a = a + 1;
    }
    assert(lws_start(n@, a as int) == a as int);
    let base: usize = 2 + cnt;
    let mut b: usize = n.len();
    while b > 0 && (n[b - 1] == ' ' || n[b - 1] == '\t' || n[b - 1] == '\n' || n[b - 1] == '\r')
        invariant
            b <= n@.len(),
            tws_end(n@, n@.len() as int) == tws_end(n@, b as int),
        decreases b,
    {
        assert(tws_end(n@, b as int) == tws_end(n@, b as int - 1));
        b = b - 1;
    }
    assert(tws_end(n@, b as int) == b as int);
    if a <= b {
        let t = subvec(&n, a, b);
        (t, base)
    } else {
        let t: Vec<char> = Vec::new();
        assert(t@ =~= trim_input(n@));
        (t, base)
    }
}

/// Whether the text starts with `{{Infobox` followed by whitespace.
pub fn check_prefix(s: &Vec<char>) -> (r: bool)
    ensures
        r == has_prefix(s@),
{
    if s.len() < 10 {
        return false;
    }
    let c9 = s[9];
    s[0] == '{' && s[1] == '{' && s[2] == 'I' && s[3] == 'n' && s[4] == 'f' && s[5] == 'o' && s[6]
        == 'b' && s[7] == 'o' && s[8] == 'x' && (c9 == ' ' || c9 == '\t' || c9 == '\n')
}

/// Whether the text ends with `}}`.
pub fn check_suffix(s: &Vec<char>) -> (r: bool)
    ensures
        r == has_suffix(s@),
{
    if s.len() < 2 {
        return false;
    }
    s[s.len() - 2] == '}' && s[s.len() - 1] == '}'
}

/// The declared type token: the text between the opening marker and the end
/// of the first line, trimmed of spaces and tabs.
pub fn read_type(s: &Vec<char>) -> (r: Vec<char>)
    ensures
        r@ == spec_type_token(s@),
{
    if s.len() < 10 {
        let r: Vec<char> = Vec::new();
        assert(r@ =~= spec_type_token(s@));
        return r;
    }
    let nl = find_char(s, 0, '\n');
    let end = if nl < s.len() {
        nl
    } else {
        find_char(s, 0, '}')
    };
    assert(end as int == type_end(s@));
    if end < 10 {
        let r: Vec<char> = Vec::new();
        assert(r@ =~= spec_type_token(s@));
        return r;
    }
    let inner = subvec(s, 10, end);
    trim_space(&inner)
}

/// Splits a field-start line (already stripped of its leading `|` and of
/// leading spaces) at the first `=`; `None` when there is no `=`.
pub fn read_start_line(m: &Vec<char>) -> (r: Option<(Vec<char>, Vec<char>)>)
    ensures
        (match r {
            Some(kv) => spec_read_start(m@) == Some((kv.0@, kv.1@)),
            None => spec_read_start(m@) is None,
        }),
{
    let j = find_char(m, 0, '=');
    if j >= m.len() {
        return None;
    }
    let left = subvec(m, 0, j);
    let right = subvec(m, j + 1, m.len());
    proof {
        assert(left@ =~= m@.take(j as int));
        assert(right@ =~= m@.skip(j as int + 1));
    }
    Some((trim_right_space(&left), trim_left_space(&right)))
}

/// Reads one array-item line: it must be wrapped in `[` ... `]`; the inside
/// is split at the first `|` into a sub-key and a sub-value.
pub fn read_array_item(l: &Vec<char>) -> (r: Option<(Vec<char>, Vec<char>)>)
    ensures
        (if crate::model::item_bracketed(l@) {
            match r {
                Some(kv) => spec_read_item(l@.subrange(1, l@.len() - 1)) == (kv.0@, kv.1@),
                None => false,
            }
        } else {
            r is None
        }),
{
    if l.len() < 2 || l[0] != '[' || l[l.len() - 1] != ']' {
        return None;
    }
    let inner = subvec(l, 1, l.len() - 1);
    let j = find_char(&inner, 0, '|');
    if j >= inner.len() {
        let empty: Vec<char> = Vec::new();
        assert(empty@ =~= Seq::<char>::empty());
        return Some((empty, trim_space(&inner)));
    }
    let a = subvec(&inner, 0, j);
    let b = subvec(&inner, j + 1, inner.len());
    proof {
        assert(a@ =~= inner@.take(j as int));
        assert(b@ =~= inner@.skip(j as int + 1));
    }
    Some((trim_space(&a), trim_space(&b)))
}

/// The complete lines of `s` from `start` on, each without its newline.
pub fn split_lines(s: &Vec<char>, start: usize) -> (r: Vec<Vec<char>>)
    requires
        start <= s@.len(),
    ensures
        seq_views(r@) == lines_from(s@, start as int),
        r@.len() + start <= s@.len(),
{
    let mut r: Vec<Vec<char>> = Vec::new();
    let mut pos: usize = start;
    proof {
        assert(seq_views(r@) =~= Seq::<Seq<char>>::empty());
    }
    loop
        invariant
            start <= pos <= s@.len(),
            r@.len() + start <= pos,
            lines_from(s@, start as int) == seq_views(r@) + lines_from(s@, pos as int),
        decreases s@.len() - pos,
    {
        let j = find_char(s, pos, '\n');
        if j >= s.len() {
            proof {
                assert(lines_from(s@, pos as int) == Seq::<Seq<char>>::empty());
                assert(seq_views(r@) + lines_from(s@, pos as int) =~= seq_views(r@));
            }
            return r;
        }
        let line = subvec(s, pos, j);
        proof {
            assert(lines_from(s@, pos as int) == seq![s@.subrange(pos as int, j as int)]
                + lines_from(s@, j as int + 1));
        }
        let ghost old_r = r@;
        r.push(line);
        proof {
            assert(seq_views(r@) =~= seq_views(old_r).push(line@));
            assert(seq_views(old_r) + lines_from(s@, pos as int) =~= seq_views(r@) + lines_from(
                s@,
                j as int + 1,
            ));
        }
        pos = j + 1;
    }
}

/// Parses one infobox block.
///
/// On success the returned record's model equals the `Ok` side of
/// [`spec_parse`] on the input's characters; on failure the returned
/// diagnostic's model equals its `Err` side.
#[verifier::loop_isolation(false)]
pub fn parse(wiki_str: String) -> (r: Result<Wiki, Diagnostic>)
    requires
        wiki_str@.len() + 2 <= usize::MAX,
    ensures
        (match r {
            Ok(w) => spec_parse(wiki_str@) == Ok::<SpecWiki, SpecDiag>(w@),
            Err(d) => spec_parse(wiki_str@) == Err::<SpecWiki, SpecDiag>(d@),
        }),
{
    let chars = chars_of(wiki_str.as_str());
    let ghost n = norm_eol(wiki_str@);
    let (t, base) = process_input(&chars);
    if t.len() == 0 {
        let w = Wiki { wiki_type: String::new(), wiki_fields: Vec::new() };
        proof {
            assert(w@ =~= SpecWiki { type_token: Seq::empty(), fields: Seq::empty() });
        }
        return Ok(w);
    }
    if !check_prefix(&t) {
        return Err(Diagnostic::InvalidPrefix);
    }
    if !check_suffix(&t) {
        return Err(Diagnostic::InvalidSuffix);
    }
    let tt = read_type(&t);
    let eol = crate::text::count_newlines(&t);
    if eol <= 1 {
        let w = Wiki { wiki_type: string_of(&tt), wiki_fields: Vec::new() };
        proof {
            assert(w@ =~= SpecWiki { type_token: spec_type_token(t@), fields: Seq::empty() });
        }
        return Ok(w);
    }
    proof {
        lemma_nl_find(t@, 0);
    }
    let fe = find_char(&t, 0, '\n');
    let lines = split_lines(&t, fe + 1);
    let ghost ls = lines_from(t@, fe as int + 1);
    let ghost gbase = base as int;
    let mut fields: Vec<WikiField> = Vec::new();
    let mut in_array = false;
    let mut pend_key: Vec<char> = Vec::new();
    let mut items: Vec<(String, String)> = Vec::new();
    let mut idx: usize = 0;
    proof {
        assert(field_views(fields@) =~= Seq::<SpecField>::empty());
        assert(item_views(items@) =~= Seq::<(Seq<char>, Seq<char>)>::empty());
    }
    while idx < lines.len()
        invariant
            idx <= lines@.len(),
            run_machine(ls, gbase, 0, SpecState::Normal, Seq::empty()) == run_machine(
                ls,
                gbase,
                idx as int,
                (if in_array {
                    SpecState::InArray { key: pend_key@, items: item_views(items@) }
                } else {
                    SpecState::Normal
                }),
                field_views(fields@),
            ),
        decreases lines@.len() - idx,
    {
        let ghost st = if in_array {
            SpecState::InArray { key: pend_key@, items: item_views(items@) }
        } else {
            SpecState::Normal
        };
        let ghost fv = field_views(fields@);
        let raw = &lines[idx];
        proof {
            assert(ls[idx as int] == lines@[idx as int]@);
        }
        let l = trim_space(raw);
        if l.len() == 0 {
            proof {
                assert(run_machine(ls, gbase, idx as int, st, fv) == run_machine(
                    ls,
                    gbase,
                    idx as int + 1,
                    st,
                    fv,
                ));
            }
            idx = idx + 1;
        } else if l[0] == '|' {
            if in_array {
                let d = Diagnostic::UnclosedArray { line: base + idx, text: string_of(raw) };
                proof {
                    assert(run_machine(ls, gbase, idx as int, st, fv) == Err::<
                        Seq<SpecField>,
                        SpecDiag,
                    >(d@));
                }
                return Err(d);
            }
            let rest = subvec(&l, 1, l.len());
            proof {
                assert(rest@ =~= l@.skip(1));
            }
            let m = trim_left_space(&rest);
            match read_start_line(&m) {
                None => {
                    let d = Diagnostic::MissingAssignment { line: base + idx, text: string_of(raw) };
                    proof {
                        assert(run_machine(ls, gbase, idx as int, st, fv) == Err::<
                            Seq<SpecField>,
                            SpecDiag,
                        >(d@));
                    }
                    return Err(d);
                },
                Some(kv) => {
                    let (key, value) = kv;
                    if value.len() == 1 && value[0] == '{' {
                        proof {
                            assert(value@ =~= seq!['{']);
                        }
                        in_array = true;
                        pend_key = key;
                        items = Vec::new();
                        proof {
                            assert(item_views(items@) =~= Seq::<(Seq<char>, Seq<char>)>::empty());
                            assert(run_machine(ls, gbase, idx as int, st, fv) == run_machine(
                                ls,
                                gbase,
                                idx as int + 1,
                                SpecState::InArray { key: pend_key@, items: item_views(items@) },
                                fv,
                            ));
                        }
                        idx = idx + 1;
                    } else {
                        proof {
                            assert(value@ != seq!['{']);
                        }
                        let ghost old_fields = fields@;
                        let f = WikiField::Single((string_of(&key), string_of(&value)));
                        fields.push(f);
                        proof {
                            assert(field_views(fields@) =~= field_views(old_fields).push(
                                SpecField::Scalar { key: key@, value: value@ },
                            ));
                            assert(run_machine(ls, gbase, idx as int, st, fv) == run_machine(
                                ls,
                                gbase,
                                idx as int + 1,
                                SpecState::Normal,
                                field_views(fields@),
                            ));
                        }
                        idx = idx + 1;
                    }
                },
            }
        } else if in_array {
            if l.len() == 1 && l[0] == '}' {
                proof {
                    assert(l@ =~= seq!['}']);
                }
                let ghost old_fields = fields@;
                let ghost closed_items = item_views(items@);
                let finished = items;
                items = Vec::new();
                let f = WikiField::Multiple((string_of(&pend_key), finished));
                fields.push(f);
                in_array = false;
                proof {
                    assert(field_views(fields@) =~= field_views(old_fields).push(
                        SpecField::List { key: pend_key@, items: closed_items },
                    ));
                    assert(run_machine(ls, gbase, idx as int, st, fv) == run_machine(
                        ls,
                        gbase,
                        idx as int + 1,
                        SpecState::Normal,
                        field_views(fields@),
                    ));
                }
                idx = idx + 1;
            } else {
                match read_array_item(&l) {
                    Some(kv) => {
                        let (sk, sv) = kv;
                        proof {
                            assert(l@ != seq!['}']);
                        }
                        let ghost old_items = items@;
                        items.push((string_of(&sk), string_of(&sv)));
                        proof {
                            assert(item_views(items@) =~= item_views(old_items).push(
                                (sk@, sv@),
                            ));
                            assert(run_machine(ls, gbase, idx as int, st, fv) == run_machine(
                                ls,
                                gbase,
                                idx as int + 1,
                                SpecState::InArray { key: pend_key@, items: item_views(items@) },
                                fv,
                            ));
                        }
                        idx = idx + 1;
                    },
                    None => {
                        let d = Diagnostic::MalformedArrayItem {
                            line: base + idx,
                            text: string_of(raw),
                        };
                        proof {
                            assert(l@ != seq!['}']);
                            assert(run_machine(ls, gbase, idx as int, st, fv) == Err::<
                                Seq<SpecField>,
                                SpecDiag,
                            >(d@));
                        }
                        return Err(d);
                    },
                }
            }
        } else {
            let d = Diagnostic::ExpectingField { line: base + idx, text: string_of(raw) };
            proof {
                assert(run_machine(ls, gbase, idx as int, st, fv) == Err::<
                    Seq<SpecField>,
                    SpecDiag,
                >(d@));
            }
            return Err(d);
        }
    }
    if in_array {
        let text = if lines.len() == 0 {
            String::new()
        } else {
            string_of(&lines[lines.len() - 1])
        };
        let d = Diagnostic::UnclosedArray { line: base + lines.len(), text };
        proof {
            assert(ls.len() == lines@.len());
            if lines@.len() > 0 {
                assert(ls.last() == lines@[lines@.len() - 1]@);
            }
            assert(run_machine(
                ls,
                gbase,
                idx as int,
                SpecState::InArray { key: pend_key@, items: item_views(items@) },
                field_views(fields@),
            ) == Err::<Seq<SpecField>, SpecDiag>(d@));
        }
        return Err(d);
    }
    let w = Wiki { wiki_type: string_of(&tt), wiki_fields: fields };
    proof {
        assert(run_machine(
            ls,
            gbase,
            idx as int,
            SpecState::Normal,
            field_views(w.wiki_fields@),
        ) == Ok::<Seq<SpecField>, SpecDiag>(field_views(w.wiki_fields@)));
        assert(w@ =~= SpecWiki { type_token: spec_type_token(t@), fields: field_views(
            w.wiki_fields@,
        ) });
    }
    Ok(w)
}

} // verus!
