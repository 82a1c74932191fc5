//! Verified character-vector utilities.
//!
//! The parser works on `Vec<char>` so that every step is plain verified code;
//! these helpers convert between `String` and `Vec<char>` and implement the
//! searching and trimming primitives, each proved equal to its model in
//! [`crate::model`].

use vstd::prelude::*;
use vstd::string::StrSliceExecFns;

use crate::model::find_from;
use crate::model::lemma_nl_split;
use crate::model::ltrim_sp;
use crate::model::nl_count;
use crate::model::norm_eol;
use crate::model::rtrim_sp;
use crate::model::sp_end;
use crate::model::sp_start;
use crate::model::trim_sp;

verus! {

/// Relies on `String::push` from std: it appends the given character to the
/// end of the string.
pub assume_specification[ String::push ](s: &mut String, c: char)
    ensures
        final(s)@ == old(s)@.push(c),
;

/// The characters of a string slice, in order.
pub fn chars_of(s: &str) -> (r: Vec<char>)
    ensures
        r@ == s@,
{
    let n = s.unicode_len();
    let mut r: Vec<char> = Vec::new();
    let mut i: usize = 0;
    while i < n
        invariant
            i <= n,
            n == s@.len(),
            r@ == s@.take(i as int),
        decreases n - i,
    {
        let c = s.get_char(i);
        r.push(c);
        assert(r@ =~= s@.take(i as int + 1));
        i += 1;
    }
    assert(r@ =~= s@);
    r
}

/// The string holding exactly the given characters.
pub fn string_of(v: &Vec<char>) -> (r: String)
    ensures
        r@ == v@,
{
    let mut r = String::new();
    let mut i: usize = 0;
    while i < v.len()
        invariant
            i <= v@.len(),
            r@ == v@.take(i as int),
        decreases v@.len() - i,
    {
        r.push(v[i]);
        assert(r@ =~= v@.take(i as int + 1));
        i += 1;
    }
    assert(r@ =~= v@);
    r
}

/// A copy of `s[a..b]`.
pub fn subvec(s: &Vec<char>, a: usize, b: usize) -> (r: Vec<char>)
    requires
        a <= b <= s@.len(),
    ensures
        r@ == s@.subrange(a as int, b as int),
{
    let mut r: Vec<char> = Vec::new();
    let mut i: usize = a;
    assert(r@ =~= s@.subrange(a as int, a as int));
    while i < b
        invariant
            a <= i <= b <= s@.len(),
            r@ == s@.subrange(a as int, i as int),
        decreases b - i,
    {
        r.push(s[i]);
        assert(r@ =~= s@.subrange(a as int, i as int + 1));
        i += 1;
    }
    r
}

/// Index of the first occurrence of `c` in `s` at or after `from`; `s.len()`
/// when absent.
pub fn find_char(s: &Vec<char>, from: usize, c: char) -> (r: usize)
    requires
        from <= s@.len(),
    ensures
        r as int == find_from(s@, from as int, c),
        from <= r <= s@.len(),
{
    let mut i: usize = from;
    while i < s.len()
        invariant
            from <= i <= s@.len(),
            find_from(s@, from as int, c) == find_from(s@, i as int, c),
        decreases s@.len() - i,
    {
        if s[i] == c {
            assert(find_from(s@, i as int, c) == i as int);
            return i;
        }
        assert(find_from(s@, i as int, c) == find_from(s@, i as int + 1, c));
        i += 1;
    }
    assert(find_from(s@, i as int, c) == i as int);
    i
}

/// The number of newline characters in `s`.
pub fn count_newlines(s: &Vec<char>) -> (r: usize)
    ensures
        r as int == nl_count(s@, 0, s@.len() as int),
{
    let mut cnt: usize = 0;
    let mut i: usize = 0;
    while i < s.len()
        invariant
            i <= s@.len(),
            cnt <= i,
            cnt as int == nl_count(s@, 0, i as int),
        decreases s@.len() - i,
    {
        proof {
            lemma_nl_split(s@, 0, i as int, i as int + 1);
            assert(nl_count(s@, i as int + 1, i as int + 1) == 0);
            assert(nl_count(s@, i as int, i as int + 1) == (if s@[i as int] == '\n' {
                1int
            } else {
                0int
            }));
        }
        if s[i] == '\n' {
            cnt = cnt + 1;
        }
        i = i + 1;
    }
    cnt
}

/// `s` without leading spaces and tabs.
pub fn trim_left_space(s: &Vec<char>) -> (r: Vec<char>)
    ensures
        r@ == ltrim_sp(s@),
{
    let mut a: usize = 0;
    while a < s.len() && (s[a] == ' ' || s[a] == '\t')
        invariant
            a <= s@.len(),
            sp_start(s@, 0) == sp_start(s@, a as int),
        decreases s@.len() - a,
    {
        assert(sp_start(s@, a as int) == sp_start(s@, a as int + 1));
        a += 1;
    }
    assert(sp_start(s@, a as int) == a as int);
    let r = subvec(s, a, s.len());
    assert(r@ =~= ltrim_sp(s@));
    r
}

/// `s` without trailing spaces and tabs.
pub fn trim_right_space(s: &Vec<char>) -> (r: Vec<char>)
    ensures
        r@ == rtrim_sp(s@),
{
    let mut b: usize = s.len();
    while b > 0 && (s[b - 1] == ' ' || s[b - 1] == '\t')
        invariant
            b <= s@.len(),
            sp_end(s@, s@.len() as int) == sp_end(s@, b as int),
        decreases b,
    {
        assert(sp_end(s@, b as int) == sp_end(s@, b as int - 1));
        b -= 1;
    }
    assert(sp_end(s@, b as int) == b as int);
    let r = subvec(s, 0, b);
    assert(r@ =~= rtrim_sp(s@));
    r
}

/// `s` without leading or trailing spaces and tabs.
pub fn trim_space(s: &Vec<char>) -> (r: Vec<char>)
    ensures
        r@ == trim_sp(s@),
{
    let lt = trim_left_space(s);
    trim_right_space(&lt)
}

/// Every CRLF pair replaced by a single newline.
pub fn unify_eol(s: &Vec<char>) -> (r: Vec<char>)
    ensures
        r@ == norm_eol(s@),
        r@.len() <= s@.len(),
{
    let mut r: Vec<char> = Vec::new();
    let mut i: usize = 0;
    proof {
        assert(s@.skip(0) =~= s@);
        assert(r@ + norm_eol(s@.skip(0)) =~= norm_eol(s@));
    }
    while i < s.len()
        invariant
            i <= s@.len(),
            norm_eol(s@) == r@ + norm_eol(s@.skip(i as int)),
            r@.len() <= i,
        decreases s@.len() - i,
    {
        let ghost prev = r@;
        let ghost rest = s@.skip(i as int);
        if s[i] == '\r' && i + 1 < s.len() && s[i + 1] == '\n' {
            r.push('\n');
            proof {
                assert(rest.len() >= 2);
                assert(rest[0] == '\r');
                assert(rest[1] == '\n');
                assert(rest.skip(2) =~= s@.skip(i as int + 2));
                assert(norm_eol(rest) == seq!['\n'] + norm_eol(s@.skip(i as int + 2)));
                assert(r@ =~= prev + seq!['\n']);
                assert(prev + norm_eol(rest) =~= r@ + norm_eol(s@.skip(i as int + 2)));
            }
            i += 2;
        } else {
            let c = s[i];
            r.push(c);
            proof {
                assert(rest.len() >= 1);
                assert(rest[0] == c);
                assert(rest.skip(1) =~= s@.skip(i as int + 1));
                assert(norm_eol(rest) == seq![c] + norm_eol(s@.skip(i as int + 1)));
                assert(r@ =~= prev + seq![c]);
                assert(prev + norm_eol(rest) =~= r@ + norm_eol(s@.skip(i as int + 1)));
            }
            i += 1;
        }
    }
    proof {
        assert(s@.skip(i as int).len() == 0);
        assert(norm_eol(s@.skip(i as int)) =~= Seq::<char>::empty());
        assert(r@ + norm_eol(s@.skip(i as int)) =~= r@);
    }
    r
}

} // verus!
