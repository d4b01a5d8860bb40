//! Conversions between `&str` / `String` and `Vec<char>`, and searching for
//! literal character sequences. The rewriting passes work over `Vec<char>`
//! so that every step of a scan is visible to the verifier as an operation
//! on a `Seq<char>`.

use vstd::prelude::*;
use vstd::string::StrSliceExecFns;
use vstd::string::StringExecFns;

verus! {

/// Collects the characters of a string slice into a vector.
pub fn str_to_chars(s: &str) -> (r: Vec<char>)
    ensures
        r@ == s@,
{
    let n = s.unicode_len();
    let mut r: Vec<char> = Vec::new();
    let mut i: usize = 0;
    while i < n
        invariant
            n == s@.len(),
            i <= n,
            r@ == s@.subrange(0, i as int),
        decreases n - i,
    {
        r.push(s.get_char(i));
        i = i + 1;
        proof {
            assert(r@ =~= s@.subrange(0, i as int));
        }
    }
    proof {
        assert(r@ =~= s@);
    }
    r
}

/// Relies on `String::push`: appends exactly the one character.
#[verifier::external_body]
fn push_char(s: &mut String, c: char)
    ensures
        final(s)@ == old(s)@.push(c),
{
    s.push(c);
}

/// Builds a `String` whose characters are exactly those of the vector.
pub fn chars_to_string(v: &Vec<char>) -> (r: String)
    ensures
        r@ == v@,
{
    let mut r = String::new();
    let mut i: usize = 0;
    while i < v.len()
        invariant
            i <= v@.len(),
            r@ == v@.subrange(0, i as int),
        decreases v@.len() - i,
    {
        push_char(&mut r, v[i]);
        i = i + 1;
        proof {
            assert(r@ =~= v@.subrange(0, i as int));
        }
    }
    proof {
        assert(r@ =~= v@);
    }
    r
}

/// Appends every character of `src` to `out`.
pub fn append_chars(out: &mut Vec<char>, src: &Vec<char>)
    ensures
        final(out)@ == old(out)@ + src@,
{
    let mut i: usize = 0;
    while i < src.len()
        invariant
            i <= src@.len(),
            out@ == old(out)@ + src@.subrange(0, i as int),
        decreases src@.len() - i,
    {
        out.push(src[i]);
        i = i + 1;
        proof {
            assert(out@ =~= old(out)@ + src@.subrange(0, i as int));
        }
    }
    proof {
        assert(out@ =~= old(out)@ + src@);
    }
}

/// Appends the characters of a string slice to `out`.
pub fn append_str(out: &mut Vec<char>, src: &str)
    ensures
        final(out)@ == old(out)@ + src@,
{
    let v = str_to_chars(src);
    append_chars(out, &v);
}

/// The literal `lit` occurs in `s` starting at position `i`.
pub open spec fn lit_at(s: Seq<char>, i: int, lit: Seq<char>) -> bool {
    0 <= i && i + lit.len() <= s.len() && s.subrange(i, i + lit.len()) == lit
}

/// Exec check for `lit_at`.
pub fn is_lit_at(s: &Vec<char>, i: usize, lit: &Vec<char>) -> (b: bool)
    ensures
        b == lit_at(s@, i as int, lit@),
{
    let n = s.len();
    if i > n || lit.len() > n - i {
        proof {
            assert(!lit_at(s@, i as int, lit@));
        }
        return false;
    }
    let mut j: usize = 0;
    while j < lit.len()
        invariant
            n == s@.len(),
            i + lit@.len() <= s@.len(),
            j <= lit@.len(),
            forall|k: int| 0 <= k < j ==> s@[i + k] == lit@[k],
        decreases lit@.len() - j,
    {
        if s[i + j] != lit[j] {
            proof {
                assert(s@.subrange(i as int, i + lit@.len())[j as int] == s@[i + j]);
                assert(s@.subrange(i as int, i + lit@.len()) != lit@);
            }
            return false;
        }
        j = j + 1;
    }
    proof {
        assert(s@.subrange(i as int, i + lit@.len()) =~= lit@);
    }
    true
}

/// Position of the first occurrence of `lit` in `s` at or after `i`.
pub open spec fn spec_find_lit(s: Seq<char>, i: int, lit: Seq<char>) -> Option<int>
    decreases s.len() - i,
{
    if i < 0 || i + lit.len() > s.len() {
        None
    } else if lit.len() == 0 {
        Some(i)
    } else if lit_at(s, i, lit) {
        Some(i)
    } else {
        spec_find_lit(s, i + 1, lit)
    }
}

proof fn lemma_empty_lit_at(s: Seq<char>, i: int)
    requires
        0 <= i <= s.len(),
    ensures
        lit_at(s, i, Seq::<char>::empty()),
{
    assert(s.subrange(i, i) =~= Seq::<char>::empty());
}

/// Exec search for the first occurrence of `lit` in `s` at or after `from`.
pub fn find_lit(s: &Vec<char>, from: usize, lit: &Vec<char>) -> (r: Option<usize>)
    ensures
        match r {
            Some(p) => spec_find_lit(s@, from as int, lit@) == Some(p as int),
            None => spec_find_lit(s@, from as int, lit@) is None,
        },
{
    let mut i: usize = from;
    loop
        invariant
            from <= i,
            spec_find_lit(s@, from as int, lit@) == spec_find_lit(s@, i as int, lit@),
        decreases s@.len() + 1 - i,
    {
        if i > s.len() || lit.len() > s.len() - i {
            return None;
        }
        if is_lit_at(s, i, lit) {
            return Some(i);
        }
        proof {
            if lit@.len() == 0 {
                assert(lit@ =~= Seq::<char>::empty());
                lemma_empty_lit_at(s@, i as int);
                assert(false);
            }
            assert(spec_find_lit(s@, i as int, lit@) == spec_find_lit(s@, i + 1, lit@));
        }
        i = i + 1;
    }
}

/// Bounds that a successful `spec_find_lit` guarantees.
pub proof fn lemma_find_lit_bounds(s: Seq<char>, i: int, lit: Seq<char>)
    ensures
        spec_find_lit(s, i, lit) matches Some(p) ==> i <= p && p + lit.len() <= s.len(),
    decreases s.len() - i,
{
    if i < 0 || i + lit.len() > s.len() {
    } else if lit.len() == 0 {
    } else if lit_at(s, i, lit) {
    } else {
        lemma_find_lit_bounds(s, i + 1, lit);
    }
}

/// Position of the first occurrence of `lit` at or after `i`, provided no
/// newline stands between `i` and that occurrence. A newline ends the search:
/// this mirrors a lazy single-line gap in the rewriting grammars.
pub open spec fn spec_find_lit_line(s: Seq<char>, i: int, lit: Seq<char>) -> Option<int>
    decreases s.len() - i,
{
    if i < 0 || i + lit.len() > s.len() {
        None
    } else if lit.len() == 0 {
        Some(i)
    } else if lit_at(s, i, lit) {
        Some(i)
    } else if s[i] == '\n' {
        None
    } else {
        spec_find_lit_line(s, i + 1, lit)
    }
}

/// Bounds that a successful `spec_find_lit_line` guarantees.
pub proof fn lemma_find_lit_line_bounds(s: Seq<char>, i: int, lit: Seq<char>)
    ensures
        spec_find_lit_line(s, i, lit) matches Some(p) ==> i <= p && p + lit.len() <= s.len(),
    decreases s.len() - i,
{
    if i < 0 || i + lit.len() > s.len() {
    } else if lit.len() == 0 {
    } else if lit_at(s, i, lit) {
    } else if s[i] == '\n' {
    } else {
        lemma_find_lit_line_bounds(s, i + 1, lit);
    }
}

/// Exec search matching `spec_find_lit_line`.
pub fn find_lit_line(s: &Vec<char>, from: usize, lit: &Vec<char>) -> (r: Option<usize>)
    ensures
        match r {
            Some(p) => spec_find_lit_line(s@, from as int, lit@) == Some(p as int),
            None => spec_find_lit_line(s@, from as int, lit@) is None,
        },
{
    let mut i: usize = from;
    loop
        invariant
            from <= i,
            spec_find_lit_line(s@, from as int, lit@) == spec_find_lit_line(s@, i as int, lit@),
        decreases s@.len() + 1 - i,
    {
        if i > s.len() || lit.len() > s.len() - i {
            return None;
        }
        if is_lit_at(s, i, lit) {
            return Some(i);
        }
        proof {
            if lit@.len() == 0 {
                assert(lit@ =~= Seq::<char>::empty());
                lemma_empty_lit_at(s@, i as int);
                assert(false);
            }
        }
        if s[i] == '\n' {
            return None;
        }
        proof {
            assert(spec_find_lit_line(s@, i as int, lit@) == spec_find_lit_line(
                s@,
                i + 1,
                lit@,
            ));
        }
        i = i + 1;
    }
}

/// Position of the first occurrence of `lit` at or after `i`, provided the
/// character `stop` does not stand between `i` and that occurrence.
pub open spec fn spec_find_lit_until(s: Seq<char>, i: int, lit: Seq<char>, stop: char) -> Option<
    int,
>
    decreases s.len() - i,
{
    if i < 0 || i + lit.len() > s.len() {
        None
    } else if lit.len() == 0 {
        Some(i)
    } else if lit_at(s, i, lit) {
        Some(i)
    } else if s[i] == stop {
        None
    } else {
        spec_find_lit_until(s, i + 1, lit, stop)
    }
}

/// Bounds that a successful `spec_find_lit_until` guarantees.
pub proof fn lemma_find_lit_until_bounds(s: Seq<char>, i: int, lit: Seq<char>, stop: char)
    ensures
        spec_find_lit_until(s, i, lit, stop) matches Some(p) ==> i <= p && p + lit.len()
            <= s.len(),
    decreases s.len() - i,
{
    if i < 0 || i + lit.len() > s.len() {
    } else if lit.len() == 0 {
    } else if lit_at(s, i, lit) {
    } else if s[i] == stop {
    } else {
        lemma_find_lit_until_bounds(s, i + 1, lit, stop);
    }
}

/// Exec search matching `spec_find_lit_until`.
pub fn find_lit_until(s: &Vec<char>, from: usize, lit: &Vec<char>, stop: char) -> (r: Option<
    usize,
>)
    ensures
        match r {
            Some(p) => spec_find_lit_until(s@, from as int, lit@, stop) == Some(p as int),
            None => spec_find_lit_until(s@, from as int, lit@, stop) is None,
        },
{
    let mut i: usize = from;
    loop
        invariant
            from <= i,
            spec_find_lit_until(s@, from as int, lit@, stop) == spec_find_lit_until(
                s@,
                i as int,
                lit@,
                stop,
            ),
        decreases s@.len() + 1 - i,
    {
        if i > s.len() || lit.len() > s.len() - i {
            return None;
        }
        if is_lit_at(s, i, lit) {
            return Some(i);
        }
        proof {
            if lit@.len() == 0 {
                assert(lit@ =~= Seq::<char>::empty());
                lemma_empty_lit_at(s@, i as int);
                assert(false);
            }
        }
        if s[i] == stop {
            return None;
        }
        proof {
            assert(spec_find_lit_until(s@, i as int, lit@, stop) == spec_find_lit_until(
                s@,
                i + 1,
                lit@,
                stop,
            ));
        }
        i = i + 1;
    }
}

/// First position at or after `i` that does not hold a space (or the length
/// of `s` if spaces run to its end).
pub open spec fn spec_skip_spaces(s: Seq<char>, i: int) -> int
    decreases s.len() - i,
{
    if i < 0 || i >= s.len() {
        i
    } else if s[i] == ' ' {
        spec_skip_spaces(s, i + 1)
    } else {
        i
    }
}

/// Exec scan matching `spec_skip_spaces`.
pub fn skip_spaces(s: &Vec<char>, from: usize) -> (r: usize)
    requires
        from <= s@.len(),
    ensures
        r == spec_skip_spaces(s@, from as int),
        from <= r <= s@.len(),
{
    let mut i: usize = from;
    while i < s.len() && s[i] == ' '
        invariant
            from <= i <= s@.len(),
            spec_skip_spaces(s@, from as int) == spec_skip_spaces(s@, i as int),
        decreases s@.len() - i,
    {
        proof {
            assert(spec_skip_spaces(s@, i as int) == spec_skip_spaces(s@, i + 1));
        }
        i = i + 1;
    }
    i
}

/// Copies `s[a..b]` into a fresh vector.
pub fn copy_range(s: &Vec<char>, a: usize, b: usize) -> (r: Vec<char>)
    requires
        a <= b <= s@.len(),
    ensures
        r@ == s@.subrange(a as int, b as int),
{
    let mut r: Vec<char> = Vec::new();
    append_range(&mut r, s, a, b);
    proof {
        assert(Seq::<char>::empty() + s@.subrange(a as int, b as int) =~= s@.subrange(
            a as int,
            b as int,
        ));
    }
    r
}

/// Appends `s[a..b]` to `out`.
pub fn append_range(out: &mut Vec<char>, s: &Vec<char>, a: usize, b: usize)
    requires
        a <= b <= s@.len(),
    ensures
        final(out)@ == old(out)@ + s@.subrange(a as int, b as int),
{
    let mut i: usize = a;
    while i < b
        invariant
            a <= i <= b <= s@.len(),
            out@ == old(out)@ + s@.subrange(a as int, i as int),
        decreases b - i,
    {
        out.push(s[i]);
        i = i + 1;
        proof {
            assert(out@ =~= old(out)@ + s@.subrange(a as int, i as int));
        }
    }
}

} // verus!
