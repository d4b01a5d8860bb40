//! Text utilities for the heading pass: HTML escaping and unescaping,
//! stripping of inline markup, and the escaping used when a snippet is
//! embedded in a quoted script literal.

use vstd::prelude::*;
use crate::chars::{
    append_range, append_str, find_lit_until, is_lit_at, lemma_find_lit_until_bounds, lit_at,
    spec_find_lit_until,
};

verus! {

/// The HTML escape of one character.
pub open spec fn esc_char(c: char) -> Seq<char> {
    if c == '&' {
        "&amp;"@
    } else if c == '<' {
        "&lt;"@
    } else if c == '>' {
        "&gt;"@
    } else if c == '"' {
        "&quot;"@
    } else if c == '\'' {
        "&#39;"@
    } else {
        seq![c]
    }
}

/// The HTML escape of `s[i..]`.
pub open spec fn esc_from(s: Seq<char>, i: int) -> Seq<char>
    decreases s.len() - i,
{
    if i < 0 || i >= s.len() {
        Seq::empty()
    } else {
        esc_char(s[i]) + esc_from(s, i + 1)
    }
}

/// HTML-escapes `&`, `<`, `>`, `"` and `'`.
pub fn escape_html(s: &Vec<char>) -> (out: Vec<char>)
    ensures
        out@ == esc_from(s@, 0),
{
    let mut out: Vec<char> = Vec::new();
    let mut i: usize = 0;
    while i < s.len()
        invariant
            i <= s@.len(),
            esc_from(s@, 0) == out@ + esc_from(s@, i as int),
        decreases s@.len() - i,
    {
        let ghost out0 = out@;
        let c = s[i];
        if c == '&' {
            append_str(&mut out, "&amp;");
        } else if c == '<' {
            append_str(&mut out, "&lt;");
        } else if c == '>' {
            append_str(&mut out, "&gt;");
        } else if c == '"' {
            append_str(&mut out, "&quot;");
        } else if c == '\'' {
            append_str(&mut out, "&#39;");
        } else {
            out.push(c);
            proof {
                assert(out@ =~= out0 + seq![s@[i as int]]);
            }
        }
        proof {
            assert(out@ == out0 + esc_char(s@[i as int]));
            assert(esc_from(s@, i as int) == esc_char(s@[i as int]) + esc_from(s@, i + 1));
            assert(out0 + (esc_char(s@[i as int]) + esc_from(s@, i + 1)) =~= (out0 + esc_char(
                s@[i as int],
            )) + esc_from(s@, i + 1));
        }
        i = i + 1;
    }
    proof {
        assert(out@ + Seq::<char>::empty() =~= out@);
    }
    out
}

/// Undoes `esc_from`: each of the five entities becomes its character; any
/// other text is copied as it stands.
pub open spec fn unesc_html_from(s: Seq<char>, i: int) -> Seq<char>
    decreases s.len() + 6 - i,
{
    if i < 0 || i >= s.len() {
        Seq::empty()
    } else if lit_at(s, i, "&amp;"@) {
        seq!['&'] + unesc_html_from(s, i + 5)
    } else if lit_at(s, i, "&lt;"@) {
        seq!['<'] + unesc_html_from(s, i + 4)
    } else if lit_at(s, i, "&gt;"@) {
        seq!['>'] + unesc_html_from(s, i + 4)
    } else if lit_at(s, i, "&quot;"@) {
        seq!['"'] + unesc_html_from(s, i + 6)
    } else if lit_at(s, i, "&#39;"@) {
        seq!['\''] + unesc_html_from(s, i + 5)
    } else {
        seq![s[i]] + unesc_html_from(s, i + 1)
    }
}

/// Replaces the five HTML entities by their characters.
pub fn unescape_html(s: &Vec<char>) -> (out: Vec<char>)
    ensures
        out@ == unesc_html_from(s@, 0),
{
    let l_amp = crate::chars::str_to_chars("&amp;");
    let l_lt = crate::chars::str_to_chars("&lt;");
    let l_gt = crate::chars::str_to_chars("&gt;");
    let l_quot = crate::chars::str_to_chars("&quot;");
    let l_apos = crate::chars::str_to_chars("&#39;");
    proof {
        reveal_strlit("&amp;");
        reveal_strlit("&lt;");
        reveal_strlit("&gt;");
        reveal_strlit("&quot;");
        reveal_strlit("&#39;");
    }
    let mut out: Vec<char> = Vec::new();
    let mut i: usize = 0;
    while i < s.len()
        invariant
            i <= s@.len(),
            l_amp@ == "&amp;"@,
            l_lt@ == "&lt;"@,
            l_gt@ == "&gt;"@,
            l_quot@ == "&quot;"@,
            l_apos@ == "&#39;"@,
            l_amp@.len() == 5,
            l_lt@.len() == 4,
            l_gt@.len() == 4,
            l_quot@.len() == 6,
            l_apos@.len() == 5,
            unesc_html_from(s@, 0) == out@ + unesc_html_from(s@, i as int),
        decreases s@.len() - i,
    {
        let ghost out0 = out@;
        let ghost i0 = i as int;
        if is_lit_at(s, i, &l_amp) {
            out.push('&');
            i = i + 5;
            proof {
                assert(out@ =~= out0 + seq!['&']);
                assert(unesc_html_from(s@, i0) == seq!['&'] + unesc_html_from(s@, i0 + 5));
                assert(out0 + (seq!['&'] + unesc_html_from(s@, i0 + 5)) =~= (out0 + seq!['&'])
                    + unesc_html_from(s@, i0 + 5));
            }
        } else if is_lit_at(s, i, &l_lt) {
            out.push('<');
            i = i + 4;
            proof {
                assert(out@ =~= out0 + seq!['<']);
                assert(unesc_html_from(s@, i0) == seq!['<'] + unesc_html_from(s@, i0 + 4));
                assert(out0 + (seq!['<'] + unesc_html_from(s@, i0 + 4)) =~= (out0 + seq!['<'])
                    + unesc_html_from(s@, i0 + 4));
            }
        } else if is_lit_at(s, i, &l_gt) {
            out.push('>');
            i = i + 4;
            proof {
                assert(out@ =~= out0 + seq!['>']);
                assert(unesc_html_from(s@, i0) == seq!['>'] + unesc_html_from(s@, i0 + 4));
                assert(out0 + (seq!['>'] + unesc_html_from(s@, i0 + 4)) =~= (out0 + seq!['>'])
                    + unesc_html_from(s@, i0 + 4));
            }
        } else if is_lit_at(s, i, &l_quot) {
            out.push('"');
            i = i + 6;
            proof {
                assert(out@ =~= out0 + seq!['"']);
                assert(unesc_html_from(s@, i0) == seq!['"'] + unesc_html_from(s@, i0 + 6));
                assert(out0 + (seq!['"'] + unesc_html_from(s@, i0 + 6)) =~= (out0 + seq!['"'])
                    + unesc_html_from(s@, i0 + 6));
            }
        } else if is_lit_at(s, i, &l_apos) {
            out.push('\'');
            i = i + 5;
            proof {
                assert(out@ =~= out0 + seq!['\'']);
                assert(unesc_html_from(s@, i0) == seq!['\''] + unesc_html_from(s@, i0 + 5));
                assert(out0 + (seq!['\''] + unesc_html_from(s@, i0 + 5)) =~= (out0 + seq!['\''])
                    + unesc_html_from(s@, i0 + 5));
            }
        } else {
            out.push(s[i]);
            i = i + 1;
            proof {
                assert(out@ =~= out0 + seq![s@[i0]]);
                assert(unesc_html_from(s@, i0) == seq![s@[i0]] + unesc_html_from(s@, i0 + 1));
                assert(out0 + (seq![s@[i0]] + unesc_html_from(s@, i0 + 1)) =~= (out0 + seq![
                    s@[i0],
                ]) + unesc_html_from(s@, i0 + 1));
            }
        }
    }
    proof {
        assert(out@ + Seq::<char>::empty() =~= out@);
    }
    out
}

/// Unescaping inverts escaping: the escape of a text, unescaped again, is
/// the text itself.
pub proof fn lemma_unescape_escape(s: Seq<char>, i: int)
    requires
        0 <= i <= s.len(),
    ensures
        unesc_html_from(esc_from(s, i), 0) == s.skip(i),
    decreases s.len() - i,
{
    reveal_strlit("&amp;");
    reveal_strlit("&lt;");
    reveal_strlit("&gt;");
    reveal_strlit("&quot;");
    reveal_strlit("&#39;");
    if i >= s.len() {
        assert(s.skip(i) =~= Seq::<char>::empty());
    } else {
        lemma_unescape_escape(s, i + 1);
        let c = s[i];
        let e = esc_from(s, i);
        let rest = esc_from(s, i + 1);
        assert(e == esc_char(c) + rest);
        lemma_unesc_step(c, rest);
        assert(unesc_html_from(rest, 0) == s.skip(i + 1));
        assert(seq![c] + s.skip(i + 1) =~= s.skip(i));
    }
}

/// A matched literal pins the characters of `s` under it.
proof fn lemma_lit_index(s: Seq<char>, i: int, lit: Seq<char>, k: int)
    requires
        lit_at(s, i, lit),
        0 <= k < lit.len(),
    ensures
        s[i + k] == lit[k],
{
    assert(s.subrange(i, i + lit.len())[k] == s[i + k]);
}

/// One unescape step at the front of `esc_char(c) + rest`: the entity (or
/// plain character) for `c` is recognized first, whatever follows.
proof fn lemma_unesc_step(c: char, rest: Seq<char>)
    ensures
        unesc_html_from(esc_char(c) + rest, 0) == seq![c] + unesc_html_from(rest, 0),
{
    reveal_strlit("&amp;");
    reveal_strlit("&lt;");
    reveal_strlit("&gt;");
    reveal_strlit("&quot;");
    reveal_strlit("&#39;");
    let s = esc_char(c) + rest;
    if c == '&' {
        assert(lit_at(s, 0, "&amp;"@)) by {
            assert(s.subrange(0, 5) =~= "&amp;"@);
        }
        assert(s.skip(5) =~= rest);
        assert(unesc_html_from(s, 0) == seq!['&'] + unesc_html_from(s, 5));
        lemma_unesc_shift(s, 5);
    } else if c == '<' {
        assert(lit_at(s, 0, "&lt;"@)) by {
            assert(s.subrange(0, 4) =~= "&lt;"@);
        }
        assert(!lit_at(s, 0, "&amp;"@)) by {
            if lit_at(s, 0, "&amp;"@) {
                lemma_lit_index(s, 0, "&amp;"@, 1);
            }
        }
        assert(s.skip(4) =~= rest);
        assert(unesc_html_from(s, 0) == seq!['<'] + unesc_html_from(s, 4));
        lemma_unesc_shift(s, 4);
    } else if c == '>' {
        assert(lit_at(s, 0, "&gt;"@)) by {
            assert(s.subrange(0, 4) =~= "&gt;"@);
        }
        assert(!lit_at(s, 0, "&amp;"@)) by {
            if lit_at(s, 0, "&amp;"@) {
                lemma_lit_index(s, 0, "&amp;"@, 1);
            }
        }
        assert(!lit_at(s, 0, "&lt;"@)) by {
            if lit_at(s, 0, "&lt;"@) {
                lemma_lit_index(s, 0, "&lt;"@, 1);
            }
        }
        assert(s.skip(4) =~= rest);
        assert(unesc_html_from(s, 0) == seq!['>'] + unesc_html_from(s, 4));
        lemma_unesc_shift(s, 4);
    } else if c == '"' {
        assert(lit_at(s, 0, "&quot;"@)) by {
            assert(s.subrange(0, 6) =~= "&quot;"@);
        }
        assert(!lit_at(s, 0, "&amp;"@)) by {
            if lit_at(s, 0, "&amp;"@) {
                lemma_lit_index(s, 0, "&amp;"@, 1);
            }
        }
        assert(!lit_at(s, 0, "&lt;"@)) by {
            if lit_at(s, 0, "&lt;"@) {
                lemma_lit_index(s, 0, "&lt;"@, 1);
            }
        }
        assert(!lit_at(s, 0, "&gt;"@)) by {
            if lit_at(s, 0, "&gt;"@) {
                lemma_lit_index(s, 0, "&gt;"@, 1);
            }
        }
        assert(s.skip(6) =~= rest);
        assert(unesc_html_from(s, 0) == seq!['"'] + unesc_html_from(s, 6));
        lemma_unesc_shift(s, 6);
    } else if c == '\'' {
        assert(lit_at(s, 0, "&#39;"@)) by {
            assert(s.subrange(0, 5) =~= "&#39;"@);
        }
        assert(!lit_at(s, 0, "&amp;"@)) by {
            if lit_at(s, 0, "&amp;"@) {
                lemma_lit_index(s, 0, "&amp;"@, 1);
            }
        }
        assert(!lit_at(s, 0, "&lt;"@)) by {
            if lit_at(s, 0, "&lt;"@) {
                lemma_lit_index(s, 0, "&lt;"@, 1);
            }
        }
        assert(!lit_at(s, 0, "&gt;"@)) by {
            if lit_at(s, 0, "&gt;"@) {
                lemma_lit_index(s, 0, "&gt;"@, 1);
            }
        }
        assert(!lit_at(s, 0, "&quot;"@)) by {
            if lit_at(s, 0, "&quot;"@) {
                lemma_lit_index(s, 0, "&quot;"@, 1);
            }
        }
        assert(s.skip(5) =~= rest);
        assert(unesc_html_from(s, 0) == seq!['\''] + unesc_html_from(s, 5));
        lemma_unesc_shift(s, 5);
    } else {
        assert(s[0] == c);
        assert(c != '&');
        assert(!lit_at(s, 0, "&amp;"@)) by {
            if lit_at(s, 0, "&amp;"@) {
                lemma_lit_index(s, 0, "&amp;"@, 0);
            }
        }
        assert(!lit_at(s, 0, "&lt;"@)) by {
            if lit_at(s, 0, "&lt;"@) {
                lemma_lit_index(s, 0, "&lt;"@, 0);
            }
        }
        assert(!lit_at(s, 0, "&gt;"@)) by {
            if lit_at(s, 0, "&gt;"@) {
                lemma_lit_index(s, 0, "&gt;"@, 0);
            }
        }
        assert(!lit_at(s, 0, "&quot;"@)) by {
            if lit_at(s, 0, "&quot;"@) {
                lemma_lit_index(s, 0, "&quot;"@, 0);
            }
        }
        assert(!lit_at(s, 0, "&#39;"@)) by {
            if lit_at(s, 0, "&#39;"@) {
                lemma_lit_index(s, 0, "&#39;"@, 0);
            }
        }
        assert(s.skip(1) =~= rest);
        assert(unesc_html_from(s, 0) == seq![c] + unesc_html_from(s, 1));
        lemma_unesc_shift(s, 1);
    }
}

/// Unescaping a suffix: `unesc_html_from(s, k)` equals unescaping `s.skip(k)`
/// from its start.
proof fn lemma_unesc_shift(s: Seq<char>, k: int)
    requires
        0 <= k <= s.len(),
    ensures
        unesc_html_from(s, k) == unesc_html_from(s.skip(k), 0),
    decreases s.len() - k,
{
    reveal_strlit("&amp;");
    reveal_strlit("&lt;");
    reveal_strlit("&gt;");
    reveal_strlit("&quot;");
    reveal_strlit("&#39;");
    let t = s.skip(k);
    if k >= s.len() {
        assert(t =~= Seq::<char>::empty());
    } else {
        assert(t.len() == s.len() - k);
        assert(forall|j: int| 0 <= j < t.len() ==> t[j] == s[k + j]);
        lemma_lit_shift(s, k, "&amp;"@);
        lemma_lit_shift(s, k, "&lt;"@);
        lemma_lit_shift(s, k, "&gt;"@);
        lemma_lit_shift(s, k, "&quot;"@);
        lemma_lit_shift(s, k, "&#39;"@);
        if lit_at(s, k, "&amp;"@) {
            lemma_unesc_shift(s, k + 5);
            assert(t.skip(5) =~= s.skip(k + 5));
            lemma_unesc_shift(t, 5);
        } else if lit_at(s, k, "&lt;"@) {
            lemma_unesc_shift(s, k + 4);
            assert(t.skip(4) =~= s.skip(k + 4));
            lemma_unesc_shift(t, 4);
        } else if lit_at(s, k, "&gt;"@) {
            lemma_unesc_shift(s, k + 4);
            assert(t.skip(4) =~= s.skip(k + 4));
            lemma_unesc_shift(t, 4);
        } else if lit_at(s, k, "&quot;"@) {
            lemma_unesc_shift(s, k + 6);
            assert(t.skip(6) =~= s.skip(k + 6));
            lemma_unesc_shift(t, 6);
        } else if lit_at(s, k, "&#39;"@) {
            lemma_unesc_shift(s, k + 5);
            assert(t.skip(5) =~= s.skip(k + 5));
            lemma_unesc_shift(t, 5);
        } else {
            lemma_unesc_shift(s, k + 1);
            assert(t.skip(1) =~= s.skip(k + 1));
            lemma_unesc_shift(t, 1);
            assert(t[0] == s[k]);
        }
    }
}

/// A literal matches at `k` in `s` exactly when it matches at the front of
/// `s.skip(k)`.
proof fn lemma_lit_shift(s: Seq<char>, k: int, lit: Seq<char>)
    requires
        0 <= k <= s.len(),
    ensures
        lit_at(s, k, lit) == lit_at(s.skip(k), 0, lit),
{
    let t = s.skip(k);
    if k + lit.len() <= s.len() {
        assert(s.subrange(k, k + lit.len()) =~= t.subrange(0, lit.len() as int));
    }
}


/// Strips inline markup: every `<...>` span (up to the next `>`) vanishes;
/// an unterminated `<` is kept as plain text.
pub open spec fn strip_tags_from(s: Seq<char>, i: int) -> Seq<char>
    decreases s.len() + 1 - i,
{
    if i < 0 || i >= s.len() {
        Seq::empty()
    } else if s[i] == '<' {
        match spec_find_lit_until(s, i + 1, ">"@, '\u{0}') {
            Some(g) => if i < g + 1 <= s.len() {
                strip_tags_from(s, g + 1)
            } else {
                seq![s[i]] + strip_tags_from(s, i + 1)
            },
            None => seq![s[i]] + strip_tags_from(s, i + 1),
        }
    } else {
        seq![s[i]] + strip_tags_from(s, i + 1)
    }
}

/// Removes every `<...>` span.
pub fn strip_tags(s: &Vec<char>) -> (out: Vec<char>)
    ensures
        out@ == strip_tags_from(s@, 0),
{
    let l_gt = crate::chars::str_to_chars(">");
    let n = s.len();
    let mut out: Vec<char> = Vec::new();
    let mut i: usize = 0;
    while i < n
        invariant
            n == s@.len(),
            i <= n,
            l_gt@ == ">"@,
            strip_tags_from(s@, 0) == out@ + strip_tags_from(s@, i as int),
        decreases n - i,
    {
        let ghost out0 = out@;
        let mut stepped = false;
        if s[i] == '<' {
            match find_lit_until(s, i + 1, &l_gt, '\u{0}') {
                Some(g) => {
                    proof {
                        lemma_find_lit_until_bounds(s@, i + 1, l_gt@, '\u{0}');
                        reveal_strlit(">");
                        assert(strip_tags_from(s@, i as int) == strip_tags_from(s@, g + 1));
                    }
                    i = g + 1;
                    stepped = true;
                },
                None => {
                    proof {
                        assert(strip_tags_from(s@, i as int) == seq![s@[i as int]]
                            + strip_tags_from(s@, i + 1));
                    }
                },
            }
        }
        if !stepped {
            out.push(s[i]);
            proof {
                assert(strip_tags_from(s@, i as int) == seq![s@[i as int]] + strip_tags_from(
                    s@,
                    i + 1,
                ));
                assert(out@ =~= out0 + seq![s@[i as int]]);
                assert(out0 + (seq![s@[i as int]] + strip_tags_from(s@, i + 1)) =~= (out0 + seq![
                    s@[i as int],
                ]) + strip_tags_from(s@, i + 1));
            }
            i = i + 1;
        }
    }
    proof {
        assert(out@ + Seq::<char>::empty() =~= out@);
    }
    out
}

/// Strips anchor markup down to the anchor text: a `<a...>text</a>` span
/// (single-line, nonempty tag gap and text) is replaced by `text`; other
/// characters are copied.
pub open spec fn strip_anchors_from(s: Seq<char>, i: int) -> Seq<char>
    decreases s.len() + 1 - i,
{
    if i < 0 || i >= s.len() {
        Seq::empty()
    } else if lit_at(s, i, "<a"@) {
        match spec_find_lit_until(s, i + 3, ">"@, '\n') {
            Some(g) => if g + 1 < s.len() && s[g + 1] != '\n' {
                match spec_find_lit_until(s, g + 2, "</a>"@, '\n') {
                    Some(c) => if i < c + "</a>"@.len() <= s.len() && g + 1 <= c {
                        s.subrange(g + 1, c) + strip_anchors_from(s, c + "</a>"@.len())
                    } else {
                        seq![s[i]] + strip_anchors_from(s, i + 1)
                    },
                    None => seq![s[i]] + strip_anchors_from(s, i + 1),
                }
            } else {
                seq![s[i]] + strip_anchors_from(s, i + 1)
            },
            None => seq![s[i]] + strip_anchors_from(s, i + 1),
        }
    } else {
        seq![s[i]] + strip_anchors_from(s, i + 1)
    }
}

/// Replaces every anchor span by its own text.
pub fn strip_anchors(s: &Vec<char>) -> (out: Vec<char>)
    ensures
        out@ == strip_anchors_from(s@, 0),
{
    let l_a = crate::chars::str_to_chars("<a");
    let l_gt = crate::chars::str_to_chars(">");
    let l_close = crate::chars::str_to_chars("</a>");
    let n = s.len();
    let mut out: Vec<char> = Vec::new();
    let mut i: usize = 0;
    while i < n
        invariant
            n == s@.len(),
            i <= n,
            l_a@ == "<a"@,
            l_gt@ == ">"@,
            l_close@ == "</a>"@,
            strip_anchors_from(s@, 0) == out@ + strip_anchors_from(s@, i as int),
        decreases n - i,
    {
        let ghost out0 = out@;
        let mut stepped = false;
        if is_lit_at(s, i, &l_a) && n - i >= 3 {
            match find_lit_until(s, i + 3, &l_gt, '\n') {
                Some(g) => {
                    proof {
                        lemma_find_lit_until_bounds(s@, i + 3, l_gt@, '\n');
                        reveal_strlit(">");
                    }
                    if g + 1 < n && s[g + 1] != '\n' {
                        match find_lit_until(s, g + 2, &l_close, '\n') {
                            Some(c) => {
                                proof {
                                    lemma_find_lit_until_bounds(s@, g + 2, l_close@, '\n');
                                    reveal_strlit("</a>");
                                }
                                let e2 = c + l_close.len();
                                append_range(&mut out, s, g + 1, c);
                                proof {
                                    let chunk = s@.subrange(g + 1, c as int);
                                    assert(strip_anchors_from(s@, i as int) == chunk
                                        + strip_anchors_from(s@, e2 as int));
                                    assert(out0 + (chunk + strip_anchors_from(s@, e2 as int)) =~= (
                                    out0 + chunk) + strip_anchors_from(s@, e2 as int));
                                }
                                i = e2;
                                stepped = true;
                            },
                            None => {
                                proof {
                                    assert(strip_anchors_from(s@, i as int) == seq![s@[i as int]]
                                        + strip_anchors_from(s@, i + 1));
                                }
                            },
                        }
                    } else {
                        proof {
                            assert(strip_anchors_from(s@, i as int) == seq![s@[i as int]]
                                + strip_anchors_from(s@, i + 1));
                        }
                    }
                },
                None => {
                    proof {
                        assert(strip_anchors_from(s@, i as int) == seq![s@[i as int]]
                            + strip_anchors_from(s@, i + 1));
                    }
                },
            }
        } else if is_lit_at(s, i, &l_a) {
            proof {
                assert(spec_find_lit_until(s@, i + 3, ">"@, '\n') is None);
                assert(strip_anchors_from(s@, i as int) == seq![s@[i as int]]
                    + strip_anchors_from(s@, i + 1));
            }
        }
        if !stepped {
            out.push(s[i]);
            proof {
                assert(strip_anchors_from(s@, i as int) == seq![s@[i as int]] + strip_anchors_from(
                    s@,
                    i + 1,
                ));
                assert(out@ =~= out0 + seq![s@[i as int]]);
                assert(out0 + (seq![s@[i as int]] + strip_anchors_from(s@, i + 1)) =~= (out0
                    + seq![s@[i as int]]) + strip_anchors_from(s@, i + 1));
            }
            i = i + 1;
        }
    }
    proof {
        assert(out@ + Seq::<char>::empty() =~= out@);
    }
    out
}

} // verus!

