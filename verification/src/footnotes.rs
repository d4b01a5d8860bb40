//! Footnote cross-linking: rewrites renderer-emitted footnote definition
//! blocks and footnote reference anchors so that each side links to the other
//! through a shared, prefixed identifier. A definition with raw id `x` gets
//! the id `f-x` and a back-link to `#b-x`; a reference with raw id `x` gets
//! the href `#f-x` and the id `b-x`.

use vstd::prelude::*;
use crate::chars::{
    append_chars, append_range, append_str, chars_to_string, find_lit, find_lit_line, is_lit_at,
    lemma_find_lit_bounds, lemma_find_lit_line_bounds, lit_at, spec_find_lit, spec_find_lit_line,
    str_to_chars,
};

verus! {

pub open spec fn fd_open() -> Seq<char> {
    "<div class=\"footnote-definition\" id=\""@
}

pub open spec fn fd_mid() -> Seq<char> {
    "\"><sup class=\"footnote-definition-label\">"@
}

pub open spec fn fd_label_close() -> Seq<char> {
    "</sup>"@
}

pub open spec fn fd_div_close() -> Seq<char> {
    "</div>"@
}

/// A footnote definition block starting at `p`: the opening literal, then the
/// raw id (single-line), the label-opening literal, the label text
/// (single-line), and the block body up to the closing `</div>`.
/// Yields `(id, label, body, end)` where `end` is the position just past the
/// closing literal.
pub open spec fn def_match_at(s: Seq<char>, p: int) -> Option<(Seq<char>, Seq<char>, Seq<char>, int)> {
    if lit_at(s, p, fd_open()) {
        let i0 = p + fd_open().len();
        match spec_find_lit_line(s, i0, fd_mid()) {
            Some(q) => {
                let i1 = q + fd_mid().len();
                match spec_find_lit_line(s, i1, fd_label_close()) {
                    Some(r) => {
                        let i2 = r + fd_label_close().len();
                        match spec_find_lit(s, i2, fd_div_close()) {
                            Some(d) => Some(
                                (
                                    s.subrange(i0, q),
                                    s.subrange(i1, r),
                                    s.subrange(i2, d),
                                    d + fd_div_close().len(),
                                ),
                            ),
                            None => None,
                        }
                    },
                    None => None,
                }
            },
            None => None,
        }
    } else {
        None
    }
}

/// The rewritten definition block: prefixed id, and a back-link around the
/// label pointing at the reference's future id.
pub open spec fn def_replacement(id: Seq<char>, label: Seq<char>, body: Seq<char>) -> Seq<char> {
    fd_open() + "f-"@ + id + fd_mid() + "<a href=\"#b-"@ + id + "\">"@ + label + "</a></sup>"@
        + body + "</div>"@
}

/// One left-to-right scan over `s` from `i`, rewriting every definition block
/// and copying everything else unchanged.
pub open spec fn def_scan(s: Seq<char>, i: int) -> Seq<char>
    decreases s.len() - i,
{
    if i < 0 || i >= s.len() {
        Seq::empty()
    } else {
        match def_match_at(s, i) {
            Some(m) => if i < m.3 <= s.len() {
                def_replacement(m.0, m.1, m.2) + def_scan(s, m.3)
            } else {
                seq![s[i]] + def_scan(s, i + 1)
            },
            None => seq![s[i]] + def_scan(s, i + 1),
        }
    }
}

struct DefMatch {
    id_a: usize,
    id_b: usize,
    lab_a: usize,
    lab_b: usize,
    body_a: usize,
    body_b: usize,
    end: usize,
}

fn try_def_match(
    s: &Vec<char>,
    i: usize,
    l_open: &Vec<char>,
    l_mid: &Vec<char>,
    l_sup: &Vec<char>,
    l_div: &Vec<char>,
) -> (r: Option<DefMatch>)
    requires
        l_open@ == fd_open(),
        l_mid@ == fd_mid(),
        l_sup@ == fd_label_close(),
        l_div@ == fd_div_close(),
        i < s@.len(),
    ensures
        match r {
            Some(m) => {
                &&& m.id_a <= m.id_b <= s@.len()
                &&& m.lab_a <= m.lab_b <= s@.len()
                &&& m.body_a <= m.body_b <= s@.len()
                &&& i < m.end <= s@.len()
                &&& def_match_at(s@, i as int) == Some(
                    (
                        s@.subrange(m.id_a as int, m.id_b as int),
                        s@.subrange(m.lab_a as int, m.lab_b as int),
                        s@.subrange(m.body_a as int, m.body_b as int),
                        m.end as int,
                    ),
                )
            },
            None => def_match_at(s@, i as int) is None,
        },
{
    let n = s.len();
    if !is_lit_at(s, i, l_open) {
        return None;
    }
    let i0 = i + l_open.len();
    match find_lit_line(s, i0, l_mid) {
        None => None,
        Some(q) => {
            proof {
                lemma_find_lit_line_bounds(s@, i0 as int, l_mid@);
            }
            let i1 = q + l_mid.len();
            match find_lit_line(s, i1, l_sup) {
                None => None,
                Some(r) => {
                    proof {
                        lemma_find_lit_line_bounds(s@, i1 as int, l_sup@);
                    }
                    let i2 = r + l_sup.len();
                    match find_lit(s, i2, l_div) {
                        None => None,
                        Some(d) => {
                            proof {
                                lemma_find_lit_bounds(s@, i2 as int, l_div@);
                                reveal_strlit("</div>");
                            }
                            let end = d + l_div.len();
                            Some(
                                DefMatch {
                                    id_a: i0,
                                    id_b: q,
                                    lab_a: i1,
                                    lab_b: r,
                                    body_a: i2,
                                    body_b: d,
                                    end,
                                },
                            )
                        },
                    }
                },
            }
        },
    }
}

/// Rewrites every footnote definition block in `html`.
pub fn rewrite_defs(html: &Vec<char>) -> (out: Vec<char>)
    ensures
        out@ == def_scan(html@, 0),
{
    let l_open = str_to_chars("<div class=\"footnote-definition\" id=\"");
    let l_mid = str_to_chars("\"><sup class=\"footnote-definition-label\">");
    let l_sup = str_to_chars("</sup>");
    let l_div = str_to_chars("</div>");
    let n = html.len();
    let mut out: Vec<char> = Vec::new();
    let mut i: usize = 0;
    while i < n
        invariant
            n == html@.len(),
            i <= n,
            l_open@ == fd_open(),
            l_mid@ == fd_mid(),
            l_sup@ == fd_label_close(),
            l_div@ == fd_div_close(),
            def_scan(html@, 0) == out@ + def_scan(html@, i as int),
        decreases n - i,
    {
        let ghost out0 = out@;
        match try_def_match(html, i, &l_open, &l_mid, &l_sup, &l_div) {
            Some(m) => {
                let ghost id = html@.subrange(m.id_a as int, m.id_b as int);
                let ghost lab = html@.subrange(m.lab_a as int, m.lab_b as int);
                let ghost body = html@.subrange(m.body_a as int, m.body_b as int);
                append_chars(&mut out, &l_open);
                append_str(&mut out, "f-");
                append_range(&mut out, html, m.id_a, m.id_b);
                append_chars(&mut out, &l_mid);
                append_str(&mut out, "<a href=\"#b-");
                append_range(&mut out, html, m.id_a, m.id_b);
                append_str(&mut out, "\">");
                append_range(&mut out, html, m.lab_a, m.lab_b);
                append_str(&mut out, "</a></sup>");
                append_range(&mut out, html, m.body_a, m.body_b);
                append_str(&mut out, "</div>");
                proof {
                    assert(out@ =~= out0 + def_replacement(id, lab, body));
                    assert(def_scan(html@, i as int) == def_replacement(id, lab, body)
                        + def_scan(html@, m.end as int));
                    assert(out0 + (def_replacement(id, lab, body) + def_scan(html@, m.end as int))
                        =~= (out0 + def_replacement(id, lab, body)) + def_scan(
                        html@,
                        m.end as int,
                    ));
                }
                i = m.end;
            },
            None => {
                out.push(html[i]);
                proof {
                    assert(out@ =~= out0 + seq![html@[i as int]]);
                    assert(def_scan(html@, i as int) == seq![html@[i as int]] + def_scan(
                        html@,
                        i + 1,
                    ));
                    assert(out0 + (seq![html@[i as int]] + def_scan(html@, i + 1)) =~= (out0
                        + seq![html@[i as int]]) + def_scan(html@, i + 1));
                }
                i = i + 1;
            },
        }
    }
    proof {
        assert(def_scan(html@, i as int) == Seq::<char>::empty());
        assert(out@ + Seq::<char>::empty() =~= out@);
    }
    out
}

pub open spec fn fr_open() -> Seq<char> {
    "<sup class=\"footnote-reference\"><a href=\"#"@
}

pub open spec fn fr_mid() -> Seq<char> {
    "\">"@
}

pub open spec fn fr_close() -> Seq<char> {
    "</a></sup>"@
}

/// A footnote reference anchor starting at `p`: the opening literal, the raw
/// id (single-line) up to the closing quote of the href, and the anchor text
/// up to the closing literal. Yields `(id, text, end)`.
pub open spec fn ref_match_at(s: Seq<char>, p: int) -> Option<(Seq<char>, Seq<char>, int)> {
    if lit_at(s, p, fr_open()) {
        let i0 = p + fr_open().len();
        match spec_find_lit_line(s, i0, fr_mid()) {
            Some(q) => {
                let i1 = q + fr_mid().len();
                match spec_find_lit(s, i1, fr_close()) {
                    Some(d) => Some((s.subrange(i0, q), s.subrange(i1, d), d + fr_close().len())),
                    None => None,
                }
            },
            None => None,
        }
    } else {
        None
    }
}

/// The rewritten reference anchor: href pointing at the prefixed definition
/// id, plus an own id for the definition's back-link to target.
pub open spec fn ref_replacement(id: Seq<char>, text: Seq<char>) -> Seq<char> {
    fr_open() + "f-"@ + id + "\" id=\"b-"@ + id + "\">"@ + text + "</a></sup>"@
}

/// One left-to-right scan over `s` from `i`, rewriting every footnote
/// reference anchor and copying everything else unchanged.
pub open spec fn ref_scan(s: Seq<char>, i: int) -> Seq<char>
    decreases s.len() - i,
{
    if i < 0 || i >= s.len() {
        Seq::empty()
    } else {
        match ref_match_at(s, i) {
            Some(m) => if i < m.2 <= s.len() {
                ref_replacement(m.0, m.1) + ref_scan(s, m.2)
            } else {
                seq![s[i]] + ref_scan(s, i + 1)
            },
            None => seq![s[i]] + ref_scan(s, i + 1),
        }
    }
}

struct RefMatch {
    id_a: usize,
    id_b: usize,
    txt_a: usize,
    txt_b: usize,
    end: usize,
}

fn try_ref_match(s: &Vec<char>, i: usize, l_open: &Vec<char>, l_mid: &Vec<char>, l_close: &Vec<
    char,
>) -> (r: Option<RefMatch>)
    requires
        l_open@ == fr_open(),
        l_mid@ == fr_mid(),
        l_close@ == fr_close(),
        i < s@.len(),
    ensures
        match r {
            Some(m) => {
                &&& m.id_a <= m.id_b <= s@.len()
                &&& m.txt_a <= m.txt_b <= s@.len()
                &&& i < m.end <= s@.len()
                &&& ref_match_at(s@, i as int) == Some(
                    (
                        s@.subrange(m.id_a as int, m.id_b as int),
                        s@.subrange(m.txt_a as int, m.txt_b as int),
                        m.end as int,
                    ),
                )
            },
            None => ref_match_at(s@, i as int) is None,
        },
{
    let n = s.len();
    if !is_lit_at(s, i, l_open) {
        return None;
    }
    let i0 = i + l_open.len();
    match find_lit_line(s, i0, l_mid) {
        None => None,
        Some(q) => {
            proof {
                lemma_find_lit_line_bounds(s@, i0 as int, l_mid@);
            }
            let i1 = q + l_mid.len();
            match find_lit(s, i1, l_close) {
                None => None,
                Some(d) => {
                    proof {
                        lemma_find_lit_bounds(s@, i1 as int, l_close@);
                        reveal_strlit("</a></sup>");
                    }
                    let end = d + l_close.len();
                    Some(RefMatch { id_a: i0, id_b: q, txt_a: i1, txt_b: d, end })
                },
            }
        },
    }
}

/// Rewrites every footnote reference anchor in `html`.
pub fn rewrite_refs(html: &Vec<char>) -> (out: Vec<char>)
    ensures
        out@ == ref_scan(html@, 0),
{
    let l_open = str_to_chars("<sup class=\"footnote-reference\"><a href=\"#");
    let l_mid = str_to_chars("\">");
    let l_close = str_to_chars("</a></sup>");
    let n = html.len();
    let mut out: Vec<char> = Vec::new();
    let mut i: usize = 0;
    while i < n
        invariant
            n == html@.len(),
            i <= n,
            l_open@ == fr_open(),
            l_mid@ == fr_mid(),
            l_close@ == fr_close(),
            ref_scan(html@, 0) == out@ + ref_scan(html@, i as int),
        decreases n - i,
    {
        let ghost out0 = out@;
        match try_ref_match(html, i, &l_open, &l_mid, &l_close) {
            Some(m) => {
                let ghost id = html@.subrange(m.id_a as int, m.id_b as int);
                let ghost txt = html@.subrange(m.txt_a as int, m.txt_b as int);
                append_chars(&mut out, &l_open);
                append_str(&mut out, "f-");
                append_range(&mut out, html, m.id_a, m.id_b);
                append_str(&mut out, "\" id=\"b-");
                append_range(&mut out, html, m.id_a, m.id_b);
                append_str(&mut out, "\">");
                append_range(&mut out, html, m.txt_a, m.txt_b);
                append_str(&mut out, "</a></sup>");
                proof {
                    assert(out@ =~= out0 + ref_replacement(id, txt));
                    assert(ref_scan(html@, i as int) == ref_replacement(id, txt) + ref_scan(
                        html@,
                        m.end as int,
                    ));
                    assert(out0 + (ref_replacement(id, txt) + ref_scan(html@, m.end as int)) =~= (
                    out0 + ref_replacement(id, txt)) + ref_scan(html@, m.end as int));
                }
                i = m.end;
            },
            None => {
                out.push(html[i]);
                proof {
                    assert(out@ =~= out0 + seq![html@[i as int]]);
                    assert(ref_scan(html@, i as int) == seq![html@[i as int]] + ref_scan(
                        html@,
                        i + 1,
                    ));
                    assert(out0 + (seq![html@[i as int]] + ref_scan(html@, i + 1)) =~= (out0
                        + seq![html@[i as int]]) + ref_scan(html@, i + 1));
                }
                i = i + 1;
            },
        }
    }
    proof {
        assert(ref_scan(html@, i as int) == Seq::<char>::empty());
        assert(out@ + Seq::<char>::empty() =~= out@);
    }
    out
}

/// The whole footnote pass: definitions rewritten first, then references.
pub open spec fn spec_fix_footnotes(s: Seq<char>) -> Seq<char> {
    ref_scan(def_scan(s, 0), 0)
}

/// Cross-links footnote definitions and references by their shared raw id:
/// a definition's id gains the `f-` prefix and its label a back-link to
/// `#b-<id>`; a reference's href is retargeted at `#f-<id>` and the reference
/// itself gains `id="b-<id>"`.
pub fn fix_footnotes(html: &str) -> (r: String)
    ensures
        r@ == spec_fix_footnotes(html@),
{
    let v = str_to_chars(html);
    let defs = rewrite_defs(&v);
    let refs = rewrite_refs(&defs);
    chars_to_string(&refs)
}

} // verus!
