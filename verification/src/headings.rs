//! Heading numbering and table-of-contents assembly. Every `<h1>`…`<h9>`
//! element is scanned in document order; the document title (`<h1>`) becomes
//! an animated-reveal stub, every deeper heading is numbered from the
//! hierarchical counter, wrapped in a self-link, and entered into a nested
//! TOC list that replaces the `<!-- :toc: -->` placeholder.

use vstd::prelude::*;
use crate::chars::{
    append_chars, append_str, chars_to_string, copy_range, is_lit_at, lit_at, str_to_chars,
};
use crate::counter::{
    digit_char, next_counter, spec_anchor_id, spec_number, advance_counter, render_anchor_id,
    render_number,
};
use crate::text::{
    esc_from, escape_html, strip_anchors, strip_anchors_from, strip_tags, strip_tags_from,
    unesc_html_from, unescape_html,
};

verus! {

/// A closing heading tag `</h digit >` stands at `q`.
pub open spec fn is_hclose_at(s: Seq<char>, q: int) -> bool {
    &&& 0 <= q
    &&& q + 5 <= s.len()
    &&& s[q] == '<'
    &&& s[q + 1] == '/'
    &&& s[q + 2] == 'h'
    &&& 48 <= s[q + 3] as u32 <= 57
    &&& s[q + 4] == '>'
}

/// The first closing heading tag at or after `q`; a newline ends the search.
pub open spec fn find_hclose(s: Seq<char>, q: int) -> Option<int>
    decreases s.len() - q,
{
    if q < 0 || q + 5 > s.len() {
        None
    } else if is_hclose_at(s, q) {
        Some(q)
    } else if s[q] == '\n' {
        None
    } else {
        find_hclose(s, q + 1)
    }
}

/// A heading element at `p`: `<h` with a level digit 1–9 and `>`, then
/// single-line content, then the first closing `</h digit >`. Yields
/// `(level, c0, c1, end)`: the content stands in `s[c0..c1]`.
pub open spec fn head_match_at(s: Seq<char>, p: int) -> Option<(int, int, int, int)> {
    if 0 <= p && p + 4 <= s.len() && s[p] == '<' && s[p + 1] == 'h' && 49 <= s[p + 2] as u32 <= 57
        && s[p + 3] == '>' {
        match find_hclose(s, p + 4) {
            Some(q) => Some(((s[p + 2] as u32 - 48) as int, p + 4, q, q + 5)),
            None => None,
        }
    } else {
        None
    }
}

/// `chunk` repeated `k` times.
pub open spec fn repeat(chunk: Seq<char>, k: int) -> Seq<char>
    decreases k,
{
    if k <= 0 {
        Seq::empty()
    } else {
        repeat(chunk, k - 1) + chunk
    }
}

/// The list markup that brings the TOC from nesting level `t` to `level`:
/// deeper levels are opened, shallower ones closed, and a sibling item is
/// started when the level stays.
pub open spec fn toc_adjust(t: int, level: int) -> Seq<char> {
    if t < level {
        repeat("<ul><li>"@, level - t)
    } else {
        repeat("</li></ul>"@, t - level) + "</li><li>"@
    }
}

/// The TOC entry for a heading: a link to the anchor whose text is the
/// number and the heading content with nested anchors stripped to their text.
pub open spec fn toc_entry(id: Seq<char>, num: Seq<char>, content: Seq<char>) -> Seq<char> {
    "<a href=\"#"@ + id + "\">"@ + num + " "@ + strip_anchors_from(content, 0) + "</a>"@
}

/// The rewritten heading: its content wrapped in a self-link, prefixed by
/// the section number.
pub open spec fn heading_markup(level: int, num: Seq<char>, id: Seq<char>, content: Seq<char>) -> Seq<
    char,
> {
    "<h"@ + seq![digit_char(level as nat)] + "><a class=\"header\" href=\"#"@ + id + "\" id=\""@
        + id + "\">"@ + num + " "@ + content + "</a></h"@ + seq![digit_char(level as nat)] + ">"@
}

/// The escape of one character inside a double-quoted script literal.
pub open spec fn qesc_char(c: char) -> Seq<char> {
    if c == '\\' {
        seq!['\\', '\\']
    } else if c == '"' {
        seq!['\\', '"']
    } else {
        seq![c]
    }
}

/// The quoted-literal escape of `s[i..]`.
pub open spec fn qesc_from(s: Seq<char>, i: int) -> Seq<char>
    decreases s.len() - i,
{
    if i < 0 || i >= s.len() {
        Seq::empty()
    } else {
        qesc_char(s[i]) + qesc_from(s, i + 1)
    }
}

/// `t` as a double-quoted script literal.
pub open spec fn quoted(t: Seq<char>) -> Seq<char> {
    seq!['"'] + qesc_from(t, 0) + seq!['"']
}

/// The first `j` reveal snippets of `plain`, each the HTML escape of a
/// prefix one character longer than the one before, quoted and joined with
/// `, `. The last snippet is the whole text.
pub open spec fn list_upto(plain: Seq<char>, j: int) -> Seq<char>
    decreases j,
{
    if j <= 0 {
        Seq::empty()
    } else if j == 1 {
        quoted(esc_from(plain.subrange(0, 1), 0))
    } else {
        list_upto(plain, j - 1) + ", "@ + quoted(esc_from(plain.subrange(0, j), 0))
    }
}

/// The full reveal list for `plain`: a script-literal array of snippets.
pub open spec fn title_list(plain: Seq<char>) -> Seq<char> {
    "["@ + list_upto(plain, plain.len() as int) + "]"@
}

pub open spec fn script_head() -> Seq<char> {
    "\n<script>\nfunction sleep(ms) {\n  return new Promise(resolve => setTimeout(resolve, ms));\n}\n\nasync function writeTitle() {\n    let s = "@
}

pub open spec fn script_tail() -> Seq<char> {
    ";\n    let title = document.getElementsByClassName('title')[0];\n    for(let i in s) {\n        title.innerHTML = s[i];\n        await sleep(100);\n    }\n}\n\naddOnload(writeTitle);\n</script>\n<h1 class=\"header title\">_</h1>"@
}

/// What the document title becomes: a stub that reveals the title text
/// snippet by snippet, leaving a placeholder glyph until it runs. The
/// snippets are built from the content unescaped and with markup stripped.
pub open spec fn title_chunk(content: Seq<char>) -> Seq<char> {
    script_head() + title_list(strip_tags_from(unesc_html_from(content, 0), 0)) + script_tail()
}

/// The result of the heading scan: the rewritten document, the TOC markup,
/// the final TOC nesting level, and how many list levels were opened and
/// closed along the way.
pub struct HeadScanOut {
    pub out: Seq<char>,
    pub toc: Seq<char>,
    pub toc_level: int,
    pub opens: int,
    pub closes: int,
}

/// One left-to-right scan over `s` from `i`, with counter state `c` and TOC
/// nesting level `t`: every heading is rewritten and entered into the TOC
/// (the title specially), everything else is copied unchanged.
pub open spec fn head_scan(s: Seq<char>, i: int, c: Seq<usize>, t: int) -> HeadScanOut
    decreases s.len() - i,
{
    if i < 0 || i >= s.len() {
        HeadScanOut { out: Seq::empty(), toc: Seq::empty(), toc_level: t, opens: 0, closes: 0 }
    } else {
        match head_match_at(s, i) {
            Some(m) => if i < m.3 <= s.len() {
                let content = s.subrange(m.1, m.2);
                let c2 = next_counter(c, m.0);
                if m.0 == 1 {
                    let rest = head_scan(s, m.3, c2, t);
                    HeadScanOut {
                        out: title_chunk(content) + rest.out,
                        toc: rest.toc,
                        toc_level: rest.toc_level,
                        opens: rest.opens,
                        closes: rest.closes,
                    }
                } else {
                    let num = spec_number(c2);
                    let idv = spec_anchor_id(c2);
                    let rest = head_scan(s, m.3, c2, m.0);
                    HeadScanOut {
                        out: heading_markup(m.0, num, idv, content) + rest.out,
                        toc: toc_adjust(t, m.0) + toc_entry(idv, num, content) + rest.toc,
                        toc_level: rest.toc_level,
                        opens: (if t < m.0 {
                            m.0 - t
                        } else {
                            0
                        }) + rest.opens,
                        closes: (if t < m.0 {
                            0
                        } else {
                            t - m.0
                        }) + rest.closes,
                    }
                }
            } else {
                let rest = head_scan(s, i + 1, c, t);
                HeadScanOut {
                    out: seq![s[i]] + rest.out,
                    toc: rest.toc,
                    toc_level: rest.toc_level,
                    opens: rest.opens,
                    closes: rest.closes,
                }
            },
            None => {
                let rest = head_scan(s, i + 1, c, t);
                HeadScanOut {
                    out: seq![s[i]] + rest.out,
                    toc: rest.toc,
                    toc_level: rest.toc_level,
                    opens: rest.opens,
                    closes: rest.closes,
                }
            },
        }
    }
}

/// Non-overlapping leftmost replacement of a literal pattern.
pub open spec fn replace_from(s: Seq<char>, i: int, pat: Seq<char>, rep: Seq<char>) -> Seq<char>
    decreases s.len() - i,
{
    if i < 0 || i >= s.len() {
        Seq::empty()
    } else if pat.len() > 0 && lit_at(s, i, pat) {
        rep + replace_from(s, i + pat.len(), pat, rep)
    } else {
        seq![s[i]] + replace_from(s, i + 1, pat, rep)
    }
}

/// Replaces every occurrence of `pat` in `s` by `rep`.
pub fn replace_all_lit(s: &Vec<char>, pat: &Vec<char>, rep: &Vec<char>) -> (out: Vec<char>)
    ensures
        out@ == replace_from(s@, 0, pat@, rep@),
{
    let n = s.len();
    let mut out: Vec<char> = Vec::new();
    let mut i: usize = 0;
    while i < n
        invariant
            n == s@.len(),
            i <= n,
            replace_from(s@, 0, pat@, rep@) == out@ + replace_from(s@, i as int, pat@, rep@),
        decreases n - i,
    {
        let ghost out0 = out@;
        if pat.len() > 0 && is_lit_at(s, i, pat) {
            append_chars(&mut out, rep);
            proof {
                assert(replace_from(s@, i as int, pat@, rep@) == rep@ + replace_from(
                    s@,
                    i + pat@.len(),
                    pat@,
                    rep@,
                ));
                assert(out0 + (rep@ + replace_from(s@, i + pat@.len(), pat@, rep@)) =~= (out0
                    + rep@) + replace_from(s@, i + pat@.len(), pat@, rep@));
            }
            i = i + pat.len();
        } else {
            out.push(s[i]);
            proof {
                assert(replace_from(s@, i as int, pat@, rep@) == seq![s@[i as int]]
                    + replace_from(s@, i + 1, pat@, rep@));
                assert(out@ =~= out0 + seq![s@[i as int]]);
                assert(out0 + (seq![s@[i as int]] + replace_from(s@, i + 1, pat@, rep@)) =~= (out0
                    + seq![s@[i as int]]) + replace_from(s@, i + 1, pat@, rep@));
            }
            i = i + 1;
        }
    }
    proof {
        assert(out@ + Seq::<char>::empty() =~= out@);
    }
    out
}

/// The whole heading pass: the scan from an empty-but-for-one-zero counter
/// at TOC level 1, the TOC drained back to level 1, and the placeholder
/// token replaced by the finished TOC.
pub open spec fn spec_fix_header(s: Seq<char>) -> Seq<char> {
    let r = head_scan(s, 0, seq![0usize], 1);
    let toc_full = r.toc + repeat("</li></ul>"@, r.toc_level - 1);
    replace_from(r.out, 0, "<!-- :toc: -->"@, toc_full)
}

fn try_head_match(s: &Vec<char>, i: usize) -> (r: Option<(usize, usize, usize, usize)>)
    requires
        i < s@.len(),
    ensures
        match r {
            Some(m) => {
                &&& 1 <= m.0 <= 9
                &&& i + 9 <= m.3
                &&& m.3 <= s@.len()
                &&& i <= m.1 <= m.2 <= s@.len()
                &&& head_match_at(s@, i as int) == Some(
                    (m.0 as int, m.1 as int, m.2 as int, m.3 as int),
                )
            },
            None => head_match_at(s@, i as int) is None,
        },
{
    let n = s.len();
    if n - i < 4 {
        return None;
    }
    if s[i] != '<' || s[i + 1] != 'h' {
        return None;
    }
    let du = s[i + 2] as u32;
    if !(49 <= du && du <= 57) {
        return None;
    }
    if s[i + 3] != '>' {
        return None;
    }
    let level = (du - 48) as usize;
    let mut q = i + 4;
    loop
        invariant
            n == s@.len(),
            i + 4 <= q,
            s@[i as int] == '<',
            s@[i + 1] == 'h',
            49 <= s@[i + 2] as u32 <= 57,
            s@[i + 3] == '>',
            1 <= level <= 9,
            level as int == (s@[i + 2] as u32 - 48) as int,
            find_hclose(s@, i + 4) == find_hclose(s@, q as int),
        decreases n + 5 - q,
    {
        if q > n || n - q < 5 {
            return None;
        }
        let c0 = s[q];
        let c1 = s[q + 1];
        let c2 = s[q + 2];
        let c3 = s[q + 3] as u32;
        let c4 = s[q + 4];
        if c0 == '<' && c1 == '/' && c2 == 'h' && 48 <= c3 && c3 <= 57 && c4 == '>' {
            proof {
                assert(is_hclose_at(s@, q as int));
                assert(find_hclose(s@, q as int) == Some(q as int));
                assert(find_hclose(s@, i + 4) == Some(q as int));
                assert(level as int == (s@[i + 2] as u32 - 48) as int);
                assert(head_match_at(s@, i as int) == Some(
                    (level as int, (i + 4) as int, q as int, (q + 5) as int),
                ));
            }
            return Some((level, i + 4, q, q + 5));
        }
        proof {
            assert(!is_hclose_at(s@, q as int));
        }
        if c0 == '\n' {
            return None;
        }
        proof {
            assert(find_hclose(s@, q as int) == find_hclose(s@, q + 1));
        }
        q = q + 1;
    }
}

/// Appends `v` as a double-quoted script literal, escaping `\` and `"`.
fn append_quoted(out: &mut Vec<char>, v: &Vec<char>)
    ensures
        final(out)@ == old(out)@ + quoted(v@),
{
    let ghost out00 = out@;
    out.push('"');
    let ghost base = out@;
    let mut i: usize = 0;
    while i < v.len()
        invariant
            i <= v@.len(),
            base == out00 + seq!['"'],
            base + qesc_from(v@, 0) == out@ + qesc_from(v@, i as int),
        decreases v@.len() - i,
    {
        let ghost out0 = out@;
        let c = v[i];
        if c == '\\' {
            out.push('\\');
            out.push('\\');
            proof {
                assert(out@ =~= out0 + qesc_char(v@[i as int]));
            }
        } else if c == '"' {
            out.push('\\');
            out.push('"');
            proof {
                assert(out@ =~= out0 + qesc_char(v@[i as int]));
            }
        } else {
            out.push(c);
            proof {
                assert(out@ =~= out0 + qesc_char(v@[i as int]));
            }
        }
        proof {
            assert(qesc_from(v@, i as int) == qesc_char(v@[i as int]) + qesc_from(v@, i + 1));
            assert(out0 + (qesc_char(v@[i as int]) + qesc_from(v@, i + 1)) =~= (out0 + qesc_char(
                v@[i as int],
            )) + qesc_from(v@, i + 1));
        }
        i = i + 1;
    }
    proof {
        assert(out@ + Seq::<char>::empty() =~= out@);
        assert(out@ == base + qesc_from(v@, 0));
    }
    out.push('"');
    proof {
        assert(out@ =~= out00 + quoted(v@));
    }
}



/// Appends the reveal stub for a title heading's content.
fn emit_title(out: &mut Vec<char>, contentv: &Vec<char>)
    ensures
        final(out)@ == old(out)@ + title_chunk(contentv@),
{
    let ghost out0 = out@;
    let unesc = unescape_html(contentv);
    let plain = strip_tags(&unesc);
    let mut list = str_to_chars("[");
    let m = plain.len();
    let mut k: usize = 0;
    while k < m
        invariant
            m == plain@.len(),
            k <= m,
            list@ == "["@ + list_upto(plain@, k as int),
        decreases m - k,
    {
        let ghost list0 = list@;
        if k > 0 {
            append_str(&mut list, ", ");
        }
        let pref = copy_range(&plain, 0, k + 1);
        let esc = escape_html(&pref);
        append_quoted(&mut list, &esc);
        proof {
            if k == 0 {
                assert(list@ =~= "["@ + list_upto(plain@, 1));
            } else {
                assert(list_upto(plain@, k + 1) == list_upto(plain@, k as int) + ", "@ + quoted(
                    esc_from(plain@.subrange(0, k + 1), 0),
                ));
                assert(list@ =~= "["@ + list_upto(plain@, k + 1));
            }
        }
        k = k + 1;
    }
    append_str(&mut list, "]");
    proof {
        assert(list@ =~= "["@ + list_upto(plain@, plain@.len() as int) + "]"@);
        assert(list@ == title_list(plain@));
    }
    append_str(
        out,
        "\n<script>\nfunction sleep(ms) {\n  return new Promise(resolve => setTimeout(resolve, ms));\n}\n\nasync function writeTitle() {\n    let s = ",
    );
    append_chars(out, &list);
    append_str(
        out,
        ";\n    let title = document.getElementsByClassName('title')[0];\n    for(let i in s) {\n        title.innerHTML = s[i];\n        await sleep(100);\n    }\n}\n\naddOnload(writeTitle);\n</script>\n<h1 class=\"header title\">_</h1>",
    );
    proof {
        assert(plain@ == strip_tags_from(unesc_html_from(contentv@, 0), 0));
        assert(out@ =~= out0 + title_chunk(contentv@));
    }
}

/// Brings the TOC accumulator from its level to the heading's level.
fn adjust_toc(toc: &mut Vec<char>, toc_level: &mut usize, level: usize)
    requires
        1 <= *old(toc_level) <= 9,
        2 <= level <= 9,
    ensures
        final(toc)@ == old(toc)@ + toc_adjust(*old(toc_level) as int, level as int),
        *final(toc_level) == level,
{
    let ghost toc0 = toc@;
    let ghost t_old = *old(toc_level) as int;
    if *toc_level < level {
        while *toc_level < level
            invariant
                *toc_level <= level <= 9,
                t_old <= *toc_level,
                toc@ == toc0 + repeat("<ul><li>"@, *toc_level - t_old),
            decreases level - *toc_level,
        {
            append_str(toc, "<ul><li>");
            *toc_level = *toc_level + 1;
            proof {
                assert(toc@ =~= toc0 + repeat("<ul><li>"@, *toc_level - t_old));
            }
        }
    } else {
        while *toc_level > level
            invariant
                level <= *toc_level,
                *toc_level as int <= t_old,
                1 <= level,
                toc@ == toc0 + repeat("</li></ul>"@, t_old - *toc_level),
            decreases *toc_level,
        {
            append_str(toc, "</li></ul>");
            *toc_level = *toc_level - 1;
            proof {
                assert(toc@ =~= toc0 + repeat("</li></ul>"@, t_old - *toc_level));
            }
        }
        append_str(toc, "</li><li>");
        proof {
            assert(toc@ =~= toc0 + (repeat("</li></ul>"@, t_old - level) + "</li><li>"@));
        }
    }
}

/// Appends the TOC entry for a numbered heading.
fn emit_toc_entry(toc: &mut Vec<char>, idv: &Vec<char>, num: &Vec<char>, contentv: &Vec<char>)
    ensures
        final(toc)@ == old(toc)@ + toc_entry(idv@, num@, contentv@),
{
    let ghost toc0 = toc@;
    let stripped = strip_anchors(contentv);
    append_str(toc, "<a href=\"#");
    append_chars(toc, idv);
    append_str(toc, "\">");
    append_chars(toc, num);
    toc.push(' ');
    append_chars(toc, &stripped);
    append_str(toc, "</a>");
    proof {
        reveal_strlit(" ");
        assert(toc@ =~= toc0 + toc_entry(idv@, num@, contentv@));
    }
}

/// Appends the rewritten heading element.
fn emit_heading(out: &mut Vec<char>, level: usize, idv: &Vec<char>, num: &Vec<char>, contentv: &Vec<
    char,
>)
    requires
        1 <= level <= 9,
    ensures
        final(out)@ == old(out)@ + heading_markup(level as int, num@, idv@, contentv@),
{
    let ghost out0 = out@;
    let dch = (48 + (level as u8)) as char;
    proof {
        assert(dch == digit_char(level as nat));
    }
    append_str(out, "<h");
    out.push(dch);
    append_str(out, "><a class=\"header\" href=\"#");
    append_chars(out, idv);
    append_str(out, "\" id=\"");
    append_chars(out, idv);
    append_str(out, "\">");
    append_chars(out, num);
    out.push(' ');
    append_chars(out, contentv);
    append_str(out, "</a></h");
    out.push(dch);
    append_str(out, ">");
    proof {
        reveal_strlit(" ");
        assert(out@ =~= out0 + heading_markup(level as int, num@, idv@, contentv@));
    }
}

/// Numbers every heading in `html`, builds the nested TOC, replaces the
/// document title by the reveal stub, and substitutes the finished TOC for
/// every `<!-- :toc: -->` placeholder token.
pub fn fix_header(html: &str) -> (r: String)
    ensures
        r@ == spec_fix_header(html@),
{
    let v = str_to_chars(html);
    let n = v.len();
    let tok = str_to_chars("<!-- :toc: -->");
    let mut counter: Vec<usize> = Vec::new();
    counter.push(0);
    let mut out: Vec<char> = Vec::new();
    let mut toc: Vec<char> = Vec::new();
    let mut toc_level: usize = 1;
    let ghost r0 = head_scan(v@, 0, seq![0usize], 1);
    proof {
        assert(counter@ =~= seq![0usize]);
        assert(out@ + r0.out =~= r0.out);
        assert(toc@ + r0.toc =~= r0.toc);
    }
    let mut i: usize = 0;
    while i < n
        invariant
            n == v@.len(),
            i <= n,
            tok@ == "<!-- :toc: -->"@,
            r0 == head_scan(v@, 0, seq![0usize], 1),
            1 <= toc_level <= 9,
            forall|k: int| 0 <= k < counter@.len() ==> counter@[k] <= i,
            r0.out == out@ + head_scan(v@, i as int, counter@, toc_level as int).out,
            r0.toc == toc@ + head_scan(v@, i as int, counter@, toc_level as int).toc,
            r0.toc_level == head_scan(v@, i as int, counter@, toc_level as int).toc_level,
        decreases n - i,
    {
        let ghost c_old = counter@;
        let ghost t_old = toc_level as int;
        let ghost out0 = out@;
        let ghost toc0 = toc@;
        match try_head_match(&v, i) {
            Some((level, c0, c1, end)) => {
                let ghost content = v@.subrange(c0 as int, c1 as int);
                advance_counter(&mut counter, level - 1, i);
                proof {
                    assert(counter@ == next_counter(c_old, level as int));
                }
                let contentv = copy_range(&v, c0, c1);
                if level == 1 {
                    emit_title(&mut out, &contentv);
                    proof {
                        let rest = head_scan(v@, end as int, counter@, toc_level as int);
                        assert(head_scan(v@, i as int, c_old, t_old).out == title_chunk(content)
                            + rest.out);
                        assert(head_scan(v@, i as int, c_old, t_old).toc == rest.toc);
                        assert(head_scan(v@, i as int, c_old, t_old).toc_level == rest.toc_level);
                        assert(out0 + (title_chunk(content) + rest.out) =~= (out0 + title_chunk(
                            content,
                        )) + rest.out);
                    }
                } else {
                    let num = render_number(&counter);
                    let idv = render_anchor_id(&counter);
                    adjust_toc(&mut toc, &mut toc_level, level);
                    let ghost toc1 = toc@;
                    emit_toc_entry(&mut toc, &idv, &num, &contentv);
                    emit_heading(&mut out, level, &idv, &num, &contentv);
                    proof {
                        let hm = heading_markup(level as int, num@, idv@, content);
                        let rest = head_scan(v@, end as int, counter@, level as int);
                        assert(head_scan(v@, i as int, c_old, t_old).out == hm + rest.out);
                        assert(head_scan(v@, i as int, c_old, t_old).toc == toc_adjust(
                            t_old,
                            level as int,
                        ) + toc_entry(idv@, num@, content) + rest.toc);
                        assert(head_scan(v@, i as int, c_old, t_old).toc_level == rest.toc_level);
                        assert(out0 + (hm + rest.out) =~= (out0 + hm) + rest.out);
                        assert(toc0 + (toc_adjust(t_old, level as int) + toc_entry(
                            idv@,
                            num@,
                            content,
                        ) + rest.toc) =~= toc@ + rest.toc);
                    }
                }
                i = end;
            },
            None => {
                out.push(v[i]);
                proof {
                    let rest = head_scan(v@, i + 1, c_old, t_old);
                    assert(head_scan(v@, i as int, c_old, t_old).out == seq![v@[i as int]]
                        + rest.out);
                    assert(head_scan(v@, i as int, c_old, t_old).toc == rest.toc);
                    assert(head_scan(v@, i as int, c_old, t_old).toc_level == rest.toc_level);
                    assert(out@ =~= out0 + seq![v@[i as int]]);
                    assert(out0 + (seq![v@[i as int]] + rest.out) =~= (out0 + seq![v@[i as int]])
                        + rest.out);
                }
                i = i + 1;
            },
        }
    }
    proof {
        assert(head_scan(v@, i as int, counter@, toc_level as int).out == Seq::<char>::empty());
        assert(out@ + Seq::<char>::empty() =~= out@);
        assert(toc@ + Seq::<char>::empty() =~= toc@);
        assert(r0.out == out@);
        assert(r0.toc == toc@);
        assert(r0.toc_level == toc_level as int);
    }
    let ghost t1 = toc_level as int;
    let ghost tocb = toc@;
    while toc_level > 1
        invariant
            1 <= toc_level,
            toc_level as int <= t1,
            toc@ == tocb + repeat("</li></ul>"@, t1 - toc_level),
        decreases toc_level,
    {
        append_str(&mut toc, "</li></ul>");
        toc_level = toc_level - 1;
        proof {
            assert(toc@ =~= tocb + repeat("</li></ul>"@, t1 - toc_level));
        }
    }
    proof {
        assert(toc@ == r0.toc + repeat("</li></ul>"@, r0.toc_level - 1));
    }
    let res = replace_all_lit(&out, &tok, &toc);
    chars_to_string(&res)
}

/// Over the whole scan, the difference between opened and closed TOC lists
/// is exactly the travel of the nesting level, which never drops below 1.
pub proof fn lemma_head_scan_level(s: Seq<char>, i: int, c: Seq<usize>, t: int)
    requires
        t >= 1,
    ensures
        head_scan(s, i, c, t).toc_level >= 1,
        head_scan(s, i, c, t).opens - head_scan(s, i, c, t).closes == head_scan(
            s,
            i,
            c,
            t,
        ).toc_level - t,
    decreases s.len() - i,
{
    if i < 0 || i >= s.len() {
    } else {
        match head_match_at(s, i) {
            Some(m) => {
                if i < m.3 <= s.len() {
                    let c2 = next_counter(c, m.0);
                    if m.0 == 1 {
                        lemma_head_scan_level(s, m.3, c2, t);
                    } else {
                        lemma_head_scan_level(s, m.3, c2, m.0);
                    }
                } else {
                    lemma_head_scan_level(s, i + 1, c, t);
                }
            },
            None => {
                lemma_head_scan_level(s, i + 1, c, t);
            },
        }
    }
}

/// TOC nesting is well-formed: run from the initial state, the scan opens
/// exactly as many lists as it closes plus the levels still open at the
/// end — and those are exactly what the final drain closes, so over the
/// whole pass open and close operations balance and the level returns to 1.
pub proof fn lemma_toc_balanced(s: Seq<char>)
    ensures
        head_scan(s, 0, seq![0usize], 1).toc_level >= 1,
        head_scan(s, 0, seq![0usize], 1).opens == head_scan(s, 0, seq![0usize], 1).closes + (
        head_scan(s, 0, seq![0usize], 1).toc_level - 1),
{
    lemma_head_scan_level(s, 0, seq![0usize], 1);
}

/// Heading levels in `s[i..]` (as the scan visits them) all stay at or
/// below `lmax`.
pub open spec fn levels_bounded(s: Seq<char>, i: int, lmax: int) -> bool
    decreases s.len() - i,
{
    if i < 0 || i >= s.len() {
        true
    } else {
        match head_match_at(s, i) {
            Some(m) => if i < m.3 <= s.len() {
                m.0 <= lmax && levels_bounded(s, m.3, lmax)
            } else {
                levels_bounded(s, i + 1, lmax)
            },
            None => levels_bounded(s, i + 1, lmax),
        }
    }
}

/// The TOC nesting level never exceeds the maximum heading level seen: when
/// every heading level is at most `lmax`, the scan's final nesting level is
/// at most the larger of the starting level and `lmax`.
pub proof fn lemma_toc_depth_bounded(s: Seq<char>, i: int, c: Seq<usize>, t: int, lmax: int)
    requires
        levels_bounded(s, i, lmax),
    ensures
        head_scan(s, i, c, t).toc_level <= if t > lmax {
            t
        } else {
            lmax
        },
    decreases s.len() - i,
{
    if i < 0 || i >= s.len() {
    } else {
        match head_match_at(s, i) {
            Some(m) => {
                if i < m.3 <= s.len() {
                    let c2 = next_counter(c, m.0);
                    if m.0 == 1 {
                        lemma_toc_depth_bounded(s, m.3, c2, t, lmax);
                    } else {
                        lemma_toc_depth_bounded(s, m.3, c2, m.0, lmax);
                    }
                } else {
                    lemma_toc_depth_bounded(s, i + 1, c, t, lmax);
                }
            },
            None => {
                lemma_toc_depth_bounded(s, i + 1, c, t, lmax);
            },
        }
    }
}


/// The progressive reveal ends on the whole title: the final snippet is the
/// HTML escape of the full stripped text, and unescaping it gives back
/// exactly the heading content with entities resolved and inline markup
/// stripped.
pub proof fn lemma_reveal_final(content: Seq<char>)
    ensures
        ({
            let plain = strip_tags_from(unesc_html_from(content, 0), 0);
            &&& esc_from(plain.subrange(0, plain.len() as int), 0) == esc_from(plain, 0)
            &&& unesc_html_from(esc_from(plain, 0), 0) == plain
        }),
{
    let plain = strip_tags_from(unesc_html_from(content, 0), 0);
    assert(plain.subrange(0, plain.len() as int) =~= plain);
    crate::text::lemma_unescape_escape(plain, 0);
    assert(plain.skip(0) =~= plain);
}

} // verus!


