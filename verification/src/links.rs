//! Link resolution: image sources rewritten to build-output paths through a
//! file map, anchors with scheme-qualified targets marked with an `outer`
//! class, and `[[ title ]]` wiki-references resolved to encoded URLs, marked
//! `no-link` when the title is unknown.

use vstd::prelude::*;
use vstd::string::StrSliceExecFns;
use vstd::string::StringExecFns;
use crate::chars::{
    append_chars, append_range, append_str, chars_to_string, copy_range, find_lit, find_lit_until,
    is_lit_at, lemma_find_lit_bounds, lemma_find_lit_until_bounds, lit_at, skip_spaces,
    spec_find_lit, spec_find_lit_until, spec_skip_spaces, str_to_chars,
};
use crate::pathnorm::{resolve_link, spec_resolve};

verus! {

/// A fatal image-link failure: the offending link and the source document.
pub enum LinkErrorSpec {
    OuterImage { link: Seq<char>, from: Seq<char> },
    AbsoluteImage { link: Seq<char>, from: Seq<char> },
    MissingImage { link: Seq<char>, from: Seq<char> },
}

/// A fatal image-link failure, carrying the offending link and the source
/// document it was found in. An image source that is scheme-qualified or
/// absolute, or that resolves to no file-map entry, stops the pass.
#[derive(Debug)]
pub enum LinkError {
    OuterImage { link: String, from: String },
    AbsoluteImage { link: String, from: String },
    MissingImage { link: String, from: String },
}

impl View for LinkError {
    type V = LinkErrorSpec;

    open spec fn view(&self) -> LinkErrorSpec {
        match self {
            LinkError::OuterImage { link, from } => LinkErrorSpec::OuterImage {
                link: link@,
                from: from@,
            },
            LinkError::AbsoluteImage { link, from } => LinkErrorSpec::AbsoluteImage {
                link: link@,
                from: from@,
            },
            LinkError::MissingImage { link, from } => LinkErrorSpec::MissingImage {
                link: link@,
                from: from@,
            },
        }
    }
}

/// The operator-facing description of a fatal image-link failure.
pub open spec fn spec_message(e: LinkErrorSpec) -> Seq<char> {
    match e {
        LinkErrorSpec::OuterImage { link, from } => "Image link "@ + link + " from \""@ + from
            + "\" that is using outer link"@,
        LinkErrorSpec::AbsoluteImage { link, from } => "Image link "@ + link + " from \""@ + from
            + "\" that is using absolute path"@,
        LinkErrorSpec::MissingImage { link, from } => "No image \""@ + link + "\" from \""@ + from
            + "\""@,
    }
}

impl LinkError {
    /// Formats the failure, naming the offending link and source document.
    pub fn message(&self) -> (r: String)
        ensures
            r@ == spec_message(self@),
    {
        match self {
            LinkError::OuterImage { link, from } => {
                let r = String::from_str("Image link ").concat(link.as_str()).concat(
                    " from \"",
                ).concat(from.as_str()).concat("\" that is using outer link");
                proof {
                    assert(r@ =~= spec_message(self@));
                }
                r
            },
            LinkError::AbsoluteImage { link, from } => {
                let r = String::from_str("Image link ").concat(link.as_str()).concat(
                    " from \"",
                ).concat(from.as_str()).concat("\" that is using absolute path");
                proof {
                    assert(r@ =~= spec_message(self@));
                }
                r
            },
            LinkError::MissingImage { link, from } => {
                let r = String::from_str("No image \"").concat(link.as_str()).concat(
                    "\" from \"",
                ).concat(from.as_str()).concat("\"");
                proof {
                    assert(r@ =~= spec_message(self@));
                }
                r
            },
        }
    }
}

pub open spec fn is_lower_alpha(c: char) -> bool {
    97 <= c as u32 <= 122
}

/// A character the scheme part of a URL may hold after its first letter.
pub open spec fn is_scheme_char(c: char) -> bool {
    is_lower_alpha(c) || (48 <= c as u32 <= 57) || c == '+' || c == '.' || c == '-'
}

/// Scans for a `:` terminating a run of scheme characters.
pub open spec fn scheme_scan(h: Seq<char>, j: int) -> bool
    decreases h.len() - j,
{
    if j < 0 || j >= h.len() {
        false
    } else if h[j] == ':' {
        true
    } else if is_scheme_char(h[j]) {
        scheme_scan(h, j + 1)
    } else {
        false
    }
}

/// The link starts with a URL scheme: a lower-case letter, then scheme
/// characters, then `:`.
pub open spec fn spec_is_scheme(h: Seq<char>) -> bool {
    h.len() >= 1 && is_lower_alpha(h[0]) && scheme_scan(h, 1)
}

/// Exec check for `spec_is_scheme`.
pub fn is_scheme_link(h: &Vec<char>) -> (b: bool)
    ensures
        b == spec_is_scheme(h@),
{
    if h.len() == 0 {
        return false;
    }
    let c0 = h[0] as u32;
    if !(97 <= c0 && c0 <= 122) {
        return false;
    }
    let mut j: usize = 1;
    loop
        invariant
            1 <= j <= h@.len(),
            h@.len() >= 1,
            is_lower_alpha(h@[0]),
            scheme_scan(h@, 1) == scheme_scan(h@, j as int),
        decreases h@.len() - j,
    {
        if j == h.len() {
            return false;
        }
        let c = h[j];
        if c == ':' {
            return true;
        }
        let cu = c as u32;
        if !((97 <= cu && cu <= 122) || (48 <= cu && cu <= 57) || c == '+' || c == '.' || c
            == '-') {
            return false;
        }
        proof {
            assert(scheme_scan(h@, j as int) == scheme_scan(h@, j + 1));
        }
        j = j + 1;
    }
}

/// First-match lookup in the file map, read as an association list.
pub open spec fn spec_lookup(m: Seq<(String, String)>, i: int, key: Seq<char>) -> Option<Seq<char>>
    decreases m.len() - i,
{
    if i < 0 || i >= m.len() {
        None
    } else if m[i].0@ == key {
        Some(m[i].1@)
    } else {
        spec_lookup(m, i + 1, key)
    }
}

/// The title set holds `t`.
pub open spec fn spec_has_title(ts: Seq<String>, i: int, t: Seq<char>) -> bool
    decreases ts.len() - i,
{
    if i < 0 || i >= ts.len() {
        false
    } else if ts[i]@ == t {
        true
    } else {
        spec_has_title(ts, i + 1, t)
    }
}

/// Character-wise equality of a `String` and a `Vec<char>`.
fn string_eq_chars(s: &String, v: &Vec<char>) -> (b: bool)
    ensures
        b == (s@ == v@),
{
    let st = s.as_str();
    let n = st.unicode_len();
    if n != v.len() {
        proof {
            assert(s@.len() != v@.len());
        }
        return false;
    }
    let mut i: usize = 0;
    while i < n
        invariant
            st@ == s@,
            n == s@.len(),
            n == v@.len(),
            i <= n,
            forall|k: int| 0 <= k < i ==> s@[k] == v@[k],
        decreases n - i,
    {
        if st.get_char(i) != v[i] {
            return false;
        }
        i = i + 1;
    }
    proof {
        assert(s@ =~= v@);
    }
    true
}

/// Looks the key up in the file map, first match first.
fn map_lookup(m: &Vec<(String, String)>, key: &Vec<char>) -> (r: Option<String>)
    ensures
        match r {
            Some(v) => spec_lookup(m@, 0, key@) == Some(v@),
            None => spec_lookup(m@, 0, key@) is None,
        },
{
    let mut i: usize = 0;
    while i < m.len()
        invariant
            i <= m@.len(),
            spec_lookup(m@, 0, key@) == spec_lookup(m@, i as int, key@),
        decreases m@.len() - i,
    {
        if string_eq_chars(&m[i].0, key) {
            return Some(m[i].1.clone());
        }
        proof {
            assert(spec_lookup(m@, i as int, key@) == spec_lookup(m@, i + 1, key@));
        }
        i = i + 1;
    }
    None
}

/// Tests whether the title set holds `t`.
fn has_title(ts: &Vec<String>, t: &Vec<char>) -> (b: bool)
    ensures
        b == spec_has_title(ts@, 0, t@),
{
    let mut i: usize = 0;
    while i < ts.len()
        invariant
            i <= ts@.len(),
            spec_has_title(ts@, 0, t@) == spec_has_title(ts@, i as int, t@),
        decreases ts@.len() - i,
    {
        if string_eq_chars(&ts[i], t) {
            return true;
        }
        proof {
            assert(spec_has_title(ts@, i as int, t@) == spec_has_title(ts@, i + 1, t@));
        }
        i = i + 1;
    }
    false
}

/// Unescapes `\\`, `\[` and `\]` inside a wiki-reference title; any other
/// character, backslash included, stands for itself.
pub open spec fn unesc_from(t: Seq<char>, i: int) -> Seq<char>
    decreases t.len() - i,
{
    if i < 0 || i >= t.len() {
        Seq::empty()
    } else if t[i] == '\\' && i + 1 < t.len() && (t[i + 1] == '\\' || t[i + 1] == '[' || t[i + 1]
        == ']') {
        seq![t[i + 1]] + unesc_from(t, i + 2)
    } else {
        seq![t[i]] + unesc_from(t, i + 1)
    }
}

/// Exec unescaping matching `unesc_from`.
fn unescape_title(t: &Vec<char>) -> (r: Vec<char>)
    ensures
        r@ == unesc_from(t@, 0),
{
    let mut out: Vec<char> = Vec::new();
    let mut i: usize = 0;
    while i < t.len()
        invariant
            i <= t@.len(),
            unesc_from(t@, 0) == out@ + unesc_from(t@, i as int),
        decreases t@.len() - i,
    {
        let ghost out0 = out@;
        let c = t[i];
        if c == '\\' && i + 1 < t.len() && (t[i + 1] == '\\' || t[i + 1] == '[' || t[i + 1]
            == ']') {
            out.push(t[i + 1]);
            proof {
                assert(out@ =~= out0 + seq![t@[i + 1]]);
                assert(unesc_from(t@, i as int) == seq![t@[i + 1]] + unesc_from(t@, i + 2));
                assert(out0 + (seq![t@[i + 1]] + unesc_from(t@, i + 2)) =~= (out0 + seq![
                    t@[i + 1],
                ]) + unesc_from(t@, i + 2));
            }
            i = i + 2;
        } else {
            out.push(c);
            proof {
                assert(out@ =~= out0 + seq![t@[i as int]]);
                assert(unesc_from(t@, i as int) == seq![t@[i as int]] + unesc_from(t@, i + 1));
                assert(out0 + (seq![t@[i as int]] + unesc_from(t@, i + 1)) =~= (out0 + seq![
                    t@[i as int],
                ]) + unesc_from(t@, i + 1));
            }
            i = i + 1;
        }
    }
    proof {
        assert(out@ + Seq::<char>::empty() =~= out@);
    }
    out
}

/// What the WHATWG URL parser makes of a string: the serialization of the
/// parsed URL, or nothing where the string does not parse. It depends on the
/// string alone.
pub uninterp spec fn url_normal_form(s: Seq<char>) -> Option<Seq<char>>;

/// Relies on `url::Url::parse` and `String`'s `From<url::Url>` impl: parsing
/// and reserializing a URL string is a function of that string alone.
#[verifier::external_body]
fn normalize_url(s: &str) -> (r: Option<String>)
    ensures
        match r {
            Some(u) => url_normal_form(s@) == Some(u@),
            None => url_normal_form(s@) is None,
        },
{
    match url::Url::parse(s) {
        Ok(u) => Some(String::from(u)),
        Err(_) => None,
    }
}

/// The serialized wiki URLs are built under this origin, which is stripped
/// again to leave a site-relative href.
pub open spec fn spec_origin() -> Seq<char> {
    "https://example.com"@
}

/// Drops every leading repetition of the origin.
pub open spec fn strip_origin_from(u: Seq<char>, i: int) -> Seq<char>
    decreases u.len() - i,
{
    if i < 0 || i > u.len() {
        Seq::empty()
    } else if spec_origin().len() > 0 && lit_at(u, i, spec_origin()) {
        strip_origin_from(u, i + spec_origin().len())
    } else {
        u.skip(i)
    }
}

/// Exec stripping matching `strip_origin_from`.
fn strip_origin(u: &Vec<char>) -> (r: Vec<char>)
    ensures
        r@ == strip_origin_from(u@, 0),
{
    let origin = str_to_chars("https://example.com");
    let n = u.len();
    let mut i: usize = 0;
    loop
        invariant
            origin@ == spec_origin(),
            n == u@.len(),
            i <= u@.len(),
            strip_origin_from(u@, 0) == strip_origin_from(u@, i as int),
        decreases u@.len() - i,
    {
        if is_lit_at(u, i, &origin) {
            proof {
                reveal_strlit("https://example.com");
                assert(strip_origin_from(u@, i as int) == strip_origin_from(
                    u@,
                    i + spec_origin().len(),
                ));
            }
            i = i + origin.len();
        } else {
            let r = copy_range(u, i, u.len());
            proof {
                assert(u@.subrange(i as int, u@.len() as int) =~= u@.skip(i as int));
            }
            return r;
        }
    }
}


/// An image tag starting at `p`: the literal `<img `, then (without crossing
/// a `>`) the literal `src="`, then a nonempty path up to the next `"`.
/// Yields `(k, m)`: the path stands in `s[k..m]`.
pub open spec fn img_match_at(s: Seq<char>, p: int) -> Option<(int, int)> {
    if lit_at(s, p, "<img "@) {
        match spec_find_lit_until(s, p + "<img "@.len(), "src=\""@, '>') {
            Some(j) => {
                let k = j + "src=\""@.len();
                match spec_find_lit(s, k, "\""@) {
                    Some(m) => if k < m {
                        Some((k, m))
                    } else {
                        None
                    },
                    None => None,
                }
            },
            None => None,
        }
    } else {
        None
    }
}

/// One left-to-right scan rewriting every image source: a scheme-qualified
/// or absolute path, or one missing from the file map, is a fatal error; a
/// valid relative path is resolved against the document's directory,
/// normalized, and replaced by its file-map entry.
pub open spec fn img_scan(s: Seq<char>, i: int, doc: Seq<char>, fm: Seq<(String, String)>) -> Result<
    Seq<char>,
    LinkErrorSpec,
>
    decreases s.len() - i,
{
    if i < 0 || i >= s.len() {
        Ok(Seq::empty())
    } else {
        match img_match_at(s, i) {
            Some(km) => if i < km.1 + 1 <= s.len() {
                let link = s.subrange(km.0, km.1);
                if spec_is_scheme(link) {
                    Err(LinkErrorSpec::OuterImage { link, from: doc })
                } else if link[0] == '/' {
                    Err(LinkErrorSpec::AbsoluteImage { link, from: doc })
                } else {
                    match spec_lookup(fm, 0, spec_resolve(doc, link)) {
                        None => Err(LinkErrorSpec::MissingImage { link, from: doc }),
                        Some(to) => match img_scan(s, km.1 + 1, doc, fm) {
                            Ok(rest) => Ok(s.subrange(i, km.0) + to + seq!['"'] + rest),
                            Err(e) => Err(e),
                        },
                    }
                }
            } else {
                match img_scan(s, i + 1, doc, fm) {
                    Ok(rest) => Ok(seq![s[i]] + rest),
                    Err(e) => Err(e),
                }
            },
            None => match img_scan(s, i + 1, doc, fm) {
                Ok(rest) => Ok(seq![s[i]] + rest),
                Err(e) => Err(e),
            },
        }
    }
}

fn try_img_match(s: &Vec<char>, i: usize, l_img: &Vec<char>, l_src: &Vec<char>, l_q: &Vec<char>) -> (r:
    Option<(usize, usize)>)
    requires
        l_img@ == "<img "@,
        l_src@ == "src=\""@,
        l_q@ == "\""@,
        i < s@.len(),
    ensures
        match r {
            Some(km) => {
                &&& i < km.0 < km.1
                &&& km.1 + 1 <= s@.len()
                &&& img_match_at(s@, i as int) == Some((km.0 as int, km.1 as int))
            },
            None => img_match_at(s@, i as int) is None,
        },
{
    let n = s.len();
    if !is_lit_at(s, i, l_img) {
        return None;
    }
    let p5 = i + l_img.len();
    match find_lit_until(s, p5, l_src, '>') {
        None => None,
        Some(j) => {
            proof {
                lemma_find_lit_until_bounds(s@, p5 as int, l_src@, '>');
            }
            let k = j + l_src.len();
            match find_lit(s, k, l_q) {
                None => None,
                Some(m) => {
                    proof {
                        lemma_find_lit_bounds(s@, k as int, l_q@);
                        reveal_strlit("\"");
                        reveal_strlit("<img ");
                        reveal_strlit("src=\"");
                    }
                    if m > k {
                        Some((k, m))
                    } else {
                        None
                    }
                },
            }
        },
    }
}

/// Rewrites every image source in `html`, or reports the first fatal link.
pub fn rewrite_images(html: &Vec<char>, doc: &Vec<char>, fm: &Vec<(String, String)>) -> (r: Result<
    Vec<char>,
    LinkError,
>)
    ensures
        match r {
            Ok(v) => img_scan(html@, 0, doc@, fm@) == Ok::<Seq<char>, LinkErrorSpec>(v@),
            Err(e) => img_scan(html@, 0, doc@, fm@) == Err::<Seq<char>, LinkErrorSpec>(e@),
        },
{
    let l_img = str_to_chars("<img ");
    let l_src = str_to_chars("src=\"");
    let l_q = str_to_chars("\"");
    let n = html.len();
    let mut out: Vec<char> = Vec::new();
    let mut i: usize = 0;
    while i < n
        invariant
            n == html@.len(),
            i <= n,
            l_img@ == "<img "@,
            l_src@ == "src=\""@,
            l_q@ == "\""@,
            match img_scan(html@, i as int, doc@, fm@) {
                Ok(rest) => img_scan(html@, 0, doc@, fm@) == Ok::<Seq<char>, LinkErrorSpec>(
                    out@ + rest,
                ),
                Err(e) => img_scan(html@, 0, doc@, fm@) == Err::<Seq<char>, LinkErrorSpec>(e),
            },
        decreases n - i,
    {
        let ghost out0 = out@;
        match try_img_match(html, i, &l_img, &l_src, &l_q) {
            Some((k, m)) => {
                let link = copy_range(html, k, m);
                let ghost linkv = html@.subrange(k as int, m as int);
                if is_scheme_link(&link) {
                    let e = LinkError::OuterImage {
                        link: chars_to_string(&link),
                        from: chars_to_string(doc),
                    };
                    proof {
                        assert(img_scan(html@, i as int, doc@, fm@) == Err::<
                            Seq<char>,
                            LinkErrorSpec,
                        >(LinkErrorSpec::OuterImage { link: linkv, from: doc@ }));
                    }
                    return Err(e);
                }
                if link[0] == '/' {
                    let e = LinkError::AbsoluteImage {
                        link: chars_to_string(&link),
                        from: chars_to_string(doc),
                    };
                    proof {
                        assert(img_scan(html@, i as int, doc@, fm@) == Err::<
                            Seq<char>,
                            LinkErrorSpec,
                        >(LinkErrorSpec::AbsoluteImage { link: linkv, from: doc@ }));
                    }
                    return Err(e);
                }
                let resolved = resolve_link(doc, &link);
                match map_lookup(fm, &resolved) {
                    None => {
                        let e = LinkError::MissingImage {
                            link: chars_to_string(&link),
                            from: chars_to_string(doc),
                        };
                        proof {
                            assert(img_scan(html@, i as int, doc@, fm@) == Err::<
                                Seq<char>,
                                LinkErrorSpec,
                            >(LinkErrorSpec::MissingImage { link: linkv, from: doc@ }));
                        }
                        return Err(e);
                    },
                    Some(to) => {
                        append_range(&mut out, html, i, k);
                        append_str(&mut out, to.as_str());
                        out.push('"');
                        proof {
                            let chunk = html@.subrange(i as int, k as int) + to@ + seq!['"'];
                            assert(out@ =~= out0 + chunk);
                            match img_scan(html@, m + 1, doc@, fm@) {
                                Ok(rest) => {
                                    assert(img_scan(html@, i as int, doc@, fm@) == Ok::<
                                        Seq<char>,
                                        LinkErrorSpec,
                                    >(chunk + rest));
                                    assert(out0 + (chunk + rest) =~= (out0 + chunk) + rest);
                                },
                                Err(e) => {
                                    assert(img_scan(html@, i as int, doc@, fm@) == Err::<
                                        Seq<char>,
                                        LinkErrorSpec,
                                    >(e));
                                },
                            }
                        }
                        i = m + 1;
                    },
                }
            },
            None => {
                out.push(html[i]);
                proof {
                    assert(out@ =~= out0 + seq![html@[i as int]]);
                    match img_scan(html@, i + 1, doc@, fm@) {
                        Ok(rest) => {
                            assert(img_scan(html@, i as int, doc@, fm@) == Ok::<
                                Seq<char>,
                                LinkErrorSpec,
                            >(seq![html@[i as int]] + rest));
                            assert(out0 + (seq![html@[i as int]] + rest) =~= (out0 + seq![
                                html@[i as int],
                            ]) + rest);
                        },
                        Err(e) => {
                            assert(img_scan(html@, i as int, doc@, fm@) == Err::<
                                Seq<char>,
                                LinkErrorSpec,
                            >(e));
                        },
                    }
                }
                i = i + 1;
            },
        }
    }
    proof {
        assert(out@ + Seq::<char>::empty() =~= out@);
    }
    Ok(out)
}


/// The attribute list holds a complete `class="..."` attribute.
pub open spec fn has_class_attr(attrs: Seq<char>) -> bool {
    match spec_find_lit(attrs, 0, "class=\""@) {
        Some(c) => spec_find_lit(attrs, c + "class=\""@.len(), "\""@) is Some,
        None => false,
    }
}

/// Appends ` outer` to the value of every complete `class="..."` attribute.
pub open spec fn class_scan(attrs: Seq<char>, i: int) -> Seq<char>
    decreases attrs.len() - i,
{
    if i < 0 || i >= attrs.len() {
        Seq::empty()
    } else if lit_at(attrs, i, "class=\""@) {
        match spec_find_lit(attrs, i + "class=\""@.len(), "\""@) {
            Some(q) => if i < q + 1 <= attrs.len() {
                "class=\""@ + attrs.subrange(i + "class=\""@.len(), q) + " outer\""@
                    + class_scan(attrs, q + 1)
            } else {
                seq![attrs[i]] + class_scan(attrs, i + 1)
            },
            None => seq![attrs[i]] + class_scan(attrs, i + 1),
        }
    } else {
        seq![attrs[i]] + class_scan(attrs, i + 1)
    }
}

/// The rewritten opening anchor tag for the attribute list `attrs`: when its
/// href is scheme-qualified, `outer` is appended to the existing class
/// attribute or a fresh `class="outer"` is added; a relative href, or a tag
/// without a complete href, is left as it stands.
pub open spec fn anchor_rewrite(attrs: Seq<char>) -> Seq<char> {
    let unchanged = "<a "@ + attrs + ">"@;
    match spec_find_lit(attrs, 0, "href=\""@) {
        None => unchanged,
        Some(h) => match spec_find_lit(attrs, h + "href=\""@.len(), "\""@) {
            None => unchanged,
            Some(v1) => {
                let href = attrs.subrange(h + "href=\""@.len(), v1);
                if !spec_is_scheme(href) {
                    unchanged
                } else if has_class_attr(attrs) {
                    "<a "@ + class_scan(attrs, 0) + ">"@
                } else {
                    "<a "@ + attrs + " class=\"outer\">"@
                }
            },
        },
    }
}

/// One left-to-right scan over `s` rewriting every single-line `<a ...>`
/// opening tag through `anchor_rewrite`.
pub open spec fn anchor_scan(s: Seq<char>, i: int) -> Seq<char>
    decreases s.len() - i,
{
    if i < 0 || i >= s.len() {
        Seq::empty()
    } else if lit_at(s, i, "<a "@) {
        match spec_find_lit_until(s, i + "<a "@.len(), ">"@, '\n') {
            Some(g) => if i < g + 1 <= s.len() && i + "<a "@.len() <= g {
                anchor_rewrite(s.subrange(i + "<a "@.len(), g)) + anchor_scan(s, g + 1)
            } else {
                seq![s[i]] + anchor_scan(s, i + 1)
            },
            None => seq![s[i]] + anchor_scan(s, i + 1),
        }
    } else {
        seq![s[i]] + anchor_scan(s, i + 1)
    }
}

fn class_rewrite(attrs: &Vec<char>) -> (out: Vec<char>)
    ensures
        out@ == class_scan(attrs@, 0),
{
    let l_class = str_to_chars("class=\"");
    let l_q = str_to_chars("\"");
    let n = attrs.len();
    let mut out: Vec<char> = Vec::new();
    let mut i: usize = 0;
    while i < n
        invariant
            n == attrs@.len(),
            i <= n,
            l_class@ == "class=\""@,
            l_q@ == "\""@,
            class_scan(attrs@, 0) == out@ + class_scan(attrs@, i as int),
        decreases n - i,
    {
        let ghost out0 = out@;
        let mut stepped = false;
        if is_lit_at(attrs, i, &l_class) {
            let v0 = i + l_class.len();
            match find_lit(attrs, v0, &l_q) {
                Some(q) => {
                    proof {
                        lemma_find_lit_bounds(attrs@, v0 as int, l_q@);
                        reveal_strlit("\"");
                        reveal_strlit("class=\"");
                    }
                    append_chars(&mut out, &l_class);
                    append_range(&mut out, attrs, v0, q);
                    append_str(&mut out, " outer\"");
                    proof {
                        let val = attrs@.subrange(v0 as int, q as int);
                        let chunk = "class=\""@ + val + " outer\""@;
                        assert(out@ =~= out0 + chunk);
                        assert(class_scan(attrs@, i as int) == chunk + class_scan(attrs@, q + 1));
                        assert(out0 + (chunk + class_scan(attrs@, q + 1)) =~= (out0 + chunk)
                            + class_scan(attrs@, q + 1));
                    }
                    i = q + 1;
                    stepped = true;
                },
                None => {
                    proof {
                        assert(class_scan(attrs@, i as int) == seq![attrs@[i as int]] + class_scan(
                            attrs@,
                            i + 1,
                        ));
                    }
                },
            }
        }
        if !stepped {
            out.push(attrs[i]);
            proof {
                assert(class_scan(attrs@, i as int) == seq![attrs@[i as int]] + class_scan(
                    attrs@,
                    i + 1,
                ));
                assert(out@ =~= out0 + seq![attrs@[i as int]]);
                assert(out0 + (seq![attrs@[i as int]] + class_scan(attrs@, i + 1)) =~= (out0
                    + seq![attrs@[i as int]]) + class_scan(attrs@, i + 1));
            }
            i = i + 1;
        }
    }
    proof {
        assert(out@ + Seq::<char>::empty() =~= out@);
    }
    out
}

fn unchanged_tag(attrs: &Vec<char>) -> (r: Vec<char>)
    ensures
        r@ == "<a "@ + attrs@ + ">"@,
{
    let mut r = str_to_chars("<a ");
    append_chars(&mut r, attrs);
    append_str(&mut r, ">");
    proof {
        assert(r@ =~= "<a "@ + attrs@ + ">"@);
    }
    r
}

fn rewrite_anchor_attrs(attrs: &Vec<char>) -> (r: Vec<char>)
    ensures
        r@ == anchor_rewrite(attrs@),
{
    let n = attrs.len();
    let l_href = str_to_chars("href=\"");
    let l_q = str_to_chars("\"");
    match find_lit(attrs, 0, &l_href) {
        None => unchanged_tag(attrs),
        Some(h) => {
            proof {
                lemma_find_lit_bounds(attrs@, 0, l_href@);
            }
            let v0 = h + l_href.len();
            match find_lit(attrs, v0, &l_q) {
                None => unchanged_tag(attrs),
                Some(v1) => {
                    proof {
                        lemma_find_lit_bounds(attrs@, v0 as int, l_q@);
                    }
                    let href = copy_range(attrs, v0, v1);
                    if !is_scheme_link(&href) {
                        unchanged_tag(attrs)
                    } else {
                        let l_class = str_to_chars("class=\"");
                        let has = match find_lit(attrs, 0, &l_class) {
                            None => false,
                            Some(c) => {
                                proof {
                                    lemma_find_lit_bounds(attrs@, 0, l_class@);
                                }
                                let c2 = c + l_class.len();
                                match find_lit(attrs, c2, &l_q) {
                                    Some(_) => true,
                                    None => false,
                                }
                            },
                        };
                        if has {
                            let mid = class_rewrite(attrs);
                            let mut r = str_to_chars("<a ");
                            append_chars(&mut r, &mid);
                            append_str(&mut r, ">");
                            proof {
                                assert(r@ =~= "<a "@ + class_scan(attrs@, 0) + ">"@);
                            }
                            r
                        } else {
                            let mut r = str_to_chars("<a ");
                            append_chars(&mut r, attrs);
                            append_str(&mut r, " class=\"outer\">");
                            proof {
                                assert(r@ =~= "<a "@ + attrs@ + " class=\"outer\">"@);
                            }
                            r
                        }
                    }
                },
            }
        },
    }
}

/// Marks every scheme-qualified anchor in `html` with an `outer` class.
pub fn rewrite_anchors(html: &Vec<char>) -> (out: Vec<char>)
    ensures
        out@ == anchor_scan(html@, 0),
{
    let l_a = str_to_chars("<a ");
    let l_gt = str_to_chars(">");
    let n = html.len();
    let mut out: Vec<char> = Vec::new();
    let mut i: usize = 0;
    while i < n
        invariant
            n == html@.len(),
            i <= n,
            l_a@ == "<a "@,
            l_gt@ == ">"@,
            anchor_scan(html@, 0) == out@ + anchor_scan(html@, i as int),
        decreases n - i,
    {
        let ghost out0 = out@;
        let mut stepped = false;
        if is_lit_at(html, i, &l_a) {
            let a0 = i + l_a.len();
            match find_lit_until(html, a0, &l_gt, '\n') {
                Some(g) => {
                    proof {
                        lemma_find_lit_until_bounds(html@, a0 as int, l_gt@, '\n');
                        reveal_strlit(">");
                        reveal_strlit("<a ");
                    }
                    let attrs = copy_range(html, a0, g);
                    let tag = rewrite_anchor_attrs(&attrs);
                    append_chars(&mut out, &tag);
                    proof {
                        let chunk = anchor_rewrite(html@.subrange(a0 as int, g as int));
                        assert(out@ =~= out0 + chunk);
                        assert(anchor_scan(html@, i as int) == chunk + anchor_scan(html@, g + 1));
                        assert(out0 + (chunk + anchor_scan(html@, g + 1)) =~= (out0 + chunk)
                            + anchor_scan(html@, g + 1));
                    }
                    i = g + 1;
                    stepped = true;
                },
                None => {
                    proof {
                        assert(anchor_scan(html@, i as int) == seq![html@[i as int]] + anchor_scan(
                            html@,
                            i + 1,
                        ));
                    }
                },
            }
        }
        if !stepped {
            out.push(html[i]);
            proof {
                assert(anchor_scan(html@, i as int) == seq![html@[i as int]] + anchor_scan(
                    html@,
                    i + 1,
                ));
                assert(out@ =~= out0 + seq![html@[i as int]]);
                assert(out0 + (seq![html@[i as int]] + anchor_scan(html@, i + 1)) =~= (out0
                    + seq![html@[i as int]]) + anchor_scan(html@, i + 1));
            }
            i = i + 1;
        }
    }
    proof {
        assert(out@ + Seq::<char>::empty() =~= out@);
    }
    out
}


/// From `e` on: one or more spaces run straight into the closing `]]`.
pub open spec fn spaces_then_close(s: Seq<char>, e: int) -> bool {
    0 <= e < s.len() && s[e] == ' ' && lit_at(s, spec_skip_spaces(s, e), "]]"@)
}

/// The earliest position at or after `e` where a space run followed by `]]`
/// closes a wiki-reference; a newline ends the search.
pub open spec fn wiki_close_search(s: Seq<char>, e: int) -> Option<int>
    decreases s.len() - e,
{
    if e < 0 || e >= s.len() {
        None
    } else if spaces_then_close(s, e) {
        Some(e)
    } else if s[e] == '\n' {
        None
    } else {
        wiki_close_search(s, e + 1)
    }
}

/// A `[[ title ]]` token starting at `p`: the opening brackets, at least one
/// space, a nonempty single-line title starting at its first non-space
/// character, at least one space, and the closing brackets. Yields
/// `(t0, t1, end)`: the raw title stands in `s[t0..t1]` and `end` is just
/// past `]]`.
pub open spec fn wiki_match_at(s: Seq<char>, p: int) -> Option<(int, int, int)> {
    if lit_at(s, p, "[["@) && p + 2 < s.len() && s[p + 2] == ' ' {
        let t0 = spec_skip_spaces(s, p + 2);
        if t0 < s.len() && s[t0] != '\n' {
            match wiki_close_search(s, t0 + 1) {
                Some(e) => Some((t0, e, spec_skip_spaces(s, e) + 2)),
                None => None,
            }
        } else {
            None
        }
    } else {
        None
    }
}

/// The anchor a wiki-reference becomes: a known title gets a plain link, an
/// unknown one the `no-link` class marking a forward reference.
pub open spec fn wiki_anchor(title: Seq<char>, href: Seq<char>, known: bool) -> Seq<char> {
    if known {
        "<a href=\""@ + href + "\">"@ + title + "</a>"@
    } else {
        "<a class=\"no-link\" href=\""@ + href + "\">"@ + title + "</a>"@
    }
}

/// One left-to-right scan resolving every `[[ title ]]` token: the title is
/// unescaped, embedded under the `/w/` namespace of the fixed origin, run
/// through the URL parser's normal form, and the origin stripped again. A
/// title the URL parser refuses is left as written.
pub open spec fn wiki_scan(s: Seq<char>, i: int, ts: Seq<String>) -> Seq<char>
    decreases s.len() - i,
{
    if i < 0 || i >= s.len() {
        Seq::empty()
    } else {
        match wiki_match_at(s, i) {
            Some(m) => if i < m.2 <= s.len() && i <= m.0 <= m.1 <= s.len() {
                let title = unesc_from(s.subrange(m.0, m.1), 0);
                match url_normal_form("https://example.com/w/"@ + title) {
                    None => s.subrange(i, m.2) + wiki_scan(s, m.2, ts),
                    Some(u) => wiki_anchor(title, strip_origin_from(u, 0), spec_has_title(ts, 0, title))
                        + wiki_scan(s, m.2, ts),
                }
            } else {
                seq![s[i]] + wiki_scan(s, i + 1, ts)
            },
            None => seq![s[i]] + wiki_scan(s, i + 1, ts),
        }
    }
}

fn find_wiki_close(s: &Vec<char>, from: usize, l_close: &Vec<char>) -> (r: Option<usize>)
    requires
        l_close@ == "]]"@,
        from <= s@.len(),
    ensures
        match r {
            Some(e) => wiki_close_search(s@, from as int) == Some(e as int) && from <= e
                < s@.len() && spaces_then_close(s@, e as int),
            None => wiki_close_search(s@, from as int) is None,
        },
{
    let n = s.len();
    let mut i: usize = from;
    loop
        invariant
            from <= i <= n,
            n == s@.len(),
            l_close@ == "]]"@,
            wiki_close_search(s@, from as int) == wiki_close_search(s@, i as int),
        decreases n - i,
    {
        if i >= s.len() {
            return None;
        }
        let c = s[i];
        if c == ' ' {
            let a = skip_spaces(s, i);
            if is_lit_at(s, a, l_close) {
                proof {
                    assert(spaces_then_close(s@, i as int));
                }
                return Some(i);
            }
            proof {
                assert(!spaces_then_close(s@, i as int));
                assert(wiki_close_search(s@, i as int) == wiki_close_search(s@, i + 1));
            }
            i = i + 1;
        } else if c == '\n' {
            proof {
                assert(!spaces_then_close(s@, i as int));
            }
            return None;
        } else {
            proof {
                assert(!spaces_then_close(s@, i as int));
                assert(wiki_close_search(s@, i as int) == wiki_close_search(s@, i + 1));
            }
            i = i + 1;
        }
    }
}

fn try_wiki_match(s: &Vec<char>, i: usize, l_open: &Vec<char>, l_close: &Vec<char>) -> (r: Option<
    (usize, usize, usize),
>)
    requires
        l_open@ == "[["@,
        l_close@ == "]]"@,
        i < s@.len(),
    ensures
        match r {
            Some(m) => {
                &&& i <= m.0 <= m.1 <= s@.len()
                &&& i < m.2 <= s@.len()
                &&& wiki_match_at(s@, i as int) == Some((m.0 as int, m.1 as int, m.2 as int))
            },
            None => wiki_match_at(s@, i as int) is None,
        },
{
    let n = s.len();
    if !is_lit_at(s, i, l_open) {
        return None;
    }
    proof {
        reveal_strlit("[[");
        reveal_strlit("]]");
    }
    let p2 = i + 2;
    if p2 >= s.len() {
        return None;
    }
    if s[p2] != ' ' {
        return None;
    }
    let t0 = skip_spaces(s, p2);
    if t0 >= s.len() {
        return None;
    }
    if s[t0] == '\n' {
        return None;
    }
    match find_wiki_close(s, t0 + 1, l_close) {
        None => None,
        Some(e) => {
            let a = skip_spaces(s, e);
            proof {
                assert(spaces_then_close(s@, e as int));
            }
            let end = a + 2;
            Some((t0, e, end))
        },
    }
}

/// Resolves every wiki-reference in `html` against the title set.
pub fn rewrite_wiki(html: &Vec<char>, titles: &Vec<String>) -> (out: Vec<char>)
    ensures
        out@ == wiki_scan(html@, 0, titles@),
{
    let l_open = str_to_chars("[[");
    let l_close = str_to_chars("]]");
    let n = html.len();
    let mut out: Vec<char> = Vec::new();
    let mut i: usize = 0;
    while i < n
        invariant
            n == html@.len(),
            i <= n,
            l_open@ == "[["@,
            l_close@ == "]]"@,
            wiki_scan(html@, 0, titles@) == out@ + wiki_scan(html@, i as int, titles@),
        decreases n - i,
    {
        let ghost out0 = out@;
        match try_wiki_match(html, i, &l_open, &l_close) {
            Some((t0, t1, end)) => {
                let raw = copy_range(html, t0, t1);
                let title = unescape_title(&raw);
                let ghost titlev = unesc_from(html@.subrange(t0 as int, t1 as int), 0);
                let mut input = str_to_chars("https://example.com/w/");
                append_chars(&mut input, &title);
                proof {
                    assert(input@ =~= "https://example.com/w/"@ + titlev);
                }
                let input_s = chars_to_string(&input);
                match normalize_url(input_s.as_str()) {
                    None => {
                        append_range(&mut out, html, i, end);
                        proof {
                            let chunk = html@.subrange(i as int, end as int);
                            assert(wiki_scan(html@, i as int, titles@) == chunk + wiki_scan(
                                html@,
                                end as int,
                                titles@,
                            ));
                            assert(out0 + (chunk + wiki_scan(html@, end as int, titles@)) =~= (out0
                                + chunk) + wiki_scan(html@, end as int, titles@));
                        }
                    },
                    Some(u) => {
                        let uv = str_to_chars(u.as_str());
                        let href = strip_origin(&uv);
                        let known = has_title(titles, &title);
                        if known {
                            append_str(&mut out, "<a href=\"");
                            append_chars(&mut out, &href);
                            append_str(&mut out, "\">");
                            append_chars(&mut out, &title);
                            append_str(&mut out, "</a>");
                        } else {
                            append_str(&mut out, "<a class=\"no-link\" href=\"");
                            append_chars(&mut out, &href);
                            append_str(&mut out, "\">");
                            append_chars(&mut out, &title);
                            append_str(&mut out, "</a>");
                        }
                        proof {
                            let chunk = wiki_anchor(titlev, strip_origin_from(u@, 0), spec_has_title(
                                titles@, 0, titlev));
                            assert(out@ =~= out0 + chunk);
                            assert(wiki_scan(html@, i as int, titles@) == chunk + wiki_scan(
                                html@,
                                end as int,
                                titles@,
                            ));
                            assert(out0 + (chunk + wiki_scan(html@, end as int, titles@)) =~= (out0
                                + chunk) + wiki_scan(html@, end as int, titles@));
                        }
                    },
                }
                i = end;
            },
            None => {
                out.push(html[i]);
                proof {
                    assert(wiki_scan(html@, i as int, titles@) == seq![html@[i as int]]
                        + wiki_scan(html@, i + 1, titles@));
                    assert(out@ =~= out0 + seq![html@[i as int]]);
                    assert(out0 + (seq![html@[i as int]] + wiki_scan(html@, i + 1, titles@)) =~= (
                    out0 + seq![html@[i as int]]) + wiki_scan(html@, i + 1, titles@));
                }
                i = i + 1;
            },
        }
    }
    proof {
        assert(out@ + Seq::<char>::empty() =~= out@);
    }
    out
}

/// The whole link pass: image sources first, then external anchors, then
/// wiki-references. The first fatal image failure stops everything.
pub open spec fn spec_fix_link(s: Seq<char>, doc: Seq<char>, fm: Seq<(String, String)>, ts: Seq<
    String,
>) -> Result<Seq<char>, LinkErrorSpec> {
    match img_scan(s, 0, doc, fm) {
        Ok(s1) => Ok(wiki_scan(anchor_scan(s1, 0), 0, ts)),
        Err(e) => Err(e),
    }
}

/// Rewrites every link in `html` for the document at `path`: image sources
/// are resolved through `file_map` (a fatal error names any scheme-qualified,
/// absolute or unmapped image together with the document), scheme-qualified
/// anchors gain an `outer` class, and `[[ title ]]` references become links
/// under `/w/`, marked `no-link` when `titles` does not hold the title.
pub fn fix_link(html: &str, path: &str, file_map: &Vec<(String, String)>, titles: &Vec<String>) -> (r:
    Result<String, LinkError>)
    ensures
        match r {
            Ok(out) => spec_fix_link(html@, path@, file_map@, titles@) == Ok::<
                Seq<char>,
                LinkErrorSpec,
            >(out@),
            Err(e) => spec_fix_link(html@, path@, file_map@, titles@) == Err::<
                Seq<char>,
                LinkErrorSpec,
            >(e@),
        },
{
    let v = str_to_chars(html);
    let d = str_to_chars(path);
    match rewrite_images(&v, &d, file_map) {
        Err(e) => Err(e),
        Ok(v1) => {
            let v2 = rewrite_anchors(&v1);
            let v3 = rewrite_wiki(&v2, titles);
            Ok(chars_to_string(&v3))
        },
    }
}

} // verus!



