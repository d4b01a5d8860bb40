use postprocess::chars::{chars_to_string, str_to_chars};
use postprocess::footnotes::fix_footnotes;
use postprocess::headings::fix_header;
use postprocess::links::{fix_link, LinkError};
use postprocess::metadata::{add_github_info, GithubInfo};
use postprocess::pathnorm::simplify;
use postprocess::text::{escape_html, unescape_html};

#[test]
fn heading_numbers_and_toc() {
    let html = "<h1>T</h1><h2>a</h2><h3>b</h3><h2>c</h2><h3>d</h3><h3>e</h3><h2>f</h2><!-- :toc: -->";
    let out = fix_header(html);
    assert!(out.contains(r##"<h2><a class="header" href="#s-1-" id="s-1-">1. a</a></h2>"##));
    assert!(out.contains(r##"<h3><a class="header" href="#s-1-1-" id="s-1-1-">1.1. b</a></h3>"##));
    assert!(out.contains(r##"<h2><a class="header" href="#s-2-" id="s-2-">2. c</a></h2>"##));
    assert!(out.contains(r##"<h3><a class="header" href="#s-2-1-" id="s-2-1-">2.1. d</a></h3>"##));
    assert!(out.contains(r##"<h3><a class="header" href="#s-2-2-" id="s-2-2-">2.2. e</a></h3>"##));
    assert!(out.contains(r##"<h2><a class="header" href="#s-3-" id="s-3-">3. f</a></h2>"##));
    let toc = r##"<ul><li><a href="#s-1-">1. a</a><ul><li><a href="#s-1-1-">1.1. b</a></li></ul></li><li><a href="#s-2-">2. c</a><ul><li><a href="#s-2-1-">2.1. d</a></li><li><a href="#s-2-2-">2.2. e</a></li></ul></li><li><a href="#s-3-">3. f</a></li></ul>"##;
    assert!(out.ends_with(toc));
    assert!(!out.contains("<!-- :toc: -->"));
}

#[test]
fn heading_numbers_deep_nesting() {
    let html = "<h1>T</h1><h2>a</h2><h3>b</h3><h4>c</h4><h3>d</h3><h4>e</h4><h4>f</h4><h3>g</h3>";
    let out = fix_header(html);
    assert!(out.contains(">1. a</a>"));
    assert!(out.contains(">1.1. b</a>"));
    assert!(out.contains(">1.1.1. c</a>"));
    assert!(out.contains(">1.2. d</a>"));
    assert!(out.contains(">1.2.1. e</a>"));
    assert!(out.contains(">1.2.2. f</a>"));
    assert!(out.contains(">1.3. g</a>"));
}

#[test]
fn heading_skipped_level_keeps_zero() {
    let html = "<h2>a</h2><h4>b</h4><!-- :toc: -->";
    let out = fix_header(html);
    assert!(out.contains(r##"<h4><a class="header" href="#s-1-0-1-" id="s-1-0-1-">1.0.1. b</a></h4>"##));
    assert!(out.contains(r##"<ul><li><a href="#s-1-">1. a</a><ul><li><ul><li><a href="#s-1-0-1-">1.0.1. b</a></li></ul></li></ul></li></ul>"##));
}

#[test]
fn heading_toc_in_link_stripped() {
    let html = r##"<h2>see <a href="/x">here</a></h2><!-- :toc: -->"##;
    let out = fix_header(html);
    assert!(out.contains(r##"<a href="#s-1-">1. see here</a>"##));
    assert!(out.contains(r##"<h2><a class="header" href="#s-1-" id="s-1-">1. see <a href="/x">here</a></a></h2>"##));
}

#[test]
fn title_reveal_snippets() {
    let html = "<h1>A &amp; <em>B</em></h1>";
    let out = fix_header(html);
    assert!(out.contains(r##"let s = ["A", "A ", "A &amp;", "A &amp; ", "A &amp; B"];"##));
    assert!(out.contains(r##"<h1 class="header title">_</h1>"##));
    let last = str_to_chars("A &amp; B");
    let unescaped = chars_to_string(&unescape_html(&last));
    assert_eq!(unescaped, "A & B");
}

#[test]
fn escape_unescape_round_trip() {
    let original = str_to_chars("a<b>&\"'c");
    let escaped = escape_html(&original);
    assert_eq!(chars_to_string(&escaped), "a&lt;b&gt;&amp;&quot;&#39;c");
    let back = unescape_html(&escaped);
    assert_eq!(chars_to_string(&back), "a<b>&\"'c");
}

#[test]
fn simplify_collapses_segments() {
    let p = str_to_chars("docs/./img/../images/a.png");
    assert_eq!(chars_to_string(&simplify(&p)), "docs/images/a.png");
    let q = str_to_chars("../a//b/./c");
    assert_eq!(chars_to_string(&simplify(&q)), "../a/b/c");
}

fn sample_map() -> Vec<(String, String)> {
    vec![("docs/images/a.png".to_string(), "out/img1.png".to_string())]
}

#[test]
fn image_link_rewritten_through_map() {
    let html = r##"<p><img alt="x" src="images/a.png"></p>"##;
    let out = fix_link(html, "docs/x.md", &sample_map(), &Vec::new()).unwrap();
    assert_eq!(out, r##"<p><img alt="x" src="out/img1.png"></p>"##);
}

#[test]
fn image_link_absolute_is_fatal() {
    let html = r##"<img src="/abs/a.png">"##;
    match fix_link(html, "docs/x.md", &sample_map(), &Vec::new()) {
        Err(LinkError::AbsoluteImage { link, from }) => {
            assert_eq!(link, "/abs/a.png");
            assert_eq!(from, "docs/x.md");
        }
        other => panic!("expected an absolute-path failure, got {:?}", other),
    }
}

#[test]
fn image_link_scheme_is_fatal() {
    let html = r##"<img src="http://x/a.png">"##;
    match fix_link(html, "docs/x.md", &sample_map(), &Vec::new()) {
        Err(LinkError::OuterImage { link, from }) => {
            assert_eq!(link, "http://x/a.png");
            assert_eq!(from, "docs/x.md");
            let e = LinkError::OuterImage { link, from };
            let msg = e.message();
            assert!(msg.contains("http://x/a.png"));
            assert!(msg.contains("docs/x.md"));
        }
        other => panic!("expected an outer-link failure, got {:?}", other),
    }
}

#[test]
fn image_link_unmapped_is_fatal() {
    let html = r##"<img src="images/missing.png">"##;
    match fix_link(html, "docs/x.md", &sample_map(), &Vec::new()) {
        Err(LinkError::MissingImage { link, from }) => {
            assert_eq!(link, "images/missing.png");
            assert_eq!(from, "docs/x.md");
        }
        other => panic!("expected a missing-image failure, got {:?}", other),
    }
}

#[test]
fn outer_anchor_gains_class() {
    let html = r##"<a href="http://example.com">x</a>"##;
    let out = fix_link(html, "d.md", &Vec::new(), &Vec::new()).unwrap();
    assert_eq!(out, r##"<a href="http://example.com" class="outer">x</a>"##);
}

#[test]
fn outer_anchor_appends_to_existing_class() {
    let html = r##"<a class="btn" href="https://example.org/p">x</a>"##;
    let out = fix_link(html, "d.md", &Vec::new(), &Vec::new()).unwrap();
    assert_eq!(out, r##"<a class="btn outer" href="https://example.org/p">x</a>"##);
}

#[test]
fn local_anchor_unchanged() {
    let html = r##"<a href="/local">x</a>"##;
    let out = fix_link(html, "d.md", &Vec::new(), &Vec::new()).unwrap();
    assert_eq!(out, html);
}

#[test]
fn wiki_reference_known_title() {
    let titles = vec!["Some Title".to_string()];
    let out = fix_link("[[ Some Title ]]", "d.md", &Vec::new(), &titles).unwrap();
    assert_eq!(out, r##"<a href="/w/Some%20Title">Some Title</a>"##);
}

#[test]
fn wiki_reference_unknown_title() {
    let out = fix_link("[[ Some Title ]]", "d.md", &Vec::new(), &Vec::new()).unwrap();
    assert_eq!(out, r##"<a class="no-link" href="/w/Some%20Title">Some Title</a>"##);
}

#[test]
fn wiki_reference_unescapes_brackets() {
    let titles = vec!["A]B".to_string()];
    let out = fix_link(r"[[ A\]B ]]", "d.md", &Vec::new(), &titles).unwrap();
    assert!(out.starts_with(r##"<a href="/w/A"##));
    assert!(out.ends_with(r##">A]B</a>"##));
}

#[test]
fn footnote_pair_cross_linked() {
    let html = format!(
        "{}\n{}",
        r##"<sup class="footnote-reference"><a href="#1">1</a></sup>"##,
        r##"<div class="footnote-definition" id="1"><sup class="footnote-definition-label">1</sup><p>note</p></div>"##,
    );
    let out = fix_footnotes(&html);
    assert!(out.contains(r##"<sup class="footnote-reference"><a href="#f-1" id="b-1">1</a></sup>"##));
    assert!(out.contains(
        r##"<div class="footnote-definition" id="f-1"><sup class="footnote-definition-label"><a href="#b-1">1</a></sup><p>note</p></div>"##
    ));
}

#[test]
fn github_info_fills_map() {
    let mut data = serde_json::Map::new();
    let info = GithubInfo {
        time: "2024-01-01".to_string(),
        contributors: "<ul>c</ul>".to_string(),
        history: "h".to_string(),
        edit: "e".to_string(),
        view_issue: "vi".to_string(),
        make_issue: "mi".to_string(),
        view_in_github: "vg".to_string(),
        view_in_github_mobile: "vgm".to_string(),
        make_issue_mobile: "mim".to_string(),
        view_issue_mobile: "vim".to_string(),
    };
    add_github_info(&mut data, &info);
    assert_eq!(
        data.get("time"),
        Some(&serde_json::Value::String("최근 수정 시각: 2024-01-01".to_string()))
    );
    assert_eq!(
        data.get("github_contributors"),
        Some(&serde_json::Value::String("<ul>c</ul>".to_string()))
    );
    assert_eq!(
        data.get("github_view_issue_mobile"),
        Some(&serde_json::Value::String("vim".to_string()))
    );
    assert_eq!(data.len(), 10);
}
