use postprocess::fix_footnotes;
use postprocess::fix_header;
use postprocess::fix_link;
use postprocess::LinkError;

#[test]
fn header_pass_without_headings_keeps_text() {
    let html = "<p>plain paragraph</p>";
    assert_eq!(fix_header(html), html);
}

#[test]
fn header_pass_empty_input() {
    assert_eq!(fix_header(""), "");
}

#[test]
fn toc_token_without_headings_becomes_empty() {
    let out = fix_header("a<!-- :toc: -->b");
    assert_eq!(out, "ab");
}

#[test]
fn toc_lists_balance() {
    let out = fix_header("<h2>a</h2><h4>b</h4><h2>c</h2><!-- :toc: -->");
    let opens = out.matches("<ul>").count();
    let closes = out.matches("</ul>").count();
    assert_eq!(opens, closes);
}

#[test]
fn empty_title_heading_gets_empty_reveal_list() {
    let out = fix_header("<h1></h1>");
    assert!(out.contains("let s = [];"));
    assert!(out.contains(r##"<h1 class="header title">_</h1>"##));
}

#[test]
fn unclosed_heading_left_alone() {
    let html = "<h2>never closed";
    assert_eq!(fix_header(html), html);
}

#[test]
fn anchor_without_href_left_alone() {
    let html = r##"<a name="top">y</a>"##;
    let out = fix_link(html, "d.md", &Vec::new(), &Vec::new()).unwrap();
    assert_eq!(out, html);
}

#[test]
fn scheme_with_digits_and_punctuation_is_outer() {
    let html = r##"<a href="x1+.-:y">z</a>"##;
    let out = fix_link(html, "d.md", &Vec::new(), &Vec::new()).unwrap();
    assert_eq!(out, r##"<a href="x1+.-:y" class="outer">z</a>"##);
}

#[test]
fn mailto_anchor_is_outer() {
    let html = r##"<a href="mailto:a@b">m</a>"##;
    let out = fix_link(html, "d.md", &Vec::new(), &Vec::new()).unwrap();
    assert_eq!(out, r##"<a href="mailto:a@b" class="outer">m</a>"##);
}

#[test]
fn image_parent_traversal_resolved() {
    let map = vec![("docs/images/a.png".to_string(), "out/img1.png".to_string())];
    let html = r##"<img src="../images/a.png">"##;
    let out = fix_link(html, "docs/sub/x.md", &map, &Vec::new()).unwrap();
    assert_eq!(out, r##"<img src="out/img1.png">"##);
}

#[test]
fn absolute_image_message_text() {
    let e = LinkError::AbsoluteImage { link: "/abs/a.png".to_string(), from: "docs/x.md".to_string() };
    assert_eq!(e.message(), "Image link /abs/a.png from \"docs/x.md\" that is using absolute path");
}

#[test]
fn missing_image_message_text() {
    let e = LinkError::MissingImage {
        link: "images/missing.png".to_string(),
        from: "docs/x.md".to_string(),
    };
    assert_eq!(e.message(), "No image \"images/missing.png\" from \"docs/x.md\"");
}

#[test]
fn wiki_title_extra_spaces_trimmed() {
    let titles = vec!["T".to_string()];
    let out = fix_link("[[   T   ]]", "d.md", &Vec::new(), &titles).unwrap();
    assert_eq!(out, r##"<a href="/w/T">T</a>"##);
}

#[test]
fn wiki_without_spaces_not_a_reference() {
    let out = fix_link("[[T]]", "d.md", &Vec::new(), &Vec::new()).unwrap();
    assert_eq!(out, "[[T]]");
}

#[test]
fn footnote_pass_without_footnotes_keeps_text() {
    let html = "<p>nothing here</p>";
    assert_eq!(fix_footnotes(html), html);
}

#[test]
fn footnote_multiline_definition_body() {
    let html = "<div class=\"footnote-definition\" id=\"a\"><sup class=\"footnote-definition-label\">a</sup>\n<p>long\nbody</p>\n</div>";
    let out = fix_footnotes(html);
    assert!(out.contains(r##"id="f-a""##));
    assert!(out.contains(r##"<a href="#b-a">a</a>"##));
    assert!(out.contains("long\nbody"));
}
