use ssg::markdown::{
    image_html, image_requests, image_source, parse_markdown_with_tailwind, transform_events, Level, MarkupError, MdEvent,
};
use ssg::paths::replace_file_extension;

fn templates() -> tera::Tera {
    let mut t = tera::Tera::default();
    t.add_raw_template("partials/image.html", "<img src=\"{{ src | safe }}\" alt=\"{{ alt }}\">").unwrap();
    t
}

#[test]
fn level_one_heading_gets_its_class() {
    let out = parse_markdown_with_tailwind("# Title", &templates()).unwrap();
    assert_eq!(out, "<h1 class=\"text-3xl font-bold text-black-600 mb-6\">Title</h1>");
}

#[test]
fn level_two_heading_gets_its_class() {
    let out = parse_markdown_with_tailwind("## Sub", &templates()).unwrap();
    assert_eq!(out, "<h2 class=\"text-2xl font-semibold text-black-500 mb-4\">Sub</h2>");
}

#[test]
fn deeper_headings_share_a_class() {
    let out = parse_markdown_with_tailwind("### Three", &templates()).unwrap();
    assert_eq!(out, "<h3 class=\"text-xl font-medium text-black-400 mb-2\">Three</h3>");
    let out = parse_markdown_with_tailwind("##### Five", &templates()).unwrap();
    assert_eq!(out, "<h5 class=\"text-xl font-medium text-black-300\">Five</h5>");
}

#[test]
fn nested_heading_starts_fail() {
    let events = vec![
        MdEvent::HeadingStart(Level::H1),
        MdEvent::Text("a".to_string()),
        MdEvent::HeadingStart(Level::H2),
        MdEvent::HeadingEnd(Level::H2),
        MdEvent::HeadingEnd(Level::H1),
    ];
    assert_eq!(transform_events(&events, &vec![]), Err(MarkupError::NestedHeading));
}

#[test]
fn heading_end_without_start_is_ignored() {
    let events = vec![MdEvent::HeadingEnd(Level::H1), MdEvent::Text("x".to_string())];
    assert_eq!(transform_events(&events, &vec![]), Ok("x".to_string()));
}

#[test]
fn image_source_is_rewritten_to_static_webp() {
    assert_eq!(image_source("pic.png"), "./static/pic.webp");
    assert_eq!(image_source("img/photo.jpeg"), "./static/img/photo.webp");
    assert_eq!(image_source("noext"), "./static/noext.webp");
}

#[test]
fn extension_replacement_uses_last_dot() {
    assert_eq!(replace_file_extension("a.b.c", "webp"), "a.b.webp");
    assert_eq!(replace_file_extension("plain", "webp"), "plain.webp");
    assert_eq!(replace_file_extension("x.", "png"), "x.png");
}

#[test]
fn image_renders_through_partial_and_swallows_alt_text() {
    let out = parse_markdown_with_tailwind("![the alt](pic.png \"A title\")", &templates()).unwrap();
    assert_eq!(
        out,
        "<p class=\"text-base font-normal leading-relaxed\"><img src=\"./static/pic.webp\" alt=\"A title\"></p>"
    );
}

#[test]
fn image_falls_back_to_comment_without_partial() {
    let out = parse_markdown_with_tailwind("![alt](pic.png)", &tera::Tera::default()).unwrap();
    assert_eq!(
        out,
        "<p class=\"text-base font-normal leading-relaxed\"><!-- Failed to render image --></p>"
    );
}

#[test]
fn image_requests_carry_source_and_title() {
    let events = vec![
        MdEvent::ImageStart { dest: "a/b.gif".to_string(), title: "t".to_string() },
        MdEvent::Text("alt".to_string()),
        MdEvent::ImageEnd,
    ];
    let reqs = image_requests(&events);
    assert_eq!(reqs.len(), 1);
    assert_eq!(reqs[0].src, "./static/a/b.webp");
    assert_eq!(reqs[0].alt, "t");
    let out = transform_events(&events, &vec!["IMG".to_string()]).unwrap();
    assert_eq!(out, "IMG");
}

#[test]
fn link_gets_class_and_attributes() {
    let out = parse_markdown_with_tailwind("[go](https://e.com \"T\")", &templates()).unwrap();
    assert_eq!(
        out,
        "<p class=\"text-base font-normal leading-relaxed\"><a class=\"text-base font-bold leading-relaxed text-green-700\" href=\"https://e.com\" title=\"T\">go</a></p>"
    );
}

#[test]
fn bullet_list_gets_class() {
    let out = parse_markdown_with_tailwind("- one", &templates()).unwrap();
    assert!(out.starts_with("<ul class=\"list-disc text-base font-normal list-inside ml-4\">"));
    assert!(out.ends_with("</ul>"));
    assert!(out.contains("one"));
}

#[test]
fn fenced_code_block_names_its_language() {
    let out = parse_markdown_with_tailwind("```rust\nlet x = 1;\n```", &templates()).unwrap();
    assert_eq!(
        out,
        "<pre class=\"bg-gray-900 text-base font-normal text-white p-4 rounded-lg overflow-x-auto\"><code class=\"language-rust\">let x = 1;\n</code></pre>"
    );
}

#[test]
fn indented_code_block_has_no_language() {
    let out = parse_markdown_with_tailwind("    code here", &templates()).unwrap();
    assert!(out.contains("<code class=\"language-none\">code here"));
}

#[test]
fn inline_code_is_styled() {
    let out = parse_markdown_with_tailwind("use `x`", &templates()).unwrap();
    assert_eq!(
        out,
        "<p class=\"text-base font-normal leading-relaxed\">use <code class=\"bg-gray-200 font-normal text-red-600 px-1 py-0.5 rounded\">x</code></p>"
    );
}

#[test]
fn other_events_use_standard_html() {
    let out = parse_markdown_with_tailwind("**bold**", &templates()).unwrap();
    assert_eq!(out, "<p class=\"text-base font-normal leading-relaxed\"><strong>bold</strong></p>");
}

#[test]
fn bullet_list_output_is_exact() {
    let out = parse_markdown_with_tailwind("- one", &templates()).unwrap();
    assert_eq!(out, "<ul class=\"list-disc text-base font-normal list-inside ml-4\"><li>one</li>\n</ul>");
}

#[test]
fn ordered_list_uses_standard_html() {
    let out = parse_markdown_with_tailwind("1. one", &templates()).unwrap();
    assert_eq!(out, "<ol>\n<li>one</li>\n</ol>\n");
    let out = parse_markdown_with_tailwind("3. three", &templates()).unwrap();
    assert_eq!(out, "<ol start=\"3\">\n<li>three</li>\n</ol>\n");
}

#[test]
fn extension_swap_ignores_dots_in_directories() {
    assert_eq!(replace_file_extension("../img/pic", "webp"), "../img/pic.webp");
    assert_eq!(replace_file_extension("./img/pic.png", "webp"), "./img/pic.webp");
    assert_eq!(replace_file_extension("v1.2/photo", "webp"), "v1.2/photo.webp");
    assert_eq!(image_source("./img/pic"), "./static/./img/pic.webp");
}

#[test]
fn image_html_falls_back_to_comment() {
    assert_eq!(image_html(None), "<!-- Failed to render image -->");
    assert_eq!(image_html(Some("<img>".to_string())), "<img>");
}
