use mdserve::render::{render, wrap_page, RenderConfig};

fn markdown_html(md: &str, config: &RenderConfig) -> String {
    let m = &config.markdown;
    let mut o = comrak::Options::default();
    o.parse.smart = m.smart;
    o.extension.superscript = m.superscript;
    o.extension.autolink = m.autolink;
    o.extension.table = m.table;
    o.extension.header_id_prefix = m.header_id_prefix.clone();
    comrak::markdown_to_html(md, &o)
}

fn page_body(md: &str) -> String {
    let config = RenderConfig::standard();
    render(&markdown_html(md, &config), &config)
}

#[test]
fn standard_config_settings() {
    let c = RenderConfig::standard();
    assert!(c.markdown.smart && c.markdown.allow_raw_html && c.markdown.superscript);
    assert!(c.markdown.autolink && c.markdown.table);
    assert_eq!(c.markdown.header_id_prefix, Some(String::new()));
    assert_eq!(c.sanitizer.generic_attributes, vec!["id".to_string(), "class".to_string()]);
}

#[test]
fn script_removed_heading_keeps_anchor_id() {
    let out = page_body("<script>alert(1)</script>\n\n# Hi");
    assert!(!out.contains("<script"), "{}", out);
    assert!(!out.contains("alert(1)"), "{}", out);
    assert!(out.contains("<h1 id=\"hi\">Hi"), "{}", out);
}

#[test]
fn sanitizer_strips_raw_script_and_handlers() {
    let config = RenderConfig::standard();
    let out = render(
        "<script>alert(1)</script><p onclick=\"steal()\" class=\"note\" id=\"n\">ok</p>",
        &config,
    );
    assert!(!out.contains("script"), "{}", out);
    assert!(!out.contains("onclick"), "{}", out);
    assert!(out.contains("class=\"note\""), "{}", out);
    assert!(out.contains("id=\"n\""), "{}", out);
    assert!(out.contains(">ok</p>"), "{}", out);
}

#[test]
fn sanitizer_changes_its_input() {
    let config = RenderConfig::standard();
    let input = "<p><iframe src=\"x\"></iframe>text</p>";
    let out = render(input, &config);
    assert_ne!(out, input);
    assert_eq!(out, "<p>text</p>");
}

#[test]
fn table_and_superscript_render_as_markup() {
    let out = page_body("| a | b |\n|---|---|\n| 1 | 2 |\n\ne = mc^2^\n");
    assert!(out.contains("<table>"), "{}", out);
    assert!(out.contains("<td>1</td>"), "{}", out);
    assert!(out.contains("<sup>2</sup>"), "{}", out);
    assert!(!out.contains("^2^"), "{}", out);
}

#[test]
fn rendering_is_deterministic() {
    let md = "# Title\n\nSome *text* and a link https://example.com \"quoted\" -- dash\n";
    assert_eq!(page_body(md), page_body(md));
}

#[test]
fn wrap_page_joins_fragments() {
    assert_eq!(wrap_page("<html>", "<p>x</p>", "</html>"), "<html><p>x</p></html>");
    assert_eq!(wrap_page("", "", ""), "");
}

#[test]
fn raw_html_output_script_removed_heading_kept() {
    let config = RenderConfig::standard();
    let out = render("<script>alert(1)</script>\n<h1 id=\"hi\">Hi</h1>\n", &config);
    assert!(!out.contains("<script"), "{}", out);
    assert!(!out.contains("alert(1)"), "{}", out);
    assert!(out.contains("<h1 id=\"hi\">Hi</h1>"), "{}", out);
}

#[test]
fn links_get_rel_from_sanitizer() {
    let config = RenderConfig::standard();
    let out = render("<a href=\"https://example.com\" class=\"x\">e</a>", &config);
    assert!(out.contains("rel=\"noopener noreferrer\""), "{}", out);
    assert!(out.contains("class=\"x\""), "{}", out);
}
