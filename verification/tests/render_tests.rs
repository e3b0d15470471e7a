use blog::codeblock::CodeBlockRenderer;
use blog::render::render_markdown;
use blog::text::escape_html;

#[test]
fn escape_html_escapes_the_four_characters() {
    assert_eq!(escape_html("a<b&c\"d>e").as_str(), "a&lt;b&amp;c&quot;d&gt;e");
    assert_eq!(escape_html("plain").as_str(), "plain");
    assert_eq!(escape_html("").as_str(), "");
}

#[test]
fn markdown_heading_renders() {
    let renderer = CodeBlockRenderer::new();
    assert_eq!(render_markdown(&renderer, "# Hi").as_str(), "<h1>Hi</h1>\n");
}

#[test]
fn markdown_inline_code_gets_the_inline_wrapper() {
    let renderer = CodeBlockRenderer::new();
    let html = render_markdown(&renderer, "use `x + 1` now");
    assert!(html.contains("<code class=\"inline_code\">x + 1</code>"));
}

#[test]
fn markdown_inline_code_is_escaped() {
    let renderer = CodeBlockRenderer::new();
    let html = render_markdown(&renderer, "see `a<b>`");
    assert!(html.contains("<code class=\"inline_code\">a&lt;b&gt;</code>"));
}

#[test]
fn markdown_strikethrough_enabled() {
    let renderer = CodeBlockRenderer::new();
    let html = render_markdown(&renderer, "~~gone~~");
    assert!(html.contains("<del>gone</del>"));
}

#[test]
fn fenced_block_becomes_a_codeblock() {
    let renderer = CodeBlockRenderer::new();
    let html = render_markdown(&renderer, "```rust\nfn main() {}\n```");
    assert!(html.contains("<div class=\"codeblock\">"));
    assert!(html.contains("<span class=\"codeblock_language\">rust</span>"));
    assert!(html.contains("<pre class=\"codeblock_code\"><code>"));
    // the highlighter really ran: classed spans appear
    assert!(html.contains("cb_"));
}

#[test]
fn fenced_block_with_unknown_language_still_renders() {
    let renderer = CodeBlockRenderer::new();
    let html = render_markdown(&renderer, "```nosuchlanguage123\nsome text\n```");
    assert!(html.contains("<div class=\"codeblock\">"));
    assert!(html.contains("<span class=\"codeblock_language\">nosuchlanguage123</span>"));
    assert!(html.contains("some text"));
}

#[test]
fn render_unknown_language_directly() {
    let renderer = CodeBlockRenderer::new();
    let html = renderer.render("zzz_not_a_language", "plain text body\n");
    assert!(html.starts_with("<div class=\"codeblock\">"));
    assert!(html.ends_with("</code></pre></div>"));
    assert!(html.contains("plain text body"));
}

#[test]
fn render_empty_language_has_no_banner() {
    let renderer = CodeBlockRenderer::new();
    let html = renderer.render("", "text\n");
    assert!(!html.contains("codeblock_banner"));
}

#[test]
fn render_context_caption_is_stripped_and_shown() {
    let renderer = CodeBlockRenderer::new();
    let html = renderer.render("", "@@ src/lib.rs @@\nfn f() {}\n");
    assert!(html.contains("<span class=\"codeblock_context\">src/lib.rs</span>"));
    assert!(html.contains("codeblock_banner"));
    assert!(!html.contains("@@"));
}

#[test]
fn render_language_tag_is_escaped() {
    let renderer = CodeBlockRenderer::new();
    let html = renderer.render("a<b", "text\n");
    assert!(html.contains("<span class=\"codeblock_language\">a&lt;b</span>"));
}

#[test]
fn render_highlights_rust_keywords() {
    let renderer = CodeBlockRenderer::new();
    let html = renderer.render("rust", "fn main() {}\n");
    assert!(html.contains("cb_"));
    assert!(html.contains("main"));
}
