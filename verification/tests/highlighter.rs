use rustbin::highlighter::{filename_extension, stored_language_for_syntax};
use rustbin::lines::{trim_line_ending, truncate_for_render};
use rustbin::links::{is_safe_markdown_url, sanitize_markdown_url};
use rustbin::listing::{
    decimal_digits, flush_chunk, push_escaped_html, render_lines_chunked, render_plain_lines, visual_columns,
};
use rustbin::markdown::render_markdown_with;
use rustbin::syntax::SyntaxInfo;
use syntect::parsing::SyntaxSet;

/// Code-block stub standing in for the real (state-dependent) highlighter.
fn passthrough_code(_lang: Option<&str>, code: &str) -> String {
    format!("<pre><code>{code}</code></pre>")
}

/// The chunked renderer with the plain (non-highlighted) line renderer.
fn render_plain(content: &str) -> String {
    render_lines_chunked(content, &render_plain_lines(content))
}

#[test]
fn renders_numbered_anchored_escaped_lines() {
    let out = render_plain("a<b\nc\n");
    assert!(out.starts_with("<div class=\"code-grid\">"), "{out}");
    assert!(
        out.contains("<code id=L1><a href=#L1>1</a>a&lt;b</code>"),
        "{out}"
    );
    assert!(
        out.contains("<code id=L2><a href=#L2>2</a>c</code>"),
        "{out}"
    );
    assert!(out.ends_with("</div></div>"), "{out}");
}

#[test]
fn chunks_lines_with_intrinsic_size_hints() {
    let out = render_plain(&"x\n".repeat(600));
    // 600 lines at 256 lines per chunk: 256 + 256 + 88.
    assert_eq!(out.matches("<div class=\"code-chunk\"").count(), 3);
    // Full chunk: 1 column wide, 256 * 1.5em tall.
    assert!(
        out.contains("style=\"contain-intrinsic-size:auto 1ch auto 384em\""),
        "{out}"
    );
    // Numbering continues across chunk boundaries.
    assert!(out.contains("<code id=L257>"), "{out}");
    assert!(out.contains("<code id=L600>"), "{out}");
}

#[test]
fn widens_gutter_for_five_digit_line_counts() {
    assert!(!render_plain(&"x\n".repeat(100)).contains("--ln:"));
    assert!(render_plain(&"x\n".repeat(10_000)).contains("--ln:calc(5ch + 1.2em)"));
}

#[test]
fn estimates_chunk_width_from_longest_line() {
    // Widest line is "\tx": a tab (8 columns) plus one character.
    let out = render_plain("ab\n\tx\n");
    assert!(out.contains("contain-intrinsic-size:auto 9ch"), "{out}");
    // A multi-thousand-column line is clamped to the estimate cap.
    let out = render_plain(&"y".repeat(10_000));
    assert!(out.contains("contain-intrinsic-size:auto 2000ch"), "{out}");
}

#[test]
fn all_chunks_share_the_global_width_estimate() {
    // 301 lines -> 2 chunks; the wide line is in the second, but both must carry its width so
    // that the grid stays stable as chunks render.
    let content = format!("{}{}\n", "short\n".repeat(300), "w".repeat(50));
    let out = render_plain(&content);
    assert_eq!(out.matches("<div class=\"code-chunk\"").count(), 2);
    assert_eq!(out.matches("contain-intrinsic-size:auto 50ch").count(), 2);
}

#[test]
fn renders_empty_content_as_single_empty_line() {
    let out = render_plain("");
    assert!(
        out.contains("<code id=L1><a href=#L1>1</a></code>"),
        "{out}"
    );
    assert_eq!(out.matches("<code ").count(), 1);
}

#[test]
fn listing_is_exactly_as_stated() {
    assert_eq!(
        render_plain("a&b\r\n'c\""),
        "<div class=\"code-grid\"><div class=\"code-chunk\" style=\"contain-intrinsic-size:auto \
         3ch auto 3em\"><code id=L1><a href=#L1>1</a>a&amp;b</code><code id=L2><a href=#L2>2</a>\
         &#39;c&quot;</code></div></div>"
    );
}

#[test]
fn full_last_chunk_is_not_followed_by_an_empty_one() {
    let out = render_plain(&"x\n".repeat(512));
    assert_eq!(out.matches("<div class=\"code-chunk\"").count(), 2);
    assert_eq!(out.matches("auto 384em").count(), 2);
}

#[test]
fn escapes_raw_block_html_in_markdown() {
    let out = render_markdown_with("<script>alert('xss')</script>", passthrough_code);
    assert!(!out.contains("<script>"), "raw <script> leaked: {out}");
    assert!(
        out.contains("&lt;script&gt;"),
        "expected escaped script: {out}"
    );
}

#[test]
fn escapes_raw_inline_html_in_markdown() {
    let out = render_markdown_with("hi <img src=x onerror=alert(1)> bye", passthrough_code);
    assert!(!out.contains("<img"), "raw <img> tag leaked: {out}");
    assert!(out.contains("&lt;img"), "expected escaped img: {out}");
}

#[test]
fn neutralizes_javascript_link_scheme() {
    let out = render_markdown_with("[click](javascript:alert(1))", passthrough_code);
    assert!(
        !out.contains("javascript:"),
        "javascript: scheme leaked: {out}"
    );
    assert!(
        out.contains("href=\"#\""),
        "expected neutralized href: {out}"
    );
}

#[test]
fn neutralizes_data_image_scheme() {
    let out = render_markdown_with("![x](data:text/html,<b>no</b>)", passthrough_code);
    assert!(
        !out.contains("data:text/html"),
        "data: scheme leaked: {out}"
    );
    assert!(out.contains("src=\"#\""), "expected neutralized src: {out}");
}

#[test]
fn does_not_emit_heading_attributes() {
    let out = render_markdown_with("# hi {onclick=alert(1)}", passthrough_code);
    assert!(
        !out.contains("<h1 onclick"),
        "heading attribute leaked: {out}"
    );
}

#[test]
fn keeps_safe_links_and_relative_paths() {
    let out = render_markdown_with(
        "[a](https://example.com/x) [b](/rel) [c](#frag)",
        passthrough_code,
    );
    assert!(
        out.contains("https://example.com/x"),
        "https link dropped: {out}"
    );
    assert!(
        out.contains("href=\"/rel\""),
        "relative link dropped: {out}"
    );
    assert!(
        out.contains("href=\"#frag\""),
        "fragment link dropped: {out}"
    );
}

#[test]
fn code_blocks_still_render_via_callback() {
    let out = render_markdown_with("```rust\nlet x = 1;\n```", |lang: Option<&str>, code: &str| {
        format!(
            "<pre data-lang=\"{}\">{}</pre>",
            lang.unwrap_or(""),
            code.len()
        )
    });
    assert!(
        out.contains("data-lang=\"rust\""),
        "code block lang lost: {out}"
    );
}

#[test]
fn code_blocks_reach_the_callback_in_order() {
    let out = render_markdown_with(
        "```a b\none\n```\n\n    two\n\n```\nthree\nfour\n```\n",
        |lang: Option<&str>, code: &str| format!("[{}|{}]", lang.unwrap_or("-"), code),
    );
    assert!(out.contains("[a|one\n]"), "{out}");
    assert!(out.contains("[-|two\n]"), "{out}");
    assert!(out.contains("[-|three\nfour\n]"), "{out}");
    assert!(out.find("one").unwrap() < out.find("two").unwrap());
    assert!(out.find("two").unwrap() < out.find("three").unwrap());
}

#[test]
fn retargeted_links_keep_their_title() {
    let out = render_markdown_with("[x](javascript:y \"a title\")", passthrough_code);
    assert_eq!(out, "<p><a href=\"#\" title=\"a title\">x</a></p>\n");
}

#[test]
fn safe_documents_are_rendered_unchanged() {
    let out = render_markdown_with("# T\n\n~~a~~ *b*\n", passthrough_code);
    assert_eq!(out, "<h1>T</h1>\n<p><del>a</del> <em>b</em></p>\n");
}

#[test]
fn rejects_overlong_and_hidden_schemes() {
    assert!(!is_safe_markdown_url("javascript:alert(1)"));
    assert!(!is_safe_markdown_url("java\tscript:alert(1)"));
    assert!(!is_safe_markdown_url("vbscript:x"));
    assert!(is_safe_markdown_url("https://example.com"));
    assert!(is_safe_markdown_url("HTTPS://EXAMPLE.COM"));
    assert!(is_safe_markdown_url("mailto:a@b.c"));
    // No scheme at all: relative paths/queries/fragments are safe even
    // when longer than any scheme buffer.
    assert!(is_safe_markdown_url("averylongrelativefilename.txt"));
    assert!(is_safe_markdown_url("dir/file:with:colons"));
    assert!(is_safe_markdown_url("#fragment"));
}

#[test]
fn judges_schemes_at_the_edges() {
    assert!(is_safe_markdown_url(""));
    assert!(!is_safe_markdown_url(":x"));
    assert!(is_safe_markdown_url("tel:1"));
    assert!(is_safe_markdown_url("ftp:x"));
    assert!(is_safe_markdown_url("h\u{0}t\u{85}tp\u{2003}:x"));
    assert!(!is_safe_markdown_url("mailtos:x"));
    assert!(!is_safe_markdown_url("\u{e9}http:x"));
    assert!(is_safe_markdown_url("?a:b"));
}

#[test]
fn truncates_at_line_boundary() {
    let content = "one\ntwo\nthree\n";
    let (slice, truncated) = truncate_for_render(content, 1024, 2);
    assert_eq!(slice, "one\ntwo\n");
    assert!(truncated);

    let (slice, truncated) = truncate_for_render(content, 1024, 100);
    assert_eq!(slice, content);
    assert!(!truncated);
}

#[test]
fn truncates_at_byte_budget() {
    let content = "aaaa\nbbbb\ncccc\n";
    let (slice, truncated) = truncate_for_render(content, 12, 100);
    assert_eq!(slice, "aaaa\nbbbb\n");
    assert!(truncated);
}

#[test]
fn truncates_huge_single_line_at_char_boundary() {
    // 4-byte scalar values; an 11-byte budget must not split one.
    let content = "𝄞𝄞𝄞𝄞".repeat(100);
    let (slice, truncated) = truncate_for_render(&content, 11, 100);
    assert_eq!(slice.len(), 8);
    assert!(truncated);
    assert!(content.starts_with(slice));
}

#[test]
fn truncation_counts_line_feeds() {
    assert_eq!(truncate_for_render("a\nb\n", 4, 2), ("a\nb\n", false));
    assert_eq!(truncate_for_render("a\nb\nc", 5, 2), ("a\nb\n", true));
    assert_eq!(truncate_for_render("", 0, 1), ("", false));
    assert_eq!(truncate_for_render("abc", 0, 1), ("", true));
    // No line fits a budget of no lines.
    assert_eq!(truncate_for_render("a\nb", 2, 0), ("", true));
    assert_eq!(truncate_for_render("a\nb\n", 100, 0), ("", true));
    assert_eq!(truncate_for_render("", 100, 0), ("", false));
}

#[test]
fn cutting_twice_cuts_once() {
    for content in ["a\nb\nc", "", "\n\n\n", "a\u{e9}\u{1d11e}b\nc\n"] {
        for max_bytes in 0..8 {
            for max_lines in 0..4 {
                let (once, _) = truncate_for_render(content, max_bytes, max_lines);
                assert_eq!(truncate_for_render(once, max_bytes, max_lines), (once, false));
            }
        }
    }
}

#[test]
fn extracts_lowercased_extension() {
    assert_eq!(
        filename_extension(Some("src/main.RS")),
        Some("rs".to_string())
    );
}

#[test]
fn ignores_missing_extension() {
    assert_eq!(filename_extension(Some("Dockerfile")), None);
    assert_eq!(filename_extension(Some("file.")), None);
    assert_eq!(filename_extension(None), None);
}

#[test]
fn prefers_extension_for_stored_language() {
    let syntax_set = SyntaxSet::load_defaults_newlines();
    let syntax = syntax_set
        .find_syntax_by_name("Rust")
        .expect("Rust syntax must exist");
    let info = SyntaxInfo {
        name: syntax.name.clone(),
        file_extensions: syntax.file_extensions.clone(),
    };

    assert_eq!(stored_language_for_syntax(&info), "rs");
}

#[test]
fn falls_back_to_the_name_for_stored_language() {
    let info = SyntaxInfo {
        name: "Thing".to_string(),
        file_extensions: vec![],
    };
    assert_eq!(stored_language_for_syntax(&info), "Thing");
}

#[test]
fn escaped_text_is_inert() {
    let mut out = "<p>".to_string();
    push_escaped_html(&mut out, "a<b>\"c\"&'d' \u{e9}");
    assert_eq!(out, "<p>a&lt;b&gt;&quot;c&quot;&amp;&#39;d&#39; \u{e9}");
}

#[test]
fn text_is_escaped_piece_by_piece() {
    let mut pieces = String::new();
    push_escaped_html(&mut pieces, "a<b&");
    push_escaped_html(&mut pieces, "'c>&amp;");
    let mut whole = String::new();
    push_escaped_html(&mut whole, "a<b&'c>&amp;");
    assert_eq!(pieces, whole);
}

#[test]
fn chunks_of_any_size_are_flushed() {
    let mut out = String::new();
    let mut chunk = "x".to_string();
    flush_chunk(&mut out, &mut chunk, 1001, 7);
    assert_eq!(chunk, "");
    let style = "contain-intrinsic-size:auto 7ch auto 1502em";
    assert_eq!(out, format!("<div class=\"code-chunk\" style=\"{style}\">x</div>"));
    flush_chunk(&mut out, &mut chunk, usize::MAX / 3, 7);
    assert!(out.contains(&format!(" auto {}em", usize::MAX / 2 + 1)), "{out}");
}

#[test]
fn line_endings_are_trimmed_once() {
    assert_eq!(trim_line_ending("a\r\n"), "a");
    assert_eq!(trim_line_ending("a\n"), "a");
    assert_eq!(trim_line_ending("a\r"), "a");
    assert_eq!(trim_line_ending("a\n\n"), "a\n");
    assert_eq!(trim_line_ending("\r\r\n"), "\r");
    assert_eq!(trim_line_ending(""), "");
}

#[test]
fn widths_and_digits_are_counted() {
    assert_eq!(visual_columns(""), 1);
    assert_eq!(visual_columns("a\t\u{e9}"), 10);
    assert_eq!(decimal_digits(0), 1);
    assert_eq!(decimal_digits(9999), 4);
    assert_eq!(decimal_digits(10_000), 5);
    assert_eq!(decimal_digits(usize::MAX), 20);
}

#[test]
fn unsafe_targets_become_fragments() {
    assert_eq!(sanitize_markdown_url("javascript:x".to_string()), "#");
    assert_eq!(sanitize_markdown_url("/a:b".to_string()), "/a:b");
}
