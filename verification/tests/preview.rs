use rustbin::canvas::{
    apply_alpha_channel, blank, draw_glyph, fill_rect, CachedGlyph, Point, Rect, Rgb, BUFFER_LEN,
    WIDTH,
};
use rustbin::config::{Config, EnvVars};
use rustbin::draw::{
    draw_plan, generate_preview, generate_preview_with_cache, missing_glyphs,
};
use rustbin::glyphs::{
    measure_text_width, render_text, render_text_right_aligned, FontSize, GlyphCache,
};
use rustbin::lines::{truncate_for_render, truncate_line_bytes};
use rustbin::preview::{plan_preview, PreviewPlan};
use rustbin::state::AppState;
use rustbin::syntax::Syntaxes;
use rustbin::styled::{markdown_to_styled_lines, MdLine};
use syntect::highlighting::ThemeSet;
use syntect::parsing::SyntaxSet;

const BG: [u8; 3] = [0x0a, 0x0c, 0x10];
const FG: [u8; 3] = [0xf0, 0xf3, 0xf6];
const MUTED: [u8; 3] = [0x9e, 0xa7, 0xb3];
const ACCENT: [u8; 3] = [0x71, 0xb7, 0xff];
const BORDER: [u8; 3] = [0x27, 0x2b, 0x33];
const PANEL: [u8; 3] = [0x16, 0x1b, 0x22];
const PANEL2: [u8; 3] = [0x0f, 0x14, 0x1b];

fn test_state() -> AppState {
    let config = Config::from_vars(EnvVars {
        database_url: None,
        base_url: None,
        host: None,
        port: None,
        max_paste_size: None,
        classifier_max_bytes: None,
        highlight_max_bytes: None,
        render_cache_max_entry_bytes: None,
        render_cache_capacity: None,
        cleanup_interval: None,
        db_min_connections: None,
        db_max_connections: None,
    })
    .ok()
    .unwrap();
    AppState::new(
        Syntaxes::new(SyntaxSet::load_defaults_newlines()),
        ThemeSet::load_defaults().themes["InspiredGitHub"].clone(),
        &config,
    )
}

/// Two by two pixels, eight columns wide, on the baseline.
fn square() -> CachedGlyph {
    CachedGlyph::new(2, 2, 0, 0, 8, vec![255; 4]).unwrap()
}

/// A space has no pixels.
fn space() -> CachedGlyph {
    CachedGlyph::new(0, 0, 0, 0, 8, vec![]).unwrap()
}

fn filled_cache(plan: &PreviewPlan) -> GlyphCache {
    let mut cache = GlyphCache::new();
    fill(&mut cache, plan);
    cache
}

fn fill(cache: &mut GlyphCache, plan: &PreviewPlan) {
    let glyphs = missing_glyphs(plan, cache)
        .into_iter()
        .map(|(ch, size)| (ch, size, if ch == ' ' { space() } else { square() }))
        .collect();
    cache.insert_all(glyphs);
}

fn pixel(pixels: &[u8], x: usize, y: usize) -> [u8; 3] {
    let i = (y * WIDTH + x) * 3;
    [pixels[i], pixels[i + 1], pixels[i + 2]]
}

fn faded(color: [u8; 3], alpha: u16) -> [u8; 3] {
    let mix = |i: usize| ((color[i] as u16 * alpha + BG[i] as u16 * (255 - alpha)) / 255) as u8;
    [mix(0), mix(1), mix(2)]
}

fn drawn(content: &str, extension: Option<&str>) -> Vec<u8> {
    let plan = plan_preview(&test_state(), content, extension);
    draw_plan(&plan, &filled_cache(&plan)).unwrap()
}

#[test]
fn channels_blend_rounding_down() {
    assert_eq!(apply_alpha_channel(200, 10, 255), 200);
    assert_eq!(apply_alpha_channel(200, 10, 0), 10);
    assert_eq!(apply_alpha_channel(255, 0, 128), 128);
    assert_eq!(apply_alpha_channel(240, 10, 80), 82);
    assert!(Rgb::new(1, 2, 3).faded(255) == Rgb::new(1, 2, 3));
    assert!(Rgb::new(1, 2, 3).faded(0) == Rgb::new(0x0a, 0x0c, 0x10));
}

#[test]
fn rectangles_are_clipped() {
    let mut pixels = blank();
    assert_eq!(pixels.len(), BUFFER_LEN);
    fill_rect(&mut pixels, Rect { x: 1198, y: 628, w: 10, h: usize::MAX }, Rgb::new(1, 2, 3));
    assert_eq!(pixel(&pixels, 1198, 628), [1, 2, 3]);
    assert_eq!(pixel(&pixels, 1199, 629), [1, 2, 3]);
    assert_eq!(pixel(&pixels, 1197, 629), BG);
    assert_eq!(pixel(&pixels, 1199, 627), BG);
    assert_eq!(pixel(&pixels, 0, 629), BG);
    let before = pixels.clone();
    fill_rect(&mut pixels, Rect { x: 1200, y: 0, w: 10, h: 10 }, Rgb::new(1, 2, 3));
    fill_rect(&mut pixels, Rect { x: 0, y: 0, w: 0, h: 10 }, Rgb::new(1, 2, 3));
    assert_eq!(pixels, before);
}

#[test]
fn glyphs_blend_and_are_clipped() {
    let mut pixels = blank();
    let glyph = CachedGlyph::new(2, 1, -1, 0, 8, vec![255, 128]).unwrap();
    // The baseline is 18 pixels below the top of a line; the glyph is one pixel high.
    draw_glyph(&mut pixels, &glyph, Point { x: 0, y: 0 }, 22, Rgb::new(255, 255, 255));
    // The first column lies left of the picture.
    assert_eq!(pixel(&pixels, 0, 17), [132, 133, 135]);
    assert_eq!(pixel(&pixels, 1, 17), BG);
    draw_glyph(&mut pixels, &glyph, Point { x: 11, y: 0 }, 22, Rgb::new(255, 255, 255));
    assert_eq!(pixel(&pixels, 10, 17), [255, 255, 255]);
    let far = CachedGlyph::new(2, 1, 0, 1000, 8, vec![255, 255]).unwrap();
    let before = pixels.clone();
    draw_glyph(&mut pixels, &far, Point { x: 50, y: 0 }, 22, Rgb::new(255, 255, 255));
    assert_eq!(pixels, before);
}

#[test]
fn glyph_measures_must_belong_together() {
    assert!(CachedGlyph::new(2, 2, 0, 0, 8, vec![0; 3]).is_none());
    assert!(CachedGlyph::new(usize::MAX, 2, 0, 0, 1, vec![]).is_none());
    assert!(CachedGlyph::new(2, 2, 0, 0, usize::MAX, vec![0; 4]).is_some());
}

#[test]
fn text_is_measured_with_tabs() {
    let mut cache = GlyphCache::new();
    assert_eq!(cache.missing("aab\t", FontSize::Base), vec![' ', 'a', 'b']);
    for ch in [' ', 'a', 'b'] {
        cache.insert(ch, FontSize::Base, square());
    }
    assert!(cache.missing("aab\t", FontSize::Base).is_empty());
    assert_eq!(cache.missing("a", FontSize::H1), vec![' ', 'a']);
    assert_eq!(measure_text_width(&cache, "aab\t", FontSize::Base), 3 * 8 + 4 * 8);
    assert!(cache.contains('a', FontSize::Base));
    assert!(!cache.contains('a', FontSize::Code));
}

#[test]
fn wide_tabs_stop_at_the_last_column() {
    let mut cache = GlyphCache::new();
    cache.insert(' ', FontSize::Base, CachedGlyph::new(0, 0, 0, 0, usize::MAX / 2, vec![]).unwrap());
    assert_eq!(measure_text_width(&cache, " ", FontSize::Base), usize::MAX / 2);
    assert_eq!(measure_text_width(&cache, "\t", FontSize::Base), usize::MAX);
    assert_eq!(measure_text_width(&cache, "\t\t", FontSize::Base), usize::MAX);
}

#[test]
fn text_stops_at_the_margin() {
    let mut cache = GlyphCache::new();
    for ch in [' ', 'a'] {
        cache.insert(ch, FontSize::Base, square());
    }
    let mut pixels = blank();
    let end = render_text(
        &mut pixels,
        &cache,
        &"a".repeat(500),
        Point { x: 68, y: 0 },
        Rgb::new(255, 0, 0),
    );
    assert_eq!(end, 1188);
    assert_eq!(pixel(&pixels, 1180, 16), [255, 0, 0]);
    assert_eq!(pixel(&pixels, 1188, 16), BG);
    // A tab moves on without a look at the margin.
    let end = render_text(
        &mut pixels,
        &cache,
        "\ta",
        Point { x: 1183, y: 0 },
        Rgb::new(0, 255, 0),
    );
    assert_eq!(end, 1183 + 32);
}

#[test]
fn aligned_text_ends_at_its_position() {
    let mut cache = GlyphCache::new();
    for ch in [' ', '1', '2'] {
        cache.insert(ch, FontSize::Base, square());
    }
    let mut pixels = blank();
    render_text_right_aligned(
        &mut pixels,
        &cache,
        "12",
        Point { x: 52, y: 0 },
        Rgb::new(9, 9, 9),
    );
    assert_eq!(pixel(&pixels, 36, 16), [9, 9, 9]);
    assert_eq!(pixel(&pixels, 44, 16), [9, 9, 9]);
    render_text_right_aligned(
        &mut pixels,
        &cache,
        "12",
        Point { x: 3, y: 100 },
        Rgb::new(9, 9, 9),
    );
    assert_eq!(pixel(&pixels, 0, 116), [9, 9, 9]);
}

#[test]
fn glyph_cache_starts_over_when_it_is_full() {
    let mut cache = GlyphCache::new();
    for i in 0..4096u32 {
        cache.insert(char::from_u32(0x100 + i).unwrap(), FontSize::Base, space());
    }
    cache.limit();
    assert!(cache.contains('\u{100}', FontSize::Base));
    cache.insert('a', FontSize::H3, space());
    cache.limit();
    assert!(!cache.contains('\u{100}', FontSize::Base));
    assert!(!cache.contains('a', FontSize::H3));
}

#[test]
fn font_sizes_are_in_tenths_of_a_pixel() {
    let sizes = [
        FontSize::Base,
        FontSize::H1,
        FontSize::H2,
        FontSize::H3,
        FontSize::Code,
    ];
    assert_eq!(sizes.map(|s| s.tenths()), [140, 280, 210, 175, 120]);
}

#[test]
fn lines_are_cut_between_characters() {
    assert_eq!(truncate_line_bytes("abc", 3), "abc");
    assert_eq!(truncate_line_bytes("abc", 2), "ab");
    assert_eq!(truncate_line_bytes("a\u{e9}b", 2), "a");
    assert_eq!(truncate_line_bytes("\u{1d11e}", 3), "");
}

#[test]
fn listings_show_numbers_and_text() {
    let pixels = drawn("a\nb", None);
    // "1" ends at column 52, "a" starts at column 68; the baseline is at 14 + 18.
    assert_eq!(pixel(&pixels, 44, 30), MUTED);
    assert_eq!(pixel(&pixels, 45, 31), MUTED);
    assert_eq!(pixel(&pixels, 46, 30), BG);
    assert_eq!(pixel(&pixels, 68, 30), FG);
    assert_eq!(pixel(&pixels, 76, 30), BG);
    assert_eq!(pixel(&pixels, 44, 52), MUTED);
    assert_eq!(pixel(&pixels, 68, 52), FG);
    assert_eq!(pixel(&pixels, 68, 74), BG);
}

#[test]
fn listings_are_highlighted() {
    let pixels = drawn("// x\n", Some("rs"));
    assert_eq!(pixel(&pixels, 68, 30), [0x96, 0x98, 0x96]);
}

#[test]
fn long_listings_fade_out() {
    let pixels = drawn(&"a\n".repeat(26), None);
    let row = |k: usize| pixel(&pixels, 68, 14 + k * 22 + 16);
    assert_eq!(row(21), FG);
    assert_eq!(row(22), faded(FG, 200));
    assert_eq!(row(23), faded(FG, 140));
    assert_eq!(row(24), faded(FG, 80));
    // Dots stand where the next line would be; line numbers do not fade.
    assert_eq!(row(25), MUTED);
    assert_eq!(pixel(&pixels, 44, 14 + 24 * 22 + 16), MUTED);
    let whole = drawn(&"a\n".repeat(25), None);
    assert_eq!(pixel(&whole, 68, 14 + 24 * 22 + 16), FG);
    assert_eq!(pixel(&whole, 68, 14 + 25 * 22 + 16), BG);
}

#[test]
fn listings_show_only_their_first_lines() {
    let long = format!("fn a() {{}} // {}", "x".repeat(2000));
    let one = format!("{}\n{}", long, "let b = 1;\n".repeat(30));
    let other = format!("{}y\n{}/* tail */", long, "let b = 1;\n".repeat(24));
    let pixels = drawn(&one, Some("rs"));
    assert!(pixels == drawn(&other, Some("rs")));
    assert!(pixels != drawn(&one.replacen("fn a", "fn", 1), Some("rs")));
    // The same lines with nothing after them do not fade out.
    let whole = format!("{}\n{}", long, "let b = 1;\n".repeat(24));
    assert!(pixels != drawn(&whole, Some("rs")));
    assert_eq!(plan_texts(&one, "rs"), plan_texts(&other, "rs"));
}

fn plan_texts(content: &str, extension: &str) -> Vec<String> {
    match plan_preview(&test_state(), content, Some(extension)) {
        PreviewPlan::Code { rows, .. } => rows
            .iter()
            .flat_map(|r| r.runs.iter().map(|x| x.text.clone()))
            .collect(),
        _ => panic!("the paste is listed"),
    }
}

#[test]
fn spare_glyphs_do_not_show() {
    let plan = plan_preview(&test_state(), "> `ab`\n\n# c\n", Some("md"));
    let bare = filled_cache(&plan);
    let mut full = filled_cache(&plan);
    for ch in ['x', 'y', 'z'] {
        full.insert(ch, FontSize::Base, square());
    }
    full.insert('a', FontSize::H3, space());
    assert!(draw_plan(&plan, &bare) == draw_plan(&plan, &full));
    // Another glyph that is needed does show.
    full.insert('c', FontSize::H1, space());
    assert!(draw_plan(&plan, &bare) != draw_plan(&plan, &full));
}

#[test]
fn caches_are_filled_with_what_is_missing() {
    let state = test_state();
    let plan = plan_preview(&state, "a\tb", None);
    let mut used = filled_cache(&plan_preview(&state, "# bcd", Some("md")));
    assert!(draw_plan(&plan, &used).is_none());
    fill(&mut used, &plan);
    assert!(draw_plan(&plan, &used) == draw_plan(&plan, &filled_cache(&plan)));
    // Of two glyphs for one character the first counts.
    let mut cache = GlyphCache::new();
    cache.insert_all(vec![
        ('a', FontSize::Base, CachedGlyph::new(0, 0, 0, 0, 5, vec![]).unwrap()),
        (' ', FontSize::Base, space()),
        ('a', FontSize::Base, square()),
    ]);
    assert_eq!(measure_text_width(&cache, "a", FontSize::Base), 5);
}

#[test]
fn markdown_previews_ignore_the_rest() {
    let content = format!("# T\n{}", "a\n\n".repeat(400));
    let (start, cut) = truncate_for_render(&content, 65536, 480);
    assert!(cut);
    assert!(drawn(&content, Some("md")) == drawn(start, Some("md")));
    let wide = "b ".repeat(40000);
    let (start, cut) = truncate_for_render(&wide, 65536, 480);
    assert!(cut);
    assert_eq!(start.len(), 65536);
    assert!(drawn(&wide, Some("md")) == drawn(start, Some("md")));
}

#[test]
fn empty_pastes_are_blank() {
    assert_eq!(drawn("", Some("md")), blank());
}

#[test]
fn headings_are_underlined() {
    let pixels = drawn("# T", Some("md"));
    assert_eq!(pixel(&pixels, 40, 32 + 40 - 2), FG);
    assert_eq!(pixel(&pixels, 40, 32 + 44 - 2), BORDER);
    assert_eq!(pixel(&pixels, 1159, 32 + 44 - 2), BORDER);
    assert_eq!(pixel(&pixels, 1160, 32 + 44 - 2), BG);
}

#[test]
fn quotes_code_and_rules_are_drawn() {
    let pixels = drawn("> q\n\n`c`\n\n---\n\n    x\n", Some("md"));
    // The quote: a border of three columns, then muted text sixteen columns further in.
    assert_eq!(pixel(&pixels, 40, 32), BORDER);
    assert_eq!(pixel(&pixels, 43, 32), BG);
    assert_eq!(pixel(&pixels, 56, 32 + 16), MUTED);
    // A blank line, then inline code on its background.
    assert_eq!(pixel(&pixels, 37, 76 + 2), PANEL);
    assert_eq!(pixel(&pixels, 36, 76 + 2), BG);
    assert_eq!(pixel(&pixels, 50, 76 + 19), PANEL);
    assert_eq!(pixel(&pixels, 51, 76 + 19), BG);
    assert_eq!(pixel(&pixels, 40, 76 + 16), FG);
    // A blank line, then a rule in the middle of its line.
    assert_eq!(pixel(&pixels, 40, 120 + 12), BORDER);
    assert_eq!(pixel(&pixels, 40, 120 + 14), BORDER);
    assert_eq!(pixel(&pixels, 40, 120 + 15), BG);
    // A blank line, then the code block.
    assert_eq!(pixel(&pixels, 40, 166), PANEL2);
    assert_eq!(pixel(&pixels, 1159, 185), PANEL2);
    assert_eq!(pixel(&pixels, 56, 166 + 14), FG);
}

#[test]
fn markdown_that_does_not_fit_fades_out() {
    let pixels = drawn(&"a\n\n".repeat(60), Some("md"));
    // 25 lines of 22 pixels fit between the margins; every other one is blank.
    assert_eq!(pixel(&pixels, 40, 32 + 20 * 22 + 16), FG);
    assert_eq!(pixel(&pixels, 40, 32 + 22 * 22 + 16), faded(FG, 200));
    assert_eq!(pixel(&pixels, 40, 32 + 24 * 22 + 16), faded(FG, 80));
    assert_eq!(pixel(&pixels, 40, 32 + 25 * 22 + 16), MUTED);
}

#[test]
fn code_cannot_start_in_the_right_margin() {
    let state = test_state();
    let quoted = |depth: usize, text: &str| {
        plan_preview(&state, &format!("{}{}", ">".repeat(depth), text), Some("md"))
    };
    let at_the_edge = quoted(70, "     x");
    assert!(draw_plan(&at_the_edge, &filled_cache(&at_the_edge)).is_some());
    for depth in [71, 72] {
        let beyond = quoted(depth, "     x");
        assert!(draw_plan(&beyond, &filled_cache(&beyond)).is_none());
    }
    // Farther right nothing of a background is on the page.
    let outside = quoted(73, "     x");
    let pixels = draw_plan(&outside, &filled_cache(&outside)).unwrap();
    assert_eq!(pixel(&pixels, 40 + 72 * 16, 40), BORDER);
    assert_eq!(pixel(&pixels, 1199, 40), BG);
    let plain = quoted(71, " x");
    assert!(draw_plan(&plain, &filled_cache(&plain)).is_some());
}

#[test]
fn missing_glyphs_prevent_drawing() {
    let plan = plan_preview(&test_state(), "ab", None);
    let mut cache = filled_cache(&plan);
    assert!(missing_glyphs(&plan, &cache).is_empty());
    assert!(draw_plan(&plan, &cache).is_some());
    cache = GlyphCache::new();
    assert!(draw_plan(&plan, &cache).is_none());
    assert!(generate_preview_with_cache(&plan, &cache).is_none());
    let mut wanted: Vec<char> = missing_glyphs(&plan, &cache).iter().map(|m| m.0).collect();
    wanted.sort();
    wanted.dedup();
    assert_eq!(wanted, vec![' ', '.', '1', 'a', 'b']);
}

#[test]
fn previews_are_png_images() {
    let state = test_state();
    let plan = plan_preview(&state, "# T", Some("md"));
    let cache = filled_cache(&plan);
    let file = generate_preview(&state, "# T", Some("md"), &cache).unwrap();
    let mut reader = png::Decoder::new(std::io::Cursor::new(file)).read_info().unwrap();
    let mut pixels = vec![0; reader.output_buffer_size().unwrap()];
    let info = reader.next_frame(&mut pixels).unwrap();
    assert_eq!((info.width, info.height), (1200, 630));
    assert!(info.color_type == png::ColorType::Rgb);
    assert_eq!(pixels, draw_plan(&plan, &cache).unwrap());
}

fn shown(line: &MdLine) -> String {
    line.spans
        .iter()
        .map(|s| s.text.as_str())
        .collect::<Vec<_>>()
        .join("|")
}

fn styled(content: &str) -> Vec<MdLine> {
    markdown_to_styled_lines(&test_state(), content)
}

#[test]
fn lists_are_indented_and_numbered() {
    let lines = styled("3. a\n4. b\n   - c\n\ntext\n");
    let texts: Vec<String> = lines.iter().map(shown).collect();
    assert_eq!(texts[0], "3. |a");
    assert!(texts.contains(&"  \u{2022} |c".to_string()), "{texts:?}");
    assert_eq!(texts.last().unwrap(), "text");
    assert_eq!(texts[texts.len() - 2], "");
}

#[test]
fn spans_are_coloured_by_what_they_are() {
    let lines = styled("a [b](c) `d`\nx  \ny");
    assert_eq!(shown(&lines[0]), "a |b| |d| |x");
    let color = |i: usize| {
        let c = lines[0].spans[i].color;
        [c.r, c.g, c.b]
    };
    assert_eq!(color(0), FG);
    assert_eq!(color(1), ACCENT);
    assert!(lines[0].spans[3].has_bg);
    assert!(lines[0].spans[3].font_size == FontSize::Code);
    assert_eq!(shown(&lines[1]), "y");
}

#[test]
fn headings_have_sizes() {
    let lines = styled("# a\n## b\n### c\n#### d\n###### e\n");
    let heights: Vec<usize> = lines.iter().map(|l| l.line_height).collect();
    assert_eq!(heights, vec![44, 22, 36, 22, 30, 22, 22, 22, 22]);
    assert!(lines[0].has_underline && lines[2].has_underline && !lines[4].has_underline);
    assert!(lines[2].spans[0].font_size == FontSize::H2);
    let c = lines[8].spans[0].color;
    assert_eq!([c.r, c.g, c.b], MUTED);
}

#[test]
fn code_blocks_are_capped() {
    let lines = styled(&format!("```\n{}```\n\nafter\n", "x\n".repeat(500)));
    assert_eq!(lines.len(), 61);
    assert!(lines.iter().all(|l| l.is_code_block && l.line_height == 20));
    let coloured = styled("```rs\n// x\n\n```\n");
    assert_eq!(coloured.len(), 2);
    let c = coloured[0].spans[0].color;
    assert_eq!([c.r, c.g, c.b], [0x96, 0x98, 0x96]);
    assert!(coloured[1].spans.is_empty());
}

#[test]
fn html_in_markdown_is_not_shown() {
    assert_eq!(styled("<div>x</div>\n").len(), 0);
}
