use rustbin::config::{Config, EnvVars};
use rustbin::highlighter::{
    classify_language, detect_language_fast, is_markdown, render_markdown_code_block,
    render_paste_html, LanguageDetection,
};
use rustbin::markdown::render_markdown;
use rustbin::state::{
    load_syntaxes, load_theme, normalized_token, resolve_syntax, syntax_for_rendering, AppState,
};
use rustbin::scheme::{
    colours_resolve, find_value, read_hexadecimal, shallow, Outcome, RuleColours,
};
use rustbin::syntax::{highlight_lines, Syntaxes};
use syntect::highlighting::ThemeSet;
use syntect::parsing::SyntaxSet;

const SCHEME: &str = r##"{
    "name": "two colours",
    "variables": { "grey": "#304000" },
    "globals": { "foreground": "#102000", "background": "#000000" },
    "rules": [ { "scope": "comment", "foreground": "var(grey)" } ]
}"##;

fn state_with(theme: syntect::highlighting::Theme) -> AppState {
    let config = Config::from_vars(EnvVars {
        database_url: None,
        base_url: Some("https://bin.example.com".to_string()),
        host: None,
        port: None,
        max_paste_size: None,
        classifier_max_bytes: Some("10".to_string()),
        highlight_max_bytes: Some("100".to_string()),
        render_cache_max_entry_bytes: Some("1000".to_string()),
        render_cache_capacity: None,
        cleanup_interval: None,
        db_min_connections: None,
        db_max_connections: None,
    })
    .ok()
    .unwrap();
    AppState::new(Syntaxes::new(SyntaxSet::load_defaults_newlines()), theme, &config)
}

fn state() -> AppState {
    state_with(ThemeSet::load_defaults().themes["InspiredGitHub"].clone())
}

fn name(state: &AppState, token: &str) -> Option<String> {
    resolve_syntax(state, Some(token)).map(|i| state.syntax_set.inner().syntaxes()[i].name.clone())
}

#[test]
fn states_take_their_limits_from_the_settings() {
    let state = state();
    assert_eq!(state.classifier_max_bytes, 10);
    assert_eq!(state.highlight_max_bytes, 100);
    assert_eq!(state.render_cache_max_entry_bytes, 1000);
    assert_eq!(state.base_url.as_deref(), Some("https://bin.example.com"));
}

#[test]
fn every_syntax_is_found_by_its_names() {
    let state = state();
    for syntax in state.syntax_set.inner().syntaxes() {
        assert!(name(&state, &syntax.name).is_some(), "{}", syntax.name);
        for extension in &syntax.file_extensions {
            let trimmed = extension.trim_start_matches('.');
            if trimmed == extension {
                assert!(name(&state, extension).is_some(), "{extension}");
            }
        }
    }
}

#[test]
fn tokens_are_normalized() {
    assert_eq!(normalized_token(" .RS "), Some("rs".to_string()));
    assert_eq!(normalized_token("..tar.GZ"), Some("tar.gz".to_string()));
    assert_eq!(normalized_token(" . "), None);
    assert_eq!(normalized_token(""), None);
    let state = state();
    assert_eq!(name(&state, "rs"), Some("Rust".to_string()));
    assert_eq!(name(&state, " .RUST"), Some("Rust".to_string()));
    assert_eq!(name(&state, "no such language"), None);
    assert_eq!(resolve_syntax(&state, None), None);
}

#[test]
fn large_content_is_not_highlighted() {
    let state = state();
    assert!(syntax_for_rendering(&state, Some("rs"), &"x".repeat(100)).is_some());
    assert!(syntax_for_rendering(&state, Some("rs"), &"x".repeat(101)).is_none());
}

#[test]
fn markdown_has_five_names() {
    for e in ["md", "MARKDOWN", " mdown ", "mkd", "Mkdn"] {
        assert!(is_markdown(Some(e)), "{e}");
    }
    assert!(!is_markdown(Some(".md")));
    assert!(!is_markdown(Some("mdx")));
    assert!(!is_markdown(None));
}

fn described(detection: LanguageDetection) -> String {
    match detection {
        LanguageDetection::Resolved(Some(l)) => format!("is {l}"),
        LanguageDetection::Resolved(None) => "unknown".to_string(),
        LanguageDetection::NeedsClassifier => "to be classified".to_string(),
    }
}

#[test]
fn languages_are_detected_by_extension_and_size() {
    let state = state();
    let detect = |f: Option<&str>, c: &str| described(detect_language_fast(&state, f, c));
    assert_eq!(detect(Some("a.RS"), "much longer than ten bytes"), "is rs");
    assert_eq!(detect(Some("a.nothing"), ""), "unknown");
    assert_eq!(detect(Some("Dockerfile"), "0123456789"), "to be classified");
    assert_eq!(detect(None, "0123456789a"), "unknown");
}

#[test]
fn first_known_candidate_is_the_language() {
    let state = state();
    let classify = |c| classify_language(&state, c);
    assert_eq!(classify(None), None);
    assert_eq!(classify(Some("")), None);
    assert_eq!(
        classify(Some("nonsense\n\n rs \npy")),
        Some("rs".to_string())
    );
    assert_eq!(classify(Some("nonsense")), None);
}

#[test]
fn pastes_are_highlighted() {
    let state = state();
    let out = render_paste_html(&state, Some("rs"), "// x\n");
    assert!(out.contains("color:#969896;\">"), "{out}");
    assert!(!out.contains("background-color"), "{out}");
    assert!(out.contains("<code id=L1><a href=#L1>1</a><span "), "{out}");
    let plain = render_paste_html(&state, None, "// <x>\n");
    assert!(
        plain.contains("<code id=L1><a href=#L1>1</a>// &lt;x&gt;</code>"),
        "{plain}"
    );
}

#[test]
fn highlighting_carries_over_lines() {
    let state = state();
    let out = render_paste_html(&state, Some("rs"), "/* a\nb */\n");
    let second = out.find("<code id=L2>").unwrap();
    assert!(out[second..].contains("color:#969896"), "{out}");
}

#[test]
fn code_blocks_name_their_language() {
    let state = state();
    assert_eq!(
        render_markdown_code_block(&state, Some("a\"b"), "<x>"),
        "<pre><code class=\"language-a&quot;b\">&lt;x&gt;</code></pre>\n"
    );
    assert_eq!(
        render_markdown_code_block(&state, None, "x\n"),
        "<pre><code>x\n</code></pre>\n"
    );
    let coloured = render_markdown_code_block(&state, Some("rs"), "// y\n");
    assert!(coloured.starts_with("<pre><code class=\"language-rs\"><span "));
    assert!(coloured.contains("#969896"), "{coloured}");
    assert!(coloured.ends_with("</span></code></pre>\n"), "{coloured}");
}

#[test]
fn markdown_highlights_its_code_blocks() {
    let state = state();
    let out = render_markdown(&state, "```rs\n// y\n```\n<b>\n");
    assert!(out.contains("<pre><code class=\"language-rs\">"), "{out}");
    assert!(out.contains("#969896"), "{out}");
    assert!(out.contains("&lt;b&gt;"), "{out}");
}

#[test]
fn dumps_give_back_their_syntaxes() {
    // No syntaxes and no path syntaxes: lengths of zero.
    let empty = load_syntaxes(&[0; 16]).ok().unwrap();
    assert_eq!(empty.inner().syntaxes().len(), 0);
    let set = SyntaxSet::load_defaults_newlines();
    let dump = bincode::serialize(&set).unwrap();
    let read = load_syntaxes(&dump).ok().unwrap();
    let names = |set: &SyntaxSet| -> Vec<(String, Vec<String>)> {
        set.syntaxes()
            .iter()
            .map(|s| (s.name.clone(), s.file_extensions.clone()))
            .collect()
    };
    assert!(names(&set).len() > 50);
    assert_eq!(names(read.inner()), names(&set));
}

#[test]
fn unreadable_themes_are_refused() {
    let message = load_theme("{").err().unwrap();
    assert!(message.starts_with("failed to parse theme: "), "{message}");
    let wrong = SCHEME.replace("var(grey)", "var(green)");
    let message = load_theme(&wrong).err().unwrap();
    assert!(message.starts_with("failed to convert theme: "), "{message}");
    let theme = load_theme(SCHEME).ok().unwrap();
    assert_eq!(theme.name.as_deref(), Some("two colours"));
}

fn scheme(variables: &str, foreground: &str, rule: &str) -> String {
    format!(
        r##"{{
    "variables": {{ {variables} }},
    "globals": {{ "foreground": "{foreground}", "popup_css": "min-contrast var(a) #\u00e91" }},
    "rules": [ {{ "scope": "comment", "background": "{rule}" }} ]
}}"##
    )
}

#[test]
fn colours_that_cannot_be_computed_are_refused() {
    let refused = "theme has a color that cannot be computed";
    for (variables, foreground, rule) in [
        // Three bytes, but not three digits.
        ("", "#\u{e9}1", "red"),
        ("", "red", " #\u{e9}1"),
        (r##""a": "#\u00e91""##, "var(a)", "red"),
        // Variables that lead back to themselves.
        (r#""a": "var(a)""#, "var(a)", "red"),
        (r#""a": "VAR (b)", "b": "color(var(a) alpha(50%))""#, "red", "var(b)"),
        (r#""a": "var(b)", "b": "var(c)", "c": "var(a)""#, "color(red blend(var(c) 50%))", "red"),
        // A contrast that may not exist.
        ("", "color(red Min-Contrast(white 30.0))", "red"),
        (r#""a": "color(red min-contrast(white 30.0))""#, "red", "var(a)"),
    ] {
        let message = load_theme(&scheme(variables, foreground, rule)).err().unwrap();
        assert_eq!(message, refused, "{variables} {foreground} {rule}");
    }
    for (variables, foreground, rule) in [
        ("", "#102000", "rgb(1, 2, 3)"),
        (r#""a": "var(b)", "b": "var(c)", "c": "red""#, "var(a)", "color(var(b) alpha(50%))"),
        // Variables that nothing refers to do not matter.
        (r#""a": "var(a)", "b": "red""#, "var(b)", "red"),
        (r#""aa": "var(a)", "a": "red""#, "var(aa)", "red"),
        // A setting that is no colour is left out.
        ("", "#\u{e9}\u{e9}\u{e9}", "red"),
        ("", "#g\u{e9}", "red"),
        ("", "\u{e9}#123", "red"),
        ("", "var(b)", "red"),
    ] {
        let text = scheme(variables, foreground, rule);
        assert!(load_theme(&text).is_ok(), "{variables} {foreground} {rule}");
    }
    // A rule with a colour that is none is not.
    let message = load_theme(&scheme("", "red", "#g\u{e9}")).err().unwrap();
    assert!(message.starts_with("failed to convert theme: "), "{message}");
}

/// Each variable is the next one, mixed with the next one.
fn doubling(levels: usize) -> String {
    let mut variables: Vec<String> = (0..levels)
        .map(|i| format!(r#""v{}": "color(var(v{}) blend(var(v{}) 50%))""#, i, i + 1, i + 1))
        .collect();
    variables.push(format!(r#""v{levels}": "red""#));
    scheme(&variables.join(", "), "var(v0)", "red")
}

/// Each variable is the next one.
fn chain(length: usize) -> String {
    let mut variables: Vec<String> =
        (0..length).map(|i| format!(r#""v{}": "var(v{})""#, i, i + 1)).collect();
    variables.push(format!(r#""v{length}": "red""#));
    scheme(&variables.join(", "), "red", "var(v0)")
}

#[test]
fn colours_that_take_too_long_are_refused() {
    let refused = "theme has a color that cannot be computed";
    assert!(load_theme(&doubling(5)).is_ok());
    assert_eq!(load_theme(&doubling(60)).err().unwrap(), refused);
    assert!(load_theme(&chain(60)).is_ok());
    assert_eq!(load_theme(&chain(5000)).err().unwrap(), refused);
    let nested = |n: usize| format!("{}red{}", "color(".repeat(n), " alpha(50%))".repeat(n));
    assert!(load_theme(&scheme("", "red", &nested(20))).is_ok());
    assert_eq!(load_theme(&scheme("", "red", &nested(20000))).err().unwrap(), refused);
}

#[test]
fn schemes_that_nest_too_deeply_are_refused() {
    let nested = |n: usize| format!("{}{}", "[".repeat(n), "]".repeat(n));
    assert!(load_theme(&nested(128)).err().unwrap().starts_with("failed to parse theme: "));
    assert_eq!(load_theme(&nested(129)).err().unwrap(), "theme is nested too deeply");
    assert_eq!(load_theme(&"[".repeat(100000)).err().unwrap(), "theme is nested too deeply");
    assert!(shallow(&"[]{}".repeat(1000)));
    // Brackets in strings and comments do not count.
    let many = "[{".repeat(100);
    for text in [
        format!("\"\\\"{many}\""),
        format!("'{many}\"'"),
        format!("// {many}\n[]"),
        format!("/* {many} **/[]"),
    ] {
        assert!(shallow(&text), "{text}");
        assert!(!shallow(&format!("{text}{many}")), "{text}");
    }
    // Those that close in a string do not close any.
    assert!(!shallow(&"[\"]\",".repeat(129)));
}

#[test]
fn hexadecimal_colours_are_read_in_whole_characters() {
    assert!(read_hexadecimal("fF0", false, 7) == Outcome::Done(7));
    assert!(read_hexadecimal("fF0a", true, 7) == Outcome::Done(7));
    assert!(read_hexadecimal("ffEE00", false, 7) == Outcome::Done(7));
    assert!(read_hexadecimal("ffEE0011", true, 7) == Outcome::Done(7));
    assert!(read_hexadecimal("fF0a", false, 7) == Outcome::Fails);
    assert!(read_hexadecimal("fg0", false, 7) == Outcome::Fails);
    assert!(read_hexadecimal("\u{e9}1", false, 7) == Outcome::Stuck);
    assert!(read_hexadecimal("g\u{e9}", false, 7) == Outcome::Fails);
    assert!(read_hexadecimal("\u{e9}\u{e9}\u{e9}", false, 7) == Outcome::Fails);
    assert!(read_hexadecimal("f\u{e9}fff", false, 7) == Outcome::Stuck);
    assert!(read_hexadecimal("\u{20ac}fff", false, 7) == Outcome::Stuck);
}

#[test]
fn values_are_found_by_name() {
    let pairs: Vec<(String, String)> = [("a", "1"), ("b", "2"), ("a", "3")]
        .iter()
        .map(|(a, b)| (a.to_string(), b.to_string()))
        .collect();
    assert_eq!(find_value(&pairs, "a"), Some("3"));
    assert_eq!(find_value(&pairs, "b"), Some("2"));
    assert_eq!(find_value(&pairs, "c"), None);
}

#[test]
fn colours_resolve_where_their_variables_do() {
    let pairs = |v: &[(&str, &str)]| -> Vec<(String, String)> {
        v.iter().map(|(a, b)| (a.to_string(), b.to_string())).collect()
    };
    let rules = |v: &[&str]| -> Vec<RuleColours> {
        v.iter()
            .map(|c| RuleColours { foreground: Some(c.to_string()), background: None })
            .collect()
    };
    let chain = pairs(&[("a", "var(b)"), ("b", "var(c)"), ("c", "#fff")]);
    assert!(colours_resolve(&chain, &pairs(&[("caret", "var(a)")]), &rules(&["var(b)"])));
    let circle = pairs(&[("a", "var(b)"), ("b", "var(a)"), ("c", "#fff")]);
    assert!(!colours_resolve(&circle, &pairs(&[("caret", "var(a)")]), &rules(&[])));
    assert!(!colours_resolve(&circle, &pairs(&[]), &rules(&["var(c)", "var(b)"])));
    assert!(colours_resolve(&circle, &pairs(&[("caret", "var(c)")]), &rules(&["var(c)"])));
    // Settings that are no colours are not looked at.
    assert!(colours_resolve(&circle, &pairs(&[("popup_css", "var(a)")]), &rules(&[])));
    assert!(!colours_resolve(&chain, &pairs(&[("shadow", "#\u{e9}1")]), &rules(&[])));
    assert!(colours_resolve(&chain, &pairs(&[("shadow", "r\u{e9}d")]), &rules(&[])));
    // What comes before a contrast decides whether it is looked for.
    let first = "color(var(d) min-contrast(white 30.0))";
    assert!(colours_resolve(&chain, &pairs(&[("shadow", first)]), &rules(&[])));
    let second = "color(var(c) min-contrast(white 30.0))";
    assert!(!colours_resolve(&chain, &pairs(&[("shadow", second)]), &rules(&[])));
}

#[test]
fn long_lines_are_not_highlighted() {
    let set = Syntaxes::new(SyntaxSet::load_defaults_newlines());
    let theme = ThemeSet::load_defaults().themes["InspiredGitHub"].clone();
    let index = set.inner().syntaxes().iter().position(|s| s.name == "Rust").unwrap();
    let line = |n: usize| format!("r{}\"\n", "#".repeat(n - 3));
    let longest = line(262144);
    let longer = line(262145);
    let far_longer = line(400000);
    let lines = vec!["let a;\n", longer.as_str(), far_longer.as_str(), "// x\n"];
    let regions = highlight_lines(&set, index, &theme, &lines);
    assert_eq!(regions.len(), 4);
    assert!(regions[0].is_some() && regions[1].is_none() && regions[2].is_none());
    // The comment is one: the raw strings were not read.
    assert_eq!(regions[3].as_ref().unwrap()[0].r, 0x96);
    let lines = vec![longest.as_str(), "// x\n"];
    let regions = highlight_lines(&set, index, &theme, &lines);
    assert!(regions[0].is_some());
    assert!(regions[1].as_ref().unwrap()[0].r != 0x96);
}

#[test]
fn loaded_themes_colour_pastes() {
    let out = render_paste_html(
        &state_with(load_theme(SCHEME).ok().unwrap()),
        Some("rs"),
        "// x\nlet\n",
    );
    assert!(out.contains("<a href=#L1>1</a><span style=\"color:#304000;\">// x"), "{out}");
    assert!(out.contains("<a href=#L2>2</a><span style=\"color:#102000;\">let"), "{out}");
}

#[test]
fn normalized_tokens_are_stable() {
    for token in [" .RS ", "..tar.GZ", "Rust", "C++"] {
        let once = normalized_token(token).unwrap();
        assert_eq!(normalized_token(&once), Some(once.clone()));
    }
    // White space behind a dot is bared by the first pass and dropped by the second.
    assert_eq!(normalized_token(". x"), Some(" x".to_string()));
    assert_eq!(normalized_token(" x"), Some("x".to_string()));
}

#[test]
fn detected_languages_select_a_syntax() {
    let state = state();
    for candidates in ["rs", "nonsense\npy", " JS \nrs"] {
        let language = classify_language(&state, Some(candidates)).unwrap();
        assert!(resolve_syntax(&state, Some(&language)).is_some());
    }
}
