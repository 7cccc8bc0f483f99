use rustbin::config::{parse_byte_size, Config, EnvVars};

fn unset() -> EnvVars {
    EnvVars {
        database_url: None,
        base_url: None,
        host: None,
        port: None,
        max_paste_size: None,
        classifier_max_bytes: None,
        highlight_max_bytes: None,
        render_cache_max_entry_bytes: None,
        render_cache_capacity: None,
        cleanup_interval: None,
        db_min_connections: None,
        db_max_connections: None,
    }
}

fn some(text: &str) -> Option<String> {
    Some(text.to_string())
}

fn complaint(vars: EnvVars) -> String {
    match Config::from_vars(vars) {
        Ok(_) => "no complaint".to_string(),
        Err(e) => e,
    }
}

#[test]
fn defaults_are_those_of_the_documentation() {
    let config = Config::from_vars(unset()).ok().unwrap();
    assert_eq!(config.database_url, "sqlite://rustbin.db");
    assert_eq!(config.base_url, None);
    assert_eq!(config.host, "0.0.0.0");
    assert_eq!(config.port, 3000);
    assert_eq!(Some(config.max_paste_size), parse_byte_size("2MB"));
    assert_eq!(Some(config.classifier_max_bytes), parse_byte_size("64KB"));
    assert_eq!(Some(config.highlight_max_bytes), parse_byte_size("256KB"));
    assert_eq!(config.render_cache_max_entry_bytes, 2 * 1024 * 1024);
    assert_eq!(config.render_cache_capacity, 128);
    assert_eq!(config.cleanup_interval, 3600);
    assert_eq!(config.db_min_connections, 1);
    assert_eq!(config.db_max_connections, 5);
}

#[test]
fn variables_override_defaults() {
    let mut vars = unset();
    vars.database_url = some("sqlite://x.db");
    vars.base_url = some(" https://bin.example.com// ");
    vars.host = some("127.0.0.1");
    vars.port = some("8080");
    vars.max_paste_size = some("1GB");
    vars.classifier_max_bytes = some("5");
    vars.highlight_max_bytes = some("7 KB");
    vars.render_cache_max_entry_bytes = some("9B");
    vars.render_cache_capacity = some("1");
    vars.cleanup_interval = some("60");
    vars.db_min_connections = some("2");
    vars.db_max_connections = some("3");
    let config = Config::from_vars(vars).ok().unwrap();
    assert_eq!(config.database_url, "sqlite://x.db");
    assert_eq!(config.base_url.as_deref(), Some("https://bin.example.com"));
    assert_eq!(config.host, "127.0.0.1");
    assert_eq!(config.port, 8080);
    assert_eq!(config.max_paste_size, 1 << 30);
    assert_eq!(config.classifier_max_bytes, 5);
    assert_eq!(config.highlight_max_bytes, 7 * 1024);
    assert_eq!(config.render_cache_max_entry_bytes, 9);
    assert_eq!(config.render_cache_capacity, 1);
    assert_eq!(config.cleanup_interval, 60);
    assert_eq!(config.db_min_connections, 2);
    assert_eq!(config.db_max_connections, 3);
    assert_eq!(config.bind_address(), "127.0.0.1:8080");
}

#[test]
fn sizes_take_units() {
    assert_eq!(parse_byte_size("12"), Some(12));
    assert_eq!(parse_byte_size(" 12 B "), Some(12));
    assert_eq!(parse_byte_size("3KB"), Some(3072));
    assert_eq!(parse_byte_size("3 MB"), Some(3 << 20));
    assert_eq!(parse_byte_size("3GB"), Some(3 << 30));
    assert_eq!(parse_byte_size(""), None);
    assert_eq!(parse_byte_size("B"), None);
    assert_eq!(parse_byte_size("3kb"), None);
    assert_eq!(parse_byte_size("-1"), None);
    assert_eq!(parse_byte_size("18446744073709551615B"), Some(usize::MAX));
    assert_eq!(parse_byte_size("18446744073709551615KB"), None);
}

#[test]
fn base_url_needs_a_scheme() {
    let mut vars = unset();
    vars.base_url = some("bin.example.com/");
    assert_eq!(
        complaint(vars),
        "BASE_URL must start with http:// or https://, got: bin.example.com"
    );
    let mut vars = unset();
    vars.base_url = some(" / ");
    assert_eq!(Config::from_vars(vars).ok().unwrap().base_url, None);
}

#[test]
fn wrong_values_are_named() {
    let mut vars = unset();
    vars.port = some("65536");
    assert_eq!(complaint(vars), "invalid value for PORT: 65536");
    let mut vars = unset();
    vars.max_paste_size = some("much");
    assert_eq!(complaint(vars), "invalid value for MAX_PASTE_SIZE: much");
    let mut vars = unset();
    vars.classifier_max_bytes = some("x");
    assert_eq!(complaint(vars), "invalid value for CLASSIFIER_MAX_BYTES: x");
    let mut vars = unset();
    vars.highlight_max_bytes = some("x");
    assert_eq!(complaint(vars), "invalid value for HIGHLIGHT_MAX_BYTES: x");
    let mut vars = unset();
    vars.render_cache_max_entry_bytes = some("x");
    assert_eq!(
        complaint(vars),
        "invalid value for RENDER_CACHE_MAX_ENTRY_BYTES: x"
    );
    let mut vars = unset();
    vars.render_cache_capacity = some("x");
    assert_eq!(complaint(vars), "invalid value for RENDER_CACHE_CAPACITY: x");
    let mut vars = unset();
    vars.render_cache_capacity = some("0");
    assert_eq!(complaint(vars), "RENDER_CACHE_CAPACITY must be non-zero");
    let mut vars = unset();
    vars.cleanup_interval = some("1h");
    assert_eq!(complaint(vars), "invalid value for CLEANUP_INTERVAL: 1h");
    let mut vars = unset();
    vars.db_min_connections = some("4294967296");
    assert_eq!(
        complaint(vars),
        "invalid value for DB_MIN_CONNECTIONS: 4294967296"
    );
    let mut vars = unset();
    vars.db_max_connections = some(" 1");
    assert_eq!(complaint(vars), "invalid value for DB_MAX_CONNECTIONS:  1");
}

#[test]
fn first_wrong_value_is_named() {
    let mut vars = unset();
    vars.db_max_connections = some("x");
    vars.port = some("y");
    assert_eq!(complaint(vars), "invalid value for PORT: y");
}
