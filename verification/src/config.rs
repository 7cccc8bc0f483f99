//! The settings of the server, read from environment variables.

use vstd::prelude::*;
use vstd::string::*;
use crate::listing::format_number;
use crate::text::{parse_number, starts_with, strip_suffix, trim, trim_end_matches};

verus! {

/// The values of the environment variables that configure the server, as far as they are set.
pub struct EnvVars {
    /// `DATABASE_URL`
    pub database_url: Option<String>,
    /// `BASE_URL`
    pub base_url: Option<String>,
    /// `HOST`
    pub host: Option<String>,
    /// `PORT`
    pub port: Option<String>,
    /// `MAX_PASTE_SIZE`
    pub max_paste_size: Option<String>,
    /// `CLASSIFIER_MAX_BYTES`
    pub classifier_max_bytes: Option<String>,
    /// `HIGHLIGHT_MAX_BYTES`
    pub highlight_max_bytes: Option<String>,
    /// `RENDER_CACHE_MAX_ENTRY_BYTES`
    pub render_cache_max_entry_bytes: Option<String>,
    /// `RENDER_CACHE_CAPACITY`
    pub render_cache_capacity: Option<String>,
    /// `CLEANUP_INTERVAL`
    pub cleanup_interval: Option<String>,
    /// `DB_MIN_CONNECTIONS`
    pub db_min_connections: Option<String>,
    /// `DB_MAX_CONNECTIONS`
    pub db_max_connections: Option<String>,
}

/// The settings of the server.
pub struct Config {
    pub database_url: String,
    pub base_url: Option<String>,
    pub host: String,
    pub port: u16,
    pub max_paste_size: usize,
    pub classifier_max_bytes: usize,
    pub highlight_max_bytes: usize,
    pub render_cache_max_entry_bytes: usize,
    pub render_cache_capacity: usize,
    pub cleanup_interval: u64,
    pub db_min_connections: u32,
    pub db_max_connections: u32,
}

pub const DEFAULT_PORT: u64 = 3000;

pub const DEFAULT_MAX_PASTE_SIZE: usize = 2097152;

pub const DEFAULT_CLASSIFIER_MAX_BYTES: usize = 65536;

pub const DEFAULT_HIGHLIGHT_MAX_BYTES: usize = 262144;

pub const DEFAULT_RENDER_CACHE_MAX_ENTRY_BYTES: usize = 2097152;

pub const DEFAULT_RENDER_CACHE_CAPACITY: u64 = 128;

pub const DEFAULT_CLEANUP_INTERVAL: u64 = 3600;

pub const DEFAULT_DB_MIN_CONNECTIONS: u64 = 1;

pub const DEFAULT_DB_MAX_CONNECTIONS: u64 = 5;

/// The number and the unit, in bytes, that a size is written with.
pub open spec fn size_parts(s: Seq<char>) -> (Seq<char>, nat) {
    if crate::text::before_suffix(s, "GB"@) is Some {
        (crate::text::trimmed(crate::text::before_suffix(s, "GB"@)->0), 1073741824)
    } else if crate::text::before_suffix(s, "MB"@) is Some {
        (crate::text::trimmed(crate::text::before_suffix(s, "MB"@)->0), 1048576)
    } else if crate::text::before_suffix(s, "KB"@) is Some {
        (crate::text::trimmed(crate::text::before_suffix(s, "KB"@)->0), 1024)
    } else if crate::text::before_suffix(s, "B"@) is Some {
        (crate::text::trimmed(crate::text::before_suffix(s, "B"@)->0), 1)
    } else {
        (s, 1)
    }
}

/// The number of bytes that a text such as `64 KB` stands for, if it can be addressed.
pub open spec fn byte_size(s: Seq<char>) -> Option<nat> {
    let (number, unit) = size_parts(crate::text::trimmed(s));
    match crate::text::parsed(number, usize::MAX as nat) {
        Some(n) => if n * unit <= usize::MAX {
            Some(n * unit)
        } else {
            None
        },
        None => None,
    }
}

/// Reads a number of bytes: a number, optionally followed by `B`, `KB`, `MB` or `GB`.
pub fn parse_byte_size(s: &str) -> (r: Option<usize>)
    ensures
        r matches Some(n) ==> byte_size(s@) == Some(n as nat),
        r is None ==> byte_size(s@) is None,
{
    let t: &str = trim(s);
    let (number, unit): (&str, usize) = match strip_suffix(t, "GB") {
        Some(n) => (trim(n), 1073741824),
        None => match strip_suffix(t, "MB") {
            Some(n) => (trim(n), 1048576),
            None => match strip_suffix(t, "KB") {
                Some(n) => (trim(n), 1024),
                None => match strip_suffix(t, "B") {
                    Some(n) => (trim(n), 1),
                    None => (t, 1),
                },
            },
        },
    };
    assert((number@, unit as nat) == size_parts(crate::text::trimmed(s@)));
    match parse_number(number, usize::MAX as u64) {
        Some(n) => {
            let count: usize = n as usize;
            count.checked_mul(unit)
        },
        None => None,
    }
}

/// The complaint about the value of a variable.
pub open spec fn invalid_value(name: Seq<char>, value: Seq<char>) -> Seq<char> {
    "invalid value for "@ + name + ": "@ + value
}

fn complain(name: &str, value: &str) -> (r: String)
    ensures
        r@ == invalid_value(name@, value@),
{
    let mut out = String::new();
    out.append("invalid value for ");
    out.append(name);
    out.append(": ");
    out.append(value);
    assert(out@ =~= invalid_value(name@, value@));
    out
}

/// The characters of a variable's value.
pub open spec fn value_of(v: Option<String>) -> Option<Seq<char>> {
    match v {
        Some(s) => Some(s@),
        None => None,
    }
}

/// The number in a variable: its default where the variable is not set, and none where its value
/// is not a number up to `max`.
pub open spec fn number_setting(value: Option<Seq<char>>, default: nat, max: nat) -> Option<nat> {
    match value {
        Some(v) => crate::text::parsed(v, max),
        None => Some(default),
    }
}

/// The size in a variable: its default where the variable is not set, and none where its value is
/// not a size.
pub open spec fn size_setting(value: Option<Seq<char>>, default: nat) -> Option<nat> {
    match value {
        Some(v) => byte_size(v),
        None => Some(default),
    }
}

/// Reads the number in a variable.
pub fn parse_env(name: &str, value: &Option<String>, default: u64, max: u64) -> (r: Result<
    u64,
    String,
>)
    requires
        default <= max,
    ensures
        r matches Ok(n) ==> n <= max && number_setting(value_of(*value), default as nat, max as nat)
            == Some(n as nat),
        r matches Err(e) ==> number_setting(value_of(*value), default as nat, max as nat) is None
            && e@ == invalid_value(name@, value_of(*value)->0),
{
    match value {
        Some(text) => match parse_number(text.as_str(), max) {
            Some(n) => Ok(n),
            None => Err(complain(name, text.as_str())),
        },
        None => Ok(default),
    }
}

/// Reads the size in a variable.
pub fn parse_size(name: &str, value: &Option<String>, default: usize) -> (r: Result<usize, String>)
    ensures
        r matches Ok(n) ==> size_setting(value_of(*value), default as nat) == Some(n as nat),
        r matches Err(e) ==> size_setting(value_of(*value), default as nat) is None && e@
            == invalid_value(name@, value_of(*value)->0),
{
    match value {
        Some(text) => match parse_byte_size(text.as_str()) {
            Some(n) => Ok(n),
            None => Err(complain(name, text.as_str())),
        },
        None => Ok(default),
    }
}

/// The base URL without white space around it and slashes at its end; none where nothing is left.
pub open spec fn normal_base(value: Option<Seq<char>>) -> Option<Seq<char>> {
    match value {
        Some(v) => {
            let base = crate::text::without_back(crate::text::trimmed(v), '/');
            if base.len() == 0 {
                None
            } else {
                Some(base)
            }
        },
        None => None,
    }
}

/// Whether a URL names the scheme `http` or `https`.
pub open spec fn has_web_scheme(url: Seq<char>) -> bool {
    "http://"@.is_prefix_of(url) || "https://"@.is_prefix_of(url)
}

/// The first complaint about the variables, if there is one.
pub open spec fn config_error(vars: EnvVars) -> Option<Seq<char>> {
    let base = normal_base(value_of(vars.base_url));
    let port = value_of(vars.port);
    let paste = value_of(vars.max_paste_size);
    let classifier = value_of(vars.classifier_max_bytes);
    let highlight = value_of(vars.highlight_max_bytes);
    let entry = value_of(vars.render_cache_max_entry_bytes);
    let capacity = value_of(vars.render_cache_capacity);
    let interval = value_of(vars.cleanup_interval);
    let min = value_of(vars.db_min_connections);
    let max = value_of(vars.db_max_connections);
    if base is Some && !has_web_scheme(base->0) {
        Some("BASE_URL must start with http:// or https://, got: "@ + base->0)
    } else if number_setting(port, DEFAULT_PORT as nat, u16::MAX as nat) is None {
        Some(invalid_value("PORT"@, port->0))
    } else if size_setting(paste, DEFAULT_MAX_PASTE_SIZE as nat) is None {
        Some(invalid_value("MAX_PASTE_SIZE"@, paste->0))
    } else if size_setting(classifier, DEFAULT_CLASSIFIER_MAX_BYTES as nat) is None {
        Some(invalid_value("CLASSIFIER_MAX_BYTES"@, classifier->0))
    } else if size_setting(highlight, DEFAULT_HIGHLIGHT_MAX_BYTES as nat) is None {
        Some(invalid_value("HIGHLIGHT_MAX_BYTES"@, highlight->0))
    } else if size_setting(entry, DEFAULT_RENDER_CACHE_MAX_ENTRY_BYTES as nat) is None {
        Some(invalid_value("RENDER_CACHE_MAX_ENTRY_BYTES"@, entry->0))
    } else if number_setting(capacity, DEFAULT_RENDER_CACHE_CAPACITY as nat, usize::MAX as nat) is None {
        Some(invalid_value("RENDER_CACHE_CAPACITY"@, capacity->0))
    } else if number_setting(capacity, DEFAULT_RENDER_CACHE_CAPACITY as nat, usize::MAX as nat) == Some(
        0nat,
    ) {
        Some("RENDER_CACHE_CAPACITY must be non-zero"@)
    } else if number_setting(interval, DEFAULT_CLEANUP_INTERVAL as nat, u64::MAX as nat) is None {
        Some(invalid_value("CLEANUP_INTERVAL"@, interval->0))
    } else if number_setting(min, DEFAULT_DB_MIN_CONNECTIONS as nat, u32::MAX as nat) is None {
        Some(invalid_value("DB_MIN_CONNECTIONS"@, min->0))
    } else if number_setting(max, DEFAULT_DB_MAX_CONNECTIONS as nat, u32::MAX as nat) is None {
        Some(invalid_value("DB_MAX_CONNECTIONS"@, max->0))
    } else {
        None
    }
}

impl Config {
    /// What the settings guarantee: something can be cached, and the base URL, if there is one,
    /// is an absolute web address that does not end in a slash.
    pub open spec fn wf(self) -> bool {
        &&& self.render_cache_capacity > 0
        &&& self.base_url matches Some(base) ==> has_web_scheme(base@) && base@.last() != '/'
    }

    /// Whether each setting is what its variable says.
    pub open spec fn reads(self, vars: EnvVars) -> bool {
        &&& self.database_url@ == (match vars.database_url {
            Some(url) => url@,
            None => "sqlite://rustbin.db"@,
        })
        &&& value_of(self.base_url) == normal_base(value_of(vars.base_url))
        &&& self.host@ == (match vars.host {
            Some(host) => host@,
            None => "0.0.0.0"@,
        })
        &&& Some(self.port as nat) == number_setting(
            value_of(vars.port),
            DEFAULT_PORT as nat,
            u16::MAX as nat,
        )
        &&& Some(self.max_paste_size as nat) == size_setting(
            value_of(vars.max_paste_size),
            DEFAULT_MAX_PASTE_SIZE as nat,
        )
        &&& Some(self.classifier_max_bytes as nat) == size_setting(
            value_of(vars.classifier_max_bytes),
            DEFAULT_CLASSIFIER_MAX_BYTES as nat,
        )
        &&& Some(self.highlight_max_bytes as nat) == size_setting(
            value_of(vars.highlight_max_bytes),
            DEFAULT_HIGHLIGHT_MAX_BYTES as nat,
        )
        &&& Some(self.render_cache_max_entry_bytes as nat) == size_setting(
            value_of(vars.render_cache_max_entry_bytes),
            DEFAULT_RENDER_CACHE_MAX_ENTRY_BYTES as nat,
        )
        &&& Some(self.render_cache_capacity as nat) == number_setting(
            value_of(vars.render_cache_capacity),
            DEFAULT_RENDER_CACHE_CAPACITY as nat,
            usize::MAX as nat,
        )
        &&& Some(self.cleanup_interval as nat) == number_setting(
            value_of(vars.cleanup_interval),
            DEFAULT_CLEANUP_INTERVAL as nat,
            u64::MAX as nat,
        )
        &&& Some(self.db_min_connections as nat) == number_setting(
            value_of(vars.db_min_connections),
            DEFAULT_DB_MIN_CONNECTIONS as nat,
            u32::MAX as nat,
        )
        &&& Some(self.db_max_connections as nat) == number_setting(
            value_of(vars.db_max_connections),
            DEFAULT_DB_MAX_CONNECTIONS as nat,
            u32::MAX as nat,
        )
    }

    /// Reads the settings, or says what is wrong with the first variable that is.
    pub fn from_vars(vars: EnvVars) -> (r: Result<Config, String>)
        ensures
            r matches Ok(config) ==> config_error(vars) is None && config.reads(vars)
                && config.wf(),
            r matches Err(e) ==> config_error(vars) == Some(e@),
    {
        let database_url: String = match &vars.database_url {
            Some(url) => url.clone(),
            None => "sqlite://rustbin.db".to_owned(),
        };
        let base_url: Option<String> = read_base(&vars.base_url);
        if let Some(base) = &base_url {
            if !starts_with(base.as_str(), "http://") && !starts_with(base.as_str(), "https://") {
                let mut message: String = "BASE_URL must start with http:// or https://, got: ".to_owned();
                message.append(base.as_str());
                return Err(message);
            }
        }
        let host: String = match &vars.host {
            Some(host) => host.clone(),
            None => "0.0.0.0".to_owned(),
        };
        let port: u64 = match parse_env("PORT", &vars.port, DEFAULT_PORT, u16::MAX as u64) {
            Ok(n) => n,
            Err(e) => return Err(e),
        };
        let max_paste_size: usize = match parse_size(
            "MAX_PASTE_SIZE",
            &vars.max_paste_size,
            DEFAULT_MAX_PASTE_SIZE,
        ) {
            Ok(n) => n,
            Err(e) => return Err(e),
        };
        let classifier_max_bytes: usize = match parse_size(
            "CLASSIFIER_MAX_BYTES",
            &vars.classifier_max_bytes,
            DEFAULT_CLASSIFIER_MAX_BYTES,
        ) {
            Ok(n) => n,
            Err(e) => return Err(e),
        };
        let highlight_max_bytes: usize = match parse_size(
            "HIGHLIGHT_MAX_BYTES",
            &vars.highlight_max_bytes,
            DEFAULT_HIGHLIGHT_MAX_BYTES,
        ) {
            Ok(n) => n,
            Err(e) => return Err(e),
        };
        let render_cache_max_entry_bytes: usize = match parse_size(
            "RENDER_CACHE_MAX_ENTRY_BYTES",
            &vars.render_cache_max_entry_bytes,
            DEFAULT_RENDER_CACHE_MAX_ENTRY_BYTES,
        ) {
            Ok(n) => n,
            Err(e) => return Err(e),
        };
        let render_cache_capacity: u64 = match parse_env(
            "RENDER_CACHE_CAPACITY",
            &vars.render_cache_capacity,
            DEFAULT_RENDER_CACHE_CAPACITY,
            usize::MAX as u64,
        ) {
            Ok(n) => n,
            Err(e) => return Err(e),
        };
        if render_cache_capacity == 0 {
            return Err("RENDER_CACHE_CAPACITY must be non-zero".to_owned());
        }
        let cleanup_interval: u64 = match parse_env(
            "CLEANUP_INTERVAL",
            &vars.cleanup_interval,
            DEFAULT_CLEANUP_INTERVAL,
            u64::MAX,
        ) {
            Ok(n) => n,
            Err(e) => return Err(e),
        };
        let db_min_connections: u64 = match parse_env(
            "DB_MIN_CONNECTIONS",
            &vars.db_min_connections,
            DEFAULT_DB_MIN_CONNECTIONS,
            u32::MAX as u64,
        ) {
            Ok(n) => n,
            Err(e) => return Err(e),
        };
        let db_max_connections: u64 = match parse_env(
            "DB_MAX_CONNECTIONS",
            &vars.db_max_connections,
            DEFAULT_DB_MAX_CONNECTIONS,
            u32::MAX as u64,
        ) {
            Ok(n) => n,
            Err(e) => return Err(e),
        };
        Ok(
            Config {
                database_url,
                base_url,
                host,
                port: port as u16,
                max_paste_size,
                classifier_max_bytes,
                highlight_max_bytes,
                render_cache_max_entry_bytes,
                render_cache_capacity: render_cache_capacity as usize,
                cleanup_interval,
                db_min_connections: db_min_connections as u32,
                db_max_connections: db_max_connections as u32,
            },
        )
    }
}

impl Config {
    /// The address that the server listens on.
    pub fn bind_address(&self) -> (r: String)
        ensures
            r@ == self.host@ + ":"@ + crate::listing::decimal(self.port as nat),
            r@ == socket_address(self.host@, self.port as nat),
    {
        let mut out: String = self.host.clone();
        out.append(":");
        out.append(format_number(self.port as u64).as_str());
        out
    }
}

/// Normalizes the base URL.
fn read_base(value: &Option<String>) -> (r: Option<String>)
    ensures
        value_of(r) == normal_base(value_of(*value)),
        r matches Some(base) ==> base@.len() > 0 && base@.last() != '/',
{
    match value {
        Some(text) => {
            let base: &str = trim_end_matches(trim(text.as_str()), '/');
            proof {
                crate::text::lemma_last_end(
                    crate::text::trimmed(text@),
                    crate::chars::Class::IsNot('/'),
                );
            }
            if base.is_empty() {
                None
            } else {
                Some(base.to_owned())
            }
        },
        None => None,
    }
}

/// A size is a number of bytes, or of units of 1024, 1024 times 1024 or 1024 times that bytes, with
/// white space around it and before the unit or without.
pub proof fn law_sizes_are_read(a: Seq<char>, n: nat, gap: Seq<char>, b: Seq<char>)
    requires
        forall|i: int| 0 <= i < a.len() ==> crate::chars::is_white(#[trigger] a[i]),
        forall|i: int| 0 <= i < gap.len() ==> crate::chars::is_white(#[trigger] gap[i]),
        forall|i: int| 0 <= i < b.len() ==> crate::chars::is_white(#[trigger] b[i]),
        n * 1073741824 <= usize::MAX,
    ensures
        byte_size(a + crate::listing::decimal(n) + b) == Some(n),
        byte_size(a + (crate::listing::decimal(n) + gap + seq!['B']) + b) == Some(n),
        byte_size(a + (crate::listing::decimal(n) + gap + seq!['K', 'B']) + b) == Some(n * 1024),
        byte_size(a + (crate::listing::decimal(n) + gap + seq!['M', 'B']) + b) == Some(
            n * 1048576,
        ),
        byte_size(a + (crate::listing::decimal(n) + gap + seq!['G', 'B']) + b) == Some(
            n * 1073741824,
        ),
{
    reveal_strlit("GB");
    reveal_strlit("MB");
    reveal_strlit("KB");
    reveal_strlit("B");
    assert("GB"@ =~= seq!['G', 'B']);
    assert("MB"@ =~= seq!['M', 'B']);
    assert("KB"@ =~= seq!['K', 'B']);
    assert("B"@ =~= seq!['B']);
    let d = crate::listing::decimal(n);
    crate::listing::law_decimal_is_read_back(n);
    assert('0' <= d[0] <= '9');
    assert('0' <= d[d.len() - 1] <= '9');
    crate::text::law_numbers_are_read(d, n, usize::MAX as nat);
    crate::text::law_white_space_is_trimmed(a, d, b);
    lemma_size_ends(d);
    crate::text::law_white_space_is_trimmed(seq![], d, gap);
    assert(seq![] + d + gap =~= d + gap);
    let t1 = d + gap + seq!['B'];
    let t2 = d + gap + seq!['K', 'B'];
    let t3 = d + gap + seq!['M', 'B'];
    let t4 = d + gap + seq!['G', 'B'];
    assert(t1[0] == d[0] && t2[0] == d[0] && t3[0] == d[0] && t4[0] == d[0]);
    crate::text::law_white_space_is_trimmed(a, t1, b);
    crate::text::law_white_space_is_trimmed(a, t2, b);
    crate::text::law_white_space_is_trimmed(a, t3, b);
    crate::text::law_white_space_is_trimmed(a, t4, b);
    crate::text::law_suffix_is_taken_off(t1, d + gap, seq!['B']);
    crate::text::law_suffix_is_taken_off(t2, d + gap, seq!['K', 'B']);
    crate::text::law_suffix_is_taken_off(t3, d + gap, seq!['M', 'B']);
    crate::text::law_suffix_is_taken_off(t4, d + gap, seq!['G', 'B']);
    lemma_size_ends(t1);
    lemma_size_ends(t2);
    lemma_size_ends(t3);
    lemma_size_ends(t4);
    let last = (d + gap).last();
    assert(last != 'K' && last != 'M' && last != 'G') by {
        if gap.len() > 0 {
            assert(last == gap[gap.len() - 1]);
        } else {
            assert(last == d[d.len() - 1]);
        }
    }
    assert(t1[t1.len() - 2] == last);
    assert(t2[t2.len() - 2] == 'K');
    assert(t3[t3.len() - 2] == 'M');
    assert(t4[t4.len() - 2] == 'G');
    assert(size_parts(d) == (d, 1nat));
    assert(size_parts(t1) == (d, 1nat));
    assert(size_parts(t2) == (d, 1024nat));
    assert(size_parts(t3) == (d, 1048576nat));
    assert(size_parts(t4) == (d, 1073741824nat));
    assert(n * 1nat == n);
}

proof fn lemma_size_ends(s: Seq<char>)
    ensures
        seq!['B'].is_suffix_of(s) ==> s.len() > 0 && s[s.len() - 1] == 'B',
        seq!['K', 'B'].is_suffix_of(s) ==> s.len() > 1 && s[s.len() - 1] == 'B' && s[s.len() - 2]
            == 'K',
        seq!['M', 'B'].is_suffix_of(s) ==> s.len() > 1 && s[s.len() - 1] == 'B' && s[s.len() - 2]
            == 'M',
        seq!['G', 'B'].is_suffix_of(s) ==> s.len() > 1 && s[s.len() - 1] == 'B' && s[s.len() - 2]
            == 'G',
{
    if seq!['B'].is_suffix_of(s) {
        assert(s.subrange(s.len() - 1, s.len() as int)[0] == 'B');
    }
    if seq!['K', 'B'].is_suffix_of(s) {
        assert(s.subrange(s.len() - 2, s.len() as int)[0] == 'K');
        assert(s.subrange(s.len() - 2, s.len() as int)[1] == 'B');
    }
    if seq!['M', 'B'].is_suffix_of(s) {
        assert(s.subrange(s.len() - 2, s.len() as int)[0] == 'M');
        assert(s.subrange(s.len() - 2, s.len() as int)[1] == 'B');
    }
    if seq!['G', 'B'].is_suffix_of(s) {
        assert(s.subrange(s.len() - 2, s.len() as int)[0] == 'G');
        assert(s.subrange(s.len() - 2, s.len() as int)[1] == 'B');
    }
}

/// The configured address loses white space around it and slashes at its end, and nothing else;
/// one of which nothing is left counts as none.
pub proof fn law_base_address_is_tidied(
    a: Seq<char>,
    base: Seq<char>,
    slashes: Seq<char>,
    b: Seq<char>,
)
    requires
        forall|i: int| 0 <= i < a.len() ==> crate::chars::is_white(#[trigger] a[i]),
        forall|i: int| 0 <= i < b.len() ==> crate::chars::is_white(#[trigger] b[i]),
        forall|i: int| 0 <= i < slashes.len() ==> #[trigger] slashes[i] == '/',
        base.len() > 0 ==> !crate::chars::is_white(base[0]) && !crate::chars::is_white(base.last())
            && base.last() != '/',
    ensures
        normal_base(Some(a + (base + slashes) + b)) == (if base.len() > 0 {
            Some(base)
        } else {
            None
        }),
        normal_base(None) is None,
{
    let t = base + slashes;
    if t.len() > 0 {
        if slashes.len() > 0 {
            assert(t.last() == slashes[slashes.len() - 1]);
        } else {
            assert(t.last() == base.last());
        }
        if base.len() > 0 {
            assert(t[0] == base[0]);
        } else {
            assert(t[0] == slashes[0]);
        }
    }
    crate::text::law_white_space_is_trimmed(a, t, b);
    let n = base.len() as int;
    let class = crate::chars::Class::IsNot('/');
    if n > 0 {
        assert(t[n - 1] == base.last());
    }
    assert forall|i: int| n <= i < t.len() implies !class.has_char(#[trigger] t[i]) by {
        assert(t[i] == slashes[i - n]);
    }
    crate::text::lemma_last_end_is(t, class, n);
    assert(t.take(n) =~= base);
}

/// Where a variable is not set, the setting is what the documentation gives.
pub proof fn law_settings_have_defaults(config: Config, vars: EnvVars)
    requires
        config.reads(vars),
    ensures
        vars.base_url is None ==> config.base_url is None,
        vars.database_url is None ==> config.database_url@ == "sqlite://rustbin.db"@,
        vars.host is None ==> config.host@ == "0.0.0.0"@,
        vars.port is None ==> config.port == 3000,
        vars.max_paste_size is None ==> config.max_paste_size == 2 * 1024 * 1024,
        vars.classifier_max_bytes is None ==> config.classifier_max_bytes == 64 * 1024,
        vars.highlight_max_bytes is None ==> config.highlight_max_bytes == 256 * 1024,
        vars.render_cache_max_entry_bytes is None ==> config.render_cache_max_entry_bytes == 2 * 1024
            * 1024,
        vars.render_cache_capacity is None ==> config.render_cache_capacity == 128,
        vars.cleanup_interval is None ==> config.cleanup_interval == 3600,
        vars.db_min_connections is None ==> config.db_min_connections == 1,
        vars.db_max_connections is None ==> config.db_max_connections == 5,
{
}

/// A variable that is set decides its own setting, and no other one does.
pub proof fn law_variables_decide_their_settings(config: Config, vars: EnvVars, n: nat)
    requires
        config.reads(vars),
    ensures
        vars.database_url matches Some(url) ==> config.database_url@ == url@,
        vars.host matches Some(host) ==> config.host@ == host@,
        vars.port matches Some(v) ==> v@ == crate::listing::decimal(n) ==> config.port == n,
        vars.max_paste_size matches Some(v) ==> v@ == crate::listing::decimal(n)
            ==> config.max_paste_size == n,
        vars.classifier_max_bytes matches Some(v) ==> v@ == crate::listing::decimal(n)
            ==> config.classifier_max_bytes == n,
        vars.highlight_max_bytes matches Some(v) ==> v@ == crate::listing::decimal(n)
            ==> config.highlight_max_bytes == n,
        vars.render_cache_max_entry_bytes matches Some(v) ==> v@ == crate::listing::decimal(n)
            ==> config.render_cache_max_entry_bytes == n,
        vars.render_cache_capacity matches Some(v) ==> v@ == crate::listing::decimal(n)
            ==> config.render_cache_capacity == n,
        vars.cleanup_interval matches Some(v) ==> v@ == crate::listing::decimal(n)
            ==> config.cleanup_interval == n,
        vars.db_min_connections matches Some(v) ==> v@ == crate::listing::decimal(n)
            ==> config.db_min_connections == n,
        vars.db_max_connections matches Some(v) ==> v@ == crate::listing::decimal(n)
            ==> config.db_max_connections == n,
{
    let d = crate::listing::decimal(n);
    crate::text::law_numbers_are_read(d, n, u16::MAX as nat);
    crate::text::law_numbers_are_read(d, n, u32::MAX as nat);
    crate::text::law_numbers_are_read(d, n, u64::MAX as nat);
    crate::text::law_numbers_are_read(d, n, usize::MAX as nat);
    lemma_bare_size(n);
}

proof fn lemma_bare_size(n: nat)
    ensures
        byte_size(crate::listing::decimal(n)) == (if n <= usize::MAX {
            Some(n)
        } else {
            None
        }),
{
    reveal_strlit("GB");
    reveal_strlit("MB");
    reveal_strlit("KB");
    reveal_strlit("B");
    assert("GB"@ =~= seq!['G', 'B']);
    assert("MB"@ =~= seq!['M', 'B']);
    assert("KB"@ =~= seq!['K', 'B']);
    assert("B"@ =~= seq!['B']);
    let d = crate::listing::decimal(n);
    crate::listing::law_decimal_is_read_back(n);
    assert('0' <= d[0] <= '9');
    assert('0' <= d[d.len() - 1] <= '9');
    crate::text::law_white_space_is_trimmed(seq![], d, seq![]);
    assert(seq![] + d + seq![] =~= d);
    crate::text::law_numbers_are_read(d, n, usize::MAX as nat);
    lemma_size_ends(d);
    assert(size_parts(d) == (d, 1nat));
    assert(n * 1nat == n);
}

/// Settings are refused where a number or a size is not one, where the cache could hold nothing,
/// and where the configured address has no web scheme.
pub proof fn law_wrong_settings_are_refused(vars: EnvVars)
    ensures
        value_of(vars.port) matches Some(v) ==> crate::text::parsed(v, 65535) is None
            ==> config_error(vars) is Some,
        value_of(vars.max_paste_size) matches Some(v) ==> byte_size(v) is None ==> config_error(
            vars,
        ) is Some,
        value_of(vars.classifier_max_bytes) matches Some(v) ==> byte_size(v) is None
            ==> config_error(vars) is Some,
        value_of(vars.highlight_max_bytes) matches Some(v) ==> byte_size(v) is None
            ==> config_error(vars) is Some,
        value_of(vars.render_cache_max_entry_bytes) matches Some(v) ==> byte_size(v) is None
            ==> config_error(vars) is Some,
        value_of(vars.render_cache_capacity) == Some(seq!['0']) ==> config_error(vars) is Some,
        value_of(vars.db_max_connections) matches Some(v) ==> crate::text::parsed(
            v,
            u32::MAX as nat,
        ) is None ==> config_error(vars) is Some,
        value_of(vars.db_min_connections) matches Some(v) ==> crate::text::parsed(
            v,
            u32::MAX as nat,
        ) is None ==> config_error(vars) is Some,
        value_of(vars.cleanup_interval) matches Some(v) ==> crate::text::parsed(
            v,
            u64::MAX as nat,
        ) is None ==> config_error(vars) is Some,
        normal_base(value_of(vars.base_url)) matches Some(base) ==> base.len() < 7
            ==> config_error(vars) is Some,
        vars.base_url is None && vars.port is None && vars.max_paste_size is None
            && vars.classifier_max_bytes is None && vars.highlight_max_bytes is None
            && vars.render_cache_max_entry_bytes is None && vars.render_cache_capacity is None
            && vars.cleanup_interval is None && vars.db_min_connections is None
            && vars.db_max_connections is None ==> config_error(vars) is None,
{
    reveal_strlit("http://");
    reveal_strlit("https://");
    assert(crate::listing::decimal(0) =~= seq!['0']);
    crate::text::law_numbers_are_read(seq!['0'], 0, usize::MAX as nat);
}

/// The address that a server with the given host and port listens on.
pub open spec fn socket_address(host: Seq<char>, port: nat) -> Seq<char> {
    host + ":"@ + crate::listing::decimal(port)
}

/// What stands before the last colon of an address is the host, and what stands behind it is the
/// port.
pub proof fn law_addresses_hold_host_and_port(host: Seq<char>, port: nat)
    ensures
        crate::text::last_split(socket_address(host, port), ':') matches Some((h, p)) && h == host
            && crate::text::decimal_value(p) == port,
{
    reveal_strlit(":");
    assert(":"@ =~= seq![':']);
    let d = crate::listing::decimal(port);
    crate::listing::law_decimal_is_read_back(port);
    assert(!d.contains(':'));
    crate::text::law_split_at_the_last(host, ':', d);
}

/// The variables, with none of those set that hold numbers, sizes or the address.
pub open spec fn bare(vars: EnvVars) -> EnvVars {
    EnvVars {
        base_url: None,
        port: None,
        max_paste_size: None,
        classifier_max_bytes: None,
        highlight_max_bytes: None,
        render_cache_max_entry_bytes: None,
        render_cache_capacity: None,
        cleanup_interval: None,
        db_min_connections: None,
        db_max_connections: None,
        ..vars
    }
}

/// A variable that is no number or no size is refused by its name and with its value.
pub proof fn law_refusals_name_the_variable(vars: EnvVars, value: String)
    requires
        crate::text::parsed(value@, u64::MAX as nat) is None,
        byte_size(value@) is None,
    ensures
        config_error((EnvVars { port: Some(value), ..bare(vars) })) == Some(
            "invalid value for "@ + "PORT"@ + ": "@ + value@,
        ),
        config_error((EnvVars { max_paste_size: Some(value), ..bare(vars) })) == Some(
            "invalid value for "@ + "MAX_PASTE_SIZE"@ + ": "@ + value@,
        ),
        config_error((EnvVars { classifier_max_bytes: Some(value), ..bare(vars) })) == Some(
            "invalid value for "@ + "CLASSIFIER_MAX_BYTES"@ + ": "@ + value@,
        ),
        config_error((EnvVars { highlight_max_bytes: Some(value), ..bare(vars) })) == Some(
            "invalid value for "@ + "HIGHLIGHT_MAX_BYTES"@ + ": "@ + value@,
        ),
        config_error((EnvVars { render_cache_max_entry_bytes: Some(value), ..bare(vars) })) == Some(
            "invalid value for "@ + "RENDER_CACHE_MAX_ENTRY_BYTES"@ + ": "@ + value@,
        ),
        config_error((EnvVars { render_cache_capacity: Some(value), ..bare(vars) })) == Some(
            "invalid value for "@ + "RENDER_CACHE_CAPACITY"@ + ": "@ + value@,
        ),
        config_error((EnvVars { cleanup_interval: Some(value), ..bare(vars) })) == Some(
            "invalid value for "@ + "CLEANUP_INTERVAL"@ + ": "@ + value@,
        ),
        config_error((EnvVars { db_min_connections: Some(value), ..bare(vars) })) == Some(
            "invalid value for "@ + "DB_MIN_CONNECTIONS"@ + ": "@ + value@,
        ),
        config_error((EnvVars { db_max_connections: Some(value), ..bare(vars) })) == Some(
            "invalid value for "@ + "DB_MAX_CONNECTIONS"@ + ": "@ + value@,
        ),
{
    lemma_no_smaller_number(value@, 65535);
    lemma_no_smaller_number(value@, u32::MAX as nat);
    lemma_no_smaller_number(value@, usize::MAX as nat);
}

proof fn lemma_no_smaller_number(s: Seq<char>, max: nat)
    requires
        crate::text::parsed(s, u64::MAX as nat) is None,
        max <= u64::MAX,
    ensures
        crate::text::parsed(s, max) is None,
{
}

/// An address without a web scheme and a cache for nothing are refused with what is wrong.
pub proof fn law_other_refusals_say_what_is_wrong(vars: EnvVars, value: String)
    ensures
        value@ == seq!['0'] ==> config_error(
            (EnvVars { render_cache_capacity: Some(value), ..bare(vars) }),
        ) == Some("RENDER_CACHE_CAPACITY must be non-zero"@),
        normal_base(value_of(vars.base_url)) matches Some(base) ==> !has_web_scheme(base)
            ==> config_error(vars) == Some(
            "BASE_URL must start with http:// or https://, got: "@ + base,
        ),
{
    assert(crate::listing::decimal(0) =~= seq!['0']);
    crate::text::law_numbers_are_read(seq!['0'], 0, usize::MAX as nat);
}

} // verus!
