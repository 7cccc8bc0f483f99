use rustbin::chars::{is_control, is_whitespace, to_lower, utf8_width};
use rustbin::text::{
    contains, first_word, parse_number, rsplit_once, same, split, starts_with,
    strip_suffix, to_ascii_lowercase, trim, trim_end, trim_end_matches, trim_start,
    trim_start_matches,
};

#[test]
fn character_classes_agree_with_std() {
    for c in '\u{0}'..=char::MAX {
        assert_eq!(is_whitespace(c), c.is_whitespace(), "{c:?}");
        assert_eq!(is_control(c), c.is_control(), "{c:?}");
        assert_eq!(to_lower(c), c.to_ascii_lowercase(), "{c:?}");
        assert_eq!(utf8_width(c), c.len_utf8(), "{c:?}");
    }
}

const SAMPLES: [&str; 12] = [
    "",
    " ",
    "a",
    "  a b  ",
    "\u{3000}x\u{2028}",
    ".a.b.",
    "...",
    "a,b,,c",
    "Mixed \u{c4}\u{d6} CASE",
    "\u{1d11e}\u{1d11e}",
    "\r\n",
    "xx\r\r",
];

#[test]
fn text_functions_agree_with_std() {
    for s in SAMPLES {
        assert_eq!(trim(s), s.trim());
        assert_eq!(trim_start(s), s.trim_start());
        assert_eq!(trim_end(s), s.trim_end());
        assert_eq!(trim_start_matches(s, '.'), s.trim_start_matches('.'));
        assert_eq!(trim_end_matches(s, '\r'), s.trim_end_matches('\r'));
        assert_eq!(rsplit_once(s, '.'), s.rsplit_once('.'));
        assert_eq!(split(s, ','), s.split(',').collect::<Vec<_>>());
        assert_eq!(first_word(s), s.split_whitespace().next().unwrap_or(""));
        assert_eq!(to_ascii_lowercase(s), s.to_ascii_lowercase());
        for t in SAMPLES {
            assert_eq!(same(s, t), s == t);
            assert_eq!(strip_suffix(s, t), s.strip_suffix(t));
            assert_eq!(starts_with(s, t), s.starts_with(t));
            assert_eq!(contains(s, t), s.contains(t));
        }
    }
}

#[test]
fn numbers_agree_with_std() {
    for s in [
        "", "+", "-", "0", "+0", "-0", "007", "+5", "++5", "12a", " 1", "65535", "65536",
        "18446744073709551615", "18446744073709551616", "99999999999999999999999",
    ] {
        assert_eq!(parse_number(s, u64::MAX), s.parse::<u64>().ok(), "{s}");
        assert_eq!(
            parse_number(s, u16::MAX as u64),
            s.parse::<u16>().ok().map(u64::from),
            "{s}"
        );
    }
}
