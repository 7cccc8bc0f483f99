//! The lines of a text and how much of a text is looked at.

use syntect::util::LinesWithEndings;
use vstd::prelude::*;
use vstd::std_specs::iter::*;
use vstd::string::*;
use vstd::utf8::*;
use crate::chars::{utf8_width, Class};
use crate::text::{cut, strip_suffix};

verus! {

/// The lines of a text, each with the line feed that ends it.
pub open spec fn lines(s: Seq<char>) -> Seq<Seq<char>>
    decreases s.len(),
{
    let p = crate::text::first_pos(s, Class::Is('\n'));
    if s.len() == 0 {
        seq![]
    } else if 0 <= p < s.len() {
        seq![s.take(p + 1)] + lines(s.skip(p + 1))
    } else {
        seq![s]
    }
}

/// The texts put one after the other.
pub open spec fn joined(v: Seq<Seq<char>>) -> Seq<char>
    decreases v.len(),
{
    if v.len() == 0 {
        seq![]
    } else {
        joined(v.drop_last()) + v.last()
    }
}

/// The number of line feeds in a text.
pub open spec fn feeds(s: Seq<char>) -> nat
    decreases s.len(),
{
    if s.len() == 0 {
        0
    } else {
        (if s[0] == '\n' {
            1nat
        } else {
            0nat
        }) + feeds(s.drop_first())
    }
}

/// How often a byte occurs.
pub open spec fn occurrences(bytes: Seq<u8>, byte: u8) -> nat
    decreases bytes.len(),
{
    if bytes.len() == 0 {
        0
    } else {
        occurrences(bytes.drop_last(), byte) + (if bytes.last() == byte {
            1nat
        } else {
            0nat
        })
    }
}

/// The number of bytes that a text takes in UTF-8.
pub open spec fn size(s: Seq<char>) -> nat {
    encode_utf8(s).len()
}

/// The byte of a line feed.
pub const LINE_FEED: u8 = 10;

/// Splits a text into its lines (`syntect::util::LinesWithEndings`).
///
/// Every line but the last ends in the first line feed after its start; the last one may lack
/// it. An empty text has no lines.
#[verifier::external_body]
pub(crate) fn split_lines<'a>(s: &'a str) -> (r: Vec<&'a str>)
    ensures
        crate::text::texts(r@) == lines(s@),
{
    LinesWithEndings::from(s).collect()
}

/// Counts the occurrences of a byte (`bytecount::count`).
#[verifier::external_body]
pub(crate) fn count_byte(bytes: &[u8], byte: u8) -> (r: usize)
    ensures
        r == occurrences(bytes@, byte),
{
    bytecount::count(bytes, byte)
}

proof fn lemma_occurrences_concat(a: Seq<u8>, b: Seq<u8>, byte: u8)
    ensures
        occurrences(a + b, byte) == occurrences(a, byte) + occurrences(b, byte),
    decreases b.len(),
{
    if b.len() == 0 {
        assert(a + b =~= a);
    } else {
        assert((a + b).drop_last() =~= a + b.drop_last());
        lemma_occurrences_concat(a, b.drop_last(), byte);
    }
}

proof fn lemma_scalar_feed(c: char)
    ensures
        occurrences(encode_scalar(c as u32), 10u8) == (if c == '\n' {
            1nat
        } else {
            0nat
        }),
{
    let v: u32 = c as u32;
    char_is_scalar(c);
    assert(v <= 0x7f ==> ((v & 0x7f) as u8 == 10u8 <==> v == 10)) by (bit_vector);
    assert(0xc0u8 | ((v >> 6) & 0x1f) as u8 != 10u8) by (bit_vector);
    assert(0xe0u8 | ((v >> 12) & 0x0f) as u8 != 10u8) by (bit_vector);
    assert(0xf0u8 | ((v >> 18) & 0x07) as u8 != 10u8) by (bit_vector);
    assert(0x80u8 | (v & 0x3f) as u8 != 10u8) by (bit_vector);
    assert(0x80u8 | ((v >> 6) & 0x3f) as u8 != 10u8) by (bit_vector);
    assert(0x80u8 | ((v >> 12) & 0x3f) as u8 != 10u8) by (bit_vector);
    reveal_with_fuel(occurrences, 5);
}

/// Line feeds can be counted in the bytes of a text.
pub proof fn lemma_feeds_are_bytes(s: Seq<char>)
    ensures
        occurrences(encode_utf8(s), 10u8) == feeds(s),
    decreases s.len(),
{
    if s.len() > 0 {
        lemma_feeds_are_bytes(s.drop_first());
        lemma_scalar_feed(s[0]);
        lemma_occurrences_concat(encode_scalar(s[0] as u32), encode_utf8(s.drop_first()), 10u8);
    }
}

proof fn lemma_feeds_concat(a: Seq<char>, b: Seq<char>)
    ensures
        feeds(a + b) == feeds(a) + feeds(b),
    decreases a.len(),
{
    if a.len() == 0 {
        assert(a + b =~= b);
    } else {
        assert((a + b).drop_first() =~= a.drop_first() + b);
        lemma_feeds_concat(a.drop_first(), b);
    }
}

proof fn lemma_feeds_none(s: Seq<char>)
    requires
        forall|i: int| 0 <= i < s.len() ==> #[trigger] s[i] != '\n',
    ensures
        feeds(s) == 0,
    decreases s.len(),
{
    if s.len() > 0 {
        assert(s[0] != '\n');
        assert forall|i: int| 0 <= i < s.drop_first().len() implies #[trigger] s.drop_first()[i]
            != '\n' by {
            assert(s.drop_first()[i] == s[i + 1]);
        }
        lemma_feeds_none(s.drop_first());
    }
}

/// The first line of a text: it is not empty, and the other lines are those of what follows it.
pub proof fn lemma_first_line(s: Seq<char>)
    requires
        s.len() > 0,
    ensures
        lines(s).len() > 0,
        0 < lines(s)[0].len() <= s.len(),
        lines(s)[0] == s.take(lines(s)[0].len() as int),
        lines(s).drop_first() == lines(s.skip(lines(s)[0].len() as int)),
        lines(s)[0].last() == '\n' || lines(s)[0].len() == s.len(),
        feeds(lines(s)[0]) == (if lines(s)[0].last() == '\n' {
            1nat
        } else {
            0nat
        }),
{
    let class = Class::Is('\n');
    let p = crate::text::first_pos(s, class);
    crate::text::lemma_first_pos(s, class);
    if p < s.len() {
        let line = s.take(p + 1);
        assert(lines(s)[0] == line);
        assert(lines(s).drop_first() =~= lines(s.skip(p + 1)));
        assert(line =~= s.take(p) + seq!['\n']);
        lemma_feeds_none(s.take(p));
        lemma_feeds_concat(s.take(p), seq!['\n']);
        assert(seq!['\n'].drop_first() =~= seq![]);
        assert(feeds(seq!['\n']) == 1) by {
            reveal_with_fuel(feeds, 2);
        }
    } else {
        assert(lines(s)[0] == s);
        assert(s.take(s.len() as int) =~= s);
        assert(s.skip(s.len() as int) =~= seq![]);
        assert(lines(s).drop_first() =~= seq![]);
        assert(lines(s.skip(s.len() as int)) =~= seq![]);
        lemma_feeds_none(s);
        assert(s.last() == s[s.len() - 1]);
    }
}

proof fn lemma_joined_front(h: Seq<char>, v: Seq<Seq<char>>)
    ensures
        joined(seq![h] + v) == h + joined(v),
    decreases v.len(),
{
    if v.len() == 0 {
        assert((seq![h] + v).drop_last() =~= seq![]);
        assert(joined(seq![]) =~= seq![]);
        assert(h + joined(v) =~= h);
        assert(joined(seq![h] + v) =~= h);
    } else {
        assert((seq![h] + v).drop_last() =~= seq![h] + v.drop_last());
        lemma_joined_front(h, v.drop_last());
        assert((h + joined(v.drop_last())) + v.last() =~= h + (joined(v.drop_last()) + v.last()));
    }
}

/// A text is its lines, put one after the other.
pub proof fn law_lines_make_up_the_text(s: Seq<char>)
    ensures
        joined(lines(s)) == s,
    decreases s.len(),
{
    if s.len() > 0 {
        lemma_first_line(s);
        let n = lines(s)[0].len() as int;
        law_lines_make_up_the_text(s.skip(n));
        assert(lines(s) =~= seq![lines(s)[0]] + lines(s).drop_first());
        lemma_joined_front(lines(s)[0], lines(s).drop_first());
        assert(s.take(n) + s.skip(n) =~= s);
    } else {
        assert(joined(lines(s)) =~= s);
    }
}

/// There are as many lines as line feeds, and one more where the last line lacks its line feed.
pub proof fn law_line_count(s: Seq<char>)
    ensures
        lines(s).len() == feeds(s) + (if s.len() > 0 && s.last() != '\n' {
            1nat
        } else {
            0nat
        }),
    decreases s.len(),
{
    if s.len() > 0 {
        lemma_first_line(s);
        let n = lines(s)[0].len() as int;
        let rest = s.skip(n);
        law_line_count(rest);
        assert(s.take(n) + rest =~= s);
        lemma_feeds_concat(s.take(n), rest);
        if rest.len() > 0 {
            assert(rest.last() == s.last());
        }
    }
}

/// The text of a line without its line ending.
pub open spec fn line_text(s: Seq<char>) -> Seq<char> {
    if seq!['\r', '\n'].is_suffix_of(s) {
        s.take(s.len() - 2)
    } else if s.len() > 0 && (s.last() == '\n' || s.last() == '\r') {
        s.drop_last()
    } else {
        s
    }
}

/// Drops the `\r\n`, `\n` or `\r` that ends a line.
pub fn trim_line_ending(line: &str) -> (r: &str)
    ensures
        r@ == line_text(line@),
{
    proof {
        reveal_strlit("\r\n");
        reveal_strlit("\n");
        reveal_strlit("\r");
        assert("\r\n"@ =~= seq!['\r', '\n']);
        assert("\n"@ =~= seq!['\n']);
        assert("\r"@ =~= seq!['\r']);
        lemma_one_suffix(line@, '\n');
        lemma_one_suffix(line@, '\r');
    }
    match strip_suffix(line, "\r\n") {
        Some(text) => text,
        None => match strip_suffix(line, "\n") {
            Some(text) => text,
            None => match strip_suffix(line, "\r") {
                Some(text) => text,
                None => line,
            },
        },
    }
}

proof fn lemma_one_suffix(s: Seq<char>, c: char)
    ensures
        seq![c].is_suffix_of(s) <==> s.len() > 0 && s.last() == c,
        s.len() > 0 ==> s.take(s.len() - 1) == s.drop_last(),
{
    if s.len() > 0 {
        assert(s.take(s.len() - 1) =~= s.drop_last());
        if s.last() == c {
            assert(s.subrange(s.len() - 1, s.len() as int) =~= seq![c]);
        }
        if seq![c].is_suffix_of(s) {
            assert(s.subrange(s.len() - 1, s.len() as int)[0] == c);
        }
    }
}

/// How many characters of `s`, from its start, fit into `max` bytes.
pub open spec fn fit(s: Seq<char>, max: int) -> int
    decreases s.len(),
{
    if s.len() == 0 || encode_scalar(s[0] as u32).len() > max {
        0
    } else {
        1 + fit(s.drop_first(), max - encode_scalar(s[0] as u32).len())
    }
}

/// The longest start of `s` that takes at most `max` bytes.
pub open spec fn fitted(s: Seq<char>, max: int) -> Seq<char> {
    s.take(fit(s, max))
}

/// The start that fits takes no more bytes than allowed, and one more character would.
pub proof fn law_fitted(s: Seq<char>, max: int)
    requires
        0 <= max,
    ensures
        0 <= fit(s, max) <= s.len(),
        size(fitted(s, max)) <= max,
        fit(s, max) < s.len() ==> size(s.take(fit(s, max) + 1)) > max,
    decreases s.len(),
{
    if s.len() > 0 {
        let w = encode_scalar(s[0] as u32).len();
        assert(s.take(1) =~= seq![s[0]]);
        assert(s.take(1).drop_first() =~= seq![]);
        assert(encode_utf8(seq![]) =~= seq![]);
        assert(size(s.take(1)) == w);
        if w <= max {
            let rest = s.drop_first();
            law_fitted(rest, max - w);
            let n = fit(rest, max - w);
            assert(s.take(n + 1).drop_first() =~= rest.take(n));
            assert(size(s.take(n + 1)) == w + size(rest.take(n)));
            if n < rest.len() {
                assert(s.take(n + 2).drop_first() =~= rest.take(n + 1));
                assert(size(s.take(n + 2)) == w + size(rest.take(n + 1)));
            }
        } else {
            assert(s.take(0) =~= seq![]);
        }
    } else {
        assert(s.take(0) =~= seq![]);
    }
}

/// Caps a text to `max_bytes` bytes without splitting a character.
pub fn truncate_line_bytes(line: &str, max_bytes: usize) -> (r: &str)
    ensures
        r@ == fitted(line@, max_bytes as int),
{
    let mut it = line.chars();
    let mut at: usize = 0;
    let ghost mut n: int = 0;
    assert(line@.skip(0) =~= line@);
    assert(line@.take(0) =~= seq![]);
    loop
        invariant
            0 <= n <= line@.len(),
            IteratorSpec::remaining(&it) == line@.skip(n),
            at == size(line@.take(n)),
            at <= max_bytes,
            fit(line@, max_bytes as int) == n + fit(line@.skip(n), max_bytes - at),
        decreases line@.len() - n,
    {
        match it.next() {
            None => {
                assert(line@.take(n) =~= line@);
                return line;
            },
            Some(c) => {
                let width: usize = utf8_width(c);
                proof {
                    assert(c == line@.skip(n)[0]);
                }
                if width > max_bytes - at {
                    return cut(line, at, Ghost(n)).0;
                }
                proof {
                    assert(line@.skip(n).drop_first() =~= line@.skip(n + 1));
                    crate::text::lemma_encode_take_next(line@, n);
                    n = n + 1;
                }
                at = at + width;
            },
        }
    }
}

/// How many of the lines fit into the budget of bytes and lines, taken from the first one on.
pub open spec fn whole_lines(v: Seq<Seq<char>>, max_bytes: int, max_lines: int) -> int
    decreases v.len(),
{
    if v.len() == 0 || max_lines <= 0 || size(v[0]) > max_bytes {
        0
    } else {
        1 + whole_lines(v.drop_first(), max_bytes - size(v[0]), max_lines - 1)
    }
}

/// The start of a text that fits a budget: whole lines, or, where the first line alone has too
/// many bytes, whole characters; nothing where no line is allowed.
pub open spec fn shortened(s: Seq<char>, max_bytes: int, max_lines: int) -> Seq<char> {
    let n = whole_lines(lines(s), max_bytes, max_lines);
    if max_lines <= 0 {
        seq![]
    } else if n == 0 {
        fitted(s, max_bytes)
    } else {
        joined(lines(s).take(n))
    }
}

proof fn lemma_all_lines_fit(s: Seq<char>, max_bytes: int, max_lines: int)
    requires
        size(s) <= max_bytes,
        lines(s).len() <= max_lines,
    ensures
        whole_lines(lines(s), max_bytes, max_lines) == lines(s).len(),
    decreases s.len(),
{
    if s.len() > 0 {
        lemma_first_line(s);
        let n = lines(s)[0].len() as int;
        assert(s.take(n) + s.skip(n) =~= s);
        crate::text::lemma_encode_concat(s.take(n), s.skip(n));
        lemma_all_lines_fit(s.skip(n), max_bytes - size(lines(s)[0]), max_lines - 1);
    }
}

proof fn lemma_fit_all(s: Seq<char>, max: int)
    requires
        size(s) <= max,
    ensures
        fitted(s, max) == s,
    decreases s.len(),
{
    if s.len() > 0 {
        lemma_fit_all(s.drop_first(), max - encode_scalar(s[0] as u32).len());
        law_fitted(s.drop_first(), max - encode_scalar(s[0] as u32).len());
        assert(s.drop_first().take(fit(s, max) - 1).len() == s.drop_first().len());
    }
    assert(s.take(s.len() as int) =~= s);
}

/// Cuts a text to a budget of bytes and lines: at the end of a line, or, where the first line
/// alone is too long, after a character. Says whether anything was cut.
pub fn truncate_for_render(content: &str, max_bytes: usize, max_lines: usize) -> (r: (&str, bool))
    ensures
        r.0@ == shortened(content@, max_bytes as int, max_lines as int),
        r.1 == (r.0@.len() < content@.len()),
{
    let bytes = content.as_bytes();
    if max_lines == 0 {
        proof {
            assert(content@.take(0) =~= seq![]);
            lemma_shorter(content@, 0);
            crate::text::lemma_encode_len(content@.take(0));
        }
        return (cut(content, 0, Ghost(0)).0, bytes.len() > 0);
    }
    if bytes.len() <= max_bytes && count_byte(bytes, LINE_FEED) < max_lines {
        proof {
            lemma_feeds_are_bytes(content@);
            law_line_count(content@);
            lemma_all_lines_fit(content@, max_bytes as int, max_lines as int);
            law_lines_make_up_the_text(content@);
            assert(lines(content@).take(lines(content@).len() as int) =~= lines(content@));
            lemma_fit_all(content@, max_bytes as int);
        }
        return (content, false);
    }
    let all: Vec<&str> = split_lines(content);
    let ghost v = lines(content@);
    let mut end: usize = 0;
    let mut count: usize = 0;
    let ghost mut n: int = 0;
    proof {
        assert(content@.skip(0) =~= content@);
        assert(content@.take(0) =~= seq![]);
        assert(v.skip(0) =~= v);
        assert(v.take(0) =~= seq![]);
        assert(joined(v.take(0)) =~= seq![]);
        assert(all@.len() == crate::text::texts(all@).len());
    }
    while count < all.len()
        invariant_except_break
            v == lines(content@),
            crate::text::texts(all@) == v,
            all@.len() == v.len(),
            count <= all@.len(),
            count <= max_lines,
            0 <= n <= content@.len(),
            end == size(content@.take(n)),
            end <= max_bytes,
            v.skip(count as int) == lines(content@.skip(n)),
            joined(v.take(count as int)) == content@.take(n),
            whole_lines(v, max_bytes as int, max_lines as int) == count + whole_lines(
                v.skip(count as int),
                max_bytes - end,
                max_lines - count,
            ),
            count == 0 ==> n == 0,
            count > 0 ==> n > 0,
        ensures
            0 <= n <= content@.len(),
            end == size(content@.take(n)),
            joined(v.take(count as int)) == content@.take(n),
            whole_lines(v, max_bytes as int, max_lines as int) == count,
            count == 0 ==> n == 0,
            count > 0 ==> n > 0,
        decreases all@.len() - count,
    {
        let line: &str = all[count];
        let len: usize = line.as_bytes().len();
        proof {
            assert(line@ == crate::text::texts(all@)[count as int]);
            assert(v.skip(count as int)[0] == line@);
        }
        if count >= max_lines || len > max_bytes - end {
            break;
        }
        proof {
            let rest = content@.skip(n);
            assert(rest.len() > 0) by {
                if rest.len() == 0 {
                    assert(lines(rest).len() == 0);
                }
            }
            lemma_first_line(rest);
            let m = line@.len() as int;
            assert(v.skip(count as int).drop_first() =~= v.skip(count + 1));
            assert(rest.skip(m) =~= content@.skip(n + m));
            assert(v.take(count + 1).drop_last() =~= v.take(count as int));
            assert(content@.take(n) + line@ =~= content@.take(n + m));
            crate::text::lemma_encode_concat(content@.take(n), line@);
            n = n + m;
        }
        end = end + len;
        count = count + 1;
    }
    if end == 0 {
        proof {
            crate::text::lemma_encode_len(content@.take(n));
            law_fitted(content@, max_bytes as int);
        }
        let cut_line: &str = truncate_line_bytes(content, max_bytes);
        let shorter: bool = cut_line.as_bytes().len() < bytes.len();
        proof {
            lemma_shorter(content@, fit(content@, max_bytes as int));
        }
        return (cut_line, shorter);
    }
    proof {
        assert(content@.take(0) =~= seq![]);
        lemma_shorter(content@, n);
    }
    (cut(content, end, Ghost(n)).0, end < bytes.len())
}

proof fn lemma_shorter(s: Seq<char>, n: int)
    requires
        0 <= n <= s.len(),
    ensures
        size(s.take(n)) < size(s) <==> n < s.len(),
{
    assert(s.take(n) + s.skip(n) =~= s);
    crate::text::lemma_encode_concat(s.take(n), s.skip(n));
    crate::text::lemma_encode_len(s.skip(n));
}

proof fn lemma_line_in_front(line: Seq<char>, rest: Seq<char>)
    requires
        line.len() > 0,
        line.last() == '\n',
        forall|i: int| 0 <= i < line.len() - 1 ==> #[trigger] line[i] != '\n',
    ensures
        lines(line + rest) == seq![line] + lines(rest),
{
    let class = Class::Is('\n');
    let all = line + rest;
    let p = line.len() - 1;
    assert(all[p] == line.last());
    assert forall|i: int| 0 <= i < p implies !class.has_char(#[trigger] all[i]) by {
        assert(all[i] == line[i]);
    }
    crate::text::lemma_first_pos_is(all, class, p);
    assert(all.take(p + 1) =~= line);
    assert(all.skip(p + 1) =~= rest);
}

proof fn lemma_first_line_feed(s: Seq<char>)
    requires
        s.len() > 0,
    ensures
        forall|i: int| 0 <= i < lines(s)[0].len() - 1 ==> #[trigger] lines(s)[0][i] != '\n',
{
    let class = Class::Is('\n');
    let p = crate::text::first_pos(s, class);
    crate::text::lemma_first_pos(s, class);
    lemma_first_line(s);
    let line = lines(s)[0];
    assert forall|i: int| 0 <= i < line.len() - 1 implies #[trigger] line[i] != '\n' by {
        assert(line[i] == s[i]);
        assert(!class.has_char(s[i]));
    }
}

/// The first `n` lines of a text, put together, are a start of the text and have just these lines.
pub proof fn law_whole_lines_stay_lines(s: Seq<char>, n: int)
    requires
        0 <= n <= lines(s).len(),
    ensures
        joined(lines(s).take(n)).is_prefix_of(s),
        lines(joined(lines(s).take(n))) == lines(s).take(n),
    decreases s.len(),
{
    let v = lines(s);
    if n == 0 {
        assert(v.take(0) =~= seq![]);
        assert(joined(v.take(0)) =~= seq![]);
        assert(s.subrange(0, 0) =~= seq![]);
        assert(lines(seq![]) =~= seq![]);
    } else {
        lemma_first_line(s);
        lemma_first_line_feed(s);
        let line = v[0];
        let m = line.len() as int;
        let rest = s.skip(m);
        assert(v.drop_first().len() == v.len() - 1);
        law_whole_lines_stay_lines(rest, n - 1);
        let tail = joined(lines(rest).take(n - 1));
        assert(v.take(n) =~= seq![line] + lines(rest).take(n - 1));
        lemma_joined_front(line, lines(rest).take(n - 1));
        assert(joined(v.take(n)) == line + tail);
        assert(s.subrange(0, m + tail.len()) =~= line + tail) by {
            assert(rest.subrange(0, tail.len() as int) == tail);
            assert(s.subrange(0, m) =~= line);
            assert(s.subrange(m, m + tail.len()) =~= rest.subrange(0, tail.len() as int));
        }
        if line.last() == '\n' {
            lemma_line_in_front(line, tail);
        } else {
            assert(rest =~= seq![]);
            assert(lines(rest) =~= seq![]);
            assert(tail =~= seq![]);
            assert(line + tail =~= s);
            assert(v.take(n) =~= v);
        }
    }
}

proof fn lemma_one_line(s: Seq<char>)
    requires
        forall|i: int| 0 <= i < s.len() - 1 ==> #[trigger] s[i] != '\n',
    ensures
        lines(s).len() <= 1,
{
    if s.len() > 0 {
        if s.last() == '\n' {
            lemma_line_in_front(s, seq![]);
            assert(s + seq![] =~= s);
            assert(lines(seq![]).len() == 0);
        } else {
            assert forall|i: int| 0 <= i < s.len() implies #[trigger] s[i] != '\n' by {}
            lemma_feeds_none(s);
            law_line_count(s);
        }
    }
}

proof fn lemma_whole_lines(v: Seq<Seq<char>>, max_bytes: int, max_lines: int)
    requires
        0 <= max_bytes,
    ensures
        0 <= whole_lines(v, max_bytes, max_lines) <= v.len(),
        0 <= max_lines ==> whole_lines(v, max_bytes, max_lines) <= max_lines,
        size(joined(v.take(whole_lines(v, max_bytes, max_lines)))) <= max_bytes,
    decreases v.len(),
{
    let n = whole_lines(v, max_bytes, max_lines);
    if v.len() == 0 || max_lines <= 0 || size(v[0]) > max_bytes {
        assert(v.take(0) =~= seq![]);
        assert(joined(v.take(0)) =~= seq![]);
        assert(encode_utf8(seq![]).len() == 0);
    } else {
        lemma_whole_lines(v.drop_first(), max_bytes - size(v[0]), max_lines - 1);
        assert(v.take(n) =~= seq![v[0]] + v.drop_first().take(n - 1));
        lemma_joined_front(v[0], v.drop_first().take(n - 1));
        crate::text::lemma_encode_concat(v[0], joined(v.drop_first().take(n - 1)));
    }
}

/// What is left of a text keeps to the budget, in bytes and in lines, and is a start of the text.
pub proof fn law_shortened_keeps_to_the_budget(s: Seq<char>, max_bytes: int, max_lines: int)
    requires
        0 <= max_bytes,
        0 <= max_lines,
    ensures
        size(shortened(s, max_bytes, max_lines)) <= max_bytes,
        lines(shortened(s, max_bytes, max_lines)).len() <= max_lines,
        shortened(s, max_bytes, max_lines).is_prefix_of(s),
{
    let v = lines(s);
    let n = whole_lines(v, max_bytes, max_lines);
    lemma_whole_lines(v, max_bytes, max_lines);
    law_fitted(s, max_bytes);
    if max_lines == 0 {
        assert(s.subrange(0, 0) =~= seq![]);
        assert(encode_utf8(seq![]).len() == 0);
        assert(lines(seq![]).len() == 0);
    } else if n == 0 {
        let start = fitted(s, max_bytes);
        let k = fit(s, max_bytes);
        assert(s.subrange(0, k) =~= start);
        if s.len() > 0 {
            lemma_first_line(s);
            lemma_first_line_feed(s);
            let m = v[0].len() as int;
            if size(v[0]) <= max_bytes {
                lemma_whole_lines(v.drop_first(), max_bytes - size(v[0]), max_lines - 1);
            }
            if k > m {
                assert(start.take(m) =~= s.take(m));
                assert(start.take(m) + start.skip(m) =~= start);
                crate::text::lemma_encode_concat(start.take(m), start.skip(m));
            }
            assert forall|i: int| 0 <= i < start.len() - 1 implies #[trigger] start[i] != '\n' by {
                assert(start[i] == v[0][i]);
            }
        }
        lemma_one_line(start);
    } else {
        law_whole_lines_stay_lines(s, n);
    }
}

/// Cutting a text a second time to the same budget changes nothing.
pub proof fn law_shortened_is_stable(s: Seq<char>, max_bytes: int, max_lines: int)
    requires
        0 <= max_bytes,
    ensures
        shortened(shortened(s, max_bytes, max_lines), max_bytes, max_lines) == shortened(
            s,
            max_bytes,
            max_lines,
        ),
{
    if max_lines > 0 {
        let start = shortened(s, max_bytes, max_lines);
        law_shortened_keeps_to_the_budget(s, max_bytes, max_lines);
        lemma_all_lines_fit(start, max_bytes, max_lines);
        lemma_fit_all(start, max_bytes);
        law_lines_make_up_the_text(start);
        assert(lines(start).take(lines(start).len() as int) =~= lines(start));
    }
}

/// Something is left of every text that is not empty, where the budget allows a line and has room
/// for any character.
pub proof fn law_shortened_keeps_something(s: Seq<char>, max_bytes: int, max_lines: int)
    requires
        4 <= max_bytes,
        0 < max_lines,
    ensures
        shortened(s, max_bytes, max_lines).len() == 0 <==> s.len() == 0,
{
    let start = shortened(s, max_bytes, max_lines);
    law_shortened_keeps_to_the_budget(s, max_bytes, max_lines);
    if s.len() > 0 {
        let n = whole_lines(lines(s), max_bytes, max_lines);
        lemma_whole_lines(lines(s), max_bytes, max_lines);
        if n == 0 {
            law_fitted(s.drop_first(), max_bytes - encode_scalar(s[0] as u32).len());
        } else {
            lemma_first_line(s);
            law_whole_lines_stay_lines(s, n);
            assert(lines(start).len() == n);
        }
    }
}

/// One line ending is dropped from a line, whichever of the three it is, and nothing else.
pub proof fn law_one_line_ending_is_dropped(t: Seq<char>)
    ensures
        line_text(t + seq!['\r', '\n']) == t,
        t.len() == 0 || t.last() != '\r' ==> line_text(t + seq!['\n']) == t,
        line_text(t + seq!['\r']) == t,
        t.len() == 0 || (t.last() != '\n' && t.last() != '\r') ==> line_text(t) == t,
{
    let crlf = seq!['\r', '\n'];
    let both = t + crlf;
    assert(both.subrange(both.len() - 2, both.len() as int) =~= crlf);
    assert(both.take(both.len() - 2) =~= t);
    let one = t + seq!['\n'];
    assert(one.drop_last() =~= t);
    let other = t + seq!['\r'];
    assert(other.drop_last() =~= t);
    if crlf.is_suffix_of(one) {
        assert(one.subrange(one.len() - 2, one.len() as int)[0] == '\r');
    }
    if crlf.is_suffix_of(other) {
        assert(other.subrange(other.len() - 2, other.len() as int)[1] == '\n');
    }
    if crlf.is_suffix_of(t) {
        assert(t.subrange(t.len() - 2, t.len() as int)[1] == '\n');
    }
}

/// A line ends in a line feed or ends the text, holds no other line feed, and is not empty.
pub proof fn law_lines_end_in_line_feeds(s: Seq<char>, k: int)
    requires
        0 <= k < lines(s).len(),
    ensures
        lines(s)[k].len() > 0,
        k < lines(s).len() - 1 ==> lines(s)[k].last() == '\n',
        forall|i: int| 0 <= i < lines(s)[k].len() - 1 ==> #[trigger] lines(s)[k][i] != '\n',
    decreases s.len(),
{
    lemma_first_line(s);
    let n = lines(s)[0].len() as int;
    if k == 0 {
        lemma_first_line_feed(s);
        if lines(s)[0].last() != '\n' {
            assert(s.skip(n) =~= seq![]);
            assert(lines(s).drop_first().len() == 0);
        }
    } else {
        assert(lines(s)[k] == lines(s).drop_first()[k - 1]);
        law_lines_end_in_line_feeds(s.skip(n), k - 1);
    }
}

proof fn lemma_next_line_is_too_long(v: Seq<Seq<char>>, max_bytes: int, max_lines: int)
    requires
        0 <= max_bytes,
        0 <= max_lines,
    ensures
        ({
            let n = whole_lines(v, max_bytes, max_lines);
            n < v.len() && n < max_lines ==> size(joined(v.take(n + 1))) > max_bytes
        }),
    decreases v.len(),
{
    let n = whole_lines(v, max_bytes, max_lines);
    lemma_whole_lines(v, max_bytes, max_lines);
    if v.len() > 0 && max_lines > 0 {
        if size(v[0]) > max_bytes {
            assert(v.take(1) =~= seq![v[0]] + seq![]);
            lemma_joined_front(v[0], seq![]);
            assert(v[0] + joined(seq![]) =~= v[0]);
        } else {
            let rest = v.drop_first();
            lemma_next_line_is_too_long(rest, max_bytes - size(v[0]), max_lines - 1);
            if n < v.len() && n < max_lines {
                assert(v.take(n + 1) =~= seq![v[0]] + rest.take(n));
                lemma_joined_front(v[0], rest.take(n));
                crate::text::lemma_encode_concat(v[0], joined(rest.take(n)));
            }
        }
    }
}

/// As much of a text is kept as the budget allows: all of it where it fits; else as many lines as
/// there may be, or so many that one more would take too many bytes; and of a first line that is
/// too long as many characters as fit.
pub proof fn law_shortened_keeps_all_that_fits(s: Seq<char>, max_bytes: int, max_lines: int)
    requires
        0 <= max_bytes,
        0 < max_lines,
    ensures
        size(s) <= max_bytes && lines(s).len() <= max_lines ==> shortened(s, max_bytes, max_lines)
            == s,
        ({
            let kept = lines(shortened(s, max_bytes, max_lines)).len() as int;
            s.len() > 0 && size(lines(s)[0]) <= max_bytes ==> {
                &&& kept <= lines(s).len()
                &&& shortened(s, max_bytes, max_lines) == joined(lines(s).take(kept))
                &&& kept < lines(s).len() && kept < max_lines ==> size(
                    joined(lines(s).take(kept + 1)),
                ) > max_bytes
            }
        }),
        s.len() > 0 && size(lines(s)[0]) > max_bytes ==> size(
            s.take(shortened(s, max_bytes, max_lines).len() as int + 1),
        ) > max_bytes,
{
    let v = lines(s);
    let n = whole_lines(v, max_bytes, max_lines);
    lemma_whole_lines(v, max_bytes, max_lines);
    law_fitted(s, max_bytes);
    if size(s) <= max_bytes && v.len() <= max_lines {
        lemma_all_lines_fit(s, max_bytes, max_lines);
        lemma_fit_all(s, max_bytes);
        law_lines_make_up_the_text(s);
        assert(v.take(v.len() as int) =~= v);
    }
    if s.len() > 0 {
        lemma_first_line(s);
        if size(v[0]) <= max_bytes {
            lemma_whole_lines(v.drop_first(), max_bytes - size(v[0]), max_lines - 1);
            assert(n > 0);
            law_whole_lines_stay_lines(s, n);
            lemma_next_line_is_too_long(v, max_bytes, max_lines);
        } else {
            let k = fit(s, max_bytes);
            assert(n == 0);
            if k == s.len() {
                assert(s.take(k) =~= s);
                let m = v[0].len() as int;
                assert(s.take(m) + s.skip(m) =~= s);
                crate::text::lemma_encode_concat(s.take(m), s.skip(m));
            }
        }
    }
}

} // verus!
