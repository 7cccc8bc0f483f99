//! The HTML listing of a text: numbered, anchored lines in chunks that a browser can lay out
//! lazily.

use vstd::prelude::*;
use vstd::std_specs::iter::*;
use vstd::string::*;
use crate::lines::{count_byte, split_lines, trim_line_ending, LINE_FEED};

verus! {

/// Lines per chunk.
pub const CHUNK_LINES: usize = 256;

/// The widest that a chunk is estimated to be, in columns.
pub const CHUNK_MAX_ESTIMATED_COLS: usize = 2000;

/// A number in decimal, without leading zeros.
pub open spec fn decimal(n: nat) -> Seq<char>
    decreases n,
{
    let last = ((n % 10) as u32 + '0' as u32) as char;
    if n < 10 {
        seq![last]
    } else {
        decimal(n / 10).push(last)
    }
}

/// Writes a number in decimal (`itoa::Buffer::format`): its digits, without leading zeros.
#[verifier::external_body]
pub(crate) fn format_number(n: u64) -> (r: String)
    ensures
        r@ == decimal(n as nat),
{
    itoa::Buffer::new().format(n).to_string()
}

/// What stands for a character in HTML text and attribute values.
pub open spec fn escape(c: char) -> Seq<char> {
    if c == '&' {
        "&amp;"@
    } else if c == '<' {
        "&lt;"@
    } else if c == '>' {
        "&gt;"@
    } else if c == '"' {
        "&quot;"@
    } else if c == '\'' {
        "&#39;"@
    } else {
        seq![c]
    }
}

/// A text, escaped for HTML.
pub open spec fn escaped(s: Seq<char>) -> Seq<char>
    decreases s.len(),
{
    if s.len() == 0 {
        seq![]
    } else {
        escaped(s.drop_last()) + escape(s.last())
    }
}

/// Escaping two texts one after the other is escaping them together.
pub proof fn law_escaping_is_piecewise(a: Seq<char>, b: Seq<char>)
    ensures
        escaped(a + b) == escaped(a) + escaped(b),
    decreases b.len(),
{
    if b.len() == 0 {
        assert(a + b =~= a);
        assert(escaped(a) + escaped(b) =~= escaped(a));
    } else {
        law_escaping_is_piecewise(a, b.drop_last());
        assert((a + b).drop_last() =~= a + b.drop_last());
        assert((a + b).last() == b.last());
        assert(escaped(a + b) =~= escaped(a) + escaped(b));
    }
}

/// Appends a text, escaped for HTML.
pub fn push_escaped_html(output: &mut String, value: &str)
    ensures
        final(output)@ == old(output)@ + escaped(value@),
{
    let mut it = value.chars();
    let ghost mut n: int = 0;
    let ghost before = output@;
    assert(value@.skip(0) =~= value@);
    assert(value@.take(0) =~= seq![]);
    assert(before + escaped(seq![]) =~= before);
    loop
        invariant
            0 <= n <= value@.len(),
            IteratorSpec::remaining(&it) == value@.skip(n),
            output@ == before + escaped(value@.take(n)),
            before == old(output)@,
        decreases value@.len() - n,
    {
        match it.next() {
            None => {
                assert(value@.take(n) =~= value@);
                return ;
            },
            Some(c) => {
                let ghost so_far = output@;
                proof {
                    assert(c == value@[n]);
                    assert(value@.skip(n).drop_first() =~= value@.skip(n + 1));
                    assert(value@.take(n + 1).drop_last() =~= value@.take(n));
                }
                if c == '&' {
                    output.append("&amp;");
                } else if c == '<' {
                    output.append("&lt;");
                } else if c == '>' {
                    output.append("&gt;");
                } else if c == '"' {
                    output.append("&quot;");
                } else if c == '\'' {
                    output.append("&#39;");
                } else {
                    output.push(c);
                }
                proof {
                    assert(output@ =~= so_far + escape(c));
                    assert((before + escaped(value@.take(n))) + escape(c) =~= before + (escaped(
                        value@.take(n),
                    ) + escape(c)));
                    n = n + 1;
                }
            },
        }
    }
}

/// Escaped text holds no character that could open a tag or end an attribute value.
pub proof fn law_escaped_text_is_inert(s: Seq<char>)
    ensures
        forall|i: int|
            0 <= i < escaped(s).len() ==> #[trigger] escaped(s)[i] != '<' && escaped(s)[i] != '>'
                && escaped(s)[i] != '"' && escaped(s)[i] != '\'',
    decreases s.len(),
{
    if s.len() > 0 {
        law_escaped_text_is_inert(s.drop_last());
        reveal_strlit("&amp;");
        reveal_strlit("&lt;");
        reveal_strlit("&gt;");
        reveal_strlit("&quot;");
        reveal_strlit("&#39;");
        let e = escape(s.last());
        assert forall|i: int| 0 <= i < e.len() implies #[trigger] e[i] != '<' && e[i] != '>' && e[i]
            != '"' && e[i] != '\'' by {}
        let head = escaped(s.drop_last());
        assert forall|i: int| 0 <= i < escaped(s).len() implies #[trigger] escaped(s)[i] != '<'
            && escaped(s)[i] != '>' && escaped(s)[i] != '"' && escaped(s)[i] != '\'' by {
            if i < head.len() {
                assert(escaped(s)[i] == head[i]);
            } else {
                assert(escaped(s)[i] == e[i - head.len()]);
            }
        }
    }
}

/// The columns that a line takes: eight for a tab, one for any other character.
pub open spec fn columns(s: Seq<char>) -> nat
    decreases s.len(),
{
    if s.len() == 0 {
        0
    } else {
        columns(s.drop_last()) + (if s.last() == '\t' {
            8nat
        } else {
            1nat
        })
    }
}

/// Estimates how wide a line is, at least one column.
pub fn visual_columns(line: &str) -> (r: usize)
    ensures
        columns(line@) == 0 ==> r == 1,
        0 < columns(line@) <= usize::MAX ==> r == columns(line@),
        columns(line@) > usize::MAX ==> r == usize::MAX,
{
    let mut it = line.chars();
    let mut total: usize = 0;
    let ghost mut n: int = 0;
    assert(line@.skip(0) =~= line@);
    assert(line@.take(0) =~= seq![]);
    loop
        invariant
            0 <= n <= line@.len(),
            IteratorSpec::remaining(&it) == line@.skip(n),
            columns(line@.take(n)) <= usize::MAX ==> total == columns(line@.take(n)),
            columns(line@.take(n)) > usize::MAX ==> total == usize::MAX,
        decreases line@.len() - n,
    {
        match it.next() {
            None => {
                assert(line@.take(n) =~= line@);
                return if total == 0 {
                    1
                } else {
                    total
                };
            },
            Some(c) => {
                proof {
                    assert(c == line@[n]);
                    assert(line@.skip(n).drop_first() =~= line@.skip(n + 1));
                    assert(line@.take(n + 1).drop_last() =~= line@.take(n));
                    n = n + 1;
                }
                total = total.saturating_add(
                    if c == '\t' {
                        8
                    } else {
                        1
                    },
                );
            },
        }
    }
}

/// The widest of some lines, in columns, line endings left out; at least one column.
pub open spec fn widest(v: Seq<Seq<char>>) -> nat
    decreases v.len(),
{
    if v.len() == 0 {
        1
    } else {
        let before = widest(v.drop_last());
        let last = columns(crate::lines::line_text(v.last()));
        if last > before {
            last
        } else {
            before
        }
    }
}

/// The width that the chunks of a listing are estimated to have.
pub open spec fn estimated_columns(v: Seq<Seq<char>>) -> nat {
    if widest(v) > CHUNK_MAX_ESTIMATED_COLS {
        CHUNK_MAX_ESTIMATED_COLS as nat
    } else {
        widest(v)
    }
}

/// The number of digits of a number.
pub fn decimal_digits(n: usize) -> (r: usize)
    ensures
        r == decimal(n as nat).len(),
{
    let mut rest: usize = n;
    let mut digits: usize = 1;
    while rest >= 10
        invariant
            rest <= n,
            1 <= digits <= n - rest + 1,
            digits + decimal(rest as nat).len() == decimal(n as nat).len() + 1,
        decreases rest,
    {
        rest = rest / 10;
        digits = digits + 1;
    }
    digits
}

/// One line of a listing.
#[verifier::opaque]
pub open spec fn line_html(number: nat, inner: Seq<char>) -> Seq<char> {
    "<code id=L"@ + decimal(number) + "><a href=#L"@ + decimal(number) + ">"@ + decimal(number)
        + "</a>"@ + inner + "</code>"@
}

/// Lines of a listing, numbered from `first` on.
pub open spec fn lines_html(first: nat, inner: Seq<Seq<char>>) -> Seq<char>
    decreases inner.len(),
{
    if inner.len() == 0 {
        seq![]
    } else {
        lines_html(first, inner.drop_last()) + line_html(
            (first + inner.len() - 1) as nat,
            inner.last(),
        )
    }
}

/// The height of a chunk in `em`: one and a half for each line, rounded up.
pub open spec fn chunk_height(count: nat) -> nat {
    (3 * count + 1) / 2
}

/// The element that holds `count` lines of a listing.
#[verifier::opaque]
pub open spec fn chunk_element(cols: nat, count: nat, body: Seq<char>) -> Seq<char> {
    "<div class=\"code-chunk\" style=\"contain-intrinsic-size:auto "@ + decimal(cols)
        + "ch auto "@ + decimal(chunk_height(count)) + "em\">"@ + body + "</div>"@
}

/// A chunk of a listing whose first line has the number `first`.
pub open spec fn chunk_html(cols: nat, first: nat, inner: Seq<Seq<char>>) -> Seq<char> {
    chunk_element(cols, inner.len(), lines_html(first, inner))
}

/// The full chunks of a listing and, at its end, the one that is not full.
pub open spec fn chunks_html(cols: nat, inner: Seq<Seq<char>>) -> Seq<char>
    decreases inner.len(),
{
    if inner.len() == 0 {
        seq![]
    } else {
        let full = ((inner.len() - 1) / (CHUNK_LINES as int)) * CHUNK_LINES;
        chunks_html(cols, inner.take(full)) + chunk_html(
            cols,
            (full + 1) as nat,
            inner.skip(full),
        )
    }
}

/// The gutter is widened for line numbers of more than four digits.
pub open spec fn gutter_html(count: nat) -> Seq<char> {
    if decimal(count).len() > 4 {
        " style=\"--ln:calc("@ + decimal(decimal(count).len()) + "ch + 1.2em)\""@
    } else {
        seq![]
    }
}

/// The listing of a text whose lines have the given inner HTML. An empty text is listed as one
/// empty line.
pub open spec fn listing_html(content: Seq<char>, inner: Seq<Seq<char>>) -> Seq<char> {
    let shown = if inner.len() == 0 {
        seq![Seq::<char>::empty()]
    } else {
        inner
    };
    "<div class=\"code-grid\""@ + gutter_html(shown.len()) + ">"@ + chunks_html(
        estimated_columns(crate::lines::lines(content)),
        shown,
    ) + "</div>"@
}

/// The characters of some strings.
pub open spec fn strings(v: Seq<String>) -> Seq<Seq<char>> {
    v.map_values(|s: String| s@)
}

/// Appends one line of a listing.
pub fn push_line_html(output: &mut String, line_number: usize, line_inner: &str)
    ensures
        final(output)@ == old(output)@ + line_html(line_number as nat, line_inner@),
{
    let n: String = format_number(line_number as u64);
    output.append("<code id=L");
    output.append(n.as_str());
    output.append("><a href=#L");
    output.append(n.as_str());
    output.append(">");
    output.append(n.as_str());
    output.append("</a>");
    output.append(line_inner);
    output.append("</code>");
    reveal(line_html);
    assert(output@ =~= old(output)@ + line_html(line_number as nat, line_inner@));
}

/// Appends a chunk that holds `count` lines and empties the buffer that it came in.
pub fn flush_chunk(output: &mut String, chunk: &mut String, count: usize, cols: usize)
    requires
        count * 3 <= usize::MAX,
    ensures
        final(output)@ == old(output)@ + chunk_element(cols as nat, count as nat, old(chunk)@),
        final(chunk)@ == Seq::<char>::empty(),
{
    let height: usize = count * 3 / 2 + count * 3 % 2;
    let width: String = format_number(cols as u64);
    let tall: String = format_number(height as u64);
    output.append("<div class=\"code-chunk\" style=\"contain-intrinsic-size:auto ");
    output.append(width.as_str());
    output.append("ch auto ");
    output.append(tall.as_str());
    output.append("em\">");
    output.append(chunk.as_str());
    output.append("</div>");
    reveal(chunk_element);
    assert(output@ =~= old(output)@ + chunk_element(cols as nat, count as nat, chunk@));
    *chunk = String::new();
}

proof fn lemma_chunk_full(cols: nat, inner: Seq<Seq<char>>, done: int)
    requires
        0 <= done < inner.len(),
        done % (CHUNK_LINES as int) == 0,
        inner.len() - done <= CHUNK_LINES,
    ensures
        chunks_html(cols, inner) == chunks_html(cols, inner.take(done)) + chunk_html(
            cols,
            (done + 1) as nat,
            inner.skip(done),
        ),
{
    assert(((inner.len() - 1) / (CHUNK_LINES as int)) * CHUNK_LINES == done);
}

/// The number of lines of a text, at least one.
fn count_lines(content: &str) -> (r: usize)
    ensures
        crate::lines::lines(content@).len() == 0 ==> r == 1,
        crate::lines::lines(content@).len() > 0 ==> r == crate::lines::lines(content@).len(),
{
    let bytes = content.as_bytes();
    proof {
        crate::lines::lemma_feeds_are_bytes(content@);
        crate::lines::law_line_count(content@);
    }
    if bytes.len() == 0 {
        proof {
            crate::text::lemma_encode_len(content@);
        }
        return 1;
    }
    proof {
        if content@.len() == 0 {
            assert(vstd::utf8::encode_utf8(content@).len() == 0);
        }
        crate::lines::lemma_first_line(content@);
        lemma_one_suffix(content@);
        reveal_strlit("\n");
        assert("\n"@ =~= seq!['\n']);
        lemma_few_feeds(content@);
        crate::text::lemma_encode_len(content@);
    }
    let whole: usize = count_byte(bytes, LINE_FEED);
    if crate::text::strip_suffix(content, "\n").is_some() {
        whole
    } else {
        whole + 1
    }
}

proof fn lemma_one_suffix(s: Seq<char>)
    requires
        s.len() > 0,
    ensures
        seq!['\n'].is_suffix_of(s) <==> s.last() == '\n',
{
    let end = s.subrange(s.len() - 1, s.len() as int);
    assert(end[0] == s.last());
    if s.last() == '\n' {
        assert(end =~= seq!['\n']);
    }
}

proof fn lemma_few_feeds(s: Seq<char>)
    requires
        s.len() > 0,
    ensures
        crate::lines::feeds(s) <= s.len(),
        s.last() != '\n' ==> crate::lines::feeds(s) < s.len(),
    decreases s.len(),
{
    reveal_with_fuel(crate::lines::feeds, 2);
    if s.len() > 1 {
        lemma_few_feeds(s.drop_first());
    }
}

/// The widest line of a text, in columns, as far as the estimate goes.
fn estimate_columns(all: &Vec<&str>) -> (r: usize)
    ensures
        r == estimated_columns(crate::text::texts(all@)),
{
    let ghost v = crate::text::texts(all@);
    let mut max_cols: usize = 1;
    let mut i: usize = 0;
    assert(v.take(0) =~= seq![]);
    while i < all.len()
        invariant
            v == crate::text::texts(all@),
            i <= all@.len(),
            v.len() == all@.len(),
            widest(v.take(i as int)) <= usize::MAX ==> max_cols == widest(v.take(i as int)),
            widest(v.take(i as int)) > usize::MAX ==> max_cols == usize::MAX,
            1 <= widest(v.take(i as int)),
        decreases all@.len() - i,
    {
        proof {
            assert(v.take(i + 1).drop_last() =~= v.take(i as int));
            assert(v[i as int] == all@[i as int]@);
        }
        let cols: usize = visual_columns(trim_line_ending(all[i]));
        if cols > max_cols {
            max_cols = cols;
        }
        i = i + 1;
    }
    assert(v.take(v.len() as int) =~= v);
    if max_cols > CHUNK_MAX_ESTIMATED_COLS {
        CHUNK_MAX_ESTIMATED_COLS
    } else {
        max_cols
    }
}

/// Appends the full chunks of a listing and returns the lines of the one that is not full, with
/// their number.
fn push_chunks(html: &mut String, inner: &Vec<String>, cols: usize) -> (r: (String, usize))
    ensures
        r.1 < CHUNK_LINES,
        r.1 <= inner@.len(),
        (inner@.len() - r.1) % (CHUNK_LINES as int) == 0,
        final(html)@ == old(html)@ + chunks_html(
            cols as nat,
            strings(inner@).take(inner@.len() - r.1),
        ),
        r.0@ == lines_html(
            (inner@.len() - r.1 + 1) as nat,
            strings(inner@).skip(inner@.len() - r.1),
        ),
{
    let ghost v = strings(inner@);
    let ghost head = html@;
    let mut chunk = String::new();
    let mut chunk_lines: usize = 0;
    let mut i: usize = 0;
    let ghost mut start: int = 0;
    proof {
        assert(v.take(0) =~= seq![]);
        assert(v.subrange(0, 0) =~= seq![]);
        assert(head + chunks_html(cols as nat, seq![]) =~= head);
    }
    while i < inner.len()
        invariant
            head == old(html)@,
            v == strings(inner@),
            v.len() == inner@.len(),
            i <= inner@.len(),
            0 <= start,
            start + chunk_lines == i,
            chunk_lines < CHUNK_LINES,
            start % (CHUNK_LINES as int) == 0,
            html@ == head + chunks_html(cols as nat, v.take(start)),
            chunk@ == lines_html((start + 1) as nat, v.subrange(start, i as int)),
        decreases inner@.len() - i,
    {
        proof {
            assert(v[i as int] == inner@[i as int]@);
        }
        push_line_html(&mut chunk, i + 1, inner[i].as_str());
        proof {
            lemma_line_added((start + 1) as nat, v.subrange(start, i as int), v[i as int]);
            assert(v.subrange(start, i + 1) =~= v.subrange(start, i as int).push(v[i as int]));
        }
        i = i + 1;
        chunk_lines = chunk_lines + 1;
        if chunk_lines == CHUNK_LINES {
            flush_chunk(html, &mut chunk, chunk_lines, cols);
            proof {
                lemma_chunk_added(head, cols as nat, v, start, i as int);
                assert(v.subrange(i as int, i as int) =~= seq![]);
                start = i as int;
            }
            chunk_lines = 0;
        }
    }
    assert(v.subrange(start, i as int) =~= v.skip(start));
    (chunk, chunk_lines)
}

proof fn lemma_line_added(first: nat, inner: Seq<Seq<char>>, line: Seq<char>)
    ensures
        lines_html(first, inner.push(line)) == lines_html(first, inner) + line_html(
            first + inner.len(),
            line,
        ),
{
    assert(inner.push(line).drop_last() =~= inner);
}

proof fn lemma_chunk_added(head: Seq<char>, cols: nat, v: Seq<Seq<char>>, start: int, end: int)
    requires
        0 <= start < end <= v.len(),
        start % (CHUNK_LINES as int) == 0,
        end - start <= CHUNK_LINES,
    ensures
        (head + chunks_html(cols, v.take(start))) + chunk_element(
            cols,
            (end - start) as nat,
            lines_html((start + 1) as nat, v.subrange(start, end)),
        ) == head + chunks_html(cols, v.take(end)),
{
    let whole = v.take(end);
    lemma_chunk_full(cols, whole, start);
    assert(whole.take(start) =~= v.take(start));
    assert(whole.skip(start) =~= v.subrange(start, end));
    lemma_append(
        head,
        chunks_html(cols, v.take(start)),
        chunk_html(cols, (start + 1) as nat, v.subrange(start, end)),
    );
}

proof fn lemma_append(a: Seq<char>, b: Seq<char>, c: Seq<char>)
    ensures
        (a + b) + c == a + (b + c),
{
    assert((a + b) + c =~= a + (b + c));
}

/// Lists a text whose lines were rendered to `inner`: each line numbered and anchored, in chunks
/// of [`CHUNK_LINES`] lines that all carry the same estimated width.
pub fn render_lines_chunked(content: &str, inner: &Vec<String>) -> (r: String)
    requires
        inner@.len() == crate::lines::lines(content@).len(),
    ensures
        r@ == listing_html(content@, strings(inner@)),
{
    let total_lines: usize = count_lines(content);
    let all: Vec<&str> = split_lines(content);
    let max_cols: usize = estimate_columns(&all);
    let ghost cols = estimated_columns(crate::lines::lines(content@));
    let ghost v = strings(inner@);
    let ghost shown = if v.len() == 0 {
        seq![Seq::<char>::empty()]
    } else {
        v
    };
    let mut html = String::new();
    html.append("<div class=\"code-grid\"");
    push_gutter(&mut html, decimal_digits(total_lines));
    html.append(">");
    let ghost head = "<div class=\"code-grid\""@ + gutter_html(shown.len()) + ">"@;
    assert(html@ =~= head);
    let (last, count) = push_chunks(&mut html, inner, max_cols);
    let mut chunk: String = last;
    let mut chunk_lines: usize = count;
    if inner.len() == 0 {
        push_line_html(&mut chunk, 1, "");
        chunk_lines = 1;
        proof {
            reveal_strlit("");
            assert(""@ =~= Seq::<char>::empty());
            assert(shown.drop_last() =~= seq![]);
            assert(v.skip(0) =~= seq![]);
            assert(lines_html(1, seq![]) =~= seq![]);
            assert(chunk@ =~= lines_html(1, shown));
        }
    }
    let ghost done = shown.len() - chunk_lines;
    proof {
        assert(v.take(inner@.len() - count) =~= shown.take(done));
        if inner@.len() == 0 {
            assert(shown.skip(done) =~= shown);
        }
    }
    if chunk_lines > 0 {
        flush_chunk(&mut html, &mut chunk, chunk_lines, max_cols);
        proof {
            lemma_chunk_full(cols, shown, done);
            lemma_append(
                head,
                chunks_html(cols, shown.take(done)),
                chunk_html(cols, (done + 1) as nat, shown.skip(done)),
            );
        }
    } else {
        assert(shown.take(done) =~= shown);
    }
    assert(html@ == head + chunks_html(cols, shown));
    html.append("</div>");
    html
}

/// Appends the style that widens the gutter, where the line numbers need it.
fn push_gutter(html: &mut String, digits: usize)
    ensures
        final(html)@ == old(html)@ + (if digits > 4 {
            " style=\"--ln:calc("@ + decimal(digits as nat) + "ch + 1.2em)\""@
        } else {
            seq![]
        }),
{
    if digits > 4 {
        let width: String = format_number(digits as u64);
        html.append(" style=\"--ln:calc(");
        html.append(width.as_str());
        html.append("ch + 1.2em)\"");
    }
    assert(html@ =~= old(html)@ + (if digits > 4 {
        " style=\"--ln:calc("@ + decimal(digits as nat) + "ch + 1.2em)\""@
    } else {
        seq![]
    }));
}

/// The inner HTML of a line that is shown as it is.
pub open spec fn plain_line(line: Seq<char>) -> Seq<char> {
    escaped(crate::lines::line_text(line))
}

/// Renders every line of a text as it is.
pub fn render_plain_lines(content: &str) -> (r: Vec<String>)
    ensures
        strings(r@) == crate::lines::lines(content@).map_values(|l: Seq<char>| plain_line(l)),
{
    let all: Vec<&str> = split_lines(content);
    let ghost v = crate::lines::lines(content@);
    let mut out: Vec<String> = Vec::new();
    let mut i: usize = 0;
    assert(all@.len() == crate::text::texts(all@).len());
    while i < all.len()
        invariant
            v == crate::text::texts(all@),
            v.len() == all@.len(),
            i <= all@.len(),
            out@.len() == i,
            forall|k: int| 0 <= k < i ==> (#[trigger] out@[k])@ == plain_line(v[k]),
        decreases all@.len() - i,
    {
        let mut html = String::new();
        push_escaped_html(&mut html, trim_line_ending(all[i]));
        proof {
            assert(v[i as int] == all@[i as int]@);
            assert(html@ =~= plain_line(v[i as int]));
        }
        out.push(html);
        i = i + 1;
    }
    assert(strings(out@) =~= v.map_values(|l: Seq<char>| plain_line(l)));
    out
}

proof fn lemma_inside(p: Seq<char>, before: Seq<char>, s: Seq<char>, after: Seq<char>)
    requires
        crate::text::occurs_in(p, s),
    ensures
        crate::text::occurs_in(p, before + s + after),
{
    let i = choose|i: int| 0 <= i <= s.len() && #[trigger] p.is_prefix_of(s.skip(i));
    let all = before + s + after;
    let j = before.len() + i;
    assert(p =~= s.skip(i).subrange(0, p.len() as int));
    assert(all.skip(j).subrange(0, p.len() as int) =~= s.skip(i).subrange(0, p.len() as int));
    assert(p.is_prefix_of(all.skip(j)));
}

proof fn lemma_itself(p: Seq<char>)
    ensures
        crate::text::occurs_in(p, p),
{
    assert(p.skip(0) =~= p);
    assert(p.subrange(0, p.len() as int) =~= p);
    assert(p.is_prefix_of(p.skip(0)));
}

proof fn lemma_line_listed(first: nat, inner: Seq<Seq<char>>, k: int)
    requires
        0 <= k < inner.len(),
    ensures
        crate::text::occurs_in(
            line_html((first + k) as nat, inner[k]),
            lines_html(first, inner),
        ),
    decreases inner.len(),
{
    let p = line_html((first + k) as nat, inner[k]);
    let head = lines_html(first, inner.drop_last());
    let last = line_html((first + inner.len() - 1) as nat, inner.last());
    if k < inner.len() - 1 {
        lemma_line_listed(first, inner.drop_last(), k);
        lemma_inside(p, seq![], head, last);
        assert(seq![] + head + last =~= head + last);
    } else {
        lemma_itself(p);
        lemma_inside(p, head, last, seq![]);
        assert(head + last + seq![] =~= head + last);
    }
}

proof fn lemma_line_in_chunks(cols: nat, inner: Seq<Seq<char>>, k: int)
    requires
        0 <= k < inner.len(),
    ensures
        crate::text::occurs_in(line_html((k + 1) as nat, inner[k]), chunks_html(cols, inner)),
    decreases inner.len(),
{
    let p = line_html((k + 1) as nat, inner[k]);
    let full = ((inner.len() - 1) / (CHUNK_LINES as int)) * CHUNK_LINES;
    let head = chunks_html(cols, inner.take(full));
    let last = inner.skip(full);
    let chunk = chunk_html(cols, (full + 1) as nat, last);
    if k < full {
        lemma_line_in_chunks(cols, inner.take(full), k);
        lemma_inside(p, seq![], head, chunk);
        assert(seq![] + head + chunk =~= head + chunk);
    } else {
        let body = lines_html((full + 1) as nat, last);
        assert(last[k - full] == inner[k]);
        lemma_line_listed((full + 1) as nat, last, k - full);
        let open = "<div class=\"code-chunk\" style=\"contain-intrinsic-size:auto "@ + decimal(cols)
            + "ch auto "@ + decimal(chunk_height(last.len())) + "em\">"@;
        lemma_inside(p, open, body, "</div>"@);
        assert(chunk == open + body + "</div>"@) by {
            reveal(chunk_element);
        }
        lemma_inside(p, head, chunk, seq![]);
        assert(head + chunk + seq![] =~= head + chunk);
    }
}

/// Every line of a text is in its listing, with its number and its anchor.
pub proof fn law_every_line_is_anchored(content: Seq<char>, inner: Seq<Seq<char>>, k: int)
    requires
        0 <= k < inner.len(),
    ensures
        crate::text::occurs_in(
            "<code id=L"@ + decimal((k + 1) as nat) + "><a href=#L"@ + decimal((k + 1) as nat)
                + ">"@ + decimal((k + 1) as nat) + "</a>"@ + inner[k] + "</code>"@,
            listing_html(content, inner),
        ),
{
    let cols = estimated_columns(crate::lines::lines(content));
    let p = line_html((k + 1) as nat, inner[k]);
    reveal(line_html);
    lemma_line_in_chunks(cols, inner, k);
    lemma_inside(
        p,
        "<div class=\"code-grid\""@ + gutter_html(inner.len()) + ">"@,
        chunks_html(cols, inner),
        "</div>"@,
    );
}

// What a listing reads as.

proof fn lemma_entities_read_as(c: char)
    ensures
        crate::html::reads_as(escape(c), seq![c]),
{
    reveal_strlit("&amp;");
    reveal_strlit("&lt;");
    reveal_strlit("&gt;");
    reveal_strlit("&quot;");
    reveal_strlit("&#39;");
    let amp = seq!['a', 'm', 'p'];
    let lt = seq!['l', 't'];
    let gt = seq!['g', 't'];
    let quot = seq!['q', 'u', 'o', 't'];
    let apos = seq!['#', '3', '9'];
    let open = seq!['&'];
    let close = seq![';'];
    if c == '&' {
        assert(open + amp =~= seq!['&', 'a', 'm', 'p']);
        crate::html::lemma_reads_entity(amp, c);
        assert(escape(c) =~= open + amp + close);
    } else if c == '<' {
        assert(open + lt =~= seq!['&', 'l', 't']);
        crate::html::lemma_reads_entity(lt, c);
        assert(escape(c) =~= open + lt + close);
    } else if c == '>' {
        assert(open + gt =~= seq!['&', 'g', 't']);
        crate::html::lemma_reads_entity(gt, c);
        assert(escape(c) =~= open + gt + close);
    } else if c == '"' {
        assert(open + quot =~= seq!['&', 'q', 'u', 'o', 't']);
        crate::html::lemma_reads_entity(quot, c);
        assert(escape(c) =~= open + quot + close);
    } else if c == '\'' {
        assert(open + apos =~= seq!['&', '#', '3', '9']);
        crate::html::lemma_reads_entity(apos, c);
        assert(escape(c) =~= open + apos + close);
    } else {
        crate::html::lemma_reads_plain(seq![c]);
    }
}

/// Escaping loses nothing and adds nothing: read as HTML, escaped text is the text itself.
pub proof fn law_escaped_text_reads_as_the_text(s: Seq<char>)
    ensures
        crate::html::reads_as(escaped(s), s),
    decreases s.len(),
{
    if s.len() == 0 {
        crate::html::lemma_reads_nothing();
        assert(s =~= seq![]);
    } else {
        law_escaped_text_reads_as_the_text(s.drop_last());
        lemma_entities_read_as(s.last());
        crate::html::lemma_reads_both(
            escaped(s.drop_last()),
            s.drop_last(),
            escape(s.last()),
            seq![s.last()],
        );
        assert(s.drop_last() + seq![s.last()] =~= s);
    }
}

/// No two texts are escaped to the same HTML.
pub proof fn law_escaping_is_injective(s: Seq<char>, t: Seq<char>)
    requires
        escaped(s) == escaped(t),
    ensures
        s == t,
{
    law_escaped_text_reads_as_the_text(s);
    law_escaped_text_reads_as_the_text(t);
    let r = crate::html::Reader::start();
    assert(r.after_html(escaped(s)) == r.with_text(s));
    assert(r.after_html(escaped(t)) == r.with_text(t));
    assert(r.text + s =~= s);
    assert(r.text + t =~= t);
}

/// A text without characters that mean something in HTML is escaped to itself.
pub proof fn law_plain_text_is_escaped_to_itself(s: Seq<char>)
    requires
        forall|i: int|
            0 <= i < s.len() ==> #[trigger] s[i] != '&' && s[i] != '<' && s[i] != '>' && s[i] != '"'
                && s[i] != '\'',
    ensures
        escaped(s) == s,
    decreases s.len(),
{
    if s.len() > 0 {
        law_plain_text_is_escaped_to_itself(s.drop_last());
        assert(s.drop_last() + seq![s.last()] =~= s);
    }
}

/// A number in decimal is made of digits, without a needless zero before them, and read back it
/// is the number.
pub proof fn law_decimal_is_read_back(n: nat)
    ensures
        decimal(n).len() > 0,
        crate::text::all_digits(decimal(n)),
        crate::text::decimal_value(decimal(n)) == n,
        n > 0 ==> decimal(n)[0] != '0',
    decreases n,
{
    let last = ((n % 10) as u32 + '0' as u32) as char;
    assert('0' <= last <= '9');
    assert(crate::text::digit(last) == n % 10);
    if n < 10 {
        assert(decimal(n).drop_last() =~= seq![]);
        assert(crate::text::decimal_value(seq![]) == 0);
    } else {
        law_decimal_is_read_back(n / 10);
        assert(decimal(n).drop_last() =~= decimal(n / 10));
    }
}

/// Texts with their numbers before them, from `first` on.
pub open spec fn numbered(first: nat, texts: Seq<Seq<char>>) -> Seq<char>
    decreases texts.len(),
{
    if texts.len() == 0 {
        seq![]
    } else {
        numbered(first, texts.drop_last()) + (decimal((first + texts.len() - 1) as nat)
            + texts.last())
    }
}

proof fn lemma_digits_are_no_markup(n: nat)
    ensures
        !decimal(n).contains('<'),
        !decimal(n).contains('>'),
        !decimal(n).contains('&'),
{
    law_decimal_is_read_back(n);
}

proof fn lemma_digits_in_tag(before: Seq<char>, n: nat, after: Seq<char>)
    requires
        before.len() > 0,
        before[0] == '<',
        !before.contains('>'),
        after.len() > 0,
        after.last() == '>',
        !after.drop_last().contains('>'),
    ensures
        crate::html::is_tag(before + decimal(n) + after),
{
    let d = decimal(n);
    let all = before + d + after;
    lemma_digits_are_no_markup(n);
    assert forall|i: int| 0 <= i < all.len() - 1 implies #[trigger] all[i] != '>' by {
        if i < before.len() {
            assert(before.contains(before[i]));
        } else if i < before.len() + d.len() {
            assert(d.contains(d[i - before.len()]));
        } else {
            let j = i - before.len() - d.len();
            assert(after.drop_last()[j] == after[j]);
            assert(after.drop_last().contains(after.drop_last()[j]));
        }
    }
}

proof fn lemma_line_reads_as(number: nat, inner: Seq<char>, text: Seq<char>)
    requires
        crate::html::reads_as(inner, text),
    ensures
        crate::html::reads_as(line_html(number, inner), decimal(number) + text),
{
    reveal(line_html);
    reveal_strlit("<code id=L");
    reveal_strlit("><a href=#L");
    reveal_strlit(">");
    reveal_strlit("</a>");
    reveal_strlit("</code>");
    let d = decimal(number);
    let a = "<code id=L"@ + d + seq!['>'];
    let b = seq!['<', 'a', ' ', 'h', 'r', 'e', 'f', '=', '#', 'L'] + d + ">"@;
    lemma_digits_in_tag("<code id=L"@, number, seq!['>']);
    lemma_digits_in_tag(seq!['<', 'a', ' ', 'h', 'r', 'e', 'f', '=', '#', 'L'], number, ">"@);
    crate::html::lemma_tag(a);
    crate::html::lemma_tag(b);
    crate::html::lemma_tag("</a>"@);
    crate::html::lemma_tag("</code>"@);
    lemma_digits_are_no_markup(number);
    crate::html::lemma_reads_plain(d);
    crate::html::lemma_reads_both(a, seq![], b, seq![]);
    crate::html::lemma_reads_both(a + b, seq![] + seq![], d, d);
    crate::html::lemma_reads_both(a + b + d, seq![] + seq![] + d, "</a>"@, seq![]);
    crate::html::lemma_reads_both(
        a + b + d + "</a>"@,
        seq![] + seq![] + d + seq![],
        inner,
        text,
    );
    crate::html::lemma_reads_both(
        a + b + d + "</a>"@ + inner,
        seq![] + seq![] + d + seq![] + text,
        "</code>"@,
        seq![],
    );
    assert(seq![] + seq![] + d + seq![] + text + seq![] =~= d + text);
    assert("<code id=L"@ + d + "><a href=#L"@ + d + ">"@ =~= a + b);
    assert(line_html(number, inner) =~= a + b + d + "</a>"@ + inner + "</code>"@);
}

proof fn lemma_lines_read_as(first: nat, inner: Seq<Seq<char>>, texts: Seq<Seq<char>>)
    requires
        inner.len() == texts.len(),
        forall|k: int| 0 <= k < inner.len() ==> crate::html::reads_as(#[trigger] inner[k], texts[k]),
    ensures
        crate::html::reads_as(lines_html(first, inner), numbered(first, texts)),
    decreases inner.len(),
{
    if inner.len() == 0 {
        crate::html::lemma_reads_nothing();
    } else {
        let number = (first + inner.len() - 1) as nat;
        assert forall|k: int| 0 <= k < inner.drop_last().len() implies crate::html::reads_as(
            #[trigger] inner.drop_last()[k],
            texts.drop_last()[k],
        ) by {
            assert(crate::html::reads_as(inner[k], texts[k]));
        }
        lemma_lines_read_as(first, inner.drop_last(), texts.drop_last());
        assert(crate::html::reads_as(inner[inner.len() - 1], texts[inner.len() - 1]));
        lemma_line_reads_as(number, inner.last(), texts.last());
        crate::html::lemma_reads_both(
            lines_html(first, inner.drop_last()),
            numbered(first, texts.drop_last()),
            line_html(number, inner.last()),
            decimal(number) + texts.last(),
        );
    }
}

proof fn lemma_numbered_both(first: nat, a: Seq<Seq<char>>, b: Seq<Seq<char>>)
    ensures
        numbered(first, a + b) == numbered(first, a) + numbered((first + a.len()) as nat, b),
    decreases b.len(),
{
    if b.len() == 0 {
        assert(a + b =~= a);
        assert(numbered(first, a) + seq![] =~= numbered(first, a));
    } else {
        lemma_numbered_both(first, a, b.drop_last());
        assert((a + b).drop_last() =~= a + b.drop_last());
        let last = decimal((first + a.len() + b.len() - 1) as nat) + b.last();
        assert(numbered(first, a) + numbered((first + a.len()) as nat, b.drop_last()) + last
            =~= numbered(first, a) + (numbered((first + a.len()) as nat, b.drop_last()) + last));
    }
}

proof fn lemma_chunk_opens(cols: nat, count: nat)
    ensures
        crate::html::is_tag(
            "<div class=\"code-chunk\" style=\"contain-intrinsic-size:auto "@ + decimal(cols)
                + "ch auto "@ + decimal(chunk_height(count)) + "em\">"@,
        ),
{
    reveal_strlit("<div class=\"code-chunk\" style=\"contain-intrinsic-size:auto ");
    reveal_strlit("ch auto ");
    reveal_strlit("em\">");
    let open = "<div class=\"code-chunk\" style=\"contain-intrinsic-size:auto "@;
    let mid = "ch auto "@;
    let d = decimal(cols);
    let before = open + d + mid;
    lemma_digits_are_no_markup(cols);
    assert forall|i: int| 0 <= i < before.len() implies before[i] != '>' by {
        if i < open.len() {
            assert(before[i] == open[i]);
        } else if i < open.len() + d.len() {
            assert(d.contains(d[i - open.len()]));
        } else {
            assert(before[i] == mid[i - open.len() - d.len()]);
        }
    }
    let after = "em\">"@;
    assert forall|i: int| 0 <= i < after.drop_last().len() implies after.drop_last()[i] != '>' by {}
    assert(before[0] == '<');
    lemma_digits_in_tag(before, chunk_height(count), after);
}

proof fn lemma_chunks_read_as(cols: nat, inner: Seq<Seq<char>>, texts: Seq<Seq<char>>)
    requires
        inner.len() == texts.len(),
        forall|k: int| 0 <= k < inner.len() ==> crate::html::reads_as(#[trigger] inner[k], texts[k]),
    ensures
        crate::html::reads_as(chunks_html(cols, inner), numbered(1, texts)),
    decreases inner.len(),
{
    if inner.len() == 0 {
        crate::html::lemma_reads_nothing();
    } else {
        let full = ((inner.len() - 1) / (CHUNK_LINES as int)) * CHUNK_LINES;
        let head = inner.take(full);
        let rest = inner.skip(full);
        assert forall|k: int| 0 <= k < head.len() implies crate::html::reads_as(
            #[trigger] head[k],
            texts.take(full)[k],
        ) by {
            assert(crate::html::reads_as(inner[k], texts[k]));
        }
        assert forall|k: int| 0 <= k < rest.len() implies crate::html::reads_as(
            #[trigger] rest[k],
            texts.skip(full)[k],
        ) by {
            assert(crate::html::reads_as(inner[full + k], texts[full + k]));
        }
        lemma_chunks_read_as(cols, head, texts.take(full));
        lemma_lines_read_as((full + 1) as nat, rest, texts.skip(full));
        reveal(chunk_element);
        reveal_strlit("</div>");
        let open = "<div class=\"code-chunk\" style=\"contain-intrinsic-size:auto "@ + decimal(cols)
            + "ch auto "@ + decimal(chunk_height(rest.len())) + "em\">"@;
        let body = lines_html((full + 1) as nat, rest);
        let text = numbered((full + 1) as nat, texts.skip(full));
        lemma_chunk_opens(cols, rest.len());
        crate::html::lemma_tag(open);
        crate::html::lemma_tag("</div>"@);
        crate::html::lemma_reads_both(open, seq![], body, text);
        crate::html::lemma_reads_both(open + body, seq![] + text, "</div>"@, seq![]);
        assert(seq![] + text + seq![] =~= text);
        let chunk = chunk_html(cols, (full + 1) as nat, rest);
        assert(chunk == open + body + "</div>"@);
        crate::html::lemma_reads_both(
            chunks_html(cols, head),
            numbered(1, texts.take(full)),
            chunk,
            text,
        );
        lemma_numbered_both(1, texts.take(full), texts.skip(full));
        assert(texts.take(full) + texts.skip(full) =~= texts);
    }
}

proof fn lemma_grid_opens(count: nat)
    ensures
        crate::html::is_tag("<div class=\"code-grid\""@ + gutter_html(count) + ">"@),
{
    reveal_strlit("<div class=\"code-grid\"");
    reveal_strlit(">");
    reveal_strlit(" style=\"--ln:calc(");
    reveal_strlit("ch + 1.2em)\"");
    let a = "<div class=\"code-grid\""@;
    let b = " style=\"--ln:calc("@;
    let d = decimal(decimal(count).len());
    let after = "ch + 1.2em)\""@ + ">"@;
    assert forall|i: int| 0 <= i < after.drop_last().len() implies after.drop_last()[i] != '>' by {
        assert(after.drop_last()[i] == "ch + 1.2em)\""@[i]);
    }
    let before = a + b;
    assert forall|i: int| 0 <= i < before.len() implies before[i] != '>' by {
        if i < a.len() {
            assert(before[i] == a[i]);
        } else {
            assert(before[i] == b[i - a.len()]);
        }
    }
    assert(before[0] == '<');
    lemma_digits_in_tag(before, decimal(count).len(), after);
    if decimal(count).len() > 4 {
        assert(a + gutter_html(count) + ">"@ =~= before + d + after);
    } else {
        assert(a + gutter_html(count) + ">"@ =~= a + ">"@);
        let t = a + ">"@;
        assert forall|i: int| 0 <= i < t.len() - 1 implies #[trigger] t[i] != '>' by {
            assert(t[i] == a[i]);
        }
    }
}

/// Read as HTML, a listing is the texts of its lines, each with its number before it: nothing is
/// left out, nothing is added and nothing changes its place.
pub proof fn law_listings_read_as_their_lines(
    content: Seq<char>,
    inner: Seq<Seq<char>>,
    texts: Seq<Seq<char>>,
)
    requires
        inner.len() == texts.len(),
        forall|k: int| 0 <= k < inner.len() ==> crate::html::reads_as(#[trigger] inner[k], texts[k]),
    ensures
        inner.len() > 0 ==> crate::html::reads_as(
            listing_html(content, inner),
            numbered(1, texts),
        ),
        inner.len() == 0 ==> crate::html::reads_as(listing_html(content, inner), seq!['1']),
{
    let shown = if inner.len() == 0 {
        seq![Seq::<char>::empty()]
    } else {
        inner
    };
    let read = if inner.len() == 0 {
        seq![Seq::<char>::empty()]
    } else {
        texts
    };
    crate::html::lemma_reads_nothing();
    assert(Seq::<char>::empty() =~= seq![]);
    assert forall|k: int| 0 <= k < shown.len() implies crate::html::reads_as(
        #[trigger] shown[k],
        read[k],
    ) by {
        if inner.len() > 0 {
            assert(crate::html::reads_as(inner[k], texts[k]));
        }
    }
    let cols = estimated_columns(crate::lines::lines(content));
    let open = "<div class=\"code-grid\""@ + gutter_html(shown.len()) + ">"@;
    let body = chunks_html(cols, shown);
    lemma_chunks_read_as(cols, shown, read);
    lemma_grid_opens(shown.len());
    reveal_strlit("</div>");
    crate::html::lemma_tag(open);
    crate::html::lemma_tag("</div>"@);
    crate::html::lemma_reads_both(open, seq![], body, numbered(1, read));
    crate::html::lemma_reads_both(open + body, seq![] + numbered(1, read), "</div>"@, seq![]);
    assert(seq![] + numbered(1, read) + seq![] =~= numbered(1, read));
    if inner.len() == 0 {
        assert(read.drop_last() =~= seq![]);
        assert(decimal(1) =~= seq!['1']);
        assert(numbered(1, read.drop_last()) =~= seq![]);
        assert(numbered(1, read) =~= seq!['1']);
    }
}

/// Read as HTML, the listing of a paste that is shown as it is has all of its lines, each with its
/// number before it and without its line ending.
pub proof fn law_plain_listings_read_as_the_paste(content: Seq<char>)
    requires
        content.len() > 0,
    ensures
        crate::html::reads_as(
            listing_html(
                content,
                crate::lines::lines(content).map_values(|l: Seq<char>| plain_line(l)),
            ),
            numbered(
                1,
                crate::lines::lines(content).map_values(
                    |l: Seq<char>| crate::lines::line_text(l),
                ),
            ),
        ),
{
    let v = crate::lines::lines(content);
    let inner = v.map_values(|l: Seq<char>| plain_line(l));
    let texts = v.map_values(|l: Seq<char>| crate::lines::line_text(l));
    assert forall|k: int| 0 <= k < inner.len() implies crate::html::reads_as(
        #[trigger] inner[k],
        texts[k],
    ) by {
        law_escaped_text_reads_as_the_text(crate::lines::line_text(v[k]));
    }
    crate::lines::lemma_first_line(content);
    law_listings_read_as_their_lines(content, inner, texts);
}

/// A tab takes eight columns and any other character one.
pub proof fn law_columns_add_up(a: Seq<char>, b: Seq<char>, c: char)
    ensures
        columns(a + b) == columns(a) + columns(b),
        columns(seq![c]) == (if c == '\t' {
            8nat
        } else {
            1nat
        }),
    decreases b.len(),
{
    assert(seq![c].drop_last() =~= seq![]);
    assert(columns(seq![]) == 0);
    if b.len() == 0 {
        assert(a + b =~= a);
    } else {
        law_columns_add_up(a, b.drop_last(), c);
        assert((a + b).drop_last() =~= a + b.drop_last());
        assert((a + b).last() == b.last());
    }
}

/// No line is wider than the widest, and there is one that is as wide, unless all are empty; the
/// estimate goes up to 2000 columns.
pub proof fn law_widest_line_counts(v: Seq<Seq<char>>, k: int)
    requires
        0 <= k < v.len(),
    ensures
        columns(crate::lines::line_text(v[k])) <= widest(v),
        widest(v) >= 1,
        widest(v) > 1 ==> exists|i: int|
            0 <= i < v.len() && columns(crate::lines::line_text(#[trigger] v[i])) == widest(v),
        estimated_columns(v) == (if widest(v) <= 2000 {
            widest(v)
        } else {
            2000
        }),
    decreases v.len(),
{
    let head = v.drop_last();
    if k < head.len() {
        law_widest_line_counts(head, k);
        assert(head[k] == v[k]);
    } else if head.len() > 0 {
        law_widest_line_counts(head, 0);
    }
    if widest(v) > 1 {
        if columns(crate::lines::line_text(v.last())) == widest(v) {
            assert(v[v.len() - 1] == v.last());
        } else {
            assert(widest(head) == widest(v));
            let i = choose|i: int|
                0 <= i < head.len() && columns(crate::lines::line_text(#[trigger] head[i]))
                    == widest(head);
            assert(v[i] == head[i]);
        }
    }
}

/// Lines are listed in chunks of 256: behind whole chunks the next up to 256 lines make up one,
/// with the estimated width and a height of one and a half for each line, rounded up.
pub proof fn law_chunks_hold_256_lines(cols: nat, a: Seq<Seq<char>>, b: Seq<Seq<char>>)
    requires
        a.len() % 256 == 0,
        0 < b.len() <= 256,
    ensures
        exists|height: nat|
            3 * b.len() <= 2 * height < 3 * b.len() + 2 && chunks_html(cols, a + b) == chunks_html(
                cols,
                a,
            ) + ("<div class=\"code-chunk\" style=\"contain-intrinsic-size:auto "@ + decimal(cols)
                + "ch auto "@ + #[trigger] decimal(height) + "em\">"@ + lines_html(
                (a.len() + 1) as nat,
                b,
            ) + "</div>"@),
{
    let all = a + b;
    lemma_chunk_full(cols, all, a.len() as int);
    assert(all.take(a.len() as int) =~= a);
    assert(all.skip(a.len() as int) =~= b);
    reveal(chunk_element);
    let height = chunk_height(b.len());
    assert(3 * b.len() <= 2 * height < 3 * b.len() + 2);
    let shown = decimal(height);
}

/// A listing is one grid of chunks whose width is estimated from the text. Its gutter is widened
/// where the numbers of its lines have more than four digits.
pub proof fn law_listings_are_grids(content: Seq<char>, inner: Seq<Seq<char>>)
    requires
        inner.len() > 0,
    ensures
        inner.len() < 10000 ==> listing_html(content, inner) == "<div class=\"code-grid\">"@
            + chunks_html(estimated_columns(crate::lines::lines(content)), inner) + "</div>"@,
        inner.len() >= 10000 ==> listing_html(content, inner)
            == "<div class=\"code-grid\" style=\"--ln:calc("@ + decimal(
            decimal(inner.len()).len(),
        ) + "ch + 1.2em)\">"@ + chunks_html(
            estimated_columns(crate::lines::lines(content)),
            inner,
        ) + "</div>"@,
{
    reveal_strlit("<div class=\"code-grid\"");
    reveal_strlit("<div class=\"code-grid\">");
    reveal_strlit("<div class=\"code-grid\" style=\"--ln:calc(");
    reveal_strlit(" style=\"--ln:calc(");
    reveal_strlit("ch + 1.2em)\"");
    reveal_strlit("ch + 1.2em)\">");
    reveal_strlit(">");
    let n = inner.len();
    assert(n < 10000 <==> decimal(n).len() <= 4) by {
        reveal_with_fuel(decimal, 6);
        lemma_digits_grow(n);
    }
    let body = chunks_html(estimated_columns(crate::lines::lines(content)), inner);
    if n < 10000 {
        assert("<div class=\"code-grid\""@ + gutter_html(n) + ">"@
            =~= "<div class=\"code-grid\">"@);
    } else {
        assert("<div class=\"code-grid\""@ + gutter_html(n) + ">"@
            =~= "<div class=\"code-grid\" style=\"--ln:calc("@ + decimal(decimal(n).len())
            + "ch + 1.2em)\">"@);
    }
}

proof fn lemma_digits_grow(n: nat)
    ensures
        n >= 10000 ==> decimal(n).len() > 4,
        n < 10000 ==> decimal(n).len() <= 4,
{
    let a = n / 10;
    let b = a / 10;
    let c = b / 10;
    let d = c / 10;
    assert(n >= 10 ==> decimal(n).len() == decimal(a).len() + 1);
    assert(a >= 10 ==> decimal(a).len() == decimal(b).len() + 1);
    assert(b >= 10 ==> decimal(b).len() == decimal(c).len() + 1);
    assert(c >= 10 ==> decimal(c).len() == decimal(d).len() + 1);
    assert(decimal(d).len() > 0) by {
        law_decimal_is_read_back(d);
    }
    assert(decimal(c).len() > 0) by {
        law_decimal_is_read_back(c);
    }
}

} // verus!
