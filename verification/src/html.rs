//! What HTML reads as: the text that is left when tags are dropped and entities are replaced by
//! the characters that they stand for.

use vstd::prelude::*;

verus! {

/// How far HTML has been read.
#[verifier::ext_equal]
pub struct Reader {
    /// The text so far.
    pub text: Seq<char>,
    /// Whether a tag is open.
    pub in_tag: bool,
    /// The characters of an entity that is not complete, from its `&` on.
    pub entity: Seq<char>,
}

/// The character that an entity stands for, given without its semicolon.
pub open spec fn entity_char(entity: Seq<char>) -> Option<char> {
    if entity == seq!['&', 'a', 'm', 'p'] {
        Some('&')
    } else if entity == seq!['&', 'l', 't'] {
        Some('<')
    } else if entity == seq!['&', 'g', 't'] {
        Some('>')
    } else if entity == seq!['&', 'q', 'u', 'o', 't'] {
        Some('"')
    } else if entity == seq!['&', '#', '3', '9'] {
        Some('\'')
    } else {
        None
    }
}

impl Reader {
    /// The start of a text.
    pub open spec fn start() -> Reader {
        Reader { text: seq![], in_tag: false, entity: seq![] }
    }

    /// Whether neither a tag nor an entity is open.
    pub open spec fn is_at_text(self) -> bool {
        !self.in_tag && self.entity.len() == 0
    }

    /// The reader after some more text.
    pub open spec fn with_text(self, text: Seq<char>) -> Reader {
        Reader { text: self.text + text, ..self }
    }

    /// The reader after one more character.
    pub open spec fn after_char(self, c: char) -> Reader {
        if self.in_tag {
            Reader { in_tag: c != '>', ..self }
        } else if self.entity.len() > 0 {
            if c == ';' {
                Reader {
                    text: match entity_char(self.entity) {
                        Some(d) => self.text.push(d),
                        None => self.text + self.entity.push(c),
                    },
                    entity: seq![],
                    ..self
                }
            } else {
                Reader { entity: self.entity.push(c), ..self }
            }
        } else if c == '<' {
            Reader { in_tag: true, ..self }
        } else if c == '&' {
            Reader { entity: seq![c], ..self }
        } else {
            Reader { text: self.text.push(c), ..self }
        }
    }

    /// The reader after some more HTML.
    pub open spec fn after_html(self, html: Seq<char>) -> Reader
        decreases html.len(),
    {
        if html.len() == 0 {
            self
        } else {
            self.after_html(html.drop_last()).after_char(html.last())
        }
    }
}

/// Whether HTML reads as a text, wherever outside of tags and entities it stands.
pub open spec fn reads_as(html: Seq<char>, text: Seq<char>) -> bool {
    forall|r: Reader| r.is_at_text() ==> #[trigger] r.after_html(html) == r.with_text(text)
}

/// Reading HTML in two parts is reading it whole.
pub proof fn lemma_after_both(r: Reader, a: Seq<char>, b: Seq<char>)
    ensures
        r.after_html(a + b) == r.after_html(a).after_html(b),
    decreases b.len(),
{
    if b.len() == 0 {
        assert(a + b =~= a);
    } else {
        lemma_after_both(r, a, b.drop_last());
        assert((a + b).drop_last() =~= a + b.drop_last());
        assert((a + b).last() == b.last());
    }
}

/// HTML in two parts reads as the two texts, one behind the other.
pub proof fn lemma_reads_both(a: Seq<char>, s: Seq<char>, b: Seq<char>, t: Seq<char>)
    requires
        reads_as(a, s),
        reads_as(b, t),
    ensures
        reads_as(a + b, s + t),
{
    assert forall|r: Reader| r.is_at_text() implies #[trigger] r.after_html(a + b) == r.with_text(
        s + t,
    ) by {
        lemma_after_both(r, a, b);
        assert(r.after_html(a) == r.with_text(s));
        assert(r.with_text(s).is_at_text());
        assert(r.with_text(s).after_html(b) == r.with_text(s).with_text(t));
        assert(r.text + s + t =~= r.text + (s + t));
    }
}

/// Nothing reads as nothing.
pub proof fn lemma_reads_nothing()
    ensures
        reads_as(seq![], seq![]),
{
    assert forall|r: Reader| r.is_at_text() implies #[trigger] r.after_html(seq![])
        == r.with_text(seq![]) by {
        assert(r.text + seq![] =~= r.text);
    }
}

proof fn lemma_in_tag(r: Reader, s: Seq<char>)
    requires
        r.in_tag,
        !s.contains('>'),
    ensures
        r.after_html(s) == r,
    decreases s.len(),
{
    if s.len() > 0 {
        assert(s.contains(s.last()));
        assert forall|i: int| 0 <= i < s.drop_last().len() implies s.drop_last()[i] != '>' by {
            assert(s.contains(s[i]));
        }
        lemma_in_tag(r, s.drop_last());
    }
}

/// A tag reads as nothing.
pub proof fn lemma_reads_tag(inside: Seq<char>)
    requires
        !inside.contains('>'),
    ensures
        reads_as(seq!['<'] + inside + seq!['>'], seq![]),
{
    let open = seq!['<'];
    let close = seq!['>'];
    assert forall|r: Reader| r.is_at_text() implies #[trigger] r.after_html(open + inside + close)
        == r.with_text(seq![]) by {
        lemma_after_both(r, open + inside, close);
        lemma_after_both(r, open, inside);
        assert(open.drop_last() =~= seq![]);
        assert(close.drop_last() =~= seq![]);
        assert(r.after_html(seq![]) == r);
        let t = r.after_char('<');
        assert(r.after_html(open) == t);
        lemma_in_tag(t, inside);
        assert(t.after_html(seq![]) == t);
        assert(t.after_html(close) == t.after_char('>'));
        assert(r.text + seq![] =~= r.text);
        assert(t.after_char('>') =~= r.with_text(seq![]));
    }
}

/// A text without a `<` and a `&` reads as itself.
pub proof fn lemma_reads_plain(s: Seq<char>)
    requires
        !s.contains('<'),
        !s.contains('&'),
    ensures
        reads_as(s, s),
    decreases s.len(),
{
    if s.len() == 0 {
        lemma_reads_nothing();
        assert(s =~= seq![]);
    } else {
        let head = s.drop_last();
        assert forall|i: int| 0 <= i < head.len() implies head[i] != '<' && head[i] != '&' by {
            assert(s.contains(s[i]));
        }
        lemma_reads_plain(head);
        assert(s.contains(s.last()));
        assert forall|r: Reader| r.is_at_text() implies #[trigger] r.after_html(s) == r.with_text(
            s,
        ) by {
            assert(r.after_html(head) == r.with_text(head));
            assert((r.text + head).push(s.last()) =~= r.text + s);
        }
    }
}

proof fn lemma_entity_letters(r: Reader, s: Seq<char>)
    requires
        !r.in_tag,
        r.entity.len() > 0,
        !s.contains(';'),
    ensures
        r.after_html(s) == (Reader { entity: r.entity + s, ..r }),
    decreases s.len(),
{
    if s.len() == 0 {
        assert(r.entity + s =~= r.entity);
    } else {
        assert(s.contains(s.last()));
        assert forall|i: int| 0 <= i < s.drop_last().len() implies s.drop_last()[i] != ';' by {
            assert(s.contains(s[i]));
        }
        lemma_entity_letters(r, s.drop_last());
        assert((r.entity + s.drop_last()).push(s.last()) =~= r.entity + s);
    }
}

/// An entity reads as its character.
pub proof fn lemma_reads_entity(letters: Seq<char>, c: char)
    requires
        !letters.contains(';'),
        entity_char(seq!['&'] + letters) == Some(c),
    ensures
        reads_as(seq!['&'] + letters + seq![';'], seq![c]),
{
    let open = seq!['&'];
    let close = seq![';'];
    assert forall|r: Reader| r.is_at_text() implies #[trigger] r.after_html(open + letters + close)
        == r.with_text(seq![c]) by {
        lemma_after_both(r, open + letters, close);
        lemma_after_both(r, open, letters);
        assert(open.drop_last() =~= seq![]);
        assert(close.drop_last() =~= seq![]);
        assert(r.after_html(seq![]) == r);
        let t = r.after_char('&');
        assert(r.after_html(open) == t);
        lemma_entity_letters(t, letters);
        let u = Reader { entity: open + letters, ..t };
        assert(t.after_html(letters) == u);
        assert(u.after_html(seq![]) == u);
        assert(u.after_html(close) == u.after_char(';'));
        assert(r.text + seq![c] =~= r.text.push(c));
        assert(u.after_char(';') =~= r.with_text(seq![c]));
    }
}

/// Whether HTML is one tag.
pub open spec fn is_tag(html: Seq<char>) -> bool {
    &&& html.len() >= 2
    &&& html[0] == '<'
    &&& html.last() == '>'
    &&& forall|i: int| 0 <= i < html.len() - 1 ==> #[trigger] html[i] != '>'
}

/// A tag reads as nothing.
pub proof fn lemma_tag(html: Seq<char>)
    requires
        is_tag(html),
    ensures
        reads_as(html, seq![]),
{
    let inside = html.subrange(1, html.len() - 1);
    assert forall|i: int| 0 <= i < inside.len() implies inside[i] != '>' by {
        assert(html[i + 1] != '>');
    }
    lemma_reads_tag(inside);
    assert(html =~= seq!['<'] + inside + seq!['>']);
}

} // verus!
