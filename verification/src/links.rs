//! Which link targets a rendered paste may carry.

use vstd::prelude::*;
use vstd::std_specs::iter::*;
use vstd::string::*;
use crate::chars::{is_control, is_whitespace, to_lower};
use crate::text::same;

verus! {

/// The longest scheme that is allowed: `mailto`.
pub const MAX_SCHEME_LEN: usize = 6;

/// White space and control characters, which cannot be seen in a link and do not count.
pub open spec fn is_hidden(c: char) -> bool {
    crate::chars::is_white(c) || crate::chars::is_control_char(c)
}

/// A link target without hidden characters.
pub open spec fn visible(s: Seq<char>) -> Seq<char>
    decreases s.len(),
{
    if s.len() == 0 {
        seq![]
    } else if is_hidden(s.last()) {
        visible(s.drop_last())
    } else {
        visible(s.drop_last()).push(s.last())
    }
}

/// The characters of which the first one ends a scheme or shows that there is none.
pub open spec fn is_delimiter(c: char) -> bool {
    c == ':' || c == '/' || c == '?' || c == '#'
}

/// The position of the first delimiter, or the length.
pub open spec fn delimiter_pos(s: Seq<char>) -> int
    decreases s.len(),
{
    if s.len() == 0 || is_delimiter(s[0]) {
        0
    } else {
        1 + delimiter_pos(s.drop_first())
    }
}

/// The schemes that a link may have.
pub open spec fn is_safe_scheme(s: Seq<char>) -> bool {
    s == "http"@ || s == "https"@ || s == "mailto"@ || s == "tel"@ || s == "ftp"@
}

/// Whether a link target cannot run a script: it has no scheme, or one of the safe ones, in any
/// case and however hidden characters break it up.
pub open spec fn is_safe(url: Seq<char>) -> bool {
    let v = visible(url);
    let p = delimiter_pos(v);
    p < v.len() && v[p] == ':' ==> is_safe_scheme(crate::text::lowered(v.take(p)))
}

proof fn lemma_visible_concat(a: Seq<char>, b: Seq<char>)
    ensures
        visible(a + b) == visible(a) + visible(b),
    decreases b.len(),
{
    if b.len() == 0 {
        assert(a + b =~= a);
        assert(visible(a) + visible(b) =~= visible(a));
    } else {
        assert((a + b).drop_last() =~= a + b.drop_last());
        lemma_visible_concat(a, b.drop_last());
        if !is_hidden(b.last()) {
            assert((visible(a) + visible(b.drop_last())).push(b.last()) =~= visible(a) + visible(
                b.drop_last(),
            ).push(b.last()));
        }
    }
}

proof fn lemma_delimiter_pos_is(s: Seq<char>, n: int)
    requires
        0 <= n <= s.len(),
        n < s.len() ==> is_delimiter(s[n]),
        forall|i: int| 0 <= i < n ==> !is_delimiter(#[trigger] s[i]),
    ensures
        delimiter_pos(s) == n,
    decreases s.len(),
{
    if n > 0 {
        assert(!is_delimiter(s[0]));
        let rest = s.drop_first();
        assert forall|i: int| 0 <= i < n - 1 implies !is_delimiter(#[trigger] rest[i]) by {
            assert(rest[i] == s[i + 1]);
        }
        lemma_delimiter_pos_is(rest, n - 1);
    }
}

proof fn lemma_safe_schemes(s: Seq<char>)
    requires
        is_safe_scheme(s),
    ensures
        s.len() <= MAX_SCHEME_LEN,
        forall|i: int| 0 <= i < s.len() ==> #[trigger] s[i] < '\u{80}',
{
    reveal_strlit("http");
    reveal_strlit("https");
    reveal_strlit("mailto");
    reveal_strlit("tel");
    reveal_strlit("ftp");
}

/// Hidden characters do not change whether a link target is safe.
pub proof fn law_hidden_characters_do_not_matter(a: Seq<char>, b: Seq<char>)
    requires
        visible(a) == visible(b),
    ensures
        is_safe(a) == is_safe(b),
{
}

/// The target that stands in for an unsafe one is safe.
pub proof fn lemma_fragment_is_safe()
    ensures
        is_safe("#"@),
{
    reveal_strlit("#");
    assert("#"@ =~= seq!['#']);
    assert(seq!['#'].drop_last() =~= seq![]);
    assert(visible(seq!['#']) =~= seq!['#']) by {
        reveal_with_fuel(visible, 2);
    }
    lemma_delimiter_pos_is(seq!['#'], 0);
}

/// Whether a link target has no scheme or a safe one.
pub fn is_safe_markdown_url(url: &str) -> (r: bool)
    ensures
        r == is_safe(url@),
{
    let mut scheme = String::new();
    let mut len: usize = 0;
    let mut overlong: bool = false;
    let mut it = url.chars();
    let ghost mut n: int = 0;
    proof {
        assert(url@.skip(0) =~= url@);
        assert(url@.take(0) =~= seq![]);
        assert(crate::text::lowered(visible(seq![])) =~= seq![]);
    }
    loop
        invariant
            0 <= n <= url@.len(),
            IteratorSpec::remaining(&it) == url@.skip(n),
            forall|i: int|
                0 <= i < visible(url@.take(n)).len() ==> !is_delimiter(
                    #[trigger] visible(url@.take(n))[i],
                ),
            scheme@.len() == len,
            len <= MAX_SCHEME_LEN,
            !overlong ==> scheme@ == crate::text::lowered(visible(url@.take(n))),
            overlong ==> visible(url@.take(n)).len() > MAX_SCHEME_LEN || exists|i: int|
                0 <= i < visible(url@.take(n)).len() && #[trigger] visible(url@.take(n))[i]
                    >= '\u{80}',
        decreases url@.len() - n,
    {
        let ghost head = visible(url@.take(n));
        match it.next() {
            None => {
                proof {
                    assert(url@.take(n) =~= url@);
                    lemma_delimiter_pos_is(head, head.len() as int);
                }
                return true;
            },
            Some(c) => {
                proof {
                    assert(c == url@[n]);
                    assert(url@.skip(n).drop_first() =~= url@.skip(n + 1));
                    assert(url@.take(n + 1).drop_last() =~= url@.take(n));
                    assert(url@.take(n + 1) + url@.skip(n + 1) =~= url@);
                    lemma_visible_concat(url@.take(n + 1), url@.skip(n + 1));
                }
                if is_whitespace(c) || is_control(c) {
                    proof {
                        n = n + 1;
                    }
                } else if c == ':' || c == '/' || c == '?' || c == '#' {
                    let ghost v = visible(url@);
                    let ghost p = head.len() as int;
                    proof {
                        assert(v =~= head.push(c) + visible(url@.skip(n + 1)));
                        assert(v[p] == c);
                        assert forall|i: int| 0 <= i < p implies !is_delimiter(#[trigger] v[i]) by {
                            assert(v[i] == head[i]);
                        }
                        lemma_delimiter_pos_is(v, p);
                        assert(v.take(p) =~= head);
                    }
                    if c != ':' {
                        return true;
                    }
                    if overlong {
                        proof {
                            let low = crate::text::lowered(head);
                            if is_safe_scheme(low) {
                                lemma_safe_schemes(low);
                                let i = choose|i: int|
                                    0 <= i < head.len() && #[trigger] head[i] >= '\u{80}';
                                assert(low[i] == crate::chars::lower(head[i]));
                            }
                        }
                        return false;
                    }
                    return same(scheme.as_str(), "http") || same(scheme.as_str(), "https") || same(
                        scheme.as_str(),
                        "mailto",
                    ) || same(scheme.as_str(), "tel") || same(scheme.as_str(), "ftp");
                } else {
                    let ghost next = head.push(c);
                    proof {
                        assert(visible(url@.take(n + 1)) == next);
                        assert forall|i: int| 0 <= i < next.len() implies !is_delimiter(
                            #[trigger] next[i],
                        ) by {
                            if i < head.len() {
                                assert(next[i] == head[i]);
                            }
                        }
                    }
                    let ascii: bool = c as u32 <= 0x7f;
                    if ascii && len < MAX_SCHEME_LEN {
                        scheme.push(to_lower(c));
                        len = len + 1;
                        proof {
                            if !overlong {
                                assert(scheme@ =~= crate::text::lowered(next));
                            } else if head.len() <= MAX_SCHEME_LEN {
                                let i = choose|i: int|
                                    0 <= i < head.len() && #[trigger] head[i] >= '\u{80}';
                                assert(next[i] == head[i]);
                            }
                        }
                    } else {
                        proof {
                            assert(next[head.len() as int] == c);
                            if ascii {
                                if overlong && head.len() <= MAX_SCHEME_LEN {
                                    let i = choose|i: int|
                                        0 <= i < head.len() && #[trigger] head[i] >= '\u{80}';
                                    assert(next[i] == head[i]);
                                }
                            }
                        }
                        overlong = true;
                    }
                    proof {
                        n = n + 1;
                    }
                }
            },
        }
    }
}

/// The target that is kept of a link: the target itself where it is safe, else `#`.
pub open spec fn kept_target(url: Seq<char>) -> Seq<char> {
    if is_safe(url) {
        url
    } else {
        "#"@
    }
}

/// Replaces a link target by `#` unless it is safe.
pub fn sanitize_markdown_url(url: String) -> (r: String)
    ensures
        r@ == kept_target(url@),
        is_safe(r@),
{
    if is_safe_markdown_url(url.as_str()) {
        url
    } else {
        proof {
            lemma_fragment_is_safe();
        }
        "#".to_owned()
    }
}

proof fn lemma_nothing_hidden(s: Seq<char>)
    requires
        forall|i: int| 0 <= i < s.len() ==> !is_hidden(#[trigger] s[i]),
    ensures
        visible(s) == s,
    decreases s.len(),
{
    if s.len() > 0 {
        lemma_nothing_hidden(s.drop_last());
        assert(s.drop_last().push(s.last()) =~= s);
    }
}

/// Nothing but white space and control characters is hidden in a link target.
pub proof fn law_only_hidden_characters_are_dropped(a: Seq<char>, b: Seq<char>, c: char)
    ensures
        visible(a + b) == visible(a) + visible(b),
        visible(seq![c]) == (if crate::chars::is_white(c) || crate::chars::is_control_char(c) {
            seq![]
        } else {
            seq![c]
        }),
{
    lemma_visible_concat(a, b);
    assert(seq![c].drop_last() =~= seq![]);
    assert(visible(seq![]) =~= seq![]);
    assert(visible(seq![c]) =~= (if is_hidden(c) {
        seq![]
    } else {
        seq![c]
    }));
}

/// What stands before the first colon of a link target decides whether it is kept: one of five
/// schemes, in any case of letters. A target whose first slash, question mark or hash comes before
/// any colon has no scheme, as has one with none of these characters, and is kept.
pub proof fn law_schemes_decide(scheme: Seq<char>, c: char, rest: Seq<char>)
    requires
        forall|i: int|
            0 <= i < scheme.len() ==> !is_hidden(#[trigger] scheme[i]) && scheme[i] != ':'
                && scheme[i] != '/' && scheme[i] != '?' && scheme[i] != '#',
        c == '/' || c == '?' || c == '#',
    ensures
        kept_target(scheme + seq![':'] + rest) == (if crate::text::lowered(scheme) == "http"@
            || crate::text::lowered(scheme) == "https"@ || crate::text::lowered(scheme) == "mailto"@
            || crate::text::lowered(scheme) == "tel"@ || crate::text::lowered(scheme) == "ftp"@ {
            scheme + seq![':'] + rest
        } else {
            "#"@
        }),
        kept_target(scheme + seq![c] + rest) == scheme + seq![c] + rest,
        kept_target(scheme) == scheme,
{
    lemma_nothing_hidden(scheme);
    let n = scheme.len() as int;
    assert forall|d: char| d == ':' || d == c implies visible(#[trigger] (scheme + seq![d] + rest))
        == scheme + seq![d] + visible(rest) by {
        lemma_visible_concat(scheme + seq![d], rest);
        lemma_visible_concat(scheme, seq![d]);
        law_only_hidden_characters_are_dropped(seq![], seq![], d);
    }
    let a = visible(scheme + seq![':'] + rest);
    assert(a == scheme + seq![':'] + visible(rest));
    assert(a[n] == ':');
    assert forall|i: int| 0 <= i < n implies !is_delimiter(#[trigger] a[i]) by {
        assert(a[i] == scheme[i]);
    }
    lemma_delimiter_pos_is(a, n);
    assert(a.take(n) =~= scheme);
    let b = visible(scheme + seq![c] + rest);
    assert(b == scheme + seq![c] + visible(rest));
    assert(b[n] == c);
    assert forall|i: int| 0 <= i < n implies !is_delimiter(#[trigger] b[i]) by {
        assert(b[i] == scheme[i]);
    }
    lemma_delimiter_pos_is(b, n);
    lemma_delimiter_pos_is(scheme, n);
}

} // verus!
