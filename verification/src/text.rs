//! Text primitives: where a string is cut, what a trimmed string is, and how strings compare.
//!
//! Every operation is described over the characters of the string; the lemmas at the top connect
//! that view with the byte offsets at which a `&str` is really cut.

use vstd::prelude::*;
use vstd::utf8::*;
use vstd::std_specs::iter::*;
use vstd::string::*;
use crate::chars::{utf8_width, Class};

verus! {

/// Encoding a concatenation concatenates the encodings.
pub proof fn lemma_encode_concat(a: Seq<char>, b: Seq<char>)
    ensures
        encode_utf8(a + b) == encode_utf8(a) + encode_utf8(b),
    decreases a.len(),
{
    if a.len() == 0 {
        assert(a + b =~= b);
        assert(encode_utf8(a) + encode_utf8(b) =~= encode_utf8(b));
    } else {
        lemma_encode_concat(a.drop_first(), b);
        assert((a + b).drop_first() =~= a.drop_first() + b);
        assert(encode_utf8(a + b) =~= encode_utf8(a) + encode_utf8(b));
    }
}

/// Strings with the same encoding are the same.
pub proof fn lemma_encode_injective(a: Seq<char>, b: Seq<char>)
    requires
        encode_utf8(a) == encode_utf8(b),
    ensures
        a == b,
{
    encode_utf8_decode_utf8(a);
    encode_utf8_decode_utf8(b);
}

/// The bytes of a prefix are a prefix of the bytes, and end on a character boundary.
pub proof fn lemma_prefix_boundary(s: Seq<char>, n: int)
    requires
        0 <= n <= s.len(),
    ensures
        is_char_boundary(encode_utf8(s), encode_utf8(s.take(n)).len() as int),
        encode_utf8(s.take(n)).len() <= encode_utf8(s).len(),
        encode_utf8(s).subrange(0, encode_utf8(s.take(n)).len() as int) == encode_utf8(s.take(n)),
        encode_utf8(s).subrange(
            encode_utf8(s.take(n)).len() as int,
            encode_utf8(s).len() as int,
        ) == encode_utf8(s.skip(n)),
{
    let a = s.take(n);
    let b = s.skip(n);
    assert(a + b =~= s);
    lemma_encode_concat(a, b);
    let ea = encode_utf8(a);
    let eb = encode_utf8(b);
    assert(encode_utf8(s).subrange(0, ea.len() as int) =~= ea);
    assert(encode_utf8(s).subrange(ea.len() as int, encode_utf8(s).len() as int) =~= eb);
    lemma_concat_boundary(a, b);
}

proof fn lemma_concat_boundary(a: Seq<char>, b: Seq<char>)
    ensures
        is_char_boundary(encode_utf8(a + b), encode_utf8(a).len() as int),
    decreases a.len(),
{
    encode_utf8_valid_utf8(a + b);
    if a.len() == 0 {
    } else {
        lemma_encode_concat(a, b);
        encode_utf8_first_scalar(a + b);
        let rest = a.drop_first();
        assert((a + b).drop_first() =~= rest + b);
        lemma_concat_boundary(rest, b);
        assert(pop_first_scalar(encode_utf8(a + b)) =~= encode_utf8(rest + b));
    }
}

/// Taking one character more adds that character's bytes.
pub proof fn lemma_encode_take_next(s: Seq<char>, n: int)
    requires
        0 <= n < s.len(),
    ensures
        encode_utf8(s.take(n + 1)).len() == encode_utf8(s.take(n)).len() + encode_scalar(
            s[n] as u32,
        ).len(),
{
    let one = seq![s[n]];
    assert(s.take(n + 1) =~= s.take(n) + one);
    lemma_encode_concat(s.take(n), one);
    assert(one.drop_first() =~= Seq::<char>::empty());
    assert(encode_utf8(one) =~= encode_scalar(s[n] as u32) + encode_utf8(one.drop_first()));
}

/// A string has at least as many bytes as characters, and none only if it is empty.
pub proof fn lemma_encode_len(s: Seq<char>)
    ensures
        s.len() <= encode_utf8(s).len() <= 4 * s.len(),
    decreases s.len(),
{
    if s.len() > 0 {
        lemma_encode_len(s.drop_first());
        char_is_scalar(s[0]);
    }
}

/// Cuts `s` before its `n`-th character, which starts at byte `at`.
pub(crate) fn cut<'a>(s: &'a str, at: usize, Ghost(n): Ghost<int>) -> (r: (&'a str, &'a str))
    requires
        0 <= n <= s@.len(),
        at == encode_utf8(s@.take(n)).len(),
    ensures
        r.0@ == s@.take(n),
        r.1@ == s@.skip(n),
{
    proof {
        lemma_prefix_boundary(s@, n);
    }
    let r = s.split_at(at);
    proof {
        lemma_encode_injective(r.0@, s@.take(n));
        lemma_encode_injective(r.1@, s@.skip(n));
    }
    r
}

/// The index of the first character of `s` in `class`, or the length of `s`.
pub open spec fn first_pos(s: Seq<char>, class: Class) -> int
    decreases s.len(),
{
    if s.len() == 0 || class.has_char(s[0]) {
        0
    } else {
        1 + first_pos(s.drop_first(), class)
    }
}

/// One more than the index of the last character of `s` in `class`, or zero.
pub open spec fn last_end(s: Seq<char>, class: Class) -> int
    decreases s.len(),
{
    if s.len() == 0 {
        0
    } else if class.has_char(s.last()) {
        s.len() as int
    } else {
        last_end(s.drop_last(), class)
    }
}

/// What `first_pos` means, character by character.
pub proof fn lemma_first_pos(s: Seq<char>, class: Class)
    ensures
        0 <= first_pos(s, class) <= s.len(),
        first_pos(s, class) < s.len() ==> class.has_char(s[first_pos(s, class)]),
        forall|i: int| 0 <= i < first_pos(s, class) ==> !class.has_char(#[trigger] s[i]),
    decreases s.len(),
{
    if s.len() > 0 && !class.has_char(s[0]) {
        let t = s.drop_first();
        lemma_first_pos(t, class);
        assert forall|i: int| 0 <= i < first_pos(s, class) implies !class.has_char(
            #[trigger] s[i],
        ) by {
            if i > 0 {
                assert(t[i - 1] == s[i]);
            }
        }
    }
}

/// `first_pos` is the only index with its properties.
pub proof fn lemma_first_pos_is(s: Seq<char>, class: Class, n: int)
    requires
        0 <= n <= s.len(),
        n < s.len() ==> class.has_char(s[n]),
        forall|i: int| 0 <= i < n ==> !class.has_char(#[trigger] s[i]),
    ensures
        first_pos(s, class) == n,
{
    lemma_first_pos(s, class);
    let p = first_pos(s, class);
    if p < n {
        assert(!class.has_char(s[p]));
    } else if n < p {
        assert(!class.has_char(s[n]));
    }
}

/// What `last_end` means, character by character.
pub proof fn lemma_last_end(s: Seq<char>, class: Class)
    ensures
        0 <= last_end(s, class) <= s.len(),
        last_end(s, class) > 0 ==> class.has_char(s[last_end(s, class) - 1]),
        forall|i: int| last_end(s, class) <= i < s.len() ==> !class.has_char(#[trigger] s[i]),
    decreases s.len(),
{
    if s.len() > 0 && !class.has_char(s.last()) {
        let t = s.drop_last();
        lemma_last_end(t, class);
        assert forall|i: int| last_end(s, class) <= i < s.len() implies !class.has_char(
            #[trigger] s[i],
        ) by {
            if i < t.len() {
                assert(t[i] == s[i]);
            }
        }
    }
}

/// `last_end` is the only index with its properties.
pub proof fn lemma_last_end_is(s: Seq<char>, class: Class, n: int)
    requires
        0 <= n <= s.len(),
        n > 0 ==> class.has_char(s[n - 1]),
        forall|i: int| n <= i < s.len() ==> !class.has_char(#[trigger] s[i]),
    ensures
        last_end(s, class) == n,
{
    lemma_last_end(s, class);
    let p = last_end(s, class);
    if p < n {
        assert(!class.has_char(s[n - 1]));
    } else if n < p {
        assert(!class.has_char(s[p - 1]));
    }
}

/// Cuts `s` before its first character in `class`.
pub fn split_at_first<'a>(s: &'a str, class: Class) -> (r: (&'a str, &'a str))
    ensures
        r.0@ == s@.take(first_pos(s@, class)),
        r.1@ == s@.skip(first_pos(s@, class)),
{
    let mut it = s.chars();
    let mut at: usize = 0;
    let ghost mut n: int = 0;
    let size: usize = s.as_bytes().len();
    assert(s@.skip(0) =~= s@);
    assert(s@.take(0) =~= Seq::<char>::empty());
    loop
        invariant
            0 <= n <= s@.len(),
            IteratorSpec::remaining(&it) == s@.skip(n),
            at == encode_utf8(s@.take(n)).len(),
            size == encode_utf8(s@).len(),
            forall|i: int| 0 <= i < n ==> !class.has_char(#[trigger] s@[i]),
        decreases s@.len() - n,
    {
        match it.next() {
            None => {
                proof {
                    assert(n == s@.len());
                    lemma_first_pos_is(s@, class, n);
                }
                return cut(s, at, Ghost(n));
            },
            Some(c) => {
                assert(c == s@[n]);
                if class.holds(c) {
                    proof {
                        lemma_first_pos_is(s@, class, n);
                    }
                    return cut(s, at, Ghost(n));
                }
                proof {
                    lemma_encode_take_next(s@, n);
                    lemma_prefix_boundary(s@, n + 1);
                    assert(s@.skip(n).drop_first() =~= s@.skip(n + 1));
                    n = n + 1;
                }
                at = at + utf8_width(c);
            },
        }
    }
}

/// Cuts `s` after its last character in `class`.
pub fn split_after_last<'a>(s: &'a str, class: Class) -> (r: (&'a str, &'a str))
    ensures
        r.0@ == s@.take(last_end(s@, class)),
        r.1@ == s@.skip(last_end(s@, class)),
{
    let mut it = s.chars();
    let mut at: usize = 0;
    let mut end: usize = 0;
    let ghost mut n: int = 0;
    let ghost mut e: int = 0;
    let size: usize = s.as_bytes().len();
    assert(s@.skip(0) =~= s@);
    assert(s@.take(0) =~= Seq::<char>::empty());
    loop
        invariant
            0 <= e <= n <= s@.len(),
            IteratorSpec::remaining(&it) == s@.skip(n),
            at == encode_utf8(s@.take(n)).len(),
            end == encode_utf8(s@.take(e)).len(),
            size == encode_utf8(s@).len(),
            e > 0 ==> class.has_char(s@[e - 1]),
            forall|i: int| e <= i < n ==> !class.has_char(#[trigger] s@[i]),
        decreases s@.len() - n,
    {
        match it.next() {
            None => {
                proof {
                    assert(n == s@.len());
                    lemma_last_end_is(s@, class, e);
                }
                return cut(s, end, Ghost(e));
            },
            Some(c) => {
                assert(c == s@[n]);
                proof {
                    lemma_encode_take_next(s@, n);
                    lemma_prefix_boundary(s@, n + 1);
                    assert(s@.skip(n).drop_first() =~= s@.skip(n + 1));
                    n = n + 1;
                }
                at = at + utf8_width(c);
                if class.holds(c) {
                    end = at;
                    proof {
                        e = n;
                    }
                }
            },
        }
    }
}

/// `s` without its leading white space.
pub open spec fn trimmed_start(s: Seq<char>) -> Seq<char> {
    s.skip(first_pos(s, Class::NotWhite))
}

/// `s` without its trailing white space.
pub open spec fn trimmed_end(s: Seq<char>) -> Seq<char> {
    s.take(last_end(s, Class::NotWhite))
}

/// `s` without its leading and trailing white space.
pub open spec fn trimmed(s: Seq<char>) -> Seq<char> {
    trimmed_end(trimmed_start(s))
}

/// `s` without the copies of `c` that it starts with.
pub open spec fn without_front(s: Seq<char>, c: char) -> Seq<char> {
    s.skip(first_pos(s, Class::IsNot(c)))
}

/// `s` without the copies of `c` that it ends with.
pub open spec fn without_back(s: Seq<char>, c: char) -> Seq<char> {
    s.take(last_end(s, Class::IsNot(c)))
}

/// Nothing is left to trim of a trimmed text.
pub proof fn lemma_trimmed_again(s: Seq<char>)
    ensures
        trimmed(trimmed(s)) == trimmed(s),
{
    let t = trimmed(s);
    lemma_trimmed_ends(s);
    if t.len() > 0 {
        lemma_first_pos_is(t, Class::NotWhite, 0);
        assert(t.skip(0) =~= t);
        lemma_last_end_is(t, Class::NotWhite, t.len() as int);
        assert(t.take(t.len() as int) =~= t);
    } else {
        lemma_first_pos(t, Class::NotWhite);
        assert(trimmed_start(t) =~= t);
        lemma_last_end(t, Class::NotWhite);
        assert(trimmed_end(t) =~= t);
    }
}

/// A trimmed text neither starts nor ends with white space.
pub proof fn lemma_trimmed_ends(s: Seq<char>)
    ensures
        trimmed(s).len() > 0 ==> !crate::chars::is_white(trimmed(s)[0]) && !crate::chars::is_white(
            trimmed(s).last(),
        ),
{
    let a = trimmed_start(s);
    let t = trimmed(s);
    lemma_first_pos(s, Class::NotWhite);
    lemma_last_end(a, Class::NotWhite);
    if t.len() > 0 {
        assert(t[0] == a[0]);
        assert(a[0] == s[first_pos(s, Class::NotWhite)]);
        assert(t.last() == a[t.len() - 1]);
    }
}

/// Lower case leaves nothing to trim of a trimmed text, and nothing to lower.
pub proof fn lemma_trimmed_lowered(s: Seq<char>)
    ensures
        lowered(trimmed(lowered(trimmed(s)))) == lowered(trimmed(s)),
{
    let t = trimmed(s);
    let l = lowered(t);
    lemma_trimmed_ends(s);
    if t.len() > 0 {
        assert(l[0] == crate::chars::lower(t[0]));
        assert(l.last() == crate::chars::lower(t.last()));
        lemma_first_pos_is(l, Class::NotWhite, 0);
        assert(l.skip(0) =~= l);
        lemma_last_end_is(l, Class::NotWhite, l.len() as int);
        assert(l.take(l.len() as int) =~= l);
    } else {
        lemma_first_pos(l, Class::NotWhite);
        assert(trimmed_start(l) =~= l);
        lemma_last_end(l, Class::NotWhite);
        assert(trimmed_end(l) =~= l);
    }
    assert(lowered(l) =~= l);
}

/// Drops leading white space.
pub fn trim_start(s: &str) -> (r: &str)
    ensures
        r@ == trimmed_start(s@),
{
    split_at_first(s, Class::NotWhite).1
}

/// Drops trailing white space.
pub fn trim_end(s: &str) -> (r: &str)
    ensures
        r@ == trimmed_end(s@),
{
    split_after_last(s, Class::NotWhite).0
}

/// Drops leading and trailing white space.
pub fn trim(s: &str) -> (r: &str)
    ensures
        r@ == trimmed(s@),
{
    trim_end(trim_start(s))
}

/// Drops the copies of `c` that `s` starts with.
pub fn trim_start_matches(s: &str, c: char) -> (r: &str)
    ensures
        r@ == without_front(s@, c),
{
    split_at_first(s, Class::IsNot(c)).1
}

/// Drops the copies of `c` that `s` ends with.
pub fn trim_end_matches(s: &str, c: char) -> (r: &str)
    ensures
        r@ == without_back(s@, c),
{
    split_after_last(s, Class::IsNot(c)).0
}

/// Drops the first character.
pub fn drop_first(s: &str) -> (r: &str)
    requires
        s@.len() > 0,
    ensures
        r@ == s@.drop_first(),
{
    let mut it = s.chars();
    match it.next() {
        None => s,
        Some(c) => {
            proof {
                assert(s@.take(0) =~= Seq::<char>::empty());
                lemma_encode_take_next(s@, 0);
                assert(s@.skip(1) =~= s@.drop_first());
            }
            cut(s, utf8_width(c), Ghost(1int)).1
        },
    }
}

/// The two sides of the last `c` in `s`, if there is one.
pub open spec fn last_split(s: Seq<char>, c: char) -> Option<(Seq<char>, Seq<char>)> {
    let n = last_end(s, Class::Is(c));
    if n == 0 {
        None
    } else {
        Some((s.take(n - 1), s.skip(n)))
    }
}

/// Splits `s` at its last `c`, which belongs to neither side.
pub fn rsplit_once<'a>(s: &'a str, c: char) -> (r: Option<(&'a str, &'a str)>)
    ensures
        r matches Some(p) ==> last_split(s@, c) == Some((p.0@, p.1@)),
        r is None ==> last_split(s@, c) is None,
{
    let (head, tail) = split_after_last(s, Class::Is(c));
    proof {
        lemma_last_end(s@, Class::Is(c));
    }
    if head.is_empty() {
        return None;
    }
    let ghost n = last_end(s@, Class::Is(c));
    let ghost h = head@;
    let width: usize = utf8_width(c);
    let size: usize = head.as_bytes().len();
    proof {
        lemma_encode_take_next(h, n - 1);
        assert(h.take(n) =~= h);
        assert(h.take(n - 1) =~= s@.take(n - 1));
    }
    let (before, _) = cut(head, size - width, Ghost(n - 1));
    Some((before, tail))
}

/// The pieces of `s` between the copies of `c`.
pub open spec fn pieces(s: Seq<char>, c: char) -> Seq<Seq<char>>
    decreases s.len(),
{
    let p = first_pos(s, Class::Is(c));
    if 0 <= p < s.len() {
        seq![s.take(p)] + pieces(s.skip(p + 1), c)
    } else {
        seq![s]
    }
}

/// The characters of each string in a list.
pub open spec fn texts(v: Seq<&str>) -> Seq<Seq<char>> {
    v.map_values(|s: &str| s@)
}

/// Splits `s` at every `c`; there is always at least one piece.
pub fn split<'a>(s: &'a str, c: char) -> (r: Vec<&'a str>)
    ensures
        texts(r@) == pieces(s@, c),
{
    let mut out: Vec<&'a str> = Vec::new();
    let mut rest: &'a str = s;
    assert(texts(out@) =~= Seq::<Seq<char>>::empty());
    loop
        invariant
            texts(out@) + pieces(rest@, c) == pieces(s@, c),
        decreases rest@.len(),
    {
        let (head, tail) = split_at_first(rest, Class::Is(c));
        let ghost before = texts(out@);
        proof {
            lemma_first_pos(rest@, Class::Is(c));
        }
        out.push(head);
        assert(texts(out@) =~= before.push(head@));
        if tail.is_empty() {
            proof {
                assert(head@ =~= rest@);
                assert(before + pieces(rest@, c) =~= before.push(head@));
            }
            return out;
        }
        proof {
            let p = first_pos(rest@, Class::Is(c));
            assert(tail@.drop_first() =~= rest@.skip(p + 1));
            assert(before + pieces(rest@, c) =~= before.push(head@) + pieces(rest@.skip(p + 1), c));
        }
        rest = drop_first(tail);
    }
}

/// The first run of characters that are not white space; empty if there is none.
pub open spec fn leading_word(s: Seq<char>) -> Seq<char> {
    let t = trimmed_start(s);
    t.take(first_pos(t, Class::White))
}

/// The first white-space separated word, or the empty string.
pub fn first_word(s: &str) -> (r: &str)
    ensures
        r@ == leading_word(s@),
{
    split_at_first(trim_start(s), Class::White).0
}

/// Whether two strings are the same.
pub fn same(a: &str, b: &str) -> (r: bool)
    ensures
        r == (a@ == b@),
{
    let x = a.as_bytes();
    let y = b.as_bytes();
    if x.len() != y.len() {
        return false;
    }
    let mut i: usize = 0;
    while i < x.len()
        invariant
            x@.len() == y@.len(),
            x@ == encode_utf8(a@),
            y@ == encode_utf8(b@),
            i <= x@.len(),
            forall|j: int| 0 <= j < i ==> x@[j] == y@[j],
        decreases x@.len() - i,
    {
        if x[i] != y[i] {
            return false;
        }
        i = i + 1;
    }
    proof {
        assert(x@ =~= y@);
        lemma_encode_injective(a@, b@);
    }
    true
}

/// The part of `s` before a trailing `p`, if `s` ends with `p`.
pub open spec fn before_suffix(s: Seq<char>, p: Seq<char>) -> Option<Seq<char>> {
    if p.is_suffix_of(s) {
        Some(s.take(s.len() - p.len()))
    } else {
        None
    }
}

/// Removes a trailing `p`.
pub fn strip_suffix<'a>(s: &'a str, p: &str) -> (r: Option<&'a str>)
    ensures
        r matches Some(t) ==> before_suffix(s@, p@) == Some(t@),
        r is None ==> before_suffix(s@, p@) is None,
{
    let x = s.as_bytes();
    let y = p.as_bytes();
    let ghost m = s@.len() - p@.len();
    proof {
        if p@.is_suffix_of(s@) {
            assert(s@.take(m) + p@ =~= s@);
            lemma_encode_concat(s@.take(m), p@);
        }
    }
    if y.len() > x.len() {
        return None;
    }
    let size: usize = x.len();
    let k: usize = size - y.len();
    let mut i: usize = 0;
    while i < y.len()
        invariant
            size == x@.len(),
            k + y@.len() == x@.len(),
            x@ == encode_utf8(s@),
            y@ == encode_utf8(p@),
            i <= y@.len(),
            m == s@.len() - p@.len(),
            p@.is_suffix_of(s@) ==> encode_utf8(s@) == encode_utf8(s@.take(m)) + encode_utf8(p@),
            forall|j: int| 0 <= j < i ==> x@[k + j] == y@[j],
        decreases y@.len() - i,
    {
        if x[k + i] != y[i] {
            return None;
        }
        i = i + 1;
    }
    proof {
        encode_utf8_valid_utf8(s@);
        lemma_encode_len(p@);
        if p@.len() > 0 {
            encode_utf8_first_scalar(p@);
            assert(x@[k as int] == y@[0]);
            is_char_boundary_iff_not_is_continuation_byte(x@, k as int);
        } else {
            is_char_boundary_start_end_of_seq(x@);
        }
    }
    let (t, u) = s.split_at(k);
    proof {
        assert(encode_utf8(u@) =~= y@);
        lemma_encode_injective(u@, p@);
        lemma_encode_concat(t@, u@);
        assert(encode_utf8(t@ + u@) =~= encode_utf8(s@));
        lemma_encode_injective(t@ + u@, s@);
        assert(s@.take(s@.len() - p@.len()) =~= t@);
        assert(p@.is_suffix_of(s@));
    }
    Some(t)
}

/// Whether `s` starts with `p`.
pub fn starts_with(s: &str, p: &str) -> (r: bool)
    ensures
        r == p@.is_prefix_of(s@),
{
    let mut x = s.chars();
    let mut y = p.chars();
    let ghost mut n: int = 0;
    assert(s@.skip(0) =~= s@);
    assert(p@.skip(0) =~= p@);
    loop
        invariant
            0 <= n <= p@.len(),
            n <= s@.len(),
            IteratorSpec::remaining(&x) == s@.skip(n),
            IteratorSpec::remaining(&y) == p@.skip(n),
            forall|i: int| 0 <= i < n ==> s@[i] == p@[i],
        decreases p@.len() - n,
    {
        match y.next() {
            None => {
                assert(n == p@.len());
                assert(p@ =~= s@.take(n));
                return true;
            },
            Some(d) => {
                assert(d == p@[n]);
                match x.next() {
                    None => {
                        return false;
                    },
                    Some(c) => {
                        assert(c == s@[n]);
                        if c != d {
                            return false;
                        }
                        proof {
                            assert(s@.skip(n).drop_first() =~= s@.skip(n + 1));
                            assert(p@.skip(n).drop_first() =~= p@.skip(n + 1));
                            n = n + 1;
                        }
                    },
                }
            },
        }
    }
}

/// Whether `p` occurs in `s`.
pub open spec fn occurs_in(p: Seq<char>, s: Seq<char>) -> bool {
    exists|i: int| 0 <= i <= s.len() && #[trigger] p.is_prefix_of(s.skip(i))
}

/// Whether `p` occurs in `s`.
pub fn contains(s: &str, p: &str) -> (r: bool)
    ensures
        r == occurs_in(p@, s@),
{
    let mut rest: &str = s;
    let ghost mut n: int = 0;
    assert(s@.skip(0) =~= s@);
    loop
        invariant
            0 <= n <= s@.len(),
            rest@ == s@.skip(n),
            forall|i: int| 0 <= i < n ==> !(#[trigger] p@.is_prefix_of(s@.skip(i))),
        decreases s@.len() - n,
    {
        if starts_with(rest, p) {
            assert(p@.is_prefix_of(s@.skip(n)));
            return true;
        }
        if rest.is_empty() {
            return false;
        }
        rest = drop_first(rest);
        proof {
            assert(s@.skip(n).drop_first() =~= s@.skip(n + 1));
            n = n + 1;
        }
    }
}

/// `s` with its ASCII letters in lower case.
pub open spec fn lowered(s: Seq<char>) -> Seq<char> {
    s.map_values(|c: char| crate::chars::lower(c))
}

/// Appends one character (`String::push`).
///
/// The characters of the string afterwards are those before, followed by `c`.
pub assume_specification[ String::push ](s: &mut String, c: char)
    ensures
        final(s)@ == old(s)@.push(c),
;

/// A copy of `s` with its ASCII letters in lower case.
pub fn to_ascii_lowercase(s: &str) -> (r: String)
    ensures
        r@ == lowered(s@),
{
    let mut out = String::new();
    let mut it = s.chars();
    let ghost mut n: int = 0;
    assert(s@.skip(0) =~= s@);
    loop
        invariant
            0 <= n <= s@.len(),
            IteratorSpec::remaining(&it) == s@.skip(n),
            out@ == lowered(s@.take(n)),
        decreases s@.len() - n,
    {
        match it.next() {
            None => {
                assert(s@.take(n) =~= s@);
                return out;
            },
            Some(c) => {
                out.push(crate::chars::to_lower(c));
                proof {
                    assert(s@.skip(n).drop_first() =~= s@.skip(n + 1));
                    assert(lowered(s@.take(n + 1)) =~= lowered(s@.take(n)).push(
                        crate::chars::lower(c),
                    ));
                    n = n + 1;
                }
            },
        }
    }
}

/// The value of a decimal digit.
pub open spec fn digit(c: char) -> nat {
    (c as u32 - '0' as u32) as nat
}

/// Whether every character is a decimal digit.
pub open spec fn all_digits(s: Seq<char>) -> bool {
    forall|i: int| 0 <= i < s.len() ==> '0' <= #[trigger] s[i] <= '9'
}

/// The number that a string of decimal digits stands for.
pub open spec fn decimal_value(s: Seq<char>) -> nat
    decreases s.len(),
{
    if s.len() == 0 {
        0
    } else {
        10 * decimal_value(s.drop_last()) + digit(s.last())
    }
}

/// The number written as an optional `+` and one or more digits, if it is at most `max`.
pub open spec fn parsed(s: Seq<char>, max: nat) -> Option<nat> {
    let d = if s.len() > 0 && s[0] == '+' {
        s.drop_first()
    } else {
        s
    };
    if d.len() > 0 && all_digits(d) && decimal_value(d) <= max {
        Some(decimal_value(d))
    } else {
        None
    }
}

proof fn lemma_value_grows(s: Seq<char>, n: int)
    requires
        0 <= n <= s.len(),
    ensures
        decimal_value(s.take(n)) <= decimal_value(s),
    decreases s.len() - n,
{
    if n < s.len() {
        lemma_value_grows(s, n + 1);
        assert(s.take(n + 1).drop_last() =~= s.take(n));
    } else {
        assert(s.take(n) =~= s);
    }
}

/// Reads a non-negative decimal number of at most `max`, with an optional `+` before it.
pub fn parse_number(s: &str, max: u64) -> (r: Option<u64>)
    ensures
        r matches Some(v) ==> parsed(s@, max as nat) == Some(v as nat),
        r is None ==> parsed(s@, max as nat) is None,
{
    let d: &str = if starts_with_char(s, '+') {
        drop_first(s)
    } else {
        s
    };
    if d.is_empty() {
        return None;
    }
    let mut it = d.chars();
    let mut value: u64 = 0;
    let ghost mut n: int = 0;
    assert(d@.skip(0) =~= d@);
    assert(d@.take(0) =~= Seq::<char>::empty());
    loop
        invariant
            0 <= n <= d@.len(),
            IteratorSpec::remaining(&it) == d@.skip(n),
            value as nat == decimal_value(d@.take(n)),
            value <= max,
            d@.len() > 0,
            d@ == (if s@.len() > 0 && s@[0] == '+' {
                s@.drop_first()
            } else {
                s@
            }),
            forall|i: int| 0 <= i < n ==> '0' <= #[trigger] d@[i] <= '9',
        decreases d@.len() - n,
    {
        match it.next() {
            None => {
                assert(d@.take(n) =~= d@);
                return Some(value);
            },
            Some(c) => {
                assert(c == d@[n]);
                if c < '0' || '9' < c {
                    return None;
                }
                let v: u64 = (c as u32 - '0' as u32) as u64;
                proof {
                    assert(d@.take(n + 1).drop_last() =~= d@.take(n));
                    assert(d@.take(n + 1).last() == c);
                    lemma_value_grows(d@, n + 1);
                    assert(d@.skip(n).drop_first() =~= d@.skip(n + 1));
                    n = n + 1;
                }
                match value.checked_mul(10) {
                    None => {
                        return None;
                    },
                    Some(tens) => match tens.checked_add(v) {
                        None => {
                            return None;
                        },
                        Some(next) => {
                            if next > max {
                                return None;
                            }
                            value = next;
                        },
                    },
                }
            },
        }
    }
}

/// Whether `s` starts with the character `c`.
pub fn starts_with_char(s: &str, c: char) -> (r: bool)
    ensures
        r == (s@.len() > 0 && s@[0] == c),
{
    let mut it = s.chars();
    match it.next() {
        None => false,
        Some(d) => d == c,
    }
}

/// White space around a text is trimmed, and nothing else.
pub proof fn law_white_space_is_trimmed(a: Seq<char>, t: Seq<char>, b: Seq<char>)
    requires
        forall|i: int| 0 <= i < a.len() ==> crate::chars::is_white(#[trigger] a[i]),
        forall|i: int| 0 <= i < b.len() ==> crate::chars::is_white(#[trigger] b[i]),
        t.len() > 0 ==> !crate::chars::is_white(t[0]) && !crate::chars::is_white(t.last()),
    ensures
        trimmed(a + t + b) == t,
{
    let class = Class::NotWhite;
    let s = a + t + b;
    if t.len() > 0 {
        assert forall|i: int| 0 <= i < a.len() implies !class.has_char(#[trigger] s[i]) by {
            assert(s[i] == a[i]);
        }
        assert(s[a.len() as int] == t[0]);
        lemma_first_pos_is(s, class, a.len() as int);
        let rest = s.skip(a.len() as int);
        assert(rest =~= t + b);
        assert forall|i: int| t.len() <= i < rest.len() implies !class.has_char(
            #[trigger] rest[i],
        ) by {
            assert(rest[i] == b[i - t.len()]);
        }
        assert(rest[t.len() - 1] == t.last());
        lemma_last_end_is(rest, class, t.len() as int);
        assert(rest.take(t.len() as int) =~= t);
    } else {
        assert forall|i: int| 0 <= i < s.len() implies !class.has_char(#[trigger] s[i]) by {
            if i < a.len() {
                assert(s[i] == a[i]);
            } else {
                assert(s[i] == b[i - a.len()]);
            }
        }
        lemma_first_pos(s, class);
        assert(trimmed_start(s).len() == 0) by {
            if first_pos(s, class) < s.len() {
                assert(class.has_char(s[first_pos(s, class)]));
            }
        }
        lemma_last_end(trimmed_start(s), class);
        assert(trimmed(s) =~= t);
    }
}

/// A text is split at the last copy of a character, which belongs to neither side.
pub proof fn law_split_at_the_last(a: Seq<char>, c: char, b: Seq<char>)
    requires
        !b.contains(c),
    ensures
        last_split(a + seq![c] + b, c) == Some((a, b)),
        last_split(b, c) is None,
{
    let s = a + seq![c] + b;
    let class = Class::Is(c);
    let n = a.len() as int + 1;
    assert(s[n - 1] == c);
    assert forall|i: int| n <= i < s.len() implies !class.has_char(#[trigger] s[i]) by {
        assert(s[i] == b[i - n]);
        assert(b.contains(b[i - n]));
    }
    lemma_last_end_is(s, class, n);
    assert(s.take(n - 1) =~= a);
    assert(s.skip(n) =~= b);
    assert forall|i: int| 0 <= i < b.len() implies !class.has_char(#[trigger] b[i]) by {
        assert(b.contains(b[i]));
    }
    lemma_last_end_is(b, class, 0);
}

/// A text is split at each copy of a character.
pub proof fn law_pieces_lie_between(a: Seq<char>, c: char, b: Seq<char>)
    requires
        !a.contains(c),
    ensures
        pieces(a, c) == seq![a],
        pieces(a + seq![c] + b, c) == seq![a] + pieces(b, c),
{
    let class = Class::Is(c);
    assert forall|i: int| 0 <= i < a.len() implies !class.has_char(#[trigger] a[i]) by {
        assert(a.contains(a[i]));
    }
    lemma_first_pos(a, class);
    if first_pos(a, class) < a.len() {
        assert(class.has_char(a[first_pos(a, class)]));
    }
    let s = a + seq![c] + b;
    let p = a.len() as int;
    assert forall|i: int| 0 <= i < p implies !class.has_char(#[trigger] s[i]) by {
        assert(s[i] == a[i]);
    }
    assert(s[p] == c);
    lemma_first_pos_is(s, class, p);
    assert(s.take(p) =~= a);
    assert(s.skip(p + 1) =~= b);
}

/// Lower case changes the letters from `A` to `Z` alone, each to the same letter from `a` to `z`.
pub proof fn law_lower_case_keeps_the_rest(s: Seq<char>)
    ensures
        lowered(s).len() == s.len(),
        forall|i: int|
            0 <= i < s.len() ==> if 'A' <= s[i] <= 'Z' {
                'a' <= #[trigger] lowered(s)[i] <= 'z' && lowered(s)[i] as u32 - 'a' as u32
                    == s[i] as u32 - 'A' as u32
            } else {
                lowered(s)[i] == s[i]
            },
        lowered(lowered(s)) == lowered(s),
{
    assert(lowered(lowered(s)) =~= lowered(s));
}

/// A suffix is taken off where a text ends in it, and only there.
pub proof fn law_suffix_is_taken_off(s: Seq<char>, a: Seq<char>, p: Seq<char>)
    ensures
        before_suffix(a + p, p) == Some(a),
        before_suffix(s, p) matches Some(rest) ==> rest + p == s,
        before_suffix(s, p) is None ==> s != a + p,
{
    let t = a + p;
    assert(t.subrange(t.len() - p.len(), t.len() as int) =~= p);
    assert(t.take(t.len() - p.len()) =~= a);
    if p.is_suffix_of(s) {
        assert(s.take(s.len() - p.len()) + p =~= s);
    }
}

/// All copies of a character are dropped from the start and from the end of a text, and nothing
/// else.
pub proof fn law_only_copies_are_dropped(s: Seq<char>, c: char)
    ensures
        without_front(s, c).is_suffix_of(s),
        without_front(s, c).len() > 0 ==> without_front(s, c)[0] != c,
        forall|i: int| 0 <= i < s.len() - without_front(s, c).len() ==> #[trigger] s[i] == c,
        without_back(s, c).is_prefix_of(s),
        without_back(s, c).len() > 0 ==> without_back(s, c).last() != c,
        forall|i: int| without_back(s, c).len() <= i < s.len() ==> #[trigger] s[i] == c,
{
    let class = Class::IsNot(c);
    lemma_first_pos(s, class);
    lemma_last_end(s, class);
    let f = without_front(s, c);
    assert(s.subrange(s.len() - f.len(), s.len() as int) =~= f);
    let b = without_back(s, c);
    assert(s.subrange(0, b.len() as int) =~= b);
    assert forall|i: int| 0 <= i < s.len() - f.len() implies #[trigger] s[i] == c by {
        assert(!class.has_char(s[i]));
    }
    assert forall|i: int| b.len() <= i < s.len() implies #[trigger] s[i] == c by {
        assert(!class.has_char(s[i]));
    }
}

/// A number that was written in decimal is read back where it is small enough, also with a plus
/// sign before it; what holds anything else than digits is no number.
pub proof fn law_numbers_are_read(s: Seq<char>, n: nat, max: nat)
    ensures
        parsed(crate::listing::decimal(n), max) == (if n <= max {
            Some(n)
        } else {
            None
        }),
        parsed(seq!['+'] + crate::listing::decimal(n), max) == parsed(
            crate::listing::decimal(n),
            max,
        ),
        s.len() == 0 || s == seq!['+'] ==> parsed(s, max) is None,
        (exists|i: int| 0 < i < s.len() && !('0' <= #[trigger] s[i] <= '9')) ==> parsed(s, max) is None,
        s.len() > 0 && s[0] != '+' && !('0' <= s[0] <= '9') ==> parsed(s, max) is None,
{
    let d = crate::listing::decimal(n);
    crate::listing::law_decimal_is_read_back(n);
    assert('0' <= d[0] <= '9');
    let p = seq!['+'] + d;
    assert(p.drop_first() =~= d);
    if exists|i: int| 0 < i < s.len() && !('0' <= #[trigger] s[i] <= '9') {
        let i = choose|i: int| 0 < i < s.len() && !('0' <= #[trigger] s[i] <= '9');
        assert(s.drop_first()[i - 1] == s[i]);
    }
}

/// The first word of a text is what stands between its first white space and the next.
pub proof fn law_first_word_ends_at_white_space(a: Seq<char>, w: Seq<char>, b: Seq<char>)
    requires
        forall|i: int| 0 <= i < a.len() ==> crate::chars::is_white(#[trigger] a[i]),
        forall|i: int| 0 <= i < w.len() ==> !crate::chars::is_white(#[trigger] w[i]),
        b.len() > 0 ==> crate::chars::is_white(b[0]),
        w.len() > 0 || b.len() == 0,
    ensures
        leading_word(a + w + b) == w,
{
    let s = a + w + b;
    let class = Class::NotWhite;
    let n = a.len() as int;
    assert forall|i: int| 0 <= i < n implies !class.has_char(#[trigger] s[i]) by {
        assert(s[i] == a[i]);
    }
    if n < s.len() {
        assert(s[n] == w[0]);
    }
    lemma_first_pos_is(s, class, n);
    let t = s.skip(n);
    assert(t =~= w + b);
    let m = w.len() as int;
    assert forall|i: int| 0 <= i < m implies !Class::White.has_char(#[trigger] t[i]) by {
        assert(t[i] == w[i]);
    }
    if m < t.len() {
        assert(t[m] == b[0]);
    }
    lemma_first_pos_is(t, Class::White, m);
    assert(t.take(m) =~= w);
}

/// A text occurs in another one where that is made of it and something before and behind it, and
/// only there.
pub proof fn law_occurrences_have_surroundings(p: Seq<char>, a: Seq<char>, b: Seq<char>, s: Seq<char>)
    ensures
        occurs_in(p, a + p + b),
        occurs_in(p, s) ==> exists|x: Seq<char>, y: Seq<char>| s == #[trigger] (x + p + y),
{
    let t = a + p + b;
    let n = a.len() as int;
    assert(t.skip(n).subrange(0, p.len() as int) =~= p);
    assert(p.is_prefix_of(t.skip(n)));
    if occurs_in(p, s) {
        let i = choose|i: int| 0 <= i <= s.len() && #[trigger] p.is_prefix_of(s.skip(i));
        assert(s.skip(i).subrange(0, p.len() as int) == p);
        assert(s.take(i) + p + s.skip(i + p.len()) =~= s);
    }
}

} // verus!
