//! The bounded cache of rendered pastes, least recently used entries leaving first.

use std::sync::Arc;

use lru::LruCache;
use vstd::prelude::*;

verus! {

/// A rendered view of a paste.
pub enum Rendered {
    /// The HTML of the paste's content.
    Page(Arc<String>),
    /// The PNG preview image.
    Image(Arc<Vec<u8>>),
}

/// What a [`Rendered`] holds.
pub enum RenderedView {
    Page(Seq<char>),
    Image(Seq<u8>),
}

impl View for Rendered {
    type V = RenderedView;

    open spec fn view(&self) -> RenderedView {
        match self {
            Rendered::Page(html) => RenderedView::Page(html@),
            Rendered::Image(png) => RenderedView::Image(png@),
        }
    }
}

impl Rendered {
    /// Another pointer to the same view.
    pub fn shared(&self) -> (r: Rendered)
        ensures
            r@ == self@,
    {
        match self {
            Rendered::Page(html) => Rendered::Page(share(html)),
            Rendered::Image(png) => Rendered::Image(share(png)),
        }
    }
}

/// The cache behind [`RenderCache`] (`lru::LruCache`).
#[verifier::external_type_specification]
#[verifier::external_body]
#[verifier::reject_recursive_types(K)]
#[verifier::reject_recursive_types(V)]
#[verifier::reject_recursive_types(S)]
pub struct ExLruCache<K, V, S>(LruCache<K, V, S>);

/// The hasher that the cache is built with (`lru::DefaultHasher`).
#[verifier::external_type_specification]
#[verifier::external_body]
pub struct ExDefaultHasher(lru::DefaultHasher);

/// The entries of a cache, most recently used first.
pub uninterp spec fn lru_entries(cache: LruCache<String, Rendered>) -> Seq<(Seq<char>, RenderedView)>;

/// The number of entries that a cache can hold.
pub uninterp spec fn lru_capacity(cache: LruCache<String, Rendered>) -> nat;

/// The index of the entry for `key`, or the number of entries.
pub open spec fn entry_index(entries: Seq<(Seq<char>, RenderedView)>, key: Seq<char>) -> int
    decreases entries.len(),
{
    if entries.len() == 0 || entries[0].0 == key {
        0
    } else {
        1 + entry_index(entries.drop_first(), key)
    }
}

/// The value cached under `key`.
pub open spec fn cached(entries: Seq<(Seq<char>, RenderedView)>, key: Seq<char>) -> Option<
    RenderedView,
> {
    let i = entry_index(entries, key);
    if 0 <= i < entries.len() {
        Some(entries[i].1)
    } else {
        None
    }
}

/// The entries after `key` was looked up: its entry, if there is one, comes first.
pub open spec fn after_get(entries: Seq<(Seq<char>, RenderedView)>, key: Seq<char>) -> Seq<
    (Seq<char>, RenderedView),
> {
    let i = entry_index(entries, key);
    if 0 <= i < entries.len() {
        seq![entries[i]] + entries.remove(i)
    } else {
        entries
    }
}

/// The entries after `value` was stored under `key` in a cache for `capacity` entries.
///
/// The new entry comes first. It takes the place of an earlier entry for the key, or else, in a
/// full cache, that of the entry that was not used for longest.
pub open spec fn after_put(
    entries: Seq<(Seq<char>, RenderedView)>,
    capacity: nat,
    key: Seq<char>,
    value: RenderedView,
) -> Seq<(Seq<char>, RenderedView)> {
    let i = entry_index(entries, key);
    let kept = if 0 <= i < entries.len() {
        entries.remove(i)
    } else if entries.len() == capacity {
        entries.drop_last()
    } else {
        entries
    };
    seq![(key, value)] + kept
}

/// Makes an empty cache (`LruCache::new`).
///
/// The bound leaves out the capacities whose table would overflow the address space.
#[verifier::external_body]
fn lru_new(capacity: usize) -> (r: LruCache<String, Rendered>)
    requires
        0 < capacity,
        64 * capacity <= isize::MAX,
    ensures
        lru_entries(r) == Seq::<(Seq<char>, RenderedView)>::empty(),
        lru_capacity(r) == capacity,
{
    LruCache::new(std::num::NonZeroUsize::new(capacity).unwrap())
}

/// Looks a key up (`LruCache::get`).
///
/// A hit returns the value of the key's entry and makes that entry the most recently used one; a
/// miss changes nothing.
#[verifier::external_body]
fn lru_get<'a>(cache: &'a mut LruCache<String, Rendered>, key: &str) -> (r: Option<&'a Rendered>)
    ensures
        r matches Some(v) ==> cached(lru_entries(*old(cache)), key@) == Some(v@),
        r is None ==> cached(lru_entries(*old(cache)), key@) is None,
        lru_entries(*final(cache)) == after_get(lru_entries(*old(cache)), key@),
        lru_capacity(*final(cache)) == lru_capacity(*old(cache)),
{
    cache.get(key)
}

/// Makes another pointer to the same value (`Arc::clone`).
#[verifier::external_body]
fn share<T>(value: &Arc<T>) -> (r: Arc<T>)
    ensures
        r == *value,
{
    Arc::clone(value)
}

/// Stores a value (`LruCache::put`).
///
/// The entry becomes the most recently used one. It replaces an entry with the same key, or
/// else, in a full cache, the least recently used entry.
#[verifier::external_body]
fn lru_put(cache: &mut LruCache<String, Rendered>, key: String, value: Rendered)
    ensures
        lru_entries(*final(cache)) == after_put(
            lru_entries(*old(cache)),
            lru_capacity(*old(cache)),
            key@,
            value@,
        ),
        lru_capacity(*final(cache)) == lru_capacity(*old(cache)),
{
    cache.put(key, value);
}

proof fn lemma_entry_index(entries: Seq<(Seq<char>, RenderedView)>, key: Seq<char>)
    ensures
        0 <= entry_index(entries, key) <= entries.len(),
        entry_index(entries, key) < entries.len() ==> entries[entry_index(entries, key)].0 == key,
        forall|i: int| 0 <= i < entry_index(entries, key) ==> (#[trigger] entries[i]).0 != key,
    decreases entries.len(),
{
    if entries.len() > 0 && entries[0].0 != key {
        let rest = entries.drop_first();
        lemma_entry_index(rest, key);
        assert forall|i: int| 0 <= i < entry_index(entries, key) implies (
        #[trigger] entries[i]).0 != key by {
            if i > 0 {
                assert(rest[i - 1] == entries[i]);
            }
        }
    }
}

proof fn lemma_entry_index_is(entries: Seq<(Seq<char>, RenderedView)>, key: Seq<char>, n: int)
    requires
        0 <= n <= entries.len(),
        n < entries.len() ==> entries[n].0 == key,
        forall|i: int| 0 <= i < n ==> (#[trigger] entries[i]).0 != key,
    ensures
        entry_index(entries, key) == n,
{
    lemma_entry_index(entries, key);
    let p = entry_index(entries, key);
    if p < n {
        assert(entries[p].0 != key);
    } else if n < p {
        assert(entries[n].0 != key);
    }
}

/// No key occurs twice.
pub open spec fn distinct_keys(entries: Seq<(Seq<char>, RenderedView)>) -> bool {
    forall|i: int, j: int|
        0 <= i < j < entries.len() ==> (#[trigger] entries[i]).0 != (#[trigger] entries[j]).0
}

/// A cache of rendered pastes that holds at most a fixed number of entries.
pub struct RenderCache {
    inner: LruCache<String, Rendered>,
}

impl RenderCache {
    /// The entries, most recently used first.
    pub closed spec fn entries(self) -> Seq<(Seq<char>, RenderedView)> {
        lru_entries(self.inner)
    }

    /// How many entries the cache can hold.
    pub closed spec fn capacity(self) -> nat {
        lru_capacity(self.inner)
    }

    /// The cache holds at most `capacity` entries, and at most one for each key.
    pub open spec fn wf(self) -> bool {
        &&& 0 < self.capacity()
        &&& self.entries().len() <= self.capacity()
        &&& distinct_keys(self.entries())
    }

    /// An empty cache for `capacity` entries.
    pub fn new(capacity: usize) -> (r: RenderCache)
        requires
            0 < capacity,
            64 * capacity <= isize::MAX,
        ensures
            r.wf(),
            r.capacity() == capacity,
            r.entries() == Seq::<(Seq<char>, RenderedView)>::empty(),
    {
        RenderCache { inner: lru_new(capacity) }
    }

    /// The value cached under `key`, whose entry becomes the most recently used one.
    pub fn get(&mut self, key: &str) -> (r: Option<Rendered>)
        requires
            old(self).wf(),
        ensures
            final(self).wf(),
            final(self).capacity() == old(self).capacity(),
            final(self).entries() == after_get(old(self).entries(), key@),
            r matches Some(v) ==> cached(old(self).entries(), key@) == Some(v@),
            r is None ==> cached(old(self).entries(), key@) is None,
    {
        proof {
            lemma_get_keeps(self.entries(), key@);
        }
        match lru_get(&mut self.inner, key) {
            Some(rendered) => Some(rendered.shared()),
            None => None,
        }
    }

    /// Caches `value` under `key` as the most recently used entry.
    pub fn put(&mut self, key: String, value: Rendered)
        requires
            old(self).wf(),
        ensures
            final(self).wf(),
            final(self).capacity() == old(self).capacity(),
            final(self).entries() == after_put(
                old(self).entries(),
                old(self).capacity(),
                key@,
                value@,
            ),
    {
        proof {
            lemma_put_keeps(old(self).entries(), old(self).capacity(), key@, value@);
        }
        lru_put(&mut self.inner, key, value);
    }
}

proof fn lemma_get_keeps(entries: Seq<(Seq<char>, RenderedView)>, key: Seq<char>)
    requires
        distinct_keys(entries),
    ensures
        distinct_keys(after_get(entries, key)),
        after_get(entries, key).len() == entries.len(),
{
    lemma_entry_index(entries, key);
}

proof fn lemma_put_keeps(
    entries: Seq<(Seq<char>, RenderedView)>,
    capacity: nat,
    key: Seq<char>,
    value: RenderedView,
)
    requires
        distinct_keys(entries),
        entries.len() <= capacity,
        0 < capacity,
    ensures
        distinct_keys(after_put(entries, capacity, key, value)),
        after_put(entries, capacity, key, value).len() <= capacity,
{
    lemma_entry_index(entries, key);
}

/// A value that was just stored is what a lookup of its key gives.
pub proof fn law_get_after_put(
    entries: Seq<(Seq<char>, RenderedView)>,
    capacity: nat,
    key: Seq<char>,
    value: RenderedView,
)
    ensures
        cached(after_put(entries, capacity, key, value), key) == Some(value),
{
    let after = after_put(entries, capacity, key, value);
    assert(after[0] == (key, value));
}

/// A lookup changes no cached value: whatever is looked up, every key keeps what it had.
pub proof fn law_get_keeps_values(
    entries: Seq<(Seq<char>, RenderedView)>,
    looked_up: Seq<char>,
    key: Seq<char>,
)
    requires
        distinct_keys(entries),
    ensures
        cached(after_get(entries, looked_up), key) == cached(entries, key),
{
    let i = entry_index(entries, looked_up);
    let j = entry_index(entries, key);
    lemma_entry_index(entries, looked_up);
    lemma_entry_index(entries, key);
    let after = after_get(entries, looked_up);
    if i < entries.len() {
        if j == entries.len() {
            assert forall|k: int| 0 <= k < after.len() implies (#[trigger] after[k]).0 != key by {
                if k > 0 {
                    if k - 1 < i {
                        assert(after[k] == entries[k - 1]);
                    } else {
                        assert(after[k] == entries[k]);
                    }
                }
            }
            lemma_entry_index_is(after, key, after.len() as int);
        } else if j == i {
            assert(after[0] == entries[i]);
            lemma_entry_index_is(after, key, 0);
        } else {
            let n = if j < i {
                j + 1
            } else {
                j
            };
            assert(after[n] == entries[j]);
            assert forall|k: int| 0 <= k < n implies (#[trigger] after[k]).0 != key by {
                if k > 0 {
                    if k - 1 < i {
                        assert(after[k] == entries[k - 1]);
                    } else {
                        assert(after[k] == entries[k]);
                    }
                } else {
                    assert(after[0] == entries[i]);
                }
            }
            lemma_entry_index_is(after, key, n);
        }
    }
}

/// Storing one key takes away at most one other key's value: that of the least recently used
/// entry, and only when a full cache takes a new key.
pub proof fn law_put_evicts_oldest_only(
    entries: Seq<(Seq<char>, RenderedView)>,
    capacity: nat,
    stored: Seq<char>,
    value: RenderedView,
    key: Seq<char>,
)
    requires
        distinct_keys(entries),
        0 < capacity,
        key != stored,
        entries.len() < capacity || cached(entries, stored) is Some || entries.last().0 != key,
    ensures
        cached(after_put(entries, capacity, stored, value), key) == cached(entries, key),
{
    let i = entry_index(entries, stored);
    let j = entry_index(entries, key);
    lemma_entry_index(entries, stored);
    lemma_entry_index(entries, key);
    let after = after_put(entries, capacity, stored, value);
    let gone = if i < entries.len() {
        i
    } else if entries.len() == capacity {
        entries.len() - 1
    } else {
        entries.len() as int
    };
    assert forall|k: int| 1 <= k < after.len() implies #[trigger] after[k] == (if k - 1 < gone {
        entries[k - 1]
    } else {
        entries[k]
    }) by {}
    if j == entries.len() {
        assert forall|k: int| 0 <= k < after.len() implies (#[trigger] after[k]).0 != key by {
            if k > 0 {
                assert(entries[k - 1].0 != key);
                if k < entries.len() {
                    assert(entries[k].0 != key);
                }
            }
        }
        lemma_entry_index_is(after, key, after.len() as int);
    } else {
        assert(gone != j);
        let n = if j < gone {
            j + 1
        } else {
            j
        };
        assert(after[n] == entries[j]);
        assert forall|k: int| 0 <= k < n implies (#[trigger] after[k]).0 != key by {
            if k > 0 {
                if k - 1 < gone {
                    assert(entries[k - 1].0 != key);
                } else {
                    assert(entries[k].0 != key);
                }
            }
        }
        lemma_entry_index_is(after, key, n);
    }
}

/// The entry that was not used for longest leaves a full cache when a new key comes, and none
/// that was looked up just before, as long as there is room for two.
pub proof fn law_unused_entries_leave_first(
    entries: Seq<(Seq<char>, RenderedView)>,
    capacity: nat,
    used: Seq<char>,
    stored: Seq<char>,
    value: RenderedView,
)
    requires
        distinct_keys(entries),
        entries.len() == capacity,
        0 < capacity,
        cached(entries, stored) is None,
    ensures
        cached(after_put(entries, capacity, stored, value), entries.last().0) is None,
        capacity > 1 && cached(entries, used) is Some ==> cached(
            after_put(after_get(entries, used), capacity, stored, value),
            used,
        ) == cached(entries, used),
{
    lemma_entry_index(entries, stored);
    let oldest = entries.last().0;
    let after = after_put(entries, capacity, stored, value);
    assert(oldest != stored);
    assert forall|i: int| 0 <= i < after.len() implies (#[trigger] after[i]).0 != oldest by {
        if i > 0 {
            assert(after[i] == entries[i - 1]);
            assert(entries[i - 1].0 != entries[entries.len() - 1].0);
        }
    }
    lemma_entry_index_is(after, oldest, after.len() as int);
    if capacity > 1 && cached(entries, used) is Some {
        lemma_entry_index(entries, used);
        lemma_get_keeps(entries, used);
        law_get_keeps_values(entries, used, stored);
        law_get_keeps_values(entries, used, used);
        let got = after_get(entries, used);
        assert(got[0].0 == used);
        assert(got[0].0 != got[got.len() - 1].0);
        law_put_evicts_oldest_only(got, capacity, stored, value, used);
    }
}

} // verus!
