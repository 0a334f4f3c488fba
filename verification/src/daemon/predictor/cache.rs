//! The result cache of the router.
//!
//! The cache keeps its entries in the order in which their keys first came
//! in. A new key at capacity evicts the oldest entry; a value that replaces
//! another under the same key keeps the place of the old one; reading
//! changes nothing.

use crate::daemon::protocol::{
    Language, PredictMode, PredictResponse, PredictResponseView,
};
use vstd::prelude::*;

verus! {

/// What a cached prediction is filed under.
#[derive(Debug)]
pub struct CacheKey {
    pub prefix: String,
    pub suffix: String,
    pub language: Language,
    pub mode: PredictMode,
    pub max_tokens: u32,
}

/// The view of a [`CacheKey`].
pub struct CacheKeyView {
    pub prefix: Seq<char>,
    pub suffix: Seq<char>,
    pub language: Language,
    pub mode: PredictMode,
    pub max_tokens: u32,
}

impl View for CacheKey {
    type V = CacheKeyView;

    open spec fn view(&self) -> CacheKeyView {
        CacheKeyView {
            prefix: self.prefix@,
            suffix: self.suffix@,
            language: self.language,
            mode: self.mode,
            max_tokens: self.max_tokens,
        }
    }
}

impl CacheKey {
    /// Whether two keys are the same.
    pub fn same(&self, other: &CacheKey) -> (b: bool)
        ensures
            b == (self@ == other@),
    {
        let b = self.prefix == other.prefix && self.suffix == other.suffix && self.language
            == other.language && self.mode == other.mode && self.max_tokens == other.max_tokens;
        proof {
            if !b {
                assert(self@ != other@);
            }
        }
        b
    }
}

/// The entries of a cache, oldest first.
pub type CacheModel = Seq<(CacheKeyView, PredictResponseView)>;

/// The index of the entry filed under `key`, or the number of entries where
/// there is none.
pub open spec fn key_index(m: CacheModel, key: CacheKeyView) -> nat
    decreases m.len(),
{
    if m.len() == 0 || m[0].0 == key {
        0
    } else {
        1 + key_index(m.drop_first(), key)
    }
}

/// What is filed under `key`.
pub open spec fn lookup(m: CacheModel, key: CacheKeyView) -> Option<PredictResponseView> {
    if key_index(m, key) < m.len() {
        Some(m[key_index(m, key) as int].1)
    } else {
        None
    }
}

/// No key occurs twice.
pub open spec fn distinct_keys(m: CacheModel) -> bool {
    forall|i: int, j: int| 0 <= i < j < m.len() ==> (#[trigger] m[i]).0 != (#[trigger] m[j]).0
}

/// Distinct keys, and no more entries than the capacity.
pub open spec fn cache_wf(m: CacheModel, capacity: nat) -> bool {
    distinct_keys(m) && m.len() <= capacity
}

/// The entries after `value` was inserted under `key`.
///
/// With capacity zero nothing is stored. A key that is present gets the new
/// value and keeps its place. A new key goes to the end, after the oldest
/// entry was removed if the cache was full.
pub open spec fn inserted(
    m: CacheModel,
    capacity: nat,
    key: CacheKeyView,
    value: PredictResponseView,
) -> CacheModel {
    if capacity == 0 {
        m
    } else if key_index(m, key) < m.len() {
        m.update(key_index(m, key) as int, (key, value))
    } else if m.len() == capacity {
        m.drop_first().push((key, value))
    } else {
        m.push((key, value))
    }
}

/// The entries after a stream of insertions.
pub open spec fn inserted_all(
    m: CacheModel,
    capacity: nat,
    stream: Seq<(CacheKeyView, PredictResponseView)>,
) -> CacheModel
    decreases stream.len(),
{
    if stream.len() == 0 {
        m
    } else {
        inserted(
            inserted_all(m, capacity, stream.drop_last()),
            capacity,
            stream.last().0,
            stream.last().1,
        )
    }
}

/// `key_index` is the first index that holds the key.
pub proof fn lemma_key_index(m: CacheModel, key: CacheKeyView)
    ensures
        key_index(m, key) <= m.len(),
        forall|k: int| 0 <= k < key_index(m, key) ==> (#[trigger] m[k]).0 != key,
        key_index(m, key) < m.len() ==> m[key_index(m, key) as int].0 == key,
    decreases m.len(),
{
    if m.len() == 0 || m[0].0 == key {
    } else {
        let t = m.drop_first();
        lemma_key_index(t, key);
        assert forall|k: int| 0 <= k < key_index(m, key) implies (#[trigger] m[k]).0 != key by {
            if k > 0 {
                assert(m[k] == t[k - 1]);
            }
        }
        if key_index(m, key) < m.len() {
            assert(m[key_index(m, key) as int] == t[key_index(t, key) as int]);
        }
    }
}

/// The first index that holds the key is `key_index`.
pub proof fn lemma_key_index_is(m: CacheModel, key: CacheKeyView, n: nat)
    requires
        n <= m.len(),
        forall|k: int| 0 <= k < n ==> (#[trigger] m[k]).0 != key,
        n < m.len() ==> m[n as int].0 == key,
    ensures
        key_index(m, key) == n,
    decreases m.len(),
{
    if n > 0 {
        let t = m.drop_first();
        assert(m[0].0 != key);
        assert forall|k: int| 0 <= k < n - 1 implies (#[trigger] t[k]).0 != key by {
            assert(t[k] == m[k + 1]);
        }
        if n - 1 < t.len() {
            assert(t[n - 1] == m[n as int]);
        }
        lemma_key_index_is(t, key, (n - 1) as nat);
    }
}

/// An insertion keeps the cache well formed, and with a capacity above zero
/// the value is found under its key afterwards. Every other key holds what
/// it held, but for the oldest, which may be gone.
pub proof fn lemma_inserted(
    m: CacheModel,
    capacity: nat,
    key: CacheKeyView,
    value: PredictResponseView,
)
    requires
        cache_wf(m, capacity),
    ensures
        cache_wf(inserted(m, capacity, key, value), capacity),
        capacity > 0 ==> lookup(inserted(m, capacity, key, value), key) == Some(value),
        forall|other: CacheKeyView|
            other != key ==> (#[trigger] lookup(inserted(m, capacity, key, value), other)
                == lookup(m, other) || (m.len() == capacity && lookup(m, key) is None
                && m[0].0 == other && lookup(inserted(m, capacity, key, value), other) is None)),
{
    let r = inserted(m, capacity, key, value);
    let i = key_index(m, key);
    lemma_key_index(m, key);
    if capacity == 0 {
    } else if i < m.len() {
        assert forall|a: int, b: int| 0 <= a < b < r.len() implies (#[trigger] r[a]).0 != (
        #[trigger] r[b]).0 by {
            assert(m[a].0 != m[b].0);
        }
        assert forall|k: int| 0 <= k < i implies (#[trigger] r[k]).0 != key by {
            assert(m[k].0 != key);
        }
        lemma_key_index_is(r, key, i);
        assert forall|other: CacheKeyView| other != key implies #[trigger] lookup(r, other)
            == lookup(m, other) by {
            let j = key_index(m, other);
            lemma_key_index(m, other);
            assert forall|k: int| 0 <= k < j implies (#[trigger] r[k]).0 != other by {
                assert(m[k].0 != other);
            }
            lemma_key_index_is(r, other, j);
        }
    } else if m.len() == capacity {
        let t = m.drop_first();
        assert forall|a: int, b: int| 0 <= a < b < r.len() implies (#[trigger] r[a]).0 != (
        #[trigger] r[b]).0 by {
            if b < t.len() {
                assert(m[a + 1].0 != m[b + 1].0);
            } else {
                assert(m[a + 1].0 != key);
            }
        }
        assert forall|k: int| 0 <= k < t.len() implies (#[trigger] r[k]).0 != key by {
            assert(m[k + 1].0 != key);
        }
        lemma_key_index_is(r, key, t.len());
        assert forall|other: CacheKeyView| other != key implies (#[trigger] lookup(r, other)
            == lookup(m, other) || (m[0].0 == other && lookup(r, other) is None)) by {
            let j = key_index(m, other);
            lemma_key_index(m, other);
            if j == 0 {
                assert forall|k: int| 0 <= k < r.len() implies (#[trigger] r[k]).0 != other by {
                    if k < t.len() {
                        assert(m[0].0 != m[k + 1].0);
                    }
                }
                lemma_key_index_is(r, other, r.len());
            } else if j < m.len() {
                assert forall|k: int| 0 <= k < j - 1 implies (#[trigger] r[k]).0 != other by {
                    assert(m[k + 1].0 != other);
                }
                assert(r[j - 1] == m[j as int]);
                lemma_key_index_is(r, other, (j - 1) as nat);
            } else {
                assert forall|k: int| 0 <= k < r.len() implies (#[trigger] r[k]).0 != other by {
                    if k < t.len() {
                        assert(m[k + 1].0 != other);
                    }
                }
                lemma_key_index_is(r, other, r.len());
            }
        }
    } else {
        assert forall|a: int, b: int| 0 <= a < b < r.len() implies (#[trigger] r[a]).0 != (
        #[trigger] r[b]).0 by {
            if b < m.len() {
                assert(m[a].0 != m[b].0);
            } else {
                assert(m[a].0 != key);
            }
        }
        assert forall|k: int| 0 <= k < m.len() implies (#[trigger] r[k]).0 != key by {
            assert(m[k].0 != key);
        }
        lemma_key_index_is(r, key, m.len());
        assert forall|other: CacheKeyView| other != key implies #[trigger] lookup(r, other)
            == lookup(m, other) by {
            let j = key_index(m, other);
            lemma_key_index(m, other);
            assert forall|k: int| 0 <= k < j && k < m.len() implies (#[trigger] r[k]).0
                != other by {
                assert(m[k].0 != other);
            }
            if j < m.len() {
                lemma_key_index_is(r, other, j);
            } else {
                lemma_key_index_is(r, other, r.len());
            }
        }
    }
}

/// Any stream of insertions keeps the cache well formed: it never holds
/// more entries than its capacity, nor a key twice.
pub proof fn lemma_inserted_all_wf(
    m: CacheModel,
    capacity: nat,
    stream: Seq<(CacheKeyView, PredictResponseView)>,
)
    requires
        cache_wf(m, capacity),
    ensures
        cache_wf(inserted_all(m, capacity, stream), capacity),
    decreases stream.len(),
{
    if stream.len() > 0 {
        lemma_inserted_all_wf(m, capacity, stream.drop_last());
        lemma_inserted(
            inserted_all(m, capacity, stream.drop_last()),
            capacity,
            stream.last().0,
            stream.last().1,
        );
    }
}

/// The keys of a stream of insertions, in order.
pub open spec fn keys_of(stream: Seq<(CacheKeyView, PredictResponseView)>) -> Seq<CacheKeyView> {
    Seq::new(stream.len(), |i: int| stream[i].0)
}

/// The number of different keys in a stream of insertions.
pub open spec fn distinct_key_count(stream: Seq<(CacheKeyView, PredictResponseView)>) -> nat {
    keys_of(stream).to_set().len()
}

/// `key` holds `value` in `s`, and every entry behind it came in with `stream`.
spec fn held_since(
    s: CacheModel,
    key: CacheKeyView,
    value: PredictResponseView,
    stream: Seq<(CacheKeyView, PredictResponseView)>,
) -> bool {
    &&& key_index(s, key) < s.len()
    &&& s[key_index(s, key) as int].1 == value
    &&& forall|j: int|
        key_index(s, key) < j < s.len() ==> keys_of(stream).contains((#[trigger] s[j]).0)
}

proof fn lemma_distinct_count_prefix(stream: Seq<(CacheKeyView, PredictResponseView)>)
    requires
        stream.len() > 0,
    ensures
        distinct_key_count(stream.drop_last()) <= distinct_key_count(stream),
{
    broadcast use vstd::seq_lib::seq_to_set_is_finite;

    let a = keys_of(stream.drop_last());
    let b = keys_of(stream);
    assert forall|k: CacheKeyView| a.to_set().contains(k) implies b.to_set().contains(k) by {
        let i = choose|i: int| 0 <= i < a.len() && a[i] == k;
        assert(b[i] == k);
    }
    vstd::set_lib::lemma_len_subset(a.to_set(), b.to_set());
}

proof fn lemma_held_through(
    start: CacheModel,
    capacity: nat,
    key: CacheKeyView,
    value: PredictResponseView,
    stream: Seq<(CacheKeyView, PredictResponseView)>,
)
    requires
        cache_wf(start, capacity),
        capacity > 0,
        held_since(start, key, value, Seq::empty()),
        forall|i: int| 0 <= i < stream.len() ==> (#[trigger] stream[i]).0 != key,
        distinct_key_count(stream) < capacity,
    ensures
        cache_wf(inserted_all(start, capacity, stream), capacity),
        held_since(inserted_all(start, capacity, stream), key, value, stream),
    decreases stream.len(),
{
    broadcast use vstd::seq_lib::seq_to_set_is_finite;

    if stream.len() == 0 {
        assert(stream =~= Seq::empty());
    } else {
        let init = stream.drop_last();
        let (k2, v2) = stream.last();
        assert(stream[stream.len() - 1].0 != key);
        lemma_distinct_count_prefix(stream);
        assert forall|i: int| 0 <= i < init.len() implies (#[trigger] init[i]).0 != key by {
            assert(init[i] == stream[i]);
        }
        lemma_held_through(start, capacity, key, value, init);
        let s1 = inserted_all(start, capacity, init);
        let s2 = inserted(s1, capacity, k2, v2);
        assert(s2 == inserted_all(start, capacity, stream));
        lemma_inserted(s1, capacity, k2, v2);
        let p = key_index(s1, key) as int;
        let i2 = key_index(s1, k2) as int;
        lemma_key_index(s1, key);
        lemma_key_index(s1, k2);
        assert forall|j: int| p < j < s1.len() implies keys_of(stream).contains(
            (#[trigger] s1[j]).0,
        ) by {
            let i = choose|i: int| 0 <= i < keys_of(init).len() && keys_of(init)[i] == s1[j].0;
            assert(keys_of(stream)[i] == s1[j].0);
        }
        assert(keys_of(stream)[stream.len() - 1] == k2);
        if i2 < s1.len() {
            assert forall|k: int| 0 <= k < p implies (#[trigger] s2[k]).0 != key by {
                assert(s1[k].0 != key);
            }
            lemma_key_index_is(s2, key, p as nat);
            assert forall|j: int| p < j < s2.len() implies keys_of(stream).contains(
                (#[trigger] s2[j]).0,
            ) by {
                assert(s2[j].0 == s1[j].0);
            }
        } else if s1.len() == capacity {
            if p == 0 {
                let q = Seq::new((capacity - 1) as nat, |j: int| s1[j + 1].0).push(k2);
                assert forall|a: int, b: int|
                    0 <= a < q.len() && 0 <= b < q.len() && a != b implies q[a] != q[b] by {
                    if a < capacity - 1 && b < capacity - 1 {
                        if a < b {
                            assert(s1[a + 1].0 != s1[b + 1].0);
                        } else {
                            assert(s1[b + 1].0 != s1[a + 1].0);
                        }
                    } else if a < capacity - 1 {
                        assert(s1[a + 1].0 != k2);
                    } else {
                        assert(s1[b + 1].0 != k2);
                    }
                }
                q.unique_seq_to_set();
                assert forall|k: CacheKeyView| q.to_set().contains(k) implies keys_of(
                    stream,
                ).to_set().contains(k) by {
                    let a = choose|a: int| 0 <= a < q.len() && q[a] == k;
                    if a < capacity - 1 {
                        assert(keys_of(stream).contains(s1[a + 1].0));
                    }
                }
                vstd::set_lib::lemma_len_subset(q.to_set(), keys_of(stream).to_set());
                assert(false);
            }
            assert forall|k: int| 0 <= k < p - 1 implies (#[trigger] s2[k]).0 != key by {
                assert(s1[k + 1].0 != key);
            }
            assert(s2[p - 1] == s1[p]);
            lemma_key_index_is(s2, key, (p - 1) as nat);
            assert forall|j: int| p - 1 < j < s2.len() implies keys_of(stream).contains(
                (#[trigger] s2[j]).0,
            ) by {
                if j < s2.len() - 1 {
                    assert(s2[j] == s1[j + 1]);
                }
            }
        } else {
            assert forall|k: int| 0 <= k < p implies (#[trigger] s2[k]).0 != key by {
                assert(s1[k].0 != key);
            }
            assert(s2[p] == s1[p]);
            lemma_key_index_is(s2, key, p as nat);
            assert forall|j: int| p < j < s2.len() implies keys_of(stream).contains(
                (#[trigger] s2[j]).0,
            ) by {
                if j < s1.len() {
                    assert(s2[j] == s1[j]);
                }
            }
        }
    }
}

/// A value that came in under a new key is found under that key after any
/// stream of further insertions, as long as the stream does not insert the
/// key again and holds fewer different keys than the cache has room for:
/// only as many new keys as the capacity can push an entry out.
pub proof fn lemma_entry_survives(
    m: CacheModel,
    capacity: nat,
    key: CacheKeyView,
    value: PredictResponseView,
    stream: Seq<(CacheKeyView, PredictResponseView)>,
)
    requires
        cache_wf(m, capacity),
        capacity > 0,
        lookup(m, key) is None,
        forall|i: int| 0 <= i < stream.len() ==> (#[trigger] stream[i]).0 != key,
        distinct_key_count(stream) < capacity,
    ensures
        inserted_all(inserted(m, capacity, key, value), capacity, stream).len() <= capacity,
        lookup(inserted_all(inserted(m, capacity, key, value), capacity, stream), key) == Some(
            value,
        ),
{
    let start = inserted(m, capacity, key, value);
    lemma_inserted(m, capacity, key, value);
    lemma_key_index(m, key);
    assert forall|k: int| 0 <= k < start.len() - 1 implies (#[trigger] start[k]).0 != key by {
        if m.len() == capacity {
            assert(start[k] == m[k + 1]);
        } else {
            assert(start[k] == m[k]);
        }
    }
    lemma_key_index_is(start, key, (start.len() - 1) as nat);
    lemma_held_through(start, capacity, key, value, stream);
}

/// The cache.
#[derive(Debug)]
pub struct PredictCache {
    capacity: usize,
    keys: Vec<CacheKey>,
    values: Vec<PredictResponse>,
}

/// The entries that `keys` and `values` hold side by side.
pub open spec fn zipped(keys: Seq<CacheKey>, values: Seq<PredictResponse>) -> CacheModel {
    Seq::new(keys.len(), |i: int| (keys[i]@, values[i]@))
}

/// The position of `key` among `keys`.
fn find_key(keys: &Vec<CacheKey>, key: &CacheKey, Ghost(values): Ghost<Seq<PredictResponse>>) -> (r:
    Option<usize>)
    ensures
        match r {
            Some(i) => i < keys@.len() && i == key_index(zipped(keys@, values), key@),
            None => key_index(zipped(keys@, values), key@) == keys@.len(),
        },
{
    let ghost m = zipped(keys@, values);
    let mut i: usize = 0;
    while i < keys.len()
        invariant
            i <= keys@.len(),
            m == zipped(keys@, values),
            forall|k: int| 0 <= k < i ==> (#[trigger] m[k]).0 != key@,
        decreases keys@.len() - i,
    {
        if keys[i].same(key) {
            proof {
                lemma_key_index_is(m, key@, i as nat);
            }
            return Some(i);
        }
        i += 1;
    }
    proof {
        lemma_key_index_is(m, key@, i as nat);
    }
    None
}

impl PredictCache {
    #[verifier::type_invariant]
    pub closed spec fn wf(self) -> bool {
        self.keys@.len() == self.values@.len() && cache_wf(self.model(), self.capacity as nat)
    }

    /// The entries, oldest first.
    pub closed spec fn model(self) -> CacheModel {
        zipped(self.keys@, self.values@)
    }

    /// The number of entries that the cache can hold.
    pub closed spec fn limit(self) -> nat {
        self.capacity as nat
    }

    /// A cache holds no key twice and no more entries than its capacity.
    pub proof fn lemma_wf(self)
        requires
            self.wf(),
        ensures
            cache_wf(self.model(), self.limit()),
    {
    }

    /// The empty cache of the given capacity.
    pub fn new(capacity: usize) -> (c: PredictCache)
        ensures
            c.model() == Seq::<(CacheKeyView, PredictResponseView)>::empty(),
            c.limit() == capacity,
            cache_wf(c.model(), c.limit()),
    {
        let c = PredictCache { capacity, keys: Vec::new(), values: Vec::new() };
        assert(c.model() =~= Seq::<(CacheKeyView, PredictResponseView)>::empty());
        c
    }

    /// The number of entries; never more than the capacity.
    pub fn len(&self) -> (n: usize)
        ensures
            n == self.model().len(),
            n <= self.limit(),
            cache_wf(self.model(), self.limit()),
    {
        proof {
            use_type_invariant(self);
        }
        self.keys.len()
    }

    /// What is filed under `key`. The cache does not change.
    pub fn get(&self, key: &CacheKey) -> (r: Option<PredictResponse>)
        ensures
            match r {
                Some(v) => lookup(self.model(), key@) == Some(v@),
                None => lookup(self.model(), key@) is None,
            },
            cache_wf(self.model(), self.limit()),
    {
        proof {
            use_type_invariant(self);
        }
        match find_key(&self.keys, key, Ghost(self.values@)) {
            Some(i) => Some(self.values[i].clone()),
            None => None,
        }
    }

    /// Files `value` under `key`.
    pub fn insert(&mut self, key: CacheKey, value: PredictResponse)
        ensures
            final(self).model() == inserted(old(self).model(), old(self).limit(), key@, value@),
            final(self).limit() == old(self).limit(),
            final(self).model().len() <= final(self).limit(),
            cache_wf(final(self).model(), final(self).limit()),
            final(self).limit() > 0 ==> lookup(final(self).model(), key@) == Some(value@),
    {
        proof {
            use_type_invariant(&*self);
            lemma_inserted(self.model(), self.limit(), key@, value@);
        }
        if self.capacity == 0 {
            return ;
        }
        let mut taken = PredictCache::new(self.capacity);
        std::mem::swap(self, &mut taken);
        let ghost before = taken.model();
        let ghost key_view = key@;
        let ghost value_view = value@;
        let PredictCache { capacity, keys, values } = taken;
        let mut keys = keys;
        let mut values = values;
        assert(before == zipped(keys@, values@));
        match find_key(&keys, &key, Ghost(values@)) {
            Some(i) => {
                values.set(i, value);
                proof {
                    lemma_key_index(before, key_view);
                    assert(zipped(keys@, values@) =~= before.update(
                        i as int,
                        (key_view, value_view),
                    ));
                }
            },
            None => {
                if keys.len() == capacity {
                    keys.remove(0);
                    values.remove(0);
                }
                keys.push(key);
                values.push(value);
                proof {
                    if before.len() == capacity {
                        assert(zipped(keys@, values@) =~= before.drop_first().push(
                            (key_view, value_view),
                        ));
                    } else {
                        assert(zipped(keys@, values@) =~= before.push((key_view, value_view)));
                    }
                }
            },
        }
        assert(zipped(keys@, values@) == inserted(before, capacity as nat, key_view, value_view));
        *self = PredictCache { capacity, keys, values };
    }
}

} // verus!
