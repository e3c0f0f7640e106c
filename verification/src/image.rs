//! Image buffers and a least-recently-used cache of them keyed by path.
use vstd::prelude::*;
use std::collections::VecDeque;
use crate::network::chars_of;
use crate::widget::{Texture, TextureDesc, TextureFormat};

verus! {

/// A decoded image: `width * height` pixels, one `u32` per pixel.
#[derive(Clone, Debug)]
pub struct ImageBuffer {
    pub width: usize,
    pub height: usize,
    pub data: Vec<u32>,
}

/// Plain-value view of an image buffer.
pub struct ImageView {
    pub width: nat,
    pub height: nat,
    pub data: Seq<u32>,
}

impl View for ImageBuffer {
    type V = ImageView;

    open spec fn view(&self) -> ImageView {
        ImageView { width: self.width as nat, height: self.height as nat, data: self.data@ }
    }
}

impl Default for ImageBuffer {
    /// An empty image: no width, no height, no pixels.
    fn default() -> (r: ImageBuffer)
        ensures
            r.width == 0,
            r.height == 0,
            r.data@ == Seq::<u32>::empty(),
    {
        ImageBuffer { width: 0, height: 0, data: Vec::new() }
    }
}

impl ImageBuffer {
    /// A black image of the given size: every pixel is zero.
    pub fn new(width: usize, height: usize) -> (r: ImageBuffer)
        requires
            width * height <= usize::MAX,
        ensures
            r.width == width,
            r.height == height,
            r.data@ == Seq::new((width * height) as nat, |i: int| 0u32),
    {
        let n = width * height;
        let data = vec![0u32; n];
        assert(data@ =~= Seq::new((width * height) as nat, |i: int| 0u32));
        ImageBuffer { width, height, data }
    }

    /// A copy of this buffer with the same size and pixels.
    pub fn duplicate(&self) -> (r: ImageBuffer)
        ensures
            r@ == self@,
    {
        let data = self.data.clone();
        assert(data@ =~= self.data@);
        ImageBuffer { width: self.width, height: self.height, data }
    }
}

/// One cached image and the path it is stored under.
pub struct CacheEntry {
    pub key: String,
    pub value: ImageBuffer,
}

/// A cache of images keyed by path.  When it holds `capacity` images, storing
/// another one first drops the path that was used least recently.
pub struct LRUCache {
    map: Vec<CacheEntry>,
    order: VecDeque<String>,
    capacity: usize,
}

/// The cached images as a map from path to image.
pub open spec fn entries_map(s: Seq<CacheEntry>) -> Map<Seq<char>, ImageView> {
    Map::new(
        |k: Seq<char>| exists|i: int| 0 <= i < s.len() && s[i].key@ == k,
        |k: Seq<char>| s[choose|i: int| 0 <= i < s.len() && s[i].key@ == k].value@,
    )
}

/// No path occurs twice among the entries.
pub open spec fn distinct_keys(s: Seq<CacheEntry>) -> bool {
    forall|i: int, j: int| 0 <= i < s.len() && 0 <= j < s.len() && i != j ==> s[i].key@ != s[j].key@
}

/// The image under `k`, if there is one.
pub open spec fn lookup(m: Map<Seq<char>, ImageView>, k: Seq<char>) -> Option<ImageView> {
    if m.contains_key(k) {
        Some(m[k])
    } else {
        None
    }
}

/// The plain view of an optional image.
pub open spec fn image_view(b: Option<ImageBuffer>) -> Option<ImageView> {
    match b {
        Some(b) => Some(b@),
        None => None,
    }
}

/// The predicate that holds of every path other than `k`.
pub open spec fn other_than(k: Seq<char>) -> spec_fn(Seq<char>) -> bool {
    |x: Seq<char>| x != k
}

proof fn lemma_entries_map_at(s: Seq<CacheEntry>, i: int)
    requires
        distinct_keys(s),
        0 <= i < s.len(),
    ensures
        entries_map(s).contains_key(s[i].key@),
        entries_map(s)[s[i].key@] == s[i].value@,
{
    let k = s[i].key@;
    assert(entries_map(s).dom().contains(k));
    let j = choose|j: int| 0 <= j < s.len() && s[j].key@ == k;
    assert(j == i);
}

impl LRUCache {
    /// The cached images, by path.
    pub closed spec fn contents(self) -> Map<Seq<char>, ImageView> {
        entries_map(self.map@)
    }

    /// Paths in the order of their use, least recent first.  A path may occur
    /// more than once.
    pub closed spec fn recency(self) -> Seq<Seq<char>> {
        self.order@.map_values(|s: String| s@)
    }

    /// The number of cached images.
    pub closed spec fn size(self) -> nat {
        self.map@.len()
    }

    /// The number of images at which a store first evicts.
    pub closed spec fn cap(self) -> nat {
        self.capacity as nat
    }

    /// The cache is consistent: no path is cached twice, and every cached path
    /// occurs in the recency order.
    pub closed spec fn wf(self) -> bool {
        &&& distinct_keys(self.map@)
        &&& forall|i: int| 0 <= i < self.map@.len() ==> self.recency().contains(#[trigger] self.map@[i].key@)
    }

    /// The size of a consistent cache is the number of paths it maps.
    pub proof fn lemma_size(self)
        requires
            self.wf(),
        ensures
            self.contents().dom().finite(),
            self.contents().len() == self.size(),
    {
        lemma_entries_map_len(self.map@);
    }

    /// An empty cache that evicts once it holds `capacity` images.
    pub fn new(capacity: usize) -> (r: LRUCache)
        ensures
            r.wf(),
            r.contents() == Map::<Seq<char>, ImageView>::empty(),
            r.recency() == Seq::<Seq<char>>::empty(),
            r.size() == 0,
            r.cap() == capacity,
            r.model() == empty_cache(capacity as nat),
    {
        let r = LRUCache { capacity, map: Vec::new(), order: VecDeque::new() };
        assert(r.contents() =~= Map::<Seq<char>, ImageView>::empty());
        assert(r.recency() =~= Seq::<Seq<char>>::empty());
        r
    }

    /// Drops every occurrence of `k` from the recency order.
    fn remove_from_order(&mut self, k: &String)
        ensures
            final(self).map == old(self).map,
            final(self).capacity == old(self).capacity,
            final(self).recency() == old(self).recency().filter(other_than(k@)),
    {
        broadcast use Seq::lemma_filter_push;
        let n = self.order.len();
        let ghost old_rec = self.recency();
        let ghost p = other_than(k@);
        let mut i: usize = 0;
        assert(old_rec.subrange(0, 0).filter(p) =~= Seq::<Seq<char>>::empty()) by {
            reveal(Seq::filter);
        }
        assert(old_rec.subrange(0, n as int) =~= old_rec);
        while i < n
            invariant
                0 <= i <= n,
                n == old_rec.len(),
                old_rec == old(self).recency(),
                self.map == old(self).map,
                self.capacity == old(self).capacity,
                self.recency() == old_rec.subrange(i as int, n as int) + old_rec.subrange(0, i as int).filter(p),
                p == other_than(k@),
            decreases n - i,
        {
            let ghost before = self.order@;
            let ghost rb = self.recency();
            let ghost kept = old_rec.subrange(0, i as int).filter(p);
            assert(self.recency().len() == before.len());
            assert(self.recency()[0] == old_rec[i as int]);
            assert(self.recency()[0] == before[0]@);
            let x = self.order.pop_front().unwrap();
            assert(x@ == old_rec[i as int]);
            assert(self.order@ =~= before.subrange(1, before.len() as int));
            assert(self.recency() =~= rb.subrange(1, rb.len() as int));
            assert(rb.subrange(1, rb.len() as int) =~= old_rec.subrange(i + 1, n as int) + kept);
            assert(old_rec.subrange(0, i + 1) =~= old_rec.subrange(0, i as int).push(old_rec[i as int]));
            proof {
                old_rec.subrange(0, i as int).lemma_filter_push(old_rec[i as int], p);
            }
            let ghost kept2 = old_rec.subrange(0, i + 1).filter(p);
            assert(p(x@) ==> kept2 == kept.push(x@));
            assert(!p(x@) ==> kept2 == kept);
            if !(x == *k) {
                let ghost mid = self.order@;
                let ghost rm = self.recency();
                self.order.push_back(x);
                assert(self.order@ =~= mid.push(x));
                assert(self.recency() =~= rm.push(x@));
                assert(rm.push(x@) =~= old_rec.subrange(i + 1, n as int) + kept.push(x@));
            }
            i = i + 1;
        }
        assert(self.recency() =~= old_rec.filter(p));
    }

    /// The image cached under `key`, if any.  Looking a path up makes it the
    /// most recently used: its occurrences move to the back of the order.
    pub fn get(&mut self, key: &str) -> (r: Option<ImageBuffer>)
        requires
            old(self).wf(),
        ensures
            final(self).wf(),
            final(self).contents() == old(self).contents(),
            final(self).size() == old(self).size(),
            final(self).cap() == old(self).cap(),
            image_view(r) == lookup(old(self).contents(), key@),
            final(self).recency() == old(self).recency_after_get(key@),
            final(self).model() == model_get(old(self).model(), key@),
    {
        let k = key.to_owned();
        match self.find(&k) {
            None => {
                assert(!self.contents().contains_key(key@));
                None
            },
            Some(i) => {
                proof {
                    lemma_entries_map_at(self.map@, i as int);
                }
                let ghost old_rec = self.recency();
                self.remove_from_order(&k);
                let ghost mid = self.order@;
                self.order.push_back(k);
                assert(self.order@ =~= mid.push(k));
                assert(self.recency() =~= old_rec.filter(other_than(key@)).push(key@));
                assert forall|j: int| 0 <= j < self.map@.len() implies self.recency().contains(#[trigger] self.map@[j].key@) by {
                    let kj = self.map@[j].key@;
                    if kj != key@ {
                        let w = choose|w: int| 0 <= w < old_rec.len() && old_rec[w] == kj;
                        old_rec.lemma_filter_contains(other_than(key@), w);
                        let f = old_rec.filter(other_than(key@));
                        let w2 = choose|w2: int| 0 <= w2 < f.len() && f[w2] == kj;
                        assert(self.recency()[w2] == kj);
                    } else {
                        assert(self.recency()[self.recency().len() - 1] == kj);
                    }
                }
                Some(self.map[i].value.duplicate())
            },
        }
    }

    /// The cache evicts on the next store: it is full and some path is in
    /// the recency order.
    pub open spec fn evicts_next(self) -> bool {
        self.size() == self.cap() && self.recency().len() > 0
    }

    /// The cached images after storing `v` under `k`: the least recently
    /// used path is dropped first when the cache evicts.
    pub open spec fn contents_after_put(self, k: Seq<char>, v: ImageView) -> Map<Seq<char>, ImageView> {
        if self.evicts_next() {
            self.contents().remove(self.recency()[0]).insert(k, v)
        } else {
            self.contents().insert(k, v)
        }
    }

    /// The recency order after storing under `k`: `k` goes to the back, and
    /// the front is dropped when the cache evicts.
    pub open spec fn recency_after_put(self, k: Seq<char>) -> Seq<Seq<char>> {
        if self.evicts_next() {
            self.recency().drop_first().push(k)
        } else {
            self.recency().push(k)
        }
    }

    /// The recency order after looking up `k`: when `k` is cached, all its
    /// occurrences move to one at the back; else nothing changes.
    pub open spec fn recency_after_get(self, k: Seq<char>) -> Seq<Seq<char>> {
        if self.contents().contains_key(k) {
            self.recency().filter(other_than(k)).push(k)
        } else {
            self.recency()
        }
    }

    /// Stores `value` under `key`, replacing any image stored there.  When
    /// the cache already holds `capacity` images, the least recently used
    /// path is dropped first.  `key` becomes the most recently used path.
    pub fn put(&mut self, key: &str, value: ImageBuffer)
        requires
            old(self).wf(),
        ensures
            final(self).wf(),
            final(self).cap() == old(self).cap(),
            final(self).contents() == old(self).contents_after_put(key@, value@),
            final(self).recency() == old(self).recency_after_put(key@),
            final(self).model() == model_put(old(self).model(), key@, value@),
    {
        let ghost c0 = *self;
        proof {
            c0.lemma_model(key@, value@);
        }
        let ghost old_rec = self.recency();
        let ghost old_map = self.contents();
        if self.map.len() == self.capacity {
            let ghost before = self.order@;
            if let Some(lru_key) = self.order.pop_front() {
                assert(self.order@ =~= before.subrange(1, before.len() as int));
                assert(self.recency() =~= old_rec.drop_first());
                assert(lru_key@ == old_rec[0]);
                match self.find(&lru_key) {
                    Some(i) => {
                        proof {
                            lemma_entries_map_remove(self.map@, i as int);
                        }
                        let ghost pre = self.map@;
                        self.map.remove(i);
                        assert forall|j: int| 0 <= j < self.map@.len() implies self.recency().contains(
                            #[trigger] self.map@[j].key@,
                        ) by {
                            let sj = if j < i { j } else { j + 1 };
                            assert(self.map@[j] == pre[sj]);
                            let w = choose|w: int| 0 <= w < old_rec.len() && old_rec[w] == pre[sj].key@;
                            assert(w != 0);
                            assert(self.recency()[w - 1] == old_rec[w]);
                        }
                    },
                    None => {
                        assert(entries_map(self.map@) =~= old_map.remove(old_rec[0]));
                        assert forall|j: int| 0 <= j < self.map@.len() implies self.recency().contains(
                            #[trigger] self.map@[j].key@,
                        ) by {
                            let w = choose|w: int| 0 <= w < old_rec.len() && old_rec[w] == self.map@[j].key@;
                            assert(w != 0);
                            assert(self.recency()[w - 1] == old_rec[w]);
                        }
                    },
                }
            }
        }
        let ghost mid_rec = self.recency();
        let ghost mid_map = self.contents();
        let k = key.to_owned();
        let k2 = k.clone();
        let ghost mid = self.order@;
        self.order.push_back(k2);
        assert(self.order@ =~= mid.push(k2));
        assert(self.recency() =~= mid_rec.push(key@));
        let ghost pre = self.map@;
        match self.find(&k) {
            Some(i) => {
                let e = CacheEntry { key: k, value };
                proof {
                    lemma_entries_map_update(pre, i as int, e);
                }
                self.map.set(i, e);
            },
            None => {
                let e = CacheEntry { key: k, value };
                proof {
                    lemma_entries_map_push(pre, e);
                }
                self.map.push(e);
            },
        }
        assert forall|j: int| 0 <= j < self.map@.len() implies self.recency().contains(#[trigger] self.map@[j].key@) by {
            if self.map@[j].key@ == key@ {
                assert(self.recency()[self.recency().len() - 1] == key@);
            } else {
                assert(exists|jj: int| 0 <= jj < pre.len() && pre[jj].key@ == self.map@[j].key@) by {
                    if j < pre.len() {
                        assert(pre[j].key@ == self.map@[j].key@);
                    }
                }
                let jj = choose|jj: int| 0 <= jj < pre.len() && pre[jj].key@ == self.map@[j].key@;
                let w = choose|w: int| 0 <= w < mid_rec.len() && mid_rec[w] == pre[jj].key@;
                assert(self.recency()[w] == mid_rec[w]);
            }
        }
    }

    fn find(&self, key: &String) -> (r: Option<usize>)
        ensures
            r matches Some(i) ==> i < self.map@.len() && self.map@[i as int].key@ == key@,
            r is None ==> forall|i: int| 0 <= i < self.map@.len() ==> self.map@[i].key@ != key@,
    {
        let mut i: usize = 0;
        while i < self.map.len()
            invariant
                i <= self.map@.len(),
                forall|j: int| 0 <= j < i ==> self.map@[j].key@ != key@,
            decreases self.map@.len() - i,
        {
            if self.map[i].key == *key {
                return Some(i);
            }
            i = i + 1;
        }
        None
    }
}

proof fn lemma_entries_map_remove(s: Seq<CacheEntry>, i: int)
    requires
        distinct_keys(s),
        0 <= i < s.len(),
    ensures
        distinct_keys(s.remove(i)),
        entries_map(s.remove(i)) == entries_map(s).remove(s[i].key@),
{
    let t = s.remove(i);
    let k = s[i].key@;
    assert forall|a: int, b: int| 0 <= a < t.len() && 0 <= b < t.len() && a != b implies t[a].key@ != t[b].key@ by {
        let sa = if a < i { a } else { a + 1 };
        let sb = if b < i { b } else { b + 1 };
        assert(t[a] == s[sa]);
        assert(t[b] == s[sb]);
    }
    assert forall|x: Seq<char>| #[trigger] entries_map(t).dom().contains(x) <==> entries_map(s).remove(k).dom().contains(x) by {
        if entries_map(t).dom().contains(x) {
            let a = choose|a: int| 0 <= a < t.len() && t[a].key@ == x;
            let sa = if a < i { a } else { a + 1 };
            assert(s[sa].key@ == x);
        }
        if entries_map(s).remove(k).dom().contains(x) {
            let a = choose|a: int| 0 <= a < s.len() && s[a].key@ == x;
            assert(a != i);
            let ta = if a < i { a } else { a - 1 };
            assert(t[ta].key@ == x);
        }
    }
    assert(entries_map(t).dom() =~= entries_map(s).remove(k).dom());
    assert forall|x: Seq<char>| #[trigger] entries_map(t).dom().contains(x) implies entries_map(t)[x] == entries_map(s).remove(k)[x] by {
        let a = choose|a: int| 0 <= a < t.len() && t[a].key@ == x;
        let sa = if a < i { a } else { a + 1 };
        assert(t[a] == s[sa]);
        lemma_entries_map_at(t, a);
        lemma_entries_map_at(s, sa);
    }
    assert(entries_map(t) =~= entries_map(s).remove(k));
}

proof fn lemma_entries_map_update(s: Seq<CacheEntry>, i: int, e: CacheEntry)
    requires
        distinct_keys(s),
        0 <= i < s.len(),
        e.key@ == s[i].key@,
    ensures
        distinct_keys(s.update(i, e)),
        entries_map(s.update(i, e)) == entries_map(s).insert(e.key@, e.value@),
{
    let t = s.update(i, e);
    assert forall|x: Seq<char>| #[trigger] entries_map(t).dom().contains(x) <==> entries_map(s).insert(e.key@, e.value@).dom().contains(x) by {
        if entries_map(t).dom().contains(x) {
            let a = choose|a: int| 0 <= a < t.len() && t[a].key@ == x;
            assert(s[a].key@ == x);
        }
        if entries_map(s).dom().contains(x) {
            let a = choose|a: int| 0 <= a < s.len() && s[a].key@ == x;
            assert(t[a].key@ == x);
        }
        if x == e.key@ {
            assert(t[i].key@ == x);
        }
    }
    assert(entries_map(t).dom() =~= entries_map(s).insert(e.key@, e.value@).dom());
    assert forall|x: Seq<char>| #[trigger] entries_map(t).dom().contains(x) implies entries_map(t)[x] == entries_map(s).insert(e.key@, e.value@)[x] by {
        let a = choose|a: int| 0 <= a < t.len() && t[a].key@ == x;
        lemma_entries_map_at(t, a);
        if a != i {
            lemma_entries_map_at(s, a);
        }
    }
    assert(entries_map(t) =~= entries_map(s).insert(e.key@, e.value@));
}

proof fn lemma_entries_map_push(s: Seq<CacheEntry>, e: CacheEntry)
    requires
        distinct_keys(s),
        forall|i: int| 0 <= i < s.len() ==> s[i].key@ != e.key@,
    ensures
        distinct_keys(s.push(e)),
        entries_map(s.push(e)) == entries_map(s).insert(e.key@, e.value@),
{
    let t = s.push(e);
    assert forall|x: Seq<char>| #[trigger] entries_map(t).dom().contains(x) <==> entries_map(s).insert(e.key@, e.value@).dom().contains(x) by {
        if entries_map(t).dom().contains(x) {
            let a = choose|a: int| 0 <= a < t.len() && t[a].key@ == x;
            if a < s.len() {
                assert(s[a].key@ == x);
            }
        }
        if entries_map(s).dom().contains(x) {
            let a = choose|a: int| 0 <= a < s.len() && s[a].key@ == x;
            assert(t[a].key@ == x);
        }
        if x == e.key@ {
            assert(t[s.len() as int].key@ == x);
        }
    }
    assert(entries_map(t).dom() =~= entries_map(s).insert(e.key@, e.value@).dom());
    assert forall|x: Seq<char>| #[trigger] entries_map(t).dom().contains(x) implies entries_map(t)[x] == entries_map(s).insert(e.key@, e.value@)[x] by {
        let a = choose|a: int| 0 <= a < t.len() && t[a].key@ == x;
        lemma_entries_map_at(t, a);
        if a < s.len() {
            lemma_entries_map_at(s, a);
        }
    }
    assert(entries_map(t) =~= entries_map(s).insert(e.key@, e.value@));
}

proof fn lemma_entries_map_len(s: Seq<CacheEntry>)
    requires
        distinct_keys(s),
    ensures
        entries_map(s).dom().finite(),
        entries_map(s).len() == s.len(),
    decreases s.len(),
{
    if s.len() == 0 {
        assert(entries_map(s).dom() =~= Set::<Seq<char>>::empty());
    } else {
        let t = s.drop_last();
        assert(distinct_keys(t));
        lemma_entries_map_len(t);
        let k = s.last().key@;
        assert forall|x: Seq<char>| entries_map(s).dom().contains(x) <==> entries_map(t).dom().insert(k).contains(x) by {
            if entries_map(s).dom().contains(x) {
                let i = choose|i: int| 0 <= i < s.len() && s[i].key@ == x;
                if i < t.len() {
                    assert(t[i].key@ == x);
                }
            }
            if entries_map(t).dom().contains(x) {
                let i = choose|i: int| 0 <= i < t.len() && t[i].key@ == x;
                assert(s[i].key@ == x);
            }
            if x == k {
                assert(s[s.len() - 1].key@ == x);
            }
        }
        assert(entries_map(s).dom() =~= entries_map(t).dom().insert(k));
        if entries_map(t).dom().contains(k) {
            let i = choose|i: int| 0 <= i < t.len() && t[i].key@ == k;
            assert(s[i].key@ == s[s.len() - 1].key@);
        }
        assert(!entries_map(t).dom().contains(k));
    }
}

/// A cache as plain values: the images by path, the paths in the order of
/// their use (least recent first), and the capacity.
pub struct CacheModel {
    pub contents: Map<Seq<char>, ImageView>,
    pub recency: Seq<Seq<char>>,
    pub cap: nat,
}

/// An empty cache of capacity `cap`.
pub open spec fn empty_cache(cap: nat) -> CacheModel {
    CacheModel { contents: Map::empty(), recency: Seq::empty(), cap }
}

/// The model holds finitely many images, and every cached path occurs in the
/// recency order.
pub open spec fn cache_consistent(m: CacheModel) -> bool {
    &&& m.contents.dom().finite()
    &&& forall|p: Seq<char>| m.contents.contains_key(p) ==> #[trigger] m.recency.contains(p)
}

/// The next store evicts: the cache is full and some path is in the order.
pub open spec fn model_evicts(m: CacheModel) -> bool {
    m.contents.len() == m.cap && m.recency.len() > 0
}

/// The cache after storing `v` under `k`: when it evicts, the front of the
/// order is dropped from the order and from the images first; `k` goes to
/// the back of the order.
pub open spec fn model_put(m: CacheModel, k: Seq<char>, v: ImageView) -> CacheModel {
    if model_evicts(m) {
        CacheModel { contents: m.contents.remove(m.recency[0]).insert(k, v), recency: m.recency.drop_first().push(k), cap: m.cap }
    } else {
        CacheModel { contents: m.contents.insert(k, v), recency: m.recency.push(k), cap: m.cap }
    }
}

/// The cache after looking `k` up: when `k` is cached, all its occurrences
/// in the order move to one at the back.
pub open spec fn model_get(m: CacheModel, k: Seq<char>) -> CacheModel {
    if m.contents.contains_key(k) {
        CacheModel { recency: m.recency.filter(other_than(k)).push(k), ..m }
    } else {
        m
    }
}

/// The recency order lists each cached path exactly once and nothing else.
pub open spec fn model_tidy(m: CacheModel) -> bool {
    &&& m.contents.dom().finite()
    &&& m.recency.no_duplicates()
    &&& forall|p: Seq<char>| #[trigger] m.recency.contains(p) <==> m.contents.contains_key(p)
}

/// An operation on a cache: a lookup or a store.
pub enum CacheOp {
    Get(Seq<char>),
    Put(Seq<char>, ImageView),
}

/// The cache after one operation.
pub open spec fn cache_step(m: CacheModel, op: CacheOp) -> CacheModel {
    match op {
        CacheOp::Get(k) => model_get(m, k),
        CacheOp::Put(k, v) => model_put(m, k, v),
    }
}

/// The cache after the operations, in order.
pub open spec fn run_ops(m: CacheModel, ops: Seq<CacheOp>) -> CacheModel
    decreases ops.len(),
{
    if ops.len() == 0 {
        m
    } else {
        cache_step(run_ops(m, ops.drop_last()), ops.last())
    }
}

/// Every store among the operations is of a path not cached at that time.
pub open spec fn puts_fresh(m: CacheModel, ops: Seq<CacheOp>) -> bool
    decreases ops.len(),
{
    if ops.len() == 0 {
        true
    } else {
        &&& puts_fresh(m, ops.drop_last())
        &&& match ops.last() {
            CacheOp::Put(k, _) => !run_ops(m, ops.drop_last()).contents.contains_key(k),
            CacheOp::Get(_) => true,
        }
    }
}

impl LRUCache {
    /// The cache as plain values.
    pub open spec fn model(self) -> CacheModel {
        CacheModel { contents: self.contents(), recency: self.recency(), cap: self.cap() }
    }

    /// The recency order lists each cached path exactly once and nothing
    /// else.
    pub open spec fn tidy(self) -> bool {
        model_tidy(self.model())
    }

    /// A consistent cache has a consistent model, and its stores are those
    /// of the model.
    pub proof fn lemma_model(self, k: Seq<char>, v: ImageView)
        requires
            self.wf(),
        ensures
            cache_consistent(self.model()),
            model_put(self.model(), k, v) == (CacheModel {
                contents: self.contents_after_put(k, v),
                recency: self.recency_after_put(k),
                cap: self.cap(),
            }),
    {
        self.lemma_size();
        assert forall|p: Seq<char>| self.contents().contains_key(p) implies #[trigger] self.recency().contains(p) by {
            let i = choose|i: int| 0 <= i < self.map@.len() && self.map@[i].key@ == p;
            assert(self.recency().contains(self.map@[i].key@));
        }
    }
}

/// Looking a path up right after storing an image under it gives that image.
pub proof fn law_get_after_put(m: CacheModel, k: Seq<char>, v: ImageView)
    ensures
        lookup(model_put(m, k, v).contents, k) == Some(v),
{
}

/// A store drops at most one other path, the least recently used one, and
/// only when the cache is full; every other cached image stays as it was.
pub proof fn law_put_keeps_others(m: CacheModel, k: Seq<char>, v: ImageView, p: Seq<char>)
    requires
        p != k,
        m.contents.contains_key(p),
        !(model_evicts(m) && p == m.recency[0]),
    ensures
        lookup(model_put(m, k, v).contents, p) == lookup(m.contents, p),
{
}

/// A store into a full cache drops the least recently used path, unless it
/// is the path being stored.
pub proof fn law_put_evicts_least_recent(m: CacheModel, k: Seq<char>, v: ImageView)
    requires
        model_evicts(m),
        k != m.recency[0],
    ensures
        lookup(model_put(m, k, v).contents, m.recency[0]) is None,
{
}

/// A store keeps a cache within its capacity, when the capacity is at least
/// one.  It fails only where a full cache evicts a path that is no longer
/// cached (a stale entry of the recency order) while storing a new path.
pub proof fn law_put_within_capacity(m: CacheModel, k: Seq<char>, v: ImageView)
    requires
        cache_consistent(m),
        m.cap >= 1,
        m.contents.len() <= m.cap,
        !(model_evicts(m) && !m.contents.contains_key(m.recency[0]) && !m.contents.contains_key(k)),
    ensures
        cache_consistent(model_put(m, k, v)),
        model_put(m, k, v).contents.len() <= m.cap,
{
    let c = m.contents;
    let r = m.recency;
    let a = model_put(m, k, v);
    if model_evicts(m) {
        let c1 = c.remove(r[0]);
        if c.contains_key(r[0]) {
            assert(c1.len() == c.len() - 1);
        } else {
            assert(c1 =~= c);
        }
        if c1.contains_key(k) {
            assert(c1.insert(k, v).len() == c1.len());
        } else {
            assert(c1.insert(k, v).len() == c1.len() + 1);
        }
        assert forall|p: Seq<char>| a.contents.contains_key(p) implies #[trigger] a.recency.contains(p) by {
            if p == k {
                assert(a.recency[a.recency.len() - 1] == k);
            } else {
                assert(r.contains(p));
                let i = choose|i: int| 0 <= i < r.len() && r[i] == p;
                assert(i != 0);
                assert(a.recency[i - 1] == p);
            }
        }
    } else {
        if c.contains_key(k) {
            assert(c.insert(k, v).len() == c.len());
        } else {
            assert(c.insert(k, v).len() == c.len() + 1);
            if c.len() == m.cap {
                assert(r.len() == 0);
                assert(c.len() >= 1);
                let p = c.dom().choose();
                assert(c.contains_key(p));
                assert(r.contains(p));
            }
        }
        assert forall|p: Seq<char>| a.contents.contains_key(p) implies #[trigger] a.recency.contains(p) by {
            if p == k {
                assert(a.recency[a.recency.len() - 1] == k);
            } else {
                assert(r.contains(p));
                let i = choose|i: int| 0 <= i < r.len() && r[i] == p;
                assert(a.recency[i] == p);
            }
        }
    }
}

/// A store keeps a tidy cache tidy.  It fails only where the path stored is
/// already cached and stays in the recency order, which then lists it twice.
pub proof fn law_put_keeps_tidy(m: CacheModel, k: Seq<char>, v: ImageView)
    requires
        model_tidy(m),
        !m.contents.contains_key(k) || (model_evicts(m) && m.recency[0] == k),
    ensures
        model_tidy(model_put(m, k, v)),
{
    let c = m.contents;
    let r = m.recency;
    if model_evicts(m) {
        let r1 = r.drop_first();
        assert(!r1.contains(k)) by {
            if r1.contains(k) {
                let i = choose|i: int| 0 <= i < r1.len() && r1[i] == k;
                assert(r[i + 1] == k);
                assert(r.contains(k));
                if c.contains_key(k) {
                    assert(r[0] == k);
                }
            }
        }
        assert forall|i: int, j: int| 0 <= i < r1.push(k).len() && 0 <= j < r1.push(k).len() && i != j implies r1.push(k)[i] != r1.push(k)[j] by {
            if i < r1.len() && j < r1.len() {
                assert(r[i + 1] != r[j + 1]);
            }
        }
        assert forall|p: Seq<char>| #[trigger] r1.push(k).contains(p) <==> c.remove(r[0]).insert(k, v).contains_key(p) by {
            if r1.push(k).contains(p) && p != k {
                let i = choose|i: int| 0 <= i < r1.push(k).len() && r1.push(k)[i] == p;
                assert(r[i + 1] == p);
                assert(r.contains(p));
                assert(r[0] != r[i + 1]);
            }
            if c.remove(r[0]).insert(k, v).contains_key(p) && p != k {
                assert(c.contains_key(p));
                assert(r.contains(p));
                let i = choose|i: int| 0 <= i < r.len() && r[i] == p;
                assert(i != 0);
                assert(r1[i - 1] == p);
                assert(r1.push(k)[i - 1] == p);
            }
            if p == k {
                assert(r1.push(k)[r1.len() as int] == k);
            }
        }
    } else {
        assert(!r.contains(k));
        assert forall|i: int, j: int| 0 <= i < r.push(k).len() && 0 <= j < r.push(k).len() && i != j implies r.push(k)[i] != r.push(k)[j] by {
            if i < r.len() && j < r.len() {
            }
        }
        assert forall|p: Seq<char>| #[trigger] r.push(k).contains(p) <==> c.insert(k, v).contains_key(p) by {
            if r.push(k).contains(p) && p != k {
                let i = choose|i: int| 0 <= i < r.push(k).len() && r.push(k)[i] == p;
                assert(r[i] == p);
                assert(r.contains(p));
                assert(c.contains_key(p));
            }
            if c.insert(k, v).contains_key(p) && p != k {
                assert(c.contains_key(p));
                assert(r.contains(p));
                let i = choose|i: int| 0 <= i < r.len() && r[i] == p;
                assert(r.push(k)[i] == p);
            }
            if p == k {
                assert(r.push(k)[r.len() as int] == k);
            }
        }
    }
}

/// A lookup keeps a tidy cache tidy: the path looked up moves to the back,
/// once, and the images stay as they were.
pub proof fn law_get_keeps_tidy(m: CacheModel, k: Seq<char>)
    requires
        model_tidy(m),
    ensures
        model_tidy(model_get(m, k)),
        model_get(m, k).contents == m.contents,
        model_get(m, k).cap == m.cap,
{
    broadcast use Seq::lemma_filter_contains_rev, Seq::lemma_filter_pred, Seq::lemma_filter_contains;
    let r = m.recency;
    if m.contents.contains_key(k) {
        let f = r.filter(other_than(k));
        lemma_filter_no_duplicates(r, other_than(k));
        assert(!f.contains(k)) by {
            if f.contains(k) {
                let i = choose|i: int| 0 <= i < f.len() && f[i] == k;
                assert(other_than(k)(f[i]));
            }
        }
        assert forall|i: int, j: int| 0 <= i < f.push(k).len() && 0 <= j < f.push(k).len() && i != j implies f.push(k)[i] != f.push(k)[j] by {
            if i < f.len() && j < f.len() {
            } else if i < f.len() {
                assert(f.contains(f[i]));
            } else {
                assert(f.contains(f[j]));
            }
        }
        assert forall|p: Seq<char>| #[trigger] f.push(k).contains(p) <==> m.contents.contains_key(p) by {
            if p != k {
                if f.push(k).contains(p) {
                    let i = choose|i: int| 0 <= i < f.push(k).len() && f.push(k)[i] == p;
                    assert(f[i] == p);
                    assert(f.contains(p));
                }
                if m.contents.contains_key(p) {
                    assert(r.contains(p));
                    let i = choose|i: int| 0 <= i < r.len() && r[i] == p;
                    assert(f.contains(r[i]));
                    let j = choose|j: int| 0 <= j < f.len() && f[j] == p;
                    assert(f.push(k)[j] == p);
                }
            } else {
                assert(f.push(k)[f.len() as int] == k);
            }
        }
    }
}

/// A cache built from an empty one of capacity at least one by lookups and
/// by stores of paths not cached at the time is tidy (its order lists each
/// cached path once) and holds at most its capacity of images.
pub proof fn law_history_tidy(n: nat, ops: Seq<CacheOp>)
    requires
        n >= 1,
        puts_fresh(empty_cache(n), ops),
    ensures
        model_tidy(run_ops(empty_cache(n), ops)),
        run_ops(empty_cache(n), ops).contents.len() <= n,
        run_ops(empty_cache(n), ops).cap == n,
    decreases ops.len(),
{
    if ops.len() == 0 {
        assert(empty_cache(n).contents =~= Map::<Seq<char>, ImageView>::empty());
        assert(model_tidy(empty_cache(n)));
    } else {
        law_history_tidy(n, ops.drop_last());
        let m = run_ops(empty_cache(n), ops.drop_last());
        match ops.last() {
            CacheOp::Get(k) => {
                law_get_keeps_tidy(m, k);
            },
            CacheOp::Put(k, v) => {
                law_put_keeps_tidy(m, k, v);
                if model_evicts(m) {
                    assert(m.recency.contains(m.recency[0]));
                }
                assert(cache_consistent(m)) by {
                    assert forall|p: Seq<char>| m.contents.contains_key(p) implies #[trigger] m.recency.contains(p) by {}
                }
                law_put_within_capacity(m, k, v);
            },
        }
    }
}

/// The last of the operations uses `p`: it stores `p`, or looks `p` up
/// while it is cached.
pub open spec fn last_op_uses(m: CacheModel, ops: Seq<CacheOp>, p: Seq<char>) -> bool {
    ops.len() > 0 && match ops.last() {
        CacheOp::Put(k, _) => k == p,
        CacheOp::Get(k) => k == p && run_ops(m, ops.drop_last()).contents.contains_key(p),
    }
}

/// The position of the last operation that used `p`, or -1 if none did.
pub open spec fn last_use(m: CacheModel, ops: Seq<CacheOp>, p: Seq<char>) -> int
    decreases ops.len(),
{
    if ops.len() == 0 {
        -1
    } else if last_op_uses(m, ops, p) {
        ops.len() - 1
    } else {
        last_use(m, ops.drop_last(), p)
    }
}

proof fn lemma_last_use_bound(m: CacheModel, ops: Seq<CacheOp>, p: Seq<char>)
    ensures
        -1 <= last_use(m, ops, p) < ops.len(),
    decreases ops.len(),
{
    if ops.len() > 0 {
        lemma_last_use_bound(m, ops.drop_last(), p);
    }
}

/// The positions in `s` of the elements its filter keeps, in increasing
/// order.
proof fn lemma_filter_indices(s: Seq<Seq<char>>, pred: spec_fn(Seq<char>) -> bool) -> (idx: Seq<int>)
    ensures
        idx.len() == s.filter(pred).len(),
        forall|i: int| 0 <= i < idx.len() ==> 0 <= #[trigger] idx[i] < s.len() && s[idx[i]] == s.filter(pred)[i],
        forall|i: int, j: int| 0 <= i < j < idx.len() ==> #[trigger] idx[i] < #[trigger] idx[j],
    decreases s.len(),
{
    broadcast use Seq::lemma_filter_push;
    if s.len() == 0 {
        assert(s.filter(pred) =~= Seq::<Seq<char>>::empty()) by {
            reveal(Seq::filter);
        }
        Seq::empty()
    } else {
        let t = s.drop_last();
        assert(s =~= t.push(s.last()));
        let it = lemma_filter_indices(t, pred);
        if pred(s.last()) {
            let idx = it.push(t.len() as int);
            assert forall|i: int| 0 <= i < idx.len() implies 0 <= #[trigger] idx[i] < s.len() && s[idx[i]] == s.filter(pred)[i] by {
                if i < it.len() {
                    assert(idx[i] == it[i]);
                }
            }
            assert forall|i: int, j: int| 0 <= i < j < idx.len() implies #[trigger] idx[i] < #[trigger] idx[j] by {
                if j < it.len() {
                    assert(idx[i] == it[i] && idx[j] == it[j]);
                } else {
                    assert(idx[i] == it[i]);
                }
            }
            idx
        } else {
            it
        }
    }
}

/// In a cache built from an empty one by lookups and by stores of paths not
/// cached at the time, the recency order lists the cached paths from the
/// least to the most recently used: by the position of the last store or
/// successful lookup of each.
pub proof fn law_history_order(n: nat, ops: Seq<CacheOp>)
    requires
        n >= 1,
        puts_fresh(empty_cache(n), ops),
    ensures
        ({
            let r = run_ops(empty_cache(n), ops).recency;
            &&& forall|i: int| 0 <= i < r.len() ==> 0 <= #[trigger] last_use(empty_cache(n), ops, r[i])
            &&& forall|i: int, j: int| 0 <= i < j < r.len() ==>
                #[trigger] last_use(empty_cache(n), ops, r[i]) < #[trigger] last_use(empty_cache(n), ops, r[j])
        }),
    decreases ops.len(),
{
    let e = empty_cache(n);
    if ops.len() > 0 {
        let d = ops.drop_last();
        law_history_order(n, d);
        law_history_tidy(n, d);
        let m = run_ops(e, d);
        let r = m.recency;
        let a = run_ops(e, ops);
        let ra = a.recency;
        let len = d.len() as int;
        assert forall|x: Seq<char>| !last_op_uses(e, ops, x) implies #[trigger] last_use(e, ops, x) == last_use(e, d, x) by {}
        assert forall|x: Seq<char>| r.contains(x) implies 0 <= #[trigger] last_use(e, d, x) < len by {
            let i = choose|i: int| 0 <= i < r.len() && r[i] == x;
            assert(0 <= last_use(e, d, r[i]));
            lemma_last_use_bound(e, d, x);
        }
        match ops.last() {
            CacheOp::Put(k, v) => {
                assert(!r.contains(k));
                assert(last_use(e, ops, k) == len);
                if model_evicts(m) {
                    let r1 = r.drop_first();
                    assert(ra == r1.push(k));
                    assert forall|i: int| 0 <= i < ra.len() implies 0 <= #[trigger] last_use(e, ops, ra[i]) by {
                        if i < r1.len() {
                            assert(r1[i] == r[i + 1]);
                            assert(r.contains(r[i + 1]));
                        }
                    }
                    assert forall|i: int, j: int| 0 <= i < j < ra.len() implies
                        #[trigger] last_use(e, ops, ra[i]) < #[trigger] last_use(e, ops, ra[j]) by {
                        assert(ra[i] == r[i + 1]);
                        assert(r.contains(r[i + 1]));
                        if j < r1.len() {
                            assert(ra[j] == r[j + 1]);
                            assert(r.contains(r[j + 1]));
                            assert(last_use(e, d, r[i + 1]) < last_use(e, d, r[j + 1]));
                        }
                    }
                } else {
                    assert(ra == r.push(k));
                    assert forall|i: int| 0 <= i < ra.len() implies 0 <= #[trigger] last_use(e, ops, ra[i]) by {
                        if i < r.len() {
                            assert(ra[i] == r[i]);
                            assert(r.contains(r[i]));
                        }
                    }
                    assert forall|i: int, j: int| 0 <= i < j < ra.len() implies
                        #[trigger] last_use(e, ops, ra[i]) < #[trigger] last_use(e, ops, ra[j]) by {
                        assert(ra[i] == r[i]);
                        assert(r.contains(r[i]));
                        if j < r.len() {
                            assert(ra[j] == r[j]);
                            assert(r.contains(r[j]));
                            assert(last_use(e, d, r[i]) < last_use(e, d, r[j]));
                        }
                    }
                }
            },
            CacheOp::Get(k) => {
                if m.contents.contains_key(k) {
                    let f = r.filter(other_than(k));
                    let idx = lemma_filter_indices(r, other_than(k));
                    assert(ra == f.push(k));
                    assert(last_use(e, ops, k) == len);
                    assert forall|i: int| 0 <= i < f.len() implies #[trigger] f[i] != k && r.contains(f[i]) by {
                        assert(r[idx[i]] == f[i]);
                        assert(other_than(k)(r[idx[i]])) by {
                            r.lemma_filter_pred(other_than(k), i);
                        }
                    }
                    assert forall|i: int| 0 <= i < ra.len() implies 0 <= #[trigger] last_use(e, ops, ra[i]) by {
                        if i < f.len() {
                            assert(ra[i] == f[i]);
                            assert(f[i] != k && r.contains(f[i]));
                        }
                    }
                    assert forall|i: int, j: int| 0 <= i < j < ra.len() implies
                        #[trigger] last_use(e, ops, ra[i]) < #[trigger] last_use(e, ops, ra[j]) by {
                        assert(ra[i] == f[i]);
                        assert(f[i] != k && r.contains(f[i]));
                        if j < f.len() {
                            assert(ra[j] == f[j]);
                            assert(f[j] != k && r.contains(f[j]));
                            assert(idx[i] < idx[j]);
                            assert(r[idx[i]] == f[i] && r[idx[j]] == f[j]);
                            assert(last_use(e, d, r[idx[i]]) < last_use(e, d, r[idx[j]]));
                        }
                    }
                } else {
                    assert(ra == r);
                    assert forall|i: int| 0 <= i < ra.len() implies 0 <= #[trigger] last_use(e, ops, ra[i]) by {
                        assert(r.contains(r[i]));
                    }
                    assert forall|i: int, j: int| 0 <= i < j < ra.len() implies
                        #[trigger] last_use(e, ops, ra[i]) < #[trigger] last_use(e, ops, ra[j]) by {
                        assert(last_use(e, d, r[i]) < last_use(e, d, r[j]));
                    }
                }
            },
        }
    }
}

/// A store of a new path into a full cache (built from an empty one of
/// capacity at least one by lookups and by stores of paths not cached at the
/// time) drops exactly the cached path whose last store or successful lookup
/// is the oldest, keeps every other image, holds the new image under its
/// path, and stays full.
pub proof fn law_full_put_evicts_least_recently_used(n: nat, ops: Seq<CacheOp>, k: Seq<char>, v: ImageView)
    requires
        n >= 1,
        puts_fresh(empty_cache(n), ops),
        run_ops(empty_cache(n), ops).contents.len() == n,
        !run_ops(empty_cache(n), ops).contents.contains_key(k),
    ensures
        ({
            let e = empty_cache(n);
            let m = run_ops(e, ops);
            let a = model_put(m, k, v);
            let j = m.recency[0];
            &&& m.contents.contains_key(j)
            &&& forall|p: Seq<char>| #[trigger] m.contents.contains_key(p) && p != j ==> last_use(e, ops, j) < last_use(e, ops, p)
            &&& lookup(a.contents, j) is None
            &&& lookup(a.contents, k) == Some(v)
            &&& forall|p: Seq<char>| #[trigger] m.contents.contains_key(p) && p != j ==> lookup(a.contents, p) == lookup(m.contents, p)
            &&& a.contents.dom().finite()
            &&& a.contents.len() == n
        }),
{
    let e = empty_cache(n);
    let m = run_ops(e, ops);
    law_history_tidy(n, ops);
    law_history_order(n, ops);
    let r = m.recency;
    assert(m.contents.len() >= 1);
    let q = m.contents.dom().choose();
    assert(m.contents.contains_key(q));
    assert(r.contains(q));
    assert(r.len() > 0);
    assert(model_evicts(m));
    assert(r.contains(r[0]));
    let j = r[0];
    assert forall|p: Seq<char>| #[trigger] m.contents.contains_key(p) && p != j implies last_use(e, ops, j) < last_use(e, ops, p) by {
        assert(r.contains(p));
        let i = choose|i: int| 0 <= i < r.len() && r[i] == p;
        assert(i != 0);
        assert(last_use(e, ops, r[0]) < last_use(e, ops, r[i]));
    }
    let c1 = m.contents.remove(j);
    assert(c1.len() == m.contents.len() - 1);
    assert(!c1.contains_key(k));
    assert(c1.insert(k, v).len() == c1.len() + 1);
    assert(k != j);
}

/// Stores of the given paths, in order.
pub open spec fn puts_of(pairs: Seq<(Seq<char>, ImageView)>) -> Seq<CacheOp> {
    pairs.map_values(|p: (Seq<char>, ImageView)| CacheOp::Put(p.0, p.1))
}

/// No path occurs twice among the pairs.
pub open spec fn distinct_paths(pairs: Seq<(Seq<char>, ImageView)>) -> bool {
    forall|i: int, j: int| 0 <= i < pairs.len() && 0 <= j < pairs.len() && i != j ==> pairs[i].0 != pairs[j].0
}

/// Up to its capacity, an empty cache keeps every image stored under a new
/// path: nothing is evicted before it is full, and the order is the order
/// of the stores.
pub proof fn law_fill_without_eviction(n: nat, pairs: Seq<(Seq<char>, ImageView)>)
    requires
        pairs.len() <= n,
        distinct_paths(pairs),
    ensures
        ({
            let m = run_ops(empty_cache(n), puts_of(pairs));
            &&& m.cap == n
            &&& m.contents.dom().finite()
            &&& m.contents.len() == pairs.len()
            &&& m.recency == pairs.map_values(|p: (Seq<char>, ImageView)| p.0)
            &&& forall|i: int| 0 <= i < pairs.len() ==> #[trigger] lookup(m.contents, pairs[i].0) == Some(pairs[i].1)
            &&& forall|x: Seq<char>| #[trigger] m.contents.contains_key(x) ==> exists|i: int| 0 <= i < pairs.len() && pairs[i].0 == x
        }),
    decreases pairs.len(),
{
    let ops = puts_of(pairs);
    if pairs.len() == 0 {
        assert(empty_cache(n).contents =~= Map::<Seq<char>, ImageView>::empty());
        assert(pairs.map_values(|p: (Seq<char>, ImageView)| p.0) =~= Seq::<Seq<char>>::empty());
    } else {
        let d = pairs.drop_last();
        assert forall|i: int, j: int| 0 <= i < d.len() && 0 <= j < d.len() && i != j implies d[i].0 != d[j].0 by {
            assert(d[i] == pairs[i]);
            assert(d[j] == pairs[j]);
        }
        law_fill_without_eviction(n, d);
        assert(ops.drop_last() =~= puts_of(d));
        let m = run_ops(empty_cache(n), puts_of(d));
        let (k, v) = pairs.last();
        assert(ops.last() == CacheOp::Put(k, v));
        assert(!m.contents.contains_key(k)) by {
            if m.contents.contains_key(k) {
                let i = choose|i: int| 0 <= i < d.len() && d[i].0 == k;
                assert(pairs[i] == d[i]);
                assert(pairs[pairs.len() - 1].0 == k);
            }
        }
        assert(!model_evicts(m));
        let a = model_put(m, k, v);
        assert(a.contents.len() == m.contents.len() + 1);
        assert(a.recency =~= pairs.map_values(|p: (Seq<char>, ImageView)| p.0));
        assert forall|i: int| 0 <= i < pairs.len() implies #[trigger] lookup(a.contents, pairs[i].0) == Some(pairs[i].1) by {
            if i < d.len() {
                assert(pairs[i] == d[i]);
                assert(lookup(m.contents, d[i].0) == Some(d[i].1));
                assert(pairs[i].0 != k);
            }
        }
        assert forall|x: Seq<char>| #[trigger] a.contents.contains_key(x) implies exists|i: int| 0 <= i < pairs.len() && pairs[i].0 == x by {
            if x == k {
                assert(pairs[pairs.len() - 1].0 == x);
            } else {
                let i = choose|i: int| 0 <= i < d.len() && d[i].0 == x;
                assert(pairs[i] == d[i]);
            }
        }
    }
}

proof fn lemma_filter_no_duplicates(s: Seq<Seq<char>>, p: spec_fn(Seq<char>) -> bool)
    requires
        s.no_duplicates(),
    ensures
        s.filter(p).no_duplicates(),
    decreases s.len(),
{
    broadcast use Seq::lemma_filter_push, Seq::lemma_filter_contains_rev;
    if s.len() > 0 {
        let t = s.drop_last();
        assert(t.no_duplicates());
        lemma_filter_no_duplicates(t, p);
        assert(s =~= t.push(s.last()));
        if p(s.last()) {
            let f = t.filter(p);
            assert(!t.contains(s.last()));
            assert(!f.contains(s.last()));
            assert forall|i: int, j: int| 0 <= i < f.push(s.last()).len() && 0 <= j < f.push(s.last()).len() && i != j
                implies f.push(s.last())[i] != f.push(s.last())[j] by {
                if i < f.len() && j < f.len() {
                } else if i < f.len() {
                    assert(f.contains(f[i]));
                } else {
                    assert(f.contains(f[j]));
                }
            }
        }
    }
}

/// The image formats a file path can name.
#[derive(Clone, Copy, Debug, PartialEq, Eq, Structural)]
pub enum ImageFormat {
    Jpeg,
    Png,
    Unsupported,
}

/// `s` ends with `suffix`.
pub open spec fn has_suffix(s: Seq<char>, suffix: Seq<char>) -> bool {
    suffix.len() <= s.len() && s.subrange(s.len() - suffix.len(), s.len() as int) == suffix
}

/// The format a path names by its extension: `.jpg` is JPEG, `.png` is PNG,
/// anything else is unsupported.
pub open spec fn format_of_path(path: Seq<char>) -> ImageFormat {
    if has_suffix(path, seq!['.', 'j', 'p', 'g']) {
        ImageFormat::Jpeg
    } else if has_suffix(path, seq!['.', 'p', 'n', 'g']) {
        ImageFormat::Png
    } else {
        ImageFormat::Unsupported
    }
}

fn ends_with_chars(s: &Vec<char>, suffix: &[char; 4]) -> (r: bool)
    ensures
        r == has_suffix(s@, suffix@),
{
    let n = s.len();
    if n < 4 {
        return false;
    }
    let start = n - 4;
    let mut i: usize = 0;
    while i < 4
        invariant
            n == s@.len(),
            start == n - 4,
            i <= 4,
            suffix@.len() == 4,
            forall|j: int| 0 <= j < i ==> s@[start + j] == suffix@[j],
        decreases 4 - i,
    {
        if s[start + i] != suffix[i] {
            assert(s@.subrange(start as int, n as int)[i as int] != suffix@[i as int]);
            return false;
        }
        i = i + 1;
    }
    assert(s@.subrange(start as int, n as int) =~= suffix@);
    true
}

/// The format the path `path` names by its extension.
pub fn image_format(path: &str) -> (r: ImageFormat)
    ensures
        r == format_of_path(path@),
{
    let cs = chars_of(path);
    let jpg = ['.', 'j', 'p', 'g'];
    let png = ['.', 'p', 'n', 'g'];
    assert(jpg@ =~= seq!['.', 'j', 'p', 'g']);
    assert(png@ =~= seq!['.', 'p', 'n', 'g']);
    if ends_with_chars(&cs, &jpg) {
        ImageFormat::Jpeg
    } else if ends_with_chars(&cs, &png) {
        ImageFormat::Png
    } else {
        ImageFormat::Unsupported
    }
}

/// The image cached for `path`, when the path is not empty: a lookup that
/// also marks the path as most recently used.
pub fn cached_image(cache: &mut LRUCache, path: &str) -> (r: Option<ImageBuffer>)
    requires
        old(cache).wf(),
    ensures
        final(cache).wf(),
        final(cache).cap() == old(cache).cap(),
        final(cache).contents() == old(cache).contents(),
        path@.len() == 0 ==> r is None && final(cache).recency() == old(cache).recency(),
        path@.len() > 0 ==> image_view(r) == lookup(old(cache).contents(), path@)
            && final(cache).recency() == old(cache).recency_after_get(path@),
{
    if !path.is_empty() {
        cache.get(path)
    } else {
        None
    }
}

/// Stores a copy of a freshly loaded image under `path` and gives the image
/// back.
pub fn remember_image(cache: &mut LRUCache, path: &str, buffer: ImageBuffer) -> (r: ImageBuffer)
    requires
        old(cache).wf(),
    ensures
        final(cache).wf(),
        final(cache).cap() == old(cache).cap(),
        final(cache).contents() == old(cache).contents_after_put(path@, buffer@),
        final(cache).recency() == old(cache).recency_after_put(path@),
        r == buffer,
{
    let copy = buffer.duplicate();
    cache.put(path, copy);
    buffer
}

/// What a widget that shows an image does about it.
#[derive(Debug)]
pub enum ImageLookup {
    /// It has a texture already, or names no image: nothing to do.
    Skip,
    /// The image is cached: the texture is made from this copy.
    Cached(ImageBuffer),
    /// The image must be loaded and decoded, then remembered.
    Load,
}

/// The first step of giving a widget its image: nothing when it has a
/// texture or names no image, the cached copy when there is one (which
/// becomes the most recently used), and else a load.
pub fn image_lookup(cache: &mut LRUCache, has_texture: bool, path: &str) -> (r: ImageLookup)
    requires
        old(cache).wf(),
    ensures
        final(cache).wf(),
        final(cache).cap() == old(cache).cap(),
        final(cache).contents() == old(cache).contents(),
        has_texture || path@.len() == 0 ==> r is Skip && final(cache).recency() == old(cache).recency(),
        !has_texture && path@.len() > 0 ==> final(cache).recency() == old(cache).recency_after_get(path@) && match r {
            ImageLookup::Cached(b) => lookup(old(cache).contents(), path@) == Some(b@),
            ImageLookup::Load => lookup(old(cache).contents(), path@) is None,
            ImageLookup::Skip => false,
        },
{
    if has_texture {
        return ImageLookup::Skip;
    }
    if path.is_empty() {
        return ImageLookup::Skip;
    }
    match cached_image(cache, path) {
        Some(b) => ImageLookup::Cached(b),
        None => ImageLookup::Load,
    }
}

/// The description of the texture made from `image`: BGRA pixels of the
/// image's size.
pub fn texture_desc_for(image: &ImageBuffer) -> (r: TextureDesc)
    ensures
        r == (TextureDesc { format: TextureFormat::ImageBGRA, width: Some(image.width), height: Some(image.height) }),
{
    TextureDesc { format: TextureFormat::ImageBGRA, width: Some(image.width), height: Some(image.height) }
}

/// Keeps a texture for an image: the one the widget has, else `fresh` (a
/// texture just made), and gives it with the description the image gives it.
pub fn keep_texture(slot: &mut Option<Texture>, fresh: Texture, image: &ImageBuffer) -> (r: (Texture, TextureDesc))
    ensures
        *final(slot) == Some(match *old(slot) {
            Some(t) => t,
            None => fresh,
        }),
        r.0 == final(slot).unwrap(),
        r.1 == (TextureDesc { format: TextureFormat::ImageBGRA, width: Some(image.width), height: Some(image.height) }),
{
    if slot.is_none() {
        *slot = Some(fresh);
    }
    let t = match slot {
        Some(t) => *t,
        None => fresh,
    };
    (t, texture_desc_for(image))
}

/// The errors reported while loading an image.
#[derive(Clone, Copy, Debug, PartialEq, Eq, Structural)]
pub enum ImageLoadError {
    /// The file could not be read.
    ResourceNotLoaded,
    /// The decoder refused the file's contents.
    DecodingFailed,
    /// The path names no format that can be decoded.
    TypeNotSupported,
}

/// What loading the image at `path` gives, from whether the file was read
/// and what the decoder for its format gave: the decoded image, or the error
/// reported.  A file that was not read is `ResourceNotLoaded`; a path of no
/// supported format is `TypeNotSupported`; a refusal of the decoder is
/// `DecodingFailed`.
pub open spec fn load_outcome_spec(path: Seq<char>, resource_loaded: bool, decoded: Option<ImageBuffer>) -> Result<ImageBuffer, ImageLoadError> {
    if !resource_loaded {
        Err(ImageLoadError::ResourceNotLoaded)
    } else if format_of_path(path) == ImageFormat::Unsupported {
        Err(ImageLoadError::TypeNotSupported)
    } else {
        match decoded {
            Some(b) => Ok(b),
            None => Err(ImageLoadError::DecodingFailed),
        }
    }
}

/// What loading the image at `path` gives (see `load_outcome_spec`).  The
/// decoder's answer is read only for a supported format of a file that was
/// read.
pub fn load_outcome(path: &str, resource_loaded: bool, decoded: Option<ImageBuffer>) -> (r: Result<ImageBuffer, ImageLoadError>)
    ensures
        r == load_outcome_spec(path@, resource_loaded, decoded),
        resource_loaded && (has_suffix(path@, seq!['.', 'j', 'p', 'g']) || has_suffix(path@, seq!['.', 'p', 'n', 'g']))
            && decoded is Some ==> r == Ok::<ImageBuffer, ImageLoadError>(decoded.unwrap()),
        r is Ok ==> r == Ok::<ImageBuffer, ImageLoadError>(decoded.unwrap()) && decoded is Some,
        r == Err::<ImageBuffer, ImageLoadError>(ImageLoadError::DecodingFailed) ==> decoded is None,
{
    if !resource_loaded {
        return Err(ImageLoadError::ResourceNotLoaded);
    }
    match image_format(path) {
        ImageFormat::Unsupported => Err(ImageLoadError::TypeNotSupported),
        _ => match decoded {
            Some(b) => Ok(b),
            None => Err(ImageLoadError::DecodingFailed),
        },
    }
}

/// A read file with a `.jpg` or `.png` extension gives back the decoder's
/// image, whichever of the two formats it is; an image is only ever the
/// decoder's; decoding fails only when the decoder gave nothing; a file not
/// read is reported so before anything else; and a path of neither
/// extension is not supported.
pub proof fn law_load_outcome(path: Seq<char>, resource_loaded: bool, decoded: Option<ImageBuffer>)
    ensures
        resource_loaded && (has_suffix(path, seq!['.', 'j', 'p', 'g']) || has_suffix(path, seq!['.', 'p', 'n', 'g']))
            && decoded is Some ==> load_outcome_spec(path, resource_loaded, decoded) == Ok::<ImageBuffer, ImageLoadError>(decoded.unwrap()),
        load_outcome_spec(path, resource_loaded, decoded) matches Ok(b) ==> decoded == Some(b),
        load_outcome_spec(path, resource_loaded, decoded) == Err::<ImageBuffer, ImageLoadError>(ImageLoadError::DecodingFailed)
            ==> decoded is None,
        !resource_loaded ==> load_outcome_spec(path, resource_loaded, decoded) == Err::<ImageBuffer, ImageLoadError>(
            ImageLoadError::ResourceNotLoaded),
        resource_loaded && !has_suffix(path, seq!['.', 'j', 'p', 'g']) && !has_suffix(path, seq!['.', 'p', 'n', 'g'])
            ==> load_outcome_spec(path, resource_loaded, decoded) == Err::<ImageBuffer, ImageLoadError>(
            ImageLoadError::TypeNotSupported),
{
}

} // verus!
