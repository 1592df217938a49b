//! The render cache: rendered HTML keyed on a file's path and modification
//! time, holding at most one version of each path.
use vstd::prelude::*;

verus! {

/// A file's last-modification time, at the finest resolution the filesystem
/// reports: whole seconds since the Unix epoch (negative before it) and the
/// nanoseconds within that second.
#[derive(Clone, Copy, Debug, PartialEq, Eq, Hash, Structural)]
pub struct ModTime {
    pub secs: i64,
    pub nanos: u32,
}

/// One version of one file: its path and its modification time.
pub struct CacheKey {
    pub path: String,
    pub modified: ModTime,
}

/// The abstract key: the path's characters and the modification time.
pub type KeyView = (Seq<char>, ModTime);

impl View for CacheKey {
    type V = KeyView;

    open spec fn view(&self) -> KeyView {
        (self.path@, self.modified)
    }
}

/// The cache as a mapping from keys to rendered HTML, with every key whose
/// path is `p` taken out.
pub open spec fn without_path(m: Map<KeyView, Seq<char>>, p: Seq<char>) -> Map<KeyView, Seq<char>> {
    Map::new(|k: KeyView| m.contains_key(k) && k.0 != p, |k: KeyView| m[k])
}

/// The cache after a fresh render `html` of `k` was stored: every older
/// version of the path is gone and `k` maps to `html`.
pub open spec fn stored(m: Map<KeyView, Seq<char>>, k: KeyView, html: Seq<char>) -> Map<KeyView, Seq<char>> {
    without_path(m, k.0).insert(k, html)
}

/// One request for `k` whose file renders to `html`: a stored key is answered
/// from the cache, any other key has its render stored. The cache after the
/// request, and the response.
pub open spec fn serve_once(m: Map<KeyView, Seq<char>>, k: KeyView, html: Seq<char>) -> (Map<KeyView, Seq<char>>, Seq<char>) {
    if m.contains_key(k) {
        (m, m[k])
    } else {
        (stored(m, k, html), html)
    }
}

/// `n` requests for `k`, one after another as the lock around the cache
/// orders them, while the file keeps rendering to `html`: the cache after
/// them, their responses in order, and how many of them rendered.
pub open spec fn serve_requests(m: Map<KeyView, Seq<char>>, k: KeyView, html: Seq<char>, n: nat) -> (Map<KeyView, Seq<char>>, Seq<Seq<char>>, nat)
    decreases n,
{
    if n == 0 {
        (m, Seq::empty(), 0)
    } else {
        let prev = serve_requests(m, k, html, (n - 1) as nat);
        let step = serve_once(prev.0, k, html);
        (step.0, prev.1.push(step.1), prev.2 + if prev.0.contains_key(k) {
            0nat
        } else {
            1nat
        })
    }
}

/// No two keys of `m` share a path.
pub open spec fn one_per_path(m: Map<KeyView, Seq<char>>) -> bool {
    forall|a: KeyView, b: KeyView|
        #![trigger m.contains_key(a), m.contains_key(b)]
        m.contains_key(a) && m.contains_key(b) && a.0 == b.0 ==> a == b
}

struct Entry {
    key: CacheKey,
    html: String,
}

/// Rendered pages keyed on (path, modification time). Unbounded; an entry
/// leaves only when a newer version of its path is stored.
pub struct RenderCache {
    entries: Vec<Entry>,
}

spec fn has_key(s: Seq<Entry>, k: KeyView) -> bool {
    exists|i: int| 0 <= i < s.len() && #[trigger] s[i].key@ == k
}

spec fn seq_map(s: Seq<Entry>) -> Map<KeyView, Seq<char>> {
    Map::new(
        |k: KeyView| has_key(s, k),
        |k: KeyView| s[choose|i: int| 0 <= i < s.len() && #[trigger] s[i].key@ == k].html@,
    )
}

spec fn paths_distinct(s: Seq<Entry>) -> bool {
    forall|i: int, j: int|
        0 <= i < s.len() && 0 <= j < s.len() && i != j ==> #[trigger] s[i].key.path@ != #[trigger] s[j].key.path@
}

proof fn lemma_seq_map_at(s: Seq<Entry>, i: int)
    requires
        paths_distinct(s),
        0 <= i < s.len(),
    ensures
        seq_map(s).contains_key(s[i].key@),
        seq_map(s)[s[i].key@] == s[i].html@,
{
    let k = s[i].key@;
    assert(has_key(s, k));
    let j = choose|j: int| 0 <= j < s.len() && #[trigger] s[j].key@ == k;
    assert(s[j].key.path@ == s[i].key.path@);
}

proof fn lemma_seq_map_push(s: Seq<Entry>, e: Entry)
    requires
        paths_distinct(s),
        forall|i: int| 0 <= i < s.len() ==> #[trigger] s[i].key.path@ != e.key.path@,
    ensures
        paths_distinct(s.push(e)),
        seq_map(s.push(e)) =~= seq_map(s).insert(e.key@, e.html@),
{
    let t = s.push(e);
    assert(paths_distinct(t)) by {
        assert forall|i: int, j: int|
            0 <= i < t.len() && 0 <= j < t.len() && i != j implies #[trigger] t[i].key.path@
                != #[trigger] t[j].key.path@ by {
            if i < s.len() && j < s.len() {
                assert(t[i] == s[i] && t[j] == s[j]);
            } else if i < s.len() {
                assert(t[i] == s[i]);
            } else {
                assert(t[j] == s[j]);
            }
        }
    }
    let m = seq_map(s).insert(e.key@, e.html@);
    assert forall|k: KeyView| #[trigger] seq_map(t).contains_key(k) <==> m.contains_key(k) by {
        if has_key(t, k) {
            let i = choose|i: int| 0 <= i < t.len() && #[trigger] t[i].key@ == k;
            if i < s.len() {
                assert(s[i].key@ == k);
                assert(has_key(s, k));
            }
        }
        if has_key(s, k) {
            let i = choose|i: int| 0 <= i < s.len() && #[trigger] s[i].key@ == k;
            assert(t[i].key@ == k);
        }
        if k == e.key@ {
            assert(t[s.len() as int].key@ == k);
        }
    }
    assert forall|k: KeyView| #[trigger] seq_map(t).contains_key(k) implies seq_map(t)[k] == m[k] by {
        let i = choose|i: int| 0 <= i < t.len() && #[trigger] t[i].key@ == k;
        lemma_seq_map_at(t, i);
        if i < s.len() {
            assert(t[i] == s[i]);
            lemma_seq_map_at(s, i);
        }
    }
}

proof fn lemma_seq_map_remove(s: Seq<Entry>, i: int)
    requires
        paths_distinct(s),
        0 <= i < s.len(),
    ensures
        paths_distinct(s.remove(i)),
        seq_map(s.remove(i)) =~= without_path(seq_map(s), s[i].key.path@),
{
    let t = s.remove(i);
    let p = s[i].key.path@;
    assert forall|a: int, b: int|
        0 <= a < t.len() && 0 <= b < t.len() && a != b implies #[trigger] t[a].key.path@
            != #[trigger] t[b].key.path@ by {
        let a2 = if a < i { a } else { a + 1 };
        let b2 = if b < i { b } else { b + 1 };
        assert(t[a] == s[a2] && t[b] == s[b2]);
    }
    let m = without_path(seq_map(s), p);
    assert forall|k: KeyView| #[trigger] seq_map(t).contains_key(k) <==> m.contains_key(k) by {
        if has_key(t, k) {
            let a = choose|a: int| 0 <= a < t.len() && #[trigger] t[a].key@ == k;
            let a2 = if a < i { a } else { a + 1 };
            assert(t[a] == s[a2]);
            assert(s[a2].key@ == k);
            assert(has_key(s, k));
            assert(a2 != i);
            assert(k.0 != p);
        }
        if m.contains_key(k) {
            let a = choose|a: int| 0 <= a < s.len() && #[trigger] s[a].key@ == k;
            assert(a != i);
            let a2 = if a < i { a } else { a - 1 };
            assert(t[a2] == s[a]);
            assert(t[a2].key@ == k);
        }
    }
    assert forall|k: KeyView| #[trigger] seq_map(t).contains_key(k) implies seq_map(t)[k] == m[k] by {
        let a = choose|a: int| 0 <= a < t.len() && #[trigger] t[a].key@ == k;
        lemma_seq_map_at(t, a);
        let a2 = if a < i { a } else { a + 1 };
        assert(t[a] == s[a2]);
        lemma_seq_map_at(s, a2);
    }
}

proof fn lemma_seq_map_no_path(s: Seq<Entry>, p: Seq<char>)
    requires
        forall|i: int| 0 <= i < s.len() ==> #[trigger] s[i].key.path@ != p,
    ensures
        seq_map(s) =~= without_path(seq_map(s), p),
{
    assert forall|k: KeyView| #[trigger] seq_map(s).contains_key(k) implies k.0 != p by {
        let a = choose|a: int| 0 <= a < s.len() && #[trigger] s[a].key@ == k;
    }
}

proof fn lemma_dom_is_key_set(s: Seq<Entry>)
    requires
        paths_distinct(s),
    ensures
        seq_map(s).dom().finite(),
        seq_map(s).dom().len() == s.len(),
{
    let ks = s.map_values(|e: Entry| e.key@);
    assert(ks.no_duplicates()) by {
        assert forall|i: int, j: int| 0 <= i < ks.len() && 0 <= j < ks.len() && i != j implies ks[i]
            != ks[j] by {
            assert(s[i].key.path@ != s[j].key.path@);
        }
    }
    ks.unique_seq_to_set();
    assert forall|k: KeyView| ks.to_set().contains(k) <==> #[trigger] seq_map(s).dom().contains(k) by {
        if ks.to_set().contains(k) {
            let i = choose|i: int| 0 <= i < ks.len() && ks[i] == k;
            assert(s[i].key@ == k);
        }
        if seq_map(s).dom().contains(k) {
            let i = choose|i: int| 0 <= i < s.len() && #[trigger] s[i].key@ == k;
            assert(ks[i] == k);
        }
    }
    assert(ks.to_set() =~= seq_map(s).dom());
    vstd::seq_lib::seq_to_set_is_finite(ks);
}

impl View for RenderCache {
    type V = Map<KeyView, Seq<char>>;

    closed spec fn view(&self) -> Map<KeyView, Seq<char>> {
        seq_map(self.entries@)
    }
}

impl RenderCache {
    /// The cache holds at most one entry for each path.
    pub closed spec fn wf(&self) -> bool {
        paths_distinct(self.entries@)
    }

    /// An empty cache.
    pub fn new() -> (r: RenderCache)
        ensures
            r.wf(),
            r@ == Map::<KeyView, Seq<char>>::empty(),
            r@.dom().finite(),
    {
        let r = RenderCache { entries: Vec::new() };
        assert(r@ =~= Map::<KeyView, Seq<char>>::empty());
        r
    }

    /// Well-formed caches hold at most one entry for each path.
    pub proof fn lemma_one_per_path(&self)
        requires
            self.wf(),
        ensures
            one_per_path(self@),
    {
        assert forall|a: KeyView, b: KeyView|
            #![trigger self@.contains_key(a), self@.contains_key(b)]
            self@.contains_key(a) && self@.contains_key(b) && a.0 == b.0 implies a == b by {
            let i = choose|i: int| 0 <= i < self.entries@.len() && #[trigger] self.entries@[i].key@ == a;
            let j = choose|j: int| 0 <= j < self.entries@.len() && #[trigger] self.entries@[j].key@ == b;
            assert(self.entries@[i].key.path@ == self.entries@[j].key.path@);
        }
    }

    /// The key set of a well-formed cache is finite.
    pub proof fn lemma_finite(&self)
        requires
            self.wf(),
        ensures
            self@.dom().finite(),
    {
        lemma_dom_is_key_set(self.entries@);
    }

    /// The number of entries.
    pub fn len(&self) -> (r: usize)
        requires
            self.wf(),
        ensures
            r as nat == self@.dom().len(),
    {
        proof {
            lemma_dom_is_key_set(self.entries@);
        }
        self.entries.len()
    }

    /// The index of the entry for `path`, if there is one.
    fn position_of(&self, path: &String) -> (r: Option<usize>)
        ensures
            match r {
                Some(i) => i < self.entries@.len() && self.entries@[i as int].key.path@ == path@,
                None => forall|i: int|
                    0 <= i < self.entries@.len() ==> #[trigger] self.entries@[i].key.path@ != path@,
            },
    {
        let mut i: usize = 0;
        while i < self.entries.len()
            invariant
                i <= self.entries@.len(),
                forall|j: int| 0 <= j < i ==> #[trigger] self.entries@[j].key.path@ != path@,
            decreases self.entries@.len() - i,
        {
            if self.entries[i].key.path.eq(path) {
                return Some(i);
            }
            i = i + 1;
        }
        None
    }

    /// The rendered HTML stored for exactly this path and modification time.
    pub fn lookup(&self, key: &CacheKey) -> (r: Option<String>)
        requires
            self.wf(),
        ensures
            match r {
                Some(h) => self@.contains_key(key@) && h@ == self@[key@],
                None => !self@.contains_key(key@),
            },
    {
        match self.position_of(&key.path) {
            Some(i) => {
                proof {
                    lemma_seq_map_at(self.entries@, i as int);
                }
                if self.entries[i].key.modified == key.modified {
                    Some(self.entries[i].html.clone())
                } else {
                    proof {
                        if self@.contains_key(key@) {
                            let j = choose|j: int|
                                0 <= j < self.entries@.len() && #[trigger] self.entries@[j].key@ == key@;
                            assert(self.entries@[j].key.path@ == self.entries@[i as int].key.path@);
                        }
                    }
                    None
                }
            },
            None => {
                proof {
                    if self@.contains_key(key@) {
                        let j = choose|j: int|
                            0 <= j < self.entries@.len() && #[trigger] self.entries@[j].key@ == key@;
                        assert(self.entries@[j].key.path@ == key.path@);
                    }
                }
                None
            },
        }
    }

    /// The HTML for `key`: the stored entry when there is one, without calling
    /// `producer`; otherwise what `producer` yields, stored under `key` after
    /// every entry for the same path was evicted. When `producer` fails the
    /// cache is left as it was and its error is returned. Callers that share
    /// one cache hold a single lock across the whole call, so lookup, render,
    /// eviction and insertion happen as one step.
    pub fn get_or_render<E, F: FnOnce() -> Result<String, E>>(&mut self, key: CacheKey, producer: F) -> (r:
        Result<String, E>)
        requires
            old(self).wf(),
            producer.requires(()),
        ensures
            final(self).wf(),
            final(self)@.dom().finite(),
            r matches Ok(h) ==> (final(self)@, h@) == serve_once(old(self)@, key@, h@),
            old(self)@.contains_key(key@) ==> (r matches Ok(h) && h@ == old(self)@[key@] && final(self)@
                == old(self)@),
            !old(self)@.contains_key(key@) ==> producer.ensures((), r),
            !old(self)@.contains_key(key@) ==> match r {
                Ok(h) => final(self)@ == stored(old(self)@, key@, h@),
                Err(_) => final(self)@ == old(self)@,
            },
    {
        proof {
            lemma_dom_is_key_set(self.entries@);
        }
        match self.lookup(&key) {
            Some(h) => Ok(h),
            None => {
                let produced = producer();
                match produced {
                    Ok(h) => {
                        evict(&key.path, self);
                        let out = h.clone();
                        let ghost before = self.entries@;
                        let e = Entry { key, html: h };
                        proof {
                            assert forall|i: int| 0 <= i < before.len() implies #[trigger] before[i].key.path@
                                != e.key.path@ by {
                                if before[i].key.path@ == e.key.path@ {
                                    lemma_seq_map_at(before, i);
                                }
                            }
                            lemma_seq_map_push(before, e);
                        }
                        self.entries.push(e);
                        proof {
                            lemma_dom_is_key_set(self.entries@);
                        }
                        Ok(out)
                    },
                    Err(err) => Err(err),
                }
            },
        }
    }
}

/// Rendering an unchanged file twice: once a render `html` of `k` is stored,
/// the cache maps `k` to exactly that HTML, so the next request for `k` is
/// served from it without rendering again.
pub proof fn lemma_idempotent(m: Map<KeyView, Seq<char>>, k: KeyView, html: Seq<char>)
    ensures
        stored(m, k, html).contains_key(k),
        stored(m, k, html)[k] == html,
{
}

/// Coherence: after a newer version `k` of a path is stored, the cache holds
/// that version's HTML and no other version of the path.
pub proof fn lemma_coherent(m: Map<KeyView, Seq<char>>, k: KeyView, html: Seq<char>)
    ensures
        stored(m, k, html)[k] == html,
        forall|other: KeyView|
            #[trigger] stored(m, k, html).contains_key(other) && other.0 == k.0 ==> other == k,
{
}

/// Requests that the cache's lock serialises: `n` requests for a version of
/// a file that is not cached render it exactly once, all get the same HTML,
/// and the cache ends with that one entry for the path and every other path
/// as it was.
pub proof fn lemma_serialized_requests(m: Map<KeyView, Seq<char>>, k: KeyView, html: Seq<char>, n: nat)
    requires
        !m.contains_key(k),
        n >= 1,
    ensures
        serve_requests(m, k, html, n).0 == stored(m, k, html),
        serve_requests(m, k, html, n).1.len() == n,
        forall|i: int| 0 <= i < n ==> #[trigger] serve_requests(m, k, html, n).1[i] == html,
        serve_requests(m, k, html, n).2 == 1,
    decreases n,
{
    if n > 1 {
        lemma_serialized_requests(m, k, html, (n - 1) as nat);
        lemma_idempotent(m, k, html);
        let prev = serve_requests(m, k, html, (n - 1) as nat);
        let r = serve_requests(m, k, html, n);
        assert forall|i: int| 0 <= i < n implies #[trigger] r.1[i] == html by {
            if i < n - 1 {
                assert(r.1[i] == prev.1[i]);
            }
        }
    } else {
        let prev = serve_requests(m, k, html, 0);
        assert(prev == (m, Seq::<Seq<char>>::empty(), 0nat));
        let r = serve_requests(m, k, html, n);
        assert(r.1 == prev.1.push(html));
        assert(r.1[0] == html);
    }
}

/// Storing a render keeps the cache at one entry per path.
pub proof fn lemma_stored_one_per_path(m: Map<KeyView, Seq<char>>, k: KeyView, html: Seq<char>)
    requires
        one_per_path(m),
    ensures
        one_per_path(stored(m, k, html)),
{
    let n = stored(m, k, html);
    assert forall|a: KeyView, b: KeyView|
        #![trigger n.contains_key(a), n.contains_key(b)]
        n.contains_key(a) && n.contains_key(b) && a.0 == b.0 implies a == b by {
        if a != k && b != k {
            assert(m.contains_key(a) && m.contains_key(b));
        }
    }
}

/// Removes every entry whose path is `path`, whatever its modification time.
pub fn evict(path: &String, cache: &mut RenderCache)
    requires
        old(cache).wf(),
    ensures
        final(cache).wf(),
        final(cache)@ == without_path(old(cache)@, path@),
        final(cache)@.dom().finite(),
        final(cache)@.dom().len() == old(cache)@.dom().len() - old(cache)@.dom().filter(
            |k: KeyView| k.0 == path@,
        ).len(),
{
    let ghost before = cache.entries@;
    let ghost gone = seq_map(before).dom().filter(|k: KeyView| k.0 == path@);
    proof {
        lemma_dom_is_key_set(before);
    }
    match cache.position_of(path) {
        Some(i) => {
            proof {
                lemma_seq_map_remove(before, i as int);
                lemma_seq_map_at(before, i as int);
                let k0 = before[i as int].key@;
                assert forall|k: KeyView| #[trigger] gone.contains(k) <==> k == k0 by {
                    if gone.contains(k) {
                        let j = choose|j: int| 0 <= j < before.len() && #[trigger] before[j].key@ == k;
                        assert(before[j].key.path@ == before[i as int].key.path@);
                    }
                }
                assert(gone =~= set![k0]);
                assert(seq_map(before.remove(i as int)).dom() =~= seq_map(before).dom().remove(k0));
            }
            cache.entries.remove(i);
            proof {
                lemma_dom_is_key_set(cache.entries@);
            }
        },
        None => {
            proof {
                lemma_seq_map_no_path(before, path@);
                assert forall|k: KeyView| #[trigger] gone.contains(k) implies false by {
                    let j = choose|j: int| 0 <= j < before.len() && #[trigger] before[j].key@ == k;
                }
                assert(gone =~= Set::<KeyView>::empty());
            }
        },
    }
}

} // verus!
