//! The resource cache: maps an immutable key (text content plus a style
//! descriptor) to an expensively produced, immutable resource, and reclaims
//! entries that stop being requested with a two-generation mark-and-sweep.
//!
//! The producer is a caller-supplied capability, a function from nothing to
//! `Option<Resource>` that captures the key; the cache invokes it only on a
//! miss and inserts nothing when it fails.

use vstd::prelude::*;

verus! {

/// A style descriptor with exact, integer-valued equality, so that key
/// equality is decidable without any floating-point pitfalls.
#[derive(Clone, Copy, PartialEq, Eq, Structural, Debug)]
pub struct Color {
    pub r: u8,
    pub g: u8,
    pub b: u8,
    pub a: u8,
}

/// The error a failed production degrades to: it carries the offending key
/// and leaves the cache untouched.
#[derive(Debug)]
pub struct ProductionError {
    pub content: String,
    pub color: Color,
}

impl ProductionError {
    /// The key the producer failed for.
    pub open spec fn key(self) -> (Seq<char>, Color) {
        (self.content@, self.color)
    }
}

/// One cache entry: the key it was produced for, the produced resource, and
/// the liveness flag ("requested since the last sweep").
pub struct CacheEntry<R> {
    pub content: String,
    pub color: Color,
    pub live: bool,
    pub resource: R,
}

impl<R> CacheEntry<R> {
    /// The mathematical key of this entry.
    pub open spec fn key(self) -> (Seq<char>, Color) {
        (self.content@, self.color)
    }
}

/// Cache coherence at the representation level: no two entries share a key.
pub open spec fn distinct_keys<R>(s: Seq<CacheEntry<R>>) -> bool {
    forall|i: int, j: int| 0 <= i < j < s.len() ==> s[i].key() != s[j].key()
}

/// The abstract content of an entry sequence: a map from key to
/// (resource, liveness flag).
pub open spec fn entries_view<R>(s: Seq<CacheEntry<R>>) -> Map<(Seq<char>, Color), (R, bool)> {
    Map::new(
        |k: (Seq<char>, Color)| exists|i: int| 0 <= i < s.len() && s[i].key() == k,
        |k: (Seq<char>, Color)|
            {
                let i = choose|i: int| 0 <= i < s.len() && s[i].key() == k;
                (s[i].resource, s[i].live)
            },
    )
}

/// What a `get` hit does to the abstract cache: the resource is kept as it
/// is, and the entry is marked live.
pub open spec fn mark_live<R>(
    m: Map<(Seq<char>, Color), (R, bool)>,
    k: (Seq<char>, Color),
) -> Map<(Seq<char>, Color), (R, bool)>
    recommends
        m.contains_key(k),
{
    m.insert(k, (m[k].0, true))
}

/// What a successful `get` miss does to the abstract cache: a fresh live
/// entry holding the produced resource.
pub open spec fn with_produced<R>(
    m: Map<(Seq<char>, Color), (R, bool)>,
    k: (Seq<char>, Color),
    r: R,
) -> Map<(Seq<char>, Color), (R, bool)> {
    m.insert(k, (r, true))
}

/// What `cleanup` does to the abstract cache: entries whose flag is set
/// survive with the flag reset; entries whose flag is clear are evicted.
pub open spec fn swept<R>(
    m: Map<(Seq<char>, Color), (R, bool)>,
) -> Map<(Seq<char>, Color), (R, bool)> {
    Map::new(|k: (Seq<char>, Color)| m.contains_key(k) && m[k].1, |k: (Seq<char>, Color)| (m[k].0, false))
}

/// The cache itself: a set of entries with pairwise-distinct keys, owned
/// exclusively by the cache.
pub struct TextCache<R> {
    entries: Vec<CacheEntry<R>>,
}

/// With distinct keys, the entry at index `i` is exactly what the view
/// reports under its key.
proof fn lemma_view_index<R>(s: Seq<CacheEntry<R>>, i: int)
    requires
        distinct_keys(s),
        0 <= i < s.len(),
    ensures
        entries_view(s).contains_key(s[i].key()),
        entries_view(s)[s[i].key()] == (s[i].resource, s[i].live),
{
    let k = s[i].key();
    assert(exists|j: int| 0 <= j < s.len() && s[j].key() == k);
    let j = choose|j: int| 0 <= j < s.len() && s[j].key() == k;
    if i < j {
        assert(s[i].key() != s[j].key());
    } else if j < i {
        assert(s[j].key() != s[i].key());
    }
    assert(j == i);
}

/// A key absent from every entry is absent from the view.
proof fn lemma_view_absent<R>(s: Seq<CacheEntry<R>>, k: (Seq<char>, Color))
    requires
        forall|i: int| 0 <= i < s.len() ==> s[i].key() != k,
    ensures
        !entries_view(s).contains_key(k),
{
}

/// Pushing an entry with a fresh key inserts it into the view.
proof fn lemma_view_push<R>(s: Seq<CacheEntry<R>>, e: CacheEntry<R>)
    requires
        distinct_keys(s),
        forall|i: int| 0 <= i < s.len() ==> s[i].key() != e.key(),
    ensures
        distinct_keys(s.push(e)),
        entries_view(s.push(e)) =~= entries_view(s).insert(e.key(), (e.resource, e.live)),
{
    let s2 = s.push(e);
    assert forall|i: int, j: int| 0 <= i < j < s2.len() implies s2[i].key() != s2[j].key() by {
        if j < s.len() {
            assert(s[i].key() != s[j].key());
        } else {
            assert(s2[j] == e);
            assert(s2[i] == s[i]);
        }
    }
    assert forall|k: (Seq<char>, Color)| #[trigger] entries_view(s2).contains_key(k) implies
        entries_view(s).insert(e.key(), (e.resource, e.live)).contains_key(k)
        && entries_view(s2)[k] == entries_view(s).insert(e.key(), (e.resource, e.live))[k] by {
        let i = choose|i: int| 0 <= i < s2.len() && s2[i].key() == k;
        lemma_view_index(s2, i);
        if i < s.len() {
            assert(s[i].key() == k);
            lemma_view_index(s, i);
        } else {
            assert(s2[i] == e);
        }
    }
    assert forall|k: (Seq<char>, Color)|
        entries_view(s).insert(e.key(), (e.resource, e.live)).contains_key(k) implies
        #[trigger] entries_view(s2).contains_key(k) by {
        if k == e.key() {
            assert(s2[s.len() as int].key() == k);
        } else {
            let i = choose|i: int| 0 <= i < s.len() && s[i].key() == k;
            assert(s2[i].key() == k);
        }
    }
}

/// Replacing the entry at index `i` by one with the same key updates the
/// view at that key alone.
proof fn lemma_view_update<R>(s: Seq<CacheEntry<R>>, i: int, e: CacheEntry<R>)
    requires
        distinct_keys(s),
        0 <= i < s.len(),
        e.key() == s[i].key(),
    ensures
        distinct_keys(s.update(i, e)),
        entries_view(s.update(i, e)) =~= entries_view(s).insert(e.key(), (e.resource, e.live)),
{
    let s2 = s.update(i, e);
    assert forall|p: int, q: int| 0 <= p < q < s2.len() implies s2[p].key() != s2[q].key() by {
        assert(s[p].key() != s[q].key());
        assert(s2[p].key() == s[p].key());
        assert(s2[q].key() == s[q].key());
    }
    assert forall|k: (Seq<char>, Color)| #[trigger] entries_view(s2).contains_key(k) implies
        entries_view(s).insert(e.key(), (e.resource, e.live)).contains_key(k)
        && entries_view(s2)[k] == entries_view(s).insert(e.key(), (e.resource, e.live))[k] by {
        let j = choose|j: int| 0 <= j < s2.len() && s2[j].key() == k;
        lemma_view_index(s2, j);
        lemma_view_index(s, j);
        assert(s[j].key() == s2[j].key());
    }
    assert forall|k: (Seq<char>, Color)|
        entries_view(s).insert(e.key(), (e.resource, e.live)).contains_key(k) implies
        #[trigger] entries_view(s2).contains_key(k) by {
        if k == e.key() {
            assert(s2[i].key() == k);
        } else {
            let j = choose|j: int| 0 <= j < s.len() && s[j].key() == k;
            assert(s2[j].key() == k);
        }
    }
}

impl<R> TextCache<R> {
    /// Well-formedness: at most one entry exists for a given key.
    pub closed spec fn wf(self) -> bool {
        distinct_keys(self.entries@)
    }

    /// The cache as a map from key to (resource, liveness flag).
    pub closed spec fn view(self) -> Map<(Seq<char>, Color), (R, bool)> {
        entries_view(self.entries@)
    }

    /// An empty cache.
    pub fn new() -> (c: Self)
        ensures
            c.wf(),
            c@ == Map::<(Seq<char>, Color), (R, bool)>::empty(),
    {
        let c = TextCache { entries: Vec::new() };
        proof {
            assert(c@ =~= Map::<(Seq<char>, Color), (R, bool)>::empty());
        }
        c
    }

    /// Produce-or-reuse. On a hit the entry is marked live and a reference
    /// to the cached resource is returned; the producer is not consulted, so
    /// for a fixed key the resource is produced at most once between
    /// evictions. On a miss the producer capability is invoked once: if it
    /// yields a resource, a live entry is inserted and a reference to it is
    /// returned; if it fails, the cache is left exactly as it was
    /// (atomic-insert semantics) and the error carries the offending key.
    pub fn get<F: FnOnce() -> Option<R>>(&mut self, text: &str, color: Color, produce: F) -> (res:
        Result<&R, ProductionError>)
        requires
            old(self).wf(),
            call_requires(produce, ()),
        ensures
            final(self).wf(),
            old(self)@.contains_key((text@, color)) ==> res is Ok && final(self)@ == mark_live(
                old(self)@,
                (text@, color),
            ),
            !old(self)@.contains_key((text@, color)) ==> match res {
                Result::Ok(r) => call_ensures(produce, (), Option::Some(*r)) && final(self)@
                    == with_produced(old(self)@, (text@, color), *r),
                Result::Err(e) => call_ensures(produce, (), Option::None::<R>) && final(self)@
                    == old(self)@ && e.key() == (text@, color),
            },
            res matches Result::Ok(r) ==> final(self)@.contains_key((text@, color)) && *r
                == final(self)@[(text@, color)].0 && final(self)@[(text@, color)].1,
    {
        let key: String = <String as vstd::string::StringExecFns>::from_str(text);
        let ghost k = (text@, color);
        let n = self.entries.len();
        let mut i: usize = 0;
        while i < n
            invariant
                self.entries@ == old(self).entries@,
                distinct_keys(self.entries@),
                n == self.entries@.len(),
                0 <= i <= n,
                forall|j: int| 0 <= j < i ==> self.entries@[j].key() != k,
                key@ == text@,
                k == (text@, color),
            decreases n - i,
        {
            if self.entries[i].content == key && self.entries[i].color == color {
                proof {
                    lemma_view_index(self.entries@, i as int);
                }
                let entry = &mut self.entries[i];
                entry.live = true;
                proof {
                    lemma_view_update(old(self).entries@, i as int, self.entries@[i as int]);
                }
                return Result::Ok(&self.entries[i].resource);
            }
            i += 1;
        }
        proof {
            lemma_view_absent(self.entries@, k);
        }
        match produce() {
            Option::Some(resource) => {
                let entry = CacheEntry { content: key, color, live: true, resource };
                proof {
                    lemma_view_push(self.entries@, entry);
                }
                self.entries.push(entry);
                let last = self.entries.len() - 1;
                proof {
                    lemma_view_index(self.entries@, last as int);
                }
                Result::Ok(&self.entries[last].resource)
            },
            Option::None => Result::Err(ProductionError { content: key, color }),
        }
    }

    /// The reclamation pass. Every entry requested since the previous sweep
    /// survives with its flag reset; every entry not requested since then is
    /// evicted and its resource released.
    pub fn cleanup(&mut self)
        requires
            old(self).wf(),
        ensures
            final(self).wf(),
            final(self)@ == swept(old(self)@),
    {
        let ghost s0 = self.entries@;
        let mut kept: Vec<CacheEntry<R>> = Vec::new();
        let ghost mut processed: int = 0;
        proof {
            assert(s0.skip(0) =~= s0);
        }
        while self.entries.len() > 0
            invariant
                distinct_keys(s0),
                0 <= processed <= s0.len(),
                self.entries@ == s0.skip(processed),
                distinct_keys(kept@),
                forall|j: int| 0 <= j < kept@.len() ==> (#[trigger] kept@[j]).live == false,
                forall|j: int| 0 <= j < kept@.len() ==> exists|p: int|
                    0 <= p < processed && s0[p].key() == (#[trigger] kept@[j]).key(),
                entries_view(kept@) =~= swept(entries_view(s0.take(processed))),
            decreases self.entries@.len(),
        {
            let e = self.entries.remove(0);
            proof {
                assert(s0.skip(processed).len() > 0);
                assert(e == s0.skip(processed)[0]);
                assert(e == s0[processed]);
                assert(s0.skip(processed + 1) =~= s0.skip(processed).skip(1));
                assert(self.entries@ == s0.skip(processed).skip(1));
                assert(s0.take(processed + 1) =~= s0.take(processed).push(s0[processed]));
                assert(distinct_keys(s0.take(processed))) by {
                    assert forall|a: int, b: int| 0 <= a < b < s0.take(processed).len() implies s0.take(
                        processed,
                    )[a].key() != s0.take(processed)[b].key() by {
                        assert(s0[a].key() != s0[b].key());
                    }
                }
                assert forall|a: int| 0 <= a < s0.take(processed).len() implies s0.take(
                    processed,
                )[a].key() != e.key() by {
                    assert(s0[a].key() != s0[processed].key());
                }
                lemma_view_push(s0.take(processed), e);
                lemma_view_absent(s0.take(processed), e.key());
            }
            if e.live {
                let fresh = CacheEntry {
                    content: e.content,
                    color: e.color,
                    live: false,
                    resource: e.resource,
                };
                proof {
                    assert(fresh.key() == e.key());
                    assert forall|j: int| 0 <= j < kept@.len() implies kept@[j].key() != fresh.key() by {
                        let p = choose|p: int|
                            0 <= p < processed && s0[p].key() == kept@[j].key();
                        assert(s0[p].key() != s0[processed].key());
                    }
                    lemma_view_push(kept@, fresh);
                    assert(swept(entries_view(s0.take(processed + 1))) =~= swept(
                        entries_view(s0.take(processed)),
                    ).insert(e.key(), (e.resource, false)));
                }
                kept.push(fresh);
            } else {
                proof {
                    assert(swept(entries_view(s0.take(processed + 1))) =~= swept(
                        entries_view(s0.take(processed)),
                    ));
                }
            }
            proof {
                processed = processed + 1;
            }
        }
        proof {
            assert(s0.skip(processed).len() == 0);
            assert(processed == s0.len());
            assert(s0.take(processed) =~= s0);
        }
        self.entries = kept;
        proof {
            assert(self@ =~= swept(old(self)@));
        }
    }

    /// How many entries the cache currently holds.
    pub fn len(&self) -> (n: usize)
        requires
            self.wf(),
        ensures
            n == self@.dom().len(),
    {
        proof {
            lemma_view_len(self.entries@);
        }
        self.entries.len()
    }
}

impl<R> TextCache<R> {
    /// Whether an entry for the key is currently cached.
    pub fn contains(&self, text: &str, color: Color) -> (present: bool)
        requires
            self.wf(),
        ensures
            present == self@.contains_key((text@, color)),
    {
        let key: String = <String as vstd::string::StringExecFns>::from_str(text);
        let n = self.entries.len();
        let mut i: usize = 0;
        while i < n
            invariant
                distinct_keys(self.entries@),
                n == self.entries@.len(),
                0 <= i <= n,
                forall|j: int| 0 <= j < i ==> self.entries@[j].key() != (text@, color),
                key@ == text@,
            decreases n - i,
        {
            if self.entries[i].content == key && self.entries[i].color == color {
                proof {
                    lemma_view_index(self.entries@, i as int);
                }
                return true;
            }
            i += 1;
        }
        proof {
            lemma_view_absent(self.entries@, (text@, color));
        }
        false
    }

    /// Whether the entry for the key has been requested since the last
    /// sweep. Absent keys are reported as not live.
    pub fn is_live(&self, text: &str, color: Color) -> (live: bool)
        requires
            self.wf(),
        ensures
            live == (self@.contains_key((text@, color)) && self@[(text@, color)].1),
    {
        let key: String = <String as vstd::string::StringExecFns>::from_str(text);
        let n = self.entries.len();
        let mut i: usize = 0;
        while i < n
            invariant
                distinct_keys(self.entries@),
                n == self.entries@.len(),
                0 <= i <= n,
                forall|j: int| 0 <= j < i ==> self.entries@[j].key() != (text@, color),
                key@ == text@,
            decreases n - i,
        {
            if self.entries[i].content == key && self.entries[i].color == color {
                proof {
                    lemma_view_index(self.entries@, i as int);
                }
                return self.entries[i].live;
            }
            i += 1;
        }
        proof {
            lemma_view_absent(self.entries@, (text@, color));
        }
        false
    }
}

/// Coherence: a `get` never replaces a cached resource. Marking any key
/// live, or producing a resource for any missing key, leaves every cached
/// key mapped to the resource it already had; together with the contract of
/// `get` (a hit returns the cached resource and consults no producer), every
/// `get` for one key between sweeps returns the same resource, produced
/// exactly once.
pub proof fn lemma_coherence<R>(
    m: Map<(Seq<char>, Color), (R, bool)>,
    k: (Seq<char>, Color),
    touched: (Seq<char>, Color),
    r: R,
)
    requires
        m.contains_key(k),
    ensures
        mark_live(m, touched).contains_key(k),
        mark_live(m, touched)[k].0 == m[k].0,
        !m.contains_key(touched) ==> with_produced(m, touched, r).contains_key(k)
            && with_produced(m, touched, r)[k].0 == m[k].0,
{
}

/// Two-generation retention: a key that is live going into a sweep survives
/// it, with the same resource and its flag reset; a second consecutive sweep
/// without an intervening request evicts it.
pub proof fn lemma_two_generation_retention<R>(
    m: Map<(Seq<char>, Color), (R, bool)>,
    k: (Seq<char>, Color),
)
    requires
        m.contains_key(k),
        m[k].1,
    ensures
        swept(m).contains_key(k),
        swept(m)[k].0 == m[k].0,
        !swept(m)[k].1,
        !swept(swept(m)).contains_key(k),
{
}

/// After a sweep every surviving entry's flag is clear, so the next cycle's
/// first `get` on a key re-establishes liveness — and a key requested again
/// between two consecutive sweeps stays cached with the resource it already
/// had: steady request traffic never thrashes.
pub proof fn lemma_no_thrashing<R>(
    m: Map<(Seq<char>, Color), (R, bool)>,
    k: (Seq<char>, Color),
)
    requires
        m.contains_key(k),
        m[k].1,
    ensures
        forall|k2: (Seq<char>, Color)| swept(m).contains_key(k2) ==> !(#[trigger] swept(m)[k2]).1,
        swept(mark_live(swept(m), k)).contains_key(k),
        swept(mark_live(swept(m), k))[k].0 == m[k].0,
{
}

/// Re-entry after eviction: `get` on an evicted key invokes the producer
/// again (its contract says so), and a producer that is deterministic —
/// every outcome it allows is the resource originally produced — yields a
/// resource indistinguishable from the original.
pub proof fn lemma_reentry_after_eviction<R, F: FnOnce() -> Option<R>>(
    produce: F,
    original: R,
    reproduced: Option<R>,
)
    requires
        forall|out: Option<R>| call_ensures(produce, (), out) ==> out == Option::Some(original),
        call_ensures(produce, (), reproduced),
    ensures
        reproduced == Option::Some(original),
{
}

/// Production failure isolation: a failed `get` leaves the cache map exactly
/// as it was, so the presence, resource and liveness of every entry — in
/// particular every other key's — are untouched.
pub proof fn lemma_failure_isolation<R>(
    m_before: Map<(Seq<char>, Color), (R, bool)>,
    m_after: Map<(Seq<char>, Color), (R, bool)>,
    b: (Seq<char>, Color),
)
    requires
        m_after == m_before,
    ensures
        m_after.contains_key(b) == m_before.contains_key(b),
        m_before.contains_key(b) ==> m_after[b] == m_before[b],
{
}

/// With distinct keys, the view's domain is finite and exactly as large as
/// the entry sequence.
proof fn lemma_view_len<R>(s: Seq<CacheEntry<R>>)
    requires
        distinct_keys(s),
    ensures
        entries_view(s).dom().finite(),
        entries_view(s).dom().len() == s.len(),
    decreases s.len(),
{
    if s.len() == 0 {
        assert(entries_view(s).dom() =~= Set::<(Seq<char>, Color)>::empty());
    } else {
        let s1 = s.drop_last();
        let e = s.last();
        assert(distinct_keys(s1)) by {
            assert forall|i: int, j: int| 0 <= i < j < s1.len() implies s1[i].key() != s1[j].key() by {
                assert(s[i].key() != s[j].key());
            }
        }
        lemma_view_len(s1);
        assert forall|i: int| 0 <= i < s1.len() implies s1[i].key() != e.key() by {
            assert(s[i].key() != s[s.len() - 1].key());
        }
        lemma_view_push(s1, e);
        lemma_view_absent(s1, e.key());
        assert(s1.push(e) =~= s);
        assert(entries_view(s).dom() =~= entries_view(s1).dom().insert(e.key()));
    }
}

} // verus!
