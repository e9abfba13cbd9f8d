//! A store of PDF bytes bounded by entry count and by total size, evicting
//! the least recently used entries first.
use vstd::prelude::*;

verus! {

/// The LRU list of `lru`, carried opaquely.
#[verifier::external_type_specification]
#[verifier::external_body]
#[verifier::reject_recursive_types(K)]
#[verifier::reject_recursive_types(V)]
#[verifier::reject_recursive_types(S)]
pub struct ExLruCache<K, V, S>(lru::LruCache<K, V, S>);

/// The hasher an LRU list uses by default, carried opaquely.
#[verifier::external_type_specification]
#[verifier::external_body]
pub struct ExDefaultHasher(lru::DefaultHasher);

/// The entries of an LRU list, most recently used first.
pub uninterp spec fn lru_entries(c: lru::LruCache<String, Vec<u8>>) -> Seq<(Seq<char>, Seq<u8>)>;

/// The number of entries an LRU list was made to hold.
pub uninterp spec fn lru_capacity(c: lru::LruCache<String, Vec<u8>>) -> nat;

/// Relies on uuid's `Uuid::new_v4` and its `Display`: a random version-4
/// UUID written in hyphenated form, 36 characters.
#[verifier::external_body]
fn random_uuid_string() -> (r: String)
    ensures
        r@.len() == 36,
{
    uuid::Uuid::new_v4().to_string()
}

/// How many random keys are drawn before giving up on a fresh one.
pub const KEY_ATTEMPTS: u32 = 16;

/// Index of the first entry with key `k`, or -1.
pub open spec fn position_of(es: Seq<(Seq<char>, Seq<u8>)>, k: Seq<char>) -> int
    decreases es.len(),
{
    if es.len() == 0 {
        -1
    } else {
        let i = position_of(es.drop_last(), k);
        if i >= 0 {
            i
        } else if es.last().0 == k {
            es.len() - 1
        } else {
            -1
        }
    }
}

/// Relies on `LruCache::new`: an empty list that holds up to `cap` entries.
#[verifier::external_body]
fn lru_new(cap: usize) -> (c: lru::LruCache<String, Vec<u8>>)
    requires
        cap > 0,
    ensures
        lru_entries(c) == Seq::<(Seq<char>, Seq<u8>)>::empty(),
        lru_capacity(c) == cap,
{
    lru::LruCache::new(std::num::NonZeroUsize::new(cap).unwrap())
}

/// Whether no two entries share a key.
pub open spec fn distinct_keys(es: Seq<(Seq<char>, Seq<u8>)>) -> bool {
    forall|i: int, j: int| 0 <= i < j < es.len() ==> es[i].0 != es[j].0
}

/// Relies on `LruCache::pop`: the entry with key `k`, if any, leaves the
/// list and its value is returned.
#[verifier::external_body]
fn lru_pop(c: &mut lru::LruCache<String, Vec<u8>>, k: &str) -> (r: Option<Vec<u8>>)
    ensures
        lru_capacity(*final(c)) == lru_capacity(*old(c)),
        ({
            let es = lru_entries(*old(c));
            let i = position_of(es, k@);
            if i >= 0 {
                r matches Some(v) && v@ == es[i].1 && lru_entries(*final(c)) == es.remove(i)
            } else {
                r is None && lru_entries(*final(c)) == es
            }
        }),
{
    c.pop(k)
}

/// Relies on `LruCache::pop_lru`: the least recently used entry, if any,
/// leaves the list and is returned.
#[verifier::external_body]
fn lru_pop_lru(c: &mut lru::LruCache<String, Vec<u8>>) -> (r: Option<(String, Vec<u8>)>)
    ensures
        lru_capacity(*final(c)) == lru_capacity(*old(c)),
        ({
            let es = lru_entries(*old(c));
            if es.len() > 0 {
                r matches Some((k, v)) && (k@, v@) == es.last() && lru_entries(*final(c))
                    == es.drop_last()
            } else {
                r is None && lru_entries(*final(c)) == es
            }
        }),
{
    c.pop_lru()
}

/// Relies on `LruCache::push`: a new key enters as the most recently used
/// entry; when the list is full, the least recently used entry leaves first
/// and is returned. An existing key takes the new value, moves to the
/// front, and its old entry is returned.
#[verifier::external_body]
fn lru_push(c: &mut lru::LruCache<String, Vec<u8>>, k: String, v: Vec<u8>) -> (r: Option<
    (String, Vec<u8>),
>)
    ensures
        lru_capacity(*final(c)) == lru_capacity(*old(c)),
        ({
            let es = lru_entries(*old(c));
            let i = position_of(es, k@);
            if i >= 0 {
                r matches Some((rk, rv)) && rk@ == k@ && rv@ == es[i].1 && lru_entries(*final(c))
                    == seq![(k@, v@)] + es.remove(i)
            } else if es.len() >= lru_capacity(*old(c)) && es.len() > 0 {
                r matches Some((rk, rv)) && (rk@, rv@) == es.last() && lru_entries(*final(c))
                    == seq![(k@, v@)] + es.drop_last()
            } else {
                r is None && lru_entries(*final(c)) == seq![(k@, v@)] + es
            }
        }),
{
    c.push(k, v)
}

/// Relies on `LruCache::get`: the value of key `k`, if any (copied out),
/// whose entry becomes the most recently used.
#[verifier::external_body]
fn lru_get(c: &mut lru::LruCache<String, Vec<u8>>, k: &str) -> (r: Option<Vec<u8>>)
    ensures
        lru_capacity(*final(c)) == lru_capacity(*old(c)),
        ({
            let es = lru_entries(*old(c));
            let i = position_of(es, k@);
            if i >= 0 {
                r matches Some(v) && v@ == es[i].1 && lru_entries(*final(c)) == seq![es[i]]
                    + es.remove(i)
            } else {
                r is None && lru_entries(*final(c)) == es
            }
        }),
{
    c.get(k).cloned()
}

/// Relies on `LruCache::contains`: whether an entry has key `k`; the order
/// of use is not touched.
#[verifier::external_body]
fn lru_contains(c: &lru::LruCache<String, Vec<u8>>, k: &str) -> (r: bool)
    ensures
        r == (position_of(lru_entries(*c), k@) >= 0),
{
    c.contains(k)
}

/// Relies on `LruCache::len`: the number of entries.
#[verifier::external_body]
fn lru_len(c: &lru::LruCache<String, Vec<u8>>) -> (r: usize)
    ensures
        r == lru_entries(*c).len(),
{
    c.len()
}

/// Relies on `LruCache::clear`: every entry leaves.
#[verifier::external_body]
fn lru_clear(c: &mut lru::LruCache<String, Vec<u8>>)
    ensures
        lru_capacity(*final(c)) == lru_capacity(*old(c)),
        lru_entries(*final(c)) == Seq::<(Seq<char>, Seq<u8>)>::empty(),
{
    c.clear()
}

/// Total size of the stored values.
pub open spec fn bytes_of(es: Seq<(Seq<char>, Seq<u8>)>) -> nat
    decreases es.len(),
{
    if es.len() == 0 {
        0
    } else {
        bytes_of(es.drop_last()) + es.last().1.len()
    }
}

/// Drops least recently used entries until `n` more bytes fit in `max`.
pub open spec fn evict_for(es: Seq<(Seq<char>, Seq<u8>)>, n: nat, max: nat) -> Seq<
    (Seq<char>, Seq<u8>),
>
    decreases es.len(),
{
    if es.len() > 0 && bytes_of(es) + n > max {
        evict_for(es.drop_last(), n, max)
    } else {
        es
    }
}

/// The entries without the one of key `k`.
pub open spec fn without_key(es: Seq<(Seq<char>, Seq<u8>)>, k: Seq<char>) -> Seq<
    (Seq<char>, Seq<u8>),
> {
    if position_of(es, k) >= 0 {
        es.remove(position_of(es, k))
    } else {
        es
    }
}

/// The entries after storing `v` under `k`: a value larger than the whole
/// budget is refused; otherwise the old entry of `k` goes, least recently
/// used entries go until the value fits the budget, the least recently used
/// one goes as well if the count is at capacity, and the new entry comes
/// first.
pub open spec fn entries_after_put(
    es: Seq<(Seq<char>, Seq<u8>)>,
    k: Seq<char>,
    v: Seq<u8>,
    max: nat,
    cap: nat,
) -> Seq<(Seq<char>, Seq<u8>)> {
    if v.len() > max {
        es
    } else {
        let kept = evict_for(without_key(es, k), v.len(), max);
        let room = if kept.len() >= cap && kept.len() > 0 {
            kept.drop_last()
        } else {
            kept
        };
        seq![(k, v)] + room
    }
}


proof fn lemma_position_of(es: Seq<(Seq<char>, Seq<u8>)>, k: Seq<char>)
    ensures
        -1 <= position_of(es, k) < es.len(),
        position_of(es, k) == -1 <==> forall|j: int| 0 <= j < es.len() ==> #[trigger] es[j].0 != k,
        position_of(es, k) >= 0 ==> es[position_of(es, k)].0 == k,
    decreases es.len(),
{
    if es.len() > 0 {
        let t = es.drop_last();
        lemma_position_of(t, k);
        if position_of(es, k) == -1 {
            assert forall|j: int| 0 <= j < es.len() implies #[trigger] es[j].0 != k by {
                if j < es.len() - 1 {
                    assert(es[j] == t[j]);
                }
            }
        }
        if position_of(t, k) >= 0 {
            assert(es[position_of(t, k)] == t[position_of(t, k)]);
        }
    }
}

proof fn lemma_bytes_remove(es: Seq<(Seq<char>, Seq<u8>)>, i: int)
    requires
        0 <= i < es.len(),
    ensures
        bytes_of(es.remove(i)) + es[i].1.len() == bytes_of(es),
    decreases es.len(),
{
    if i == es.len() - 1 {
        assert(es.remove(i) =~= es.drop_last());
    } else {
        let t = es.drop_last();
        lemma_bytes_remove(t, i);
        assert(es.remove(i).drop_last() =~= t.remove(i));
        assert(es.remove(i).last() == es.last());
    }
}

proof fn lemma_bytes_prepend(e: (Seq<char>, Seq<u8>), es: Seq<(Seq<char>, Seq<u8>)>)
    ensures
        bytes_of(seq![e] + es) == e.1.len() + bytes_of(es),
    decreases es.len(),
{
    let s = seq![e] + es;
    if es.len() == 0 {
        assert(s =~= seq![e]);
        assert(s.drop_last() =~= Seq::<(Seq<char>, Seq<u8>)>::empty());
        assert(bytes_of(s.drop_last()) == 0);
        assert(bytes_of(es) == 0);
    } else {
        lemma_bytes_prepend(e, es.drop_last());
        assert(s.drop_last() =~= seq![e] + es.drop_last());
        assert(s.last() == es.last());
    }
}

proof fn lemma_evict_prefix(es: Seq<(Seq<char>, Seq<u8>)>, n: nat, max: nat)
    ensures
        evict_for(es, n, max).len() <= es.len(),
        evict_for(es, n, max) == es.subrange(0, evict_for(es, n, max).len() as int),
    decreases es.len(),
{
    if es.len() > 0 && bytes_of(es) + n > max {
        lemma_evict_prefix(es.drop_last(), n, max);
        let r = evict_for(es, n, max);
        assert(es.drop_last().subrange(0, r.len() as int) =~= es.subrange(0, r.len() as int));
    } else {
        assert(es.subrange(0, es.len() as int) =~= es);
    }
}

/// What a cache holds.
pub struct CacheView {
    /// Key and bytes of each entry, most recently used first.
    pub entries: Seq<(Seq<char>, Seq<u8>)>,
    pub total_bytes: nat,
    pub max_bytes: nat,
    pub capacity: nat,
}

/// PDF bytes by key, bounded by entry count and by total size.
pub struct CacheManager {
    lru: lru::LruCache<String, Vec<u8>>,
    total_bytes: usize,
    max_bytes: usize,
}

impl View for CacheManager {
    type V = CacheView;

    closed spec fn view(&self) -> CacheView {
        CacheView {
            entries: lru_entries(self.lru),
            total_bytes: self.total_bytes as nat,
            max_bytes: self.max_bytes as nat,
            capacity: lru_capacity(self.lru),
        }
    }
}

impl CacheManager {
    /// The invariant: keys are distinct, the running total is the size of
    /// the stored values and stays within budget, the count within capacity.
    pub open spec fn wf(&self) -> bool {
        &&& distinct_keys(self@.entries)
        &&& self@.total_bytes == bytes_of(self@.entries)
        &&& self@.total_bytes <= self@.max_bytes
        &&& self@.entries.len() <= self@.capacity
        &&& self@.capacity >= 1
        &&& self@.max_bytes <= usize::MAX
    }

    /// An empty cache for `capacity` entries (at least one) and `max_bytes`
    /// bytes.
    pub fn new(capacity: usize, max_bytes: usize) -> (c: Self)
        ensures
            c.wf(),
            c@.entries.len() == 0,
            c@.total_bytes == 0,
            c@.max_bytes == max_bytes,
            c@.capacity == if capacity == 0 {
                1
            } else {
                capacity
            },
    {
        let cap = if capacity == 0 {
            1
        } else {
            capacity
        };
        CacheManager { lru: lru_new(cap), total_bytes: 0, max_bytes }
    }

    /// Stores `data` under `key`. Data larger than the whole budget is
    /// refused and nothing changes; otherwise the key's old entry goes, then
    /// least recently used entries until the data fits, then one more if
    /// the count is at capacity.
    pub fn put(&mut self, key: String, data: Vec<u8>)
        requires
            old(self).wf(),
        ensures
            final(self).wf(),
            final(self)@.entries == entries_after_put(
                old(self)@.entries,
                key@,
                data@,
                old(self)@.max_bytes,
                old(self)@.capacity,
            ),
            final(self)@.max_bytes == old(self)@.max_bytes,
            final(self)@.capacity == old(self)@.capacity,
    {
        let new_size = data.len();
        if new_size > self.max_bytes {
            return;
        }
        let ghost es = self@.entries;
        let ghost k = key@;
        proof {
            lemma_position_of(es, k);
        }
        match lru_pop(&mut self.lru, key.as_str()) {
            Some(old_value) => {
                proof {
                    lemma_bytes_remove(es, position_of(es, k));
                }
                self.total_bytes = self.total_bytes - old_value.len();
            },
            None => {},
        }
        let ghost start = self@.entries;
        proof {
            assert(start == without_key(es, k));
            assert(start.len() <= es.len());
            assert forall|j: int| 0 <= j < start.len() implies #[trigger] start[j].0 != k by {
                if position_of(es, k) >= 0 {
                    let i = position_of(es, k);
                    if j < i {
                        assert(start[j] == es[j]);
                    } else {
                        assert(start[j] == es[j + 1]);
                    }
                }
            }
            assert(distinct_keys(start)) by {
                if position_of(es, k) >= 0 {
                    let i = position_of(es, k);
                    assert forall|a: int, b: int| 0 <= a < b < start.len() implies start[a].0
                        != start[b].0 by {
                        let a2 = if a < i {
                            a
                        } else {
                            a + 1
                        };
                        let b2 = if b < i {
                            b
                        } else {
                            b + 1
                        };
                        assert(start[a] == es[a2]);
                        assert(start[b] == es[b2]);
                    }
                }
            }
        }
        while new_size > self.max_bytes - self.total_bytes
            invariant
                self@.total_bytes == bytes_of(self@.entries),
                self@.total_bytes <= self@.max_bytes,
                self@.max_bytes == old(self)@.max_bytes,
                self@.capacity == old(self)@.capacity,
                new_size == data@.len(),
                new_size <= self@.max_bytes,
                evict_for(self@.entries, new_size as nat, self@.max_bytes) == evict_for(
                    start,
                    new_size as nat,
                    self@.max_bytes,
                ),
                self@.entries == start.subrange(0, self@.entries.len() as int),
                self@.entries.len() <= start.len(),
                start.len() <= self@.capacity,
                self@.capacity >= 1,
                distinct_keys(start),
                forall|j: int| 0 <= j < start.len() ==> #[trigger] start[j].0 != k,
            ensures
                self@.total_bytes + new_size <= self@.max_bytes,
            decreases self@.entries.len(),
        {
            let ghost cur = self@.entries;
            match lru_pop_lru(&mut self.lru) {
                Some((_, evicted)) => {
                    self.total_bytes = self.total_bytes - evicted.len();
                    proof {
                        assert(self@.entries =~= start.subrange(0, self@.entries.len() as int));
                    }
                },
                None => {
                    assert(bytes_of(self@.entries) == 0);
                    break ;
                },
            }
        }
        let ghost current = self@.entries;
        proof {
            assert(self@.total_bytes + new_size <= self@.max_bytes);
            assert(evict_for(current, new_size as nat, self@.max_bytes) == current);
            assert(current == evict_for(start, new_size as nat, self@.max_bytes));
            lemma_evict_prefix(start, new_size as nat, self@.max_bytes);
            lemma_position_of(current, k);
            assert forall|j: int| 0 <= j < current.len() implies #[trigger] current[j].0 != k by {
                assert(current[j] == start[j]);
            }
        }
        let ghost dv = data@;
        let ghost room: Seq<(Seq<char>, Seq<u8>)>;
        match lru_push(&mut self.lru, key, data) {
            Some((_, evicted)) => {
                proof {
                    assert(current.remove(current.len() - 1) =~= current.drop_last());
                    lemma_bytes_remove(current, current.len() - 1);
                    room = current.drop_last();
                }
                self.total_bytes = self.total_bytes - evicted.len();
            },
            None => {
                proof {
                    room = current;
                }
            },
        }
        proof {
            assert(self@.entries == seq![(k, dv)] + room);
            assert(self@.total_bytes == bytes_of(room));
        }
        self.total_bytes = self.total_bytes + new_size;
        proof {
            assert(room =~= self@.entries.drop_first());
            lemma_bytes_prepend((k, dv), room);
            assert(room == current.subrange(0, room.len() as int)) by {
                if current.len() >= self@.capacity && current.len() > 0 {
                    assert(room =~= current.drop_last());
                    assert(current.drop_last() =~= current.subrange(0, room.len() as int));
                } else {
                    assert(room =~= current);
                    assert(current =~= current.subrange(0, room.len() as int));
                }
            }
            assert forall|a: int, b: int|
                0 <= a < b < self@.entries.len() implies self@.entries[a].0
                != self@.entries[b].0 by {
                assert(self@.entries[b] == current[b - 1]);
                assert(current[b - 1] == start[b - 1]);
                if a > 0 {
                    assert(self@.entries[a] == current[a - 1]);
                    assert(current[a - 1] == start[a - 1]);
                }
            }
            assert(distinct_keys(self@.entries));
            assert(self@.total_bytes == bytes_of(self@.entries));
            assert(self@.total_bytes <= self@.max_bytes);
            assert(self@.entries.len() <= self@.capacity);
        }
    }

    /// The bytes stored under `key`, whose entry becomes the most recently
    /// used.
    pub fn get(&mut self, key: &str) -> (r: Option<Vec<u8>>)
        requires
            old(self).wf(),
        ensures
            final(self).wf(),
            final(self)@.max_bytes == old(self)@.max_bytes,
            final(self)@.capacity == old(self)@.capacity,
            ({
                let es = old(self)@.entries;
                let i = position_of(es, key@);
                if i >= 0 {
                    r matches Some(v) && v@ == es[i].1 && final(self)@.entries == seq![es[i]]
                        + es.remove(i)
                } else {
                    r is None && final(self)@.entries == es
                }
            }),
    {
        let ghost es = self@.entries;
        proof {
            lemma_position_of(es, key@);
        }
        let r = lru_get(&mut self.lru, key);
        proof {
            let i = position_of(es, key@);
            if i >= 0 {
                let rest = es.remove(i);
                lemma_bytes_remove(es, i);
                lemma_bytes_prepend(es[i], rest);
                let idx = |a: int| if a == 0 {
                    i
                } else if a - 1 < i {
                    a - 1
                } else {
                    a
                };
                assert forall|a: int| 0 <= a < self@.entries.len() implies self@.entries[a]
                    == es[idx(a)] by {
                    if a > 0 {
                        assert(self@.entries[a] == rest[a - 1]);
                    }
                }
                assert forall|a: int, b: int|
                    0 <= a < b < self@.entries.len() implies self@.entries[a].0
                    != self@.entries[b].0 by {
                    assert(self@.entries[a] == es[idx(a)]);
                    assert(self@.entries[b] == es[idx(b)]);
                    if idx(a) < idx(b) {
                    } else {
                        assert(idx(b) < idx(a));
                    }
                }
            }
        }
        r
    }

    /// Whether an entry has key `key`; the order of use is not touched.
    pub fn contains(&self, key: &str) -> (r: bool)
        ensures
            r == (position_of(self@.entries, key@) >= 0),
    {
        lru_contains(&self.lru, key)
    }

    /// Takes the entry of `key` out of the cache and returns its bytes.
    pub fn remove(&mut self, key: &str) -> (r: Option<Vec<u8>>)
        requires
            old(self).wf(),
        ensures
            final(self).wf(),
            final(self)@.max_bytes == old(self)@.max_bytes,
            final(self)@.capacity == old(self)@.capacity,
            ({
                let es = old(self)@.entries;
                let i = position_of(es, key@);
                if i >= 0 {
                    r matches Some(v) && v@ == es[i].1 && final(self)@.entries == es.remove(i)
                } else {
                    r is None && final(self)@.entries == es
                }
            }),
    {
        let ghost es = self@.entries;
        proof {
            lemma_position_of(es, key@);
        }
        let r = lru_pop(&mut self.lru, key);
        match r {
            Some(ref v) => {
                proof {
                    let i = position_of(es, key@);
                    lemma_bytes_remove(es, i);
                    assert forall|a: int, b: int|
                        0 <= a < b < self@.entries.len() implies self@.entries[a].0
                        != self@.entries[b].0 by {
                        let a2 = if a < i {
                            a
                        } else {
                            a + 1
                        };
                        let b2 = if b < i {
                            b
                        } else {
                            b + 1
                        };
                        assert(self@.entries[a] == es[a2]);
                        assert(self@.entries[b] == es[b2]);
                    }
                }
                self.total_bytes = self.total_bytes - v.len();
            },
            None => {},
        }
        r
    }

    /// Empties the cache.
    pub fn clear(&mut self)
        requires
            old(self).wf(),
        ensures
            final(self).wf(),
            final(self)@.entries.len() == 0,
            final(self)@.total_bytes == 0,
            final(self)@.max_bytes == old(self)@.max_bytes,
            final(self)@.capacity == old(self)@.capacity,
    {
        lru_clear(&mut self.lru);
        self.total_bytes = 0;
    }

    /// The number of entries.
    pub fn len(&self) -> (n: usize)
        ensures
            n == self@.entries.len(),
    {
        lru_len(&self.lru)
    }

    /// Whether the cache holds no entry.
    pub fn is_empty(&self) -> (r: bool)
        ensures
            r == (self@.entries.len() == 0),
    {
        lru_len(&self.lru) == 0
    }

    /// A fresh random key (a hyphenated UUID); it may, with negligible
    /// chance, equal a key in use.
    pub fn generate_key() -> (k: String)
        ensures
            k@.len() == 36,
    {
        random_uuid_string()
    }

    /// A fresh random key that no entry uses, or `None` when each of a few
    /// draws clashed with a key in use (a clash of random UUIDs is
    /// negligible, so callers may simply ask again).
    pub fn generate_unique_key(&self) -> (k: Option<String>)
        ensures
            k matches Some(key) ==> key@.len() == 36 && position_of(self@.entries, key@) == -1,
    {
        let mut attempt: u32 = 0;
        while attempt < KEY_ATTEMPTS
            decreases KEY_ATTEMPTS - attempt,
        {
            let key = random_uuid_string();
            if !lru_contains(&self.lru, key.as_str()) {
                return Some(key);
            }
            attempt = attempt + 1;
        }
        None
    }

    /// The total size of the stored bytes.
    pub fn total_bytes(&self) -> (n: usize)
        ensures
            n == self@.total_bytes,
    {
        self.total_bytes
    }
}

} // verus!
