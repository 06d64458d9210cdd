//! A key/value store whose entries expire.
//!
//! An entry is written with a time to live and is read back only while
//! it has not expired.  Nothing is evicted: an expired entry stays until
//! the next write to its key replaces it, and reads treat it as absent.
//! Time is counted in nanoseconds from the creation of the cache.

use std::time::Instant;
use vstd::pervasive::cloned;
use vstd::prelude::*;

verus! {

/// Nanoseconds in a second.
pub const NANOS_PER_SEC: u128 = 1_000_000_000;

/// `std::time::Instant`: an instant of the monotonic clock, carried
/// as it is.
#[verifier::external_type_specification]
#[verifier::external_body]
pub struct ExInstant(Instant);

/// `Instant::now`: some instant; nothing is known of it.
#[verifier::external_body]
fn clock_start() -> (origin: Instant) {
    Instant::now()
}

/// `Instant::elapsed`, in nanoseconds: the time since `origin`, which
/// differs from call to call.
#[verifier::external_body]
fn clock_read(origin: &Instant) -> (nanos: u128) {
    origin.elapsed().as_nanos()
}

/// What the cache holds under one key.
pub struct CacheSlot<V> {
    pub value: V,
    /// The first instant at which the entry is no longer read.
    pub expires: u128,
}

struct Entry<V> {
    key: String,
    value: V,
    expires: u128,
}

/// A store of values by text key, each with an expiry instant.
pub struct TimedCache<V> {
    entries: Vec<Entry<V>>,
    origin: Instant,
}

/// The value read under `key` at the instant `now`: the stored one
/// while `now` is before its expiry.
pub open spec fn live_value<V>(m: Map<Seq<char>, CacheSlot<V>>, key: Seq<char>, now: u128) -> Option<
    V,
> {
    if m.contains_key(key) && now < m[key].expires {
        Some(m[key].value)
    } else {
        None
    }
}

/// `read` is what a reader gets of `stored`: a copy of the value, or
/// nothing where there is none.
pub open spec fn read_as<V: Clone>(stored: Option<V>, read: Option<V>) -> bool {
    match stored {
        Some(v) => read matches Some(c) && cloned(v, c),
        None => read is None,
    }
}

/// The expiry instant of an entry written at `now` to live `ttl_secs` seconds.
pub open spec fn expiry(now: u128, ttl_secs: u64) -> u128 {
    if now + ttl_secs * NANOS_PER_SEC > u128::MAX {
        u128::MAX
    } else {
        (now + ttl_secs * NANOS_PER_SEC) as u128
    }
}

impl<V> View for TimedCache<V> {
    type V = Map<Seq<char>, CacheSlot<V>>;

    closed spec fn view(&self) -> Map<Seq<char>, CacheSlot<V>> {
        Map::new(
            |k: Seq<char>| exists|i: int| 0 <= i < self.entries@.len() && self.entries@[i].key@ == k,
            |k: Seq<char>|
                {
                    let i = choose|i: int| 0 <= i < self.entries@.len() && self.entries@[i].key@ == k;
                    CacheSlot { value: self.entries@[i].value, expires: self.entries@[i].expires }
                },
        )
    }
}

impl<V> TimedCache<V> {
    /// No key is held twice.
    pub closed spec fn wf(&self) -> bool {
        forall|i: int, j: int|
            0 <= i < j < self.entries@.len() ==> self.entries@[i].key@ != self.entries@[j].key@
    }

    proof fn lemma_entry(&self, i: int)
        requires
            self.wf(),
            0 <= i < self.entries@.len(),
        ensures
            self@.contains_key(self.entries@[i].key@),
            self@[self.entries@[i].key@] == (CacheSlot {
                value: self.entries@[i].value,
                expires: self.entries@[i].expires,
            }),
    {
        let k = self.entries@[i].key@;
        let j = choose|j: int| 0 <= j < self.entries@.len() && self.entries@[j].key@ == k;
        assert(j == i);
    }

    /// An empty cache, whose clock starts now.
    pub fn new() -> (c: Self)
        ensures
            c.wf(),
            c@ == Map::<Seq<char>, CacheSlot<V>>::empty(),
    {
        let c = TimedCache { entries: Vec::new(), origin: clock_start() };
        assert(c@ =~= Map::<Seq<char>, CacheSlot<V>>::empty());
        c
    }

    /// Does the cache hold no entry, live or expired?
    pub fn is_empty(&self) -> (b: bool)
        requires
            self.wf(),
        ensures
            b == (self@ == Map::<Seq<char>, CacheSlot<V>>::empty()),
    {
        if self.entries.len() == 0 {
            assert(self@ =~= Map::<Seq<char>, CacheSlot<V>>::empty());
            true
        } else {
            proof {
                self.lemma_entry(0);
            }
            false
        }
    }

    /// The instant of the call, in nanoseconds on this cache's clock.
    pub fn now(&self) -> (nanos: u128) {
        clock_read(&self.origin)
    }

    fn position(&self, key: &String) -> (r: Option<usize>)
        requires
            self.wf(),
        ensures
            match r {
                Some(i) => i < self.entries@.len() && self.entries@[i as int].key@ == key@,
                None => !self@.contains_key(key@),
            },
    {
        let mut i: usize = 0;
        while i < self.entries.len()
            invariant
                i <= self.entries@.len(),
                forall|j: int| 0 <= j < i ==> self.entries@[j].key@ != key@,
            decreases self.entries@.len() - i,
        {
            if self.entries[i].key == *key {
                return Some(i);
            }
            i += 1;
        }
        None
    }

    /// Writes `value` under `key` at the instant `now`, to be read for
    /// `ttl_secs` seconds; an earlier entry of the key is replaced.
    pub fn set_at(&mut self, key: &str, value: V, ttl_secs: u64, now: u128)
        requires
            old(self).wf(),
        ensures
            final(self).wf(),
            final(self)@ == old(self)@.insert(
                key@,
                CacheSlot { value, expires: expiry(now, ttl_secs) },
            ),
    {
        let span: u128 = (ttl_secs as u128) * NANOS_PER_SEC;
        let expires: u128 = if now > u128::MAX - span {
            u128::MAX
        } else {
            now + span
        };
        let owned = key.to_owned();
        let ghost before = *self;
        let found = self.position(&owned);
        match found {
            Some(i) => {
                self.entries.set(i, Entry { key: owned, value, expires });
            },
            None => {
                self.entries.push(Entry { key: owned, value, expires });
            },
        }
        proof {
            let slot = CacheSlot { value, expires };
            assert(self.wf()) by {
                assert forall|a: int, b: int| 0 <= a < b < self.entries@.len() implies self.entries@[a].key@
                    != self.entries@[b].key@ by {
                    if found is None {
                        if b == before.entries@.len() {
                            if self.entries@[a].key@ == key@ {
                                before.lemma_entry(a);
                            }
                        }
                    }
                }
            }
            assert forall|k: Seq<char>| #[trigger]
                self@.contains_key(k) <==> before@.insert(key@, slot).contains_key(k) by {
                if self@.contains_key(k) {
                    let i = choose|i: int| 0 <= i < self.entries@.len() && self.entries@[i].key@ == k;
                    if k != key@ {
                        assert(before.entries@[i].key@ == k);
                    }
                }
                if before@.insert(key@, slot).contains_key(k) {
                    if k == key@ {
                        match found {
                            Some(i) => {
                                assert(self.entries@[i as int].key@ == k);
                            },
                            None => {
                                assert(self.entries@[before.entries@.len() as int].key@ == k);
                            },
                        }
                    } else {
                        let i = choose|i: int|
                            0 <= i < before.entries@.len() && before.entries@[i].key@ == k;
                        assert(self.entries@[i].key@ == k);
                    }
                }
            }
            assert forall|k: Seq<char>| #[trigger] self@.contains_key(k) implies self@[k]
                == before@.insert(key@, slot)[k] by {
                let i = choose|i: int| 0 <= i < self.entries@.len() && self.entries@[i].key@ == k;
                self.lemma_entry(i);
                if k != key@ {
                    before.lemma_entry(i);
                }
            }
            assert(self@ =~= before@.insert(key@, slot));
        }
    }

    /// Writes `value` under `key` now, to be read for `ttl_secs`
    /// seconds: what `set_at` does at some instant.
    pub fn set(&mut self, key: &str, value: V, ttl_secs: u64)
        requires
            old(self).wf(),
        ensures
            final(self).wf(),
            exists|now: u128|
                final(self)@ == old(self)@.insert(
                    key@,
                    CacheSlot { value, expires: #[trigger] expiry(now, ttl_secs) },
                ),
    {
        let now = self.now();
        self.set_at(key, value, ttl_secs, now);
        assert(self@ == old(self)@.insert(
            key@,
            CacheSlot { value, expires: expiry(now, ttl_secs) },
        ));
    }
}

impl<V: Clone> TimedCache<V> {
    /// Reads `key` at the instant `now`: a copy of the stored value
    /// while the entry has not expired, nothing for an absent or an
    /// expired one.
    pub fn get_at(&self, key: &str, now: u128) -> (r: Option<V>)
        requires
            self.wf(),
        ensures
            read_as(live_value(self@, key@, now), r),
    {
        let owned = key.to_owned();
        match self.position(&owned) {
            Some(i) => {
                proof {
                    self.lemma_entry(i as int);
                }
                if now < self.entries[i].expires {
                    Some(self.entries[i].value.clone())
                } else {
                    None
                }
            },
            None => None,
        }
    }

    /// Reads `key` now: what `get_at` gives at some instant.
    pub fn get(&self, key: &str) -> (r: Option<V>)
        requires
            self.wf(),
        ensures
            exists|now: u128| read_as(#[trigger] live_value(self@, key@, now), r),
    {
        let now = self.now();
        let r = self.get_at(key, now);
        assert(read_as(live_value(self@, key@, now), r));
        r
    }
}

/// An entry written at `now` with a time to live of `ttl_secs` seconds
/// is read back at `later` exactly while `later` is before its expiry,
/// whatever the cache held before.
pub proof fn lemma_read_after_write<V>(
    m: Map<Seq<char>, CacheSlot<V>>,
    key: Seq<char>,
    value: V,
    ttl_secs: u64,
    now: u128,
    later: u128,
)
    ensures
        later < expiry(now, ttl_secs) ==> live_value(
            m.insert(key, CacheSlot { value, expires: expiry(now, ttl_secs) }),
            key,
            later,
        ) == Some(value),
        later >= expiry(now, ttl_secs) ==> live_value(
            m.insert(key, CacheSlot { value, expires: expiry(now, ttl_secs) }),
            key,
            later,
        ) is None,
        forall|other: Seq<char>|
            other != key ==> live_value(
                m.insert(key, CacheSlot { value, expires: expiry(now, ttl_secs) }),
                other,
                later,
            ) == live_value(m, other, later),
{
}

} // verus!
