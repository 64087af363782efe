//! The duplicate filter: the identifiers of the transactions seen during the
//! last `ttl` nanoseconds, each with the origin of its transaction.

use vstd::prelude::*;
use std::collections::VecDeque;
use crate::clock::Clock;
use crate::peer::PeerId;
use crate::types::TransactionId;

verus! {

/// One remembered identifier.
struct ExpiringValues {
    value: TransactionId,
    origin: PeerId,
    expiration: u128,
}

pub struct CacheEntry {
    /// The identifier.
    pub value: Seq<u8>,
    /// The origin of the transaction that the identifier stands for.
    pub origin: Seq<u8>,
    /// The time from which on the entry may be forgotten.
    pub expiration: nat,
}

/// Whether some entry holds `value`.
pub open spec fn spec_contains(entries: Seq<CacheEntry>, value: Seq<u8>) -> bool {
    exists|i: int| 0 <= i < entries.len() && (#[trigger] entries[i]).value == value
}

/// Whether no two entries hold the same identifier.
pub open spec fn spec_distinct(entries: Seq<CacheEntry>) -> bool {
    forall|i: int, j: int|
        0 <= i < j < entries.len() ==> (#[trigger] entries[i]).value != (#[trigger] entries[j]).value
}

/// What is left at `now`: the entries from the first one on that has not
/// expired. Entries are kept in the order of their insertion, and only the
/// front of the list is looked at.
pub open spec fn spec_unexpired(entries: Seq<CacheEntry>, now: u64) -> Seq<CacheEntry>
    decreases entries.len(),
{
    if entries.len() == 0 || entries[0].expiration > now {
        entries
    } else {
        spec_unexpired(entries.skip(1), now)
    }
}

/// The cache after `value` was offered at `now`, and whether it was new:
/// expired entries go first; then, where no entry holds `value`, one is
/// added at the back that expires `ttl` after `now`.
pub open spec fn spec_insert(
    entries: Seq<CacheEntry>,
    value: Seq<u8>,
    origin: Seq<u8>,
    now: u64,
    ttl: u64,
) -> (Seq<CacheEntry>, bool) {
    let live = spec_unexpired(entries, now);
    if spec_contains(live, value) {
        (live, false)
    } else {
        (live.push(CacheEntry { value, origin, expiration: (now + ttl) as nat }), true)
    }
}

/// The origin that is remembered for `value`: that of the first entry which
/// holds it.
pub open spec fn spec_origin_of(entries: Seq<CacheEntry>, value: Seq<u8>) -> Option<Seq<u8>>
    decreases entries.len(),
{
    if entries.len() == 0 {
        None
    } else if entries[0].value == value {
        Some(entries[0].origin)
    } else {
        spec_origin_of(entries.skip(1), value)
    }
}

/// What is left at `now` is a suffix of the list.
pub proof fn lemma_unexpired_is_suffix(entries: Seq<CacheEntry>, now: u64)
    ensures
        spec_unexpired(entries, now).len() <= entries.len(),
        spec_unexpired(entries, now) == entries.skip(
            entries.len() - spec_unexpired(entries, now).len(),
        ),
        spec_unexpired(entries, now).len() > 0 ==> spec_unexpired(entries, now)[0].expiration > now,
    decreases entries.len(),
{
    if entries.len() == 0 || entries[0].expiration > now {
        assert(entries.skip(0) =~= entries);
    } else {
        lemma_unexpired_is_suffix(entries.skip(1), now);
        let rest = spec_unexpired(entries.skip(1), now);
        assert(entries.skip(1).skip(entries.len() - 1 - rest.len()) =~= entries.skip(
            entries.len() - rest.len(),
        ));
    }
}

/// An entry that has not expired at `now` is still there at `now`.
pub proof fn lemma_unexpired_keeps(entries: Seq<CacheEntry>, now: u64, i: int)
    requires
        0 <= i < entries.len(),
        entries[i].expiration > now,
    ensures
        spec_contains(spec_unexpired(entries, now), entries[i].value),
    decreases entries.len(),
{
    if entries[0].expiration > now {
    } else {
        lemma_unexpired_keeps(entries.skip(1), now, i - 1);
    }
}

/// Expiry keeps the identifiers distinct.
pub proof fn lemma_unexpired_distinct(entries: Seq<CacheEntry>, now: u64)
    requires
        spec_distinct(entries),
    ensures
        spec_distinct(spec_unexpired(entries, now)),
{
    lemma_unexpired_is_suffix(entries, now);
}

/// No false negative while an entry lasts: an identifier whose entry has not
/// expired at `now` is still held after whatever is offered at `now`.
pub proof fn lemma_insert_keeps_unexpired(
    entries: Seq<CacheEntry>,
    i: int,
    value: Seq<u8>,
    origin: Seq<u8>,
    now: u64,
    ttl: u64,
)
    requires
        0 <= i < entries.len(),
        entries[i].expiration > now,
    ensures
        spec_contains(spec_insert(entries, value, origin, now, ttl).0, entries[i].value),
{
    lemma_unexpired_keeps(entries, now, i);
    let live = spec_unexpired(entries, now);
    let k = choose|k: int| 0 <= k < live.len() && (#[trigger] live[k]).value == entries[i].value;
    let after = spec_insert(entries, value, origin, now, ttl).0;
    assert(after[k].value == entries[i].value);
}

/// The law of the filter: an identifier that was new at `first` and is
/// offered again at `second`, less than `ttl` later, is not new then.
pub proof fn lemma_no_false_negative_within_ttl(
    entries: Seq<CacheEntry>,
    value: Seq<u8>,
    origin: Seq<u8>,
    other: Seq<u8>,
    first: u64,
    second: u64,
    ttl: u64,
)
    requires
        first <= second < first + ttl,
        spec_insert(entries, value, origin, first, ttl).1,
    ensures
        !spec_insert(spec_insert(entries, value, origin, first, ttl).0, value, other, second, ttl).1,
{
    let after = spec_insert(entries, value, origin, first, ttl).0;
    let last = after.len() - 1;
    assert(after[last].value == value);
    lemma_unexpired_keeps(after, second, last);
}

/// The duplicate filter.
pub struct DuplicateCache {
    /// The entries in the order of their insertion.
    list: VecDeque<ExpiringValues>,
    /// How long an entry is kept, in nanoseconds.
    ttl: u64,
    /// The clock that is read where no time is given.
    clock: Clock,
}

impl View for DuplicateCache {
    type V = Seq<CacheEntry>;

    closed spec fn view(&self) -> Seq<CacheEntry> {
        Seq::new(
            self.list@.len(),
            |i: int|
                CacheEntry {
                    value: self.list@[i].value@,
                    origin: self.list@[i].origin@,
                    expiration: self.list@[i].expiration as nat,
                },
        )
    }
}

impl DuplicateCache {
    /// How long an entry is kept, in nanoseconds.
    pub closed spec fn ttl(&self) -> u64 {
        self.ttl
    }

    /// No identifier is held twice.
    pub open spec fn wf(&self) -> bool {
        spec_distinct(self@)
    }

    /// An empty cache that keeps its entries for `ttl` nanoseconds.
    pub fn new(ttl: u64) -> (r: Self)
        ensures
            r@ == Seq::<CacheEntry>::empty(),
            r.ttl() == ttl,
            r.wf(),
    {
        let r = DuplicateCache { list: VecDeque::new(), ttl, clock: Clock::new() };
        assert(r@ =~= Seq::<CacheEntry>::empty());
        r
    }

    /// Forgets the entries that have expired at `now`.
    pub fn remove_expired_values(&mut self, now: u64)
        ensures
            final(self)@ == spec_unexpired(old(self)@, now),
            final(self).ttl() == old(self).ttl(),
            old(self).wf() ==> final(self).wf(),
    {
        proof {
            lemma_unexpired_is_suffix(old(self)@, now);
        }
        loop
            invariant
                self.ttl == old(self).ttl,
                spec_unexpired(self@, now) == spec_unexpired(old(self)@, now),
                self@.len() <= old(self)@.len(),
                self@ == old(self)@.skip(old(self)@.len() - self@.len()),
            ensures
                self@ == spec_unexpired(old(self)@, now),
                self.ttl == old(self).ttl,
                self@ == old(self)@.skip(old(self)@.len() - self@.len()),
            decreases self@.len(),
        {
            if self.list.len() == 0 {
                break ;
            }
            if self.list[0].expiration > now as u128 {
                break ;
            }
            let ghost before = self@;
            let _ = self.list.pop_front();
            assert(self@ =~= before.skip(1));
            assert(before.skip(1) =~= old(self)@.skip(old(self)@.len() - self@.len()));
        }
    }

    /// Whether the cache holds `value`.
    pub fn contains(&self, value: &TransactionId) -> (r: bool)
        ensures
            r == spec_contains(self@, value@),
    {
        let mut i: usize = 0;
        while i < self.list.len()
            invariant
                i <= self.list@.len(),
                forall|k: int| 0 <= k < i ==> (#[trigger] self@[k]).value != value@,
            decreases self.list@.len() - i,
        {
            if self.list[i].value.same(value) {
                assert(self@[i as int].value == value@);
                return true;
            }
            i += 1;
        }
        false
    }

    /// The origin that is remembered for `value`, if the cache holds it.
    pub fn origin_of(&self, value: &TransactionId) -> (r: Option<PeerId>)
        ensures
            match r {
                Some(origin) => spec_origin_of(self@, value@) == Some(origin@),
                None => spec_origin_of(self@, value@) is None,
            },
            r is Some <==> spec_contains(self@, value@),
    {
        let mut i: usize = 0;
        assert(self@.skip(0) =~= self@);
        while i < self.list.len()
            invariant
                i <= self.list@.len(),
                spec_origin_of(self@, value@) == spec_origin_of(self@.skip(i as int), value@),
                forall|k: int| 0 <= k < i ==> (#[trigger] self@[k]).value != value@,
            decreases self.list@.len() - i,
        {
            assert(self@.skip(i as int)[0] == self@[i as int]);
            assert(self@.skip(i as int).skip(1) =~= self@.skip(i + 1));
            if self.list[i].value.same(value) {
                return Some(self.list[i].origin.clone());
            }
            i += 1;
        }
        None
    }

    /// Offers `value` at the time `now`: forgets what has expired, then
    /// remembers `value` with `origin` unless it is remembered already.
    /// Returns whether `value` was new.
    pub fn insert_at(&mut self, value: TransactionId, origin: PeerId, now: u64) -> (r: bool)
        ensures
            (final(self)@, r) == spec_insert(old(self)@, value@, origin@, now, old(self).ttl()),
            final(self).ttl() == old(self).ttl(),
            spec_contains(final(self)@, value@),
            old(self).wf() ==> final(self).wf(),
    {
        self.remove_expired_values(now);
        proof {
            if old(self).wf() {
                lemma_unexpired_distinct(old(self)@, now);
            }
        }
        if self.contains(&value) {
            false
        } else {
            let ghost before = self@;
            let expiration: u128 = now as u128 + self.ttl as u128;
            self.list.push_back(ExpiringValues { value, origin, expiration });
            assert(self@ =~= before.push(
                CacheEntry { value: value@, origin: origin@, expiration: (now + self.ttl) as nat },
            ));
            assert(self@[self@.len() - 1].value == value@);
            true
        }
    }

    /// Offers `value` at the time that the cache's own clock shows. Whatever
    /// that time is, `value` is held afterwards.
    pub fn insert(&mut self, value: TransactionId, origin: PeerId) -> (r: bool)
        ensures
            spec_contains(final(self)@, value@),
            final(self).ttl() == old(self).ttl(),
            old(self).wf() ==> final(self).wf(),
            exists|now: u64|
                (final(self)@, r) == spec_insert(old(self)@, value@, origin@, now, old(self).ttl()),
    {
        let now = self.clock.now();
        self.insert_at(value, origin, now)
    }

    /// The number of entries.
    pub fn len(&self) -> (r: usize)
        ensures
            r == self@.len(),
    {
        self.list.len()
    }
}

} // verus!
