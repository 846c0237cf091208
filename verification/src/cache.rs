//! A bounded cache of resolved profiles that evicts the least recently
//! inserted identifiers first.
use vstd::prelude::*;
use vstd::arithmetic::power::pow;
use std::collections::{HashMap, VecDeque};
use std::sync::Arc;
use crate::id::I18nId;
use crate::tag::I18nTag;
use crate::profile::I18nProfile;
use crate::resolver::{I18nResolution, tags_view};

verus! {

broadcast use vstd::std_specs::hash::group_hash_axioms;

/// Cache sizing.
#[derive(Clone)]
pub struct I18nCacheConfig {
    pub max_entries: usize,
}

impl Default for I18nCacheConfig {
    /// At most 1024 entries.
    fn default() -> (c: Self)
        ensures
            c.max_entries == 1024,
    {
        Self { max_entries: 1024 }
    }
}

/// A cached profile with its fallback chain.
pub struct I18nCacheEntry {
    profile: Arc<I18nProfile>,
    fallback_chain: Vec<I18nTag>,
}

impl I18nCacheEntry {
    pub closed spec fn profile(&self) -> I18nProfile {
        *self.profile
    }

    pub closed spec fn chain(&self) -> Seq<Seq<char>> {
        tags_view(self.fallback_chain@)
    }

    pub fn new(profile: Arc<I18nProfile>, fallback_chain: Vec<I18nTag>) -> (e: Self)
        ensures
            e.profile() == *profile,
            e.chain() == tags_view(fallback_chain@),
    {
        Self { profile, fallback_chain }
    }
}

/// A copy of a cached entry.
pub struct I18nCacheSnapshot {
    pub profile: Arc<I18nProfile>,
    pub fallback_chain: Vec<I18nTag>,
}

/// Big-endian value of a byte sequence.
pub open spec fn be_value(s: Seq<u8>) -> int
    decreases s.len(),
{
    if s.len() == 0 {
        0
    } else {
        be_value(s.drop_last()) * 256 + s.last()
    }
}

/// The key an identifier is stored under: its 16 bytes read as a big-endian number.
pub open spec fn id_key(id: I18nId) -> u128 {
    be_value(id@) as u128
}

proof fn lemma_be_bound(s: Seq<u8>)
    ensures
        0 <= be_value(s) < pow(256, s.len()),
    decreases s.len(),
{
    reveal(pow);
    if s.len() > 0 {
        lemma_be_bound(s.drop_last());
        let a = be_value(s.drop_last());
        let p = pow(256, (s.len() - 1) as nat);
        let x = s.last() as int;
        assert(pow(256, s.len()) == 256 * p);
        assert(0 <= a * 256 + x < 256 * p) by (nonlinear_arith)
            requires
                0 <= a < p,
                0 <= x < 256,
        ;
    }
}

proof fn lemma_digit_split(a: int, x: int, b: int, y: int)
    requires
        0 <= x < 256,
        0 <= y < 256,
        a * 256 + x == b * 256 + y,
    ensures
        x == y,
        a == b,
{
    assert(x == y && a == b) by (nonlinear_arith)
        requires
            0 <= x < 256,
            0 <= y < 256,
            a * 256 + x == b * 256 + y,
    ;
}

proof fn lemma_pow_256_16()
    ensures
        pow(256, 16) == 0x1_0000_0000_0000_0000_0000_0000_0000_0000,
{
    reveal_with_fuel(pow, 17);
}

/// Byte sequences of one length with the same big-endian value are equal.
pub proof fn lemma_be_injective(s: Seq<u8>, t: Seq<u8>)
    requires
        s.len() == t.len(),
        be_value(s) == be_value(t),
    ensures
        s == t,
    decreases s.len(),
{
    if s.len() > 0 {
        lemma_digit_split(
            be_value(s.drop_last()),
            s.last() as int,
            be_value(t.drop_last()),
            t.last() as int,
        );
        lemma_be_injective(s.drop_last(), t.drop_last());
        assert(s =~= s.drop_last().push(s.last()));
        assert(t =~= t.drop_last().push(t.last()));
    } else {
        assert(s =~= t);
    }
}

/// The cache never confuses two identifiers: they share a key only when
/// they are equal.
pub proof fn law_id_keys_are_distinct(a: I18nId, b: I18nId)
    requires
        a@.len() == 16,
        b@.len() == 16,
        id_key(a) == id_key(b),
    ensures
        a@ == b@,
{
    lemma_be_bound(a@);
    lemma_be_bound(b@);
    lemma_pow_256_16();
    lemma_be_injective(a@, b@);
}

fn key_of(id: &I18nId) -> (k: u128)
    ensures
        k == id_key(*id),
        k as int == be_value(id@),
{
    let bytes = id.bytes();
    let mut key: u128 = 0;
    let mut i: usize = 0;
    proof {
        lemma_pow_256_16();
        assert(bytes@.take(0) =~= Seq::<u8>::empty());
    }
    while i < 16
        invariant
            i <= 16,
            bytes@.len() == 16,
            bytes@ == id@,
            key as int == be_value(bytes@.take(i as int)),
            pow(256, 16) == 0x1_0000_0000_0000_0000_0000_0000_0000_0000,
        decreases 16 - i,
    {
        proof {
            assert(bytes@.take(i + 1).drop_last() =~= bytes@.take(i as int));
            lemma_be_bound(bytes@.take(i + 1));
            vstd::arithmetic::power::lemma_pow_increases(256, (i + 1) as nat, 16);
        }
        key = key * 256 + bytes[i] as u128;
        i = i + 1;
    }
    assert(bytes@.take(16) =~= bytes@);
    key
}

/// Bounded profile cache. Every insertion stamps its key; when the cache
/// is over capacity, keys are evicted in stamp order, oldest first.
pub struct I18nCache {
    entries: HashMap<u128, I18nCacheEntry>,
    order: VecDeque<(u128, u64)>,
    recent: HashMap<u128, u64>,
    next_touch: u64,
    config: I18nCacheConfig,
}

impl I18nCache {
    /// The internal consistency the operations keep: every cached key has a
    /// current stamp, and that stamp is queued for eviction.
    pub closed spec fn wf(&self) -> bool {
        &&& self.config.max_entries >= 1
        &&& self.entries@.dom() == self.recent@.dom()
        &&& forall|k: u128|
            #[trigger] self.entries@.dom().contains(k) ==> self.order@.contains((k, self.recent@[k]))
    }

    /// No stamp has wrapped around: queued stamps are strictly increasing
    /// and none exceeds the last one handed out.
    pub closed spec fn fresh(&self) -> bool {
        &&& forall|i: int, j: int|
            0 <= i < j < self.order@.len() ==> #[trigger] self.order@[i].1 < #[trigger] self.order@[j].1
        &&& forall|i: int| 0 <= i < self.order@.len() ==> #[trigger] self.order@[i].1 <= self.next_touch
    }

    /// The cached entries by key.
    pub closed spec fn contents(&self) -> Map<u128, I18nCacheEntry> {
        self.entries@
    }

    /// The current stamp of each cached key.
    pub closed spec fn stamps(&self) -> Map<u128, u64> {
        self.recent@
    }

    /// The last stamp handed out.
    pub closed spec fn last_stamp(&self) -> u64 {
        self.next_touch
    }

    pub closed spec fn capacity(&self) -> nat {
        self.config.max_entries as nat
    }

    /// An empty cache; a limit of 0 is raised to 1.
    pub fn new(config: I18nCacheConfig) -> (c: Self)
        ensures
            c.wf(),
            c.fresh(),
            c.contents().is_empty(),
            c.last_stamp() == 0,
            c.capacity() == if config.max_entries == 0 { 1 } else { config.max_entries as nat },
    {
        let max_entries = if config.max_entries == 0 {
            1
        } else {
            config.max_entries
        };
        let c = Self {
            entries: HashMap::new(),
            order: VecDeque::new(),
            recent: HashMap::new(),
            next_touch: 0,
            config: I18nCacheConfig { max_entries },
        };
        assert(c.entries@.dom() =~= c.recent@.dom());
        c
    }

    fn touch(&mut self, key: u128)
        requires
            old(self).entries@.dom() == old(self).recent@.dom().insert(key),
            old(self).config.max_entries >= 1,
            forall|k: u128|
                #[trigger] old(self).recent@.dom().contains(k) ==> old(self).order@.contains(
                    (k, old(self).recent@[k]),
                ),
        ensures
            final(self).wf(),
            final(self).entries@ == old(self).entries@,
            final(self).config == old(self).config,
            final(self).next_touch == (if old(self).next_touch == u64::MAX {
                0
            } else {
                (old(self).next_touch + 1) as u64
            }),
            final(self).recent@ == old(self).recent@.insert(key, final(self).next_touch),
            final(self).order@ == old(self).order@.push((key, final(self).next_touch)),
            old(self).fresh() && old(self).next_touch < u64::MAX ==> final(self).fresh(),
    {
        self.next_touch = self.next_touch.wrapping_add(1);
        let stamp = self.next_touch;
        self.recent.insert(key, stamp);
        self.order.push_back((key, stamp));
        proof {
            assert(self.entries@.dom() =~= self.recent@.dom());
            assert forall|k: u128| #[trigger] self.entries@.dom().contains(k) implies self.order@.contains(
                (k, self.recent@[k]),
            ) by {
                if k == key {
                    assert(self.order@[self.order@.len() - 1] == (key, stamp));
                } else {
                    let w = choose|w: int|
                        0 <= w < old(self).order@.len() && old(self).order@[w] == (
                            k,
                            old(self).recent@[k],
                        );
                    assert(self.order@[w] == (k, self.recent@[k]));
                }
            }
        }
    }

    /// What storing `entry` under `key` made of `before`: the capacity is
    /// kept; the entries are those of `before` with `entry` under `key`,
    /// less those evicted to come down to the capacity. While no stamp has
    /// wrapped, `key` gets the next stamp and stays, the kept keys keep their
    /// stamps, and every evicted key has an older stamp than every kept one.
    pub open spec fn inserted(self, before: Self, key: u128, entry: I18nCacheEntry) -> bool {
        let grown = before.contents().insert(key, entry);
        &&& self.capacity() == before.capacity()
        &&& self.contents().len() == if grown.len() <= before.capacity() {
            grown.len()
        } else {
            before.capacity()
        }
        &&& forall|k: u128| #[trigger]
            self.contents().contains_key(k) ==> grown.contains_key(k) && self.contents()[k] == grown[k]
        &&& before.fresh() && before.last_stamp() < u64::MAX ==> {
            let stamped = before.stamps().insert(key, self.last_stamp());
            &&& self.fresh()
            &&& self.last_stamp() == before.last_stamp() + 1
            &&& self.contents().contains_key(key)
            &&& self.contents()[key] == entry
            &&& forall|k: u128| #[trigger] self.contents().contains_key(k) ==> self.stamps()[k] == stamped[k]
            &&& forall|gone: u128, kept: u128|
                #![trigger grown.contains_key(gone), self.contents().contains_key(kept)]
                grown.contains_key(gone) && !self.contents().contains_key(gone) && self.contents().contains_key(kept)
                    ==> stamped[gone] < stamped[kept]
        }
    }

    /// Stores `entry` under `id` and evicts, oldest stamp first, until the
    /// cache is within its limit.
    pub fn insert(&mut self, id: I18nId, entry: I18nCacheEntry)
        requires
            old(self).wf(),
        ensures
            final(self).wf(),
            final(self).inserted(*old(self), id_key(id), entry),
    {
        let key = key_of(&id);
        self.entries.insert(key, entry);
        proof {
            assert(self.entries@.dom() =~= old(self).recent@.dom().insert(key));
        }
        self.touch(key);
        let ghost mid = *self;
        self.evict_if_needed();
        proof {
            let grown = old(self).contents().insert(key, entry);
            assert(mid.entries@ == grown);
            assert(grown.dom().finite());
            assert(grown.contains_key(key));
            assert(grown.len() >= 1) by {
                vstd::set_lib::lemma_set_empty_equivalency_len(grown.dom());
            }
            if old(self).fresh() && old(self).next_touch < u64::MAX {
                assert(mid.fresh());
                if !self.entries@.contains_key(key) {
                    assert(self.entries@.len() > 0);
                    let some = self.entries@.dom().choose();
                    vstd::set_lib::lemma_set_empty_equivalency_len(self.entries@.dom());
                    assert(self.entries@.dom().contains(some));
                    assert(mid.order@.contains((some, mid.recent@[some])));
                    let w = choose|w: int| 0 <= w < mid.order@.len() && mid.order@[w] == (some, mid.recent@[some]);
                    assert(mid.order@[w].1 <= mid.next_touch);
                    assert(mid.recent@[key] < mid.recent@[some]);
                    assert(false);
                }
            }
        }
    }

    fn evict_if_needed(&mut self)
        requires
            old(self).wf(),
        ensures
            final(self).wf(),
            final(self).config == old(self).config,
            final(self).next_touch == old(self).next_touch,
            final(self).entries@.len() == if old(self).entries@.len()
                <= old(self).config.max_entries {
                old(self).entries@.len()
            } else {
                old(self).config.max_entries as nat
            },
            forall|k: u128| #[trigger]
                final(self).entries@.contains_key(k) ==> old(self).entries@.contains_key(k)
                    && final(self).entries@[k] == old(self).entries@[k] && final(self).recent@[k]
                    == old(self).recent@[k],
            old(self).fresh() ==> final(self).fresh(),
            old(self).fresh() ==> forall|gone: u128, kept: u128|
                #![trigger old(self).entries@.contains_key(gone), final(self).entries@.contains_key(kept)]
                old(self).entries@.contains_key(gone) && !final(self).entries@.contains_key(gone)
                    && final(self).entries@.contains_key(kept) ==> old(self).recent@[gone]
                    < old(self).recent@[kept],
    {
        let ghost start = *self;
        while self.entries.len() > self.config.max_entries
            invariant
                self.wf(),
                self.config == start.config,
                self.next_touch == start.next_touch,
                self.entries@.len() >= start.config.max_entries || self.entries@ == start.entries@,
                self.entries@.len() <= start.entries@.len(),
                forall|k: u128| #[trigger]
                    self.entries@.contains_key(k) ==> start.entries@.contains_key(k)
                        && self.entries@[k] == start.entries@[k] && self.recent@[k]
                        == start.recent@[k],
                start.fresh() ==> self.fresh(),
                start.fresh() ==> forall|gone: u128, kept: u128|
                    #![trigger start.entries@.contains_key(gone), self.entries@.contains_key(kept)]
                    start.entries@.contains_key(gone) && !self.entries@.contains_key(gone)
                        && self.entries@.contains_key(kept) ==> start.recent@[gone]
                        < start.recent@[kept],
            decreases self.order@.len(),
        {
            proof {
                let some = self.entries@.dom().choose();
                assert(self.entries@.dom().contains(some));
                assert(self.order@.contains((some, self.recent@[some])));
            }
            let ghost before = *self;
            if let Some((evicted, seen_at)) = self.order.pop_front() {
                let is_current = match self.recent.get(&evicted) {
                    Some(current) => *current == seen_at,
                    None => false,
                };
                if is_current {
                    self.entries.remove(&evicted);
                    self.recent.remove(&evicted);
                }
                proof {
                    assert(self.entries@.dom() =~= self.recent@.dom());
                    assert forall|k: u128| #[trigger] self.entries@.dom().contains(k) implies self.order@.contains(
                        (k, self.recent@[k]),
                    ) by {
                        let w = choose|w: int|
                            0 <= w < before.order@.len() && before.order@[w] == (
                                k,
                                before.recent@[k],
                            );
                        if w == 0 {
                            assert(is_current);
                        } else {
                            assert(self.order@[w - 1] == (k, self.recent@[k]));
                        }
                    }
                    if start.fresh() {
                        assert forall|gone: u128, kept: u128|
                            #![trigger start.entries@.contains_key(gone), self.entries@.contains_key(kept)]
                            start.entries@.contains_key(gone) && !self.entries@.contains_key(gone)
                                && self.entries@.contains_key(kept) implies start.recent@[gone]
                                < start.recent@[kept] by {
                            if before.entries@.contains_key(gone) {
                                assert(gone == evicted);
                                let w = choose|w: int|
                                    0 <= w < before.order@.len() && before.order@[w] == (
                                        kept,
                                        before.recent@[kept],
                                    );
                                if w == 0 {
                                    assert(kept == evicted);
                                } else {
                                    assert(before.order@[0].1 < before.order@[w].1);
                                }
                            }
                        }
                    }
                }
            }
        }
    }

    /// The cached profile of `id`.
    pub fn get(&self, id: &I18nId) -> (r: Option<Arc<I18nProfile>>)
        requires
            self.wf(),
        ensures
            match r {
                Some(p) => self.contents().contains_key(id_key(*id)) && *p == self.contents()[id_key(
                    *id,
                )].profile(),
                None => !self.contents().contains_key(id_key(*id)),
            },
    {
        let key = key_of(id);
        match self.entries.get(&key) {
            Some(entry) => Some(entry.profile.clone()),
            None => None,
        }
    }

    /// A copy of the cached profile and fallback chain of `id`.
    pub fn get_snapshot(&self, id: &I18nId) -> (r: Option<I18nCacheSnapshot>)
        requires
            self.wf(),
        ensures
            match r {
                Some(s) => self.contents().contains_key(id_key(*id)) && *s.profile
                    == self.contents()[id_key(*id)].profile() && tags_view(s.fallback_chain@)
                    == self.contents()[id_key(*id)].chain(),
                None => !self.contents().contains_key(id_key(*id)),
            },
    {
        let key = key_of(id);
        let entry = match self.entries.get(&key) {
            Some(entry) => entry,
            None => return None,
        };
        Some(
            I18nCacheSnapshot {
                profile: entry.profile.clone(),
                fallback_chain: copy_chain(&entry.fallback_chain),
            },
        )
    }

    /// Stores a profile under the identifier recomputed from its fields and
    /// returns that identifier.
    pub fn insert_profile(&mut self, profile: I18nProfile, fallback_chain: Vec<I18nTag>) -> (id:
        I18nId)
        requires
            old(self).wf(),
        ensures
            final(self).wf(),
            id@ == crate::id::profile_id_bytes(profile.model()),
            exists|e: I18nCacheEntry|
                #![trigger final(self).inserted(*old(self), id_key(id), e)]
                e.profile().model() == profile.model() && e.profile().id == id && e.chain() == tags_view(
                    fallback_chain@,
                ) && final(self).inserted(*old(self), id_key(id), e),
            old(self).fresh() && old(self).last_stamp() < u64::MAX ==> {
                &&& final(self).contents().contains_key(id_key(id))
                &&& final(self).contents()[id_key(id)].profile().model() == profile.model()
                &&& final(self).contents()[id_key(id)].profile().id == id
                &&& final(self).contents()[id_key(id)].chain() == tags_view(fallback_chain@)
            },
    {
        let mut stored = profile;
        let id = I18nId::from_profile(&stored);
        stored.id = id;
        let entry = I18nCacheEntry::new(Arc::new(stored), fallback_chain);
        let ghost e = entry;
        self.insert(id, entry);
        assert(self.inserted(*old(self), id_key(id), e));
        id
    }

    /// Stores a resolution's profile and fallback chain under its identifier.
    pub fn cache_resolution(&mut self, resolution: &I18nResolution)
        requires
            old(self).wf(),
        ensures
            final(self).wf(),
            exists|e: I18nCacheEntry|
                #![trigger final(self).inserted(*old(self), id_key(resolution.id), e)]
                e.profile() == resolution.profile && e.chain() == tags_view(resolution.fallback_chain@)
                    && final(self).inserted(*old(self), id_key(resolution.id), e),
            old(self).fresh() && old(self).last_stamp() < u64::MAX ==> {
                &&& final(self).contents().contains_key(id_key(resolution.id))
                &&& final(self).contents()[id_key(resolution.id)].profile() == resolution.profile
                &&& final(self).contents()[id_key(resolution.id)].chain() == tags_view(
                    resolution.fallback_chain@,
                )
            },
    {
        let entry = I18nCacheEntry::new(
            Arc::new(resolution.profile.duplicate()),
            copy_chain(&resolution.fallback_chain),
        );
        let ghost e = entry;
        self.insert(resolution.id, entry);
        assert(self.inserted(*old(self), id_key(resolution.id), e));
    }
}

/// A copy of a chain of tags.
pub fn copy_chain(chain: &Vec<I18nTag>) -> (c: Vec<I18nTag>)
    ensures
        tags_view(c@) == tags_view(chain@),
{
    let mut c: Vec<I18nTag> = Vec::new();
    let mut i: usize = 0;
    while i < chain.len()
        invariant
            i <= chain.len(),
            tags_view(c@) == tags_view(chain@).take(i as int),
        decreases chain.len() - i,
    {
        let ghost before = tags_view(c@);
        c.push(chain[i].duplicate());
        assert(tags_view(c@) =~= before.push(chain@[i as int]@));
        i = i + 1;
        assert(tags_view(chain@).take(i as int) =~= tags_view(chain@).take(i - 1).push(
            chain@[i - 1]@,
        ));
    }
    assert(tags_view(chain@).take(chain.len() as int) =~= tags_view(chain@));
    c
}

} // verus!
