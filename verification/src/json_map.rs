//! Ordered maps keyed by text, iterated in ascending key order (the order
//! of a `BTreeMap<String, _>`: byte order of UTF-8, which is the order of
//! the characters' code points).
use vstd::prelude::*;
use crate::text::chars_of;

verus! {

/// Lexicographic order of character sequences by code point.
pub open spec fn lex_lt(a: Seq<char>, b: Seq<char>) -> bool
    decreases a.len(),
{
    if a.len() == 0 {
        b.len() > 0
    } else if b.len() == 0 {
        false
    } else if a[0] != b[0] {
        (a[0] as u32) < (b[0] as u32)
    } else {
        lex_lt(a.drop_first(), b.drop_first())
    }
}

pub proof fn lemma_lex_irreflexive(a: Seq<char>)
    ensures
        !lex_lt(a, a),
    decreases a.len(),
{
    if a.len() > 0 {
        lemma_lex_irreflexive(a.drop_first());
    }
}

pub proof fn lemma_lex_transitive(a: Seq<char>, b: Seq<char>, c: Seq<char>)
    requires
        lex_lt(a, b),
        lex_lt(b, c),
    ensures
        lex_lt(a, c),
    decreases a.len(),
{
    if a.len() > 0 && b.len() > 0 && c.len() > 0 {
        if a[0] == b[0] && b[0] == c[0] {
            lemma_lex_transitive(a.drop_first(), b.drop_first(), c.drop_first());
        }
    }
}

pub proof fn lemma_lex_total(a: Seq<char>, b: Seq<char>)
    ensures
        lex_lt(a, b) || lex_lt(b, a) || a == b,
    decreases a.len(),
{
    if a.len() > 0 && b.len() > 0 {
        if a[0] == b[0] {
            lemma_lex_total(a.drop_first(), b.drop_first());
            if a.drop_first() == b.drop_first() {
                assert(a.drop_first().len() == b.drop_first().len());
                assert(a.len() == b.len());
                assert forall|i: int| 0 <= i < a.len() implies a[i] == b[i] by {
                    if i > 0 {
                        assert(a[i] == a.drop_first()[i - 1]);
                        assert(b[i] == b.drop_first()[i - 1]);
                    }
                }
                assert(a =~= b);
            }
        } else {
            vstd::utf8::char_u32_cast(a[0], a[0] as u32);
            vstd::utf8::char_u32_cast(b[0], b[0] as u32);
        }
    } else if a.len() == 0 && b.len() == 0 {
        assert(a =~= b);
    }
}

/// Character-wise comparison.
pub fn chars_lt(a: &Vec<char>, b: &Vec<char>) -> (r: bool)
    ensures
        r == lex_lt(a@, b@),
{
    let mut i: usize = 0;
    assert(a@.skip(0) =~= a@);
    assert(b@.skip(0) =~= b@);
    while i < a.len() && i < b.len() && a[i] == b[i]
        invariant
            i <= a.len(),
            i <= b.len(),
            lex_lt(a@, b@) == lex_lt(a@.skip(i as int), b@.skip(i as int)),
        decreases a.len() - i,
    {
        assert(a@.skip(i as int).drop_first() =~= a@.skip(i + 1));
        assert(b@.skip(i as int).drop_first() =~= b@.skip(i + 1));
        i = i + 1;
    }
    if i == a.len() {
        i < b.len()
    } else if i == b.len() {
        false
    } else {
        assert(a@.skip(i as int)[0] == a@[i as int]);
        assert(b@.skip(i as int)[0] == b@[i as int]);
        (a[i] as u32) < (b[i] as u32)
    }
}

/// Keys strictly ascending.
pub open spec fn sorted_keys<V>(pairs: Seq<(Seq<char>, V)>) -> bool {
    forall|i: int, j: int| 0 <= i < j < pairs.len() ==> lex_lt(#[trigger] pairs[i].0, #[trigger] pairs[j].0)
}

/// The value stored under `key`.
pub open spec fn lookup<V>(pairs: Seq<(Seq<char>, V)>, key: Seq<char>) -> Option<V> {
    if exists|i: int| 0 <= i < pairs.len() && #[trigger] pairs[i].0 == key {
        Some(pairs[choose|i: int| 0 <= i < pairs.len() && #[trigger] pairs[i].0 == key].1)
    } else {
        None
    }
}

pub open spec fn has_key<V>(pairs: Seq<(Seq<char>, V)>, key: Seq<char>) -> bool {
    exists|i: int| 0 <= i < pairs.len() && #[trigger] pairs[i].0 == key
}

/// In sorted pairs a key occurs at one index only.
pub proof fn lemma_sorted_unique<V>(pairs: Seq<(Seq<char>, V)>, i: int, j: int)
    requires
        sorted_keys(pairs),
        0 <= i < pairs.len(),
        0 <= j < pairs.len(),
        pairs[i].0 == pairs[j].0,
    ensures
        i == j,
{
    if i < j {
        lemma_lex_irreflexive(pairs[i].0);
    } else if j < i {
        lemma_lex_irreflexive(pairs[i].0);
    }
}

/// The value at an index is the value looked up by its key.
pub proof fn lemma_lookup_at<V>(pairs: Seq<(Seq<char>, V)>, i: int)
    requires
        sorted_keys(pairs),
        0 <= i < pairs.len(),
    ensures
        lookup(pairs, pairs[i].0) == Some(pairs[i].1),
        has_key(pairs, pairs[i].0),
{
    let k = choose|k: int| 0 <= k < pairs.len() && #[trigger] pairs[k].0 == pairs[i].0;
    lemma_sorted_unique(pairs, i, k);
}

/// A map from text keys to values, kept in ascending key order.
#[derive(Debug)]
pub struct StrMap<V> {
    entries: Vec<(String, V)>,
}

/// The translation maps: key to text.
pub type JsonMap = StrMap<String>;

/// Key views paired with the values.
pub open spec fn pairs_of<V>(entries: Seq<(String, V)>) -> Seq<(Seq<char>, V)> {
    Seq::new(entries.len(), |i: int| (entries[i].0@, entries[i].1))
}

impl<V> StrMap<V> {
    /// Entries in ascending key order.
    pub closed spec fn pairs(&self) -> Seq<(Seq<char>, V)> {
        pairs_of(self.entries@)
    }

    pub open spec fn wf(&self) -> bool {
        sorted_keys(self.pairs())
    }

    pub open spec fn spec_get(&self, key: Seq<char>) -> Option<V> {
        lookup(self.pairs(), key)
    }

    pub open spec fn spec_contains(&self, key: Seq<char>) -> bool {
        has_key(self.pairs(), key)
    }

    pub fn new() -> (m: Self)
        ensures
            m.wf(),
            m.pairs() == Seq::<(Seq<char>, V)>::empty(),
    {
        let m = StrMap { entries: Vec::new() };
        assert(m.pairs() =~= Seq::<(Seq<char>, V)>::empty());
        m
    }

    pub fn len(&self) -> (n: usize)
        ensures
            n == self.pairs().len(),
    {
        self.entries.len()
    }

    pub fn is_empty(&self) -> (b: bool)
        ensures
            b == (self.pairs().len() == 0),
    {
        self.entries.len() == 0
    }

    /// The key at position `i` in ascending order.
    pub fn key_at(&self, i: usize) -> (k: &String)
        requires
            i < self.pairs().len(),
        ensures
            k@ == self.pairs()[i as int].0,
    {
        &self.entries[i].0
    }

    /// The value at position `i` in ascending key order.
    pub fn value_at(&self, i: usize) -> (v: &V)
        requires
            i < self.pairs().len(),
        ensures
            *v == self.pairs()[i as int].1,
    {
        &self.entries[i].1
    }

    /// Position of the first key not below `key` (where `key` is or would go).
    fn position(&self, key: &Vec<char>) -> (p: usize)
        requires
            self.wf(),
        ensures
            p <= self.pairs().len(),
            forall|i: int| 0 <= i < p ==> lex_lt(#[trigger] self.pairs()[i].0, key@),
            p < self.pairs().len() ==> !lex_lt(self.pairs()[p as int].0, key@),
    {
        let mut i: usize = 0;
        while i < self.entries.len()
            invariant
                i <= self.entries.len(),
                forall|j: int| 0 <= j < i ==> lex_lt(#[trigger] self.pairs()[j].0, key@),
            decreases self.entries.len() - i,
        {
            let k = chars_of(self.entries[i].0.as_str());
            if !chars_lt(&k, key) {
                return i;
            }
            i = i + 1;
        }
        i
    }

    proof fn lemma_lookup_absent(&self, key: Seq<char>, p: int)
        requires
            self.wf(),
            0 <= p <= self.pairs().len(),
            forall|i: int| 0 <= i < p ==> lex_lt(#[trigger] self.pairs()[i].0, key),
            p < self.pairs().len() ==> self.pairs()[p].0 != key && !lex_lt(self.pairs()[p].0, key),
        ensures
            !has_key(self.pairs(), key),
            lookup(self.pairs(), key) is None,
    {
        if has_key(self.pairs(), key) {
            let k = choose|k: int| 0 <= k < self.pairs().len() && #[trigger] self.pairs()[k].0 == key;
            if k < p {
                lemma_lex_irreflexive(key);
            } else if k > p {
                lemma_lex_total(self.pairs()[p].0, key);
                assert(lex_lt(self.pairs()[p].0, self.pairs()[k].0));
            }
        }
    }

    /// Whether the keys are strictly ascending, as every map built by `new`,
    /// `insert` and `remove` keeps them.
    pub fn is_well_formed(&self) -> (r: bool)
        ensures
            r == self.wf(),
    {
        let n = self.entries.len();
        if n < 2 {
            return true;
        }
        let mut i: usize = 0;
        while i + 1 < n
            invariant
                n == self.pairs().len(),
                n >= 2,
                i + 1 <= n,
                forall|a: int, b: int| 0 <= a < b <= i ==> lex_lt(#[trigger] self.pairs()[a].0, #[trigger] self.pairs()[b].0),
            decreases n - i,
        {
            let k1 = chars_of(self.entries[i].0.as_str());
            let k2 = chars_of(self.entries[i + 1].0.as_str());
            if !chars_lt(&k1, &k2) {
                assert(!lex_lt(self.pairs()[i as int].0, self.pairs()[i + 1].0));
                return false;
            }
            proof {
                assert forall|a: int, b: int| 0 <= a < b <= i + 1 implies lex_lt(#[trigger] self.pairs()[a].0, #[trigger] self.pairs()[b].0) by {
                    if b == i + 1 && a < i {
                        lemma_lex_transitive(self.pairs()[a].0, self.pairs()[i as int].0, self.pairs()[b].0);
                    }
                }
            }
            i = i + 1;
        }
        true
    }

    /// The value stored under `key`.
    pub fn get(&self, key: &str) -> (r: Option<&V>)
        requires
            self.wf(),
        ensures
            match r {
                Some(v) => self.spec_get(key@) == Some(*v),
                None => self.spec_get(key@) is None,
            },
            r is Some == self.spec_contains(key@),
    {
        let k = chars_of(key);
        let p = self.position(&k);
        if p < self.entries.len() {
            let found = chars_of(self.entries[p].0.as_str());
            if crate::text::chars_equal(&found, &k) {
                proof {
                    lemma_lookup_at(self.pairs(), p as int);
                }
                return Some(&self.entries[p].1);
            }
        }
        proof {
            self.lemma_lookup_absent(key@, p as int);
        }
        None
    }

    pub fn contains_key(&self, key: &str) -> (b: bool)
        requires
            self.wf(),
        ensures
            b == self.spec_contains(key@),
    {
        self.get(key).is_some()
    }

    /// Stores `value` under `key`, replacing and returning a previous value.
    pub fn insert(&mut self, key: String, value: V) -> (r: Option<V>)
        requires
            old(self).wf(),
        ensures
            final(self).wf(),
            final(self).spec_get(key@) == Some(value),
            forall|k: Seq<char>| k != key@ ==> #[trigger] final(self).spec_get(k) == old(self).spec_get(k),
            forall|k: Seq<char>| #[trigger] final(self).spec_contains(k) == (old(self).spec_contains(k) || k == key@),
            r == old(self).spec_get(key@),
            final(self).pairs().len() == old(self).pairs().len() + if old(self).spec_contains(key@) { 0int } else { 1int },
    {
        let k = chars_of(key.as_str());
        let p = self.position(&k);
        let ghost old_pairs = self.pairs();
        let mut entries: Vec<(String, V)> = Vec::new();
        std::mem::swap(&mut entries, &mut self.entries);
        if p < entries.len() {
            let found = chars_of(entries[p].0.as_str());
            if crate::text::chars_equal(&found, &k) {
                let (old_key, old_value) = entries.remove(p);
                entries.insert(p, (old_key, value));
                self.entries = entries;
                proof {
                    assert(self.pairs() =~= old_pairs.update(p as int, (key@, value)));
                    lemma_lookup_at(old_pairs, p as int);
                    lemma_lookup_at(self.pairs(), p as int);
                    self.lemma_update_lookups(old_pairs, p as int, key@);
                }
                return Some(old_value);
            }
        }
        entries.insert(p, (key, value));
        self.entries = entries;
        proof {
            let ghost new_key = k@;
            assert(self.pairs() =~= old_pairs.insert(p as int, (new_key, value)));
            if p < old_pairs.len() {
                lemma_lex_total(old_pairs[p as int].0, new_key);
                assert(lex_lt(new_key, old_pairs[p as int].0));
            }
            assert forall|m: int| p <= m < old_pairs.len() implies lex_lt(new_key, #[trigger] old_pairs[m].0) by {
                if m > p {
                    lemma_lex_transitive(new_key, old_pairs[p as int].0, old_pairs[m].0);
                }
            }
            assert forall|i: int, j: int|
                0 <= i < j < self.pairs().len() implies lex_lt(
                #[trigger] self.pairs()[i].0,
                #[trigger] self.pairs()[j].0,
            ) by {
                if j == p {
                } else if i == p {
                    assert(lex_lt(new_key, old_pairs[j - 1].0));
                } else if i < p && j > p {
                    assert(lex_lt(new_key, old_pairs[j - 1].0));
                    lemma_lex_transitive(old_pairs[i].0, new_key, old_pairs[j - 1].0);
                } else if i > p {
                    assert(lex_lt(old_pairs[i - 1].0, old_pairs[j - 1].0));
                }
            }
            self.lemma_lookup_absent_old(old_pairs, new_key, p as int);
            self.lemma_insert_lookups(old_pairs, p as int, new_key);
        }
        None
    }

    proof fn lemma_lookup_absent_old(&self, old_pairs: Seq<(Seq<char>, V)>, key: Seq<char>, p: int)
        requires
            sorted_keys(old_pairs),
            0 <= p <= old_pairs.len(),
            forall|i: int| 0 <= i < p ==> lex_lt(#[trigger] old_pairs[i].0, key),
            p < old_pairs.len() ==> old_pairs[p].0 != key && !lex_lt(old_pairs[p].0, key),
        ensures
            !has_key(old_pairs, key),
            lookup(old_pairs, key) is None,
    {
        if has_key(old_pairs, key) {
            let k = choose|k: int| 0 <= k < old_pairs.len() && #[trigger] old_pairs[k].0 == key;
            if k < p {
                lemma_lex_irreflexive(key);
            } else if k > p {
                lemma_lex_total(old_pairs[p].0, key);
                assert(lex_lt(old_pairs[p].0, old_pairs[k].0));
            }
        }
    }

    proof fn lemma_update_lookups(&self, old_pairs: Seq<(Seq<char>, V)>, p: int, key: Seq<char>)
        requires
            sorted_keys(old_pairs),
            0 <= p < old_pairs.len(),
            old_pairs[p].0 == key,
            self.pairs() == old_pairs.update(p, (key, self.pairs()[p].1)),
        ensures
            forall|k: Seq<char>| k != key ==> #[trigger] lookup(self.pairs(), k) == lookup(old_pairs, k),
            forall|k: Seq<char>| #[trigger] has_key(self.pairs(), k) == has_key(old_pairs, k),
    {
        assert forall|k: Seq<char>| #[trigger] has_key(self.pairs(), k) == has_key(old_pairs, k) by {
            if has_key(old_pairs, k) {
                let w = choose|w: int| 0 <= w < old_pairs.len() && #[trigger] old_pairs[w].0 == k;
                assert(self.pairs()[w].0 == k);
            }
            if has_key(self.pairs(), k) {
                let w = choose|w: int| 0 <= w < self.pairs().len() && #[trigger] self.pairs()[w].0 == k;
                assert(old_pairs[w].0 == k);
            }
        }
        assert forall|k: Seq<char>| k != key implies #[trigger] lookup(self.pairs(), k) == lookup(
            old_pairs,
            k,
        ) by {
            if has_key(old_pairs, k) {
                let w = choose|w: int| 0 <= w < old_pairs.len() && #[trigger] old_pairs[w].0 == k;
                lemma_lookup_at(old_pairs, w);
                lemma_lookup_at(self.pairs(), w);
            }
        }
    }

    proof fn lemma_insert_lookups(&self, old_pairs: Seq<(Seq<char>, V)>, p: int, key: Seq<char>)
        requires
            sorted_keys(old_pairs),
            sorted_keys(self.pairs()),
            0 <= p <= old_pairs.len(),
            !has_key(old_pairs, key),
            self.pairs() == old_pairs.insert(p, (key, self.pairs()[p].1)),
        ensures
            lookup(self.pairs(), key) == Some(self.pairs()[p].1),
            forall|k: Seq<char>| k != key ==> #[trigger] lookup(self.pairs(), k) == lookup(old_pairs, k),
            forall|k: Seq<char>| #[trigger] has_key(self.pairs(), k) == (has_key(old_pairs, k) || k == key),
    {
        lemma_lookup_at(self.pairs(), p);
        assert forall|k: Seq<char>| #[trigger] has_key(self.pairs(), k) == (has_key(old_pairs, k) || k == key) by {
            if has_key(old_pairs, k) {
                let w = choose|w: int| 0 <= w < old_pairs.len() && #[trigger] old_pairs[w].0 == k;
                if w < p {
                    assert(self.pairs()[w].0 == k);
                } else {
                    assert(self.pairs()[w + 1].0 == k);
                }
            }
            if has_key(self.pairs(), k) && k != key {
                let w = choose|w: int| 0 <= w < self.pairs().len() && #[trigger] self.pairs()[w].0 == k;
                if w < p {
                    assert(old_pairs[w].0 == k);
                } else if w > p {
                    assert(old_pairs[w - 1].0 == k);
                }
            }
        }
        assert forall|k: Seq<char>| k != key implies #[trigger] lookup(self.pairs(), k) == lookup(
            old_pairs,
            k,
        ) by {
            if has_key(old_pairs, k) {
                let w = choose|w: int| 0 <= w < old_pairs.len() && #[trigger] old_pairs[w].0 == k;
                lemma_lookup_at(old_pairs, w);
                if w < p {
                    lemma_lookup_at(self.pairs(), w);
                } else {
                    lemma_lookup_at(self.pairs(), w + 1);
                }
            }
        }
    }

    /// Removes `key`, returning its value.
    pub fn remove(&mut self, key: &str) -> (r: Option<V>)
        requires
            old(self).wf(),
        ensures
            final(self).wf(),
            r == old(self).spec_get(key@),
            final(self).spec_get(key@) is None,
            !final(self).spec_contains(key@),
            forall|k: Seq<char>| k != key@ ==> #[trigger] final(self).spec_get(k) == old(self).spec_get(k),
            forall|k: Seq<char>| k != key@ ==> #[trigger] final(self).spec_contains(k) == old(self).spec_contains(k),
    {
        let k = chars_of(key);
        let p = self.position(&k);
        let ghost old_pairs = self.pairs();
        if p < self.entries.len() {
            let found = chars_of(self.entries[p].0.as_str());
            if crate::text::chars_equal(&found, &k) {
                let mut entries: Vec<(String, V)> = Vec::new();
                std::mem::swap(&mut entries, &mut self.entries);
                let (_, old_value) = entries.remove(p);
                self.entries = entries;
                proof {
                    assert(self.pairs() =~= old_pairs.remove(p as int));
                    lemma_lookup_at(old_pairs, p as int);
                    assert forall|i: int, j: int|
                        0 <= i < j < self.pairs().len() implies lex_lt(
                        #[trigger] self.pairs()[i].0,
                        #[trigger] self.pairs()[j].0,
                    ) by {
                        if i < p && j >= p {
                            assert(lex_lt(old_pairs[i].0, old_pairs[j + 1].0));
                        } else if i >= p {
                            assert(lex_lt(old_pairs[i + 1].0, old_pairs[j + 1].0));
                        }
                    }
                    self.lemma_remove_lookups(old_pairs, p as int, key@);
                }
                return Some(old_value);
            }
        }
        proof {
            self.lemma_lookup_absent(key@, p as int);
        }
        None
    }

    proof fn lemma_remove_lookups(&self, old_pairs: Seq<(Seq<char>, V)>, p: int, key: Seq<char>)
        requires
            sorted_keys(old_pairs),
            sorted_keys(self.pairs()),
            0 <= p < old_pairs.len(),
            old_pairs[p].0 == key,
            self.pairs() == old_pairs.remove(p),
        ensures
            lookup(self.pairs(), key) is None,
            !has_key(self.pairs(), key),
            forall|k: Seq<char>| k != key ==> #[trigger] lookup(self.pairs(), k) == lookup(old_pairs, k),
            forall|k: Seq<char>| k != key ==> #[trigger] has_key(self.pairs(), k) == has_key(old_pairs, k),
    {
        if has_key(self.pairs(), key) {
            let w = choose|w: int| 0 <= w < self.pairs().len() && #[trigger] self.pairs()[w].0 == key;
            if w < p {
                lemma_sorted_unique(old_pairs, w, p);
            } else {
                lemma_sorted_unique(old_pairs, w + 1, p);
            }
        }
        assert forall|k: Seq<char>| k != key implies #[trigger] has_key(self.pairs(), k) == has_key(old_pairs, k) by {
            if has_key(old_pairs, k) {
                let w = choose|w: int| 0 <= w < old_pairs.len() && #[trigger] old_pairs[w].0 == k;
                if w < p {
                    assert(self.pairs()[w].0 == k);
                } else {
                    assert(self.pairs()[w - 1].0 == k);
                }
            }
            if has_key(self.pairs(), k) {
                let w = choose|w: int| 0 <= w < self.pairs().len() && #[trigger] self.pairs()[w].0 == k;
                if w < p {
                    assert(old_pairs[w].0 == k);
                } else {
                    assert(old_pairs[w + 1].0 == k);
                }
            }
        }
        assert forall|k: Seq<char>| k != key implies #[trigger] lookup(self.pairs(), k) == lookup(
            old_pairs,
            k,
        ) by {
            if has_key(old_pairs, k) {
                let w = choose|w: int| 0 <= w < old_pairs.len() && #[trigger] old_pairs[w].0 == k;
                lemma_lookup_at(old_pairs, w);
                if w < p {
                    lemma_lookup_at(self.pairs(), w);
                } else {
                    lemma_lookup_at(self.pairs(), w - 1);
                }
            }
        }
    }
}

} // verus!
