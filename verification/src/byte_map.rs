//! A small map from byte strings to byte strings.
//!
//! The map keeps views into a buffer and copies nothing. It is meant for
//! the handful of pairs that a query string or a header value holds: a
//! lookup walks the entries.

use crate::bytes::bytes_equal;
use vstd::prelude::*;

verus! {

/// One entry of a map, as plain values: a key and what it maps to.
pub type PairView = (Seq<u8>, Seq<u8>);

/// The map that inserting `pairs` one after the other into an empty map
/// gives. Of two pairs with one key, the later one stays.
pub open spec fn map_of(pairs: Seq<PairView>) -> Map<Seq<u8>, Seq<u8>>
    decreases pairs.len(),
{
    if pairs.len() == 0 {
        Map::empty()
    } else {
        map_of(pairs.drop_last()).insert(pairs.last().0, pairs.last().1)
    }
}

/// Whether no key occurs twice in `pairs`.
pub open spec fn distinct_keys(pairs: Seq<PairView>) -> bool {
    forall|i: int, j: int| 0 <= i < j < pairs.len() ==> pairs[i].0 != pairs[j].0
}

/// The keys of `map_of(pairs)` are the keys that occur in `pairs`.
pub proof fn lemma_map_of_keys(pairs: Seq<PairView>, key: Seq<u8>)
    ensures
        map_of(pairs).dom().contains(key) <==> exists|i: int|
            0 <= i < pairs.len() && #[trigger] pairs[i].0 == key,
    decreases pairs.len(),
{
    if pairs.len() > 0 {
        let front = pairs.drop_last();
        lemma_map_of_keys(front, key);
        if map_of(pairs).dom().contains(key) {
            if pairs.last().0 == key {
                assert(pairs[pairs.len() - 1].0 == key);
            } else {
                let i = choose|i: int| 0 <= i < front.len() && #[trigger] front[i].0 == key;
                assert(pairs[i].0 == key);
            }
        }
        if exists|i: int| 0 <= i < pairs.len() && #[trigger] pairs[i].0 == key {
            let i = choose|i: int| 0 <= i < pairs.len() && #[trigger] pairs[i].0 == key;
            if i < pairs.len() - 1 {
                assert(front[i].0 == key);
            }
        }
    }
}

/// Where no key occurs twice, `map_of(pairs)` maps the key of every pair
/// to what the pair says.
pub proof fn lemma_map_of_value(pairs: Seq<PairView>, at: int)
    requires
        distinct_keys(pairs),
        0 <= at < pairs.len(),
    ensures
        map_of(pairs).dom().contains(pairs[at].0),
        map_of(pairs)[pairs[at].0] == pairs[at].1,
    decreases pairs.len(),
{
    let front = pairs.drop_last();
    if at < pairs.len() - 1 {
        assert(distinct_keys(front)) by {
            assert forall|i: int, j: int| 0 <= i < j < front.len() implies front[i].0
                != front[j].0 by {
                assert(pairs[i].0 != pairs[j].0);
            }
        }
        lemma_map_of_value(front, at);
        assert(front[at] == pairs[at]);
        assert(pairs[at].0 != pairs[pairs.len() - 1].0);
    }
}

/// Where no key occurs twice, `map_of(pairs)` is finite and has as many
/// keys as there are pairs.
pub proof fn lemma_map_of_len(pairs: Seq<PairView>)
    requires
        distinct_keys(pairs),
    ensures
        map_of(pairs).dom().finite(),
        map_of(pairs).dom().len() == pairs.len(),
    decreases pairs.len(),
{
    if pairs.len() > 0 {
        let front = pairs.drop_last();
        assert(distinct_keys(front)) by {
            assert forall|i: int, j: int| 0 <= i < j < front.len() implies front[i].0
                != front[j].0 by {
                assert(pairs[i].0 != pairs[j].0);
            }
        }
        lemma_map_of_len(front);
        lemma_map_of_keys(front, pairs.last().0);
        if map_of(front).dom().contains(pairs.last().0) {
            let i = choose|i: int| 0 <= i < front.len() && #[trigger] front[i].0 == pairs.last().0;
            assert(pairs[i].0 != pairs[pairs.len() - 1].0);
        }
    } else {
        assert(map_of(pairs).dom() =~= Set::empty());
    }
}

/// Where no key occurs twice, writing a new value into the pair of a key
/// is inserting the key with that value.
pub proof fn lemma_map_of_update(pairs: Seq<PairView>, at: int, value: Seq<u8>)
    requires
        distinct_keys(pairs),
        0 <= at < pairs.len(),
    ensures
        distinct_keys(pairs.update(at, (pairs[at].0, value))),
        map_of(pairs.update(at, (pairs[at].0, value))) == map_of(pairs).insert(pairs[at].0, value),
{
    let key = pairs[at].0;
    let updated = pairs.update(at, (key, value));
    assert(distinct_keys(updated)) by {
        assert forall|i: int, j: int| 0 <= i < j < updated.len() implies updated[i].0
            != updated[j].0 by {
            assert(pairs[i].0 != pairs[j].0);
        }
    }
    let left = map_of(updated);
    let right = map_of(pairs).insert(key, value);
    assert forall|k: Seq<u8>| left.dom().contains(k) <==> right.dom().contains(k) by {
        lemma_map_of_keys(updated, k);
        lemma_map_of_keys(pairs, k);
        if left.dom().contains(k) {
            let i = choose|i: int| 0 <= i < updated.len() && #[trigger] updated[i].0 == k;
            assert(pairs[i].0 == k);
        }
        if map_of(pairs).dom().contains(k) {
            let i = choose|i: int| 0 <= i < pairs.len() && #[trigger] pairs[i].0 == k;
            assert(updated[i].0 == k);
        }
        if k == key {
            assert(updated[at].0 == k);
        }
    }
    assert forall|k: Seq<u8>| left.dom().contains(k) implies left[k] == right[k] by {
        lemma_map_of_keys(updated, k);
        let i = choose|i: int| 0 <= i < updated.len() && #[trigger] updated[i].0 == k;
        lemma_map_of_value(updated, i);
        if i != at {
            assert(pairs[i].0 == k);
            lemma_map_of_value(pairs, i);
        }
    }
    assert(left =~= right);
}

/// The entries of a map as plain values.
pub open spec fn pairs_of(entries: Seq<(&[u8], &[u8])>) -> Seq<PairView> {
    Seq::new(entries.len(), |i: int| (entries[i].0@, entries[i].1@))
}

/// A map from byte strings to byte strings, both views into a buffer.
#[derive(Debug)]
pub struct ByteMap<'buf> {
    entries: Vec<(&'buf [u8], &'buf [u8])>,
}

impl<'buf> View for ByteMap<'buf> {
    type V = Map<Seq<u8>, Seq<u8>>;

    closed spec fn view(&self) -> Map<Seq<u8>, Seq<u8>> {
        map_of(self.pairs())
    }
}

impl<'buf> ByteMap<'buf> {
    /// The entries as plain values, in the order in which their keys came.
    pub closed spec fn pairs(&self) -> Seq<PairView> {
        pairs_of(self.entries@)
    }

    #[verifier::type_invariant]
    spec fn no_key_twice(self) -> bool {
        distinct_keys(self.pairs())
    }

    /// A map without entries.
    pub fn new() -> (map: ByteMap<'buf>)
        ensures
            map@ == Map::<Seq<u8>, Seq<u8>>::empty(),
    {
        let entries: Vec<(&'buf [u8], &'buf [u8])> = Vec::new();
        assert(pairs_of(entries@) =~= Seq::<PairView>::empty());
        ByteMap { entries }
    }

    /// The place of `key` among the entries, if it has one.
    fn position(&self, key: &[u8]) -> (place: Option<usize>)
        ensures
            match place {
                Some(i) => i < self.pairs().len() && self.pairs()[i as int].0 == key@,
                None => forall|i: int| 0 <= i < self.pairs().len() ==> self.pairs()[i].0 != key@,
            },
    {
        let mut i: usize = 0;
        while i < self.entries.len()
            invariant
                i <= self.entries@.len(),
                self.pairs().len() == self.entries@.len(),
                forall|j: int| 0 <= j < i ==> self.pairs()[j].0 != key@,
            decreases self.entries@.len() - i,
        {
            if bytes_equal(self.entries[i].0, key) {
                return Some(i);
            }
            i = i + 1;
        }
        None
    }

    /// What `key` maps to, if it maps to anything.
    pub fn get(&self, key: &[u8]) -> (value: Option<&'buf [u8]>)
        ensures
            match value {
                Some(v) => self@.dom().contains(key@) && self@[key@] == v@,
                None => !self@.dom().contains(key@),
            },
    {
        proof {
            use_type_invariant(self);
            lemma_map_of_keys(self.pairs(), key@);
        }
        match self.position(key) {
            Some(i) => {
                proof {
                    lemma_map_of_value(self.pairs(), i as int);
                }
                Some(self.entries[i].1)
            },
            None => None,
        }
    }

    /// The map in which `key` maps to `value`, whatever it mapped to
    /// before, and every other key to what it mapped to.
    pub fn insert(self, key: &'buf [u8], value: &'buf [u8]) -> (map: ByteMap<'buf>)
        ensures
            map@ == self@.insert(key@, value@),
    {
        proof {
            use_type_invariant(&self);
        }
        let ghost before = self.pairs();
        let place = self.position(key);
        let mut entries = self.entries;
        match place {
            Some(i) => {
                proof {
                    lemma_map_of_update(before, i as int, value@);
                }
                entries[i] = (key, value);
                assert(pairs_of(entries@) =~= before.update(i as int, (key@, value@)));
                ByteMap { entries }
            },
            None => {
                entries.push((key, value));
                let ghost after = before.push((key@, value@));
                assert(after.drop_last() =~= before);
                assert(distinct_keys(after));
                assert(pairs_of(entries@) =~= after);
                ByteMap { entries }
            },
        }
    }

    /// The number of keys.
    pub fn len(&self) -> (len: usize)
        ensures
            self@.dom().finite(),
            len == self@.dom().len(),
    {
        proof {
            use_type_invariant(self);
            lemma_map_of_len(self.pairs());
        }
        self.entries.len()
    }

    /// The entry that was first inserted as number `index`: a key of the
    /// map and what it maps to.
    pub fn entry(&self, index: usize) -> (entry: (&'buf [u8], &'buf [u8]))
        requires
            index < self@.dom().len(),
        ensures
            self@.dom().contains(entry.0@),
            self@[entry.0@] == entry.1@,
    {
        proof {
            use_type_invariant(self);
            lemma_map_of_len(self.pairs());
            lemma_map_of_value(self.pairs(), index as int);
        }
        self.entries[index]
    }
}

} // verus!
