//! Objects held in memory, in the order of their keys.

use vstd::prelude::*;

use crate::text;

verus! {

/// Objects by key: a key stands once, and the keys are in order.
#[derive(Debug, PartialEq, Eq)]
pub struct Objects {
    entries: Vec<(String, Vec<u8>)>,
}

/// The keys of `entries`.
pub open spec fn keys(entries: Seq<(String, Vec<u8>)>) -> Seq<Seq<char>> {
    entries.map_values(|entry: (String, Vec<u8>)| entry.0@)
}

/// What `entries` hold, by key.
pub open spec fn held(entries: Seq<(String, Vec<u8>)>) -> Map<Seq<char>, Seq<u8>> {
    Map::new(
        |key: Seq<char>| keys(entries).contains(key),
        |key: Seq<char>| entries[keys(entries).index_of(key)].1@,
    )
}

impl View for Objects {
    type V = Map<Seq<char>, Seq<u8>>;

    closed spec fn view(&self) -> Map<Seq<char>, Seq<u8>> {
        held(self.entries@)
    }
}

impl Objects {
    #[verifier::type_invariant]
    spec fn ordered(&self) -> bool {
        text::increasing(keys(self.entries@))
    }

    /// No objects.
    pub fn new() -> (objects: Self)
        ensures
            objects@ == Map::<Seq<char>, Seq<u8>>::empty(),
    {
        let objects = Objects { entries: Vec::new() };
        assert(objects@ == Map::<Seq<char>, Seq<u8>>::empty());
        objects
    }

    /// The entries in the order of their keys.
    pub fn entries(&self) -> (entries: &Vec<(String, Vec<u8>)>)
        ensures
            text::increasing(keys(entries@)),
            held(entries@) == self@,
    {
        proof {
            use_type_invariant(self);
        }
        &self.entries
    }

    /// How many objects there are.
    pub fn len(&self) -> (count: usize)
        ensures
            self@.dom().finite(),
            count == self@.len(),
    {
        proof {
            use_type_invariant(self);
            lemma_held_count(self.entries@);
        }
        self.entries.len()
    }

    /// Whether there are none.
    pub fn is_empty(&self) -> (empty: bool)
        ensures
            empty == (self@ == Map::<Seq<char>, Seq<u8>>::empty()),
    {
        proof {
            if self.entries@.len() > 0 {
                assert(keys(self.entries@).contains(keys(self.entries@)[0]));
                assert(self@.contains_key(keys(self.entries@)[0]));
            } else {
                assert(self@ == Map::<Seq<char>, Seq<u8>>::empty());
            }
        }
        self.entries.is_empty()
    }

    /// The object at `key`.
    pub fn get(&self, key: &str) -> (found: Option<&Vec<u8>>)
        ensures
            match found {
                Some(bytes) => self@.contains_key(key@) && self@[key@] == bytes@,
                None => !self@.contains_key(key@),
            },
    {
        proof {
            use_type_invariant(self);
        }
        match search(&self.entries, key) {
            (at, true) => {
                proof {
                    lemma_held_at(self.entries@, at as int);
                }
                Some(&self.entries[at].1)
            },
            (_, false) => None,
        }
    }

    /// Hold `bytes` at `key`, in place of what was there.
    pub fn insert(&mut self, key: &str, bytes: Vec<u8>)
        ensures
            final(self)@ == old(self)@.insert(key@, bytes@),
    {
        proof {
            use_type_invariant(&*self);
        }
        let mut entries: Vec<(String, Vec<u8>)> = Vec::new();
        std::mem::swap(&mut entries, &mut self.entries);
        let ghost before = entries@;
        let (at, present) = search(&entries, key);
        if present {
            entries.set(at, (key.to_string(), bytes));
            assert(keys(entries@) == keys(before));
        } else {
            entries.insert(at, (key.to_string(), bytes));
            assert(keys(entries@) == keys(before).insert(at as int, key@));
        }
        proof {
            lemma_held_insert(before, entries@, at as int, present);
        }
        self.entries = entries;
    }

    /// Let go of the object at `key`, and give it back.
    pub fn remove(&mut self, key: &str) -> (removed: Option<Vec<u8>>)
        ensures
            final(self)@ == old(self)@.remove(key@),
            match removed {
                Some(bytes) => old(self)@.contains_key(key@) && old(self)@[key@] == bytes@,
                None => !old(self)@.contains_key(key@),
            },
    {
        proof {
            use_type_invariant(&*self);
        }
        let mut entries: Vec<(String, Vec<u8>)> = Vec::new();
        std::mem::swap(&mut entries, &mut self.entries);
        let ghost before = entries@;
        let (at, present) = search(&entries, key);
        if present {
            let (_, bytes) = entries.remove(at);
            proof {
                lemma_held_at(before, at as int);
                lemma_held_remove(before, at as int);
            }
            self.entries = entries;
            Some(bytes)
        } else {
            self.entries = entries;
            assert(old(self)@.remove(key@) == old(self)@);
            None
        }
    }
}

/// Where `key` stands among `entries`, or where it would, and which of the two.
fn search(entries: &Vec<(String, Vec<u8>)>, key: &str) -> (result: (usize, bool))
    requires
        text::increasing(keys(entries@)),
    ensures
        result.0 <= entries@.len(),
        result.1 == keys(entries@).contains(key@),
        result.1 ==> result.0 < entries@.len() && keys(entries@)[result.0 as int] == key@,
        forall|i: int|
            0 <= i < result.0 ==> text::at_most(#[trigger] keys(entries@)[i], key@) && keys(
                entries@,
            )[i] != key@,
        forall|i: int|
            result.0 <= i < entries@.len() ==> text::at_most(key@, #[trigger] keys(entries@)[i]),
{
    proof {
        text::order_is_total();
    }
    let ghost all = keys(entries@);
    let mut low: usize = 0;
    let mut high: usize = entries.len();
    while low < high
        invariant
            low <= high <= entries@.len(),
            all == keys(entries@),
            text::increasing(all),
            vstd::relations::total_ordering(text::order()),
            forall|i: int| 0 <= i < low ==> !text::at_most(key@, #[trigger] all[i]),
            forall|i: int| high <= i < all.len() ==> text::at_most(key@, #[trigger] all[i]),
        decreases high - low,
    {
        let middle = low + (high - low) / 2;
        assert(all[middle as int] == entries@[middle as int].0@);
        if text::not_after(key, entries[middle].0.as_str()) {
            assert forall|i: int| middle <= i < all.len() implies text::at_most(
                key@,
                #[trigger] all[i],
            ) by {
                assert(text::order()(key@, all[middle as int]));
                if i > middle {
                    assert(text::order()(all[middle as int], all[i]));
                }
            }
            high = middle;
        } else {
            assert forall|i: int| 0 <= i <= middle implies !text::at_most(
                key@,
                #[trigger] all[i],
            ) by {
                if text::order()(key@, all[i]) && i < middle {
                    assert(text::order()(all[i], all[middle as int]));
                    assert(text::order()(key@, all[middle as int]));
                }
            }
            low = middle + 1;
        }
    }
    let present = low < entries.len() && text::same(entries[low].0.as_str(), key);
    proof {
        assert forall|i: int| 0 <= i < low implies text::at_most(#[trigger] all[i], key@) && all[i]
            != key@ by {
            assert(text::order()(all[i], key@) || text::order()(key@, all[i]));
            assert(text::order()(key@, key@));
        }
        if low < all.len() {
            assert(all[low as int] == entries@[low as int].0@);
        }
        if all.contains(key@) {
            let i = choose|i: int| 0 <= i < all.len() && all[i] == key@;
            if i > low {
                assert(text::order()(key@, all[low as int]));
                assert(text::order()(all[low as int], all[i]));
                assert(all[low as int] == key@);
            }
        }
    }
    (low, present)
}

/// At each place stands what is held at its key.
pub(crate) proof fn lemma_held_at(entries: Seq<(String, Vec<u8>)>, at: int)
    requires
        text::increasing(keys(entries)),
        0 <= at < entries.len(),
    ensures
        held(entries).contains_key(entries[at].0@),
        held(entries)[entries[at].0@] == entries[at].1@,
{
    let all = keys(entries);
    assert(all[at] == entries[at].0@);
    assert(all.contains(all[at]));
    let found = all.index_of(all[at]);
    assert(all[found] == all[at]);
    assert(found == at);
}

proof fn lemma_held_insert(
    before: Seq<(String, Vec<u8>)>,
    now: Seq<(String, Vec<u8>)>,
    at: int,
    present: bool,
)
    requires
        text::increasing(keys(before)),
        0 <= at < now.len(),
        present ==> at < before.len() && now == before.update(at, now[at]) && keys(before)[at]
            == now[at].0@,
        !present ==> at <= before.len() && now == before.insert(at, now[at]) && !keys(
            before,
        ).contains(now[at].0@),
        forall|i: int|
            0 <= i < at ==> text::at_most(#[trigger] keys(before)[i], now[at].0@),
        forall|i: int|
            at <= i < before.len() ==> text::at_most(now[at].0@, #[trigger] keys(before)[i]),
    ensures
        text::increasing(keys(now)),
        held(now) == held(before).insert(now[at].0@, now[at].1@),
{
    let key = now[at].0@;
    let old_keys = keys(before);
    let new_keys = keys(now);
    if present {
        assert(new_keys == old_keys);
    } else {
        assert(new_keys == old_keys.insert(at, key));
        assert forall|i: int, j: int|
            #![trigger new_keys[i], new_keys[j]]
            0 <= i < j < new_keys.len() implies text::at_most(new_keys[i], new_keys[j])
            && new_keys[i] != new_keys[j] by {
            let a = if i < at { i } else { i - 1 };
            let b = if j < at { j } else { j - 1 };
            if i == at {
                assert(new_keys[j] == old_keys[b]);
                assert(old_keys.contains(old_keys[b]));
            } else if j == at {
                assert(new_keys[i] == old_keys[a]);
                assert(old_keys.contains(old_keys[a]));
            } else {
                assert(new_keys[i] == old_keys[a]);
                assert(new_keys[j] == old_keys[b]);
            }
        }
    }
    lemma_held_at(now, at);
    let expected = held(before).insert(key, now[at].1@);
    assert forall|k: Seq<char>|
        #![trigger held(now).dom().contains(k)]
        #![trigger expected.dom().contains(k)]
        held(now).dom().contains(k) == expected.dom().contains(k) && (held(now).dom().contains(k)
            ==> held(now)[k] == expected[k]) by {
        if k != key {
            if new_keys.contains(k) {
                let i = choose|i: int| 0 <= i < new_keys.len() && new_keys[i] == k;
                let j = if present || i < at { i } else { i - 1 };
                assert(now[i].0@ == k);
                assert(before[j] == now[i]);
                assert(old_keys[j] == k);
                lemma_held_at(now, i);
                lemma_held_at(before, j);
            }
            if old_keys.contains(k) {
                let j = choose|j: int| 0 <= j < old_keys.len() && old_keys[j] == k;
                let i = if present || j < at { j } else { j + 1 };
                assert(now[i] == before[j]);
                assert(new_keys[i] == k);
            }
        }
    }
    assert(held(now) == expected);
}

proof fn lemma_held_remove(before: Seq<(String, Vec<u8>)>, at: int)
    requires
        text::increasing(keys(before)),
        0 <= at < before.len(),
    ensures
        text::increasing(keys(before.remove(at))),
        held(before.remove(at)) == held(before).remove(before[at].0@),
{
    let key = before[at].0@;
    let now = before.remove(at);
    let old_keys = keys(before);
    let new_keys = keys(now);
    assert(old_keys[at] == key);
    assert(new_keys == old_keys.remove(at));
    assert forall|i: int, j: int|
        #![trigger new_keys[i], new_keys[j]]
        0 <= i < j < new_keys.len() implies text::at_most(new_keys[i], new_keys[j])
        && new_keys[i] != new_keys[j] by {
        let a = if i < at { i } else { i + 1 };
        let b = if j < at { j } else { j + 1 };
        assert(new_keys[i] == old_keys[a]);
        assert(new_keys[j] == old_keys[b]);
    }
    let expected = held(before).remove(key);
    assert forall|k: Seq<char>|
        #![trigger held(now).dom().contains(k)]
        #![trigger expected.dom().contains(k)]
        held(now).dom().contains(k) == expected.dom().contains(k) && (held(now).dom().contains(k)
            ==> held(now)[k] == expected[k]) by {
        if new_keys.contains(k) {
            let i = choose|i: int| 0 <= i < new_keys.len() && new_keys[i] == k;
            let j = if i < at { i } else { i + 1 };
            assert(now[i].0@ == k);
            assert(before[j] == now[i]);
            assert(old_keys[j] == k);
            lemma_held_at(now, i);
            lemma_held_at(before, j);
        }
        if k != key && old_keys.contains(k) {
            let j = choose|j: int| 0 <= j < old_keys.len() && old_keys[j] == k;
            let i = if j < at { j } else { j - 1 };
            assert(now[i] == before[j]);
            assert(new_keys[i] == k);
        }
    }
    assert(held(now) == expected);
}

proof fn lemma_held_count(entries: Seq<(String, Vec<u8>)>)
    requires
        text::increasing(keys(entries)),
    ensures
        held(entries).dom().finite(),
        held(entries).len() == entries.len(),
{
    let all = keys(entries);
    assert(all.no_duplicates());
    all.unique_seq_to_set();
    assert(held(entries).dom() == all.to_set());
}

/// The entries are the objects: each stands at its key, and each key has one.
pub proof fn entries_are_what_is_held(entries: Seq<(String, Vec<u8>)>)
    requires
        text::increasing(keys(entries)),
    ensures
        forall|i: int|
            #![trigger entries[i]]
            0 <= i < entries.len() ==> held(entries).contains_key(entries[i].0@) && held(
                entries,
            )[entries[i].0@] == entries[i].1@,
        forall|key: Seq<char>| #[trigger]
            held(entries).contains_key(key) ==> exists|i: int|
                0 <= i < entries.len() && #[trigger] entries[i].0@ == key,
        forall|i: int, j: int|
            #![trigger entries[i], entries[j]]
            0 <= i < j < entries.len() ==> text::at_most(entries[i].0@, entries[j].0@)
                && entries[i].0@ != entries[j].0@,
{
    let all = keys(entries);
    assert forall|i: int|
        #![trigger entries[i]]
        0 <= i < entries.len() implies held(entries).contains_key(entries[i].0@) && held(
        entries,
    )[entries[i].0@] == entries[i].1@ by {
        lemma_held_at(entries, i);
    }
    assert forall|key: Seq<char>| #[trigger] held(entries).contains_key(key) implies exists|i: int|
        0 <= i < entries.len() && #[trigger] entries[i].0@ == key by {
        let i = choose|i: int| 0 <= i < all.len() && all[i] == key;
        assert(entries[i].0@ == key);
    }
    assert forall|i: int, j: int|
        #![trigger entries[i], entries[j]]
        0 <= i < j < entries.len() implies text::at_most(entries[i].0@, entries[j].0@)
        && entries[i].0@ != entries[j].0@ by {
        assert(all[i] == entries[i].0@ && all[j] == entries[j].0@);
    }
}

} // verus!
