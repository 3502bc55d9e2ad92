//! Maps from texts to values that keep their keys in order.

use vstd::prelude::*;
use vstd::string::*;
use crate::order;
use crate::order::text_less;

verus! {

/// A map from texts to values, walked in the order of its keys.
#[derive(Debug)]
pub struct TextMap<V> {
    entries: Vec<(String, V)>,
}

pub closed spec fn entry_keys<V>(entries: Seq<(String, V)>) -> Seq<Seq<char>> {
    entries.map_values(|e: (String, V)| e.0@)
}

pub closed spec fn entry_map<V>(entries: Seq<(String, V)>) -> Map<Seq<char>, V> {
    Map::new(
        |k: Seq<char>| entry_keys(entries).contains(k),
        |k: Seq<char>| entries[entry_keys(entries).index_of(k)].1,
    )
}

proof fn lemma_index<V>(entries: Seq<(String, V)>, i: int)
    requires
        order::ascending(entry_keys(entries)),
        0 <= i < entries.len(),
    ensures
        entry_keys(entries).contains(entries[i].0@),
        entry_keys(entries).index_of(entries[i].0@) == i,
        entry_map(entries)[entries[i].0@] == entries[i].1,
        entry_map(entries).contains_key(entries[i].0@),
{
    let keys = entry_keys(entries);
    let k = entries[i].0@;
    assert(keys[i] == k);
    let j = keys.index_of(k);
    assert(0 <= j < keys.len() && keys[j] == k);
    order::lemma_less_irreflexive(k);
    if i < j {
        assert(order::less(keys[i], keys[j]));
    } else if j < i {
        assert(order::less(keys[j], keys[i]));
    }
}

proof fn lemma_lookup<V>(entries: Seq<(String, V)>, k: Seq<char>)
    requires
        order::ascending(entry_keys(entries)),
    ensures
        entry_map(entries).contains_key(k) == entry_keys(entries).contains(k),
        entry_keys(entries).contains(k) ==> exists|i: int|
            0 <= i < entries.len() && (#[trigger] entries[i]).0@ == k && entry_map(entries)[k]
                == entries[i].1,
{
    let keys = entry_keys(entries);
    if keys.contains(k) {
        let i = choose|i: int| 0 <= i < keys.len() && keys[i] == k;
        lemma_index(entries, i);
        assert(entries[i].0@ == k);
    }
}

impl<V> TextMap<V> {
    #[verifier::type_invariant]
    closed spec fn ordered(self) -> bool {
        order::ascending(entry_keys(self.entries@))
    }

    /// The keys, in ascending order.
    pub closed spec fn keys(&self) -> Seq<Seq<char>> {
        entry_keys(self.entries@)
    }
}

impl<V> View for TextMap<V> {
    type V = Map<Seq<char>, V>;

    closed spec fn view(&self) -> Map<Seq<char>, V> {
        entry_map(self.entries@)
    }
}

fn find<V>(entries: &Vec<(String, V)>, key: &str) -> (r: (usize, bool))
    requires
        order::ascending(entry_keys(entries@)),
    ensures
        r.0 <= entries.len(),
        forall|i: int| 0 <= i < r.0 ==> order::less((#[trigger] entries@[i]).0@, key@),
        r.1 ==> r.0 < entries.len() && entries@[r.0 as int].0@ == key@,
        !r.1 ==> forall|i: int|
            r.0 <= i < entries.len() ==> order::less(key@, (#[trigger] entries@[i]).0@),
        r.1 == entry_keys(entries@).contains(key@),
{
    let ghost all = entry_keys(entries@);
    let mut i: usize = 0;
    while i < entries.len() && text_less(entries[i].0.as_str(), key)
        invariant
            i <= entries.len(),
            forall|j: int| 0 <= j < i ==> order::less((#[trigger] entries@[j]).0@, key@),
        decreases entries.len() - i,
    {
        i += 1;
    }
    if i < entries.len() && !text_less(key, entries[i].0.as_str()) {
        proof {
            order::lemma_less_total(entries@[i as int].0@, key@);
            assert(all[i as int] == key@);
        }
        return (i, true);
    }
    proof {
        assert forall|j: int| i <= j < entries.len() implies order::less(
            key@,
            (#[trigger] entries@[j]).0@,
        ) by {
            if i < j {
                assert(order::less(all[i as int], all[j]));
                order::lemma_less_transitive(key@, entries@[i as int].0@, entries@[j].0@);
            }
        }
        assert forall|j: int| 0 <= j < all.len() implies all[j] != key@ by {
            order::lemma_less_irreflexive(key@);
            assert(all[j] == entries@[j].0@);
        }
    }
    (i, false)
}

impl<V> TextMap<V> {
    pub fn new() -> (r: Self)
        ensures
            r@ == Map::<Seq<char>, V>::empty(),
            r.keys() == Seq::<Seq<char>>::empty(),
    {
        let r: TextMap<V> = TextMap { entries: Vec::new() };
        assert(entry_keys(r.entries@) =~= Seq::<Seq<char>>::empty());
        assert(r@ =~= Map::<Seq<char>, V>::empty());
        r
    }

    /// How many keys there are. The keys are in ascending order and make up the
    /// domain of the map.
    pub fn len(&self) -> (r: usize)
        ensures
            r == self.keys().len(),
            order::ascending(self.keys()),
            forall|k: Seq<char>| #[trigger] self@.contains_key(k) == self.keys().contains(k),
    {
        proof {
            use_type_invariant(self);
        }
        self.entries.len()
    }

    /// The key at a position.
    pub fn key_at(&self, i: usize) -> (r: &String)
        requires
            i < self.keys().len(),
        ensures
            r@ == self.keys()[i as int],
    {
        &self.entries[i].0
    }

    /// The value of the key at a position.
    pub fn value_at(&self, i: usize) -> (r: &V)
        requires
            i < self.keys().len(),
        ensures
            *r == self@[self.keys()[i as int]],
    {
        proof {
            use_type_invariant(self);
            lemma_index(self.entries@, i as int);
        }
        &self.entries[i].1
    }

    /// The value of a key.
    pub fn get(&self, key: &str) -> (r: Option<&V>)
        ensures
            match r {
                Some(v) => self@.contains_key(key@) && *v == self@[key@],
                None => !self@.contains_key(key@),
            },
    {
        proof {
            use_type_invariant(self);
            lemma_lookup(self.entries@, key@);
        }
        let (i, found) = find(&self.entries, key);
        if found {
            proof {
                lemma_index(self.entries@, i as int);
            }
            Some(&self.entries[i].1)
        } else {
            None
        }
    }

    /// Whether there is such a key.
    pub fn contains(&self, key: &str) -> (r: bool)
        ensures
            r == self@.contains_key(key@),
    {
        self.get(key).is_some()
    }

    /// Gives a key a value, in place of the one that it had.
    pub fn insert(&mut self, key: String, value: V)
        ensures
            final(self)@ == old(self)@.insert(key@, value),
    {
        proof {
            use_type_invariant(&*self);
        }
        let mut entries: Vec<(String, V)> = Vec::new();
        assert(entry_keys(entries@) =~= Seq::<Seq<char>>::empty());
        std::mem::swap(&mut entries, &mut self.entries);
        let ghost before = entries@;
        let ghost k = key@;
        let (i, found) = find(&entries, key.as_str());
        if found {
            entries.set(i, (key, value));
            let ghost after = entries@;
            assert(entry_keys(after) =~= entry_keys(before));
        } else {
            entries.insert(i, (key, value));
            let ghost after = entries@;
            proof {
                lemma_inserted_ascending(before, after, i as int, k);
            }
        }
        let ghost after = entries@;
        proof {
            lemma_inserted(before, after, i as int, found, k, value);
        }
        self.entries = entries;
    }

    /// Takes a key out.
    pub fn remove(&mut self, key: &str)
        ensures
            final(self)@ == old(self)@.remove(key@),
    {
        proof {
            use_type_invariant(&*self);
        }
        let mut entries: Vec<(String, V)> = Vec::new();
        assert(entry_keys(entries@) =~= Seq::<Seq<char>>::empty());
        std::mem::swap(&mut entries, &mut self.entries);
        let ghost before = entries@;
        let (i, found) = find(&entries, key);
        if found {
            let _ = entries.remove(i);
            let ghost after = entries@;
            proof {
                lemma_removed(before, after, i as int, key@);
            }
        } else {
            proof {
                lemma_lookup(before, key@);
                assert(entry_map(before).remove(key@) =~= entry_map(before));
            }
        }
        self.entries = entries;
    }
}

proof fn lemma_inserted_ascending<V>(
    before: Seq<(String, V)>,
    after: Seq<(String, V)>,
    i: int,
    k: Seq<char>,
)
    requires
        order::ascending(entry_keys(before)),
        0 <= i <= before.len(),
        after.len() == before.len() + 1,
        after[i].0@ == k,
        forall|j: int| 0 <= j < i ==> (#[trigger] after[j]) == before[j],
        forall|j: int| i < j < after.len() ==> (#[trigger] after[j]) == before[j - 1],
        forall|j: int| 0 <= j < i ==> order::less((#[trigger] before[j]).0@, k),
        forall|j: int| i <= j < before.len() ==> order::less(k, (#[trigger] before[j]).0@),
    ensures
        order::ascending(entry_keys(after)),
{
    let a = entry_keys(after);
    let b = entry_keys(before);
    assert forall|x: int, y: int| 0 <= x < y < a.len() implies order::less(
        #[trigger] a[x],
        #[trigger] a[y],
    ) by {
        if y < i {
            assert(a[x] == b[x] && a[y] == b[y]);
        } else if y == i {
            assert(a[x] == before[x].0@);
        } else if x < i {
            assert(a[x] == b[x] && a[y] == b[y - 1]);
        } else if x == i {
            assert(a[y] == before[y - 1].0@);
        } else {
            assert(a[x] == b[x - 1] && a[y] == b[y - 1]);
        }
    }
}

proof fn lemma_inserted<V>(
    before: Seq<(String, V)>,
    after: Seq<(String, V)>,
    i: int,
    found: bool,
    k: Seq<char>,
    value: V,
)
    requires
        order::ascending(entry_keys(before)),
        order::ascending(entry_keys(after)),
        0 <= i < after.len(),
        after[i].0@ == k,
        after[i].1 == value,
        found ==> after.len() == before.len() && before[i].0@ == k && forall|j: int|
            0 <= j < after.len() && j != i ==> (#[trigger] after[j]) == before[j],
        !found ==> after.len() == before.len() + 1,
        !found ==> forall|j: int| 0 <= j < i ==> (#[trigger] after[j]) == before[j],
        !found ==> forall|j: int| i < j < after.len() ==> (#[trigger] after[j]) == before[j - 1],
    ensures
        entry_map(after) == entry_map(before).insert(k, value),
{
    let old_map = entry_map(before);
    let new_map = entry_map(after);
    assert forall|x: Seq<char>| #[trigger] new_map.contains_key(x) == old_map.insert(
        k,
        value,
    ).contains_key(x) by {
        lemma_lookup(before, x);
        lemma_lookup(after, x);
        if entry_keys(after).contains(x) {
            let j = choose|j: int| 0 <= j < after.len() && (#[trigger] after[j]).0@ == x;
            if j != i {
                if found || j < i {
                    lemma_index(before, j);
                } else {
                    lemma_index(before, j - 1);
                }
            }
        }
        if entry_keys(before).contains(x) {
            let j = choose|j: int| 0 <= j < before.len() && (#[trigger] before[j]).0@ == x;
            if found || j < i {
                if j != i {
                    assert(after[j] == before[j]);
                }
                lemma_index(after, j);
            } else {
                assert(after[j + 1] == before[j]);
                lemma_index(after, j + 1);
            }
        }
        lemma_index(after, i);
    }
    assert forall|x: Seq<char>| new_map.contains_key(x) implies #[trigger] new_map[x]
        == old_map.insert(k, value)[x] by {
        lemma_lookup(after, x);
        let j = choose|j: int|
            0 <= j < after.len() && (#[trigger] after[j]).0@ == x && new_map[x] == after[j].1;
        if j == i {
        } else {
            lemma_index(after, i);
            lemma_index(after, j);
            if found || j < i {
                lemma_index(before, j);
            } else {
                lemma_index(before, j - 1);
            }
        }
    }
    assert(new_map =~= old_map.insert(k, value));
}

proof fn lemma_removed<V>(
    before: Seq<(String, V)>,
    after: Seq<(String, V)>,
    i: int,
    k: Seq<char>,
)
    requires
        order::ascending(entry_keys(before)),
        0 <= i < before.len(),
        before[i].0@ == k,
        after == before.remove(i),
    ensures
        order::ascending(entry_keys(after)),
        entry_map(after) == entry_map(before).remove(k),
{
    let a = entry_keys(after);
    let b = entry_keys(before);
    assert forall|x: int, y: int| 0 <= x < y < a.len() implies order::less(
        #[trigger] a[x],
        #[trigger] a[y],
    ) by {
        let bx = if x < i { x } else { x + 1 };
        let by_ = if y < i { y } else { y + 1 };
        assert(a[x] == b[bx] && a[y] == b[by_]);
    }
    let old_map = entry_map(before);
    let new_map = entry_map(after);
    assert forall|x: Seq<char>| #[trigger] new_map.contains_key(x) == old_map.remove(
        k,
    ).contains_key(x) by {
        lemma_lookup(before, x);
        lemma_lookup(after, x);
        if entry_keys(after).contains(x) {
            let j = choose|j: int| 0 <= j < after.len() && (#[trigger] after[j]).0@ == x;
            let bj = if j < i { j } else { j + 1 };
            assert(after[j] == before[bj]);
            lemma_index(before, bj);
            lemma_index(before, i);
        }
        if entry_keys(before).contains(x) && x != k {
            let j = choose|j: int| 0 <= j < before.len() && (#[trigger] before[j]).0@ == x;
            let aj = if j < i { j } else { j - 1 };
            assert(after[aj] == before[j]);
            lemma_index(after, aj);
        }
    }
    assert forall|x: Seq<char>| new_map.contains_key(x) implies #[trigger] new_map[x]
        == old_map.remove(k)[x] by {
        lemma_lookup(after, x);
        let j = choose|j: int|
            0 <= j < after.len() && (#[trigger] after[j]).0@ == x && new_map[x] == after[j].1;
        let bj = if j < i { j } else { j + 1 };
        assert(after[j] == before[bj]);
        lemma_index(before, bj);
        lemma_index(before, i);
    }
    assert(new_map =~= old_map.remove(k));
}

/// A map gives what was put under a key last, and nothing for a key that was taken out; the
/// rest stays as it was.
pub proof fn law_maps_give_what_was_put_in<V>(
    a: &mut TextMap<V>,
    b: &mut TextMap<V>,
    key: String,
    value: V,
    gone: &str,
    k: &str,
    before: Option<&V>,
    after: Option<&V>,
    left: Option<&V>,
)
    requires
        call_ensures(TextMap::<V>::insert, (a, key, value), ()),
        call_ensures(TextMap::<V>::get, (&*old(a), k), before),
        call_ensures(TextMap::<V>::get, (&*final(a), k), after),
        *old(b) == *final(a),
        call_ensures(TextMap::<V>::remove, (b, gone), ()),
        call_ensures(TextMap::<V>::get, (&*final(b), k), left),
    ensures
        k@ == key@ ==> after is Some && *after->0 == value,
        k@ != key@ ==> after is Some == before is Some && (after is Some ==> *after->0
            == *before->0),
        k@ == gone@ ==> left is None,
        k@ != gone@ ==> left is Some == after is Some && (left is Some ==> *left->0 == *after->0),
{
}

} // verus!
