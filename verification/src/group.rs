//! Groups key-value pairs by key while keeping the keys in the order in
//! which they first occur, on top of an insertion-ordered hash map.

use vstd::prelude::*;
use linked_hash_map::LinkedHashMap;
use std::collections::hash_map::RandomState;

verus! {

/// What transitions are grouped by: the output, if any, and the final state.
pub type GroupKey = (Option<String>, String);

/// Mathematical content of a [`GroupKey`].
pub type GroupKeyView = (Option<Seq<char>>, Seq<char>);

/// The insertion-ordered map from group keys to the values of each group.
pub type GroupMap = LinkedHashMap<(Option<String>, String), Vec<String>, RandomState>;

#[verifier::external_type_specification]
#[verifier::external_body]
#[verifier::reject_recursive_types(K)]
#[verifier::reject_recursive_types(V)]
#[verifier::reject_recursive_types(S)]
pub struct ExLinkedHashMap<K, V, S>(LinkedHashMap<K, V, S>);

/// The entries of a map, oldest first: each key with the values grouped
/// under it.
pub uninterp spec fn group_entries(
    map: LinkedHashMap<(Option<String>, String), Vec<String>, RandomState>,
) -> Seq<((Option<Seq<char>>, Seq<char>), Seq<Seq<char>>)>;

/// The keys of a sequence of entries.
pub open spec fn entry_keys(entries: Seq<(GroupKeyView, Seq<Seq<char>>)>) -> Seq<GroupKeyView> {
    entries.map_values(|e: (GroupKeyView, Seq<Seq<char>>)| e.0)
}

/// Creates an empty map.
///
/// Trusted: calls `LinkedHashMap::new`, which returns a map without entries.
#[verifier::external_body]
fn group_map_new() -> (map: GroupMap)
    ensures
        group_entries(map) == Seq::<(GroupKeyView, Seq<Seq<char>>)>::empty(),
{
    LinkedHashMap::new()
}

/// Gives access to the values stored under `key`, after storing `default`
/// under it if the map has no such key.
///
/// Trusted: calls `LinkedHashMap::entry` and on its result `Entry::or_insert`.
/// For a key that the map holds, these return a reference to its value and
/// leave the order of the entries alone; for a new key they append an entry
/// with `default` as its value and return a reference to that. Keys are
/// compared by their text. What is written through the reference is the
/// entry's value afterwards.
#[verifier::external_body]
fn entry_or_insert<'a>(map: &'a mut GroupMap, key: GroupKey, default: Vec<String>) -> (slot:
    &'a mut Vec<String>)
    ensures
        match entry_keys(group_entries(*old(map))).index_of_first(key.deep_view()) {
            Some(i) => {
                &&& slot.deep_view() == group_entries(*old(map))[i].1
                &&& group_entries(*final(map)) == group_entries(*old(map)).update(
                    i,
                    (key.deep_view(), final(slot).deep_view()),
                )
            },
            None => {
                &&& *slot == default
                &&& group_entries(*final(map)) == group_entries(*old(map)).push(
                    (key.deep_view(), final(slot).deep_view()),
                )
            },
        },
{
    map.entry(key).or_insert(default)
}

/// Takes the entries out of a map, oldest first.
///
/// Trusted: calls `LinkedHashMap::into_iter`, whose iterator yields every
/// entry once, from the one inserted first to the one inserted last, and
/// collects what it yields.
#[verifier::external_body]
pub(crate) fn group_map_into_vec(map: GroupMap) -> (entries: Vec<(GroupKey, Vec<String>)>)
    ensures
        entries.deep_view() == group_entries(map),
{
    map.into_iter().collect()
}

/// The distinct keys of `pairs`, in the order in which they first occur.
pub open spec fn first_keys(pairs: Seq<(GroupKeyView, Seq<char>)>) -> Seq<GroupKeyView>
    decreases pairs.len(),
{
    if pairs.len() == 0 {
        Seq::empty()
    } else {
        let before = first_keys(pairs.drop_last());
        if before.contains(pairs.last().0) {
            before
        } else {
            before.push(pairs.last().0)
        }
    }
}

/// The values that `pairs` gives for `key`, in order.
pub open spec fn values_of(pairs: Seq<(GroupKeyView, Seq<char>)>, key: GroupKeyView) -> Seq<
    Seq<char>,
>
    decreases pairs.len(),
{
    if pairs.len() == 0 {
        Seq::empty()
    } else {
        let before = values_of(pairs.drop_last(), key);
        if pairs.last().0 == key {
            before.push(pairs.last().1)
        } else {
            before
        }
    }
}

/// `pairs` grouped by key: one entry per distinct key, in order of first
/// occurrence, each with all the values of that key in order.
pub open spec fn grouped(pairs: Seq<(GroupKeyView, Seq<char>)>) -> Seq<
    (GroupKeyView, Seq<Seq<char>>),
> {
    first_keys(pairs).map_values(|k: GroupKeyView| (k, values_of(pairs, k)))
}

/// The keys of the groups are exactly the keys of the pairs, and no key
/// comes twice.
pub proof fn lemma_first_keys(pairs: Seq<(GroupKeyView, Seq<char>)>)
    ensures
        first_keys(pairs).no_duplicates(),
        forall|k: GroupKeyView|
            first_keys(pairs).contains(k) <==> exists|i: int|
                0 <= i < pairs.len() && (#[trigger] pairs[i]).0 == k,
    decreases pairs.len(),
{
    if pairs.len() > 0 {
        let init = pairs.drop_last();
        let last = pairs.last();
        lemma_first_keys(init);
        let before = first_keys(init);
        assert forall|k: GroupKeyView| first_keys(pairs).contains(k) implies exists|i: int|
            0 <= i < pairs.len() && (#[trigger] pairs[i]).0 == k by {
            if before.contains(k) {
                let i = choose|i: int| 0 <= i < init.len() && (#[trigger] init[i]).0 == k;
                assert(pairs[i] == init[i]);
            } else {
                let j = choose|j: int| 0 <= j < first_keys(pairs).len() && first_keys(pairs)[j] == k;
                assert(k == last.0);
                assert(pairs[pairs.len() - 1].0 == k);
            }
        }
        assert forall|k: GroupKeyView|
            (exists|i: int|
                0 <= i < pairs.len() && (#[trigger] pairs[i]).0 == k) implies first_keys(
            pairs,
        ).contains(k) by {
            let i = choose|i: int| 0 <= i < pairs.len() && (#[trigger] pairs[i]).0 == k;
            if i < init.len() {
                assert(init[i] == pairs[i]);
                assert(before.contains(k));
                let j = choose|j: int| 0 <= j < before.len() && before[j] == k;
                assert(first_keys(pairs)[j] == k);
            } else {
                assert(k == last.0);
                if !before.contains(k) {
                    assert(first_keys(pairs)[before.len() as int] == k);
                }
            }
        }
    }
}

/// The values of a key hold the value of every pair with that key, and
/// nothing else; a key has values exactly if it is one of the keys.
pub proof fn lemma_values_of(pairs: Seq<(GroupKeyView, Seq<char>)>, key: GroupKeyView)
    ensures
        values_of(pairs, key).len() <= pairs.len(),
        forall|i: int|
            0 <= i < pairs.len() && (#[trigger] pairs[i]).0 == key ==> values_of(
                pairs,
                key,
            ).contains(pairs[i].1),
        forall|v: Seq<char>| #[trigger]
            values_of(pairs, key).contains(v) ==> exists|i: int|
                0 <= i < pairs.len() && #[trigger] pairs[i] == (key, v),
        values_of(pairs, key).len() == 0 <==> !first_keys(pairs).contains(key),
    decreases pairs.len(),
{
    lemma_first_keys(pairs);
    if pairs.len() > 0 {
        let init = pairs.drop_last();
        let last = pairs.last();
        lemma_values_of(init, key);
        lemma_first_keys(init);
        let before = values_of(init, key);
        let all = values_of(pairs, key);
        assert forall|i: int| 0 <= i < pairs.len() && (#[trigger] pairs[i]).0 == key implies all.contains(
            pairs[i].1,
        ) by {
            if i < init.len() {
                assert(init[i] == pairs[i]);
                let j = choose|j: int| 0 <= j < before.len() && before[j] == pairs[i].1;
                assert(all[j] == pairs[i].1);
            } else {
                assert(all[all.len() - 1] == pairs[i].1);
            }
        }
        assert forall|v: Seq<char>| #[trigger] all.contains(v) implies exists|i: int|
            0 <= i < pairs.len() && #[trigger] pairs[i] == (key, v) by {
            let j = choose|j: int| 0 <= j < all.len() && all[j] == v;
            if j < before.len() {
                assert(before.contains(v));
                let i = choose|i: int| 0 <= i < init.len() && #[trigger] init[i] == (key, v);
                assert(pairs[i] == init[i]);
            } else {
                assert(pairs[pairs.len() - 1] == (key, v));
            }
        }
        if last.0 != key {
            assert(first_keys(pairs).contains(key) <==> first_keys(init).contains(key)) by {
                if first_keys(init).contains(key) {
                    let j = choose|j: int|
                        0 <= j < first_keys(init).len() && first_keys(init)[j] == key;
                    assert(first_keys(pairs)[j] == key);
                }
            }
        } else {
            assert(pairs[pairs.len() - 1].0 == key);
        }
    }
}

/// Grouping merges the pairs that share a key: two pairs with the same key
/// end up in one and the same group, the only one with that key, and that
/// group holds the values of both.
pub proof fn lemma_same_key_one_group(pairs: Seq<(GroupKeyView, Seq<char>)>, i: int, j: int)
    requires
        0 <= i < pairs.len(),
        0 <= j < pairs.len(),
        pairs[i].0 == pairs[j].0,
    ensures
        exists|g: int|
            {
                &&& 0 <= g < grouped(pairs).len()
                &&& (#[trigger] grouped(pairs)[g]).0 == pairs[i].0
                &&& grouped(pairs)[g].1.contains(pairs[i].1)
                &&& grouped(pairs)[g].1.contains(pairs[j].1)
                &&& forall|h: int|
                    0 <= h < grouped(pairs).len() && (#[trigger] grouped(pairs)[h]).0
                        == pairs[i].0 ==> h == g
            },
{
    let key = pairs[i].0;
    lemma_first_keys(pairs);
    lemma_values_of(pairs, key);
    assert(first_keys(pairs).contains(key));
    let g = choose|g: int| 0 <= g < first_keys(pairs).len() && first_keys(pairs)[g] == key;
    assert(grouped(pairs)[g] == (key, values_of(pairs, key)));
    assert forall|h: int|
        0 <= h < grouped(pairs).len() && (#[trigger] grouped(pairs)[h]).0 == key implies h
        == g by {
        assert(first_keys(pairs)[h] == key);
    }
}

/// Copies a key.
fn clone_key(key: &GroupKey) -> (copy: GroupKey)
    ensures
        copy.deep_view() == key.deep_view(),
{
    let output = match &key.0 {
        Some(o) => Some(o.clone()),
        None => None,
    };
    (output, key.1.clone())
}

/// Groups `pairs` by key.
///
/// The map holds one entry per distinct key, in the order in which the keys
/// first occur in `pairs`; under each key stand the values of all pairs with
/// that key, in the order of `pairs`.
pub fn into_linked_group_map(pairs: Vec<(GroupKey, String)>) -> (map: GroupMap)
    ensures
        group_entries(map) == grouped(pairs.deep_view()),
{
    let mut lookup = group_map_new();
    let mut i: usize = 0;
    let ghost all = pairs.deep_view();
    while i < pairs.len()
        invariant
            i <= pairs.len(),
            all == pairs.deep_view(),
            group_entries(lookup) == grouped(all.take(i as int)),
        decreases pairs.len() - i,
    {
        let key = clone_key(&pairs[i].0);
        let val = pairs[i].1.clone();
        let ghost done = all.take(i as int);
        let ghost next = all.take(i + 1);
        let ghost entries = group_entries(lookup);
        let ghost k = key.deep_view();
        let ghost v = val@;
        proof {
            assert(all[i as int] == (k, v));
            assert(next.drop_last() =~= done);
            assert(next.last() == (k, v));
            lemma_first_keys(done);
            lemma_values_of(done, k);
            assert(entry_keys(entries) =~= first_keys(done));
            entry_keys(entries).index_of_first_ensures(k);
        }
        let slot = entry_or_insert(&mut lookup, key, Vec::new());
        let ghost found = slot.deep_view();
        slot.push(val);
        proof {
            assert(slot.deep_view() =~= found.push(v));
            let after = group_entries(lookup);
            match entry_keys(entries).index_of_first(k) {
                Some(p) => {
                    assert(first_keys(next) == first_keys(done));
                    assert(found == values_of(done, k));
                    assert forall|m: int| 0 <= m < after.len() implies after[m] == grouped(
                        next,
                    )[m] by {
                        if m != p {
                            assert(first_keys(done)[m] != k);
                        }
                    }
                    assert(after =~= grouped(next));
                },
                None => {
                    assert(first_keys(next) == first_keys(done).push(k));
                    assert(found =~= Seq::<Seq<char>>::empty());
                    assert(values_of(done, k).len() == 0);
                    assert(values_of(done, k) =~= Seq::<Seq<char>>::empty());
                    assert forall|m: int| 0 <= m < after.len() implies after[m] == grouped(
                        next,
                    )[m] by {
                        if m < entries.len() {
                            assert(first_keys(done)[m] != k);
                        }
                    }
                    assert(after =~= grouped(next));
                },
            }
        }
        i = i + 1;
    }
    proof {
        assert(all.take(i as int) =~= all);
    }
    lookup
}

/// Collections of key-value pairs that can be grouped by key.
pub trait ILGM: Sized {
    /// The pairs that the collection holds, in order.
    spec fn pairs(self) -> Seq<(GroupKeyView, Seq<char>)>;

    /// Groups the pairs by key, keys in order of first occurrence.
    fn into_linked_group_map(self) -> (map: GroupMap)
        ensures
            group_entries(map) == grouped(self.pairs()),
    ;
}

impl ILGM for Vec<(GroupKey, String)> {
    open spec fn pairs(self) -> Seq<(GroupKeyView, Seq<char>)> {
        self.deep_view()
    }

    fn into_linked_group_map(self) -> (map: GroupMap) {
        into_linked_group_map(self)
    }
}

} // verus!
