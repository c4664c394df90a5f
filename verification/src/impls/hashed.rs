//! The codecs of hash sets and hash maps.
//!
//! Both are written as collections of their elements, in the order in which
//! their iterators hand the elements out; a map's elements are its pairs of
//! key and value. What is promised of them holds for key types that keep to
//! the model of a hash table key, `obeys_key_model`.
use crate::errors::ByteVecError;
use crate::impls::collections::{
    bodies_of, collection_decodes_to, collection_encoding, collection_size, decode_items,
    encode_items, lemma_items_round_trip,
};
use crate::impls::BVSize;
use crate::traits::{ByteDecodable, ByteEncodable, RoundTrip};
use std::collections::{HashMap, HashSet};
use std::hash::Hash;
use vstd::prelude::*;
use vstd::std_specs::hash::{
    into_iter, into_iter_hash_keys, obeys_key_model, spec_hash_keys_iter, spec_hash_map_iter,
};
use vstd::std_specs::iter::{IteratorSpec, VerusForLoopWrapper};

verus! {

/// Whether `order` holds every element of `set`, and no more items than
/// `set` has elements.
pub open spec fn lists<T>(order: Seq<T>, set: Set<T>) -> bool {
    order.to_set() == set && order.len() == set.len()
}

/// Whether `order` holds every pair of `map`, and no more items than `map`
/// has keys.
pub open spec fn lists_pairs<K, V>(order: Seq<(K, V)>, map: Map<K, V>) -> bool {
    order.to_set() == map.kv_pairs() && order.len() == map.dom().len()
}

/// The elements of `set` in the order in which it is written: the order in
/// which its iterator hands them out, which is known to hold each element
/// once the set has been walked; until then, some order that does.
pub open spec fn set_order<T>(set: &HashSet<T>) -> Seq<T> {
    let walked = into_iter_hash_keys(spec_hash_keys_iter(set));
    if lists(walked, set@) {
        walked
    } else {
        choose|order: Seq<T>| lists(order, set@)
    }
}

/// The pairs of `map` in the order in which it is written: the order in
/// which its iterator hands them out, which is known to hold each pair once
/// the map has been walked; until then, some order that does.
pub open spec fn map_order<K, V>(map: &HashMap<K, V>) -> Seq<(K, V)> {
    let walked = into_iter(spec_hash_map_iter(map));
    if lists_pairs(walked, map@) {
        walked
    } else {
        choose|order: Seq<(K, V)>| lists_pairs(order, map@)
    }
}

/// The map that holds the pairs of `items`, a later pair replacing an
/// earlier one with the same key.
pub open spec fn map_of<K, V>(items: Seq<(K, V)>) -> Map<K, V>
    decreases items.len(),
{
    if items.len() == 0 {
        Map::empty()
    } else {
        map_of(items.drop_last()).insert(items.last().0, items.last().1)
    }
}

/// The order of a set holds each of its elements.
pub proof fn lemma_set_order<T>(set: &HashSet<T>)
    ensures
        lists(set_order(set), set@),
{
    broadcast use vstd::std_specs::hash::group_hash_axioms;

    let walked = spec_hash_keys_iter(set).remaining().unref();
    assert(lists(walked, set@));
}

/// The order of a map holds each of its pairs.
pub proof fn lemma_map_order<K, V>(map: &HashMap<K, V>)
    ensures
        lists_pairs(map_order(map), map@),
{
    broadcast use vstd::std_specs::hash::group_hash_axioms;

    let walked = spec_hash_map_iter(map).remaining().unref();
    assert(lists_pairs(walked, map@));
}

/// The elements of `set`, in the order in which its iterator hands them out.
pub fn set_items<T>(set: &HashSet<T>) -> (items: Vec<&T>)
    ensures
        obeys_key_model::<T>() ==> items@.unref() == set_order(set),
{
    broadcast use vstd::std_specs::hash::group_hash_axioms;

    let count = set.len();
    let mut items: Vec<&T> = Vec::with_capacity(count);
    let mut iter = VerusForLoopWrapper::new(set.iter(), Ghost(None));
    let ghost all = iter.seq();
    assert(obeys_key_model::<T>() ==> all == spec_hash_keys_iter(set).remaining() && all.unref()
        == into_iter_hash_keys(spec_hash_keys_iter(set)));
    let mut i: usize = 0;
    while i < count
        invariant
            i <= count,
            iter.wf(),
            iter.seq() == all,
            iter.index() == i,
            obeys_key_model::<T>() ==> count == all.len() && items@ == all.take(i as int),
        decreases count - i,
    {
        match iter.next() {
            Some(item) => {
                items.push(item);
            },
            None => {
                assert(obeys_key_model::<T>() ==> items@ == all);
                return items;
            },
        }
        i += 1;
    }
    assert(obeys_key_model::<T>() ==> items@ == all);
    items
}

/// The pairs of `map`, in the order in which its iterator hands them out.
pub fn map_items<K, V>(map: &HashMap<K, V>) -> (items: Vec<(&K, &V)>)
    ensures
        obeys_key_model::<K>() ==> items@.unref() == map_order(map),
{
    broadcast use vstd::std_specs::hash::group_hash_axioms;

    let count = map.len();
    let mut items: Vec<(&K, &V)> = Vec::with_capacity(count);
    let mut iter = VerusForLoopWrapper::new(map.iter(), Ghost(None));
    let ghost all = iter.seq();
    assert(obeys_key_model::<K>() ==> all == spec_hash_map_iter(map).remaining() && all.unref()
        == into_iter(spec_hash_map_iter(map)));
    let mut i: usize = 0;
    while i < count
        invariant
            i <= count,
            iter.wf(),
            iter.seq() == all,
            iter.index() == i,
            obeys_key_model::<K>() ==> count == all.len() && items@ == all.take(i as int),
        decreases count - i,
    {
        match iter.next() {
            Some(item) => {
                items.push(item);
            },
            None => {
                assert(obeys_key_model::<K>() ==> items@ == all);
                return items;
            },
        }
        i += 1;
    }
    assert(obeys_key_model::<K>() ==> items@ == all);
    items
}

/// A set is written as the collection of its elements, in the order of its iterator.
impl<T: ByteEncodable + Eq + Hash> ByteEncodable for HashSet<T> {
    open spec fn obeys_encoding_spec() -> bool {
        T::obeys_encoding_spec() && obeys_key_model::<T>()
    }

    open spec fn encoding(&self, width: nat) -> Seq<u8> {
        collection_encoding(set_order(self), width)
    }

    fn get_size<Size>(&self) -> (size: Option<Size>) where Size: BVSize {
        let items = set_items(self);
        assert(bodies_of::<&T>(items@, Size::width()) =~= bodies_of::<T>(
            items@.unref(),
            Size::width(),
        ));
        collection_size::<Size, &T>(items.as_slice())
    }

    fn encode<Size>(&self) -> (bytes: Result<Vec<u8>, ByteVecError>) where Size: BVSize {
        let items = set_items(self);
        assert(bodies_of::<&T>(items@, Size::width()) =~= bodies_of::<T>(
            items@.unref(),
            Size::width(),
        ));
        encode_items::<Size, &T>(items.as_slice())
    }
}

/// A buffer decodes to the set of the elements that it holds as a collection.
impl<T: ByteDecodable + Eq + Hash> ByteDecodable for HashSet<T> {
    open spec fn obeys_decoding_spec() -> bool {
        T::obeys_decoding_spec() && obeys_key_model::<T>()
    }

    open spec fn decodes_to(
        bytes: Seq<u8>,
        width: nat,
        outcome: Result<Self, ByteVecError>,
    ) -> bool {
        match outcome {
            Ok(set) => exists|items: Seq<T>| #[trigger]
                collection_decodes_to::<T>(bytes, width, Ok(items)) && set@ == items.to_set(),
            Err(e) => collection_decodes_to::<T>(bytes, width, Err(e)),
        }
    }

    fn decode<Size>(bytes: &[u8]) -> (outcome: Result<Self, ByteVecError>) where Size: BVSize {
        broadcast use vstd::std_specs::hash::group_hash_axioms;

        let items = match decode_items::<Size, T>(bytes) {
            Ok(items) => items,
            Err(e) => {
                return Err(e);
            },
        };
        let ghost all = items@;
        let mut set: HashSet<T> = HashSet::with_capacity(items.len());
        assert(all.take(0).to_set() =~= Set::<T>::empty());
        for item in iter: items
            invariant
                iter.seq() == all,
                obeys_key_model::<T>() ==> set@ == all.take(iter.index()).to_set(),
        {
            proof {
                let i = iter.index();
                assert(all.take(i + 1) =~= all.take(i).push(all[i]));
                all.take(i).lemma_push_to_set_commute(all[i]);
            }
            set.insert(item);
        }
        assert(all.take(all.len() as int) =~= all);
        Ok(set)
    }
}

/// A map is written as the collection of its pairs of key and value, in the
/// order of its iterator.
impl<K: ByteEncodable + Eq + Hash, V: ByteEncodable> ByteEncodable for HashMap<K, V> {
    open spec fn obeys_encoding_spec() -> bool {
        K::obeys_encoding_spec() && V::obeys_encoding_spec() && obeys_key_model::<K>()
    }

    open spec fn encoding(&self, width: nat) -> Seq<u8> {
        collection_encoding(map_order(self), width)
    }

    fn get_size<Size>(&self) -> (size: Option<Size>) where Size: BVSize {
        let items = map_items(self);
        assert(bodies_of::<(&K, &V)>(items@, Size::width()) =~= bodies_of::<(K, V)>(
            items@.unref(),
            Size::width(),
        ));
        collection_size::<Size, (&K, &V)>(items.as_slice())
    }

    fn encode<Size>(&self) -> (bytes: Result<Vec<u8>, ByteVecError>) where Size: BVSize {
        let items = map_items(self);
        assert(bodies_of::<(&K, &V)>(items@, Size::width()) =~= bodies_of::<(K, V)>(
            items@.unref(),
            Size::width(),
        ));
        encode_items::<Size, (&K, &V)>(items.as_slice())
    }
}

/// A buffer decodes to the map of the pairs that it holds as a collection;
/// of two pairs with one key, the later one stays.
impl<K: ByteDecodable + Eq + Hash, V: ByteDecodable> ByteDecodable for HashMap<K, V> {
    open spec fn obeys_decoding_spec() -> bool {
        K::obeys_decoding_spec() && V::obeys_decoding_spec() && obeys_key_model::<K>()
    }

    open spec fn decodes_to(
        bytes: Seq<u8>,
        width: nat,
        outcome: Result<Self, ByteVecError>,
    ) -> bool {
        match outcome {
            Ok(map) => exists|items: Seq<(K, V)>| #[trigger]
                collection_decodes_to::<(K, V)>(bytes, width, Ok(items)) && map@ == map_of(items),
            Err(e) => collection_decodes_to::<(K, V)>(bytes, width, Err(e)),
        }
    }

    fn decode<Size>(bytes: &[u8]) -> (outcome: Result<Self, ByteVecError>) where Size: BVSize {
        broadcast use vstd::std_specs::hash::group_hash_axioms;

        let items = match decode_items::<Size, (K, V)>(bytes) {
            Ok(items) => items,
            Err(e) => {
                return Err(e);
            },
        };
        let ghost all = items@;
        let mut map: HashMap<K, V> = HashMap::with_capacity(items.len());
        assert(all.take(0) =~= Seq::<(K, V)>::empty());
        for item in iter: items
            invariant
                iter.seq() == all,
                obeys_key_model::<K>() ==> map@ == map_of(all.take(iter.index())),
        {
            proof {
                let i = iter.index();
                assert(all.take(i + 1).drop_last() =~= all.take(i));
            }
            let (key, value) = item;
            map.insert(key, value);
        }
        assert(all.take(all.len() as int) =~= all);
        Ok(map)
    }
}

/// Whether `copy` holds what `set` holds: each element of either has its
/// like in the other.
pub open spec fn same_set<T: RoundTrip>(set: Set<T>, copy: Set<T>) -> bool {
    &&& forall|x: T| #[trigger]
        set.contains(x) ==> exists|y: T| #[trigger] copy.contains(y) && x.same(&y)
    &&& forall|y: T| #[trigger]
        copy.contains(y) ==> exists|x: T| #[trigger] set.contains(x) && x.same(&y)
}

/// Whether `copy` holds what `map` holds: each entry of `copy` is like an
/// entry of `map`, and each key of `map` has its like in `copy`.
pub open spec fn same_map<K: RoundTrip, V: RoundTrip>(map: Map<K, V>, copy: Map<K, V>) -> bool {
    &&& forall|l: K| #[trigger]
        copy.contains_key(l) ==> exists|k: K| #[trigger]
            map.contains_key(k) && k.same(&l) && map[k].same(&copy[l])
    &&& forall|k: K| #[trigger]
        map.contains_key(k) ==> exists|l: K| #[trigger] copy.contains_key(l) && k.same(&l)
}

/// Whether pair `i` of `items` is the one that `map_of(items)` keeps under the key `k`.
pub open spec fn kept_at<K, V>(items: Seq<(K, V)>, k: K, i: int) -> bool {
    0 <= i < items.len() && items[i].0 == k && map_of(items)[k] == items[i].1
}

/// The map of a run of pairs has the keys of those pairs, each with the
/// value of one of its pairs.
pub proof fn lemma_map_of<K, V>(items: Seq<(K, V)>)
    ensures
        forall|i: int| 0 <= i < items.len() ==> map_of(items).contains_key((#[trigger] items[i]).0),
        forall|k: K| #[trigger]
            map_of(items).contains_key(k) ==> exists|i: int| #[trigger] kept_at(items, k, i),
    decreases items.len(),
{
    if items.len() > 0 {
        let before = items.drop_last();
        let last = items.last();
        lemma_map_of(before);
        assert forall|i: int| 0 <= i < items.len() implies map_of(items).contains_key(
            (#[trigger] items[i]).0,
        ) by {
            if i < before.len() {
                assert(before[i] == items[i]);
            }
        }
        assert forall|k: K| #[trigger] map_of(items).contains_key(k) implies exists|i: int| #[trigger]
            kept_at(items, k, i) by {
            if k == last.0 {
                assert(kept_at(items, k, items.len() - 1));
            } else {
                assert(map_of(before).contains_key(k));
                let i = choose|i: int| #[trigger] kept_at(before, k, i);
                assert(before[i] == items[i]);
                assert(kept_at(items, k, i));
            }
        }
    }
}

/// Decoding the encoding of a set gives a set that holds what it holds.
impl<T: RoundTrip + Eq + Hash> RoundTrip for HashSet<T> {
    open spec fn same(&self, other: &Self) -> bool {
        same_set(self@, other@)
    }

    proof fn lemma_round_trip(&self, width: nat, outcome: Result<Self, ByteVecError>) {
        let order = set_order(self);
        let bytes = collection_encoding(order, width);
        lemma_set_order(self);
        match outcome {
            Ok(copy) => {
                let items = choose|items: Seq<T>| #[trigger]
                    collection_decodes_to::<T>(bytes, width, Ok(items)) && copy@
                        == items.to_set();
                lemma_items_round_trip::<T>(order, width, Ok(items));
                assert forall|x: T| #[trigger] self@.contains(x) implies exists|y: T| #[trigger]
                    copy@.contains(y) && x.same(&y) by {
                    assert(order.contains(x));
                    let i = choose|i: int| 0 <= i < order.len() && order[i] == x;
                    assert(order[i].same(&items[i]));
                    assert(items.contains(items[i]));
                    assert(copy@.contains(items[i]));
                }
                assert forall|y: T| #[trigger] copy@.contains(y) implies exists|x: T| #[trigger]
                    self@.contains(x) && x.same(&y) by {
                    assert(items.contains(y));
                    let i = choose|i: int| 0 <= i < items.len() && items[i] == y;
                    assert(order[i].same(&items[i]));
                    assert(order.contains(order[i]));
                    assert(self@.contains(order[i]));
                }
            },
            Err(e) => {
                lemma_items_round_trip::<T>(order, width, Err(e));
            },
        }
    }
}

/// Decoding the encoding of a map gives a map that holds what it holds.
impl<K: RoundTrip + Eq + Hash, V: RoundTrip> RoundTrip for HashMap<K, V> {
    open spec fn same(&self, other: &Self) -> bool {
        same_map(self@, other@)
    }

    proof fn lemma_round_trip(&self, width: nat, outcome: Result<Self, ByteVecError>) {
        let order = map_order(self);
        let bytes = collection_encoding(order, width);
        lemma_map_order(self);
        match outcome {
            Ok(copy) => {
                let items = choose|items: Seq<(K, V)>| #[trigger]
                    collection_decodes_to::<(K, V)>(bytes, width, Ok(items)) && copy@ == map_of(
                        items,
                    );
                lemma_items_round_trip::<(K, V)>(order, width, Ok(items));
                lemma_map_of(items);
                assert forall|i: int| 0 <= i < order.len() implies (#[trigger] order[i]).0.same(
                    &items[i].0,
                ) && order[i].1.same(&items[i].1) && self@.contains_key(order[i].0)
                    && self@[order[i].0] == order[i].1 by {
                    assert(order[i].same(&items[i]));
                    assert(order.contains(order[i]));
                    assert(self@.kv_pairs().contains(order[i]));
                }
                assert forall|l: K| #[trigger] copy@.contains_key(l) implies exists|k: K| #[trigger]
                    self@.contains_key(k) && k.same(&l) && self@[k].same(&copy@[l]) by {
                    let i = choose|i: int| #[trigger] kept_at(items, l, i);
                    let pair = order[i];
                    assert(self@.contains_key(pair.0) && pair.0.same(&l) && self@[pair.0].same(
                        &copy@[l],
                    ));
                }
                assert forall|k: K| #[trigger] self@.contains_key(k) implies exists|l: K| #[trigger]
                    copy@.contains_key(l) && k.same(&l) by {
                    let pair = (k, self@[k]);
                    assert(self@.kv_pairs().contains(pair));
                    assert(order.contains(pair));
                    let i = choose|i: int| 0 <= i < order.len() && order[i] == pair;
                    assert(order[i].0.same(&items[i].0));
                    assert(copy@.contains_key(items[i].0));
                }
            },
            Err(e) => {
                lemma_items_round_trip::<(K, V)>(order, width, Err(e));
            },
        }
    }
}

/// Where two keys are alike only if they are equal, a copy that holds what
/// `map` holds has the keys of `map`, each with a value like the one in `map`.
pub proof fn lemma_same_map_keys<K: RoundTrip, V: RoundTrip>(map: Map<K, V>, copy: Map<K, V>)
    requires
        same_map(map, copy),
        forall|a: K, b: K| #[trigger] a.same(&b) ==> a == b,
    ensures
        copy.dom() == map.dom(),
        forall|k: K| #[trigger] map.contains_key(k) ==> map[k].same(&copy[k]),
{
    assert forall|k: K| copy.dom().contains(k) <==> map.dom().contains(k) by {
        if copy.contains_key(k) {
            let m = choose|m: K| #[trigger] map.contains_key(m) && m.same(&k) && map[m].same(
                &copy[k],
            );
            assert(m == k);
        }
        if map.contains_key(k) {
            let l = choose|l: K| #[trigger] copy.contains_key(l) && k.same(&l);
            assert(l == k);
        }
    }
    assert(copy.dom() =~= map.dom());
    assert forall|k: K| #[trigger] map.contains_key(k) implies map[k].same(&copy[k]) by {
        assert(copy.contains_key(k));
        let m = choose|m: K| #[trigger] map.contains_key(m) && m.same(&k) && map[m].same(
            &copy[k],
        );
        assert(m == k);
    }
}

} // verus!
