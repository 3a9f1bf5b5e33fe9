//! The layers opened for each item, keyed by item number.

use vstd::prelude::*;
use std::collections::HashMap;
use vstd::std_specs::hash::spec_keys_iter;
use vstd::std_specs::iter::IteratorSpec;
use crate::item_info::{decimal, push_decimal};

verus! {

broadcast use vstd::std_specs::hash::group_hash_axioms;

/// Layers per item number.
pub struct LayerRegistry<V> {
    layers: HashMap<u64, Vec<V>>,
}

/// `m` without key `removed`, each greater key moved down by one.
pub open spec fn shifted_down<V>(m: Map<u64, Seq<V>>, removed: u64) -> Map<u64, Seq<V>> {
    Map::new(
        |k: u64|
            if k < removed {
                m.contains_key(k)
            } else {
                k < u64::MAX && m.contains_key((k + 1) as u64)
            },
        |k: u64|
            if k < removed {
                m[k]
            } else {
                m[(k + 1) as u64]
            },
    )
}

/// The layers of `item` in `m`, none when it has no entry.
pub open spec fn layers_of<V>(m: Map<u64, Seq<V>>, item: u64) -> Seq<V> {
    if m.contains_key(item) {
        m[item]
    } else {
        Seq::empty()
    }
}

impl<V> View for LayerRegistry<V> {
    type V = Map<u64, Seq<V>>;

    closed spec fn view(&self) -> Map<u64, Seq<V>> {
        self.layers@.map_values(|v: Vec<V>| v@)
    }
}

impl<V> LayerRegistry<V> {
    /// No layers.
    pub fn new() -> (r: Self)
        ensures
            r@ == Map::<u64, Seq<V>>::empty(),
    {
        let r = LayerRegistry { layers: HashMap::new() };
        assert(r@ =~= Map::<u64, Seq<V>>::empty());
        r
    }

    /// The number of layers of `item`.
    pub fn layer_count(&self, item: u64) -> (n: usize)
        ensures
            n == layers_of(self@, item).len(),
    {
        match self.layers.get(&item) {
            Some(v) => v.len(),
            None => 0,
        }
    }

    /// Adds `layer` as the last layer of `item`.
    pub fn push_layer(&mut self, item: u64, layer: V)
        ensures
            final(self)@ == old(self)@.insert(item, layers_of(old(self)@, item).push(layer)),
    {
        let mut v = match self.layers.remove(&item) {
            Some(v) => v,
            None => Vec::new(),
        };
        v.push(layer);
        self.layers.insert(item, v);
        assert(self@ =~= old(self)@.insert(item, layers_of(old(self)@, item).push(layer)));
    }
    fn keys_of(&self) -> (ks: Vec<u64>)
        ensures
            ks@.no_duplicates(),
            ks@.to_set() == self.layers@.dom(),
            ks@.len() == self.layers@.dom().len(),
    {
        let mut ks: Vec<u64> = Vec::new();

        for k in it: self.layers.keys()
            invariant
                ks@ == it.seq().take(it.index() as int).unref(),
        {
            ks.push(*k);
            assert(it.seq().take(it.index() + 1).unref() =~= it.seq().take(
                it.index() as int,
            ).unref().push(*k));
        }
        assert(ks@ =~= spec_keys_iter(&self.layers).remaining().unref());

        ks
    }

    /// Removes the layers of item `removed` and returns them; the items
    /// after it move down by one, so that item numbers stay contiguous.
    pub fn remove_item(&mut self, removed: u64) -> (taken: Vec<V>)
        ensures
            taken@ == layers_of(old(self)@, removed),
            final(self)@ == shifted_down(old(self)@, removed),
    {
        let taken = match self.layers.remove(&removed) {
            Some(v) => v,
            None => Vec::new(),
        };
        let ghost rest = self.layers@;
        let keys = self.keys_of();
        let mut moved: HashMap<u64, Vec<V>> = HashMap::new();
        let mut i: usize = 0;
        while i < keys.len()
            invariant
                i <= keys.len(),
                keys@.no_duplicates(),
                keys@.to_set() == rest.dom(),
                !rest.contains_key(removed),
                forall|t: int| i <= t < keys.len() ==> self.layers@.contains_key(#[trigger] keys@[t]),
                forall|k: u64| #[trigger]
                    self.layers@.contains_key(k) ==> rest.contains_key(k) && self.layers@[k]
                        == rest[k],
                forall|k: u64| #[trigger]
                    moved@.contains_key(k) <==> exists|t: int|
                        0 <= t < i && new_key(#[trigger] keys@[t], removed) == k,
                forall|t: int|
                    0 <= t < i ==> #[trigger] moved@[new_key(keys@[t], removed)] == rest[keys@[t]],
            decreases keys.len() - i,
        {
            let k = keys[i];
            assert(rest.contains_key(k)) by {
                assert(keys@.to_set().contains(keys@[i as int]));
            }
            let ghost before = moved@;
            let v = match self.layers.remove(&k) {
                Some(v) => v,
                None => {
                    assert(false);
                    Vec::new()
                },
            };
            let nk = if k > removed {
                k - 1
            } else {
                k
            };
            assert(!before.contains_key(nk)) by {
                if before.contains_key(nk) {
                    let t = choose|t: int| 0 <= t < i && new_key(#[trigger] keys@[t], removed) == nk;
                    assert(keys@[t] != k);
                    assert(rest.contains_key(keys@[t])) by {
                        assert(keys@.to_set().contains(keys@[t]));
                    }
                }
            }
            moved.insert(nk, v);
            proof {
                assert forall|t: int| i + 1 <= t < keys.len() implies self.layers@.contains_key(
                    #[trigger] keys@[t],
                ) by {
                    assert(keys@[t] != k);
                }
                assert forall|k2: u64|
                    (exists|t: int| 0 <= t < i + 1 && new_key(#[trigger] keys@[t], removed) == k2)
                    implies #[trigger] moved@.contains_key(k2) by {
                    let t = choose|t: int| 0 <= t < i + 1 && new_key(#[trigger] keys@[t], removed) == k2;
                    if t < i {
                        assert(before.contains_key(k2));
                    }
                }
                assert forall|k2: u64| #[trigger]
                    moved@.contains_key(k2) implies exists|t: int|
                        0 <= t < i + 1 && new_key(#[trigger] keys@[t], removed) == k2 by {
                    if k2 != nk {
                        assert(before.contains_key(k2));
                        let t = choose|t: int| 0 <= t < i && new_key(#[trigger] keys@[t], removed) == k2;
                        assert(0 <= t < i + 1);
                    } else {
                        assert(new_key(keys@[i as int], removed) == k2);
                    }
                }
                assert forall|t: int| 0 <= t < i + 1 implies #[trigger] moved@[new_key(keys@[t], removed)]
                    == rest[keys@[t]] by {
                    if t < i {
                        assert(before.contains_key(new_key(keys@[t], removed)));
                    }
                }
            }
            i += 1;
        }
        self.layers = moved;
        proof {
            let old_view = old(self)@;
            let target = shifted_down(old_view, removed);
            assert forall|k: u64| #[trigger] self@.contains_key(k) <==> target.contains_key(k) by {
                if self@.contains_key(k) {
                    let t = choose|t: int| 0 <= t < keys.len() && new_key(#[trigger] keys@[t], removed) == k;
                    assert(keys@.to_set().contains(keys@[t]));
                } else {
                    if k < removed && old_view.contains_key(k) {
                        assert(rest.contains_key(k));
                        assert(keys@.to_set().contains(k));
                        let t = choose|t: int| 0 <= t < keys.len() && keys@[t] == k;
                        assert(new_key(keys@[t], removed) == k);
                    }
                    if k >= removed && k < u64::MAX && old_view.contains_key((k + 1) as u64) {
                        let k1 = (k + 1) as u64;
                        assert(rest.contains_key(k1));
                        assert(keys@.to_set().contains(k1));
                        let t = choose|t: int| 0 <= t < keys.len() && keys@[t] == k1;
                        assert(new_key(keys@[t], removed) == k);
                    }
                }
            }
            assert forall|k: u64| #[trigger] self@.contains_key(k) implies self@[k] == target[k] by {
                let t = choose|t: int| 0 <= t < keys.len() && new_key(#[trigger] keys@[t], removed) == k;
                assert(keys@.to_set().contains(keys@[t]));
                assert(moved@[k] == rest[keys@[t]]);
            }
            assert(self@ =~= target);
        }
        taken
    }

    /// Removes all layers and returns them, each with its item number.
    pub fn take_all(&mut self) -> (all: Vec<(u64, Vec<V>)>)
        ensures
            final(self)@ == Map::<u64, Seq<V>>::empty(),
            all@.len() == old(self)@.dom().len(),
            forall|t: int, u: int| 0 <= t < u < all@.len() ==> #[trigger] all@[t].0 != #[trigger] all@[u].0,
            forall|t: int| 0 <= t < all@.len() ==> old(self)@.contains_key(#[trigger] all@[t].0)
                && all@[t].1@ == old(self)@[all@[t].0],
    {
        let keys = self.keys_of();
        let ghost start = self.layers@;
        let mut all: Vec<(u64, Vec<V>)> = Vec::new();
        let mut i: usize = 0;
        while i < keys.len()
            invariant
                i <= keys.len(),
                keys@.no_duplicates(),
                keys@.to_set() == start.dom(),
                keys@.len() == start.dom().len(),
                all@.len() == i,
                forall|t: int| 0 <= t < i ==> (#[trigger] all@[t]).0 == keys@[t],
                forall|t: int| 0 <= t < i ==> start.contains_key(#[trigger] all@[t].0)
                    && all@[t].1@ == start[all@[t].0]@,
                forall|t: int| i <= t < keys.len() ==> self.layers@.contains_key(#[trigger] keys@[t]),
                forall|k: u64| #[trigger]
                    self.layers@.contains_key(k) ==> start.contains_key(k) && self.layers@[k]
                        == start[k],
            decreases keys.len() - i,
        {
            let k = keys[i];
            let v = match self.layers.remove(&k) {
                Some(v) => v,
                None => {
                    assert(false);
                    Vec::new()
                },
            };
            proof {
                assert forall|t: int| i + 1 <= t < keys.len() implies self.layers@.contains_key(
                    #[trigger] keys@[t],
                ) by {
                    assert(keys@[t] != k);
                }
            }
            all.push((k, v));
            i += 1;
        }
        self.layers.clear();
        assert(self@ =~= Map::<u64, Seq<V>>::empty());
        assert(old(self)@.dom() =~= start.dom());
        all
    }
}

/// The title of layer `layer` of item `item`.
pub open spec fn layer_title_of(item: nat, layer: nat) -> Seq<char> {
    "Item "@ + decimal(item) + " Layer "@ + decimal(layer)
}

/// The title of layer `layer` of item `item`.
pub fn layer_title(item: u64, layer: u64) -> (t: String)
    ensures
        t@ == layer_title_of(item as nat, layer as nat),
{
    let mut t = String::from_str("Item ");
    push_decimal(&mut t, item);
    t.append(" Layer ");
    push_decimal(&mut t, layer);
    t
}

impl<V> LayerRegistry<V> {
    /// The title of the layer that "Add Layer" opens for item `item`: none
    /// for item 0, which stands for an item without a number; else the
    /// title of the item's next layer.
    pub fn new_layer_title(&self, item: u64) -> (t: Option<String>)
        requires
            layers_of(self@, item).len() < u64::MAX,
        ensures
            item == 0 ==> t is None,
            item != 0 ==> (t matches Some(title) && title@ == layer_title_of(
                item as nat,
                layers_of(self@, item).len() + 1,
            )),
    {
        if item == 0 {
            return None;
        }
        let count = self.layer_count(item);
        Some(layer_title(item, count as u64 + 1))
    }
}

/// Adding a layer to item `item` (what `push_layer` does to the view)
/// gives that item one more layer, the new one last after the earlier ones,
/// and leaves every other item's layers as they were.
pub proof fn lemma_add_layer<V>(m: Map<u64, Seq<V>>, item: u64, layer: V)
    ensures
        ({
            let m2 = m.insert(item, layers_of(m, item).push(layer));
            &&& layers_of(m2, item).len() == layers_of(m, item).len() + 1
            &&& layers_of(m2, item).last() == layer
            &&& layers_of(m2, item).drop_last() == layers_of(m, item)
            &&& forall|k: u64| k != item ==> #[trigger] layers_of(m2, k) == layers_of(m, k)
        }),
{
    let m2 = m.insert(item, layers_of(m, item).push(layer));
    assert(layers_of(m2, item).drop_last() =~= layers_of(m, item));
}

/// When item `removed` goes and the items after it are numbered one lower,
/// every other item keeps its layers under its new number.
pub proof fn lemma_layers_follow_renumbering<V>(m: Map<u64, Seq<V>>, removed: u64, k: u64)
    requires
        m.contains_key(k),
        k != removed,
    ensures
        shifted_down(m, removed).contains_key(new_key(k, removed)),
        shifted_down(m, removed)[new_key(k, removed)] == m[k],
{
}

/// The item number a kept item gets once item `removed` is gone.
pub open spec fn new_key(k: u64, removed: u64) -> u64 {
    if k > removed {
        (k - 1) as u64
    } else {
        k
    }
}

} // verus!
