use vstd::prelude::*;
use std::collections::BTreeMap;

use crate::assets::{AssetRegistry, SceneLayerBehaviour};
use crate::ids::{AssetId, EndpointTarget, SceneInRoom};
use crate::scene_stack_entry::{view_wf, active_view, affected_by_change_view, is_enabled_view, controls_view, disable_post, enable_post, union_affected, EntryView, SceneStackEntry};

verus! {

broadcast use vstd::seq_lib::group_seq_properties;

/// Where a layer stands in the stack: by priority, then by layer id.
#[derive(Clone, Copy, Debug, PartialEq, Eq, Structural)]
pub struct SceneLayerKey {
    pub priority: u32,
    pub layer_id: AssetId,
}

/// The order of layer keys: by priority, then by layer id.
pub open spec fn key_lt(a: SceneLayerKey, b: SceneLayerKey) -> bool {
    a.priority < b.priority || (a.priority == b.priority && a.layer_id < b.layer_id)
}

/// Whether `a` comes before `b`.
pub fn key_less(a: &SceneLayerKey, b: &SceneLayerKey) -> (r: bool)
    ensures
        r == key_lt(*a, *b),
{
    a.priority < b.priority || (a.priority == b.priority && a.layer_id < b.layer_id)
}

/// The scenes enabled on one layer, with the layer's key.
pub struct LayerSlot {
    pub key: SceneLayerKey,
    pub entry: SceneStackEntry,
}

/// An event telling listeners which scenes are now active on a layer.
pub struct SceneStackEvent {
    pub layer: AssetId,
    pub active_scenes: Vec<SceneInRoom>,
}

/// The keys of `s` increase strictly.
pub open spec fn slot_keys_increasing(s: Seq<(SceneLayerKey, EntryView)>) -> bool {
    forall|i: int, j: int| 0 <= i < j < s.len() ==> key_lt(s[i].0, s[j].0)
}

/// Whether some slot of `s` has key `k`.
pub open spec fn has_slot(s: Seq<(SceneLayerKey, EntryView)>, k: SceneLayerKey) -> bool {
    exists|i: int| 0 <= i < s.len() && #[trigger] s[i].0 == k
}

/// The map from layer keys to entries that `s` stands for.
pub open spec fn slots_map(s: Seq<(SceneLayerKey, EntryView)>) -> Map<SceneLayerKey, EntryView> {
    Map::new(
        |k: SceneLayerKey| has_slot(s, k),
        |k: SceneLayerKey| s[choose|i: int| 0 <= i < s.len() && #[trigger] s[i].0 == k].1,
    )
}

/// With increasing keys, slot `i` is what the map holds for its key.
pub proof fn lemma_slot_in_map(s: Seq<(SceneLayerKey, EntryView)>, i: int)
    requires
        slot_keys_increasing(s),
        0 <= i < s.len(),
    ensures
        slots_map(s).contains_key(s[i].0),
        slots_map(s)[s[i].0] == s[i].1,
{
    assert(has_slot(s, s[i].0));
    let j = choose|j: int| 0 <= j < s.len() && #[trigger] s[j].0 == s[i].0;
    if j != i {
        if j < i {
            assert(key_lt(s[j].0, s[i].0));
        } else {
            assert(key_lt(s[i].0, s[j].0));
        }
    }
}

/// The key under which scene `scene` is stacked, if the scene is registered.
pub open spec fn scene_key<C>(assets: AssetRegistry<C>, scene: AssetId) -> Option<SceneLayerKey> {
    match assets.scene_layer(scene) {
        Some(layer) => Some(SceneLayerKey { priority: assets.layer(layer).priority, layer_id: layer }),
        None => None,
    }
}

/// The entry a fresh layer with behaviour `b` starts with.
pub open spec fn fresh_view(b: SceneLayerBehaviour) -> EntryView {
    match b {
        SceneLayerBehaviour::One => EntryView::One(None),
        SceneLayerBehaviour::OnePerRoom => EntryView::OnePerRoom(Seq::empty()),
        SceneLayerBehaviour::Stack => EntryView::Stack(Seq::empty()),
    }
}

/// The entry of layer `key` in `m`, or a fresh one for the layer's behaviour.
pub open spec fn entry_or_fresh<C>(
    m: Map<SceneLayerKey, EntryView>,
    assets: AssetRegistry<C>,
    key: SceneLayerKey,
) -> EntryView {
    if m.contains_key(key) {
        m[key]
    } else {
        fresh_view(assets.layer(key.layer_id).behaviour)
    }
}

/// The active scenes of the layers `s`, by layer id; a later layer with the same id
/// replaces an earlier one.
pub open spec fn active_map(s: Seq<(SceneLayerKey, EntryView)>) -> Map<AssetId, Seq<SceneInRoom>>
    decreases s.len(),
{
    if s.len() == 0 {
        Map::empty()
    } else {
        active_map(s.drop_last()).insert(s.last().0.layer_id, active_view(s.last().1))
    }
}

/// The control the first layer (lowest key) with a control for `target` asks for.
pub open spec fn layers_control<C>(
    s: Seq<(SceneLayerKey, EntryView)>,
    reg: AssetRegistry<C>,
    target: EndpointTarget,
) -> Option<C>
    decreases s.len(),
{
    if s.len() == 0 {
        None
    } else {
        match controls_view(s[0].1, reg, target) {
            Some(c) => Some(c),
            None => layers_control(s.drop_first(), reg, target),
        }
    }
}

/// All endpoints touched by an active scene of any layer.
pub open spec fn all_endpoints<C>(s: Seq<(SceneLayerKey, EntryView)>, reg: AssetRegistry<C>) -> Set<
    EndpointTarget,
>
    decreases s.len(),
{
    if s.len() == 0 {
        Set::empty()
    } else {
        all_endpoints(s.drop_last(), reg) + union_affected(reg, active_view(s.last().1))
    }
}

/// Replacing the entry of slot `i` replaces what the map holds for its key.
pub proof fn lemma_update_slot(s: Seq<(SceneLayerKey, EntryView)>, i: int, v: EntryView)
    requires
        slot_keys_increasing(s),
        0 <= i < s.len(),
    ensures
        slot_keys_increasing(s.update(i, (s[i].0, v))),
        slots_map(s.update(i, (s[i].0, v))) == slots_map(s).insert(s[i].0, v),
{
    let t = s.update(i, (s[i].0, v));
    assert forall|a: int, b: int| 0 <= a < b < t.len() implies key_lt(t[a].0, t[b].0) by {
        assert(t[a].0 == s[a].0);
        assert(t[b].0 == s[b].0);
    }
    assert forall|k: SceneLayerKey| #[trigger] slots_map(t).contains_key(k) == slots_map(s).insert(s[i].0, v).contains_key(k) by {
        if has_slot(t, k) {
            let j = choose|j: int| 0 <= j < t.len() && #[trigger] t[j].0 == k;
            assert(s[j].0 == k);
        }
        if has_slot(s, k) {
            let j = choose|j: int| 0 <= j < s.len() && #[trigger] s[j].0 == k;
            assert(t[j].0 == k);
        }
        assert(t[i].0 == s[i].0);
    }
    assert forall|k: SceneLayerKey| #[trigger] slots_map(t).contains_key(k) implies slots_map(t)[k] == slots_map(s).insert(s[i].0, v)[k] by {
        let j = choose|j: int| 0 <= j < t.len() && #[trigger] t[j].0 == k;
        lemma_slot_in_map(t, j);
        if j != i {
            lemma_slot_in_map(s, j);
            if j < i {
                assert(key_lt(t[j].0, t[i].0));
            } else {
                assert(key_lt(t[i].0, t[j].0));
            }
            assert(k != s[i].0);
        } else {
            assert(t[i].1 == v);
        }
    }
    assert(slots_map(t) =~= slots_map(s).insert(s[i].0, v));
}

/// Inserting a slot at its place adds its key to the map.
pub proof fn lemma_insert_slot(s: Seq<(SceneLayerKey, EntryView)>, i: int, k: SceneLayerKey, v: EntryView)
    requires
        slot_keys_increasing(s),
        0 <= i <= s.len(),
        forall|j: int| 0 <= j < i ==> key_lt(#[trigger] s[j].0, k),
        i < s.len() ==> key_lt(k, s[i].0),
    ensures
        slot_keys_increasing(s.insert(i, (k, v))),
        slots_map(s.insert(i, (k, v))) == slots_map(s).insert(k, v),
{
    let t = s.insert(i, (k, v));
    assert forall|a: int, b: int| 0 <= a < b < t.len() implies key_lt(t[a].0, t[b].0) by {
        if b < i {
            assert(t[a] == s[a] && t[b] == s[b]);
        } else if b == i {
            assert(t[a] == s[a]);
        } else if a < i {
            assert(t[a] == s[a] && t[b] == s[b - 1]);
            assert(key_lt(s[a].0, k));
            assert(key_lt(k, s[i].0));
            if b - 1 > i {
                assert(key_lt(s[i].0, s[b - 1].0));
            }
        } else if a == i {
            assert(t[b] == s[b - 1]);
            if b - 1 > i {
                assert(key_lt(s[i].0, s[b - 1].0));
            }
        } else {
            assert(t[a] == s[a - 1] && t[b] == s[b - 1]);
        }
    }
    assert forall|key: SceneLayerKey| #[trigger] slots_map(t).contains_key(key) == slots_map(s).insert(k, v).contains_key(key) by {
        if has_slot(t, key) {
            let j = choose|j: int| 0 <= j < t.len() && #[trigger] t[j].0 == key;
            if j < i {
                assert(s[j].0 == key);
            } else if j > i {
                assert(s[j - 1].0 == key);
            }
        }
        if has_slot(s, key) {
            let j = choose|j: int| 0 <= j < s.len() && #[trigger] s[j].0 == key;
            if j < i {
                assert(t[j].0 == key);
            } else {
                assert(t[j + 1].0 == key);
            }
        }
        assert(t[i].0 == k);
    }
    assert forall|key: SceneLayerKey| #[trigger] slots_map(t).contains_key(key) implies slots_map(t)[key] == slots_map(s).insert(k, v)[key] by {
        let j = choose|j: int| 0 <= j < t.len() && #[trigger] t[j].0 == key;
        lemma_slot_in_map(t, j);
        if j < i {
            lemma_slot_in_map(s, j);
            assert(key_lt(t[j].0, t[i].0));
            assert(key != k);
        } else if j > i {
            lemma_slot_in_map(s, j - 1);
            assert(key_lt(t[i].0, t[j].0));
            assert(key != k);
        } else {
            assert(t[i].1 == v);
        }
    }
    assert(slots_map(t) =~= slots_map(s).insert(k, v));
}

/// `m1` is layer map `m0` after enabling `scene`: unchanged when the scene is not
/// registered; otherwise only the scene's layer changes, as its entry's enabling says.
pub open spec fn layers_after_enable<C>(
    m0: Map<SceneLayerKey, EntryView>,
    m1: Map<SceneLayerKey, EntryView>,
    scene: SceneInRoom,
    assets: AssetRegistry<C>,
) -> bool {
    match scene_key(assets, scene.scene) {
        None => m1 == m0,
        Some(key) => {
            &&& m1.contains_key(key)
            &&& m1 == m0.insert(key, m1[key])
            &&& enable_post(entry_or_fresh(m0, assets, key), m1[key], scene, assets.rooms@)
        },
    }
}

/// `m1` is layer map `m0` after disabling `scene`: unchanged when the scene is not
/// registered; otherwise only the scene's layer changes, as its entry's disabling says.
pub open spec fn layers_after_disable<C>(
    m0: Map<SceneLayerKey, EntryView>,
    m1: Map<SceneLayerKey, EntryView>,
    scene: SceneInRoom,
    assets: AssetRegistry<C>,
) -> bool {
    match scene_key(assets, scene.scene) {
        None => m1 == m0,
        Some(key) => {
            &&& m1.contains_key(key)
            &&& m1 == m0.insert(key, m1[key])
            &&& disable_post(entry_or_fresh(m0, assets, key), m1[key], scene)
        },
    }
}

/// The endpoints whose light may change when `scene` is enabled or disabled on `m`.
pub open spec fn change_set<C>(
    m: Map<SceneLayerKey, EntryView>,
    assets: AssetRegistry<C>,
    scene: SceneInRoom,
) -> Set<EndpointTarget> {
    match scene_key(assets, scene.scene) {
        None => Set::empty(),
        Some(key) => affected_by_change_view(entry_or_fresh(m, assets, key), assets, scene),
    }
}

/// Whether `scene` counts as enabled on layer map `m`.
pub open spec fn enabled_in<C>(
    m: Map<SceneLayerKey, EntryView>,
    assets: AssetRegistry<C>,
    scene: SceneInRoom,
) -> bool {
    match scene_key(assets, scene.scene) {
        None => false,
        Some(key) => m.contains_key(key) && is_enabled_view(m[key], scene),
    }
}

/// `event` announces the active scenes of `scene`'s layer in `m`, and is absent exactly
/// when the scene is not registered.
pub open spec fn event_post<C>(
    m: Map<SceneLayerKey, EntryView>,
    assets: AssetRegistry<C>,
    scene: SceneInRoom,
    event: Option<SceneStackEvent>,
) -> bool {
    match scene_key(assets, scene.scene) {
        None => event is None,
        Some(key) => {
            &&& event is Some
            &&& event->0.layer == key.layer_id
            &&& event->0.active_scenes@ == active_view(m[key])
        },
    }
}

/// The scene layers with their enabled scenes, ordered by priority, then layer id.
pub struct SceneStack {
    layers: Vec<LayerSlot>,
}

impl SceneStack {
    /// The layers as keys and entries, in order.
    pub closed spec fn slots(&self) -> Seq<(SceneLayerKey, EntryView)> {
        self.layers@.map_values(|s: LayerSlot| (s.key, s.entry@))
    }

    /// The map from layer keys to entries.
    pub open spec fn layer_map(&self) -> Map<SceneLayerKey, EntryView> {
        slots_map(self.slots())
    }

    /// Keys increase and every entry is well formed.
    pub closed spec fn wf(&self) -> bool {
        &&& slot_keys_increasing(self.slots())
        &&& forall|i: int| 0 <= i < self.layers@.len() ==> (#[trigger] self.layers@[i]).entry.wf()
    }

    /// Every entry keeps what its operations keep.
    pub closed spec fn coherent(&self) -> bool {
        forall|i: int| 0 <= i < self.layers@.len() ==> (#[trigger] self.layers@[i]).entry.coherent()
    }

    /// An empty stack.
    pub fn new() -> (r: Self)
        ensures
            r.wf(),
            r.coherent(),
            r.slots() == Seq::<(SceneLayerKey, EntryView)>::empty(),
    {
        let r = SceneStack { layers: Vec::new() };
        proof {
            assert(r.slots() =~= Seq::<(SceneLayerKey, EntryView)>::empty());
        }
        r
    }

    /// Index of the first layer whose key is not below `key`.
    fn lower_bound(&self, key: SceneLayerKey) -> (r: usize)
        requires
            self.wf(),
        ensures
            r <= self.slots().len(),
            forall|i: int| 0 <= i < r ==> key_lt(#[trigger] self.slots()[i].0, key),
            r < self.slots().len() ==> !key_lt(self.slots()[r as int].0, key),
    {
        let mut i: usize = 0;
        while i < self.layers.len()
            invariant
                i <= self.layers@.len(),
                self.slots().len() == self.layers@.len(),
                forall|j: int| 0 <= j < i ==> key_lt(#[trigger] self.slots()[j].0, key),
            decreases self.layers@.len() - i,
        {
            if !key_less(&self.layers[i].key, &key) {
                return i;
            }
            i = i + 1;
        }
        i
    }

    /// The key of layer `layer_id`: its priority, then its id.
    fn get_layer<C>(assets: &AssetRegistry<C>, layer_id: AssetId) -> (r: SceneLayerKey)
        ensures
            r == (SceneLayerKey { priority: assets.layer(layer_id).priority, layer_id }),
    {
        let layer = assets.get_layer(layer_id);
        SceneLayerKey { priority: layer.priority, layer_id }
    }

    /// The index of the slot of layer `key`, adding a fresh slot for `behaviour` if absent.
    fn slot_for(&mut self, key: SceneLayerKey, behaviour: SceneLayerBehaviour) -> (r: usize)
        requires
            old(self).wf(),
        ensures
            final(self).wf(),
            old(self).coherent() ==> final(self).coherent(),
            r < final(self).slots().len(),
            final(self).slots()[r as int].0 == key,
            final(self).layer_map() == old(self).layer_map().insert(
                key,
                if old(self).layer_map().contains_key(key) {
                    old(self).layer_map()[key]
                } else {
                    fresh_view(behaviour)
                },
            ),
    {
        let i = self.lower_bound(key);
        let ghost s0 = self.slots();
        if i < self.layers.len() && self.layers[i].key == key {
            proof {
                lemma_slot_in_map(s0, i as int);
                assert(s0.update(i as int, (s0[i as int].0, s0[i as int].1)) =~= s0);
                assert(slots_map(s0).insert(key, slots_map(s0)[key]) =~= slots_map(s0));
            }
            i
        } else {
            proof {
                if has_slot(s0, key) {
                    let j = choose|j: int| 0 <= j < s0.len() && #[trigger] s0[j].0 == key;
                    if j >= i {
                        if j > i {
                            assert(key_lt(s0[i as int].0, s0[j].0));
                        }
                    }
                }
            }
            let entry = SceneStackEntry::for_behaviour(behaviour);
            self.layers.insert(i, LayerSlot { key, entry });
            proof {
                assert(self.slots() =~= s0.insert(i as int, (key, fresh_view(behaviour))));
                lemma_insert_slot(s0, i as int, key, fresh_view(behaviour));
            }
            i
        }
    }

    /// The slot of the layer that scene `scene_id` belongs to, adding the slot if
    /// absent; `None` when the scene is not registered.
    fn get_scene_mut<C>(&mut self, scene_id: AssetId, assets: &AssetRegistry<C>) -> (r: Option<usize>)
        requires
            old(self).wf(),
        ensures
            final(self).wf(),
            old(self).coherent() ==> final(self).coherent(),
            match scene_key(*assets, scene_id) {
                None => r is None && final(self).slots() == old(self).slots(),
                Some(key) => r matches Some(i) && i < final(self).slots().len()
                    && final(self).slots()[i as int].0 == key && final(self).layer_map()
                    == old(self).layer_map().insert(
                    key,
                    entry_or_fresh(old(self).layer_map(), *assets, key),
                ),
            },
    {
        let layer_id = match assets.get_scene_layer(scene_id) {
            Some(layer_id) => layer_id,
            None => {
                return None;
            },
        };
        let key = Self::get_layer(assets, layer_id);
        let behaviour = assets.get_layer(layer_id).behaviour;
        Some(self.slot_for(key, behaviour))
    }

    /// Enables `scene` on its layer; returns the event announcing the layer's active
    /// scenes, or `None` when the scene is not registered.
    pub fn enable_scene<C>(&mut self, scene: SceneInRoom, assets: &AssetRegistry<C>) -> (r: Option<
        SceneStackEvent,
    >)
        requires
            old(self).wf(),
        ensures
            final(self).wf(),
            old(self).coherent() ==> final(self).coherent(),
            match scene_key(*assets, scene.scene) {
                None => r is None && final(self).slots() == old(self).slots(),
                Some(key) => {
                    &&& r is Some
                    &&& final(self).layer_map().contains_key(key)
                    &&& final(self).layer_map() == old(self).layer_map().insert(
                        key,
                        final(self).layer_map()[key],
                    )
                    &&& enable_post(
                        entry_or_fresh(old(self).layer_map(), *assets, key),
                        final(self).layer_map()[key],
                        scene,
                        assets.rooms@,
                    )
                    &&& r->0.layer == key.layer_id
                    &&& r->0.active_scenes@ == active_view(final(self).layer_map()[key])
                },
            },
    {
        let ghost m0 = self.layer_map();
        match self.get_scene_mut(scene.scene, assets) {
            None => None,
            Some(i) => {
                let ghost s1 = self.slots();
                proof {
                    lemma_slot_in_map(s1, i as int);
                    assert(self.layers@[i as int].entry.wf());
                }
                self.layers[i].entry.enable_scene(scene, assets);
                let active = self.layers[i].entry.active_scenes();
                proof {
                    let w = self.layers@[i as int].entry@;
                    assert(self.slots() =~= s1.update(i as int, (s1[i as int].0, w)));
                    lemma_update_slot(s1, i as int, w);
                    lemma_slot_in_map(self.slots(), i as int);
                    assert(self.layer_map() =~= m0.insert(s1[i as int].0, w));
                }
                Some(SceneStackEvent { layer: self.layers[i].key.layer_id, active_scenes: active })
            },
        }
    }

    /// Disables `scene` on its layer; returns the event announcing the layer's active
    /// scenes, or `None` when the scene is not registered.
    pub fn disable_scene<C>(&mut self, scene: SceneInRoom, assets: &AssetRegistry<C>) -> (r: Option<
        SceneStackEvent,
    >)
        requires
            old(self).wf(),
        ensures
            final(self).wf(),
            old(self).coherent() ==> final(self).coherent(),
            match scene_key(*assets, scene.scene) {
                None => r is None && final(self).slots() == old(self).slots(),
                Some(key) => {
                    &&& r is Some
                    &&& final(self).layer_map().contains_key(key)
                    &&& final(self).layer_map() == old(self).layer_map().insert(
                        key,
                        final(self).layer_map()[key],
                    )
                    &&& disable_post(
                        entry_or_fresh(old(self).layer_map(), *assets, key),
                        final(self).layer_map()[key],
                        scene,
                    )
                    &&& r->0.layer == key.layer_id
                    &&& r->0.active_scenes@ == active_view(final(self).layer_map()[key])
                },
            },
    {
        let ghost m0 = self.layer_map();
        match self.get_scene_mut(scene.scene, assets) {
            None => None,
            Some(i) => {
                let ghost s1 = self.slots();
                proof {
                    lemma_slot_in_map(s1, i as int);
                    assert(self.layers@[i as int].entry.wf());
                }
                self.layers[i].entry.disable_scene(&scene);
                let active = self.layers[i].entry.active_scenes();
                proof {
                    let w = self.layers@[i as int].entry@;
                    assert(self.slots() =~= s1.update(i as int, (s1[i as int].0, w)));
                    lemma_update_slot(s1, i as int, w);
                    lemma_slot_in_map(self.slots(), i as int);
                    assert(self.layer_map() =~= m0.insert(s1[i as int].0, w));
                }
                Some(SceneStackEvent { layer: self.layers[i].key.layer_id, active_scenes: active })
            },
        }
    }

    /// The endpoints whose light may change when `scene` is enabled or disabled, each
    /// listed once; adds an empty slot for the scene's layer if it has none.
    pub fn get_endpoints_affected_by_scene_change<C>(
        &mut self,
        scene: SceneInRoom,
        assets: &AssetRegistry<C>,
    ) -> (r: Vec<EndpointTarget>)
        requires
            old(self).wf(),
        ensures
            final(self).wf(),
            old(self).coherent() ==> final(self).coherent(),
            r@.no_duplicates(),
            match scene_key(*assets, scene.scene) {
                None => r@.len() == 0 && final(self).slots() == old(self).slots(),
                Some(key) => {
                    &&& final(self).layer_map() == old(self).layer_map().insert(
                        key,
                        entry_or_fresh(old(self).layer_map(), *assets, key),
                    )
                    &&& r@.to_set() == affected_by_change_view(
                        entry_or_fresh(old(self).layer_map(), *assets, key),
                        *assets,
                        scene,
                    )
                },
            },
    {
        match self.get_scene_mut(scene.scene, assets) {
            None => Vec::new(),
            Some(i) => {
                proof {
                    lemma_slot_in_map(self.slots(), i as int);
                    assert(self.layers@[i as int].entry.wf());
                }
                self.layers[i].entry.get_endpoints_affected_by_change(scene, assets)
            },
        }
    }

    /// Whether `scene` is enabled: `None` when the scene is not registered or its layer
    /// has no slot yet.
    pub fn is_scene_enabled<C>(&self, scene: SceneInRoom, assets: &AssetRegistry<C>) -> (r: Option<
        bool,
    >)
        requires
            self.wf(),
        ensures
            r == match scene_key(*assets, scene.scene) {
                None => None,
                Some(key) => if self.layer_map().contains_key(key) {
                    Some(is_enabled_view(self.layer_map()[key], scene))
                } else {
                    None
                },
            },
    {
        let layer_id = match assets.get_scene_layer(scene.scene) {
            Some(layer_id) => layer_id,
            None => {
                return None;
            },
        };
        let key = Self::get_layer(assets, layer_id);
        let i = self.lower_bound(key);
        let ghost s = self.slots();
        if i < self.layers.len() && self.layers[i].key == key {
            proof {
                lemma_slot_in_map(s, i as int);
                assert(self.layers@[i as int].entry.wf());
            }
            Some(self.layers[i].entry.is_scene_enabled(&scene))
        } else {
            proof {
                if has_slot(s, key) {
                    let j = choose|j: int| 0 <= j < s.len() && #[trigger] s[j].0 == key;
                    if j > i {
                        assert(key_lt(s[i as int].0, s[j].0));
                    }
                }
            }
            None
        }
    }

    /// The active scenes of every layer, by layer id; where two layers share an id, the
    /// later one in the stack counts.
    pub fn active_scenes(&self) -> (r: BTreeMap<AssetId, Vec<SceneInRoom>>)
        ensures
            r@.dom() == active_map(self.slots()).dom(),
            forall|layer: AssetId| #[trigger] r@.contains_key(layer) ==> r@[layer]@ == active_map(
                self.slots(),
            )[layer],
    {
        let mut out: BTreeMap<AssetId, Vec<SceneInRoom>> = BTreeMap::new();
        let mut i: usize = 0;
        while i < self.layers.len()
            invariant
                i <= self.layers@.len(),
                self.slots().len() == self.layers@.len(),
                out@.dom() == active_map(self.slots().take(i as int)).dom(),
                forall|layer: AssetId| #[trigger] out@.contains_key(layer) ==> out@[layer]@ == active_map(
                    self.slots().take(i as int),
                )[layer],
            decreases self.layers@.len() - i,
        {
            let slot = &self.layers[i];
            let active = slot.entry.active_scenes();
            proof {
                assert(self.slots()[i as int] == (slot.key, slot.entry@));
                assert(self.slots().take(i + 1).drop_last() =~= self.slots().take(i as int));
                assert(self.slots().take(i + 1).last() == self.slots()[i as int]);
            }
            out.insert(slot.key.layer_id, active);
            i = i + 1;
        }
        proof {
            assert(self.slots().take(self.slots().len() as int) =~= self.slots());
        }
        out
    }

    /// Empties the stack; returns every endpoint an active scene touched, each once.
    pub fn clear<C>(&mut self, assets: &AssetRegistry<C>) -> (r: Vec<EndpointTarget>)
        requires
            old(self).wf(),
        ensures
            final(self).wf(),
            final(self).coherent(),
            final(self).slots().len() == 0,
            final(self).layer_map() == Map::<SceneLayerKey, EntryView>::empty(),
            r@.no_duplicates(),
            r@.to_set() == all_endpoints(old(self).slots(), *assets),
    {
        let mut out: Vec<EndpointTarget> = Vec::new();
        proof {
            assert(out@.to_set() =~= Set::empty());
        }
        let mut i: usize = 0;
        while i < self.layers.len()
            invariant
                i <= self.layers@.len(),
                self.slots().len() == self.layers@.len(),
                out@.no_duplicates(),
                out@.to_set() == all_endpoints(self.slots().take(i as int), *assets),
            decreases self.layers@.len() - i,
        {
            self.layers[i].entry.get_all_endpoints(assets, &mut out);
            proof {
                assert(self.slots().take(i + 1).drop_last() =~= self.slots().take(i as int));
            }
            i = i + 1;
        }
        proof {
            assert(self.slots().take(self.slots().len() as int) =~= self.slots());
        }
        self.layers.clear();
        proof {
            assert(self.slots() =~= Seq::<(SceneLayerKey, EntryView)>::empty());
            assert(self.layer_map() =~= Map::<SceneLayerKey, EntryView>::empty());
        }
        out
    }

    /// The control the lowest layer with a control for `target` asks for.
    pub fn get_controls<'a, C>(&self, target: EndpointTarget, assets: &'a AssetRegistry<C>) -> (r:
        Option<&'a C>)
        requires
            self.wf(),
        ensures
            match r {
                Some(c) => layers_control(self.slots(), *assets, target) == Some(*c),
                None => layers_control(self.slots(), *assets, target) is None,
            },
    {
        let mut i: usize = 0;
        proof {
            assert(self.slots().skip(0) =~= self.slots());
        }
        while i < self.layers.len()
            invariant
                self.wf(),
                i <= self.layers@.len(),
                self.slots().len() == self.layers@.len(),
                layers_control(self.slots(), *assets, target) == layers_control(
                    self.slots().skip(i as int),
                    *assets,
                    target,
                ),
            decreases self.layers@.len() - i,
        {
            proof {
                assert(self.slots().skip(i as int).drop_first() =~= self.slots().skip(i + 1));
                assert(self.slots().skip(i as int)[0] == self.slots()[i as int]);
                assert(self.layers@[i as int].entry.wf());
            }
            match self.layers[i].entry.get_controls(target, assets) {
                Some(c) => {
                    return Some(c);
                },
                None => {},
            }
            i = i + 1;
        }
        None
    }
}


/// The control of `layers_control` comes from the first slot of `s` that has one.
proof fn lemma_layers_control_first<C>(s: Seq<(SceneLayerKey, EntryView)>, reg: AssetRegistry<C>, target: EndpointTarget)
    ensures
        match layers_control(s, reg, target) {
            None => forall|j: int| 0 <= j < s.len() ==> controls_view(#[trigger] s[j].1, reg, target) is None,
            Some(c) => exists|i: int|
                0 <= i < s.len() && controls_view(#[trigger] s[i].1, reg, target) == Some(c)
                    && forall|j: int| 0 <= j < i ==> controls_view(#[trigger] s[j].1, reg, target) is None,
        },
    decreases s.len(),
{
    if s.len() > 0 {
        let rest = s.drop_first();
        lemma_layers_control_first(rest, reg, target);
        match controls_view(s[0].1, reg, target) {
            Some(c) => {
                assert(controls_view(s[0].1, reg, target) == Some(c));
            },
            None => {
                match layers_control(rest, reg, target) {
                    None => {
                        assert forall|j: int| 0 <= j < s.len() implies controls_view(
                            #[trigger] s[j].1,
                            reg,
                            target,
                        ) is None by {
                            if j > 0 {
                                assert(s[j] == rest[j - 1]);
                            }
                        }
                    },
                    Some(c) => {
                        let i = choose|i: int|
                            0 <= i < rest.len() && controls_view(#[trigger] rest[i].1, reg, target)
                                == Some(c) && forall|j: int|
                                0 <= j < i ==> controls_view(#[trigger] rest[j].1, reg, target) is None;
                        assert(s[i + 1] == rest[i]);
                        assert forall|j: int| 0 <= j < i + 1 implies controls_view(
                            #[trigger] s[j].1,
                            reg,
                            target,
                        ) is None by {
                            if j > 0 {
                                assert(s[j] == rest[j - 1]);
                            }
                        }
                    },
                }
            },
        }
    }
}

/// The scene stack's control of an endpoint is that of the layer with the lowest
/// priority, and among equal priorities the lowest layer id, that has a control for it;
/// when no layer has one there is none.
pub proof fn law_lowest_layer_control_wins<C>(
    s: Seq<(SceneLayerKey, EntryView)>,
    reg: AssetRegistry<C>,
    target: EndpointTarget,
)
    requires
        slot_keys_increasing(s),
    ensures
        match layers_control(s, reg, target) {
            None => forall|j: int| 0 <= j < s.len() ==> controls_view(#[trigger] s[j].1, reg, target) is None,
            Some(c) => exists|i: int|
                0 <= i < s.len() && controls_view(#[trigger] s[i].1, reg, target) == Some(c)
                    && forall|j: int|
                    0 <= j < s.len() && (s[j].0.priority < s[i].0.priority || (s[j].0.priority
                        == s[i].0.priority && s[j].0.layer_id < s[i].0.layer_id))
                        ==> controls_view(#[trigger] s[j].1, reg, target) is None,
        },
{
    lemma_layers_control_first(s, reg, target);
    match layers_control(s, reg, target) {
        None => {},
        Some(c) => {
            let i = choose|i: int|
                0 <= i < s.len() && controls_view(#[trigger] s[i].1, reg, target) == Some(c)
                    && forall|j: int| 0 <= j < i ==> controls_view(#[trigger] s[j].1, reg, target) is None;
            assert forall|j: int|
                0 <= j < s.len() && (s[j].0.priority < s[i].0.priority || (s[j].0.priority
                    == s[i].0.priority && s[j].0.layer_id < s[i].0.layer_id))
                implies controls_view(#[trigger] s[j].1, reg, target) is None by {
                if j >= i {
                    if j > i {
                        assert(key_lt(s[i].0, s[j].0));
                    }
                }
            }
        },
    }
}

} // verus!
