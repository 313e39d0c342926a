use vstd::prelude::*;

use crate::ids::{AssetId, DeviceId, EndpointTarget, SceneInRoom};

verus! {

/// How a scene layer combines the scenes enabled on it.
#[derive(Clone, Copy, Debug, PartialEq, Eq, Structural)]
pub enum SceneLayerBehaviour {
    /// At most one scene is active on the whole layer.
    One,
    /// At most one scene is active per room.
    OnePerRoom,
    /// Scenes stack; the last enabled one wins.
    Stack,
}

/// The parts of a scene layer asset that the scene stack reads.
#[derive(Clone, Copy, Debug, PartialEq, Eq, Structural)]
pub struct SceneLayer {
    pub priority: u32,
    pub behaviour: SceneLayerBehaviour,
}

/// What a scene does when it is active in one room (or in all rooms):
/// the endpoints it touches and the light control it asks for on some of them.
pub struct SceneEffect<C> {
    pub scene: SceneInRoom,
    pub endpoints: Vec<EndpointTarget>,
    pub controls: Vec<(EndpointTarget, C)>,
}

/// The parts of the asset registry that scene handling reads, as plain values.
///
/// Lookups take the first matching record.
pub struct AssetRegistry<C> {
    /// Ids of all rooms.
    pub rooms: Vec<AssetId>,
    /// The room each device is placed in.
    pub device_rooms: Vec<(DeviceId, AssetId)>,
    /// Each scene with the layer it belongs to.
    pub scenes: Vec<(AssetId, AssetId)>,
    /// The scene layers.
    pub layers: Vec<(AssetId, SceneLayer)>,
    /// The layer a scene falls back to when its layer is not registered.
    pub default_layer: SceneLayer,
    /// The effects of scenes in rooms.
    pub effects: Vec<SceneEffect<C>>,
}

/// The first element of `s` that satisfies `p`.
pub open spec fn find_first<T>(s: Seq<T>, p: spec_fn(T) -> bool) -> Option<T>
    decreases s.len(),
{
    if s.len() == 0 {
        None
    } else if p(s[0]) {
        Some(s[0])
    } else {
        find_first(s.drop_first(), p)
    }
}

/// The predicate "the first component is `k`".
pub open spec fn key_is<K, V>(k: K) -> spec_fn((K, V)) -> bool {
    |e: (K, V)| e.0 == k
}

/// Scanning `s` from position `i` finds what scanning from the start finds,
/// when nothing before `i` matches.
pub proof fn lemma_find_first_step<T>(s: Seq<T>, p: spec_fn(T) -> bool, i: int)
    requires
        0 <= i < s.len(),
    ensures
        find_first(s.skip(i), p) == if p(s[i]) {
            Some(s[i])
        } else {
            find_first(s.skip(i + 1), p)
        },
{
    assert(s.skip(i)[0] == s[i]);
    assert(s.skip(i).drop_first() =~= s.skip(i + 1));
}

impl<C> AssetRegistry<C> {
    /// The effect record of `scene`, if any.
    pub open spec fn effect_of(&self, scene: SceneInRoom) -> Option<SceneEffect<C>> {
        find_first(self.effects@, |e: SceneEffect<C>| e.scene == scene)
    }

    /// The endpoints that `scene` touches.
    pub open spec fn affected(&self, scene: SceneInRoom) -> Seq<EndpointTarget> {
        match self.effect_of(scene) {
            Some(e) => e.endpoints@,
            None => Seq::empty(),
        }
    }

    /// The first control record for `target` in `controls`.
    pub open spec fn control_record(controls: Seq<(EndpointTarget, C)>, target: EndpointTarget) -> Option<(EndpointTarget, C)> {
        find_first(controls, key_is::<EndpointTarget, C>(target))
    }

    /// The control `scene` asks for on `target`.
    pub open spec fn control(&self, scene: SceneInRoom, target: EndpointTarget) -> Option<C> {
        match self.effect_of(scene) {
            Some(e) => match Self::control_record(e.controls@, target) {
                Some(c) => Some(c.1),
                None => None,
            },
            None => None,
        }
    }

    /// The first placement record of `device`.
    pub open spec fn device_room_record(&self, device: DeviceId) -> Option<(DeviceId, AssetId)> {
        find_first(self.device_rooms@, key_is::<DeviceId, AssetId>(device))
    }

    /// The room of `device`.
    pub open spec fn room_of_device(&self, device: DeviceId) -> Option<AssetId> {
        match self.device_room_record(device) {
            Some(d) => Some(d.1),
            None => None,
        }
    }

    /// The first record of scene `scene`.
    pub open spec fn scene_record(&self, scene: AssetId) -> Option<(AssetId, AssetId)> {
        find_first(self.scenes@, key_is::<AssetId, AssetId>(scene))
    }

    /// The layer that scene `scene` belongs to, if the scene is registered.
    pub open spec fn scene_layer(&self, scene: AssetId) -> Option<AssetId> {
        match self.scene_record(scene) {
            Some(s) => Some(s.1),
            None => None,
        }
    }

    /// The first record of layer `layer`.
    pub open spec fn layer_record(&self, layer: AssetId) -> Option<(AssetId, SceneLayer)> {
        find_first(self.layers@, key_is::<AssetId, SceneLayer>(layer))
    }

    /// The layer registered under `layer`, or the default layer.
    pub open spec fn layer(&self, layer: AssetId) -> SceneLayer {
        match self.layer_record(layer) {
            Some(l) => l.1,
            None => self.default_layer,
        }
    }

    fn effect_index(&self, scene: SceneInRoom) -> (r: Option<usize>)
        ensures
            match r {
                Some(i) => i < self.effects@.len() && self.effect_of(scene) == Some(
                    self.effects@[i as int],
                ),
                None => self.effect_of(scene) is None,
            },
    {
        let ghost p = |e: SceneEffect<C>| e.scene == scene;
        let mut i: usize = 0;
        assert(self.effects@.skip(0) =~= self.effects@);
        while i < self.effects.len()
            invariant
                i <= self.effects@.len(),
                p == (|e: SceneEffect<C>| e.scene == scene),
                find_first(self.effects@.skip(i as int), p) == self.effect_of(scene),
            decreases self.effects@.len() - i,
        {
            proof {
                lemma_find_first_step(self.effects@, p, i as int);
            }
            if self.effects[i].scene == scene {
                return Some(i);
            }
            i = i + 1;
        }
        None
    }

    /// The endpoints that `scene` touches.
    pub fn affected_endpoints(&self, scene: SceneInRoom) -> (r: &[EndpointTarget])
        ensures
            r@ == self.affected(scene),
    {
        match self.effect_index(scene) {
            Some(i) => self.effects[i].endpoints.as_slice(),
            None => &[],
        }
    }

    /// The control `scene` asks for on `target`.
    pub fn get_control(&self, scene: SceneInRoom, target: EndpointTarget) -> (r: Option<&C>)
        ensures
            match r {
                Some(c) => self.control(scene, target) == Some(*c),
                None => self.control(scene, target) is None,
            },
    {
        match self.effect_index(scene) {
            Some(i) => {
                let controls = &self.effects[i].controls;
                let ghost p = key_is::<EndpointTarget, C>(target);
                let mut j: usize = 0;
                assert(controls@.skip(0) =~= controls@);
                while j < controls.len()
                    invariant
                        j <= controls@.len(),
                        p == (key_is::<EndpointTarget, C>(target)),
                        i < self.effects@.len(),
                        controls@ == self.effects@[i as int].controls@,
                        self.effect_of(scene) == Some(self.effects@[i as int]),
                        find_first(controls@.skip(j as int), p) == Self::control_record(controls@, target),
                    decreases controls@.len() - j,
                {
                    proof {
                        lemma_find_first_step(controls@, p, j as int);
                    }
                    if controls[j].0 == target {
                        return Some(&controls[j].1);
                    }
                    j = j + 1;
                }
                None
            },
            None => None,
        }
    }

    /// The room of `device`.
    pub fn get_room_of_device(&self, device: DeviceId) -> (r: Option<AssetId>)
        ensures
            r == self.room_of_device(device),
    {
        let ghost p = key_is::<DeviceId, AssetId>(device);
        let mut i: usize = 0;
        assert(self.device_rooms@.skip(0) =~= self.device_rooms@);
        while i < self.device_rooms.len()
            invariant
                i <= self.device_rooms@.len(),
                p == (key_is::<DeviceId, AssetId>(device)),
                find_first(self.device_rooms@.skip(i as int), p) == self.device_room_record(device),
            decreases self.device_rooms@.len() - i,
        {
            proof {
                lemma_find_first_step(self.device_rooms@, p, i as int);
            }
            if self.device_rooms[i].0 == device {
                return Some(self.device_rooms[i].1);
            }
            i = i + 1;
        }
        None
    }

    /// The layer that scene `scene` belongs to, if the scene is registered.
    pub fn get_scene_layer(&self, scene: AssetId) -> (r: Option<AssetId>)
        ensures
            r == self.scene_layer(scene),
    {
        let ghost p = key_is::<AssetId, AssetId>(scene);
        let mut i: usize = 0;
        assert(self.scenes@.skip(0) =~= self.scenes@);
        while i < self.scenes.len()
            invariant
                i <= self.scenes@.len(),
                p == (key_is::<AssetId, AssetId>(scene)),
                find_first(self.scenes@.skip(i as int), p) == self.scene_record(scene),
            decreases self.scenes@.len() - i,
        {
            proof {
                lemma_find_first_step(self.scenes@, p, i as int);
            }
            if self.scenes[i].0 == scene {
                return Some(self.scenes[i].1);
            }
            i = i + 1;
        }
        None
    }

    /// The layer registered under `layer`, or the default layer.
    pub fn get_layer(&self, layer: AssetId) -> (r: SceneLayer)
        ensures
            r == self.layer(layer),
    {
        let ghost p = key_is::<AssetId, SceneLayer>(layer);
        let mut i: usize = 0;
        assert(self.layers@.skip(0) =~= self.layers@);
        while i < self.layers.len()
            invariant
                i <= self.layers@.len(),
                p == (key_is::<AssetId, SceneLayer>(layer)),
                find_first(self.layers@.skip(i as int), p) == self.layer_record(layer),
            decreases self.layers@.len() - i,
        {
            proof {
                lemma_find_first_step(self.layers@, p, i as int);
            }
            if self.layers[i].0 == layer {
                return self.layers[i].1;
            }
            i = i + 1;
        }
        self.default_layer
    }
}

} // verus!
