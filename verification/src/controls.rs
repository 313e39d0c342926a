use vstd::prelude::*;
use std::collections::BTreeMap;

use crate::assets::AssetRegistry;
use crate::ids::{AssetId, EndpointTarget, SceneInRoom};
use crate::scene_stack::{
    all_endpoints, change_set, enabled_in, event_post, layers_after_disable, layers_after_enable,
    layers_control, scene_key, SceneLayerKey, SceneStack, SceneStackEvent,
};
use crate::scene_stack_entry::EntryView;
use crate::target_map::TargetMap;

verus! {

/// What an automation asks of a scene.
#[derive(Clone, Copy, Debug, PartialEq, Eq, Structural)]
pub enum SceneAction {
    /// Enable the scene.
    Enable,
    /// Disable the scene.
    Disable,
    /// Disable the scene if it is enabled, else enable it.
    Toggle,
}

/// What a change of controls asks the caller to do: push the current control of each
/// endpoint to its device, and announce the event, if any.
pub struct ControlUpdate {
    /// The endpoints whose control in force may have changed, each once.
    pub endpoints: Vec<EndpointTarget>,
    /// The new active scenes of the scene's layer; none for an unregistered scene.
    pub event: Option<SceneStackEvent>,
}

/// `u1`, `m1` are the user controls and layers after enabling `scene` on `u0`, `m0`,
/// with `endpoints` the endpoints to update: the user controls of those endpoints are
/// dropped and the scene is enabled on its layer.
pub open spec fn enable_step<C>(
    u0: Map<EndpointTarget, C>,
    m0: Map<SceneLayerKey, EntryView>,
    u1: Map<EndpointTarget, C>,
    m1: Map<SceneLayerKey, EntryView>,
    scene: SceneInRoom,
    assets: AssetRegistry<C>,
    endpoints: Set<EndpointTarget>,
) -> bool {
    &&& endpoints == change_set(m0, assets, scene)
    &&& u1 == u0.remove_keys(endpoints)
    &&& layers_after_enable(m0, m1, scene, assets)
}

/// `u1`, `m1` are the user controls and layers after disabling `scene`; user controls stay.
pub open spec fn disable_step<C>(
    u0: Map<EndpointTarget, C>,
    m0: Map<SceneLayerKey, EntryView>,
    u1: Map<EndpointTarget, C>,
    m1: Map<SceneLayerKey, EntryView>,
    scene: SceneInRoom,
    assets: AssetRegistry<C>,
    endpoints: Set<EndpointTarget>,
) -> bool {
    &&& endpoints == change_set(m0, assets, scene)
    &&& u1 == u0
    &&& layers_after_disable(m0, m1, scene, assets)
}

/// One scene action: enable, disable, or toggle by whether the scene is enabled now.
pub open spec fn action_step<C>(
    u0: Map<EndpointTarget, C>,
    m0: Map<SceneLayerKey, EntryView>,
    u1: Map<EndpointTarget, C>,
    m1: Map<SceneLayerKey, EntryView>,
    scene: SceneInRoom,
    action: SceneAction,
    assets: AssetRegistry<C>,
    endpoints: Set<EndpointTarget>,
) -> bool {
    match action {
        SceneAction::Enable => enable_step(u0, m0, u1, m1, scene, assets, endpoints),
        SceneAction::Disable => disable_step(u0, m0, u1, m1, scene, assets, endpoints),
        SceneAction::Toggle => if enabled_in(m0, assets, scene) {
            disable_step(u0, m0, u1, m1, scene, assets, endpoints)
        } else {
            enable_step(u0, m0, u1, m1, scene, assets, endpoints)
        },
    }
}

/// The control in force on `target`: the user's, else the scene stack's.
pub open spec fn control_in_force<C>(
    u: Map<EndpointTarget, C>,
    layers: Seq<(SceneLayerKey, EntryView)>,
    assets: AssetRegistry<C>,
    target: EndpointTarget,
) -> Option<C> {
    if u.contains_key(target) {
        Some(u[target])
    } else {
        layers_control(layers, assets, target)
    }
}

/// Light controls set by the user, on top of the controls of active scenes.
pub struct Controls<C> {
    user_controls: TargetMap<C>,
    scene_stack: SceneStack,
}

impl<C> Controls<C> {
    /// The controls set by the user, by endpoint.
    pub closed spec fn user(&self) -> Map<EndpointTarget, C> {
        self.user_controls.map()
    }

    /// The scene layers, in order.
    pub closed spec fn layers(&self) -> Seq<(SceneLayerKey, EntryView)> {
        self.scene_stack.slots()
    }

    /// The scene layers, by key.
    pub closed spec fn layer_map(&self) -> Map<SceneLayerKey, EntryView> {
        self.scene_stack.layer_map()
    }

    /// The user controls and the scene stack are well formed and coherent.
    pub closed spec fn wf(&self) -> bool {
        &&& self.user_controls.wf()
        &&& self.scene_stack.wf()
        &&& self.scene_stack.coherent()
    }

    /// No user controls and no enabled scenes.
    pub fn new() -> (r: Self)
        ensures
            r.wf(),
            r.user() == Map::<EndpointTarget, C>::empty(),
            r.layers().len() == 0,
    {
        Controls { user_controls: TargetMap::new(), scene_stack: SceneStack::new() }
    }

    /// Sets the user's control of `target`; returns the endpoints to update.
    pub fn set_light(&mut self, target: EndpointTarget, control: C) -> (r: Vec<EndpointTarget>)
        requires
            old(self).wf(),
        ensures
            final(self).wf(),
            final(self).user() == old(self).user().insert(target, control),
            final(self).layers() == old(self).layers(),
            r@ == seq![target],
    {
        self.user_controls.insert(target, control);
        let mut r = Vec::new();
        r.push(target);
        proof {
            assert(r@ =~= seq![target]);
        }
        r
    }

    /// Enables `scene`: drops the user controls of every endpoint the change touches,
    /// then enables the scene on its layer.
    pub fn enable_scene(&mut self, scene: SceneInRoom, assets: &AssetRegistry<C>) -> (r: ControlUpdate)
        requires
            old(self).wf(),
        ensures
            final(self).wf(),
            r.endpoints@.no_duplicates(),
            enable_step(
                old(self).user(),
                old(self).layer_map(),
                final(self).user(),
                final(self).layer_map(),
                scene,
                *assets,
                r.endpoints@.to_set(),
            ),
            event_post(final(self).layer_map(), *assets, scene, r.event),
    {
        let ghost m0 = self.scene_stack.layer_map();
        let ghost u0 = self.user_controls.map();
        let endpoints = self.scene_stack.get_endpoints_affected_by_scene_change(scene, assets);
        let ghost m1 = self.scene_stack.layer_map();
        let mut i: usize = 0;
        while i < endpoints.len()
            invariant
                i <= endpoints@.len(),
                self.user_controls.wf(),
                self.scene_stack.wf(),
                self.scene_stack.coherent(),
                self.scene_stack.layer_map() == m1,
                self.user_controls.map() == u0.remove_keys(endpoints@.take(i as int).to_set()),
            decreases endpoints@.len() - i,
        {
            self.user_controls.remove(endpoints[i]);
            proof {
                assert(endpoints@.take(i + 1) =~= endpoints@.take(i as int).push(endpoints@[i as int]));
                endpoints@.take(i as int).lemma_push_to_set_commute(endpoints@[i as int]);
                assert(self.user_controls.map() =~= u0.remove_keys(endpoints@.take(i + 1).to_set()));
            }
            i = i + 1;
        }
        proof {
            assert(endpoints@.take(endpoints@.len() as int) =~= endpoints@);
        }
        let event = self.scene_stack.enable_scene(scene, assets);
        proof {
            match scene_key(*assets, scene.scene) {
                None => {
                    assert(endpoints@.to_set() =~= Set::empty());
                },
                Some(key) => {
                    assert(self.scene_stack.layer_map() =~= m0.insert(key, self.scene_stack.layer_map()[key]));
                },
            }
        }
        ControlUpdate { endpoints, event }
    }

    /// Disables `scene` on its layer; user controls stay.
    pub fn disable_scene(&mut self, scene: SceneInRoom, assets: &AssetRegistry<C>) -> (r: ControlUpdate)
        requires
            old(self).wf(),
        ensures
            final(self).wf(),
            r.endpoints@.no_duplicates(),
            disable_step(
                old(self).user(),
                old(self).layer_map(),
                final(self).user(),
                final(self).layer_map(),
                scene,
                *assets,
                r.endpoints@.to_set(),
            ),
            event_post(final(self).layer_map(), *assets, scene, r.event),
    {
        let ghost m0 = self.scene_stack.layer_map();
        let endpoints = self.scene_stack.get_endpoints_affected_by_scene_change(scene, assets);
        let event = self.scene_stack.disable_scene(scene, assets);
        proof {
            match scene_key(*assets, scene.scene) {
                None => {
                    assert(endpoints@.to_set() =~= Set::empty());
                },
                Some(key) => {
                    assert(self.scene_stack.layer_map() =~= m0.insert(key, self.scene_stack.layer_map()[key]));
                },
            }
        }
        ControlUpdate { endpoints, event }
    }

    /// The active scenes of every layer, by layer id; where two layers share an id, the
    /// later one in the stack counts.
    pub fn active_scenes(&self) -> (r: BTreeMap<AssetId, Vec<SceneInRoom>>)
        ensures
            r@.dom() == crate::scene_stack::active_map(self.layers()).dom(),
            forall|layer: AssetId| #[trigger] r@.contains_key(layer) ==> r@[layer]@
                == crate::scene_stack::active_map(self.layers())[layer],
    {
        self.scene_stack.active_scenes()
    }

    /// Whether `scene` is enabled.
    pub fn is_scene_enabled(&self, scene: SceneInRoom, assets: &AssetRegistry<C>) -> (r: bool)
        requires
            self.wf(),
        ensures
            r == enabled_in(self.layer_map(), *assets, scene),
    {
        match self.scene_stack.is_scene_enabled(scene, assets) {
            Some(b) => b,
            None => false,
        }
    }

    /// Disables every scene; returns the endpoints to update.
    pub fn reset_scene_stack(&mut self, assets: &AssetRegistry<C>) -> (r: Vec<EndpointTarget>)
        requires
            old(self).wf(),
        ensures
            final(self).wf(),
            final(self).user() == old(self).user(),
            final(self).layers().len() == 0,
            final(self).layer_map() == Map::<SceneLayerKey, EntryView>::empty(),
            r@.no_duplicates(),
            r@.to_set() == all_endpoints(old(self).layers(), *assets),
    {
        self.scene_stack.clear(assets)
    }

    /// The control in force on `target`: the user's, else the first layer's that has one.
    pub fn get_controls<'a>(&'a self, target: EndpointTarget, assets: &'a AssetRegistry<C>) -> (r:
        Option<&'a C>)
        requires
            self.wf(),
        ensures
            match r {
                Some(c) => control_in_force(self.user(), self.layers(), *assets, target) == Some(*c),
                None => control_in_force(self.user(), self.layers(), *assets, target) is None,
            },
    {
        match self.user_controls.get(target) {
            Some(c) => Some(c),
            None => self.scene_stack.get_controls(target, assets),
        }
    }

    /// Performs one scene action on `target`.
    pub fn run_action(&mut self, target: SceneInRoom, action: SceneAction, assets: &AssetRegistry<C>) -> (r:
        ControlUpdate)
        requires
            old(self).wf(),
        ensures
            final(self).wf(),
            r.endpoints@.no_duplicates(),
            action_step(
                old(self).user(),
                old(self).layer_map(),
                final(self).user(),
                final(self).layer_map(),
                target,
                action,
                *assets,
                r.endpoints@.to_set(),
            ),
            event_post(final(self).layer_map(), *assets, target, r.event),
    {
        match action {
            SceneAction::Enable => self.enable_scene(target, assets),
            SceneAction::Disable => self.disable_scene(target, assets),
            SceneAction::Toggle => {
                if self.is_scene_enabled(target, assets) {
                    self.disable_scene(target, assets)
                } else {
                    self.enable_scene(target, assets)
                }
            },
        }
    }

    /// Performs `actions` on `target` in order; returns one update per action.
    pub fn run_actions(&mut self, target: SceneInRoom, actions: &[SceneAction], assets: &AssetRegistry<C>) -> (r:
        Vec<ControlUpdate>)
        requires
            old(self).wf(),
        ensures
            final(self).wf(),
            r@.len() == actions@.len(),
            exists|us: Seq<Map<EndpointTarget, C>>, ms: Seq<Map<SceneLayerKey, EntryView>>|
                {
                    &&& us.len() == actions@.len() + 1
                    &&& ms.len() == actions@.len() + 1
                    &&& us[0] == old(self).user() && ms[0] == old(self).layer_map()
                    &&& us.last() == final(self).user() && ms.last() == final(self).layer_map()
                    &&& forall|i: int|
                        0 <= i < actions@.len() ==> #[trigger] action_step(
                            us[i],
                            ms[i],
                            us[i + 1],
                            ms[i + 1],
                            target,
                            actions@[i],
                            *assets,
                            r@[i].endpoints@.to_set(),
                        )
                },
    {
        let mut out: Vec<ControlUpdate> = Vec::new();
        let ghost mut us: Seq<Map<EndpointTarget, C>> = seq![self.user()];
        let ghost mut ms: Seq<Map<SceneLayerKey, EntryView>> = seq![self.layer_map()];
        let mut i: usize = 0;
        while i < actions.len()
            invariant
                self.wf(),
                i <= actions@.len(),
                out@.len() == i,
                us.len() == i + 1,
                ms.len() == i + 1,
                us[0] == old(self).user() && ms[0] == old(self).layer_map(),
                us.last() == self.user() && ms.last() == self.layer_map(),
                forall|j: int|
                    0 <= j < i ==> #[trigger] action_step(
                        us[j],
                        ms[j],
                        us[j + 1],
                        ms[j + 1],
                        target,
                        actions@[j],
                        *assets,
                        out@[j].endpoints@.to_set(),
                    ),
            decreases actions@.len() - i,
        {
            let update = self.run_action(target, actions[i], assets);
            out.push(update);
            proof {
                us = us.push(self.user());
                ms = ms.push(self.layer_map());
            }
            i = i + 1;
        }
        out
    }
}

/// Whether enabling `scene` on layers `m` counts it as enabled afterwards: the scene is
/// registered, and it names a room unless the entry of its layer is a stack or holds a
/// single scene.
pub open spec fn enable_sticks<C>(m: Map<SceneLayerKey, EntryView>, assets: AssetRegistry<C>, scene: SceneInRoom) -> bool {
    &&& scene_key(assets, scene.scene) is Some
    &&& !(crate::scene_stack::entry_or_fresh(m, assets, scene_key(assets, scene.scene)->0) is OnePerRoom
        && scene.room is None)
}

/// The entry a layer starts from is well formed when the layers are.
proof fn lemma_start_wf<C>(m: Map<SceneLayerKey, EntryView>, assets: AssetRegistry<C>, key: SceneLayerKey)
    requires
        forall|k: SceneLayerKey| #[trigger]
            m.contains_key(k) ==> crate::scene_stack_entry::view_wf(m[k]),
    ensures
        crate::scene_stack_entry::view_wf(crate::scene_stack::entry_or_fresh(m, assets, key)),
{
}

/// After the scene stack is reset no scene counts as enabled.
pub proof fn law_nothing_enabled_after_reset<C>(assets: AssetRegistry<C>, scene: SceneInRoom)
    ensures
        !enabled_in(Map::<SceneLayerKey, EntryView>::empty(), assets, scene),
{
}

/// The user's control of an endpoint is the control in force there, whatever the scenes.
pub proof fn law_user_control_in_force<C>(
    u: Map<EndpointTarget, C>,
    layers: Seq<(SceneLayerKey, EntryView)>,
    assets: AssetRegistry<C>,
    target: EndpointTarget,
    control: C,
)
    ensures
        control_in_force(u.insert(target, control), layers, assets, target) == Some(control),
{
}

/// After enabling a scene it counts as enabled, when the scene is registered and names a
/// room or sits on a stack or single-scene layer.
pub proof fn law_enabled_after_enable<C>(
    u0: Map<EndpointTarget, C>,
    m0: Map<SceneLayerKey, EntryView>,
    u1: Map<EndpointTarget, C>,
    m1: Map<SceneLayerKey, EntryView>,
    scene: SceneInRoom,
    assets: AssetRegistry<C>,
    endpoints: Set<EndpointTarget>,
)
    requires
        forall|k: SceneLayerKey| #[trigger]
            m0.contains_key(k) ==> crate::scene_stack_entry::view_wf(m0[k]),
        enable_step(u0, m0, u1, m1, scene, assets, endpoints),
        enable_sticks(m0, assets, scene),
    ensures
        enabled_in(m1, assets, scene),
        forall|t: EndpointTarget| endpoints.contains(t) ==> !(#[trigger] u1.contains_key(t)),
{
    let key = scene_key(assets, scene.scene)->0;
    lemma_start_wf(m0, assets, key);
    crate::scene_stack_entry::law_enabled_after_enable(
        crate::scene_stack::entry_or_fresh(m0, assets, key),
        m1[key],
        scene,
        assets.rooms@,
    );
}

/// After disabling a scene it does not count as enabled.
pub proof fn law_disabled_after_disable<C>(
    u0: Map<EndpointTarget, C>,
    m0: Map<SceneLayerKey, EntryView>,
    u1: Map<EndpointTarget, C>,
    m1: Map<SceneLayerKey, EntryView>,
    scene: SceneInRoom,
    assets: AssetRegistry<C>,
    endpoints: Set<EndpointTarget>,
)
    requires
        forall|k: SceneLayerKey| #[trigger]
            m0.contains_key(k) ==> crate::scene_stack_entry::view_wf(m0[k]),
        disable_step(u0, m0, u1, m1, scene, assets, endpoints),
    ensures
        !enabled_in(m1, assets, scene),
{
    match scene_key(assets, scene.scene) {
        None => {},
        Some(key) => {
            lemma_start_wf(m0, assets, key);
            crate::scene_stack_entry::law_not_enabled_after_disable(
                crate::scene_stack::entry_or_fresh(m0, assets, key),
                m1[key],
                scene,
            );
        },
    }
}

/// Toggling a scene flips whether it counts as enabled, when enabling it sticks.
pub proof fn law_toggle_flips<C>(
    u0: Map<EndpointTarget, C>,
    m0: Map<SceneLayerKey, EntryView>,
    u1: Map<EndpointTarget, C>,
    m1: Map<SceneLayerKey, EntryView>,
    scene: SceneInRoom,
    assets: AssetRegistry<C>,
    endpoints: Set<EndpointTarget>,
)
    requires
        forall|k: SceneLayerKey| #[trigger]
            m0.contains_key(k) ==> crate::scene_stack_entry::view_wf(m0[k]),
        action_step(u0, m0, u1, m1, scene, SceneAction::Toggle, assets, endpoints),
        enable_sticks(m0, assets, scene),
    ensures
        enabled_in(m1, assets, scene) == !enabled_in(m0, assets, scene),
{
    if enabled_in(m0, assets, scene) {
        law_disabled_after_disable(u0, m0, u1, m1, scene, assets, endpoints);
    } else {
        law_enabled_after_enable(u0, m0, u1, m1, scene, assets, endpoints);
    }
}

} // verus!
