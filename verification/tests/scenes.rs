use std::collections::BTreeMap;

use backend::assets::{AssetRegistry, SceneEffect, SceneLayer, SceneLayerBehaviour};
use backend::controls::{Controls, SceneAction};
use backend::ids::{EndpointTarget, SceneInRoom};
use backend::keyed::KeyedList;
use backend::scene_stack::{key_less, SceneLayerKey, SceneStack};
use backend::scene_stack_entry::SceneStackEntry;

fn t(device: u64, endpoint: u16) -> EndpointTarget {
    EndpointTarget { device, endpoint }
}

fn all_rooms(scene: u64) -> SceneInRoom {
    SceneInRoom { scene, room: None }
}

fn in_room(scene: u64, room: u64) -> SceneInRoom {
    SceneInRoom { scene, room: Some(room) }
}

/// Layer 1000 stacks scenes 100 and 101 at priority 1; layer 2000 holds one scene
/// (200) at priority 0; layer 3000 holds one scene per room (300) at priority 2.
fn registry() -> AssetRegistry<u32> {
    AssetRegistry {
        rooms: vec![10, 20],
        device_rooms: vec![(1, 10), (2, 20)],
        scenes: vec![(100, 1000), (101, 1000), (200, 2000), (300, 3000)],
        layers: vec![
            (1000, SceneLayer { priority: 1, behaviour: SceneLayerBehaviour::Stack }),
            (2000, SceneLayer { priority: 0, behaviour: SceneLayerBehaviour::One }),
            (3000, SceneLayer { priority: 2, behaviour: SceneLayerBehaviour::OnePerRoom }),
        ],
        default_layer: SceneLayer { priority: 5, behaviour: SceneLayerBehaviour::Stack },
        effects: vec![
            SceneEffect { scene: all_rooms(100), endpoints: vec![t(1, 1)], controls: vec![(t(1, 1), 11)] },
            SceneEffect {
                scene: all_rooms(101),
                endpoints: vec![t(1, 1), t(2, 1)],
                controls: vec![(t(1, 1), 12), (t(2, 1), 22)],
            },
            SceneEffect { scene: all_rooms(200), endpoints: vec![t(2, 1)], controls: vec![(t(2, 1), 33)] },
            SceneEffect { scene: in_room(300, 10), endpoints: vec![t(1, 2)], controls: vec![(t(1, 2), 44)] },
            SceneEffect { scene: in_room(300, 20), endpoints: vec![t(2, 2)], controls: vec![(t(2, 2), 55)] },
        ],
    }
}

fn sorted(mut v: Vec<EndpointTarget>) -> Vec<(u64, u16)> {
    let mut out: Vec<(u64, u16)> = v.drain(..).map(|e| (e.device, e.endpoint)).collect();
    out.sort();
    out
}

#[test]
fn registry_lookups() {
    let a = registry();
    assert_eq!(a.get_room_of_device(2), Some(20));
    assert_eq!(a.get_room_of_device(7), None);
    assert_eq!(a.get_scene_layer(101), Some(1000));
    assert_eq!(a.get_scene_layer(999), None);
    assert_eq!(a.get_layer(2000), SceneLayer { priority: 0, behaviour: SceneLayerBehaviour::One });
    assert_eq!(a.get_layer(4242), SceneLayer { priority: 5, behaviour: SceneLayerBehaviour::Stack });
    assert_eq!(a.get_control(all_rooms(101), t(2, 1)), Some(&22));
    assert_eq!(a.get_control(all_rooms(101), t(3, 1)), None);
    assert_eq!(a.affected_endpoints(all_rooms(101)).len(), 2);
    assert_eq!(a.affected_endpoints(all_rooms(555)).len(), 0);
}

#[test]
fn stack_entry_last_enabled_is_on_top() {
    let a = registry();
    let mut e = SceneStackEntry::default();
    e.enable_scene(all_rooms(100), &a);
    e.enable_scene(all_rooms(101), &a);
    assert_eq!(e.active_scenes(), vec![all_rooms(100), all_rooms(101)]);
    assert_eq!(e.get_controls(t(1, 1), &a), Some(&12));
    e.enable_scene(all_rooms(100), &a);
    assert_eq!(e.active_scenes(), vec![all_rooms(101), all_rooms(100)]);
    assert_eq!(e.get_controls(t(1, 1), &a), Some(&11));
    assert_eq!(e.get_controls(t(2, 1), &a), Some(&22));
}

#[test]
fn stack_entry_disable_without_room_removes_every_room() {
    let a = registry();
    let mut e = SceneStackEntry::for_behaviour(SceneLayerBehaviour::Stack);
    e.enable_scene(in_room(100, 10), &a);
    e.enable_scene(in_room(100, 20), &a);
    e.enable_scene(all_rooms(101), &a);
    e.disable_scene(&all_rooms(100));
    assert_eq!(e.active_scenes(), vec![all_rooms(101)]);
    assert!(e.is_scene_enabled(&all_rooms(101)));
    assert!(!e.is_scene_enabled(&in_room(100, 10)));
}

#[test]
fn one_entry_holds_a_single_scene() {
    let a = registry();
    let mut e = SceneStackEntry::for_behaviour(SceneLayerBehaviour::One);
    e.enable_scene(all_rooms(200), &a);
    assert!(e.is_scene_enabled(&all_rooms(200)));
    e.enable_scene(all_rooms(100), &a);
    assert_eq!(e.active_scenes(), vec![all_rooms(100)]);
    e.disable_scene(&all_rooms(200));
    assert_eq!(e.active_scenes(), vec![all_rooms(100)]);
    e.disable_scene(&all_rooms(100));
    assert_eq!(e.active_scenes(), vec![]);
}

#[test]
fn one_per_room_entry_spreads_over_all_rooms() {
    let a = registry();
    let mut e = SceneStackEntry::for_behaviour(SceneLayerBehaviour::OnePerRoom);
    e.enable_scene(all_rooms(300), &a);
    assert_eq!(e.active_scenes(), vec![in_room(300, 10), in_room(300, 20)]);
    assert!(e.is_scene_enabled(&in_room(300, 20)));
    assert!(!e.is_scene_enabled(&all_rooms(300)));
    assert_eq!(e.get_controls(t(1, 2), &a), Some(&44));
    assert_eq!(e.get_controls(t(2, 2), &a), Some(&55));
    e.disable_scene(&in_room(300, 10));
    assert_eq!(e.active_scenes(), vec![in_room(300, 20)]);
    e.disable_scene(&all_rooms(300));
    assert_eq!(e.active_scenes(), vec![]);
}

#[test]
fn endpoints_affected_by_change_include_the_replaced_scene() {
    let a = registry();
    let mut e = SceneStackEntry::for_behaviour(SceneLayerBehaviour::One);
    e.enable_scene(all_rooms(100), &a);
    let affected = e.get_endpoints_affected_by_change(all_rooms(200), &a);
    assert_eq!(sorted(affected), vec![(1, 1), (2, 1)]);
    let mut all = Vec::new();
    e.get_all_endpoints(&a, &mut all);
    assert_eq!(sorted(all), vec![(1, 1)]);
}

#[test]
fn layer_keys_order_by_priority_then_id() {
    let low = SceneLayerKey { priority: 0, layer_id: 9 };
    let high = SceneLayerKey { priority: 1, layer_id: 1 };
    let high2 = SceneLayerKey { priority: 1, layer_id: 2 };
    assert!(key_less(&low, &high));
    assert!(key_less(&high, &high2));
    assert!(!key_less(&high2, &high));
    assert!(!key_less(&high, &high));
}

#[test]
fn scene_stack_lowest_priority_layer_wins() {
    let a = registry();
    let mut s = SceneStack::new();
    assert_eq!(s.is_scene_enabled(all_rooms(101), &a), None);
    let ev = s.enable_scene(all_rooms(101), &a).unwrap();
    assert_eq!(ev.layer, 1000);
    assert_eq!(ev.active_scenes, vec![all_rooms(101)]);
    assert_eq!(s.get_controls(t(2, 1), &a), Some(&22));
    s.enable_scene(all_rooms(200), &a);
    assert_eq!(s.get_controls(t(2, 1), &a), Some(&33));
    assert_eq!(s.get_controls(t(1, 1), &a), Some(&12));
    assert_eq!(s.is_scene_enabled(all_rooms(200), &a), Some(true));
    assert_eq!(
        s.active_scenes(),
        BTreeMap::from([(1000, vec![all_rooms(101)]), (2000, vec![all_rooms(200)])])
    );
    let ev = s.disable_scene(all_rooms(200), &a).unwrap();
    assert_eq!(ev.layer, 2000);
    assert_eq!(ev.active_scenes, vec![]);
    assert_eq!(s.get_controls(t(2, 1), &a), Some(&22));
}

#[test]
fn scene_stack_unknown_scene_changes_nothing() {
    let a = registry();
    let mut s = SceneStack::new();
    assert!(s.enable_scene(all_rooms(555), &a).is_none());
    assert_eq!(s.active_scenes(), BTreeMap::new());
    assert_eq!(s.get_endpoints_affected_by_scene_change(all_rooms(555), &a), vec![]);
}

#[test]
fn scene_stack_clear_returns_every_touched_endpoint() {
    let a = registry();
    let mut s = SceneStack::new();
    s.enable_scene(all_rooms(101), &a);
    s.enable_scene(all_rooms(200), &a);
    let touched = s.clear(&a);
    assert_eq!(sorted(touched), vec![(1, 1), (2, 1)]);
    assert_eq!(s.active_scenes(), BTreeMap::new());
    assert_eq!(s.get_controls(t(1, 1), &a), None);
}

#[test]
fn user_control_overrides_scenes_until_a_scene_is_enabled() {
    let a = registry();
    let mut c: Controls<u32> = Controls::new();
    c.enable_scene(all_rooms(100), &a);
    assert_eq!(c.get_controls(t(1, 1), &a), Some(&11));
    let updated = c.set_light(t(1, 1), 99);
    assert_eq!(updated, vec![t(1, 1)]);
    assert_eq!(c.get_controls(t(1, 1), &a), Some(&99));
    let update = c.enable_scene(all_rooms(101), &a);
    assert_eq!(sorted(update.endpoints), vec![(1, 1), (2, 1)]);
    assert_eq!(update.event.unwrap().active_scenes, vec![all_rooms(100), all_rooms(101)]);
    assert_eq!(c.get_controls(t(1, 1), &a), Some(&12));
}

#[test]
fn disabling_keeps_user_controls() {
    let a = registry();
    let mut c: Controls<u32> = Controls::new();
    c.enable_scene(all_rooms(101), &a);
    c.set_light(t(2, 1), 7);
    let update = c.disable_scene(all_rooms(101), &a);
    assert_eq!(sorted(update.endpoints), vec![(1, 1), (2, 1)]);
    assert_eq!(c.get_controls(t(2, 1), &a), Some(&7));
    assert_eq!(c.get_controls(t(1, 1), &a), None);
    assert!(!c.is_scene_enabled(all_rooms(101), &a));
}

#[test]
fn toggle_flips_and_actions_run_in_order() {
    let a = registry();
    let mut c: Controls<u32> = Controls::new();
    c.run_action(all_rooms(100), SceneAction::Toggle, &a);
    assert!(c.is_scene_enabled(all_rooms(100), &a));
    c.run_action(all_rooms(100), SceneAction::Toggle, &a);
    assert!(!c.is_scene_enabled(all_rooms(100), &a));
    let updates = c.run_actions(
        all_rooms(100),
        &[SceneAction::Enable, SceneAction::Disable, SceneAction::Enable],
        &a,
    );
    assert_eq!(updates.len(), 3);
    assert!(c.is_scene_enabled(all_rooms(100), &a));
    assert_eq!(c.active_scenes(), BTreeMap::from([(1000, vec![all_rooms(100)])]));
}

#[test]
fn reset_keeps_user_controls_and_returns_scene_endpoints() {
    let a = registry();
    let mut c: Controls<u32> = Controls::new();
    c.enable_scene(all_rooms(200), &a);
    c.set_light(t(1, 1), 5);
    let touched = c.reset_scene_stack(&a);
    assert_eq!(sorted(touched), vec![(2, 1)]);
    assert_eq!(c.active_scenes(), BTreeMap::new());
    assert_eq!(c.get_controls(t(1, 1), &a), Some(&5));
    assert_eq!(c.get_controls(t(2, 1), &a), None);
}

#[test]
fn keyed_list_keeps_keys_sorted() {
    let mut k: KeyedList<&str> = KeyedList::new();
    k.insert(5, "five");
    k.insert(1, "one");
    k.insert(3, "three");
    k.insert(5, "FIVE");
    assert_eq!(k.len(), 3);
    assert_eq!(k.entry_at(0), (&1, &"one"));
    assert_eq!(k.entry_at(2), (&5, &"FIVE"));
    assert_eq!(k.get(3), Some(&"three"));
    assert_eq!(k.remove(3), Some("three"));
    assert_eq!(k.remove(3), None);
    assert_eq!(k.get(3), None);
    k.push_last(9, "nine");
    assert_eq!(k.entry_at(2), (&9, &"nine"));
}
