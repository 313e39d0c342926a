use vstd::prelude::*;

use crate::assets::{AssetRegistry, SceneLayerBehaviour};
use crate::ids::{AssetId, EndpointTarget, SceneInRoom};
use crate::keyed::{entries_map, keys_increasing, lemma_entries_determined, lemma_entry_in_map, KeyedList};

verus! {

broadcast use vstd::seq_lib::group_seq_properties;

/// The scenes enabled on one scene layer.
pub enum SceneStackEntry {
    /// At most one scene on the whole layer.
    One { scene: Option<SceneInRoom> },
    /// At most one scene per room, keyed by room.
    OnePerRoom { rooms: KeyedList<SceneInRoom> },
    /// Scenes in the order they were enabled; the last one is on top.
    Stack { scenes: Vec<SceneInRoom> },
}

impl Default for SceneStackEntry {
    /// An empty stack.
    fn default() -> (r: Self)
        ensures
            r.wf(),
            r.coherent(),
            r@ == EntryView::Stack(Seq::empty()),
    {
        SceneStackEntry::Stack { scenes: Vec::new() }
    }
}

/// The mathematical content of a [`SceneStackEntry`].
pub enum EntryView {
    One(Option<SceneInRoom>),
    OnePerRoom(Seq<(AssetId, SceneInRoom)>),
    Stack(Seq<SceneInRoom>),
}

impl View for SceneStackEntry {
    type V = EntryView;

    open spec fn view(&self) -> EntryView {
        match self {
            SceneStackEntry::One { scene } => EntryView::One(*scene),
            SceneStackEntry::OnePerRoom { rooms } => EntryView::OnePerRoom(rooms.entries()),
            SceneStackEntry::Stack { scenes } => EntryView::Stack(scenes@),
        }
    }
}

/// Whether disabling (or re-enabling) `target` takes `s` off a stack: the same
/// scene in the same room, or, when `target` names no room, the same scene anywhere.
pub open spec fn matches_scene(s: SceneInRoom, target: SceneInRoom) -> bool {
    if target.room is Some {
        s == target
    } else {
        s.scene == target.scene
    }
}

/// The predicate "is kept when `target` is taken off".
pub open spec fn kept_by(target: SceneInRoom) -> spec_fn(SceneInRoom) -> bool {
    |s: SceneInRoom| !matches_scene(s, target)
}

/// `scenes` with every scene matching `target` taken off, order kept.
pub open spec fn without_scene(scenes: Seq<SceneInRoom>, target: SceneInRoom) -> Seq<SceneInRoom> {
    scenes.filter(kept_by(target))
}

/// The predicate "the room entry holds a scene other than `scene`".
pub open spec fn room_kept(scene: AssetId) -> spec_fn((AssetId, SceneInRoom)) -> bool {
    |e: (AssetId, SceneInRoom)| e.1.scene != scene
}

/// `m` with `scene` enabled in each room of `rooms`.
pub open spec fn enabled_in_rooms(
    m: Map<AssetId, SceneInRoom>,
    scene: AssetId,
    rooms: Seq<AssetId>,
) -> Map<AssetId, SceneInRoom> {
    m.union_prefer_right(
        Map::new(|k: AssetId| rooms.contains(k), |k: AssetId| SceneInRoom { scene, room: Some(k) }),
    )
}

/// The values of room entries, in room order.
pub open spec fn room_values(es: Seq<(AssetId, SceneInRoom)>) -> Seq<SceneInRoom> {
    es.map_values(|e: (AssetId, SceneInRoom)| e.1)
}

/// The entry after enabling `scene`, where `rooms` are all rooms of the registry.
pub open spec fn enable_view(v: EntryView, scene: SceneInRoom, rooms: Seq<AssetId>) -> Map<
    AssetId,
    SceneInRoom,
> {
    match v {
        EntryView::OnePerRoom(es) => match scene.room {
            Some(r) => entries_map(es).insert(r, scene),
            None => enabled_in_rooms(entries_map(es), scene.scene, rooms),
        },
        _ => Map::empty(),
    }
}

/// The room entries of `v` are sorted by room (always so for the other kinds).
pub open spec fn view_wf(v: EntryView) -> bool {
    match v {
        EntryView::OnePerRoom(es) => keys_increasing(es),
        _ => true,
    }
}

/// `w` is entry `v` after enabling `scene`, where `rooms` are all rooms of the registry:
/// the single scene is replaced; the scene is placed in its room, or in every room when
/// it names none; or it is taken off the stack and put back on top.
pub open spec fn enable_post(v: EntryView, w: EntryView, scene: SceneInRoom, rooms: Seq<AssetId>) -> bool {
    &&& view_wf(w)
    &&& match v {
        EntryView::One(_) => w == EntryView::One(Some(scene)),
        EntryView::OnePerRoom(_) => w is OnePerRoom && entries_map(w->OnePerRoom_0) == enable_view(
            v,
            scene,
            rooms,
        ),
        EntryView::Stack(ss) => w == EntryView::Stack(without_scene(ss, scene).push(scene)),
    }
}

/// `w` is entry `v` after disabling `scene`: the single scene is cleared if it is
/// `scene`; the room entry is cleared if it holds `scene`, or, when `scene` names no
/// room, every room holding that scene is cleared; or the matching scenes leave the stack.
pub open spec fn disable_post(v: EntryView, w: EntryView, scene: SceneInRoom) -> bool {
    &&& view_wf(w)
    &&& match v {
        EntryView::One(o) => w == EntryView::One(
            if o == Some(scene) {
                None
            } else {
                o
            },
        ),
        EntryView::OnePerRoom(es) => w is OnePerRoom && match scene.room {
            Some(r) => entries_map(w->OnePerRoom_0) == if entries_map(es).contains_key(r)
                && entries_map(es)[r] == scene {
                entries_map(es).remove(r)
            } else {
                entries_map(es)
            },
            None => w->OnePerRoom_0 == es.filter(room_kept(scene.scene)),
        },
        EntryView::Stack(ss) => w == EntryView::Stack(without_scene(ss, scene)),
    }
}

/// Whether `scene` counts as enabled in entry `v`.
pub open spec fn is_enabled_view(v: EntryView, scene: SceneInRoom) -> bool {
    match v {
        EntryView::One(o) => o == Some(scene),
        EntryView::OnePerRoom(es) => match scene.room {
            Some(r) => entries_map(es).contains_key(r) && entries_map(es)[r] == scene,
            None => false,
        },
        EntryView::Stack(ss) => ss.contains(scene),
    }
}

/// The active scenes of entry `v`, in the order the entry lists them.
pub open spec fn active_view(v: EntryView) -> Seq<SceneInRoom> {
    match v {
        EntryView::One(o) => match o {
            Some(s) => seq![s],
            None => Seq::empty(),
        },
        EntryView::OnePerRoom(es) => room_values(es),
        EntryView::Stack(ss) => ss,
    }
}

/// All endpoints touched by any of `scenes`.
pub open spec fn union_affected<C>(reg: AssetRegistry<C>, scenes: Seq<SceneInRoom>) -> Set<
    EndpointTarget,
>
    decreases scenes.len(),
{
    if scenes.len() == 0 {
        Set::empty()
    } else {
        union_affected(reg, scenes.drop_last()) + reg.affected(scenes.last()).to_set()
    }
}

/// The endpoints whose light may change when `scene` is enabled or disabled on `v`:
/// those of `scene` and those of the scenes it would displace.
pub open spec fn affected_by_change_view<C>(
    v: EntryView,
    reg: AssetRegistry<C>,
    scene: SceneInRoom,
) -> Set<EndpointTarget> {
    reg.affected(scene).to_set() + match v {
        EntryView::One(o) => match o {
            Some(s) => reg.affected(s).to_set(),
            None => Set::empty(),
        },
        EntryView::OnePerRoom(es) => match scene.room {
            Some(r) => if entries_map(es).contains_key(r) {
                reg.affected(entries_map(es)[r]).to_set()
            } else {
                Set::empty()
            },
            None => union_affected(reg, room_values(es)),
        },
        EntryView::Stack(_) => Set::empty(),
    }
}

/// The control that the topmost scene of a stack with a control for `target` asks for.
pub open spec fn stack_control<C>(
    reg: AssetRegistry<C>,
    scenes: Seq<SceneInRoom>,
    target: EndpointTarget,
) -> Option<C>
    decreases scenes.len(),
{
    if scenes.len() == 0 {
        None
    } else {
        match reg.control(scenes.last(), target) {
            Some(c) => Some(c),
            None => stack_control(reg, scenes.drop_last(), target),
        }
    }
}

/// The control entry `v` asks for on `target`.
pub open spec fn controls_view<C>(v: EntryView, reg: AssetRegistry<C>, target: EndpointTarget) -> Option<
    C,
> {
    match v {
        EntryView::One(o) => match o {
            Some(s) => reg.control(s, target),
            None => None,
        },
        EntryView::OnePerRoom(es) => match reg.room_of_device(target.device) {
            Some(r) => if entries_map(es).contains_key(r) {
                reg.control(entries_map(es)[r], target)
            } else {
                None
            },
            None => None,
        },
        EntryView::Stack(ss) => stack_control(reg, ss, target),
    }
}

/// Filtering keeps a sequence free of duplicates.
pub proof fn lemma_filter_no_duplicates<A>(s: Seq<A>, p: spec_fn(A) -> bool)
    requires
        s.no_duplicates(),
    ensures
        s.filter(p).no_duplicates(),
    decreases s.len(),
{
    reveal(Seq::filter);
    if s.len() > 0 {
        let init = s.drop_last();
        assert(init.no_duplicates());
        lemma_filter_no_duplicates(init, p);
        if p(s.last()) {
            if init.filter(p).contains(s.last()) {
                init.lemma_filter_contains_rev(p, s.last());
                let k = choose|k: int| 0 <= k < init.len() && init[k] == s.last();
                assert(s[k] == s[s.len() - 1]);
            }
        }
    }
}

/// Adds the endpoints of `items` that `out` lacks, so that `out` holds each endpoint once.
pub fn extend_unique(out: &mut Vec<EndpointTarget>, items: &[EndpointTarget])
    ensures
        final(out)@.to_set() == old(out)@.to_set() + items@.to_set(),
        old(out)@.no_duplicates() ==> final(out)@.no_duplicates(),
{
    let mut i: usize = 0;
    while i < items.len()
        invariant
            i <= items@.len(),
            out@.to_set() == old(out)@.to_set() + items@.take(i as int).to_set(),
            old(out)@.no_duplicates() ==> out@.no_duplicates(),
        decreases items@.len() - i,
    {
        let item = items[i];
        let mut found = false;
        let mut j: usize = 0;
        while j < out.len()
            invariant
                j <= out@.len(),
                found == (exists|k: int| 0 <= k < j && out@[k] == item),
            decreases out@.len() - j,
        {
            if out[j] == item {
                found = true;
            }
            j = j + 1;
        }
        let ghost before = out@;
        proof {
            assert(items@.take(i + 1) =~= items@.take(i as int).push(item));
            items@.take(i as int).lemma_push_to_set_commute(item);
        }
        if !found {
            out.push(item);
            proof {
                before.lemma_push_to_set_commute(item);
                if old(out)@.no_duplicates() {
                    assert(!before.contains(item));
                    assert(out@.no_duplicates());
                }
            }
        } else {
            proof {
                let k = choose|k: int| 0 <= k < j && out@[k] == item;
                assert(out@.to_set().contains(item));
            }
        }
        proof {
            assert(out@.to_set() =~= old(out)@.to_set() + items@.take(i + 1).to_set());
        }
        i = i + 1;
    }
    proof {
        assert(items@.take(items@.len() as int) =~= items@);
    }
}

impl SceneStackEntry {
    /// The room entries are sorted by room.
    pub open spec fn wf(&self) -> bool {
        match self {
            SceneStackEntry::OnePerRoom { rooms } => rooms.wf(),
            _ => true,
        }
    }

    /// What every operation keeps: a room entry holds a scene in that room, and a
    /// stack holds each scene-in-room once.
    pub open spec fn coherent(&self) -> bool {
        match self {
            SceneStackEntry::OnePerRoom { rooms } => forall|k: AssetId| #[trigger]
                rooms.map().contains_key(k) ==> rooms.map()[k].room == Some(k),
            SceneStackEntry::Stack { scenes } => scenes@.no_duplicates(),
            SceneStackEntry::One { .. } => true,
        }
    }

    /// The empty entry for a layer with behaviour `behaviour`.
    pub fn for_behaviour(behaviour: SceneLayerBehaviour) -> (r: Self)
        ensures
            r.wf(),
            r.coherent(),
            r@ == match behaviour {
                SceneLayerBehaviour::One => EntryView::One(None),
                SceneLayerBehaviour::OnePerRoom => EntryView::OnePerRoom(Seq::empty()),
                SceneLayerBehaviour::Stack => EntryView::Stack(Seq::empty()),
            },
    {
        match behaviour {
            SceneLayerBehaviour::One => SceneStackEntry::One { scene: None },
            SceneLayerBehaviour::OnePerRoom => {
                let rooms = KeyedList::new();
                proof {
                    assert(rooms.map() =~= Map::empty());
                }
                SceneStackEntry::OnePerRoom { rooms }
            },
            SceneLayerBehaviour::Stack => SceneStackEntry::Stack { scenes: Vec::new() },
        }
    }

    /// Takes every scene matching `scene` off `scenes`.
    fn remove_scene_id(scenes: &mut Vec<SceneInRoom>, scene: &SceneInRoom)
        ensures
            final(scenes)@ == without_scene(old(scenes)@, *scene),
    {
        let ghost p = kept_by(*scene);
        let mut kept: Vec<SceneInRoom> = Vec::new();
        let mut i: usize = 0;
        while i < scenes.len()
            invariant
                p == kept_by(*scene),
                i <= scenes@.len(),
                kept@ == scenes@.take(i as int).filter(p),
            decreases scenes@.len() - i,
        {
            let s = scenes[i];
            proof {
                assert(scenes@.take(i + 1) =~= scenes@.take(i as int).push(s));
                scenes@.take(i as int).lemma_filter_push(s, p);
            }
            let matches = if scene.room.is_some() {
                s == *scene
            } else {
                s.scene == scene.scene
            };
            if !matches {
                kept.push(s);
            }
            i = i + 1;
        }
        proof {
            assert(scenes@.take(scenes@.len() as int) =~= scenes@);
        }
        *scenes = kept;
    }

    /// Enables `scene` on this layer, displacing what the layer's behaviour says it displaces.
    pub fn enable_scene<C>(&mut self, scene: SceneInRoom, assets: &AssetRegistry<C>)
        requires
            old(self).wf(),
        ensures
            final(self).wf(),
            old(self).coherent() ==> final(self).coherent(),
            enable_post(old(self)@, final(self)@, scene, assets.rooms@),
    {
        match self {
            SceneStackEntry::One { scene: stack_scene } => {
                *stack_scene = Some(scene);
            },
            SceneStackEntry::OnePerRoom { rooms } => {
                if let Some(room) = scene.room {
                    rooms.insert(room, scene);
                } else {
                    let ghost m0 = rooms.map();
                    let ghost coherent0 = forall|k: AssetId| #[trigger]
                        m0.contains_key(k) ==> m0[k].room == Some(k);
                    let mut i: usize = 0;
                    while i < assets.rooms.len()
                        invariant
                            i <= assets.rooms@.len(),
                            rooms.wf(),
                            rooms.map() == enabled_in_rooms(
                                m0,
                                scene.scene,
                                assets.rooms@.take(i as int),
                            ),
                            coherent0 ==> forall|k: AssetId| #[trigger]
                                rooms.map().contains_key(k) ==> rooms.map()[k].room == Some(k),
                        decreases assets.rooms@.len() - i,
                    {
                        let room = assets.rooms[i];
                        rooms.insert(room, SceneInRoom { scene: scene.scene, room: Some(room) });
                        proof {
                            assert(assets.rooms@.take(i + 1) =~= assets.rooms@.take(i as int).push(
                                room,
                            ));
                            assert(rooms.map() =~= enabled_in_rooms(
                                m0,
                                scene.scene,
                                assets.rooms@.take(i + 1),
                            ));
                        }
                        i = i + 1;
                    }
                    proof {
                        assert(assets.rooms@.take(assets.rooms@.len() as int) =~= assets.rooms@);
                    }
                }
            },
            SceneStackEntry::Stack { scenes } => {
                let ghost ss0 = scenes@;
                Self::remove_scene_id(scenes, &scene);
                proof {
                    let ss = scenes@;
                    assert(!ss.contains(scene)) by {
                        if ss.contains(scene) {
                            let k = choose|k: int| 0 <= k < ss.len() && ss[k] == scene;
                            ss0.lemma_filter_pred(kept_by(scene), k);
                        }
                    }
                    if ss0.no_duplicates() {
                        lemma_filter_no_duplicates(ss0, kept_by(scene));
                    }
                }
                scenes.push(scene);
            },
        }
    }

    /// Takes every room entry holding scene `scene` off `rooms`.
    fn remove_scene_from_rooms(rooms: &mut KeyedList<SceneInRoom>, scene: AssetId)
        requires
            old(rooms).wf(),
        ensures
            final(rooms).wf(),
            final(rooms).entries() == old(rooms).entries().filter(room_kept(scene)),
            forall|k: AssetId| #[trigger]
                final(rooms).map().contains_key(k) ==> old(rooms).map().contains_key(k)
                    && final(rooms).map()[k] == old(rooms).map()[k],
    {
        let ghost p = room_kept(scene);
        let ghost es = rooms.entries();
        let mut kept: KeyedList<SceneInRoom> = KeyedList::new();
        let mut i: usize = 0;
        while i < rooms.len()
            invariant
                p == room_kept(scene),
                es == rooms.entries(),
                rooms.wf(),
                kept.wf(),
                i <= es.len(),
                kept.entries() == es.take(i as int).filter(p),
            decreases es.len() - i,
        {
            let (k, v) = rooms.entry_at(i);
            let k = *k;
            let v = *v;
            proof {
                assert(es.take(i + 1) =~= es.take(i as int).push((k, v)));
                es.take(i as int).lemma_filter_push((k, v), p);
            }
            if v.scene != scene {
                proof {
                    assert forall|j: int| 0 <= j < kept.entries().len() implies kept.entries()[j].0
                        < k by {
                        let e = kept.entries()[j];
                        assert(kept.entries().contains(e));
                        es.take(i as int).lemma_filter_contains_rev(p, e);
                        let m = choose|m: int| 0 <= m < i && es.take(i as int)[m] == e;
                        assert(es[m] == e);
                    }
                }
                kept.push_last(k, v);
            }
            i = i + 1;
        }
        proof {
            assert(es.take(es.len() as int) =~= es);
            assert forall|k: AssetId| #[trigger]
                kept.map().contains_key(k) implies rooms.map().contains_key(k)
                && kept.map()[k] == rooms.map()[k] by {
                let j = choose|j: int| 0 <= j < kept.entries().len() && #[trigger] kept.entries()[j].0 == k;
                lemma_entry_in_map(kept.entries(), j);
                let e = kept.entries()[j];
                assert(kept.entries().contains(e));
                es.lemma_filter_contains_rev(p, e);
                let m = choose|m: int| 0 <= m < es.len() && es[m] == e;
                lemma_entry_in_map(es, m);
            }
        }
        *rooms = kept;
    }

    /// Disables `scene` on this layer.
    pub fn disable_scene(&mut self, scene: &SceneInRoom)
        requires
            old(self).wf(),
        ensures
            final(self).wf(),
            old(self).coherent() ==> final(self).coherent(),
            disable_post(old(self)@, final(self)@, *scene),
    {
        match self {
            SceneStackEntry::One { scene: stack_scene } => {
                let is_this = match stack_scene {
                    Some(s) => *s == *scene,
                    None => false,
                };
                if is_this {
                    *stack_scene = None;
                }
            },
            SceneStackEntry::OnePerRoom { rooms } => {
                if let Some(room) = scene.room {
                    let is_this = match rooms.get(room) {
                        Some(s) => *s == *scene,
                        None => false,
                    };
                    if is_this {
                        rooms.remove(room);
                    }
                } else {
                    Self::remove_scene_from_rooms(rooms, scene.scene);
                }
            },
            SceneStackEntry::Stack { scenes } => {
                let ghost ss0 = scenes@;
                Self::remove_scene_id(scenes, scene);
                proof {
                    if ss0.no_duplicates() {
                        lemma_filter_no_duplicates(ss0, kept_by(*scene));
                    }
                }
            },
        }
    }

    /// The values of `rooms`, in room order.
    fn room_scenes(rooms: &KeyedList<SceneInRoom>) -> (r: Vec<SceneInRoom>)
        ensures
            r@ == room_values(rooms.entries()),
    {
        let mut out: Vec<SceneInRoom> = Vec::new();
        let mut i: usize = 0;
        while i < rooms.len()
            invariant
                i <= rooms.entries().len(),
                out@ == room_values(rooms.entries().take(i as int)),
            decreases rooms.entries().len() - i,
        {
            let (_, v) = rooms.entry_at(i);
            out.push(*v);
            proof {
                assert(room_values(rooms.entries().take(i + 1)) =~= room_values(
                    rooms.entries().take(i as int),
                ).push(*v));
            }
            i = i + 1;
        }
        proof {
            assert(rooms.entries().take(rooms.entries().len() as int) =~= rooms.entries());
        }
        out
    }

    /// The active scenes of this layer: the one scene, the scenes of the rooms in room
    /// order, or the stack from bottom to top.
    pub fn active_scenes(&self) -> (r: Vec<SceneInRoom>)
        ensures
            r@ == active_view(self@),
    {
        match self {
            SceneStackEntry::One { scene } => {
                let mut out: Vec<SceneInRoom> = Vec::new();
                if let Some(s) = scene {
                    out.push(*s);
                    proof {
                        assert(out@ =~= seq![*s]);
                    }
                }
                out
            },
            SceneStackEntry::OnePerRoom { rooms } => Self::room_scenes(rooms),
            SceneStackEntry::Stack { scenes } => scenes.clone(),
        }
    }

    /// Whether `scene` is enabled on this layer.
    pub fn is_scene_enabled(&self, scene: &SceneInRoom) -> (r: bool)
        requires
            self.wf(),
        ensures
            r == is_enabled_view(self@, *scene),
    {
        match self {
            SceneStackEntry::One { scene: stack_scene } => match stack_scene {
                Some(s) => *s == *scene,
                None => false,
            },
            SceneStackEntry::OnePerRoom { rooms } => {
                let room = match scene.room {
                    Some(room) => room,
                    None => {
                        return false;
                    },
                };
                match rooms.get(room) {
                    Some(s) => *s == *scene,
                    None => false,
                }
            },
            SceneStackEntry::Stack { scenes } => {
                let mut i: usize = 0;
                while i < scenes.len()
                    invariant
                        self@ == EntryView::Stack(scenes@),
                        i <= scenes@.len(),
                        forall|j: int| 0 <= j < i ==> scenes@[j] != *scene,
                    decreases scenes@.len() - i,
                {
                    if scenes[i] == *scene {
                        proof {
                            assert(scenes@[i as int] == *scene);
                        }
                        return true;
                    }
                    i = i + 1;
                }
                false
            },
        }
    }

    /// Adds the endpoints of all `scenes` to `out`.
    fn extend_with_scenes<C>(
        out: &mut Vec<EndpointTarget>,
        scenes: &Vec<SceneInRoom>,
        assets: &AssetRegistry<C>,
    )
        ensures
            final(out)@.to_set() == old(out)@.to_set() + union_affected(*assets, scenes@),
            old(out)@.no_duplicates() ==> final(out)@.no_duplicates(),
    {
        let mut i: usize = 0;
        while i < scenes.len()
            invariant
                i <= scenes@.len(),
                out@.to_set() == old(out)@.to_set() + union_affected(
                    *assets,
                    scenes@.take(i as int),
                ),
                old(out)@.no_duplicates() ==> out@.no_duplicates(),
            decreases scenes@.len() - i,
        {
            extend_unique(out, assets.affected_endpoints(scenes[i]));
            proof {
                assert(scenes@.take(i + 1).drop_last() =~= scenes@.take(i as int));
                assert(out@.to_set() =~= old(out)@.to_set() + union_affected(
                    *assets,
                    scenes@.take(i + 1),
                ));
            }
            i = i + 1;
        }
        proof {
            assert(scenes@.take(scenes@.len() as int) =~= scenes@);
        }
    }

    /// The endpoints whose light may change when `scene` is enabled or disabled on this
    /// layer, each listed once.
    pub fn get_endpoints_affected_by_change<C>(
        &self,
        scene: SceneInRoom,
        assets: &AssetRegistry<C>,
    ) -> (r: Vec<EndpointTarget>)
        requires
            self.wf(),
        ensures
            r@.no_duplicates(),
            r@.to_set() == affected_by_change_view(self@, *assets, scene),
    {
        let mut out: Vec<EndpointTarget> = Vec::new();
        proof {
            assert(out@.to_set() =~= Set::empty());
        }
        extend_unique(&mut out, assets.affected_endpoints(scene));
        match self {
            SceneStackEntry::One { scene: stack_scene } => {
                if let Some(s) = stack_scene {
                    extend_unique(&mut out, assets.affected_endpoints(*s));
                } else {
                    proof {
                        assert(out@.to_set() =~= out@.to_set() + Set::empty());
                    }
                }
            },
            SceneStackEntry::OnePerRoom { rooms } => {
                if let Some(room) = scene.room {
                    match rooms.get(room) {
                        Some(old_scene) => {
                            extend_unique(&mut out, assets.affected_endpoints(*old_scene));
                        },
                        None => {
                            proof {
                                assert(out@.to_set() =~= out@.to_set() + Set::empty());
                            }
                        },
                    }
                } else {
                    let values = Self::room_scenes(rooms);
                    Self::extend_with_scenes(&mut out, &values, assets);
                }
            },
            SceneStackEntry::Stack { scenes: _ } => {
                proof {
                    assert(out@.to_set() =~= out@.to_set() + Set::empty());
                }
            },
        }
        out
    }

    /// Adds to `endpoints` the endpoints of every active scene of this layer.
    pub fn get_all_endpoints<C>(&self, assets: &AssetRegistry<C>, endpoints: &mut Vec<EndpointTarget>)
        ensures
            final(endpoints)@.to_set() == old(endpoints)@.to_set() + union_affected(
                *assets,
                active_view(self@),
            ),
            old(endpoints)@.no_duplicates() ==> final(endpoints)@.no_duplicates(),
    {
        let scenes = self.active_scenes();
        Self::extend_with_scenes(endpoints, &scenes, assets);
    }

    /// The control this layer asks for on `target`: that of the single scene, of the
    /// scene in the device's room, or of the topmost stacked scene that has one.
    pub fn get_controls<'a, C>(&self, target: EndpointTarget, assets: &'a AssetRegistry<C>) -> (r:
        Option<&'a C>)
        requires
            self.wf(),
        ensures
            match r {
                Some(c) => controls_view(self@, *assets, target) == Some(*c),
                None => controls_view(self@, *assets, target) is None,
            },
    {
        match self {
            SceneStackEntry::One { scene } => match scene {
                Some(s) => assets.get_control(*s, target),
                None => None,
            },
            SceneStackEntry::OnePerRoom { rooms } => {
                let room = match assets.get_room_of_device(target.device) {
                    Some(room) => room,
                    None => {
                        return None;
                    },
                };
                match rooms.get(room) {
                    Some(s) => assets.get_control(*s, target),
                    None => None,
                }
            },
            SceneStackEntry::Stack { scenes } => {
                let mut i: usize = scenes.len();
                proof {
                    assert(scenes@.take(scenes@.len() as int) =~= scenes@);
                }
                while i > 0
                    invariant
                        self@ == EntryView::Stack(scenes@),
                        i <= scenes@.len(),
                        stack_control(*assets, scenes@, target) == stack_control(
                            *assets,
                            scenes@.take(i as int),
                            target,
                        ),
                    decreases i,
                {
                    proof {
                        assert(scenes@.take(i as int).drop_last() =~= scenes@.take(i - 1));
                        assert(scenes@.take(i as int).last() == scenes@[i - 1]);
                    }
                    match assets.get_control(scenes[i - 1], target) {
                        Some(c) => {
                            return Some(c);
                        },
                        None => {},
                    }
                    i = i - 1;
                }
                proof {
                    assert(scenes@.take(scenes@.len() as int) =~= scenes@);
                }
                None
            },
        }
    }
}

/// Filtering keeps a sequence whose every element passes unchanged.
pub proof fn lemma_filter_all_pass<A>(s: Seq<A>, p: spec_fn(A) -> bool)
    requires
        forall|i: int| 0 <= i < s.len() ==> p(#[trigger] s[i]),
    ensures
        s.filter(p) == s,
    decreases s.len(),
{
    reveal(Seq::filter);
    if s.len() > 0 {
        lemma_filter_all_pass(s.drop_last(), p);
        assert(s.drop_last().push(s.last()) =~= s);
    }
}

/// Every scene left by `without_scene` is kept by the removal of `target`.
pub proof fn lemma_without_scene_kept(ss: Seq<SceneInRoom>, target: SceneInRoom)
    ensures
        forall|i: int| 0 <= i < without_scene(ss, target).len() ==> kept_by(target)(
            #[trigger] without_scene(ss, target)[i],
        ),
        !without_scene(ss, target).contains(target),
{
    assert forall|i: int| 0 <= i < without_scene(ss, target).len() implies kept_by(target)(
        #[trigger] without_scene(ss, target)[i],
    ) by {
        ss.lemma_filter_pred(kept_by(target), i);
    }
    if without_scene(ss, target).contains(target) {
        let k = choose|k: int| 0 <= k < without_scene(ss, target).len() && without_scene(ss, target)[k] == target;
        ss.lemma_filter_pred(kept_by(target), k);
    }
}

/// Enabling a scene makes it count as enabled, on every layer except a one-per-room
/// layer when the scene names no room: there it is placed in every room instead, and a
/// scene without a room never counts as enabled on such a layer.
pub proof fn law_enabled_after_enable(v: EntryView, w: EntryView, scene: SceneInRoom, rooms: Seq<AssetId>)
    requires
        view_wf(v),
        enable_post(v, w, scene, rooms),
        !(v is OnePerRoom && scene.room is None),
    ensures
        is_enabled_view(w, scene),
{
    match v {
        EntryView::Stack(ss) => {
            let t = without_scene(ss, scene).push(scene);
            assert(t[t.len() - 1] == scene);
        },
        _ => {},
    }
}

/// After disabling a scene it does not count as enabled.
pub proof fn law_not_enabled_after_disable(v: EntryView, w: EntryView, scene: SceneInRoom)
    requires
        view_wf(v),
        disable_post(v, w, scene),
    ensures
        !is_enabled_view(w, scene),
{
    match v {
        EntryView::Stack(ss) => {
            lemma_without_scene_kept(ss, scene);
        },
        _ => {},
    }
}

/// Enabling a scene a second time changes nothing.
pub proof fn law_enable_idempotent(
    v: EntryView,
    w1: EntryView,
    w2: EntryView,
    scene: SceneInRoom,
    rooms: Seq<AssetId>,
)
    requires
        view_wf(v),
        enable_post(v, w1, scene, rooms),
        enable_post(w1, w2, scene, rooms),
    ensures
        w2 == w1,
{
    match v {
        EntryView::One(_) => {},
        EntryView::OnePerRoom(es) => {
            let m1 = entries_map(w1->OnePerRoom_0);
            let m2 = entries_map(w2->OnePerRoom_0);
            match scene.room {
                Some(r) => {
                    assert(m2 =~= m1);
                },
                None => {
                    assert(m2 =~= m1);
                },
            }
            lemma_entries_determined(w1->OnePerRoom_0, w2->OnePerRoom_0);
        },
        EntryView::Stack(ss) => {
            let a = without_scene(ss, scene);
            lemma_without_scene_kept(ss, scene);
            a.lemma_filter_push(scene, kept_by(scene));
            lemma_filter_all_pass(a, kept_by(scene));
        },
    }
}

/// On a stack layer the scene enabled last is on top, and where it asks for a control
/// on an endpoint, that control is the layer's.
pub proof fn law_last_enabled_on_top<C>(
    ss: Seq<SceneInRoom>,
    w: EntryView,
    scene: SceneInRoom,
    rooms: Seq<AssetId>,
    reg: AssetRegistry<C>,
    target: EndpointTarget,
)
    requires
        enable_post(EntryView::Stack(ss), w, scene, rooms),
    ensures
        active_view(w).last() == scene,
        reg.control(scene, target) is Some ==> controls_view(w, reg, target) == reg.control(
            scene,
            target,
        ),
{
}

/// Disabling a scene right after enabling it restores the layer, when nothing the
/// scene displaces was active before: the single slot was empty, the room was free, or
/// no matching scene was stacked.
pub proof fn law_disable_undoes_enable(
    v: EntryView,
    w: EntryView,
    u: EntryView,
    scene: SceneInRoom,
    rooms: Seq<AssetId>,
)
    requires
        view_wf(v),
        enable_post(v, w, scene, rooms),
        disable_post(w, u, scene),
        match v {
            EntryView::One(o) => o is None,
            EntryView::OnePerRoom(es) => scene.room is Some && !entries_map(es).contains_key(
                scene.room->0,
            ),
            EntryView::Stack(ss) => forall|i: int|
                0 <= i < ss.len() ==> !matches_scene(#[trigger] ss[i], scene),
        },
    ensures
        u == v,
{
    match v {
        EntryView::One(_) => {},
        EntryView::OnePerRoom(es) => {
            let r = scene.room->0;
            assert(entries_map(u->OnePerRoom_0) =~= entries_map(es));
            lemma_entries_determined(u->OnePerRoom_0, es);
        },
        EntryView::Stack(ss) => {
            lemma_filter_all_pass(ss, kept_by(scene));
            ss.lemma_filter_push(scene, kept_by(scene));
        },
    }
}


/// `ss.filter(p)` equals `ss.filter(q)` when `p` and `q` agree everywhere.
proof fn lemma_filter_same_pred<A>(ss: Seq<A>, p: spec_fn(A) -> bool, q: spec_fn(A) -> bool)
    requires
        forall|s: A| #[trigger] p(s) == q(s),
    ensures
        ss.filter(p) == ss.filter(q),
{
    assert(p =~= q);
}

/// On a stack layer, disabling a scene that names a room takes off exactly the stacked
/// entries equal to it (same scene, same room), order kept: the same scene stacked in
/// another room stays. Disabling a scene that names no room takes that scene off in
/// every room.
pub proof fn law_stack_disable_takes_off_equal(ss: Seq<SceneInRoom>, w: EntryView, scene: SceneInRoom)
    requires
        disable_post(EntryView::Stack(ss), w, scene),
    ensures
        w is Stack,
        scene.room is Some ==> w->Stack_0 == ss.filter(|s: SceneInRoom| s != scene),
        scene.room is None ==> w->Stack_0 == ss.filter(|s: SceneInRoom| s.scene != scene.scene),
        scene.room is Some ==> forall|s: SceneInRoom|
            s.scene == scene.scene && s.room != scene.room && #[trigger] ss.contains(s)
                ==> w->Stack_0.contains(s),
        forall|s: SceneInRoom| #[trigger] w->Stack_0.contains(s) ==> ss.contains(s),
{
    if scene.room is Some {
        lemma_filter_same_pred(ss, kept_by(scene), |s: SceneInRoom| s != scene);
    } else {
        lemma_filter_same_pred(ss, kept_by(scene), |s: SceneInRoom| s.scene != scene.scene);
    }
    assert forall|s: SceneInRoom| #[trigger] w->Stack_0.contains(s) implies ss.contains(s) by {
        ss.lemma_filter_contains_rev(kept_by(scene), s);
    }
    if scene.room is Some {
        assert forall|s: SceneInRoom|
            s.scene == scene.scene && s.room != scene.room && #[trigger] ss.contains(s)
            implies w->Stack_0.contains(s) by {
            let k = choose|k: int| 0 <= k < ss.len() && ss[k] == s;
            ss.lemma_filter_contains(kept_by(scene), k);
        }
    }
}

/// On a stack layer, enabling a scene that names a room takes off only the stacked
/// entry equal to it and puts it on top: the same scene stacked in another room stays.
/// Enabling a scene that names no room takes that scene off in every room first.
pub proof fn law_stack_enable_moves_equal_to_top(
    ss: Seq<SceneInRoom>,
    w: EntryView,
    scene: SceneInRoom,
    rooms: Seq<AssetId>,
)
    requires
        enable_post(EntryView::Stack(ss), w, scene, rooms),
    ensures
        w is Stack,
        scene.room is Some ==> w->Stack_0 == ss.filter(|s: SceneInRoom| s != scene).push(scene),
        scene.room is None ==> w->Stack_0 == ss.filter(|s: SceneInRoom| s.scene != scene.scene).push(
            scene,
        ),
        scene.room is Some ==> forall|s: SceneInRoom|
            s.scene == scene.scene && s.room != scene.room && #[trigger] ss.contains(s)
                ==> w->Stack_0.contains(s),
{
    if scene.room is Some {
        lemma_filter_same_pred(ss, kept_by(scene), |s: SceneInRoom| s != scene);
        assert forall|s: SceneInRoom|
            s.scene == scene.scene && s.room != scene.room && #[trigger] ss.contains(s)
            implies w->Stack_0.contains(s) by {
            let k = choose|k: int| 0 <= k < ss.len() && ss[k] == s;
            ss.lemma_filter_contains(kept_by(scene), k);
            let f = without_scene(ss, scene);
            let j = choose|j: int| 0 <= j < f.len() && f[j] == s;
            assert(f.push(scene)[j] == s);
        }
    } else {
        lemma_filter_same_pred(ss, kept_by(scene), |s: SceneInRoom| s.scene != scene.scene);
    }
}

/// On a one-per-room layer, disabling a scene in a room clears that room only when the
/// room holds exactly that scene; when the room is free or holds another scene the
/// layer is left unchanged. Other rooms are never touched.
pub proof fn law_one_per_room_disable_in_room(
    es: Seq<(AssetId, SceneInRoom)>,
    w: EntryView,
    scene: SceneInRoom,
    r: AssetId,
)
    requires
        keys_increasing(es),
        scene.room == Some(r),
        disable_post(EntryView::OnePerRoom(es), w, scene),
    ensures
        w is OnePerRoom,
        !(entries_map(es).contains_key(r) && entries_map(es)[r] == scene) ==> w
            == EntryView::OnePerRoom(es),
        entries_map(es).contains_key(r) && entries_map(es)[r] == scene ==> {
            &&& !entries_map(w->OnePerRoom_0).contains_key(r)
            &&& forall|k: AssetId|
                k != r ==> (#[trigger] entries_map(w->OnePerRoom_0).contains_key(k)
                    == entries_map(es).contains_key(k))
            &&& forall|k: AssetId|
                k != r && #[trigger] entries_map(w->OnePerRoom_0).contains_key(k)
                    ==> entries_map(w->OnePerRoom_0)[k] == entries_map(es)[k]
        },
{
    if !(entries_map(es).contains_key(r) && entries_map(es)[r] == scene) {
        lemma_entries_determined(w->OnePerRoom_0, es);
    }
}


/// On a one-per-room layer, disabling a scene that names no room clears exactly the
/// rooms holding that scene, whatever room it was placed in; the other rooms keep their
/// scenes, in room order.
pub proof fn law_one_per_room_disable_everywhere(
    es: Seq<(AssetId, SceneInRoom)>,
    w: EntryView,
    scene: SceneInRoom,
)
    requires
        scene.room is None,
        disable_post(EntryView::OnePerRoom(es), w, scene),
    ensures
        w is OnePerRoom,
        w->OnePerRoom_0 == es.filter(|e: (AssetId, SceneInRoom)| e.1.scene != scene.scene),
{
    lemma_filter_same_pred(
        es,
        room_kept(scene.scene),
        |e: (AssetId, SceneInRoom)| e.1.scene != scene.scene,
    );
}

/// On a one-per-room layer, enabling a scene in a room puts it in that room, replacing
/// what was there; enabling a scene that names no room puts that scene, placed in the
/// room, in every room of the registry. Rooms not named keep their scenes.
pub proof fn law_one_per_room_enable(
    es: Seq<(AssetId, SceneInRoom)>,
    w: EntryView,
    scene: SceneInRoom,
    rooms: Seq<AssetId>,
)
    requires
        enable_post(EntryView::OnePerRoom(es), w, scene, rooms),
    ensures
        w is OnePerRoom,
        forall|k: AssetId| #[trigger]
            entries_map(w->OnePerRoom_0).contains_key(k) == (entries_map(es).contains_key(k) || (
            match scene.room {
                Some(r) => k == r,
                None => rooms.contains(k),
            })),
        forall|k: AssetId| #[trigger]
            entries_map(w->OnePerRoom_0).contains_key(k) ==> entries_map(w->OnePerRoom_0)[k] == (
            match scene.room {
                Some(r) => if k == r {
                    scene
                } else {
                    entries_map(es)[k]
                },
                None => if rooms.contains(k) {
                    SceneInRoom { scene: scene.scene, room: Some(k) }
                } else {
                    entries_map(es)[k]
                },
            }),
{
}


/// On a stack layer the control asked for on an endpoint is that of the scene highest
/// on the stack (enabled last) among those with a control for it; none when no stacked
/// scene has one.
pub proof fn law_topmost_stacked_control_wins<C>(
    ss: Seq<SceneInRoom>,
    reg: AssetRegistry<C>,
    target: EndpointTarget,
)
    ensures
        match controls_view(EntryView::Stack(ss), reg, target) {
            None => forall|j: int| 0 <= j < ss.len() ==> reg.control(#[trigger] ss[j], target) is None,
            Some(c) => exists|i: int|
                0 <= i < ss.len() && reg.control(#[trigger] ss[i], target) == Some(c) && forall|j: int|
                    i < j < ss.len() ==> reg.control(#[trigger] ss[j], target) is None,
        },
    decreases ss.len(),
{
    if ss.len() > 0 {
        let init = ss.drop_last();
        law_topmost_stacked_control_wins(init, reg, target);
        match reg.control(ss.last(), target) {
            Some(c) => {
                assert(reg.control(ss[ss.len() - 1], target) == Some(c));
            },
            None => {
                match stack_control(reg, init, target) {
                    None => {
                        assert forall|j: int| 0 <= j < ss.len() implies reg.control(
                            #[trigger] ss[j],
                            target,
                        ) is None by {
                            if j < ss.len() - 1 {
                                assert(ss[j] == init[j]);
                            }
                        }
                    },
                    Some(c) => {
                        let i = choose|i: int|
                            0 <= i < init.len() && reg.control(#[trigger] init[i], target) == Some(c)
                                && forall|j: int|
                                i < j < init.len() ==> reg.control(#[trigger] init[j], target) is None;
                        assert(ss[i] == init[i]);
                        assert forall|j: int| i < j < ss.len() implies reg.control(
                            #[trigger] ss[j],
                            target,
                        ) is None by {
                            if j < ss.len() - 1 {
                                assert(ss[j] == init[j]);
                            }
                        }
                    },
                }
            },
        }
    }
}

} // verus!
