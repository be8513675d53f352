use vstd::prelude::*;

verus! {

use crate::block::Block;
use crate::camera::DefaultCamera;
use crate::element::{behavior_alias, behavior_capability, Behavior, Capability, Element, ModuleTool};
use crate::event::{BusEvent, Sender, Unlocked};
use crate::input::InputEvent;
use crate::particles::ParticleEmitterSettings;
use crate::physics::PhysObjManager;

/// An exact copy of a string list.
pub fn clone_strings(v: &Vec<String>) -> (r: Vec<String>)
    ensures
        r@ == v@,
{
    let mut out: Vec<String> = Vec::new();
    let mut i: usize = 0;
    while i < v.len()
        invariant
            i <= v@.len(),
            out@.len() == i,
            forall|j: int| 0 <= j < i ==> #[trigger] out@[j] == v@[j],
        decreases v@.len() - i,
    {
        out.push(v[i].clone());
        i += 1;
    }
    proof {
        assert(out@ =~= v@);
    }
    out
}

/// A shared tag table: lists of tag strings keyed by entity identifier.
/// Exposed as a module so any entity can look it up by alias and annotate
/// or query entities.
pub struct UuidTags {
    tags: Vec<(u128, Vec<String>)>,
}

impl UuidTags {
    /// Whether any tags are recorded under `id`.
    pub closed spec fn tags_has(&self, id: u128) -> bool {
        exists|i: int| 0 <= i < self.tags@.len() && #[trigger] self.tags@[i].0 == id
    }

    /// The tags recorded under `id`, in insertion order (empty if none are).
    pub closed spec fn tags_of(&self, id: u128) -> Seq<Seq<char>> {
        if self.tags_has(id) {
            let i = choose|i: int| 0 <= i < self.tags@.len() && #[trigger] self.tags@[i].0 == id;
            self.tags@[i].1@.map_values(|t: String| t@)
        } else {
            Seq::<Seq<char>>::empty()
        }
    }

    /// At most one entry per identifier.
    pub closed spec fn wf(&self) -> bool {
        forall|i: int, j: int|
            0 <= i < j < self.tags@.len() ==> #[trigger] self.tags@[i].0 != #[trigger] self.tags@[
                j].0
    }

    fn find(&self, id: u128) -> (found: Option<usize>)
        requires
            self.wf(),
        ensures
            match found {
                Some(i) => i < self.tags@.len() && self.tags@[i as int].0 == id,
                None => !self.tags_has(id),
            },
    {
        let mut i: usize = 0;
        while i < self.tags.len()
            invariant
                i <= self.tags@.len(),
                forall|j: int| 0 <= j < i ==> #[trigger] self.tags@[j].0 != id,
            decreases self.tags@.len() - i,
        {
            if self.tags[i].0 == id {
                return Some(i);
            }
            i += 1;
        }
        None
    }

    /// The tags under `uuid`, copied out, if any are recorded.
    pub fn get_tags(&self, uuid: &u128) -> (r: Option<Vec<String>>)
        requires
            self.wf(),
        ensures
            match r {
                Some(v) => self.tags_has(*uuid) && v@.map_values(|t: String| t@) == self.tags_of(
                    *uuid,
                ),
                None => !self.tags_has(*uuid),
            },
    {
        match self.find(*uuid) {
            Some(i) => {
                proof {
                    lemma_tag_entry(self, i as int, *uuid);
                }
                Some(clone_strings(&self.tags[i].1))
            },
            None => None,
        }
    }

    /// Replace (or create) the tag list under `uuid`.
    pub fn set_tags(&mut self, uuid: &u128, tag_vec: Vec<String>)
        requires
            old(self).wf(),
        ensures
            final(self).wf(),
            final(self).tags_has(*uuid),
            final(self).tags_of(*uuid) == tag_vec@.map_values(|t: String| t@),
            forall|k: u128|
                k != *uuid ==> final(self).tags_has(k) == old(self).tags_has(k) && final(self).tags_of(k) == old(self).tags_of(k),
    {
        match self.find(*uuid) {
            Some(i) => {
                self.tags[i] = (*uuid, tag_vec);
                proof {
                    lemma_tags_after_update(old(self), self, i as int, *uuid);
                }
            },
            None => {
                self.tags.push((*uuid, tag_vec));
                proof {
                    lemma_tags_after_push(old(self), self, *uuid);
                }
            },
        }
    }

    /// Add one tag under `uuid`, unless the same text is already recorded
    /// there.
    pub fn add_tag(&mut self, uuid: &u128, tag: String)
        requires
            old(self).wf(),
        ensures
            final(self).wf(),
            final(self).tags_has(*uuid),
            old(self).tags_has(*uuid) && old(self).tags_of(*uuid).contains(tag@) ==> final(self).tags_of(*uuid) == old(self).tags_of(*uuid),
            old(self).tags_has(*uuid) && !old(self).tags_of(*uuid).contains(tag@) ==> final(self).tags_of(*uuid) == old(self).tags_of(*uuid).push(tag@),
            !old(self).tags_has(*uuid) ==> final(self).tags_of(*uuid) == seq![tag@],
            forall|k: u128|
                k != *uuid ==> final(self).tags_has(k) == old(self).tags_has(k) && final(self).tags_of(k) == old(self).tags_of(k),
    {
        match self.find(*uuid) {
            Some(i) => {
                proof {
                    lemma_tag_entry(old(self), i as int, *uuid);
                }
                if !has_string(&self.tags[i].1, &tag) {
                    let entry = &mut self.tags[i];
                    entry.1.push(tag);
                    proof {
                        assert(self.tags@[i as int].1@.map_values(|t: String| t@) =~= old(
                            self,
                        ).tags@[i as int].1@.map_values(|t: String| t@).push(tag@));
                        lemma_tags_after_update(old(self), self, i as int, *uuid);
                    }
                } else {
                    proof {
                        lemma_tag_entry(self, i as int, *uuid);
                    }
                }
            },
            None => {
                let mut one: Vec<String> = Vec::new();
                one.push(tag);
                self.tags.push((*uuid, one));
                proof {
                    assert(self.tags@.last().1@.map_values(|t: String| t@) =~= seq![tag@]);
                    lemma_tags_after_push(old(self), self, *uuid);
                }
            },
        }
    }

    /// Whether `tag` is recorded under `uuid`.
    pub fn has_tag(&self, uuid: &u128, tag: String) -> (r: bool)
        requires
            self.wf(),
        ensures
            r == (self.tags_has(*uuid) && self.tags_of(*uuid).contains(tag@)),
    {
        match self.find(*uuid) {
            Some(i) => {
                proof {
                    lemma_tag_entry(self, i as int, *uuid);
                }
                has_string(&self.tags[i].1, &tag)
            },
            None => false,
        }
    }
}

impl Default for UuidTags {
    fn default() -> (r: UuidTags)
        ensures
            r.wf(),
            forall|k: u128| !r.tags_has(k),
    {
        UuidTags { tags: Vec::new() }
    }
}

/// Whether the list holds a string with the same text.
fn has_string(v: &Vec<String>, s: &String) -> (r: bool)
    ensures
        r == v@.map_values(|t: String| t@).contains(s@),
{
    let mut i: usize = 0;
    while i < v.len()
        invariant
            i <= v@.len(),
            forall|j: int| 0 <= j < i ==> #[trigger] v@[j]@ != s@,
        decreases v@.len() - i,
    {
        if v[i] == *s {
            proof {
                assert(v@.map_values(|t: String| t@)[i as int] == s@);
            }
            return true;
        }
        i += 1;
    }
    proof {
        let mapped = v@.map_values(|t: String| t@);
        assert forall|j: int| 0 <= j < mapped.len() implies #[trigger] mapped[j] != s@ by {
            assert(mapped[j] == v@[j]@);
        }
    }
    false
}

/// The entry at a valid index is the one the tag view reports for its key.
proof fn lemma_tag_entry(s: &UuidTags, i: int, id: u128)
    requires
        s.wf(),
        0 <= i < s.tags@.len(),
        s.tags@[i].0 == id,
    ensures
        s.tags_has(id),
        s.tags_of(id) == s.tags@[i].1@.map_values(|t: String| t@),
{
    assert(s.tags_has(id));
    let j = choose|j: int| 0 <= j < s.tags@.len() && #[trigger] s.tags@[j].0 == id;
    assert(j == i);
}

/// After replacing the entry at index `i` while keeping its key, that key
/// reads the new list and every other key reads as before.
proof fn lemma_tags_after_update(before: &UuidTags, after: &UuidTags, i: int, id: u128)
    requires
        before.wf(),
        0 <= i < before.tags@.len(),
        after.tags@.len() == before.tags@.len(),
        forall|j: int|
            0 <= j < before.tags@.len() && j != i ==> #[trigger] after.tags@[j] == before.tags@[j],
        before.tags@[i].0 == id,
        after.tags@[i].0 == id,
    ensures
        after.wf(),
        after.tags_has(id),
        after.tags_of(id) == after.tags@[i].1@.map_values(|t: String| t@),
        forall|k: u128|
            k != id ==> after.tags_has(k) == before.tags_has(k) && after.tags_of(k)
                == before.tags_of(k),
{
    assert forall|p: int, q: int|
        0 <= p < q < after.tags@.len() implies #[trigger] after.tags@[p].0 != #[trigger] after.tags@[
        q].0 by {
        assert(after.tags@[p].0 == before.tags@[p].0);
        assert(after.tags@[q].0 == before.tags@[q].0);
    }
    lemma_tag_entry(after, i, id);
    assert forall|k: u128|
        k != id implies after.tags_has(k) == before.tags_has(k) && after.tags_of(k)
        == before.tags_of(k) by {
        if before.tags_has(k) {
            let j = choose|j: int| 0 <= j < before.tags@.len() && #[trigger] before.tags@[j].0 == k;
            assert(j != i);
            assert(after.tags@[j].0 == k);
            lemma_tag_entry(before, j, k);
            lemma_tag_entry(after, j, k);
        } else {
            if after.tags_has(k) {
                let j = choose|j: int|
                    0 <= j < after.tags@.len() && #[trigger] after.tags@[j].0 == k;
                assert(j != i);
                assert(before.tags@[j].0 == k);
            }
        }
    }
}

/// After appending an entry under a key that had none, the new key reads
/// the appended list and every other key as before.
proof fn lemma_tags_after_push(before: &UuidTags, after: &UuidTags, id: u128)
    requires
        before.wf(),
        !before.tags_has(id),
        after.tags@.len() == before.tags@.len() + 1,
        forall|j: int|
            0 <= j < before.tags@.len() ==> #[trigger] after.tags@[j] == before.tags@[j],
        after.tags@[before.tags@.len() as int].0 == id,
    ensures
        after.wf(),
        after.tags_has(id),
        after.tags_of(id) == after.tags@[before.tags@.len() as int].1@.map_values(
            |t: String| t@,
        ),
        forall|k: u128|
            k != id ==> after.tags_has(k) == before.tags_has(k) && after.tags_of(k)
                == before.tags_of(k),
{
    let n = before.tags@.len() as int;
    assert forall|p: int, q: int|
        0 <= p < q < after.tags@.len() implies #[trigger] after.tags@[p].0 != #[trigger] after.tags@[
        q].0 by {
        if q < n {
            assert(after.tags@[p].0 == before.tags@[p].0);
            assert(after.tags@[q].0 == before.tags@[q].0);
        } else {
            assert(after.tags@[p].0 == before.tags@[p].0);
            assert(before.tags@[p].0 != id);
        }
    }
    lemma_tag_entry(after, n, id);
    assert forall|k: u128|
        k != id implies after.tags_has(k) == before.tags_has(k) && after.tags_of(k)
        == before.tags_of(k) by {
        if before.tags_has(k) {
            let j = choose|j: int| 0 <= j < before.tags@.len() && #[trigger] before.tags@[j].0 == k;
            assert(after.tags@[j].0 == k);
            lemma_tag_entry(before, j, k);
            lemma_tag_entry(after, j, k);
        } else {
            if after.tags_has(k) {
                let j = choose|j: int|
                    0 <= j < after.tags@.len() && #[trigger] after.tags@[j].0 == k;
                assert(j != n);
                assert(before.tags@[j].0 == k);
            }
        }
    }
}

/// Configuration a block template carries in a document.  The tag list is
/// shared, so a document copy equals its original.
pub struct BlockSettings {
    pub pos: crate::V2<i64>,
    pub shape: crate::V2<i64>,
    pub solid: bool,
    pub depth: i64,
    pub sprite_index: usize,
    pub tags: std::rc::Rc<Vec<String>>,
}

impl BlockSettings {
    pub fn dup(&self) -> (r: BlockSettings)
        ensures
            r == *self,
    {
        BlockSettings {
            pos: self.pos,
            shape: self.shape,
            solid: self.solid,
            depth: self.depth,
            sprite_index: self.sprite_index,
            tags: crate::dup_rc(&self.tags),
        }
    }
}

/// The behaviour-specific configuration a template document may carry,
/// deserialized by the target behaviour's own schema.
pub enum Settings {
    Block(BlockSettings),
    Camera(DefaultCamera),
    Emitter(ParticleEmitterSettings),
}

impl Settings {
    pub fn dup(&self) -> (r: Settings)
        ensures
            r == *self,
    {
        match self {
            Settings::Block(b) => Settings::Block(b.dup()),
            Settings::Camera(c) => Settings::Camera(*c),
            Settings::Emitter(e) => Settings::Emitter(e.dup()),
        }
    }
}

/// A template document: the template lookup key and the optional
/// behaviour-specific settings.
pub struct Document {
    pub name: String,
    pub settings: Option<Settings>,
}

impl Document {
    pub fn dup(&self) -> (r: Document)
        ensures
            r == *self,
    {
        Document {
            name: self.name.clone(),
            settings: match &self.settings {
                Some(s) => Some(s.dup()),
                None => None,
            },
        }
    }
}

/// The topology events a scene handles between frames on its own channel.
pub enum SceneEvent {
    SetCamera(u128),
    Instantiate(Document),
    Delete(u128),
    Registry,
}

impl BusEvent for SceneEvent {
    fn dup(&self) -> (r: SceneEvent)
        ensures
            r == *self,
    {
        match self {
            SceneEvent::SetCamera(u) => SceneEvent::SetCamera(*u),
            SceneEvent::Instantiate(d) => SceneEvent::Instantiate(d.dup()),
            SceneEvent::Delete(u) => SceneEvent::Delete(*u),
            SceneEvent::Registry => SceneEvent::Registry,
        }
    }
}

/// The module that lets an entity broadcast scene events: the capability it
/// exposes grants use of the scene's own channel.
#[derive(Clone, Copy, Debug)]
pub struct SceneBroadcastComponent;

impl SceneBroadcastComponent {
    pub fn new() -> (r: SceneBroadcastComponent)
        ensures
            r == SceneBroadcastComponent,
    {
        SceneBroadcastComponent
    }
}

/// The shared services every entity may reach during its lifecycle calls:
/// the scene's broadcast channel, the input channel, the tag table and the
/// physics engine.  They are owned here, in one place, and addressed
/// through the capability a module exposes.
pub struct Hub {
    pub scene_bus: Sender<SceneEvent, Unlocked>,
    pub input: Sender<InputEvent, Unlocked>,
    pub tags: UuidTags,
    pub pom: PhysObjManager,
}

impl Hub {
    pub open spec fn wf(&self) -> bool {
        &&& self.scene_bus.wf()
        &&& self.input.wf()
        &&& self.tags.wf()
        &&& self.pom.wf()
    }

    pub fn new() -> (h: Hub)
        ensures
            h.wf(),
            h.scene_bus.queues() == Seq::<Seq<SceneEvent>>::empty(),
            forall|k: u128| !h.scene_bus.routed_has(k),
            h.input.queues() == Seq::<Seq<InputEvent>>::empty(),
            forall|k: u128| !h.tags.tags_has(k),
            h.pom.inbox() == Seq::<crate::physics::PhysEvent>::empty(),
            h.pom.statics_view() == Seq::<(Option<u128>, crate::physics::PhysObj)>::empty(),
            h.pom.queue_view() == Seq::<(u128, Seq<crate::physics::PhysEvent>)>::empty(),
            forall|k: u128| !h.pom.out_has(k),
    {
        Hub {
            scene_bus: Sender::new(),
            input: Sender::new(),
            tags: UuidTags::default(),
            pom: PhysObjManager::new(),
        }
    }
}

/// Every queue of `a` survives as a prefix of the corresponding queue of
/// `b`; `b` may have further queues.
pub open spec fn queues_extend<T>(a: Seq<Seq<T>>, b: Seq<Seq<T>>) -> bool {
    &&& b.len() >= a.len()
    &&& forall|i: int| 0 <= i < a.len() ==> (#[trigger] a[i]).is_prefix_of(b[i])
}

/// How the hub may evolve across one entity's set-up call: broadcast queues
/// only grow, the input channel is untouched, declarations may be appended
/// to the physics inbox, and the tag table may be rewritten.
pub open spec fn hub_init_frame(h0: Hub, h1: Hub) -> bool {
    &&& h1.wf()
    &&& queues_extend(h0.scene_bus.queues(), h1.scene_bus.queues())
    &&& forall|k: u128| h1.scene_bus.routed_has(k) == h0.scene_bus.routed_has(k)
    &&& forall|k: u128| h1.scene_bus.routed_q(k) == h0.scene_bus.routed_q(k)
    &&& h1.input == h0.input
    &&& h0.pom.inbox().is_prefix_of(h1.pom.inbox())
    &&& h1.pom.statics_view() == h0.pom.statics_view()
    &&& h1.pom.queue_view() == h0.pom.queue_view()
    &&& forall|k: u128| h1.pom.out_has(k) == h0.pom.out_has(k)
    &&& forall|k: u128| h1.pom.out_q(k) == h0.pom.out_q(k)
}

/// How the hub may evolve across one entity's `local_update` call: the
/// broadcast and input queues only grow; the physics engine and the tag
/// table evolve by their own contracts.
pub open spec fn hub_tick_frame(h0: Hub, h1: Hub) -> bool {
    &&& h1.wf()
    &&& queues_extend(h0.scene_bus.queues(), h1.scene_bus.queues())
    &&& queues_extend(h0.input.queues(), h1.input.queues())
}

/// How the hub may evolve across one entity's `post_update` call: like the
/// set-up frame, except that the physics engine may flush its outgoing
/// queues.
pub open spec fn hub_flush_frame(h0: Hub, h1: Hub) -> bool {
    &&& h1.wf()
    &&& queues_extend(h0.scene_bus.queues(), h1.scene_bus.queues())
    &&& h1.input == h0.input
    &&& h1.tags == h0.tags
    &&& h1.pom.inbox() == h0.pom.inbox()
    &&& h1.pom.statics_view() == h0.pom.statics_view()
}

/// The hub's observable state as one mathematical record: every queue,
/// registration table and engine view.  Effects of lifecycle calls are
/// stated as functions over this record.
#[verifier::ext_equal]
pub struct HubView {
    pub scene_qs: Seq<Seq<SceneEvent>>,
    pub scene_routed: Map<u128, Seq<SceneEvent>>,
    pub input_qs: Seq<Seq<InputEvent>>,
    pub input_routed: Map<u128, Seq<InputEvent>>,
    pub tags: Map<u128, Seq<Seq<char>>>,
    pub pom_inbox: Seq<crate::physics::PhysEvent>,
    pub pom_statics: Seq<(Option<u128>, crate::physics::PhysObj)>,
    pub pom_queue: Seq<(u128, Seq<crate::physics::PhysEvent>)>,
    pub pom_out: Map<u128, Seq<crate::physics::PhysEvent>>,
}

/// The observable state of a hub.
pub open spec fn hub_view(h: Hub) -> HubView {
    HubView {
        scene_qs: h.scene_bus.queues(),
        scene_routed: Map::new(
            |k: u128| h.scene_bus.routed_has(k),
            |k: u128| h.scene_bus.routed_q(k),
        ),
        input_qs: h.input.queues(),
        input_routed: Map::new(|k: u128| h.input.routed_has(k), |k: u128| h.input.routed_q(k)),
        tags: Map::new(|k: u128| h.tags.tags_has(k), |k: u128| h.tags.tags_of(k)),
        pom_inbox: h.pom.inbox(),
        pom_statics: h.pom.statics_view(),
        pom_queue: h.pom.queue_view(),
        pom_out: Map::new(|k: u128| h.pom.out_has(k), |k: u128| h.pom.out_q(k)),
    }
}

/// Which of the well-known capabilities a registry snapshot resolves: the
/// only discovery outcomes the shipped behaviours act on.
#[verifier::ext_equal]
pub struct Discovery {
    pub broadcast: bool,
    pub tags: bool,
    pub pom: bool,
}

/// What a registry snapshot resolves.
pub open spec fn discovery_of_mods(mt: ModuleTool) -> Discovery {
    Discovery {
        broadcast: mt.spec_access("scene broadcast"@, crate::element::CapKind::SceneChannel)
            is Some,
        tags: mt.spec_access("uuid tags"@, crate::element::CapKind::Tags) is Some,
        pom: mt.spec_access("pom"@, crate::element::CapKind::Phys) is Some,
    }
}

/// What the scene's live modules resolve right now.
pub open spec fn discovery_of_scene(s: Scene) -> Discovery {
    Discovery {
        broadcast: s.live_cap("scene broadcast"@) matches Some(c) && crate::element::kind_of(c)
            == crate::element::CapKind::SceneChannel,
        tags: s.live_cap("uuid tags"@) matches Some(c) && crate::element::kind_of(c)
            == crate::element::CapKind::Tags,
        pom: s.live_cap("pom"@) matches Some(c) && crate::element::kind_of(c)
            == crate::element::CapKind::Phys,
    }
}

/// One event appended to every broadcast subscriber queue of the scene
/// channel.
pub open spec fn scene_broadcast_view(v: HubView, e: SceneEvent) -> HubView {
    HubView {
        scene_qs: Seq::new(v.scene_qs.len(), |i: int| v.scene_qs[i].push(e)),
        ..v
    }
}

/// One physics-engine tick, at the view level.
pub open spec fn pom_tick_view(v: HubView, td: i64) -> HubView {
    HubView {
        pom_inbox: Seq::<crate::physics::PhysEvent>::empty(),
        pom_statics: v.pom_statics + crate::physics::decl_statics(v.pom_inbox),
        pom_queue: v.pom_queue + crate::physics::ticked_queue(
            crate::physics::decl_dynamics(v.pom_inbox),
            v.pom_statics + crate::physics::decl_statics(v.pom_inbox),
            td,
        ),
        ..v
    }
}

/// One physics-engine flush, at the view level.
pub open spec fn pom_flush_view(v: HubView) -> HubView {
    HubView {
        pom_queue: Seq::<(u128, Seq<crate::physics::PhysEvent>)>::empty(),
        pom_out: Map::new(
            |k: u128| v.pom_out.dom().contains(k),
            |k: u128| v.pom_out[k] + crate::physics::deliveries(v.pom_queue, k),
        ),
        ..v
    }
}

/// The exact effect of one physics-engine tick on the hub: the engine's
/// own contract on its inbox, statics and outgoing queue, and nothing else
/// touched.
pub open spec fn pom_tick_rel(h0: Hub, h1: Hub, td: i64) -> bool {
    &&& h1.pom.inbox() == Seq::<crate::physics::PhysEvent>::empty()
    &&& h1.pom.statics_view() == h0.pom.statics_view() + crate::physics::decl_statics(
        h0.pom.inbox(),
    )
    &&& h1.pom.queue_view() == h0.pom.queue_view() + crate::physics::ticked_queue(
        crate::physics::decl_dynamics(h0.pom.inbox()),
        h0.pom.statics_view() + crate::physics::decl_statics(h0.pom.inbox()),
        td,
    )
    &&& forall|k: u128| h1.pom.out_has(k) == h0.pom.out_has(k)
    &&& forall|k: u128| h1.pom.out_q(k) == h0.pom.out_q(k)
    &&& h1.scene_bus == h0.scene_bus
    &&& h1.input == h0.input
    &&& h1.tags == h0.tags
}

/// The exact effect of one physics-engine flush on the hub: every queued
/// entry handed to its registered routed receiver, the queue emptied, and
/// nothing else touched.
pub open spec fn pom_flush_rel(h0: Hub, h1: Hub) -> bool {
    &&& h1.pom.queue_view() == Seq::<(u128, Seq<crate::physics::PhysEvent>)>::empty()
    &&& h1.pom.inbox() == h0.pom.inbox()
    &&& h1.pom.statics_view() == h0.pom.statics_view()
    &&& forall|k: u128| h1.pom.out_has(k) == h0.pom.out_has(k)
    &&& forall|k: u128|
        h0.pom.out_has(k) ==> h1.pom.out_q(k) == h0.pom.out_q(k) + crate::physics::deliveries(
            h0.pom.queue_view(),
            k,
        )
    &&& forall|k: u128| !h0.pom.out_has(k) ==> h1.pom.out_q(k) == h0.pom.out_q(k)
    &&& h1.scene_bus == h0.scene_bus
    &&& h1.input == h0.input
    &&& h1.tags == h0.tags
}

pub proof fn lemma_queues_extend_refl<T>(a: Seq<Seq<T>>)
    ensures
        queues_extend(a, a),
{
    assert forall|i: int| 0 <= i < a.len() implies (#[trigger] a[i]).is_prefix_of(a[i]) by {
        assert(a[i] =~= a[i].subrange(0, a[i].len() as int));
    }
}

pub proof fn lemma_queues_extend_trans<T>(a: Seq<Seq<T>>, b: Seq<Seq<T>>, c: Seq<Seq<T>>)
    requires
        queues_extend(a, b),
        queues_extend(b, c),
    ensures
        queues_extend(a, c),
{
    assert forall|i: int| 0 <= i < a.len() implies (#[trigger] a[i]).is_prefix_of(c[i]) by {
        assert(a[i].is_prefix_of(b[i]));
        assert(b[i].is_prefix_of(c[i]));
        assert(a[i] =~= c[i].subrange(0, a[i].len() as int));
    }
}

pub proof fn lemma_prefix_refl<T>(a: Seq<T>)
    ensures
        a.is_prefix_of(a),
{
    assert(a =~= a.subrange(0, a.len() as int));
}

pub proof fn lemma_prefix_trans<T>(a: Seq<T>, b: Seq<T>, c: Seq<T>)
    requires
        a.is_prefix_of(b),
        b.is_prefix_of(c),
    ensures
        a.is_prefix_of(c),
{
    assert(a =~= c.subrange(0, a.len() as int));
}

pub proof fn lemma_prefix_push<T>(a: Seq<T>, e: T)
    ensures
        a.is_prefix_of(a.push(e)),
{
    assert(a =~= a.push(e).subrange(0, a.len() as int));
}

/// The set-up frame holds from a hub to itself.
pub proof fn lemma_hub_init_frame_refl(h: Hub)
    requires
        h.wf(),
    ensures
        hub_init_frame(h, h),
{
    lemma_queues_extend_refl(h.scene_bus.queues());
    lemma_prefix_refl(h.pom.inbox());
}

pub proof fn lemma_hub_init_frame_trans(h0: Hub, h1: Hub, h2: Hub)
    requires
        hub_init_frame(h0, h1),
        hub_init_frame(h1, h2),
    ensures
        hub_init_frame(h0, h2),
{
    lemma_queues_extend_trans(h0.scene_bus.queues(), h1.scene_bus.queues(), h2.scene_bus.queues());
    lemma_prefix_trans(h0.pom.inbox(), h1.pom.inbox(), h2.pom.inbox());
}

/// The tick frame holds from a hub to itself.
pub proof fn lemma_hub_tick_frame_refl(h: Hub)
    requires
        h.wf(),
    ensures
        hub_tick_frame(h, h),
{
    lemma_queues_extend_refl(h.scene_bus.queues());
    lemma_queues_extend_refl(h.input.queues());
}

pub proof fn lemma_hub_tick_frame_trans(h0: Hub, h1: Hub, h2: Hub)
    requires
        hub_tick_frame(h0, h1),
        hub_tick_frame(h1, h2),
    ensures
        hub_tick_frame(h0, h2),
{
    lemma_queues_extend_trans(h0.scene_bus.queues(), h1.scene_bus.queues(), h2.scene_bus.queues());
    lemma_queues_extend_trans(h0.input.queues(), h1.input.queues(), h2.input.queues());
}

/// The flush frame holds from a hub to itself.
pub proof fn lemma_hub_flush_frame_refl(h: Hub)
    requires
        h.wf(),
    ensures
        hub_flush_frame(h, h),
{
    lemma_queues_extend_refl(h.scene_bus.queues());
}

pub proof fn lemma_hub_flush_frame_trans(h0: Hub, h1: Hub, h2: Hub)
    requires
        hub_flush_frame(h0, h1),
        hub_flush_frame(h1, h2),
    ensures
        hub_flush_frame(h0, h2),
{
    lemma_queues_extend_trans(h0.scene_bus.queues(), h1.scene_bus.queues(), h2.scene_bus.queues());
}

/// A scene: the owner of all entities, keyed by identifier, with the alias
/// registry for module discovery, the active camera, and the shared service
/// hub.  It drives the per-frame two-phase protocol.
pub struct Scene {
    pub mod_alias: Vec<(String, u128)>,
    pub elements: Vec<(u128, Element)>,
    pub camera_uuid: u128,
    pub receiver: usize,
    pub hub: Hub,
    pub next_uuid: u128,
}

impl Scene {
    /// Whether an alias is registered.
    pub open spec fn alias_has(&self, a: Seq<char>) -> bool {
        exists|i: int| 0 <= i < self.mod_alias@.len() && #[trigger] self.mod_alias@[i].0@ == a
    }

    /// The identifier an alias is registered to.
    pub open spec fn alias_id(&self, a: Seq<char>) -> u128 {
        let i = choose|i: int|
            0 <= i < self.mod_alias@.len() && #[trigger] self.mod_alias@[i].0@ == a;
        self.mod_alias@[i].1
    }

    /// Whether an entity is registered under `id`.
    pub open spec fn has_elem(&self, id: u128) -> bool {
        exists|i: int| 0 <= i < self.elements@.len() && #[trigger] self.elements@[i].0 == id
    }

    /// The entity registered under `id`.
    pub open spec fn elem_of(&self, id: u128) -> Element {
        let i = choose|i: int| 0 <= i < self.elements@.len() && #[trigger] self.elements@[i].0 == id;
        self.elements@[i].1
    }

    /// Unique aliases, unique identifiers, a well-formed hub, and the
    /// scene's own subscription to its broadcast channel.
    pub open spec fn wf(&self) -> bool {
        &&& self.hub.wf()
        &&& self.receiver < self.hub.scene_bus.queues().len()
        &&& forall|i: int, j: int|
            0 <= i < j < self.mod_alias@.len() ==> #[trigger] self.mod_alias@[i].0@
                != #[trigger] self.mod_alias@[j].0@
        &&& forall|i: int, j: int|
            0 <= i < j < self.elements@.len() ==> #[trigger] self.elements@[i].0
                != #[trigger] self.elements@[j].0
        &&& forall|i: int|
            0 <= i < self.elements@.len() ==> #[trigger] self.elements@[i].0 < self.next_uuid
    }

    /// The capability an alias resolves to right now: the alias must be
    /// registered, its identifier must hold a live `Module`, and that
    /// module must expose a capability.  Anything else resolves to nothing.
    pub open spec fn live_cap(&self, a: Seq<char>) -> Option<Capability> {
        if self.alias_has(a) && self.has_elem(self.alias_id(a)) {
            match self.elem_of(self.alias_id(a)) {
                Element::Module(b) => behavior_capability(b),
                _ => None,
            }
        } else {
            None
        }
    }

    /// The scene's own pending topology events.
    pub open spec fn inbox(&self) -> Seq<SceneEvent> {
        self.hub.scene_bus.queues()[self.receiver as int]
    }

    pub(crate) proof fn lemma_alias_entry(&self, i: int)
        requires
            self.wf(),
            0 <= i < self.mod_alias@.len(),
        ensures
            self.alias_has(self.mod_alias@[i].0@),
            self.alias_id(self.mod_alias@[i].0@) == self.mod_alias@[i].1,
    {
        let a = self.mod_alias@[i].0@;
        assert(self.alias_has(a));
        let j = choose|j: int|
            0 <= j < self.mod_alias@.len() && #[trigger] self.mod_alias@[j].0@ == a;
        assert(j == i);
    }

    pub(crate) proof fn lemma_elem_entry(&self, i: int)
        requires
            self.wf(),
            0 <= i < self.elements@.len(),
        ensures
            self.has_elem(self.elements@[i].0),
            self.elem_of(self.elements@[i].0) == self.elements@[i].1,
    {
        let id = self.elements@[i].0;
        assert(self.has_elem(id));
        let j = choose|j: int| 0 <= j < self.elements@.len() && #[trigger] self.elements@[j].0 == id;
        assert(j == i);
    }

    pub(crate) fn find_elem(&self, id: u128) -> (found: Option<usize>)
        ensures
            match found {
                Some(i) => i < self.elements@.len() && self.elements@[i as int].0 == id,
                None => !self.has_elem(id),
            },
    {
        let mut i: usize = 0;
        while i < self.elements.len()
            invariant
                i <= self.elements@.len(),
                forall|j: int| 0 <= j < i ==> #[trigger] self.elements@[j].0 != id,
            decreases self.elements@.len() - i,
        {
            if self.elements[i].0 == id {
                return Some(i);
            }
            i += 1;
        }
        None
    }

    /// The registry snapshot `ModuleTool::new` hands out: one entry per
    /// alias whose module is alive and exposes a capability.
    pub fn capability_entries(&self) -> (mt: ModuleTool)
        requires
            self.wf(),
        ensures
            mt.wf(),
            forall|a: Seq<char>| mt.has_alias(a) == (#[trigger] self.live_cap(a)) is Some,
            forall|a: Seq<char>|
                #[trigger] self.live_cap(a) matches Some(c) ==> mt.has_alias(a) && mt.cap_of(a)
                    == c,
    {
        let mut entries: Vec<(String, Capability)> = Vec::new();
        let n = self.mod_alias.len();
        let mut i: usize = 0;
        while i < n
            invariant
                n == self.mod_alias@.len(),
                i <= n,
                self.wf(),
                forall|k: int, l: int|
                    0 <= k < l < entries@.len() ==> #[trigger] entries@[k].0@
                        != #[trigger] entries@[l].0@,
                forall|k: int|
                    0 <= k < entries@.len() ==> (#[trigger] self.live_cap(entries@[k].0@)) == Some(
                        entries@[k].1,
                    ),
                forall|j: int|
                    0 <= j < i && (#[trigger] self.live_cap(self.mod_alias@[j].0@)) is Some
                        ==> exists|k: int|
                        0 <= k < entries@.len() && (#[trigger] entries@[k].0@)
                            == self.mod_alias@[j].0@,
                forall|k: int|
                    0 <= k < entries@.len() ==> exists|j: int|
                        0 <= j < i && (#[trigger] entries@[k].0@) == self.mod_alias@[j].0@,
            decreases n - i,
        {
            proof {
                self.lemma_alias_entry(i as int);
            }
            let ghost a_i = self.mod_alias@[i as int].0@;
            let ghost pre_entries = entries@;
            let id = self.mod_alias[i].1;
            let mut pushed: bool = false;
            match self.find_elem(id) {
                Some(ei) => {
                    proof {
                        self.lemma_elem_entry(ei as int);
                    }
                    let cap = match &self.elements[ei].1 {
                        Element::Module(b) => crate::element::module_capability_of(b),
                        _ => None,
                    };
                    match cap {
                        Some(c) => {
                            proof {
                                assert(self.live_cap(a_i) == Some(c));
                                assert forall|k: int|
                                    0 <= k < entries@.len() implies (#[trigger] entries@[k].0@)
                                    != a_i by {
                                    let j = choose|j: int|
                                        0 <= j < i && (#[trigger] entries@[k].0@)
                                            == self.mod_alias@[j].0@;
                                    assert(self.mod_alias@[j].0@ != self.mod_alias@[i as int].0@);
                                }
                            }
                            let name = self.mod_alias[i].0.clone();
                            entries.push((name, c));
                            pushed = true;
                        },
                        None => {
                            proof {
                                assert(self.live_cap(a_i) is None);
                            }
                        },
                    }
                },
                None => {
                    proof {
                        assert(self.live_cap(a_i) is None);
                    }
                },
            }
            proof {
                assert forall|j: int|
                    0 <= j < i + 1 && (#[trigger] self.live_cap(self.mod_alias@[j].0@))
                        is Some implies exists|k: int|
                    0 <= k < entries@.len() && (#[trigger] entries@[k].0@)
                        == self.mod_alias@[j].0@ by {
                    if j == i {
                        assert(self.live_cap(a_i) is Some);
                        assert(entries@[entries@.len() - 1].0@ == a_i);
                    } else {
                        let k = choose|k: int|
                            0 <= k < pre_entries.len() && (#[trigger] pre_entries[k].0@)
                                == self.mod_alias@[j].0@;
                        assert(entries@[k].0@ == self.mod_alias@[j].0@);
                    }
                }
                assert forall|k: int|
                    0 <= k < entries@.len() implies exists|j: int|
                    0 <= j < i + 1 && (#[trigger] entries@[k].0@) == self.mod_alias@[j].0@ by {
                    if pushed && k == entries@.len() - 1 {
                        assert(entries@[k].0@ == self.mod_alias@[i as int].0@);
                    } else {
                        let j = choose|j: int|
                            0 <= j < i && (#[trigger] entries@[k].0@) == self.mod_alias@[j].0@;
                        assert(0 <= j < i + 1 && entries@[k].0@ == self.mod_alias@[j].0@);
                    }
                }
            }
            i += 1;
        }
        let ghost e0 = entries@;
        let mt = ModuleTool::from_entries(entries);
        proof {
            assert(mt.wf());
            assert forall|a: Seq<char>|
                mt.has_alias(a) == (#[trigger] self.live_cap(a)) is Some by {
                if mt.has_alias(a) {
                    mt.lemma_alias_witness(a);
                    let k = choose|k: int|
                        0 <= k < mt.entries_view().len() && (#[trigger] mt.entries_view()[k].0@)
                            == a && mt.entries_view()[k].1 == mt.cap_of(a);
                    assert(self.live_cap(e0[k].0@) == Some(e0[k].1));
                    assert(self.live_cap(a) is Some);
                }
                if self.live_cap(a) is Some {
                    assert(self.alias_has(a));
                    let j = choose|j: int|
                        0 <= j < self.mod_alias@.len() && #[trigger] self.mod_alias@[j].0@ == a;
                    assert(exists|k: int|
                        0 <= k < e0.len() && (#[trigger] e0[k].0@) == self.mod_alias@[j].0@);
                    let k = choose|k: int| 0 <= k < e0.len() && (#[trigger] e0[k].0@) == a;
                    mt.lemma_entry(k);
                }
            }
            assert forall|a: Seq<char>|
                #[trigger] self.live_cap(a) is Some implies mt.has_alias(a) && mt.cap_of(a)
                == self.live_cap(a)->0 by {
                mt.lemma_alias_witness(a);
                let k = choose|k: int|
                    0 <= k < mt.entries_view().len() && (#[trigger] mt.entries_view()[k].0@) == a
                        && mt.entries_view()[k].1 == mt.cap_of(a);
                assert(self.live_cap(e0[k].0@) == Some(e0[k].1));
            }
        }
        mt
    }
}

/// The set-up pass folded over the entity table, in registry order: each
/// element's set-up effect applies once, with its own identifier.
pub open spec fn scene_inits_view(
    entries: Seq<(u128, Element)>,
    disc: Discovery,
    v: HubView,
) -> HubView
    decreases entries.len(),
{
    if entries.len() == 0 {
        v
    } else {
        crate::element::elem_init_view(
            entries.last().1,
            entries.last().0,
            disc,
            scene_inits_view(entries.drop_last(), disc, v),
        )
    }
}

/// The whole effect of the one-time set-up pass: every element's set-up
/// effect in registry order, then one registry-availability notice appended
/// to every broadcast subscriber queue.
pub open spec fn scene_init_effect(s0: Scene, s1: Scene) -> bool {
    hub_view(s1.hub) == scene_broadcast_view(
        scene_inits_view(s0.elements@, discovery_of_scene(s0), hub_view(s0.hub)),
        SceneEvent::Registry,
    )
}

/// Scenes with the same observable state.
pub open spec fn scene_state_eq(a: Scene, b: Scene) -> bool {
    &&& a.elements@ == b.elements@
    &&& a.mod_alias@ == b.mod_alias@
    &&& a.camera_uuid == b.camera_uuid
    &&& a.receiver == b.receiver
    &&& a.next_uuid == b.next_uuid
    &&& hub_view(a.hub) == hub_view(b.hub)
}

/// The scene's own receiver drained; everything else untouched.
pub open spec fn drain_effect(s0: Scene, s1: Scene) -> bool {
    &&& s1.elements@ == s0.elements@
    &&& s1.mod_alias@ == s0.mod_alias@
    &&& s1.camera_uuid == s0.camera_uuid
    &&& s1.receiver == s0.receiver
    &&& s1.next_uuid == s0.next_uuid
    &&& hub_view(s1.hub) == (HubView {
        scene_qs: hub_view(s0.hub).scene_qs.update(
            s0.receiver as int,
            Seq::<SceneEvent>::empty(),
        ),
        ..hub_view(s0.hub)
    })
}

/// What registering one element does to a scene: the element enters under
/// the identifier the counter issues; a module's alias is registered,
/// replacing any earlier holder; nothing else moves.
pub open spec fn add_rel(s0: Scene, s1: Scene, element: Element) -> bool {
    let uuid = s0.next_uuid;
    &&& s1.has_elem(uuid)
    &&& s1.elem_of(uuid) == element
    &&& forall|id: u128|
        id != uuid ==> s1.has_elem(id) == s0.has_elem(id) && (s0.has_elem(id) ==> s1.elem_of(id)
            == s0.elem_of(id))
    &&& s1.elements@.len() == s0.elements@.len() + 1
    &&& (match element {
        Element::Module(b) => match behavior_alias(b) {
            Some(a) => s1.alias_has(a) && s1.alias_id(a) == uuid && (forall|a2: Seq<char>|
                a2 != a ==> s1.alias_has(a2) == s0.alias_has(a2) && (s0.alias_has(a2)
                    ==> s1.alias_id(a2) == s0.alias_id(a2))),
            None => s1.mod_alias@ == s0.mod_alias@,
        },
        _ => s1.mod_alias@ == s0.mod_alias@,
    })
    &&& s1.hub == s0.hub
    &&& s1.camera_uuid == s0.camera_uuid
    &&& s1.receiver == s0.receiver
    &&& s1.next_uuid == s0.next_uuid + 1
}

/// What deleting an identifier does to a scene: the entry goes if it was
/// there, a never-registered identifier changes nothing, and nothing else
/// moves either way.
pub open spec fn delete_rel(s0: Scene, s1: Scene, u: u128) -> bool {
    &&& !s1.has_elem(u)
    &&& forall|id: u128|
        id != u ==> s1.has_elem(id) == s0.has_elem(id) && (s0.has_elem(id) ==> s1.elem_of(id)
            == s0.elem_of(id))
    &&& s0.has_elem(u) ==> s1.elements@.len() == s0.elements@.len() - 1
    &&& !s0.has_elem(u) ==> s1.elements@ == s0.elements@
    &&& s1.mod_alias@ == s0.mod_alias@
    &&& s1.hub == s0.hub
    &&& s1.camera_uuid == s0.camera_uuid
    &&& s1.receiver == s0.receiver
    &&& s1.next_uuid == s0.next_uuid
}

/// The set-up call a freshly instantiated element receives: identifiers and
/// registries keep still; the hub takes the element's set-up effect under
/// the issued identifier.
pub open spec fn spawn_init_effect(s_add: Scene, s1: Scene, uuid: u128, el: Element) -> bool {
    &&& s1.elements@.len() == s_add.elements@.len()
    &&& forall|j: int|
        0 <= j < s_add.elements@.len() ==> (#[trigger] s1.elements@[j]).0 == s_add.elements@[j].0
    &&& s1.mod_alias@ == s_add.mod_alias@
    &&& s1.camera_uuid == s_add.camera_uuid
    &&& s1.receiver == s_add.receiver
    &&& s1.next_uuid == s_add.next_uuid
    &&& hub_view(s1.hub) == crate::element::elem_init_view(
        el,
        uuid,
        discovery_of_scene(s_add),
        hub_view(s_add.hub),
    )
}

/// What draining one instantiation event does: with a compatible document
/// whose template produces a live element (and headroom on the identifier
/// counter), an element satisfying the template relation is registered
/// under a fresh identifier and initialized; anything else is a no-op.
pub open spec fn spawn_rel(m: JSONManager, doc: Document, s0: Scene, s1: Scene) -> bool {
    if m.spec_compatible(doc) && s0.next_uuid < u128::MAX && !spec_creates_inert(m, doc) {
        exists|el: Element, s_add: Scene|
            {
                &&& m.spec_created(doc, el)
                &&& !(el is Null)
                &&& #[trigger] add_rel(s0, s_add, el)
                &&& spawn_init_effect(s_add, s1, s0.next_uuid, el)
            }
    } else {
        scene_state_eq(s1, s0)
    }
}

/// What draining one topology event does.
pub open spec fn topo_step(m: JSONManager, e: SceneEvent, s0: Scene, s1: Scene) -> bool {
    match e {
        SceneEvent::SetCamera(u) => scene_state_eq(s1, Scene { camera_uuid: u, ..s0 }),
        SceneEvent::Delete(u) => delete_rel(s0, s1, u),
        SceneEvent::Instantiate(doc) => spawn_rel(m, doc, s0, s1),
        SceneEvent::Registry => scene_state_eq(s1, s0),
    }
}

/// Draining a batch of topology events, in arrival order.
pub open spec fn topo_rel(m: JSONManager, events: Seq<SceneEvent>, s0: Scene, s1: Scene) -> bool
    decreases events.len(),
{
    if events.len() == 0 {
        scene_state_eq(s1, s0)
    } else {
        exists|sm: Scene|
            topo_rel(m, events.drop_last(), s0, sm) && #[trigger] topo_step(
                m,
                events.last(),
                sm,
                s1,
            )
    }
}

/// The logic pass pairs the entity table entry-wise: identifiers keep their
/// slots and each element steps by its own per-frame relation.
pub open spec fn tick_pass_elems(a: Seq<(u128, Element)>, b: Seq<(u128, Element)>, td: i64) -> bool {
    &&& b.len() == a.len()
    &&& forall|i: int|
        0 <= i < a.len() ==> (#[trigger] b[i]).0 == a[i].0 && crate::element::elem_pair_tick(
            a[i].1,
            b[i].1,
            td,
        )
}

/// The logic pass folded over the hub, in registry order.
pub open spec fn tick_pass_view(a: Seq<(u128, Element)>, td: i64, v: HubView) -> HubView
    decreases a.len(),
{
    if a.len() == 0 {
        v
    } else {
        crate::element::elem_tick_view(a.last().1, td, tick_pass_view(a.drop_last(), td, v))
    }
}

/// The flush pass pairs the entity table entry-wise.
pub open spec fn flush_pass_elems(a: Seq<(u128, Element)>, b: Seq<(u128, Element)>) -> bool {
    &&& b.len() == a.len()
    &&& forall|i: int|
        0 <= i < a.len() ==> (#[trigger] b[i]).0 == a[i].0 && crate::element::elem_pair_flush(
            a[i].1,
            b[i].1,
        )
}

/// The flush pass folded over the hub, in registry order.
pub open spec fn flush_pass_view(a: Seq<(u128, Element)>, v: HubView) -> HubView
    decreases a.len(),
{
    if a.len() == 0 {
        v
    } else {
        crate::element::elem_flush_view(a.last().1, flush_pass_view(a.drop_last(), v))
    }
}

/// One whole logic pass over a scene.
pub open spec fn phase_tick_effect(s0: Scene, s1: Scene, td: i64) -> bool {
    &&& tick_pass_elems(s0.elements@, s1.elements@, td)
    &&& hub_view(s1.hub) == tick_pass_view(s0.elements@, td, hub_view(s0.hub))
    &&& s1.mod_alias@ == s0.mod_alias@
    &&& s1.camera_uuid == s0.camera_uuid
    &&& s1.receiver == s0.receiver
    &&& s1.next_uuid == s0.next_uuid
}

/// One whole flush pass over a scene.
pub open spec fn phase_flush_effect(s0: Scene, s1: Scene) -> bool {
    &&& flush_pass_elems(s0.elements@, s1.elements@)
    &&& hub_view(s1.hub) == flush_pass_view(s0.elements@, hub_view(s0.hub))
    &&& s1.mod_alias@ == s0.mod_alias@
    &&& s1.camera_uuid == s0.camera_uuid
    &&& s1.receiver == s0.receiver
    &&& s1.next_uuid == s0.next_uuid
}

/// Whether instantiating a document yields the inert element (under a
/// schema-compatible document).
pub open spec fn spec_creates_inert(m: JSONManager, doc: Document) -> bool {
    !m.proto_has(doc.name@) || elem_loads_inert(m.proto_of(doc.name@), doc)
}

/// Whether a prototype's factory yields the inert element for a
/// schema-compatible document.
pub open spec fn elem_loads_inert(proto: Element, doc: Document) -> bool
    decreases proto,
{
    match proto {
        Element::Gen(b) => behavior_loads_inert(b, doc),
        Element::Module(b) => behavior_loads_inert(b, doc),
        Element::Group(_) => false,
        Element::Null => true,
    }
}

/// Which behaviours' factories yield the inert element for a
/// schema-compatible document.
pub open spec fn behavior_loads_inert(b: Behavior, doc: Document) -> bool {
    match b {
        Behavior::Block(_) => doc.settings is None,
        Behavior::Camera(_) => false,
        Behavior::Emitter(_) => false,
        Behavior::Pom(_) => false,
        Behavior::Input(_) => false,
        Behavior::Broadcast(_) => true,
        Behavior::Tags => true,
    }
}

/// Under a schema-compatible document, the factory's result is the inert
/// element exactly when the inertness predicate says so.
pub proof fn lemma_load_rel_inert(proto: Element, doc: Document, r: Element)
    requires
        crate::element::load_ok(proto, doc),
        crate::element::load_rel(proto, doc, r),
    ensures
        (r is Null) == elem_loads_inert(proto, doc),
    decreases proto,
{
    match proto {
        Element::Gen(b) => {},
        Element::Module(b) => {},
        Element::Group(_) => {},
        Element::Null => {},
    }
}

/// Under a compatible document, instantiation yields the inert element
/// exactly when the inertness predicate says so.
pub proof fn lemma_created_inert(m: &JSONManager, doc: Document, el: Element)
    requires
        m.wf(),
        m.spec_compatible(doc),
        m.spec_created(doc, el),
    ensures
        (el is Null) == spec_creates_inert(*m, doc),
{
    if m.proto_has(doc.name@) {
        lemma_load_rel_inert(m.proto_of(doc.name@), doc, el);
    }
}

/// What a fresh scene looks like: the two baseline modules, an empty frame
/// protocol state, and empty services.
pub open spec fn fresh_scene_shape(s: Scene) -> bool {
    &&& s.wf()
    &&& s.live_cap("scene broadcast"@) == Some(Capability::SceneChannel(SceneBroadcastComponent))
    &&& s.live_cap("uuid tags"@) == Some(Capability::Tags)
    &&& s.elements@.len() == 2
    &&& s.inbox() == Seq::<SceneEvent>::empty()
    &&& (forall|k: u128| !s.hub.tags.tags_has(k))
    &&& s.hub.pom.inbox() == Seq::<crate::physics::PhysEvent>::empty()
    &&& s.hub.pom.statics_view() == Seq::<(Option<u128>, crate::physics::PhysObj)>::empty()
}

/// Registering one scene-document entry: a live instantiation is added
/// under the counter's identifier, an inert one is skipped.
pub open spec fn build_step(m: JSONManager, doc: Document, s0: Scene, s1: Scene) -> bool {
    if m.spec_compatible(doc) && s0.next_uuid < u128::MAX && !spec_creates_inert(m, doc) {
        exists|el: Element|
            m.spec_created(doc, el) && !(el is Null) && #[trigger] add_rel(s0, s1, el)
    } else {
        scene_state_eq(s1, s0)
    }
}

/// Building a scene from a document's entries, in document order.
pub open spec fn built_scene_rel(m: JSONManager, docs: Seq<Document>, s0: Scene, s1: Scene) -> bool
    decreases docs.len(),
{
    if docs.len() == 0 {
        scene_state_eq(s1, s0)
    } else {
        exists|sm: Scene|
            built_scene_rel(m, docs.drop_last(), s0, sm) && #[trigger] build_step(
                m,
                docs.last(),
                sm,
                s1,
            )
    }
}

/// The active camera after processing a batch of topology events: the last
/// camera selection wins; no event but `SetCamera` touches it.
pub open spec fn spec_last_camera(events: Seq<SceneEvent>, default: u128) -> u128
    decreases events.len(),
{
    if events.len() == 0 {
        default
    } else {
        match events.last() {
            SceneEvent::SetCamera(u) => u,
            _ => spec_last_camera(events.drop_last(), default),
        }
    }
}

/// Whether a batch of topology events deletes `id`.
pub open spec fn spec_has_delete(events: Seq<SceneEvent>, id: u128) -> bool {
    exists|i: int|
        0 <= i < events.len() && ((#[trigger] events[i]) matches SceneEvent::Delete(d) && d == id)
}

impl Scene {
    /// A fresh scene: its own broadcast channel with the scene subscribed,
    /// and the two baseline modules registered — the broadcast capability
    /// and the tag table.
    pub fn new() -> (s: Scene)
        ensures
            fresh_scene_shape(s),
    {
        let mut hub = Hub::new();
        let receiver = hub.scene_bus.new_receiver();
        let base = crate::fresh_uuid() % 0x4000_0000_0000_0000_0000_0000_0000_0000u128;
        let mut scene = Scene {
            mod_alias: Vec::new(),
            elements: Vec::new(),
            camera_uuid: crate::fresh_uuid(),
            receiver,
            hub,
            next_uuid: base,
        };
        let _sb = scene.add_element(Element::new_module(Behavior::Broadcast(
            SceneBroadcastComponent::new(),
        )));
        let _ut = scene.add_element(Element::new_module(Behavior::Tags));
        proof {
            reveal_strlit("scene broadcast");
            reveal_strlit("uuid tags");
            assert("scene broadcast"@.len() == 15);
            assert("uuid tags"@.len() == 9);
            assert(scene.live_cap("scene broadcast"@) == Some(
                Capability::SceneChannel(SceneBroadcastComponent),
            ));
            assert(scene.live_cap("uuid tags"@) == Some(Capability::Tags));
        }
        scene
    }

    /// The capability registry snapshot for the scene's live modules.
    pub fn module_tool(&self) -> (mt: ModuleTool)
        requires
            self.wf(),
        ensures
            mt.wf(),
            forall|a: Seq<char>| mt.has_alias(a) == (#[trigger] self.live_cap(a)) is Some,
            forall|a: Seq<char>|
                #[trigger] self.live_cap(a) is Some ==> mt.has_alias(a) && mt.cap_of(a)
                    == self.live_cap(a)->0,
    {
        ModuleTool::new(self)
    }

    /// Register an entity under a freshly generated identifier.  A module
    /// with a discovery alias is also entered into the alias registry,
    /// replacing any earlier holder of that alias.
    pub fn add_element(&mut self, element: Element) -> (uuid: u128)
        requires
            old(self).wf(),
            old(self).next_uuid < u128::MAX,
        ensures
            final(self).wf(),
            uuid == old(self).next_uuid,
            !old(self).has_elem(uuid),
            final(self).has_elem(uuid),
            final(self).elem_of(uuid) == element,
            forall|id: u128|
                id != uuid ==> final(self).has_elem(id) == old(self).has_elem(id) && (old(
                    self,
                ).has_elem(id) ==> final(self).elem_of(id) == old(self).elem_of(id)),
            final(self).elements@.len() == old(self).elements@.len() + 1,
            final(self).mod_alias@.len() >= old(self).mod_alias@.len(),
            ({
                match element {
                    Element::Module(b) => match behavior_alias(b) {
                        Some(a) => final(self).alias_has(a) && final(self).alias_id(a) == uuid
                            && (forall|a2: Seq<char>|
                            a2 != a ==> final(self).alias_has(a2) == old(self).alias_has(a2)
                                && (old(self).alias_has(a2) ==> final(self).alias_id(a2) == old(
                                self,
                            ).alias_id(a2))),
                        None => final(self).mod_alias@ == old(self).mod_alias@,
                    },
                    _ => final(self).mod_alias@ == old(self).mod_alias@,
                }
            }),
            final(self).hub == old(self).hub,
            final(self).camera_uuid == old(self).camera_uuid,
            final(self).receiver == old(self).receiver,
            final(self).next_uuid == old(self).next_uuid + 1,
            add_rel(*old(self), *final(self), element),
    {
        let uuid = self.next_uuid;
        self.next_uuid = self.next_uuid + 1;
        proof {
            if old(self).has_elem(uuid) {
                let j = choose|j: int|
                    0 <= j < old(self).elements@.len() && #[trigger] old(self).elements@[j].0
                        == uuid;
                assert(old(self).elements@[j].0 < uuid);
            }
        }
        let alias = match &element {
            Element::Module(b) => crate::element::module_alias_of(b),
            _ => None,
        };
        match alias {
            Some(name) => {
                let ghost a = name@;
                match self.find_alias(&name) {
                    Some(i) => {
                        self.mod_alias[i] = (name, uuid);
                        proof {
                            lemma_alias_after_update(old(self), self, i as int, a);
                        }
                    },
                    None => {
                        self.mod_alias.push((name, uuid));
                        proof {
                            lemma_alias_after_push(old(self), self, a);
                        }
                    },
                }
            },
            None => {},
        }
        self.elements.push((uuid, element));
        proof {
            let n = old(self).elements@.len() as int;
            assert forall|p: int, q: int|
                0 <= p < q < self.elements@.len() implies #[trigger] self.elements@[p].0
                != #[trigger] self.elements@[q].0 by {
                if q < n {
                    assert(self.elements@[p] == old(self).elements@[p]);
                    assert(self.elements@[q] == old(self).elements@[q]);
                } else {
                    assert(self.elements@[p].0 < uuid);
                }
            }
            assert forall|p: int|
                0 <= p < self.elements@.len() implies #[trigger] self.elements@[p].0
                < self.next_uuid by {
                if p < n {
                    assert(self.elements@[p] == old(self).elements@[p]);
                }
            }
            self.lemma_elem_entry(n);
            assert forall|id: u128|
                id != uuid implies self.has_elem(id) == old(self).has_elem(id) && (old(
                self,
            ).has_elem(id) ==> self.elem_of(id) == old(self).elem_of(id)) by {
                if old(self).has_elem(id) {
                    let j = choose|j: int|
                        0 <= j < old(self).elements@.len() && #[trigger] old(self).elements@[j].0
                            == id;
                    assert(self.elements@[j].0 == id);
                    old(self).lemma_elem_entry(j);
                    self.lemma_elem_entry(j);
                } else {
                    if self.has_elem(id) {
                        let j = choose|j: int|
                            0 <= j < self.elements@.len() && #[trigger] self.elements@[j].0 == id;
                        assert(j != n);
                        assert(old(self).elements@[j].0 == id);
                    }
                }
            }
        }
        uuid
    }

    fn find_alias(&self, name: &String) -> (found: Option<usize>)
        requires
            self.wf(),
        ensures
            match found {
                Some(i) => i < self.mod_alias@.len() && self.mod_alias@[i as int].0@ == name@,
                None => !self.alias_has(name@),
            },
    {
        let mut i: usize = 0;
        while i < self.mod_alias.len()
            invariant
                i <= self.mod_alias@.len(),
                forall|j: int| 0 <= j < i ==> #[trigger] self.mod_alias@[j].0@ != name@,
            decreases self.mod_alias@.len() - i,
        {
            if self.mod_alias[i].0 == *name {
                return Some(i);
            }
            i += 1;
        }
        None
    }

    /// Remove the entity registered under `uuid`.  Deleting an identifier
    /// that never existed is a no-op; alias entries pointing at the removed
    /// identifier simply dangle and fail the liveness check from then on.
    pub fn delete_element(&mut self, uuid: u128)
        requires
            old(self).wf(),
        ensures
            final(self).wf(),
            !final(self).has_elem(uuid),
            forall|id: u128|
                id != uuid ==> final(self).has_elem(id) == old(self).has_elem(id) && (old(
                    self,
                ).has_elem(id) ==> final(self).elem_of(id) == old(self).elem_of(id)),
            old(self).has_elem(uuid) ==> final(self).elements@.len() == old(
                self,
            ).elements@.len() - 1,
            !old(self).has_elem(uuid) ==> *final(self) == *old(self),
            final(self).mod_alias@ == old(self).mod_alias@,
            final(self).hub == old(self).hub,
            final(self).camera_uuid == old(self).camera_uuid,
            final(self).receiver == old(self).receiver,
            final(self).next_uuid == old(self).next_uuid,
    {
        match self.find_elem(uuid) {
            Some(i) => {
                self.elements.remove(i);
                proof {
                    let n = self.elements@.len() as int;
                    assert forall|p: int, q: int|
                        0 <= p < q < n implies #[trigger] self.elements@[p].0
                        != #[trigger] self.elements@[q].0 by {
                        if p < i as int {
                            if q < i as int {
                                assert(self.elements@[p] == old(self).elements@[p]);
                                assert(self.elements@[q] == old(self).elements@[q]);
                            } else {
                                assert(self.elements@[p] == old(self).elements@[p]);
                                assert(self.elements@[q] == old(self).elements@[q + 1]);
                            }
                        } else {
                            assert(self.elements@[p] == old(self).elements@[p + 1]);
                            assert(self.elements@[q] == old(self).elements@[q + 1]);
                        }
                    }
                    if self.has_elem(uuid) {
                        let j = choose|j: int|
                            0 <= j < self.elements@.len() && #[trigger] self.elements@[j].0 == uuid;
                        if j < i as int {
                            assert(old(self).elements@[j].0 == uuid);
                            assert(old(self).elements@[i as int].0 == uuid);
                        } else {
                            assert(old(self).elements@[j + 1].0 == uuid);
                            assert(old(self).elements@[i as int].0 == uuid);
                        }
                    }
                    assert forall|p: int|
                        0 <= p < self.elements@.len() implies #[trigger] self.elements@[p].0
                        < self.next_uuid by {
                        if p < i as int {
                            assert(self.elements@[p] == old(self).elements@[p]);
                        } else {
                            assert(self.elements@[p] == old(self).elements@[p + 1]);
                        }
                    }
                    assert forall|id: u128|
                        id != uuid implies self.has_elem(id) == old(self).has_elem(id) && (old(
                        self,
                    ).has_elem(id) ==> self.elem_of(id) == old(self).elem_of(id)) by {
                        if old(self).has_elem(id) {
                            let j = choose|j: int|
                                0 <= j < old(self).elements@.len() && #[trigger] old(
                                    self,
                                ).elements@[j].0 == id;
                            assert(j != i as int);
                            if j < i as int {
                                assert(self.elements@[j].0 == id);
                                old(self).lemma_elem_entry(j);
                                self.lemma_elem_entry(j);
                            } else {
                                assert(self.elements@[j - 1].0 == id);
                                old(self).lemma_elem_entry(j);
                                self.lemma_elem_entry(j - 1);
                            }
                        } else {
                            if self.has_elem(id) {
                                let j = choose|j: int|
                                    0 <= j < self.elements@.len() && #[trigger] self.elements@[j].0
                                        == id;
                                if j < i as int {
                                    assert(old(self).elements@[j].0 == id);
                                } else {
                                    assert(old(self).elements@[j + 1].0 == id);
                                }
                            }
                        }
                    }
                }
            },
            None => {},
        }
    }

    /// The one-time set-up pass over every initially registered entity,
    /// followed by the broadcast announcing the shared template registry.
    pub fn init_elements(&mut self)
        requires
            old(self).wf(),
        ensures
            final(self).wf(),
            hub_init_frame(old(self).hub, final(self).hub),
            final(self).elements@.len() == old(self).elements@.len(),
            forall|i: int|
                0 <= i < old(self).elements@.len() ==> #[trigger] final(self).elements@[i].0
                    == old(self).elements@[i].0,
            final(self).mod_alias@ == old(self).mod_alias@,
            final(self).camera_uuid == old(self).camera_uuid,
            final(self).receiver == old(self).receiver,
            final(self).next_uuid == old(self).next_uuid,
            scene_init_effect(*old(self), *final(self)),
    {
        let mods = self.module_tool();
        let ghost disc = discovery_of_mods(mods);
        let n = self.elements.len();
        proof {
            lemma_hub_init_frame_refl(self.hub);
            assert(disc == discovery_of_scene(*old(self)));
            assert(old(self).elements@.take(0) =~= Seq::<(u128, Element)>::empty());
        }
        let mut i: usize = 0;
        while i < n
            invariant
                old(self).wf(),
                n == self.elements@.len(),
                n == old(self).elements@.len(),
                i <= n,
                mods.wf(),
                disc == discovery_of_mods(mods),
                self.hub.wf(),
                hub_init_frame(old(self).hub, self.hub),
                hub_view(self.hub) == scene_inits_view(
                    old(self).elements@.take(i as int),
                    disc,
                    hub_view(old(self).hub),
                ),
                forall|j: int|
                    i <= j < n ==> #[trigger] self.elements@[j] == old(self).elements@[j],
                forall|j: int|
                    0 <= j < n ==> #[trigger] self.elements@[j].0 == old(self).elements@[j].0,
                forall|p: int, q: int|
                    0 <= p < q < self.elements@.len() ==> #[trigger] self.elements@[p].0
                        != #[trigger] self.elements@[q].0,
                self.mod_alias@ == old(self).mod_alias@,
                forall|p: int, q: int|
                    0 <= p < q < self.mod_alias@.len() ==> #[trigger] self.mod_alias@[p].0@
                        != #[trigger] self.mod_alias@[q].0@,
                self.camera_uuid == old(self).camera_uuid,
                self.receiver == old(self).receiver,
                self.receiver < self.hub.scene_bus.queues().len(),
                self.next_uuid == old(self).next_uuid,
            decreases n - i,
        {
            let uuid = self.elements[i].0;
            let mut e = Element::Null;
            let slot = &mut self.elements[i];
            core::mem::swap(&mut slot.1, &mut e);
            let ghost hpre = self.hub;
            e.init(uuid, &mods, &mut self.hub);
            proof {
                lemma_hub_init_frame_trans(old(self).hub, hpre, self.hub);
                assert(old(self).elements@.take(i as int + 1).drop_last() =~= old(
                    self,
                ).elements@.take(i as int));
                assert(old(self).elements@.take(i as int + 1).last() == old(self).elements@[
                    i as int]);
                assert(hub_view(self.hub) == scene_inits_view(
                    old(self).elements@.take(i as int + 1),
                    disc,
                    hub_view(old(self).hub),
                ));
            }
            let slot = &mut self.elements[i];
            core::mem::swap(&mut slot.1, &mut e);
            i += 1;
        }
        let ghost hpre = self.hub;
        self.hub.scene_bus.send(SceneEvent::Registry);
        proof {
            assert(hub_init_frame(hpre, self.hub)) by {
                assert forall|qi: int|
                    0 <= qi < hpre.scene_bus.queues().len() implies (
                #[trigger] hpre.scene_bus.queues()[qi]).is_prefix_of(
                    self.hub.scene_bus.queues()[qi],
                ) by {
                    lemma_prefix_push(hpre.scene_bus.queues()[qi], SceneEvent::Registry);
                }
                lemma_prefix_refl(hpre.pom.inbox());
            }
            lemma_hub_init_frame_trans(old(self).hub, hpre, self.hub);
            assert(old(self).elements@.take(n as int) =~= old(self).elements@);
            assert(hub_view(self.hub) =~~= scene_broadcast_view(
                hub_view(hpre),
                SceneEvent::Registry,
            ));
            assert(scene_init_effect(*old(self), *self));
        }
    }

    /// One frame: drain and apply the scene's own topology events in order
    /// (camera selection, instantiation from the shared template registry,
    /// deletion), then run `local_update` on every entity, then
    /// `post_update` on every entity.
    pub fn update_elements(&mut self, td: i64, json: &JSONManager)
        requires
            old(self).wf(),
            json.wf(),
        ensures
            final(self).wf(),
            final(self).camera_uuid == spec_last_camera(old(self).inbox(), old(self).camera_uuid),
            forall|id: u128|
                old(self).has_elem(id) && !spec_has_delete(old(self).inbox(), id) ==> final(self).has_elem(id),
            forall|id: u128|
                old(self).has_elem(id) && spec_has_delete(old(self).inbox(), id) ==> !final(self).has_elem(id),
            final(self).mod_alias@.len() >= old(self).mod_alias@.len(),
            final(self).receiver == old(self).receiver,
            exists|s_drained: Scene, s_topo: Scene, s_tick: Scene|
                #![trigger drain_effect(*old(self), s_drained), topo_rel(*json, old(self).inbox(), s_drained, s_topo), phase_tick_effect(s_topo, s_tick, td)]
                {
                    &&& drain_effect(*old(self), s_drained)
                    &&& topo_rel(*json, old(self).inbox(), s_drained, s_topo)
                    &&& phase_tick_effect(s_topo, s_tick, td)
                    &&& phase_flush_effect(s_tick, *final(self))
                },
    {
        let mut events = self.hub.scene_bus.poll_receiver(self.receiver);
        let ghost evs = old(self).inbox();
        let ghost s_drained_g = *self;
        let en = events.len();
        proof {
            assert(evs.take(0) =~= Seq::<SceneEvent>::empty());
            assert(hub_view(self.hub) =~~= (HubView {
                scene_qs: hub_view(old(self).hub).scene_qs.update(
                    old(self).receiver as int,
                    Seq::<SceneEvent>::empty(),
                ),
                ..hub_view(old(self).hub)
            }));
            assert(drain_effect(*old(self), s_drained_g));
            assert(scene_state_eq(*self, s_drained_g));
        }
        let mut i: usize = 0;
        while i < en
            invariant
                en == evs.len(),
                en == events@.len(),
                i <= en,
                json.wf(),
                self.wf(),
                forall|j: int| i <= j < en ==> #[trigger] events@[j] == evs[j],
                self.camera_uuid == spec_last_camera(evs.take(i as int), old(self).camera_uuid),
                forall|id: u128|
                    old(self).has_elem(id) && !spec_has_delete(evs.take(i as int), id)
                        ==> #[trigger] self.has_elem(id),
                old(self).next_uuid <= self.next_uuid,
                forall|id: u128|
                    id < old(self).next_uuid && spec_has_delete(evs.take(i as int), id)
                        ==> !(#[trigger] self.has_elem(id)),
                self.mod_alias@.len() >= old(self).mod_alias@.len(),
                self.receiver == old(self).receiver,
                topo_rel(*json, evs.take(i as int), s_drained_g, *self),
            decreases en - i,
        {
            proof {
                assert(evs.take(i as int + 1).drop_last() =~= evs.take(i as int));
                assert(evs.take(i as int + 1).last() == evs[i as int]);
            }
            let ghost s_entry = *self;
            let mut e = SceneEvent::Registry;
            let slot = &mut events[i];
            core::mem::swap(slot, &mut e);
            let ghost ev_i = evs[i as int];
            match e {
                SceneEvent::SetCamera(u) => {
                    self.camera_uuid = u;
                    proof {
                        lemma_ids_stable_has(&s_entry, self);
                        assert(scene_state_eq(*self, Scene { camera_uuid: u, ..s_entry }));
                        assert(topo_step(*json, ev_i, s_entry, *self));
                    }
                },
                SceneEvent::Delete(u) => {
                    self.delete_element(u);
                    proof {
                        assert(topo_step(*json, ev_i, s_entry, *self));
                    }
                },
                SceneEvent::Instantiate(doc) => {
                    let ghost doc_g = ev_i->Instantiate_0;
                    if json.compatible(&doc) && self.next_uuid < u128::MAX {
                        let el = json.create_element(&doc);
                        let ghost el_g = el;
                        proof {
                            lemma_created_inert(json, doc_g, el_g);
                        }
                        let inert = matches!(&el, Element::Null);
                        if !inert {
                            let id = self.add_element(el);
                            let ghost s_add_g = *self;
                            let mods = self.module_tool();
                            let ghost pre_init = *self;
                            match self.find_elem(id) {
                                Some(ei) => {
                                    let mut fresh = Element::Null;
                                    let slot = &mut self.elements[ei];
                                    core::mem::swap(&mut slot.1, &mut fresh);
                                    proof {
                                        assert(fresh == el_g);
                                        assert(discovery_of_mods(mods) == discovery_of_scene(
                                            s_add_g,
                                        ));
                                    }
                                    fresh.init(id, &mods, &mut self.hub);
                                    let slot = &mut self.elements[ei];
                                    core::mem::swap(&mut slot.1, &mut fresh);
                                    proof {
                                        lemma_ids_stable_has(&pre_init, self);
                                        assert forall|k: u128|
                                            k < s_entry.next_uuid && !s_entry.has_elem(
                                                k,
                                            ) implies !self.has_elem(k) by {
                                            assert(id >= s_entry.next_uuid);
                                        }
                                        assert(spawn_init_effect(s_add_g, *self, id, el_g));
                                        assert(add_rel(s_entry, s_add_g, el_g));
                                        assert(spawn_rel(*json, doc_g, s_entry, *self));
                                        assert(topo_step(*json, ev_i, s_entry, *self));
                                    }
                                },
                                None => {},
                            }
                        } else {
                            proof {
                                assert(scene_state_eq(*self, s_entry));
                                assert(spawn_rel(*json, doc_g, s_entry, *self));
                                assert(topo_step(*json, ev_i, s_entry, *self));
                            }
                        }
                    } else {
                        proof {
                            assert(scene_state_eq(*self, s_entry));
                            assert(spawn_rel(*json, doc_g, s_entry, *self));
                            assert(topo_step(*json, ev_i, s_entry, *self));
                        }
                    }
                },
                SceneEvent::Registry => {
                    proof {
                        lemma_ids_stable_has(&s_entry, self);
                        assert(scene_state_eq(*self, s_entry));
                        assert(topo_step(*json, ev_i, s_entry, *self));
                    }
                },
            }
            proof {
                assert(evs.take(i as int + 1).drop_last() =~= evs.take(i as int));
                assert(evs.take(i as int + 1).last() == ev_i);
                assert(topo_rel(*json, evs.take(i as int + 1).drop_last(), s_drained_g, s_entry));
                assert(topo_step(*json, evs.take(i as int + 1).last(), s_entry, *self));
                assert(topo_rel(*json, evs.take(i as int + 1), s_drained_g, *self));
                assert forall|id: u128|
                    id < old(self).next_uuid && spec_has_delete(evs.take(i as int + 1), id)
                        implies !(#[trigger] self.has_elem(id)) by {
                    let j = choose|j: int|
                        0 <= j < evs.take(i as int + 1).len() && ((#[trigger] evs.take(
                            i as int + 1,
                        )[j]) matches SceneEvent::Delete(d) && d == id);
                    if j < i as int {
                        assert(evs.take(i as int)[j] == evs.take(i as int + 1)[j]);
                        assert(spec_has_delete(evs.take(i as int), id));
                        assert(!s_entry.has_elem(id));
                    } else {
                        assert(evs.take(i as int + 1)[j] == ev_i);
                        assert(ev_i matches SceneEvent::Delete(d) && d == id);
                    }
                }
                assert forall|id: u128|
                    old(self).has_elem(id) && !spec_has_delete(evs.take(i as int + 1), id)
                        implies #[trigger] self.has_elem(id) by {
                    assert forall|j: int|
                        0 <= j < i implies !((#[trigger] evs.take(i as int)[j])
                        matches SceneEvent::Delete(d) && d == id) by {
                        assert(evs.take(i as int + 1)[j] == evs.take(i as int)[j]);
                    }
                    assert(!spec_has_delete(evs.take(i as int), id));
                    assert(s_entry.has_elem(id));
                    match ev_i {
                        SceneEvent::Delete(d) => {
                            if d == id {
                                assert(evs.take(i as int + 1)[i as int] == ev_i);
                                assert(spec_has_delete(evs.take(i as int + 1), id));
                            }
                        },
                        _ => {},
                    }
                }
            }
            i += 1;
        }
        proof {
            assert(evs.take(en as int) =~= evs);
            assert forall|id: u128|
                old(self).has_elem(id) && spec_has_delete(evs, id) implies !(
            #[trigger] self.has_elem(id)) by {
                let j = choose|j: int|
                    0 <= j < old(self).elements@.len() && #[trigger] old(self).elements@[j].0
                        == id;
                assert(id < old(self).next_uuid);
            }
        }
        let ghost s_topo_g = *self;
        proof {
            assert(evs.take(en as int) =~= evs);
            assert(topo_rel(*json, evs, s_drained_g, s_topo_g));
        }
        self.run_tick_phase(td);
        let ghost s_tick_g = *self;
        self.run_flush_phase();
        proof {
            assert(*self == *final(self));
            assert(drain_effect(*old(self), s_drained_g) && topo_rel(
                *json,
                old(self).inbox(),
                s_drained_g,
                s_topo_g,
            ) && phase_tick_effect(s_topo_g, s_tick_g, td) && phase_flush_effect(
                s_tick_g,
                *self,
            ));
        }
    }

    /// The per-frame logic pass over every entity, in registry order:
    /// each element's `local_update` runs exactly once, and the hub takes
    /// the fold of their effects.  Entity identifiers are untouched.
    fn run_tick_phase(&mut self, td: i64)
        requires
            old(self).wf(),
        ensures
            final(self).wf(),
            phase_tick_effect(*old(self), *final(self), td),
            forall|id: u128| final(self).has_elem(id) == old(self).has_elem(id),
    {
        let n = self.elements.len();
        proof {
            assert(old(self).elements@.take(0) =~= Seq::<(u128, Element)>::empty());
        }
        let mut i: usize = 0;
        while i < n
            invariant
                old(self).wf(),
                n == self.elements@.len(),
                n == old(self).elements@.len(),
                i <= n,
                self.hub.wf(),
                hub_view(self.hub) == tick_pass_view(
                    old(self).elements@.take(i as int),
                    td,
                    hub_view(old(self).hub),
                ),
                forall|j: int|
                    i <= j < n ==> #[trigger] self.elements@[j] == old(self).elements@[j],
                forall|j: int|
                    0 <= j < n ==> #[trigger] self.elements@[j].0 == old(self).elements@[j].0,
                forall|j: int|
                    0 <= j < i ==> crate::element::elem_pair_tick(
                        old(self).elements@[j].1,
                        (#[trigger] self.elements@[j]).1,
                        td,
                    ),
                forall|p: int, q: int|
                    0 <= p < q < self.elements@.len() ==> #[trigger] self.elements@[p].0
                        != #[trigger] self.elements@[q].0,
                self.mod_alias@ == old(self).mod_alias@,
                forall|p: int, q: int|
                    0 <= p < q < self.mod_alias@.len() ==> #[trigger] self.mod_alias@[p].0@
                        != #[trigger] self.mod_alias@[q].0@,
                self.camera_uuid == old(self).camera_uuid,
                self.receiver == old(self).receiver,
                self.receiver < self.hub.scene_bus.queues().len(),
                self.next_uuid == old(self).next_uuid,
            decreases n - i,
        {
            let mut e = Element::Null;
            let slot = &mut self.elements[i];
            core::mem::swap(&mut slot.1, &mut e);
            let ghost hpre = self.hub;
            e.local_update(td, &mut self.hub);
            proof {
                assert(hpre.scene_bus.queues().len() <= self.hub.scene_bus.queues().len());
                assert(old(self).elements@.take(i as int + 1).drop_last() =~= old(
                    self,
                ).elements@.take(i as int));
                assert(old(self).elements@.take(i as int + 1).last() == old(self).elements@[
                    i as int]);
                assert(hub_view(self.hub) == tick_pass_view(
                    old(self).elements@.take(i as int + 1),
                    td,
                    hub_view(old(self).hub),
                ));
            }
            let slot = &mut self.elements[i];
            core::mem::swap(&mut slot.1, &mut e);
            i += 1;
        }
        proof {
            assert(old(self).elements@.take(n as int) =~= old(self).elements@);
            lemma_ids_stable_has(old(self), self);
        }
    }

    /// The flush pass over every entity, in registry order: each element's
    /// `post_update` runs exactly once, and the hub takes the fold of their
    /// effects.  Entity identifiers are untouched.
    fn run_flush_phase(&mut self)
        requires
            old(self).wf(),
        ensures
            final(self).wf(),
            phase_flush_effect(*old(self), *final(self)),
            forall|id: u128| final(self).has_elem(id) == old(self).has_elem(id),
    {
        let n = self.elements.len();
        proof {
            assert(old(self).elements@.take(0) =~= Seq::<(u128, Element)>::empty());
        }
        let mut i: usize = 0;
        while i < n
            invariant
                old(self).wf(),
                n == self.elements@.len(),
                n == old(self).elements@.len(),
                i <= n,
                self.hub.wf(),
                hub_view(self.hub) == flush_pass_view(
                    old(self).elements@.take(i as int),
                    hub_view(old(self).hub),
                ),
                forall|j: int|
                    i <= j < n ==> #[trigger] self.elements@[j] == old(self).elements@[j],
                forall|j: int|
                    0 <= j < n ==> #[trigger] self.elements@[j].0 == old(self).elements@[j].0,
                forall|j: int|
                    0 <= j < i ==> crate::element::elem_pair_flush(
                        old(self).elements@[j].1,
                        (#[trigger] self.elements@[j]).1,
                    ),
                forall|p: int, q: int|
                    0 <= p < q < self.elements@.len() ==> #[trigger] self.elements@[p].0
                        != #[trigger] self.elements@[q].0,
                self.mod_alias@ == old(self).mod_alias@,
                forall|p: int, q: int|
                    0 <= p < q < self.mod_alias@.len() ==> #[trigger] self.mod_alias@[p].0@
                        != #[trigger] self.mod_alias@[q].0@,
                self.camera_uuid == old(self).camera_uuid,
                self.receiver == old(self).receiver,
                self.receiver < self.hub.scene_bus.queues().len(),
                self.next_uuid == old(self).next_uuid,
            decreases n - i,
        {
            let mut e = Element::Null;
            let slot = &mut self.elements[i];
            core::mem::swap(&mut slot.1, &mut e);
            let ghost hpre = self.hub;
            e.post_update(&mut self.hub);
            proof {
                assert(old(self).elements@.take(i as int + 1).drop_last() =~= old(
                    self,
                ).elements@.take(i as int));
                assert(old(self).elements@.take(i as int + 1).last() == old(self).elements@[
                    i as int]);
                assert(hub_view(self.hub) == flush_pass_view(
                    old(self).elements@.take(i as int + 1),
                    hub_view(old(self).hub),
                ));
            }
            let slot = &mut self.elements[i];
            core::mem::swap(&mut slot.1, &mut e);
            i += 1;
        }
        proof {
            assert(old(self).elements@.take(n as int) =~= old(self).elements@);
            lemma_ids_stable_has(old(self), self);
        }
    }

    /// Every entity's drawable descriptor, in registry order, skipping
    /// entities that produce none.
    pub fn display(&self) -> (r: Vec<crate::sprite::Sprite>)
        ensures
            r@.map_values(|s: crate::sprite::Sprite| crate::sprite::chain_view(s))
                == spec_collected_chains(self.elements@),
    {
        let mut out: Vec<crate::sprite::Sprite> = Vec::new();
        let n = self.elements.len();
        proof {
            assert(out@.map_values(|s: crate::sprite::Sprite| crate::sprite::chain_view(s))
                =~= spec_collected_chains(self.elements@.take(0)));
        }
        let mut i: usize = 0;
        while i < n
            invariant
                n == self.elements@.len(),
                i <= n,
                out@.map_values(|s: crate::sprite::Sprite| crate::sprite::chain_view(s))
                    == spec_collected_chains(self.elements@.take(i as int)),
            decreases n - i,
        {
            proof {
                assert(self.elements@.take(i as int + 1).drop_last() =~= self.elements@.take(
                    i as int,
                ));
                assert(self.elements@.take(i as int + 1).last() == self.elements@[i as int]);
            }
            match self.elements[i].1.sprite() {
                Some(s) => {
                    out.push(s);
                },
                None => {},
            }
            proof {
                assert(out@.map_values(|s: crate::sprite::Sprite| crate::sprite::chain_view(s))
                    =~= spec_collected_chains(self.elements@.take(i as int + 1)));
            }
            i += 1;
        }
        proof {
            assert(self.elements@.take(n as int) =~= self.elements@);
        }
        out
    }

    /// The active camera's projection, or the identity transform and zero
    /// offset while no live entity holds the active identifier.
    pub fn camera_projection(&self, window_size: [u32; 2]) -> (r: (
        crate::camera::ClipMatrix,
        crate::V2<i64>,
    ))
        requires
            self.wf(),
        ensures
            self.has_elem(self.camera_uuid) ==> r == (
                crate::element::spec_elem_clip(
                    self.elem_of(self.camera_uuid),
                    window_size[0],
                    window_size[1],
                ),
                crate::element::spec_elem_offset(self.elem_of(self.camera_uuid)),
            ),
            !self.has_elem(self.camera_uuid) ==> r == (
                crate::camera::identity_clip(),
                crate::V2 { x: 0i64, y: 0i64 },
            ),
    {
        match self.find_elem(self.camera_uuid) {
            Some(i) => {
                proof {
                    self.lemma_elem_entry(i as int);
                }
                let e = &self.elements[i].1;
                (e.clip_matrix(window_size), e.offset())
            },
            None => (crate::camera::ClipMatrix { sx: 1000, sy: 1000 }, crate::V2 { x: 0, y: 0 }),
        }
    }

}

/// Two scenes whose tables carry the same identifiers in the same slots
/// register the same identifiers.
proof fn lemma_ids_stable_has(before: &Scene, after: &Scene)
    requires
        after.elements@.len() == before.elements@.len(),
        forall|j: int|
            0 <= j < before.elements@.len() ==> #[trigger] after.elements@[j].0
                == before.elements@[j].0,
    ensures
        forall|id: u128| after.has_elem(id) == before.has_elem(id),
{
    assert forall|id: u128| after.has_elem(id) == before.has_elem(id) by {
        if before.has_elem(id) {
            let j = choose|j: int|
                0 <= j < before.elements@.len() && #[trigger] before.elements@[j].0 == id;
            assert(after.elements@[j].0 == id);
        }
        if after.has_elem(id) {
            let j = choose|j: int|
                0 <= j < after.elements@.len() && #[trigger] after.elements@[j].0 == id;
            assert(before.elements@[j].0 == id);
        }
    }
}

/// The chains of the drawable descriptors a table of entities produces, in
/// order, skipping entities that produce none.
pub open spec fn spec_collected_chains(entries: Seq<(u128, Element)>) -> Seq<
    Seq<crate::sprite::SpriteNode>,
>
    decreases entries.len(),
{
    if entries.len() == 0 {
        Seq::<Seq<crate::sprite::SpriteNode>>::empty()
    } else {
        spec_collected_chains(entries.drop_last()) + match crate::element::spec_sprite_view(
            entries.last().1,
        ) {
            Some(v) => seq![v],
            None => Seq::<Seq<crate::sprite::SpriteNode>>::empty(),
        }
    }
}

/// After replacing the alias entry at index `i` while keeping its key, that
/// alias maps to the new identifier and every other alias as before.
proof fn lemma_alias_after_update(before: &Scene, after: &Scene, i: int, a: Seq<char>)
    requires
        forall|p: int, q: int|
            0 <= p < q < before.mod_alias@.len() ==> #[trigger] before.mod_alias@[p].0@
                != #[trigger] before.mod_alias@[q].0@,
        0 <= i < before.mod_alias@.len(),
        after.mod_alias@.len() == before.mod_alias@.len(),
        forall|j: int|
            0 <= j < before.mod_alias@.len() && j != i ==> #[trigger] after.mod_alias@[j]
                == before.mod_alias@[j],
        before.mod_alias@[i].0@ == a,
        after.mod_alias@[i].0@ == a,
    ensures
        forall|p: int, q: int|
            0 <= p < q < after.mod_alias@.len() ==> #[trigger] after.mod_alias@[p].0@
                != #[trigger] after.mod_alias@[q].0@,
        after.alias_has(a),
        after.alias_id(a) == after.mod_alias@[i].1,
        forall|a2: Seq<char>|
            a2 != a ==> after.alias_has(a2) == before.alias_has(a2) && (before.alias_has(a2)
                ==> after.alias_id(a2) == before.alias_id(a2)),
{
    assert forall|p: int, q: int|
        0 <= p < q < after.mod_alias@.len() implies #[trigger] after.mod_alias@[p].0@
        != #[trigger] after.mod_alias@[q].0@ by {
        assert(after.mod_alias@[p].0@ == before.mod_alias@[p].0@);
        assert(after.mod_alias@[q].0@ == before.mod_alias@[q].0@);
    }
    assert(after.alias_has(a));
    let j = choose|j: int| 0 <= j < after.mod_alias@.len() && #[trigger] after.mod_alias@[j].0@ == a;
    assert(j == i);
    assert forall|a2: Seq<char>|
        a2 != a implies after.alias_has(a2) == before.alias_has(a2) && (before.alias_has(a2)
        ==> after.alias_id(a2) == before.alias_id(a2)) by {
        if before.alias_has(a2) {
            let k = choose|k: int|
                0 <= k < before.mod_alias@.len() && #[trigger] before.mod_alias@[k].0@ == a2;
            assert(k != i);
            assert(after.mod_alias@[k].0@ == a2);
            assert(after.alias_has(a2));
            let k2 = choose|k2: int|
                0 <= k2 < after.mod_alias@.len() && #[trigger] after.mod_alias@[k2].0@ == a2;
            assert(k2 == k);
            let k3 = choose|k3: int|
                0 <= k3 < before.mod_alias@.len() && #[trigger] before.mod_alias@[k3].0@ == a2;
            assert(k3 == k);
        } else {
            if after.alias_has(a2) {
                let k = choose|k: int|
                    0 <= k < after.mod_alias@.len() && #[trigger] after.mod_alias@[k].0@ == a2;
                assert(k != i);
                assert(before.mod_alias@[k].0@ == a2);
            }
        }
    }
}

/// After appending an alias entry under a name that had none, the new alias
/// maps to the appended identifier and every other alias as before.
proof fn lemma_alias_after_push(before: &Scene, after: &Scene, a: Seq<char>)
    requires
        forall|p: int, q: int|
            0 <= p < q < before.mod_alias@.len() ==> #[trigger] before.mod_alias@[p].0@
                != #[trigger] before.mod_alias@[q].0@,
        !before.alias_has(a),
        after.mod_alias@.len() == before.mod_alias@.len() + 1,
        forall|j: int|
            0 <= j < before.mod_alias@.len() ==> #[trigger] after.mod_alias@[j]
                == before.mod_alias@[j],
        after.mod_alias@[before.mod_alias@.len() as int].0@ == a,
    ensures
        forall|p: int, q: int|
            0 <= p < q < after.mod_alias@.len() ==> #[trigger] after.mod_alias@[p].0@
                != #[trigger] after.mod_alias@[q].0@,
        after.alias_has(a),
        after.alias_id(a) == after.mod_alias@[before.mod_alias@.len() as int].1,
        forall|a2: Seq<char>|
            a2 != a ==> after.alias_has(a2) == before.alias_has(a2) && (before.alias_has(a2)
                ==> after.alias_id(a2) == before.alias_id(a2)),
{
    let n = before.mod_alias@.len() as int;
    assert forall|p: int, q: int|
        0 <= p < q < after.mod_alias@.len() implies #[trigger] after.mod_alias@[p].0@
        != #[trigger] after.mod_alias@[q].0@ by {
        if q < n {
            assert(after.mod_alias@[p].0@ == before.mod_alias@[p].0@);
            assert(after.mod_alias@[q].0@ == before.mod_alias@[q].0@);
        } else {
            assert(after.mod_alias@[p].0@ == before.mod_alias@[p].0@);
            assert(before.mod_alias@[p].0@ != a);
        }
    }
    assert(after.alias_has(a));
    let j = choose|j: int| 0 <= j < after.mod_alias@.len() && #[trigger] after.mod_alias@[j].0@ == a;
    assert(j == n);
    assert forall|a2: Seq<char>|
        a2 != a implies after.alias_has(a2) == before.alias_has(a2) && (before.alias_has(a2)
        ==> after.alias_id(a2) == before.alias_id(a2)) by {
        if before.alias_has(a2) {
            let k = choose|k: int|
                0 <= k < before.mod_alias@.len() && #[trigger] before.mod_alias@[k].0@ == a2;
            assert(after.mod_alias@[k].0@ == a2);
            let k2 = choose|k2: int|
                0 <= k2 < after.mod_alias@.len() && #[trigger] after.mod_alias@[k2].0@ == a2;
            assert(k2 == k);
            let k3 = choose|k3: int|
                0 <= k3 < before.mod_alias@.len() && #[trigger] before.mod_alias@[k3].0@ == a2;
            assert(k3 == k);
        } else {
            if after.alias_has(a2) {
                let k = choose|k: int|
                    0 <= k < after.mod_alias@.len() && #[trigger] after.mod_alias@[k].0@ == a2;
                assert(k != n);
                assert(before.mod_alias@[k].0@ == a2);
            }
        }
    }
}

/// A scene document: the ordered element documents a scene is built from.
pub struct SceneDoc {
    pub elements: Vec<Document>,
}

/// The shared template registry: named element prototypes, from which
/// documents instantiate fresh elements.
pub struct JSONManager {
    pub element_names: Vec<(String, Element)>,
}

impl JSONManager {
    /// Whether a template name is registered.
    pub open spec fn proto_has(&self, name: Seq<char>) -> bool {
        exists|i: int|
            0 <= i < self.element_names@.len() && #[trigger] self.element_names@[i].0@ == name
    }

    /// The prototype registered under a template name.
    pub open spec fn proto_of(&self, name: Seq<char>) -> Element {
        let i = choose|i: int|
            0 <= i < self.element_names@.len() && #[trigger] self.element_names@[i].0@ == name;
        self.element_names@[i].1
    }

    /// At most one prototype per template name.
    pub open spec fn wf(&self) -> bool {
        forall|i: int, j: int|
            0 <= i < j < self.element_names@.len() ==> #[trigger] self.element_names@[i].0@
                != #[trigger] self.element_names@[j].0@
    }

    /// Whether a document can be instantiated: its named template, if
    /// registered, must accept the document's settings.  Callers at the
    /// document boundary validate with this before instantiating.
    pub open spec fn spec_compatible(&self, doc: Document) -> bool {
        !self.proto_has(doc.name@) || crate::element::load_ok(self.proto_of(doc.name@), doc)
    }

    /// What instantiating a document produces: the inert element for an
    /// unknown template name, else what the prototype's factory makes.
    pub open spec fn spec_created(&self, doc: Document, r: Element) -> bool {
        if self.proto_has(doc.name@) {
            crate::element::load_rel(self.proto_of(doc.name@), doc, r)
        } else {
            r == Element::Null
        }
    }

    pub fn new() -> (m: JSONManager)
        ensures
            m.wf(),
            m.element_names@ == Seq::<(String, Element)>::empty(),
    {
        JSONManager { element_names: Vec::new() }
    }

    fn find_proto(&self, name: &String) -> (found: Option<usize>)
        requires
            self.wf(),
        ensures
            match found {
                Some(i) => i < self.element_names@.len() && self.element_names@[i as int].0@
                    == name@,
                None => !self.proto_has(name@),
            },
    {
        let mut i: usize = 0;
        while i < self.element_names.len()
            invariant
                i <= self.element_names@.len(),
                forall|j: int| 0 <= j < i ==> #[trigger] self.element_names@[j].0@ != name@,
            decreases self.element_names@.len() - i,
        {
            if self.element_names[i].0 == *name {
                return Some(i);
            }
            i += 1;
        }
        None
    }

    pub(crate) proof fn lemma_proto_entry(&self, i: int)
        requires
            self.wf(),
            0 <= i < self.element_names@.len(),
        ensures
            self.proto_has(self.element_names@[i].0@),
            self.proto_of(self.element_names@[i].0@) == self.element_names@[i].1,
    {
        let a = self.element_names@[i].0@;
        assert(self.proto_has(a));
        let j = choose|j: int|
            0 <= j < self.element_names@.len() && #[trigger] self.element_names@[j].0@ == a;
        assert(j == i);
    }

    /// Whether `create_element` may be called on this document.
    pub fn compatible(&self, doc: &Document) -> (r: bool)
        requires
            self.wf(),
        ensures
            r == self.spec_compatible(*doc),
    {
        match self.find_proto(&doc.name) {
            Some(i) => {
                proof {
                    self.lemma_proto_entry(i as int);
                }
                load_check(&self.element_names[i].1, doc)
            },
            None => true,
        }
    }

    /// Instantiate a document: look the template up by name and run its
    /// pure factory.  An unknown name yields the inert element; malformed
    /// settings are the document boundary's hard failure and are excluded
    /// by the precondition.
    pub fn create_element(&self, value: &Document) -> (e: Element)
        requires
            self.wf(),
            self.spec_compatible(*value),
        ensures
            self.spec_created(*value, e),
    {
        match self.find_proto(&value.name) {
            Some(i) => {
                proof {
                    self.lemma_proto_entry(i as int);
                }
                self.element_names[i].1.load(value)
            },
            None => Element::Null,
        }
    }

    /// Build a scene from a scene document: a fresh scene with every
    /// non-inert instantiation registered, in document order.
    pub fn create_scene(&self, data: &SceneDoc) -> (s: Scene)
        requires
            self.wf(),
            forall|i: int|
                0 <= i < data.elements@.len() ==> self.spec_compatible(
                    #[trigger] data.elements@[i],
                ),
        ensures
            s.wf(),
            s.live_cap("scene broadcast"@) == Some(
                Capability::SceneChannel(SceneBroadcastComponent),
            ),
            s.live_cap("uuid tags"@) == Some(Capability::Tags),
            s.elements@.len() <= 2 + data.elements@.len(),
            exists|s_base: Scene|
                #![trigger built_scene_rel(*self, data.elements@, s_base, s)]
                {
                    &&& fresh_scene_shape(s_base)
                    &&& built_scene_rel(*self, data.elements@, s_base, s)
                },
    {
        let mut scene = Scene::new();
        let ghost s_base_g = scene;
        let n = data.elements.len();
        proof {
            assert(data.elements@.take(0) =~= Seq::<Document>::empty());
            assert(scene_state_eq(scene, s_base_g));
        }
        let mut i: usize = 0;
        while i < n
            invariant
                n == data.elements@.len(),
                i <= n,
                self.wf(),
                forall|j: int|
                    0 <= j < n ==> self.spec_compatible(#[trigger] data.elements@[j]),
                scene.wf(),
                scene.elements@.len() <= 2 + i,
                scene.live_cap("scene broadcast"@) == Some(
                    Capability::SceneChannel(SceneBroadcastComponent),
                ),
                scene.live_cap("uuid tags"@) == Some(Capability::Tags),
                built_scene_rel(*self, data.elements@.take(i as int), s_base_g, scene),
            decreases n - i,
        {
            let ghost s_entry = scene;
            let e = if scene.next_uuid < u128::MAX {
                self.create_element(&data.elements[i])
            } else {
                Element::Null
            };
            let ghost el_g = e;
            let ghost doc_i = data.elements@[i as int];
            proof {
                if s_entry.next_uuid < u128::MAX {
                    lemma_created_inert(self, doc_i, el_g);
                }
            }
            let inert = matches!(&e, Element::Null);
            if !inert {
                let ghost pre = scene;
                let id2 = scene.add_element(e);
                proof {
                    if scene.next_uuid <= u128::MAX {
                        lemma_created_alias(self, doc_i, el_g);
                    }
                    reveal_strlit("pom");
                    reveal_strlit("input");
                    reveal_strlit("particle");
                    reveal_strlit("scene broadcast");
                    reveal_strlit("uuid tags");
                    assert("pom"@.len() == 3 && "input"@.len() == 5 && "particle"@.len() == 8
                        && "scene broadcast"@.len() == 15 && "uuid tags"@.len() == 9);
                    lemma_baseline_preserved(&pre, &scene, id2, el_g, "scene broadcast"@);
                    lemma_baseline_preserved(&pre, &scene, id2, el_g, "uuid tags"@);
                    assert(add_rel(s_entry, scene, el_g));
                    assert(build_step(*self, doc_i, s_entry, scene));
                }
            } else {
                proof {
                    assert(scene_state_eq(scene, s_entry));
                    assert(build_step(*self, doc_i, s_entry, scene));
                }
            }
            proof {
                assert(data.elements@.take(i as int + 1).drop_last() =~= data.elements@.take(
                    i as int,
                ));
                assert(data.elements@.take(i as int + 1).last() == doc_i);
                assert(built_scene_rel(
                    *self,
                    data.elements@.take(i as int + 1).drop_last(),
                    s_base_g,
                    s_entry,
                ));
                assert(build_step(
                    *self,
                    data.elements@.take(i as int + 1).last(),
                    s_entry,
                    scene,
                ));
                assert(built_scene_rel(*self, data.elements@.take(i as int + 1), s_base_g, scene));
            }
            i += 1;
        }
        proof {
            assert(data.elements@.take(n as int) =~= data.elements@);
            assert(fresh_scene_shape(s_base_g) && built_scene_rel(
                *self,
                data.elements@,
                s_base_g,
                scene,
            ));
        }
        scene
    }
}

/// An element instantiated from a document can only stand as a module
/// under one of the engine's own aliases.
proof fn lemma_created_alias(m: &JSONManager, doc: Document, el: Element)
    requires
        m.wf(),
        m.spec_created(doc, el),
    ensures
        el matches Element::Module(b) ==> behavior_alias(b) == Some("pom"@) || behavior_alias(b)
            == Some("input"@) || behavior_alias(b) == Some("particle"@),
{
    if m.proto_has(doc.name@) {
        let proto = m.proto_of(doc.name@);
        match proto {
            Element::Gen(x) => {},
            Element::Module(x) => {},
            Element::Group(_) => {},
            Element::Null => {},
        }
    }
}

/// Registering one fresh element whose module alias, if any, differs from
/// `a` leaves the capability registered under `a` untouched.
proof fn lemma_baseline_preserved(pre: &Scene, post: &Scene, uuid: u128, el: Element, a: Seq<char>)
    requires
        pre.wf(),
        post.wf(),
        pre.live_cap(a) is Some,
        !pre.has_elem(uuid),
        post.has_elem(uuid),
        forall|id: u128|
            id != uuid ==> post.has_elem(id) == pre.has_elem(id) && (pre.has_elem(id)
                ==> post.elem_of(id) == pre.elem_of(id)),
        ({
            match el {
                Element::Module(b) => match behavior_alias(b) {
                    Some(ab) => ab != a && post.alias_has(a) == pre.alias_has(a) && (
                    pre.alias_has(a) ==> post.alias_id(a) == pre.alias_id(a)),
                    None => post.mod_alias@ == pre.mod_alias@,
                },
                _ => post.mod_alias@ == pre.mod_alias@,
            }
        }),
    ensures
        post.live_cap(a) == pre.live_cap(a),
{
    let aliases_equal = post.mod_alias@ == pre.mod_alias@;
    if aliases_equal {
        lemma_alias_same(pre, post, a);
    }
    assert(pre.alias_has(a));
    let id = pre.alias_id(a);
    assert(pre.has_elem(id));
    assert(id != uuid);
    assert(post.alias_id(a) == id);
    assert(post.has_elem(id));
    assert(post.elem_of(id) == pre.elem_of(id));
}

/// Two scenes with the same alias registry resolve every alias alike.
proof fn lemma_alias_same(pre: &Scene, post: &Scene, a: Seq<char>)
    requires
        pre.wf(),
        post.wf(),
        post.mod_alias@ == pre.mod_alias@,
    ensures
        post.alias_has(a) == pre.alias_has(a),
        pre.alias_has(a) ==> post.alias_id(a) == pre.alias_id(a),
{
    if pre.alias_has(a) {
        let j = choose|j: int|
            0 <= j < pre.mod_alias@.len() && #[trigger] pre.mod_alias@[j].0@ == a;
        assert(post.mod_alias@[j].0@ == a);
        assert(post.alias_has(a));
        let k = choose|k: int|
            0 <= k < post.mod_alias@.len() && #[trigger] post.mod_alias@[k].0@ == a;
        assert(k == j);
        let k2 = choose|k2: int|
            0 <= k2 < pre.mod_alias@.len() && #[trigger] pre.mod_alias@[k2].0@ == a;
        assert(k2 == j);
    } else {
        if post.alias_has(a) {
            let j = choose|j: int|
                0 <= j < post.mod_alias@.len() && #[trigger] post.mod_alias@[j].0@ == a;
            assert(pre.mod_alias@[j].0@ == a);
        }
    }
}

/// Whether the document's settings follow the prototype's schema.
fn load_check(proto: &Element, doc: &Document) -> (r: bool)
    ensures
        r == crate::element::load_ok(*proto, *doc),
    decreases *proto,
{
    match proto {
        Element::Gen(b) => behavior_load_check(b, doc),
        Element::Module(b) => behavior_load_check(b, doc),
        Element::Group(children) => {
            let n = children.len();
            let mut i: usize = 0;
            while i < n
                invariant
                    n == children@.len(),
                    i <= n,
                    *proto is Group,
                    (*proto)->Group_0@ == children@,
                    forall|j: int|
                        0 <= j < i ==> crate::element::load_ok(#[trigger] children@[j], *doc),
                decreases n - i,
            {
                proof {
                    assert(decreases_to!(*proto => (*proto)->Group_0));
                    assert(decreases_to!((*proto)->Group_0 => (*proto)->Group_0@));
                    assert(decreases_to!((*proto)->Group_0@ => (*proto)->Group_0@[i as int]));
                }
                let child = &children[i];
                if !load_check(child, doc) {
                    return false;
                }
                i += 1;
            }
            true
        },
        Element::Null => true,
    }
}

/// Whether the document's settings follow a behaviour's schema.
fn behavior_load_check(b: &Behavior, doc: &Document) -> (r: bool)
    ensures
        r == crate::element::behavior_load_ok(*b, *doc),
{
    match b {
        Behavior::Block(_) => match &doc.settings {
            None => true,
            Some(Settings::Block(_)) => true,
            Some(_) => false,
        },
        Behavior::Camera(_) => match &doc.settings {
            None => true,
            Some(Settings::Camera(_)) => true,
            Some(_) => false,
        },
        Behavior::Emitter(_) => match &doc.settings {
            None => true,
            Some(Settings::Emitter(_)) => true,
            Some(_) => false,
        },
        _ => true,
    }
}

/// The owner of named scenes: it builds them from scene documents through
/// the shared template registry and tracks which scene is current.
pub struct SceneManager {
    pub scenes: Vec<(String, Scene)>,
    pub name: Option<String>,
    pub json_manager: JSONManager,
    pub map_editor: bool,
}

impl SceneManager {
    /// Whether a scene is registered under `nm`.
    pub open spec fn has_scene(&self, nm: Seq<char>) -> bool {
        exists|i: int| 0 <= i < self.scenes@.len() && #[trigger] self.scenes@[i].0@ == nm
    }

    /// The scene registered under `nm`.
    pub open spec fn scene_of(&self, nm: Seq<char>) -> Scene {
        let i = choose|i: int| 0 <= i < self.scenes@.len() && #[trigger] self.scenes@[i].0@ == nm;
        self.scenes@[i].1
    }

    pub(crate) proof fn lemma_scene_entry(&self, i: int)
        requires
            self.wf(),
            0 <= i < self.scenes@.len(),
        ensures
            self.has_scene(self.scenes@[i].0@),
            self.scene_of(self.scenes@[i].0@) == self.scenes@[i].1,
    {
        let nm = self.scenes@[i].0@;
        assert(self.has_scene(nm));
        let j = choose|j: int| 0 <= j < self.scenes@.len() && #[trigger] self.scenes@[j].0@ == nm;
        assert(j == i);
    }

    /// At most one scene per name, and a well-formed registry.
    pub open spec fn wf(&self) -> bool {
        &&& self.json_manager.wf()
        &&& forall|i: int, j: int|
            0 <= i < j < self.scenes@.len() ==> #[trigger] self.scenes@[i].0@
                != #[trigger] self.scenes@[j].0@
    }

    pub fn new() -> (m: SceneManager)
        ensures
            m.wf(),
            m.scenes@ == Seq::<(String, Scene)>::empty(),
            m.name is None,
            m.json_manager.element_names@ == Seq::<(String, Element)>::empty(),
            m.map_editor == false,
    {
        SceneManager {
            scenes: Vec::new(),
            name: None,
            json_manager: JSONManager::new(),
            map_editor: false,
        }
    }

    fn find_scene(&self, name: &str) -> (found: Option<usize>)
        requires
            self.wf(),
        ensures
            match found {
                Some(i) => i < self.scenes@.len() && self.scenes@[i as int].0@ == name@,
                None => !self.has_scene(name@),
            },
    {
        let key: String = name.to_owned();
        let mut i: usize = 0;
        while i < self.scenes.len()
            invariant
                key@ == name@,
                i <= self.scenes@.len(),
                forall|j: int| 0 <= j < i ==> #[trigger] self.scenes@[j].0@ != name@,
            decreases self.scenes@.len() - i,
        {
            if self.scenes[i].0 == key {
                return Some(i);
            }
            i += 1;
        }
        None
    }

    /// Build a scene from a document and register it under `name`,
    /// replacing any scene previously registered there.
    pub fn create_scene(&mut self, name: String, data: &SceneDoc)
        requires
            old(self).wf(),
            forall|i: int|
                0 <= i < data.elements@.len() ==> old(self).json_manager.spec_compatible(
                    #[trigger] data.elements@[i],
                ),
        ensures
            final(self).wf(),
            final(self).has_scene(name@),
            final(self).name == old(self).name,
            final(self).json_manager == old(self).json_manager,
            exists|s_base: Scene|
                #![trigger built_scene_rel(old(self).json_manager, data.elements@, s_base, final(self).scene_of(name@))]
                {
                    &&& fresh_scene_shape(s_base)
                    &&& built_scene_rel(
                        old(self).json_manager,
                        data.elements@,
                        s_base,
                        final(self).scene_of(name@),
                    )
                },
    {
        let scene = self.json_manager.create_scene(data);
        let ghost scene_g = scene;
        match self.find_scene(name.as_str()) {
            Some(i) => {
                self.scenes[i] = (name, scene);
                proof {
                    assert forall|p: int, q: int|
                        0 <= p < q < self.scenes@.len() implies #[trigger] self.scenes@[p].0@
                        != #[trigger] self.scenes@[q].0@ by {
                        assert(self.scenes@[p].0@ == old(self).scenes@[p].0@);
                        assert(self.scenes@[q].0@ == old(self).scenes@[q].0@);
                    }
                    assert(self.scenes@[i as int].0@ == name@);
                    self.lemma_scene_entry(i as int);
                    assert(self.scene_of(name@) == scene_g);
                }
            },
            None => {
                let ghost n = self.scenes@.len() as int;
                self.scenes.push((name, scene));
                proof {
                    assert forall|p: int, q: int|
                        0 <= p < q < self.scenes@.len() implies #[trigger] self.scenes@[p].0@
                        != #[trigger] self.scenes@[q].0@ by {
                        if q < n {
                            assert(self.scenes@[p].0@ == old(self).scenes@[p].0@);
                            assert(self.scenes@[q].0@ == old(self).scenes@[q].0@);
                        } else {
                            assert(self.scenes@[p].0@ == old(self).scenes@[p].0@);
                            assert(old(self).scenes@[p].0@ != name@);
                        }
                    }
                    assert(self.scenes@[n].0@ == name@);
                    self.lemma_scene_entry(n);
                    assert(self.scene_of(name@) == scene_g);
                }
            },
        }
    }

    /// The currently selected scene, if one is selected and registered.
    pub fn current_scene(&mut self) -> (r: Option<&mut Scene>)
        requires
            old(self).wf(),
        ensures
            match r {
                Some(s) => old(self).name matches Some(nm) && old(self).has_scene(nm@) && exists|
                    i: int,
                |
                    {
                        &&& 0 <= i < old(self).scenes@.len()
                        &&& old(self).scenes@[i].0@ == nm@
                        &&& *s == old(self).scenes@[i].1
                        &&& final(self).scenes@ == old(self).scenes@.update(
                            i,
                            (old(self).scenes@[i].0, *final(s)),
                        )
                    },
                None => *final(self) == *old(self) && (old(self).name is None || (old(
                    self,
                ).name matches Some(nm) && !old(self).has_scene(nm@))),
            },
            final(self).name == old(self).name,
            final(self).json_manager == old(self).json_manager,
    {
        match &self.name {
            Some(nm) => {
                let nm_copy = nm.clone();
                match self.find_scene(nm_copy.as_str()) {
                    Some(i) => {
                        let entry = &mut self.scenes[i];
                        Some(&mut entry.1)
                    },
                    None => None,
                }
            },
            None => None,
        }
    }

    /// Select the scene registered under `name`; an unknown name clears the
    /// selection and reports the failure.
    pub fn set_scene(&mut self, name: &str) -> (r: Result<(), String>)
        requires
            old(self).wf(),
        ensures
            final(self).wf(),
            final(self).scenes@ == old(self).scenes@,
            final(self).json_manager == old(self).json_manager,
            old(self).has_scene(name@) ==> (r is Ok && (final(self).name matches Some(nm) && nm@
                == name@)),
            !old(self).has_scene(name@) ==> ((r matches Err(msg) && msg@ == "Scene not found"@)
                && final(self).name is None),
    {
        match self.find_scene(name) {
            Some(i) => {
                proof {
                    assert(self.has_scene(name@));
                }
                self.name = Some(name.to_owned());
                Ok(())
            },
            None => {
                self.name = None;
                Err("Scene not found".to_owned())
            },
        }
    }
}

} // verus!
