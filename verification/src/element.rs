use vstd::prelude::*;

verus! {

use crate::block::Block;
use crate::camera::DefaultCamera;
use crate::input::InputManager;
use crate::particles::ParticleEmitter;
use crate::physics::POMComponent;
use crate::scene::{
    hub_flush_frame, hub_init_frame, hub_tick_frame, Hub, Scene, SceneBroadcastComponent,
};
use crate::sprite::{chain_view, Sprite, SpriteNode};

/// The kind a consumer expects of a capability it fetches by alias.
#[derive(Clone, Copy, Debug)]
pub enum CapKind {
    SceneChannel,
    Tags,
    Phys,
    Input,
    Particles,
}

/// A typed capability value exposed by a module: a handle that names which
/// of the scene's shared channels or services the holder may use.
#[derive(Clone, Copy, Debug)]
pub enum Capability {
    SceneChannel(SceneBroadcastComponent),
    Tags,
    Phys(POMComponent),
    Input(InputManager),
    Particles,
}

/// The kind of a capability value.
pub open spec fn kind_of(c: Capability) -> CapKind {
    match c {
        Capability::SceneChannel(_) => CapKind::SceneChannel,
        Capability::Tags => CapKind::Tags,
        Capability::Phys(_) => CapKind::Phys,
        Capability::Input(_) => CapKind::Input,
        Capability::Particles => CapKind::Particles,
    }
}

/// Whether a capability value has the expected kind.
pub fn cap_matches(c: &Capability, expected: CapKind) -> (r: bool)
    ensures
        r == (kind_of(*c) == expected),
{
    match (c, expected) {
        (Capability::SceneChannel(_), CapKind::SceneChannel) => true,
        (Capability::Tags, CapKind::Tags) => true,
        (Capability::Phys(_), CapKind::Phys) => true,
        (Capability::Input(_), CapKind::Input) => true,
        (Capability::Particles, CapKind::Particles) => true,
        _ => false,
    }
}

/// A behaviour that may stand as a `Module`: it names the alias under which
/// it is discovered and the capability value it exposes.
pub trait ModuleBehavior {
    spec fn alias_view(&self) -> Seq<char>;

    spec fn capability_view(&self) -> Capability;

    fn alias(&self) -> (s: String)
        ensures
            s@ == self.alias_view(),
    ;

    fn component(&self) -> (c: Capability)
        ensures
            c == self.capability_view(),
    ;
}

impl ModuleBehavior for SceneBroadcastComponent {
    open spec fn alias_view(&self) -> Seq<char> {
        "scene broadcast"@
    }

    open spec fn capability_view(&self) -> Capability {
        Capability::SceneChannel(SceneBroadcastComponent)
    }

    fn alias(&self) -> (s: String)
        ensures
            s@ == self.alias_view(),
    {
        "scene broadcast".to_owned()
    }

    fn component(&self) -> (c: Capability)
        ensures
            c == self.capability_view(),
    {
        Capability::SceneChannel(SceneBroadcastComponent)
    }
}

impl ModuleBehavior for crate::scene::UuidTags {
    open spec fn alias_view(&self) -> Seq<char> {
        "uuid tags"@
    }

    open spec fn capability_view(&self) -> Capability {
        Capability::Tags
    }

    fn alias(&self) -> (s: String)
        ensures
            s@ == self.alias_view(),
    {
        "uuid tags".to_owned()
    }

    fn component(&self) -> (c: Capability)
        ensures
            c == self.capability_view(),
    {
        Capability::Tags
    }
}

impl ModuleBehavior for POMComponent {
    open spec fn alias_view(&self) -> Seq<char> {
        "pom"@
    }

    open spec fn capability_view(&self) -> Capability {
        Capability::Phys(POMComponent)
    }

    fn alias(&self) -> (s: String)
        ensures
            s@ == self.alias_view(),
    {
        "pom".to_owned()
    }

    fn component(&self) -> (c: Capability)
        ensures
            c == self.capability_view(),
    {
        Capability::Phys(POMComponent)
    }
}

impl ModuleBehavior for InputManager {
    open spec fn alias_view(&self) -> Seq<char> {
        "input"@
    }

    open spec fn capability_view(&self) -> Capability {
        Capability::Input(InputManager)
    }

    fn alias(&self) -> (s: String)
        ensures
            s@ == self.alias_view(),
    {
        "input".to_owned()
    }

    fn component(&self) -> (c: Capability)
        ensures
            c == self.capability_view(),
    {
        Capability::Input(InputManager)
    }
}

impl ModuleBehavior for ParticleEmitter {
    open spec fn alias_view(&self) -> Seq<char> {
        self.id@
    }

    open spec fn capability_view(&self) -> Capability {
        Capability::Particles
    }

    fn alias(&self) -> (s: String)
        ensures
            s@ == self.alias_view(),
    {
        self.id.clone()
    }

    fn component(&self) -> (c: Capability)
        ensures
            c == self.capability_view(),
    {
        Capability::Particles
    }
}

/// The closed set of behaviours an element can carry.
pub enum Behavior {
    Broadcast(SceneBroadcastComponent),
    Tags,
    Pom(POMComponent),
    Input(InputManager),
    Block(Block),
    Camera(DefaultCamera),
    Emitter(ParticleEmitter),
}

/// The discovery alias of a behaviour standing as a module, where it has
/// one.
pub open spec fn behavior_alias(b: Behavior) -> Option<Seq<char>> {
    match b {
        Behavior::Broadcast(c) => Some(c.alias_view()),
        Behavior::Tags => Some("uuid tags"@),
        Behavior::Pom(p) => Some(p.alias_view()),
        Behavior::Input(m) => Some(m.alias_view()),
        Behavior::Emitter(em) => Some(em.alias_view()),
        _ => None,
    }
}

/// The capability a behaviour standing as a module exposes, where it has
/// one.
pub open spec fn behavior_capability(b: Behavior) -> Option<Capability> {
    match b {
        Behavior::Broadcast(c) => Some(c.capability_view()),
        Behavior::Tags => Some(Capability::Tags),
        Behavior::Pom(p) => Some(p.capability_view()),
        Behavior::Input(m) => Some(m.capability_view()),
        Behavior::Emitter(em) => Some(em.capability_view()),
        _ => None,
    }
}

/// The capability a behaviour exposes, as executable dispatch.
pub fn module_capability_of(b: &Behavior) -> (r: Option<Capability>)
    ensures
        r == behavior_capability(*b),
{
    match b {
        Behavior::Broadcast(c) => Some(c.component()),
        Behavior::Tags => Some(Capability::Tags),
        Behavior::Pom(p) => Some(p.component()),
        Behavior::Input(m) => Some(m.component()),
        Behavior::Emitter(em) => Some(em.component()),
        _ => None,
    }
}

/// The alias a behaviour is discovered under, as executable dispatch.
pub fn module_alias_of(b: &Behavior) -> (r: Option<String>)
    ensures
        match behavior_alias(*b) {
            Some(a) => r matches Some(s) && s@ == a,
            None => r is None,
        },
{
    match b {
        Behavior::Broadcast(c) => Some(c.alias()),
        Behavior::Tags => Some("uuid tags".to_owned()),
        Behavior::Pom(p) => Some(p.alias()),
        Behavior::Input(m) => Some(m.alias()),
        Behavior::Emitter(em) => Some(em.alias()),
        _ => None,
    }
}

/// A node of the entity composition tree: a single behaviour, an ordered
/// group delegating to its children, a capability-exposing module, or the
/// inert element.
pub enum Element {
    Gen(Behavior),
    Group(Vec<Element>),
    Module(Behavior),
    Null,
}

/// Whether two elements have the same shape: the same variant, with the same
/// behaviour kind and alias where one stands.
pub open spec fn same_kind(a: Element, b: Element) -> bool
    decreases a,
{
    match (a, b) {
        (Element::Gen(x), Element::Gen(y)) => behavior_alias(x) == behavior_alias(y),
        (Element::Module(x), Element::Module(y)) => behavior_alias(x) == behavior_alias(y)
            && behavior_capability(x) == behavior_capability(y),
        (Element::Group(xs), Element::Group(ys)) => xs@.len() == ys@.len() && (forall|i: int|
            0 <= i < xs@.len() ==> same_kind(#[trigger] xs@[i], ys@[i])),
        (Element::Null, Element::Null) => true,
        _ => false,
    }
}

impl Element {
    pub fn new_gen(e: Behavior) -> (r: Element)
        ensures
            r == Element::Gen(e),
    {
        Element::Gen(e)
    }

    pub fn new_module(m: Behavior) -> (r: Element)
        ensures
            r == Element::Module(m),
    {
        Element::Module(m)
    }
}

/// The capability registry an entity consults during its lifecycle calls:
/// one entry per discoverable module, alias to capability, built by the
/// scene from the modules that are alive when the snapshot is taken.
pub struct ModuleTool {
    entries: Vec<(String, Capability)>,
}

impl ModuleTool {
    /// Whether an alias is registered.
    pub closed spec fn has_alias(&self, alias: Seq<char>) -> bool {
        exists|i: int| 0 <= i < self.entries@.len() && #[trigger] self.entries@[i].0@ == alias
    }

    /// The capability registered under an alias.
    pub closed spec fn cap_of(&self, alias: Seq<char>) -> Capability {
        let i = choose|i: int|
            0 <= i < self.entries@.len() && #[trigger] self.entries@[i].0@ == alias;
        self.entries@[i].1
    }

    /// At most one entry per alias.
    pub closed spec fn wf(&self) -> bool {
        forall|i: int, j: int|
            0 <= i < j < self.entries@.len() ==> #[trigger] self.entries@[i].0@
                != #[trigger] self.entries@[j].0@
    }

    /// What `access` returns: the capability registered under the alias,
    /// provided it has the expected kind; nothing otherwise.
    pub open spec fn spec_access(&self, alias: Seq<char>, expected: CapKind) -> Option<
        Capability,
    > {
        if self.has_alias(alias) && kind_of(self.cap_of(alias)) == expected {
            Some(self.cap_of(alias))
        } else {
            None
        }
    }

    /// The registry of the scene's live modules: an entry for each alias
    /// that resolves to a live module element exposing a capability.
    pub fn new(scene: &Scene) -> (mt: ModuleTool)
        requires
            scene.wf(),
        ensures
            mt.wf(),
            forall|a: Seq<char>| mt.has_alias(a) == scene.live_cap(a) is Some,
            forall|a: Seq<char>|
                #[trigger] scene.live_cap(a) matches Some(c) ==> mt.has_alias(a) && mt.cap_of(a)
                    == c,
    {
        scene.capability_entries()
    }

    pub(crate) fn from_entries(entries: Vec<(String, Capability)>) -> (mt: ModuleTool)
        ensures
            mt.entries_view() == entries@,
            mt.wf() == (forall|i: int, j: int|
                0 <= i < j < entries@.len() ==> #[trigger] entries@[i].0@ != #[trigger] entries@[
                    j].0@),
    {
        let ghost e0 = entries@;
        let mt = ModuleTool { entries };
        proof {
            assert(mt.entries@ == e0);
            if forall|i: int, j: int|
                0 <= i < j < e0.len() ==> #[trigger] e0[i].0@ != #[trigger] e0[j].0@ {
                assert forall|i: int, j: int|
                    0 <= i < j < mt.entries@.len() implies #[trigger] mt.entries@[i].0@
                    != #[trigger] mt.entries@[j].0@ by {
                    assert(e0[i].0@ != e0[j].0@);
                }
            }
            if mt.wf() {
                assert forall|i: int, j: int|
                    0 <= i < j < e0.len() implies #[trigger] e0[i].0@ != #[trigger] e0[j].0@ by {
                    assert(mt.entries@[i].0@ != mt.entries@[j].0@);
                }
            }
        }
        mt
    }

    pub(crate) proof fn lemma_entry(&self, i: int)
        requires
            self.wf(),
            0 <= i < self.entries_view().len(),
        ensures
            self.has_alias(self.entries_view()[i].0@),
            self.cap_of(self.entries_view()[i].0@) == self.entries_view()[i].1,
    {
        let a = self.entries@[i].0@;
        assert(self.has_alias(a));
        let j = choose|j: int| 0 <= j < self.entries@.len() && #[trigger] self.entries@[j].0@ == a;
        assert(j == i);
    }

    pub(crate) closed spec fn entries_view(&self) -> Seq<(String, Capability)> {
        self.entries@
    }

    pub(crate) proof fn lemma_alias_witness(&self, a: Seq<char>)
        requires
            self.wf(),
            self.has_alias(a),
        ensures
            exists|k: int|
                0 <= k < self.entries_view().len() && (#[trigger] self.entries_view()[k].0@) == a
                    && self.entries_view()[k].1 == self.cap_of(a),
    {
        let k = choose|k: int| 0 <= k < self.entries@.len() && #[trigger] self.entries@[k].0@ == a;
        self.lemma_entry(k);
        assert(0 <= k < self.entries_view().len() && (self.entries_view()[k].0@) == a
            && self.entries_view()[k].1 == self.cap_of(a));
    }

    /// Fetch a capability by alias and expected kind.  An unknown alias or a
    /// kind mismatch yields nothing; the consumer's use of the capability is
    /// then simply skipped — fails closed, never raises.
    pub fn access(&self, alias: &str, expected: CapKind) -> (r: Option<Capability>)
        requires
            self.wf(),
        ensures
            r == self.spec_access(alias@, expected),
    {
        let key: String = alias.to_owned();
        let n = self.entries.len();
        let mut i: usize = 0;
        while i < n
            invariant
                n == self.entries@.len(),
                i <= n,
                self.wf(),
                key@ == alias@,
                forall|j: int| 0 <= j < i ==> #[trigger] self.entries@[j].0@ != alias@,
            decreases n - i,
        {
            if self.entries[i].0 == key {
                proof {
                    self.lemma_entry(i as int);
                }
                let c = self.entries[i].1;
                if cap_matches(&c, expected) {
                    return Some(c);
                } else {
                    return None;
                }
            }
            i += 1;
        }
        None
    }
}

/// The exact effect of one behaviour's set-up call on the hub's
/// observable state: blocks and cameras act by their own effect functions;
/// every other behaviour leaves the hub untouched.
pub open spec fn behavior_init_view(
    b: Behavior,
    uuid: u128,
    disc: crate::scene::Discovery,
    v: crate::scene::HubView,
) -> crate::scene::HubView {
    match b {
        Behavior::Block(blk) => crate::block::block_init_view(blk, uuid, disc, v),
        Behavior::Camera(_) => if disc.broadcast {
            crate::scene::scene_broadcast_view(
                v,
                crate::scene::SceneEvent::SetCamera(uuid),
            )
        } else {
            v
        },
        _ => v,
    }
}

/// The exact effect of one element's set-up call on the hub's observable
/// state: a group runs its children in stored order, threading the state
/// through; the inert element does nothing.
pub open spec fn elem_init_view(
    e: Element,
    uuid: u128,
    disc: crate::scene::Discovery,
    v: crate::scene::HubView,
) -> crate::scene::HubView
    decreases e,
{
    match e {
        Element::Gen(b) => behavior_init_view(b, uuid, disc, v),
        Element::Module(b) => behavior_init_view(b, uuid, disc, v),
        Element::Group(children) => group_init_view(children@, uuid, disc, v),
        Element::Null => v,
    }
}

/// Set-up over a child list: each child's effect applies once, in order.
pub open spec fn group_init_view(
    children: Seq<Element>,
    uuid: u128,
    disc: crate::scene::Discovery,
    v: crate::scene::HubView,
) -> crate::scene::HubView
    decreases children,
{
    if children.len() == 0 {
        v
    } else {
        elem_init_view(
            children.last(),
            uuid,
            disc,
            group_init_view(children.drop_last(), uuid, disc, v),
        )
    }
}

/// How one behaviour changes across its per-frame logic call: a physics
/// module keeps its marker, an emitter steps its own particles, and every
/// other behaviour is untouched.
pub open spec fn behavior_pair_tick(b0: Behavior, b1: Behavior, td: i64) -> bool {
    match b0 {
        Behavior::Emitter(e0) => b1 matches Behavior::Emitter(e1) && emitter_step_rel(e0, e1, td),
        _ => b1 == b0,
    }
}

/// One emitter tick: one burst per queued request, then every particle
/// moved and aged, the expired ones dropped; the configuration stays.
pub open spec fn emitter_step_rel(e0: ParticleEmitter, e1: ParticleEmitter, td: i64) -> bool {
    &&& e1.data == e0.data
    &&& e1.particles@ == crate::particles::spec_particles_step(
        e0.particles@ + crate::particles::spec_bursts(e0.data, e0.inbox().len()),
        td,
    )
    &&& e1.inbox() == Seq::<crate::particles::ParticleEvent>::empty()
    &&& e1.alias_view() == e0.alias_view()
}

/// The exact effect of one behaviour's per-frame logic call on the hub's
/// observable state: only a physics module touches it, by one engine tick.
pub open spec fn behavior_tick_view(b: Behavior, td: i64, v: crate::scene::HubView) -> crate::scene::HubView {
    match b {
        Behavior::Pom(_) => crate::scene::pom_tick_view(v, td),
        _ => v,
    }
}

/// How one element changes across its per-frame logic call: the same
/// variant, with children stepped pairwise in order.
pub open spec fn elem_pair_tick(e0: Element, e1: Element, td: i64) -> bool
    decreases e0,
{
    match e0 {
        Element::Gen(b0) => e1 matches Element::Gen(b1) && behavior_pair_tick(b0, b1, td),
        Element::Module(b0) => e1 matches Element::Module(b1) && behavior_pair_tick(b0, b1, td),
        Element::Group(cs0) => e1 matches Element::Group(cs1) && cs1@.len() == cs0@.len() && (forall|
            i: int,
        |
            0 <= i < cs0@.len() ==> elem_pair_tick(#[trigger] cs0@[i], cs1@[i], td)),
        Element::Null => e1 == Element::Null,
    }
}

/// The exact effect of one element's per-frame logic call on the hub's
/// observable state.
pub open spec fn elem_tick_view(e: Element, td: i64, v: crate::scene::HubView) -> crate::scene::HubView
    decreases e,
{
    match e {
        Element::Gen(b) => behavior_tick_view(b, td, v),
        Element::Module(b) => behavior_tick_view(b, td, v),
        Element::Group(children) => group_tick_view(children@, td, v),
        Element::Null => v,
    }
}

/// The per-frame logic pass over a child list, in stored order.
pub open spec fn group_tick_view(children: Seq<Element>, td: i64, v: crate::scene::HubView) -> crate::scene::HubView
    decreases children,
{
    if children.len() == 0 {
        v
    } else {
        elem_tick_view(children.last(), td, group_tick_view(children.drop_last(), td, v))
    }
}

/// How one element changes across its flush call: no shipped behaviour
/// changes itself there, so the element keeps its value shape, pairwise
/// through groups.
pub open spec fn elem_pair_flush(e0: Element, e1: Element) -> bool
    decreases e0,
{
    match e0 {
        Element::Gen(b0) => e1 matches Element::Gen(b1) && b1 == b0,
        Element::Module(b0) => e1 matches Element::Module(b1) && b1 == b0,
        Element::Group(cs0) => e1 matches Element::Group(cs1) && cs1@.len() == cs0@.len() && (forall|
            i: int,
        |
            0 <= i < cs0@.len() ==> elem_pair_flush(#[trigger] cs0@[i], cs1@[i])),
        Element::Null => e1 == Element::Null,
    }
}

/// The exact effect of one behaviour's flush call on the hub's observable
/// state: only a physics module touches it, by one engine flush.
pub open spec fn behavior_flush_view(b: Behavior, v: crate::scene::HubView) -> crate::scene::HubView {
    match b {
        Behavior::Pom(_) => crate::scene::pom_flush_view(v),
        _ => v,
    }
}

/// The exact effect of one element's flush call on the hub's observable
/// state.
pub open spec fn elem_flush_view(e: Element, v: crate::scene::HubView) -> crate::scene::HubView
    decreases e,
{
    match e {
        Element::Gen(b) => behavior_flush_view(b, v),
        Element::Module(b) => behavior_flush_view(b, v),
        Element::Group(children) => group_flush_view(children@, v),
        Element::Null => v,
    }
}

/// The flush pass over a child list, in stored order.
pub open spec fn group_flush_view(children: Seq<Element>, v: crate::scene::HubView) -> crate::scene::HubView
    decreases children,
{
    if children.len() == 0 {
        v
    } else {
        elem_flush_view(children.last(), group_flush_view(children.drop_last(), v))
    }
}

/// The set-up effect equation of a child list between two hub states.
pub open spec fn group_init_effect(
    children: Seq<Element>,
    uuid: u128,
    mods: ModuleTool,
    h0: Hub,
    h1: Hub,
) -> bool {
    crate::scene::hub_view(h1) == group_init_view(
        children,
        uuid,
        crate::scene::discovery_of_mods(mods),
        crate::scene::hub_view(h0),
    )
}

/// The per-frame logic effect equation of a child list between two hub
/// states.
pub open spec fn group_tick_effect(children: Seq<Element>, td: i64, h0: Hub, h1: Hub) -> bool {
    crate::scene::hub_view(h1) == group_tick_view(children, td, crate::scene::hub_view(h0))
}

/// The flush effect equation of a child list between two hub states.
pub open spec fn group_flush_effect(children: Seq<Element>, h0: Hub, h1: Hub) -> bool {
    crate::scene::hub_view(h1) == group_flush_view(children, crate::scene::hub_view(h0))
}

/// The set-up effect equation between two hub states.
pub open spec fn elem_init_effect(e: Element, uuid: u128, mods: ModuleTool, h0: Hub, h1: Hub) -> bool {
    crate::scene::hub_view(h1) == elem_init_view(
        e,
        uuid,
        crate::scene::discovery_of_mods(mods),
        crate::scene::hub_view(h0),
    )
}

/// The per-frame logic effect equation between two hub states.
pub open spec fn elem_tick_effect(e: Element, td: i64, h0: Hub, h1: Hub) -> bool {
    crate::scene::hub_view(h1) == elem_tick_view(e, td, crate::scene::hub_view(h0))
}

/// The flush effect equation between two hub states.
pub open spec fn elem_flush_effect(e: Element, h0: Hub, h1: Hub) -> bool {
    crate::scene::hub_view(h1) == elem_flush_view(e, crate::scene::hub_view(h0))
}

impl Element {
    /// The one-time set-up pass, run after the owning scene has registered
    /// all initial entities: behaviours fetch capabilities and announce
    /// themselves.  A group delegates to all children in order.
    pub fn init(&mut self, uuid: u128, mods: &ModuleTool, hub: &mut Hub)
        requires
            mods.wf(),
            old(hub).wf(),
        ensures
            hub_init_frame(*old(hub), *final(hub)),
            same_kind(*old(self), *final(self)),
            elem_init_effect(*old(self), uuid, *mods, *old(hub), *final(hub)),
        decreases *old(self),
    {
        let mut tmp = Element::Null;
        core::mem::swap(self, &mut tmp);
        match tmp {
            Element::Gen(b) => {
                behavior_init(&b, uuid, mods, hub);
                proof {
                    assert(*old(self) == Element::Gen(b));
                    assert(elem_init_effect(*old(self), uuid, *mods, *old(hub), *hub));
                    assert(*hub == *final(hub));
                }
                *self = Element::Gen(b);
            },
            Element::Module(b) => {
                behavior_init(&b, uuid, mods, hub);
                proof {
                    assert(*old(self) == Element::Module(b));
                    assert(elem_init_effect(*old(self), uuid, *mods, *old(hub), *hub));
                    assert(*hub == *final(hub));
                }
                *self = Element::Module(b);
            },
            Element::Group(mut children) => {
                let ghost vec0 = children;
                let ghost orig = children@;
                let n = children.len();
                proof {
                    crate::scene::lemma_hub_init_frame_refl(*hub);
                    assert(orig.take(0) =~= Seq::<Element>::empty());
                }
                let mut i: usize = 0;
                while i < n
                    invariant
                        i <= n,
                        n == children@.len(),
                        orig.len() == n,
                        vec0@ == orig,
                        *old(self) == Element::Group(vec0),
                        mods.wf(),
                        hub.wf(),
                        hub_init_frame(*old(hub), *hub),
                        group_init_effect(orig.take(i as int), uuid, *mods, *old(hub), *hub),
                        forall|j: int| i <= j < n ==> #[trigger] children@[j] == orig[j],
                        forall|j: int| 0 <= j < i ==> same_kind(orig[j], #[trigger] children@[j]),
                    decreases n - i,
                {
                    let mut c = Element::Null;
                    core::mem::swap(&mut children[i], &mut c);
                    proof {
                        assert(decreases_to!(*old(self) => old(self)->Group_0));
                        assert(decreases_to!(old(self)->Group_0 => old(self)->Group_0@));
                        assert(decreases_to!(old(self)->Group_0@ => old(self)->Group_0@[i as int]));
                        assert(old(self)->Group_0@[i as int] == c);
                    }
                    let ghost hpre = *hub;
                    c.init(uuid, mods, hub);
                    proof {
                        crate::scene::lemma_hub_init_frame_trans(*old(hub), hpre, *hub);
                        assert(orig.take(i as int + 1).drop_last() =~= orig.take(i as int));
                        assert(orig.take(i as int + 1).last() == orig[i as int]);
                        assert(group_init_effect(
                            orig.take(i as int + 1),
                            uuid,
                            *mods,
                            *old(hub),
                            *hub,
                        ));
                    }
                    core::mem::swap(&mut children[i], &mut c);
                    i += 1;
                }
                *self = Element::Group(children);
                proof {
                    assert(same_kind(*old(self), *self));
                    assert(orig.take(n as int) =~= orig);
                    assert(group_init_effect(orig, uuid, *mods, *old(hub), *hub));
                    assert(elem_init_effect(*old(self), uuid, *mods, *old(hub), *hub));
                    assert(*hub == *final(hub));
                }
            },
            Element::Null => {
                *self = Element::Null;
                proof {
                    crate::scene::lemma_hub_init_frame_refl(*hub);
                    assert(elem_init_effect(*old(self), uuid, *mods, *old(hub), *hub));
                    assert(*hub == *final(hub));
                }
            },
        }
    }

    /// The per-frame logic pass.  A group delegates to all children in
    /// order.
    pub fn local_update(&mut self, td: i64, hub: &mut Hub)
        requires
            old(hub).wf(),
        ensures
            hub_tick_frame(*old(hub), *final(hub)),
            same_kind(*old(self), *final(self)),
            elem_pair_tick(*old(self), *final(self), td),
            elem_tick_effect(*old(self), td, *old(hub), *final(hub)),
        decreases *old(self),
    {
        let mut tmp = Element::Null;
        core::mem::swap(self, &mut tmp);
        match tmp {
            Element::Gen(mut b) => {
                let ghost b0 = b;
                behavior_local_update(&mut b, td, hub);
                proof {
                    assert(*old(self) == Element::Gen(b0));
                    assert(elem_tick_effect(*old(self), td, *old(hub), *hub));
                    assert(*hub == *final(hub));
                }
                *self = Element::Gen(b);
            },
            Element::Module(mut b) => {
                let ghost b0 = b;
                behavior_local_update(&mut b, td, hub);
                proof {
                    assert(*old(self) == Element::Module(b0));
                    assert(elem_tick_effect(*old(self), td, *old(hub), *hub));
                    assert(*hub == *final(hub));
                }
                *self = Element::Module(b);
            },
            Element::Group(mut children) => {
                let ghost vec0 = children;
                let ghost orig = children@;
                let n = children.len();
                proof {
                    crate::scene::lemma_hub_tick_frame_refl(*hub);
                    assert(orig.take(0) =~= Seq::<Element>::empty());
                    assert(children@.take(0) =~= Seq::<Element>::empty());
                }
                let mut i: usize = 0;
                while i < n
                    invariant
                        i <= n,
                        n == children@.len(),
                        orig.len() == n,
                        vec0@ == orig,
                        *old(self) == Element::Group(vec0),
                        hub.wf(),
                        hub_tick_frame(*old(hub), *hub),
                        group_tick_effect(orig.take(i as int), td, *old(hub), *hub),
                        forall|j: int| i <= j < n ==> #[trigger] children@[j] == orig[j],
                        forall|j: int| 0 <= j < i ==> same_kind(orig[j], #[trigger] children@[j]),
                        forall|j: int|
                            0 <= j < i ==> elem_pair_tick(orig[j], #[trigger] children@[j], td),
                    decreases n - i,
                {
                    let ghost entry_children = children@;
                    let mut c = Element::Null;
                    core::mem::swap(&mut children[i], &mut c);
                    proof {
                        assert(decreases_to!(*old(self) => old(self)->Group_0));
                        assert(decreases_to!(old(self)->Group_0 => old(self)->Group_0@));
                        assert(decreases_to!(old(self)->Group_0@ => old(self)->Group_0@[i as int]));
                        assert(old(self)->Group_0@[i as int] == c);
                    }
                    let ghost hpre = *hub;
                    c.local_update(td, hub);
                    core::mem::swap(&mut children[i], &mut c);
                    proof {
                        crate::scene::lemma_hub_tick_frame_trans(*old(hub), hpre, *hub);
                        assert(orig.take(i as int + 1).drop_last() =~= orig.take(i as int));
                        assert(orig.take(i as int + 1).last() == orig[i as int]);
                        assert(group_tick_effect(orig.take(i as int + 1), td, *old(hub), *hub));
                    }
                    i += 1;
                }
                *self = Element::Group(children);
                proof {
                    assert(same_kind(*old(self), *self));
                    assert(orig.take(n as int) =~= orig);
                    assert(elem_pair_tick(*old(self), *self, td));
                    assert(group_tick_effect(orig, td, *old(hub), *hub));
                    assert(elem_tick_effect(*old(self), td, *old(hub), *hub));
                    assert(*hub == *final(hub));
                }
            },
            Element::Null => {
                *self = Element::Null;
                proof {
                    crate::scene::lemma_hub_tick_frame_refl(*hub);
                    assert(elem_tick_effect(*old(self), td, *old(hub), *hub));
                    assert(*hub == *final(hub));
                }
            },
        }
    }

    /// The per-frame flush pass, run only after every entity's
    /// `local_update` has completed this tick.  A group delegates to all
    /// children in order.
    pub fn post_update(&mut self, hub: &mut Hub)
        requires
            old(hub).wf(),
        ensures
            hub_flush_frame(*old(hub), *final(hub)),
            same_kind(*old(self), *final(self)),
            elem_pair_flush(*old(self), *final(self)),
            elem_flush_effect(*old(self), *old(hub), *final(hub)),
        decreases *old(self),
    {
        let mut tmp = Element::Null;
        core::mem::swap(self, &mut tmp);
        match tmp {
            Element::Gen(mut b) => {
                let ghost b0 = b;
                behavior_post_update(&mut b, hub);
                proof {
                    assert(*old(self) == Element::Gen(b0));
                    assert(elem_flush_effect(*old(self), *old(hub), *hub));
                    assert(*hub == *final(hub));
                }
                *self = Element::Gen(b);
            },
            Element::Module(mut b) => {
                let ghost b0 = b;
                behavior_post_update(&mut b, hub);
                proof {
                    assert(*old(self) == Element::Module(b0));
                    assert(elem_flush_effect(*old(self), *old(hub), *hub));
                    assert(*hub == *final(hub));
                }
                *self = Element::Module(b);
            },
            Element::Group(mut children) => {
                let ghost vec0 = children;
                let ghost orig = children@;
                let n = children.len();
                proof {
                    crate::scene::lemma_hub_flush_frame_refl(*hub);
                    assert(orig.take(0) =~= Seq::<Element>::empty());
                    assert(children@.take(0) =~= Seq::<Element>::empty());
                }
                let mut i: usize = 0;
                while i < n
                    invariant
                        i <= n,
                        n == children@.len(),
                        orig.len() == n,
                        vec0@ == orig,
                        *old(self) == Element::Group(vec0),
                        hub.wf(),
                        hub_flush_frame(*old(hub), *hub),
                        group_flush_effect(orig.take(i as int), *old(hub), *hub),
                        forall|j: int| i <= j < n ==> #[trigger] children@[j] == orig[j],
                        forall|j: int| 0 <= j < i ==> same_kind(orig[j], #[trigger] children@[j]),
                        forall|j: int|
                            0 <= j < i ==> elem_pair_flush(orig[j], #[trigger] children@[j]),
                    decreases n - i,
                {
                    let ghost entry_children = children@;
                    let mut c = Element::Null;
                    core::mem::swap(&mut children[i], &mut c);
                    proof {
                        assert(decreases_to!(*old(self) => old(self)->Group_0));
                        assert(decreases_to!(old(self)->Group_0 => old(self)->Group_0@));
                        assert(decreases_to!(old(self)->Group_0@ => old(self)->Group_0@[i as int]));
                        assert(old(self)->Group_0@[i as int] == c);
                    }
                    let ghost hpre = *hub;
                    c.post_update(hub);
                    core::mem::swap(&mut children[i], &mut c);
                    proof {
                        crate::scene::lemma_hub_flush_frame_trans(*old(hub), hpre, *hub);
                        assert(orig.take(i as int + 1).drop_last() =~= orig.take(i as int));
                        assert(orig.take(i as int + 1).last() == orig[i as int]);
                        assert(group_flush_effect(orig.take(i as int + 1), *old(hub), *hub));
                    }
                    i += 1;
                }
                *self = Element::Group(children);
                proof {
                    assert(same_kind(*old(self), *self));
                    assert(orig.take(n as int) =~= orig);
                    assert(elem_pair_flush(*old(self), *self));
                    assert(group_flush_effect(orig, *old(hub), *hub));
                    assert(elem_flush_effect(*old(self), *old(hub), *hub));
                    assert(*hub == *final(hub));
                }
            },
            Element::Null => {
                *self = Element::Null;
                proof {
                    crate::scene::lemma_hub_flush_frame_refl(*hub);
                    assert(elem_flush_effect(*old(self), *old(hub), *hub));
                    assert(*hub == *final(hub));
                }
            },
        }
    }
}

/// Dispatch of the set-up pass over the behaviour set.
fn behavior_init(b: &Behavior, uuid: u128, mods: &ModuleTool, hub: &mut Hub)
    requires
        mods.wf(),
        old(hub).wf(),
    ensures
        hub_init_frame(*old(hub), *final(hub)),
        elem_init_effect(Element::Gen(*b), uuid, *mods, *old(hub), *final(hub)),
{
    match b {
        Behavior::Block(blk) => {
            blk.init(uuid, mods, hub);
        },
        Behavior::Camera(cam) => {
            cam.init(uuid, mods, hub);
        },
        _ => {
            proof {
                crate::scene::lemma_hub_init_frame_refl(*hub);
            }
        },
    }
}

/// Dispatch of the per-frame logic pass over the behaviour set.
fn behavior_local_update(b: &mut Behavior, td: i64, hub: &mut Hub)
    requires
        old(hub).wf(),
    ensures
        hub_tick_frame(*old(hub), *final(hub)),
        behavior_alias(*final(b)) == behavior_alias(*old(b)),
        behavior_capability(*final(b)) == behavior_capability(*old(b)),
        behavior_pair_tick(*old(b), *final(b), td),
        elem_tick_effect(Element::Gen(*old(b)), td, *old(hub), *final(hub)),
    {
    match b {
        Behavior::Pom(_) => {
            hub.pom.local_update(td);
            proof {
                crate::scene::lemma_queues_extend_refl(old(hub).scene_bus.queues());
                crate::scene::lemma_queues_extend_refl(old(hub).input.queues());
                assert(crate::scene::hub_view(*hub) =~~= crate::scene::pom_tick_view(
                    crate::scene::hub_view(*old(hub)),
                    td,
                ));
            }
        },
        Behavior::Emitter(em) => {
            em.local_update(td);
            proof {
                crate::scene::lemma_hub_tick_frame_refl(*hub);
            }
        },
        _ => {
            proof {
                crate::scene::lemma_hub_tick_frame_refl(*hub);
            }
        },
    }
}

/// Dispatch of the flush pass over the behaviour set.
fn behavior_post_update(b: &mut Behavior, hub: &mut Hub)
    requires
        old(hub).wf(),
    ensures
        hub_flush_frame(*old(hub), *final(hub)),
        behavior_alias(*final(b)) == behavior_alias(*old(b)),
        behavior_capability(*final(b)) == behavior_capability(*old(b)),
        *final(b) == *old(b),
        elem_flush_effect(Element::Gen(*old(b)), *old(hub), *final(hub)),
{
    match b {
        Behavior::Pom(_) => {
            hub.pom.post_update();
            proof {
                crate::scene::lemma_queues_extend_refl(old(hub).scene_bus.queues());
                assert(crate::scene::hub_view(*hub) =~~= crate::scene::pom_flush_view(
                    crate::scene::hub_view(*old(hub)),
                ));
            }
        },
        _ => {
            proof {
                crate::scene::lemma_hub_flush_frame_refl(*hub);
            }
        },
    }
}

/// The drawable chain an element produces, where it produces one.
pub open spec fn spec_sprite_view(e: Element) -> Option<Seq<SpriteNode>>
    decreases e,
{
    match e {
        Element::Gen(b) => spec_behavior_sprite_view(b),
        Element::Module(b) => spec_behavior_sprite_view(b),
        Element::Group(children) => Some(spec_group_chain(children@)),
        Element::Null => None,
    }
}

/// The drawable chain a behaviour produces, where it produces one.
pub open spec fn spec_behavior_sprite_view(b: Behavior) -> Option<Seq<SpriteNode>> {
    match b {
        Behavior::Block(blk) => Some(chain_view(blk.sprite)),
        Behavior::Emitter(em) => Some(crate::particles::spec_emitter_chain(em)),
        _ => None,
    }
}

/// A group's drawable chain: the empty head record, then the children's
/// chains concatenated in order, skipping children that produce none.
pub open spec fn spec_group_chain(children: Seq<Element>) -> Seq<SpriteNode>
    decreases children,
{
    if children.len() == 0 {
        seq![crate::sprite::empty_node()]
    } else {
        spec_group_chain(children.drop_last()) + match spec_sprite_view(children.last()) {
            Some(v) => v,
            None => Seq::<SpriteNode>::empty(),
        }
    }
}

impl Element {
    /// The element's drawable descriptor: a behaviour's own sprite, or, for
    /// a group, its children's sprites chained behind an empty head.
    pub fn sprite(&self) -> (r: Option<Sprite>)
        ensures
            match spec_sprite_view(*self) {
                Some(v) => r matches Some(s) && chain_view(s) == v,
                None => r is None,
            },
        decreases *self,
    {
        match self {
            Element::Gen(b) => behavior_sprite(b),
            Element::Module(b) => behavior_sprite(b),
            Element::Group(children) => {
                let mut s = Sprite::empty();
                let n = children.len();
                proof {
                    assert(chain_view(s) =~~= spec_group_chain(children@.take(0)));
                }
                let mut i: usize = 0;
                while i < n
                    invariant
                        n == children@.len(),
                        i <= n,
                        *self is Group,
                        (*self)->Group_0@ == children@,
                        chain_view(s) == spec_group_chain(children@.take(i as int)),
                    decreases n - i,
                {
                    proof {
                        assert(decreases_to!(*self => (*self)->Group_0));
                        assert(decreases_to!((*self)->Group_0 => (*self)->Group_0@));
                        assert(decreases_to!((*self)->Group_0@ => (*self)->Group_0@[i as int]));
                        assert(children@.take(i as int + 1).drop_last() =~= children@.take(
                            i as int,
                        ));
                        assert(children@.take(i as int + 1).last() == children@[i as int]);
                    }
                    let child = &children[i];
                    match child.sprite() {
                        Some(cs) => {
                            s.next(cs);
                        },
                        None => {},
                    }
                    i += 1;
                }
                proof {
                    assert(children@.take(n as int) =~= children@);
                }
                Some(s)
            },
            Element::Null => None,
        }
    }
}

/// Whether a template document can be loaded against this prototype: the
/// settings, where present, must follow the prototype behaviour's own
/// schema.  A mismatched settings payload is the one hard-failure path of
/// the document boundary, and is excluded here.
pub open spec fn load_ok(proto: Element, doc: crate::scene::Document) -> bool
    decreases proto,
{
    match proto {
        Element::Gen(b) => behavior_load_ok(b, doc),
        Element::Module(b) => behavior_load_ok(b, doc),
        Element::Group(children) => forall|i: int|
            0 <= i < children@.len() ==> load_ok(#[trigger] children@[i], doc),
        Element::Null => true,
    }
}

/// The per-behaviour schema check.
pub open spec fn behavior_load_ok(b: Behavior, doc: crate::scene::Document) -> bool {
    match b {
        Behavior::Block(_) => doc.settings is None || doc.settings matches Some(
            crate::scene::Settings::Block(_),
        ),
        Behavior::Camera(_) => doc.settings is None || doc.settings matches Some(
            crate::scene::Settings::Camera(_),
        ),
        Behavior::Emitter(_) => doc.settings is None || doc.settings matches Some(
            crate::scene::Settings::Emitter(_),
        ),
        _ => true,
    }
}

/// What loading a document against a prototype produces.
pub open spec fn load_rel(proto: Element, doc: crate::scene::Document, r: Element) -> bool
    decreases proto,
{
    match proto {
        Element::Gen(b) => behavior_load_rel(b, doc, r),
        Element::Module(b) => behavior_load_rel(b, doc, r),
        Element::Group(children) => r matches Element::Group(rs) && rs@.len() == children@.len()
            && (forall|i: int|
            0 <= i < children@.len() ==> load_rel(#[trigger] children@[i], doc, rs@[i])),
        Element::Null => r == Element::Null,
    }
}

/// The block a block settings payload describes.
pub open spec fn block_from_rel(bs: crate::scene::BlockSettings, nb: Block) -> bool {
    &&& nb.name@ == "block"@
    &&& nb.pos == bs.pos
    &&& nb.shape == bs.shape
    &&& nb.solid == bs.solid
    &&& nb.tags@ == bs.tags@
    &&& chain_view(nb.sprite) == seq![
        SpriteNode {
            pos: bs.pos,
            scale: bs.shape,
            depth: bs.depth,
            tex_indices: seq![seq![bs.sprite_index]],
            flip: false,
        },
    ]
}

/// The per-behaviour factory relation: what each behaviour's `load`
/// produces from a document.
pub open spec fn behavior_load_rel(b: Behavior, doc: crate::scene::Document, r: Element) -> bool {
    match b {
        Behavior::Block(_) => match doc.settings {
            None => r == Element::Null,
            Some(crate::scene::Settings::Block(bs)) => r matches Element::Gen(
                Behavior::Block(nb),
            ) && block_from_rel(bs, nb),
            _ => false,
        },
        Behavior::Camera(_) => match doc.settings {
            None => r matches Element::Gen(Behavior::Camera(c)) && c == (DefaultCamera {
                pos: crate::V2 { x: 0i64, y: 0i64 },
                scale: 20000i64,
                aspect: 1777i64,
            }),
            Some(crate::scene::Settings::Camera(cs)) => r == Element::Gen(Behavior::Camera(cs)),
            _ => false,
        },
        Behavior::Emitter(_) => match doc.settings {
            None => r matches Element::Module(Behavior::Emitter(em))
                && crate::particles::settings_default_shape(em.data) && em.particles@
                == crate::particles::spec_burst(em.data) && em.inbox() == Seq::<
                crate::particles::ParticleEvent,
            >::empty() && em.alias_view() == "particle"@,
            Some(crate::scene::Settings::Emitter(es)) => r matches Element::Module(
                Behavior::Emitter(em),
            ) && em.data == es && em.particles@ == crate::particles::spec_burst(es) && em.inbox()
                == Seq::<crate::particles::ParticleEvent>::empty() && em.alias_view()
                == "particle"@,
            _ => false,
        },
        Behavior::Pom(_) => r == Element::Module(Behavior::Pom(POMComponent)),
        Behavior::Input(_) => r == Element::Module(Behavior::Input(InputManager)),
        Behavior::Broadcast(_) => r == Element::Null,
        Behavior::Tags => r == Element::Null,
    }
}

impl Element {
    /// The pure template factory: build a fresh element from this prototype
    /// and a document.  The prototype itself is never mutated.  A prototype
    /// whose behaviour wants settings and finds none yields the inert
    /// element (or its own defaults, by its own schema).
    pub fn load(&self, data: &crate::scene::Document) -> (r: Element)
        requires
            load_ok(*self, *data),
        ensures
            load_rel(*self, *data, r),
        decreases *self,
    {
        match self {
            Element::Gen(b) => behavior_load(b, data),
            Element::Module(b) => behavior_load(b, data),
            Element::Group(children) => {
                let mut out: Vec<Element> = Vec::new();
                let n = children.len();
                let mut i: usize = 0;
                while i < n
                    invariant
                        n == children@.len(),
                        i <= n,
                        *self is Group,
                        (*self)->Group_0@ == children@,
                        load_ok(*self, *data),
                        out@.len() == i,
                        forall|j: int|
                            0 <= j < i ==> load_rel(#[trigger] children@[j], *data, out@[j]),
                    decreases n - i,
                {
                    proof {
                        assert(decreases_to!(*self => (*self)->Group_0));
                        assert(decreases_to!((*self)->Group_0 => (*self)->Group_0@));
                        assert(decreases_to!((*self)->Group_0@ => (*self)->Group_0@[i as int]));
                        assert(load_ok(children@[i as int], *data));
                    }
                    let child = &children[i];
                    out.push(child.load(data));
                    i += 1;
                }
                Element::Group(out)
            },
            Element::Null => Element::Null,
        }
    }

    /// Serialization is unimplemented for the behaviours of this core
    /// (`Group.save` deliberately so): every element saves to nothing.
    pub fn save(&self) -> (r: Option<crate::scene::Document>)
        ensures
            r is None,
    {
        None
    }

    /// The camera-projection contract: a camera behaviour's own transform,
    /// the identity for everything else.
    pub fn clip_matrix(&self, window_size: [u32; 2]) -> (r: crate::camera::ClipMatrix)
        ensures
            r == spec_elem_clip(*self, window_size[0], window_size[1]),
    {
        match self {
            Element::Gen(Behavior::Camera(c)) => c.clip_matrix(window_size),
            Element::Module(Behavior::Camera(c)) => c.clip_matrix(window_size),
            _ => crate::camera::ClipMatrix { sx: 1000, sy: 1000 },
        }
    }

    /// The camera-projection offset: a camera behaviour's position, zero
    /// for everything else.
    pub fn offset(&self) -> (r: crate::V2<i64>)
        ensures
            r == spec_elem_offset(*self),
    {
        match self {
            Element::Gen(Behavior::Camera(c)) => c.offset(),
            Element::Module(Behavior::Camera(c)) => c.offset(),
            _ => crate::V2 { x: 0, y: 0 },
        }
    }
}

/// The clip transform an element contributes.
pub open spec fn spec_elem_clip(e: Element, w: u32, h: u32) -> crate::camera::ClipMatrix {
    match e {
        Element::Gen(Behavior::Camera(c)) => crate::camera::spec_clip_matrix(c, w, h),
        Element::Module(Behavior::Camera(c)) => crate::camera::spec_clip_matrix(c, w, h),
        _ => crate::camera::identity_clip(),
    }
}

/// The offset an element contributes.
pub open spec fn spec_elem_offset(e: Element) -> crate::V2<i64> {
    match e {
        Element::Gen(Behavior::Camera(c)) => c.pos,
        Element::Module(Behavior::Camera(c)) => c.pos,
        _ => crate::V2 { x: 0i64, y: 0i64 },
    }
}

/// Dispatch of the template factory over the behaviour set.
fn behavior_load(b: &Behavior, data: &crate::scene::Document) -> (r: Element)
    requires
        behavior_load_ok(*b, *data),
    ensures
        behavior_load_rel(*b, *data, r),
{
    match b {
        Behavior::Block(_) => match &data.settings {
            None => Element::Null,
            Some(crate::scene::Settings::Block(bs)) => {
                let mut column: Vec<usize> = Vec::new();
                column.push(bs.sprite_index);
                let mut grid: Vec<Vec<usize>> = Vec::new();
                grid.push(column);
                let nb = Block {
                    name: "block".to_owned(),
                    pos: bs.pos,
                    shape: bs.shape,
                    solid: bs.solid,
                    sprite: Sprite {
                        pos: bs.pos,
                        scale: bs.shape,
                        depth: bs.depth,
                        tex_indices: grid,
                        next: None,
                        flip: false,
                    },
                    tags: crate::scene::clone_strings(&bs.tags),
                };
                proof {
                    assert(chain_view(nb.sprite) =~~= seq![
                        SpriteNode {
                            pos: bs.pos,
                            scale: bs.shape,
                            depth: bs.depth,
                            tex_indices: seq![seq![bs.sprite_index]],
                            flip: false,
                        },
                    ]);
                }
                Element::Gen(Behavior::Block(nb))
            },
            Some(_) => Element::Null,
        },
        Behavior::Camera(_) => match &data.settings {
            None => Element::Gen(Behavior::Camera(DefaultCamera::default())),
            Some(crate::scene::Settings::Camera(cs)) => Element::Gen(Behavior::Camera(*cs)),
            Some(_) => Element::Null,
        },
        Behavior::Emitter(_) => {
            let mut em = match &data.settings {
                Some(crate::scene::Settings::Emitter(es)) => ParticleEmitter {
                    data: es.dup(),
                    particles: Vec::new(),
                    receiver: crate::event::Receiver::new(),
                    id: "particle".to_owned(),
                },
                _ => ParticleEmitter::default(),
            };
            em.emit();
            proof {
                assert(em.particles@ =~= crate::particles::spec_burst(em.data));
            }
            Element::Module(Behavior::Emitter(em))
        },
        Behavior::Pom(_) => Element::Module(Behavior::Pom(POMComponent)),
        Behavior::Input(_) => Element::Module(Behavior::Input(InputManager)),
        Behavior::Broadcast(_) => Element::Null,
        Behavior::Tags => Element::Null,
    }
}

/// Dispatch of the drawable descriptor over the behaviour set.
fn behavior_sprite(b: &Behavior) -> (r: Option<Sprite>)
    ensures
        match spec_behavior_sprite_view(*b) {
            Some(v) => r matches Some(s) && chain_view(s) == v,
            None => r is None,
        },
{
    match b {
        Behavior::Block(blk) => Some(blk.sprite()),
        Behavior::Emitter(em) => Some(em.sprite()),
        _ => None,
    }
}

} // verus!
