use vstd::prelude::*;

verus! {

use crate::{clamp64, fx_add, fx_mul, V2};
use crate::event::{BusEvent, Sender, Unlocked};

/// Per-body physics configuration.  `drag` is declared but deliberately not
/// applied by the integrator in this version.
#[derive(Clone, Copy, Debug)]
pub struct PhysObjSettings {
    pub gravity_strength: i64,
    pub drag: V2<i64>,
}

impl Default for PhysObjSettings {
    fn default() -> (r: PhysObjSettings)
        ensures
            r.gravity_strength == -8 * crate::FX_ONE,
            r.drag == (V2 { x: 0i64, y: 0i64 }),
    {
        PhysObjSettings { gravity_strength: -8000, drag: V2 { x: 0, y: 0 } }
    }
}

/// An axis-aligned rectangle with a velocity: position and extent name the
/// lower-left corner and the size.
#[derive(Clone, Copy, Debug)]
pub struct PhysObj {
    pub pos: V2<i64>,
    pub shape: V2<i64>,
    pub velocity: V2<i64>,
    pub settings: PhysObjSettings,
}

impl Default for PhysObj {
    fn default() -> (r: PhysObj)
        ensures
            r.pos == (V2 { x: 0i64, y: 0i64 }),
            r.shape == (V2 { x: crate::FX_ONE, y: crate::FX_ONE }),
            r.velocity == (V2 { x: 0i64, y: 0i64 }),
            r.settings.gravity_strength == -8 * crate::FX_ONE,
            r.settings.drag == (V2 { x: 0i64, y: 0i64 }),
    {
        PhysObj {
            pos: V2 { x: 0, y: 0 },
            shape: V2 { x: 1000, y: 1000 },
            velocity: V2 { x: 0, y: 0 },
            settings: PhysObjSettings::default(),
        }
    }
}

/// The currency of the physics channel: body declarations, collision
/// notices, and the mutation instructions the reducer understands.
#[derive(Clone, Copy, Debug)]
pub enum PhysEvent {
    Collision(Option<u128>, PhysObj),
    Static(Option<u128>, PhysObj),
    Dynamic(u128, PhysObj),
    ScalePos(V2<i64>),
    ModPos(V2<i64>),
    ScaleVelocity(V2<i64>),
    ModVelocity(V2<i64>),
    SetVelocity(V2<Option<i64>>),
}

impl BusEvent for PhysEvent {
    fn dup(&self) -> (r: PhysEvent)
        ensures
            r == *self,
    {
        *self
    }
}

/// Whether two rectangles, the first displaced by `delta`, overlap: they do
/// unless one of the four separating conditions holds.
pub open spec fn spec_overlap(a: PhysObj, b: PhysObj, dx: int, dy: int) -> bool {
    !(a.pos.x + dx > b.pos.x + b.shape.x || a.pos.x + a.shape.x + dx < b.pos.x || a.pos.y + dy
        > b.pos.y + b.shape.y || a.pos.y + a.shape.y + dy < b.pos.y)
}

/// The four directional gaps used by `nearest_delta`: how far `a` must move
/// left, right, down or up so that its facing edge meets the opposite edge
/// of `b`.
pub open spec fn gap_left(a: PhysObj, b: PhysObj) -> int {
    b.pos.x - (a.pos.x + a.shape.x)
}

pub open spec fn gap_right(a: PhysObj, b: PhysObj) -> int {
    (b.pos.x + b.shape.x) - a.pos.x
}

pub open spec fn gap_down(a: PhysObj, b: PhysObj) -> int {
    b.pos.y - (a.pos.y + a.shape.y)
}

pub open spec fn gap_up(a: PhysObj, b: PhysObj) -> int {
    (b.pos.y + b.shape.y) - a.pos.y
}

pub open spec fn iabs(v: int) -> int {
    if v < 0 {
        -v
    } else {
        v
    }
}

/// The horizontal candidate: whichever of the left/right gaps has the
/// smaller magnitude (the left one on a tie).
pub open spec fn spec_horizontal(a: PhysObj, b: PhysObj) -> int {
    if iabs(gap_left(a, b)) > iabs(gap_right(a, b)) {
        gap_right(a, b)
    } else {
        gap_left(a, b)
    }
}

/// The vertical candidate: whichever of the down/up gaps has the smaller
/// magnitude (the down one on a tie).
pub open spec fn spec_vertical(a: PhysObj, b: PhysObj) -> int {
    if iabs(gap_down(a, b)) > iabs(gap_up(a, b)) {
        gap_up(a, b)
    } else {
        gap_down(a, b)
    }
}

/// The separation vector `nearest_delta` returns: the candidate axis with
/// the overall smaller magnitude, the other component zero, saturated into
/// the i64 range.
pub open spec fn spec_nearest_delta(a: PhysObj, b: PhysObj) -> V2<i64> {
    if iabs(spec_horizontal(a, b)) < iabs(spec_vertical(a, b)) {
        V2 { x: clamp64(spec_horizontal(a, b)) as i64, y: 0i64 }
    } else {
        V2 { x: 0i64, y: clamp64(spec_vertical(a, b)) as i64 }
    }
}

/// The unconditional per-tick mutation events of one body: first the
/// position update from the current velocity, then, when gravity is set, the
/// velocity update from gravity.
pub open spec fn spec_individual_update(o: PhysObj, td: i64) -> Seq<PhysEvent> {
    let pos_ev = PhysEvent::ModPos(
        V2 {
            x: fx_mul(o.velocity.x as int, td as int) as i64,
            y: fx_mul(o.velocity.y as int, td as int) as i64,
        },
    );
    let grav_ev = PhysEvent::ModVelocity(
        V2 { x: 0i64, y: fx_mul(o.settings.gravity_strength as int, td as int) as i64 },
    );
    if o.settings.gravity_strength != 0 {
        seq![pos_ev, grav_ev]
    } else {
        seq![pos_ev]
    }
}

/// Whether the reducer recognizes an event as a mutation instruction.
pub open spec fn is_mutation(e: PhysEvent) -> bool {
    match e {
        PhysEvent::ScalePos(_) => true,
        PhysEvent::ModPos(_) => true,
        PhysEvent::ScaleVelocity(_) => true,
        PhysEvent::ModVelocity(_) => true,
        PhysEvent::SetVelocity(_) => true,
        _ => false,
    }
}

/// One reducer step: apply a recognized mutation to the body; leave the body
/// unchanged for any other event.
pub open spec fn apply_one(o: PhysObj, e: PhysEvent) -> PhysObj {
    match e {
        PhysEvent::ModPos(p) => PhysObj {
            pos: V2 {
                x: fx_add(o.pos.x as int, p.x as int) as i64,
                y: fx_add(o.pos.y as int, p.y as int) as i64,
            },
            ..o
        },
        PhysEvent::ModVelocity(v) => PhysObj {
            velocity: V2 {
                x: fx_add(o.velocity.x as int, v.x as int) as i64,
                y: fx_add(o.velocity.y as int, v.y as int) as i64,
            },
            ..o
        },
        PhysEvent::ScalePos(p) => PhysObj {
            pos: V2 {
                x: fx_mul(o.pos.x as int, p.x as int) as i64,
                y: fx_mul(o.pos.y as int, p.y as int) as i64,
            },
            ..o
        },
        PhysEvent::ScaleVelocity(v) => PhysObj {
            velocity: V2 {
                x: fx_mul(o.velocity.x as int, v.x as int) as i64,
                y: fx_mul(o.velocity.y as int, v.y as int) as i64,
            },
            ..o
        },
        PhysEvent::SetVelocity(v) => PhysObj {
            velocity: V2 {
                x: if v.x is Some {
                    v.x->0
                } else {
                    o.velocity.x
                },
                y: if v.y is Some {
                    v.y->0
                } else {
                    o.velocity.y
                },
            },
            ..o
        },
        _ => o,
    }
}

/// The reducer folded over an event list, in list order.
pub open spec fn apply_events(o: PhysObj, evs: Seq<PhysEvent>) -> PhysObj
    decreases evs.len(),
{
    if evs.len() == 0 {
        o
    } else {
        apply_events(apply_one(o, evs[0]), evs.drop_first())
    }
}

/// The events the reducer passes through untouched, in their original
/// relative order.
pub open spec fn spec_leftover(evs: Seq<PhysEvent>) -> Seq<PhysEvent>
    decreases evs.len(),
{
    if evs.len() == 0 {
        Seq::<PhysEvent>::empty()
    } else if is_mutation(evs[0]) {
        spec_leftover(evs.drop_first())
    } else {
        seq![evs[0]] + spec_leftover(evs.drop_first())
    }
}

impl PhysObj {
    /// The centre of the rectangle (components truncated toward zero).
    pub fn center(&self) -> (r: V2<i64>)
        ensures
            r.x == fx_add(self.pos.x as int, fx_mul(self.shape.x as int, 500)),
            r.y == fx_add(self.pos.y as int, fx_mul(self.shape.y as int, 500)),
    {
        V2 {
            x: crate::sat_add(self.pos.x, crate::sat_mul(self.shape.x, 500)),
            y: crate::sat_add(self.pos.y, crate::sat_mul(self.shape.y, 500)),
        }
    }

    /// Swept overlap test: would this rectangle, displaced by `delta`,
    /// overlap `other`?
    pub fn intersects(&self, other: &PhysObj, delta: V2<i64>) -> (r: bool)
        ensures
            r == spec_overlap(*self, *other, delta.x as int, delta.y as int),
    {
        let this_left: i128 = self.pos.x as i128 + delta.x as i128;
        let this_right: i128 = self.pos.x as i128 + self.shape.x as i128 + delta.x as i128;
        let this_bottom: i128 = self.pos.y as i128 + delta.y as i128;
        let this_top: i128 = self.pos.y as i128 + self.shape.y as i128 + delta.y as i128;

        let other_left: i128 = other.pos.x as i128;
        let other_right: i128 = other.pos.x as i128 + other.shape.x as i128;
        let other_bottom: i128 = other.pos.y as i128;
        let other_top: i128 = other.pos.y as i128 + other.shape.y as i128;

        !(this_left > other_right || this_right < other_left || this_bottom > other_top
            || this_top < other_bottom)
    }

    /// The shortest separation vector toward `other`: exactly one axis, the
    /// one with the smaller gap magnitude.
    pub fn nearest_delta(&self, other: &PhysObj) -> (r: V2<i64>)
        ensures
            r == spec_nearest_delta(*self, *other),
    {
        let left: i128 = other.pos.x as i128 - (self.pos.x as i128 + self.shape.x as i128);
        let right: i128 = (other.pos.x as i128 + other.shape.x as i128) - self.pos.x as i128;
        let down: i128 = other.pos.y as i128 - (self.pos.y as i128 + self.shape.y as i128);
        let up: i128 = (other.pos.y as i128 + other.shape.y as i128) - self.pos.y as i128;

        let horizontal: i128 = if abs128(left) > abs128(right) {
            right
        } else {
            left
        };
        let vertical: i128 = if abs128(down) > abs128(up) {
            up
        } else {
            down
        };

        if abs128(horizontal) < abs128(vertical) {
            V2 { x: clamp_to_i64(horizontal), y: 0 }
        } else {
            V2 { x: 0, y: clamp_to_i64(vertical) }
        }
    }

    /// The per-tick mutation events this body produces unconditionally.
    pub fn individual_update(&self, td: i64) -> (eq: Vec<PhysEvent>)
        ensures
            eq@ == spec_individual_update(*self, td),
    {
        let mut eq: Vec<PhysEvent> = Vec::new();
        eq.push(PhysEvent::ModPos(self.velocity.mul(td)));
        if self.settings.gravity_strength != 0 {
            eq.push(
                PhysEvent::ModVelocity(V2 { x: 0, y: crate::sat_mul(self.settings.gravity_strength, td) }),
            );
        }
        proof {
            assert(eq@ =~= spec_individual_update(*self, td));
        }
        eq
    }

    /// The event-sourced reducer: apply every recognized mutation in list
    /// order, each exactly once, and hand every other event back unchanged,
    /// in its original relative order.
    pub fn update(&mut self, events: Vec<PhysEvent>) -> (leftover: Vec<PhysEvent>)
        ensures
            *final(self) == apply_events(*old(self), events@),
            leftover@ == spec_leftover(events@),
    {
        let mut leftover: Vec<PhysEvent> = Vec::new();
        let n = events.len();
        proof {
            assert(events@.skip(0) =~= events@);
        }
        let mut i: usize = 0;
        while i < n
            invariant
                n == events@.len(),
                i <= n,
                apply_events(*old(self), events@) == apply_events(*self, events@.skip(i as int)),
                spec_leftover(events@) == leftover@ + spec_leftover(events@.skip(i as int)),
            decreases n - i,
        {
            let ghost rest = events@.skip(i as int);
            let ghost cur = *self;
            let ghost taken = leftover@;
            proof {
                assert(rest[0] == events@[i as int]);
                assert(rest.drop_first() =~= events@.skip(i as int + 1));
            }
            let e = events[i];
            match e {
                PhysEvent::ModPos(p) => {
                    self.pos = self.pos.add(p);
                },
                PhysEvent::ModVelocity(v) => {
                    self.velocity = self.velocity.add(v);
                },
                PhysEvent::ScalePos(p) => {
                    self.pos = self.pos.scale(p);
                },
                PhysEvent::ScaleVelocity(v) => {
                    self.velocity = self.velocity.scale(v);
                },
                PhysEvent::SetVelocity(v) => {
                    if let Some(x) = v.x {
                        self.velocity.x = x;
                    }
                    if let Some(y) = v.y {
                        self.velocity.y = y;
                    }
                },
                _ => {
                    leftover.push(e);
                },
            }
            proof {
                assert(*self == apply_one(cur, e));
                assert(apply_events(cur, rest) == apply_events(*self, rest.drop_first()));
                if !is_mutation(e) {
                    assert(leftover@ =~= taken + seq![e]);
                    assert(taken + spec_leftover(rest) =~= leftover@ + spec_leftover(
                        rest.drop_first(),
                    ));
                }
            }
            i += 1;
        }
        proof {
            assert(events@.skip(n as int) =~= Seq::<PhysEvent>::empty());
        }
        leftover
    }
}

fn abs128(v: i128) -> (r: i128)
    requires
        v > i128::MIN,
    ensures
        r == iabs(v as int),
{
    if v < 0 {
        -v
    } else {
        v
    }
}

fn clamp_to_i64(v: i128) -> (r: i64)
    ensures
        r == clamp64(v as int),
{
    if v > i64::MAX as i128 {
        i64::MAX
    } else if v < i64::MIN as i128 {
        i64::MIN
    } else {
        v as i64
    }
}

/// The dynamic bodies declared in one inbox, in arrival order.
pub open spec fn decl_dynamics(inbox: Seq<PhysEvent>) -> Seq<(u128, PhysObj)>
    decreases inbox.len(),
{
    if inbox.len() == 0 {
        Seq::<(u128, PhysObj)>::empty()
    } else {
        decl_dynamics(inbox.drop_last()) + match inbox.last() {
            PhysEvent::Dynamic(u, po) => seq![(u, po)],
            _ => Seq::<(u128, PhysObj)>::empty(),
        }
    }
}

/// The static obstacles declared in one inbox, in arrival order.
pub open spec fn decl_statics(inbox: Seq<PhysEvent>) -> Seq<(Option<u128>, PhysObj)>
    decreases inbox.len(),
{
    if inbox.len() == 0 {
        Seq::<(Option<u128>, PhysObj)>::empty()
    } else {
        decl_statics(inbox.drop_last()) + match inbox.last() {
            PhysEvent::Static(u, po) => seq![(u, po)],
            _ => Seq::<(Option<u128>, PhysObj)>::empty(),
        }
    }
}

/// The swept displacement of a body for one tick: velocity scaled by the
/// time delta.
pub open spec fn tick_delta(d: PhysObj, td: i64) -> V2<i64> {
    V2 {
        x: fx_mul(d.velocity.x as int, td as int) as i64,
        y: fx_mul(d.velocity.y as int, td as int) as i64,
    }
}

/// The collision notices a body collects against the static obstacles, in
/// list order.
pub open spec fn static_hits(d: PhysObj, statics: Seq<(Option<u128>, PhysObj)>, td: i64) -> Seq<
    PhysEvent,
>
    decreases statics.len(),
{
    if statics.len() == 0 {
        Seq::<PhysEvent>::empty()
    } else {
        static_hits(d, statics.drop_last(), td) + if spec_overlap(
            d,
            statics.last().1,
            tick_delta(d, td).x as int,
            tick_delta(d, td).y as int,
        ) {
            seq![PhysEvent::Collision(statics.last().0, statics.last().1)]
        } else {
            Seq::<PhysEvent>::empty()
        }
    }
}

/// The collision notices a body collects against the other dynamic bodies of
/// the same tick (itself excluded by identifier), in declaration order.
pub open spec fn dynamic_hits(uuid: u128, d: PhysObj, dyns: Seq<(u128, PhysObj)>, td: i64) -> Seq<
    PhysEvent,
>
    decreases dyns.len(),
{
    if dyns.len() == 0 {
        Seq::<PhysEvent>::empty()
    } else {
        dynamic_hits(uuid, d, dyns.drop_last(), td) + if dyns.last().0 != uuid && spec_overlap(
            d,
            dyns.last().1,
            tick_delta(d, td).x as int,
            tick_delta(d, td).y as int,
        ) {
            seq![PhysEvent::Collision(Some(dyns.last().0), dyns.last().1)]
        } else {
            Seq::<PhysEvent>::empty()
        }
    }
}

/// Everything one dynamic body is owed for one tick: its unconditional
/// mutations, then its hits against statics, then against the other
/// dynamics.
pub open spec fn body_events(
    uuid: u128,
    d: PhysObj,
    statics: Seq<(Option<u128>, PhysObj)>,
    dyns: Seq<(u128, PhysObj)>,
    td: i64,
) -> Seq<PhysEvent> {
    spec_individual_update(d, td) + static_hits(d, statics, td) + dynamic_hits(uuid, d, dyns, td)
}

/// The outgoing queues of one whole tick, one entry per declared dynamic
/// body, in declaration order.
pub open spec fn ticked_queue(
    dyns: Seq<(u128, PhysObj)>,
    statics: Seq<(Option<u128>, PhysObj)>,
    td: i64,
) -> Seq<(u128, Seq<PhysEvent>)> {
    Seq::new(dyns.len(), |i: int| (dyns[i].0, body_events(dyns[i].0, dyns[i].1, statics, dyns, td)))
}

/// What one flush owes the receiver registered under `k`: the concatenation
/// of every queued entry addressed to `k`, in queue order.
pub open spec fn deliveries(sq: Seq<(u128, Seq<PhysEvent>)>, k: u128) -> Seq<PhysEvent>
    decreases sq.len(),
{
    if sq.len() == 0 {
        Seq::<PhysEvent>::empty()
    } else {
        deliveries(sq.drop_last(), k) + if sq.last().0 == k {
            sq.last().1
        } else {
            Seq::<PhysEvent>::empty()
        }
    }
}

/// The physics engine: a module that ingests per-tick body declarations on
/// its inbound facet, predicts collisions by swept overlap tests, and
/// flushes each body's events to its registered routed receiver during the
/// post-update phase.  Statics are retained for the engine's lifetime;
/// dynamics live for the tick they are declared in.
pub struct PhysObjManager {
    sender: Sender<PhysEvent, Unlocked>,
    facet: Sender<PhysEvent, Unlocked>,
    receiver: usize,
    statics: Vec<(Option<u128>, PhysObj)>,
    send_queue: Vec<(u128, Vec<PhysEvent>)>,
}

impl PhysObjManager {
    pub closed spec fn wf(&self) -> bool {
        &&& self.sender.wf()
        &&& self.facet.wf()
        &&& self.receiver < self.facet.queues().len()
    }

    /// The declarations received and not yet consumed by a tick.
    pub closed spec fn inbox(&self) -> Seq<PhysEvent> {
        self.facet.queues()[self.receiver as int]
    }

    /// The retained static obstacles, in declaration order.
    pub closed spec fn statics_view(&self) -> Seq<(Option<u128>, PhysObj)> {
        self.statics@
    }

    /// The per-body outgoing queues accumulated and not yet flushed.
    pub closed spec fn queue_view(&self) -> Seq<(u128, Seq<PhysEvent>)> {
        self.send_queue@.map_values(|p: (u128, Vec<PhysEvent>)| (p.0, p.1@))
    }

    /// Whether a routed receiver is registered under `k` on the outbound
    /// channel.
    pub closed spec fn out_has(&self, k: u128) -> bool {
        self.sender.routed_has(k)
    }

    /// The queue of the routed receiver registered under `k`.
    pub closed spec fn out_q(&self, k: u128) -> Seq<PhysEvent> {
        self.sender.routed_q(k)
    }

    pub fn new() -> (m: PhysObjManager)
        ensures
            m.wf(),
            m.inbox() == Seq::<PhysEvent>::empty(),
            m.statics_view() == Seq::<(Option<u128>, PhysObj)>::empty(),
            m.queue_view() == Seq::<(u128, Seq<PhysEvent>)>::empty(),
            forall|k: u128| !m.out_has(k),
    {
        let mut facet: Sender<PhysEvent, Unlocked> = Sender::new();
        let receiver = facet.new_receiver();
        let m = PhysObjManager {
            sender: Sender::new(),
            facet,
            receiver,
            statics: Vec::new(),
            send_queue: Vec::new(),
        };
        proof {
            assert(m.queue_view() =~= Seq::<(u128, Seq<PhysEvent>)>::empty());
        }
        m
    }

    /// Declare a body (or hand the engine any other event) for the coming
    /// tick: the event is appended to the engine's inbox.
    pub fn declare(&mut self, e: PhysEvent)
        requires
            old(self).wf(),
        ensures
            final(self).wf(),
            final(self).inbox() == old(self).inbox().push(e),
            final(self).statics_view() == old(self).statics_view(),
            final(self).queue_view() == old(self).queue_view(),
            forall|k: u128| final(self).out_has(k) == old(self).out_has(k),
            forall|k: u128| final(self).out_q(k) == old(self).out_q(k),
    {
        self.facet.send(e);
    }

    /// Register a routed receiver for collision feedback; the engine will
    /// flush events addressed to the returned identifier into it.
    pub fn new_routed_receiver(&mut self, id: Option<u128>) -> (rid: u128)
        requires
            old(self).wf(),
        ensures
            final(self).wf(),
            id matches Some(u) ==> rid == u,
            final(self).out_has(rid),
            final(self).out_q(rid) == Seq::<PhysEvent>::empty(),
            forall|k: u128|
                k != rid ==> final(self).out_has(k) == old(self).out_has(k) && final(self).out_q(k)
                    == old(self).out_q(k),
            final(self).inbox() == old(self).inbox(),
            final(self).statics_view() == old(self).statics_view(),
            final(self).queue_view() == old(self).queue_view(),
    {
        self.sender.new_routed_receiver(id)
    }

    /// Drain the collision feedback addressed to `id`.
    pub fn poll_routed(&mut self, id: u128) -> (out: Vec<PhysEvent>)
        requires
            old(self).wf(),
        ensures
            final(self).wf(),
            out@ == old(self).out_q(id),
            final(self).out_q(id) == Seq::<PhysEvent>::empty(),
            forall|k: u128| final(self).out_has(k) == old(self).out_has(k),
            forall|k: u128| k != id ==> final(self).out_q(k) == old(self).out_q(k),
            final(self).inbox() == old(self).inbox(),
            final(self).statics_view() == old(self).statics_view(),
            final(self).queue_view() == old(self).queue_view(),
    {
        self.sender.poll_routed(id)
    }

    /// One tick: drain the inbox, retain the static declarations, take the
    /// dynamic declarations as this tick's snapshot, and append to the
    /// outgoing queue, per dynamic body, its mutation events followed by one
    /// collision notice per overlapping static and per overlapping other
    /// dynamic.
    pub fn local_update(&mut self, td: i64)
        requires
            old(self).wf(),
        ensures
            final(self).wf(),
            final(self).inbox() == Seq::<PhysEvent>::empty(),
            final(self).statics_view() == old(self).statics_view() + decl_statics(
                old(self).inbox(),
            ),
            final(self).queue_view() == old(self).queue_view() + ticked_queue(
                decl_dynamics(old(self).inbox()),
                old(self).statics_view() + decl_statics(old(self).inbox()),
                td,
            ),
            forall|k: u128| final(self).out_has(k) == old(self).out_has(k),
            forall|k: u128| final(self).out_q(k) == old(self).out_q(k),
    {
        let inbox: Vec<PhysEvent> = self.facet.poll_receiver(self.receiver);
        let ghost inbox0 = old(self).inbox();
        let ghost old_polled = *self;
        let mut dynamics: Vec<(u128, PhysObj)> = Vec::new();
        let n = inbox.len();
        proof {
            assert(inbox@.take(0) =~= Seq::<PhysEvent>::empty());
            assert(decl_dynamics(inbox@.take(0)) =~= Seq::<(u128, PhysObj)>::empty());
            assert(self.statics@ =~= old(self).statics@ + decl_statics(inbox@.take(0)));
        }
        let mut i: usize = 0;
        while i < n
            invariant
                n == inbox@.len(),
                i <= n,
                self.wf(),
                dynamics@ == decl_dynamics(inbox@.take(i as int)),
                self.statics@ == old(self).statics@ + decl_statics(inbox@.take(i as int)),
                self.inbox() == Seq::<PhysEvent>::empty(),
                self.receiver == old(self).receiver,
                self.sender == old(self).sender,
                self.facet == old_polled.facet,
                self.send_queue@ == old(self).send_queue@,
            decreases n - i,
        {
            proof {
                assert(inbox@.take(i as int + 1).drop_last() =~= inbox@.take(i as int));
                assert(inbox@.take(i as int + 1).last() == inbox@[i as int]);
            }
            match inbox[i] {
                PhysEvent::Dynamic(u, po) => {
                    dynamics.push((u, po));
                },
                PhysEvent::Static(u, po) => {
                    self.statics.push((u, po));
                },
                _ => {},
            }
            proof {
                assert(dynamics@ =~= decl_dynamics(inbox@.take(i as int + 1)));
                assert(self.statics@ =~= old(self).statics@ + decl_statics(
                    inbox@.take(i as int + 1),
                ));
            }
            i += 1;
        }
        proof {
            assert(inbox@.take(n as int) =~= inbox@);
        }
        let dn = dynamics.len();
        let ghost all_statics = self.statics@;
        let ghost base_queue = old(self).queue_view();
        let mut di: usize = 0;
        while di < dn
            invariant
                dn == dynamics@.len(),
                di <= dn,
                self.wf(),
                dynamics@ == decl_dynamics(inbox0),
                self.statics@ == all_statics,
                self.receiver == old(self).receiver,
                self.sender == old(self).sender,
                self.inbox() == Seq::<PhysEvent>::empty(),
                self.queue_view().len() == base_queue.len() + di,
                forall|j: int| 0 <= j < base_queue.len() ==> self.queue_view()[j] == base_queue[j],
                forall|j: int|
                    0 <= j < di ==> self.queue_view()[base_queue.len() + j] == (
                    dynamics@[j].0,
                    body_events(dynamics@[j].0, dynamics@[j].1, all_statics, dynamics@, td),
                ),
            decreases dn - di,
        {
            let (uuid, d) = dynamics[di];
            let delta = d.velocity.mul(td);
            let mut eq = d.individual_update(td);
            let sn = self.statics.len();
            proof {
                assert(self.statics@.take(0) =~= Seq::<(Option<u128>, PhysObj)>::empty());
                assert(eq@ =~= spec_individual_update(d, td) + static_hits(
                    d,
                    self.statics@.take(0),
                    td,
                ));
            }
            let mut si: usize = 0;
            while si < sn
                invariant
                    sn == self.statics@.len(),
                    si <= sn,
                    delta == tick_delta(d, td),
                    eq@ == spec_individual_update(d, td) + static_hits(
                        d,
                        self.statics@.take(si as int),
                        td,
                    ),
                decreases sn - si,
            {
                proof {
                    assert(self.statics@.take(si as int + 1).drop_last() =~= self.statics@.take(
                        si as int,
                    ));
                }
                let (s_uuid, s) = self.statics[si];
                if d.intersects(&s, delta) {
                    eq.push(PhysEvent::Collision(s_uuid, s));
                }
                proof {
                    assert(self.statics@.take(si as int + 1).last() == self.statics@[si as int]);
                    assert(eq@ =~= spec_individual_update(d, td) + static_hits(
                        d,
                        self.statics@.take(si as int + 1),
                        td,
                    ));
                }
                si += 1;
            }
            proof {
                assert(self.statics@.take(sn as int) =~= self.statics@);
                assert(dynamics@.take(0) =~= Seq::<(u128, PhysObj)>::empty());
            }
            let mut oi: usize = 0;
            while oi < dn
                invariant
                    dn == dynamics@.len(),
                    oi <= dn,
                    sn == self.statics@.len(),
                    delta == tick_delta(d, td),
                    eq@ == spec_individual_update(d, td) + static_hits(d, self.statics@, td)
                        + dynamic_hits(uuid, d, dynamics@.take(oi as int), td),
                decreases dn - oi,
            {
                proof {
                    assert(dynamics@.take(oi as int + 1).drop_last() =~= dynamics@.take(oi as int));
                }
                let (ou, od) = dynamics[oi];
                if uuid != ou && d.intersects(&od, delta) {
                    eq.push(PhysEvent::Collision(Some(ou), od));
                }
                proof {
                    assert(dynamics@.take(oi as int + 1).last() == dynamics@[oi as int]);
                    assert(eq@ =~= spec_individual_update(d, td) + static_hits(d, self.statics@, td)
                        + dynamic_hits(uuid, d, dynamics@.take(oi as int + 1), td));
                }
                oi += 1;
            }
            proof {
                assert(dynamics@.take(dn as int) =~= dynamics@);
                assert(eq@ =~= body_events(uuid, d, self.statics@, dynamics@, td));
            }
            self.send_queue.push((uuid, eq));
            di += 1;
        }
        proof {
            assert(self.queue_view() =~= old(self).queue_view() + ticked_queue(
                decl_dynamics(inbox0),
                all_statics,
                td,
            ));
        }
    }

    /// The flush phase: hand every queued entry to the routed receiver
    /// registered under its identifier, in queue order, and empty the queue.
    /// Bodies without a registered receiver receive nothing.
    pub fn post_update(&mut self)
        requires
            old(self).wf(),
        ensures
            final(self).wf(),
            final(self).queue_view() == Seq::<(u128, Seq<PhysEvent>)>::empty(),
            final(self).inbox() == old(self).inbox(),
            final(self).statics_view() == old(self).statics_view(),
            forall|k: u128| final(self).out_has(k) == old(self).out_has(k),
            forall|k: u128|
                old(self).out_has(k) ==> final(self).out_q(k) == old(self).out_q(k) + deliveries(
                    old(self).queue_view(),
                    k,
                ),
            forall|k: u128| !old(self).out_has(k) ==> final(self).out_q(k) == old(self).out_q(k),
    {
        let qn = self.send_queue.len();
        let ghost sq = old(self).queue_view();
        proof {
            assert(sq.take(0) =~= Seq::<(u128, Seq<PhysEvent>)>::empty());
            assert forall|k: u128| #[trigger] old(self).out_q(k) + deliveries(sq.take(0), k) =~= old(
                self,
            ).out_q(k) by {
                assert(deliveries(sq.take(0), k) =~= Seq::<PhysEvent>::empty());
            }
        }
        let mut j: usize = 0;
        while j < qn
            invariant
                qn == self.send_queue@.len(),
                j <= qn,
                self.wf(),
                sq == self.queue_view(),
                self.send_queue@ == old(self).send_queue@,
                self.facet == old(self).facet,
                self.statics@ == old(self).statics@,
                self.receiver == old(self).receiver,
                forall|k: u128| self.out_has(k) == old(self).out_has(k),
                forall|k: u128|
                    old(self).out_has(k) ==> self.out_q(k) == old(self).out_q(k) + deliveries(
                        sq.take(j as int),
                        k,
                    ),
                forall|k: u128| !old(self).out_has(k) ==> self.out_q(k) == old(self).out_q(k),
            decreases qn - j,
        {
            let uuid = self.send_queue[j].0;
            let en = self.send_queue[j].1.len();
            let ghost evs = self.send_queue@[j as int].1@;
            let ghost entry_base_q = self.sender;
            proof {
                assert(evs.take(0) =~= Seq::<PhysEvent>::empty());
                if self.out_has(uuid) {
                    assert(self.out_q(uuid) + evs.take(0) =~= self.out_q(uuid));
                }
            }
            let mut ei: usize = 0;
            while ei < en
                invariant
                    j < qn,
                    qn == self.send_queue@.len(),
                    en == self.send_queue@[j as int].1@.len(),
                    ei <= en,
                    evs == self.send_queue@[j as int].1@,
                    self.wf(),
                    self.send_queue@ == old(self).send_queue@,
                    self.facet == old(self).facet,
                    self.statics@ == old(self).statics@,
                    self.receiver == old(self).receiver,
                    forall|k: u128| self.out_has(k) == entry_base_q.routed_has(k),
                    forall|k: u128|
                        entry_base_q.routed_has(k) && k != uuid ==> self.out_q(k)
                            == entry_base_q.routed_q(k),
                    entry_base_q.routed_has(uuid) ==> self.out_q(uuid) == entry_base_q.routed_q(
                        uuid,
                    ) + evs.take(ei as int),
                    forall|k: u128|
                        !entry_base_q.routed_has(k) ==> self.out_q(k) == entry_base_q.routed_q(k),
                decreases en - ei,
            {
                proof {
                    assert(evs.take(ei as int + 1).drop_last() =~= evs.take(ei as int));
                }
                let ev = self.send_queue[j].1[ei];
                self.sender.route(uuid, ev);
                proof {
                    if entry_base_q.routed_has(uuid) {
                        assert(self.out_q(uuid) =~= entry_base_q.routed_q(uuid) + evs.take(
                            ei as int + 1,
                        ));
                    }
                }
                ei += 1;
            }
            proof {
                assert(evs.take(en as int) =~= evs);
                assert(sq.take(j as int + 1).drop_last() =~= sq.take(j as int));
                assert(sq.take(j as int + 1).last() == sq[j as int]);
                assert(sq[j as int].0 == uuid && sq[j as int].1 == evs);
                assert forall|k: u128| old(self).out_has(k) implies self.out_q(k) == old(
                    self,
                ).out_q(k) + deliveries(sq.take(j as int + 1), k) by {
                    if k == uuid {
                        assert(self.out_q(k) =~= old(self).out_q(k) + deliveries(
                            sq.take(j as int + 1),
                            k,
                        ));
                    } else {
                        assert(self.out_q(k) =~= old(self).out_q(k) + deliveries(
                            sq.take(j as int + 1),
                            k,
                        ));
                    }
                }
            }
            j += 1;
        }
        proof {
            assert(sq.take(qn as int) =~= sq);
        }
        self.send_queue.clear();
        proof {
            assert(self.queue_view() =~= Seq::<(u128, Seq<PhysEvent>)>::empty());
        }
    }
}

/// The capability the physics engine exposes: a facet for declaring bodies
/// and a registration point for collision feedback, both addressed through
/// the scene's service hub.
#[derive(Clone, Copy, Debug)]
pub struct POMComponent;

impl POMComponent {
    pub fn default() -> (r: POMComponent)
        ensures
            r == POMComponent,
    {
        POMComponent
    }

    /// Hand a declaration (or any other event) to the engine's inbox.
    pub fn send(&self, hub: &mut crate::scene::Hub, e: PhysEvent)
        requires
            old(hub).wf(),
        ensures
            final(hub).wf(),
            final(hub).pom.inbox() == old(hub).pom.inbox().push(e),
            final(hub).pom.statics_view() == old(hub).pom.statics_view(),
            final(hub).pom.queue_view() == old(hub).pom.queue_view(),
            forall|k: u128| final(hub).pom.out_has(k) == old(hub).pom.out_has(k),
            forall|k: u128| final(hub).pom.out_q(k) == old(hub).pom.out_q(k),
            final(hub).scene_bus == old(hub).scene_bus,
            final(hub).input == old(hub).input,
            final(hub).tags == old(hub).tags,
    {
        hub.pom.declare(e);
    }

    /// Register a routed receiver for collision feedback.
    pub fn new_routed_receiver(&self, hub: &mut crate::scene::Hub, id: Option<u128>) -> (rid:
        u128)
        requires
            old(hub).wf(),
        ensures
            final(hub).wf(),
            id matches Some(u) ==> rid == u,
            final(hub).pom.out_has(rid),
            final(hub).pom.out_q(rid) == Seq::<PhysEvent>::empty(),
            forall|k: u128|
                k != rid ==> final(hub).pom.out_has(k) == old(hub).pom.out_has(k) && final(hub).pom.out_q(k) == old(hub).pom.out_q(k),
            final(hub).pom.inbox() == old(hub).pom.inbox(),
            final(hub).pom.statics_view() == old(hub).pom.statics_view(),
            final(hub).pom.queue_view() == old(hub).pom.queue_view(),
            final(hub).scene_bus == old(hub).scene_bus,
            final(hub).input == old(hub).input,
            final(hub).tags == old(hub).tags,
    {
        hub.pom.new_routed_receiver(id)
    }

    /// Drain the collision feedback addressed to `id`.
    pub fn poll_routed(&self, hub: &mut crate::scene::Hub, id: u128) -> (out: Vec<PhysEvent>)
        requires
            old(hub).wf(),
        ensures
            final(hub).wf(),
            out@ == old(hub).pom.out_q(id),
            final(hub).pom.out_q(id) == Seq::<PhysEvent>::empty(),
            forall|k: u128| final(hub).pom.out_has(k) == old(hub).pom.out_has(k),
            forall|k: u128| k != id ==> final(hub).pom.out_q(k) == old(hub).pom.out_q(k),
            final(hub).pom.inbox() == old(hub).pom.inbox(),
            final(hub).pom.statics_view() == old(hub).pom.statics_view(),
            final(hub).pom.queue_view() == old(hub).pom.queue_view(),
            final(hub).scene_bus == old(hub).scene_bus,
            final(hub).input == old(hub).input,
            final(hub).tags == old(hub).tags,
    {
        hub.pom.poll_routed(id)
    }
}

/// Law: overlap prediction is symmetric.  Judging `a` against `b` under a
/// prospective displacement gives the same verdict as judging `b` against
/// `a` under the opposite displacement.
pub proof fn lemma_overlap_symmetric(a: PhysObj, b: PhysObj, dx: int, dy: int)
    ensures
        spec_overlap(a, b, dx, dy) == spec_overlap(b, a, -dx, -dy),
{
}

/// Law: when all four gaps are non-zero and within the i64 range, the
/// separation vector has exactly one non-zero component, and that component's
/// magnitude is the smaller of the two gap magnitudes on its axis.
pub proof fn lemma_nearest_delta_single_axis(a: PhysObj, b: PhysObj)
    requires
        gap_left(a, b) != 0,
        gap_right(a, b) != 0,
        gap_down(a, b) != 0,
        gap_up(a, b) != 0,
        iabs(gap_left(a, b)) <= i64::MAX as int,
        iabs(gap_right(a, b)) <= i64::MAX as int,
        iabs(gap_down(a, b)) <= i64::MAX as int,
        iabs(gap_up(a, b)) <= i64::MAX as int,
    ensures
        (spec_nearest_delta(a, b).x == 0) != (spec_nearest_delta(a, b).y == 0),
        spec_nearest_delta(a, b).x != 0 ==> iabs(spec_nearest_delta(a, b).x as int) == if iabs(
            gap_left(a, b),
        ) <= iabs(gap_right(a, b)) {
            iabs(gap_left(a, b))
        } else {
            iabs(gap_right(a, b))
        },
        spec_nearest_delta(a, b).y != 0 ==> iabs(spec_nearest_delta(a, b).y as int) == if iabs(
            gap_down(a, b),
        ) <= iabs(gap_up(a, b)) {
            iabs(gap_down(a, b))
        } else {
            iabs(gap_up(a, b))
        },
{
}

/// Law: the reducer over an empty event list leaves a body unchanged and
/// produces no leftovers.
pub proof fn lemma_reducer_empty(o: PhysObj)
    ensures
        apply_events(o, Seq::<PhysEvent>::empty()) == o,
        spec_leftover(Seq::<PhysEvent>::empty()) == Seq::<PhysEvent>::empty(),
{
}

/// Law: one position-delta event whose sums stay in range moves the position
/// by exactly that delta, changes nothing else, and leaves no leftovers.
pub proof fn lemma_reducer_single_pos_delta(o: PhysObj, d: V2<i64>)
    requires
        i64::MIN <= o.pos.x + d.x <= i64::MAX,
        i64::MIN <= o.pos.y + d.y <= i64::MAX,
    ensures
        apply_events(o, seq![PhysEvent::ModPos(d)]) == (PhysObj {
            pos: V2 { x: (o.pos.x + d.x) as i64, y: (o.pos.y + d.y) as i64 },
            ..o
        }),
        spec_leftover(seq![PhysEvent::ModPos(d)]) == Seq::<PhysEvent>::empty(),
{
    let evs = seq![PhysEvent::ModPos(d)];
    assert(evs.drop_first() =~= Seq::<PhysEvent>::empty());
    assert(evs[0] == PhysEvent::ModPos(d));
    assert(apply_events(apply_one(o, evs[0]), Seq::<PhysEvent>::empty()) == apply_one(o, evs[0]));
    assert(spec_leftover(Seq::<PhysEvent>::empty()) == Seq::<PhysEvent>::empty());
}

/// Law: a list made only of unrecognized events leaves the body untouched
/// and reappears unchanged, in its original order, as leftover.
pub proof fn lemma_reducer_passthrough(o: PhysObj, evs: Seq<PhysEvent>)
    requires
        forall|i: int| 0 <= i < evs.len() ==> !is_mutation(#[trigger] evs[i]),
    ensures
        apply_events(o, evs) == o,
        spec_leftover(evs) == evs,
    decreases evs.len(),
{
    if evs.len() == 0 {
    } else {
        assert(!is_mutation(evs[0]));
        assert(apply_one(o, evs[0]) == o);
        lemma_reducer_passthrough(o, evs.drop_first());
        assert(seq![evs[0]] + evs.drop_first() =~= evs);
    }
}

} // verus!
