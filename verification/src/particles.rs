use vstd::prelude::*;

verus! {

use crate::V2;
use crate::event::{BusEvent, Receiver};
use crate::physics::{apply_events, spec_individual_update, PhysObj, PhysObjSettings};
use crate::sprite::{chain_view, Sprite, SpriteNode};

/// The plain particle kind: no extra per-particle behaviour.
#[derive(Clone, Copy, Debug, Default)]
pub struct ParticleNormal;

/// One particle: a lifetime countdown and the body the integrator moves.
#[derive(Clone, Copy, Debug)]
pub struct Particle {
    pub timer: i64,
    pub max_life: i64,
    pub phys_obj: PhysObj,
}

impl Default for Particle {
    fn default() -> (r: Particle)
        ensures
            r.timer == 3 * crate::FX_ONE,
            r.max_life == 3 * crate::FX_ONE,
            r.phys_obj.pos == (V2 { x: 0i64, y: 0i64 }),
            r.phys_obj.shape == (V2 { x: 100i64, y: 100i64 }),
            r.phys_obj.velocity == (V2 { x: 0i64, y: 0i64 }),
            r.phys_obj.settings.gravity_strength == -500,
            r.phys_obj.settings.drag == (V2 { x: 250i64, y: 250i64 }),
    {
        Particle {
            timer: 3000,
            max_life: 3000,
            phys_obj: PhysObj {
                pos: V2 { x: 0, y: 0 },
                shape: V2 { x: 100, y: 100 },
                velocity: V2 { x: 0, y: 0 },
                settings: PhysObjSettings { gravity_strength: -500, drag: V2 { x: 250, y: 250 } },
            },
        }
    }
}

/// The requests an emitter understands on its channel.
#[derive(Clone, Copy, Debug)]
pub enum ParticleEvent {
    Emit,
}

impl BusEvent for ParticleEvent {
    fn dup(&self) -> (r: ParticleEvent)
        ensures
            r == *self,
    {
        *self
    }
}

/// The emitter's configuration.  `velocities` is the pool of launch
/// velocities a burst draws from, cycling when the burst is larger than the
/// pool; the host samples the pool when it configures the emitter.
pub struct ParticleEmitterSettings {
    pub base: Particle,
    pub origin: V2<i64>,
    pub count: u32,
    pub velocities: std::rc::Rc<Vec<V2<i64>>>,
    pub sprite_index: usize,
    pub sprite_depth: i64,
}

impl ParticleEmitterSettings {
    /// A copy equal to the original (the pool is shared).
    pub fn dup(&self) -> (r: ParticleEmitterSettings)
        ensures
            r == *self,
    {
        ParticleEmitterSettings {
            base: self.base,
            origin: self.origin,
            count: self.count,
            velocities: crate::dup_rc(&self.velocities),
            sprite_index: self.sprite_index,
            sprite_depth: self.sprite_depth,
        }
    }
}

impl Default for ParticleEmitterSettings {
    fn default() -> (r: ParticleEmitterSettings)
        ensures
            settings_default_shape(r),
    {
        ParticleEmitterSettings {
            base: Particle::default(),
            origin: V2 { x: 0, y: 0 },
            count: 20,
            velocities: std::rc::Rc::new(Vec::new()),
            sprite_index: 0,
            sprite_depth: 0,
        }
    }
}

impl Particle {
    /// The value `Particle::default` returns.
    pub open spec fn default_spec() -> Particle {
        Particle {
            timer: 3000,
            max_life: 3000,
            phys_obj: PhysObj {
                pos: V2 { x: 0i64, y: 0i64 },
                shape: V2 { x: 100i64, y: 100i64 },
                velocity: V2 { x: 0i64, y: 0i64 },
                settings: PhysObjSettings {
                    gravity_strength: -500i64,
                    drag: V2 { x: 250i64, y: 250i64 },
                },
            },
        }
    }
}

/// The particles one burst adds: `count` copies of the base particle, placed
/// at the origin, with launch velocities drawn from the pool in rotation.
pub open spec fn spec_burst(s: ParticleEmitterSettings) -> Seq<Particle> {
    Seq::new(
        s.count as nat,
        |i: int|
            Particle {
                phys_obj: PhysObj {
                    pos: s.origin,
                    velocity: if s.velocities@.len() == 0 {
                        s.base.phys_obj.velocity
                    } else {
                        s.velocities@[i % (s.velocities@.len() as int)]
                    },
                    ..s.base.phys_obj
                },
                ..s.base
            },
    )
}

/// One particle, one tick later: the integrator's unconditional events are
/// applied to its body; a particle whose timer had already run out is
/// dropped, any other ages by the time delta.
pub open spec fn spec_particle_step(p: Particle, td: i64) -> Option<Particle> {
    let moved = Particle {
        phys_obj: apply_events(p.phys_obj, spec_individual_update(p.phys_obj, td)),
        ..p
    };
    if p.timer < 0 {
        None
    } else {
        Some(Particle { timer: crate::clamp64(moved.timer - td) as i64, ..moved })
    }
}

/// A particle list, one tick later, order kept.
pub open spec fn spec_particles_step(ps: Seq<Particle>, td: i64) -> Seq<Particle>
    decreases ps.len(),
{
    if ps.len() == 0 {
        Seq::<Particle>::empty()
    } else {
        spec_particles_step(ps.drop_last(), td) + match spec_particle_step(ps.last(), td) {
            Some(p) => seq![p],
            None => Seq::<Particle>::empty(),
        }
    }
}

/// The emitter's drawable chain: the empty head record, then one record per
/// particle, placed and scaled like the particle's body.
pub open spec fn spec_emitter_chain(em: ParticleEmitter) -> Seq<SpriteNode> {
    seq![
        SpriteNode {
            pos: V2 { x: 0i64, y: 0i64 },
            scale: V2 { x: 0i64, y: 0i64 },
            depth: -crate::FX_ONE as i64,
            tex_indices: Seq::<Seq<usize>>::empty(),
            flip: false,
        },
    ] + Seq::new(
        em.particles@.len(),
        |i: int|
            SpriteNode {
                pos: em.particles@[i].phys_obj.pos,
                scale: em.particles@[i].phys_obj.shape,
                depth: em.data.sprite_depth,
                tex_indices: seq![seq![em.data.sprite_index]],
                flip: false,
            },
    )
}

/// What `ParticleEmitterSettings::default` promises of its result.
pub open spec fn settings_default_shape(r: ParticleEmitterSettings) -> bool {
    &&& r.base == Particle::default_spec()
    &&& r.origin == (V2 { x: 0i64, y: 0i64 })
    &&& r.count == 20u32
    &&& r.velocities@ == Seq::<V2<i64>>::empty()
    &&& r.sprite_index == 0
    &&& r.sprite_depth == 0
}

/// A module that owns a set of short-lived particles: each burst request on
/// its channel spawns a configured burst, and every tick moves and ages the
/// particles it owns, dropping the expired ones.
pub struct ParticleEmitter {
    pub data: ParticleEmitterSettings,
    pub particles: Vec<Particle>,
    pub receiver: Receiver<ParticleEvent>,
    pub id: String,
}

impl ParticleEmitter {
    /// The burst requests received and not yet consumed.
    pub open spec fn inbox(&self) -> Seq<ParticleEvent> {
        self.receiver@
    }

    /// The emitter's discovery alias.
    pub open spec fn alias_view(&self) -> Seq<char> {
        self.id@
    }

    pub fn default() -> (r: ParticleEmitter)
        ensures
            settings_default_shape(r.data),
            r.particles@ == Seq::<Particle>::empty(),
            r.inbox() == Seq::<ParticleEvent>::empty(),
            r.alias_view() == "particle"@,
    {
        ParticleEmitter {
            data: ParticleEmitterSettings::default(),
            particles: Vec::new(),
            receiver: Receiver::new(),
            id: "particle".to_owned(),
        }
    }

    /// Queue one burst request for the coming tick.
    pub fn request_emit(&mut self)
        ensures
            final(self).inbox() == old(self).inbox().push(ParticleEvent::Emit),
            final(self).data == old(self).data,
            final(self).particles@ == old(self).particles@,
            final(self).alias_view() == old(self).alias_view(),
    {
        self.receiver.receive(ParticleEvent::Emit);
    }

    /// Spawn one burst now.
    pub fn emit(&mut self)
        ensures
            final(self).particles@ == old(self).particles@ + spec_burst(old(self).data),
            final(self).data == old(self).data,
            final(self).receiver == old(self).receiver,
            final(self).id == old(self).id,
    {
        let pool_len = self.data.velocities.len();
        let count = self.data.count as usize;
        let ghost base_particles = self.particles@;
        let mut i: usize = 0;
        while i < count
            invariant
                i <= count,
                count == old(self).data.count as usize,
                self.data == old(self).data,
                pool_len == self.data.velocities@.len(),
                self.receiver == old(self).receiver,
                self.id == old(self).id,
                self.particles@.len() == base_particles.len() + i,
                forall|j: int|
                    0 <= j < base_particles.len() ==> #[trigger] self.particles@[j]
                        == base_particles[j],
                forall|k: int|
                    base_particles.len() <= k < self.particles@.len() ==> #[trigger] self.particles@[k]
                        == spec_burst(old(self).data)[k - base_particles.len()],
            decreases count - i,
        {
            let velocity: V2<i64> = if pool_len == 0 {
                self.data.base.phys_obj.velocity
            } else {
                let k = i % pool_len;
                self.data.velocities[k]
            };
            let p = Particle {
                phys_obj: PhysObj {
                    pos: self.data.origin,
                    velocity,
                    ..self.data.base.phys_obj
                },
                ..self.data.base
            };
            self.particles.push(p);
            i += 1;
        }
        proof {
            assert(self.particles@ =~= old(self).particles@ + spec_burst(old(self).data));
        }
    }

    /// One tick: consume the queued burst requests (one burst each), then
    /// move and age every particle, dropping the expired ones.
    pub fn local_update(&mut self, td: i64)
        ensures
            final(self).inbox() == Seq::<ParticleEvent>::empty(),
            final(self).data == old(self).data,
            final(self).alias_view() == old(self).alias_view(),
            final(self).particles@ == spec_particles_step(
                old(self).particles@ + spec_bursts(old(self).data, old(self).inbox().len() as nat),
                td,
            ),
    {
        let requests = self.receiver.poll();
        let rn = requests.len();
        proof {
            assert(spec_bursts(self.data, 0nat) =~= Seq::<Particle>::empty());
            assert(self.particles@ =~= old(self).particles@ + spec_bursts(self.data, 0nat));
        }
        let mut r: usize = 0;
        while r < rn
            invariant
                r <= rn,
                rn == old(self).inbox().len(),
                self.data == old(self).data,
                self.receiver@ == Seq::<ParticleEvent>::empty(),
                self.alias_view() == old(self).alias_view(),
                self.particles@ == old(self).particles@ + spec_bursts(self.data, r as nat),
            decreases rn - r,
        {
            self.emit();
            proof {
                assert(self.particles@ =~= old(self).particles@ + spec_bursts(
                    self.data,
                    r as nat + 1,
                ));
            }
            r += 1;
        }
        let ghost before_step = self.particles@;
        let mut survivors: Vec<Particle> = Vec::new();
        let pn = self.particles.len();
        proof {
            assert(before_step.take(0) =~= Seq::<Particle>::empty());
            assert(spec_particles_step(before_step.take(0), td) =~= Seq::<Particle>::empty());
        }
        let mut pi: usize = 0;
        while pi < pn
            invariant
                pi <= pn,
                pn == self.particles@.len(),
                self.particles@ == before_step,
                self.data == old(self).data,
                self.receiver@ == Seq::<ParticleEvent>::empty(),
                self.alias_view() == old(self).alias_view(),
                survivors@ == spec_particles_step(before_step.take(pi as int), td),
            decreases pn - pi,
        {
            proof {
                assert(before_step.take(pi as int + 1).drop_last() =~= before_step.take(pi as int));
                assert(before_step.take(pi as int + 1).last() == before_step[pi as int]);
            }
            let mut p = self.particles[pi];
            let moves = p.phys_obj.individual_update(td);
            let _leftover = p.phys_obj.update(moves);
            if p.timer >= 0 {
                p.timer = crate::sat_sub(p.timer, td);
                survivors.push(p);
            } else {
                // expired before this tick: dropped, exactly as the step
                // function says
            }
            proof {
                let stepped = spec_particle_step(before_step[pi as int], td);
                assert(survivors@ =~= spec_particles_step(before_step.take(pi as int + 1), td));
            }
            pi += 1;
        }
        proof {
            assert(before_step.take(pn as int) =~= before_step);
        }
        self.particles = survivors;
    }

    /// The emitter's drawable chain: an empty head, then one record per
    /// particle.
    pub fn sprite(&self) -> (r: Sprite)
        ensures
            chain_view(r) == spec_emitter_chain(*self),
    {
        let mut base = Sprite::empty();
        let n = self.particles.len();
        proof {
            assert(chain_view(base) =~~= spec_emitter_chain(*self).take(1));
        }
        let mut i: usize = 0;
        while i < n
            invariant
                i <= n,
                n == self.particles@.len(),
                chain_view(base) == spec_emitter_chain(*self).take(1 + i as int),
            decreases n - i,
        {
            let p = self.particles[i];
            let node = Sprite::single(self.data.sprite_index).with_pos(p.phys_obj.pos).with_scale(
                p.phys_obj.shape,
            ).with_depth(self.data.sprite_depth);
            base.next(node);
            proof {
                assert(chain_view(node) =~~= seq![spec_emitter_chain(*self)[1 + i as int]]);
                assert(chain_view(base) =~~= spec_emitter_chain(*self).take(1 + i as int + 1));
            }
            i += 1;
        }
        proof {
            assert(spec_emitter_chain(*self).take(1 + n as int) =~~= spec_emitter_chain(*self));
        }
        base
    }
}

/// The particles that `n` consecutive bursts of the same configuration add.
pub open spec fn spec_bursts(s: ParticleEmitterSettings, n: nat) -> Seq<Particle>
    decreases n,
{
    if n == 0 {
        Seq::<Particle>::empty()
    } else {
        spec_bursts(s, (n - 1) as nat) + spec_burst(s)
    }
}

} // verus!
