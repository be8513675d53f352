use vstd::prelude::*;

verus! {

use crate::V2;
use crate::element::{CapKind, Capability, ModuleTool};
use crate::physics::{PhysEvent, PhysObj, PhysObjSettings};
use crate::scene::{hub_init_frame, Hub};
use crate::sprite::Sprite;

/// A rectangular world block: a placed sprite that may also stand as a
/// static physics obstacle, and may carry tags.
pub struct Block {
    pub name: String,
    pub pos: V2<i64>,
    pub shape: V2<i64>,
    pub solid: bool,
    pub sprite: Sprite,
    pub tags: Vec<String>,
}

impl Default for Block {
    fn default() -> (r: Block)
        ensures
            r.name@ == "block"@,
            r.pos == (V2 { x: 0i64, y: 0i64 }),
            r.shape == (V2 { x: crate::FX_ONE, y: crate::FX_ONE }),
            r.solid == false,
            r.sprite.tex_indices@ == Seq::<Vec<usize>>::empty(),
            r.sprite.next is None,
            r.tags@ == Seq::<String>::empty(),
    {
        Block {
            name: "block".to_owned(),
            pos: V2 { x: 0, y: 0 },
            shape: V2 { x: 1000, y: 1000 },
            solid: false,
            sprite: Sprite::default(),
            tags: Vec::new(),
        }
    }
}

impl Block {
    /// A block whose sprite is one atlas cell stretched over its rectangle.
    pub fn new_stretched(pos: V2<i64>, shape: V2<i64>, index: usize) -> (r: Block)
        ensures
            r.name@ == "block"@,
            r.pos == pos,
            r.shape == shape,
            r.solid == false,
            r.tags@ == Seq::<String>::empty(),
            r.sprite.pos == pos,
            r.sprite.scale == shape,
            r.sprite.depth == 0,
            r.sprite.tex_indices@.len() == 1,
            r.sprite.tex_indices@[0]@ == seq![index],
            r.sprite.next is None,
            r.sprite.flip == false,
    {
        let mut column: Vec<usize> = Vec::new();
        column.push(index);
        let mut grid: Vec<Vec<usize>> = Vec::new();
        grid.push(column);
        Block {
            name: "block".to_owned(),
            pos,
            shape,
            solid: false,
            sprite: Sprite { pos, scale: shape, depth: 0, tex_indices: grid, next: None, flip: false },
            tags: Vec::new(),
        }
    }

    pub fn with_depth(self, depth: i64) -> (r: Block)
        ensures
            r == (Block { sprite: Sprite { depth, ..self.sprite }, ..self }),
    {
        let Block { name, pos, shape, solid, sprite, tags } = self;
        Block { name, pos, shape, solid, sprite: sprite.with_depth(depth), tags }
    }

    pub fn solid(self, is_solid: bool) -> (r: Block)
        ensures
            r == (Block { solid: is_solid, ..self }),
    {
        Block { solid: is_solid, ..self }
    }

    pub fn with_tag(self, tag: String) -> (r: Block)
        ensures
            r.tags@ == self.tags@.push(tag),
            r.name == self.name,
            r.pos == self.pos,
            r.shape == self.shape,
            r.solid == self.solid,
            r.sprite == self.sprite,
    {
        let Block { name, pos, shape, solid, sprite, mut tags } = self;
        tags.push(tag);
        Block { name, pos, shape, solid, sprite, tags }
    }

    /// The obstacle this block declares to the physics engine when solid:
    /// its rectangle, at rest, with default settings.
    pub open spec fn spec_obstacle(&self) -> PhysObj {
        PhysObj {
            pos: self.pos,
            shape: self.shape,
            velocity: V2 { x: 0i64, y: 0i64 },
            settings: PhysObjSettings { gravity_strength: -8000i64, drag: V2 { x: 0i64, y: 0i64 } },
        }
    }

    /// Set-up: a solid block that can discover the physics engine declares
    /// itself as a static obstacle; a block that can discover the tag table
    /// records its tags under its identifier.  Either discovery failing
    /// closed skips that step.
    pub fn init(&self, uuid: u128, mods: &ModuleTool, hub: &mut Hub)
        requires
            mods.wf(),
            old(hub).wf(),
        ensures
            final(hub).wf(),
            hub_init_frame(*old(hub), *final(hub)),
            spec_block_init(*self, uuid, *mods, *old(hub), *final(hub)),
            crate::scene::hub_view(*final(hub)) == block_init_view(
                *self,
                uuid,
                crate::scene::discovery_of_mods(*mods),
                crate::scene::hub_view(*old(hub)),
            ),
    {
        let ghost v0 = crate::scene::hub_view(*hub);
        let ghost disc = crate::scene::discovery_of_mods(*mods);
        if self.solid {
            match mods.access("pom", CapKind::Phys) {
                Some(Capability::Phys(pom)) => {
                    let obstacle = PhysObj {
                        pos: self.pos,
                        shape: self.shape,
                        velocity: V2 { x: 0, y: 0 },
                        settings: PhysObjSettings::default(),
                    };
                    pom.send(hub, PhysEvent::Static(Some(uuid), obstacle));
                    proof {
                        assert(crate::scene::hub_view(*hub) =~~= crate::scene::HubView {
                            pom_inbox: v0.pom_inbox.push(
                                PhysEvent::Static(Some(uuid), self.spec_obstacle()),
                            ),
                            ..v0
                        });
                    }
                },
                _ => {},
            }
        }
        let ghost v1 = crate::scene::hub_view(*hub);
        proof {
            assert(v1 == if self.solid && disc.pom {
                crate::scene::HubView {
                    pom_inbox: v0.pom_inbox.push(
                        PhysEvent::Static(Some(uuid), self.spec_obstacle()),
                    ),
                    ..v0
                }
            } else {
                v0
            });
        }
        match mods.access("uuid tags", CapKind::Tags) {
            Some(Capability::Tags) => {
                let copy = crate::scene::clone_strings(&self.tags);
                hub.tags.set_tags(&uuid, copy);
                proof {
                    assert(crate::scene::hub_view(*hub) =~~= crate::scene::HubView {
                        tags: v1.tags.insert(uuid, self.tags@.map_values(|t: String| t@)),
                        ..v1
                    });
                }
            },
            _ => {},
        }
    }

    /// The block's drawable descriptor.
    pub fn sprite(&self) -> (r: Sprite)
        ensures
            crate::sprite::chain_view(r) == crate::sprite::chain_view(self.sprite),
    {
        self.sprite.dup()
    }
}

/// The exact effect of a block's set-up call on the hub: where the physics
/// engine is discoverable and the block is solid, one static declaration
/// enters the engine's inbox; where the tag table is discoverable, the
/// block's tags are recorded under its identifier; nothing else changes.
pub open spec fn spec_block_init(blk: Block, uuid: u128, mods: ModuleTool, h0: Hub, h1: Hub) -> bool {
    let declares = blk.solid && mods.spec_access("pom"@, CapKind::Phys) is Some;
    let tagging = mods.spec_access("uuid tags"@, CapKind::Tags) is Some;
    &&& h1.scene_bus == h0.scene_bus
    &&& h1.input == h0.input
    &&& declares ==> h1.pom.inbox() == h0.pom.inbox().push(
        PhysEvent::Static(Some(uuid), blk.spec_obstacle()),
    )
    &&& !declares ==> h1.pom.inbox() == h0.pom.inbox()
    &&& h1.pom.statics_view() == h0.pom.statics_view()
    &&& h1.pom.queue_view() == h0.pom.queue_view()
    &&& forall|k: u128| h1.pom.out_has(k) == h0.pom.out_has(k)
    &&& forall|k: u128| h1.pom.out_q(k) == h0.pom.out_q(k)
    &&& tagging ==> h1.tags.tags_has(uuid) && h1.tags.tags_of(uuid) == blk.tags@.map_values(
        |t: String| t@,
    )
    &&& tagging ==> forall|k: u128|
        k != uuid ==> h1.tags.tags_has(k) == h0.tags.tags_has(k) && h1.tags.tags_of(k)
            == h0.tags.tags_of(k)
    &&& !tagging ==> h1.tags == h0.tags
}

/// The exact effect of a block's set-up call on the hub's observable
/// state: the static declaration entering the engine's inbox where the
/// engine is discoverable and the block solid, then the block's tags
/// recorded where the tag table is discoverable.
pub open spec fn block_init_view(
    blk: Block,
    uuid: u128,
    disc: crate::scene::Discovery,
    v: crate::scene::HubView,
) -> crate::scene::HubView {
    let v1 = if blk.solid && disc.pom {
        crate::scene::HubView {
            pom_inbox: v.pom_inbox.push(PhysEvent::Static(Some(uuid), blk.spec_obstacle())),
            ..v
        }
    } else {
        v
    };
    if disc.tags {
        crate::scene::HubView {
            tags: v1.tags.insert(uuid, blk.tags@.map_values(|t: String| t@)),
            ..v1
        }
    } else {
        v1
    }
}

} // verus!
