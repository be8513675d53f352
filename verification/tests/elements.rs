use std::rc::Rc;

use burge::block::Block;
use burge::element::{Behavior, Element};
use burge::particles::{ParticleEmitter, ParticleEmitterSettings};
use burge::scene::{Document, Settings};
use burge::sprite::Sprite;
use burge::V2;

#[test]
fn single_sprite_holds_one_cell() {
    let s = Sprite::single(5);
    assert_eq!(s.tex_indices, vec![vec![5usize]]);
    assert_eq!(s.scale.x, 1000);
    assert_eq!(s.depth, -1000);
    assert!(s.next.is_none());
}

#[test]
fn composite_sprite_builds_the_atlas_grid() {
    // a 2x3 rectangle from an 8-wide sheet starting at cell 10: column c
    // holds 10+c, 18+c, 26+c
    let s = Sprite::composite(10, V2 { x: 2, y: 3 }, 8);
    assert_eq!(s.tex_indices, vec![vec![10usize, 18, 26], vec![11, 19, 27]]);
}

#[test]
fn repeat_multiplies_the_grid() {
    let s = Sprite::single(4).repeat(3);
    assert_eq!(s.tex_indices, vec![vec![4usize], vec![4], vec![4]]);
    let once = Sprite::single(4).repeat(0);
    assert_eq!(once.tex_indices, vec![vec![4usize]]);
}

#[test]
fn next_appends_to_the_chain_tail() {
    let mut a = Sprite::single(1);
    a.next(Sprite::single(2));
    a.next(Sprite::single(3));
    let second = a.next.as_ref().expect("second link");
    let third = second.next.as_ref().expect("third link");
    assert_eq!(a.tex_indices, vec![vec![1usize]]);
    assert_eq!(second.tex_indices, vec![vec![2usize]]);
    assert_eq!(third.tex_indices, vec![vec![3usize]]);
    assert!(third.next.is_none());
}

#[test]
fn builders_configure_a_block() {
    let b = Block::new_stretched(V2 { x: 100, y: 200 }, V2 { x: 300, y: 400 }, 7)
        .with_depth(-500)
        .solid(true)
        .with_tag("wall".to_string());
    assert_eq!(b.pos.x, 100);
    assert_eq!(b.sprite.pos.x, 100);
    assert_eq!(b.sprite.scale.y, 400);
    assert_eq!(b.sprite.depth, -500);
    assert!(b.solid);
    assert_eq!(b.tags, vec!["wall".to_string()]);
    assert_eq!(b.sprite.tex_indices, vec![vec![7usize]]);
}

#[test]
fn group_sprite_chains_children_behind_an_empty_head() {
    let group = Element::Group(vec![
        Element::new_gen(Behavior::Block(Block::new_stretched(
            V2 { x: 0, y: 0 },
            V2 { x: 1000, y: 1000 },
            1,
        ))),
        Element::Null,
        Element::new_gen(Behavior::Block(Block::new_stretched(
            V2 { x: 2000, y: 0 },
            V2 { x: 1000, y: 1000 },
            2,
        ))),
    ]);
    let chain = group.sprite().expect("groups always produce a descriptor");
    // head: the empty sprite; then one link per drawing child
    assert_eq!(chain.scale.x, 0);
    let first = chain.next.as_ref().expect("first child");
    assert_eq!(first.tex_indices, vec![vec![1usize]]);
    let second = first.next.as_ref().expect("second child");
    assert_eq!(second.tex_indices, vec![vec![2usize]]);
    assert!(second.next.is_none());
    // the inert element draws nothing
    assert!(Element::Null.sprite().is_none());
}

#[test]
fn save_is_unimplemented_by_design() {
    let group = Element::Group(vec![Element::Null]);
    assert!(group.save().is_none());
    assert!(Element::Null.save().is_none());
}

#[test]
fn group_load_maps_the_factory_over_children() {
    let proto = Element::Group(vec![
        Element::new_gen(Behavior::Block(Block::default())),
        Element::Null,
    ]);
    let doc = Document {
        name: "block".to_string(),
        settings: Some(Settings::Block(burge::scene::BlockSettings {
            pos: V2 { x: 9, y: 9 },
            shape: V2 { x: 1, y: 1 },
            solid: false,
            depth: 0,
            sprite_index: 0,
            tags: Rc::new(Vec::new()),
        })),
    };
    match proto.load(&doc) {
        Element::Group(children) => {
            assert_eq!(children.len(), 2);
            assert!(matches!(&children[0], Element::Gen(Behavior::Block(b)) if b.pos.x == 9));
            assert!(matches!(&children[1], Element::Null));
        },
        _ => panic!("expected a group"),
    }
}

#[test]
fn camera_clip_matrix_widens_for_a_wider_window() {
    let cam = burge::camera::DefaultCamera::default();
    // twice as wide as the design aspect: ar = 3.554
    let clip = cam.clip_matrix([3200, 900]);
    let height = burge::sat_div(cam.scale, cam.aspect);
    let width = burge::sat_mul(height, 3555);
    assert_eq!(clip.sx, burge::sat_div(2000, width));
    assert_eq!(clip.sy, burge::sat_div(2000, height));
    // a zero-sized window degrades gracefully, not to a fault: the aspect
    // ratio reads as zero, the height divides away to zero
    let degenerate = cam.clip_matrix([0, 0]);
    assert_eq!(degenerate.sx, 100);
    assert_eq!(degenerate.sy, 0);
}

#[test]
fn emitter_bursts_draw_velocities_from_the_pool() {
    let mut em = ParticleEmitter::default();
    em.data = ParticleEmitterSettings {
        count: 5,
        origin: V2 { x: 100, y: 200 },
        velocities: Rc::new(vec![V2 { x: 10, y: 0 }, V2 { x: 0, y: 10 }]),
        ..em.data
    };
    em.emit();
    assert_eq!(em.particles.len(), 5);
    assert_eq!(em.particles[0].phys_obj.pos.x, 100);
    assert_eq!(em.particles[0].phys_obj.velocity.x, 10);
    assert_eq!(em.particles[1].phys_obj.velocity.y, 10);
    // the pool cycles
    assert_eq!(em.particles[2].phys_obj.velocity.x, 10);
}

#[test]
fn emitter_ages_and_drops_expired_particles() {
    let mut em = ParticleEmitter::default();
    em.data = ParticleEmitterSettings {
        count: 1,
        velocities: Rc::new(Vec::new()),
        ..em.data
    };
    em.request_emit();
    em.local_update(100);
    assert_eq!(em.particles.len(), 1);
    let timer0 = em.particles[0].timer;
    em.local_update(100);
    assert_eq!(em.particles[0].timer, timer0 - 100);
    // age past the lifetime: the particle survives the tick its timer
    // crosses zero and is dropped on the next one
    for _ in 0..40 {
        em.local_update(100);
    }
    assert!(em.particles.is_empty());
}

#[test]
fn vector_arithmetic_saturates_componentwise() {
    let a = V2 { x: 2000, y: -3000 };
    let b = V2 { x: 500, y: 500 };
    let sum = a.add(b);
    assert_eq!(sum.x, 2500);
    assert_eq!(sum.y, -2500);
    let diff = a.sub(b);
    assert_eq!(diff.x, 1500);
    assert_eq!(diff.y, -3500);
    let scaled = a.mul(2000);
    assert_eq!(scaled.x, 4000);
    assert_eq!(scaled.y, -6000);
    let pair = a.scale(V2 { x: 500, y: 1000 });
    assert_eq!(pair.x, 1000);
    assert_eq!(pair.y, -3000);
    let half = a.div(2000);
    assert_eq!(half.x, 1000);
    assert_eq!(half.y, -1500);
    let by_zero = a.div(0);
    assert_eq!(by_zero.x, 0);
    let z: V2<i64> = Default::default();
    assert_eq!(z.x, 0);
    assert_eq!(burge::V2::new(4, 5).y, 5);
}
