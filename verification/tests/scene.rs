use std::rc::Rc;

use burge::block::Block;
use burge::element::{Behavior, CapKind, Capability, Element, ModuleBehavior};
use burge::physics::{PhysEvent, POMComponent};
use burge::scene::{
    BlockSettings, Document, JSONManager, Scene, SceneBroadcastComponent, SceneDoc, SceneEvent,
    Settings, UuidTags,
};
use burge::V2;

fn block_doc(px: i64, py: i64, solid: bool) -> Document {
    Document {
        name: "block".to_string(),
        settings: Some(Settings::Block(BlockSettings {
            pos: V2 { x: px, y: py },
            shape: V2 { x: 1000, y: 1000 },
            solid,
            depth: 0,
            sprite_index: 3,
            tags: Rc::new(vec!["wall".to_string()]),
        })),
    }
}

fn registry_with_block() -> JSONManager {
    let mut json = JSONManager::new();
    json.element_names.push(("block".to_string(), Element::new_gen(Behavior::Block(Block::default()))));
    json
}

#[test]
fn a_fresh_scene_exposes_the_baseline_modules() {
    let scene = Scene::new();
    let mods = scene.module_tool();
    assert!(matches!(
        mods.access("scene broadcast", CapKind::SceneChannel),
        Some(Capability::SceneChannel(_))
    ));
    assert!(matches!(mods.access("uuid tags", CapKind::Tags), Some(Capability::Tags)));
    assert_eq!(scene.elements.len(), 2);
}

#[test]
fn access_with_wrong_expected_kind_fails_closed() {
    let scene = Scene::new();
    let mods = scene.module_tool();
    // right alias, wrong expected capability type: nothing is handed out
    assert!(mods.access("uuid tags", CapKind::Phys).is_none());
    // a second call with the right type succeeds
    assert!(matches!(mods.access("uuid tags", CapKind::Tags), Some(Capability::Tags)));
    // unknown alias: nothing
    assert!(mods.access("no such module", CapKind::Tags).is_none());
}

#[test]
fn deleting_an_unknown_identifier_is_a_no_op() {
    let mut scene = Scene::new();
    let before = scene.elements.len();
    scene.delete_element(123_456_789);
    assert_eq!(scene.elements.len(), before);
}

#[test]
fn deleting_a_registered_identifier_removes_exactly_it() {
    let mut scene = Scene::new();
    let id = scene.add_element(Element::new_gen(Behavior::Block(Block::default())));
    assert_eq!(scene.elements.len(), 3);
    scene.delete_element(id);
    assert_eq!(scene.elements.len(), 2);
    scene.delete_element(id);
    assert_eq!(scene.elements.len(), 2);
}

#[test]
fn delete_events_drain_through_the_scene_queue() {
    let json = JSONManager::new();
    let mut scene = Scene::new();
    let id = scene.add_element(Element::new_gen(Behavior::Block(Block::default())));
    // deleting an identifier that never existed alters nothing
    scene.hub.scene_bus.send(SceneEvent::Delete(987_654));
    scene.update_elements(100, &json);
    assert_eq!(scene.elements.len(), 3);
    // deleting a registered identifier removes it; a second delete of the
    // same identifier is a no-op
    scene.hub.scene_bus.send(SceneEvent::Delete(id));
    scene.hub.scene_bus.send(SceneEvent::Delete(id));
    scene.update_elements(100, &json);
    assert_eq!(scene.elements.len(), 2);
    assert!(scene.elements.iter().all(|(e_id, _)| *e_id != id));
}

#[test]
fn tags_module_records_and_reports_tags() {
    let mut tags = UuidTags::default();
    let id = 5u128;
    assert!(tags.get_tags(&id).is_none());
    tags.set_tags(&id, vec!["a".to_string(), "b".to_string()]);
    assert_eq!(tags.get_tags(&id), Some(vec!["a".to_string(), "b".to_string()]));
    assert!(tags.has_tag(&id, "a".to_string()));
    assert!(!tags.has_tag(&id, "c".to_string()));
    tags.add_tag(&id, "c".to_string());
    assert!(tags.has_tag(&id, "c".to_string()));
    // adding the same text again changes nothing
    tags.add_tag(&id, "c".to_string());
    assert_eq!(tags.get_tags(&id), Some(vec!["a".to_string(), "b".to_string(), "c".to_string()]));
    // a fresh identifier starts its list with the added tag
    tags.add_tag(&9, "x".to_string());
    assert_eq!(tags.get_tags(&9), Some(vec!["x".to_string()]));
}

#[test]
fn solid_block_declares_itself_and_reports_collisions() {
    let mut scene = Scene::new();
    scene.add_element(Element::new_module(Behavior::Pom(POMComponent)));
    let block = Block::new_stretched(V2 { x: 0, y: 0 }, V2 { x: 1000, y: 1000 }, 0)
        .solid(true)
        .with_tag("wall".to_string());
    let block_id = scene.add_element(Element::new_gen(Behavior::Block(block)));
    scene.init_elements();
    // the block declared a static obstacle; a dynamic body driving into it
    // hears about the collision through its routed receiver
    let did = 77u128;
    scene.hub.pom.new_routed_receiver(Some(did));
    let body = burge::physics::PhysObj {
        pos: V2 { x: 1500, y: 0 },
        shape: V2 { x: 1000, y: 1000 },
        velocity: V2 { x: -10000, y: 0 },
        settings: burge::physics::PhysObjSettings {
            gravity_strength: 0,
            drag: V2 { x: 0, y: 0 },
        },
    };
    scene.hub.pom.declare(PhysEvent::Dynamic(did, body));
    let json = JSONManager::new();
    scene.update_elements(100, &json);
    let events = scene.hub.pom.poll_routed(did);
    let collisions: Vec<&PhysEvent> =
        events.iter().filter(|e| matches!(e, PhysEvent::Collision(_, _))).collect();
    assert_eq!(collisions.len(), 1);
    assert!(matches!(collisions[0], PhysEvent::Collision(Some(id), _) if *id == block_id));
    // the block also registered its tags under its identifier
    assert!(scene.hub.tags.has_tag(&block_id, "wall".to_string()));
}

#[test]
fn init_elements_announces_the_registry_on_the_scene_channel() {
    let mut scene = Scene::new();
    let sub = scene.hub.scene_bus.new_receiver();
    scene.init_elements();
    let seen = scene.hub.scene_bus.poll_receiver(sub);
    assert_eq!(seen.len(), 1);
    assert!(matches!(seen[0], SceneEvent::Registry));
}

#[test]
fn group_children_initialize_in_order() {
    // a group of two solid blocks declares one static obstacle per child,
    // in the group's stored order
    let mut scene = Scene::new();
    scene.add_element(Element::new_module(Behavior::Pom(POMComponent)));
    let group = Element::Group(vec![
        Element::new_gen(Behavior::Block(
            Block::new_stretched(V2 { x: 0, y: 0 }, V2 { x: 1000, y: 1000 }, 0).solid(true),
        )),
        Element::Null,
        Element::new_gen(Behavior::Block(
            Block::new_stretched(V2 { x: 5000, y: 0 }, V2 { x: 1000, y: 1000 }, 0).solid(true),
        )),
    ]);
    scene.add_element(group);
    scene.init_elements();
    // a wide dynamic body overlapping both obstacles hears two collisions
    let did = 9u128;
    scene.hub.pom.new_routed_receiver(Some(did));
    let body = burge::physics::PhysObj {
        pos: V2 { x: 0, y: 0 },
        shape: V2 { x: 6000, y: 1000 },
        velocity: V2 { x: 0, y: 0 },
        settings: burge::physics::PhysObjSettings {
            gravity_strength: 0,
            drag: V2 { x: 0, y: 0 },
        },
    };
    scene.hub.pom.declare(PhysEvent::Dynamic(did, body));
    let json = JSONManager::new();
    scene.update_elements(100, &json);
    let events = scene.hub.pom.poll_routed(did);
    let collisions =
        events.iter().filter(|e| matches!(e, PhysEvent::Collision(_, _))).count();
    assert_eq!(collisions, 2);
}

#[test]
fn set_camera_event_selects_the_active_camera() {
    let mut scene = Scene::new();
    let cam = scene.add_element(Element::new_gen(Behavior::Camera(
        burge::camera::DefaultCamera::default(),
    )));
    scene.hub.scene_bus.send(SceneEvent::SetCamera(cam));
    let json = JSONManager::new();
    scene.update_elements(100, &json);
    assert_eq!(scene.camera_uuid, cam);
    let (clip, offset) = scene.camera_projection([1600, 900]);
    // window aspect equals the design aspect: 2.0 / 20.0 on x, and
    // 2.0 / (20.0 / 1.777) on y
    assert_eq!(clip.sx, 100);
    assert_eq!(clip.sy, burge::sat_div(2000, burge::sat_div(20000, 1777)));
    assert_eq!(offset.x, 0);
    assert_eq!(offset.y, 0);
}

#[test]
fn camera_projection_defaults_to_identity_without_a_camera() {
    let scene = Scene::new();
    let (clip, offset) = scene.camera_projection([800, 600]);
    assert_eq!(clip.sx, 1000);
    assert_eq!(clip.sy, 1000);
    assert_eq!(offset.x, 0);
    assert_eq!(offset.y, 0);
}

#[test]
fn instantiate_event_builds_and_registers_a_template() {
    let json = registry_with_block();
    let mut scene = Scene::new();
    let doc = block_doc(4000, 0, false);
    assert!(json.compatible(&doc));
    scene.hub.scene_bus.send(SceneEvent::Instantiate(doc));
    assert_eq!(scene.elements.len(), 2);
    scene.update_elements(100, &json);
    assert_eq!(scene.elements.len(), 3);
}

#[test]
fn instantiating_an_unknown_template_is_a_no_op() {
    let json = registry_with_block();
    let mut scene = Scene::new();
    let doc = Document { name: "slab".to_string(), settings: None };
    scene.hub.scene_bus.send(SceneEvent::Instantiate(doc));
    scene.update_elements(100, &json);
    assert_eq!(scene.elements.len(), 2);
}

#[test]
fn mismatched_settings_are_reported_incompatible() {
    let json = registry_with_block();
    let good = block_doc(0, 0, false);
    let bad = Document {
        name: "block".to_string(),
        settings: Some(Settings::Camera(burge::camera::DefaultCamera::default())),
    };
    assert!(json.compatible(&good));
    assert!(!json.compatible(&bad));
}

#[test]
fn create_element_runs_the_template_factory() {
    let json = registry_with_block();
    let made = json.create_element(&block_doc(700, 800, true));
    match made {
        Element::Gen(Behavior::Block(b)) => {
            assert_eq!(b.pos.x, 700);
            assert_eq!(b.pos.y, 800);
            assert!(b.solid);
            assert_eq!(b.tags, vec!["wall".to_string()]);
            assert_eq!(b.sprite.tex_indices, vec![vec![3usize]]);
        },
        _ => panic!("expected a block element"),
    }
    // a block document without settings yields the inert element
    let none = json.create_element(&Document { name: "block".to_string(), settings: None });
    assert!(matches!(none, Element::Null));
}

#[test]
fn create_scene_registers_the_document_elements() {
    let json = registry_with_block();
    let doc = SceneDoc { elements: vec![block_doc(0, 0, false), block_doc(2000, 0, false)] };
    let scene = json.create_scene(&doc);
    assert_eq!(scene.elements.len(), 4);
}

#[test]
fn scene_manager_selects_and_rejects_scenes() {
    let mut sm = burge::scene::SceneManager::new();
    sm.json_manager.element_names.push((
        "block".to_string(),
        Element::new_gen(Behavior::Block(Block::default())),
    ));
    let doc = SceneDoc { elements: vec![block_doc(0, 0, false)] };
    sm.create_scene("main".to_string(), &doc);
    assert!(sm.current_scene().is_none());
    let err = sm.set_scene("missing");
    assert_eq!(err, Err("Scene not found".to_string()));
    assert!(sm.set_scene("main").is_ok());
    let scene = sm.current_scene().expect("selected scene");
    assert_eq!(scene.elements.len(), 3);
}

#[test]
fn module_behaviors_report_their_aliases() {
    assert_eq!(SceneBroadcastComponent.alias(), "scene broadcast".to_string());
    assert_eq!(POMComponent.alias(), "pom".to_string());
    assert_eq!(burge::input::InputManager.alias(), "input".to_string());
    assert!(matches!(POMComponent.component(), Capability::Phys(_)));
    assert!(matches!(UuidTags::default().component(), Capability::Tags));
}

#[test]
fn documents_copy_faithfully_for_broadcast() {
    let doc = block_doc(1, 2, true);
    let copy = doc.dup();
    assert_eq!(copy.name, doc.name);
    match (&copy.settings, &doc.settings) {
        (Some(Settings::Block(a)), Some(Settings::Block(b))) => {
            assert_eq!(a.pos.x, b.pos.x);
            assert_eq!(a.solid, b.solid);
            assert_eq!(a.tags, b.tags);
        },
        _ => panic!("expected block settings on both sides"),
    }
}
