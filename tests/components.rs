use rogun_engine::color::{RealBits, Rgb};
use rogun_engine::entity::{CompDebugDraw, Component, EntityID};
use rogun_engine::store::CompList;

fn red() -> Rgb {
    Rgb::new(RealBits(1.0f32.to_bits()), RealBits(0), RealBits(0))
}

#[test]
fn debug_draw_reports_its_entity() {
    let c = CompDebugDraw { entity_id: EntityID(3), color: red() };
    assert_eq!(c.get_entity_id(), EntityID(3));
}

#[test]
fn store_lookup_by_entity() {
    let mut s: CompList<CompDebugDraw> = CompList::new();
    s.add_component(CompDebugDraw { entity_id: EntityID(7), color: red() });
    s.add_component(CompDebugDraw { entity_id: EntityID(2), color: Rgb::black() });
    assert_eq!(s.len(), 2);
    assert_eq!(s.get_component(EntityID(7)).unwrap().color, red());
    assert_eq!(s.get_component(EntityID(2)).unwrap().color, Rgb::black());
    assert!(s.get_component(EntityID(3)).is_none());
    assert!(s.get_component(EntityID(100)).is_none());
    assert_eq!(s.index_of(EntityID(2)), Some(1));
}

#[test]
fn store_keeps_insertion_order() {
    let mut s: CompList<u32> = CompList::new();
    s.insert(EntityID(9), 90);
    s.insert(EntityID(1), 10);
    s.insert(EntityID(5), 50);
    let rows: Vec<(EntityID, u32)> = (0..s.len()).map(|i| (s.entity_at(i), *s.get_at(i))).collect();
    assert_eq!(rows, vec![(EntityID(9), 90), (EntityID(1), 10), (EntityID(5), 50)]);
}

#[test]
fn store_add_for_same_entity_replaces_row() {
    let mut s: CompList<u32> = CompList::new();
    s.insert(EntityID(4), 1);
    s.insert(EntityID(8), 2);
    s.insert(EntityID(4), 3);
    assert_eq!(s.len(), 2);
    assert_eq!(*s.get_component(EntityID(4)).unwrap(), 3);
    assert_eq!(s.entity_at(0), EntityID(4));
    assert_eq!(*s.get_at(0), 3);
}

#[test]
fn store_update_in_place() {
    let mut s: CompList<u32> = CompList::new();
    s.insert(EntityID(0), 1);
    s.insert(EntityID(65535), 2);
    *s.get_component_mut(EntityID(65535)).unwrap() += 40;
    *s.get_at_mut(0) = 11;
    assert!(s.get_component_mut(EntityID(1)).is_none());
    assert_eq!(*s.get_component(EntityID(65535)).unwrap(), 42);
    assert_eq!(*s.get_component(EntityID(0)).unwrap(), 11);
}

#[test]
fn empty_store_finds_nothing() {
    let s: CompList<u32> = CompList::new();
    assert_eq!(s.len(), 0);
    assert!(s.get_component(EntityID(0)).is_none());
    assert_eq!(s.index_of(EntityID(0)), None);
}
