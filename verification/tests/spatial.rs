use ecs_table::entity::{Component, ComponentType, Vector2};
use ecs_table::flat_table_table::FlatTableTable;
use ecs_table::hash_map_table_table::HashMapTableTable;
use ecs_table::table::Table;
use ecs_table::table_table::EntityTable;
use ecs_table::update::{commit, UpdateSummary};
use ecs_table::spatial_hash::{SpatialHashCell, SpatialHashMap};

fn entity_at(x: isize, y: isize, opacity: u32) -> Table {
    let mut t = Table::new();
    t.add(Component::Position(Vector2::new(x, y)));
    t.add(Component::Opacity(opacity));
    t
}

fn cell_snapshot(cell: &SpatialHashCell) -> (Vec<u64>, u64, u64, usize) {
    let mut ids = cell.entities().clone();
    ids.sort();
    (ids, cell.opacity(), cell.last_updated(), cell.get_count(ComponentType::Opacity))
}

#[test]
fn grid_bounds() {
    let mut map = SpatialHashMap::new(4, 3);
    map.set_id(9);
    assert!(map.get((0, 0)).is_some());
    assert!(map.get((3, 2)).is_some());
    assert!(map.get((4, 0)).is_none());
    assert!(map.get((0, 3)).is_none());
    assert!(map.get((-1, 0)).is_none());
    let cell = map.get_unsafe((3, 2));
    assert_eq!(cell.opacity(), 0);
    assert_eq!(cell.last_updated(), 0);
    assert!(cell.entities().is_empty());
    assert!(!cell.has(ComponentType::Solid));
}

#[test]
fn add_and_remove_entity_directly() {
    let mut map = SpatialHashMap::new(5, 5);
    let table = entity_at(1, 1, 700);
    let pairs = table.pairs();
    map.add_entity(10, &pairs, 1);
    {
        let cell = map.get((1, 1)).unwrap();
        assert_eq!(cell.entities(), &vec![10]);
        assert_eq!(cell.opacity(), 700);
        assert_eq!(cell.last_updated(), 1);
        assert!(cell.has(ComponentType::Position));
        assert!(cell.has(ComponentType::Opacity));
        assert_eq!(cell.get_count(ComponentType::Opacity), 1);
    }
    map.remove_entity(10, &pairs, 2);
    {
        let cell = map.get((1, 1)).unwrap();
        assert!(cell.entities().is_empty());
        assert_eq!(cell.opacity(), 0);
        assert_eq!(cell.last_updated(), 2);
        assert!(!cell.has(ComponentType::Opacity));
    }
}

#[test]
fn scenario_two_entities_then_move() {
    // E1 sits at (2,2) blocking half the light; E2 arrives with 0.3;
    // then E1 moves one cell east.
    let e1: u64 = 1;
    let e2: u64 = 2;
    let mut entities = HashMapTableTable::new();
    let mut map = SpatialHashMap::new(6, 6);

    let mut d0 = UpdateSummary::new();
    d0.add_entity(e1, entity_at(2, 2, 500));
    map.update(&d0, &entities, 1);
    commit(&mut entities, &d0);

    let mut d1 = UpdateSummary::new();
    d1.add_entity(e2, entity_at(2, 2, 300));
    map.update(&d1, &entities, 2);
    commit(&mut entities, &d1);

    {
        let cell = map.get((2, 2)).unwrap();
        let mut ids = cell.entities().clone();
        ids.sort();
        assert_eq!(ids, vec![e1, e2]);
        assert_eq!(cell.opacity(), 800);
        assert_eq!(cell.last_updated(), 2);
        assert_eq!(cell.get_count(ComponentType::Opacity), 2);
    }

    let mut d2 = UpdateSummary::new();
    d2.add_component(e1, Component::Position(Vector2::new(3, 2)));
    map.update(&d2, &entities, 3);
    commit(&mut entities, &d2);

    {
        let cell = map.get((2, 2)).unwrap();
        assert_eq!(cell.entities(), &vec![e2]);
        assert_eq!(cell.opacity(), 300);
        assert_eq!(cell.last_updated(), 3);
    }
    {
        let cell = map.get((3, 2)).unwrap();
        assert_eq!(cell.entities(), &vec![e1]);
        assert_eq!(cell.opacity(), 500);
        assert_eq!(cell.last_updated(), 3);
    }
    // the rest of the grid never saw a mutation
    assert_eq!(map.get((1, 2)).unwrap().last_updated(), 0);
    assert_eq!(ecs_table::table_table::position_of(&entities, e1), Some(Vector2::new(3, 2)));
}

#[test]
fn both_backends_drive_the_same_replay() {
    // the same diffs, replayed through either backend, yield the same cells
    let mut hash_entities = HashMapTableTable::new();
    let mut flat_entities = FlatTableTable::new();
    let mut hash_map = SpatialHashMap::new(6, 6);
    let mut flat_map = SpatialHashMap::new(6, 6);

    let mut d0 = UpdateSummary::new();
    d0.add_entity(1, entity_at(2, 2, 500));
    d0.add_entity(2, entity_at(4, 1, 300));
    hash_map.update(&d0, &hash_entities, 1);
    flat_map.update(&d0, &flat_entities, 1);
    commit(&mut hash_entities, &d0);
    commit(&mut flat_entities, &d0);

    let mut d1 = UpdateSummary::new();
    d1.add_component(1, Component::Position(Vector2::new(4, 1)));
    d1.remove_component(2, ComponentType::Opacity);
    hash_map.update(&d1, &hash_entities, 2);
    flat_map.update(&d1, &flat_entities, 2);
    commit(&mut hash_entities, &d1);
    commit(&mut flat_entities, &d1);

    for y in 0..6 {
        for x in 0..6 {
            let a = cell_snapshot(hash_map.get((x, y)).unwrap());
            let b = cell_snapshot(flat_map.get((x, y)).unwrap());
            assert_eq!(a, b);
        }
    }
    let cell = hash_map.get((4, 1)).unwrap();
    let mut ids = cell.entities().clone();
    ids.sort();
    assert_eq!(ids, vec![1, 2]);
    assert_eq!(cell.opacity(), 500);
}

#[test]
fn empty_diff_is_a_no_op() {
    let mut entities = HashMapTableTable::new();
    let mut map = SpatialHashMap::new(4, 4);
    let mut d0 = UpdateSummary::new();
    d0.add_entity(5, entity_at(1, 2, 450));
    map.update(&d0, &entities, 1);
    commit(&mut entities, &d0);

    let mut before = Vec::new();
    for y in 0..4 {
        for x in 0..4 {
            before.push(cell_snapshot(map.get((x, y)).unwrap()));
        }
    }

    let empty = UpdateSummary::new();
    map.update(&empty, &entities, 99);
    commit(&mut entities, &empty);

    let mut after = Vec::new();
    for y in 0..4 {
        for x in 0..4 {
            after.push(cell_snapshot(map.get((x, y)).unwrap()));
        }
    }
    assert_eq!(before, after);
}

#[test]
fn opacity_overwrite_applies_delta() {
    let mut entities = HashMapTableTable::new();
    let mut map = SpatialHashMap::new(4, 4);
    let mut d0 = UpdateSummary::new();
    d0.add_entity(5, entity_at(1, 1, 500));
    map.update(&d0, &entities, 1);
    commit(&mut entities, &d0);

    let mut d1 = UpdateSummary::new();
    d1.add_component(5, Component::Opacity(200));
    map.update(&d1, &entities, 2);
    commit(&mut entities, &d1);

    let cell = map.get((1, 1)).unwrap();
    assert_eq!(cell.opacity(), 200);
    assert_eq!(cell.get_count(ComponentType::Opacity), 1);
    assert_eq!(cell.entities(), &vec![5]);
}

#[test]
fn fresh_component_increments_count() {
    let mut entities = HashMapTableTable::new();
    let mut map = SpatialHashMap::new(4, 4);
    let mut d0 = UpdateSummary::new();
    d0.add_entity(5, entity_at(1, 1, 500));
    map.update(&d0, &entities, 1);
    commit(&mut entities, &d0);

    let mut d1 = UpdateSummary::new();
    d1.add_component(5, Component::Solid);
    map.update(&d1, &entities, 2);
    commit(&mut entities, &d1);

    let cell = map.get((1, 1)).unwrap();
    assert!(cell.has(ComponentType::Solid));
    assert_eq!(cell.get_count(ComponentType::Solid), 1);
    assert_eq!(cell.opacity(), 500);
}

#[test]
fn removing_components_subtracts_contributions() {
    let mut entities = HashMapTableTable::new();
    let mut map = SpatialHashMap::new(4, 4);
    let mut d0 = UpdateSummary::new();
    let mut t = entity_at(2, 1, 400);
    t.add(Component::Solid);
    d0.add_entity(5, t);
    map.update(&d0, &entities, 1);
    commit(&mut entities, &d0);

    let mut d1 = UpdateSummary::new();
    d1.remove_component(5, ComponentType::Opacity);
    map.update(&d1, &entities, 2);
    commit(&mut entities, &d1);

    {
        let cell = map.get((2, 1)).unwrap();
        assert_eq!(cell.opacity(), 0);
        assert!(!cell.has(ComponentType::Opacity));
        assert!(cell.has(ComponentType::Solid));
        assert_eq!(cell.entities(), &vec![5]);
    }

    // removing the position detaches the entity entirely
    let mut d2 = UpdateSummary::new();
    d2.remove_component(5, ComponentType::Position);
    map.update(&d2, &entities, 3);
    commit(&mut entities, &d2);

    {
        let cell = map.get((2, 1)).unwrap();
        assert!(cell.entities().is_empty());
        assert!(!cell.has(ComponentType::Solid));
        assert_eq!(cell.opacity(), 0);
        assert_eq!(cell.last_updated(), 3);
    }
}

#[test]
fn removed_entity_leaves_its_cell() {
    let mut entities = HashMapTableTable::new();
    let mut map = SpatialHashMap::new(4, 4);
    let mut d0 = UpdateSummary::new();
    d0.add_entity(5, entity_at(0, 3, 100));
    d0.add_entity(6, entity_at(0, 3, 200));
    map.update(&d0, &entities, 1);
    commit(&mut entities, &d0);

    let mut d1 = UpdateSummary::new();
    d1.remove_entity(5);
    map.update(&d1, &entities, 2);
    commit(&mut entities, &d1);

    let cell = map.get((0, 3)).unwrap();
    assert_eq!(cell.entities(), &vec![6]);
    assert_eq!(cell.opacity(), 200);
    assert!(!entities.contains_id(5));
    assert!(entities.contains_id(6));
}
