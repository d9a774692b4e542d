use ecs_table::entity::{ComponentType, Vector2};
use ecs_table::hash_map_table_table::HashMapTableTable;
use ecs_table::spatial_hash::SpatialHashMap;
use ecs_table::table_table::EntityTable;
use ecs_table::terrain::demo_a;
use ecs_table::terrain::level_str;
use ecs_table::update::{commit, UpdateSummary};

#[test]
fn drawing_is_rectangular() {
    let rows = level_str();
    assert_eq!(rows.len(), 26);
    for row in &rows {
        assert_eq!(row.len(), 38);
    }
}

#[test]
fn demo_level_populates_store_and_grid() {
    let mut diff = UpdateSummary::new();
    let (meta, next) = demo_a(1, &mut diff);
    assert_eq!(meta.width, 38);
    assert_eq!(meta.height, 26);
    assert_eq!(meta.start_coord, Vector2::new(18, 14));
    assert!(next > 1);

    let mut entities = HashMapTableTable::new();
    let mut map = SpatialHashMap::new(meta.width, meta.height);
    map.update(&diff, &entities, 1);
    commit(&mut entities, &diff);

    // a corner tree: ground plus a solid, mostly opaque feature
    let corner = map.get((0, 0)).unwrap();
    assert_eq!(corner.entities().len(), 2);
    assert!(corner.has(ComponentType::Solid));
    assert_eq!(corner.opacity(), 800);

    // the start cell is open ground
    let start = map.get((18, 14)).unwrap();
    assert_eq!(start.entities().len(), 1);
    assert!(!start.has(ComponentType::Solid));
    assert_eq!(start.opacity(), 0);

    // the upper room's door blocks light while closed
    let door = map.get((23, 7)).unwrap();
    assert!(door.has(ComponentType::Door));
    assert!(door.has(ComponentType::Solid));
    assert_eq!(door.opacity(), 1000);

    // the window is solid but lets light through
    let window = map.get((21, 14)).unwrap();
    assert!(window.has(ComponentType::Solid));
    assert_eq!(window.opacity(), 0);

    // every spawned id is live in the store
    for id in 1..next {
        assert!(entities.contains_id(id));
    }
    assert!(!entities.contains_id(next));
}
