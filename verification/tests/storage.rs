use ecs_table::entity::{Component, ComponentType, DoorState, Vector2};
use ecs_table::flat_table_table::FlatTableTable;
use ecs_table::hash_map_table_table::HashMapTableTable;
use ecs_table::metadata::{Metadata, Metadatum, MetadatumType};
use ecs_table::table::Table;
use ecs_table::table_table::{position_of, EntityTable};
use ecs_table::update::{commit, UpdateSummary};

fn sample_table() -> Table {
    let mut t = Table::new();
    assert!(t.add(Component::Position(Vector2::new(2, 2))).is_none());
    assert!(t.add(Component::Opacity(500)).is_none());
    assert!(t.add(Component::Solid).is_none());
    t
}

#[test]
fn table_add_displaces_same_discriminant() {
    let mut t = sample_table();
    assert_eq!(t.len(), 3);
    let displaced = t.add(Component::Opacity(200));
    assert_eq!(displaced, Some(Component::Opacity(500)));
    assert_eq!(t.len(), 3);
    assert_eq!(t.get(ComponentType::Opacity), Some(&Component::Opacity(200)));
}

#[test]
fn table_get_iff_types() {
    let t = sample_table();
    assert!(t.has(ComponentType::Position));
    assert!(t.has(ComponentType::Opacity));
    assert!(t.has(ComponentType::Solid));
    assert!(!t.has(ComponentType::Door));
    assert!(t.get(ComponentType::Door).is_none());
    let types = t.types();
    assert_eq!(types.len(), 3);
    for ty in [ComponentType::Position, ComponentType::Opacity, ComponentType::Solid] {
        assert!(types.contains(&ty));
        assert!(t.get(ty).is_some());
    }
    assert_eq!(t.position(), Some(Vector2::new(2, 2)));
}

#[test]
fn table_remove_returns_entry() {
    let mut t = sample_table();
    assert_eq!(t.remove(ComponentType::Solid), Some(Component::Solid));
    assert_eq!(t.remove(ComponentType::Solid), None);
    assert!(!t.has(ComponentType::Solid));
    assert_eq!(t.len(), 2);
}

fn tables_equal(a: &Table, b: &Table) -> bool {
    if a.len() != b.len() {
        return false;
    }
    for (ty, entry) in a.pairs() {
        if b.get(ty) != Some(&entry) {
            return false;
        }
    }
    true
}

#[test]
fn hash_map_backend_round_trip() {
    let mut tt = HashMapTableTable::new();
    assert!(tt.add(7, sample_table()).is_none());
    assert!(tt.contains_id(7));
    let removed = tt.remove(7).expect("entity was just added");
    assert!(tables_equal(&removed, &sample_table()));
    assert!(!tt.contains_id(7));
    assert!(tt.remove(7).is_none());
}

#[test]
fn flat_backend_round_trip() {
    let mut tt = FlatTableTable::new();
    assert!(tt.add(7, sample_table()).is_none());
    assert!(tt.contains_id(7));
    let removed = tt.remove(7).expect("entity was just added");
    assert!(tables_equal(&removed, &sample_table()));
    assert!(!tt.contains_id(7));
    assert!(tt.remove(7).is_none());
}

#[test]
fn add_displaces_whole_table() {
    let mut tt = FlatTableTable::new();
    assert!(tt.add(7, sample_table()).is_none());
    let mut other = Table::new();
    other.add(Component::Door(DoorState::Closed));
    let displaced = tt.add(7, other).expect("a table was installed under this id");
    assert!(tables_equal(&displaced, &sample_table()));
    assert_eq!(
        tt.get_component(7, ComponentType::Door),
        Some(&Component::Door(DoorState::Closed))
    );
    assert!(tt.get_component(7, ComponentType::Opacity).is_none());
}

#[test]
fn get_component_none_iff_absent() {
    let mut tt = HashMapTableTable::new();
    assert!(tt.get_component(7, ComponentType::Solid).is_none());
    tt.add(7, sample_table());
    assert_eq!(tt.get_component(7, ComponentType::Solid), Some(&Component::Solid));
    assert!(tt.get_component(7, ComponentType::Door).is_none());
    assert!(tt.get_component(8, ComponentType::Solid).is_none());
    assert_eq!(position_of(&tt, 7), Some(Vector2::new(2, 2)));
    assert_eq!(position_of(&tt, 8), None);
}

#[test]
fn flat_backend_reverse_index() {
    let mut tt = FlatTableTable::new();
    tt.add(1, sample_table());
    tt.add(2, sample_table());
    let mut door_only = Table::new();
    door_only.add(Component::Door(DoorState::Open));
    tt.add(3, door_only);

    let solid_ids = tt.entry_type(ComponentType::Solid).expect("two entities are solid");
    assert_eq!(solid_ids.len(), 2);
    assert!(solid_ids.contains(&1));
    assert!(solid_ids.contains(&2));

    let door_ids = tt.entry_type(ComponentType::Door).expect("one entity has a door");
    assert_eq!(door_ids.len(), 1);
    assert!(door_ids.contains(&3));

    assert!(tt.entry_type(ComponentType::Moon).is_none());

    // dual indices stay exact after removals
    tt.remove(1);
    let solid_ids = tt.entry_type(ComponentType::Solid).expect("one entity is still solid");
    assert_eq!(solid_ids.len(), 1);
    assert!(solid_ids.contains(&2));
}

#[test]
fn component_level_edits() {
    let mut tt = FlatTableTable::new();
    tt.add(7, sample_table());
    assert_eq!(
        tt.add_component(7, Component::Opacity(900)),
        Some(Component::Opacity(500))
    );
    assert_eq!(tt.add_component(7, Component::Moon), None);
    assert_eq!(
        tt.remove_component(7, ComponentType::Opacity),
        Some(Component::Opacity(900))
    );
    assert_eq!(tt.remove_component(7, ComponentType::Opacity), None);
    let pairs = tt.components_of(7);
    assert_eq!(pairs.len(), 3);
}

#[test]
fn commit_applies_all_phases() {
    let mut tt = HashMapTableTable::new();
    let mut setup = UpdateSummary::new();
    setup.add_entity(1, sample_table());
    setup.add_entity(2, sample_table());
    commit(&mut tt, &setup);
    assert!(tt.contains_id(1) && tt.contains_id(2));

    let mut diff = UpdateSummary::new();
    diff.remove_entity(2);
    diff.add_component(1, Component::Opacity(250));
    diff.add_component(1, Component::Moon);
    diff.remove_component(1, ComponentType::Solid);
    commit(&mut tt, &diff);

    assert!(!tt.contains_id(2));
    assert_eq!(
        tt.get_component(1, ComponentType::Opacity),
        Some(&Component::Opacity(250))
    );
    assert_eq!(tt.get_component(1, ComponentType::Moon), Some(&Component::Moon));
    assert!(tt.get_component(1, ComponentType::Solid).is_none());
}

#[test]
fn commit_empty_diff_changes_nothing() {
    let mut tt = FlatTableTable::new();
    tt.add(1, sample_table());
    let diff = UpdateSummary::new();
    commit(&mut tt, &diff);
    assert!(tt.contains_id(1));
    let pairs = tt.components_of(1);
    assert_eq!(pairs.len(), 3);
    assert_eq!(
        tt.get_component(1, ComponentType::Opacity),
        Some(&Component::Opacity(500))
    );
}

#[test]
fn metadata_keyed_by_discriminant() {
    let mut md = Metadata::new();
    assert!(md.add(Metadatum::TurnTime(30)).is_none());
    assert_eq!(md.add(Metadatum::TurnTime(40)), Some(Metadatum::TurnTime(30)));
    assert!(md.add(Metadatum::ActionTime(5)).is_none());
    assert_eq!(md.get(MetadatumType::TurnTime), Some(&Metadatum::TurnTime(40)));
    assert!(md.has(MetadatumType::ActionTime));
    assert_eq!(Metadatum::ActionTime(5).to_type(), MetadatumType::ActionTime);
}

#[test]
fn update_summary_metadata() {
    let mut diff = UpdateSummary::new();
    assert!(diff.set_metadatum(Metadatum::ActionTime(12)).is_none());
    assert_eq!(
        diff.set_metadatum(Metadatum::ActionTime(24)),
        Some(Metadatum::ActionTime(12))
    );
    assert_eq!(
        diff.metadata().get(MetadatumType::ActionTime),
        Some(&Metadatum::ActionTime(24))
    );
}

#[test]
fn component_to_type_is_total() {
    assert_eq!(Component::NullComponent.to_type(), ComponentType::NullComponent);
    assert_eq!(
        Component::Position(Vector2::new(1, -3)).to_type(),
        ComponentType::Position
    );
    assert_eq!(Component::Tile(4).to_type(), ComponentType::Tile);
    assert_eq!(Component::TileDepth(-2).to_type(), ComponentType::TileDepth);
    assert_eq!(Component::Opacity(0).to_type(), ComponentType::Opacity);
    assert_eq!(Component::Door(DoorState::Open).to_type(), ComponentType::Door);
    assert_eq!(
        Component::AxisVelocity { direction: ecs_table::entity::Direction::North, speed: 2 }
            .to_type(),
        ComponentType::AxisVelocity
    );
    assert_eq!(Component::Moon.to_type(), ComponentType::Moon);
}
