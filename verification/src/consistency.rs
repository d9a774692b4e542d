//! The laws tying a cell's aggregates to the canonical store.
//!
//! A cell is consistent with the store when its id set is exactly the set of
//! entities whose position resolves to its coordinate, each per-discriminant
//! counter counts exactly the occupants carrying that discriminant, and its
//! opacity is exactly the occupants' summed opacity. These laws say that the
//! spatial hash's replay operations preserve that consistency, so the index
//! and the store never drift.

use vstd::prelude::*;
use vstd::set_lib::lemma_len_subset;
use crate::entity::{Component, ComponentType, EntityId, Vector2};
use crate::spatial_hash::{coord_in_bounds, cv_attach, cv_detach, cv_stamp, grid_index,
    lemma_grid_index, opacity_of, spec_sh_add_entity, spec_sh_remove_entity, spec_update,
    CellView};
use crate::table::spec_position;
use crate::update::UpdateSummary;

verus! {

/// The ids the store currently places at a coordinate.
pub open spec fn occupants(
    c: Map<EntityId, Map<ComponentType, Component>>,
    p: Vector2,
) -> Set<EntityId> {
    Set::new(|id: EntityId| c.contains_key(id) && spec_position(c[id]) == Some(p))
}

/// The members of a set that carry a discriminant in the store.
pub open spec fn with_type(
    c: Map<EntityId, Map<ComponentType, Component>>,
    s: Set<EntityId>,
    t: ComponentType,
) -> Set<EntityId> {
    s.filter(|id: EntityId| c.contains_key(id) && c[id].contains_key(t))
}

/// The summed opacity contribution of a set of entities, by their stored
/// components.
pub open spec fn sum_opacity(
    c: Map<EntityId, Map<ComponentType, Component>>,
    s: Set<EntityId>,
) -> int
    decreases s.len(),
{
    if s.finite() && s.len() > 0 {
        let id = s.choose();
        opacity_of(c[id]) + sum_opacity(c, s.remove(id))
    } else {
        0
    }
}

/// Splitting one member out of an opacity sum.
pub proof fn lemma_sum_opacity_remove(
    c: Map<EntityId, Map<ComponentType, Component>>,
    s: Set<EntityId>,
    x: EntityId,
)
    requires
        s.finite(),
        s.contains(x),
    ensures
        sum_opacity(c, s) == opacity_of(c[x]) + sum_opacity(c, s.remove(x)),
    decreases s.len(),
{
    let y = s.choose();
    assert(s.contains(y));
    assert(s.len() > 0);
    if y == x {
    } else {
        lemma_sum_opacity_remove(c, s.remove(y), x);
        lemma_sum_opacity_remove(c, s.remove(x), y);
        assert(s.remove(y).remove(x) =~= s.remove(x).remove(y));
        assert(s.remove(x).choose() == s.remove(x).choose());
        // sum(s) = op(y) + sum(s \ y) = op(y) + op(x) + sum(s \ y \ x)
        // sum(s \ x) = op(y) + sum(s \ x \ y), by the second induction
        assert(sum_opacity(c, s) == opacity_of(c[y]) + sum_opacity(c, s.remove(y)));
    }
}

/// Adding one member to an opacity sum.
pub proof fn lemma_sum_opacity_insert(
    c: Map<EntityId, Map<ComponentType, Component>>,
    s: Set<EntityId>,
    x: EntityId,
)
    requires
        s.finite(),
        !s.contains(x),
    ensures
        sum_opacity(c, s.insert(x)) == sum_opacity(c, s) + opacity_of(c[x]),
{
    lemma_sum_opacity_remove(c, s.insert(x), x);
    assert(s.insert(x).remove(x) =~= s);
}

/// Opacity sums read only the members' rows: two stores agreeing on a set's
/// members sum alike over it.
pub proof fn lemma_sum_opacity_congruence(
    c1: Map<EntityId, Map<ComponentType, Component>>,
    c2: Map<EntityId, Map<ComponentType, Component>>,
    s: Set<EntityId>,
)
    requires
        s.finite(),
        forall|id: EntityId| s.contains(id) ==> opacity_of(c1[id]) == opacity_of(#[trigger] c2[id]),
    ensures
        sum_opacity(c1, s) == sum_opacity(c2, s),
    decreases s.len(),
{
    if s.len() > 0 {
        let y = s.choose();
        assert(s.contains(y));
        lemma_sum_opacity_congruence(c1, c2, s.remove(y));
    }
}

/// One cell's aggregates are exactly what the store says about its
/// coordinate: its ids are the occupants, every counter counts the occupants
/// carrying that discriminant, and its opacity is their summed opacity.
pub open spec fn cell_consistent(
    cv: CellView,
    c: Map<EntityId, Map<ComponentType, Component>>,
    p: Vector2,
) -> bool {
    &&& cv.entities == occupants(c, p)
    &&& forall|t: ComponentType| #[trigger] cv.counts[t] == with_type(c, cv.entities, t).len()
    &&& cv.opacity == sum_opacity(c, cv.entities)
}

/// Occupancy/count consistency: in a consistent cell, a discriminant is
/// reported present exactly when at least one entity in the cell holds a
/// component of that discriminant in the store.
pub proof fn lemma_occupancy_count_consistency(
    cv: CellView,
    c: Map<EntityId, Map<ComponentType, Component>>,
    p: Vector2,
    t: ComponentType,
)
    requires
        c.dom().finite(),
        cell_consistent(cv, c, p),
    ensures
        (cv.counts[t] != 0) <==> exists|id: EntityId|
            cv.entities.contains(id) && c.contains_key(id) && (#[trigger] c[id]).contains_key(t),
{
    assert(cv.entities.subset_of(c.dom()));
    lemma_len_subset(cv.entities, c.dom());
    let wt = with_type(c, cv.entities, t);
    assert(wt.subset_of(c.dom()));
    lemma_len_subset(wt, c.dom());
    if cv.counts[t] != 0 {
        assert(wt.len() != 0);
        assert(wt.contains(wt.choose()));
        let id = wt.choose();
        assert(cv.entities.contains(id) && c.contains_key(id) && c[id].contains_key(t));
    }
    if exists|id: EntityId|
        cv.entities.contains(id) && c.contains_key(id) && (#[trigger] c[id]).contains_key(t) {
        let id = choose|id: EntityId|
            cv.entities.contains(id) && c.contains_key(id) && (#[trigger] c[id]).contains_key(t);
        assert(wt.contains(id));
        assert(wt.remove(id).len() == wt.len() - 1);
    }
}

/// Consistency survives stamping: the last-updated turn is no aggregate.
pub proof fn lemma_stamp_consistent(
    cv: CellView,
    c: Map<EntityId, Map<ComponentType, Component>>,
    p: Vector2,
    turn_count: u64,
)
    requires
        cell_consistent(cv, c, p),
    ensures
        cell_consistent(cv_stamp(cv, turn_count), c, p),
{
}

/// Attaching a newly created entity to the cell its position names keeps the
/// cell consistent with the store that now holds that entity.
pub proof fn lemma_attach_consistent(
    cv: CellView,
    c: Map<EntityId, Map<ComponentType, Component>>,
    p: Vector2,
    id: EntityId,
    m: Map<ComponentType, Component>,
)
    requires
        c.dom().finite(),
        cell_consistent(cv, c, p),
        !c.contains_key(id),
        spec_position(m) == Some(p),
    ensures
        cell_consistent(cv_attach(cv, id, m), c.insert(id, m), p),
{
    let c2 = c.insert(id, m);
    let s = cv.entities;
    assert(!s.contains(id));
    let cv2 = cv_attach(cv, id, m);
    assert(s.subset_of(c.dom()));
    lemma_len_subset(s, c.dom());
    // membership
    assert(cv2.entities =~= occupants(c2, p));
    // counters
    assert forall|t: ComponentType| #[trigger] cv2.counts[t] == with_type(c2, cv2.entities, t).len()
        by {
        let wt = with_type(c, s, t);
        assert(wt.subset_of(c.dom()));
        lemma_len_subset(wt, c.dom());
        if m.contains_key(t) {
            assert(with_type(c2, s.insert(id), t) =~= wt.insert(id));
            assert(!wt.contains(id));
            assert(wt.insert(id).len() == wt.len() + 1);
        } else {
            assert(with_type(c2, s.insert(id), t) =~= wt);
        }
    }
    // opacity
    lemma_sum_opacity_congruence(c, c2, s);
    lemma_sum_opacity_insert(c2, s, id);
    assert(opacity_of(c2[id]) == opacity_of(m));
}

/// Detaching a destroyed entity from the cell its position names keeps the
/// cell consistent with the store that no longer holds it.
pub proof fn lemma_detach_consistent(
    cv: CellView,
    c: Map<EntityId, Map<ComponentType, Component>>,
    p: Vector2,
    id: EntityId,
)
    requires
        c.dom().finite(),
        cell_consistent(cv, c, p),
        c.contains_key(id),
        spec_position(c[id]) == Some(p),
    ensures
        cell_consistent(cv_detach(cv, id, c[id]), c.remove(id), p),
{
    let m = c[id];
    let c2 = c.remove(id);
    let s = cv.entities;
    assert(s.contains(id));
    let cv2 = cv_detach(cv, id, m);
    assert(s.subset_of(c.dom()));
    lemma_len_subset(s, c.dom());
    // membership
    assert(cv2.entities =~= occupants(c2, p));
    // counters
    assert forall|t: ComponentType| #[trigger] cv2.counts[t] == with_type(c2, cv2.entities, t).len()
        by {
        let wt = with_type(c, s, t);
        assert(wt.subset_of(c.dom()));
        lemma_len_subset(wt, c.dom());
        if m.contains_key(t) {
            assert(with_type(c2, s.remove(id), t) =~= wt.remove(id));
            assert(wt.contains(id));
            assert(wt.remove(id).len() == wt.len() - 1);
        } else {
            assert(with_type(c2, s.remove(id), t) =~= wt);
            assert(!wt.contains(id));
        }
    }
    // opacity
    lemma_sum_opacity_remove(c, s, id);
    lemma_sum_opacity_congruence(c, c2, s.remove(id));
}

/// A cell at another coordinate is untouched by an entity appearing
/// elsewhere: it stays consistent with the grown store.
pub proof fn lemma_other_cell_consistent_insert(
    cv: CellView,
    c: Map<EntityId, Map<ComponentType, Component>>,
    p: Vector2,
    id: EntityId,
    m: Map<ComponentType, Component>,
)
    requires
        c.dom().finite(),
        cell_consistent(cv, c, p),
        !c.contains_key(id),
        spec_position(m) != Some(p),
    ensures
        cell_consistent(cv, c.insert(id, m), p),
{
    let c2 = c.insert(id, m);
    let s = cv.entities;
    assert(s.subset_of(c.dom()));
    lemma_len_subset(s, c.dom());
    assert(!s.contains(id));
    assert(cv.entities =~= occupants(c2, p));
    assert forall|t: ComponentType| #[trigger] cv.counts[t] == with_type(c2, s, t).len() by {
        assert(with_type(c2, s, t) =~= with_type(c, s, t));
    }
    lemma_sum_opacity_congruence(c, c2, s);
}

/// A cell at another coordinate is untouched by an entity vanishing from
/// elsewhere: it stays consistent with the shrunken store.
pub proof fn lemma_other_cell_consistent_remove(
    cv: CellView,
    c: Map<EntityId, Map<ComponentType, Component>>,
    p: Vector2,
    id: EntityId,
)
    requires
        c.dom().finite(),
        cell_consistent(cv, c, p),
        c.contains_key(id),
        spec_position(c[id]) != Some(p),
    ensures
        cell_consistent(cv, c.remove(id), p),
{
    let c2 = c.remove(id);
    let s = cv.entities;
    assert(s.subset_of(c.dom()));
    lemma_len_subset(s, c.dom());
    assert(!s.contains(id));
    assert(cv.entities =~= occupants(c2, p));
    assert forall|t: ComponentType| #[trigger] cv.counts[t] == with_type(c2, s, t).len() by {
        assert(with_type(c2, s, t) =~= with_type(c, s, t));
    }
    lemma_sum_opacity_congruence(c, c2, s);
}

/// A freshly made grid is consistent with an empty store: the base case
/// from which the preservation laws carry consistency through every turn.
pub proof fn lemma_initial_consistency(g: Seq<CellView>, w: int, h: int)
    requires
        g.len() == w * h,
        forall|i: int| 0 <= i < g.len() ==> g[i] == crate::spatial_hash::cv_empty(),
    ensures
        grid_consistent(g, w, h, Map::<EntityId, Map<ComponentType, Component>>::empty()),
{
    let c = Map::<EntityId, Map<ComponentType, Component>>::empty();
    assert forall|x: int, y: int| coord_in_bounds(w, h, x, y) implies cell_consistent(
        #[trigger] g[grid_index(w, x, y)],
        c,
        Vector2 { x: x as isize, y: y as isize },
    ) by {
        lemma_grid_index(w, h, x, y, x, y);
        let p = Vector2 { x: x as isize, y: y as isize };
        let cv = g[grid_index(w, x, y)];
        assert(cv == crate::spatial_hash::cv_empty());
        assert(cv.entities =~= occupants(c, p));
        assert forall|t: ComponentType| #[trigger] cv.counts[t] == with_type(
            c,
            cv.entities,
            t,
        ).len() by {
            assert(with_type(c, cv.entities, t) =~= Set::<EntityId>::empty());
        }
        assert(sum_opacity(c, cv.entities) == 0);
    }
}

/// A cell at another coordinate is untouched when an entity's row changes
/// while neither its old nor its new components place it there.
pub proof fn lemma_other_cell_consistent_row_change(
    cv: CellView,
    c: Map<EntityId, Map<ComponentType, Component>>,
    p: Vector2,
    id: EntityId,
    m2: Map<ComponentType, Component>,
)
    requires
        c.dom().finite(),
        cell_consistent(cv, c, p),
        c.contains_key(id),
        spec_position(c[id]) != Some(p),
        spec_position(m2) != Some(p),
    ensures
        cell_consistent(cv, c.insert(id, m2), p),
{
    let c2 = c.insert(id, m2);
    let s = cv.entities;
    assert(s.subset_of(c.dom()));
    lemma_len_subset(s, c.dom());
    assert(!s.contains(id));
    assert(cv.entities =~= occupants(c2, p));
    assert forall|t: ComponentType| #[trigger] cv.counts[t] == with_type(c2, s, t).len() by {
        assert(with_type(c2, s, t) =~= with_type(c, s, t));
    }
    lemma_sum_opacity_congruence(c, c2, s);
}

/// The opacity an entity contributes after changes are merged over its
/// components moves by exactly the delta the cell applies.
pub proof fn lemma_delta_opacity_merge(
    m: Map<ComponentType, Component>,
    ch: Map<ComponentType, Component>,
)
    ensures
        opacity_of(m.union_prefer_right(ch)) == opacity_of(m)
            + crate::spatial_hash::delta_opacity(m, ch),
{
}

/// Applying non-position component changes to an occupant keeps its cell
/// consistent with the store whose row for it is the merged table.
pub proof fn lemma_changes_consistent(
    cv: CellView,
    c: Map<EntityId, Map<ComponentType, Component>>,
    p: Vector2,
    id: EntityId,
    ch: Map<ComponentType, Component>,
)
    requires
        c.dom().finite(),
        cell_consistent(cv, c, p),
        c.contains_key(id),
        spec_position(c[id]) == Some(p),
        spec_position(c[id].union_prefer_right(ch)) == Some(p),
    ensures
        cell_consistent(
            crate::spatial_hash::cv_changes(cv, c[id], ch),
            c.insert(id, c[id].union_prefer_right(ch)),
            p,
        ),
{
    let m = c[id];
    let m2 = m.union_prefer_right(ch);
    let c2 = c.insert(id, m2);
    let s = cv.entities;
    let cv2 = crate::spatial_hash::cv_changes(cv, m, ch);
    assert(s.subset_of(c.dom()));
    lemma_len_subset(s, c.dom());
    assert(s.contains(id));
    assert(cv2.entities =~= occupants(c2, p));
    assert forall|t: ComponentType| #[trigger] cv2.counts[t] == with_type(c2, s, t).len() by {
        let wt = with_type(c, s, t);
        assert(wt.subset_of(c.dom()));
        lemma_len_subset(wt, c.dom());
        if ch.contains_key(t) && t != ComponentType::Position && !m.contains_key(t) {
            assert(with_type(c2, s, t) =~= wt.insert(id));
            assert(!wt.contains(id));
            assert(wt.insert(id).len() == wt.len() + 1);
        } else {
            assert(m2.contains_key(t) == m.contains_key(t));
            assert(with_type(c2, s, t) =~= wt);
        }
    }
    lemma_sum_opacity_remove(c, s, id);
    lemma_sum_opacity_remove(c2, s, id);
    lemma_sum_opacity_congruence(c, c2, s.remove(id));
    lemma_delta_opacity_merge(m, ch);
}

/// Striking non-position discriminants from an occupant keeps its cell
/// consistent with the store whose row for it is the thinned table.
pub proof fn lemma_removes_consistent(
    cv: CellView,
    c: Map<EntityId, Map<ComponentType, Component>>,
    p: Vector2,
    id: EntityId,
    ts: Seq<ComponentType>,
)
    requires
        c.dom().finite(),
        cell_consistent(cv, c, p),
        c.contains_key(id),
        spec_position(c[id]) == Some(p),
        !ts.contains(ComponentType::Position),
    ensures
        cell_consistent(
            crate::spatial_hash::cv_removes(cv, c[id], ts),
            c.insert(id, c[id].remove_keys(ts.to_set())),
            p,
        ),
{
    let m = c[id];
    let m2 = m.remove_keys(ts.to_set());
    let c2 = c.insert(id, m2);
    let s = cv.entities;
    let cv2 = crate::spatial_hash::cv_removes(cv, m, ts);
    assert(s.subset_of(c.dom()));
    lemma_len_subset(s, c.dom());
    assert(s.contains(id));
    assert(m2.contains_key(ComponentType::Position) && m2[ComponentType::Position]
        == m[ComponentType::Position]);
    assert(spec_position(m2) == Some(p));
    assert(cv2.entities =~= occupants(c2, p));
    assert forall|t: ComponentType| #[trigger] cv2.counts[t] == with_type(c2, s, t).len() by {
        let wt = with_type(c, s, t);
        assert(wt.subset_of(c.dom()));
        lemma_len_subset(wt, c.dom());
        if ts.contains(t) && m.contains_key(t) {
            assert(with_type(c2, s, t) =~= wt.remove(id));
            assert(wt.contains(id));
            assert(wt.remove(id).len() == wt.len() - 1);
        } else {
            assert(m2.contains_key(t) == m.contains_key(t));
            assert(with_type(c2, s, t) =~= wt);
        }
    }
    lemma_sum_opacity_remove(c, s, id);
    lemma_sum_opacity_remove(c2, s, id);
    lemma_sum_opacity_congruence(c, c2, s.remove(id));
    assert(opacity_of(m2) == opacity_of(m) - if ts.contains(ComponentType::Opacity) {
        opacity_of(m)
    } else {
        0
    });
}

/// Detaching an entity that keeps a row in the store — because it moved
/// away or lost its position — keeps its old cell consistent.
pub proof fn lemma_detach_row_change_consistent(
    cv: CellView,
    c: Map<EntityId, Map<ComponentType, Component>>,
    p: Vector2,
    id: EntityId,
    m2: Map<ComponentType, Component>,
)
    requires
        c.dom().finite(),
        cell_consistent(cv, c, p),
        c.contains_key(id),
        spec_position(c[id]) == Some(p),
        spec_position(m2) != Some(p),
    ensures
        cell_consistent(cv_detach(cv, id, c[id]), c.insert(id, m2), p),
{
    let m = c[id];
    let c2 = c.insert(id, m2);
    let s = cv.entities;
    assert(s.contains(id));
    let cv2 = cv_detach(cv, id, m);
    assert(s.subset_of(c.dom()));
    lemma_len_subset(s, c.dom());
    assert(cv2.entities =~= occupants(c2, p));
    assert forall|t: ComponentType| #[trigger] cv2.counts[t] == with_type(c2, cv2.entities, t).len()
        by {
        let wt = with_type(c, s, t);
        assert(wt.subset_of(c.dom()));
        lemma_len_subset(wt, c.dom());
        if m.contains_key(t) {
            assert(with_type(c2, s.remove(id), t) =~= wt.remove(id));
            assert(wt.contains(id));
            assert(wt.remove(id).len() == wt.len() - 1);
        } else {
            assert(with_type(c2, s.remove(id), t) =~= wt);
            assert(!wt.contains(id));
        }
    }
    lemma_sum_opacity_remove(c, s, id);
    lemma_sum_opacity_congruence(c, c2, s.remove(id));
}

/// An entity arriving on a cell with its current components and then having
/// its changes applied leaves the cell consistent with the store whose row
/// for it is the merged table placing it there.
pub proof fn lemma_attach_changes_consistent(
    cv: CellView,
    c: Map<EntityId, Map<ComponentType, Component>>,
    p: Vector2,
    id: EntityId,
    ch: Map<ComponentType, Component>,
)
    requires
        c.dom().finite(),
        cell_consistent(cv, c, p),
        c.contains_key(id),
        c[id].contains_key(ComponentType::Position),
        spec_position(c[id]) != Some(p),
        spec_position(c[id].union_prefer_right(ch)) == Some(p),
    ensures
        cell_consistent(
            crate::spatial_hash::cv_changes(cv_attach(cv, id, c[id]), c[id], ch),
            c.insert(id, c[id].union_prefer_right(ch)),
            p,
        ),
{
    let m = c[id];
    let m2 = m.union_prefer_right(ch);
    let c2 = c.insert(id, m2);
    let s = cv.entities;
    assert(!s.contains(id));
    let cva = cv_attach(cv, id, m);
    let cv2 = crate::spatial_hash::cv_changes(cva, m, ch);
    assert(s.subset_of(c.dom()));
    lemma_len_subset(s, c.dom());
    assert(cv2.entities =~= occupants(c2, p));
    assert forall|t: ComponentType| #[trigger] cv2.counts[t] == with_type(c2, cv2.entities, t).len()
        by {
        let wt = with_type(c, s, t);
        assert(wt.subset_of(c.dom()));
        lemma_len_subset(wt, c.dom());
        assert(!wt.contains(id));
        if m2.contains_key(t) {
            assert(with_type(c2, s.insert(id), t) =~= wt.insert(id));
            assert(wt.insert(id).len() == wt.len() + 1);
            if t == ComponentType::Position {
                assert(m.contains_key(t));
                assert(cv2.counts[t] == cv.counts[t] + 1);
            }
        } else {
            assert(with_type(c2, s.insert(id), t) =~= wt);
        }
    }
    lemma_sum_opacity_congruence(c, c2, s);
    lemma_sum_opacity_insert(c2, s, id);
    lemma_delta_opacity_merge(m, ch);
}

/// Every in-bounds cell of a grid is consistent with the store.
pub open spec fn grid_consistent(
    g: Seq<CellView>,
    w: int,
    h: int,
    c: Map<EntityId, Map<ComponentType, Component>>,
) -> bool {
    forall|x: int, y: int|
        coord_in_bounds(w, h, x, y) ==> cell_consistent(
            #[trigger] g[grid_index(w, x, y)],
            c,
            Vector2 { x: x as isize, y: y as isize },
        )
}

/// Opacity conservation and occupancy consistency are invariants of entity
/// creation: replaying a created entity against a consistent grid leaves
/// every cell consistent with the store that now holds the entity.
pub proof fn lemma_add_entity_preserves_consistency(
    g: Seq<CellView>,
    w: int,
    h: int,
    id: EntityId,
    m: Map<ComponentType, Component>,
    turn_count: u64,
    c: Map<EntityId, Map<ComponentType, Component>>,
)
    requires
        g.len() == w * h,
        w <= isize::MAX,
        h <= isize::MAX,
        c.dom().finite(),
        grid_consistent(g, w, h, c),
        !c.contains_key(id),
        match spec_position(m) {
            Some(p) => coord_in_bounds(w, h, p.x as int, p.y as int),
            None => true,
        },
    ensures
        grid_consistent(spec_sh_add_entity(g, w, id, m, turn_count), w, h, c.insert(id, m)),
{
    let g2 = spec_sh_add_entity(g, w, id, m, turn_count);
    let c2 = c.insert(id, m);
    match spec_position(m) {
        None => {
            assert forall|x: int, y: int| coord_in_bounds(w, h, x, y) implies cell_consistent(
                #[trigger] g2[grid_index(w, x, y)],
                c2,
                Vector2 { x: x as isize, y: y as isize },
            ) by {
                lemma_grid_index(w, h, x, y, x, y);
                lemma_other_cell_consistent_insert(
                    g[grid_index(w, x, y)],
                    c,
                    Vector2 { x: x as isize, y: y as isize },
                    id,
                    m,
                );
            }
        }
        Some(p) => {
            let idx = grid_index(w, p.x as int, p.y as int);
            lemma_grid_index(w, h, p.x as int, p.y as int, p.x as int, p.y as int);
            assert forall|x: int, y: int| coord_in_bounds(w, h, x, y) implies cell_consistent(
                #[trigger] g2[grid_index(w, x, y)],
                c2,
                Vector2 { x: x as isize, y: y as isize },
            ) by {
                lemma_grid_index(w, h, x, y, p.x as int, p.y as int);
                let q = Vector2 { x: x as isize, y: y as isize };
                if grid_index(w, x, y) == idx {
                    assert(q == p);
                    lemma_attach_consistent(g[idx], c, p, id, m);
                    lemma_stamp_consistent(cv_attach(g[idx], id, m), c2, p, turn_count);
                    assert(g2[idx] == cv_stamp(cv_attach(g[idx], id, m), turn_count));
                } else {
                    assert(g2[grid_index(w, x, y)] == g[grid_index(w, x, y)]);
                    assert(q.x as int == x && q.y as int == y);
                    if spec_position(m) == Some(q) {
                        assert(p == q);
                        assert(grid_index(w, x, y) == idx);
                    }
                    lemma_other_cell_consistent_insert(g[grid_index(w, x, y)], c, q, id, m);
                }
            }
        }
    }
}

/// Opacity conservation and occupancy consistency are invariants of entity
/// destruction: replaying a destroyed entity against a consistent grid
/// leaves every cell consistent with the store that no longer holds it.
pub proof fn lemma_remove_entity_preserves_consistency(
    g: Seq<CellView>,
    w: int,
    h: int,
    id: EntityId,
    turn_count: u64,
    c: Map<EntityId, Map<ComponentType, Component>>,
)
    requires
        g.len() == w * h,
        w <= isize::MAX,
        h <= isize::MAX,
        c.dom().finite(),
        grid_consistent(g, w, h, c),
        c.contains_key(id),
        match spec_position(c[id]) {
            Some(p) => coord_in_bounds(w, h, p.x as int, p.y as int),
            None => true,
        },
    ensures
        grid_consistent(
            spec_sh_remove_entity(g, w, id, c[id], turn_count),
            w,
            h,
            c.remove(id),
        ),
{
    let m = c[id];
    let g2 = spec_sh_remove_entity(g, w, id, m, turn_count);
    let c2 = c.remove(id);
    match spec_position(m) {
        None => {
            assert forall|x: int, y: int| coord_in_bounds(w, h, x, y) implies cell_consistent(
                #[trigger] g2[grid_index(w, x, y)],
                c2,
                Vector2 { x: x as isize, y: y as isize },
            ) by {
                lemma_grid_index(w, h, x, y, x, y);
                lemma_other_cell_consistent_remove(
                    g[grid_index(w, x, y)],
                    c,
                    Vector2 { x: x as isize, y: y as isize },
                    id,
                );
            }
        }
        Some(p) => {
            let idx = grid_index(w, p.x as int, p.y as int);
            lemma_grid_index(w, h, p.x as int, p.y as int, p.x as int, p.y as int);
            assert forall|x: int, y: int| coord_in_bounds(w, h, x, y) implies cell_consistent(
                #[trigger] g2[grid_index(w, x, y)],
                c2,
                Vector2 { x: x as isize, y: y as isize },
            ) by {
                lemma_grid_index(w, h, x, y, p.x as int, p.y as int);
                let q = Vector2 { x: x as isize, y: y as isize };
                if grid_index(w, x, y) == idx {
                    assert(q == p);
                    lemma_detach_consistent(g[idx], c, p, id);
                    lemma_stamp_consistent(cv_detach(g[idx], id, m), c2, p, turn_count);
                    assert(g2[idx] == cv_stamp(cv_detach(g[idx], id, m), turn_count));
                } else {
                    assert(g2[grid_index(w, x, y)] == g[grid_index(w, x, y)]);
                    assert(q.x as int == x && q.y as int == y);
                    if spec_position(c[id]) == Some(q) {
                        assert(p == q);
                        assert(grid_index(w, x, y) == idx);
                    }
                    lemma_other_cell_consistent_remove(g[grid_index(w, x, y)], c, q, id);
                }
            }
        }
    }
}

/// Opacity conservation and occupancy consistency are invariants of
/// component addition: replaying one entity's added or overwritten
/// components against a consistent grid leaves every cell consistent with
/// the store whose row for that entity is the merged table.
///
/// The one configuration left out is an entity gaining a position it did
/// not have: there the replay attaches the entity's old, position-less
/// component set and skips the position delta, so the new cell's position
/// counter undercounts by one.
pub proof fn lemma_add_components_preserves_consistency(
    g: Seq<CellView>,
    w: int,
    h: int,
    id: EntityId,
    ch: Map<ComponentType, Component>,
    turn_count: u64,
    c: Map<EntityId, Map<ComponentType, Component>>,
)
    requires
        g.len() == w * h,
        w <= isize::MAX,
        h <= isize::MAX,
        c.dom().finite(),
        grid_consistent(g, w, h, c),
        c.contains_key(id),
        ch.contains_key(ComponentType::Position) ==> ch[ComponentType::Position] is Position,
        spec_position(ch) is Some ==> spec_position(c[id]) is Some,
        match spec_position(c[id]) {
            Some(a) => coord_in_bounds(w, h, a.x as int, a.y as int),
            None => true,
        },
        match spec_position(ch) {
            Some(q) => coord_in_bounds(w, h, q.x as int, q.y as int),
            None => true,
        },
    ensures
        grid_consistent(
            crate::spatial_hash::spec_sh_add_components(g, w, id, c[id], ch, turn_count),
            w,
            h,
            c.insert(id, c[id].union_prefer_right(ch)),
        ),
{
    let m = c[id];
    let m2 = m.union_prefer_right(ch);
    let c2 = c.insert(id, m2);
    let g2 = crate::spatial_hash::spec_sh_add_components(g, w, id, m, ch, turn_count);
    match spec_position(ch) {
        None => {
            assert(!ch.contains_key(ComponentType::Position));
            assert(spec_position(m2) == spec_position(m));
            match spec_position(m) {
                None => {
                    assert(g2 == g);
                    assert forall|x: int, y: int| coord_in_bounds(w, h, x, y)
                        implies cell_consistent(
                        #[trigger] g2[grid_index(w, x, y)],
                        c2,
                        Vector2 { x: x as isize, y: y as isize },
                    ) by {
                        lemma_grid_index(w, h, x, y, x, y);
                        lemma_other_cell_consistent_row_change(
                            g[grid_index(w, x, y)],
                            c,
                            Vector2 { x: x as isize, y: y as isize },
                            id,
                            m2,
                        );
                    }
                }
                Some(cp) => {
                    let idx = grid_index(w, cp.x as int, cp.y as int);
                    lemma_grid_index(w, h, cp.x as int, cp.y as int, cp.x as int, cp.y as int);
                    assert forall|x: int, y: int| coord_in_bounds(w, h, x, y)
                        implies cell_consistent(
                        #[trigger] g2[grid_index(w, x, y)],
                        c2,
                        Vector2 { x: x as isize, y: y as isize },
                    ) by {
                        lemma_grid_index(w, h, x, y, cp.x as int, cp.y as int);
                        let p = Vector2 { x: x as isize, y: y as isize };
                        if grid_index(w, x, y) == idx {
                            assert(p == cp);
                            lemma_changes_consistent(g[idx], c, cp, id, ch);
                            lemma_stamp_consistent(
                                crate::spatial_hash::cv_changes(g[idx], m, ch),
                                c2,
                                cp,
                                turn_count,
                            );
                        } else {
                            assert(p.x as int == x && p.y as int == y);
                            if spec_position(m) == Some(p) {
                                assert(cp == p);
                                assert(grid_index(w, x, y) == idx);
                            }
                            lemma_other_cell_consistent_row_change(
                                g[grid_index(w, x, y)],
                                c,
                                p,
                                id,
                                m2,
                            );
                        }
                    }
                }
            }
        }
        Some(q) => {
            let a = spec_position(m)->Some_0;
            assert(spec_position(m) == Some(a));
            assert(m.contains_key(ComponentType::Position));
            assert(m2[ComponentType::Position] == ch[ComponentType::Position]);
            assert(spec_position(m2) == Some(q));
            let ia = grid_index(w, a.x as int, a.y as int);
            let iq = grid_index(w, q.x as int, q.y as int);
            lemma_grid_index(w, h, a.x as int, a.y as int, q.x as int, q.y as int);
            lemma_grid_index(w, h, q.x as int, q.y as int, a.x as int, a.y as int);
            let gd = g.update(ia, cv_stamp(cv_detach(g[ia], id, m), turn_count));
            let att = cv_attach(gd[iq], id, m);
            assert(g2 == gd.update(iq, att).update(
                iq,
                cv_stamp(crate::spatial_hash::cv_changes(att, m, ch), turn_count),
            ));
            if ia == iq {
                assert(a.x as int == q.x as int && a.y as int == q.y as int);
                assert(a == q);
                // the entity leaves and at once re-enters the same cell:
                // field for field, that is the plain component change
                let cv = g[ia];
                let ax = a.x as int;
                let ay = a.y as int;
                assert(ax as isize == a.x && ay as isize == a.y);
                assert(cell_consistent(
                    g[grid_index(w, ax, ay)],
                    c,
                    Vector2 { x: ax as isize, y: ay as isize },
                ));
                assert(cell_consistent(cv, c, a));
                assert(cv.entities.contains(id));
                let cvd = cv_stamp(cv_detach(cv, id, m), turn_count);
                assert(gd[iq] == cvd);
                assert(!cvd.entities.contains(id));
                assert(att.entities =~= cv.entities);
                assert forall|t: ComponentType| #[trigger] att.counts[t] == cv.counts[t] by {
                    assert(cvd.counts[t] == cv.counts[t] - if m.contains_key(t) {
                        1int
                    } else {
                        0int
                    });
                }
                assert(att.opacity == cv.opacity);
                let chg = crate::spatial_hash::cv_changes(att, m, ch);
                let chg0 = crate::spatial_hash::cv_changes(cv, m, ch);
                assert(chg.counts =~= chg0.counts);
                assert(chg.entities =~= chg0.entities);
                assert(chg.opacity == chg0.opacity);
                assert(cv_stamp(chg, turn_count) == cv_stamp(chg0, turn_count));
                lemma_changes_consistent(cv, c, a, id, ch);
                lemma_stamp_consistent(chg0, c2, a, turn_count);
                assert forall|x: int, y: int| coord_in_bounds(w, h, x, y)
                    implies cell_consistent(
                    #[trigger] g2[grid_index(w, x, y)],
                    c2,
                    Vector2 { x: x as isize, y: y as isize },
                ) by {
                    lemma_grid_index(w, h, x, y, a.x as int, a.y as int);
                    let p = Vector2 { x: x as isize, y: y as isize };
                    if grid_index(w, x, y) == ia {
                        assert(p == a);
                        assert(g2[grid_index(w, x, y)] == cv_stamp(chg0, turn_count));
                    } else {
                        assert(g2[grid_index(w, x, y)] == g[grid_index(w, x, y)]);
                        assert(p.x as int == x && p.y as int == y);
                        if spec_position(m) == Some(p) || spec_position(m2) == Some(p) {
                            assert(a == p || q == p);
                            assert(grid_index(w, x, y) == ia || grid_index(w, x, y) == iq);
                        }
                        lemma_other_cell_consistent_row_change(
                            g[grid_index(w, x, y)],
                            c,
                            p,
                            id,
                            m2,
                        );
                    }
                }
            } else {
                assert(a != q) by {
                    if a == q {
                        assert(ia == iq);
                    }
                }
                assert(gd[iq] == g[iq]);
                lemma_detach_row_change_consistent(g[ia], c, a, id, m2);
                lemma_stamp_consistent(cv_detach(g[ia], id, m), c2, a, turn_count);
                lemma_attach_changes_consistent(g[iq], c, q, id, ch);
                lemma_stamp_consistent(
                    crate::spatial_hash::cv_changes(cv_attach(g[iq], id, m), m, ch),
                    c2,
                    q,
                    turn_count,
                );
                assert forall|x: int, y: int| coord_in_bounds(w, h, x, y)
                    implies cell_consistent(
                    #[trigger] g2[grid_index(w, x, y)],
                    c2,
                    Vector2 { x: x as isize, y: y as isize },
                ) by {
                    lemma_grid_index(w, h, x, y, a.x as int, a.y as int);
                    lemma_grid_index(w, h, x, y, q.x as int, q.y as int);
                    let p = Vector2 { x: x as isize, y: y as isize };
                    if grid_index(w, x, y) == ia {
                        assert(p == a);
                        assert(g2[ia] == cv_stamp(cv_detach(g[ia], id, m), turn_count));
                    } else if grid_index(w, x, y) == iq {
                        assert(p == q);
                        assert(g2[iq] == cv_stamp(
                            crate::spatial_hash::cv_changes(cv_attach(g[iq], id, m), m, ch),
                            turn_count,
                        ));
                    } else {
                        assert(g2[grid_index(w, x, y)] == g[grid_index(w, x, y)]);
                        assert(p.x as int == x && p.y as int == y);
                        if spec_position(m) == Some(p) || spec_position(m2) == Some(p) {
                            assert(a == p || q == p);
                            assert(grid_index(w, x, y) == ia || grid_index(w, x, y) == iq);
                        }
                        lemma_other_cell_consistent_row_change(
                            g[grid_index(w, x, y)],
                            c,
                            p,
                            id,
                            m2,
                        );
                    }
                }
            }
        }
    }
}

/// Opacity conservation and occupancy consistency are invariants of
/// component removal: replaying one entity's removed discriminants against a
/// consistent grid leaves every cell consistent with the store whose row for
/// that entity is the thinned table.
pub proof fn lemma_remove_components_preserves_consistency(
    g: Seq<CellView>,
    w: int,
    h: int,
    id: EntityId,
    ts: Seq<ComponentType>,
    turn_count: u64,
    c: Map<EntityId, Map<ComponentType, Component>>,
)
    requires
        g.len() == w * h,
        w <= isize::MAX,
        h <= isize::MAX,
        c.dom().finite(),
        grid_consistent(g, w, h, c),
        c.contains_key(id),
        match spec_position(c[id]) {
            Some(cp) => coord_in_bounds(w, h, cp.x as int, cp.y as int),
            None => true,
        },
    ensures
        grid_consistent(
            crate::spatial_hash::spec_sh_remove_components(g, w, id, c[id], ts, turn_count),
            w,
            h,
            c.insert(id, c[id].remove_keys(ts.to_set())),
        ),
{
    let m = c[id];
    let m2 = m.remove_keys(ts.to_set());
    let c2 = c.insert(id, m2);
    let g2 = crate::spatial_hash::spec_sh_remove_components(g, w, id, m, ts, turn_count);
    match spec_position(m) {
        None => {
            assert(g2 == g);
            assert(spec_position(m2) is None) by {
                if m2.contains_key(ComponentType::Position) {
                    assert(m.contains_key(ComponentType::Position));
                    assert(m2[ComponentType::Position] == m[ComponentType::Position]);
                }
            }
            assert forall|x: int, y: int| coord_in_bounds(w, h, x, y) implies cell_consistent(
                #[trigger] g2[grid_index(w, x, y)],
                c2,
                Vector2 { x: x as isize, y: y as isize },
            ) by {
                lemma_grid_index(w, h, x, y, x, y);
                lemma_other_cell_consistent_row_change(
                    g[grid_index(w, x, y)],
                    c,
                    Vector2 { x: x as isize, y: y as isize },
                    id,
                    m2,
                );
            }
        }
        Some(cp) => {
            let idx = grid_index(w, cp.x as int, cp.y as int);
            lemma_grid_index(w, h, cp.x as int, cp.y as int, cp.x as int, cp.y as int);
            if ts.contains(ComponentType::Position) {
                assert(!m2.contains_key(ComponentType::Position));
                assert(spec_position(m2) != Some(cp));
                lemma_detach_row_change_consistent(g[idx], c, cp, id, m2);
                lemma_stamp_consistent(cv_detach(g[idx], id, m), c2, cp, turn_count);
            } else {
                assert(m2.contains_key(ComponentType::Position) && m2[ComponentType::Position]
                    == m[ComponentType::Position]);
                assert(spec_position(m2) == Some(cp));
                lemma_removes_consistent(g[idx], c, cp, id, ts);
                lemma_stamp_consistent(
                    crate::spatial_hash::cv_removes(g[idx], m, ts),
                    c2,
                    cp,
                    turn_count,
                );
            }
            assert forall|x: int, y: int| coord_in_bounds(w, h, x, y) implies cell_consistent(
                #[trigger] g2[grid_index(w, x, y)],
                c2,
                Vector2 { x: x as isize, y: y as isize },
            ) by {
                lemma_grid_index(w, h, x, y, cp.x as int, cp.y as int);
                let p = Vector2 { x: x as isize, y: y as isize };
                if grid_index(w, x, y) == idx {
                    assert(p == cp);
                } else {
                    assert(g2[grid_index(w, x, y)] == g[grid_index(w, x, y)]);
                    assert(p.x as int == x && p.y as int == y);
                    if spec_position(m) == Some(p) || spec_position(m2) == Some(p) {
                        assert(cp == p);
                        assert(grid_index(w, x, y) == idx);
                    }
                    lemma_other_cell_consistent_row_change(g[grid_index(w, x, y)], c, p, id, m2);
                }
            }
        }
    }
}

/// Move correctness: replaying a diff that changes an entity's position
/// from `a` to `q`, and changes nothing else about it, removes the entity's
/// id and opacity contribution from the cell at `a` and adds both to the
/// cell at `q`, touching no other entity in either cell and no other cell at
/// all.
pub proof fn lemma_move_correctness(
    g: Seq<CellView>,
    w: int,
    h: int,
    id: EntityId,
    m: Map<ComponentType, Component>,
    ch: Map<ComponentType, Component>,
    turn_count: u64,
    a: Vector2,
    q: Vector2,
)
    requires
        g.len() == w * h,
        w <= isize::MAX,
        h <= isize::MAX,
        spec_position(m) == Some(a),
        spec_position(ch) == Some(q),
        forall|t: ComponentType| ch.contains_key(t) ==> t == ComponentType::Position,
        a != q,
        coord_in_bounds(w, h, a.x as int, a.y as int),
        coord_in_bounds(w, h, q.x as int, q.y as int),
        g[grid_index(w, a.x as int, a.y as int)].entities.contains(id),
        !g[grid_index(w, q.x as int, q.y as int)].entities.contains(id),
    ensures
        ({
            let g2 = crate::spatial_hash::spec_sh_add_components(g, w, id, m, ch, turn_count);
            let ia = grid_index(w, a.x as int, a.y as int);
            let iq = grid_index(w, q.x as int, q.y as int);
            &&& g2.len() == g.len()
            &&& g2[ia].entities == g[ia].entities.remove(id)
            &&& g2[ia].opacity == g[ia].opacity - opacity_of(m)
            &&& g2[iq].entities == g[iq].entities.insert(id)
            &&& g2[iq].opacity == g[iq].opacity + opacity_of(m)
            &&& forall|e: EntityId|
                e != id ==> g2[ia].entities.contains(e) == g[ia].entities.contains(e)
            &&& forall|e: EntityId|
                e != id ==> g2[iq].entities.contains(e) == g[iq].entities.contains(e)
            &&& forall|x: int, y: int|
                coord_in_bounds(w, h, x, y) && grid_index(w, x, y) != ia && grid_index(w, x, y)
                    != iq ==> #[trigger] g2[grid_index(w, x, y)] == g[grid_index(w, x, y)]
        }),
{
    let g2 = crate::spatial_hash::spec_sh_add_components(g, w, id, m, ch, turn_count);
    let ia = grid_index(w, a.x as int, a.y as int);
    let iq = grid_index(w, q.x as int, q.y as int);
    lemma_grid_index(w, h, a.x as int, a.y as int, q.x as int, q.y as int);
    lemma_grid_index(w, h, q.x as int, q.y as int, a.x as int, a.y as int);
    assert(0 <= ia < g.len() && 0 <= iq < g.len());
    assert(ia != iq) by {
        if ia == iq {
            assert(a.x as int == q.x as int && a.y as int == q.y as int);
            assert(a == q);
        }
    }
    let gd = g.update(ia, cv_stamp(cv_detach(g[ia], id, m), turn_count));
    assert(gd[iq] == g[iq]);
    let att = cv_attach(gd[iq], id, m);
    // the changes carry only the position, so they move no aggregate
    assert(!ch.contains_key(ComponentType::Opacity));
    assert(crate::spatial_hash::delta_opacity(m, ch) == 0);
    let chg = crate::spatial_hash::cv_changes(att, m, ch);
    assert(chg.counts =~= att.counts);
    assert(g2 == gd.update(iq, att).update(iq, cv_stamp(chg, turn_count)));
    assert(g2[ia] == cv_stamp(cv_detach(g[ia], id, m), turn_count));
    assert(g2[ia].entities =~= g[ia].entities.remove(id));
    assert(g2[iq].entities =~= g[iq].entities.insert(id));
    assert forall|x: int, y: int|
        coord_in_bounds(w, h, x, y) && grid_index(w, x, y) != ia && grid_index(w, x, y)
            != iq implies #[trigger] g2[grid_index(w, x, y)] == g[grid_index(w, x, y)] by {
        lemma_grid_index(w, h, x, y, x, y);
    }
}

/// A component whose discriminant is the position discriminant is a
/// position.
proof fn lemma_position_tagged(v: Component)
    requires
        v.to_type() == ComponentType::Position,
    ensures
        v is Position,
{
}

/// Consistency threads through the replay of every created entity.
proof fn lemma_phase_added(
    g: Seq<CellView>,
    w: int,
    h: int,
    s: Seq<(EntityId, Map<ComponentType, Component>)>,
    turn_count: u64,
    c: Map<EntityId, Map<ComponentType, Component>>,
)
    requires
        g.len() == w * h,
        w <= isize::MAX,
        h <= isize::MAX,
        c.dom().finite(),
        grid_consistent(g, w, h, c),
        crate::assoc::distinct_keys(s),
        forall|j: int| 0 <= j < s.len() ==> !c.contains_key((#[trigger] s[j]).0),
        forall|j: int|
            0 <= j < s.len() ==> match spec_position((#[trigger] s[j]).1) {
                Some(p) => coord_in_bounds(w, h, p.x as int, p.y as int),
                None => true,
            },
    ensures
        crate::spatial_hash::spec_update_added(g, w, s, turn_count).len() == g.len(),
        crate::update::spec_apply_added(c, s).dom().finite(),
        grid_consistent(
            crate::spatial_hash::spec_update_added(g, w, s, turn_count),
            w,
            h,
            crate::update::spec_apply_added(c, s),
        ),
        forall|id: EntityId|
            #[trigger] crate::update::spec_apply_added(c, s).contains_key(id) <==> c.contains_key(
                id,
            ) || crate::assoc::assoc_map(s).dom().contains(id),
        forall|id: EntityId|
            c.contains_key(id) ==> #[trigger] crate::update::spec_apply_added(c, s)[id] == c[id],
    decreases s.len(),
{
    if s.len() == 0 {
    } else {
        let s0 = s.drop_last();
        assert(forall|j: int| 0 <= j < s0.len() ==> s0[j] == s[j]);
        lemma_phase_added(g, w, h, s0, turn_count, c);
        let id = s.last().0;
        let m = s.last().1;
        let gk = crate::spatial_hash::spec_update_added(g, w, s0, turn_count);
        let ck = crate::update::spec_apply_added(c, s0);
        assert(!crate::assoc::assoc_map(s0).dom().contains(id)) by {
            if crate::assoc::assoc_map(s0).dom().contains(id) {
                crate::assoc::lemma_assoc_dom(s0, id);
                let j = choose|j: int| 0 <= j < s0.len() && (#[trigger] s0[j]).0 == id;
                assert(s[j].0 == s[s.len() - 1].0);
            }
        }
        assert(!ck.contains_key(id));
        assert(0 <= s.len() - 1 < s.len() && s[s.len() - 1] == s.last());
        lemma_add_entity_preserves_consistency(gk, w, h, id, m, turn_count, ck);
        let gfin = crate::spatial_hash::spec_sh_add_entity(gk, w, id, m, turn_count);
        assert(crate::spatial_hash::spec_update_added(g, w, s, turn_count) == gfin);
        assert(gfin.len() == gk.len()) by {
            match spec_position(m) {
                Some(p) => {
                    lemma_grid_index(w, h, p.x as int, p.y as int, p.x as int, p.y as int);
                }
                None => {}
            }
        }
        assert(crate::update::spec_apply_added(c, s) == crate::update::spec_apply_added(
            c,
            s0,
        ).insert(id, m));
    }
}

/// Consistency threads through the replay of every destroyed entity, whose
/// components are read from the pre-diff store.
proof fn lemma_phase_removed(
    g: Seq<CellView>,
    w: int,
    h: int,
    s: Seq<EntityId>,
    turn_count: u64,
    cpre: Map<EntityId, Map<ComponentType, Component>>,
    c1: Map<EntityId, Map<ComponentType, Component>>,
)
    requires
        g.len() == w * h,
        w <= isize::MAX,
        h <= isize::MAX,
        c1.dom().finite(),
        grid_consistent(g, w, h, c1),
        s.no_duplicates(),
        forall|j: int| 0 <= j < s.len() ==> c1.contains_key(#[trigger] s[j]),
        forall|j: int| 0 <= j < s.len() ==> c1[#[trigger] s[j]] == cpre[s[j]],
        forall|j: int|
            0 <= j < s.len() ==> match spec_position(cpre[#[trigger] s[j]]) {
                Some(p) => coord_in_bounds(w, h, p.x as int, p.y as int),
                None => true,
            },
    ensures
        crate::spatial_hash::spec_update_removed(g, w, s, cpre, turn_count).len() == g.len(),
        crate::update::spec_remove_ids(c1, s).dom().finite(),
        grid_consistent(
            crate::spatial_hash::spec_update_removed(g, w, s, cpre, turn_count),
            w,
            h,
            crate::update::spec_remove_ids(c1, s),
        ),
        forall|id: EntityId|
            #[trigger] crate::update::spec_remove_ids(c1, s).contains_key(id) <==> c1.contains_key(
                id,
            ) && !s.contains(id),
        forall|id: EntityId|
            crate::update::spec_remove_ids(c1, s).contains_key(id)
                ==> #[trigger] crate::update::spec_remove_ids(c1, s)[id] == c1[id],
    decreases s.len(),
{
    if s.len() == 0 {
        assert(forall|id: EntityId| !s.contains(id));
    } else {
        let s0 = s.drop_last();
        assert(forall|j: int| 0 <= j < s0.len() ==> s0[j] == s[j]);
        assert forall|a: int, b: int| 0 <= a < b < s0.len() implies s0[a] != s0[b] by {
            assert(s[a] == s0[a] && s[b] == s0[b]);
        }
        lemma_phase_removed(g, w, h, s0, turn_count, cpre, c1);
        let id = s.last();
        assert(0 <= s.len() - 1 < s.len() && s[s.len() - 1] == id);
        let gk = crate::spatial_hash::spec_update_removed(g, w, s0, cpre, turn_count);
        let ck = crate::update::spec_remove_ids(c1, s0);
        assert(!s0.contains(id)) by {
            if s0.contains(id) {
                let j = choose|j: int| 0 <= j < s0.len() && s0[j] == id;
                assert(s[j] == s[s.len() - 1]);
            }
        }
        assert(ck.contains_key(id));
        assert(ck[id] == c1[id]);
        assert(ck[id] == cpre[id]);
        lemma_remove_entity_preserves_consistency(gk, w, h, id, turn_count, ck);
        assert(crate::spatial_hash::spec_sh_remove_entity(gk, w, id, ck[id], turn_count)
            == crate::spatial_hash::spec_sh_remove_entity(gk, w, id, cpre[id], turn_count));
        assert(s =~= s0.push(id));
        crate::assoc::lemma_push_contains(s0, id);
        let gfin = crate::spatial_hash::spec_sh_remove_entity(gk, w, id, cpre[id], turn_count);
        assert(crate::spatial_hash::spec_update_removed(g, w, s, cpre, turn_count) == gfin);
        assert(gfin.len() == gk.len()) by {
            match spec_position(cpre[id]) {
                Some(p) => {
                    lemma_grid_index(w, h, p.x as int, p.y as int, p.x as int, p.y as int);
                }
                None => {}
            }
        }
        assert(crate::update::spec_remove_ids(c1, s) == crate::update::spec_remove_ids(
            c1,
            s0,
        ).remove(id));
    }
}

/// Consistency threads through the replay of every entity's component
/// additions, whose current components are read from the pre-diff store.
proof fn lemma_phase_comp_added(
    g: Seq<CellView>,
    w: int,
    h: int,
    s: Seq<(EntityId, Map<ComponentType, Component>)>,
    turn_count: u64,
    cpre: Map<EntityId, Map<ComponentType, Component>>,
    c2: Map<EntityId, Map<ComponentType, Component>>,
)
    requires
        g.len() == w * h,
        w <= isize::MAX,
        h <= isize::MAX,
        c2.dom().finite(),
        grid_consistent(g, w, h, c2),
        crate::assoc::distinct_keys(s),
        forall|j: int| 0 <= j < s.len() ==> c2.contains_key((#[trigger] s[j]).0),
        forall|j: int| 0 <= j < s.len() ==> c2[(#[trigger] s[j]).0] == cpre[s[j].0],
        forall|j: int| 0 <= j < s.len() ==> crate::table::tagged((#[trigger] s[j]).1),
        forall|j: int|
            0 <= j < s.len() ==> (spec_position((#[trigger] s[j]).1) is Some ==> spec_position(
                cpre[s[j].0],
            ) is Some),
        forall|j: int|
            0 <= j < s.len() ==> match spec_position(cpre[(#[trigger] s[j]).0]) {
                Some(p) => coord_in_bounds(w, h, p.x as int, p.y as int),
                None => true,
            },
        forall|j: int|
            0 <= j < s.len() ==> match spec_position((#[trigger] s[j]).1) {
                Some(p) => coord_in_bounds(w, h, p.x as int, p.y as int),
                None => true,
            },
    ensures
        crate::spatial_hash::spec_update_comp_added(g, w, s, cpre, turn_count).len() == g.len(),
        crate::update::spec_apply_comp_added(c2, s).dom().finite(),
        grid_consistent(
            crate::spatial_hash::spec_update_comp_added(g, w, s, cpre, turn_count),
            w,
            h,
            crate::update::spec_apply_comp_added(c2, s),
        ),
        forall|id: EntityId|
            #[trigger] crate::update::spec_apply_comp_added(c2, s).contains_key(id)
                <==> c2.contains_key(id),
        forall|id: EntityId|
            c2.contains_key(id) && !crate::assoc::assoc_map(s).dom().contains(id)
                ==> #[trigger] crate::update::spec_apply_comp_added(c2, s)[id] == c2[id],
    decreases s.len(),
{
    if s.len() == 0 {
    } else {
        let s0 = s.drop_last();
        assert(forall|j: int| 0 <= j < s0.len() ==> s0[j] == s[j]);
        lemma_phase_comp_added(g, w, h, s0, turn_count, cpre, c2);
        let id = s.last().0;
        let ch = s.last().1;
        assert(0 <= s.len() - 1 < s.len() && s[s.len() - 1] == s.last());
        let gk = crate::spatial_hash::spec_update_comp_added(g, w, s0, cpre, turn_count);
        let ck = crate::update::spec_apply_comp_added(c2, s0);
        assert(!crate::assoc::assoc_map(s0).dom().contains(id)) by {
            if crate::assoc::assoc_map(s0).dom().contains(id) {
                crate::assoc::lemma_assoc_dom(s0, id);
                let j = choose|j: int| 0 <= j < s0.len() && (#[trigger] s0[j]).0 == id;
                assert(s[j].0 == s[s.len() - 1].0);
            }
        }
        assert(ck.contains_key(id) && ck[id] == c2[id]);
        assert(ck[id] == cpre[id]);
        assert(crate::table::tagged(ch));
        assert(ch.contains_key(ComponentType::Position) ==> ch[ComponentType::Position]
            is Position) by {
            if ch.contains_key(ComponentType::Position) {
                lemma_position_tagged(ch[ComponentType::Position]);
            }
        }
        lemma_add_components_preserves_consistency(gk, w, h, id, ch, turn_count, ck);
        assert(crate::spatial_hash::spec_sh_add_components(gk, w, id, ck[id], ch, turn_count)
            == crate::spatial_hash::spec_sh_add_components(gk, w, id, cpre[id], ch, turn_count));
        let gfin = crate::spatial_hash::spec_sh_add_components(gk, w, id, cpre[id], ch, turn_count);
        assert(crate::spatial_hash::spec_update_comp_added(g, w, s, cpre, turn_count) == gfin);
        assert(gfin.len() == gk.len()) by {
            match spec_position(ch) {
                Some(np) => {
                    lemma_grid_index(w, h, np.x as int, np.y as int, np.x as int, np.y as int);
                    match spec_position(cpre[id]) {
                        Some(op) => {
                            lemma_grid_index(
                                w,
                                h,
                                op.x as int,
                                op.y as int,
                                op.x as int,
                                op.y as int,
                            );
                        }
                        None => {}
                    }
                }
                None => {
                    match spec_position(cpre[id]) {
                        Some(cp) => {
                            lemma_grid_index(
                                w,
                                h,
                                cp.x as int,
                                cp.y as int,
                                cp.x as int,
                                cp.y as int,
                            );
                        }
                        None => {}
                    }
                }
            }
        }
        assert(crate::update::spec_apply_comp_added(c2, s) == ck.insert(
            id,
            ck[id].union_prefer_right(ch),
        ));
    }
}

/// Consistency threads through the replay of every entity's component
/// removals, whose current components are read from the pre-diff store.
proof fn lemma_phase_comp_removed(
    g: Seq<CellView>,
    w: int,
    h: int,
    s: Seq<(EntityId, Seq<ComponentType>)>,
    turn_count: u64,
    cpre: Map<EntityId, Map<ComponentType, Component>>,
    c3: Map<EntityId, Map<ComponentType, Component>>,
)
    requires
        g.len() == w * h,
        w <= isize::MAX,
        h <= isize::MAX,
        c3.dom().finite(),
        grid_consistent(g, w, h, c3),
        crate::assoc::distinct_keys(s),
        forall|j: int| 0 <= j < s.len() ==> c3.contains_key((#[trigger] s[j]).0),
        forall|j: int| 0 <= j < s.len() ==> c3[(#[trigger] s[j]).0] == cpre[s[j].0],
        forall|j: int|
            0 <= j < s.len() ==> match spec_position(cpre[(#[trigger] s[j]).0]) {
                Some(p) => coord_in_bounds(w, h, p.x as int, p.y as int),
                None => true,
            },
    ensures
        crate::spatial_hash::spec_update_comp_removed(g, w, s, cpre, turn_count).len() == g.len(),
        grid_consistent(
            crate::spatial_hash::spec_update_comp_removed(g, w, s, cpre, turn_count),
            w,
            h,
            crate::update::spec_apply_comp_removed(c3, s),
        ),
    decreases s.len(),
{
    if s.len() == 0 {
    } else {
        let s0 = s.drop_last();
        assert(forall|j: int| 0 <= j < s0.len() ==> s0[j] == s[j]);
        lemma_phase_comp_removed(g, w, h, s0, turn_count, cpre, c3);
        lemma_comp_removed_store_facts(s0, c3);
        let id = s.last().0;
        let ts = s.last().1;
        assert(0 <= s.len() - 1 < s.len() && s[s.len() - 1] == s.last());
        let gk = crate::spatial_hash::spec_update_comp_removed(g, w, s0, cpre, turn_count);
        let ck = crate::update::spec_apply_comp_removed(c3, s0);
        assert(!crate::assoc::assoc_map(s0).dom().contains(id)) by {
            if crate::assoc::assoc_map(s0).dom().contains(id) {
                crate::assoc::lemma_assoc_dom(s0, id);
                let j = choose|j: int| 0 <= j < s0.len() && (#[trigger] s0[j]).0 == id;
                assert(s[j].0 == s[s.len() - 1].0);
            }
        }
        assert(ck.contains_key(id) && ck[id] == c3[id]);
        assert(ck[id] == cpre[id]);
        lemma_remove_components_preserves_consistency(gk, w, h, id, ts, turn_count, ck);
        assert(crate::spatial_hash::spec_sh_remove_components(gk, w, id, ck[id], ts, turn_count)
            == crate::spatial_hash::spec_sh_remove_components(gk, w, id, cpre[id], ts, turn_count));
        let gfin = crate::spatial_hash::spec_sh_remove_components(gk, w, id, cpre[id], ts, turn_count);
        assert(crate::spatial_hash::spec_update_comp_removed(g, w, s, cpre, turn_count) == gfin);
        assert(gfin.len() == gk.len()) by {
            match spec_position(cpre[id]) {
                Some(cp) => {
                    lemma_grid_index(w, h, cp.x as int, cp.y as int, cp.x as int, cp.y as int);
                }
                None => {}
            }
        }
        assert(crate::update::spec_apply_comp_removed(c3, s) == ck.insert(
            id,
            ck[id].remove_keys(ts.to_set()),
        ));
    }
}

/// The bookkeeping facts of the component-removal fold over the store.
proof fn lemma_comp_removed_store_facts(
    s: Seq<(EntityId, Seq<ComponentType>)>,
    c3: Map<EntityId, Map<ComponentType, Component>>,
)
    requires
        crate::assoc::distinct_keys(s),
        forall|j: int| 0 <= j < s.len() ==> c3.contains_key((#[trigger] s[j]).0),
    ensures
        c3.dom().finite() ==> crate::update::spec_apply_comp_removed(c3, s).dom().finite(),
        forall|id: EntityId|
            #[trigger] crate::update::spec_apply_comp_removed(c3, s).contains_key(id)
                <==> c3.contains_key(id),
        forall|id: EntityId|
            c3.contains_key(id) && !crate::assoc::assoc_map(s).dom().contains(id)
                ==> #[trigger] crate::update::spec_apply_comp_removed(c3, s)[id] == c3[id],
    decreases s.len(),
{
    if s.len() > 0 {
        let s0 = s.drop_last();
        assert(forall|j: int| 0 <= j < s0.len() ==> s0[j] == s[j]);
        lemma_comp_removed_store_facts(s0, c3);
        let id = s.last().0;
        let ts = s.last().1;
        let ck = crate::update::spec_apply_comp_removed(c3, s0);
        assert(crate::update::spec_apply_comp_removed(c3, s) == ck.insert(
            id,
            ck[id].remove_keys(ts.to_set()),
        ));
    }
}

/// Opacity conservation and occupancy/count consistency over a whole step:
/// replaying one diff against a consistent grid while committing the same
/// diff to the store leaves every cell consistent again. Consistency over
/// any sequence of diffs follows by running this law turn after turn.
///
/// The diff must speak coherently of the store it is applied to: created
/// ids are fresh, destroyed and edited ids are live and pairwise disjoint
/// across categories, every position it touches is on the grid, and no
/// entity gains a position it did not have (there the replay undercounts
/// the new cell's position discriminant).
pub proof fn lemma_update_commit_preserves_consistency(
    g: Seq<CellView>,
    w: int,
    h: int,
    summary: UpdateSummary,
    c: Map<EntityId, Map<ComponentType, Component>>,
    turn_count: u64,
)
    requires
        g.len() == w * h,
        w <= isize::MAX,
        h <= isize::MAX,
        c.dom().finite(),
        grid_consistent(g, w, h, c),
        summary.wf(),
        forall|j: int|
            0 <= j < summary.added_seq().len() ==> !c.contains_key(
                (#[trigger] summary.added_seq()[j]).0,
            ),
        forall|j: int|
            0 <= j < summary.removed_seq().len() ==> c.contains_key(
                #[trigger] summary.removed_seq()[j],
            ),
        forall|j: int|
            0 <= j < summary.comp_added_seq().len() ==> c.contains_key(
                (#[trigger] summary.comp_added_seq()[j]).0,
            ),
        forall|j: int|
            0 <= j < summary.comp_added_seq().len() ==> !summary.removed_seq().contains(
                (#[trigger] summary.comp_added_seq()[j]).0,
            ),
        forall|j: int|
            0 <= j < summary.comp_removed_seq().len() ==> c.contains_key(
                (#[trigger] summary.comp_removed_seq()[j]).0,
            ),
        forall|j: int|
            0 <= j < summary.comp_removed_seq().len() ==> !summary.removed_seq().contains(
                (#[trigger] summary.comp_removed_seq()[j]).0,
            ),
        forall|j: int|
            0 <= j < summary.comp_removed_seq().len() ==> !crate::assoc::assoc_map(
                summary.comp_added_seq(),
            ).dom().contains((#[trigger] summary.comp_removed_seq()[j]).0),
        forall|j: int|
            0 <= j < summary.comp_added_seq().len() ==> (spec_position(
                (#[trigger] summary.comp_added_seq()[j]).1,
            ) is Some ==> spec_position(c[summary.comp_added_seq()[j].0]) is Some),
        forall|j: int|
            0 <= j < summary.added_seq().len() ==> match spec_position(
                (#[trigger] summary.added_seq()[j]).1,
            ) {
                Some(p) => coord_in_bounds(w, h, p.x as int, p.y as int),
                None => true,
            },
        forall|j: int|
            0 <= j < summary.removed_seq().len() ==> match spec_position(
                c[#[trigger] summary.removed_seq()[j]],
            ) {
                Some(p) => coord_in_bounds(w, h, p.x as int, p.y as int),
                None => true,
            },
        forall|j: int|
            0 <= j < summary.comp_added_seq().len() ==> match spec_position(
                c[(#[trigger] summary.comp_added_seq()[j]).0],
            ) {
                Some(p) => coord_in_bounds(w, h, p.x as int, p.y as int),
                None => true,
            },
        forall|j: int|
            0 <= j < summary.comp_added_seq().len() ==> match spec_position(
                (#[trigger] summary.comp_added_seq()[j]).1,
            ) {
                Some(p) => coord_in_bounds(w, h, p.x as int, p.y as int),
                None => true,
            },
        forall|j: int|
            0 <= j < summary.comp_removed_seq().len() ==> match spec_position(
                c[(#[trigger] summary.comp_removed_seq()[j]).0],
            ) {
                Some(p) => coord_in_bounds(w, h, p.x as int, p.y as int),
                None => true,
            },
    ensures
        grid_consistent(
            spec_update(g, w, summary, c, turn_count),
            w,
            h,
            crate::update::spec_commit(c, summary),
        ),
{
    summary.lemma_wf_views();
    let s1 = summary.added_seq();
    let s2 = summary.removed_seq();
    let s3 = summary.comp_added_seq();
    let s4 = summary.comp_removed_seq();
    lemma_phase_added(g, w, h, s1, turn_count, c);
    let g1 = crate::spatial_hash::spec_update_added(g, w, s1, turn_count);
    let c1 = crate::update::spec_apply_added(c, s1);
    assert forall|j: int| 0 <= j < s2.len() implies c1.contains_key(#[trigger] s2[j]) && c1[s2[j]]
        == c[s2[j]] by {
        assert(c.contains_key(s2[j]));
    }
    lemma_phase_removed(g1, w, h, s2, turn_count, c, c1);
    let g2 = crate::spatial_hash::spec_update_removed(g1, w, s2, c, turn_count);
    let c2 = crate::update::spec_remove_ids(c1, s2);
    assert forall|j: int| 0 <= j < s3.len() implies c2.contains_key((#[trigger] s3[j]).0) && c2[
    s3[j].0] == c[s3[j].0] by {
        assert(c.contains_key(s3[j].0));
        assert(c1.contains_key(s3[j].0) && c1[s3[j].0] == c[s3[j].0]);
        assert(!s2.contains(s3[j].0));
    }
    lemma_phase_comp_added(g2, w, h, s3, turn_count, c, c2);
    let g3 = crate::spatial_hash::spec_update_comp_added(g2, w, s3, c, turn_count);
    let c3 = crate::update::spec_apply_comp_added(c2, s3);
    assert forall|j: int| 0 <= j < s4.len() implies c3.contains_key((#[trigger] s4[j]).0) && c3[
    s4[j].0] == c[s4[j].0] by {
        assert(c.contains_key(s4[j].0));
        assert(c1.contains_key(s4[j].0) && c1[s4[j].0] == c[s4[j].0]);
        assert(!s2.contains(s4[j].0));
        assert(c2.contains_key(s4[j].0) && c2[s4[j].0] == c1[s4[j].0]);
        assert(!crate::assoc::assoc_map(s3).dom().contains(s4[j].0));
    }
    lemma_phase_comp_removed(g3, w, h, s4, turn_count, c, c3);
}

/// The no-op law: replaying an empty diff leaves every cell of the grid
/// exactly as it was, its last-updated turn included, since no cell is
/// touched.
pub proof fn lemma_update_empty(
    g: Seq<CellView>,
    w: int,
    summary: UpdateSummary,
    c: Map<EntityId, Map<ComponentType, Component>>,
    turn_count: u64,
)
    requires
        summary.is_empty(),
    ensures
        spec_update(g, w, summary, c, turn_count) == g,
{
}

} // verus!
