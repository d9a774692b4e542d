//! Demo terrain: a bulk producer of a level's initial diff.
//!
//! A level is drawn as rows of glyphs. Generation walks the drawing and
//! records, in one [`UpdateSummary`], a ground entity for every cell plus a
//! feature entity — wall, tree, door, window, terror pillar — where the
//! glyph asks for one, all with fresh ids drawn from a caller-supplied
//! counter.

use vstd::prelude::*;
use crate::entity::{Component, DoorState, EntityId, StatusCounter, Vector2};
use crate::table::{spec_position, Table};
use crate::update::UpdateSummary;

verus! {

/// What a generator reports about the level it produced.
pub struct TerrainMetadata {
    /// Cells per row actually populated.
    pub width: usize,
    /// Rows actually populated.
    pub height: usize,
    /// Where the player starts.
    pub start_coord: Vector2,
}

/// The demo level drawing, one string per row.
pub fn level_str() -> (r: Vec<&'static str>)
    ensures
        r@.len() == 26,
{
    let mut v: Vec<&'static str> = Vec::new();
    v.push("&&&&&&&&&&&&&&&&&&&&&&&&&&&&&&&&&&&&&&");
    v.push("&,,,,,,,,,,,,,,,,,,,,,,,,,,,,,,,,,,,,&");
    v.push("&,,############################,,,,,,&");
    v.push("&,,#.........#................#,,&,,,&");
    v.push("&,,#.........#................#,,,&,,&");
    v.push("&,,#..........................#,,&,,,&");
    v.push("&&,#.........#................#,,,,,,&");
    v.push("&,&#.........##########+#######,,,,,,&");
    v.push("&,,#.........#,,,,,,,,,,,,,,,,,,,,,,,&");
    v.push("&&,#.........#,t,,,,,,,&,,,,,,,&,&,&,&");
    v.push("&,,#.........#,,,,t&,,,,,,,,&,,,,,,,,&");
    v.push("&,,#.........+,,,,,,&,,,,,,,,,,,,,,,,&");
    v.push("&&,#.........#,,,,,&,,,,,,,,,&,,,,,,,&");
    v.push("&,,#.........#,,,,,,,,,,&,,&,,,&,&,,,&");
    v.push("&,&#.........#,,,,,,,=,&,,,,,,,,,,,,,&");
    v.push("&,,###########,t,,,,,&,,,,,,,&,&,,,,,&");
    v.push("&,,&,,,,,,,,,,,,,,,,,&,,,,&,,,,,,,,,,&");
    v.push("&,&,,,,,,,,,,,,&,,,,,,,,,,,,,,,,,,,,,&");
    v.push("&,,,&,,,,,,,,,,,,,,,,&,,,,,#########,&");
    v.push("&,&,,,&,,,,,&,,&,,,,&,,,,,,#.......#,&");
    v.push("&,,,,,&,,,,,,,,,&,,,,&,,,,,#.......#,&");
    v.push("&,,,,,,,,,&,,,,,,,,,,,,,&,,........#,&");
    v.push("&,&,&,,,,&&,,,&,&,,,,,,,&,,#.......#,&");
    v.push("&,,,,,,,,,,,,,,,,,,,&,,,,,,#.......#,&");
    v.push("&,,,&,,,,,,,&,,,,,,,,,,,,,,#########,&");
    v.push("&&&&&&&&&&&&&&&&&&&&&&&&&&&&&&&&&&&&&&");
    v
}

/// A ground entity: what every populated cell carries.
fn ground_entity(x: isize, y: isize) -> (t: Table)
    ensures
        t.wf(),
        spec_position(t@) == Some(Vector2 { x, y }),
{
    let mut t = Table::new();
    t.add(Component::Position(Vector2::new(x, y)));
    t.add(Component::Tile(0));
    t
}

/// The feature entity a glyph asks for, if any.
fn feature_entity(glyph: u8, x: isize, y: isize) -> (r: Option<Table>)
    ensures
        match r {
            Some(t) => t.wf() && spec_position(t@) == Some(Vector2 { x, y }),
            None => true,
        },
{
    let mut t = Table::new();
    t.add(Component::Position(Vector2::new(x, y)));
    if glyph == 35 {  // '#'
        // wall: blocks movement and all light
        t.add(Component::Solid);
        t.add(Component::Opacity(1000));
        t.add(Component::Tile(1));
        Some(t)
    } else if glyph == 38 {  // '&'
        // tree: blocks movement and most light
        t.add(Component::Solid);
        t.add(Component::Opacity(800));
        t.add(Component::Tile(2));
        Some(t)
    } else if glyph == 43 {  // '+'
        // closed door: blocks movement and all light until opened
        t.add(Component::Door(DoorState::Closed));
        t.add(Component::Solid);
        t.add(Component::Opacity(1000));
        t.add(Component::Tile(3));
        Some(t)
    } else if glyph == 61 {  // '='
        // window: blocks movement, lets light through
        t.add(Component::Solid);
        t.add(Component::Tile(4));
        Some(t)
    } else if glyph == 116 {  // 't'
        // terror pillar, waiting to take its other form
        t.add(Component::BeastTransform(StatusCounter { value: 8 }));
        t.add(Component::Tile(5));
        Some(t)
    } else {
        None
    }
}

/// Record one entity under the next fresh id, if the id space allows.
fn spawn(g: &mut UpdateSummary, next: EntityId, t: Table) -> (r: EntityId)
    requires
        old(g).wf(),
        t.wf(),
        forall|id: EntityId| #[trigger] old(g).added().contains_key(id) ==> id < next,
    ensures
        final(g).wf(),
        final(g).removed_seq() == old(g).removed_seq(),
        final(g).comp_added_seq() == old(g).comp_added_seq(),
        final(g).comp_removed_seq() == old(g).comp_removed_seq(),
        final(g).metadata_view() == old(g).metadata_view(),
        next <= r,
        forall|id: EntityId| #[trigger] final(g).added().contains_key(id) ==> id < r,
        forall|id: EntityId|
            #[trigger] old(g).added().contains_key(id) ==> final(g).added().contains_key(id)
                && final(g).added()[id] == old(g).added()[id],
        forall|id: EntityId|
            #[trigger] final(g).added().contains_key(id) ==> old(g).added().contains_key(id) || (
            next <= id < r && final(g).added()[id] == t@),
{
    if next < u64::MAX {
        g.add_entity(next, t);
        next + 1
    } else {
        // the id space is exhausted; spawn nothing rather than reuse an id
        next
    }
}

/// Generate the demo level into `g`: for every glyph of the drawing, a
/// ground entity, and for walls, trees, doors, windows and terror pillars a
/// feature entity on top, every id fresh from `next_id` up. Returns the
/// level's metadata and the next free id.
///
/// Every entity recorded here has a position on the reported grid, so the
/// diff can be committed to an empty store and replayed against a spatial
/// hash of the reported dimensions.
pub fn demo_a(next_id: EntityId, g: &mut UpdateSummary) -> (r: (TerrainMetadata, EntityId))
    requires
        old(g).wf(),
        forall|id: EntityId| #[trigger] old(g).added().contains_key(id) ==> id < next_id,
    ensures
        final(g).wf(),
        final(g).removed_seq() == old(g).removed_seq(),
        final(g).comp_added_seq() == old(g).comp_added_seq(),
        final(g).comp_removed_seq() == old(g).comp_removed_seq(),
        final(g).metadata_view() == old(g).metadata_view(),
        next_id <= r.1,
        r.0.start_coord == (Vector2 { x: 18, y: 14 }),
        r.0.height <= 26,
        forall|id: EntityId| #[trigger] final(g).added().contains_key(id) ==> id < r.1,
        forall|id: EntityId|
            #[trigger] old(g).added().contains_key(id) ==> final(g).added().contains_key(id)
                && final(g).added()[id] == old(g).added()[id],
        forall|id: EntityId|
            #[trigger] final(g).added().contains_key(id) ==> old(g).added().contains_key(id) || (
            next_id <= id < r.1),
        forall|id: EntityId|
            #[trigger] final(g).added().contains_key(id) && !old(g).added().contains_key(id)
                ==> match spec_position(final(g).added()[id]) {
                Some(p) => 0 <= p.x < r.0.width && 0 <= p.y < r.0.height,
                None => false,
            },
{
    let rows = level_str();
    let height0 = rows.len();
    // a grid is addressed by signed coordinates; clamp to what fits
    let height = if height0 <= (isize::MAX as usize) {
        height0
    } else {
        isize::MAX as usize
    };
    let width0 = if height > 0 {
        rows[0].len()
    } else {
        0
    };
    let width = if width0 <= (isize::MAX as usize) {
        width0
    } else {
        isize::MAX as usize
    };
    let mut next = next_id;
    let mut y: usize = 0;
    while y < height
        invariant
            g.wf(),
            height <= rows@.len(),
            height <= isize::MAX,
            width <= isize::MAX,
            y <= height,
            next_id <= next,
            g.removed_seq() == old(g).removed_seq(),
            g.comp_added_seq() == old(g).comp_added_seq(),
            g.comp_removed_seq() == old(g).comp_removed_seq(),
            g.metadata_view() == old(g).metadata_view(),
            forall|id: EntityId| #[trigger] g.added().contains_key(id) ==> id < next,
            forall|id: EntityId|
                #[trigger] old(g).added().contains_key(id) ==> g.added().contains_key(id)
                    && g.added()[id] == old(g).added()[id],
            forall|id: EntityId|
                #[trigger] g.added().contains_key(id) ==> old(g).added().contains_key(id) || (
                next_id <= id < next),
            forall|id: EntityId|
                #[trigger] g.added().contains_key(id) && !old(g).added().contains_key(id)
                    ==> match spec_position(g.added()[id]) {
                    Some(p) => 0 <= p.x < width && 0 <= p.y < height,
                    None => false,
                },
        decreases height - y,
    {
        let row = rows[y];
        let bytes = row.as_bytes();
        let limit = if bytes.len() < width {
            bytes.len()
        } else {
            width
        };
        let mut x: usize = 0;
        while x < limit
            invariant
                g.wf(),
                limit <= width,
                limit <= bytes@.len(),
                width <= isize::MAX,
                height <= isize::MAX,
                y < height,
                x <= limit,
                next_id <= next,
                g.removed_seq() == old(g).removed_seq(),
                g.comp_added_seq() == old(g).comp_added_seq(),
                g.comp_removed_seq() == old(g).comp_removed_seq(),
                g.metadata_view() == old(g).metadata_view(),
                forall|id: EntityId| #[trigger] g.added().contains_key(id) ==> id < next,
                forall|id: EntityId|
                    #[trigger] old(g).added().contains_key(id) ==> g.added().contains_key(id)
                        && g.added()[id] == old(g).added()[id],
                forall|id: EntityId|
                    #[trigger] g.added().contains_key(id) ==> old(g).added().contains_key(id) || (
                    next_id <= id < next),
                forall|id: EntityId|
                    #[trigger] g.added().contains_key(id) && !old(g).added().contains_key(id)
                        ==> match spec_position(g.added()[id]) {
                        Some(p) => 0 <= p.x < width && 0 <= p.y < height,
                        None => false,
                    },
            decreases limit - x,
        {
            let ground = ground_entity(x as isize, y as isize);
            next = spawn(g, next, ground);
            let glyph = bytes[x];
            match feature_entity(glyph, x as isize, y as isize) {
                Some(feature) => {
                    next = spawn(g, next, feature);
                }
                None => {}
            }
            x = x + 1;
        }
        y = y + 1;
    }
    (TerrainMetadata { width, height, start_coord: Vector2::new(18, 14) }, next)
}

} // verus!
