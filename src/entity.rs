use vstd::prelude::*;

use crate::component::{
    Box, BoxColor, BoxSpot, EntityRow, Immovable, Moveable, Player, Position, Renderable, Tags, Wall,
};
use crate::grid::{grid_wf, rows_compatible, tags_wf};
use crate::level::Level;
use crate::store::MAX_ENTITIES;

verus! {

/// A row with these tags and this position may join the entities of `m`.
pub open spec fn fits_in(m: Map<u64, EntityRow>, tags: Tags, p: Position) -> bool {
    forall|a: u64| #[trigger] m.contains_key(a) ==> {
        let row = EntityRow { position: p, renderable: m[a].renderable, tags };
        rows_compatible(m[a], row) && rows_compatible(row, m[a])
    }
}

pub open spec fn no_tags() -> Tags {
    Tags { wall: None, player: None, moveable: None, immovable: None, crate_box: None, box_spot: None }
}

pub open spec fn wall_tags() -> Tags {
    Tags { wall: Some(Wall {}), immovable: Some(Immovable {}), ..no_tags() }
}

pub open spec fn player_tags() -> Tags {
    Tags { player: Some(Player {}), moveable: Some(Moveable {}), ..no_tags() }
}

pub open spec fn box_tags(color: BoxColor) -> Tags {
    Tags { crate_box: Some(Box { color }), moveable: Some(Moveable {}), ..no_tags() }
}

pub open spec fn spot_tags(color: BoxColor) -> Tags {
    Tags { box_spot: Some(BoxSpot { color }), ..no_tags() }
}

/// The image paths of a renderable, as text.
pub open spec fn image_paths(r: Renderable) -> Seq<Seq<char>> {
    r.paths@.map_values(|p: String| p@)
}

pub open spec fn box_images(color: BoxColor) -> Seq<Seq<char>> {
    match color {
        BoxColor::Red => seq!["/images/box_red_1.png"@, "/images/box_red_2.png"@],
        BoxColor::Blue => seq!["/images/box_blue_1.png"@, "/images/box_blue_2.png"@],
    }
}

pub open spec fn spot_image(color: BoxColor) -> Seq<char> {
    match color {
        BoxColor::Red => "/images/box_spot_red.png"@,
        BoxColor::Blue => "/images/box_spot_blue.png"@,
    }
}

/// What spawning an entity with these tags at `p`, drawn at depth `z`, does
/// to a level.
pub open spec fn spawned(old: Level, new: Level, id: u64, tags: Tags, p: Position, z: u8) -> bool {
    &&& !old.rows().contains_key(id)
    &&& new.rows() == old.rows().insert(id, new.rows()[id])
    &&& new.rows()[id].position == Position { z, ..p }
    &&& new.rows()[id].tags == tags
    &&& new.wf()
    &&& new.width == old.width && new.height == old.height
    &&& new.gameplay == old.gameplay && new.time == old.time
    &&& new.events.events@ == old.events.events@
}

fn spawn_row(level: &mut Level, row: EntityRow) -> (r: u64)
    requires
        old(level).wf(),
        old(level).rows().len() < MAX_ENTITIES,
        tags_wf(row.tags),
        row.renderable.wf(),
        fits_in(old(level).rows(), row.tags, row.position),
    ensures
        spawned(*old(level), *final(level), r, row.tags, row.position, row.position.z),
        final(level).rows()[r].renderable == row.renderable,
{
    let ghost m = level.rows();
    let id = level.store.spawn(row);
    proof {
        let m2 = level.rows();
        assert(m2.dom() =~= m.dom().insert(id));
        assert forall|a: u64, b: u64| #[trigger] m2.contains_key(a) && #[trigger] m2.contains_key(b) && a != b
            implies rows_compatible(m2[a], m2[b]) by {
            if a == id {
                assert(m.contains_key(b));
                assert(m2[b] == m[b]);
            } else if b == id {
                assert(m.contains_key(a));
            } else {
                assert(m.contains_key(a) && m.contains_key(b));
            }
        }
        assert(grid_wf(m2));
    }
    id
}

fn still(path: &str) -> (r: Renderable)
    ensures
        r.wf(),
        r.paths@.len() == 1,
        r.paths@[0]@ == path@,
        image_paths(r) == seq![path@],
{
    let r = Renderable::new_static(path);
    assert(image_paths(r) =~= seq![path@]);
    r
}

fn frames(paths: &[&str]) -> (r: Renderable)
    requires
        paths@.len() > 0,
    ensures
        r.wf(),
        r.paths@.len() == paths@.len(),
        forall|i: int| 0 <= i < paths@.len() ==> r.paths@[i]@ == paths@[i]@,
        image_paths(r) == paths@.map_values(|p: &str| p@),
{
    let mut v: Vec<String> = Vec::new();
    let mut i: usize = 0;
    while i < paths.len()
        invariant
            i <= paths@.len(),
            v@.len() == i,
            forall|j: int| 0 <= j < i ==> v@[j]@ == paths@[j]@,
        decreases paths@.len() - i,
    {
        v.push(paths[i].to_string());
        i += 1;
    }
    let r = Renderable::new_animated(v);
    assert(image_paths(r) =~= paths@.map_values(|p: &str| p@));
    r
}

/// Spawns a wall (immovable) on `position`, drawn at depth 10.
pub fn create_wall(level: &mut Level, position: &Position) -> (r: u64)
    requires
        old(level).wf(),
        old(level).rows().len() < MAX_ENTITIES,
        fits_in(old(level).rows(), wall_tags(), *position),
    ensures
        spawned(*old(level), *final(level), r, wall_tags(), *position, 10),
        image_paths(final(level).rows()[r].renderable) == seq!["/images/wall.png"@],
{
    let tags = Tags { wall: Some(Wall {}), player: None, moveable: None, immovable: Some(Immovable {}), crate_box: None, box_spot: None };
    spawn_row(level, EntityRow { position: Position { x: position.x, y: position.y, z: 10 }, renderable: still("/images/wall.png"), tags })
}

/// Spawns a floor tile, with no tags, on `position`, drawn at depth 5.
pub fn create_floor(level: &mut Level, position: &Position) -> (r: u64)
    requires
        old(level).wf(),
        old(level).rows().len() < MAX_ENTITIES,
    ensures
        spawned(*old(level), *final(level), r, no_tags(), *position, 5),
        image_paths(final(level).rows()[r].renderable) == seq!["/images/floor.png"@],
{
    let tags = Tags { wall: None, player: None, moveable: None, immovable: None, crate_box: None, box_spot: None };
    spawn_row(level, EntityRow { position: Position { x: position.x, y: position.y, z: 5 }, renderable: still("/images/floor.png"), tags })
}

/// Spawns a box of `color` (moveable) on `position`, drawn at depth 10 with
/// two animation frames.
pub fn create_box(level: &mut Level, position: &Position, color: BoxColor) -> (r: u64)
    requires
        old(level).wf(),
        old(level).rows().len() < MAX_ENTITIES,
        fits_in(old(level).rows(), box_tags(color), *position),
    ensures
        spawned(*old(level), *final(level), r, box_tags(color), *position, 10),
        image_paths(final(level).rows()[r].renderable) == box_images(color),
{
    let tags = Tags { wall: None, player: None, moveable: Some(Moveable {}), immovable: None, crate_box: Some(Box { color }), box_spot: None };
    let renderable = match color {
        BoxColor::Red => {
            let r = frames(&["/images/box_red_1.png", "/images/box_red_2.png"]);
            assert(image_paths(r) =~= box_images(color));
            r
        },
        BoxColor::Blue => {
            let r = frames(&["/images/box_blue_1.png", "/images/box_blue_2.png"]);
            assert(image_paths(r) =~= box_images(color));
            r
        },
    };
    spawn_row(level, EntityRow { position: Position { x: position.x, y: position.y, z: 10 }, renderable, tags })
}

/// Spawns a box spot of `color` on `position`, drawn at depth 9.
pub fn create_box_spot(level: &mut Level, position: &Position, color: BoxColor) -> (r: u64)
    requires
        old(level).wf(),
        old(level).rows().len() < MAX_ENTITIES,
        fits_in(old(level).rows(), spot_tags(color), *position),
    ensures
        spawned(*old(level), *final(level), r, spot_tags(color), *position, 9),
        image_paths(final(level).rows()[r].renderable) == seq![spot_image(color)],
{
    let tags = Tags { wall: None, player: None, moveable: None, immovable: None, crate_box: None, box_spot: Some(BoxSpot { color }) };
    let renderable = match color {
        BoxColor::Red => still("/images/box_spot_red.png"),
        BoxColor::Blue => still("/images/box_spot_blue.png"),
    };
    spawn_row(level, EntityRow { position: Position { x: position.x, y: position.y, z: 9 }, renderable, tags })
}

/// Spawns the player (moveable) on `position`, drawn at depth 10 with three
/// animation frames.
pub fn create_player(level: &mut Level, position: &Position) -> (r: u64)
    requires
        old(level).wf(),
        old(level).rows().len() < MAX_ENTITIES,
        fits_in(old(level).rows(), player_tags(), *position),
    ensures
        spawned(*old(level), *final(level), r, player_tags(), *position, 10),
        image_paths(final(level).rows()[r].renderable) == seq![
            "/images/player_1.png"@,
            "/images/player_2.png"@,
            "/images/player_3.png"@,
        ],
{
    let tags = Tags { wall: None, player: Some(Player {}), moveable: Some(Moveable {}), immovable: None, crate_box: None, box_spot: None };
    let renderable = frames(&["/images/player_1.png", "/images/player_2.png", "/images/player_3.png"]);
    assert(image_paths(renderable) =~= seq!["/images/player_1.png"@, "/images/player_2.png"@, "/images/player_3.png"@]);
    spawn_row(level, EntityRow { position: Position { x: position.x, y: position.y, z: 10 }, renderable, tags })
}

} // verus!
