use vstd::prelude::*;

use crate::component::{EntityRow, GameplayState};
use crate::grid::{at_cell, same_cell};
use crate::level::Level;
use crate::store::lists_rows;

verus! {

/// A box of the spot's color stands on box spot `s`.
pub open spec fn spot_covered(m: Map<u64, EntityRow>, s: u64) -> bool {
    exists|b: u64|
        #![trigger m.contains_key(b)]
        m.contains_key(b) && m[b].tags.crate_box is Some && same_cell(m[b], m[s])
            && m[b].tags.crate_box.unwrap().color == m[s].tags.box_spot.unwrap().color
}

/// Every box spot holds a box of its color.
pub open spec fn all_spots_covered(m: Map<u64, EntityRow>) -> bool {
    forall|s: u64| #[trigger] m.contains_key(s) && m[s].tags.box_spot is Some ==> spot_covered(m, s)
}

pub open spec fn spot_at(m: Map<u64, EntityRow>, x: int, y: int) -> bool {
    exists|s: u64| #[trigger] m.contains_key(s) && m[s].tags.box_spot is Some && at_cell(m[s], x, y)
}

/// A wall stands on `(x, y)`, or the cell lies outside the `w` by `h` grid.
pub open spec fn wall_at(m: Map<u64, EntityRow>, x: int, y: int, w: int, h: int) -> bool {
    x < 0 || y < 0 || x >= w || y >= h || exists|id: u64|
        #[trigger] m.contains_key(id) && m[id].tags.wall is Some && at_cell(m[id], x, y)
}

/// Walls on two perpendicular sides of `(x, y)`.
pub open spec fn cornered(m: Map<u64, EntityRow>, x: int, y: int, w: int, h: int) -> bool {
    let up = wall_at(m, x, y - 1, w, h);
    let down = wall_at(m, x, y + 1, w, h);
    let left = wall_at(m, x - 1, y, w, h);
    let right = wall_at(m, x + 1, y, w, h);
    (up && left) || (up && right) || (down && left) || (down && right)
}

/// Box `b` is off every box spot and cornered: it can never be moved again.
pub open spec fn deadlocked(m: Map<u64, EntityRow>, b: u64, w: int, h: int) -> bool {
    &&& m.contains_key(b)
    &&& m[b].tags.crate_box is Some
    &&& !spot_at(m, m[b].position.x as int, m[b].position.y as int)
    &&& cornered(m, m[b].position.x as int, m[b].position.y as int, w, h)
}

pub open spec fn any_deadlock(m: Map<u64, EntityRow>, w: int, h: int) -> bool {
    exists|b: u64| #[trigger] deadlocked(m, b, w, h)
}

/// The state after one evaluation: Won and Lost stay; a playing level is won
/// when every spot is covered, else lost when a box is deadlocked.
pub open spec fn next_state(s: GameplayState, m: Map<u64, EntityRow>, w: int, h: int) -> GameplayState {
    if s != GameplayState::Playing {
        s
    } else if all_spots_covered(m) {
        GameplayState::Won
    } else if any_deadlock(m, w, h) {
        GameplayState::Lost
    } else {
        GameplayState::Playing
    }
}

fn spot_is_covered(rows: &Vec<(u64, EntityRow)>, Ghost(m): Ghost<Map<u64, EntityRow>>, si: usize) -> (r: bool)
    requires
        lists_rows(rows@, m),
        si < rows@.len(),
        rows@[si as int].1.tags.box_spot is Some,
    ensures
        r == spot_covered(m, rows@[si as int].0),
{
    let spot = &rows[si].1;
    let color = spot.tags.box_spot.unwrap().color;
    let ghost sid = rows@[si as int].0;
    assert(m.contains_key(sid));
    let mut i: usize = 0;
    while i < rows.len()
        invariant
            i <= rows@.len(),
            lists_rows(rows@, m),
            m.contains_key(sid),
            *spot == m[sid],
            si < rows@.len(),
            sid == rows@[si as int].0,
            m[sid].tags.box_spot is Some,
            color == m[sid].tags.box_spot.unwrap().color,
            forall|j: int|
                0 <= j < i ==> !(#[trigger] rows@[j].1.tags.crate_box is Some && same_cell(rows@[j].1, m[sid])
                    && rows@[j].1.tags.crate_box.unwrap().color == color),
        decreases rows@.len() - i,
    {
        let row = &rows[i].1;
        match row.tags.crate_box {
            Some(b) => {
                if b.color == color && row.position.x == spot.position.x && row.position.y == spot.position.y {
                    assert(m.contains_key(rows@[i as int].0));
                    let ghost bid = rows@[i as int].0;
                    assert(m[bid] == rows@[i as int].1);
                    assert(m[bid].tags.crate_box.unwrap() == b);
                    assert(m[bid].tags.crate_box is Some && same_cell(m[bid], m[sid])
                        && m[bid].tags.crate_box.unwrap().color == m[sid].tags.box_spot.unwrap().color);
                    assert(sid == rows@[si as int].0);
                    return true;
                }
            },
            None => {},
        }
        i += 1;
    }
    proof {
        assert forall|b: u64| #![trigger m.contains_key(b)]
            !(m.contains_key(b) && m[b].tags.crate_box is Some && same_cell(m[b], m[sid])
                && m[b].tags.crate_box.unwrap().color == color) by {
            if m.contains_key(b) {
                let j = choose|j: int| 0 <= j < rows@.len() && rows@[j].0 == b;
                assert(rows@[j].1.tags.crate_box is Some ==> !(same_cell(rows@[j].1, m[sid]) && rows@[j].1.tags.crate_box.unwrap().color == color));
            }
        }
    }
    false
}

fn spots_all_covered(rows: &Vec<(u64, EntityRow)>, Ghost(m): Ghost<Map<u64, EntityRow>>) -> (r: bool)
    requires
        lists_rows(rows@, m),
    ensures
        r == all_spots_covered(m),
{
    let mut i: usize = 0;
    while i < rows.len()
        invariant
            i <= rows@.len(),
            lists_rows(rows@, m),
            forall|j: int| 0 <= j < i && (#[trigger] rows@[j].1).tags.box_spot is Some ==> spot_covered(m, rows@[j].0),
        decreases rows@.len() - i,
    {
        if rows[i].1.tags.box_spot.is_some() {
            if !spot_is_covered(rows, Ghost(m), i) {
                assert(m.contains_key(rows@[i as int].0));
                return false;
            }
        }
        i += 1;
    }
    proof {
        assert forall|s: u64| #[trigger] m.contains_key(s) && m[s].tags.box_spot is Some implies spot_covered(m, s) by {
            let j = choose|j: int| 0 <= j < rows@.len() && rows@[j].0 == s;
            assert(rows@[j].1.tags.box_spot is Some);
        }
    }
    true
}

fn has_spot(rows: &Vec<(u64, EntityRow)>, Ghost(m): Ghost<Map<u64, EntityRow>>, x: u8, y: u8) -> (r: bool)
    requires
        lists_rows(rows@, m),
    ensures
        r == spot_at(m, x as int, y as int),
{
    let mut i: usize = 0;
    while i < rows.len()
        invariant
            i <= rows@.len(),
            lists_rows(rows@, m),
            forall|j: int| 0 <= j < i ==> !((#[trigger] rows@[j].1).tags.box_spot is Some && at_cell(rows@[j].1, x as int, y as int)),
        decreases rows@.len() - i,
    {
        let row = &rows[i].1;
        if row.tags.box_spot.is_some() && row.position.x == x && row.position.y == y {
            assert(m.contains_key(rows@[i as int].0));
            return true;
        }
        i += 1;
    }
    proof {
        assert forall|s: u64| !(#[trigger] m.contains_key(s) && m[s].tags.box_spot is Some && at_cell(m[s], x as int, y as int)) by {
            if m.contains_key(s) {
                let j = choose|j: int| 0 <= j < rows@.len() && rows@[j].0 == s;
                assert(!(rows@[j].1.tags.box_spot is Some && at_cell(rows@[j].1, x as int, y as int)));
            }
        }
    }
    false
}

fn has_wall(rows: &Vec<(u64, EntityRow)>, Ghost(m): Ghost<Map<u64, EntityRow>>, x: i32, y: i32, w: u8, h: u8) -> (r: bool)
    requires
        lists_rows(rows@, m),
    ensures
        r == wall_at(m, x as int, y as int, w as int, h as int),
{
    if x < 0 || y < 0 || x >= w as i32 || y >= h as i32 {
        return true;
    }
    let mut i: usize = 0;
    while i < rows.len()
        invariant
            i <= rows@.len(),
            lists_rows(rows@, m),
            forall|j: int| 0 <= j < i ==> !((#[trigger] rows@[j].1).tags.wall is Some && at_cell(rows@[j].1, x as int, y as int)),
        decreases rows@.len() - i,
    {
        let row = &rows[i].1;
        if row.tags.wall.is_some() && row.position.x as i32 == x && row.position.y as i32 == y {
            assert(m.contains_key(rows@[i as int].0));
            return true;
        }
        i += 1;
    }
    proof {
        assert forall|s: u64| !(#[trigger] m.contains_key(s) && m[s].tags.wall is Some && at_cell(m[s], x as int, y as int)) by {
            if m.contains_key(s) {
                let j = choose|j: int| 0 <= j < rows@.len() && rows@[j].0 == s;
                assert(!(rows@[j].1.tags.wall is Some && at_cell(rows@[j].1, x as int, y as int)));
            }
        }
    }
    false
}

fn some_box_deadlocked(rows: &Vec<(u64, EntityRow)>, Ghost(m): Ghost<Map<u64, EntityRow>>, w: u8, h: u8) -> (r: bool)
    requires
        lists_rows(rows@, m),
    ensures
        r == any_deadlock(m, w as int, h as int),
{
    let mut i: usize = 0;
    while i < rows.len()
        invariant
            i <= rows@.len(),
            lists_rows(rows@, m),
            forall|j: int| 0 <= j < i ==> !deadlocked(m, #[trigger] rows@[j].0, w as int, h as int),
        decreases rows@.len() - i,
    {
        let row = &rows[i].1;
        assert(m.contains_key(rows@[i as int].0));
        if row.tags.crate_box.is_some() && !has_spot(rows, Ghost(m), row.position.x, row.position.y) {
            let x = row.position.x as i32;
            let y = row.position.y as i32;
            let up = has_wall(rows, Ghost(m), x, y - 1, w, h);
            let down = has_wall(rows, Ghost(m), x, y + 1, w, h);
            let left = has_wall(rows, Ghost(m), x - 1, y, w, h);
            let right = has_wall(rows, Ghost(m), x + 1, y, w, h);
            if (up && left) || (up && right) || (down && left) || (down && right) {
                assert(deadlocked(m, rows@[i as int].0, w as int, h as int));
                return true;
            }
        }
        i += 1;
    }
    proof {
        assert forall|b: u64| !#[trigger] deadlocked(m, b, w as int, h as int) by {
            if m.contains_key(b) {
                let j = choose|j: int| 0 <= j < rows@.len() && rows@[j].0 == b;
                assert(!deadlocked(m, rows@[j].0, w as int, h as int));
            }
        }
    }
    false
}

/// Evaluates the win and loss conditions once: a playing level becomes Won
/// or Lost as `next_state` says; nothing else changes.
pub fn run_gameplay_state(level: &mut Level)
    ensures
        final(level).gameplay.state == next_state(
            old(level).gameplay.state,
            old(level).rows(),
            old(level).width as int,
            old(level).height as int,
        ),
        final(level).gameplay.move_count == old(level).gameplay.move_count,
        final(level).rows() == old(level).rows(),
        final(level).width == old(level).width,
        final(level).height == old(level).height,
        final(level).time == old(level).time,
        final(level).events.events@ == old(level).events.events@,
{
    if level.gameplay.state != GameplayState::Playing {
        return;
    }
    let rows = level.entities();
    if spots_all_covered(&rows, Ghost(level.rows())) {
        level.gameplay.state = GameplayState::Won;
        return;
    }
    if some_box_deadlocked(&rows, Ghost(level.rows()), level.width, level.height) {
        level.gameplay.state = GameplayState::Lost;
    }
}

} // verus!
