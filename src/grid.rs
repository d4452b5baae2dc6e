use vstd::prelude::*;

use crate::component::{EntityRow, Position, Tags};

verus! {

/// A direction of movement on the grid; `Up` decreases `y`, `Left` decreases `x`.
#[derive(Clone, Copy, PartialEq, Eq, Structural, Debug)]
pub enum Direction {
    Up,
    Down,
    Left,
    Right,
}

pub open spec fn same_cell(a: EntityRow, b: EntityRow) -> bool {
    a.position.x == b.position.x && a.position.y == b.position.y
}

pub open spec fn at_cell(r: EntityRow, x: int, y: int) -> bool {
    r.position.x == x && r.position.y == y
}

/// Two distinct entities on one cell never both occupy it: not two moveables,
/// two immovables, two box spots or two players anywhere.
pub open spec fn rows_compatible(a: EntityRow, b: EntityRow) -> bool {
    &&& !(a.tags.player is Some && b.tags.player is Some)
    &&& same_cell(a, b) ==> !(a.tags.moveable is Some && b.tags.moveable is Some)
    &&& same_cell(a, b) ==> !(a.tags.immovable is Some && b.tags.immovable is Some)
    &&& same_cell(a, b) ==> !(a.tags.box_spot is Some && b.tags.box_spot is Some)
}

/// Players and boxes are moveable, walls immovable.
pub open spec fn tags_wf(t: Tags) -> bool {
    &&& t.player is Some ==> t.moveable is Some
    &&& t.crate_box is Some ==> t.moveable is Some
    &&& t.wall is Some ==> t.immovable is Some
    &&& t.moveable is Some ==> t.immovable is None && t.box_spot is None
}

/// The occupancy invariants of a level's entities.
pub open spec fn grid_wf(m: Map<u64, EntityRow>) -> bool {
    &&& forall|a: u64| #[trigger] m.contains_key(a) ==> tags_wf(m[a].tags) && m[a].renderable.wf()
    &&& forall|a: u64, b: u64|
        #[trigger] m.contains_key(a) && #[trigger] m.contains_key(b) && a != b ==> rows_compatible(m[a], m[b])
}

pub open spec fn is_moveable_at(m: Map<u64, EntityRow>, id: u64, x: int, y: int) -> bool {
    m.contains_key(id) && m[id].tags.moveable is Some && at_cell(m[id], x, y)
}

pub open spec fn moveable_at(m: Map<u64, EntityRow>, x: int, y: int) -> bool {
    exists|id: u64| is_moveable_at(m, id, x, y)
}

pub open spec fn moveable_id(m: Map<u64, EntityRow>, x: int, y: int) -> u64 {
    choose|id: u64| is_moveable_at(m, id, x, y)
}

pub open spec fn immovable_at(m: Map<u64, EntityRow>, x: int, y: int) -> bool {
    exists|id: u64| m.contains_key(id) && m[id].tags.immovable is Some && #[trigger] at_cell(m[id], x, y)
}

pub open spec fn dx(d: Direction) -> int {
    match d {
        Direction::Left => -1,
        Direction::Right => 1,
        _ => 0,
    }
}

pub open spec fn dy(d: Direction) -> int {
    match d {
        Direction::Up => -1,
        Direction::Down => 1,
        _ => 0,
    }
}

/// How many cells lie beyond `(x, y)` in direction `d` on a `w` by `h` grid.
pub open spec fn steps_to_edge(d: Direction, x: int, y: int, w: int, h: int) -> nat {
    match d {
        Direction::Up => if y > 0 { y as nat } else { 0 },
        Direction::Left => if x > 0 { x as nat } else { 0 },
        Direction::Down => if y + 1 < h { (h - 1 - y) as nat } else { 0 },
        Direction::Right => if x + 1 < w { (w - 1 - x) as nat } else { 0 },
    }
}

/// The push chain from `(x, y)` with `steps` cells left before the edge:
/// `Some` of the moveables to displace, nearest first, or `None` when the
/// chain meets an immovable or runs into the edge of the grid.
pub open spec fn push_chain(m: Map<u64, EntityRow>, x: int, y: int, d: Direction, steps: nat) -> Option<Seq<u64>>
    decreases steps,
{
    if moveable_at(m, x, y) {
        if steps == 0 {
            None
        } else {
            match push_chain(m, x + dx(d), y + dy(d), d, (steps - 1) as nat) {
                Some(rest) => Some(seq![moveable_id(m, x, y)] + rest),
                None => None,
            }
        }
    } else if immovable_at(m, x, y) {
        None
    } else {
        Some(Seq::empty())
    }
}

/// The position one cell further in direction `d`.
pub open spec fn shifted(p: Position, d: Direction) -> Position {
    Position { x: (p.x + dx(d)) as u8, y: (p.y + dy(d)) as u8, z: p.z }
}

/// The entities of `m` after those in `c` have moved one cell in direction `d`.
pub open spec fn moved(m: Map<u64, EntityRow>, c: Seq<u64>, d: Direction) -> Map<u64, EntityRow> {
    Map::new(
        |k: u64| m.contains_key(k),
        |k: u64|
            if c.contains(k) {
                EntityRow { position: shifted(m[k].position, d), ..m[k] }
            } else {
                m[k]
            },
    )
}

/// Each entity of a push chain stands on the cell its rank gives, and the
/// chain is no longer than the room left before the edge.
pub proof fn lemma_chain_cells(m: Map<u64, EntityRow>, x: int, y: int, d: Direction, steps: nat)
    requires
        push_chain(m, x, y, d, steps) is Some,
    ensures
        push_chain(m, x, y, d, steps).unwrap().len() <= steps,
        forall|k: int|
            0 <= k < push_chain(m, x, y, d, steps).unwrap().len() ==> is_moveable_at(
                m,
                #[trigger] push_chain(m, x, y, d, steps).unwrap()[k],
                x + k * dx(d),
                y + k * dy(d),
            ),
        ({
            let n = push_chain(m, x, y, d, steps).unwrap().len();
            !moveable_at(m, x + n * dx(d), y + n * dy(d)) && !immovable_at(m, x + n * dx(d), y + n * dy(d))
        }),
    decreases steps,
{
    if moveable_at(m, x, y) {
        lemma_chain_cells(m, x + dx(d), y + dy(d), d, (steps - 1) as nat);
        let n = push_chain(m, x, y, d, steps).unwrap().len();
        assert(x + dx(d) + (n - 1) * dx(d) == x + n * dx(d)) by (nonlinear_arith);
        assert(y + dy(d) + (n - 1) * dy(d) == y + n * dy(d)) by (nonlinear_arith);
        let c = push_chain(m, x, y, d, steps).unwrap();
        let rest = push_chain(m, x + dx(d), y + dy(d), d, (steps - 1) as nat).unwrap();
        assert forall|k: int| 0 <= k < c.len() implies is_moveable_at(m, #[trigger] c[k], x + k * dx(d), y + k * dy(d)) by {
            if k == 0 {
                assert(c[0] == moveable_id(m, x, y));
                assert(0 * dx(d) == 0 && 0 * dy(d) == 0);
            } else {
                assert(c[k] == rest[k - 1]);
                assert(x + dx(d) + (k - 1) * dx(d) == x + k * dx(d)) by (nonlinear_arith);
                assert(y + dy(d) + (k - 1) * dy(d) == y + k * dy(d)) by (nonlinear_arith);
            }
        }
    } else {
        assert(0 * dx(d) == 0 && 0 * dy(d) == 0);
    }
}

/// The entities of a push chain are distinct.
pub proof fn lemma_chain_distinct(m: Map<u64, EntityRow>, x: int, y: int, d: Direction, steps: nat)
    requires
        push_chain(m, x, y, d, steps) is Some,
    ensures
        push_chain(m, x, y, d, steps).unwrap().no_duplicates(),
{
    lemma_chain_cells(m, x, y, d, steps);
    let c = push_chain(m, x, y, d, steps).unwrap();
    assert forall|i: int, j: int| 0 <= i < c.len() && 0 <= j < c.len() && i != j implies c[i] != c[j] by {
        assert(is_moveable_at(m, c[i], x + i * dx(d), y + i * dy(d)));
        assert(is_moveable_at(m, c[j], x + j * dx(d), y + j * dy(d)));
        if d == Direction::Up || d == Direction::Down {
            assert(i * dy(d) != j * dy(d)) by (nonlinear_arith)
                requires i != j, dy(d) == 1 || dy(d) == -1;
        } else {
            assert(i * dx(d) != j * dx(d)) by (nonlinear_arith)
                requires i != j, dx(d) == 1 || dx(d) == -1;
        }
    }
}

/// Moving a push chain one cell keeps the occupancy invariants.
pub proof fn lemma_moved_wf(m: Map<u64, EntityRow>, x: int, y: int, d: Direction, steps: nat)
    requires
        grid_wf(m),
        push_chain(m, x, y, d, steps) is Some,
        0 <= x <= 255,
        0 <= y <= 255,
        0 <= x + steps * dx(d) <= 255,
        0 <= y + steps * dy(d) <= 255,
    ensures
        grid_wf(moved(m, push_chain(m, x, y, d, steps).unwrap(), d)),
        moved(m, push_chain(m, x, y, d, steps).unwrap(), d).dom() == m.dom(),
{
    let c = push_chain(m, x, y, d, steps).unwrap();
    let n = c.len();
    let mm = moved(m, c, d);
    lemma_chain_cells(m, x, y, d, steps);
    lemma_chain_distinct(m, x, y, d, steps);
    assert(mm.dom() =~= m.dom());
    assert forall|k: int| 0 <= k <= n implies 0 <= #[trigger] (x + k * dx(d)) <= 255 && 0 <= y + k * dy(d) <= 255 by {
        lemma_cell_in_range(x, dx(d), k, steps as int);
        lemma_cell_in_range(y, dy(d), k, steps as int);
    }
    assert forall|k: int| 0 <= k < n implies #[trigger] mm[c[k]].position.x == x + (k + 1) * dx(d) && mm[c[k]].position.y == y + (k + 1) * dy(d) by {
        assert(is_moveable_at(m, c[k], x + k * dx(d), y + k * dy(d)));
        assert(x + k * dx(d) + dx(d) == x + (k + 1) * dx(d)) by (nonlinear_arith);
        assert(y + k * dy(d) + dy(d) == y + (k + 1) * dy(d)) by (nonlinear_arith);
        assert(0 <= x + (k + 1) * dx(d) <= 255);
        assert(0 <= y + (k + 1) * dy(d) <= 255);
        assert(c.contains(c[k]));
    }
    assert forall|a: u64| #[trigger] mm.contains_key(a) implies tags_wf(mm[a].tags) && mm[a].renderable.wf() by {
        assert(m.contains_key(a));
    }
    assert forall|a: u64, b: u64|
        #[trigger] mm.contains_key(a) && #[trigger] mm.contains_key(b) && a != b implies rows_compatible(mm[a], mm[b]) by {
        assert(m.contains_key(a) && m.contains_key(b));
        assert(rows_compatible(m[a], m[b]));
        if c.contains(a) || c.contains(b) {
            if same_cell(mm[a], mm[b]) && mm[a].tags.moveable is Some && mm[b].tags.moveable is Some {
                if c.contains(a) && c.contains(b) {
                    let i = choose|i: int| 0 <= i < n && c[i] == a;
                    let j = choose|j: int| 0 <= j < n && c[j] == b;
                    assert(mm[c[i]].position.x == x + (i + 1) * dx(d));
                    assert(mm[c[j]].position.x == x + (j + 1) * dx(d));
                    assert(mm[c[i]].position.y == y + (i + 1) * dy(d));
                    assert(mm[c[j]].position.y == y + (j + 1) * dy(d));
                    assert(false) by (nonlinear_arith)
                        requires
                            i != j,
                            dx(d) == 0 || dy(d) == 0,
                            dx(d) != 0 || dy(d) != 0,
                            -1 <= dx(d) <= 1, -1 <= dy(d) <= 1,
                            x + (i + 1) * dx(d) == x + (j + 1) * dx(d),
                            y + (i + 1) * dy(d) == y + (j + 1) * dy(d);
                } else {
                    let (u, v) = if c.contains(a) { (a, b) } else { (b, a) };
                    let i = choose|i: int| 0 <= i < n && c[i] == u;
                    assert(is_moveable_at(m, c[i], x + i * dx(d), y + i * dy(d)));
                    assert(mm[u].position.x == x + (i + 1) * dx(d));
                    assert(mm[u].position.y == y + (i + 1) * dy(d));
                    assert(mm[v] == m[v]);
                    assert(is_moveable_at(m, v, x + (i + 1) * dx(d), y + (i + 1) * dy(d)));
                    if i + 1 < n {
                        assert(is_moveable_at(m, c[i + 1], x + (i + 1) * dx(d), y + (i + 1) * dy(d)));
                        assert(m.contains_key(c[i + 1]));
                        assert(rows_compatible(m[v], m[c[i + 1]]));
                        assert(c[i + 1] != v);
                    }
                }
            }
            if same_cell(mm[a], mm[b]) && mm[a].tags.immovable is Some && mm[b].tags.immovable is Some {
                if c.contains(a) {
                    let i = choose|i: int| 0 <= i < n && c[i] == a;
                    assert(is_moveable_at(m, c[i], x + i * dx(d), y + i * dy(d)));
                    assert(tags_wf(m[a].tags));
                } else {
                    let i = choose|i: int| 0 <= i < n && c[i] == b;
                    assert(is_moveable_at(m, c[i], x + i * dx(d), y + i * dy(d)));
                    assert(tags_wf(m[b].tags));
                }
            }
            if same_cell(mm[a], mm[b]) && mm[a].tags.box_spot is Some && mm[b].tags.box_spot is Some {
                if c.contains(a) {
                    let i = choose|i: int| 0 <= i < n && c[i] == a;
                    assert(is_moveable_at(m, c[i], x + i * dx(d), y + i * dy(d)));
                    assert(tags_wf(m[a].tags));
                } else {
                    let i = choose|i: int| 0 <= i < n && c[i] == b;
                    assert(is_moveable_at(m, c[i], x + i * dx(d), y + i * dy(d)));
                    assert(tags_wf(m[b].tags));
                }
            }
        }
    }
}

proof fn lemma_cell_in_range(x: int, e: int, k: int, steps: int)
    requires
        0 <= k <= steps,
        0 <= x <= 255,
        0 <= x + steps * e <= 255,
        -1 <= e <= 1,
    ensures
        0 <= x + k * e <= 255,
{
    assert(0 <= x + k * e <= 255) by (nonlinear_arith)
        requires 0 <= k <= steps, 0 <= x <= 255, 0 <= x + steps * e <= 255, -1 <= e <= 1;
}

} // verus!
