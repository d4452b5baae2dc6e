use vstd::prelude::*;

use crate::component::{EntityRow, GamePlay, GameplayState, Position, Time};
use crate::events::{moved_events, EntityMoved, Event, EventQueue};
use crate::grid::{
    dx, dy, grid_wf, immovable_at, is_moveable_at, lemma_chain_cells, lemma_chain_distinct, lemma_moved_wf,
    moveable_at, moveable_id, moved, push_chain, shifted, steps_to_edge, Direction,
};
use crate::store::{
    lists_rows, Store, MAX_ENTITIES,
};

verus! {

/// One loaded level: its entity store, the grid's extent, and
/// the gameplay, event-queue and time singletons.
pub struct Level {
    pub store: Store,
    pub width: u8,
    pub height: u8,
    pub gameplay: GamePlay,
    pub events: EventQueue,
    pub time: Time,
}

/// What a directional command did.
#[derive(Clone, Copy, PartialEq, Eq, Structural, Debug)]
pub enum MoveOutcome {
    /// The state was not `Playing`: nothing happened.
    Ignored,
    /// The chain met an obstacle or the edge of the grid.
    Blocked,
    /// The given number of entities moved one cell.
    Moved(usize),
}

impl Level {
    /// The entities of the level, keyed by id.
    pub open spec fn rows(&self) -> Map<u64, EntityRow> {
        self.store.rows()
    }

    pub open spec fn wf(&self) -> bool {
        grid_wf(self.rows()) && self.rows().dom().finite() && self.rows().len() <= MAX_ENTITIES
    }

    /// Whether the level has a player.
    pub open spec fn has_player(&self) -> bool {
        exists|p: u64| #[trigger] self.rows().contains_key(p) && self.rows()[p].tags.player is Some
    }

    /// The player of the level.
    pub open spec fn player(&self) -> u64 {
        choose|p: u64| #[trigger] self.rows().contains_key(p) && self.rows()[p].tags.player is Some
    }

    /// The push chain that command `d` resolves to from the player `p`.
    pub open spec fn chain_of(&self, p: u64, d: Direction) -> Option<Seq<u64>> {
        let pos = self.rows()[p].position;
        push_chain(
            self.rows(),
            pos.x as int,
            pos.y as int,
            d,
            steps_to_edge(d, pos.x as int, pos.y as int, self.width as int, self.height as int),
        )
    }

    /// An empty level of `width` by `height` cells, playing, with no moves,
    /// no events and no elapsed time.
    pub fn new(width: u8, height: u8) -> (r: Level)
        ensures
            r.wf(),
            r.rows() == Map::<u64, EntityRow>::empty(),
            r.width == width,
            r.height == height,
            r.gameplay.state == GameplayState::Playing,
            r.gameplay.move_count == 0,
            r.events.events@.len() == 0,
            r.time.elapsed_ms == 0,
    {
        let store = Store::new();
        proof {
            assert(store.rows().dom() =~= Set::<u64>::empty());
        }
        Level { store, width, height, gameplay: GamePlay::new(), events: EventQueue::new(), time: Time { elapsed_ms: 0 } }
    }

    /// A listing of the level's entities.
    pub fn entities(&self) -> (r: Vec<(u64, EntityRow)>)
        ensures
            lists_rows(r@, self.rows()),
    {
        self.store.entities()
    }
}

/// The index in `rows` of a player.
fn find_player(rows: &Vec<(u64, EntityRow)>, Ghost(m): Ghost<Map<u64, EntityRow>>) -> (r: usize)
    requires
        lists_rows(rows@, m),
        exists|p: u64| #[trigger] m.contains_key(p) && m[p].tags.player is Some,
    ensures
        r < rows@.len(),
        rows@[r as int].1.tags.player is Some,
{
    let mut i: usize = 0;
    while i < rows.len()
        invariant
            i <= rows@.len(),
            lists_rows(rows@, m),
            forall|j: int| 0 <= j < i ==> (#[trigger] rows@[j].1).tags.player is None,
        decreases rows@.len() - i,
    {
        if rows[i].1.tags.player.is_some() {
            return i;
        }
        i += 1;
    }
    proof {
        let p = choose|p: u64| #[trigger] m.contains_key(p) && m[p].tags.player is Some;
        let j = choose|j: int| 0 <= j < rows@.len() && rows@[j].0 == p;
        assert(rows@[j].1.tags.player is None);
    }
    0
}

/// The number of cells beyond `(x, y)` in direction `d` on a `w` by `h` grid.
fn edge_steps(d: Direction, x: u8, y: u8, w: u8, h: u8) -> (r: u8)
    ensures
        r == steps_to_edge(d, x as int, y as int, w as int, h as int),
        fits(d, x as int, y as int, r as int),
{
    match d {
        Direction::Up => y,
        Direction::Left => x,
        Direction::Down => if (y as u16) + 1 < h as u16 { h - 1 - y } else { 0 },
        Direction::Right => if (x as u16) + 1 < w as u16 { w - 1 - x } else { 0 },
    }
}

/// The position one cell further in direction `d`.
fn step(p: Position, d: Direction) -> (r: Position)
    requires
        d == Direction::Up ==> p.y >= 1,
        d == Direction::Down ==> p.y < 255,
        d == Direction::Left ==> p.x >= 1,
        d == Direction::Right ==> p.x < 255,
    ensures
        r == shifted(p, d),
{
    match d {
        Direction::Up => Position { x: p.x, y: p.y - 1, z: p.z },
        Direction::Down => Position { x: p.x, y: p.y + 1, z: p.z },
        Direction::Left => Position { x: p.x - 1, y: p.y, z: p.z },
        Direction::Right => Position { x: p.x + 1, y: p.y, z: p.z },
    }
}

/// The index in `rows` of the moveable on `(x, y)`, if there is one.
fn find_moveable(rows: &Vec<(u64, EntityRow)>, Ghost(m): Ghost<Map<u64, EntityRow>>, x: u8, y: u8) -> (r: Option<usize>)
    requires
        lists_rows(rows@, m),
    ensures
        r is Some <==> moveable_at(m, x as int, y as int),
        r is Some ==> r.unwrap() < rows@.len() && is_moveable_at(m, rows@[r.unwrap() as int].0, x as int, y as int),
{
    let mut i: usize = 0;
    while i < rows.len()
        invariant
            i <= rows@.len(),
            lists_rows(rows@, m),
            forall|j: int| 0 <= j < i ==> !is_moveable_at(m, #[trigger] rows@[j].0, x as int, y as int),
        decreases rows@.len() - i,
    {
        let row = &rows[i].1;
        if row.tags.moveable.is_some() && row.position.x == x && row.position.y == y {
            assert(m.contains_key(rows@[i as int].0));
            assert(is_moveable_at(m, rows@[i as int].0, x as int, y as int));
            return Some(i);
        }
        i += 1;
    }
    proof {
        assert forall|id: u64| !is_moveable_at(m, id, x as int, y as int) by {
            if is_moveable_at(m, id, x as int, y as int) {
                let j = choose|j: int| 0 <= j < rows@.len() && rows@[j].0 == id;
                assert(!is_moveable_at(m, rows@[j].0, x as int, y as int));
            }
        }
    }
    None
}

/// Whether an immovable stands on `(x, y)`.
fn has_immovable(rows: &Vec<(u64, EntityRow)>, Ghost(m): Ghost<Map<u64, EntityRow>>, x: u8, y: u8) -> (r: bool)
    requires
        lists_rows(rows@, m),
    ensures
        r == immovable_at(m, x as int, y as int),
{
    let mut i: usize = 0;
    while i < rows.len()
        invariant
            i <= rows@.len(),
            lists_rows(rows@, m),
            forall|j: int| 0 <= j < i ==> !(#[trigger] rows@[j].1.tags.immovable is Some && crate::grid::at_cell(rows@[j].1, x as int, y as int)),
        decreases rows@.len() - i,
    {
        let row = &rows[i].1;
        if row.tags.immovable.is_some() && row.position.x == x && row.position.y == y {
            assert(m.contains_key(rows@[i as int].0));
            assert(crate::grid::at_cell(m[rows@[i as int].0], x as int, y as int));
            return true;
        }
        i += 1;
    }
    proof {
        assert forall|id: u64| !(m.contains_key(id) && m[id].tags.immovable is Some && #[trigger] crate::grid::at_cell(m[id], x as int, y as int)) by {
            if m.contains_key(id) && m[id].tags.immovable is Some && crate::grid::at_cell(m[id], x as int, y as int) {
                let j = choose|j: int| 0 <= j < rows@.len() && rows@[j].0 == id;
                assert(rows@[j].1.tags.immovable is Some);
            }
        }
    }
    false
}

/// Each pair holds an entity of `m` and its position there.
pub open spec fn positions_current(s: Seq<(u64, Position)>, m: Map<u64, EntityRow>) -> bool {
    forall|k: int| 0 <= k < s.len() ==> m.contains_key(#[trigger] s[k].0) && s[k].1 == m[s[k].0].position
}

/// Room for `steps` more cells from `(x, y)` in direction `d` within `u8`.
pub open spec fn fits(d: Direction, x: int, y: int, steps: int) -> bool {
    0 <= x <= 255 && 0 <= y <= 255 && steps >= 0 && match d {
        Direction::Up => steps <= y,
        Direction::Down => y + steps <= 255,
        Direction::Left => steps <= x,
        Direction::Right => x + steps <= 255,
    }
}

/// Resolves the push chain from `(x, y)`: each moveable of it with its
/// current position, nearest first.
fn scan_chain(
    rows: &Vec<(u64, EntityRow)>,
    Ghost(m): Ghost<Map<u64, EntityRow>>,
    x: u8,
    y: u8,
    d: Direction,
    steps: u8,
) -> (r: Option<Vec<(u64, Position)>>)
    requires
        lists_rows(rows@, m),
        grid_wf(m),
        fits(d, x as int, y as int, steps as int),
    ensures
        r is Some <==> push_chain(m, x as int, y as int, d, steps as nat) is Some,
        r is Some ==> r.unwrap()@.map_values(|e: (u64, Position)| e.0) == push_chain(m, x as int, y as int, d, steps as nat).unwrap(),
        r is Some ==> positions_current(r.unwrap()@, m),
    decreases steps,
{
    match find_moveable(rows, Ghost(m), x, y) {
        Some(i) => {
            let id = rows[i].0;
            proof {
                let c = moveable_id(m, x as int, y as int);
                assert(is_moveable_at(m, c, x as int, y as int));
                if c != id {
                    assert(m.contains_key(c) && m.contains_key(id));
                    assert(crate::grid::rows_compatible(m[c], m[id]));
                }
            }
            if steps == 0 {
                return None;
            }
            let nx: u8 = match d { Direction::Left => x - 1, Direction::Right => x + 1, _ => x };
            let ny: u8 = match d { Direction::Up => y - 1, Direction::Down => y + 1, _ => y };
            proof {
                assert(nx == x + dx(d) && ny == y + dy(d));
            }
            let sub = scan_chain(rows, Ghost(m), nx, ny, d, steps - 1);
            if sub.is_none() {
                return None;
            }
            let mut rest = sub.unwrap();
            let ghost rest0 = rest@;
            let mut v: Vec<(u64, Position)> = Vec::new();
            v.push((id, rows[i].1.position));
            v.append(&mut rest);
            proof {
                let full = push_chain(m, x as int, y as int, d, steps as nat).unwrap();
                let tail = push_chain(m, nx as int, ny as int, d, (steps - 1) as nat).unwrap();
                assert(full == seq![id] + tail);
                assert(v@.map_values(|e: (u64, Position)| e.0) =~= full);
                assert(m.contains_key(id) && m[id] == rows@[i as int].1);
                assert forall|k: int| 0 <= k < v@.len() implies m.contains_key(#[trigger] v@[k].0) && v@[k].1 == m[v@[k].0].position by {
                    if k > 0 {
                        assert(v@[k] == rest0[k - 1]);
                    }
                }
            }
            Some(v)
        },
        None => {
            if has_immovable(rows, Ghost(m), x, y) {
                None
            } else {
                let v: Vec<(u64, Position)> = Vec::new();
                proof {
                    assert(v@.map_values(|e: (u64, Position)| e.0) =~= Seq::<u64>::empty());
                }
                Some(v)
            }
        },
    }
}

impl Level {
    /// Resolves directional command `d` while playing: the player and the
    /// boxes in line ahead of it move one cell, or an obstacle is hit.
    pub fn apply_command(&mut self, d: Direction) -> (r: MoveOutcome)
        requires
            old(self).wf(),
            old(self).has_player(),
        ensures
            final(self).wf(),
            final(self).has_player(),
            final(self).width == old(self).width,
            final(self).height == old(self).height,
            final(self).time == old(self).time,
            final(self).gameplay.state == old(self).gameplay.state,
            old(self).gameplay.state != GameplayState::Playing ==> {
                &&& r == MoveOutcome::Ignored
                &&& final(self).rows() == old(self).rows()
                &&& final(self).gameplay == old(self).gameplay
                &&& final(self).events.events@ == old(self).events.events@
            },
            old(self).gameplay.state == GameplayState::Playing ==> match old(self).chain_of(old(self).player(), d) {
                None => {
                    &&& r == MoveOutcome::Blocked
                    &&& final(self).rows() == old(self).rows()
                    &&& final(self).gameplay == old(self).gameplay
                    &&& final(self).events.events@ == old(self).events.events@.push(Event::PlayerHitObstacle)
                },
                Some(c) => {
                    &&& r == MoveOutcome::Moved(c.len() as usize)
                    &&& final(self).rows() == moved(old(self).rows(), c, d)
                    &&& final(self).gameplay.move_count == (if c.len() > 0 {
                        bump(old(self).gameplay.move_count)
                    } else {
                        old(self).gameplay.move_count
                    })
                    &&& final(self).events.events@ == old(self).events.events@ + moved_events(c)
                },
            },
    {
        if self.gameplay.state != GameplayState::Playing {
            return MoveOutcome::Ignored;
        }
        let ghost m = self.rows();
        let rows = self.entities();
        let pi = find_player(&rows, Ghost(m));
        proof {
            let p = self.player();
            if p != rows@[pi as int].0 {
                assert(m.contains_key(p) && m.contains_key(rows@[pi as int].0));
                assert(crate::grid::rows_compatible(m[p], m[rows@[pi as int].0]));
            }
        }
        let pos = rows[pi].1.position;
        let steps = edge_steps(d, pos.x, pos.y, self.width, self.height);
        let scanned = scan_chain(&rows, Ghost(m), pos.x, pos.y, d, steps);
        if scanned.is_none() {
            self.events.events.push(Event::PlayerHitObstacle);
            return MoveOutcome::Blocked;
        }
        let chain = scanned.unwrap();
        let ghost c = push_chain(m, pos.x as int, pos.y as int, d, steps as nat).unwrap();
        proof {
            lemma_chain_cells(m, pos.x as int, pos.y as int, d, steps as nat);
            lemma_chain_distinct(m, pos.x as int, pos.y as int, d, steps as nat);
            assert forall|k: int| 0 <= k < chain@.len() implies #[trigger] chain@[k].0 == c[k] by {
                assert(chain@.map_values(|e: (u64, Position)| e.0)[k] == chain@[k].0);
            }
            assert(fits(d, pos.x as int, pos.y as int, steps as int));
            if d == Direction::Up || d == Direction::Left {
                assert(steps * dy(d) == -steps || steps * dy(d) == 0) by (nonlinear_arith) requires dy(d) == -1 || dy(d) == 0;
                assert(steps * dx(d) == -steps || steps * dx(d) == 0) by (nonlinear_arith) requires dx(d) == -1 || dx(d) == 0;
            } else {
                assert(steps * dy(d) == steps || steps * dy(d) == 0) by (nonlinear_arith) requires dy(d) == 1 || dy(d) == 0;
                assert(steps * dx(d) == steps || steps * dx(d) == 0) by (nonlinear_arith) requires dx(d) == 1 || dx(d) == 0;
            }
            lemma_moved_wf(m, pos.x as int, pos.y as int, d, steps as nat);
        }
        if chain.len() > 0 {
            self.gameplay.move_count = if self.gameplay.move_count < u32::MAX {
                self.gameplay.move_count + 1
            } else {
                self.gameplay.move_count
            };
        }
        let ghost s0 = *self;
        let mut k: usize = chain.len();
        while k > 0
            invariant
                k <= chain@.len(),
                chain@.len() == c.len(),
                c.len() <= steps,
                fits(d, pos.x as int, pos.y as int, steps as int),
                positions_current(chain@, m),
                forall|j: int| 0 <= j < chain@.len() ==> #[trigger] chain@[j].0 == c[j],
                forall|j: int| 0 <= j < c.len() ==> is_moveable_at(m, #[trigger] c[j], pos.x + j * dx(d), pos.y + j * dy(d)),
                c.no_duplicates(),
                self.store.rows() == moved(m, c.subrange(k as int, c.len() as int), d),
                self.width == s0.width && self.height == s0.height && self.time == s0.time,
                self.gameplay == s0.gameplay && self.events.events@ == s0.events.events@,
            decreases k,
        {
            k -= 1;
            let (id, p) = chain[k];
            proof {
                assert(chain@[k as int].0 == c[k as int]);
                assert(is_moveable_at(m, c[k as int], pos.x + k * dx(d), pos.y + k * dy(d)));
                assert(p == m[id].position);
                assert(k < steps);
                if d == Direction::Up {
                    assert(p.y == pos.y - k) by (nonlinear_arith) requires p.y == pos.y + k * dy(d), dy(d) == -1;
                } else if d == Direction::Down {
                    assert(p.y == pos.y + k) by (nonlinear_arith) requires p.y == pos.y + k * dy(d), dy(d) == 1;
                } else if d == Direction::Left {
                    assert(p.x == pos.x - k) by (nonlinear_arith) requires p.x == pos.x + k * dx(d), dx(d) == -1;
                } else {
                    assert(p.x == pos.x + k) by (nonlinear_arith) requires p.x == pos.x + k * dx(d), dx(d) == 1;
                }
            }
            let np = step(p, d);
            let ghost before = self.store.rows();
            self.store.set_position(id, np);
            proof {
                let tail = c.subrange(k + 1, c.len() as int);
                let tail2 = c.subrange(k as int, c.len() as int);
                assert(!tail.contains(id)) by {
                    if tail.contains(id) {
                        let j = choose|j: int| 0 <= j < tail.len() && tail[j] == id;
                        assert(c[k + 1 + j] == c[k as int]);
                    }
                }
                assert(before[id] == m[id]);
                assert forall|q: u64| tail2.contains(q) <==> (q == id || tail.contains(q)) by {
                    if tail2.contains(q) {
                        let j = choose|j: int| 0 <= j < tail2.len() && tail2[j] == q;
                        if j > 0 {
                            assert(tail[j - 1] == q);
                        }
                    }
                    if tail.contains(q) {
                        let j = choose|j: int| 0 <= j < tail.len() && tail[j] == q;
                        assert(tail2[j + 1] == q);
                    }
                    if q == id {
                        assert(tail2[0] == q);
                    }
                }
                assert(self.store.rows() =~= moved(m, tail2, d));
            }
        }
        proof {
            assert(c.subrange(0, c.len() as int) =~= c);
        }
        let mut i: usize = 0;
        let ghost ev0 = self.events.events@;
        while i < chain.len()
            invariant
                i <= chain@.len(),
                chain@.len() == c.len(),
                forall|j: int| 0 <= j < chain@.len() ==> #[trigger] chain@[j].0 == c[j],
                self.events.events@ == ev0 + moved_events(c.subrange(0, i as int)),
                self.width == s0.width && self.height == s0.height && self.time == s0.time,
                self.gameplay == s0.gameplay && self.store.rows() == moved(m, c, d),
            decreases chain@.len() - i,
        {
            self.events.events.push(Event::EntityMoved(EntityMoved { entity: chain[i].0 }));
            proof {
                assert(c.subrange(0, i + 1) =~= c.subrange(0, i as int).push(c[i as int]));
                assert(moved_events(c.subrange(0, i + 1)) =~= moved_events(c.subrange(0, i as int)).push(
                    Event::EntityMoved(EntityMoved { entity: c[i as int] }),
                ));
            }
            i += 1;
        }
        proof {
            assert(c.subrange(0, c.len() as int) =~= c);
            let p = choose|p: u64| #[trigger] m.contains_key(p) && m[p].tags.player is Some;
            assert(self.rows().contains_key(p) && self.rows()[p].tags.player is Some);
        }
        MoveOutcome::Moved(chain.len())
    }
}

/// One more move, saturating at the largest count.
pub open spec fn bump(n: u32) -> u32 {
    if n < u32::MAX { (n + 1) as u32 } else { n }
}

} // verus!
