use vstd::prelude::*;

use crate::component::{EntityRow, GameplayState};
use crate::events::{cues, moved_events, reaction, reactions, Cue, EntityMoved, Event};
use crate::game::{after_count, after_queue, after_rows};
use crate::gameplay::{all_spots_covered, any_deadlock, deadlocked, next_state, spot_at, wall_at};
use crate::grid::{
    at_cell, dx, dy, immovable_at, is_moveable_at, moveable_at, moveable_id, moved, push_chain,
    rows_compatible, steps_to_edge, Direction,
};
use crate::level::Level;

verus! {

/// The player is the moveable on its own cell.
proof fn lemma_player_leads(l: Level)
    requires
        l.wf(),
        l.has_player(),
    ensures
        ({
            let pos = l.rows()[l.player()].position;
            moveable_at(l.rows(), pos.x as int, pos.y as int)
                && moveable_id(l.rows(), pos.x as int, pos.y as int) == l.player()
        }),
{
    let m = l.rows();
    let p = l.player();
    let pos = m[p].position;
    assert(m.contains_key(p));
    assert(is_moveable_at(m, p, pos.x as int, pos.y as int));
    let q = moveable_id(m, pos.x as int, pos.y as int);
    if q != p {
        assert(m.contains_key(q));
        assert(rows_compatible(m[p], m[q]));
    }
}

/// The moveable on a cell is the only one there.
proof fn lemma_sole_moveable(m: Map<u64, EntityRow>, id: u64, x: int, y: int)
    requires
        crate::grid::grid_wf(m),
        is_moveable_at(m, id, x, y),
    ensures
        moveable_at(m, x, y),
        moveable_id(m, x, y) == id,
{
    let q = moveable_id(m, x, y);
    if q != id {
        assert(m.contains_key(q));
        assert(rows_compatible(m[id], m[q]));
    }
}

/// A step into a free cell of the grid moves the player alone, one cell,
/// counts one move and queues its `EntityMoved`.
pub proof fn lemma_step_into_free_cell(l: Level, d: Direction)
    requires
        l.wf(),
        l.has_player(),
        l.gameplay.state == GameplayState::Playing,
        l.gameplay.move_count < u32::MAX,
        ({
            let pos = l.rows()[l.player()].position;
            &&& steps_to_edge(d, pos.x as int, pos.y as int, l.width as int, l.height as int) >= 1
            &&& !moveable_at(l.rows(), pos.x + dx(d), pos.y + dy(d))
            &&& !immovable_at(l.rows(), pos.x + dx(d), pos.y + dy(d))
        }),
    ensures
        after_rows(l, Some(d)) == moved(l.rows(), seq![l.player()], d),
        after_count(l, Some(d)) == l.gameplay.move_count + 1,
        after_queue(l, Some(d)) == l.events.events@.push(Event::EntityMoved(EntityMoved { entity: l.player() })),
{
    let m = l.rows();
    let p = l.player();
    let pos = m[p].position;
    let (x, y) = (pos.x as int, pos.y as int);
    let steps = steps_to_edge(d, x, y, l.width as int, l.height as int);
    lemma_player_leads(l);
    assert(push_chain(m, x + dx(d), y + dy(d), d, (steps - 1) as nat) == Some(Seq::<u64>::empty()));
    assert(seq![p] + Seq::<u64>::empty() =~= seq![p]);
    assert(l.chain_of(p, d) == Some(seq![p]));
    assert(moved_events(seq![p]) =~= seq![Event::EntityMoved(EntityMoved { entity: p })]);
    assert(l.events.events@ + seq![Event::EntityMoved(EntityMoved { entity: p })] =~= l.events.events@.push(
        Event::EntityMoved(EntityMoved { entity: p }),
    ));
}

/// Pushing a box into a free cell moves the player and the box one cell
/// each, counts one move and queues `EntityMoved` for the player, then the box.
pub proof fn lemma_push_one_box(l: Level, d: Direction, b: u64)
    requires
        l.wf(),
        l.has_player(),
        l.gameplay.state == GameplayState::Playing,
        l.gameplay.move_count < u32::MAX,
        ({
            let pos = l.rows()[l.player()].position;
            &&& steps_to_edge(d, pos.x as int, pos.y as int, l.width as int, l.height as int) >= 2
            &&& l.rows().contains_key(b)
            &&& l.rows()[b].tags.crate_box is Some
            &&& at_cell(l.rows()[b], pos.x + dx(d), pos.y + dy(d))
            &&& !moveable_at(l.rows(), pos.x + 2 * dx(d), pos.y + 2 * dy(d))
            &&& !immovable_at(l.rows(), pos.x + 2 * dx(d), pos.y + 2 * dy(d))
        }),
    ensures
        after_rows(l, Some(d)) == moved(l.rows(), seq![l.player(), b], d),
        after_count(l, Some(d)) == l.gameplay.move_count + 1,
        after_queue(l, Some(d)) == l.events.events@ + seq![
            Event::EntityMoved(EntityMoved { entity: l.player() }),
            Event::EntityMoved(EntityMoved { entity: b }),
        ],
{
    let m = l.rows();
    let p = l.player();
    let pos = m[p].position;
    let (x, y) = (pos.x as int, pos.y as int);
    let steps = steps_to_edge(d, x, y, l.width as int, l.height as int);
    lemma_player_leads(l);
    assert(crate::grid::tags_wf(m[b].tags));
    lemma_sole_moveable(m, b, x + dx(d), y + dy(d));
    assert(x + dx(d) + dx(d) == x + 2 * dx(d) && y + dy(d) + dy(d) == y + 2 * dy(d));
    assert(push_chain(m, x + 2 * dx(d), y + 2 * dy(d), d, (steps - 2) as nat) == Some(Seq::<u64>::empty()));
    assert(push_chain(m, x + dx(d), y + dy(d), d, (steps - 1) as nat) == Some(seq![b] + Seq::<u64>::empty()));
    assert(seq![b] + Seq::<u64>::empty() =~= seq![b]);
    assert(seq![p] + seq![b] =~= seq![p, b]);
    assert(l.chain_of(p, d) == Some(seq![p, b]));
    assert(moved_events(seq![p, b]) =~= seq![
        Event::EntityMoved(EntityMoved { entity: p }),
        Event::EntityMoved(EntityMoved { entity: b }),
    ]);
}

/// A chain of `n` moveables in line from `(x, y)` whose next cell holds an
/// immovable and no moveable is blocked.
proof fn lemma_chain_blocked(m: Map<u64, EntityRow>, x: int, y: int, d: Direction, steps: nat, n: nat)
    requires
        forall|k: int| 0 <= k < n ==> #[trigger] moveable_at(m, x + k * dx(d), y + k * dy(d)),
        !moveable_at(m, x + n * dx(d), y + n * dy(d)),
        immovable_at(m, x + n * dx(d), y + n * dy(d)),
        n <= steps,
    ensures
        push_chain(m, x, y, d, steps) is None,
    decreases n,
{
    if n == 0 {
        assert(x + 0 * dx(d) == x && y + 0 * dy(d) == y);
    } else {
        assert(x + 0 * dx(d) == x && y + 0 * dy(d) == y);
        assert(moveable_at(m, x + 0 * dx(d), y + 0 * dy(d)));
        let (x1, y1) = (x + dx(d), y + dy(d));
        assert forall|k: int| 0 <= k < n - 1 implies #[trigger] moveable_at(m, x1 + k * dx(d), y1 + k * dy(d)) by {
            assert(x1 + k * dx(d) == x + (k + 1) * dx(d)) by (nonlinear_arith) requires x1 == x + dx(d);
            assert(y1 + k * dy(d) == y + (k + 1) * dy(d)) by (nonlinear_arith) requires y1 == y + dy(d);
            assert(moveable_at(m, x + (k + 1) * dx(d), y + (k + 1) * dy(d)));
        }
        assert(x1 + (n - 1) * dx(d) == x + n * dx(d)) by (nonlinear_arith) requires x1 == x + dx(d);
        assert(y1 + (n - 1) * dy(d) == y + n * dy(d)) by (nonlinear_arith) requires y1 == y + dy(d);
        lemma_chain_blocked(m, x1, y1, d, (steps - 1) as nat, (n - 1) as nat);
    }
}

/// When the player and the `n - 1` moveables in line ahead of it end at an
/// immovable, nothing moves, the move count stays and one `PlayerHitObstacle`
/// is queued.
pub proof fn lemma_blocked_by_obstacle(l: Level, d: Direction, n: nat)
    requires
        l.wf(),
        l.has_player(),
        l.gameplay.state == GameplayState::Playing,
        n >= 1,
        ({
            let pos = l.rows()[l.player()].position;
            let (x, y) = (pos.x as int, pos.y as int);
            &&& n <= steps_to_edge(d, x, y, l.width as int, l.height as int)
            &&& forall|k: int| 1 <= k < n ==> #[trigger] moveable_at(l.rows(), x + k * dx(d), y + k * dy(d))
            &&& !moveable_at(l.rows(), x + n * dx(d), y + n * dy(d))
            &&& immovable_at(l.rows(), x + n * dx(d), y + n * dy(d))
        }),
    ensures
        after_rows(l, Some(d)) == l.rows(),
        after_count(l, Some(d)) == l.gameplay.move_count,
        after_queue(l, Some(d)) == l.events.events@.push(Event::PlayerHitObstacle),
{
    let m = l.rows();
    let pos = m[l.player()].position;
    let (x, y) = (pos.x as int, pos.y as int);
    lemma_player_leads(l);
    assert forall|k: int| 0 <= k < n implies #[trigger] moveable_at(m, x + k * dx(d), y + k * dy(d)) by {
        if k == 0 {
            assert(x + 0 * dx(d) == x && y + 0 * dy(d) == y);
        }
    }
    lemma_chain_blocked(m, x, y, d, steps_to_edge(d, x, y, l.width as int, l.height as int), n);
}

/// A tick without a command moves nothing, counts nothing, queues nothing,
/// and leaves the state as it was on a grid that is neither won nor lost.
pub proof fn lemma_idle_tick(l: Level)
    requires
        l.wf(),
        l.gameplay.state != GameplayState::Playing || (!all_spots_covered(l.rows()) && !any_deadlock(
            l.rows(),
            l.width as int,
            l.height as int,
        )),
    ensures
        after_rows(l, None) == l.rows(),
        after_count(l, None) == l.gameplay.move_count,
        after_queue(l, None) == l.events.events@,
        next_state(l.gameplay.state, after_rows(l, None), l.width as int, l.height as int) == l.gameplay.state,
{
}

/// A playing level whose spots all hold a box of their color after the
/// command is won on that tick.
pub proof fn lemma_win(l: Level, cmd: Option<Direction>)
    requires
        l.gameplay.state == GameplayState::Playing,
        all_spots_covered(after_rows(l, cmd)),
    ensures
        next_state(l.gameplay.state, after_rows(l, cmd), l.width as int, l.height as int) == GameplayState::Won,
{
}

/// Won and Lost are final: commands are ignored and the evaluation keeps the
/// state.
pub proof fn lemma_terminal_sticky(l: Level, cmd: Option<Direction>)
    requires
        l.gameplay.state != GameplayState::Playing,
    ensures
        after_rows(l, cmd) == l.rows(),
        after_count(l, cmd) == l.gameplay.move_count,
        after_queue(l, cmd) == l.events.events@,
        next_state(l.gameplay.state, after_rows(l, cmd), l.width as int, l.height as int) == l.gameplay.state,
{
}

/// A box off every spot with walls above and to its left loses a playing
/// level that is not won.
pub proof fn lemma_corner_loss(m: Map<u64, EntityRow>, b: u64, w: int, h: int)
    requires
        m.contains_key(b),
        m[b].tags.crate_box is Some,
        !spot_at(m, m[b].position.x as int, m[b].position.y as int),
        wall_at(m, m[b].position.x as int, m[b].position.y - 1, w, h),
        wall_at(m, m[b].position.x - 1, m[b].position.y as int, w, h),
        !all_spots_covered(m),
    ensures
        next_state(GameplayState::Playing, m, w, h) == GameplayState::Lost,
{
    assert(deadlocked(m, b, w, h));
}

/// A drain enqueues only `BoxPlacedOnSpot` events, which wait for the next
/// drain; a queue without them yields only wall cues, so a placement is
/// heard no earlier than the drain after the move.
pub proof fn lemma_one_tick_latency(m: Map<u64, EntityRow>, q: Seq<Event>)
    ensures
        forall|i: int| 0 <= i < reactions(m, q).len() ==> #[trigger] reactions(m, q)[i] is BoxPlacedOnSpot,
        (forall|i: int| 0 <= i < q.len() ==> !(#[trigger] q[i] is BoxPlacedOnSpot)) ==> forall|i: int|
            0 <= i < cues(q).len() ==> #[trigger] cues(q)[i] == Cue::Wall,
    decreases q.len(),
{
    if q.len() > 0 {
        let p = q.drop_last();
        lemma_one_tick_latency(m, p);
        let rs = reactions(m, q);
        assert(rs == reactions(m, p) + reaction(m, q.last()));
        assert forall|i: int| 0 <= i < rs.len() implies #[trigger] rs[i] is BoxPlacedOnSpot by {
            if i >= reactions(m, p).len() {
                assert(rs[i] == reaction(m, q.last())[i - reactions(m, p).len()]);
            }
        }
        if forall|i: int| 0 <= i < q.len() ==> !(#[trigger] q[i] is BoxPlacedOnSpot) {
            assert forall|i: int| 0 <= i < p.len() implies !(#[trigger] p[i] is BoxPlacedOnSpot) by {
                assert(p[i] == q[i]);
            }
            let cs = cues(q);
            assert(!(q[q.len() - 1] is BoxPlacedOnSpot));
            assert forall|i: int| 0 <= i < cs.len() implies #[trigger] cs[i] == Cue::Wall by {
                if i >= cues(p).len() {
                    assert(cs[i] == crate::events::cue_of(q.last())[i - cues(p).len()]);
                }
            }
        }
    }
}

} // verus!
