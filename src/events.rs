use vstd::prelude::*;

use crate::component::{BoxColor, EntityRow};
use crate::gameplay::spot_at;
use crate::grid::{at_cell, grid_wf};
use crate::level::Level;
use crate::store::lists_rows;

verus! {

/// An entity, named by its store id, moved one cell.
#[derive(Clone, Copy, PartialEq, Eq, Structural, Debug)]
pub struct EntityMoved {
    pub entity: u64,
}

/// A box came to rest on a box spot, of its own color or not.
#[derive(Clone, Copy, PartialEq, Eq, Structural, Debug)]
pub struct BoxPlacedOnSpot {
    pub is_correct_spot: bool,
}

#[derive(Clone, Copy, PartialEq, Eq, Structural, Debug)]
pub enum Event {
    PlayerHitObstacle,
    EntityMoved(EntityMoved),
    BoxPlacedOnSpot(BoxPlacedOnSpot),
}

/// Events waiting for the next drain, oldest first.
#[derive(Clone, Debug)]
pub struct EventQueue {
    pub events: Vec<Event>,
}

/// A sound cue for the audio collaborator.
#[derive(Clone, Copy, PartialEq, Eq, Structural, Debug)]
pub enum Cue {
    Wall,
    Correct,
    Incorrect,
}

impl Cue {
    /// The name of the sound to play.
    pub fn name(&self) -> (r: &'static str)
        ensures
            r@ == self.spec_name(),
    {
        match self {
            Cue::Wall => "wall",
            Cue::Correct => "correct",
            Cue::Incorrect => "incorrect",
        }
    }

    pub open spec fn spec_name(&self) -> Seq<char> {
        match self {
            Cue::Wall => "wall"@,
            Cue::Correct => "correct"@,
            Cue::Incorrect => "incorrect"@,
        }
    }
}

impl EventQueue {
    pub fn new() -> (r: EventQueue)
        ensures
            r.events@.len() == 0,
    {
        EventQueue { events: Vec::new() }
    }
}

/// The `EntityMoved` events for the entities of `c`, in order.
pub open spec fn moved_events(c: Seq<u64>) -> Seq<Event> {
    c.map_values(|id: u64| Event::EntityMoved(EntityMoved { entity: id }))
}

/// The color of the box spot on `(x, y)`.
pub open spec fn spot_color_at(m: Map<u64, EntityRow>, x: int, y: int) -> BoxColor {
    m[choose|s: u64| #[trigger] m.contains_key(s) && m[s].tags.box_spot is Some && at_cell(m[s], x, y)].tags.box_spot.unwrap().color
}

/// What the router enqueues in answer to event `e`: a `BoxPlacedOnSpot` for
/// a box that moved onto a spot, telling whether the colors match.
pub open spec fn reaction(m: Map<u64, EntityRow>, e: Event) -> Seq<Event> {
    match e {
        Event::EntityMoved(em) => {
            let id = em.entity;
            if m.contains_key(id) && m[id].tags.crate_box is Some && spot_at(m, m[id].position.x as int, m[id].position.y as int) {
                seq![Event::BoxPlacedOnSpot(BoxPlacedOnSpot {
                    is_correct_spot: spot_color_at(m, m[id].position.x as int, m[id].position.y as int)
                        == m[id].tags.crate_box.unwrap().color,
                })]
            } else {
                Seq::empty()
            }
        },
        _ => Seq::empty(),
    }
}

/// The reactions to the events of `q`, in order.
pub open spec fn reactions(m: Map<u64, EntityRow>, q: Seq<Event>) -> Seq<Event>
    decreases q.len(),
{
    if q.len() == 0 {
        Seq::empty()
    } else {
        reactions(m, q.drop_last()) + reaction(m, q.last())
    }
}

/// The sound cue of event `e`, if it has one.
pub open spec fn cue_of(e: Event) -> Seq<Cue> {
    match e {
        Event::PlayerHitObstacle => seq![Cue::Wall],
        Event::BoxPlacedOnSpot(p) => seq![if p.is_correct_spot { Cue::Correct } else { Cue::Incorrect }],
        _ => Seq::empty(),
    }
}

/// The sound cues of the events of `q`, in order.
pub open spec fn cues(q: Seq<Event>) -> Seq<Cue>
    decreases q.len(),
{
    if q.len() == 0 {
        Seq::empty()
    } else {
        cues(q.drop_last()) + cue_of(q.last())
    }
}

fn find_row(rows: &Vec<(u64, EntityRow)>, Ghost(m): Ghost<Map<u64, EntityRow>>, id: u64) -> (r: Option<usize>)
    requires
        lists_rows(rows@, m),
    ensures
        r is Some <==> m.contains_key(id),
        r is Some ==> r.unwrap() < rows@.len() && rows@[r.unwrap() as int].0 == id,
{
    let mut i: usize = 0;
    while i < rows.len()
        invariant
            i <= rows@.len(),
            lists_rows(rows@, m),
            forall|j: int| 0 <= j < i ==> (#[trigger] rows@[j]).0 != id,
        decreases rows@.len() - i,
    {
        if rows[i].0 == id {
            assert(m.contains_key(rows@[i as int].0));
            return Some(i);
        }
        i += 1;
    }
    proof {
        if m.contains_key(id) {
            let j = choose|j: int| 0 <= j < rows@.len() && rows@[j].0 == id;
            assert(rows@[j].0 != id);
        }
    }
    None
}

fn spot_color(rows: &Vec<(u64, EntityRow)>, Ghost(m): Ghost<Map<u64, EntityRow>>, x: u8, y: u8) -> (r: Option<BoxColor>)
    requires
        lists_rows(rows@, m),
        grid_wf(m),
    ensures
        r is Some <==> spot_at(m, x as int, y as int),
        r is Some ==> r.unwrap() == spot_color_at(m, x as int, y as int),
{
    let mut i: usize = 0;
    while i < rows.len()
        invariant
            i <= rows@.len(),
            lists_rows(rows@, m),
            grid_wf(m),
            forall|j: int| 0 <= j < i ==> !((#[trigger] rows@[j].1).tags.box_spot is Some && at_cell(rows@[j].1, x as int, y as int)),
        decreases rows@.len() - i,
    {
        let row = &rows[i].1;
        if row.tags.box_spot.is_some() && row.position.x == x && row.position.y == y {
            proof {
                let s0 = rows@[i as int].0;
                assert(m.contains_key(s0));
                let s = choose|s: u64| #[trigger] m.contains_key(s) && m[s].tags.box_spot is Some && at_cell(m[s], x as int, y as int);
                assert(m.contains_key(s0) && m[s0].tags.box_spot is Some && at_cell(m[s0], x as int, y as int));
                assert(m.contains_key(s));
                if s != s0 {
                    assert(crate::grid::rows_compatible(m[s], m[s0]));
                }
            }
            return Some(row.tags.box_spot.unwrap().color);
        }
        i += 1;
    }
    proof {
        assert forall|s: u64| !(#[trigger] m.contains_key(s) && m[s].tags.box_spot is Some && at_cell(m[s], x as int, y as int)) by {
            if m.contains_key(s) {
                let j = choose|j: int| 0 <= j < rows@.len() && rows@[j].0 == s;
                assert(!(rows@[j].1.tags.box_spot is Some && at_cell(rows@[j].1, x as int, y as int)));
            }
        }
    }
    None
}

/// Drains the event queue: returns the sound cues of the drained events and
/// leaves in the queue only the reactions to them, for the next drain.
pub fn run_process_events(level: &mut Level) -> (r: Vec<Cue>)
    requires
        old(level).wf(),
    ensures
        r@ == cues(old(level).events.events@),
        final(level).events.events@ == reactions(old(level).rows(), old(level).events.events@),
        final(level).rows() == old(level).rows(),
        final(level).gameplay == old(level).gameplay,
        final(level).width == old(level).width,
        final(level).height == old(level).height,
        final(level).time == old(level).time,
{
    let mut events: Vec<Event> = Vec::new();
    std::mem::swap(&mut events, &mut level.events.events);
    let ghost q = events@;
    let ghost m = level.rows();
    let rows = level.entities();
    let mut out: Vec<Cue> = Vec::new();
    let mut fresh: Vec<Event> = Vec::new();
    let mut i: usize = 0;
    while i < events.len()
        invariant
            i <= q.len(),
            events@ == q,
            m == level.rows(),
            grid_wf(m),
            lists_rows(rows@, m),
            out@ == cues(q.subrange(0, i as int)),
            fresh@ == reactions(m, q.subrange(0, i as int)),
        decreases q.len() - i,
    {
        let e = events[i];
        proof {
            let p = q.subrange(0, i + 1);
            assert(p.drop_last() =~= q.subrange(0, i as int));
            assert(p.last() == e);
        }
        match e {
            Event::PlayerHitObstacle => {
                out.push(Cue::Wall);
            },
            Event::BoxPlacedOnSpot(p) => {
                out.push(if p.is_correct_spot { Cue::Correct } else { Cue::Incorrect });
            },
            Event::EntityMoved(em) => {
                match find_row(&rows, Ghost(m), em.entity) {
                    Some(j) => {
                        let row = &rows[j].1;
                        assert(m[em.entity] == *row);
                        match row.tags.crate_box {
                            Some(b) => {
                                match spot_color(&rows, Ghost(m), row.position.x, row.position.y) {
                                    Some(c) => {
                                        fresh.push(Event::BoxPlacedOnSpot(BoxPlacedOnSpot { is_correct_spot: c == b.color }));
                                    },
                                    None => {},
                                }
                            },
                            None => {},
                        }
                    },
                    None => {},
                }
            },
        }
        proof {
            assert(out@ =~= cues(q.subrange(0, i + 1)));
            assert(fresh@ =~= reactions(m, q.subrange(0, i + 1)));
        }
        i += 1;
    }
    proof {
        assert(q.subrange(0, q.len() as int) =~= q);
    }
    level.events.events = fresh;
    out
}

} // verus!
