use vstd::prelude::*;

use crate::component::{EntityRow, GamePlay, GameplayState};
use crate::events::{cues, moved_events, reactions, run_process_events, Cue, Event};
use crate::gameplay::{next_state, run_gameplay_state};
use crate::grid::{moved, Direction};
use crate::level::{bump, Level, MoveOutcome};

verus! {

/// A control command of the player between levels.
#[derive(Clone, Copy, PartialEq, Eq, Structural, Debug)]
pub enum Control {
    /// Go on to the next level; honoured once the level is won.
    Advance,
    /// Play the level again; honoured once the level is lost.
    Restart,
}

/// What a tick hands back to the host.
#[derive(Clone, Debug)]
pub struct TickReport {
    /// Sound cues to play, in order.
    pub cues: Vec<Cue>,
    /// The index of a level to load now, if any.
    pub load: Option<usize>,
}

/// The entities after command `cmd`.
pub open spec fn after_rows(l: Level, cmd: Option<Direction>) -> Map<u64, EntityRow> {
    match cmd {
        Some(d) => if l.gameplay.state == GameplayState::Playing {
            match l.chain_of(l.player(), d) {
                Some(c) => moved(l.rows(), c, d),
                None => l.rows(),
            }
        } else {
            l.rows()
        },
        None => l.rows(),
    }
}

/// The move count after command `cmd`.
pub open spec fn after_count(l: Level, cmd: Option<Direction>) -> u32 {
    match cmd {
        Some(d) => if l.gameplay.state == GameplayState::Playing {
            match l.chain_of(l.player(), d) {
                Some(c) => if c.len() > 0 { bump(l.gameplay.move_count) } else { l.gameplay.move_count },
                None => l.gameplay.move_count,
            }
        } else {
            l.gameplay.move_count
        },
        None => l.gameplay.move_count,
    }
}

/// The event queue after command `cmd`.
pub open spec fn after_queue(l: Level, cmd: Option<Direction>) -> Seq<Event> {
    match cmd {
        Some(d) => if l.gameplay.state == GameplayState::Playing {
            match l.chain_of(l.player(), d) {
                Some(c) => l.events.events@ + moved_events(c),
                None => l.events.events@.push(Event::PlayerHitObstacle),
            }
        } else {
            l.events.events@
        },
        None => l.events.events@,
    }
}

/// What command `cmd` reports.
pub open spec fn after_outcome(l: Level, cmd: Option<Direction>) -> MoveOutcome {
    match cmd {
        Some(d) => if l.gameplay.state == GameplayState::Playing {
            match l.chain_of(l.player(), d) {
                Some(c) => MoveOutcome::Moved(c.len() as usize),
                None => MoveOutcome::Blocked,
            }
        } else {
            MoveOutcome::Ignored
        },
        None => MoveOutcome::Ignored,
    }
}

/// The level to load after a control command, given the state reached.
pub open spec fn transition(s: GameplayState, control: Option<Control>, current: usize, count: usize) -> Option<usize> {
    match control {
        Some(Control::Advance) => if s == GameplayState::Won {
            Some(if current + 1 >= count { 0 } else { (current + 1) as usize })
        } else {
            None
        },
        Some(Control::Restart) => if s == GameplayState::Lost { Some(current) } else { None },
        None => None,
    }
}

/// Applies the directional command of this tick, if there is one.
pub fn run_input(level: &mut Level, command: Option<Direction>) -> (r: MoveOutcome)
    requires
        old(level).wf(),
        old(level).has_player(),
    ensures
        final(level).wf(),
        final(level).has_player(),
        final(level).rows() == after_rows(*old(level), command),
        final(level).gameplay.move_count == after_count(*old(level), command),
        final(level).gameplay.state == old(level).gameplay.state,
        final(level).events.events@ == after_queue(*old(level), command),
        final(level).width == old(level).width,
        final(level).height == old(level).height,
        final(level).time == old(level).time,
        r == after_outcome(*old(level), command),
{
    match command {
        Some(d) => level.apply_command(d),
        None => MoveOutcome::Ignored,
    }
}

/// The level to load after control command `control` in state `state`:
/// the next one (wrapping round) once won, the same one once lost.
pub fn level_transition(state: GameplayState, control: Option<Control>, current: usize, count: usize) -> (r: Option<usize>)
    requires
        current < count,
    ensures
        r == transition(state, control, current, count),
{
    match control {
        Some(Control::Advance) => {
            if state == GameplayState::Won {
                if current + 1 >= count { Some(0) } else { Some(current + 1) }
            } else {
                None
            }
        },
        Some(Control::Restart) => {
            if state == GameplayState::Lost { Some(current) } else { None }
        },
        None => None,
    }
}

/// One tick: the command moves, the state is evaluated, time advances, and
/// then either a level is to be loaded or the event queue is drained.
pub fn tick(
    level: &mut Level,
    command: Option<Direction>,
    control: Option<Control>,
    elapsed_ms: u64,
    current: usize,
    count: usize,
) -> (r: TickReport)
    requires
        old(level).wf(),
        old(level).has_player(),
        current < count,
    ensures
        final(level).wf(),
        final(level).has_player(),
        final(level).rows() == after_rows(*old(level), command),
        final(level).gameplay == (GamePlay {
            state: next_state(
                old(level).gameplay.state,
                after_rows(*old(level), command),
                old(level).width as int,
                old(level).height as int,
            ),
            move_count: after_count(*old(level), command),
        }),
        final(level).time.elapsed_ms == (if old(level).time.elapsed_ms + elapsed_ms <= u64::MAX {
            (old(level).time.elapsed_ms + elapsed_ms) as u64
        } else {
            u64::MAX
        }),
        final(level).width == old(level).width,
        final(level).height == old(level).height,
        r.load == transition(final(level).gameplay.state, control, current, count),
        r.load is Some ==> r.cues@.len() == 0 && final(level).events.events@ == after_queue(*old(level), command),
        r.load is None ==> r.cues@ == cues(after_queue(*old(level), command))
            && final(level).events.events@ == reactions(after_rows(*old(level), command), after_queue(*old(level), command)),
{
    run_input(level, command);
    run_gameplay_state(level);
    level.time.elapsed_ms = level.time.elapsed_ms.saturating_add(elapsed_ms);
    let load = level_transition(level.gameplay.state, control, current, count);
    if load.is_some() {
        return TickReport { cues: Vec::new(), load };
    }
    let cues = run_process_events(level);
    TickReport { cues, load }
}

} // verus!
