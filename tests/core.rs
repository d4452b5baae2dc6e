use sokoban_core::component::{BoxColor, GameplayState, Position, Renderable, RenderableKind};
use sokoban_core::entity::{create_box, create_box_spot, create_floor, create_player, create_wall};
use sokoban_core::events::{run_process_events, Cue, EntityMoved, Event};
use sokoban_core::game::{level_transition, run_input, tick, Control};
use sokoban_core::gameplay::run_gameplay_state;
use sokoban_core::grid::Direction;
use sokoban_core::level::{Level, MoveOutcome};
use sokoban_core::map::{layout_symbols, load_map, LoadError};
use sokoban_core::rendering::{get_image, level_window};

fn level_of(text: &str) -> Level {
    let mut level = Level::new(1, 1);
    load_map(&mut level, text).expect("layout loads");
    level
}

fn player(level: &Level) -> (u64, Position) {
    let rows = level.entities();
    let (id, row) = rows.iter().find(|(_, r)| r.tags.player.is_some()).expect("a player");
    (*id, row.position)
}

fn boxes(level: &Level) -> Vec<(u64, Position)> {
    let mut v: Vec<(u64, Position)> = level
        .entities()
        .into_iter()
        .filter(|(_, r)| r.tags.crate_box.is_some())
        .map(|(id, r)| (id, r.position))
        .collect();
    v.sort_by_key(|(_, p)| (p.y, p.x));
    v
}

fn xy(p: Position) -> (u8, u8) {
    (p.x, p.y)
}

#[test]
fn step_into_empty_cell_moves_only_the_player() {
    let mut level = level_of("W W W W W\nW P . RB W\nW W W W W");
    let (pid, _) = player(&level);
    let before = boxes(&level);
    let out = run_input(&mut level, Some(Direction::Right));
    assert_eq!(out, MoveOutcome::Moved(1));
    assert_eq!(xy(player(&level).1), (2, 1));
    assert_eq!(boxes(&level), before);
    assert_eq!(level.gameplay.move_count, 1);
    assert_eq!(level.events.events, vec![Event::EntityMoved(EntityMoved { entity: pid })]);
}

#[test]
fn pushing_a_box_moves_player_then_box() {
    let mut level = level_of("W W W W W W\nW P RB . . W\nW W W W W W");
    let (pid, _) = player(&level);
    let (bid, _) = boxes(&level)[0];
    let out = run_input(&mut level, Some(Direction::Right));
    assert_eq!(out, MoveOutcome::Moved(2));
    assert_eq!(xy(player(&level).1), (2, 1));
    assert_eq!(xy(boxes(&level)[0].1), (3, 1));
    assert_eq!(level.gameplay.move_count, 1);
    assert_eq!(
        level.events.events,
        vec![Event::EntityMoved(EntityMoved { entity: pid }), Event::EntityMoved(EntityMoved { entity: bid })]
    );
}

#[test]
fn chain_of_two_boxes_against_wall_is_blocked() {
    let mut level = level_of("W W W W W W\nW P RB BB W\nW W W W W W");
    let out = run_input(&mut level, Some(Direction::Right));
    assert_eq!(out, MoveOutcome::Blocked);
    assert_eq!(xy(player(&level).1), (1, 1));
    assert_eq!(level.gameplay.move_count, 0);
    assert_eq!(level.events.events, vec![Event::PlayerHitObstacle]);
}

#[test]
fn enclosed_room_push_against_wall_queues_one_obstacle_hit() {
    let mut level = level_of("W W W W\nW P RB W\nW W W W");
    let box_before = boxes(&level);
    let out = run_input(&mut level, Some(Direction::Right));
    assert_eq!(out, MoveOutcome::Blocked);
    assert_eq!(xy(player(&level).1), (1, 1));
    assert_eq!(boxes(&level), box_before);
    assert_eq!(xy(box_before[0].1), (2, 1));
    assert_eq!(level.gameplay.move_count, 0);
    assert_eq!(level.events.events, vec![Event::PlayerHitObstacle]);
}

#[test]
fn wall_next_to_player_blocks() {
    let mut level = level_of("W W W\nW P W\nW W W");
    assert_eq!(run_input(&mut level, Some(Direction::Up)), MoveOutcome::Blocked);
    assert_eq!(run_input(&mut level, Some(Direction::Left)), MoveOutcome::Blocked);
    assert_eq!(level.events.events, vec![Event::PlayerHitObstacle, Event::PlayerHitObstacle]);
    assert_eq!(level.gameplay.move_count, 0);
}

#[test]
fn edge_of_grid_counts_as_blocked() {
    let mut level = level_of("P .");
    assert_eq!(run_input(&mut level, Some(Direction::Left)), MoveOutcome::Blocked);
    assert_eq!(run_input(&mut level, Some(Direction::Up)), MoveOutcome::Blocked);
    assert_eq!(run_input(&mut level, Some(Direction::Right)), MoveOutcome::Moved(1));
    assert_eq!(run_input(&mut level, Some(Direction::Right)), MoveOutcome::Blocked);
    assert_eq!(xy(player(&level).1), (1, 0));
}

#[test]
fn idle_tick_changes_nothing() {
    let mut level = level_of("W W W W W\nW P RB RS W\nW W W W W");
    let before = level.entities();
    let report = tick(&mut level, None, None, 16, 0, 1);
    assert_eq!(report.load, None);
    assert!(report.cues.is_empty());
    let after = level.entities();
    assert_eq!(
        before.iter().map(|(id, r)| (*id, r.position)).collect::<Vec<_>>(),
        after.iter().map(|(id, r)| (*id, r.position)).collect::<Vec<_>>()
    );
    assert_eq!(level.gameplay.move_count, 0);
    assert_eq!(level.gameplay.state, GameplayState::Playing);
    assert_eq!(level.time.elapsed_ms, 16);
}

#[test]
fn covering_every_spot_wins_and_stays_won() {
    let mut level = level_of("W W W W W W\nW P RB RS . W\nW W W W W W");
    let report = tick(&mut level, Some(Direction::Right), None, 10, 0, 2);
    assert_eq!(level.gameplay.state, GameplayState::Won);
    assert_eq!(report.load, None);
    let spot_cell = xy(boxes(&level)[0].1);
    assert_eq!(spot_cell, (3, 1));
    let report = tick(&mut level, Some(Direction::Right), None, 10, 0, 2);
    assert_eq!(level.gameplay.state, GameplayState::Won);
    assert_eq!(level.gameplay.move_count, 1);
    assert_eq!(xy(boxes(&level)[0].1), (3, 1));
    assert!(report.cues.contains(&Cue::Correct));
    let report = tick(&mut level, None, Some(Control::Advance), 10, 0, 2);
    assert_eq!(report.load, Some(1));
}

#[test]
fn wrong_color_on_spot_does_not_win() {
    let mut level = level_of("W W W W W W\nW P BB RS . W\nW W W W W W");
    tick(&mut level, Some(Direction::Right), None, 10, 0, 1);
    assert_eq!(level.gameplay.state, GameplayState::Playing);
    let report = tick(&mut level, None, None, 10, 0, 1);
    assert_eq!(report.cues, vec![Cue::Incorrect]);
}

#[test]
fn box_in_corner_loses() {
    let mut level = level_of("W W W W\nW . . W\nW RB . W\nW P . W\nW RS . W\nW W W W");
    tick(&mut level, Some(Direction::Up), None, 10, 3, 5);
    assert_eq!(level.gameplay.state, GameplayState::Lost);
    assert_eq!(xy(boxes(&level)[0].1), (1, 1));
    let report = tick(&mut level, None, Some(Control::Restart), 10, 3, 5);
    assert_eq!(report.load, Some(3));
    let report = tick(&mut level, None, Some(Control::Advance), 10, 3, 5);
    assert_eq!(report.load, None);
}

#[test]
fn box_placed_cue_arrives_one_tick_later() {
    let mut level = level_of("W W W W W W W\nW P RB RS . BS W\nW . . . . BB W\nW W W W W W W");
    let first = tick(&mut level, Some(Direction::Right), None, 10, 0, 1);
    assert!(!first.cues.contains(&Cue::Correct));
    assert_eq!(
        level.events.events,
        vec![Event::BoxPlacedOnSpot(sokoban_core::events::BoxPlacedOnSpot { is_correct_spot: true })]
    );
    let second = tick(&mut level, None, None, 10, 0, 1);
    assert_eq!(second.cues, vec![Cue::Correct]);
    assert!(level.events.events.is_empty());
}

#[test]
fn drain_turns_obstacle_into_wall_cue() {
    let mut level = level_of("W W W\nW P W\nW W W");
    run_input(&mut level, Some(Direction::Down));
    let cues = run_process_events(&mut level);
    assert_eq!(cues, vec![Cue::Wall]);
    assert_eq!(cues[0].name(), "wall");
    assert!(level.events.events.is_empty());
}

#[test]
fn terminal_state_ignores_commands() {
    let mut level = level_of("W W W W\nW . . W\nW RB . W\nW P . W\nW RS . W\nW W W W");
    run_input(&mut level, Some(Direction::Up));
    run_gameplay_state(&mut level);
    assert_eq!(level.gameplay.state, GameplayState::Lost);
    let before = player(&level);
    assert_eq!(run_input(&mut level, Some(Direction::Right)), MoveOutcome::Ignored);
    assert_eq!(player(&level), before);
}

#[test]
fn layout_symbols_give_columns_and_rows() {
    let toks = layout_symbols("\n    N W\n\n    P BB\n    ");
    let seen: Vec<(usize, usize, String)> =
        toks.into_iter().map(|(x, y, t)| (x, y, String::from_utf8(t).unwrap())).collect();
    assert_eq!(
        seen,
        vec![
            (0, 0, "N".to_string()),
            (1, 0, "W".to_string()),
            (0, 1, "P".to_string()),
            (1, 1, "BB".to_string())
        ]
    );
}

#[test]
fn load_map_errors() {
    let mut level = Level::new(3, 3);
    assert_eq!(load_map(&mut level, "W X P"), Err(LoadError::UnrecognizedSymbol));
    assert_eq!(load_map(&mut level, "W . W"), Err(LoadError::NoPlayer));
    assert_eq!(load_map(&mut level, "P . P"), Err(LoadError::Conflict));
    let long = vec!["."; 256].join(" ") + " P";
    assert_eq!(load_map(&mut level, &long), Err(LoadError::TooLarge));
    assert_eq!(level.width, 3);
    assert!(level.entities().is_empty());
}

#[test]
fn load_map_sizes_and_populates() {
    let level = level_of("N W W\nW P .\nW RS BB");
    assert_eq!((level.width, level.height), (3, 3));
    let rows = level.entities();
    assert_eq!(rows.len(), 2 * 7 + 1);
    assert_eq!(rows.iter().filter(|(_, r)| r.tags.wall.is_some()).count(), 4);
    assert_eq!(rows.iter().filter(|(_, r)| r.tags.box_spot.is_some()).count(), 1);
    assert_eq!(rows.iter().filter(|(_, r)| r.renderable.paths == vec!["/images/floor.png".to_string()]).count(), 8);
}

#[test]
fn entity_creation_sets_depth_and_images() {
    let mut level = Level::new(4, 4);
    let p = Position { x: 1, y: 2, z: 0 };
    create_floor(&mut level, &p);
    create_player(&mut level, &p);
    create_box_spot(&mut level, &Position { x: 2, y: 2, z: 0 }, BoxColor::Blue);
    create_box(&mut level, &Position { x: 2, y: 2, z: 0 }, BoxColor::Red);
    create_wall(&mut level, &Position { x: 0, y: 0, z: 0 });
    let rows = level.entities();
    let depth_of = |f: &dyn Fn(&sokoban_core::component::EntityRow) -> bool| {
        rows.iter().find(|(_, r)| f(r)).map(|(_, r)| (r.position.z, r.renderable.paths.clone())).unwrap()
    };
    assert_eq!(depth_of(&|r| r.tags.player.is_some()).0, 10);
    assert_eq!(depth_of(&|r| r.tags.player.is_some()).1.len(), 3);
    assert_eq!(depth_of(&|r| r.tags.wall.is_some()), (10, vec!["/images/wall.png".to_string()]));
    assert_eq!(depth_of(&|r| r.tags.box_spot.is_some()), (9, vec!["/images/box_spot_blue.png".to_string()]));
    assert_eq!(
        depth_of(&|r| r.tags.crate_box.is_some()),
        (10, vec!["/images/box_red_1.png".to_string(), "/images/box_red_2.png".to_string()])
    );
    assert_eq!(depth_of(&|r| r.tags.moveable.is_none() && r.tags.wall.is_none() && r.tags.box_spot.is_none()).0, 5);
}

#[test]
fn renderable_kind_and_path() {
    let s = Renderable::new_static("/a.png");
    assert_eq!(s.kind(), RenderableKind::Static);
    let a = Renderable::new_animated(vec!["/1.png".to_string(), "/2.png".to_string(), "/3.png".to_string()]);
    assert_eq!(a.kind(), RenderableKind::Animated);
    assert_eq!(a.path(4), "/2.png");
    assert_eq!(s.path(7), "/a.png");
}

#[test]
fn get_image_picks_frame_by_time() {
    let a = Renderable::new_animated(vec!["/1.png".to_string(), "/2.png".to_string(), "/3.png".to_string()]);
    assert_eq!(get_image(&a, 0), "/1.png");
    assert_eq!(get_image(&a, 260), "/2.png");
    assert_eq!(get_image(&a, 520), "/3.png");
    assert_eq!(get_image(&a, 760), "/1.png");
    assert_eq!(get_image(&a, 1260), "/2.png");
    let s = Renderable::new_static("/s.png");
    assert_eq!(get_image(&s, 760), "/s.png");
}

#[test]
fn level_window_keeps_current_in_view() {
    assert_eq!(level_window(0, 30), (0, 12));
    assert_eq!(level_window(10, 30), (5, 17));
    assert_eq!(level_window(29, 30), (18, 30));
    assert_eq!(level_window(2, 5), (0, 5));
}

#[test]
fn transitions_between_levels() {
    assert_eq!(level_transition(GameplayState::Won, Some(Control::Advance), 29, 30), Some(0));
    assert_eq!(level_transition(GameplayState::Won, Some(Control::Advance), 3, 30), Some(4));
    assert_eq!(level_transition(GameplayState::Won, Some(Control::Restart), 3, 30), None);
    assert_eq!(level_transition(GameplayState::Lost, Some(Control::Restart), 3, 30), Some(3));
    assert_eq!(level_transition(GameplayState::Playing, Some(Control::Advance), 3, 30), None);
    assert_eq!(level_transition(GameplayState::Lost, None, 3, 30), None);
}

#[test]
fn names_of_states_colors_and_cues() {
    assert_eq!(GameplayState::Playing.name(), "Playing");
    assert_eq!(GameplayState::Won.name(), "Won");
    assert_eq!(GameplayState::Lost.name(), "Lost");
    assert_eq!(BoxColor::Red.name(), "red");
    assert_eq!(BoxColor::Blue.name(), "blue");
    assert_eq!(Cue::Correct.name(), "correct");
    assert_eq!(Cue::Incorrect.name(), "incorrect");
}

#[test]
fn first_catalog_level_loads_and_plays() {
    let text = "
    N N W W W W W N
    W W W . . . W N
    W . P . BB . W N
    W . . . . BS W N
    W . . . . . W N
    W W W W W W W N
    ";
    let mut level = level_of(text);
    assert_eq!((level.width, level.height), (8, 6));
    assert_eq!(xy(player(&level).1), (2, 2));
    assert_eq!(xy(boxes(&level)[0].1), (4, 2));
    tick(&mut level, Some(Direction::Right), None, 10, 0, 30);
    tick(&mut level, Some(Direction::Right), None, 10, 0, 30);
    assert_eq!(xy(boxes(&level)[0].1), (5, 2));
    tick(&mut level, Some(Direction::Up), None, 10, 0, 30);
    tick(&mut level, Some(Direction::Right), None, 10, 0, 30);
    tick(&mut level, Some(Direction::Down), None, 10, 0, 30);
    assert_eq!(xy(boxes(&level)[0].1), (5, 3));
    assert_eq!(level.gameplay.state, GameplayState::Won);
    assert_eq!(level.gameplay.move_count, 5);
}

#[test]
fn load_map_one_row_gives_each_entity_its_depth() {
    let level = level_of("W P BB BS");
    assert_eq!((level.width, level.height), (4, 1));
    let mut seen: Vec<(u8, u8, u8, bool, bool, bool, bool)> = level
        .entities()
        .into_iter()
        .map(|(_, r)| {
            (
                r.position.x,
                r.position.y,
                r.position.z,
                r.tags.wall.is_some(),
                r.tags.player.is_some(),
                r.tags.crate_box == Some(sokoban_core::component::Box { color: BoxColor::Blue }),
                r.tags.box_spot == Some(sokoban_core::component::BoxSpot { color: BoxColor::Blue }),
            )
        })
        .collect();
    seen.sort();
    assert_eq!(
        seen,
        vec![
            (0, 0, 5, false, false, false, false),
            (0, 0, 10, true, false, false, false),
            (1, 0, 5, false, false, false, false),
            (1, 0, 10, false, true, false, false),
            (2, 0, 5, false, false, false, false),
            (2, 0, 10, false, false, true, false),
            (3, 0, 5, false, false, false, false),
            (3, 0, 9, false, false, false, true),
        ]
    );
}
