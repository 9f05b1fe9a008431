use zappy::args::ServerArgs;
use zappy::commands::PlayerCmd;
use zappy::engine::GameEngine;
use zappy::map::WorldMap;
use zappy::position::{Direction, Position};
use zappy::resource::{Resource, Stone};
use zappy::resource::Stone::{Deraumere, Linemate, Mendiane, Phiras, Sibur, Thystame};
use zappy::resource::Resource::Nourriture;
use zappy::position::Direction::{East, North, South, West};
use zappy::{PlayerError, ServerResponse, ZappyError, MAX_COMMANDS};

const GAME_WIDTH: usize = 3;
const GAME_HEIGHT: usize = 3;
const MAX_CLIENTS: u16 = 1;
const TEST_TEAM_NAME_STR: &str = "Axel";

fn test_team_name() -> String {
    TEST_TEAM_NAME_STR.to_string()
}

fn default_args() -> ServerArgs {
    ServerArgs {
        port: 8080,
        width: GAME_WIDTH,
        height: GAME_HEIGHT,
        clients: MAX_CLIENTS,
        tud: 100,
        names: vec![test_team_name()],
    }
}

fn default_game_engine() -> GameEngine {
    GameEngine::new(&default_args())
}

fn one_player_game_engine() -> (u16, GameEngine) {
    let player_id = 20;
    let mut game = default_game_engine();
    game.add_player(player_id, test_team_name()).unwrap();
    (player_id, game)
}

fn player_commands(game: &GameEngine, id: u16) -> Vec<PlayerCmd> {
    let p = game.players().iter().find(|p| p.id() == id).unwrap();
    p.commands().iter().cloned().collect()
}

#[test]
fn successfully_creates_new_game() {
    // Given
    let args = default_args();

    // When
    let game = GameEngine::new(&args);

    // Then
    assert!(game.eggs().is_empty(), "New game should have no eggs");
    let (map_unhatched_count, map_hatched_count) =
        game.map().field.iter().flatten().fold((0, 0), |acc, cell| {
            let (unhatched, hatched) = cell
                .eggs
                .iter()
                .find(|e| e.team == test_team_name())
                .map_or((0, 0), |e| (e.unhatched, e.hatched));
            (acc.0 + unhatched, acc.1 + hatched)
        });
    assert_eq!(
        map_hatched_count,
        MAX_CLIENTS as usize * game.teams().len(),
        "The unhatched eggs count is max clients per team"
    );
    assert_eq!(map_unhatched_count, 0, "There is no unhatched eggs on the map");

    assert!(game.players().is_empty(), "New game should have no players");
    assert_eq!(
        game.map().field.iter().flatten().map(|v| v.players.len()).sum::<usize>(),
        0,
        "There is not players on the game field"
    );

    assert_eq!(
        game.teams().iter().map(|t| t.name().clone()).collect::<Vec<_>>(),
        vec![test_team_name()],
        "Game should have exactly one team named 'axel'"
    );

    assert!(game.incantation().is_empty(), "New game should have no active incantations");

    assert_eq!(game.map_width(), GAME_WIDTH, "Game map width should match configured width");
    assert_eq!(game.map_height(), GAME_HEIGHT, "Game map height should match configured height");
    assert_eq!(
        game.map().field.iter().map(|v| v.len()).sum::<usize>(),
        GAME_HEIGHT * GAME_WIDTH,
        "Game map should contain exactly width * height cells"
    );
    assert!(game.map().field.iter().all(|v| v.len() == GAME_WIDTH));

    assert_eq!(game.frame(), 0, "Game should start at frame 0");
}

#[test]
fn fails_to_add_player_with_invalid_team() {
    // Given
    let player_id = 20;
    let not_existing_team = "Doesn't exist".to_string();
    let mut game = default_game_engine();
    let initial_game_state = game.clone();

    // When
    let result = game.add_player(player_id, not_existing_team.clone());

    // Then
    assert_eq!(
        result,
        Err(ZappyError::Player(PlayerError::TeamDoesntExist(not_existing_team)))
    );
    assert_eq!(game, initial_game_state, "Game should not be changed after failed player insertion");
}

#[test]
fn fails_to_add_player_with_full_team() {
    // Given
    let player_in_team_id = 20;
    let player_to_join_id = 21;
    let team_name = test_team_name();
    let mut game = default_game_engine();
    game.add_player(player_in_team_id, team_name.clone()).unwrap();
    let initial_game_state = game.clone();

    // When
    let result = game.add_player(player_to_join_id, team_name.clone());

    // Then
    assert_eq!(
        result,
        Err(ZappyError::Player(PlayerError::NoPlaceAvailable(player_to_join_id, team_name))),
    );
    assert_eq!(game, initial_game_state, "Game should not be changed after failed player insertion");
}

#[test]
fn successfully_takes_command() {
    // Given
    let (player_id, mut game) = one_player_game_engine();
    let player_commands_before = player_commands(&game, player_id);
    let command = PlayerCmd::Move;

    // When
    let result = game.take_command(&player_id, command.clone());

    // Then
    let player_commands_after = player_commands(&game, player_id);
    assert!(player_commands_before.is_empty());
    assert_eq!(result, Ok(None));
    assert_eq!(player_commands_after.len(), 1);
    assert_eq!(player_commands_after[0], command);
}

#[test]
fn fails_to_take_player_command_queue_is_full() {
    // Given
    let (player_id, mut game) = one_player_game_engine();
    for _ in 0..MAX_COMMANDS {
        game.take_command(&player_id, PlayerCmd::Move).unwrap();
    }

    // When
    let result_of_inserting_command_in_the_full_queue = game.take_command(&player_id, PlayerCmd::Move);

    // Then
    assert_eq!(
        result_of_inserting_command_in_the_full_queue,
        Ok(Some(ServerResponse::ActionQueueIsFull))
    );
}

// ----- games laid out by hand -----

/// A 3x3 game of one team whose players spawn, in order, at the positions given, with the
/// resources given laid on the map; the players get the ids 0, 1, 2...
fn game_engine_with(positions: &[Position], resources: &[((usize, usize), Resource)]) -> (Vec<u16>, GameEngine) {
    let mut map = WorldMap::empty(GAME_WIDTH, GAME_HEIGHT);
    for ((x, y), r) in resources {
        map.add_resource_at(*x, *y, *r);
    }
    let mut game = GameEngine::from_layout(map, &vec![test_team_name()], &vec![positions.to_vec()]);
    let mut ids = Vec::new();
    for i in 0..positions.len() {
        game.add_player(i as u16, test_team_name()).unwrap();
        ids.push(i as u16);
    }
    (ids, game)
}

fn pos(x: usize, y: usize, dir: Direction) -> Position {
    Position { x, y, dir }
}

fn run(game: &mut GameEngine, id: u16, command: PlayerCmd, results: &mut Vec<(u16, ServerResponse)>) {
    let delay = command.delay();
    game.take_command(&id, command).unwrap();
    for _ in 0..delay {
        game.tick(results);
    }
}

fn player_position(game: &GameEngine, id: u16) -> Position {
    game.players().iter().find(|p| p.id() == id).unwrap().position()
}

fn check_move(start: Position, expected: Position, command: PlayerCmd) {
    let (ids, mut game) = game_engine_with(&[start], &[]);
    let mut results = Vec::new();
    let delay = command.delay();
    run(&mut game, ids[0], command, &mut results);
    let p = player_position(&game, ids[0]);
    assert!(game.map().field[p.y][p.x].players.contains(&ids[0]));
    assert_eq!(game.map().field.iter().flatten().map(|v| v.players.len()).sum::<usize>(), 1);
    assert_eq!(game.frame(), delay);
    assert_eq!(p, expected);
    assert_eq!(results, vec![(ids[0], ServerResponse::Okay)]);
}

#[test]
fn moves_through_every_edge() {
    check_move(pos(0, 0, North), pos(0, 2, North), PlayerCmd::Move);
    check_move(pos(1, 0, North), pos(1, 2, North), PlayerCmd::Move);
    check_move(pos(0, 2, South), pos(0, 0, South), PlayerCmd::Move);
    check_move(pos(0, 0, West), pos(2, 0, West), PlayerCmd::Move);
    check_move(pos(2, 1, East), pos(0, 1, East), PlayerCmd::Move);
}

#[test]
fn turns_left_and_right() {
    check_move(pos(1, 1, North), pos(1, 1, West), PlayerCmd::Left);
    check_move(pos(1, 1, West), pos(1, 1, South), PlayerCmd::Left);
    check_move(pos(1, 1, South), pos(1, 1, East), PlayerCmd::Left);
    check_move(pos(1, 1, East), pos(1, 1, North), PlayerCmd::Left);
    check_move(pos(1, 1, North), pos(1, 1, East), PlayerCmd::Right);
    check_move(pos(1, 1, West), pos(1, 1, North), PlayerCmd::Right);
}

fn check_see(dir_pos: Position, others: &[Position], resources: &[((usize, usize), Resource)], expected: &[&str]) {
    let mut all = vec![dir_pos];
    all.extend_from_slice(others);
    let (ids, mut game) = game_engine_with(&all, resources);
    let mut results = Vec::new();
    run(&mut game, ids[0], PlayerCmd::See, &mut results);
    let expected = expected.iter().map(|s| s.to_string()).collect::<Vec<_>>();
    assert_eq!(results, vec![(ids[0], ServerResponse::See(expected))]);
}

#[test]
fn sees_the_cells_in_front() {
    check_see(pos(1, 2, North), &[], &[((1, 2), Nourriture)], &["nourriture", "", "", ""]);
    check_see(pos(1, 2, North), &[pos(1, 2, North)], &[], &["player", "", "", ""]);
    check_see(
        pos(1, 2, North),
        &[],
        &[
            ((1, 2), Nourriture),
            ((1, 2), Nourriture),
            ((0, 1), Resource::Stone(Deraumere)),
            ((0, 1), Resource::Stone(Deraumere)),
            ((1, 1), Resource::Stone(Linemate)),
            ((1, 1), Resource::Stone(Linemate)),
            ((2, 1), Resource::Stone(Mendiane)),
            ((2, 1), Resource::Stone(Mendiane)),
        ],
        &["nourriture nourriture", "deraumere deraumere", "linemate linemate", "mendiane mendiane"],
    );
    check_see(
        pos(0, 1, West),
        &[pos(2, 0, West), pos(2, 1, West), pos(2, 2, West)],
        &[
            ((0, 1), Nourriture),
            ((0, 1), Nourriture),
            ((2, 2), Resource::Stone(Mendiane)),
            ((2, 2), Resource::Stone(Thystame)),
            ((2, 1), Resource::Stone(Sibur)),
            ((2, 1), Nourriture),
            ((2, 0), Nourriture),
            ((2, 0), Resource::Stone(Phiras)),
        ],
        &["nourriture nourriture", "player mendiane thystame", "player nourriture sibur", "player nourriture phiras"],
    );
    check_see(
        pos(1, 2, South),
        &[pos(0, 0, West), pos(1, 0, West), pos(2, 0, West)],
        &[
            ((1, 2), Resource::Stone(Mendiane)),
            ((1, 2), Resource::Stone(Deraumere)),
            ((2, 0), Nourriture),
            ((2, 0), Resource::Stone(Sibur)),
            ((2, 0), Resource::Stone(Sibur)),
            ((2, 0), Resource::Stone(Sibur)),
            ((1, 0), Nourriture),
            ((1, 0), Nourriture),
            ((1, 0), Nourriture),
            ((0, 0), Resource::Stone(Mendiane)),
            ((0, 0), Resource::Stone(Thystame)),
        ],
        &[
            "deraumere mendiane",
            "player nourriture sibur sibur sibur",
            "player nourriture nourriture nourriture",
            "player mendiane thystame",
        ],
    );
    check_see(
        pos(1, 2, North),
        &[pos(1, 1, North)],
        &[((1, 1), Nourriture), ((1, 1), Resource::Stone(Linemate))],
        &["", "", "player nourriture linemate", ""],
    );
}

fn check_take_put(resources: &[Resource], commands: &[PlayerCmd], answers: &[ServerResponse], inventory: [usize; 6], cell: [usize; 6]) {
    let at = pos(1, 1, Direction::West);
    let res = resources.iter().map(|r| ((1, 1), *r)).collect::<Vec<_>>();
    let (ids, mut game) = game_engine_with(&[at], &res);
    let mut results = Vec::new();
    for c in commands {
        run(&mut game, ids[0], c.clone(), &mut results);
    }
    let expected = answers.iter().map(|a| (ids[0], a.clone())).collect::<Vec<_>>();
    assert_eq!(results, expected);
    assert_eq!(game.map().field[1][1].stones, cell);
    assert_eq!(game.map().field[1][1].nourriture, 0);
    let p = game.players().iter().find(|p| p.id() == ids[0]).unwrap();
    assert_eq!(*p.inventory(), inventory);
}

#[test]
fn takes_and_puts_stones() {
    let take = |s: Stone| PlayerCmd::Take(s.as_str().to_string());
    let put = |s: Stone| PlayerCmd::Put(s.as_str().to_string());
    check_take_put(&[Resource::Stone(Linemate)], &[take(Linemate)], &[ServerResponse::Okay], [0, 1, 0, 0, 0, 0], [0; 6]);
    check_take_put(&[], &[take(Thystame)], &[ServerResponse::Ko], [0; 6], [0; 6]);
    check_take_put(
        &[Resource::Stone(Sibur)],
        &[PlayerCmd::Take("💎SAPPHIRE💎".to_string())],
        &[ServerResponse::Ko],
        [0; 6],
        [0, 0, 0, 0, 1, 0],
    );
    check_take_put(
        &[Resource::Stone(Sibur), Resource::Stone(Sibur)],
        &[take(Sibur), take(Sibur)],
        &[ServerResponse::Okay, ServerResponse::Okay],
        [0, 0, 0, 0, 2, 0],
        [0; 6],
    );
    check_take_put(&[], &[put(Linemate)], &[ServerResponse::Ko], [0; 6], [0; 6]);
    check_take_put(
        &[Resource::Stone(Thystame)],
        &[take(Thystame), put(Thystame)],
        &[ServerResponse::Okay, ServerResponse::Okay],
        [0; 6],
        [0, 0, 0, 0, 0, 1],
    );
    check_take_put(
        &[Resource::Stone(Thystame)],
        &[take(Thystame), put(Linemate)],
        &[ServerResponse::Okay, ServerResponse::Ko],
        [0, 0, 0, 0, 0, 1],
        [0; 6],
    );
}

#[test]
fn takes_and_puts_food() {
    let at = pos(1, 1, Direction::West);
    let (ids, mut game) = game_engine_with(&[at], &[((1, 1), Resource::Nourriture)]);
    let mut results = Vec::new();
    let life0 = game.players()[0].remaining_life();
    run(&mut game, ids[0], PlayerCmd::Take("nourriture".to_string()), &mut results);
    assert_eq!(results, vec![(ids[0], ServerResponse::Okay)]);
    assert_eq!(game.map().field[1][1].nourriture, 0);
    assert_eq!(game.players()[0].remaining_life(), life0 - 7 + zappy::LIFE_TICKS);
    run(&mut game, ids[0], PlayerCmd::Take("n".to_string()), &mut results);
    assert_eq!(results[1], (ids[0], ServerResponse::Ko));
    run(&mut game, ids[0], PlayerCmd::Put("Nourriture".to_string()), &mut results);
    assert_eq!(results[2], (ids[0], ServerResponse::Okay));
    assert_eq!(game.map().field[1][1].nourriture, 1);
    assert_eq!(game.players()[0].remaining_life(), life0 - 21);
}

#[test]
fn lists_the_inventory() {
    let (player_id, mut game) = one_player_game_engine();
    let mut results = Vec::new();
    let life = game.players()[0].remaining_life();
    run(&mut game, player_id, PlayerCmd::Inventory, &mut results);
    let expected = vec![
        format!("nourriture {}", life - 1),
        "deraumere 0".to_string(),
        "linemate 0".to_string(),
        "mendiane 0".to_string(),
        "phiras 0".to_string(),
        "sibur 0".to_string(),
        "thystame 0".to_string(),
    ];
    assert_eq!(results, vec![(player_id, ServerResponse::Inventory(expected))]);
}

#[test]
fn connect_nbr_tells_the_free_places() {
    let mut args = default_args();
    args.clients = 3;
    let mut game = GameEngine::new(&args);
    assert_eq!(game.add_player(5, test_team_name()), Ok(2));
    let mut results = Vec::new();
    run(&mut game, 5, PlayerCmd::ConnectNbr, &mut results);
    game.tick(&mut results);
    assert_eq!(results, vec![(5, ServerResponse::Value("2".to_string()))]);
}

#[test]
fn fork_lays_an_egg_that_hatches_into_a_place() {
    let at = pos(2, 0, Direction::North);
    let (ids, mut game) = game_engine_with(&[at], &[]);
    let mut results = Vec::new();
    run(&mut game, ids[0], PlayerCmd::Fork, &mut results);
    assert_eq!(results, vec![(ids[0], ServerResponse::Okay)]);
    assert_eq!(game.eggs().len(), 1);
    assert_eq!(game.eggs()[0].0, 601);
    let e = &game.map().field[0][2].eggs[0];
    assert_eq!((e.unhatched, e.hatched), (1, 0));
    while game.frame() < 601 {
        game.tick(&mut results);
    }
    assert!(game.eggs().is_empty());
    let e = &game.map().field[0][2].eggs[0];
    assert_eq!((e.unhatched, e.hatched), (0, 1));
    assert_eq!(game.add_player(9, test_team_name()), Ok(0));
    assert_eq!(player_position(&game, 9).x, 2);
    assert_eq!(player_position(&game, 9).y, 0);
}

#[test]
fn broadcast_reaches_every_player() {
    let (ids, mut game) = game_engine_with(&[pos(0, 0, Direction::North), pos(0, 0, Direction::East), pos(1, 0, Direction::North)], &[]);
    let mut results = Vec::new();
    run(&mut game, ids[0], PlayerCmd::Broadcast("hello".to_string()), &mut results);
    assert_eq!(results.len(), 3);
    assert_eq!(results[0], (ids[0], ServerResponse::Okay));
    assert_eq!(results[1], (ids[1], ServerResponse::Message(0, "hello".to_string())));
    match &results[2] {
        (id, ServerResponse::Message(k, text)) => {
            assert_eq!(*id, ids[2]);
            assert_eq!(text, "hello");
            assert!(*k >= 1 && *k <= 8);
        }
        other => panic!("unexpected answer {:?}", other),
    }
}

#[test]
fn expel_pushes_the_others_away() {
    let (ids, mut game) = game_engine_with(&[pos(1, 1, Direction::East), pos(1, 1, Direction::North)], &[]);
    let mut results = Vec::new();
    run(&mut game, ids[0], PlayerCmd::Expel, &mut results);
    assert_eq!(results, vec![(ids[1], ServerResponse::Movement(Direction::West)), (ids[0], ServerResponse::Okay)]);
    let p = player_position(&game, ids[1]);
    assert_eq!((p.x, p.y, p.dir), (2, 1, Direction::North));
    assert!(game.map().field[1][2].players.contains(&ids[1]));
    assert!(!game.map().field[1][1].players.contains(&ids[1]));
}

#[test]
fn incantation_needs_its_stone() {
    let (ids, mut game) = game_engine_with(&[pos(1, 1, Direction::East)], &[]);
    let mut results = Vec::new();
    run(&mut game, ids[0], PlayerCmd::Incantation, &mut results);
    game.tick(&mut results);
    assert_eq!(results, vec![(ids[0], ServerResponse::Ko)]);

    let (ids, mut game) = game_engine_with(&[pos(1, 1, Direction::East)], &[((1, 1), Resource::Stone(Stone::Linemate))]);
    let mut results = Vec::new();
    game.take_command(&ids[0], PlayerCmd::Incantation).unwrap();
    game.tick(&mut results);
    assert_eq!(results, vec![(ids[0], ServerResponse::IncantationInProgress)]);
    assert_eq!(game.map().field[1][1].stones, [0; 6]);
    while game.frame() < 301 {
        game.tick(&mut results);
    }
    assert_eq!(results[1], (ids[0], ServerResponse::CurrentLevel(2)));
    assert_eq!(game.players()[0].level(), 2);
}

#[test]
fn take_then_put_restores_the_game() {
    let (ids, mut game) = game_engine_with(&[pos(1, 1, Direction::East)], &[((1, 1), Resource::Stone(Stone::Phiras))]);
    let mut results = Vec::new();
    game.tick(&mut results);
    let before = game.clone();
    game.take_command(&ids[0], PlayerCmd::Take("phiras".to_string())).unwrap();
    game.take_command(&ids[0], PlayerCmd::Put("p".to_string())).unwrap();
    for _ in 0..14 {
        game.tick(&mut results);
    }
    assert_eq!(results, vec![(ids[0], ServerResponse::Okay), (ids[0], ServerResponse::Okay)]);
    assert_eq!(game.map(), before.map());
    assert_eq!(game.players()[0].inventory(), before.players()[0].inventory());
}

#[test]
fn a_move_and_a_move_back_return_to_the_cell() {
    let (ids, mut game) = game_engine_with(&[pos(0, 2, Direction::South)], &[]);
    let mut results = Vec::new();
    run(&mut game, ids[0], PlayerCmd::Move, &mut results);
    assert_eq!((player_position(&game, ids[0]).x, player_position(&game, ids[0]).y), (0, 0));
    run(&mut game, ids[0], PlayerCmd::Right, &mut results);
    run(&mut game, ids[0], PlayerCmd::Right, &mut results);
    run(&mut game, ids[0], PlayerCmd::Move, &mut results);
    let p = player_position(&game, ids[0]);
    assert_eq!((p.x, p.y, p.dir), (0, 2, Direction::North));
}

#[test]
fn joining_and_leaving_gives_back_the_field() {
    let mut game = default_game_engine();
    let before = game.clone();
    game.add_player(3, test_team_name()).unwrap();
    assert_eq!(game.players().len(), 1);
    game.remove_player(3);
    assert_eq!(game.players(), before.players());
    for y in 0..GAME_HEIGHT {
        for x in 0..GAME_WIDTH {
            assert_eq!(game.map().field[y][x].players, before.map().field[y][x].players);
        }
    }
    assert!(!game.teams()[0].has_member(3));
}

#[test]
fn unknown_players_cannot_queue_commands() {
    let mut game = default_game_engine();
    assert_eq!(
        game.take_command(&4, PlayerCmd::Move),
        Err(ZappyError::Network(zappy::NetworkError::IsNotConnectedToServer(4)))
    );
}

#[test]
fn living_players_survive_a_frame() {
    let (player_id, mut game) = one_player_game_engine();
    let mut results = Vec::new();
    for _ in 0..50 {
        game.tick(&mut results);
    }
    assert_eq!(game.frame(), 50);
    assert!(results.is_empty());
    assert_eq!(game.players()[0].id(), player_id);
    assert_eq!(game.players()[0].remaining_life(), zappy::LIFE_TICKS * zappy::LIVES_START - 50);
}

#[test]
fn teams_come_in_name_order_without_repeats() {
    let args = ServerArgs {
        port: 1,
        width: 4,
        height: 5,
        clients: 2,
        tud: 1,
        names: vec!["victor".to_string(), "anton".to_string(), "axel".to_string(), "anton".to_string()],
    };
    let game = GameEngine::new(&args);
    let names = game.teams().iter().map(|t| t.name().clone()).collect::<Vec<_>>();
    assert_eq!(names, vec!["anton".to_string(), "axel".to_string(), "victor".to_string()]);
    let anton_eggs: usize = game
        .map()
        .field
        .iter()
        .flatten()
        .flat_map(|c| c.eggs.iter())
        .filter(|e| e.team == "anton")
        .map(|e| e.hatched)
        .sum();
    assert_eq!(anton_eggs, 4);
    assert!(game.teams().iter().all(|t| t.spawn_count() == 2));
}

#[test]
fn a_new_game_can_play_a_frame() {
    let (_, game) = one_player_game_engine();
    assert!(game.can_tick());
}

#[test]
fn a_player_without_life_dies_and_leaves() {
    let (ids, mut game) = game_engine_with(&[pos(0, 0, North), pos(1, 1, North)], &[]);
    let mut results = Vec::new();
    for _ in 0..9 {
        run(&mut game, ids[0], PlayerCmd::Put("nourriture".to_string()), &mut results);
    }
    assert!(results.iter().all(|r| *r == (ids[0], ServerResponse::Okay)));
    assert_eq!(game.map().field[0][0].nourriture, 9);
    let left = game.players()[0].remaining_life();
    assert_eq!(left, zappy::LIFE_TICKS * zappy::LIVES_START - 9 * zappy::LIFE_TICKS - 63);
    results.clear();
    for _ in 0..left {
        game.tick(&mut results);
    }
    assert!(results.is_empty());
    assert_eq!(game.players()[0].remaining_life(), 0);
    game.tick(&mut results);
    assert_eq!(results, vec![(ids[0], ServerResponse::Mort)]);
    assert_eq!(game.players().len(), 1);
    assert_eq!(game.players()[0].id(), ids[1]);
    assert!(!game.map().field[0][0].players.contains(&ids[0]));
    assert!(!game.teams()[0].has_member(ids[0]));
}

#[test]
fn expel_answers_the_others_by_increasing_id() {
    let map = WorldMap::empty(GAME_WIDTH, GAME_HEIGHT);
    let spot = pos(1, 1, Direction::South);
    let mut game = GameEngine::from_layout(map, &vec![test_team_name()], &vec![vec![spot, spot, spot]]);
    game.add_player(5, test_team_name()).unwrap();
    game.add_player(3, test_team_name()).unwrap();
    game.add_player(9, test_team_name()).unwrap();
    assert_eq!(game.map().field[1][1].players, vec![3, 5, 9]);
    let mut results = Vec::new();
    run(&mut game, 9, PlayerCmd::Expel, &mut results);
    assert_eq!(
        results,
        vec![
            (3, ServerResponse::Movement(Direction::North)),
            (5, ServerResponse::Movement(Direction::North)),
            (9, ServerResponse::Okay),
        ]
    );
    assert_eq!(game.map().field[2][1].players, vec![3, 5]);
}

#[test]
fn a_player_already_in_the_game_cannot_join_again() {
    let map = WorldMap::empty(GAME_WIDTH, GAME_HEIGHT);
    let spot = pos(1, 1, Direction::South);
    let mut game = GameEngine::from_layout(map, &vec![test_team_name()], &vec![vec![spot, spot]]);
    assert_eq!(game.add_player(4, test_team_name()), Ok(1));
    let before = game.clone();
    assert_eq!(
        game.add_player(4, test_team_name()),
        Err(ZappyError::Network(zappy::NetworkError::AlreadyConnected(4)))
    );
    assert_eq!(game, before);
    assert_eq!(game.add_player(4, "nobody".to_string()), Err(ZappyError::Player(PlayerError::TeamDoesntExist("nobody".to_string()))));
}
