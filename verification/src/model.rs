//! The game's rules as functions on values: what each command and each frame does.
use vstd::prelude::*;

use crate::cell::{
    cell_add_resource, cell_remove_resource, cell_wf, eggs_adjusted, hatched_of, repeat_resource,
    resource_count, stones_from, unhatched_of, with_player, without_player, CellView,
};
use crate::commands::{spec_player_cmd_delay, PlayerCmdView};
use crate::map::{in_bounds, map_wf, modulo, set_cell, spec_broadcast_source, MapView};
use crate::player::{
    spec_after_add, spec_after_remove, spec_can_remove, spec_player_requirement,
    spec_stone_requirement, spec_stop_incantation, PlayerView,
};
use crate::position::{spec_dx_dy, spec_opposite, spec_turn, Direction, Position, Side};
use crate::resource::{
    covers, minus, spec_resource_from_name, spec_resource_name, spec_stone_name, spec_stone_at,
    Resource, STONE_KINDS,
};
use crate::team::TeamView;
use crate::text::{decimal, join};
use crate::{EggView, ResponseView, MAX_PLAYER_LVL};

verus! {

/// The whole state of a game, taken by value.
pub struct GameView {
    pub teams: Seq<TeamView>,
    /// The players, by increasing id.
    pub players: Seq<PlayerView>,
    /// The eggs laid, by the frame at which they hatch.
    pub eggs: Seq<(u64, Seq<EggView>)>,
    /// The players whose incantation ends, by the frame at which it ends.
    pub incantation: Seq<(u64, Seq<u16>)>,
    pub map: MapView,
    pub frame: u64,
}

pub type Responses = Seq<(u16, ResponseView)>;

// ----- looking things up -----

pub open spec fn has_player(ps: Seq<PlayerView>, id: u16) -> bool {
    exists|i: int| 0 <= i < ps.len() && ps[i].id == id
}

/// The index of the player with an id.
pub open spec fn player_idx(ps: Seq<PlayerView>, id: u16) -> int {
    choose|i: int| 0 <= i < ps.len() && ps[i].id == id
}

pub open spec fn has_team(ts: Seq<TeamView>, name: Seq<char>) -> bool {
    exists|i: int| 0 <= i < ts.len() && ts[i].name == name
}

/// The index of the team with a name.
pub open spec fn team_idx(ts: Seq<TeamView>, name: Seq<char>) -> int {
    choose|i: int| 0 <= i < ts.len() && ts[i].name == name
}

pub open spec fn has_key<T>(s: Seq<(u64, T)>, k: u64) -> bool {
    exists|i: int| 0 <= i < s.len() && s[i].0 == k
}

pub open spec fn key_idx<T>(s: Seq<(u64, T)>, k: u64) -> int {
    choose|i: int| 0 <= i < s.len() && s[i].0 == k
}

pub open spec fn set_player(g: GameView, i: int, p: PlayerView) -> GameView {
    GameView { players: g.players.update(i, p), ..g }
}

pub open spec fn with_map(g: GameView, m: MapView) -> GameView {
    GameView { map: m, ..g }
}

/// Adds a value to the list kept under a key, making the list when the key is new.
pub open spec fn schedule<T>(s: Seq<(u64, Seq<T>)>, k: u64, v: T) -> Seq<(u64, Seq<T>)> {
    if has_key(s, k) {
        let i = key_idx(s, k);
        s.update(i, (k, s[i].1.push(v)))
    } else {
        s.push((k, seq![v]))
    }
}

/// The list kept under a key (empty when there is none).
pub open spec fn scheduled<T>(s: Seq<(u64, Seq<T>)>, k: u64) -> Seq<T> {
    if has_key(s, k) {
        s[key_idx(s, k)].1
    } else {
        Seq::empty()
    }
}

/// The schedule without a key's list.
pub open spec fn unschedule<T>(s: Seq<(u64, Seq<T>)>, k: u64) -> Seq<(u64, Seq<T>)> {
    if has_key(s, k) {
        s.remove(key_idx(s, k))
    } else {
        s
    }
}

// ----- well-formedness -----

/// How many positions of a list lie on a cell.
pub open spec fn count_at(s: Seq<Position>, x: int, y: int) -> nat
    decreases s.len(),
{
    if s.len() == 0 {
        0
    } else {
        count_at(s.drop_last(), x, y) + (if s.last().x == x && s.last().y == y { 1nat } else { 0nat })
    }
}

/// How many of a team's spawn positions lie on a cell.
pub open spec fn spawn_count(t: TeamView, x: int, y: int) -> nat {
    count_at(t.spawn_positions, x, y)
}

/// How many eggs of a team a list holds on a cell.
pub open spec fn eggs_on(l: Seq<EggView>, team: Seq<char>, x: int, y: int) -> nat
    decreases l.len(),
{
    if l.len() == 0 {
        0
    } else {
        eggs_on(l.drop_last(), team, x, y) + (if l.last().team_name == team && l.last().position.x == x
            && l.last().position.y == y { 1nat } else { 0nat })
    }
}

/// How many eggs of a team are scheduled to hatch on a cell.
pub open spec fn pending_eggs(s: Seq<(u64, Seq<EggView>)>, team: Seq<char>, x: int, y: int) -> nat
    decreases s.len(),
{
    if s.len() == 0 {
        0
    } else {
        pending_eggs(s.drop_last(), team, x, y) + eggs_on(s.last().1, team, x, y)
    }
}

pub open spec fn keys_distinct<T>(s: Seq<(u64, T)>) -> bool {
    forall|i: int, j: int| 0 <= i < s.len() && 0 <= j < s.len() && i != j ==> #[trigger] s[i].0 != #[trigger] s[j].0
}

pub open spec fn player_wf(g: GameView, p: PlayerView) -> bool {
    &&& in_bounds(g.map, p.position)
    &&& p.inventory.len() == STONE_KINDS
    &&& 1 <= p.level <= MAX_PLAYER_LVL
    &&& has_team(g.teams, p.team)
    &&& g.map.field[p.position.y as int][p.position.x as int].players.contains(p.id)
}

/// The invariant that every operation of the game keeps.
pub open spec fn game_wf(g: GameView) -> bool {
    &&& map_wf(g.map)
    &&& forall|i: int, j: int| 0 <= i < j < g.players.len() ==> (#[trigger] g.players[i]).id < (#[trigger] g.players[j]).id
    &&& forall|i: int| 0 <= i < g.players.len() ==> player_wf(g, #[trigger] g.players[i])
    &&& forall|x: int, y: int, id: u16|
        0 <= x < g.map.width && 0 <= y < g.map.height && #[trigger] g.map.field[y][x].players.contains(id)
        ==> exists|i: int| 0 <= i < g.players.len() && #[trigger] g.players[i].id == id
            && g.players[i].position.x == x && g.players[i].position.y == y
    &&& forall|i: int, j: int| 0 <= i < g.teams.len() && 0 <= j < g.teams.len() && i != j
        ==> (#[trigger] g.teams[i]).name != (#[trigger] g.teams[j]).name
    &&& forall|i: int| 0 <= i < g.teams.len() ==> (#[trigger] g.teams[i]).members.no_duplicates()
    &&& forall|i: int, k: int| 0 <= i < g.teams.len() && 0 <= k < g.teams[i].spawn_positions.len()
        ==> in_bounds(g.map, #[trigger] g.teams[i].spawn_positions[k])
    &&& forall|i: int, x: int, y: int| 0 <= i < g.teams.len() && 0 <= x < g.map.width && 0 <= y < g.map.height
        ==> hatched_of(#[trigger] g.map.field[y][x], (#[trigger] g.teams[i]).name) >= spawn_count(g.teams[i], x, y)
    &&& forall|team: Seq<char>, x: int, y: int| 0 <= x < g.map.width && 0 <= y < g.map.height
        ==> #[trigger] unhatched_of(g.map.field[y][x], team) >= pending_eggs(g.eggs, team, x, y)
    &&& forall|i: int, k: int| 0 <= i < g.eggs.len() && 0 <= k < g.eggs[i].1.len()
        ==> in_bounds(g.map, (#[trigger] g.eggs[i].1[k]).position)
    &&& keys_distinct(g.eggs)
    &&& keys_distinct(g.incantation)
    &&& forall|x: int, y: int, k: int| 0 <= x < g.map.width && 0 <= y < g.map.height && 0 <= k < g.map.field[y][x].eggs.len()
        ==> (#[trigger] g.map.field[y][x].eggs[k]).unhatched + g.map.field[y][x].eggs[k].hatched <= usize::MAX
}


/// A player as it spawns: level 1, empty inventory and queue, `LIFE_TICKS * LIVES_START` frames.
pub open spec fn new_player(id: u16, team: Seq<char>, pos: Position) -> PlayerView {
    PlayerView {
        team,
        id,
        next_frame: 0,
        commands: Seq::empty(),
        position: pos,
        inventory: seq![0usize, 0, 0, 0, 0, 0],
        level: 1,
        remaining_life: (crate::LIFE_TICKS * crate::LIVES_START) as u64,
        incantating: false,
    }
}

/// Where a new id goes in a list of players kept by increasing id.
pub open spec fn insert_index(ps: Seq<PlayerView>, id: u16) -> int {
    choose|k: int| #[trigger] splits_at(ps, id, k)
}

/// The ids before `k` are below `id` and those from `k` on are above it.
pub open spec fn splits_at(ps: Seq<PlayerView>, id: u16, k: int) -> bool {
    &&& 0 <= k <= ps.len()
    &&& forall|j: int| 0 <= j < k ==> (#[trigger] ps[j]).id < id
    &&& forall|j: int| k <= j < ps.len() ==> (#[trigger] ps[j]).id > id
}

/// The game after the player `id` joins the team `name` at its next spawn position.
pub open spec fn joined(g: GameView, id: u16, name: Seq<char>) -> GameView {
    let ti = team_idx(g.teams, name);
    let t = g.teams[ti];
    let pos = t.spawn_positions[0];
    GameView {
        teams: g.teams.update(
            ti,
            TeamView { members: crate::team::with_member(t.members, id), spawn_positions: t.spawn_positions.drop_first(), ..t },
        ),
        map: crate::map::spawn_on(g.map, id, name, pos),
        players: g.players.insert(insert_index(g.players, id), new_player(id, name, pos)),
        ..g
    }
}

/// The game after the player `id` leaves it: off the player list, its cell and its team.
pub open spec fn removed(g: GameView, id: u16) -> GameView {
    if !has_player(g.players, id) {
        g
    } else {
        let i = player_idx(g.players, id);
        let p = g.players[i];
        let x = p.position.x as int;
        let y = p.position.y as int;
        let c = g.map.field[y][x];
        let ti = team_idx(g.teams, p.team);
        let t = g.teams[ti];
        GameView {
            players: g.players.remove(i),
            map: set_cell(g.map, x, y, CellView { players: without_player(c.players, id), ..c }),
            teams: g.teams.update(ti, TeamView { members: without_player(t.members, id), ..t }),
            ..g
        }
    }
}

/// The player's counters can take one more of anything.
pub open spec fn player_fits(p: PlayerView) -> bool {
    &&& forall|k: int| 0 <= k < STONE_KINDS ==> #[trigger] p.inventory[k] < usize::MAX
    &&& p.remaining_life + crate::LIFE_TICKS <= u64::MAX
}

/// The cell's counters can take one more of anything.
pub open spec fn cell_fits(c: CellView) -> bool {
    &&& forall|k: int| 0 <= k < STONE_KINDS ==> #[trigger] c.stones[k] < usize::MAX
    &&& c.nourriture < usize::MAX
    &&& forall|k: int| 0 <= k < c.eggs.len() ==> (#[trigger] c.eggs[k]).unhatched + c.eggs[k].hatched < usize::MAX
}

// ----- the commands -----

/// The player at index `i` after one step in a direction, wrapping around the field's edges;
/// it leaves its cell's list and joins the new cell's.
pub open spec fn moved(g: GameView, i: int, dir: Direction) -> GameView {
    let p = g.players[i];
    let (dx, dy) = spec_dx_dy(dir);
    let x0 = p.position.x as int;
    let y0 = p.position.y as int;
    let nx = modulo(x0 + dx, g.map.width as int);
    let ny = modulo(y0 + dy, g.map.height as int);
    let c0 = g.map.field[y0][x0];
    let m1 = set_cell(g.map, x0, y0, CellView { players: without_player(c0.players, p.id), ..c0 });
    let c1 = m1.field[ny][nx];
    let m2 = set_cell(m1, nx, ny, CellView { players: with_player(c1.players, p.id), ..c1 });
    GameView {
        players: g.players.update(
            i,
            PlayerView { position: Position { x: nx as usize, y: ny as usize, dir: p.position.dir }, ..p },
        ),
        map: m2,
        ..g
    }
}

/// The players listed in `ids` pushed one step in a direction, in order.
pub open spec fn expelled(g: GameView, ids: Seq<u16>, dir: Direction) -> GameView
    decreases ids.len(),
{
    if ids.len() == 0 {
        g
    } else {
        let prev = expelled(g, ids.drop_last(), dir);
        moved(prev, player_idx(prev.players, ids.last()), dir)
    }
}

/// `n` copies of a text.
pub open spec fn repeat_text(t: Seq<char>, n: nat) -> Seq<Seq<char>> {
    Seq::new(n, |i: int| t)
}

/// The cell a player sees at distance `line` and lateral offset `idx`.
pub open spec fn seen_cell(g: GameView, p: PlayerView, line: int, idx: int) -> (int, int) {
    let px = p.position.x as int;
    let py = p.position.y as int;
    let (x, y) = match p.position.dir {
        Direction::North => (px + idx, py - line),
        Direction::East => (px + line, py + idx),
        Direction::South => (px - idx, py + line),
        Direction::West => (px - line, py - idx),
    };
    (modulo(x, g.map.width as int), modulo(y, g.map.height as int))
}

/// What a player sees of a cell: a `player` word for each other player there, then the
/// resources (food first, then the stones in index order), separated by spaces.
pub open spec fn cell_text(g: GameView, p: PlayerView, x: int, y: int) -> Seq<char> {
    let c = g.map.field[y][x];
    let own = x == p.position.x && y == p.position.y;
    let others = (c.players.len() - (if own { 1int } else { 0int })) as nat;
    let resources = repeat_resource(Resource::Nourriture, c.nourriture as nat) + stones_from(c, 0);
    join(repeat_text("player"@, others) + resources.map_values(|r: Resource| spec_resource_name(r)), " "@)
}

/// The cells a player sees at one distance, from its left to its right.
pub open spec fn see_row(g: GameView, p: PlayerView, line: int) -> Seq<Seq<char>> {
    Seq::new(
        (2 * line + 1) as nat,
        |j: int| cell_text(g, p, seen_cell(g, p, line, j - line).0, seen_cell(g, p, line, j - line).1),
    )
}

/// The cells a player sees up to a distance, nearest first.
pub open spec fn see_lines(g: GameView, p: PlayerView, upto: int) -> Seq<Seq<char>>
    decreases upto + 1,
{
    if upto < 0 {
        Seq::empty()
    } else {
        see_lines(g, p, upto - 1) + see_row(g, p, upto)
    }
}

/// The lines of an inventory: the food (the remaining life), then each stone's count.
pub open spec fn inventory_lines(p: PlayerView) -> Seq<Seq<char>> {
    seq![spec_resource_name(Resource::Nourriture) + " "@ + decimal(p.remaining_life as nat)] + Seq::new(
        STONE_KINDS as nat,
        |k: int| spec_stone_name(spec_stone_at(k)) + " "@ + decimal(p.inventory[k] as nat),
    )
}

/// The answers to a broadcast: every player in id order hears where the message comes from;
/// the sender gets `Okay`.
pub open spec fn broadcast_answers(g: GameView, sender: PlayerView, text: Seq<char>) -> Responses {
    g.players.map_values(
        |q: PlayerView|
            (
                q.id,
                if q.id == sender.id {
                    ResponseView::Okay
                } else {
                    ResponseView::Message(
                        spec_broadcast_source(g.map.width as int, g.map.height as int, sender.position, q.position),
                        text,
                    )
                },
            ),
    )
}

/// The players listed in `ids` start an incantation ending `INCANTATION_DURATION` frames on.
pub open spec fn started(g: GameView, ids: Seq<u16>) -> GameView
    decreases ids.len(),
{
    if ids.len() == 0 {
        g
    } else {
        let prev = started(g, ids.drop_last());
        let i = player_idx(prev.players, ids.last());
        GameView {
            incantation: schedule(prev.incantation, (prev.frame + 300) as u64, ids.last()),
            players: prev.players.update(i, PlayerView { incantating: true, ..prev.players[i] }),
            ..prev
        }
    }
}

/// The players on a cell that can join an incantation at a level: same level and at least
/// `INCANTATION_DURATION` frames of life, in the cell's order.
pub open spec fn joiners(g: GameView, c: CellView, level: u8) -> Seq<u16> {
    c.players.filter(can_join(g, level))
}

/// Whether the player with an id has the level and the life to join an incantation.
pub open spec fn can_join(g: GameView, level: u8) -> spec_fn(u16) -> bool {
    |q: u16|
        g.players[player_idx(g.players, q)].level == level && g.players[player_idx(g.players, q)].remaining_life >= 300
}

/// Every id but one.
pub open spec fn other_than(id: u16) -> spec_fn(u16) -> bool {
    |q: u16| q != id
}

/// An incantation called by the player at index `i`.
pub open spec fn incantation_step(g: GameView, i: int) -> (GameView, Responses) {
    let p = g.players[i];
    let x = p.position.x as int;
    let y = p.position.y as int;
    let c = g.map.field[y][x];
    if p.remaining_life < 300 || p.level >= MAX_PLAYER_LVL {
        (g, seq![(p.id, ResponseView::Ko)])
    } else {
        let same = joiners(g, c, p.level);
        if same.len() >= spec_player_requirement(p.level) && covers(c.stones, spec_stone_requirement(p.level)) {
            let g1 = with_map(
                g,
                set_cell(g.map, x, y, CellView { stones: minus(c.stones, spec_stone_requirement(p.level)), ..c }),
            );
            (started(g1, same), same.map_values(|q: u16| (q, ResponseView::IncantationInProgress)))
        } else {
            (g, seq![(p.id, ResponseView::Ko)])
        }
    }
}

/// A fork by the player at index `i`: an egg of its team is laid on its cell and scheduled to
/// hatch `EGG_FETCH_TIME_DELAY` frames on.
pub open spec fn fork_step(g: GameView, i: int) -> GameView {
    let p = g.players[i];
    let x = p.position.x as int;
    let y = p.position.y as int;
    let c = g.map.field[y][x];
    GameView {
        eggs: schedule(g.eggs, (g.frame + 600) as u64, EggView { team_name: p.team, position: p.position }),
        map: set_cell(g.map, x, y, CellView { eggs: eggs_adjusted(c.eggs, p.team, 1, 0), ..c }),
        ..g
    }
}

/// Taking a resource named `name` by the player at index `i`.
pub open spec fn take_step(g: GameView, i: int, name: Seq<char>) -> (GameView, ResponseView) {
    let p = g.players[i];
    let x = p.position.x as int;
    let y = p.position.y as int;
    let c = g.map.field[y][x];
    match spec_resource_from_name(name) {
        None => (g, ResponseView::Ko),
        Some(r) => if resource_count(c, r) >= 1 {
            (
                GameView {
                    players: g.players.update(i, spec_after_add(p, r)),
                    map: set_cell(g.map, x, y, cell_remove_resource(c, r)),
                    ..g
                },
                ResponseView::Okay,
            )
        } else {
            (g, ResponseView::Ko)
        },
    }
}

/// Putting down a resource named `name` by the player at index `i`.
pub open spec fn put_step(g: GameView, i: int, name: Seq<char>) -> (GameView, ResponseView) {
    let p = g.players[i];
    let x = p.position.x as int;
    let y = p.position.y as int;
    let c = g.map.field[y][x];
    match spec_resource_from_name(name) {
        None => (g, ResponseView::Ko),
        Some(r) => if spec_can_remove(p, r) {
            (
                GameView {
                    players: g.players.update(i, spec_after_remove(p, r)),
                    map: set_cell(g.map, x, y, cell_add_resource(c, r)),
                    ..g
                },
                ResponseView::Okay,
            )
        } else {
            (g, ResponseView::Ko)
        },
    }
}

/// What a command of the player `id` does to the game and whom it answers what.
pub open spec fn apply_cmd(g: GameView, id: u16, cmd: PlayerCmdView) -> (GameView, Responses) {
    let i = player_idx(g.players, id);
    let p = g.players[i];
    match cmd {
        PlayerCmdView::Left => (
            set_player(g, i, PlayerView { position: Position { dir: spec_turn(p.position.dir, Side::Left), ..p.position }, ..p }),
            seq![(id, ResponseView::Okay)],
        ),
        PlayerCmdView::Right => (
            set_player(g, i, PlayerView { position: Position { dir: spec_turn(p.position.dir, Side::Right), ..p.position }, ..p }),
            seq![(id, ResponseView::Okay)],
        ),
        PlayerCmdView::Move => (moved(g, i, p.position.dir), seq![(id, ResponseView::Okay)]),
        PlayerCmdView::Take(name) => (take_step(g, i, name).0, seq![(id, take_step(g, i, name).1)]),
        PlayerCmdView::Put(name) => (put_step(g, i, name).0, seq![(id, put_step(g, i, name).1)]),
        PlayerCmdView::See => (g, seq![(id, ResponseView::See(see_lines(g, p, p.level as int)))]),
        PlayerCmdView::Inventory => (g, seq![(id, ResponseView::Inventory(inventory_lines(p)))]),
        PlayerCmdView::Expel => {
            let c = g.map.field[p.position.y as int][p.position.x as int];
            let targets = c.players.filter(other_than(id));
            (
                expelled(g, targets, p.position.dir),
                targets.map_values(|q: u16| (q, ResponseView::Movement(spec_opposite(p.position.dir)))).push(
                    (id, ResponseView::Okay),
                ),
            )
        },
        PlayerCmdView::Broadcast(text) => (g, broadcast_answers(g, p, text)),
        PlayerCmdView::Incantation => incantation_step(g, i),
        PlayerCmdView::Fork => (fork_step(g, i), seq![(id, ResponseView::Okay)]),
        PlayerCmdView::ConnectNbr => (
            g,
            seq![
                (
                    id,
                    ResponseView::Value(
                        decimal((g.teams[team_idx(g.teams, p.team)].spawn_positions.len() as u16) as nat),
                    ),
                )
            ],
        ),
    }
}


// ----- a frame -----

/// Whether a living player's next command is due at frame `cf`.
pub open spec fn is_ready(cf: u64) -> spec_fn(PlayerView) -> bool {
    |p: PlayerView| p.remaining_life > 0 && p.commands.len() > 0 && cf >= p.next_frame
}

/// Whether a player has run out of life.
pub open spec fn is_dead() -> spec_fn(PlayerView) -> bool {
    |p: PlayerView| p.remaining_life == 0
}

/// A player after a frame goes by: a living player loses one frame of life and, when its
/// next command is due, takes it from its queue and waits its delay before the following one.
pub open spec fn aged(p: PlayerView, cf: u64) -> PlayerView {
    if p.remaining_life == 0 {
        p
    } else if p.commands.len() > 0 && cf >= p.next_frame {
        PlayerView {
            remaining_life: (p.remaining_life - 1) as u64,
            commands: p.commands.drop_first(),
            next_frame: (cf + spec_player_cmd_delay(p.commands[0])) as u64,
            ..p
        }
    } else {
        PlayerView { remaining_life: (p.remaining_life - 1) as u64, ..p }
    }
}

/// Every player after a frame goes by.
pub open spec fn aged_all(ps: Seq<PlayerView>, cf: u64) -> Seq<PlayerView> {
    ps.map_values(|p: PlayerView| aged(p, cf))
}

/// The answer `Mort` to each id listed, in order.
pub open spec fn mort_answers(ids: Seq<u16>) -> Responses {
    ids.map_values(|id: u16| (id, ResponseView::Mort))
}

/// The commands due at frame `cf`, with their players, in id order.
pub open spec fn due_commands(ps: Seq<PlayerView>, cf: u64) -> Seq<(u16, PlayerCmdView)> {
    ps.filter(is_ready(cf)).map_values(|p: PlayerView| (p.id, p.commands[0]))
}

/// The ids of the players without life, in id order.
pub open spec fn dead_ids(ps: Seq<PlayerView>) -> Seq<u16> {
    ps.filter(is_dead()).map_values(|p: PlayerView| p.id)
}

/// The game after the players listed leave it, in order.
pub open spec fn removed_all(g: GameView, ids: Seq<u16>) -> GameView
    decreases ids.len(),
{
    if ids.len() == 0 {
        g
    } else {
        removed(removed_all(g, ids.drop_last()), ids.last())
    }
}

/// The due commands carried out in order; a player in an incantation is answered
/// `IncantationInProgress` instead.
pub open spec fn run_cmds(g: GameView, due: Seq<(u16, PlayerCmdView)>) -> (GameView, Responses)
    decreases due.len(),
{
    if due.len() == 0 {
        (g, Seq::empty())
    } else {
        let (g1, r1) = run_cmds(g, due.drop_last());
        let (id, cmd) = due.last();
        if g1.players[player_idx(g1.players, id)].incantating {
            (g1, r1.push((id, ResponseView::IncantationInProgress)))
        } else {
            let (g2, r2) = apply_cmd(g1, id, cmd);
            (g2, r1 + r2)
        }
    }
}

/// An egg hatching: when its cell has an entry for its team and the team exists, one
/// hatching egg becomes a hatched one and the team gains a spawn position there.
pub open spec fn hatch_one(g: GameView, e: EggView) -> GameView {
    let x = e.position.x as int;
    let y = e.position.y as int;
    let c = g.map.field[y][x];
    if crate::cell::egg_entry(c.eggs, e.team_name) is Some && has_team(g.teams, e.team_name) {
        let ti = team_idx(g.teams, e.team_name);
        let t = g.teams[ti];
        GameView {
            map: set_cell(g.map, x, y, CellView { eggs: eggs_adjusted(c.eggs, e.team_name, -1, 1), ..c }),
            teams: g.teams.update(ti, TeamView { spawn_positions: t.spawn_positions.push(e.position), ..t }),
            ..g
        }
    } else {
        g
    }
}

/// The eggs listed hatching, in order.
pub open spec fn hatch_all(g: GameView, l: Seq<EggView>) -> GameView
    decreases l.len(),
{
    if l.len() == 0 {
        g
    } else {
        hatch_one(hatch_all(g, l.drop_last()), l.last())
    }
}

/// The eggs due at frame `cf` hatch and leave the schedule.
pub open spec fn hatched_at(g: GameView, cf: u64) -> GameView {
    if has_key(g.eggs, cf) {
        hatch_all(GameView { eggs: unschedule(g.eggs, cf), ..g }, scheduled(g.eggs, cf))
    } else {
        g
    }
}

/// An incantation ending for the player `id`: when the player is still there and its
/// incantation can end, it rises a level and hears its new level.
pub open spec fn stop_one(g: GameView, id: u16) -> (GameView, Responses) {
    if has_player(g.players, id) {
        let i = player_idx(g.players, id);
        let p = g.players[i];
        match spec_stop_incantation(p) {
            Ok(l) => (
                set_player(g, i, PlayerView { level: l, incantating: false, ..p }),
                seq![(id, ResponseView::CurrentLevel(l))],
            ),
            Err(_) => (g, Seq::empty()),
        }
    } else {
        (g, Seq::empty())
    }
}

/// The incantations of the players listed end, in order.
pub open spec fn stop_all(g: GameView, ids: Seq<u16>) -> (GameView, Responses)
    decreases ids.len(),
{
    if ids.len() == 0 {
        (g, Seq::empty())
    } else {
        let (g1, r1) = stop_all(g, ids.drop_last());
        let (g2, r2) = stop_one(g1, ids.last());
        (g2, r1 + r2)
    }
}

/// The incantations due at frame `cf` end and leave the schedule.
pub open spec fn stopped_at(g: GameView, cf: u64) -> (GameView, Responses) {
    if has_key(g.incantation, cf) {
        stop_all(GameView { incantation: unschedule(g.incantation, cf), ..g }, scheduled(g.incantation, cf))
    } else {
        (g, Seq::empty())
    }
}

/// One frame of the game: players age (those without life die and are answered `Mort`),
/// the due commands run, the due eggs hatch and the due incantations end.
pub open spec fn tick(g: GameView) -> (GameView, Responses) {
    let cf = (g.frame + 1) as u64;
    let g1 = GameView { players: aged_all(g.players, cf), frame: cf, ..g };
    let mort = mort_answers(dead_ids(g.players));
    let g2 = removed_all(g1, dead_ids(g.players));
    let (g3, r3) = run_cmds(g2, due_commands(g.players, cf));
    let g4 = hatched_at(g3, cf);
    let (g5, r5) = stopped_at(g4, cf);
    (g5, mort + r3 + r5)
}

/// Every counter of the game can take `n` more steps: `n` more of each stone, food or egg on
/// any cell, `n` more of each stone and `n` more units of food in any inventory.
pub open spec fn room(g: GameView, n: nat) -> bool {
    &&& n < usize::MAX
    &&& forall|i: int, k: int| 0 <= i < g.players.len() && 0 <= k < STONE_KINDS ==> #[trigger] g.players[i].inventory[k] + n <= usize::MAX
    &&& forall|i: int| 0 <= i < g.players.len() ==> (#[trigger] g.players[i]).remaining_life + n * crate::LIFE_TICKS <= u64::MAX
    &&& forall|x: int, y: int, k: int| 0 <= x < g.map.width && 0 <= y < g.map.height && 0 <= k < STONE_KINDS
        ==> #[trigger] g.map.field[y][x].stones[k] + n <= usize::MAX
    &&& forall|x: int, y: int| 0 <= x < g.map.width && 0 <= y < g.map.height
        ==> (#[trigger] g.map.field[y][x]).nourriture + n <= usize::MAX
    &&& forall|x: int, y: int, k: int| 0 <= x < g.map.width && 0 <= y < g.map.height && 0 <= k < g.map.field[y][x].eggs.len()
        ==> (#[trigger] g.map.field[y][x].eggs[k]).unhatched + g.map.field[y][x].eggs[k].hatched + n <= usize::MAX
}

} // verus!
