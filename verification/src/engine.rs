use vstd::prelude::*;

use crate::commands::PlayerCmd;
use crate::map::{map_wf, WorldMap};
use crate::model::{game_wf, has_player, has_team, insert_index, joined, new_player, player_idx, player_wf, removed, set_player, splits_at, team_idx, GameView, Responses};
use crate::upkeep::{lemma_count_first, lemma_joined_wf, lemma_moved_wf, lemma_removed_wf, lemma_split_unique};
use crate::model::{apply_cmd, can_join, incantation_step, joiners, started, with_map, fork_step, schedule, has_key, key_idx, keys_distinct, expelled, other_than, broadcast_answers, inventory_lines, cell_fits, cell_text, moved, player_fits, put_step, repeat_text, see_lines, see_row, seen_cell, take_step};
use crate::map::{modulo, offset_mod};
use crate::text::{decimal_text, join_texts};
use crate::resource::{Stone, STONE_KINDS};
use crate::ResponseView;
use crate::commands::owned;
use crate::{lemma_texts_view_push, texts_view};
use crate::upkeep::{lemma_fork_wf, lemma_goods_changed_wf, lemma_started_wf};
use crate::resource::Resource;
use crate::position::{Direction, Side};
use crate::map::step_mod;
use crate::{PlayerError, MAX_PLAYER_LVL};
use crate::player::{Player, PlayerView};
use crate::team::{Team, TeamView};
use crate::{Egg, EggView, NetworkError, ServerResponse, ZappyError, MAX_COMMANDS};
use crate::commands::PlayerCmdView;
use crate::model::{aged, aged_all, dead_ids, due_commands, hatch_all, hatch_one, hatched_at, mort_answers, removed_all, room, run_cmds, stop_all, stop_one, stopped_at, unschedule};
use crate::seasons::{lemma_dead_ids_push, lemma_due_push, lemma_hatch_one_wf, lemma_key_idx_unique, lemma_mort_push, lemma_pending_done, lemma_remove_keys, lemma_stop_one_wf, lemma_unschedule_pending, with_pending};
use crate::upkeep::{lemma_aged_wf, lemma_apply_cmd_room, lemma_removed_all, lemma_room_fits, lemma_room_less, lemma_schedule_changed_wf};
use crate::model::is_ready;
use crate::args::ServerArgs;
use crate::cell::{hatched_of, CellView};
use crate::map::{in_bounds, set_cell, MapView};
use crate::model::{count_at, spawn_count};
use crate::position::Position;
use crate::setup::{fresh_game, hatch_spots, laid_out, lemma_add_hatched_wf, lemma_teams_set_wf, lemma_total_len_prefix, lemma_total_len_uniform, spawns_for, teams_laid_out, total_len};
use crate::text::{lemma_text_less_asymmetric, lemma_text_less_total, lemma_text_less_transitive, same_text, text_less, text_less_than};
use crate::upkeep::{lemma_eggs_adjusted, lemma_set_cell_wf};
use std::collections::VecDeque;
use crate::seasons::lemma_due_survive;

verus! {

/// The views of a list of due commands.
pub open spec fn due_view(v: Seq<(u16, PlayerCmd)>) -> Seq<(u16, PlayerCmdView)> {
    v.map_values(|e: (u16, PlayerCmd)| (e.0, e.1@))
}

/// The texts of a list of strings.
pub open spec fn names_view(v: Seq<String>) -> Seq<Seq<char>> {
    v.map_values(|s: String| s@)
}

/// The positions of each list of a list.
pub open spec fn spawns_view(v: Seq<Vec<Position>>) -> Seq<Seq<Position>> {
    v.map_values(|l: Vec<Position>| l@)
}

/// The state of a running game.
#[derive(Debug, Clone, PartialEq, Eq)]
pub struct GameEngine {
    teams: Vec<Team>,
    players: Vec<Player>,
    eggs: Vec<(u64, Vec<Egg>)>,
    incantation: Vec<(u64, Vec<u16>)>,
    map: WorldMap,
    frame: u64,
}

pub open spec fn teams_view(v: Seq<Team>) -> Seq<TeamView> {
    v.map_values(|t: Team| t@)
}

pub open spec fn players_view(v: Seq<Player>) -> Seq<PlayerView> {
    v.map_values(|p: Player| p@)
}

pub open spec fn egg_list_view(v: Seq<Egg>) -> Seq<EggView> {
    v.map_values(|e: Egg| e@)
}

pub open spec fn eggs_view(v: Seq<(u64, Vec<Egg>)>) -> Seq<(u64, Seq<EggView>)> {
    v.map_values(|e: (u64, Vec<Egg>)| (e.0, egg_list_view(e.1@)))
}

pub open spec fn incantation_view(v: Seq<(u64, Vec<u16>)>) -> Seq<(u64, Seq<u16>)> {
    v.map_values(|e: (u64, Vec<u16>)| (e.0, e.1@))
}

/// The views of a list of answers.
pub open spec fn responses_view(v: Seq<(u16, ServerResponse)>) -> Responses {
    v.map_values(|e: (u16, ServerResponse)| (e.0, e.1@))
}

impl View for GameEngine {
    type V = GameView;

    closed spec fn view(&self) -> GameView {
        GameView {
            teams: teams_view(self.teams@),
            players: players_view(self.players@),
            eggs: eggs_view(self.eggs@),
            incantation: incantation_view(self.incantation@),
            map: self.map@,
            frame: self.frame,
        }
    }
}

/// Appending an answer appends its view.
pub proof fn lemma_responses_view_push(v: Seq<(u16, ServerResponse)>, e: (u16, ServerResponse))
    ensures
        responses_view(v.push(e)) == responses_view(v).push((e.0, e.1@)),
{
    assert(responses_view(v.push(e)) =~= responses_view(v).push((e.0, e.1@)));
}

/// With ids in increasing order, an index holding an id is the index of that id.
pub proof fn lemma_player_idx_unique(ps: Seq<PlayerView>, i: int)
    requires
        forall|a: int, b: int| 0 <= a < b < ps.len() ==> (#[trigger] ps[a]).id < (#[trigger] ps[b]).id,
        0 <= i < ps.len(),
    ensures
        has_player(ps, ps[i].id),
        player_idx(ps, ps[i].id) == i,
{
    let k = player_idx(ps, ps[i].id);
    assert(0 <= k < ps.len() && ps[k].id == ps[i].id);
    if k < i {
        assert(ps[k].id < ps[i].id);
    }
    if k > i {
        assert(ps[i].id < ps[k].id);
    }
}

/// With distinct names, an index holding a name is the index of that name.
pub proof fn lemma_team_idx_unique(ts: Seq<TeamView>, i: int)
    requires
        forall|a: int, b: int| 0 <= a < ts.len() && 0 <= b < ts.len() && a != b ==> (#[trigger] ts[a]).name != (#[trigger] ts[b]).name,
        0 <= i < ts.len(),
    ensures
        has_team(ts, ts[i].name),
        team_idx(ts, ts[i].name) == i,
{
    let k = team_idx(ts, ts[i].name);
    assert(0 <= k < ts.len() && ts[k].name == ts[i].name);
}

impl GameEngine {
    pub fn frame(&self) -> (f: u64)
        ensures
            f == self@.frame,
    {
        self.frame
    }

    pub fn map(&self) -> (m: &WorldMap)
        ensures
            m@ == self@.map,
    {
        &self.map
    }

    pub fn map_width(&self) -> (w: usize)
        ensures
            w == self@.map.width,
    {
        self.map.width()
    }

    pub fn map_height(&self) -> (h: usize)
        ensures
            h == self@.map.height,
    {
        self.map.height()
    }

    pub fn teams(&self) -> (t: &Vec<Team>)
        ensures
            teams_view(t@) == self@.teams,
    {
        &self.teams
    }

    pub fn players(&self) -> (p: &Vec<Player>)
        ensures
            players_view(p@) == self@.players,
    {
        &self.players
    }

    pub fn eggs(&self) -> (e: &Vec<(u64, Vec<Egg>)>)
        ensures
            eggs_view(e@) == self@.eggs,
    {
        &self.eggs
    }

    pub fn incantation(&self) -> (e: &Vec<(u64, Vec<u16>)>)
        ensures
            incantation_view(e@) == self@.incantation,
    {
        &self.incantation
    }

    /// The index of the player with an id, if there is one.
    pub fn player_index(&self, id: u16) -> (r: Option<usize>)
        requires
            game_wf(self@),
        ensures
            r matches Some(i) ==> has_player(self@.players, id) && i == player_idx(self@.players, id)
                && i < self@.players.len(),
            r is None ==> !has_player(self@.players, id),
    {
        let mut i: usize = 0;
        while i < self.players.len()
            invariant
                i <= self.players@.len(),
                game_wf(self@),
                forall|j: int| 0 <= j < i ==> (#[trigger] self@.players[j]).id != id,
            decreases self.players@.len() - i,
        {
            if self.players[i].id() == id {
                proof {
                    lemma_player_idx_unique(self@.players, i as int);
                }
                return Some(i);
            }
            i = i + 1;
        }
        None
    }

    /// The index of the team with a name, if there is one.
    pub fn team_index(&self, name: &str) -> (r: Option<usize>)
        requires
            forall|a: int, b: int| 0 <= a < self@.teams.len() && 0 <= b < self@.teams.len() && a != b
                ==> (#[trigger] self@.teams[a]).name != (#[trigger] self@.teams[b]).name,
        ensures
            r matches Some(i) ==> has_team(self@.teams, name@) && i == team_idx(self@.teams, name@)
                && i < self@.teams.len(),
            r is None ==> !has_team(self@.teams, name@),
    {
        let mut i: usize = 0;
        while i < self.teams.len()
            invariant
                i <= self.teams@.len(),
                forall|a: int, b: int| 0 <= a < self@.teams.len() && 0 <= b < self@.teams.len() && a != b
                    ==> (#[trigger] self@.teams[a]).name != (#[trigger] self@.teams[b]).name,
                forall|j: int| 0 <= j < i ==> (#[trigger] self@.teams[j]).name != name@,
            decreases self.teams@.len() - i,
        {
            if crate::text::same_text(self.teams[i].name().as_str(), name) {
                proof {
                    lemma_team_idx_unique(self@.teams, i as int);
                }
                return Some(i);
            }
            i = i + 1;
        }
        None
    }

    /// Moves the player at index `i` one step in a direction, wrapping around the edges.
    fn handle_move(&mut self, i: usize, dir: Direction)
        requires
            game_wf(old(self)@),
            i < old(self)@.players.len(),
        ensures
            final(self)@ == moved(old(self)@, i as int, dir),
            game_wf(final(self)@),
    {
        let ghost g0 = self@;
        proof {
            lemma_moved_wf(g0, i as int, dir);
            assert(player_wf(g0, g0.players[i as int]));
        }
        let pos = self.players[i].position();
        let id = self.players[i].id();
        let (dx, dy) = dir.dx_dy();
        let nx = step_mod(pos.x, dx, self.map.width());
        let ny = step_mod(pos.y, dy, self.map.height());
        self.players[i].set_cell(nx, ny);
        self.map.remove_player_at(pos.x, pos.y, id);
        self.map.add_player_at(nx, ny, id);
        proof {
            let g1 = moved(g0, i as int, dir);
            assert(self@.players =~= g1.players);
            assert(self@.map == g1.map);
            assert(self@ == g1);
        }
    }

    /// The player at index `i` takes a resource named `name` from its cell.
    fn take_cmd(&mut self, i: usize, name: &String) -> (r: ServerResponse)
        requires
            game_wf(old(self)@),
            i < old(self)@.players.len(),
            player_fits(old(self)@.players[i as int]),
        ensures
            final(self)@ == take_step(old(self)@, i as int, name@).0,
            r@ == take_step(old(self)@, i as int, name@).1,
            game_wf(final(self)@),
    {
        let ghost g0 = self@;
        proof {
            assert(player_wf(g0, g0.players[i as int]));
        }
        match Resource::try_from_name(name.as_str()) {
            Err(_) => ServerResponse::Ko,
            Ok(res) => {
                let pos = self.players[i].position();
                if self.map.remove_resource_at(pos.x, pos.y, res) {
                    proof {
                        let p = g0.players[i as int];
                        match res {
                            Resource::Stone(st) => {
                                assert(p.inventory[crate::resource::spec_stone_index(st)] < usize::MAX);
                            },
                            _ => {},
                        }
                    }
                    self.players[i].add_to_inventory(res);
                    proof {
                        let (g1, _) = take_step(g0, i as int, name@);
                        assert(self@.players =~= g1.players);
                        assert(self@ == g1);
                        let c = g0.map.field[pos.y as int][pos.x as int];
                        assert(crate::cell::cell_wf(c));
                        lemma_goods_changed_wf(g0, i as int, g1.players[i as int], pos.x as int, pos.y as int,
                            crate::cell::cell_remove_resource(c, res));
                    }
                    ServerResponse::Okay
                } else {
                    ServerResponse::Ko
                }
            },
        }
    }

    /// The player at index `i` puts down a resource named `name` on its cell.
    fn put_cmd(&mut self, i: usize, name: &String) -> (r: ServerResponse)
        requires
            game_wf(old(self)@),
            i < old(self)@.players.len(),
            cell_fits(old(self)@.map.field[old(self)@.players[i as int].position.y as int][old(self)@.players[i as int].position.x as int]),
        ensures
            final(self)@ == put_step(old(self)@, i as int, name@).0,
            r@ == put_step(old(self)@, i as int, name@).1,
            game_wf(final(self)@),
    {
        let ghost g0 = self@;
        proof {
            assert(player_wf(g0, g0.players[i as int]));
        }
        match Resource::try_from_name(name.as_str()) {
            Err(_) => ServerResponse::Ko,
            Ok(res) => {
                let pos = self.players[i].position();
                if self.players[i].remove_from_inventory(res) {
                    proof {
                        let c = g0.map.field[pos.y as int][pos.x as int];
                        match res {
                            Resource::Stone(st) => {
                                assert(c.stones[crate::resource::spec_stone_index(st)] < usize::MAX);
                            },
                            _ => {},
                        }
                    }
                    self.map.add_resource_at(pos.x, pos.y, res);
                    proof {
                        let (g1, _) = put_step(g0, i as int, name@);
                        assert(self@.players =~= g1.players);
                        assert(self@ == g1);
                        let c = g0.map.field[pos.y as int][pos.x as int];
                        assert(crate::cell::cell_wf(c));
                        lemma_goods_changed_wf(g0, i as int, g1.players[i as int], pos.x as int, pos.y as int,
                            crate::cell::cell_add_resource(c, res));
                    }
                    ServerResponse::Okay
                } else {
                    proof {
                        assert(self@.players =~= g0.players);
                    }
                    ServerResponse::Ko
                }
            },
        }
    }

    /// What the player at index `i` sees of the cell at `(x, y)`.
    fn cell_text_of(&self, i: usize, x: usize, y: usize) -> (t: String)
        requires
            game_wf(self@),
            i < self@.players.len(),
            x < self@.map.width,
            y < self@.map.height,
        ensures
            t@ == cell_text(self@, self@.players[i as int], x as int, y as int),
    {
        let ghost g = self@;
        let ghost p = g.players[i as int];
        proof {
            assert(player_wf(g, p));
        }
        let pos = self.players[i].position();
        let cell = self.map.cell(x, y);
        proof {
            assert(crate::cell::cell_wf(cell@));
        }
        let own = x == pos.x && y == pos.y;
        let others: usize = if own {
            proof {
                assert(cell@.players.contains(p.id));
            }
            cell.players.len() - 1
        } else {
            cell.players.len()
        };
        let mut words: Vec<String> = Vec::new();
        let mut k: usize = 0;
        while k < others
            invariant
                k <= others,
                texts_view(words@) == repeat_text("player"@, k as nat),
            decreases others - k,
        {
            let ghost w0 = words@;
            let pw = owned("player");
            words.push(pw);
            proof {
                lemma_texts_view_push(w0, pw);
            }
            k = k + 1;
            assert(texts_view(words@) =~= repeat_text("player"@, k as nat));
        }
        let resources = cell.get_resources_copy();
        let ghost names = resources@.map_values(|r: Resource| crate::resource::spec_resource_name(r));
        let ghost start = texts_view(words@);
        let mut j: usize = 0;
        while j < resources.len()
            invariant
                j <= resources@.len(),
                names == resources@.map_values(|r: Resource| crate::resource::spec_resource_name(r)),
                texts_view(words@) == start + names.take(j as int),
            decreases resources@.len() - j,
        {
            let ghost w0 = words@;
            let rw = owned(resources[j].as_str());
            words.push(rw);
            proof {
                lemma_texts_view_push(w0, rw);
            }
            j = j + 1;
            assert(texts_view(words@) =~= start + names.take(j as int));
        }
        proof {
            assert(names.take(resources@.len() as int) =~= names);
        }
        join_texts(&words, " ")
    }

    /// The cell that the player at index `i` sees at a distance and a lateral offset.
    fn seen_at(&self, i: usize, line: i64, idx: i64) -> (r: (usize, usize))
        requires
            game_wf(self@),
            i < self@.players.len(),
            0 <= line <= 8,
            -8 <= idx <= 8,
        ensures
            r.0 == seen_cell(self@, self@.players[i as int], line as int, idx as int).0,
            r.1 == seen_cell(self@, self@.players[i as int], line as int, idx as int).1,
            r.0 < self@.map.width,
            r.1 < self@.map.height,
    {
        proof {
            assert(player_wf(self@, self@.players[i as int]));
        }
        let pos = self.players[i].position();
        let w = self.map.width();
        let h = self.map.height();
        match pos.dir {
            Direction::North => (offset_mod(pos.x, idx, w), offset_mod(pos.y, -line, h)),
            Direction::East => (offset_mod(pos.x, line, w), offset_mod(pos.y, idx, h)),
            Direction::South => (offset_mod(pos.x, -idx, w), offset_mod(pos.y, line, h)),
            Direction::West => (offset_mod(pos.x, -line, w), offset_mod(pos.y, -idx, h)),
        }
    }

    /// What the player at index `i` sees: the cells in front of it, up to its level away.
    fn see_cmd(&self, i: usize) -> (lines: Vec<String>)
        requires
            game_wf(self@),
            i < self@.players.len(),
        ensures
            texts_view(lines@) == see_lines(self@, self@.players[i as int], self@.players[i as int].level as int),
    {
        let ghost g = self@;
        let ghost p = g.players[i as int];
        proof {
            assert(player_wf(g, p));
        }
        let level = self.players[i].level();
        let mut lines: Vec<String> = Vec::new();
        let mut line: i64 = 0;
        assert(see_lines(g, p, -1) == Seq::<Seq<char>>::empty());
        while line <= level as i64
            invariant
                0 <= line <= level + 1,
                level == p.level,
                1 <= level <= 8,
                game_wf(g),
                g == self@,
                p == g.players[i as int],
                i < g.players.len(),
                texts_view(lines@) == see_lines(g, p, line - 1),
            decreases level + 1 - line,
        {
            let ghost before = texts_view(lines@);
            let mut j: i64 = 0;
            while j <= 2 * line
                invariant
                    0 <= j <= 2 * line + 1,
                    0 <= line <= 8,
                    game_wf(g),
                    g == self@,
                    p == g.players[i as int],
                    i < g.players.len(),
                    texts_view(lines@) == before + see_row(g, p, line as int).take(j as int),
                decreases 2 * line + 1 - j,
            {
                let (x, y) = self.seen_at(i, line, j - line);
                let t = self.cell_text_of(i, x, y);
                let ghost l0 = lines@;
                lines.push(t);
                proof {
                    lemma_texts_view_push(l0, t);
                    assert(see_row(g, p, line as int)[j as int] == cell_text(g, p, x as int, y as int));
                    assert(texts_view(lines@) =~= before + see_row(g, p, line as int).take(j as int + 1));
                }
                j = j + 1;
            }
            proof {
                assert(see_row(g, p, line as int).take(2 * line + 1) =~= see_row(g, p, line as int));
            }
            line = line + 1;
        }
        lines
    }

    /// A resource's name, a space and a count.
    fn count_line(name: &str, n: u64) -> (t: String)
        ensures
            t@ == name@ + " "@ + crate::text::decimal(n as nat),
    {
        let mut t = owned(name);
        t.append(" ");
        let d = decimal_text(n);
        t.append(d.as_str());
        t
    }

    /// The inventory of the player at index `i`: its life as food, then each stone's count.
    fn inventory_cmd(&self, i: usize) -> (lines: Vec<String>)
        requires
            game_wf(self@),
            i < self@.players.len(),
        ensures
            texts_view(lines@) == inventory_lines(self@.players[i as int]),
    {
        let ghost p = self@.players[i as int];
        proof {
            assert(player_wf(self@, p));
        }
        let mut lines: Vec<String> = Vec::new();
        let first = Self::count_line(Resource::Nourriture.as_str(), self.players[i].remaining_life());
        lines.push(first);
        let inv = self.players[i].inventory();
        let mut k: usize = 0;
        while k < crate::resource::STONE_KINDS
            invariant
                k <= crate::resource::STONE_KINDS,
                inv@ == p.inventory,
                p.inventory.len() == crate::resource::STONE_KINDS,
                texts_view(lines@) == inventory_lines(p).take(k as int + 1),
            decreases crate::resource::STONE_KINDS - k,
        {
            let l = Self::count_line(Stone::from_index(k).as_str(), inv[k] as u64);
            let ghost l0 = lines@;
            lines.push(l);
            proof {
                lemma_texts_view_push(l0, l);
                assert(texts_view(lines@) =~= inventory_lines(p).take(k as int + 2));
            }
            k = k + 1;
        }
        proof {
            assert(inventory_lines(p).take(7) =~= inventory_lines(p));
        }
        lines
    }

    /// The answers to a broadcast of `text` by the player at index `i`.
    fn broadcast_cmd(&self, i: usize, text: &String) -> (out: Vec<(u16, ServerResponse)>)
        requires
            game_wf(self@),
            i < self@.players.len(),
        ensures
            responses_view(out@) == broadcast_answers(self@, self@.players[i as int], text@),
    {
        let ghost g = self@;
        let ghost p = g.players[i as int];
        proof {
            assert(player_wf(g, p));
        }
        let sender = self.players[i].position();
        let sender_id = self.players[i].id();
        let mut out: Vec<(u16, ServerResponse)> = Vec::new();
        let mut k: usize = 0;
        while k < self.players.len()
            invariant
                k <= g.players.len(),
                g == self@,
                game_wf(g),
                sender == p.position,
                sender_id == p.id,
                p == g.players[i as int],
                i < g.players.len(),
                responses_view(out@) == broadcast_answers(g, p, text@).take(k as int),
            decreases g.players.len() - k,
        {
            let q = &self.players[k];
            let resp = if q.id() == sender_id {
                ServerResponse::Okay
            } else {
                proof {
                    assert(player_wf(g, g.players[k as int]));
                }
                ServerResponse::Message(self.map.find_broadcast_source(&sender, &q.position()), owned(text.as_str()))
            };
            let e = (q.id(), resp);
            let ghost o0 = out@;
            out.push(e);
            proof {
                lemma_responses_view_push(o0, e);
                assert(responses_view(out@) =~= broadcast_answers(g, p, text@).take(k as int + 1));
            }
            k = k + 1;
        }
        proof {
            assert(broadcast_answers(g, p, text@).take(g.players.len() as int) =~= broadcast_answers(g, p, text@));
        }
        out
    }

    /// How many places the team of the player at index `i` has left, as text.
    fn connect_nbr_cmd(&self, i: usize) -> (t: String)
        requires
            game_wf(self@),
            i < self@.players.len(),
        ensures
            t@ == crate::text::decimal(
                (self@.teams[team_idx(self@.teams, self@.players[i as int].team)].spawn_positions.len() as u16) as nat,
            ),
    {
        proof {
            assert(player_wf(self@, self@.players[i as int]));
        }
        let ti = self.team_index(self.players[i].team().as_str()).unwrap();
        let n = self.teams[ti].remaining_members();
        decimal_text(n as u64)
    }

    /// The ids of a cell's players other than `id`, in the cell's order.
    fn others_on(&self, x: usize, y: usize, id: u16) -> (v: Vec<u16>)
        requires
            map_wf(self@.map),
            x < self@.map.width,
            y < self@.map.height,
        ensures
            v@ == self@.map.field[y as int][x as int].players.filter(other_than(id)),
    {
        let cell = self.map.cell(x, y);
        let ghost cp = cell@.players;
        let mut v: Vec<u16> = Vec::new();
        let mut m: usize = 0;
        while m < cell.players.len()
            invariant
                m <= cp.len(),
                cp == cell@.players,
                v@ == cp.take(m as int).filter(other_than(id)),
            decreases cp.len() - m,
        {
            let q = cell.players[m];
            proof {
                assert(cp.take(m as int + 1) =~= cp.take(m as int).push(q));
                cp.take(m as int).lemma_filter_push(q, other_than(id));
            }
            if q != id {
                v.push(q);
            }
            m = m + 1;
        }
        proof {
            assert(cp.take(cp.len() as int) =~= cp);
        }
        v
    }

    /// The player at index `i` pushes every other player of its cell one step the way it faces.
    fn expel_cmd(&mut self, i: usize) -> (out: Vec<(u16, ServerResponse)>)
        requires
            game_wf(old(self)@),
            i < old(self)@.players.len(),
        ensures
            ({
                let p = old(self)@.players[i as int];
                let c = old(self)@.map.field[p.position.y as int][p.position.x as int];
                let targets = c.players.filter(other_than(p.id));
                &&& final(self)@ == expelled(old(self)@, targets, p.position.dir)
                &&& responses_view(out@) == targets.map_values(|q: u16| (q, ResponseView::Movement(crate::position::spec_opposite(p.position.dir)))).push(
                    (p.id, ResponseView::Okay))
            }),
            game_wf(final(self)@),
    {
        let ghost g0 = self@;
        let ghost p = g0.players[i as int];
        proof {
            assert(player_wf(g0, p));
        }
        let pos = self.players[i].position();
        let id = self.players[i].id();
        let dir = pos.dir;
        let targets = self.others_on(pos.x, pos.y, id);
        let ghost c = g0.map.field[pos.y as int][pos.x as int];
        let ghost resp = targets@.map_values(|q: u16| (q, ResponseView::Movement(crate::position::spec_opposite(dir))));
        proof {
            assert forall|k: int| 0 <= k < targets@.len() implies has_player(g0.players, #[trigger] targets@[k]) by {
                c.players.lemma_filter_pred(other_than(id), k);
                assert(targets@.contains(targets@[k]));
                c.players.lemma_filter_contains_rev(other_than(id), targets@[k]);
                let m = choose|m: int| 0 <= m < g0.players.len() && #[trigger] g0.players[m].id == targets@[k]
                    && g0.players[m].position.x == pos.x && g0.players[m].position.y == pos.y;
            }
        }
        let mut out: Vec<(u16, ServerResponse)> = Vec::new();
        let mut k: usize = 0;
        while k < targets.len()
            invariant
                k <= targets@.len(),
                game_wf(self@),
                self@ == expelled(g0, targets@.take(k as int), dir),
                self@.players.len() == g0.players.len(),
                forall|j: int| 0 <= j < g0.players.len() ==> (#[trigger] self@.players[j]).id == g0.players[j].id,
                forall|m: int| 0 <= m < targets@.len() ==> has_player(g0.players, #[trigger] targets@[m]),
                resp == targets@.map_values(|q: u16| (q, ResponseView::Movement(crate::position::spec_opposite(dir)))),
                responses_view(out@) == resp.take(k as int),
            decreases targets@.len() - k,
        {
            let t = targets[k];
            proof {
                let m = choose|m: int| 0 <= m < g0.players.len() && g0.players[m].id == t;
                assert(self@.players[m].id == t);
            }
            let j = self.player_index(t).unwrap();
            let ghost before = self@;
            self.handle_move(j, dir);
            proof {
                assert(targets@.take(k as int + 1).drop_last() =~= targets@.take(k as int));
                lemma_moved_wf(before, j as int, dir);
                assert forall|jj: int| 0 <= jj < g0.players.len() implies (#[trigger] self@.players[jj]).id == g0.players[jj].id by {
                    assert(before.players[jj].id == g0.players[jj].id);
                }
            }
            let e = (t, ServerResponse::Movement(dir.opposite()));
            let ghost o0 = out@;
            out.push(e);
            proof {
                lemma_responses_view_push(o0, e);
                assert(responses_view(out@) =~= resp.take(k as int + 1));
            }
            k = k + 1;
        }
        let e = (id, ServerResponse::Okay);
        let ghost o0 = out@;
        out.push(e);
        proof {
            lemma_responses_view_push(o0, e);
            assert(targets@.take(targets@.len() as int) =~= targets@);
            assert(resp.take(targets@.len() as int) =~= resp);
        }
        out
    }

    /// Adds an egg to those hatching at a frame.
    fn schedule_egg(&mut self, at: u64, egg: Egg)
        requires
            keys_distinct(old(self)@.eggs),
        ensures
            final(self)@ == (GameView { eggs: schedule(old(self)@.eggs, at, egg@), ..old(self)@ }),
    {
        let ghost g0 = self@;
        let mut k: usize = 0;
        while k < self.eggs.len()
            invariant
                k <= self.eggs@.len(),
                self@ == g0,
                g0 == old(self)@,
                keys_distinct(g0.eggs),
                forall|j: int| 0 <= j < k ==> (#[trigger] g0.eggs[j]).0 != at,
            decreases self.eggs@.len() - k,
        {
            if self.eggs[k].0 == at {
                proof {
                    assert(g0.eggs[k as int].0 == at);
                    let i = key_idx(g0.eggs, at);
                    assert(0 <= i < g0.eggs.len() && g0.eggs[i].0 == at);
                    assert(i == k as int) by {
                        if i != k as int {
                            assert(g0.eggs[i].0 != g0.eggs[k as int].0);
                        }
                    }
                }
                self.eggs[k].1.push(egg);
                proof {
                    assert(egg_list_view(self.eggs@[k as int].1@) =~= g0.eggs[k as int].1.push(egg@));
                    assert(self@.eggs =~= schedule(g0.eggs, at, egg@));
                    assert(self@ == (GameView { eggs: schedule(g0.eggs, at, egg@), ..g0 }));
                }
                return;
            }
            k = k + 1;
        }
        let mut list: Vec<Egg> = Vec::new();
        list.push(egg);
        self.eggs.push((at, list));
        proof {
            assert(!has_key(g0.eggs, at));
            assert(egg_list_view(list@) =~= seq![egg@]);
            assert(self@.eggs =~= schedule(g0.eggs, at, egg@));
        }
    }

    /// Adds a player to those whose incantation ends at a frame.
    fn schedule_incantation(&mut self, at: u64, id: u16)
        requires
            keys_distinct(old(self)@.incantation),
        ensures
            final(self)@ == (GameView { incantation: schedule(old(self)@.incantation, at, id), ..old(self)@ }),
    {
        let ghost g0 = self@;
        let mut k: usize = 0;
        while k < self.incantation.len()
            invariant
                k <= self.incantation@.len(),
                self@ == g0,
                g0 == old(self)@,
                keys_distinct(g0.incantation),
                forall|j: int| 0 <= j < k ==> (#[trigger] g0.incantation[j]).0 != at,
            decreases self.incantation@.len() - k,
        {
            if self.incantation[k].0 == at {
                proof {
                    assert(g0.incantation[k as int].0 == at);
                    let i = key_idx(g0.incantation, at);
                    assert(0 <= i < g0.incantation.len() && g0.incantation[i].0 == at);
                    assert(i == k as int) by {
                        if i != k as int {
                            assert(g0.incantation[i].0 != g0.incantation[k as int].0);
                        }
                    }
                }
                self.incantation[k].1.push(id);
                proof {
                    assert(self@.incantation =~= schedule(g0.incantation, at, id));
                    assert(self@ == (GameView { incantation: schedule(g0.incantation, at, id), ..g0 }));
                }
                return;
            }
            k = k + 1;
        }
        let mut list: Vec<u16> = Vec::new();
        list.push(id);
        self.incantation.push((at, list));
        proof {
            assert(!has_key(g0.incantation, at));
            assert(list@ =~= seq![id]);
            assert(self@.incantation =~= schedule(g0.incantation, at, id));
        }
    }

    /// The player at index `i` lays an egg of its team on its cell.
    fn fork_cmd(&mut self, i: usize)
        requires
            game_wf(old(self)@),
            i < old(self)@.players.len(),
            old(self)@.frame + 600 <= u64::MAX,
            cell_fits(old(self)@.map.field[old(self)@.players[i as int].position.y as int][old(self)@.players[i as int].position.x as int]),
        ensures
            final(self)@ == fork_step(old(self)@, i as int),
            game_wf(final(self)@),
    {
        let ghost g0 = self@;
        let ghost p = g0.players[i as int];
        proof {
            assert(player_wf(g0, p));
            lemma_fork_wf(g0, i as int);
        }
        let pos = self.players[i].position();
        let egg = Egg { team_name: owned(self.players[i].team().as_str()), position: pos };
        self.schedule_egg(self.frame + 600, egg);
        proof {
            let c = g0.map.field[pos.y as int][pos.x as int];
            assert(crate::cell::cell_wf(c));
            assert(crate::cell::unhatched_of(c, p.team) + crate::cell::hatched_of(c, p.team) < usize::MAX) by {
                if crate::cell::egg_entry(c.eggs, p.team) is Some {
                    let kk = crate::cell::egg_entry(c.eggs, p.team).unwrap();
                    assert(c.eggs[kk].unhatched + c.eggs[kk].hatched < usize::MAX);
                }
            }
        }
        self.map.adjust_eggs_at(pos.x, pos.y, self.players[i].team().as_str(), 1, 0);
        proof {
            assert(self@ == fork_step(g0, i as int));
        }
    }

    /// The players of the cell at `(x, y)` that can join an incantation at a level.
    fn joiners_on(&self, x: usize, y: usize, level: u8) -> (v: Vec<u16>)
        requires
            game_wf(self@),
            x < self@.map.width,
            y < self@.map.height,
        ensures
            v@ == joiners(self@, self@.map.field[y as int][x as int], level),
            forall|k: int| 0 <= k < v@.len() ==> has_player(self@.players, #[trigger] v@[k]),
    {
        let ghost g = self@;
        let cell = self.map.cell(x, y);
        let ghost cp = cell@.players;
        let mut v: Vec<u16> = Vec::new();
        let mut m: usize = 0;
        while m < cell.players.len()
            invariant
                m <= cp.len(),
                g == self@,
                game_wf(g),
                x < g.map.width,
                y < g.map.height,
                cp == g.map.field[y as int][x as int].players,
                cp == cell@.players,
                v@ == cp.take(m as int).filter(can_join(g, level)),
                forall|k: int| 0 <= k < v@.len() ==> has_player(g.players, #[trigger] v@[k]),
            decreases cp.len() - m,
        {
            let q = cell.players[m];
            proof {
                assert(cp.take(m as int + 1) =~= cp.take(m as int).push(q));
                cp.take(m as int).lemma_filter_push(q, can_join(g, level));
                assert(g.map.field[y as int][x as int].players.contains(q));
                let w = choose|w: int| 0 <= w < g.players.len() && #[trigger] g.players[w].id == q
                    && g.players[w].position.x == x && g.players[w].position.y == y;
            }
            let j = self.player_index(q).unwrap();
            if self.players[j].level() == level && self.players[j].remaining_life() >= 300 {
                let ghost v0 = v@;
                v.push(q);
                proof {
                    assert forall|k: int| 0 <= k < v@.len() implies has_player(g.players, #[trigger] v@[k]) by {
                        if k < v0.len() {
                            assert(v@[k] == v0[k]);
                        }
                    }
                }
            }
            m = m + 1;
        }
        proof {
            assert(cp.take(cp.len() as int) =~= cp);
        }
        v
    }

    /// An incantation called by the player at index `i`.
    #[verifier::spinoff_prover]
    #[verifier::rlimit(40)]
    fn incantation_cmd(&mut self, i: usize) -> (out: Vec<(u16, ServerResponse)>)
        requires
            game_wf(old(self)@),
            i < old(self)@.players.len(),
            old(self)@.frame + 300 <= u64::MAX,
        ensures
            final(self)@ == incantation_step(old(self)@, i as int).0,
            responses_view(out@) == incantation_step(old(self)@, i as int).1,
            game_wf(final(self)@),
    {
        let ghost g0 = self@;
        let ghost p = g0.players[i as int];
        proof {
            assert(player_wf(g0, p));
        }
        let id = self.players[i].id();
        let level = self.players[i].level();
        let pos = self.players[i].position();
        if self.players[i].remaining_life() < 300 || level >= MAX_PLAYER_LVL {
            let mut out: Vec<(u16, ServerResponse)> = Vec::new();
            out.push((id, ServerResponse::Ko));
            assert(responses_view(out@) =~= seq![(id, ResponseView::Ko)]);
            return out;
        }
        let same = self.joiners_on(pos.x, pos.y, level);
        if same.len() >= self.players[i].nxt_lvl_player_cnt_requirements() {
            let need = self.players[i].nxt_lvl_stone_requirements();
            let ghost c = g0.map.field[pos.y as int][pos.x as int];
            if self.map.reduce_stones_at(pos.x, pos.y, &need) {
                let ghost g1 = self@;
                proof {
                    assert(crate::cell::cell_wf(c));
                    lemma_goods_changed_wf(g0, i as int, p, pos.x as int, pos.y as int,
                        crate::cell::CellView { stones: crate::resource::minus(c.stones, need@), ..c });
                    assert(g0.players.update(i as int, p) =~= g0.players);
                    assert(g1 == with_map(g0, crate::map::set_cell(g0.map, pos.x as int, pos.y as int,
                        crate::cell::CellView { stones: crate::resource::minus(c.stones, need@), ..c })));
                    lemma_started_wf(g1, same@);
                }
                let ghost resp = same@.map_values(|q: u16| (q, ResponseView::IncantationInProgress));
                let mut out: Vec<(u16, ServerResponse)> = Vec::new();
                let mut k: usize = 0;
                while k < same.len()
                    invariant
                        k <= same@.len(),
                        game_wf(g1),
                        g1.frame == g0.frame,
                        g0.frame + 300 <= u64::MAX,
                        forall|m: int| 0 <= m < same@.len() ==> has_player(g1.players, #[trigger] same@[m]),
                        self@ == started(g1, same@.take(k as int)),
                        resp == same@.map_values(|q: u16| (q, ResponseView::IncantationInProgress)),
                        responses_view(out@) == resp.take(k as int),
                    decreases same@.len() - k,
                {
                    let q = same[k];
                    proof {
                        lemma_started_wf(g1, same@.take(k as int));
                        assert(same@.take(k as int + 1).drop_last() =~= same@.take(k as int));
                        assert(has_player(g1.players, q));
                        let w = choose|w: int| 0 <= w < g1.players.len() && g1.players[w].id == q;
                        assert(self@.players[w].id == q);
                    }
                    let ghost before = self@;
                    self.schedule_incantation(self.frame + 300, q);
                    let j = self.player_index(q).unwrap();
                    self.players[j].start_incantation();
                    proof {
                        assert(self@.players =~= before.players.update(j as int,
                            crate::player::PlayerView { incantating: true, ..before.players[j as int] }));
                        assert(self@ == started(g1, same@.take(k as int + 1)));
                    }
                    let e = (q, ServerResponse::IncantationInProgress);
                    let ghost o0 = out@;
                    out.push(e);
                    proof {
                        lemma_responses_view_push(o0, e);
                        assert(responses_view(out@) =~= resp.take(k as int + 1));
                    }
                    k = k + 1;
                }
                proof {
                    assert(same@.take(same@.len() as int) =~= same@);
                    assert(resp.take(same@.len() as int) =~= resp);
                }
                return out;
            }
        }
        let mut out: Vec<(u16, ServerResponse)> = Vec::new();
        out.push((id, ServerResponse::Ko));
        assert(responses_view(out@) =~= seq![(id, ResponseView::Ko)]);
        out
    }

    /// Carries out a command of the player at index `i` and returns the answers it gives.
    pub fn apply_cmd(&mut self, i: usize, command: &PlayerCmd) -> (out: Vec<(u16, ServerResponse)>)
        requires
            game_wf(old(self)@),
            i < old(self)@.players.len(),
            player_fits(old(self)@.players[i as int]),
            cell_fits(old(self)@.map.field[old(self)@.players[i as int].position.y as int][old(self)@.players[i as int].position.x as int]),
            old(self)@.frame + 600 <= u64::MAX,
        ensures
            final(self)@ == apply_cmd(old(self)@, old(self)@.players[i as int].id, command@).0,
            responses_view(out@) == apply_cmd(old(self)@, old(self)@.players[i as int].id, command@).1,
            game_wf(final(self)@),
    {
        let ghost g0 = self@;
        let ghost p = g0.players[i as int];
        proof {
            lemma_player_idx_unique(g0.players, i as int);
            assert(player_wf(g0, p));
        }
        let id = self.players[i].id();
        let mut out: Vec<(u16, ServerResponse)> = Vec::new();
        match command {
            PlayerCmd::Left => {
                self.players[i].turn(Side::Left);
                proof {
                    let np = self@.players[i as int];
                    assert(self@.players =~= g0.players.update(i as int, np));
                    lemma_set_player_wf(g0, i as int, np);
                }
                out.push((id, ServerResponse::Okay));
            },
            PlayerCmd::Right => {
                self.players[i].turn(Side::Right);
                proof {
                    let np = self@.players[i as int];
                    assert(self@.players =~= g0.players.update(i as int, np));
                    lemma_set_player_wf(g0, i as int, np);
                }
                out.push((id, ServerResponse::Okay));
            },
            PlayerCmd::Move => {
                let dir = self.players[i].position().dir;
                self.handle_move(i, dir);
                out.push((id, ServerResponse::Okay));
            },
            PlayerCmd::Take(name) => {
                let r = self.take_cmd(i, name);
                out.push((id, r));
            },
            PlayerCmd::Put(name) => {
                let r = self.put_cmd(i, name);
                out.push((id, r));
            },
            PlayerCmd::See => {
                let lines = self.see_cmd(i);
                out.push((id, ServerResponse::See(lines)));
            },
            PlayerCmd::Inventory => {
                let lines = self.inventory_cmd(i);
                out.push((id, ServerResponse::Inventory(lines)));
            },
            PlayerCmd::Expel => {
                out = self.expel_cmd(i);
            },
            PlayerCmd::Broadcast(text) => {
                out = self.broadcast_cmd(i, text);
            },
            PlayerCmd::Incantation => {
                out = self.incantation_cmd(i);
            },
            PlayerCmd::Fork => {
                self.fork_cmd(i);
                out.push((id, ServerResponse::Okay));
            },
            PlayerCmd::ConnectNbr => {
                let t = self.connect_nbr_cmd(i);
                out.push((id, ServerResponse::Value(t)));
            },
        }
        proof {
            let (_, r) = apply_cmd(g0, id, command@);
            match command {
                PlayerCmd::Expel => {},
                PlayerCmd::Broadcast(_) => {},
                PlayerCmd::Incantation => {},
                _ => {
                    assert(responses_view(out@) =~= r);
                },
            }
        }
        out
    }

    /// Where a new id goes in the player list.
    fn insertion_point(&self, id: u16) -> (k: usize)
        requires
            game_wf(self@),
            !has_player(self@.players, id),
        ensures
            splits_at(self@.players, id, k as int),
    {
        let mut k: usize = 0;
        while k < self.players.len() && self.players[k].id() < id
            invariant
                k <= self.players@.len(),
                game_wf(self@),
                forall|j: int| 0 <= j < k ==> (#[trigger] self@.players[j]).id < id,
            decreases self.players@.len() - k,
        {
            k = k + 1;
        }
        proof {
            assert forall|j: int| k <= j < self@.players.len() implies (#[trigger] self@.players[j]).id > id by {
                assert(self@.players[j].id != id);
                if j > k {
                    assert(self@.players[k as int].id < self@.players[j].id);
                }
            }
        }
        k
    }

    /// Lets a player join a team at the team's next spawn position. Refused, with nothing
    /// changed, when the team does not exist, when it has no free place, or when a player
    /// with that id is already in the game; otherwise returns how many places the team has
    /// left.
    pub fn add_player(&mut self, player_id: u16, team_name: String) -> (r: Result<u16, ZappyError>)
        requires
            game_wf(old(self)@),
        ensures
            game_wf(final(self)@),
            !has_team(old(self)@.teams, team_name@) ==> (r matches Err(ZappyError::Player(PlayerError::TeamDoesntExist(n)))
                && n@ == team_name@ && final(self)@ == old(self)@),
            has_team(old(self)@.teams, team_name@) ==> ({
                let t = old(self)@.teams[team_idx(old(self)@.teams, team_name@)];
                if t.spawn_positions.len() == 0 {
                    r matches Err(ZappyError::Player(PlayerError::NoPlaceAvailable(i, n))) && i == player_id
                        && n@ == team_name@ && final(self)@ == old(self)@
                } else if has_player(old(self)@.players, player_id) {
                    r matches Err(ZappyError::Network(NetworkError::AlreadyConnected(i))) && i == player_id
                        && final(self)@ == old(self)@
                } else {
                    r == Ok::<u16, ZappyError>(((t.spawn_positions.len() - 1) as nat) as u16)
                        && final(self)@ == joined(old(self)@, player_id, team_name@)
                }
            }),
    {
        let ti = match self.team_index(team_name.as_str()) {
            None => {
                return Err(ZappyError::Player(PlayerError::TeamDoesntExist(team_name)));
            },
            Some(ti) => ti,
        };
        let ghost g0 = self@;
        proof {
            assert(g0.teams[ti as int].members.no_duplicates());
            assert(g0.teams[ti as int].name == team_name@);
        }
        if self.teams[ti].spawn_count() == 0 {
            let r = self.teams[ti].add_member(player_id);
            proof {
                assert(self@.teams =~= g0.teams);
            }
            return match r {
                Ok(_) => Ok(0),
                Err(e) => Err(e),
            };
        }
        if self.player_index(player_id).is_some() {
            return Err(ZappyError::Network(NetworkError::AlreadyConnected(player_id)));
        }
        let k = self.insertion_point(player_id);
        proof {
            lemma_joined_wf(g0, player_id, team_name@);
            lemma_split_unique(g0.players, player_id, k as int, insert_index(g0.players, player_id));
            let t = g0.teams[ti as int];
            lemma_count_first(t.spawn_positions);
            assert(crate::map::in_bounds(g0.map, t.spawn_positions[0]));
            assert(crate::cell::hatched_of(g0.map.field[t.spawn_positions[0].y as int][t.spawn_positions[0].x as int], t.name)
                >= crate::model::spawn_count(t, t.spawn_positions[0].x as int, t.spawn_positions[0].y as int));
        }
        let pos = match self.teams[ti].add_member(player_id) {
            Ok(p) => p,
            Err(e) => {
                return Err(e);
            },
        };
        self.map.add_player(player_id, team_name.as_str(), &pos);
        let player = Player::new(player_id, team_name, pos);
        self.players.insert(k, player);
        let remaining = self.teams[ti].remaining_members();
        proof {
            let g1 = joined(g0, player_id, team_name@);
            assert(self@.players =~= g1.players);
            assert(self@.teams =~= g1.teams);
            assert(self@ == g1);
        }
        Ok(remaining)
    }

    /// Takes a player out of the game: off the player list, its cell and its team. An unknown
    /// id changes nothing.
    pub fn remove_player(&mut self, player_id: u16)
        requires
            game_wf(old(self)@),
        ensures
            final(self)@ == removed(old(self)@, player_id),
            game_wf(final(self)@),
    {
        proof {
            lemma_removed_wf(self@, player_id);
        }
        if let Some(i) = self.player_index(player_id) {
            let ghost g0 = self@;
            let pos = self.players[i].position();
            let ti = self.team_index(self.players[i].team().as_str()).unwrap();
            proof {
                assert(player_wf(g0, g0.players[i as int]));
            }
            let _player = self.players.remove(i);
            self.map.remove_player(player_id, &pos);
            proof {
                assert(self@.teams[ti as int].members.no_duplicates());
            }
            self.teams[ti].remove_member(player_id);
            proof {
                assert(self@.players =~= removed(g0, player_id).players);
                assert(self@.teams =~= removed(g0, player_id).teams);
                assert(self@ == removed(g0, player_id));
            }
        }
    }

    /// Queues a command of a connected player; a full queue refuses it with
    /// `ActionQueueIsFull`, an unknown player is an error.
    pub fn take_command(&mut self, player_id: &u16, cmd: PlayerCmd) -> (r: Result<Option<ServerResponse>, ZappyError>)
        requires
            game_wf(old(self)@),
        ensures
            game_wf(final(self)@),
            !has_player(old(self)@.players, *player_id) ==> (r matches Err(ZappyError::Network(NetworkError::IsNotConnectedToServer(i)))
                && i == *player_id && final(self)@ == old(self)@),
            has_player(old(self)@.players, *player_id) ==> ({
                let i = player_idx(old(self)@.players, *player_id);
                let p = old(self)@.players[i];
                if p.commands.len() >= MAX_COMMANDS {
                    r matches Ok(Some(ServerResponse::ActionQueueIsFull)) && final(self)@ == old(self)@
                } else {
                    r matches Ok(None) && final(self)@ == set_player(old(self)@, i, PlayerView { commands: p.commands.push(cmd@), ..p })
                }
            }),
    {
        match self.player_index(*player_id) {
            None => Err(ZappyError::Network(NetworkError::IsNotConnectedToServer(*player_id))),
            Some(i) => {
                if self.players[i].commands_len() >= MAX_COMMANDS {
                    Ok(Some(ServerResponse::ActionQueueIsFull))
                } else {
                    let ghost g0 = self@;
                    self.players[i].push_command_to_queue(cmd);
                    proof {
                        let p = g0.players[i as int];
                        let np = PlayerView { commands: p.commands.push(cmd@), ..p };
                        assert(self@.players =~= g0.players.update(i as int, np));
                        assert(self@ == set_player(g0, i as int, np));
                        lemma_set_player_wf(g0, i as int, np);
                    }
                    Ok(None)
                }
            },
        }
    }

    /// Ages every player by one frame at frame `cf`: answers `Mort` to those without life,
    /// and takes the next command off the queue of each living player whose turn has come.
    /// Returns the ids of the dead and the due commands, both in id order.
    fn age_players(&mut self, cf: u64, results: &mut Vec<(u16, ServerResponse)>) -> (r: (Vec<u16>, Vec<(u16, PlayerCmd)>))
        requires
            cf + 42 <= u64::MAX,
        ensures
            final(self)@ == (GameView { players: aged_all(old(self)@.players, cf), ..old(self)@ }),
            r.0@ == dead_ids(old(self)@.players),
            due_view(r.1@) == due_commands(old(self)@.players, cf),
            responses_view(final(results)@) == responses_view(old(results)@) + mort_answers(dead_ids(old(self)@.players)),
            old(results)@.is_prefix_of(final(results)@),
    {
        let ghost g0 = self@;
        let ghost r0 = results@;
        let mut dead: Vec<u16> = Vec::new();
        let mut due: Vec<(u16, PlayerCmd)> = Vec::new();
        let mut i: usize = 0;
        proof {
            assert(g0.players.take(0) =~= Seq::<PlayerView>::empty());
            assert(dead@ =~= dead_ids(g0.players.take(0)));
            assert(due_view(due@) =~= due_commands(g0.players.take(0), cf));
            assert(responses_view(results@) =~= responses_view(r0) + mort_answers(dead_ids(g0.players.take(0))));
        }
        while i < self.players.len()
            invariant
                i <= self.players@.len(),
                self.players@.len() == g0.players.len(),
                self@ == (GameView { players: self@.players, ..g0 }),
                forall|j: int| 0 <= j < i ==> #[trigger] self@.players[j] == aged(g0.players[j], cf),
                forall|j: int| i <= j < g0.players.len() ==> #[trigger] self@.players[j] == g0.players[j],
                dead@ == dead_ids(g0.players.take(i as int)),
                due_view(due@) == due_commands(g0.players.take(i as int), cf),
                responses_view(results@) == responses_view(r0) + mort_answers(dead_ids(g0.players.take(i as int))),
                r0.is_prefix_of(results@),
                cf + 42 <= u64::MAX,
            decreases g0.players.len() - i,
        {
            let ghost p = g0.players[i as int];
            let ghost before = self.players@;
            let ghost due0 = due@;
            let ghost res0 = results@;
            let id = self.players[i].id();
            assert(self@.players[i as int] == p);
            assert(self.players@[i as int]@ == p);
            if self.players[i].remaining_life() == 0 {
                results.push((id, ServerResponse::Mort));
                dead.push(id);
                proof {
                    lemma_responses_view_push(res0, (id, ServerResponse::Mort));
                }
            } else {
                self.players[i].decrease_life();
                let ghost p1 = PlayerView { remaining_life: (p.remaining_life - 1) as u64, ..p };
                assert(self.players@[i as int]@ == p1);
                if self.players[i].commands_len() > 0 && cf >= self.players[i].next_frame() {
                    match self.players[i].pop_command_from_queue() {
                        Some(cmd) => {
                            let d = cmd.delay();
                            self.players[i].set_next_frame(cf + d);
                            due.push((id, cmd));
                            proof {
                                assert(cmd@ == p.commands[0]);
                                assert(self.players@[i as int]@ == aged(p, cf));
                                assert(due_view(due@) =~= due_view(due0).push((id, cmd@)));
                            }
                        },
                        None => {},
                    }
                } else {
                    assert(self.players@[i as int]@ == aged(p, cf));
                }
            }
            proof {
                let ps = g0.players;
                assert(ps.take(i + 1) =~= ps.take(i as int).push(p));
                lemma_dead_ids_push(ps.take(i as int), p);
                lemma_due_push(ps.take(i as int), p, cf);
                lemma_mort_push(dead_ids(ps.take(i as int)), p.id);
                assert(self@.players[i as int] == aged(p, cf));
                assert forall|j: int| 0 <= j < self.players@.len() && j != i implies #[trigger] self.players@[j] == before[j] by {}
                assert(self@.players =~= players_view(before).update(i as int, aged(p, cf)));
                assert(self@ == (GameView { players: self@.players, ..g0 }));
                assert(responses_view(results@) =~= responses_view(r0) + mort_answers(dead_ids(ps.take(i + 1))));
                assert(results@.subrange(0, r0.len() as int) =~= res0.subrange(0, r0.len() as int));
            }
            i = i + 1;
        }
        proof {
            assert(g0.players.take(i as int) =~= g0.players);
            assert(self@.players =~= aged_all(g0.players, cf));
        }
        (dead, due)
    }

    /// Takes the players listed out of the game, in order.
    fn remove_all(&mut self, ids: &Vec<u16>)
        requires
            game_wf(old(self)@),
        ensures
            final(self)@ == removed_all(old(self)@, ids@),
            game_wf(final(self)@),
            final(self)@.frame == old(self)@.frame,
    {
        let ghost g0 = self@;
        let mut k: usize = 0;
        proof {
            assert(ids@.take(0) =~= Seq::<u16>::empty());
        }
        while k < ids.len()
            invariant
                k <= ids@.len(),
                game_wf(self@),
                self@ == removed_all(g0, ids@.take(k as int)),
                self@.frame == g0.frame,
            decreases ids@.len() - k,
        {
            self.remove_player(ids[k]);
            proof {
                assert(ids@.take(k + 1).drop_last() =~= ids@.take(k as int));
            }
            k = k + 1;
        }
        proof {
            assert(ids@.take(k as int) =~= ids@);
        }
    }

    /// Carries out the due commands in order; a player in an incantation is answered
    /// `IncantationInProgress` instead.
    fn run_commands(&mut self, due: &Vec<(u16, PlayerCmd)>, results: &mut Vec<(u16, ServerResponse)>)
        requires
            game_wf(old(self)@),
            room(old(self)@, due@.len() as nat),
            old(self)@.frame + 600 <= u64::MAX,
            forall|k: int| 0 <= k < due@.len() ==> has_player(old(self)@.players, #[trigger] due@[k].0),
        ensures
            final(self)@ == run_cmds(old(self)@, due_view(due@)).0,
            responses_view(final(results)@) == responses_view(old(results)@) + run_cmds(old(self)@, due_view(due@)).1,
            game_wf(final(self)@),
            final(self)@.frame == old(self)@.frame,
            old(results)@.is_prefix_of(final(results)@),
    {
        let ghost g0 = self@;
        let ghost r0 = results@;
        let ghost tv = due_view(due@);
        let mut k: usize = 0;
        proof {
            assert(tv.take(0) =~= Seq::<(u16, PlayerCmdView)>::empty());
            assert(responses_view(results@) =~= responses_view(r0) + run_cmds(g0, tv.take(0)).1);
        }
        while k < due.len()
            invariant
                k <= due@.len(),
                tv == due_view(due@),
                game_wf(self@),
                self@ == run_cmds(g0, tv.take(k as int)).0,
                responses_view(results@) == responses_view(r0) + run_cmds(g0, tv.take(k as int)).1,
                room(self@, (due@.len() - k) as nat),
                self@.frame == g0.frame,
                r0.is_prefix_of(results@),
                g0.frame + 600 <= u64::MAX,
                forall|m: int| k <= m < due@.len() ==> has_player(self@.players, #[trigger] due@[m].0),
            decreases due@.len() - k,
        {
            let ghost gk = self@;
            let ghost res0 = results@;
            let ghost n: nat = (due@.len() - k - 1) as nat;
            let id = due[k].0;
            assert(has_player(gk.players, due@[k as int].0));
            let i = self.player_index(id).unwrap();
            proof {
                assert(tv.take(k + 1).drop_last() =~= tv.take(k as int));
                assert(tv.take(k + 1).last() == tv[k as int]);
                assert(tv[k as int] == (id, due@[k as int].1@));
            }
            if self.players[i].is_performing_incantation() {
                results.push((id, ServerResponse::IncantationInProgress));
                proof {
                    lemma_responses_view_push(res0, (id, ServerResponse::IncantationInProgress));
                    lemma_room_less(gk, n + 1, n);
                    assert(responses_view(results@) =~= responses_view(r0) + run_cmds(g0, tv.take(k + 1)).1);
                    assert(results@.subrange(0, r0.len() as int) =~= res0.subrange(0, r0.len() as int));
                }
            } else {
                proof {
                    lemma_room_fits(gk, n);
                    lemma_apply_cmd_room(gk, id, due@[k as int].1@, n);
                    assert(player_wf(gk, gk.players[i as int]));
                }
                let mut out = self.apply_cmd(i, &due[k].1);
                let ghost out0 = out@;
                results.append(&mut out);
                proof {
                    assert(responses_view(results@) =~= responses_view(res0) + responses_view(out0));
                    assert(responses_view(results@) =~= responses_view(r0) + run_cmds(g0, tv.take(k + 1)).1);
                    assert(results@.subrange(0, r0.len() as int) =~= res0.subrange(0, r0.len() as int));
                    assert forall|m: int| k + 1 <= m < due@.len() implies has_player(self@.players, #[trigger] due@[m].0) by {
                        assert(has_player(gk.players, due@[m].0));
                        let w = choose|w: int| 0 <= w < gk.players.len() && gk.players[w].id == due@[m].0;
                        assert(self@.players[w].id == gk.players[w].id);
                    }
                }
            }
            k = k + 1;
        }
        proof {
            assert(tv.take(k as int) =~= tv);
        }
    }

    /// Hatches the eggs due at the current frame and takes them off the schedule.
    fn hatch_eggs(&mut self)
        requires
            game_wf(old(self)@),
        ensures
            final(self)@ == hatched_at(old(self)@, old(self)@.frame),
            game_wf(final(self)@),
            final(self)@.frame == old(self)@.frame,
    {
        let cf = self.frame;
        let ghost g0 = self@;
        let mut j: usize = 0;
        while j < self.eggs.len() && self.eggs[j].0 != cf
            invariant
                j <= self.eggs@.len(),
                self@ == g0,
                forall|a: int| 0 <= a < j ==> (#[trigger] self.eggs@[a]).0 != cf,
            decreases self.eggs@.len() - j,
        {
            j = j + 1;
        }
        if j == self.eggs.len() {
            proof {
                assert(!has_key(g0.eggs, cf)) by {
                    if has_key(g0.eggs, cf) {
                        let a = choose|a: int| 0 <= a < g0.eggs.len() && g0.eggs[a].0 == cf;
                        assert(self.eggs@[a].0 == g0.eggs[a].0);
                    }
                }
            }
            return;
        }
        proof {
            assert(g0.eggs[j as int].0 == cf);
            lemma_key_idx_unique(g0.eggs, j as int);
            lemma_unschedule_pending(g0, j as int);
        }
        let (_, list) = self.eggs.remove(j);
        let ghost gu = self@;
        let ghost lv = egg_list_view(list@);
        proof {
            assert(gu.eggs =~= g0.eggs.remove(j as int));
            assert(gu == GameView { eggs: g0.eggs.remove(j as int), ..g0 });
            assert(g0.eggs[j as int].1 == lv);
            assert(lv.skip(0) =~= lv);
            assert(lv.take(0) =~= Seq::<EggView>::empty());
        }
        let mut k: usize = 0;
        while k < list.len()
            invariant
                k <= list@.len(),
                lv == egg_list_view(list@),
                game_wf(with_pending(self@, cf, lv.skip(k as int))),
                self@ == hatch_all(gu, lv.take(k as int)),
                self.frame == cf,
            decreases list@.len() - k,
        {
            let ghost gk = self@;
            let ghost e = lv[k as int];
            proof {
                assert(lv.skip(k as int) =~= seq![e] + lv.skip(k + 1));
                lemma_hatch_one_wf(gk, cf, e, lv.skip(k + 1));
                assert(lv.take(k + 1).drop_last() =~= lv.take(k as int));
                assert(lv.take(k + 1).last() == e);
            }
            let x = list[k].position.x;
            let y = list[k].position.y;
            let team = list[k].team_name.as_str();
            if self.map.cell(x, y).egg_index(team).is_some() {
                if let Some(ti) = self.team_index(team) {
                    self.map.adjust_eggs_at(x, y, team, -1, 1);
                    self.teams[ti].add_next_spawn_position(list[k].position);
                    proof {
                        let t = gk.teams[ti as int];
                        assert(self@.teams =~= gk.teams.update(
                            ti as int,
                            TeamView { spawn_positions: t.spawn_positions.push(e.position), ..t },
                        ));
                        assert(self@ == hatch_one(gk, e));
                    }
                }
            }
            k = k + 1;
        }
        proof {
            assert(lv.skip(k as int) =~= Seq::<EggView>::empty());
            lemma_pending_done(self@, cf);
            assert(lv.take(k as int) =~= lv);
        }
    }

    /// Ends the incantations due at the current frame and takes them off the schedule; each
    /// player still in the game whose incantation can end rises a level and hears its new level.
    fn stop_incantations(&mut self, results: &mut Vec<(u16, ServerResponse)>)
        requires
            game_wf(old(self)@),
        ensures
            final(self)@ == stopped_at(old(self)@, old(self)@.frame).0,
            responses_view(final(results)@) == responses_view(old(results)@) + stopped_at(old(self)@, old(self)@.frame).1,
            game_wf(final(self)@),
            final(self)@.frame == old(self)@.frame,
            old(results)@.is_prefix_of(final(results)@),
    {
        let cf = self.frame;
        let ghost g0 = self@;
        let ghost r0 = results@;
        let mut j: usize = 0;
        while j < self.incantation.len() && self.incantation[j].0 != cf
            invariant
                j <= self.incantation@.len(),
                self@ == g0,
                forall|a: int| 0 <= a < j ==> (#[trigger] self.incantation@[a]).0 != cf,
            decreases self.incantation@.len() - j,
        {
            j = j + 1;
        }
        if j == self.incantation.len() {
            proof {
                assert(!has_key(g0.incantation, cf)) by {
                    if has_key(g0.incantation, cf) {
                        let a = choose|a: int| 0 <= a < g0.incantation.len() && g0.incantation[a].0 == cf;
                        assert(self.incantation@[a].0 == g0.incantation[a].0);
                    }
                }
                assert(responses_view(results@) =~= responses_view(r0) + Seq::<(u16, ResponseView)>::empty());
            }
            return;
        }
        proof {
            assert(g0.incantation[j as int].0 == cf);
            lemma_key_idx_unique(g0.incantation, j as int);
            lemma_remove_keys(g0.incantation, j as int);
            lemma_schedule_changed_wf(g0, g0.incantation.remove(j as int));
        }
        let (_, ids) = self.incantation.remove(j);
        let ghost gu = self@;
        proof {
            assert(gu.incantation =~= g0.incantation.remove(j as int));
            assert(g0.incantation[j as int].1 == ids@);
            assert(ids@.take(0) =~= Seq::<u16>::empty());
            assert(responses_view(results@) =~= responses_view(r0) + stop_all(gu, ids@.take(0)).1);
        }
        let mut k: usize = 0;
        while k < ids.len()
            invariant
                k <= ids@.len(),
                game_wf(self@),
                self@ == stop_all(gu, ids@.take(k as int)).0,
                responses_view(results@) == responses_view(r0) + stop_all(gu, ids@.take(k as int)).1,
                r0.is_prefix_of(results@),
                self.frame == cf,
                gu.frame == cf,
            decreases ids@.len() - k,
        {
            let ghost gk = self@;
            let ghost res0 = results@;
            let id = ids[k];
            proof {
                lemma_stop_one_wf(gk, id);
                assert(ids@.take(k + 1).drop_last() =~= ids@.take(k as int));
                assert(ids@.take(k + 1).last() == id);
            }
            match self.player_index(id) {
                Some(i) => {
                    match self.players[i].stop_incantation() {
                        Ok(l) => {
                            results.push((id, ServerResponse::CurrentLevel(l)));
                            proof {
                                lemma_responses_view_push(res0, (id, ServerResponse::CurrentLevel(l)));
                                assert(self@.players =~= stop_one(gk, id).0.players);
                                assert(responses_view(results@) =~= responses_view(r0) + stop_all(gu, ids@.take(k + 1)).1);
                                assert(results@.subrange(0, r0.len() as int) =~= res0.subrange(0, r0.len() as int));
                            }
                        },
                        Err(_) => {
                            proof {
                                assert(self@.players =~= gk.players);
                                assert(responses_view(results@) =~= responses_view(r0) + stop_all(gu, ids@.take(k + 1)).1);
                            }
                        },
                    }
                },
                None => {
                    proof {
                        assert(responses_view(results@) =~= responses_view(r0) + stop_all(gu, ids@.take(k + 1)).1);
                    }
                },
            }
            k = k + 1;
        }
        proof {
            assert(ids@.take(k as int) =~= ids@);
        }
    }

    /// Plays one frame: the frame number goes up by one, the players age (those without life
    /// are answered `Mort` and leave the game), the due commands run, the due eggs hatch and
    /// the due incantations end. The answers are appended to `execution_results` in that order.
    #[verifier::spinoff_prover]
    #[verifier::rlimit(40)]
    pub fn tick(&mut self, execution_results: &mut Vec<(u16, ServerResponse)>)
        requires
            game_wf(old(self)@),
            room(old(self)@, old(self)@.players.len()),
            old(self)@.frame + 601 <= u64::MAX,
        ensures
            final(self)@ == crate::model::tick(old(self)@).0,
            responses_view(final(execution_results)@) == responses_view(old(execution_results)@)
                + crate::model::tick(old(self)@).1,
            final(self)@.frame == old(self)@.frame + 1,
            old(execution_results)@.is_prefix_of(final(execution_results)@),
            game_wf(final(self)@),
    {
        let ghost g0 = self@;
        let ghost r0 = execution_results@;
        self.frame = self.frame + 1;
        let cf = self.frame;
        let (dead, due) = self.age_players(cf, execution_results);
        let ghost g1 = self@;
        let ghost r1 = execution_results@;
        proof {
            let n = g0.players.len();
            assert(g1 == GameView { players: aged_all(g0.players, cf), frame: cf, ..g0 });
            lemma_aged_wf(g0, cf, n);
        }
        self.remove_all(&dead);
        let ghost g2 = self@;
        proof {
            let n = g0.players.len();
            lemma_removed_all(g1, dead@, n);
            g0.players.lemma_filter_len(is_ready(cf));
            assert(due@.len() == due_view(due@).len());
            lemma_room_less(g2, n, due@.len());
            assert forall|k: int| 0 <= k < due@.len() implies has_player(g2.players, #[trigger] due@[k].0) by {
                assert(due_view(due@)[k].0 == due@[k].0);
                lemma_due_survive(g0, cf, k);
                let w = choose|w: int| 0 <= w < g0.players.len() && #[trigger] g0.players[w].id == due@[k].0;
                assert(g1.players[w].id == due@[k].0);
                assert(has_player(g1.players, due@[k].0));
            }
        }
        self.run_commands(&due, execution_results);
        let ghost r3 = execution_results@;
        self.hatch_eggs();
        self.stop_incantations(execution_results);
        proof {
            let (g5, r) = crate::model::tick(g0);
            assert(responses_view(execution_results@) =~= responses_view(r0) + r);
        }
    }

    /// A new game at frame 0 on `map`, with one team per distinct name, in the order of the
    /// names. Each position listed in `spawns[i]` gets a hatched egg of the team named
    /// `names[i]`, which spawns its members there in that order; a name given twice keeps the
    /// positions of its last occurrence, while the eggs of both stay on the map.
    pub fn from_layout(map: WorldMap, names: &Vec<String>, spawns: &Vec<Vec<Position>>) -> (g: GameEngine)
        requires
            map_wf(map@),
            forall|x: int, y: int| 0 <= x < map@.width && 0 <= y < map@.height
                ==> (#[trigger] map@.field[y][x]).players.len() == 0 && map@.field[y][x].eggs.len() == 0,
            spawns@.len() == names@.len(),
            forall|i: int, k: int| 0 <= i < spawns@.len() && 0 <= k < spawns@[i]@.len()
                ==> in_bounds(map@, #[trigger] spawns@[i]@[k]),
            total_len(spawns_view(spawns@)) < usize::MAX,
        ensures
            fresh_game(g@, map@, names_view(names@), spawns_view(spawns@)),
            game_wf(g@),
    {
        let ghost m0 = map@;
        let ghost nv = names_view(names@);
        let ghost sv = spawns_view(spawns@);
        let mut g = GameEngine {
            teams: Vec::new(),
            players: Vec::new(),
            eggs: Vec::new(),
            incantation: Vec::new(),
            map,
            frame: 0,
        };
        proof {
            let g0 = g@;
            assert(g0.players =~= Seq::<PlayerView>::empty());
            assert(g0.teams =~= Seq::<TeamView>::empty());
            assert forall|a: int, b: int, id2: u16|
                0 <= a < g0.map.width && 0 <= b < g0.map.height && #[trigger] g0.map.field[b][a].players.contains(id2)
                implies exists|k: int| 0 <= k < g0.players.len() && #[trigger] g0.players[k].id == id2
                    && g0.players[k].position.x == a && g0.players[k].position.y == b by {
                assert(g0.map.field[b][a].players.len() == 0);
            }
            assert forall|tn: Seq<char>, x2: int, y2: int| 0 <= x2 < g0.map.width && 0 <= y2 < g0.map.height
                implies #[trigger] crate::cell::unhatched_of(g0.map.field[y2][x2], tn) >= crate::model::pending_eggs(g0.eggs, tn, x2, y2) by {
                assert(g0.eggs.len() == 0);
            }
            assert(game_wf(g0));
            assert(nv.take(0) =~= Seq::<Seq<char>>::empty());
            assert(sv.take(0) =~= Seq::<Seq<Position>>::empty());
            lemma_total_len_prefix(sv, 0);
        }
        let mut i: usize = 0;
        while i < names.len()
            invariant
                i <= names@.len(),
                spawns@.len() == names@.len(),
                nv == names_view(names@),
                sv == spawns_view(spawns@),
                total_len(sv) < usize::MAX,
                forall|a: int, k: int| 0 <= a < spawns@.len() && 0 <= k < spawns@[a]@.len()
                    ==> in_bounds(m0, #[trigger] spawns@[a]@[k]),
                game_wf(g@),
                g@.players.len() == 0,
                g@.eggs.len() == 0,
                g@.incantation.len() == 0,
                g@.frame == 0,
                g@.map == laid_out(m0, nv.take(i as int), sv),
                g@.map.width == m0.width,
                g@.map.height == m0.height,
                teams_laid_out(g@.teams, nv.take(i as int), sv),
                forall|x: int, y: int, k: int| 0 <= x < m0.width && 0 <= y < m0.height && 0 <= k < g@.map.field[y][x].eggs.len()
                    ==> (#[trigger] g@.map.field[y][x].eggs[k]).unhatched + g@.map.field[y][x].eggs[k].hatched <= total_len(sv.take(i as int)),
            decreases names@.len() - i,
        {
            let name = &names[i];
            let ps = &spawns[i];
            let ghost gi = g@;
            let ghost done = total_len(sv.take(i as int));
            proof {
                assert(sv.take(i + 1).drop_last() =~= sv.take(i as int));
                assert(sv.take(i + 1).last() == ps@);
                lemma_total_len_prefix(sv, i + 1);
                assert(ps@.take(0) =~= Seq::<Position>::empty());
            }
            let mut dq: VecDeque<Position> = VecDeque::new();
            let mut j: usize = 0;
            while j < ps.len()
                invariant
                    j <= ps@.len(),
                    ps@ == sv[i as int],
                    name@ == nv[i as int],
                    done + ps@.len() <= total_len(sv),
                    total_len(sv) < usize::MAX,
                    forall|k: int| 0 <= k < ps@.len() ==> in_bounds(m0, #[trigger] ps@[k]),
                    gi.map.width == m0.width,
                    gi.map.height == m0.height,
                    game_wf(g@),
                    g@ == (GameView { map: g@.map, ..gi }),
                    g@.map == hatch_spots(gi.map, name@, ps@.take(j as int)),
                    g@.map.width == m0.width,
                    g@.map.height == m0.height,
                    dq@ == ps@.take(j as int),
                    forall|x: int, y: int| 0 <= x < m0.width && 0 <= y < m0.height ==>
                        #[trigger] hatched_of(g@.map.field[y][x], name@) == hatched_of(gi.map.field[y][x], name@) + count_at(ps@.take(j as int), x, y),
                    forall|x: int, y: int, k: int| 0 <= x < m0.width && 0 <= y < m0.height && 0 <= k < g@.map.field[y][x].eggs.len()
                        ==> (#[trigger] g@.map.field[y][x].eggs[k]).unhatched + g@.map.field[y][x].eggs[k].hatched <= done + j,
                decreases ps@.len() - j,
            {
                let p = ps[j];
                let ghost gj = g@;
                proof {
                    assert(in_bounds(m0, ps@[j as int]));
                    lemma_add_hatched_wf(gj, name@, p.x as int, p.y as int, (done + j) as nat);
                    lemma_eggs_adjusted(gj.map.field[p.y as int][p.x as int], name@, 0, 1);
                    assert(ps@.take(j + 1).drop_last() =~= ps@.take(j as int));
                    assert(ps@.take(j + 1).last() == p);
                }
                g.map.adjust_eggs_at(p.x, p.y, name.as_str(), 0, 1);
                dq.push_back(p);
                proof {
                    let c = gj.map.field[p.y as int][p.x as int];
                    let c2 = CellView { eggs: crate::cell::eggs_adjusted(c.eggs, name@, 0, 1), ..c };
                    lemma_set_cell_wf(gj.map, p.x as int, p.y as int, c2);
                    assert(g@ == with_map(gj, set_cell(gj.map, p.x as int, p.y as int, c2)));
                    assert forall|x: int, y: int| 0 <= x < m0.width && 0 <= y < m0.height implies
                        #[trigger] hatched_of(g@.map.field[y][x], name@) == hatched_of(gi.map.field[y][x], name@) + count_at(ps@.take(j + 1), x, y) by {
                        crate::seasons::lemma_count_push(ps@.take(j as int), p, x, y);
                        assert(hatched_of(gj.map.field[y][x], name@) == hatched_of(gi.map.field[y][x], name@) + count_at(ps@.take(j as int), x, y));
                    }
                    assert(dq@ =~= ps@.take(j + 1));
                }
                j = j + 1;
            }
            proof {
                assert(ps@.take(j as int) =~= ps@);
            }
            let mut k: usize = 0;
            while k < g.teams.len() && text_less_than(g.teams[k].name().as_str(), name.as_str())
                invariant
                    k <= g.teams@.len(),
                    forall|a: int| 0 <= a < k ==> text_less(#[trigger] g@.teams[a].name, name@),
                decreases g.teams@.len() - k,
            {
                k = k + 1;
            }
            let ghost gh = g@;
            let ghost ts0 = gh.teams;
            let ghost newt = TeamView { name: name@, members: Seq::empty(), spawn_positions: ps@ };
            let team = Team::new(name.clone(), dq);
            let replace = k < g.teams.len() && same_text(g.teams[k].name().as_str(), name.as_str());
            if replace {
                g.teams.set(k, team);
            } else {
                g.teams.insert(k, team);
            }
            proof {
                let ts1 = g@.teams;
                let nt = nv.take(i as int);
                let nt1 = nv.take(i + 1);
                assert(nt1.drop_last() =~= nt);
                assert(nt1.last() == name@);
                assert forall|n: Seq<char>| #[trigger] nt1.contains(n) <==> (nt.contains(n) || n == name@) by {
                    if nt1.contains(n) {
                        let w = choose|w: int| 0 <= w < nt1.len() && nt1[w] == n;
                        if w < i {
                            assert(nt[w] == n);
                        }
                    }
                    if nt.contains(n) {
                        let w = choose|w: int| 0 <= w < nt.len() && nt[w] == n;
                        assert(nt1[w] == n);
                    }
                    if n == name@ {
                        assert(nt1[i as int] == n);
                    }
                }
                // names of the old teams differ from each other and sit in order
                assert forall|a: int, b: int| 0 <= a < b < ts0.len() implies #[trigger] ts0[a].name != #[trigger] ts0[b].name by {
                    assert(text_less(ts0[a].name, ts0[b].name));
                    lemma_text_less_asymmetric(ts0[a].name, ts0[a].name);
                }
                if replace {
                    assert(ts0[k as int].name == name@);
                    assert(ts1 =~= ts0.update(k as int, newt));
                    assert forall|a: int| 0 <= a < ts0.len() && a != k implies #[trigger] ts0[a].name != name@ by {
                        if a < k {
                            assert(ts0[a].name != ts0[k as int].name);
                        } else {
                            assert(ts0[k as int].name != ts0[a].name);
                        }
                    }
                } else {
                    assert(ts1 =~= ts0.insert(k as int, newt));
                    if k < ts0.len() {
                        assert(!text_less(ts0[k as int].name, name@));
                        assert(ts0[k as int].name != name@);
                        lemma_text_less_total(ts0[k as int].name, name@);
                    }
                    assert forall|a: int| k <= a < ts0.len() implies text_less(name@, #[trigger] ts0[a].name) by {
                        if a > k {
                            assert(text_less(ts0[k as int].name, ts0[a].name));
                            lemma_text_less_transitive(name@, ts0[k as int].name, ts0[a].name);
                        }
                    }
                    assert forall|a: int| 0 <= a < ts0.len() implies #[trigger] ts0[a].name != name@ by {
                        if a < k {
                            lemma_text_less_asymmetric(ts0[a].name, ts0[a].name);
                        } else {
                            lemma_text_less_asymmetric(name@, name@);
                        }
                    }
                }
                // where each new team came from
                assert forall|a: int| 0 <= a < ts1.len() implies (#[trigger] ts1[a] == newt && a == k)
                    || (ts1[a].name != name@ && exists|b: int| 0 <= b < ts0.len() && ts0[b] == ts1[a]) by {
                    if replace {
                        if a != k {
                            assert(ts0[a] == ts1[a]);
                        }
                    } else {
                        if a < k {
                            assert(ts0[a] == ts1[a]);
                        } else if a > k {
                            assert(ts0[a - 1] == ts1[a]);
                        }
                    }
                }
                assert forall|a: int, b: int| 0 <= a < b < ts1.len() implies text_less(#[trigger] ts1[a].name, #[trigger] ts1[b].name) by {
                    if replace {
                    } else {
                        if b < k {
                        } else if a < k && b == k {
                        } else if a < k && b > k {
                            assert(ts1[b] == ts0[b - 1]);
                        } else if a == k {
                            assert(ts1[b] == ts0[b - 1]);
                        } else {
                            assert(ts1[a] == ts0[a - 1]);
                            assert(ts1[b] == ts0[b - 1]);
                        }
                    }
                }
                assert forall|a: int, b: int| 0 <= a < ts1.len() && 0 <= b < ts1.len() && a != b
                    implies (#[trigger] ts1[a]).name != (#[trigger] ts1[b]).name by {
                    if a < b {
                        assert(text_less(ts1[a].name, ts1[b].name));
                        lemma_text_less_asymmetric(ts1[a].name, ts1[a].name);
                    } else {
                        assert(text_less(ts1[b].name, ts1[a].name));
                        lemma_text_less_asymmetric(ts1[b].name, ts1[b].name);
                    }
                }
                assert forall|n: Seq<char>| #[trigger] has_team(ts1, n) <==> nt1.contains(n) by {
                    if has_team(ts1, n) {
                        let a = choose|a: int| 0 <= a < ts1.len() && ts1[a].name == n;
                        if n != name@ {
                            let b = choose|b: int| 0 <= b < ts0.len() && ts0[b] == ts1[a];
                            assert(has_team(ts0, n));
                        }
                    }
                    if nt1.contains(n) {
                        if n == name@ {
                            assert(ts1[k as int] == newt);
                        } else {
                            assert(has_team(ts0, n));
                            let b = choose|b: int| 0 <= b < ts0.len() && ts0[b].name == n;
                            if replace {
                                assert(ts1[b] == ts0[b]);
                            } else if b < k {
                                assert(ts1[b] == ts0[b]);
                            } else {
                                assert(ts1[b + 1] == ts0[b]);
                            }
                        }
                    }
                }
                assert forall|a: int| 0 <= a < ts1.len() implies (#[trigger] ts1[a]).members == Seq::<u16>::empty()
                    && ts1[a].spawn_positions == spawns_for(nt1, sv, ts1[a].name) by {
                    assert(nt1.len() - 1 == i);
                    if ts1[a] != newt || a != k {
                        let b = choose|b: int| 0 <= b < ts0.len() && ts0[b] == ts1[a];
                        assert(ts0[b].members == Seq::<u16>::empty() && ts0[b].spawn_positions == spawns_for(nt, sv, ts0[b].name));
                    }
                }
                assert forall|a: int, q: int| 0 <= a < ts1.len() && 0 <= q < ts1[a].spawn_positions.len()
                    implies in_bounds(gh.map, #[trigger] ts1[a].spawn_positions[q]) by {
                    if ts1[a] == newt && a == k {
                        assert(in_bounds(m0, ps@[q]));
                    } else {
                        let b = choose|b: int| 0 <= b < ts0.len() && ts0[b] == ts1[a];
                        assert(in_bounds(gh.map, ts0[b].spawn_positions[q]));
                    }
                }
                assert forall|a: int, x: int, y: int| 0 <= a < ts1.len() && 0 <= x < gh.map.width && 0 <= y < gh.map.height
                    implies hatched_of(#[trigger] gh.map.field[y][x], (#[trigger] ts1[a]).name) >= spawn_count(ts1[a], x, y) by {
                    if ts1[a] == newt && a == k {
                        assert(hatched_of(gh.map.field[y][x], name@) == hatched_of(gi.map.field[y][x], name@) + count_at(ps@, x, y));
                    } else {
                        let b = choose|b: int| 0 <= b < ts0.len() && ts0[b] == ts1[a];
                        assert(hatched_of(gh.map.field[y][x], ts0[b].name) >= spawn_count(ts0[b], x, y));
                    }
                }
                assert forall|a: int| 0 <= a < ts1.len() implies (#[trigger] ts1[a]).members.no_duplicates() by {
                    assert(ts1[a].members == Seq::<u16>::empty());
                }
                lemma_teams_set_wf(gh, ts1);
                assert(g@ == GameView { teams: ts1, ..gh });
                assert(laid_out(m0, nt1, sv) == hatch_spots(laid_out(m0, nt, sv), name@, sv[i as int]));
            }
            i = i + 1;
        }
        proof {
            assert(nv.take(i as int) =~= nv);
        }
        g
    }

    /// A new game for the settings: an empty map of the given size, resources drawn at
    /// random on it, and for each team name, one hatched egg at each of `clients` positions
    /// drawn at random (see `from_layout`).
    pub fn new(args: &ServerArgs) -> (g: GameEngine)
        requires
            1 <= args.width,
            1 <= args.height,
            args.height * args.width * 13 <= usize::MAX,
            args.names@.len() * args.clients < usize::MAX,
        ensures
            game_wf(g@),
            exists|m0: MapView, drops: Seq<(usize, usize, Resource)>, m: MapView, sv: Seq<Seq<Position>>| {
                &&& #[trigger] fresh_game(g@, m, names_view(args.names@), sv)
                &&& crate::map::empty_map(m0, args.width, args.height)
                &&& m == #[trigger] crate::map::placed(m0, drops)
                &&& drops.len() == args.height * args.width * 13 / 5
                &&& forall|i: int| 0 <= i < drops.len() ==> #[trigger] drops[i].0 < args.width && drops[i].1 < args.height
                &&& m.width == args.width
                &&& m.height == args.height
                &&& forall|x: int, y: int| 0 <= x < m.width && 0 <= y < m.height
                    ==> (#[trigger] m.field[y][x]).players.len() == 0 && m.field[y][x].eggs.len() == 0
                &&& sv.len() == args.names@.len()
                &&& forall|i: int| 0 <= i < sv.len() ==> (#[trigger] sv[i]).len() == args.clients
                &&& forall|i: int, k: int| 0 <= i < sv.len() && 0 <= k < sv[i].len() ==> in_bounds(m, #[trigger] sv[i][k])
            },
    {
        let mut map = WorldMap::empty(args.width, args.height);
        let ghost m0 = map@;
        map.generate_resources();
        let ghost m1 = map@;
        proof {
            let drops = choose|drops: Seq<(usize, usize, Resource)>| #[trigger] crate::map::placed(m0, drops) == m1
                && drops.len() == m0.height * m0.width * 13 / 5
                && forall|i: int| 0 <= i < drops.len() ==> #[trigger] drops[i].0 < m0.width
                    && drops[i].1 < m0.height;
            crate::map::lemma_placed_keeps(m0, drops);
        }
        let mut spawns: Vec<Vec<Position>> = Vec::new();
        let mut i: usize = 0;
        while i < args.names.len()
            invariant
                i <= args.names@.len(),
                map_wf(map@),
                map@ == m1,
                spawns@.len() == i,
                forall|a: int| 0 <= a < i ==> (#[trigger] spawns@[a])@.len() == args.clients,
                forall|a: int, k: int| 0 <= a < i && 0 <= k < spawns@[a]@.len() ==> in_bounds(m1, #[trigger] spawns@[a]@[k]),
            decreases args.names@.len() - i,
        {
            let mut ps: Vec<Position> = Vec::new();
            let mut j: u16 = 0;
            while j < args.clients
                invariant
                    j <= args.clients,
                    map_wf(map@),
                    map@ == m1,
                    ps@.len() == j,
                    forall|k: int| 0 <= k < ps@.len() ==> in_bounds(m1, #[trigger] ps@[k]),
                decreases args.clients - j,
            {
                let p = map.random_position();
                ps.push(p);
                j = j + 1;
            }
            spawns.push(ps);
            i = i + 1;
        }
        proof {
            let sv = spawns_view(spawns@);
            assert forall|a: int| 0 <= a < sv.len() implies (#[trigger] sv[a]).len() == args.clients as nat by {
                assert(sv[a] == spawns@[a]@);
            }
            lemma_total_len_uniform(sv, args.clients as nat);
        }
        let g = GameEngine::from_layout(map, &args.names, &spawns);
        proof {
            let sv = spawns_view(spawns@);
            assert forall|a: int, k: int| 0 <= a < sv.len() && 0 <= k < sv[a].len() implies in_bounds(m1, #[trigger] sv[a][k]) by {
                assert(sv[a] == spawns@[a]@);
            }
            assert forall|a: int| 0 <= a < sv.len() implies (#[trigger] sv[a]).len() == args.clients by {
                assert(sv[a] == spawns@[a]@);
            }
            assert(fresh_game(g@, m1, names_view(args.names@), sv));
            let drops = choose|drops: Seq<(usize, usize, Resource)>| #[trigger] crate::map::placed(m0, drops) == m1
                && drops.len() == m0.height * m0.width * 13 / 5
                && forall|i: int| 0 <= i < drops.len() ==> #[trigger] drops[i].0 < m0.width
                    && drops[i].1 < m0.height;
            assert(crate::map::empty_map(m0, args.width, args.height));
            assert(m1 == crate::map::placed(m0, drops));
        }
        g
    }

    /// Whether the game can play one more frame: every counter has room for as many more
    /// steps as there are players, and the frame number is far enough from the largest.
    pub fn can_tick(&self) -> (b: bool)
        requires
            game_wf(self@),
        ensures
            b == (room(self@, self@.players.len()) && self@.frame + 601 <= u64::MAX),
    {
        if self.frame > u64::MAX - 601 {
            return false;
        }
        let n = self.players.len();
        if n == usize::MAX {
            return false;
        }
        let ghost g = self@;
        let mut i: usize = 0;
        while i < n
            invariant
                n == g.players.len(),
                n < usize::MAX,
                g == self@,
                game_wf(g),
                i <= n,
                forall|a: int, k: int| 0 <= a < i && 0 <= k < STONE_KINDS ==> #[trigger] g.players[a].inventory[k] + n <= usize::MAX,
                forall|a: int| 0 <= a < i ==> (#[trigger] g.players[a]).remaining_life + n * crate::LIFE_TICKS <= u64::MAX,
            decreases n - i,
        {
            proof {
                assert(player_wf(g, g.players[i as int]));
            }
            let inv = self.players[i].inventory();
            let mut k: usize = 0;
            while k < 6
                invariant
                    k <= 6,
                    game_wf(g),
                    n == g.players.len(),
                    n < usize::MAX,
                    i < n,
                    g == self@,
                    inv@ == g.players[i as int].inventory,
                    inv@.len() == STONE_KINDS,
                    forall|k2: int| 0 <= k2 < k ==> #[trigger] g.players[i as int].inventory[k2] + n <= usize::MAX,
                decreases 6 - k,
            {
                if inv[k] > usize::MAX - n {
                    return false;
                }
                k = k + 1;
            }
            let life = self.players[i].remaining_life();
            if (life as u128) + (n as u128) * (crate::LIFE_TICKS as u128) > (u64::MAX as u128) {
                return false;
            }
            i = i + 1;
        }
        let w = self.map.width();
        let h = self.map.height();
        let mut y: usize = 0;
        while y < h
            invariant
                g == self@,
                map_wf(g.map),
                w == g.map.width,
                h == g.map.height,
                n == g.players.len(),
                n < usize::MAX,
                y <= h,
                forall|a: int, k: int| 0 <= a < n && 0 <= k < STONE_KINDS ==> #[trigger] g.players[a].inventory[k] + n <= usize::MAX,
                forall|a: int| 0 <= a < n ==> (#[trigger] g.players[a]).remaining_life + n * crate::LIFE_TICKS <= u64::MAX,
                forall|x2: int, y2: int, k: int| 0 <= x2 < w && 0 <= y2 < y && 0 <= k < STONE_KINDS
                    ==> #[trigger] g.map.field[y2][x2].stones[k] + n <= usize::MAX,
                forall|x2: int, y2: int| 0 <= x2 < w && 0 <= y2 < y ==> (#[trigger] g.map.field[y2][x2]).nourriture + n <= usize::MAX,
                forall|x2: int, y2: int, k: int| 0 <= x2 < w && 0 <= y2 < y && 0 <= k < g.map.field[y2][x2].eggs.len()
                    ==> (#[trigger] g.map.field[y2][x2].eggs[k]).unhatched + g.map.field[y2][x2].eggs[k].hatched + n <= usize::MAX,
            decreases h - y,
        {
            let mut x: usize = 0;
            while x < w
                invariant
                    g == self@,
                    map_wf(g.map),
                    w == g.map.width,
                    h == g.map.height,
                    n == g.players.len(),
                    n < usize::MAX,
                    y < h,
                    x <= w,
                    forall|x2: int, y2: int, k: int| 0 <= x2 < w && 0 <= y2 < y && 0 <= k < STONE_KINDS
                        ==> #[trigger] g.map.field[y2][x2].stones[k] + n <= usize::MAX,
                    forall|x2: int, y2: int| 0 <= x2 < w && 0 <= y2 < y ==> (#[trigger] g.map.field[y2][x2]).nourriture + n <= usize::MAX,
                    forall|x2: int, y2: int, k: int| 0 <= x2 < w && 0 <= y2 < y && 0 <= k < g.map.field[y2][x2].eggs.len()
                        ==> (#[trigger] g.map.field[y2][x2].eggs[k]).unhatched + g.map.field[y2][x2].eggs[k].hatched + n <= usize::MAX,
                    forall|x2: int, k: int| 0 <= x2 < x && 0 <= k < STONE_KINDS
                        ==> #[trigger] g.map.field[y as int][x2].stones[k] + n <= usize::MAX,
                    forall|x2: int| 0 <= x2 < x ==> (#[trigger] g.map.field[y as int][x2]).nourriture + n <= usize::MAX,
                    forall|x2: int, k: int| 0 <= x2 < x && 0 <= k < g.map.field[y as int][x2].eggs.len()
                        ==> (#[trigger] g.map.field[y as int][x2].eggs[k]).unhatched + g.map.field[y as int][x2].eggs[k].hatched + n <= usize::MAX,
                decreases w - x,
            {
                let c = self.map.cell(x, y);
                proof {
                    assert(crate::cell::cell_wf(c@));
                }
                let mut k: usize = 0;
                while k < 6
                    invariant
                        k <= 6,
                        g == self@,
                        map_wf(g.map),
                        n == g.players.len(),
                        x < w,
                        y < h,
                        w == g.map.width,
                        h == g.map.height,
                        c@ == g.map.field[y as int][x as int],
                        c@.stones.len() == STONE_KINDS,
                        n < usize::MAX,
                        forall|k2: int| 0 <= k2 < k ==> #[trigger] g.map.field[y as int][x as int].stones[k2] + n <= usize::MAX,
                    decreases 6 - k,
                {
                    if c.stones[k] > usize::MAX - n {
                        proof {
                            assert(g.map.field[y as int][x as int].stones[k as int] + n > usize::MAX);
                        }
                        return false;
                    }
                    k = k + 1;
                }
                if c.nourriture > usize::MAX - n {
                    return false;
                }
                let mut e: usize = 0;
                while e < c.eggs.len()
                    invariant
                        e <= c@.eggs.len(),
                        g == self@,
                        map_wf(g.map),
                        n == g.players.len(),
                        x < w,
                        y < h,
                        w == g.map.width,
                        h == g.map.height,
                        c@ == g.map.field[y as int][x as int],
                        n < usize::MAX,
                        forall|k2: int| 0 <= k2 < e ==> (#[trigger] g.map.field[y as int][x as int].eggs[k2]).unhatched
                            + g.map.field[y as int][x as int].eggs[k2].hatched + n <= usize::MAX,
                    decreases c@.eggs.len() - e,
                {
                    if (c.eggs[e].unhatched as u128) + (c.eggs[e].hatched as u128) + (n as u128) > (usize::MAX as u128) {
                        proof {
                            assert(c@.eggs[e as int].unhatched == c.eggs@[e as int].unhatched);
                            assert(g.map.field[y as int][x as int].eggs[e as int].unhatched
                                + g.map.field[y as int][x as int].eggs[e as int].hatched + n > usize::MAX);
                        }
                        return false;
                    }
                    e = e + 1;
                }
                x = x + 1;
            }
            y = y + 1;
        }
        true
    }
}

/// Replacing a player by one with the same id, team, place, inventory size and level keeps
/// the game well formed.
pub proof fn lemma_set_player_wf(g: GameView, i: int, np: PlayerView)
    requires
        game_wf(g),
        0 <= i < g.players.len(),
        np.id == g.players[i].id,
        np.team == g.players[i].team,
        np.position.x == g.players[i].position.x,
        np.position.y == g.players[i].position.y,
        np.inventory.len() == g.players[i].inventory.len(),
        1 <= np.level <= crate::MAX_PLAYER_LVL,
    ensures
        game_wf(set_player(g, i, np)),
{
    let g2 = set_player(g, i, np);
    assert forall|j: int| 0 <= j < g2.players.len() implies player_wf(g2, #[trigger] g2.players[j]) by {
        assert(player_wf(g, g.players[j]));
    }
    assert forall|x: int, y: int, id: u16|
        0 <= x < g2.map.width && 0 <= y < g2.map.height && #[trigger] g2.map.field[y][x].players.contains(id)
        implies exists|k: int| 0 <= k < g2.players.len() && #[trigger] g2.players[k].id == id
            && g2.players[k].position.x == x && g2.players[k].position.y == y by {
        let k = choose|k: int| 0 <= k < g.players.len() && #[trigger] g.players[k].id == id
            && g.players[k].position.x == x && g.players[k].position.y == y;
        assert(g2.players[k].id == id);
    }
}

} // verus!
