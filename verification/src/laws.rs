//! What holds of the game across its operations.
use vstd::prelude::*;

use crate::cell::{cell_add_resource, cell_remove_resource, resource_count, CellView};
use crate::commands::PlayerCmdView;
use crate::engine::lemma_player_idx_unique;
use crate::map::set_cell;
use crate::model::other_than;
use crate::model::{apply_cmd, game_wf, has_player, player_fits, player_idx, player_wf, put_step, take_step, GameView};
use crate::player::{lemma_add_then_remove, spec_after_add, spec_after_remove, spec_can_remove, PlayerView};
use crate::resource::{spec_resource_from_name, spec_stone_index, Resource};
use crate::ResponseView;
use crate::model::{aged_all, dead_ids, due_commands, has_key, hatched_at, is_ready, removed_all, room, run_cmds, scheduled, stopped_at, tick, unschedule};
use crate::seasons::{lemma_dead_ids_contains, lemma_due_survive, lemma_hatch_all_players, lemma_removed_all_ids, lemma_run_cmds_keeps, lemma_same_ids, lemma_stop_all_ids};
use crate::upkeep::{lemma_aged_wf, lemma_removed_all};
use crate::cell::{cell_wf, eggs_adjusted, with_player, without_player};
use crate::map::in_bounds;
use crate::model::{has_team, insert_index, joined, removed, splits_at, team_idx};
use crate::upkeep::{lemma_joined_wf, lemma_set_cell_wf};
use crate::map::modulo;
use crate::model::moved;
use crate::position::{spec_dx_dy, spec_opposite, Direction};
use crate::upkeep::{lemma_modulo_bounds, lemma_moved_wf};
use vstd::arithmetic::div_mod::{lemma_mod_add_multiples_vanish, lemma_mod_self_0, lemma_small_mod};

verus! {

/// A resource taken from the cell and put straight back leaves the game as it was: when a
/// `Take` is answered `Okay`, the `Put` of the same name that follows is answered `Okay` too
/// and restores the player and the cell. For stones this holds of every player; for food,
/// of a living player (one without life that takes food cannot give it back).
pub proof fn lemma_take_then_put(g: GameView, id: u16, name: Seq<char>)
    requires
        game_wf(g),
        has_player(g.players, id),
        player_fits(g.players[player_idx(g.players, id)]),
        spec_resource_from_name(name) == Some(Resource::Nourriture)
            ==> g.players[player_idx(g.players, id)].remaining_life > 0,
        apply_cmd(g, id, PlayerCmdView::Take(name)).1 == seq![(id, ResponseView::Okay)],
    ensures
        apply_cmd(apply_cmd(g, id, PlayerCmdView::Take(name)).0, id, PlayerCmdView::Put(name)).1
            == seq![(id, ResponseView::Okay)],
        apply_cmd(apply_cmd(g, id, PlayerCmdView::Take(name)).0, id, PlayerCmdView::Put(name)).0 == g,
{
    let i = player_idx(g.players, id);
    let p = g.players[i];
    assert(0 <= i < g.players.len() && p.id == id);
    assert(player_wf(g, p));
    let x = p.position.x as int;
    let y = p.position.y as int;
    let c = g.map.field[y][x];
    assert(apply_cmd(g, id, PlayerCmdView::Take(name)).1[0] == (id, take_step(g, i, name).1));
    assert(take_step(g, i, name).1 == ResponseView::Okay);
    let r = spec_resource_from_name(name).unwrap();
    assert(resource_count(c, r) >= 1);
    let p1 = spec_after_add(p, r);
    let c1 = cell_remove_resource(c, r);
    let g1 = take_step(g, i, name).0;
    assert(g1 == GameView { players: g.players.update(i, p1), map: set_cell(g.map, x, y, c1), ..g });
    assert(p1.id == p.id && p1.position == p.position);
    assert forall|a: int, b: int| 0 <= a < b < g1.players.len() implies (#[trigger] g1.players[a]).id < (#[trigger] g1.players[b]).id by {
        assert(g.players[a].id < g.players[b].id);
    }
    lemma_player_idx_unique(g1.players, i);
    assert(g1.map.field[y][x] == c1);
    assert(apply_cmd(g, id, PlayerCmdView::Take(name)).0 == g1);
    lemma_add_then_remove(p, r);
    assert(spec_can_remove(p1, r));
    assert(spec_after_remove(p1, r) == p);
    assert(put_step(g1, i, name).1 == ResponseView::Okay);
    let c2 = cell_add_resource(c1, r);
    assert(c2 == c) by {
        match r {
            Resource::Stone(s) => {
                assert(c2.stones =~= c.stones);
            },
            Resource::Nourriture => {},
        }
    }
    let g2 = put_step(g1, i, name).0;
    assert(g2.players =~= g.players);
    assert(g2.map.field =~= g.map.field) by {
        assert(g2.map.field[y] =~= g.map.field[y]);
    }
    assert(g2 == g);
}

/// On a ring of `w` cells, a step of `dx` and a step back return to the start.
pub proof fn lemma_step_back(x: int, w: int, dx: int)
    requires
        0 <= x < w,
        -1 <= dx <= 1,
    ensures
        modulo(modulo(x + dx, w) - dx, w) == x,
{
    if dx == 0 {
        lemma_small_mod(x as nat, w as nat);
    } else if dx == 1 {
        if x + 1 < w {
            lemma_small_mod((x + 1) as nat, w as nat);
            lemma_small_mod(x as nat, w as nat);
        } else {
            lemma_mod_self_0(w);
            lemma_mod_add_multiples_vanish(-1, w);
            lemma_small_mod((w - 1) as nat, w as nat);
        }
    } else {
        if x >= 1 {
            lemma_small_mod((x - 1) as nat, w as nat);
            lemma_small_mod(x as nat, w as nat);
        } else {
            lemma_mod_add_multiples_vanish(-1, w);
            lemma_small_mod((w - 1) as nat, w as nat);
            lemma_mod_self_0(w);
        }
    }
}

/// A step one way and then a step the opposite way bring a player back to its cell, across
/// the edges of the field too.
pub proof fn lemma_move_back(g: GameView, i: int, d: Direction)
    requires
        game_wf(g),
        0 <= i < g.players.len(),
    ensures
        moved(moved(g, i, d), i, spec_opposite(d)).players[i].position.x == g.players[i].position.x,
        moved(moved(g, i, d), i, spec_opposite(d)).players[i].position.y == g.players[i].position.y,
{
    let p = g.players[i];
    assert(player_wf(g, p));
    lemma_moved_wf(g, i, d);
    let g1 = moved(g, i, d);
    let (dx, dy) = spec_dx_dy(d);
    let (ex, ey) = spec_dx_dy(spec_opposite(d));
    assert(ex == -dx && ey == -dy);
    assert(-1 <= dx <= 1 && -1 <= dy <= 1);
    lemma_step_back(p.position.x as int, g.map.width as int, dx);
    lemma_step_back(p.position.y as int, g.map.height as int, dy);
    lemma_modulo_bounds(p.position.x + dx, g.map.width as int);
    lemma_modulo_bounds(p.position.y + dy, g.map.height as int);
    assert(g1.players[i].position.x == modulo(p.position.x + dx, g.map.width as int));
    assert(g1.players[i].position.y == modulo(p.position.y + dy, g.map.height as int));
}

/// In a list of players by increasing id, a new id has a place.
pub proof fn lemma_split_exists(ps: Seq<PlayerView>, id: u16)
    requires
        forall|i: int, j: int| 0 <= i < j < ps.len() ==> (#[trigger] ps[i]).id < (#[trigger] ps[j]).id,
        !has_player(ps, id),
    ensures
        exists|k: int| splits_at(ps, id, k),
    decreases ps.len(),
{
    if ps.len() == 0 {
        assert(splits_at(ps, id, 0));
    } else {
        let prev = ps.drop_last();
        assert forall|i: int, j: int| 0 <= i < j < prev.len() implies (#[trigger] prev[i]).id < (#[trigger] prev[j]).id by {
            assert(ps[i].id < ps[j].id);
        }
        assert(!has_player(prev, id)) by {
            if has_player(prev, id) {
                let i = choose|i: int| 0 <= i < prev.len() && prev[i].id == id;
                assert(ps[i].id == id);
            }
        }
        lemma_split_exists(prev, id);
        let k0 = choose|k: int| splits_at(prev, id, k);
        let last = ps.len() - 1;
        assert(ps[last].id != id);
        if ps[last].id < id {
            assert forall|j: int| 0 <= j < ps.len() implies (#[trigger] ps[j]).id < id by {
                if j < last {
                    assert(ps[j].id < ps[last].id);
                }
            }
            assert(splits_at(ps, id, ps.len() as int));
        } else {
            assert forall|j: int| 0 <= j < k0 implies (#[trigger] ps[j]).id < id by {
                assert(prev[j].id < id);
            }
            assert forall|j: int| k0 <= j < ps.len() implies (#[trigger] ps[j]).id > id by {
                if j < last {
                    assert(prev[j].id > id);
                }
            }
            assert(splits_at(ps, id, k0));
        }
    }
}

/// A player who joins a team and then leaves the game takes nothing away: the list of
/// players and every cell's list of players are as they were.
#[verifier::spinoff_prover]
#[verifier::rlimit(40)]
pub proof fn lemma_join_then_leave(g: GameView, id: u16, name: Seq<char>)
    requires
        game_wf(g),
        !has_player(g.players, id),
        has_team(g.teams, name),
        g.teams[team_idx(g.teams, name)].spawn_positions.len() > 0,
    ensures
        removed(joined(g, id, name), id).players == g.players,
        forall|x: int, y: int| 0 <= x < g.map.width && 0 <= y < g.map.height
            ==> #[trigger] removed(joined(g, id, name), id).map.field[y][x].players == g.map.field[y][x].players,
{
    lemma_split_exists(g.players, id);
    lemma_joined_wf(g, id, name);
    let g1 = joined(g, id, name);
    let k = insert_index(g.players, id);
    let ti = team_idx(g.teams, name);
    let pos = g.teams[ti].spawn_positions[0];
    assert(in_bounds(g.map, pos));
    assert(g1.players[k].id == id);
    lemma_player_idx_unique(g1.players, k);
    assert(g1.players.remove(k) =~= g.players);
    let x0 = pos.x as int;
    let y0 = pos.y as int;
    let c = g.map.field[y0][x0];
    assert(cell_wf(c));
    assert(!c.players.contains(id)) by {
        if c.players.contains(id) {
            let w = choose|w: int| 0 <= w < g.players.len() && #[trigger] g.players[w].id == id
                && g.players[w].position.x == x0 && g.players[w].position.y == y0;
            assert(has_player(g.players, id));
        }
    }
    let c1 = CellView { players: with_player(c.players, id), eggs: eggs_adjusted(c.eggs, name, 0, -1), ..c };
    crate::upkeep::lemma_with_player(c.players, id);
    lemma_set_cell_wf(g.map, x0, y0, c1);
    assert(g1.map == set_cell(g.map, x0, y0, c1));
    assert(g1.players[k].position == pos);
    let c2 = g1.map.field[y0][x0];
    assert(c2 == c1);
    crate::upkeep::lemma_with_then_without(c.players, id);
    assert(without_player(c2.players, id) == c.players);
    let c3 = CellView { players: without_player(c2.players, id), ..c2 };
    lemma_set_cell_wf(g1.map, x0, y0, c3);
}

/// A frame takes out of the game exactly the players that had no life left: after it, the
/// players in the game are those that had life before it.
pub proof fn lemma_tick_survivors(g: GameView, id: u16)
    requires
        game_wf(g),
        room(g, g.players.len()),
        g.frame + 601 <= u64::MAX,
    ensures
        has_player(tick(g).0.players, id) <==> (has_player(g.players, id)
            && g.players[player_idx(g.players, id)].remaining_life > 0),
{
    let n = g.players.len();
    let cf = (g.frame + 1) as u64;
    let g1 = GameView { players: aged_all(g.players, cf), frame: cf, ..g };
    lemma_aged_wf(g, cf, n);
    assert forall|j: int| 0 <= j < g.players.len() implies (#[trigger] g1.players[j]).id == g.players[j].id by {}
    lemma_same_ids(g1.players, g.players);
    let dead = dead_ids(g.players);
    let g2 = removed_all(g1, dead);
    lemma_removed_all(g1, dead, n);
    lemma_removed_all_ids(g1, dead);
    let due = due_commands(g.players, cf);
    g.players.lemma_filter_len(is_ready(cf));
    assert forall|k: int| 0 <= k < due.len() implies has_player(g2.players, #[trigger] due[k].0) by {
        lemma_due_survive(g, cf, k);
        let w = choose|w: int| 0 <= w < g.players.len() && #[trigger] g.players[w].id == due[k].0;
        assert(g1.players[w].id == due[k].0);
        assert(has_player(g1.players, due[k].0));
    }
    lemma_run_cmds_keeps(g2, due, n);
    let g3 = run_cmds(g2, due).0;
    lemma_same_ids(g3.players, g2.players);
    let g4 = hatched_at(g3, cf);
    if has_key(g3.eggs, cf) {
        let gu = GameView { eggs: unschedule(g3.eggs, cf), ..g3 };
        lemma_hatch_all_players(gu, scheduled(g3.eggs, cf));
    }
    assert(g4.players == g3.players);
    let g5 = stopped_at(g4, cf).0;
    if has_key(g4.incantation, cf) {
        let gu = GameView { incantation: unschedule(g4.incantation, cf), ..g4 };
        lemma_stop_all_ids(gu, scheduled(g4.incantation, cf));
        lemma_same_ids(g5.players, g4.players);
    }
    assert(tick(g).0 == g5);
    lemma_dead_ids_contains(g.players, id);
    assert(has_player(g5.players, id) <==> has_player(g2.players, id));
}

/// A player without life when a frame is played is answered `Mort` in that frame and is no
/// longer in the game after it.
pub proof fn lemma_tick_death(g: GameView, id: u16)
    requires
        game_wf(g),
        room(g, g.players.len()),
        g.frame + 601 <= u64::MAX,
        has_player(g.players, id),
        g.players[player_idx(g.players, id)].remaining_life == 0,
    ensures
        tick(g).1.contains((id, ResponseView::Mort)),
        !has_player(tick(g).0.players, id),
{
    lemma_tick_survivors(g, id);
    lemma_dead_ids_contains(g.players, id);
    let dead = dead_ids(g.players);
    let m = choose|m: int| 0 <= m < dead.len() && dead[m] == id;
    let mort = crate::model::mort_answers(dead);
    assert(mort[m] == (id, ResponseView::Mort));
    let cf = (g.frame + 1) as u64;
    let g1 = GameView { players: aged_all(g.players, cf), frame: cf, ..g };
    let g2 = removed_all(g1, dead);
    let r3 = run_cmds(g2, due_commands(g.players, cf)).1;
    let g3 = run_cmds(g2, due_commands(g.players, cf)).0;
    let r5 = stopped_at(hatched_at(g3, cf), cf).1;
    assert(tick(g).1 == mort + r3 + r5);
    assert((mort + r3 + r5)[m] == (id, ResponseView::Mort));
}

/// Filtering a list of ids keeps only ids of the list that pass, keeps each of them, and
/// keeps a list by increasing id in that order.
pub proof fn lemma_filter_ids(s: Seq<u16>, pred: spec_fn(u16) -> bool)
    ensures
        forall|k: int| 0 <= k < s.filter(pred).len() ==> s.contains(#[trigger] s.filter(pred)[k]) && pred(s.filter(pred)[k]),
        forall|k: int| 0 <= k < s.len() && pred(s[k]) ==> s.filter(pred).contains(#[trigger] s[k]),
        crate::cell::ids_increasing(s) ==> crate::cell::ids_increasing(s.filter(pred)),
    decreases s.len(),
{
    if s.len() > 0 {
        let d = s.drop_last();
        lemma_filter_ids(d, pred);
        let f = s.filter(pred);
        let fd = d.filter(pred);
        let last = s.last();
        reveal(Seq::filter);
        assert(f == if pred(last) { fd.push(last) } else { fd });
        assert forall|k: int| 0 <= k < f.len() implies s.contains(#[trigger] f[k]) && pred(f[k]) by {
            if k < fd.len() {
                assert(f[k] == fd[k]);
                assert(d.contains(fd[k]));
                let m = choose|m: int| 0 <= m < d.len() && d[m] == fd[k];
                assert(s[m] == d[m]);
            } else {
                assert(f[k] == last);
                assert(s[s.len() - 1] == last);
            }
        }
        assert forall|k: int| 0 <= k < s.len() && pred(s[k]) implies f.contains(#[trigger] s[k]) by {
            if k < s.len() - 1 {
                assert(d[k] == s[k]);
                assert(fd.contains(d[k]));
                let w = choose|w: int| 0 <= w < fd.len() && fd[w] == d[k];
                assert(f[w] == fd[w]);
            } else {
                assert(f[f.len() - 1] == last);
            }
        }
        if crate::cell::ids_increasing(s) {
            assert(crate::cell::ids_increasing(d)) by {
                assert forall|i: int, j: int| 0 <= i < j < d.len() implies #[trigger] d[i] < #[trigger] d[j] by {
                    assert(s[i] < s[j]);
                }
            }
            assert forall|i: int, j: int| 0 <= i < j < f.len() implies #[trigger] f[i] < #[trigger] f[j] by {
                if j < fd.len() {
                    assert(f[i] == fd[i] && f[j] == fd[j]);
                } else {
                    assert(f[j] == last);
                    assert(f[i] == fd[i]);
                    assert(d.contains(fd[i]));
                    let m = choose|m: int| 0 <= m < d.len() && d[m] == fd[i];
                    assert(s[m] < s[s.len() - 1]);
                }
            }
        }
    }
}

/// What `Expel` answers: each other player on the caller's cell, by increasing id, is told
/// it was pushed from the side the caller faces (the opposite of the caller's direction),
/// and the caller is answered `Okay`, last.
pub proof fn lemma_expel_answers(g: GameView, id: u16)
    requires
        game_wf(g),
        has_player(g.players, id),
    ensures
        ({
            let p = g.players[player_idx(g.players, id)];
            let c = g.map.field[p.position.y as int][p.position.x as int];
            let r = apply_cmd(g, id, PlayerCmdView::Expel).1;
            &&& r.len() >= 1
            &&& r[r.len() - 1] == (id, ResponseView::Okay)
            &&& forall|k: int| 0 <= k < r.len() - 1 ==> (#[trigger] r[k]).1 == ResponseView::Movement(spec_opposite(p.position.dir))
                && r[k].0 != id && c.players.contains(r[k].0)
            &&& forall|a: int, b: int| 0 <= a < b < r.len() - 1 ==> (#[trigger] r[a]).0 < (#[trigger] r[b]).0
            &&& forall|q: u16| c.players.contains(q) && q != id ==> exists|k: int| 0 <= k < r.len() - 1 && (#[trigger] r[k]).0 == q
        }),
{
    let i = player_idx(g.players, id);
    let p = g.players[i];
    assert(player_wf(g, p));
    let c = g.map.field[p.position.y as int][p.position.x as int];
    assert(cell_wf(c));
    let targets = c.players.filter(other_than(id));
    lemma_filter_ids(c.players, other_than(id));
    let r = apply_cmd(g, id, PlayerCmdView::Expel).1;
    let ans = targets.map_values(|q: u16| (q, ResponseView::Movement(spec_opposite(p.position.dir))));
    assert(r == ans.push((id, ResponseView::Okay)));
    assert forall|k: int| 0 <= k < r.len() - 1 implies (#[trigger] r[k]).1 == ResponseView::Movement(spec_opposite(p.position.dir))
        && r[k].0 != id && c.players.contains(r[k].0) by {
        assert(r[k] == ans[k]);
        assert(ans[k].0 == targets[k]);
        assert(other_than(id)(targets[k]));
    }
    assert forall|a: int, b: int| 0 <= a < b < r.len() - 1 implies (#[trigger] r[a]).0 < (#[trigger] r[b]).0 by {
        assert(r[a] == ans[a] && r[b] == ans[b]);
        assert(targets[a] < targets[b]);
    }
    assert forall|q: u16| c.players.contains(q) && q != id implies exists|k: int| 0 <= k < r.len() - 1 && (#[trigger] r[k]).0 == q by {
        let m = choose|m: int| 0 <= m < c.players.len() && c.players[m] == q;
        assert(other_than(id)(c.players[m]));
        assert(targets.contains(c.players[m]));
        let k = choose|k: int| 0 <= k < targets.len() && targets[k] == q;
        assert(r[k] == ans[k]);
    }
}

/// What `Broadcast` answers: one answer per player of the game, by increasing id, `Okay` to
/// the sender and to every other player the message with the direction it hears it from;
/// the game does not change.
pub proof fn lemma_broadcast_answers(g: GameView, id: u16, text: Seq<char>)
    requires
        game_wf(g),
        has_player(g.players, id),
    ensures
        ({
            let p = g.players[player_idx(g.players, id)];
            let r = apply_cmd(g, id, PlayerCmdView::Broadcast(text));
            &&& r.0 == g
            &&& r.1.len() == g.players.len()
            &&& forall|a: int, b: int| 0 <= a < b < r.1.len() ==> (#[trigger] r.1[a]).0 < (#[trigger] r.1[b]).0
            &&& forall|k: int| 0 <= k < r.1.len() ==> (#[trigger] r.1[k]).0 == g.players[k].id && r.1[k].1 == if g.players[k].id == id {
                ResponseView::Okay
            } else {
                ResponseView::Message(
                    crate::map::spec_broadcast_source(g.map.width as int, g.map.height as int, p.position, g.players[k].position),
                    text,
                )
            }
        }),
{
    let i = player_idx(g.players, id);
    let r = apply_cmd(g, id, PlayerCmdView::Broadcast(text));
    assert forall|a: int, b: int| 0 <= a < b < r.1.len() implies (#[trigger] r.1[a]).0 < (#[trigger] r.1[b]).0 by {
        assert(g.players[a].id < g.players[b].id);
    }
}

/// What `Inventory` answers: seven lines, the food first (the player's remaining life), then
/// for each stone, at one past the stone's index, the stone's name and how many of that stone
/// the player holds. The game does not change.
pub proof fn lemma_inventory_answers(g: GameView, id: u16, s: crate::resource::Stone)
    requires
        game_wf(g),
        has_player(g.players, id),
    ensures
        ({
            let p = g.players[player_idx(g.players, id)];
            let r = apply_cmd(g, id, PlayerCmdView::Inventory);
            &&& r.0 == g
            &&& r.1.len() == 1
            &&& r.1[0].0 == id
            &&& r.1[0].1 matches ResponseView::Inventory(v) && v.len() == 7
                && v[0] == "nourriture "@ + crate::text::decimal(p.remaining_life as nat)
                && v[spec_stone_index(s) + 1] == crate::resource::spec_stone_name(s) + " "@
                    + crate::text::decimal(p.inventory[spec_stone_index(s)] as nat)
        }),
{
    reveal_strlit("nourriture");
    reveal_strlit(" ");
    reveal_strlit("nourriture ");
    assert("nourriture "@ =~= "nourriture"@ + " "@);
}

/// A stone taken shows in the inventory: after a `Take` of a stone answered `Okay`, the
/// inventory line of that stone counts one more than before.
pub proof fn lemma_take_shows_in_inventory(g: GameView, id: u16, name: Seq<char>, s: crate::resource::Stone)
    requires
        game_wf(g),
        has_player(g.players, id),
        player_fits(g.players[player_idx(g.players, id)]),
        spec_resource_from_name(name) == Some(Resource::Stone(s)),
        apply_cmd(g, id, PlayerCmdView::Take(name)).1 == seq![(id, ResponseView::Okay)],
    ensures
        ({
            let p = g.players[player_idx(g.players, id)];
            let g1 = apply_cmd(g, id, PlayerCmdView::Take(name)).0;
            let r = apply_cmd(g1, id, PlayerCmdView::Inventory).1;
            r[0].1 matches ResponseView::Inventory(v) && v[spec_stone_index(s) + 1]
                == crate::resource::spec_stone_name(s) + " "@ + crate::text::decimal(p.inventory[spec_stone_index(s)] as nat + 1)
        }),
{
    let i = player_idx(g.players, id);
    let p = g.players[i];
    assert(0 <= i < g.players.len() && p.id == id);
    assert(player_wf(g, p));
    assert(apply_cmd(g, id, PlayerCmdView::Take(name)).1[0] == (id, take_step(g, i, name).1));
    let g1 = take_step(g, i, name).0;
    let p1 = spec_after_add(p, Resource::Stone(s));
    assert(g1.players == g.players.update(i, p1));
    assert forall|a: int, b: int| 0 <= a < b < g1.players.len() implies (#[trigger] g1.players[a]).id < (#[trigger] g1.players[b]).id by {
        assert(g.players[a].id < g.players[b].id);
    }
    lemma_player_idx_unique(g1.players, i);
    assert(apply_cmd(g, id, PlayerCmdView::Take(name)).0 == g1);
    assert(g1.players[player_idx(g1.players, id)] == p1);
    let k = spec_stone_index(s);
    assert(crate::resource::spec_stone_at(k) == s) by {
        match s {
            crate::resource::Stone::Deraumere => {},
            crate::resource::Stone::Linemate => {},
            crate::resource::Stone::Mendiane => {},
            crate::resource::Stone::Phiras => {},
            crate::resource::Stone::Sibur => {},
            crate::resource::Stone::Thystame => {},
        }
    }
    assert(p1.inventory[k] == p.inventory[k] + 1);
    let v = crate::model::inventory_lines(p1);
    assert(v[k + 1] == crate::resource::spec_stone_name(crate::resource::spec_stone_at(k)) + " "@
        + crate::text::decimal(p1.inventory[k] as nat));
}

/// What a player sees is laid out in front of it: the cell seen at distance `line` and
/// lateral offset `idx` is the one reached from the player's cell by `line` steps the way it
/// faces, then `idx` steps to its right (its direction turned right; a negative offset goes
/// to its left), around the torus.
pub proof fn lemma_seen_cell_layout(g: GameView, p: PlayerView, line: int, idx: int)
    ensures
        ({
            let (fx, fy) = spec_dx_dy(p.position.dir);
            let (rx, ry) = spec_dx_dy(crate::position::spec_turn(p.position.dir, crate::position::Side::Right));
            crate::model::seen_cell(g, p, line, idx) == (
                modulo(p.position.x + line * fx + idx * rx, g.map.width as int),
                modulo(p.position.y + line * fy + idx * ry, g.map.height as int),
            )
        }),
{
    assert(line * 1 == line && line * 0 == 0 && line * -1 == -line) by (nonlinear_arith);
    assert(idx * 1 == idx && idx * 0 == 0 && idx * -1 == -idx) by (nonlinear_arith);
}

/// The lines a player sees up to distance `upto` are `(upto + 1)²` cells: distance `k` takes
/// the places `k²` to `(k + 1)² - 1`, its cells from the player's left to its right.
pub proof fn lemma_see_lines_layout(g: GameView, p: PlayerView, upto: int)
    requires
        upto >= 0,
    ensures
        crate::model::see_lines(g, p, upto).len() == (upto + 1) * (upto + 1),
        forall|k: int, j: int| 0 <= k <= upto && 0 <= j <= 2 * k ==> #[trigger] crate::model::see_lines(g, p, upto)[k * k + j]
            == crate::model::cell_text(
                g,
                p,
                crate::model::seen_cell(g, p, k, j - k).0,
                crate::model::seen_cell(g, p, k, j - k).1,
            ),
    decreases upto,
{
    let cur = crate::model::see_lines(g, p, upto);
    let row = crate::model::see_row(g, p, upto);
    if upto == 0 {
        assert(crate::model::see_lines(g, p, -1) =~= Seq::<Seq<char>>::empty());
        assert(cur =~= row);
    } else {
        lemma_see_lines_layout(g, p, upto - 1);
        let prev = crate::model::see_lines(g, p, upto - 1);
        assert(cur == prev + row);
        assert(prev.len() == upto * upto);
        assert((upto + 1) * (upto + 1) == upto * upto + 2 * upto + 1) by (nonlinear_arith);
        assert forall|k: int, j: int| 0 <= k <= upto && 0 <= j <= 2 * k implies #[trigger] cur[k * k + j]
            == crate::model::cell_text(
                g,
                p,
                crate::model::seen_cell(g, p, k, j - k).0,
                crate::model::seen_cell(g, p, k, j - k).1,
            ) by {
            if k < upto {
                assert(k * k + j < upto * upto) by (nonlinear_arith)
                    requires 0 <= k < upto, 0 <= j <= 2 * k;
                assert(cur[k * k + j] == prev[k * k + j]);
            } else {
                assert(k * k == upto * upto);
                assert(cur[k * k + j] == row[j]);
            }
        }
    }
}

/// What `See` answers: the cells in front of the player up to its level, laid out as
/// `lemma_see_lines_layout` and `lemma_seen_cell_layout` say; the game does not change.
pub proof fn lemma_see_answers(g: GameView, id: u16)
    requires
        game_wf(g),
        has_player(g.players, id),
    ensures
        ({
            let p = g.players[player_idx(g.players, id)];
            let r = apply_cmd(g, id, PlayerCmdView::See);
            &&& r.0 == g
            &&& r.1 == seq![(id, ResponseView::See(crate::model::see_lines(g, p, p.level as int)))]
            &&& crate::model::see_lines(g, p, p.level as int).len() == (p.level + 1) * (p.level + 1)
        }),
{
    let p = g.players[player_idx(g.players, id)];
    lemma_see_lines_layout(g, p, p.level as int);
}

/// Who an incantation starts: when it starts, every player it answers `IncantationInProgress`
/// stands on the caller's cell and has exactly the caller's level and at least 300 frames of
/// life, and every player on that cell with the caller's level and that much life is started.
/// Otherwise the caller alone is answered `Ko`.
pub proof fn lemma_incantation_joiners(g: GameView, id: u16)
    requires
        game_wf(g),
        has_player(g.players, id),
    ensures
        ({
            let p = g.players[player_idx(g.players, id)];
            let c = g.map.field[p.position.y as int][p.position.x as int];
            let r = apply_cmd(g, id, PlayerCmdView::Incantation).1;
            &&& r == seq![(id, ResponseView::Ko)] || (forall|k: int| 0 <= k < r.len()
                ==> (#[trigger] r[k]).1 == ResponseView::IncantationInProgress)
            &&& forall|k: int| 0 <= k < r.len() && (#[trigger] r[k]).1 == ResponseView::IncantationInProgress ==> {
                &&& c.players.contains(r[k].0)
                &&& has_player(g.players, r[k].0)
                &&& g.players[player_idx(g.players, r[k].0)].level == p.level
                &&& g.players[player_idx(g.players, r[k].0)].remaining_life >= 300
            }
            &&& r.len() > 0 && r[0].1 == ResponseView::IncantationInProgress ==> forall|q: int|
                0 <= q < g.players.len() && c.players.contains(#[trigger] g.players[q].id) && g.players[q].level == p.level
                    && g.players[q].remaining_life >= 300 ==> exists|k: int| 0 <= k < r.len() && (#[trigger] r[k]).0 == g.players[q].id
        }),
{
    let i = player_idx(g.players, id);
    let p = g.players[i];
    assert(player_wf(g, p));
    let x = p.position.x as int;
    let y = p.position.y as int;
    let c = g.map.field[y][x];
    assert(cell_wf(c));
    let pred = crate::model::can_join(g, p.level);
    let same = c.players.filter(pred);
    lemma_filter_ids(c.players, pred);
    let r = apply_cmd(g, id, PlayerCmdView::Incantation).1;
    assert(r == crate::model::incantation_step(g, i).1);
    if r != seq![(id, ResponseView::Ko)] {
        assert(r == same.map_values(|q: u16| (q, ResponseView::IncantationInProgress)));
    }
    assert forall|k: int| 0 <= k < r.len() && (#[trigger] r[k]).1 == ResponseView::IncantationInProgress implies {
        &&& c.players.contains(r[k].0)
        &&& has_player(g.players, r[k].0)
        &&& g.players[player_idx(g.players, r[k].0)].level == p.level
        &&& g.players[player_idx(g.players, r[k].0)].remaining_life >= 300
    } by {
        assert(r == same.map_values(|q: u16| (q, ResponseView::IncantationInProgress)));
        assert(r[k].0 == same[k]);
        assert(pred(same[k]));
        assert(c.players.contains(same[k]));
        let q = same[k];
        assert(g.map.field[y][x].players.contains(q));
        let w = choose|w: int| 0 <= w < g.players.len() && #[trigger] g.players[w].id == q
            && g.players[w].position.x == x && g.players[w].position.y == y;
        assert(g.players[w].id == q);
    }
    if r.len() > 0 && r[0].1 == ResponseView::IncantationInProgress {
        assert(r == same.map_values(|q: u16| (q, ResponseView::IncantationInProgress)));
        assert forall|q: int| 0 <= q < g.players.len() && c.players.contains(#[trigger] g.players[q].id)
            && g.players[q].level == p.level && g.players[q].remaining_life >= 300
            implies exists|k: int| 0 <= k < r.len() && (#[trigger] r[k]).0 == g.players[q].id by {
            let qid = g.players[q].id;
            lemma_player_idx_unique(g.players, q);
            assert(pred(qid));
            let m = choose|m: int| 0 <= m < c.players.len() && c.players[m] == qid;
            assert(same.contains(c.players[m]));
            let k = choose|k: int| 0 <= k < same.len() && same[k] == qid;
            assert(r[k].0 == qid);
        }
    }
}

} // verus!
