//! Why the stages of a frame keep the game well formed: eggs hatching, incantations ending.
use vstd::prelude::*;

use crate::cell::{cell_wf, egg_entry, eggs_adjusted, hatched_of, unhatched_of, CellView};
use crate::map::{in_bounds, map_wf, set_cell};
use crate::model::{
    count_at, eggs_on, game_wf, has_key, has_player, has_team, hatch_one, key_idx, keys_distinct, pending_eggs,
    player_idx, player_wf, set_player, spawn_count, stop_one, team_idx, GameView,
};
use crate::model::{dead_ids, due_commands, is_dead, is_ready, mort_answers};
use crate::cell::{cell_add_resource, cell_remove_resource, resource_count};
use crate::commands::PlayerCmdView;
use crate::model::{apply_cmd, can_join, cell_fits, hatch_all, joiners, other_than, player_fits, put_step, removed, removed_all, room, run_cmds, stop_all, take_step, with_map};
use crate::player::{spec_after_add, spec_after_remove, spec_can_remove, spec_player_requirement, spec_stone_requirement};
use crate::position::{spec_turn, Position, Side};
use crate::resource::{covers, minus, spec_resource_from_name};
use crate::upkeep::{lemma_apply_cmd_room, lemma_expelled_wf, lemma_fork_wf, lemma_goods_changed_wf, lemma_moved_wf, lemma_room_fits, lemma_started_wf};
use crate::player::{spec_stop_incantation, PlayerView};
use crate::team::TeamView;
use crate::upkeep::{lemma_eggs_adjusted, lemma_set_cell_wf};
use crate::EggView;

verus! {

/// The game with one more list of eggs waiting to hatch under a key.
pub open spec fn with_pending(g: GameView, k: u64, l: Seq<EggView>) -> GameView {
    GameView { eggs: g.eggs.push((k, l)), ..g }
}

/// Counting the eggs of a list with one more egg in front.
pub proof fn lemma_eggs_on_prepend(e: EggView, rest: Seq<EggView>, t: Seq<char>, x: int, y: int)
    ensures
        eggs_on(seq![e] + rest, t, x, y) == eggs_on(rest, t, x, y)
            + (if e.team_name == t && e.position.x == x && e.position.y == y { 1nat } else { 0nat }),
    decreases rest.len(),
{
    if rest.len() == 0 {
        assert((seq![e] + rest).drop_last() =~= Seq::<EggView>::empty());
        assert((seq![e] + rest).last() == e);
        assert(eggs_on(Seq::<EggView>::empty(), t, x, y) == 0);
    } else {
        assert((seq![e] + rest).drop_last() =~= seq![e] + rest.drop_last());
        assert((seq![e] + rest).last() == rest.last());
        lemma_eggs_on_prepend(e, rest.drop_last(), t, x, y);
    }
}

/// Counting the pending eggs of a schedule with one more list.
pub proof fn lemma_pending_push(s: Seq<(u64, Seq<EggView>)>, k: u64, l: Seq<EggView>, t: Seq<char>, x: int, y: int)
    ensures
        pending_eggs(s.push((k, l)), t, x, y) == pending_eggs(s, t, x, y) + eggs_on(l, t, x, y),
{
    assert(s.push((k, l)).drop_last() =~= s);
}

/// Taking a list of eggs off the schedule, and holding it apart as still to hatch, keeps the
/// game well formed.
pub proof fn lemma_unschedule_pending(g: GameView, j: int)
    requires
        game_wf(g),
        0 <= j < g.eggs.len(),
    ensures
        game_wf(with_pending(GameView { eggs: g.eggs.remove(j), ..g }, g.eggs[j].0, g.eggs[j].1)),
        !has_key(g.eggs.remove(j), g.eggs[j].0),
{
    let s = g.eggs;
    let r = s.remove(j);
    let s2 = r.push(s[j]);
    let g2 = with_pending(GameView { eggs: r, ..g }, s[j].0, s[j].1);
    assert(g2.eggs =~= s2);
    // where each entry of the new schedule came from
    assert forall|a: int| 0 <= a < s2.len() implies #[trigger] s2[a] == s[if a == s2.len() - 1 { j } else if a < j { a } else { a + 1 }] by {}
    assert forall|a: int, b: int| 0 <= a < s2.len() && 0 <= b < s2.len() && a != b implies #[trigger] s2[a].0 != #[trigger] s2[b].0 by {
        let a2 = if a == s2.len() - 1 { j } else if a < j { a } else { a + 1 };
        let b2 = if b == s2.len() - 1 { j } else if b < j { b } else { b + 1 };
        assert(s2[a] == s[a2]);
        assert(s2[b] == s[b2]);
        assert(s[a2].0 != s[b2].0);
    }
    assert(!has_key(r, s[j].0)) by {
        if has_key(r, s[j].0) {
            let a = choose|a: int| 0 <= a < r.len() && r[a].0 == s[j].0;
            let a2 = if a < j { a } else { a + 1 };
            assert(r[a] == s[a2]);
            assert(s[a2].0 != s[j].0);
        }
    }
    assert forall|a: int, k: int| 0 <= a < g2.eggs.len() && 0 <= k < g2.eggs[a].1.len()
        implies in_bounds(g2.map, (#[trigger] g2.eggs[a].1[k]).position) by {
        let a2 = if a == s2.len() - 1 { j } else if a < j { a } else { a + 1 };
        assert(s2[a] == s[a2]);
        assert(in_bounds(g.map, s[a2].1[k].position));
    }
    assert forall|t: Seq<char>, x: int, y: int| 0 <= x < g2.map.width && 0 <= y < g2.map.height
        implies #[trigger] unhatched_of(g2.map.field[y][x], t) >= pending_eggs(g2.eggs, t, x, y) by {
        crate::upkeep::lemma_pending_remove(s, j, t, x, y);
        lemma_pending_push(r, s[j].0, s[j].1, t, x, y);
        assert(unhatched_of(g.map.field[y][x], t) >= pending_eggs(g.eggs, t, x, y));
    }
}

/// With nothing left to hatch, the list held apart can be forgotten.
pub proof fn lemma_pending_done(g: GameView, k: u64)
    requires
        game_wf(with_pending(g, k, Seq::empty())),
    ensures
        game_wf(g),
{
    let g1 = with_pending(g, k, Seq::empty());
    assert(g1.teams == g.teams && g1.map == g.map && g1.players == g.players);
    assert forall|a: int, b: int| 0 <= a < g.eggs.len() && 0 <= b < g.eggs.len() && a != b implies #[trigger] g.eggs[a].0 != #[trigger] g.eggs[b].0 by {
        assert(g1.eggs[a] == g.eggs[a]);
        assert(g1.eggs[b] == g.eggs[b]);
    }
    assert forall|a: int, k2: int| 0 <= a < g.eggs.len() && 0 <= k2 < g.eggs[a].1.len()
        implies in_bounds(g.map, (#[trigger] g.eggs[a].1[k2]).position) by {
        assert(g1.eggs[a] == g.eggs[a]);
    }
    assert forall|t: Seq<char>, x: int, y: int| 0 <= x < g.map.width && 0 <= y < g.map.height
        implies #[trigger] unhatched_of(g.map.field[y][x], t) >= pending_eggs(g.eggs, t, x, y) by {
        lemma_pending_push(g.eggs, k, Seq::empty(), t, x, y);
        assert(unhatched_of(g1.map.field[y][x], t) >= pending_eggs(g1.eggs, t, x, y));
    }
}

/// Counting positions of a list with one more position.
pub proof fn lemma_count_push(s: Seq<crate::position::Position>, p: crate::position::Position, x: int, y: int)
    ensures
        count_at(s.push(p), x, y) == count_at(s, x, y) + (if p.x == x && p.y == y { 1nat } else { 0nat }),
{
    assert(s.push(p).drop_last() =~= s);
}

/// An egg hatching keeps the game well formed, the eggs still to hatch held apart.
pub proof fn lemma_hatch_one_wf(g: GameView, k: u64, e: EggView, rest: Seq<EggView>)
    requires
        game_wf(with_pending(g, k, seq![e] + rest)),
    ensures
        game_wf(with_pending(hatch_one(g, e), k, rest)),
        hatch_one(g, e).players == g.players,
        hatch_one(g, e).eggs == g.eggs,
        hatch_one(g, e).incantation == g.incantation,
        hatch_one(g, e).frame == g.frame,
        hatch_one(g, e).map.width == g.map.width,
        hatch_one(g, e).map.height == g.map.height,
        in_bounds(g.map, e.position),
        map_wf(g.map),
        forall|a: int, b: int| 0 <= a < g.teams.len() && 0 <= b < g.teams.len() && a != b
            ==> (#[trigger] g.teams[a]).name != (#[trigger] g.teams[b]).name,
        egg_entry(g.map.field[e.position.y as int][e.position.x as int].eggs, e.team_name) is Some ==> {
            let c = g.map.field[e.position.y as int][e.position.x as int];
            &&& unhatched_of(c, e.team_name) >= 1
            &&& hatched_of(c, e.team_name) + 1 <= usize::MAX
        },
{
    let gp = with_pending(g, k, seq![e] + rest);
    let g2 = hatch_one(g, e);
    let gq = with_pending(g2, k, rest);
    assert(gp.teams == g.teams && gp.map == g.map && gp.players == g.players);
    assert(gq.teams == g2.teams && gq.map == g2.map && gq.players == g2.players);
    let last = g.eggs.len() as int;
    assert(gp.eggs[last].1[0] == e);
    assert(in_bounds(g.map, e.position));
    let x = e.position.x as int;
    let y = e.position.y as int;
    let c = g.map.field[y][x];
    let name = e.team_name;
    assert(gq.eggs.len() == gp.eggs.len());
    if egg_entry(c.eggs, name) is Some {
        assert(unhatched_of(gp.map.field[y][x], name) >= pending_eggs(gp.eggs, name, x, y));
        lemma_pending_push(g.eggs, k, seq![e] + rest, name, x, y);
        lemma_eggs_on_prepend(e, rest, name, x, y);
        let i1 = egg_entry(c.eggs, name).unwrap();
        assert(c.eggs[i1].unhatched + c.eggs[i1].hatched <= usize::MAX);
    }
    assert forall|a: int| 0 <= a < gq.eggs.len() implies #[trigger] gq.eggs[a].0 == gp.eggs[a].0 by {}
    assert forall|a: int, b: int| 0 <= a < gq.eggs.len() && 0 <= b < gq.eggs.len() && a != b implies #[trigger] gq.eggs[a].0 != #[trigger] gq.eggs[b].0 by {
        assert(gq.eggs[a].0 == gp.eggs[a].0);
        assert(gq.eggs[b].0 == gp.eggs[b].0);
    }
    assert forall|a: int, k2: int| 0 <= a < gq.eggs.len() && 0 <= k2 < gq.eggs[a].1.len()
        implies in_bounds(gq.map, (#[trigger] gq.eggs[a].1[k2]).position) by {
        if a == last {
            assert(gq.eggs[a].1[k2] == gp.eggs[a].1[k2 + 1]);
        } else {
            assert(gq.eggs[a] == gp.eggs[a]);
        }
        assert(in_bounds(g.map, gp.eggs[a].1[if a == last { k2 + 1 } else { k2 }].position));
    }
    // the pending counts lose the egg that hatches
    assert forall|t: Seq<char>, x2: int, y2: int| 0 <= x2 < g.map.width && 0 <= y2 < g.map.height implies
        #[trigger] pending_eggs(gq.eggs, t, x2, y2) + (if name == t && x == x2 && y == y2 { 1nat } else { 0nat })
            == pending_eggs(gp.eggs, t, x2, y2) by {
        lemma_pending_push(g.eggs, k, rest, t, x2, y2);
        lemma_pending_push(g.eggs, k, seq![e] + rest, t, x2, y2);
        lemma_eggs_on_prepend(e, rest, t, x2, y2);
    }
    if egg_entry(c.eggs, name) is Some && has_team(g.teams, name) {
        assert(cell_wf(c));
        assert(unhatched_of(c, name) >= 1) by {
            assert(unhatched_of(gp.map.field[y][x], name) >= pending_eggs(gp.eggs, name, x, y));
            assert(pending_eggs(gq.eggs, name, x, y) + 1 == pending_eggs(gp.eggs, name, x, y));
        }
        let i0 = egg_entry(c.eggs, name).unwrap();
        assert(c.eggs[i0].unhatched + c.eggs[i0].hatched <= usize::MAX);
        lemma_eggs_adjusted(c, name, -1, 1);
        let c2 = CellView { eggs: eggs_adjusted(c.eggs, name, -1, 1), ..c };
        lemma_set_cell_wf(g.map, x, y, c2);
        let ti = team_idx(g.teams, name);
        let t = g.teams[ti];
        assert(g2.teams == g.teams.update(ti, TeamView { spawn_positions: t.spawn_positions.push(e.position), ..t }));
        assert forall|a: int| 0 <= a < g2.teams.len() implies (#[trigger] g2.teams[a]).name == g.teams[a].name by {}
        assert forall|j: int| 0 <= j < gq.players.len() implies player_wf(gq, #[trigger] gq.players[j]) by {
            assert(player_wf(gp, gp.players[j]));
            let tn = gp.players[j].team;
            let a = choose|a: int| 0 <= a < g.teams.len() && g.teams[a].name == tn;
            assert(g2.teams[a].name == tn);
        }
        assert forall|a: int, b: int| 0 <= a < gq.teams.len() && 0 <= b < gq.teams.len() && a != b
            implies (#[trigger] gq.teams[a]).name != (#[trigger] gq.teams[b]).name by {
            assert(gp.teams[a].name != gp.teams[b].name);
        }
        assert forall|a: int| 0 <= a < gq.teams.len() implies (#[trigger] gq.teams[a]).members.no_duplicates() by {
            assert(gp.teams[a].members.no_duplicates());
        }
        assert forall|a: int, k2: int| 0 <= a < gq.teams.len() && 0 <= k2 < gq.teams[a].spawn_positions.len()
            implies in_bounds(gq.map, #[trigger] gq.teams[a].spawn_positions[k2]) by {
            if a == ti && k2 == t.spawn_positions.len() {
            } else {
                assert(in_bounds(g.map, g.teams[a].spawn_positions[k2]));
            }
        }
        assert forall|a: int, x2: int, y2: int| 0 <= a < gq.teams.len() && 0 <= x2 < gq.map.width && 0 <= y2 < gq.map.height
            implies hatched_of(#[trigger] gq.map.field[y2][x2], (#[trigger] gq.teams[a]).name) >= spawn_count(gq.teams[a], x2, y2) by {
            assert(hatched_of(gp.map.field[y2][x2], gp.teams[a].name) >= spawn_count(gp.teams[a], x2, y2));
            if a == ti {
                lemma_count_push(t.spawn_positions, e.position, x2, y2);
                assert(gq.teams[a].spawn_positions == t.spawn_positions.push(e.position));
            }
            if x2 == x && y2 == y && g.teams[a].name != name {
                assert(hatched_of(c2, g.teams[a].name) == hatched_of(c, g.teams[a].name));
            }
        }
        assert forall|tn: Seq<char>, x2: int, y2: int| 0 <= x2 < gq.map.width && 0 <= y2 < gq.map.height
            implies #[trigger] unhatched_of(gq.map.field[y2][x2], tn) >= pending_eggs(gq.eggs, tn, x2, y2) by {
            assert(unhatched_of(gp.map.field[y2][x2], tn) >= pending_eggs(gp.eggs, tn, x2, y2));
            assert(pending_eggs(gq.eggs, tn, x2, y2) + (if name == tn && x == x2 && y == y2 { 1nat } else { 0nat })
                == pending_eggs(gp.eggs, tn, x2, y2));
            if x2 == x && y2 == y && tn != name {
                assert(unhatched_of(c2, tn) == unhatched_of(c, tn));
            }
        }
        assert forall|a: int, b: int, id2: u16|
            0 <= a < gq.map.width && 0 <= b < gq.map.height && #[trigger] gq.map.field[b][a].players.contains(id2)
            implies exists|m: int| 0 <= m < gq.players.len() && #[trigger] gq.players[m].id == id2
                && gq.players[m].position.x == a && gq.players[m].position.y == b by {
            assert(gp.map.field[b][a].players.contains(id2));
            let m = choose|m: int| 0 <= m < gp.players.len() && #[trigger] gp.players[m].id == id2
                && gp.players[m].position.x == a && gp.players[m].position.y == b;
            assert(gq.players[m].id == id2);
        }
        assert forall|x2: int, y2: int, k2: int| 0 <= x2 < gq.map.width && 0 <= y2 < gq.map.height && 0 <= k2 < gq.map.field[y2][x2].eggs.len()
            implies (#[trigger] gq.map.field[y2][x2].eggs[k2]).unhatched + gq.map.field[y2][x2].eggs[k2].hatched <= usize::MAX by {
            if x2 == x && y2 == y {
                if c.eggs[k2].team != name {
                    assert(c.eggs[k2].unhatched + c.eggs[k2].hatched <= usize::MAX);
                } else {
                    assert(k2 == i0) by {
                        if k2 != i0 {
                            assert(c.eggs[k2].team != c.eggs[i0].team);
                        }
                    }
                }
            } else {
                assert(gp.map.field[y2][x2].eggs[k2].unhatched + gp.map.field[y2][x2].eggs[k2].hatched <= usize::MAX);
            }
        }
    } else {
        assert(g2 == g);
        assert forall|tn: Seq<char>, x2: int, y2: int| 0 <= x2 < gq.map.width && 0 <= y2 < gq.map.height
            implies #[trigger] unhatched_of(gq.map.field[y2][x2], tn) >= pending_eggs(gq.eggs, tn, x2, y2) by {
            assert(unhatched_of(gp.map.field[y2][x2], tn) >= pending_eggs(gp.eggs, tn, x2, y2));
            assert(pending_eggs(gq.eggs, tn, x2, y2) + (if name == tn && x == x2 && y == y2 { 1nat } else { 0nat })
                == pending_eggs(gp.eggs, tn, x2, y2));
        }
    }
}

/// The dead among a list of players with one more.
pub proof fn lemma_dead_ids_push(ps: Seq<PlayerView>, p: PlayerView)
    ensures
        dead_ids(ps.push(p)) == if p.remaining_life == 0 { dead_ids(ps).push(p.id) } else { dead_ids(ps) },
{
    ps.lemma_filter_push(p, is_dead());
    assert(dead_ids(ps.push(p)) =~= (if p.remaining_life == 0 { dead_ids(ps).push(p.id) } else { dead_ids(ps) }));
}

/// The due commands of a list of players with one more.
pub proof fn lemma_due_push(ps: Seq<PlayerView>, p: PlayerView, cf: u64)
    ensures
        due_commands(ps.push(p), cf) == if p.remaining_life > 0 && p.commands.len() > 0 && cf >= p.next_frame {
            due_commands(ps, cf).push((p.id, p.commands[0]))
        } else {
            due_commands(ps, cf)
        },
{
    ps.lemma_filter_push(p, is_ready(cf));
    assert(due_commands(ps.push(p), cf) =~= (if p.remaining_life > 0 && p.commands.len() > 0 && cf >= p.next_frame {
        due_commands(ps, cf).push((p.id, p.commands[0]))
    } else {
        due_commands(ps, cf)
    }));
}

/// `Mort` answers for a list with one more id.
pub proof fn lemma_mort_push(ids: Seq<u16>, id: u16)
    ensures
        mort_answers(ids.push(id)) == mort_answers(ids).push((id, crate::ResponseView::Mort)),
{
    assert(mort_answers(ids.push(id)) =~= mort_answers(ids).push((id, crate::ResponseView::Mort)));
}

/// With distinct keys, the index holding a key is the index of that key.
pub proof fn lemma_key_idx_unique<T>(s: Seq<(u64, T)>, j: int)
    requires
        keys_distinct(s),
        0 <= j < s.len(),
    ensures
        has_key(s, s[j].0),
        key_idx(s, s[j].0) == j,
{
    let a = key_idx(s, s[j].0);
    assert(0 <= a < s.len() && s[a].0 == s[j].0);
}

/// A schedule without one of its lists keeps its keys distinct.
pub proof fn lemma_remove_keys<T>(s: Seq<(u64, T)>, j: int)
    requires
        keys_distinct(s),
        0 <= j < s.len(),
    ensures
        keys_distinct(s.remove(j)),
{
    let r = s.remove(j);
    assert forall|a: int, b: int| 0 <= a < r.len() && 0 <= b < r.len() && a != b implies #[trigger] r[a].0 != #[trigger] r[b].0 by {
        let a2 = if a < j { a } else { a + 1 };
        let b2 = if b < j { b } else { b + 1 };
        assert(r[a] == s[a2]);
        assert(r[b] == s[b2]);
        assert(s[a2].0 != s[b2].0);
    }
}

/// An incantation ending keeps the game well formed and touches only the player's level.
pub proof fn lemma_stop_one_wf(g: GameView, id: u16)
    requires
        game_wf(g),
    ensures
        game_wf(stop_one(g, id).0),
        stop_one(g, id).0.eggs == g.eggs,
        stop_one(g, id).0.incantation == g.incantation,
        stop_one(g, id).0.frame == g.frame,
{
    if has_player(g.players, id) {
        let i = player_idx(g.players, id);
        let p = g.players[i];
        if let Ok(l) = spec_stop_incantation(p) {
            assert(player_wf(g, p));
            crate::engine::lemma_set_player_wf(g, i, PlayerView { level: l, incantating: false, ..p });
        }
    }
}

/// A player with a due command is alive: it is in the game and not among the dead.
pub proof fn lemma_due_survive(g: GameView, cf: u64, k: int)
    requires
        game_wf(g),
        0 <= k < due_commands(g.players, cf).len(),
    ensures
        !dead_ids(g.players).contains(due_commands(g.players, cf)[k].0),
        exists|w: int| 0 <= w < g.players.len() && #[trigger] g.players[w].id == due_commands(g.players, cf)[k].0,
{
    let ps = g.players;
    let f = ps.filter(is_ready(cf));
    ps.lemma_filter_pred(is_ready(cf), k);
    let q = f[k];
    assert(due_commands(ps, cf)[k].0 == q.id);
    assert(f.contains(q));
    ps.lemma_filter_contains_rev(is_ready(cf), q);
    let w = choose|w: int| 0 <= w < ps.len() && ps[w] == q;
    assert(ps[w].id == q.id);
    if dead_ids(ps).contains(q.id) {
        let d = ps.filter(is_dead());
        let m = choose|m: int| 0 <= m < dead_ids(ps).len() && dead_ids(ps)[m] == q.id;
        ps.lemma_filter_pred(is_dead(), m);
        assert(d.contains(d[m]));
        ps.lemma_filter_contains_rev(is_dead(), d[m]);
        let w2 = choose|w2: int| 0 <= w2 < ps.len() && ps[w2] == d[m];
        assert(ps[w2].id == ps[w].id);
        if w2 < w {
            assert(ps[w2].id < ps[w].id);
        } else if w < w2 {
            assert(ps[w].id < ps[w2].id);
        }
    }
}

/// A command of a player in the game keeps the game well formed.
pub proof fn lemma_apply_cmd_wf(g: GameView, id: u16, cmd: PlayerCmdView)
    requires
        game_wf(g),
        has_player(g.players, id),
        player_fits(g.players[player_idx(g.players, id)]),
        cell_fits(g.map.field[g.players[player_idx(g.players, id)].position.y as int][g.players[player_idx(g.players, id)].position.x as int]),
        g.frame + 600 <= u64::MAX,
    ensures
        game_wf(apply_cmd(g, id, cmd).0),
{
    let i = player_idx(g.players, id);
    let p = g.players[i];
    assert(player_wf(g, p));
    let x = p.position.x as int;
    let y = p.position.y as int;
    let c = g.map.field[y][x];
    assert(cell_wf(c));
    match cmd {
        PlayerCmdView::Left => {
            crate::engine::lemma_set_player_wf(g, i, PlayerView {
                position: Position { dir: spec_turn(p.position.dir, Side::Left), ..p.position },
                ..p
            });
        },
        PlayerCmdView::Right => {
            crate::engine::lemma_set_player_wf(g, i, PlayerView {
                position: Position { dir: spec_turn(p.position.dir, Side::Right), ..p.position },
                ..p
            });
        },
        PlayerCmdView::Move => {
            lemma_moved_wf(g, i, p.position.dir);
        },
        PlayerCmdView::Take(name) => {
            match spec_resource_from_name(name) {
                None => {},
                Some(r) => {
                    if resource_count(c, r) >= 1 {
                        lemma_goods_changed_wf(g, i, spec_after_add(p, r), x, y, cell_remove_resource(c, r));
                        assert(take_step(g, i, name).0 == GameView {
                            players: g.players.update(i, spec_after_add(p, r)),
                            map: set_cell(g.map, x, y, cell_remove_resource(c, r)),
                            ..g
                        });
                    }
                },
            }
        },
        PlayerCmdView::Put(name) => {
            match spec_resource_from_name(name) {
                None => {},
                Some(r) => {
                    if spec_can_remove(p, r) {
                        lemma_goods_changed_wf(g, i, spec_after_remove(p, r), x, y, cell_add_resource(c, r));
                        assert(put_step(g, i, name).0 == GameView {
                            players: g.players.update(i, spec_after_remove(p, r)),
                            map: set_cell(g.map, x, y, cell_add_resource(c, r)),
                            ..g
                        });
                    }
                },
            }
        },
        PlayerCmdView::Expel => {
            let targets = c.players.filter(other_than(id));
            assert forall|k: int| 0 <= k < targets.len() implies has_player(g.players, #[trigger] targets[k]) by {
                c.players.lemma_filter_pred(other_than(id), k);
                assert(targets.contains(targets[k]));
                c.players.lemma_filter_contains_rev(other_than(id), targets[k]);
                let m = choose|m: int| 0 <= m < g.players.len() && #[trigger] g.players[m].id == targets[k]
                    && g.players[m].position.x == x && g.players[m].position.y == y;
            }
            lemma_expelled_wf(g, targets, p.position.dir);
        },
        PlayerCmdView::Incantation => {
            if p.remaining_life < 300 || p.level >= crate::MAX_PLAYER_LVL {
            } else {
                let same = joiners(g, c, p.level);
                if same.len() >= spec_player_requirement(p.level) && covers(c.stones, spec_stone_requirement(p.level)) {
                    let c2 = CellView { stones: minus(c.stones, spec_stone_requirement(p.level)), ..c };
                    lemma_goods_changed_wf(g, i, p, x, y, c2);
                    assert(g.players.update(i, p) =~= g.players);
                    let g1 = with_map(g, set_cell(g.map, x, y, c2));
                    assert forall|k: int| 0 <= k < same.len() implies has_player(g1.players, #[trigger] same[k]) by {
                        c.players.lemma_filter_pred(can_join(g, p.level), k);
                        assert(same.contains(same[k]));
                        c.players.lemma_filter_contains_rev(can_join(g, p.level), same[k]);
                        let m = choose|m: int| 0 <= m < g.players.len() && #[trigger] g.players[m].id == same[k]
                            && g.players[m].position.x == x && g.players[m].position.y == y;
                        assert(g1.players[m].id == same[k]);
                    }
                    lemma_started_wf(g1, same);
                }
            }
        },
        PlayerCmdView::Fork => {
            lemma_fork_wf(g, i);
        },
        _ => {},
    }
}

/// Running due commands keeps the game well formed, its frame, and the ids of its players
/// in place, and uses up one step of room per command.
pub proof fn lemma_run_cmds_keeps(g: GameView, due: Seq<(u16, PlayerCmdView)>, n: nat)
    requires
        game_wf(g),
        room(g, n),
        due.len() <= n,
        g.frame + 600 <= u64::MAX,
        forall|k: int| 0 <= k < due.len() ==> has_player(g.players, #[trigger] due[k].0),
    ensures
        game_wf(run_cmds(g, due).0),
        room(run_cmds(g, due).0, (n - due.len()) as nat),
        run_cmds(g, due).0.players.len() == g.players.len(),
        forall|j: int| 0 <= j < g.players.len() ==> (#[trigger] run_cmds(g, due).0.players[j]).id == g.players[j].id,
        run_cmds(g, due).0.frame == g.frame,
    decreases due.len(),
{
    if due.len() > 0 {
        let prev_due = due.drop_last();
        assert forall|k: int| 0 <= k < prev_due.len() implies has_player(g.players, #[trigger] prev_due[k].0) by {
            assert(prev_due[k] == due[k]);
        }
        lemma_run_cmds_keeps(g, prev_due, n);
        let g1 = run_cmds(g, prev_due).0;
        let (id, cmd) = due.last();
        let m: nat = (n - due.len()) as nat;
        assert(has_player(g.players, due[due.len() - 1].0));
        assert(has_player(g1.players, id)) by {
            let w = choose|w: int| 0 <= w < g.players.len() && g.players[w].id == id;
            assert(g1.players[w].id == id);
        }
        if g1.players[player_idx(g1.players, id)].incantating {
            crate::upkeep::lemma_room_less(g1, m + 1, m);
        } else {
            lemma_room_fits(g1, m);
            let q = g1.players[player_idx(g1.players, id)];
            assert(player_wf(g1, q));
            lemma_apply_cmd_wf(g1, id, cmd);
            lemma_apply_cmd_room(g1, id, cmd, m);
        }
    }
}

/// Eggs hatching leave the players as they are.
pub proof fn lemma_hatch_all_players(g: GameView, l: Seq<EggView>)
    ensures
        hatch_all(g, l).players == g.players,
    decreases l.len(),
{
    if l.len() > 0 {
        lemma_hatch_all_players(g, l.drop_last());
    }
}

/// Incantations ending keep the ids of the players in place.
pub proof fn lemma_stop_all_ids(g: GameView, ids: Seq<u16>)
    ensures
        stop_all(g, ids).0.players.len() == g.players.len(),
        forall|j: int| 0 <= j < g.players.len() ==> (#[trigger] stop_all(g, ids).0.players[j]).id == g.players[j].id,
    decreases ids.len(),
{
    if ids.len() > 0 {
        lemma_stop_all_ids(g, ids.drop_last());
    }
}

/// A player leaving takes only itself out of the game.
pub proof fn lemma_removed_ids(g: GameView, id: u16)
    requires
        game_wf(g),
    ensures
        forall|o: u16| #[trigger] has_player(removed(g, id).players, o) <==> (has_player(g.players, o) && o != id),
{
    if has_player(g.players, id) {
        let i = player_idx(g.players, id);
        let g2 = removed(g, id);
        assert(g2.players == g.players.remove(i));
        assert forall|o: u16| #[trigger] has_player(g2.players, o) <==> (has_player(g.players, o) && o != id) by {
            if has_player(g2.players, o) {
                let j = choose|j: int| 0 <= j < g2.players.len() && g2.players[j].id == o;
                let j2 = if j < i { j } else { j + 1 };
                assert(g2.players[j] == g.players[j2]);
                assert(g.players[j2].id == o);
                if j2 < i {
                    assert(g.players[j2].id < g.players[i].id);
                } else {
                    assert(g.players[i].id < g.players[j2].id);
                }
            }
            if has_player(g.players, o) && o != id {
                let j = choose|j: int| 0 <= j < g.players.len() && g.players[j].id == o;
                assert(j != i);
                let j2 = if j < i { j } else { j - 1 };
                assert(g2.players[j2] == g.players[j]);
            }
        }
    }
}

/// Players leaving one after another take exactly the listed ones out of the game.
pub proof fn lemma_removed_all_ids(g: GameView, ids: Seq<u16>)
    requires
        game_wf(g),
    ensures
        forall|o: u16| #[trigger] has_player(removed_all(g, ids).players, o) <==> (has_player(g.players, o) && !ids.contains(o)),
    decreases ids.len(),
{
    if ids.len() > 0 {
        let prev_ids = ids.drop_last();
        lemma_removed_all_ids(g, prev_ids);
        crate::upkeep::lemma_removed_all(g, prev_ids, 0);
        let prev = removed_all(g, prev_ids);
        lemma_removed_ids(prev, ids.last());
        assert forall|o: u16| #[trigger] has_player(removed_all(g, ids).players, o) <==> (has_player(g.players, o) && !ids.contains(o)) by {
            assert(ids.contains(o) <==> (prev_ids.contains(o) || o == ids.last())) by {
                if ids.contains(o) {
                    let k = choose|k: int| 0 <= k < ids.len() && ids[k] == o;
                    if k < ids.len() - 1 {
                        assert(prev_ids[k] == o);
                    }
                }
                if prev_ids.contains(o) {
                    let k = choose|k: int| 0 <= k < prev_ids.len() && prev_ids[k] == o;
                    assert(ids[k] == o);
                }
                if o == ids.last() {
                    assert(ids[ids.len() - 1] == o);
                }
            }
        }
    }
}

/// Two lists of players with the same ids in the same places hold the same ids.
pub proof fn lemma_same_ids(a: Seq<PlayerView>, b: Seq<PlayerView>)
    requires
        a.len() == b.len(),
        forall|j: int| 0 <= j < a.len() ==> (#[trigger] a[j]).id == b[j].id,
    ensures
        forall|o: u16| #[trigger] has_player(a, o) <==> has_player(b, o),
{
    assert forall|o: u16| #[trigger] has_player(a, o) <==> has_player(b, o) by {
        if has_player(a, o) {
            let j = choose|j: int| 0 <= j < a.len() && a[j].id == o;
            assert(b[j].id == o);
        }
        if has_player(b, o) {
            let j = choose|j: int| 0 <= j < b.len() && b[j].id == o;
            assert(a[j].id == o);
        }
    }
}

/// An id is among the dead exactly when its player has no life left.
pub proof fn lemma_dead_ids_contains(ps: Seq<PlayerView>, o: u16)
    requires
        forall|i: int, j: int| 0 <= i < j < ps.len() ==> (#[trigger] ps[i]).id < (#[trigger] ps[j]).id,
    ensures
        dead_ids(ps).contains(o) <==> (has_player(ps, o) && ps[player_idx(ps, o)].remaining_life == 0),
{
    let d = ps.filter(is_dead());
    if dead_ids(ps).contains(o) {
        let m = choose|m: int| 0 <= m < dead_ids(ps).len() && dead_ids(ps)[m] == o;
        ps.lemma_filter_pred(is_dead(), m);
        assert(d.contains(d[m]));
        ps.lemma_filter_contains_rev(is_dead(), d[m]);
        let w = choose|w: int| 0 <= w < ps.len() && ps[w] == d[m];
        assert(ps[w].id == o);
        crate::engine::lemma_player_idx_unique(ps, w);
    }
    if has_player(ps, o) && ps[player_idx(ps, o)].remaining_life == 0 {
        let w = player_idx(ps, o);
        ps.lemma_filter_contains(is_dead(), w);
        let m = choose|m: int| 0 <= m < d.len() && d[m] == ps[w];
        assert(dead_ids(ps)[m] == o);
    }
}

} // verus!
