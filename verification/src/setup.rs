//! What a new game looks like, and why laying it out keeps it well formed.
use vstd::prelude::*;

use crate::cell::{cell_wf, egg_entry, eggs_adjusted, hatched_of, unhatched_of, CellView};
use crate::map::{in_bounds, map_wf, set_cell, MapView};
use crate::model::{count_at, game_wf, has_team, player_wf, spawn_count, with_map, GameView};
use crate::position::Position;
use crate::team::TeamView;
use crate::text::text_less;
use crate::upkeep::{lemma_eggs_adjusted, lemma_set_cell_wf};

verus! {

/// The map after a team gains one hatched egg at each position listed, in order.
pub open spec fn hatch_spots(m: MapView, team: Seq<char>, ps: Seq<Position>) -> MapView
    decreases ps.len(),
{
    if ps.len() == 0 {
        m
    } else {
        let prev = hatch_spots(m, team, ps.drop_last());
        let p = ps.last();
        let c = prev.field[p.y as int][p.x as int];
        set_cell(prev, p.x as int, p.y as int, CellView { eggs: eggs_adjusted(c.eggs, team, 0, 1), ..c })
    }
}

/// The map after the team of each name listed gains a hatched egg at each of the positions
/// listed for it.
pub open spec fn laid_out(m: MapView, names: Seq<Seq<char>>, spawns: Seq<Seq<Position>>) -> MapView
    decreases names.len(),
{
    if names.len() == 0 {
        m
    } else {
        hatch_spots(laid_out(m, names.drop_last(), spawns), names.last(), spawns[names.len() - 1])
    }
}

/// The positions listed for the last occurrence of a name (none if it does not occur).
pub open spec fn spawns_for(names: Seq<Seq<char>>, spawns: Seq<Seq<Position>>, n: Seq<char>) -> Seq<Position>
    decreases names.len(),
{
    if names.len() == 0 {
        Seq::empty()
    } else if names.last() == n {
        spawns[names.len() - 1]
    } else {
        spawns_for(names.drop_last(), spawns, n)
    }
}

/// The teams of a new game: one per distinct name, in the order of the names, without
/// members, each spawning at the positions listed for its name's last occurrence.
pub open spec fn teams_laid_out(ts: Seq<TeamView>, names: Seq<Seq<char>>, spawns: Seq<Seq<Position>>) -> bool {
    &&& forall|i: int, j: int| 0 <= i < j < ts.len() ==> text_less(#[trigger] ts[i].name, #[trigger] ts[j].name)
    &&& forall|n: Seq<char>| #[trigger] has_team(ts, n) <==> names.contains(n)
    &&& forall|i: int| 0 <= i < ts.len() ==> (#[trigger] ts[i]).members == Seq::<u16>::empty()
        && ts[i].spawn_positions == spawns_for(names, spawns, ts[i].name)
}

/// A game just laid out on the map `m`: its teams as above, no player, egg or incantation
/// yet, frame 0, and the teams' hatched eggs added to the map.
pub open spec fn fresh_game(g: GameView, m: MapView, names: Seq<Seq<char>>, spawns: Seq<Seq<Position>>) -> bool {
    &&& teams_laid_out(g.teams, names, spawns)
    &&& g.players.len() == 0
    &&& g.eggs.len() == 0
    &&& g.incantation.len() == 0
    &&& g.frame == 0
    &&& g.map == laid_out(m, names, spawns)
}

/// How many positions all the lists hold together.
pub open spec fn total_len(s: Seq<Seq<Position>>) -> nat
    decreases s.len(),
{
    if s.len() == 0 {
        0
    } else {
        total_len(s.drop_last()) + s.last().len()
    }
}

/// A prefix of the lists holds no more positions than all of them.
pub proof fn lemma_total_len_prefix(s: Seq<Seq<Position>>, j: int)
    requires
        0 <= j <= s.len(),
    ensures
        total_len(s.take(j)) <= total_len(s),
    decreases s.len(),
{
    if j == s.len() {
        assert(s.take(j) =~= s);
    } else {
        assert(s.take(j) =~= s.drop_last().take(j));
        lemma_total_len_prefix(s.drop_last(), j);
    }
}

/// Lists of equal length `c` hold `c` positions each.
pub proof fn lemma_total_len_uniform(s: Seq<Seq<Position>>, c: nat)
    requires
        forall|i: int| 0 <= i < s.len() ==> (#[trigger] s[i]).len() == c,
    ensures
        total_len(s) == s.len() * c,
    decreases s.len(),
{
    if s.len() > 0 {
        lemma_total_len_uniform(s.drop_last(), c);
        assert(s.len() * c == (s.len() - 1) * c + c) by (nonlinear_arith)
            requires s.len() >= 1;
    }
}

/// A hatched egg of a team laid on a cell keeps the game well formed, one more for that team
/// and none more for any other.
pub proof fn lemma_add_hatched_wf(g: GameView, name: Seq<char>, x: int, y: int, bound: nat)
    requires
        game_wf(g),
        0 <= x < g.map.width,
        0 <= y < g.map.height,
        bound < usize::MAX,
        forall|k: int| 0 <= k < g.map.field[y][x].eggs.len()
            ==> (#[trigger] g.map.field[y][x].eggs[k]).unhatched + g.map.field[y][x].eggs[k].hatched <= bound,
    ensures
        ({
            let c = g.map.field[y][x];
            let c2 = CellView { eggs: eggs_adjusted(c.eggs, name, 0, 1), ..c };
            let g2 = with_map(g, set_cell(g.map, x, y, c2));
            &&& game_wf(g2)
            &&& unhatched_of(c, name) < usize::MAX
            &&& hatched_of(c, name) < usize::MAX
            &&& hatched_of(c2, name) == hatched_of(c, name) + 1
            &&& forall|t: Seq<char>| t != name ==> #[trigger] hatched_of(c2, t) == hatched_of(c, t)
            &&& forall|k: int| 0 <= k < c2.eggs.len() ==> (#[trigger] c2.eggs[k]).unhatched + c2.eggs[k].hatched <= bound + 1
        }),
{
    let c = g.map.field[y][x];
    assert(cell_wf(c));
    if egg_entry(c.eggs, name) is Some {
        let i0 = egg_entry(c.eggs, name).unwrap();
        assert(c.eggs[i0].unhatched + c.eggs[i0].hatched <= bound);
    }
    lemma_eggs_adjusted(c, name, 0, 1);
    let e2 = eggs_adjusted(c.eggs, name, 0, 1);
    let c2 = CellView { eggs: e2, ..c };
    lemma_set_cell_wf(g.map, x, y, c2);
    let g2 = with_map(g, set_cell(g.map, x, y, c2));
    assert forall|k: int| 0 <= k < c2.eggs.len() implies (#[trigger] c2.eggs[k]).unhatched + c2.eggs[k].hatched <= bound + 1 by {
        if k < c.eggs.len() && c.eggs[k].team != name {
            assert(c.eggs[k].unhatched + c.eggs[k].hatched <= bound);
        } else {
            let kk = egg_entry(e2, name).unwrap();
            assert(e2[kk].team == name);
            if k < c.eggs.len() {
                assert(e2[k].team == name) by {
                    if egg_entry(c.eggs, name) is Some {
                        let i0 = egg_entry(c.eggs, name).unwrap();
                        assert(c.eggs[i0].team == name);
                        assert(i0 == k) by {
                            if i0 != k {
                                assert(c.eggs[i0].team != c.eggs[k].team);
                            }
                        }
                    }
                }
            } else {
                assert(e2[k].team == name);
            }
            assert(kk == k) by {
                if kk != k {
                    assert(e2[kk].team != e2[k].team);
                }
            }
        }
    }
    assert forall|j: int| 0 <= j < g2.players.len() implies player_wf(g2, #[trigger] g2.players[j]) by {
        assert(player_wf(g, g.players[j]));
    }
    assert forall|a: int, b: int, id2: u16|
        0 <= a < g2.map.width && 0 <= b < g2.map.height && #[trigger] g2.map.field[b][a].players.contains(id2)
        implies exists|k: int| 0 <= k < g2.players.len() && #[trigger] g2.players[k].id == id2
            && g2.players[k].position.x == a && g2.players[k].position.y == b by {
        assert(g.map.field[b][a].players.contains(id2));
        let k = choose|k: int| 0 <= k < g.players.len() && #[trigger] g.players[k].id == id2
            && g.players[k].position.x == a && g.players[k].position.y == b;
        assert(g2.players[k].id == id2);
    }
    assert forall|x2: int, y2: int, k: int| 0 <= x2 < g2.map.width && 0 <= y2 < g2.map.height && 0 <= k < g2.map.field[y2][x2].eggs.len()
        implies (#[trigger] g2.map.field[y2][x2].eggs[k]).unhatched + g2.map.field[y2][x2].eggs[k].hatched <= usize::MAX by {
        if x2 == x && y2 == y {
            assert(c2.eggs[k].unhatched + c2.eggs[k].hatched <= bound + 1);
        } else {
            assert(g.map.field[y2][x2].eggs[k].unhatched + g.map.field[y2][x2].eggs[k].hatched <= usize::MAX);
        }
    }
    assert forall|a: int, x2: int, y2: int| 0 <= a < g2.teams.len() && 0 <= x2 < g2.map.width && 0 <= y2 < g2.map.height
        implies hatched_of(#[trigger] g2.map.field[y2][x2], (#[trigger] g2.teams[a]).name) >= spawn_count(g2.teams[a], x2, y2) by {
        assert(hatched_of(g.map.field[y2][x2], g.teams[a].name) >= spawn_count(g.teams[a], x2, y2));
    }
    assert forall|tn: Seq<char>, x2: int, y2: int| 0 <= x2 < g2.map.width && 0 <= y2 < g2.map.height
        implies #[trigger] unhatched_of(g2.map.field[y2][x2], tn) >= crate::model::pending_eggs(g2.eggs, tn, x2, y2) by {
        assert(unhatched_of(g.map.field[y2][x2], tn) >= crate::model::pending_eggs(g.eggs, tn, x2, y2));
    }
}

/// In a game without players, any teams with distinct names, no members, spawn positions on
/// the map and enough hatched eggs under them keep it well formed.
pub proof fn lemma_teams_set_wf(g: GameView, ts: Seq<TeamView>)
    requires
        game_wf(g),
        g.players.len() == 0,
        forall|i: int, j: int| 0 <= i < ts.len() && 0 <= j < ts.len() && i != j ==> (#[trigger] ts[i]).name != (#[trigger] ts[j]).name,
        forall|i: int| 0 <= i < ts.len() ==> (#[trigger] ts[i]).members.no_duplicates(),
        forall|i: int, k: int| 0 <= i < ts.len() && 0 <= k < ts[i].spawn_positions.len() ==> in_bounds(g.map, #[trigger] ts[i].spawn_positions[k]),
        forall|i: int, x: int, y: int| 0 <= i < ts.len() && 0 <= x < g.map.width && 0 <= y < g.map.height
            ==> hatched_of(#[trigger] g.map.field[y][x], (#[trigger] ts[i]).name) >= spawn_count(ts[i], x, y),
    ensures
        game_wf(GameView { teams: ts, ..g }),
{
    let g2 = GameView { teams: ts, ..g };
    assert forall|a: int, b: int, id2: u16|
        0 <= a < g2.map.width && 0 <= b < g2.map.height && #[trigger] g2.map.field[b][a].players.contains(id2)
        implies exists|k: int| 0 <= k < g2.players.len() && #[trigger] g2.players[k].id == id2
            && g2.players[k].position.x == a && g2.players[k].position.y == b by {
        assert(g.map.field[b][a].players.contains(id2));
    }
}

} // verus!
