//! Why every operation of the game keeps it well formed.
use vstd::prelude::*;

use crate::cell::{ids_increasing, insert_pos};
use crate::cell::{cell_wf, egg_entry, eggs_adjusted, hatched_of, unhatched_of, with_player, without_player, CellView, EggCountView};
use crate::map::{in_bounds, map_wf, set_cell, MapView};
use crate::model::{
    count_at, game_wf, has_player, has_team, insert_index, joined, new_player, pending_eggs, player_idx, player_wf, removed,
    spawn_count, splits_at, team_idx, GameView, moved,
};
use crate::position::Direction;
use crate::model::{aged, removed_all, take_step, put_step, incantation_step, joiners, can_join, other_than, with_map, expelled, room, player_fits, apply_cmd, started, eggs_on, fork_step, has_key, key_idx, keys_distinct, schedule, cell_fits};
use crate::EggView;
use crate::resource::STONE_KINDS;
use crate::cell::cell_remove_resource;
use crate::map::modulo;
use crate::position::Position;
use crate::player::PlayerView;
use crate::team::TeamView;

verus! {

/// Taking an id out of a list without repeats keeps every other id and loses that one.
pub proof fn lemma_without_player(s: Seq<u16>, id: u16)
    requires
        s.no_duplicates(),
    ensures
        without_player(s, id).no_duplicates(),
        forall|a: u16| #[trigger] without_player(s, id).contains(a) <==> (s.contains(a) && a != id),
        without_player(s, id).len() == if s.contains(id) { s.len() - 1 } else { s.len() as int },
        ids_increasing(s) ==> ids_increasing(without_player(s, id)),
{
    if ids_increasing(s) {
        lemma_without_increasing(s, id);
    }
    if s.contains(id) {
        let k = s.index_of(id);
        s.remove_ensures(k);
        let r = s.remove(k);
        assert forall|i: int, j: int| 0 <= i < r.len() && 0 <= j < r.len() && i != j implies r[i] != r[j] by {
            let i2 = if i < k { i } else { i + 1 };
            let j2 = if j < k { j } else { j + 1 };
            assert(s[i2] != s[j2]);
        }
        assert forall|a: u16| #[trigger] r.contains(a) <==> (s.contains(a) && a != id) by {
            if r.contains(a) {
                let m = choose|m: int| 0 <= m < r.len() && r[m] == a;
                let m2 = if m < k { m } else { m + 1 };
                assert(s[m2] == a);
                assert(m2 != k);
                assert(s[k] == id);
            }
            if s.contains(a) && a != id {
                let m = choose|m: int| 0 <= m < s.len() && s[m] == a;
                assert(m != k);
                let m2 = if m < k { m } else { m - 1 };
                assert(r[m2] == a);
            }
        }
    }
}

/// The place of an id is after the smaller ids at the front of the list; in a list by
/// increasing id, every id from that place on is at least as large.
pub proof fn lemma_insert_pos(s: Seq<u16>, id: u16)
    ensures
        0 <= insert_pos(s, id) <= s.len(),
        forall|j: int| 0 <= j < insert_pos(s, id) ==> #[trigger] s[j] < id,
        ids_increasing(s) ==> forall|j: int| insert_pos(s, id) <= j < s.len() ==> #[trigger] s[j] >= id,
    decreases s.len(),
{
    if s.len() > 0 {
        if s[0] < id {
            let t = s.drop_first();
            lemma_insert_pos(t, id);
            assert forall|j: int| 0 <= j < insert_pos(s, id) implies #[trigger] s[j] < id by {
                if j > 0 {
                    assert(s[j] == t[j - 1]);
                }
            }
            if ids_increasing(s) {
                assert(ids_increasing(t)) by {
                    assert forall|i: int, j: int| 0 <= i < j < t.len() implies #[trigger] t[i] < #[trigger] t[j] by {
                        assert(s[i + 1] < s[j + 1]);
                    }
                }
                assert forall|j: int| insert_pos(s, id) <= j < s.len() implies #[trigger] s[j] >= id by {
                    assert(s[j] == t[j - 1]);
                }
            }
        } else {
            if ids_increasing(s) {
                assert forall|j: int| insert_pos(s, id) <= j < s.len() implies #[trigger] s[j] >= id by {
                    if j > 0 {
                        assert(s[0] < s[j]);
                    }
                }
            }
        }
    }
}

/// Adding an id to a list (once) keeps every id and gains that one, and a list by
/// increasing id stays so.
pub proof fn lemma_with_player(s: Seq<u16>, id: u16)
    requires
        s.no_duplicates(),
    ensures
        with_player(s, id).no_duplicates(),
        forall|a: u16| #[trigger] with_player(s, id).contains(a) <==> (s.contains(a) || a == id),
        ids_increasing(s) ==> ids_increasing(with_player(s, id)),
        !s.contains(id) ==> with_player(s, id).len() == s.len() + 1,
{
    if !s.contains(id) {
        let k = insert_pos(s, id);
        lemma_insert_pos(s, id);
        s.insert_ensures(k, id);
        let r = s.insert(k, id);
        let src = |i: int| if i < k { i } else { i - 1 };
        assert forall|i: int, j: int| 0 <= i < r.len() && 0 <= j < r.len() && i != j implies r[i] != r[j] by {
            if i != k && j != k {
                assert(r[i] == s[src(i)]);
                assert(r[j] == s[src(j)]);
                assert(s[src(i)] != s[src(j)]);
            } else if i == k {
                assert(r[j] == s[src(j)]);
            } else {
                assert(r[i] == s[src(i)]);
            }
        }
        assert forall|a: u16| #[trigger] r.contains(a) <==> (s.contains(a) || a == id) by {
            if r.contains(a) {
                let m = choose|m: int| 0 <= m < r.len() && r[m] == a;
                if m != k {
                    assert(r[m] == s[src(m)]);
                }
            }
            if s.contains(a) {
                let m = choose|m: int| 0 <= m < s.len() && s[m] == a;
                if m < k {
                    assert(r[m] == a);
                } else {
                    assert(r[m + 1] == a);
                }
            }
            if a == id {
                assert(r[k] == a);
            }
        }
        if ids_increasing(s) {
            assert forall|i: int, j: int| 0 <= i < j < r.len() implies #[trigger] r[i] < #[trigger] r[j] by {
                if i != k && j != k {
                    assert(r[i] == s[src(i)]);
                    assert(r[j] == s[src(j)]);
                    assert(s[src(i)] < s[src(j)]);
                } else if i == k {
                    assert(r[j] == s[j - 1]);
                    assert(s[j - 1] >= id);
                    assert(s[j - 1] != id);
                } else {
                    assert(r[i] == s[i]);
                    assert(s[i] < id);
                }
            }
        }
    }
}

/// Taking out an id that was just added gives the list back.
pub proof fn lemma_with_then_without(s: Seq<u16>, id: u16)
    requires
        s.no_duplicates(),
        !s.contains(id),
    ensures
        without_player(with_player(s, id), id) == s,
{
    let k = insert_pos(s, id);
    lemma_insert_pos(s, id);
    s.insert_ensures(k, id);
    let r = s.insert(k, id);
    assert(r[k] == id);
    assert(r.contains(id));
    let ix = r.index_of(id);
    assert(ix == k) by {
        if ix != k {
            if ix < k {
                assert(s[ix] == id);
            } else {
                assert(s[ix - 1] == id);
            }
        }
    }
    assert(r.remove(k) =~= s);
}

/// Taking an id out of a list by increasing id leaves it by increasing id.
pub proof fn lemma_without_increasing(s: Seq<u16>, id: u16)
    requires
        s.no_duplicates(),
        ids_increasing(s),
    ensures
        ids_increasing(without_player(s, id)),
{
    if s.contains(id) {
        let k = s.index_of(id);
        s.remove_ensures(k);
        let r = s.remove(k);
        assert forall|i: int, j: int| 0 <= i < j < r.len() implies #[trigger] r[i] < #[trigger] r[j] by {
            let i2 = if i < k { i } else { i + 1 };
            let j2 = if j < k { j } else { j + 1 };
            assert(r[i] == s[i2]);
            assert(r[j] == s[j2]);
            assert(s[i2] < s[j2]);
        }
    }
}

/// Replacing a cell by a well-formed one keeps the map well formed, and only that cell changes.
pub proof fn lemma_set_cell_wf(m: MapView, x: int, y: int, c: CellView)
    requires
        map_wf(m),
        0 <= x < m.width,
        0 <= y < m.height,
        cell_wf(c),
    ensures
        map_wf(set_cell(m, x, y, c)),
        set_cell(m, x, y, c).width == m.width,
        set_cell(m, x, y, c).height == m.height,
        forall|x2: int, y2: int| 0 <= x2 < m.width && 0 <= y2 < m.height ==>
            #[trigger] set_cell(m, x, y, c).field[y2][x2] == if x2 == x && y2 == y { c } else { m.field[y2][x2] },
{
    let m2 = set_cell(m, x, y, c);
    assert forall|y2: int| 0 <= y2 < m2.height implies #[trigger] m2.field[y2].len() == m2.width by {
        assert(m.field[y2].len() == m.width);
    }
    assert forall|x2: int, y2: int| 0 <= x2 < m.width && 0 <= y2 < m.height implies
        #[trigger] m2.field[y2][x2] == if x2 == x && y2 == y { c } else { m.field[y2][x2] } by {
        assert(m.field[y2].len() == m.width);
    }
    assert forall|x2: int, y2: int| 0 <= x2 < m2.width && 0 <= y2 < m2.height implies cell_wf(#[trigger] m2.field[y2][x2]) by {
        assert(m.field[y2].len() == m.width);
        if !(x2 == x && y2 == y) {
            assert(cell_wf(m.field[y2][x2]));
        }
    }
}

/// A player leaving keeps the game well formed.
pub proof fn lemma_removed_wf(g: GameView, id: u16)
    requires
        game_wf(g),
    ensures
        game_wf(removed(g, id)),
{
    if has_player(g.players, id) {
        let i = player_idx(g.players, id);
        let p = g.players[i];
        assert(player_wf(g, p));
        let x = p.position.x as int;
        let y = p.position.y as int;
        let c = g.map.field[y][x];
        assert(cell_wf(c));
        lemma_without_player(c.players, id);
        let c2 = CellView { players: without_player(c.players, id), ..c };
        lemma_set_cell_wf(g.map, x, y, c2);
        let ti = team_idx(g.teams, p.team);
        let t = g.teams[ti];
        assert(t.members.no_duplicates());
        lemma_without_player(t.members, id);
        let g2 = removed(g, id);
        assert(g2.players == g.players.remove(i));
        // the other players keep their entries
        assert forall|j: int| 0 <= j < g2.players.len() implies #[trigger] g2.players[j] == g.players[if j < i { j } else { j + 1 }] by {}
        assert forall|a: int, b: int| 0 <= a < b < g2.players.len() implies (#[trigger] g2.players[a]).id < (#[trigger] g2.players[b]).id by {
            let a2 = if a < i { a } else { a + 1 };
            let b2 = if b < i { b } else { b + 1 };
            assert(g.players[a2].id < g.players[b2].id);
        }
        assert forall|tn: Seq<char>| has_team(g.teams, tn) implies has_team(g2.teams, tn) by {
            let k = choose|k: int| 0 <= k < g.teams.len() && g.teams[k].name == tn;
            assert(g2.teams[k].name == tn);
        }
        assert forall|j: int| 0 <= j < g2.players.len() implies player_wf(g2, #[trigger] g2.players[j]) by {
            let j2 = if j < i { j } else { j + 1 };
            let q = g.players[j2];
            assert(player_wf(g, q));
            assert(q.id != id) by {
                if j2 < i {
                    assert(g.players[j2].id < g.players[i].id);
                } else {
                    assert(g.players[i].id < g.players[j2].id);
                }
            }
        }
        assert forall|x2: int, y2: int, id2: u16|
            0 <= x2 < g2.map.width && 0 <= y2 < g2.map.height && #[trigger] g2.map.field[y2][x2].players.contains(id2)
            implies exists|k: int| 0 <= k < g2.players.len() && #[trigger] g2.players[k].id == id2
                && g2.players[k].position.x == x2 && g2.players[k].position.y == y2 by {
            assert(g.map.field[y2][x2].players.contains(id2));
            let k = choose|k: int| 0 <= k < g.players.len() && #[trigger] g.players[k].id == id2
                && g.players[k].position.x == x2 && g.players[k].position.y == y2;
            assert(k != i);
            let k2 = if k < i { k } else { k - 1 };
            assert(g2.players[k2].id == id2);
        }
        assert forall|a: int| 0 <= a < g2.teams.len() implies (#[trigger] g2.teams[a]).members.no_duplicates() by {
            assert(g.teams[a].members.no_duplicates());
        }
        assert forall|a: int, x2: int, y2: int| 0 <= a < g2.teams.len() && 0 <= x2 < g2.map.width && 0 <= y2 < g2.map.height
            implies hatched_of(#[trigger] g2.map.field[y2][x2], (#[trigger] g2.teams[a]).name) >= spawn_count(g2.teams[a], x2, y2) by {
            assert(hatched_of(g.map.field[y2][x2], g.teams[a].name) >= spawn_count(g.teams[a], x2, y2));
        }
        assert forall|tn: Seq<char>, x2: int, y2: int| 0 <= x2 < g2.map.width && 0 <= y2 < g2.map.height
            implies #[trigger] unhatched_of(g2.map.field[y2][x2], tn) >= crate::model::pending_eggs(g2.eggs, tn, x2, y2) by {
            assert(unhatched_of(g.map.field[y2][x2], tn) >= crate::model::pending_eggs(g.eggs, tn, x2, y2));
        }
        assert forall|x2: int, y2: int, k: int| 0 <= x2 < g2.map.width && 0 <= y2 < g2.map.height && 0 <= k < g2.map.field[y2][x2].eggs.len()
            implies (#[trigger] g2.map.field[y2][x2].eggs[k]).unhatched + g2.map.field[y2][x2].eggs[k].hatched <= usize::MAX by {
            assert(g.map.field[y2][x2].eggs == g2.map.field[y2][x2].eggs);
        }
        assert forall|a: int, k: int| 0 <= a < g2.teams.len() && 0 <= k < g2.teams[a].spawn_positions.len()
            implies in_bounds(g2.map, #[trigger] g2.teams[a].spawn_positions[k]) by {
            assert(in_bounds(g.map, g.teams[a].spawn_positions[k]));
        }
    }
}


/// Removing the first position of a list removes one from its cell's count.
pub proof fn lemma_count_drop_first(s: Seq<Position>, x: int, y: int)
    requires
        s.len() > 0,
    ensures
        count_at(s, x, y) == count_at(s.drop_first(), x, y) + (if s[0].x == x && s[0].y == y { 1nat } else { 0nat }),
    decreases s.len(),
{
    if s.len() > 1 {
        lemma_count_drop_first(s.drop_last(), x, y);
        assert(s.drop_last().drop_first() =~= s.drop_first().drop_last());
    } else {
        assert(s.drop_first() =~= Seq::<Position>::empty());
        assert(s.drop_last() =~= Seq::<Position>::empty());
    }
}

/// The egg counts after adjusting one team's entry: that team's counts move by the given
/// amounts, every other team's stay, and the entries keep distinct teams.
pub proof fn lemma_eggs_adjusted(c: CellView, team: Seq<char>, du: int, dh: int)
    requires
        cell_wf(c),
        unhatched_of(c, team) + du >= 0,
        hatched_of(c, team) + dh >= 0,
        unhatched_of(c, team) + du <= usize::MAX,
        hatched_of(c, team) + dh <= usize::MAX,
    ensures
        cell_wf(CellView { eggs: eggs_adjusted(c.eggs, team, du, dh), ..c }),
        unhatched_of(CellView { eggs: eggs_adjusted(c.eggs, team, du, dh), ..c }, team) == unhatched_of(c, team) + du,
        hatched_of(CellView { eggs: eggs_adjusted(c.eggs, team, du, dh), ..c }, team) == hatched_of(c, team) + dh,
        forall|other: Seq<char>| other != team ==> #[trigger] unhatched_of(CellView { eggs: eggs_adjusted(c.eggs, team, du, dh), ..c }, other)
            == unhatched_of(c, other),
        forall|other: Seq<char>| other != team ==> #[trigger] hatched_of(CellView { eggs: eggs_adjusted(c.eggs, team, du, dh), ..c }, other)
            == hatched_of(c, other),
        forall|k: int| 0 <= k < c.eggs.len() && c.eggs[k].team != team ==> #[trigger] eggs_adjusted(c.eggs, team, du, dh)[k] == c.eggs[k],
        egg_entry(c.eggs, team) is Some ==> eggs_adjusted(c.eggs, team, du, dh).len() == c.eggs.len(),
        egg_entry(c.eggs, team) is None ==> eggs_adjusted(c.eggs, team, du, dh).len() == c.eggs.len() + 1,
        egg_entry(eggs_adjusted(c.eggs, team, du, dh), team) is Some,
        ({
            let e = eggs_adjusted(c.eggs, team, du, dh);
            let k = egg_entry(e, team).unwrap();
            e[k].unhatched + e[k].hatched == unhatched_of(c, team) + du + hatched_of(c, team) + dh
        }),
{
    let e = c.eggs;
    let e2 = eggs_adjusted(e, team, du, dh);
    let c2 = CellView { eggs: e2, ..c };
    match egg_entry(e, team) {
        Some(i) => {
            assert(0 <= i < e.len() && e[i].team == team);
            assert forall|a: int, b: int| 0 <= a < e2.len() && 0 <= b < e2.len() && a != b implies #[trigger] e2[a].team != #[trigger] e2[b].team by {
                assert(e[a].team != e[b].team);
            }
            assert(egg_entry(e2, team) == Some(i)) by {
                assert(e2[i].team == team);
                let k = choose|k: int| 0 <= k < e2.len() && e2[k].team == team;
                if k != i {
                    assert(e2[k].team != e2[i].team);
                }
            }
            assert forall|other: Seq<char>| other != team implies #[trigger] unhatched_of(c2, other) == unhatched_of(c, other)
                && hatched_of(c2, other) == hatched_of(c, other) by {
                if exists|k: int| 0 <= k < e.len() && e[k].team == other {
                    let k = choose|k: int| 0 <= k < e.len() && e[k].team == other;
                    assert(k != i);
                    assert(e2[k].team == other);
                    assert(egg_entry(e2, other) == Some(k)) by {
                        let k2 = choose|k2: int| 0 <= k2 < e2.len() && e2[k2].team == other;
                        if k2 != k {
                            assert(e2[k2].team != e2[k].team);
                        }
                    }
                    assert(egg_entry(e, other) == Some(k)) by {
                        let k2 = choose|k2: int| 0 <= k2 < e.len() && e[k2].team == other;
                        if k2 != k {
                            assert(e[k2].team != e[k].team);
                        }
                    }
                } else {
                    assert(!exists|k: int| 0 <= k < e2.len() && e2[k].team == other) by {
                        if exists|k: int| 0 <= k < e2.len() && e2[k].team == other {
                            let k = choose|k: int| 0 <= k < e2.len() && e2[k].team == other;
                            assert(k != i);
                            assert(e[k].team == other);
                        }
                    }
                }
            }
            assert forall|other: Seq<char>| other != team implies #[trigger] hatched_of(c2, other) == hatched_of(c, other) by {
                assert(unhatched_of(c2, other) == unhatched_of(c, other));
            }
        },
        None => {
            assert(!exists|k: int| 0 <= k < e.len() && e[k].team == team);
            assert forall|a: int, b: int| 0 <= a < e2.len() && 0 <= b < e2.len() && a != b implies #[trigger] e2[a].team != #[trigger] e2[b].team by {
                if a < e.len() && b < e.len() {
                    assert(e[a].team != e[b].team);
                } else if a < e.len() {
                    assert(e[a].team != team);
                } else {
                    assert(e[b].team != team);
                }
            }
            let i = e.len() as int;
            assert(egg_entry(e2, team) == Some(i)) by {
                assert(e2[i].team == team);
                let k = choose|k: int| 0 <= k < e2.len() && e2[k].team == team;
                if k != i {
                    assert(e2[k].team != e2[i].team);
                }
            }
            assert forall|other: Seq<char>| other != team implies #[trigger] unhatched_of(c2, other) == unhatched_of(c, other)
                && hatched_of(c2, other) == hatched_of(c, other) by {
                if exists|k: int| 0 <= k < e.len() && e[k].team == other {
                    let k = choose|k: int| 0 <= k < e.len() && e[k].team == other;
                    assert(e2[k].team == other);
                    assert(egg_entry(e2, other) == Some(k)) by {
                        let k2 = choose|k2: int| 0 <= k2 < e2.len() && e2[k2].team == other;
                        if k2 != k {
                            assert(e2[k2].team != e2[k].team);
                        }
                    }
                    assert(egg_entry(e, other) == Some(k)) by {
                        let k2 = choose|k2: int| 0 <= k2 < e.len() && e[k2].team == other;
                        if k2 != k {
                            assert(e[k2].team != e[k].team);
                        }
                    }
                } else {
                    assert(!exists|k: int| 0 <= k < e2.len() && e2[k].team == other) by {
                        if exists|k: int| 0 <= k < e2.len() && e2[k].team == other {
                            let k = choose|k: int| 0 <= k < e2.len() && e2[k].team == other;
                            if k < e.len() {
                                assert(e[k].team == other);
                            }
                        }
                    }
                }
            }
            assert forall|other: Seq<char>| other != team implies #[trigger] hatched_of(c2, other) == hatched_of(c, other) by {
                assert(unhatched_of(c2, other) == unhatched_of(c, other));
            }
        },
    }
}


/// A list by increasing ids has only one place for a new id.
pub proof fn lemma_split_unique(ps: Seq<PlayerView>, id: u16, k1: int, k2: int)
    requires
        splits_at(ps, id, k1),
        splits_at(ps, id, k2),
    ensures
        k1 == k2,
{
    if k1 < k2 {
        assert(ps[k1].id > id);
        assert(ps[k1].id < id);
    }
    if k2 < k1 {
        assert(ps[k2].id > id);
        assert(ps[k2].id < id);
    }
}

/// The first position of a non-empty list lies on its own cell at least once.
pub proof fn lemma_count_first(s: Seq<Position>)
    requires
        s.len() > 0,
    ensures
        count_at(s, s[0].x as int, s[0].y as int) >= 1,
{
    lemma_count_drop_first(s, s[0].x as int, s[0].y as int);
}

/// A player joining a team with a free spawn position keeps the game well formed.
pub proof fn lemma_joined_wf(g: GameView, id: u16, name: Seq<char>)
    requires
        game_wf(g),
        !has_player(g.players, id),
        has_team(g.teams, name),
        g.teams[team_idx(g.teams, name)].spawn_positions.len() > 0,
        exists|k: int| splits_at(g.players, id, k),
    ensures
        game_wf(joined(g, id, name)),
        splits_at(g.players, id, insert_index(g.players, id)),
{
    let ti = team_idx(g.teams, name);
    let t = g.teams[ti];
    let pos = t.spawn_positions[0];
    let px = pos.x as int;
    let py = pos.y as int;
    let k0 = insert_index(g.players, id);
    assert(splits_at(g.players, id, k0));
    assert(in_bounds(g.map, t.spawn_positions[0]));
    let c = g.map.field[py][px];
    assert(cell_wf(c));
    lemma_count_first(t.spawn_positions);
    assert(hatched_of(c, t.name) >= spawn_count(t, px, py));
    lemma_eggs_adjusted(c, name, 0, -1);
    lemma_with_player(c.players, id);
    let c2 = CellView { players: with_player(c.players, id), eggs: eggs_adjusted(c.eggs, name, 0, -1), ..c };
    assert(cell_wf(c2));
    lemma_set_cell_wf(g.map, px, py, c2);
    let g2 = joined(g, id, name);
    assert(g2.map == set_cell(g.map, px, py, c2));
    let np = new_player(id, name, pos);
    assert(g2.players == g.players.insert(k0, np));
    assert(g2.players.len() == g.players.len() + 1);
    assert forall|j: int| 0 <= j < g2.players.len() implies #[trigger] g2.players[j] == if j < k0 { g.players[j] } else if j == k0 { np } else { g.players[j - 1] } by {}
    assert forall|a: int, b: int| 0 <= a < b < g2.players.len() implies (#[trigger] g2.players[a]).id < (#[trigger] g2.players[b]).id by {
        if a < k0 && b < k0 {
            assert(g.players[a].id < g.players[b].id);
        } else if a < k0 && b > k0 {
            assert(g.players[a].id < g.players[b - 1].id);
        } else if a > k0 && b > k0 {
            assert(g.players[a - 1].id < g.players[b - 1].id);
        }
    }
    assert(g2.teams[ti].name == name);
    assert forall|tn: Seq<char>| has_team(g.teams, tn) implies has_team(g2.teams, tn) by {
        let k = choose|k: int| 0 <= k < g.teams.len() && g.teams[k].name == tn;
        assert(g2.teams[k].name == tn);
    }
    assert forall|j: int| 0 <= j < g2.players.len() implies player_wf(g2, #[trigger] g2.players[j]) by {
        if j == k0 {
            assert(with_player(c.players, id).contains(id));
        } else {
            let j2 = if j < k0 { j } else { j - 1 };
            let q = g.players[j2];
            assert(player_wf(g, q));
            assert(q.id != id);
        }
    }
    assert forall|x2: int, y2: int, id2: u16|
        0 <= x2 < g2.map.width && 0 <= y2 < g2.map.height && #[trigger] g2.map.field[y2][x2].players.contains(id2)
        implies exists|k: int| 0 <= k < g2.players.len() && #[trigger] g2.players[k].id == id2
            && g2.players[k].position.x == x2 && g2.players[k].position.y == y2 by {
        if x2 == px && y2 == py && id2 == id {
            assert(g2.players[k0].id == id2);
        } else {
            assert(g.map.field[y2][x2].players.contains(id2));
            let k = choose|k: int| 0 <= k < g.players.len() && #[trigger] g.players[k].id == id2
                && g.players[k].position.x == x2 && g.players[k].position.y == y2;
            let k2 = if k < k0 { k } else { k + 1 };
            assert(g2.players[k2].id == id2);
        }
    }
    assert(t.members.no_duplicates());
    crate::team::lemma_with_member(t.members, id);
    assert forall|a: int| 0 <= a < g2.teams.len() implies (#[trigger] g2.teams[a]).members.no_duplicates() by {
        assert(g.teams[a].members.no_duplicates());
    }
    assert forall|a: int, b: int| 0 <= a < g2.teams.len() && 0 <= b < g2.teams.len() && a != b
        implies (#[trigger] g2.teams[a]).name != (#[trigger] g2.teams[b]).name by {
        assert(g.teams[a].name != g.teams[b].name);
    }
    assert forall|a: int, k: int| 0 <= a < g2.teams.len() && 0 <= k < g2.teams[a].spawn_positions.len()
        implies in_bounds(g2.map, #[trigger] g2.teams[a].spawn_positions[k]) by {
        if a == ti {
            assert(in_bounds(g.map, g.teams[a].spawn_positions[k + 1]));
        } else {
            assert(in_bounds(g.map, g.teams[a].spawn_positions[k]));
        }
    }
    lemma_joined_counts(g, id, name);
    assert forall|x2: int, y2: int, k: int| 0 <= x2 < g2.map.width && 0 <= y2 < g2.map.height && 0 <= k < g2.map.field[y2][x2].eggs.len()
        implies (#[trigger] g2.map.field[y2][x2].eggs[k]).unhatched + g2.map.field[y2][x2].eggs[k].hatched <= usize::MAX by {
        if x2 == px && y2 == py {
            if c.eggs[k].team != name {
                assert(c.eggs[k].unhatched + c.eggs[k].hatched <= usize::MAX);
            } else {
                let e = c.eggs;
                let i = egg_entry(e, name).unwrap();
                assert(e[i].team == name);
                assert(i == k) by {
                    if i != k {
                        assert(e[i].team != e[k].team);
                    }
                }
                assert(e[k].unhatched + e[k].hatched <= usize::MAX);
            }
        } else {
            assert(g.map.field[y2][x2].eggs[k].unhatched + g.map.field[y2][x2].eggs[k].hatched <= usize::MAX);
        }
    }
}


/// The egg counts after a player joins stay above what the teams and the schedule need.
proof fn lemma_joined_counts(g: GameView, id: u16, name: Seq<char>)
    requires
        game_wf(g),
        has_team(g.teams, name),
        g.teams[team_idx(g.teams, name)].spawn_positions.len() > 0,
    ensures
        ({
            let g2 = joined(g, id, name);
            &&& forall|a: int, x2: int, y2: int| 0 <= a < g2.teams.len() && 0 <= x2 < g2.map.width && 0 <= y2 < g2.map.height
                ==> hatched_of(#[trigger] g2.map.field[y2][x2], (#[trigger] g2.teams[a]).name) >= spawn_count(g2.teams[a], x2, y2)
            &&& forall|tn: Seq<char>, x2: int, y2: int| 0 <= x2 < g2.map.width && 0 <= y2 < g2.map.height
                ==> #[trigger] unhatched_of(g2.map.field[y2][x2], tn) >= pending_eggs(g2.eggs, tn, x2, y2)
        }),
{
    let ti = team_idx(g.teams, name);
    let t = g.teams[ti];
    let pos = t.spawn_positions[0];
    let px = pos.x as int;
    let py = pos.y as int;
    assert(in_bounds(g.map, t.spawn_positions[0]));
    let c = g.map.field[py][px];
    assert(cell_wf(c));
    lemma_count_first(t.spawn_positions);
    assert(hatched_of(c, t.name) >= spawn_count(t, px, py));
    lemma_eggs_adjusted(c, name, 0, -1);
    let c2 = CellView { players: with_player(c.players, id), eggs: eggs_adjusted(c.eggs, name, 0, -1), ..c };
    let c3 = CellView { eggs: eggs_adjusted(c.eggs, name, 0, -1), ..c };
    assert forall|o: Seq<char>| #[trigger] hatched_of(c2, o) == hatched_of(c3, o) && unhatched_of(c2, o) == unhatched_of(c3, o) by {}
    lemma_with_player(c.players, id);
    assert(cell_wf(c2));
    lemma_set_cell_wf(g.map, px, py, c2);
    let g2 = joined(g, id, name);
    assert(g2.map == set_cell(g.map, px, py, c2));
    assert forall|a: int, x2: int, y2: int| 0 <= a < g2.teams.len() && 0 <= x2 < g2.map.width && 0 <= y2 < g2.map.height
        implies hatched_of(#[trigger] g2.map.field[y2][x2], (#[trigger] g2.teams[a]).name) >= spawn_count(g2.teams[a], x2, y2) by {
        assert(hatched_of(g.map.field[y2][x2], g.teams[a].name) >= spawn_count(g.teams[a], x2, y2));
        if a == ti {
            lemma_count_drop_first(t.spawn_positions, x2, y2);
            assert(g2.teams[a].spawn_positions == t.spawn_positions.drop_first());
            if x2 == px && y2 == py {
                assert(hatched_of(c2, name) == hatched_of(c, name) - 1);
            }
        } else {
            assert(g.teams[a].name != g.teams[ti].name);
            assert(g2.teams[a] == g.teams[a]);
            if x2 == px && y2 == py {
                assert(hatched_of(c2, g.teams[a].name) == hatched_of(c, g.teams[a].name));
            }
        }
    }
    assert forall|tn: Seq<char>, x2: int, y2: int| 0 <= x2 < g2.map.width && 0 <= y2 < g2.map.height
        implies #[trigger] unhatched_of(g2.map.field[y2][x2], tn) >= pending_eggs(g2.eggs, tn, x2, y2) by {
        assert(unhatched_of(g.map.field[y2][x2], tn) >= pending_eggs(g.eggs, tn, x2, y2));
        if x2 == px && y2 == py {
            assert(unhatched_of(c2, tn) == unhatched_of(c3, tn));
            if tn != name {
                assert(unhatched_of(c3, tn) == unhatched_of(c, tn));
            }
        }
    }
}


/// A step on the torus lands on the torus.
pub proof fn lemma_modulo_bounds(v: int, m: int)
    requires
        m >= 1,
    ensures
        0 <= modulo(v, m) < m,
{
}

/// A player stepping in any direction keeps the game well formed.
pub proof fn lemma_moved_wf(g: GameView, i: int, dir: Direction)
    requires
        game_wf(g),
        0 <= i < g.players.len(),
    ensures
        game_wf(moved(g, i, dir)),
        moved(g, i, dir).players.len() == g.players.len(),
        moved(g, i, dir).players[i].id == g.players[i].id,
        moved(g, i, dir).teams == g.teams,
        moved(g, i, dir).eggs == g.eggs,
        moved(g, i, dir).incantation == g.incantation,
        moved(g, i, dir).frame == g.frame,
        moved(g, i, dir).map.width == g.map.width,
        moved(g, i, dir).map.height == g.map.height,
        forall|j: int| 0 <= j < g.players.len() && j != i ==> #[trigger] moved(g, i, dir).players[j] == g.players[j],
        forall|x: int, y: int| 0 <= x < g.map.width && 0 <= y < g.map.height ==>
            (#[trigger] moved(g, i, dir).map.field[y][x]).eggs == g.map.field[y][x].eggs
            && moved(g, i, dir).map.field[y][x].stones == g.map.field[y][x].stones
            && moved(g, i, dir).map.field[y][x].nourriture == g.map.field[y][x].nourriture,
{
    let p = g.players[i];
    assert(player_wf(g, p));
    let (dx, dy) = crate::position::spec_dx_dy(dir);
    let x0 = p.position.x as int;
    let y0 = p.position.y as int;
    let nx = modulo(x0 + dx, g.map.width as int);
    let ny = modulo(y0 + dy, g.map.height as int);
    lemma_modulo_bounds(x0 + dx, g.map.width as int);
    lemma_modulo_bounds(y0 + dy, g.map.height as int);
    let c0 = g.map.field[y0][x0];
    assert(cell_wf(c0));
    lemma_without_player(c0.players, p.id);
    let c0b = CellView { players: without_player(c0.players, p.id), ..c0 };
    let m1 = set_cell(g.map, x0, y0, c0b);
    lemma_set_cell_wf(g.map, x0, y0, c0b);
    let c1 = m1.field[ny][nx];
    assert(cell_wf(c1));
    lemma_with_player(c1.players, p.id);
    let c1b = CellView { players: with_player(c1.players, p.id), ..c1 };
    let m2 = set_cell(m1, nx, ny, c1b);
    lemma_set_cell_wf(m1, nx, ny, c1b);
    let g2 = moved(g, i, dir);
    assert(g2.map == m2);
    let np = g2.players[i];
    assert(np.position.x == nx && np.position.y == ny);
    assert forall|a: int, b: int| 0 <= a < b < g2.players.len() implies (#[trigger] g2.players[a]).id < (#[trigger] g2.players[b]).id by {
        assert(g.players[a].id < g.players[b].id);
    }
    assert forall|j: int| 0 <= j < g2.players.len() implies player_wf(g2, #[trigger] g2.players[j]) by {
        if j != i {
            let q = g.players[j];
            assert(player_wf(g, q));
            assert(q.id != p.id) by {
                if j < i {
                    assert(g.players[j].id < g.players[i].id);
                } else {
                    assert(g.players[i].id < g.players[j].id);
                }
            }
        }
    }
    assert forall|a: int, b: int, id2: u16|
        0 <= a < g2.map.width && 0 <= b < g2.map.height && #[trigger] g2.map.field[b][a].players.contains(id2)
        implies exists|k: int| 0 <= k < g2.players.len() && #[trigger] g2.players[k].id == id2
            && g2.players[k].position.x == a && g2.players[k].position.y == b by {
        if a == nx && b == ny && id2 == p.id {
            assert(g2.players[i].id == id2);
        } else {
            assert(m1.field[b][a].players.contains(id2));
            assert(g.map.field[b][a].players.contains(id2));
            let k = choose|k: int| 0 <= k < g.players.len() && #[trigger] g.players[k].id == id2
                && g.players[k].position.x == a && g.players[k].position.y == b;
            assert(k != i);
            assert(g2.players[k].id == id2);
        }
    }
    assert forall|x2: int, y2: int, k: int| 0 <= x2 < g2.map.width && 0 <= y2 < g2.map.height && 0 <= k < g2.map.field[y2][x2].eggs.len()
        implies (#[trigger] g2.map.field[y2][x2].eggs[k]).unhatched + g2.map.field[y2][x2].eggs[k].hatched <= usize::MAX by {
        assert(g.map.field[y2][x2].eggs[k].unhatched + g.map.field[y2][x2].eggs[k].hatched <= usize::MAX);
    }
    assert forall|a: int, x2: int, y2: int| 0 <= a < g2.teams.len() && 0 <= x2 < g2.map.width && 0 <= y2 < g2.map.height
        implies hatched_of(#[trigger] g2.map.field[y2][x2], (#[trigger] g2.teams[a]).name) >= spawn_count(g2.teams[a], x2, y2) by {
        assert(hatched_of(g.map.field[y2][x2], g.teams[a].name) >= spawn_count(g.teams[a], x2, y2));
    }
    assert forall|tn: Seq<char>, x2: int, y2: int| 0 <= x2 < g2.map.width && 0 <= y2 < g2.map.height
        implies #[trigger] unhatched_of(g2.map.field[y2][x2], tn) >= pending_eggs(g2.eggs, tn, x2, y2) by {
        assert(unhatched_of(g.map.field[y2][x2], tn) >= pending_eggs(g.eggs, tn, x2, y2));
    }
    assert forall|a: int, k: int| 0 <= a < g2.teams.len() && 0 <= k < g2.teams[a].spawn_positions.len()
        implies in_bounds(g2.map, #[trigger] g2.teams[a].spawn_positions[k]) by {
        assert(in_bounds(g.map, g.teams[a].spawn_positions[k]));
    }
    assert forall|a: int, k: int| 0 <= a < g2.eggs.len() && 0 <= k < g2.eggs[a].1.len()
        implies in_bounds(g2.map, (#[trigger] g2.eggs[a].1[k]).position) by {
        assert(in_bounds(g.map, g.eggs[a].1[k].position));
    }
}


/// Changing one player's belongings and the resources of one cell, without moving anyone or
/// touching eggs, keeps the game well formed.
pub proof fn lemma_goods_changed_wf(g: GameView, i: int, p2: PlayerView, x: int, y: int, c2: CellView)
    requires
        game_wf(g),
        0 <= i < g.players.len(),
        p2.id == g.players[i].id,
        p2.team == g.players[i].team,
        p2.position == g.players[i].position,
        p2.inventory.len() == crate::resource::STONE_KINDS,
        1 <= p2.level <= crate::MAX_PLAYER_LVL,
        0 <= x < g.map.width,
        0 <= y < g.map.height,
        c2.players == g.map.field[y][x].players,
        c2.eggs == g.map.field[y][x].eggs,
        c2.stones.len() == crate::resource::STONE_KINDS,
    ensures
        game_wf(GameView { players: g.players.update(i, p2), map: set_cell(g.map, x, y, c2), ..g }),
{
    let c = g.map.field[y][x];
    assert(cell_wf(c));
    assert(cell_wf(c2));
    lemma_set_cell_wf(g.map, x, y, c2);
    let g2 = GameView { players: g.players.update(i, p2), map: set_cell(g.map, x, y, c2), ..g };
    assert forall|a: int, b: int| 0 <= a < b < g2.players.len() implies (#[trigger] g2.players[a]).id < (#[trigger] g2.players[b]).id by {
        assert(g.players[a].id < g.players[b].id);
    }
    assert forall|j: int| 0 <= j < g2.players.len() implies player_wf(g2, #[trigger] g2.players[j]) by {
        assert(player_wf(g, g.players[j]));
    }
    assert forall|a: int, b: int, id2: u16|
        0 <= a < g2.map.width && 0 <= b < g2.map.height && #[trigger] g2.map.field[b][a].players.contains(id2)
        implies exists|k: int| 0 <= k < g2.players.len() && #[trigger] g2.players[k].id == id2
            && g2.players[k].position.x == a && g2.players[k].position.y == b by {
        assert(g.map.field[b][a].players.contains(id2));
        let k = choose|k: int| 0 <= k < g.players.len() && #[trigger] g.players[k].id == id2
            && g.players[k].position.x == a && g.players[k].position.y == b;
        assert(g2.players[k].id == id2);
    }
    assert forall|x2: int, y2: int, k: int| 0 <= x2 < g2.map.width && 0 <= y2 < g2.map.height && 0 <= k < g2.map.field[y2][x2].eggs.len()
        implies (#[trigger] g2.map.field[y2][x2].eggs[k]).unhatched + g2.map.field[y2][x2].eggs[k].hatched <= usize::MAX by {
        assert(g.map.field[y2][x2].eggs[k].unhatched + g.map.field[y2][x2].eggs[k].hatched <= usize::MAX);
    }
    assert forall|a: int, x2: int, y2: int| 0 <= a < g2.teams.len() && 0 <= x2 < g2.map.width && 0 <= y2 < g2.map.height
        implies hatched_of(#[trigger] g2.map.field[y2][x2], (#[trigger] g2.teams[a]).name) >= spawn_count(g2.teams[a], x2, y2) by {
        assert(hatched_of(g.map.field[y2][x2], g.teams[a].name) >= spawn_count(g.teams[a], x2, y2));
    }
    assert forall|tn: Seq<char>, x2: int, y2: int| 0 <= x2 < g2.map.width && 0 <= y2 < g2.map.height
        implies #[trigger] unhatched_of(g2.map.field[y2][x2], tn) >= pending_eggs(g2.eggs, tn, x2, y2) by {
        assert(unhatched_of(g.map.field[y2][x2], tn) >= pending_eggs(g.eggs, tn, x2, y2));
    }
    assert forall|a: int, k: int| 0 <= a < g2.teams.len() && 0 <= k < g2.teams[a].spawn_positions.len()
        implies in_bounds(g2.map, #[trigger] g2.teams[a].spawn_positions[k]) by {
        assert(in_bounds(g.map, g.teams[a].spawn_positions[k]));
    }
    assert forall|a: int, k: int| 0 <= a < g2.eggs.len() && 0 <= k < g2.eggs[a].1.len()
        implies in_bounds(g2.map, (#[trigger] g2.eggs[a].1[k]).position) by {
        assert(in_bounds(g.map, g.eggs[a].1[k].position));
    }
}


/// The pending eggs of a schedule with one entry's list replaced.
pub proof fn lemma_pending_update(s: Seq<(u64, Seq<EggView>)>, i: int, e: (u64, Seq<EggView>), t: Seq<char>, x: int, y: int)
    requires
        0 <= i < s.len(),
    ensures
        pending_eggs(s.update(i, e), t, x, y) + eggs_on(s[i].1, t, x, y) == pending_eggs(s, t, x, y) + eggs_on(e.1, t, x, y),
    decreases s.len(),
{
    let s2 = s.update(i, e);
    if i == s.len() - 1 {
        assert(s2.drop_last() =~= s.drop_last());
    } else {
        lemma_pending_update(s.drop_last(), i, e, t, x, y);
        assert(s2.drop_last() =~= s.drop_last().update(i, e));
    }
}

/// The pending eggs of a schedule without one entry.
pub proof fn lemma_pending_remove(s: Seq<(u64, Seq<EggView>)>, i: int, t: Seq<char>, x: int, y: int)
    requires
        0 <= i < s.len(),
    ensures
        pending_eggs(s.remove(i), t, x, y) + eggs_on(s[i].1, t, x, y) == pending_eggs(s, t, x, y),
    decreases s.len(),
{
    let s2 = s.remove(i);
    if i == s.len() - 1 {
        assert(s2 =~= s.drop_last());
    } else {
        lemma_pending_remove(s.drop_last(), i, t, x, y);
        assert(s2.drop_last() =~= s.drop_last().remove(i));
        assert(s2.last() == s.last());
    }
}

/// Scheduling one more egg adds it to the pending count of its team and cell only, and keeps
/// the keys distinct.
pub proof fn lemma_pending_schedule(s: Seq<(u64, Seq<EggView>)>, k: u64, e: EggView, t: Seq<char>, x: int, y: int)
    requires
        keys_distinct(s),
    ensures
        pending_eggs(schedule(s, k, e), t, x, y) == pending_eggs(s, t, x, y)
            + (if e.team_name == t && e.position.x == x && e.position.y == y { 1nat } else { 0nat }),
        keys_distinct(schedule(s, k, e)),
{
    if has_key(s, k) {
        let i = key_idx(s, k);
        assert(0 <= i < s.len() && s[i].0 == k);
        lemma_pending_update(s, i, (k, s[i].1.push(e)), t, x, y);
        assert(s[i].1.push(e).drop_last() =~= s[i].1);
        assert(eggs_on(s[i].1.push(e), t, x, y) == eggs_on(s[i].1, t, x, y)
            + (if e.team_name == t && e.position.x == x && e.position.y == y { 1nat } else { 0nat }));
        let s2 = schedule(s, k, e);
        assert forall|a: int, b: int| 0 <= a < s2.len() && 0 <= b < s2.len() && a != b implies #[trigger] s2[a].0 != #[trigger] s2[b].0 by {
            assert(s[a].0 != s[b].0);
        }
    } else {
        assert(schedule(s, k, e).drop_last() =~= s);
        assert(seq![e].drop_last() =~= Seq::<EggView>::empty());
        assert(eggs_on(Seq::<EggView>::empty(), t, x, y) == 0);
        assert(eggs_on(seq![e], t, x, y) == (if e.team_name == t && e.position.x == x && e.position.y == y { 1nat } else { 0nat }));
        let s2 = schedule(s, k, e);
        assert forall|a: int, b: int| 0 <= a < s2.len() && 0 <= b < s2.len() && a != b implies #[trigger] s2[a].0 != #[trigger] s2[b].0 by {
            if a < s.len() && b < s.len() {
                assert(s[a].0 != s[b].0);
            }
        }
    }
}

/// A fork keeps the game well formed when its cell's egg counter has room.
pub proof fn lemma_fork_wf(g: GameView, i: int)
    requires
        game_wf(g),
        0 <= i < g.players.len(),
        cell_fits(g.map.field[g.players[i].position.y as int][g.players[i].position.x as int]),
    ensures
        game_wf(fork_step(g, i)),
{
    let p = g.players[i];
    assert(player_wf(g, p));
    let x = p.position.x as int;
    let y = p.position.y as int;
    let c = g.map.field[y][x];
    assert(cell_wf(c));
    let name = p.team;
    assert(unhatched_of(c, name) < usize::MAX) by {
        if egg_entry(c.eggs, name) is Some {
            let k = egg_entry(c.eggs, name).unwrap();
            assert(c.eggs[k].unhatched + c.eggs[k].hatched < usize::MAX);
        }
    }
    lemma_eggs_adjusted(c, name, 1, 0);
    let c2 = CellView { eggs: crate::cell::eggs_adjusted(c.eggs, name, 1, 0), ..c };
    lemma_set_cell_wf(g.map, x, y, c2);
    let egg = EggView { team_name: name, position: p.position };
    let g2 = fork_step(g, i);
    assert forall|a: int, b: int| 0 <= a < b < g2.players.len() implies (#[trigger] g2.players[a]).id < (#[trigger] g2.players[b]).id by {
        assert(g.players[a].id < g.players[b].id);
    }
    assert forall|j: int| 0 <= j < g2.players.len() implies player_wf(g2, #[trigger] g2.players[j]) by {
        assert(player_wf(g, g.players[j]));
    }
    assert forall|a: int, b: int, id2: u16|
        0 <= a < g2.map.width && 0 <= b < g2.map.height && #[trigger] g2.map.field[b][a].players.contains(id2)
        implies exists|k: int| 0 <= k < g2.players.len() && #[trigger] g2.players[k].id == id2
            && g2.players[k].position.x == a && g2.players[k].position.y == b by {
        assert(g.map.field[b][a].players.contains(id2));
        let k = choose|k: int| 0 <= k < g.players.len() && #[trigger] g.players[k].id == id2
            && g.players[k].position.x == a && g.players[k].position.y == b;
        assert(g2.players[k].id == id2);
    }
    assert forall|x2: int, y2: int, k: int| 0 <= x2 < g2.map.width && 0 <= y2 < g2.map.height && 0 <= k < g2.map.field[y2][x2].eggs.len()
        implies (#[trigger] g2.map.field[y2][x2].eggs[k]).unhatched + g2.map.field[y2][x2].eggs[k].hatched <= usize::MAX by {
        if x2 == x && y2 == y {
            let e2 = crate::cell::eggs_adjusted(c.eggs, name, 1, 0);
            if k < c.eggs.len() && c.eggs[k].team != name {
                assert(c.eggs[k].unhatched + c.eggs[k].hatched <= usize::MAX);
            } else {
                let kk = egg_entry(e2, name).unwrap();
                assert(e2[kk].team == name);
                if k < c.eggs.len() {
                    assert(e2[k].team == name) by {
                        if egg_entry(c.eggs, name) is Some {
                            let i0 = egg_entry(c.eggs, name).unwrap();
                            assert(c.eggs[i0].team == name);
                            assert(i0 == k) by {
                                if i0 != k {
                                    assert(c.eggs[i0].team != c.eggs[k].team);
                                }
                            }
                        }
                    }
                } else {
                    assert(e2[k].team == name);
                }
                assert(kk == k) by {
                    if kk != k {
                        assert(e2[kk].team != e2[k].team);
                    }
                }
                assert(hatched_of(c, name) + unhatched_of(c, name) < usize::MAX) by {
                    if egg_entry(c.eggs, name) is Some {
                        let i0 = egg_entry(c.eggs, name).unwrap();
                        assert(c.eggs[i0].unhatched + c.eggs[i0].hatched < usize::MAX);
                    }
                }
            }
        } else {
            assert(g.map.field[y2][x2].eggs[k].unhatched + g.map.field[y2][x2].eggs[k].hatched <= usize::MAX);
        }
    }
    assert forall|a: int, x2: int, y2: int| 0 <= a < g2.teams.len() && 0 <= x2 < g2.map.width && 0 <= y2 < g2.map.height
        implies hatched_of(#[trigger] g2.map.field[y2][x2], (#[trigger] g2.teams[a]).name) >= spawn_count(g2.teams[a], x2, y2) by {
        assert(hatched_of(g.map.field[y2][x2], g.teams[a].name) >= spawn_count(g.teams[a], x2, y2));
        if x2 == x && y2 == y && g.teams[a].name != name {
            assert(hatched_of(c2, g.teams[a].name) == hatched_of(c, g.teams[a].name));
        }
    }
    assert forall|tn: Seq<char>, x2: int, y2: int| 0 <= x2 < g2.map.width && 0 <= y2 < g2.map.height
        implies #[trigger] unhatched_of(g2.map.field[y2][x2], tn) >= pending_eggs(g2.eggs, tn, x2, y2) by {
        assert(unhatched_of(g.map.field[y2][x2], tn) >= pending_eggs(g.eggs, tn, x2, y2));
        lemma_pending_schedule(g.eggs, (g.frame + 600) as u64, egg, tn, x2, y2);
        if x2 == x && y2 == y && tn != name {
            assert(unhatched_of(c2, tn) == unhatched_of(c, tn));
        }
    }
    lemma_pending_schedule(g.eggs, (g.frame + 600) as u64, egg, name, x, y);
    assert forall|a: int, k: int| 0 <= a < g2.teams.len() && 0 <= k < g2.teams[a].spawn_positions.len()
        implies in_bounds(g2.map, #[trigger] g2.teams[a].spawn_positions[k]) by {
        assert(in_bounds(g.map, g.teams[a].spawn_positions[k]));
    }
    assert forall|a: int, k: int| 0 <= a < g2.eggs.len() && 0 <= k < g2.eggs[a].1.len()
        implies in_bounds(g2.map, (#[trigger] g2.eggs[a].1[k]).position) by {
        let s = g.eggs;
        let key = (g.frame + 600) as u64;
        if has_key(s, key) {
            let ii = key_idx(s, key);
            if a == ii && k == s[ii].1.len() {
            } else {
                assert(in_bounds(g.map, g.eggs[a].1[k].position));
            }
        } else {
            if a < s.len() {
                assert(in_bounds(g.map, g.eggs[a].1[k].position));
            }
        }
    }
}


/// Scheduling keeps the keys of a schedule distinct.
pub proof fn lemma_schedule_keys<T>(s: Seq<(u64, Seq<T>)>, k: u64, v: T)
    requires
        keys_distinct(s),
    ensures
        keys_distinct(schedule(s, k, v)),
        schedule(s, k, v).len() >= s.len(),
{
    let s2 = schedule(s, k, v);
    if has_key(s, k) {
        assert forall|a: int, b: int| 0 <= a < s2.len() && 0 <= b < s2.len() && a != b implies #[trigger] s2[a].0 != #[trigger] s2[b].0 by {
            assert(s[a].0 != s[b].0);
        }
    } else {
        assert forall|a: int, b: int| 0 <= a < s2.len() && 0 <= b < s2.len() && a != b implies #[trigger] s2[a].0 != #[trigger] s2[b].0 by {
            if a < s.len() && b < s.len() {
                assert(s[a].0 != s[b].0);
            }
        }
    }
}

/// Starting incantations keeps the game well formed and touches nothing but the incantation
/// flags and schedule.
pub proof fn lemma_started_wf(g: GameView, ids: Seq<u16>)
    requires
        game_wf(g),
        forall|k: int| 0 <= k < ids.len() ==> has_player(g.players, #[trigger] ids[k]),
    ensures
        game_wf(started(g, ids)),
        started(g, ids).players.len() == g.players.len(),
        forall|j: int| 0 <= j < g.players.len() ==> (#[trigger] started(g, ids).players[j]).id == g.players[j].id
            && started(g, ids).players[j].inventory == g.players[j].inventory
            && started(g, ids).players[j].remaining_life == g.players[j].remaining_life
            && started(g, ids).players[j].position == g.players[j].position,
        started(g, ids).map == g.map,
        started(g, ids).teams == g.teams,
        started(g, ids).eggs == g.eggs,
        started(g, ids).frame == g.frame,
    decreases ids.len(),
{
    if ids.len() > 0 {
        let prev = started(g, ids.drop_last());
        lemma_started_wf(g, ids.drop_last());
        let id = ids.last();
        assert(has_player(g.players, id));
        let m = choose|m: int| 0 <= m < g.players.len() && g.players[m].id == id;
        assert(prev.players[m].id == id);
        crate::engine::lemma_player_idx_unique(prev.players, m);
        let i = player_idx(prev.players, id);
        let q = prev.players[i];
        assert(player_wf(prev, q));
        crate::engine::lemma_set_player_wf(prev, i, crate::player::PlayerView { incantating: true, ..q });
        lemma_schedule_keys(prev.incantation, (prev.frame + 300) as u64, id);
        let g4 = crate::model::set_player(prev, i, crate::player::PlayerView { incantating: true, ..q });
        lemma_schedule_changed_wf(g4, schedule(prev.incantation, (prev.frame + 300) as u64, id));
        assert(started(g, ids) == GameView { incantation: schedule(prev.incantation, (prev.frame + 300) as u64, id), ..g4 });
    }
}

/// Replacing the incantation schedule by one with distinct keys keeps the game well formed.
pub proof fn lemma_schedule_changed_wf(g: GameView, inc: Seq<(u64, Seq<u16>)>)
    requires
        game_wf(g),
        keys_distinct(inc),
    ensures
        game_wf(GameView { incantation: inc, ..g }),
{
}


/// Pushing players away keeps the game well formed, its players in place in the list with
/// their belongings, and every cell's goods.
pub proof fn lemma_expelled_wf(g: GameView, ids: Seq<u16>, dir: Direction)
    requires
        game_wf(g),
        forall|k: int| 0 <= k < ids.len() ==> has_player(g.players, #[trigger] ids[k]),
    ensures
        game_wf(expelled(g, ids, dir)),
        expelled(g, ids, dir).players.len() == g.players.len(),
        forall|j: int| 0 <= j < g.players.len() ==> (#[trigger] expelled(g, ids, dir).players[j]).id == g.players[j].id
            && expelled(g, ids, dir).players[j].inventory == g.players[j].inventory
            && expelled(g, ids, dir).players[j].remaining_life == g.players[j].remaining_life
            && expelled(g, ids, dir).players[j].level == g.players[j].level
            && expelled(g, ids, dir).players[j].incantating == g.players[j].incantating,
        expelled(g, ids, dir).teams == g.teams,
        expelled(g, ids, dir).eggs == g.eggs,
        expelled(g, ids, dir).incantation == g.incantation,
        expelled(g, ids, dir).frame == g.frame,
        expelled(g, ids, dir).map.width == g.map.width,
        expelled(g, ids, dir).map.height == g.map.height,
        forall|x: int, y: int| 0 <= x < g.map.width && 0 <= y < g.map.height ==>
            (#[trigger] expelled(g, ids, dir).map.field[y][x]).eggs == g.map.field[y][x].eggs
            && expelled(g, ids, dir).map.field[y][x].stones == g.map.field[y][x].stones
            && expelled(g, ids, dir).map.field[y][x].nourriture == g.map.field[y][x].nourriture,
    decreases ids.len(),
{
    if ids.len() > 0 {
        let prev = expelled(g, ids.drop_last(), dir);
        lemma_expelled_wf(g, ids.drop_last(), dir);
        let id = ids.last();
        assert(has_player(g.players, id));
        let m = choose|m: int| 0 <= m < g.players.len() && g.players[m].id == id;
        assert(prev.players[m].id == id);
        crate::engine::lemma_player_idx_unique(prev.players, m);
        let i = player_idx(prev.players, id);
        lemma_moved_wf(prev, i, dir);
    }
}

/// When no counter changed, a game with room for `n + 1` more steps has room for `n`.
pub proof fn lemma_room_same_counters(g: GameView, g2: GameView, n: nat)
    requires
        room(g, n + 1),
        g2.players.len() == g.players.len(),
        forall|j: int| 0 <= j < g.players.len() ==> (#[trigger] g2.players[j]).inventory == g.players[j].inventory
            && g2.players[j].remaining_life == g.players[j].remaining_life,
        g2.map.width == g.map.width,
        g2.map.height == g.map.height,
        forall|x: int, y: int| 0 <= x < g.map.width && 0 <= y < g.map.height ==>
            (#[trigger] g2.map.field[y][x]).eggs == g.map.field[y][x].eggs
            && g2.map.field[y][x].stones == g.map.field[y][x].stones
            && g2.map.field[y][x].nourriture == g.map.field[y][x].nourriture,
    ensures
        room(g2, n),
{
    assert forall|a: int, k: int| 0 <= a < g2.players.len() && 0 <= k < STONE_KINDS implies #[trigger] g2.players[a].inventory[k] + n <= usize::MAX by {
        assert(g.players[a].inventory[k] + n + 1 <= usize::MAX);
    }
    assert forall|a: int| 0 <= a < g2.players.len() implies (#[trigger] g2.players[a]).remaining_life + n * crate::LIFE_TICKS <= u64::MAX by {
        assert(g.players[a].remaining_life + (n + 1) * crate::LIFE_TICKS <= u64::MAX);
        assert((n + 1) * crate::LIFE_TICKS == n * crate::LIFE_TICKS + crate::LIFE_TICKS) by (nonlinear_arith);
    }
    assert forall|x2: int, y2: int, k: int| 0 <= x2 < g2.map.width && 0 <= y2 < g2.map.height && 0 <= k < STONE_KINDS
        implies #[trigger] g2.map.field[y2][x2].stones[k] + n <= usize::MAX by {
        assert(g.map.field[y2][x2].stones[k] + n + 1 <= usize::MAX);
    }
    assert forall|x2: int, y2: int| 0 <= x2 < g2.map.width && 0 <= y2 < g2.map.height
        implies (#[trigger] g2.map.field[y2][x2]).nourriture + n <= usize::MAX by {
        assert(g.map.field[y2][x2].nourriture + n + 1 <= usize::MAX);
    }
    assert forall|x2: int, y2: int, k: int| 0 <= x2 < g2.map.width && 0 <= y2 < g2.map.height && 0 <= k < g2.map.field[y2][x2].eggs.len()
        implies (#[trigger] g2.map.field[y2][x2].eggs[k]).unhatched + g2.map.field[y2][x2].eggs[k].hatched + n <= usize::MAX by {
        assert(g.map.field[y2][x2].eggs[k].unhatched + g.map.field[y2][x2].eggs[k].hatched + n + 1 <= usize::MAX);
    }
}

/// Room for `n + 1` more steps gives every player and cell room for one more.
pub proof fn lemma_room_fits(g: GameView, n: nat)
    requires
        room(g, n + 1),
        map_wf(g.map),
    ensures
        forall|i: int| 0 <= i < g.players.len() ==> player_fits(#[trigger] g.players[i]),
        forall|x: int, y: int| 0 <= x < g.map.width && 0 <= y < g.map.height ==> cell_fits(#[trigger] g.map.field[y][x]),
{
    assert forall|i: int| 0 <= i < g.players.len() implies player_fits(#[trigger] g.players[i]) by {
        assert forall|k: int| 0 <= k < STONE_KINDS implies #[trigger] g.players[i].inventory[k] < usize::MAX by {
            assert(g.players[i].inventory[k] + n + 1 <= usize::MAX);
        }
        assert(g.players[i].remaining_life + (n + 1) * crate::LIFE_TICKS <= u64::MAX);
        assert((n + 1) * crate::LIFE_TICKS >= crate::LIFE_TICKS) by (nonlinear_arith);
    }
    assert forall|x: int, y: int| 0 <= x < g.map.width && 0 <= y < g.map.height implies cell_fits(#[trigger] g.map.field[y][x]) by {
        let c = g.map.field[y][x];
        assert forall|k: int| 0 <= k < STONE_KINDS implies #[trigger] c.stones[k] < usize::MAX by {
            assert(g.map.field[y][x].stones[k] + n + 1 <= usize::MAX);
        }
        assert forall|k: int| 0 <= k < c.eggs.len() implies (#[trigger] c.eggs[k]).unhatched + c.eggs[k].hatched < usize::MAX by {
            assert(g.map.field[y][x].eggs[k].unhatched + g.map.field[y][x].eggs[k].hatched + n + 1 <= usize::MAX);
        }
    }
}


/// When every counter moved at most one step (food in an inventory: at most `LIFE_TICKS`),
/// a game with room for `n + 1` more steps has room for `n`.
pub proof fn lemma_room_bumped(g: GameView, g2: GameView, n: nat)
    requires
        room(g, n + 1),
        g2.players.len() == g.players.len(),
        forall|j: int, k: int| 0 <= j < g.players.len() && 0 <= k < STONE_KINDS ==> #[trigger] g2.players[j].inventory[k] <= g.players[j].inventory[k] + 1,
        forall|j: int| 0 <= j < g.players.len() ==> (#[trigger] g2.players[j]).remaining_life <= g.players[j].remaining_life + crate::LIFE_TICKS,
        g2.map.width == g.map.width,
        g2.map.height == g.map.height,
        forall|x: int, y: int, k: int| 0 <= x < g.map.width && 0 <= y < g.map.height && 0 <= k < STONE_KINDS ==>
            #[trigger] g2.map.field[y][x].stones[k] <= g.map.field[y][x].stones[k] + 1,
        forall|x: int, y: int| 0 <= x < g.map.width && 0 <= y < g.map.height ==>
            (#[trigger] g2.map.field[y][x]).nourriture <= g.map.field[y][x].nourriture + 1,
        forall|x: int, y: int, k: int| 0 <= x < g.map.width && 0 <= y < g.map.height && 0 <= k < g2.map.field[y][x].eggs.len() ==>
            (#[trigger] g2.map.field[y][x].eggs[k]).unhatched + g2.map.field[y][x].eggs[k].hatched <= 1 + (
                if k < g.map.field[y][x].eggs.len() { g.map.field[y][x].eggs[k].unhatched + g.map.field[y][x].eggs[k].hatched } else { 0 }),
    ensures
        room(g2, n),
{
    assert forall|a: int, k: int| 0 <= a < g2.players.len() && 0 <= k < STONE_KINDS implies #[trigger] g2.players[a].inventory[k] + n <= usize::MAX by {
        assert(g.players[a].inventory[k] + n + 1 <= usize::MAX);
    }
    assert forall|a: int| 0 <= a < g2.players.len() implies (#[trigger] g2.players[a]).remaining_life + n * crate::LIFE_TICKS <= u64::MAX by {
        assert(g.players[a].remaining_life + (n + 1) * crate::LIFE_TICKS <= u64::MAX);
        assert((n + 1) * crate::LIFE_TICKS == n * crate::LIFE_TICKS + crate::LIFE_TICKS) by (nonlinear_arith);
    }
    assert forall|x2: int, y2: int, k: int| 0 <= x2 < g2.map.width && 0 <= y2 < g2.map.height && 0 <= k < STONE_KINDS
        implies #[trigger] g2.map.field[y2][x2].stones[k] + n <= usize::MAX by {
        assert(g.map.field[y2][x2].stones[k] + n + 1 <= usize::MAX);
    }
    assert forall|x2: int, y2: int| 0 <= x2 < g2.map.width && 0 <= y2 < g2.map.height
        implies (#[trigger] g2.map.field[y2][x2]).nourriture + n <= usize::MAX by {
        assert(g.map.field[y2][x2].nourriture + n + 1 <= usize::MAX);
    }
    assert forall|x2: int, y2: int, k: int| 0 <= x2 < g2.map.width && 0 <= y2 < g2.map.height && 0 <= k < g2.map.field[y2][x2].eggs.len()
        implies (#[trigger] g2.map.field[y2][x2].eggs[k]).unhatched + g2.map.field[y2][x2].eggs[k].hatched + n <= usize::MAX by {
        if k < g.map.field[y2][x2].eggs.len() {
            assert(g.map.field[y2][x2].eggs[k].unhatched + g.map.field[y2][x2].eggs[k].hatched + n + 1 <= usize::MAX);
        }
    }
}

/// A command whose player is in the game keeps the player list's ids in place and leaves
/// every counter of the game at most one step further.
pub proof fn lemma_apply_cmd_room(g: GameView, id: u16, cmd: crate::commands::PlayerCmdView, n: nat)
    requires
        game_wf(g),
        has_player(g.players, id),
        room(g, n + 1),
        g.frame + 600 <= u64::MAX,
    ensures
        room(apply_cmd(g, id, cmd).0, n),
        apply_cmd(g, id, cmd).0.players.len() == g.players.len(),
        forall|j: int| 0 <= j < g.players.len() ==> (#[trigger] apply_cmd(g, id, cmd).0.players[j]).id == g.players[j].id,
        apply_cmd(g, id, cmd).0.frame == g.frame,
{
    let i = player_idx(g.players, id);
    let p = g.players[i];
    assert(player_wf(g, p));
    let x = p.position.x as int;
    let y = p.position.y as int;
    let c = g.map.field[y][x];
    assert(cell_wf(c));
    let g2 = apply_cmd(g, id, cmd).0;
    match cmd {
        crate::commands::PlayerCmdView::Move => {
            lemma_moved_wf(g, i, p.position.dir);
            lemma_room_same_counters(g, g2, n);
        },
        crate::commands::PlayerCmdView::Expel => {
            let targets = c.players.filter(other_than(id));
            assert forall|k: int| 0 <= k < targets.len() implies has_player(g.players, #[trigger] targets[k]) by {
                c.players.lemma_filter_pred(other_than(id), k);
                assert(targets.contains(targets[k]));
                c.players.lemma_filter_contains_rev(other_than(id), targets[k]);
                let m = choose|m: int| 0 <= m < g.players.len() && #[trigger] g.players[m].id == targets[k]
                    && g.players[m].position.x == x && g.players[m].position.y == y;
            }
            lemma_expelled_wf(g, targets, p.position.dir);
            lemma_room_same_counters(g, g2, n);
        },
        crate::commands::PlayerCmdView::Take(name) => {
            lemma_set_cell_wf(g.map, x, y, c);
            match crate::resource::spec_resource_from_name(name) {
                Some(r) => {
                    if crate::cell::resource_count(c, r) >= 1 {
                        let c2 = crate::cell::cell_remove_resource(c, r);
                        lemma_set_cell_wf(g.map, x, y, c2);
                    }
                },
                None => {},
            }
            lemma_room_bumped(g, g2, n);
        },
        crate::commands::PlayerCmdView::Put(name) => {
            match crate::resource::spec_resource_from_name(name) {
                Some(r) => {
                    if crate::player::spec_can_remove(p, r) {
                        let c2 = crate::cell::cell_add_resource(c, r);
                        lemma_set_cell_wf(g.map, x, y, c2);
                    }
                },
                None => {},
            }
            lemma_room_bumped(g, g2, n);
        },
        crate::commands::PlayerCmdView::Incantation => {
            lemma_incantation_room(g, i, n);
        },
        crate::commands::PlayerCmdView::Fork => {
            lemma_fork_room(g, i, n);
        },
        _ => {
            lemma_room_same_counters(g, g2, n);
        },
    }
}

/// An incantation moves no counter up and keeps the player list's ids.
proof fn lemma_incantation_room(g: GameView, i: int, n: nat)
    requires
        game_wf(g),
        0 <= i < g.players.len(),
        room(g, n + 1),
    ensures
        room(incantation_step(g, i).0, n),
        incantation_step(g, i).0.players.len() == g.players.len(),
        forall|j: int| 0 <= j < g.players.len() ==> (#[trigger] incantation_step(g, i).0.players[j]).id == g.players[j].id,
        incantation_step(g, i).0.frame == g.frame,
{
    let p = g.players[i];
    assert(player_wf(g, p));
    let x = p.position.x as int;
    let y = p.position.y as int;
    let c = g.map.field[y][x];
    assert(cell_wf(c));
    let g2 = incantation_step(g, i).0;
    if g2 == g {
        lemma_room_same_counters(g, g2, n);
    } else {
        let same = joiners(g, c, p.level);
        let c2 = CellView { stones: crate::resource::minus(c.stones, crate::player::spec_stone_requirement(p.level)), ..c };
        lemma_set_cell_wf(g.map, x, y, c2);
        let g1 = with_map(g, set_cell(g.map, x, y, c2));
        assert forall|k: int| 0 <= k < same.len() implies has_player(g1.players, #[trigger] same[k]) by {
            c.players.lemma_filter_pred(can_join(g, p.level), k);
            assert(same.contains(same[k]));
            c.players.lemma_filter_contains_rev(can_join(g, p.level), same[k]);
            let m = choose|m: int| 0 <= m < g.players.len() && #[trigger] g.players[m].id == same[k]
                && g.players[m].position.x == x && g.players[m].position.y == y;
            assert(g1.players[m].id == same[k]);
        }
        lemma_goods_changed_wf(g, i, p, x, y, c2);
        assert(g.players.update(i, p) =~= g.players);
        lemma_started_wf(g1, same);
        lemma_room_bumped(g, g2, n);
    }
}

/// A fork adds one egg to one cell and keeps the player list.
proof fn lemma_fork_room(g: GameView, i: int, n: nat)
    requires
        game_wf(g),
        0 <= i < g.players.len(),
        room(g, n + 1),
    ensures
        room(fork_step(g, i), n),
        fork_step(g, i).players == g.players,
        fork_step(g, i).frame == g.frame,
{
    let p = g.players[i];
    assert(player_wf(g, p));
    let x = p.position.x as int;
    let y = p.position.y as int;
    let c = g.map.field[y][x];
    assert(cell_wf(c));
    let name = p.team;
    assert(unhatched_of(c, name) + hatched_of(c, name) < usize::MAX) by {
        if egg_entry(c.eggs, name) is Some {
            let k = egg_entry(c.eggs, name).unwrap();
            assert(c.eggs[k].unhatched + c.eggs[k].hatched + n + 1 <= usize::MAX);
        }
    }
    lemma_eggs_adjusted(c, name, 1, 0);
    let e2 = eggs_adjusted(c.eggs, name, 1, 0);
    let c2 = CellView { eggs: e2, ..c };
    lemma_set_cell_wf(g.map, x, y, c2);
    let g2 = fork_step(g, i);
    assert forall|x2: int, y2: int, k: int| 0 <= x2 < g.map.width && 0 <= y2 < g.map.height && 0 <= k < g2.map.field[y2][x2].eggs.len() implies
        (#[trigger] g2.map.field[y2][x2].eggs[k]).unhatched + g2.map.field[y2][x2].eggs[k].hatched <= 1 + (
            if k < g.map.field[y2][x2].eggs.len() { g.map.field[y2][x2].eggs[k].unhatched + g.map.field[y2][x2].eggs[k].hatched } else { 0 }) by {
        if x2 == x && y2 == y {
            let kk = egg_entry(e2, name).unwrap();
            if k < c.eggs.len() && c.eggs[k].team != name {
            } else if k == kk {
                if egg_entry(c.eggs, name) is Some {
                    let i0 = egg_entry(c.eggs, name).unwrap();
                    assert(c.eggs[i0].team == name);
                    assert(e2[i0].team == name);
                    assert(i0 == kk) by {
                        if i0 != kk {
                            assert(e2[i0].team != e2[kk].team);
                        }
                    }
                } else {
                    assert(kk == c.eggs.len()) by {
                        assert(e2[c.eggs.len() as int].team == name);
                        if kk != c.eggs.len() {
                            assert(e2[kk].team != e2[c.eggs.len() as int].team);
                        }
                    }
                }
            } else {
                assert(e2[k].team == name) by {
                    if k < c.eggs.len() {
                        assert(c.eggs[k].team == name);
                        if egg_entry(c.eggs, name) is Some {
                            let i0 = egg_entry(c.eggs, name).unwrap();
                            assert(i0 == k) by {
                                if i0 != k {
                                    assert(c.eggs[i0].team != c.eggs[k].team);
                                }
                            }
                        }
                    }
                }
                assert(e2[kk].team == name);
                assert(e2[k].team != e2[kk].team);
            }
        }
    }
    lemma_room_bumped(g, g2, n);
}


/// Aging every player and moving to the next frame keeps the game well formed and its room.
#[verifier::spinoff_prover]
#[verifier::rlimit(30)]
pub proof fn lemma_aged_wf(g: GameView, cf: u64, n: nat)
    requires
        game_wf(g),
    ensures
        game_wf(GameView { players: crate::model::aged_all(g.players, cf), frame: cf, ..g }),
        room(g, n) ==> room(GameView { players: crate::model::aged_all(g.players, cf), frame: cf, ..g }, n),
{
    let g2 = GameView { players: crate::model::aged_all(g.players, cf), frame: cf, ..g };
    assert forall|j: int| 0 <= j < g.players.len() implies #[trigger] g2.players[j] == aged(g.players[j], cf) by {}
    assert forall|a: int, b: int| 0 <= a < b < g2.players.len() implies (#[trigger] g2.players[a]).id < (#[trigger] g2.players[b]).id by {
        assert(g.players[a].id < g.players[b].id);
    }
    assert forall|j: int| 0 <= j < g2.players.len() implies player_wf(g2, #[trigger] g2.players[j]) by {
        assert(player_wf(g, g.players[j]));
    }
    assert forall|a: int, b: int, id2: u16|
        0 <= a < g2.map.width && 0 <= b < g2.map.height && #[trigger] g2.map.field[b][a].players.contains(id2)
        implies exists|k: int| 0 <= k < g2.players.len() && #[trigger] g2.players[k].id == id2
            && g2.players[k].position.x == a && g2.players[k].position.y == b by {
        let k = choose|k: int| 0 <= k < g.players.len() && #[trigger] g.players[k].id == id2
            && g.players[k].position.x == a && g.players[k].position.y == b;
        assert(g2.players[k].id == id2);
    }
    if room(g, n) {
        assert forall|a: int, k: int| 0 <= a < g2.players.len() && 0 <= k < STONE_KINDS implies #[trigger] g2.players[a].inventory[k] + n <= usize::MAX by {
            assert(g.players[a].inventory[k] + n <= usize::MAX);
        }
        assert forall|a: int| 0 <= a < g2.players.len() implies (#[trigger] g2.players[a]).remaining_life + n * crate::LIFE_TICKS <= u64::MAX by {
            assert(g.players[a].remaining_life + n * crate::LIFE_TICKS <= u64::MAX);
        }
    }
}

/// Room shrinks with its measure: room for `n` steps is room for fewer.
pub proof fn lemma_room_less(g: GameView, n: nat, m: nat)
    requires
        room(g, n),
        m <= n,
    ensures
        room(g, m),
{
    assert forall|a: int| 0 <= a < g.players.len() implies (#[trigger] g.players[a]).remaining_life + m * crate::LIFE_TICKS <= u64::MAX by {
        assert(m * crate::LIFE_TICKS <= n * crate::LIFE_TICKS) by (nonlinear_arith)
            requires m <= n;
    }
}

/// A player leaving keeps the room of the game and every other player's id.
pub proof fn lemma_removed_room(g: GameView, id: u16, n: nat)
    requires
        game_wf(g),
        room(g, n),
    ensures
        room(removed(g, id), n),
        forall|other: u16| other != id && has_player(g.players, other) ==> #[trigger] has_player(removed(g, id).players, other),
        removed(g, id).frame == g.frame,
{
    if has_player(g.players, id) {
        let i = player_idx(g.players, id);
        let p = g.players[i];
        assert(player_wf(g, p));
        let x = p.position.x as int;
        let y = p.position.y as int;
        let c = g.map.field[y][x];
        assert(cell_wf(c));
        lemma_without_player(c.players, id);
        let c2 = CellView { players: without_player(c.players, id), ..c };
        lemma_set_cell_wf(g.map, x, y, c2);
        let g2 = removed(g, id);
        assert forall|j: int| 0 <= j < g2.players.len() implies #[trigger] g2.players[j] == g.players[if j < i { j } else { j + 1 }] by {}
        assert forall|a: int, k: int| 0 <= a < g2.players.len() && 0 <= k < STONE_KINDS implies #[trigger] g2.players[a].inventory[k] + n <= usize::MAX by {
            let a2 = if a < i { a } else { a + 1 };
            assert(g.players[a2].inventory[k] + n <= usize::MAX);
        }
        assert forall|a: int| 0 <= a < g2.players.len() implies (#[trigger] g2.players[a]).remaining_life + n * crate::LIFE_TICKS <= u64::MAX by {
            let a2 = if a < i { a } else { a + 1 };
            assert(g.players[a2].remaining_life + n * crate::LIFE_TICKS <= u64::MAX);
        }
        assert forall|x2: int, y2: int, k: int| 0 <= x2 < g2.map.width && 0 <= y2 < g2.map.height && 0 <= k < STONE_KINDS
            implies #[trigger] g2.map.field[y2][x2].stones[k] + n <= usize::MAX by {
            assert(g.map.field[y2][x2].stones[k] + n <= usize::MAX);
        }
        assert forall|x2: int, y2: int| 0 <= x2 < g2.map.width && 0 <= y2 < g2.map.height
            implies (#[trigger] g2.map.field[y2][x2]).nourriture + n <= usize::MAX by {
            assert(g.map.field[y2][x2].nourriture + n <= usize::MAX);
        }
        assert forall|x2: int, y2: int, k: int| 0 <= x2 < g2.map.width && 0 <= y2 < g2.map.height && 0 <= k < g2.map.field[y2][x2].eggs.len()
            implies (#[trigger] g2.map.field[y2][x2].eggs[k]).unhatched + g2.map.field[y2][x2].eggs[k].hatched + n <= usize::MAX by {
            assert(g.map.field[y2][x2].eggs[k].unhatched + g.map.field[y2][x2].eggs[k].hatched + n <= usize::MAX);
        }
        assert forall|other: u16| other != id && has_player(g.players, other) implies #[trigger] has_player(g2.players, other) by {
            let m = choose|m: int| 0 <= m < g.players.len() && g.players[m].id == other;
            assert(m != i);
            let m2 = if m < i { m } else { m - 1 };
            assert(g2.players[m2].id == other);
        }
    }
}

/// Players leaving one after another keep the game well formed, its room and every other
/// player.
pub proof fn lemma_removed_all(g: GameView, ids: Seq<u16>, n: nat)
    requires
        game_wf(g),
        room(g, n),
    ensures
        game_wf(removed_all(g, ids)),
        room(removed_all(g, ids), n),
        forall|other: u16| !ids.contains(other) && has_player(g.players, other) ==> #[trigger] has_player(removed_all(g, ids).players, other),
        removed_all(g, ids).frame == g.frame,
    decreases ids.len(),
{
    if ids.len() > 0 {
        lemma_removed_all(g, ids.drop_last(), n);
        let prev = removed_all(g, ids.drop_last());
        lemma_removed_wf(prev, ids.last());
        lemma_removed_room(prev, ids.last(), n);
        assert forall|other: u16| !ids.contains(other) && has_player(g.players, other) implies #[trigger] has_player(removed_all(g, ids).players, other) by {
            assert(!ids.drop_last().contains(other)) by {
                if ids.drop_last().contains(other) {
                    let k = choose|k: int| 0 <= k < ids.drop_last().len() && ids.drop_last()[k] == other;
                    assert(ids[k] == other);
                }
            }
            assert(other != ids.last()) by {
                assert(ids[ids.len() - 1] == ids.last());
            }
        }
    }
}

} // verus!
