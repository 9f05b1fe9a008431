//! What the terminal view of the game writes in each cell and for each team: texts with the
//! colors they are drawn in.
use vstd::prelude::*;

use crate::color::{spec_color_at, ZappyColor, COLOR_COUNT};
use crate::map::WorldMap;
use crate::player::{Player, PlayerView};
use crate::position::Direction;
use crate::resource::{spec_alias, spec_resource_at, Resource, StoneSet, STONE_KINDS};
use crate::text::{decimal, decimal_text, lemma_text_less_asymmetric, text_less};
use crate::cell::{egg_entry, hatched_of, unhatched_of, CellView};

verus! {

/// The ways the game can be drawn: in a terminal, or on a torus in 3D.
#[derive(Debug, Clone, Copy, PartialEq, Eq, Structural)]
pub enum Engine {
    Console,
    Torus,
}

/// The color food is drawn in.
pub const NOURRITURE_COLOR: ZappyColor = ZappyColor::LightMagenta;

/// The arrow a direction is drawn as.
pub open spec fn direction_arrow(d: Direction) -> Seq<char> {
    match d {
        Direction::North => "^"@,
        Direction::East => ">"@,
        Direction::South => "v"@,
        Direction::West => "<"@,
    }
}

/// The arrow a direction is drawn as.
pub fn direction_to_emoji(direction: &Direction) -> (s: &'static str)
    ensures
        s@ == direction_arrow(*direction),
{
    match direction {
        Direction::North => "^",
        Direction::East => ">",
        Direction::South => "v",
        Direction::West => "<",
    }
}

/// `n` copies of a text, one after the other.
pub open spec fn repeat_seq(t: Seq<char>, n: nat) -> Seq<char>
    decreases n,
{
    if n == 0 {
        Seq::empty()
    } else {
        repeat_seq(t, (n - 1) as nat) + t
    }
}

/// `n` copies of a text, one after the other.
fn repeated(t: &str, n: usize) -> (s: String)
    ensures
        s@ == repeat_seq(t@, n as nat),
{
    let mut s = String::new();
    let mut i: usize = 0;
    while i < n
        invariant
            i <= n,
            s@ == repeat_seq(t@, i as nat),
        decreases n - i,
    {
        s.append(t);
        i = i + 1;
    }
    s
}

/// The letter of a resource, as a text.
fn alias_text(r: Resource) -> (s: &'static str)
    ensures
        s@ == seq![spec_alias(r)],
{
    proof {
        reveal_strlit("D");
        reveal_strlit("L");
        reveal_strlit("M");
        reveal_strlit("P");
        reveal_strlit("S");
        reveal_strlit("T");
        reveal_strlit("N");
    }
    match r {
        Resource::Stone(crate::resource::Stone::Deraumere) => "D",
        Resource::Stone(crate::resource::Stone::Linemate) => "L",
        Resource::Stone(crate::resource::Stone::Mendiane) => "M",
        Resource::Stone(crate::resource::Stone::Phiras) => "P",
        Resource::Stone(crate::resource::Stone::Sibur) => "S",
        Resource::Stone(crate::resource::Stone::Thystame) => "T",
        Resource::Nourriture => "N",
    }
}

/// The pieces of text a cell's resources are drawn as: one `N` per unit of food, then for
/// each stone that lies there its letter as many times as it lies there, each piece with its
/// color (the palette's color of the stone's index).
pub open spec fn resource_pieces(nourriture: nat, stones: Seq<usize>) -> Seq<(Seq<char>, ZappyColor)> {
    Seq::new(nourriture, |i: int| ("N"@, NOURRITURE_COLOR)) + stone_pieces_from(stones, 0)
}

/// The pieces of the stones from index `i` on that lie on a cell.
pub open spec fn stone_pieces_from(stones: Seq<usize>, i: int) -> Seq<(Seq<char>, ZappyColor)>
    decreases STONE_KINDS - i,
{
    if i < 0 || i >= STONE_KINDS {
        Seq::empty()
    } else if stones[i] == 0 {
        stone_pieces_from(stones, i + 1)
    } else {
        seq![(repeat_seq(seq![spec_alias(spec_resource_at(i))], stones[i] as nat), spec_color_at(i))]
            + stone_pieces_from(stones, i + 1)
    }
}

/// The views of a list of colored texts.
pub open spec fn pieces_view(v: Seq<(String, ZappyColor)>) -> Seq<(Seq<char>, ZappyColor)> {
    v.map_values(|p: (String, ZappyColor)| (p.0@, p.1))
}

/// The pieces of text a cell's resources are drawn as.
pub fn resource_spans(nourriture: usize, stones: &StoneSet) -> (v: Vec<(String, ZappyColor)>)
    ensures
        pieces_view(v@) == resource_pieces(nourriture as nat, stones@),
{
    let mut v: Vec<(String, ZappyColor)> = Vec::new();
    let mut i: usize = 0;
    while i < nourriture
        invariant
            i <= nourriture,
            v@.len() == i,
            pieces_view(v@) == Seq::new(i as nat, |k: int| ("N"@, NOURRITURE_COLOR)),
        decreases nourriture - i,
    {
        let ghost before = v@;
        let n_text = String::from_str("N");
        proof {
            assert(n_text@ == "N"@);
        }
        v.push((n_text, NOURRITURE_COLOR));
        proof {
            assert(v@ == before.push((n_text, NOURRITURE_COLOR)));
            assert(pieces_view(v@)[i as int] == ("N"@, NOURRITURE_COLOR));
            assert forall|k: int| 0 <= k < i implies #[trigger] pieces_view(v@)[k] == pieces_view(before)[k] by {}
        }
        i = i + 1;
        proof {
            assert(pieces_view(v@) =~= Seq::new(i as nat, |k: int| ("N"@, NOURRITURE_COLOR)));
        }
    }
    let ghost food = pieces_view(v@);
    let mut k: usize = STONE_KINDS;
    let mut tail: Vec<(String, ZappyColor)> = Vec::new();
    proof {
        assert(pieces_view(tail@) =~= stone_pieces_from(stones@, 6));
    }
    while k > 0
        invariant
            k <= STONE_KINDS,
            stones@.len() == STONE_KINDS,
            pieces_view(tail@) == stone_pieces_from(stones@, k as int),
        decreases k,
    {
        k = k - 1;
        if stones[k] > 0 {
            let piece = (repeated(alias_text(Resource::from_index(k)), stones[k]), ZappyColor::idx(k));
            let ghost rest = pieces_view(tail@);
            let mut front: Vec<(String, ZappyColor)> = Vec::new();
            front.push(piece);
            front.append(&mut tail);
            tail = front;
            proof {
                assert(k as int % COLOR_COUNT as int == k as int);
                assert(pieces_view(tail@) =~= seq![(repeat_seq(seq![spec_alias(spec_resource_at(k as int))], stones@[k as int] as nat), spec_color_at(k as int))] + rest);
            }
        }
    }
    let ghost stones_part = pieces_view(tail@);
    v.append(&mut tail);
    proof {
        assert(pieces_view(v@) =~= food + stones_part);
    }
    v
}

/// The label of a player: in brackets, a statue when it is in an incantation, its id and the
/// arrow of its direction.
pub open spec fn player_label_text(p: PlayerView) -> Seq<char> {
    "["@ + (if p.incantating { "🗿"@ } else { Seq::empty() }) + decimal(p.id as nat) + direction_arrow(p.position.dir) + "]"@
}

/// The label a player is drawn with.
pub fn player_label(player: &Player) -> (s: String)
    ensures
        s@ == player_label_text(player@),
{
    let mut s = String::from_str("[");
    if player.is_performing_incantation() {
        s.append("🗿");
    }
    s.append(decimal_text(player.id() as u64).as_str());
    s.append(direction_to_emoji(&player.position().dir));
    s.append("]");
    proof {
        if !player@.incantating {
            assert("["@ + Seq::<char>::empty() =~= "["@);
        }
    }
    s
}

/// The label of a team's eggs on a cell: nothing when there are none, otherwise in
/// parentheses an egg for each egg still hatching and a chick for each hatched one.
pub open spec fn eggs_label_text(unhatched: nat, hatched: nat) -> Seq<char> {
    if unhatched == 0 && hatched == 0 {
        Seq::empty()
    } else {
        "("@ + repeat_seq("🥚"@, unhatched) + repeat_seq("🐣"@, hatched) + ")"@
    }
}

/// The label a team's eggs on a cell are drawn with.
pub fn eggs_label(unhatched: usize, hatched: usize) -> (s: String)
    ensures
        s@ == eggs_label_text(unhatched as nat, hatched as nat),
{
    if unhatched == 0 && hatched == 0 {
        return String::new();
    }
    let mut s = String::from_str("(");
    s.append(repeated("🥚", unhatched).as_str());
    s.append(repeated("🐣", hatched).as_str());
    s.append(")");
    s
}

/// The teams of a view by increasing name and its players by increasing id, as the game
/// keeps them.
pub open spec fn data_ordered(teams: Seq<(String, (ZappyColor, usize))>, players: Seq<Player>) -> bool {
    &&& forall|i: int, j: int| 0 <= i < j < teams.len() ==> text_less((#[trigger] teams[i]).0@, (#[trigger] teams[j]).0@)
    &&& forall|i: int, j: int| 0 <= i < j < players.len() ==> (#[trigger] players[i])@.id < (#[trigger] players[j])@.id
}

/// Teams in increasing name order have distinct names.
pub proof fn lemma_ordered_names_distinct(teams: Seq<(String, (ZappyColor, usize))>)
    requires
        forall|i: int, j: int| 0 <= i < j < teams.len() ==> text_less((#[trigger] teams[i]).0@, (#[trigger] teams[j]).0@),
    ensures
        forall|i: int, j: int| 0 <= i < teams.len() && 0 <= j < teams.len() && i != j
            ==> (#[trigger] teams[i]).0@ != (#[trigger] teams[j]).0@,
{
    assert forall|i: int, j: int| 0 <= i < teams.len() && 0 <= j < teams.len() && i != j
        implies (#[trigger] teams[i]).0@ != (#[trigger] teams[j]).0@ by {
        lemma_text_less_asymmetric(teams[i].0@, teams[j].0@);
        lemma_text_less_asymmetric(teams[j].0@, teams[i].0@);
    }
}

/// What the view draws: the map, the players, and each team with its color and its number
/// of members.
pub struct ServerData {
    pub map: WorldMap,
    pub players: Vec<Player>,
    pub teams: Vec<(String, (ZappyColor, usize))>,
}

impl ServerData {
    /// The data of a view, each team given the palette's color of its rank in the list. The
    /// teams come by increasing name and the players by increasing id.
    pub fn new(map: WorldMap, players: Vec<Player>, teams: Vec<(String, usize)>) -> (d: ServerData)
        requires
            forall|i: int, j: int| 0 <= i < j < teams@.len() ==> text_less((#[trigger] teams@[i]).0@, (#[trigger] teams@[j]).0@),
            forall|i: int, j: int| 0 <= i < j < players@.len() ==> (#[trigger] players@[i])@.id < (#[trigger] players@[j])@.id,
        ensures
            data_ordered(d.teams@, d.players@),
            d.map == map,
            d.players == players,
            d.teams@.len() == teams@.len(),
            forall|i: int| 0 <= i < teams@.len() ==> (#[trigger] d.teams@[i]).0@ == teams@[i].0@
                && d.teams@[i].1 == (spec_color_at(i % COLOR_COUNT as int), teams@[i].1),
    {
        let mut colored: Vec<(String, (ZappyColor, usize))> = Vec::new();
        let mut i: usize = 0;
        while i < teams.len()
            invariant
                i <= teams@.len(),
                colored@.len() == i,
                forall|k: int| 0 <= k < i ==> (#[trigger] colored@[k]).0@ == teams@[k].0@
                    && colored@[k].1 == (spec_color_at(k % COLOR_COUNT as int), teams@[k].1),
            decreases teams@.len() - i,
        {
            let name = teams[i].0.clone();
            colored.push((name, (ZappyColor::idx(i), teams[i].1)));
            i = i + 1;
        }
        proof {
            assert forall|a: int, b: int| 0 <= a < b < colored@.len()
                implies text_less((#[trigger] colored@[a]).0@, (#[trigger] colored@[b]).0@) by {
                assert(text_less(teams@[a].0@, teams@[b].0@));
            }
        }
        ServerData { map, players, teams: colored }
    }
}

/// The pieces the stones of an inventory are drawn as: for each stone, its letter as many
/// times as it is held, in the palette's color of the stone's index, or an empty uncolored
/// piece when none is held.
pub open spec fn stone_piece(stones: Seq<usize>, i: int) -> (Seq<char>, Option<ZappyColor>) {
    if stones[i] == 0 {
        (Seq::empty(), None)
    } else {
        (repeat_seq(seq![spec_alias(spec_resource_at(i))], stones[i] as nat), Some(spec_color_at(i)))
    }
}

/// The views of a list of texts, each drawn in a color or plain.
pub open spec fn spans_view(v: Seq<(String, Option<ZappyColor>)>) -> Seq<(Seq<char>, Option<ZappyColor>)> {
    v.map_values(|p: (String, Option<ZappyColor>)| (p.0@, p.1))
}

/// The pieces the stones of an inventory are drawn as.
pub fn stone_spans(stones: &StoneSet) -> (v: Vec<(String, Option<ZappyColor>)>)
    ensures
        spans_view(v@) == Seq::new(STONE_KINDS as nat, |i: int| stone_piece(stones@, i)),
{
    let mut v: Vec<(String, Option<ZappyColor>)> = Vec::new();
    let mut i: usize = 0;
    while i < STONE_KINDS
        invariant
            i <= STONE_KINDS,
            stones@.len() == STONE_KINDS,
            v@.len() == i,
            spans_view(v@) == Seq::new(i as nat, |k: int| stone_piece(stones@, k)),
        decreases STONE_KINDS - i,
    {
        let ghost before = v@;
        if stones[i] == 0 {
            v.push((String::new(), None));
        } else {
            proof {
                assert(i as int % COLOR_COUNT as int == i as int);
            }
            v.push((repeated(alias_text(Resource::from_index(i)), stones[i]), Some(ZappyColor::idx(i))));
        }
        proof {
            assert(spans_view(v@)[i as int] == stone_piece(stones@, i as int));
            assert forall|k: int| 0 <= k < i implies #[trigger] spans_view(v@)[k] == spans_view(before)[k] by {}
        }
        i = i + 1;
        proof {
            assert(spans_view(v@) =~= Seq::new(i as nat, |k: int| stone_piece(stones@, k)));
        }
    }
    v
}

/// What a player's line in the team bar shows: its id and its life in its team's color, its
/// level in stars, then its stones, separated by bars.
pub open spec fn player_stats_pieces(p: PlayerView, color: ZappyColor) -> Seq<(Seq<char>, Option<ZappyColor>)> {
    seq![
        ("🧬 "@ + decimal(p.id as nat), Some(color)),
        (" | "@, None),
        ("💜 "@ + decimal(p.remaining_life as nat), Some(color)),
        (" | "@, None),
        (repeat_seq("⭐"@, p.level as nat), None),
        (" | 🎒 "@, None),
    ] + Seq::new(STONE_KINDS as nat, |i: int| stone_piece(p.inventory, i)) + seq![(" |"@, None)]
}

/// The pieces of a player's line in the team bar.
pub fn player_stats(player: &Player, color: ZappyColor) -> (v: Vec<(String, Option<ZappyColor>)>)
    requires
        player@.inventory.len() == STONE_KINDS,
    ensures
        spans_view(v@) == player_stats_pieces(player@, color),
{
    let mut id_text = String::from_str("🧬 ");
    id_text.append(decimal_text(player.id() as u64).as_str());
    let mut life_text = String::from_str("💜 ");
    life_text.append(decimal_text(player.remaining_life()).as_str());
    let mut v: Vec<(String, Option<ZappyColor>)> = Vec::new();
    v.push((id_text, Some(color)));
    v.push((String::from_str(" | "), None));
    v.push((life_text, Some(color)));
    v.push((String::from_str(" | "), None));
    v.push((repeated("⭐", player.level() as usize), None));
    v.push((String::from_str(" | 🎒 "), None));
    let ghost head = spans_view(v@);
    let mut stones = stone_spans(player.inventory());
    let ghost mid = spans_view(stones@);
    v.append(&mut stones);
    v.push((String::from_str(" |"), None));
    proof {
        assert(spans_view(v@) =~= head + mid + seq![(" |"@, None::<ZappyColor>)]);
        assert(head =~= seq![
            ("🧬 "@ + decimal(player@.id as nat), Some(color)),
            (" | "@, None),
            ("💜 "@ + decimal(player@.remaining_life as nat), Some(color)),
            (" | "@, None),
            (repeat_seq("⭐"@, player@.level as nat), None),
            (" | 🎒 "@, None),
        ]);
    }
    v
}

/// A team of the view, taken by value: its name and its color.
pub open spec fn team_entries(teams: Seq<(String, (ZappyColor, usize))>) -> Seq<(Seq<char>, ZappyColor)> {
    teams.map_values(|t: (String, (ZappyColor, usize))| (t.0@, t.1.0))
}

/// The color of the team with a name.
pub open spec fn color_of(teams: Seq<(Seq<char>, ZappyColor)>, name: Seq<char>) -> ZappyColor {
    teams[choose|i: int| 0 <= i < teams.len() && teams[i].0 == name].1
}

/// The groups of pieces of a cell put one after the other, a space between two groups, the
/// empty groups left out.
pub open spec fn joined_groups(groups: Seq<Seq<(Seq<char>, Option<ZappyColor>)>>) -> Seq<(Seq<char>, Option<ZappyColor>)>
    decreases groups.len(),
{
    if groups.len() == 0 {
        Seq::empty()
    } else {
        let prev = joined_groups(groups.drop_last());
        let g = groups.last();
        if g.len() == 0 {
            prev
        } else if prev.len() == 0 {
            g
        } else {
            prev + seq![(" "@, None)] + g
        }
    }
}

/// The labels of the players on a cell, in the order of the view's players, each in its
/// team's color.
pub open spec fn player_pieces(players: Seq<PlayerView>, teams: Seq<(Seq<char>, ZappyColor)>, on_cell: Seq<u16>) -> Seq<(Seq<char>, Option<ZappyColor>)>
    decreases players.len(),
{
    if players.len() == 0 {
        Seq::empty()
    } else {
        let prev = player_pieces(players.drop_last(), teams, on_cell);
        let p = players.last();
        if on_cell.contains(p.id) {
            prev.push((player_label_text(p), Some(color_of(teams, p.team))))
        } else {
            prev
        }
    }
}

/// The labels of the eggs on a cell, team by team in the order of the view's teams, each in
/// its team's color.
pub open spec fn egg_pieces(teams: Seq<(Seq<char>, ZappyColor)>, c: CellView) -> Seq<(Seq<char>, Option<ZappyColor>)>
    decreases teams.len(),
{
    if teams.len() == 0 {
        Seq::empty()
    } else {
        let prev = egg_pieces(teams.drop_last(), c);
        let t = teams.last();
        if egg_entry(c.eggs, t.0) is Some {
            prev.push((eggs_label_text(unhatched_of(c, t.0), hatched_of(c, t.0)), Some(t.1)))
        } else {
            prev
        }
    }
}

/// What a cell of the field is drawn as: its players, then its eggs, then its resources.
pub open spec fn cell_pieces(players: Seq<PlayerView>, teams: Seq<(Seq<char>, ZappyColor)>, c: CellView) -> Seq<(Seq<char>, Option<ZappyColor>)> {
    let resources = resource_pieces(c.nourriture as nat, c.stones).map_values(
        |r: (Seq<char>, ZappyColor)| (r.0, Some(r.1)),
    );
    joined_groups(seq![player_pieces(players, teams, c.players), egg_pieces(teams, c), resources])
}

/// Whether a team name is in the view.
pub open spec fn has_team_entry(teams: Seq<(Seq<char>, ZappyColor)>, name: Seq<char>) -> bool {
    exists|i: int| 0 <= i < teams.len() && teams[i].0 == name
}

impl ServerData {
    /// The color of a team of the view.
    fn color_of_team(&self, name: &str) -> (c: ZappyColor)
        requires
            has_team_entry(team_entries(self.teams@), name@),
            forall|i: int, j: int| 0 <= i < self.teams@.len() && 0 <= j < self.teams@.len() && i != j
                ==> (#[trigger] self.teams@[i]).0@ != (#[trigger] self.teams@[j]).0@,
        ensures
            c == color_of(team_entries(self.teams@), name@),
    {
        let ghost ts = team_entries(self.teams@);
        let mut i: usize = 0;
        while i < self.teams.len()
            invariant
                i <= self.teams@.len(),
                ts == team_entries(self.teams@),
                has_team_entry(ts, name@),
                forall|k: int| 0 <= k < i ==> (#[trigger] ts[k]).0 != name@,
                forall|a: int, b: int| 0 <= a < self.teams@.len() && 0 <= b < self.teams@.len() && a != b
                    ==> (#[trigger] self.teams@[a]).0@ != (#[trigger] self.teams@[b]).0@,
            decreases self.teams@.len() - i,
        {
            if crate::text::same_text(self.teams[i].0.as_str(), name) {
                proof {
                    let k = choose|k: int| 0 <= k < ts.len() && ts[k].0 == name@;
                    assert(ts[i as int].0 == name@);
                    assert(k == i) by {
                        if k != i {
                            assert(self.teams@[k].0@ != self.teams@[i as int].0@);
                        }
                    }
                }
                return self.teams[i].1.0;
            }
            i = i + 1;
        }
        proof {
            let k = choose|k: int| 0 <= k < ts.len() && ts[k].0 == name@;
            assert(ts[k].0 != name@);
        }
        ZappyColor::Red
    }

    /// What the cell at `(x, y)` is drawn as: its players' labels in increasing id, its eggs
    /// team by team in name order, and its resources, the non-empty groups separated by a space.
    pub fn cell_spans(&self, x: usize, y: usize) -> (v: Vec<(String, Option<ZappyColor>)>)
        requires
            crate::map::map_wf(self.map@),
            x < self.map@.width,
            y < self.map@.height,
            data_ordered(self.teams@, self.players@),
            forall|i: int| 0 <= i < self.players@.len() && self.map@.field[y as int][x as int].players.contains(#[trigger] self.players@[i]@.id)
                ==> has_team_entry(team_entries(self.teams@), self.players@[i]@.team),
            forall|i: int| 0 <= i < self.players@.len() ==> (#[trigger] self.players@[i])@.inventory.len() == STONE_KINDS,
        ensures
            spans_view(v@) == cell_pieces(
                crate::engine::players_view(self.players@),
                team_entries(self.teams@),
                self.map@.field[y as int][x as int],
            ),
    {
        proof {
            lemma_ordered_names_distinct(self.teams@);
        }
        let c = self.map.cell(x, y);
        let ghost ps = crate::engine::players_view(self.players@);
        let ghost ts = team_entries(self.teams@);
        // the players
        let mut players: Vec<(String, Option<ZappyColor>)> = Vec::new();
        let mut i: usize = 0;
        proof {
            assert(ps.take(0) =~= Seq::<PlayerView>::empty());
        }
        while i < self.players.len()
            invariant
                i <= self.players@.len(),
                ps == crate::engine::players_view(self.players@),
                ts == team_entries(self.teams@),
                c@ == self.map@.field[y as int][x as int],
                forall|a: int, b: int| 0 <= a < self.teams@.len() && 0 <= b < self.teams@.len() && a != b
                    ==> (#[trigger] self.teams@[a]).0@ != (#[trigger] self.teams@[b]).0@,
                forall|k: int| 0 <= k < self.players@.len() && c@.players.contains(#[trigger] self.players@[k]@.id)
                    ==> has_team_entry(ts, self.players@[k]@.team),
                spans_view(players@) == player_pieces(ps.take(i as int), ts, c@.players),
            decreases self.players@.len() - i,
        {
            let ghost before = players@;
            proof {
                assert(ps.take(i + 1).drop_last() =~= ps.take(i as int));
                assert(ps.take(i + 1).last() == self.players@[i as int]@);
            }
            if c.has_player(self.players[i].id()) {
                let color = self.color_of_team(self.players[i].team().as_str());
                players.push((player_label(&self.players[i]), Some(color)));
                proof {
                    assert(spans_view(players@) =~= spans_view(before).push(
                        (player_label_text(self.players@[i as int]@), Some(color)),
                    ));
                }
            }
            i = i + 1;
        }
        // the eggs
        let mut eggs: Vec<(String, Option<ZappyColor>)> = Vec::new();
        let mut t: usize = 0;
        proof {
            assert(ts.take(0) =~= Seq::<(Seq<char>, ZappyColor)>::empty());
        }
        while t < self.teams.len()
            invariant
                t <= self.teams@.len(),
                ts == team_entries(self.teams@),
                c@ == self.map@.field[y as int][x as int],
                crate::cell::cell_wf(c@),
                spans_view(eggs@) == egg_pieces(ts.take(t as int), c@),
            decreases self.teams@.len() - t,
        {
            let ghost before = eggs@;
            proof {
                assert(ts.take(t + 1).drop_last() =~= ts.take(t as int));
                assert(ts.take(t + 1).last() == ts[t as int]);
            }
            match c.egg_index(self.teams[t].0.as_str()) {
                Some(e) => {
                    proof {
                        let name = ts[t as int].0;
                        let k = egg_entry(c@.eggs, name).unwrap();
                        assert(k == e) by {
                            if k != e {
                                assert(c@.eggs[k].team != c@.eggs[e as int].team);
                            }
                        }
                    }
                    let label = eggs_label(c.eggs[e].unhatched, c.eggs[e].hatched);
                    eggs.push((label, Some(self.teams[t].1.0)));
                    proof {
                        assert(spans_view(eggs@) =~= spans_view(before).push(
                            (eggs_label_text(unhatched_of(c@, ts[t as int].0), hatched_of(c@, ts[t as int].0)), Some(ts[t as int].1)),
                        ));
                    }
                },
                None => {},
            }
            t = t + 1;
        }
        // the resources
        let res = resource_spans(c.nourriture, &c.stones);
        let mut resources: Vec<(String, Option<ZappyColor>)> = Vec::new();
        let mut r: usize = 0;
        while r < res.len()
            invariant
                r <= res@.len(),
                resources@.len() == r,
                spans_view(resources@) == pieces_view(res@).take(r as int).map_values(
                    |q: (Seq<char>, ZappyColor)| (q.0, Some(q.1)),
                ),
            decreases res@.len() - r,
        {
            let ghost before = resources@;
            resources.push((res[r].0.clone(), Some(res[r].1)));
            proof {
                assert(pieces_view(res@)[r as int] == (res@[r as int].0@, res@[r as int].1));
                assert(spans_view(resources@)[r as int] == (res@[r as int].0@, Some(res@[r as int].1)));
                assert forall|q: int| 0 <= q < r implies #[trigger] spans_view(resources@)[q] == spans_view(before)[q] by {}
                assert(pieces_view(res@).take(r + 1) =~= pieces_view(res@).take(r as int).push(pieces_view(res@)[r as int]));
                assert(spans_view(resources@) =~= pieces_view(res@).take(r + 1).map_values(
                    |q: (Seq<char>, ZappyColor)| (q.0, Some(q.1)),
                ));
            }
            r = r + 1;
        }
        proof {
            assert(pieces_view(res@).take(r as int) =~= pieces_view(res@));
            assert(ps.take(self.players@.len() as int) =~= ps);
            assert(ts.take(self.teams@.len() as int) =~= ts);
        }
        // put together
        let ghost g1 = spans_view(players@);
        let ghost g2 = spans_view(eggs@);
        let ghost g3 = spans_view(resources@);
        let mut v: Vec<(String, Option<ZappyColor>)> = Vec::new();
        let mut groups: Vec<Vec<(String, Option<ZappyColor>)>> = Vec::new();
        groups.push(players);
        groups.push(eggs);
        groups.push(resources);
        let ghost gs = seq![g1, g2, g3];
        let mut k: usize = 0;
        proof {
            assert(gs.take(0) =~= Seq::<Seq<(Seq<char>, Option<ZappyColor>)>>::empty());
        }
        while k < 3
            invariant
                k <= 3,
                gs.len() == 3,
                groups@.len() == 3,
                forall|j: int| 0 <= j < 3 ==> spans_view(#[trigger] groups@[j]@) == gs[j],
                spans_view(v@) == joined_groups(gs.take(k as int)),
            decreases 3 - k,
        {
            let ghost before = spans_view(v@);
            proof {
                assert(gs.take(k + 1).drop_last() =~= gs.take(k as int));
                assert(gs.take(k + 1).last() == gs[k as int]);
                assert(spans_view(groups@[k as int]@) == gs[k as int]);
            }
            if groups[k].len() > 0 {
                if v.len() > 0 {
                    v.push((String::from_str(" "), None));
                }
                let mut j: usize = 0;
                let ghost mid = spans_view(v@);
                while j < groups[k].len()
                    invariant
                        k < 3,
                        gs.len() == 3,
                        groups@.len() == 3,
                        j <= groups@[k as int]@.len(),
                        v@.len() == mid.len() + j,
                        spans_view(v@) == mid + gs[k as int].take(j as int),
                        spans_view(groups@[k as int]@) == gs[k as int],
                    decreases groups@[k as int]@.len() - j,
                {
                    let piece = (groups[k][j].0.clone(), groups[k][j].1);
                    let ghost vb = v@;
                    proof {
                        assert(spans_view(groups@[k as int]@)[j as int] == (groups@[k as int]@[j as int].0@, groups@[k as int]@[j as int].1));
                        assert(piece.0@ == gs[k as int][j as int].0);
                        assert(piece.1 == gs[k as int][j as int].1);
                    }
                    v.push(piece);
                    proof {
                        assert(spans_view(v@)[vb.len() as int] == gs[k as int][j as int]);
                        assert forall|q: int| 0 <= q < vb.len() implies #[trigger] spans_view(v@)[q] == spans_view(vb)[q] by {}
                        assert(gs[k as int].take(j + 1) =~= gs[k as int].take(j as int).push(gs[k as int][j as int]));
                        assert(spans_view(v@) =~= mid + gs[k as int].take(j + 1));
                    }
                    j = j + 1;
                }
                proof {
                    assert(gs[k as int].take(j as int) =~= gs[k as int]);
                    if before.len() > 0 {
                        assert(mid =~= before + seq![(" "@, None::<ZappyColor>)]);
                    } else {
                        assert(mid =~= before);
                    }
                }
            }
            k = k + 1;
        }
        proof {
            assert(gs.take(3) =~= gs);
        }
        v
    }
}

/// The lines of a team in the team bar: the team's name in its color, then one line per
/// player of that team, in the order of the list of players.
pub open spec fn team_lines(players: Seq<PlayerView>, name: Seq<char>, color: ZappyColor) -> Seq<Seq<(Seq<char>, Option<ZappyColor>)>>
    decreases players.len(),
{
    if players.len() == 0 {
        seq![seq![(name, Some(color))]]
    } else {
        let prev = team_lines(players.drop_last(), name, color);
        let p = players.last();
        if p.team == name {
            prev.push(player_stats_pieces(p, color))
        } else {
            prev
        }
    }
}

/// The views of a list of lines, each a list of texts drawn in a color or plain.
pub open spec fn lines_view(v: Seq<Vec<(String, Option<ZappyColor>)>>) -> Seq<Seq<(Seq<char>, Option<ZappyColor>)>> {
    v.map_values(|l: Vec<(String, Option<ZappyColor>)>| spans_view(l@))
}

impl ServerData {
    /// The lines of the team at index `t` in the team bar: its name, then its players.
    pub fn team_lines_of(&self, t: usize) -> (v: Vec<Vec<(String, Option<ZappyColor>)>>)
        requires
            data_ordered(self.teams@, self.players@),
            t < self.teams@.len(),
            forall|i: int| 0 <= i < self.players@.len() ==> (#[trigger] self.players@[i])@.inventory.len() == STONE_KINDS,
        ensures
            lines_view(v@) == team_lines(crate::engine::players_view(self.players@), self.teams@[t as int].0@, self.teams@[t as int].1.0),
    {
        let ghost ps = crate::engine::players_view(self.players@);
        let name = &self.teams[t].0;
        let color = self.teams[t].1.0;
        let mut v: Vec<Vec<(String, Option<ZappyColor>)>> = Vec::new();
        let mut head: Vec<(String, Option<ZappyColor>)> = Vec::new();
        head.push((name.clone(), Some(color)));
        v.push(head);
        proof {
            assert(ps.take(0) =~= Seq::<PlayerView>::empty());
            assert(spans_view(v@[0]@) =~= seq![(name@, Some(color))]);
            assert(lines_view(v@) =~= team_lines(ps.take(0), name@, color));
        }
        let mut i: usize = 0;
        while i < self.players.len()
            invariant
                i <= self.players@.len(),
                ps == crate::engine::players_view(self.players@),
                name@ == self.teams@[t as int].0@,
                color == self.teams@[t as int].1.0,
                lines_view(v@) == team_lines(ps.take(i as int), name@, color),
                forall|k: int| 0 <= k < self.players@.len() ==> (#[trigger] self.players@[k])@.inventory.len() == STONE_KINDS,
            decreases self.players@.len() - i,
        {
            let ghost v0 = v@;
            proof {
                assert(ps.take(i + 1).drop_last() =~= ps.take(i as int));
                assert(ps.take(i + 1).last() == self.players@[i as int]@);
            }
            if crate::text::same_text(self.players[i].team().as_str(), name.as_str()) {
                let line = player_stats(&self.players[i], color);
                v.push(line);
                proof {
                    assert(lines_view(v@) =~= lines_view(v0).push(spans_view(line@)));
                }
            }
            i = i + 1;
        }
        proof {
            assert(ps.take(i as int) =~= ps);
        }
        v
    }

    /// The team bar: for each team, in the order of the list of teams, its lines.
    pub fn players_bar(&self) -> (v: Vec<Vec<Vec<(String, Option<ZappyColor>)>>>)
        requires
            data_ordered(self.teams@, self.players@),
            forall|i: int| 0 <= i < self.players@.len() ==> (#[trigger] self.players@[i])@.inventory.len() == STONE_KINDS,
        ensures
            v@.len() == self.teams@.len(),
            forall|t: int| 0 <= t < v@.len() ==> lines_view(#[trigger] v@[t]@) == team_lines(
                crate::engine::players_view(self.players@),
                self.teams@[t].0@,
                self.teams@[t].1.0,
            ),
    {
        let mut v: Vec<Vec<Vec<(String, Option<ZappyColor>)>>> = Vec::new();
        let mut t: usize = 0;
        while t < self.teams.len()
            invariant
                t <= self.teams@.len(),
                v@.len() == t,
                forall|k: int| 0 <= k < self.players@.len() ==> (#[trigger] self.players@[k])@.inventory.len() == STONE_KINDS,
                data_ordered(self.teams@, self.players@),
                forall|u: int| 0 <= u < t ==> lines_view(#[trigger] v@[u]@) == team_lines(
                    crate::engine::players_view(self.players@),
                    self.teams@[u].0@,
                    self.teams@[u].1.0,
                ),
            decreases self.teams@.len() - t,
        {
            let lines = self.team_lines_of(t);
            v.push(lines);
            t = t + 1;
        }
        v
    }
}

/// `n` copies of a one-character text are `n` characters, each that character.
pub proof fn lemma_repeat_char(c: char, n: nat)
    ensures
        repeat_seq(seq![c], n).len() == n,
        forall|i: int| 0 <= i < n ==> #[trigger] repeat_seq(seq![c], n)[i] == c,
    decreases n,
{
    if n > 0 {
        lemma_repeat_char(c, (n - 1) as nat);
        let prev = repeat_seq(seq![c], (n - 1) as nat);
        assert forall|i: int| 0 <= i < n implies #[trigger] repeat_seq(seq![c], n)[i] == c by {
            if i < n - 1 {
                assert(repeat_seq(seq![c], n)[i] == prev[i]);
            }
        }
    }
}

/// A player's line in the team bar shows its level as stars, one per level: the fifth piece
/// is plain and holds exactly `level` characters, each a star.
pub proof fn lemma_stats_level_stars(p: PlayerView, color: ZappyColor)
    ensures
        player_stats_pieces(p, color)[4].0.len() == p.level,
        forall|i: int| 0 <= i < p.level ==> #[trigger] player_stats_pieces(p, color)[4].0[i] == '⭐',
        player_stats_pieces(p, color)[4].1 is None,
{
    reveal_strlit("⭐");
    assert("⭐"@ =~= seq!['⭐']);
    lemma_repeat_char('⭐', p.level as nat);
}

} // verus!
