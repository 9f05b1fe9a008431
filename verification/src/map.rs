use vstd::prelude::*;

use crate::cell::{
    cell_add_resource, cell_remove_resource, cell_wf, egg_counts_view, eggs_adjusted, hatched_of,
    resource_count, unhatched_of, with_player, without_player, Cell, CellView,
};
use crate::position::{Direction, Position};
use crate::resource::{covers, minus, Resource, StoneSet};
use crate::rng::random_index;

verus! {

/// The field: `height` rows of `width` cells, wrapping around at its edges.
#[derive(Debug, Clone, PartialEq, Eq)]
pub struct WorldMap {
    pub field: Vec<Vec<Cell>>,
    width: usize,
    height: usize,
}

pub struct MapView {
    pub field: Seq<Seq<CellView>>,
    pub width: usize,
    pub height: usize,
}

pub open spec fn row_view(r: Vec<Cell>) -> Seq<CellView> {
    r@.map_values(|c: Cell| c@)
}

pub open spec fn field_view(f: Seq<Vec<Cell>>) -> Seq<Seq<CellView>> {
    f.map_values(|r: Vec<Cell>| row_view(r))
}

impl View for WorldMap {
    type V = MapView;

    closed spec fn view(&self) -> MapView {
        MapView { field: field_view(self.field@), width: self.width, height: self.height }
    }
}

/// The map has its stated size and its cells are well formed.
pub open spec fn map_wf(m: MapView) -> bool {
    &&& m.width >= 1
    &&& m.height >= 1
    &&& m.field.len() == m.height
    &&& forall|y: int| 0 <= y < m.height ==> #[trigger] m.field[y].len() == m.width
    &&& forall|x: int, y: int|
        0 <= x < m.width && 0 <= y < m.height ==> cell_wf(#[trigger] m.field[y][x])
}

/// The map with one cell replaced.
pub open spec fn set_cell(m: MapView, x: int, y: int, c: CellView) -> MapView {
    MapView { field: m.field.update(y, m.field[y].update(x, c)), ..m }
}

/// Whether a position lies on the map.
pub open spec fn in_bounds(m: MapView, p: Position) -> bool {
    p.x < m.width && p.y < m.height
}

/// `v` modulo `m`, taken in `0..m`.
pub open spec fn modulo(v: int, m: int) -> int {
    v % m
}

/// Where a broadcast seems to come from, as the receiver hears it: 0 on the sender's own
/// cell, otherwise 1 to 8 counted from the receiver's front (1) turning left, along the
/// shortest way round the torus.
pub open spec fn spec_broadcast_source(width: int, height: int, sender: Position, receiver: Position) -> u8 {
    let north = modulo(receiver.y - sender.y, height);
    let east = modulo(sender.x - receiver.x, width);
    if north == 0 && east == 0 {
        0
    } else {
        let south = modulo(sender.y - receiver.y, height);
        let west = modulo(receiver.x - sender.x, width);
        let from_north = north <= south;
        let dy = if from_north { north } else { south };
        let from_east = east <= west;
        let dx = if from_east { east } else { west };
        let source_if_east: int = if dx < dy {
            if from_north { 3 } else { 7 }
        } else if dx == dy {
            if from_north && from_east {
                2
            } else if from_north {
                4
            } else if !from_east {
                6
            } else {
                8
            }
        } else {
            if from_east { 1 } else { 5 }
        };
        let dir_shift: int = match receiver.dir {
            Direction::North => 6,
            Direction::East => 0,
            Direction::South => 2,
            Direction::West => 4,
        };
        (((source_if_east + dir_shift - 1) % 8) + 1) as u8
    }
}

/// `a - b` modulo `m`, for `a` and `b` in `0..m`.
fn sub_mod(a: usize, b: usize, m: usize) -> (r: usize)
    requires
        a < m,
        b < m,
    ensures
        r == modulo(a - b, m as int),
        r < m,
{
    if a >= b {
        assert((a - b) % (m as int) == a - b) by (nonlinear_arith)
            requires
                0 <= a - b < m,
        ;
        a - b
    } else {
        assert((a - b) % (m as int) == a - b + m) by (nonlinear_arith)
            requires
                -m < a - b < 0,
        ;
        a + (m - b)
    }
}

/// `a + d` modulo `m`, for `a` in `0..m` and `d` between -1 and 1.
pub fn step_mod(a: usize, d: isize, m: usize) -> (r: usize)
    requires
        a < m,
        -1 <= d <= 1,
    ensures
        r == modulo(a + d, m as int),
        r < m,
{
    if d == 0 {
        assert((a + 0) % (m as int) == a) by (nonlinear_arith)
            requires 0 <= a < m;
        a
    } else if d > 0 {
        if a + 1 == m {
            assert((a + 1) % (m as int) == 0) by (nonlinear_arith)
                requires a + 1 == m, m >= 1;
            0
        } else {
            assert((a + 1) % (m as int) == a + 1) by (nonlinear_arith)
                requires 0 <= a + 1 < m;
            a + 1
        }
    } else {
        if a == 0 {
            assert((a - 1) % (m as int) == m - 1) by (nonlinear_arith)
                requires a == 0, m >= 1;
            m - 1
        } else {
            assert((a - 1) % (m as int) == a - 1) by (nonlinear_arith)
                requires 0 <= a - 1 < m;
            a - 1
        }
    }
}

/// `a + off` modulo `m`, for `a` in `0..m` and a small offset.
pub fn offset_mod(a: usize, off: i64, m: usize) -> (r: usize)
    requires
        a < m,
        -64 <= off <= 64,
    ensures
        r == modulo(a + off, m as int),
        r < m,
{
    let d: isize = if off >= 0 { 1 } else { -1 };
    let n: i64 = if off >= 0 { off } else { -off };
    let mut r = a;
    let mut k: i64 = 0;
    assert((a + 0) % (m as int) == a) by (nonlinear_arith)
        requires 0 <= a < m;
    while k < n
        invariant
            0 <= k <= n,
            n <= 64,
            d == 1 || d == -1,
            (off >= 0 ==> d == 1 && n == off),
            (off < 0 ==> d == -1 && n == -off),
            a < m,
            r < m,
            r == modulo(a + d * k, m as int),
        decreases n - k,
    {
        let ghost prev = r;
        r = step_mod(r, d, m);
        proof {
            vstd::arithmetic::div_mod::lemma_add_mod_noop_right(d as int, a + d * k, m as int);
            assert(d as int + (a + d * k) == a + d * (k + 1)) by (nonlinear_arith)
                requires d == 1 || d == -1;
            assert(prev + d == (a + d * k) % (m as int) + d);
        }
        k = k + 1;
    }
    assert(d * n == off) by (nonlinear_arith)
        requires (off >= 0 ==> d == 1 && n == off), (off < 0 ==> d == -1 && n == -off);
    r
}

impl WorldMap {
    /// A map of the given size with empty cells.
    pub fn empty(width: usize, height: usize) -> (m: WorldMap)
        ensures
            m@.width == width,
            m@.height == height,
            m@.field.len() == height,
            forall|y: int| 0 <= y < height ==> #[trigger] m@.field[y].len() == width,
            forall|x: int, y: int|
                0 <= x < width && 0 <= y < height ==> #[trigger] m@.field[y][x] == (CellView {
                    players: Seq::empty(),
                    stones: seq![0usize, 0, 0, 0, 0, 0],
                    nourriture: 0,
                    eggs: Seq::empty(),
                }),
            width >= 1 && height >= 1 ==> map_wf(m@),
    {
        let ghost empty_cell = CellView {
            players: Seq::empty(),
            stones: seq![0usize, 0, 0, 0, 0, 0],
            nourriture: 0,
            eggs: Seq::empty(),
        };
        let mut field: Vec<Vec<Cell>> = Vec::new();
        let mut y: usize = 0;
        while y < height
            invariant
                y <= height,
                empty_cell == (CellView {
                    players: Seq::empty(),
                    stones: seq![0usize, 0, 0, 0, 0, 0],
                    nourriture: 0,
                    eggs: Seq::empty(),
                }),
                field@.len() == y,
                forall|j: int| 0 <= j < y ==> #[trigger] field@[j]@.len() == width,
                forall|i: int, j: int|
                    0 <= i < width && 0 <= j < y ==> #[trigger] row_view(field@[j])[i] == empty_cell,
            decreases height - y,
        {
            let mut row: Vec<Cell> = Vec::new();
            let mut x: usize = 0;
            while x < width
                invariant
                    x <= width,
                    empty_cell == (CellView {
                        players: Seq::empty(),
                        stones: seq![0usize, 0, 0, 0, 0, 0],
                        nourriture: 0,
                        eggs: Seq::empty(),
                    }),
                    row@.len() == x,
                    forall|i: int| 0 <= i < x ==> #[trigger] row@[i]@ == empty_cell,
                decreases width - x,
            {
                let c = Cell::new();
                assert(c@ == empty_cell);
                row.push(c);
                x = x + 1;
            }
            field.push(row);
            y = y + 1;
        }
        let m = WorldMap { field, width, height };
        proof {
            assert forall|x: int, y: int| 0 <= x < width && 0 <= y < height implies #[trigger] m@.field[y][x]
                == empty_cell by {
                assert(row_view(m.field@[y])[x] == empty_cell);
            }
            assert(cell_wf(empty_cell));
        }
        m
    }

    pub fn width(&self) -> (w: usize)
        ensures
            w == self@.width,
    {
        self.width
    }

    pub fn height(&self) -> (h: usize)
        ensures
            h == self@.height,
    {
        self.height
    }

    /// The cell at a position.
    pub fn cell(&self, x: usize, y: usize) -> (c: &Cell)
        requires
            map_wf(self@),
            x < self@.width,
            y < self@.height,
        ensures
            c@ == self@.field[y as int][x as int],
    {
        proof {
            assert(self.field@[y as int]@.len() == self@.field[y as int].len());
        }
        &self.field[y][x]
    }

    /// A position drawn at random on the map, facing a random direction.
    pub fn random_position(&self) -> (p: Position)
        requires
            map_wf(self@),
        ensures
            in_bounds(self@, p),
    {
        Position {
            x: random_index(self.width),
            y: random_index(self.height),
            dir: Direction::random(),
        }
    }

    /// Lays a resource on a cell.
    pub fn add_resource_at(&mut self, x: usize, y: usize, r: Resource)
        requires
            map_wf(old(self)@),
            x < old(self)@.width,
            y < old(self)@.height,
            resource_count(old(self)@.field[y as int][x as int], r) < usize::MAX,
        ensures
            final(self)@ == set_cell(
                old(self)@,
                x as int,
                y as int,
                cell_add_resource(old(self)@.field[y as int][x as int], r),
            ),
            map_wf(final(self)@),
    {
        proof {
            assert(self.field@[y as int]@.len() == self@.field[y as int].len());
        }
        self.field[y][x].add_resource(r);
        proof {
            assert(cell_wf(old(self)@.field[y as int][x as int]));
            self.lemma_set_cell_view(old(self), x as int, y as int);
        }
    }

    /// Picks a resource up from a cell when there is one; returns whether there was.
    pub fn remove_resource_at(&mut self, x: usize, y: usize, r: Resource) -> (b: bool)
        requires
            map_wf(old(self)@),
            x < old(self)@.width,
            y < old(self)@.height,
        ensures
            b == (resource_count(old(self)@.field[y as int][x as int], r) >= 1),
            b ==> final(self)@ == set_cell(
                old(self)@,
                x as int,
                y as int,
                cell_remove_resource(old(self)@.field[y as int][x as int], r),
            ),
            !b ==> final(self)@ == old(self)@,
            map_wf(final(self)@),
    {
        proof {
            assert(self.field@[y as int]@.len() == self@.field[y as int].len());
        }
        let b = self.field[y][x].remove_resource(&r);
        proof {
            assert(cell_wf(old(self)@.field[y as int][x as int]));
            self.lemma_set_cell_view(old(self), x as int, y as int);
            if !b {
                assert(old(self)@.field[y as int].update(x as int, old(self)@.field[y as int][x as int])
                    =~= old(self)@.field[y as int]);
                assert(self@.field =~= old(self)@.field);
            }
        }
        b
    }

    /// Takes a set of stones from a cell when it holds enough; returns whether it did.
    pub fn reduce_stones_at(&mut self, x: usize, y: usize, need: &StoneSet) -> (b: bool)
        requires
            map_wf(old(self)@),
            x < old(self)@.width,
            y < old(self)@.height,
        ensures
            b == covers(old(self)@.field[y as int][x as int].stones, need@),
            b ==> final(self)@ == set_cell(
                old(self)@,
                x as int,
                y as int,
                CellView {
                    stones: minus(old(self)@.field[y as int][x as int].stones, need@),
                    ..old(self)@.field[y as int][x as int]
                },
            ),
            !b ==> final(self)@ == old(self)@,
            map_wf(final(self)@),
    {
        proof {
            assert(self.field@[y as int]@.len() == self@.field[y as int].len());
        }
        let b = self.field[y][x].reduce_stones(need);
        proof {
            assert(cell_wf(old(self)@.field[y as int][x as int]));
            self.lemma_set_cell_view(old(self), x as int, y as int);
            if !b {
                assert(old(self)@.field[y as int].update(x as int, old(self)@.field[y as int][x as int])
                    =~= old(self)@.field[y as int]);
                assert(self@.field =~= old(self)@.field);
            }
        }
        b
    }

    /// Puts a player on a cell.
    pub fn add_player_at(&mut self, x: usize, y: usize, id: u16)
        requires
            map_wf(old(self)@),
            x < old(self)@.width,
            y < old(self)@.height,
        ensures
            final(self)@ == set_cell(
                old(self)@,
                x as int,
                y as int,
                CellView {
                    players: with_player(old(self)@.field[y as int][x as int].players, id),
                    ..old(self)@.field[y as int][x as int]
                },
            ),
            map_wf(final(self)@),
    {
        proof {
            assert(self.field@[y as int]@.len() == self@.field[y as int].len());
        }
        self.field[y][x].add_player(id);
        proof {
            assert(cell_wf(old(self)@.field[y as int][x as int]));
            crate::upkeep::lemma_with_player(old(self)@.field[y as int][x as int].players, id);
            self.lemma_set_cell_view(old(self), x as int, y as int);
        }
    }

    /// Takes a player off a cell.
    pub fn remove_player_at(&mut self, x: usize, y: usize, id: u16)
        requires
            map_wf(old(self)@),
            x < old(self)@.width,
            y < old(self)@.height,
        ensures
            final(self)@ == set_cell(
                old(self)@,
                x as int,
                y as int,
                CellView {
                    players: without_player(old(self)@.field[y as int][x as int].players, id),
                    ..old(self)@.field[y as int][x as int]
                },
            ),
            map_wf(final(self)@),
    {
        proof {
            assert(self.field@[y as int]@.len() == self@.field[y as int].len());
            assert(cell_wf(old(self)@.field[y as int][x as int]));
        }
        self.field[y][x].remove_player(id);
        proof {
            assert(cell_wf(old(self)@.field[y as int][x as int]));
            self.lemma_set_cell_view(old(self), x as int, y as int);
            let s = old(self)@.field[y as int][x as int].players;
            if s.contains(id) {
                let k = s.index_of(id);
                s.remove_ensures(k);
                let r = s.remove(k);
                assert forall|i: int, j: int| 0 <= i < r.len() && 0 <= j < r.len() && i != j
                    implies r[i] != r[j] by {
                    let i2 = if i < k { i } else { i + 1 };
                    let j2 = if j < k { j } else { j + 1 };
                    assert(s[i2] != s[j2]);
                }
            }
        }
    }

    /// Changes a team's egg counts on a cell.
    pub fn adjust_eggs_at(&mut self, x: usize, y: usize, team: &str, du: i8, dh: i8)
        requires
            map_wf(old(self)@),
            x < old(self)@.width,
            y < old(self)@.height,
            -1 <= du <= 1,
            -1 <= dh <= 1,
            0 <= unhatched_of(old(self)@.field[y as int][x as int], team@) + du <= usize::MAX,
            0 <= hatched_of(old(self)@.field[y as int][x as int], team@) + dh <= usize::MAX,
            crate::cell::egg_entry(old(self)@.field[y as int][x as int].eggs, team@) is None ==> du >= 0 && dh >= 0,
        ensures
            final(self)@ == set_cell(
                old(self)@,
                x as int,
                y as int,
                CellView {
                    eggs: eggs_adjusted(old(self)@.field[y as int][x as int].eggs, team@, du as int, dh as int),
                    ..old(self)@.field[y as int][x as int]
                },
            ),
            map_wf(final(self)@),
    {
        proof {
            assert(self.field@[y as int]@.len() == self@.field[y as int].len());
        }
        self.field[y][x].adjust_eggs(team, du, dh);
        proof {
            assert(cell_wf(old(self)@.field[y as int][x as int]));
            self.lemma_set_cell_view(old(self), x as int, y as int);
        }
    }

    /// After one cell of `old` changed, the view is `old`'s with that cell replaced.
    proof fn lemma_set_cell_view(&self, old: &WorldMap, x: int, y: int)
        requires
            map_wf(old@),
            0 <= x < old@.width,
            0 <= y < old@.height,
            self.width == old.width,
            self.height == old.height,
            self.field@.len() == old.field@.len(),
            self.field@[y]@.len() == old.field@[y]@.len(),
            forall|j: int| 0 <= j < old.field@.len() && j != y ==> self.field@[j] == old.field@[j],
            forall|i: int| 0 <= i < old.field@[y]@.len() && i != x ==> self.field@[y]@[i] == old.field@[y]@[i],
            cell_wf(self.field@[y]@[x]@),
        ensures
            self@ == set_cell(old@, x, y, self.field@[y]@[x]@),
            map_wf(self@),
    {
        let c = self.field@[y]@[x]@;
        assert(row_view(self.field@[y]) =~= old@.field[y].update(x, c));
        assert(self@.field =~= old@.field.update(y, old@.field[y].update(x, c)));
    }

    /// Lays each drawn resource on its cell.
    pub fn place_resources(&mut self, drops: &Vec<(usize, usize, Resource)>)
        requires
            map_wf(old(self)@),
            forall|i: int| 0 <= i < drops@.len() ==> #[trigger] drops@[i].0 < old(self)@.width
                && drops@[i].1 < old(self)@.height,
            forall|x: int, y: int, r: Resource| 0 <= x < old(self)@.width && 0 <= y < old(self)@.height
                ==> #[trigger] resource_count(old(self)@.field[y][x], r) + drops@.len() <= usize::MAX,
        ensures
            map_wf(final(self)@),
            final(self)@ == placed(old(self)@, drops@),
            final(self)@.width == old(self)@.width,
            final(self)@.height == old(self)@.height,
    {
        let mut i: usize = 0;
        while i < drops.len()
            invariant
                i <= drops@.len(),
                map_wf(self@),
                self@ == placed(old(self)@, drops@.take(i as int)),
                self@.width == old(self)@.width,
                self@.height == old(self)@.height,
                forall|j: int| 0 <= j < drops@.len() ==> #[trigger] drops@[j].0 < old(self)@.width
                    && drops@[j].1 < old(self)@.height,
                forall|x: int, y: int, r: Resource| 0 <= x < old(self)@.width && 0 <= y < old(self)@.height
                    ==> #[trigger] resource_count(self@.field[y][x], r) + drops@.len() - i <= usize::MAX,
            decreases drops@.len() - i,
        {
            let (x, y, r) = drops[i];
            let ghost before = self@;
            self.add_resource_at(x, y, r);
            proof {
                assert(drops@.take(i as int + 1).drop_last() =~= drops@.take(i as int));
                assert forall|x2: int, y2: int, r2: Resource| 0 <= x2 < old(self)@.width && 0 <= y2 < old(self)@.height
                    implies #[trigger] resource_count(self@.field[y2][x2], r2) + drops@.len() - (i + 1) <= usize::MAX by {
                    assert(resource_count(before.field[y2][x2], r2) + drops@.len() - i <= usize::MAX);
                    if x2 == x && y2 == y {
                        match (r, r2) {
                            (Resource::Stone(s), Resource::Stone(s2)) => {
                                if s != s2 {
                                    assert(crate::resource::spec_stone_index(s) != crate::resource::spec_stone_index(s2));
                                }
                            },
                            _ => {},
                        }
                    }
                }
            }
            i = i + 1;
        }
        assert(drops@.take(drops@.len() as int) =~= drops@);
    }

    /// Scatters `height * width * 13 / 5` resources drawn at random over random cells.
    pub fn generate_resources(&mut self)
        requires
            map_wf(old(self)@),
            old(self)@.height * old(self)@.width * 13 <= usize::MAX,
            forall|x: int, y: int, r: Resource| 0 <= x < old(self)@.width && 0 <= y < old(self)@.height
                ==> #[trigger] resource_count(old(self)@.field[y][x], r) + old(self)@.height * old(self)@.width * 13 / 5
                    <= usize::MAX,
        ensures
            map_wf(final(self)@),
            final(self)@.width == old(self)@.width,
            final(self)@.height == old(self)@.height,
            exists|drops: Seq<(usize, usize, Resource)>| #[trigger] placed(old(self)@, drops) == final(self)@
                && drops.len() == old(self)@.height * old(self)@.width * 13 / 5
                && forall|i: int| 0 <= i < drops.len() ==> #[trigger] drops[i].0 < old(self)@.width
                    && drops[i].1 < old(self)@.height,
    {
        let total = self.height * self.width * 13 / 5;
        assert(self.height * self.width * 13 / 5 <= usize::MAX) by (nonlinear_arith)
            requires self.height * self.width * 13 <= usize::MAX;
        let mut drops: Vec<(usize, usize, Resource)> = Vec::new();
        let mut k: usize = 0;
        while k < total
            invariant
                k <= total,
                total <= usize::MAX,
                self@ == old(self)@,
                map_wf(self@),
                drops@.len() == k,
                forall|i: int| 0 <= i < drops@.len() ==> #[trigger] drops@[i].0 < self@.width
                    && drops@[i].1 < self@.height,
            decreases total - k,
        {
            let p = self.random_position();
            drops.push((p.x, p.y, crate::resource::random_resource()));
            k = k + 1;
        }
        self.place_resources(&drops);
    }

    /// Puts a spawning player on its cell, using up one of its team's hatched eggs there.
    pub fn add_player(&mut self, id: u16, team_name: &str, position: &Position)
        requires
            map_wf(old(self)@),
            in_bounds(old(self)@, *position),
            hatched_of(old(self)@.field[position.y as int][position.x as int], team_name@) >= 1,
        ensures
            map_wf(final(self)@),
            final(self)@ == spawn_on(old(self)@, id, team_name@, *position),
    {
        self.add_player_at(position.x, position.y, id);
        proof {
            let c0 = old(self)@.field[position.y as int][position.x as int];
            let c1 = self@.field[position.y as int][position.x as int];
            assert(c1.eggs == c0.eggs);
            assert(hatched_of(c1, team_name@) == hatched_of(c0, team_name@));
            assert(unhatched_of(c1, team_name@) == unhatched_of(c0, team_name@));
        }
        let ghost mid = self@;
        self.adjust_eggs_at(position.x, position.y, team_name, 0, -1);
        proof {
            let (x, y) = (position.x as int, position.y as int);
            assert(self@.field[y] =~= spawn_on(old(self)@, id, team_name@, *position).field[y]);
            assert(self@.field =~= spawn_on(old(self)@, id, team_name@, *position).field);
        }
    }

    /// Takes a player off the cell of its position.
    pub fn remove_player(&mut self, id: u16, position: &Position)
        requires
            map_wf(old(self)@),
            in_bounds(old(self)@, *position),
        ensures
            map_wf(final(self)@),
            final(self)@ == set_cell(
                old(self)@,
                position.x as int,
                position.y as int,
                CellView {
                    players: without_player(old(self)@.field[position.y as int][position.x as int].players, id),
                    ..old(self)@.field[position.y as int][position.x as int]
                },
            ),
    {
        self.remove_player_at(position.x, position.y, id);
    }

    /// Where a broadcast sent from `sender_pos` seems to come from for the player at
    /// `receiver_pos` (see `spec_broadcast_source`).
    pub fn find_broadcast_source(&self, sender_pos: &Position, receiver_pos: &Position) -> (k: u8)
        requires
            map_wf(self@),
            in_bounds(self@, *sender_pos),
            in_bounds(self@, *receiver_pos),
        ensures
            k == spec_broadcast_source(self@.width as int, self@.height as int, *sender_pos, *receiver_pos),
    {
        let width = self.width;
        let height = self.height;
        let north = sub_mod(receiver_pos.y, sender_pos.y, height);
        let east = sub_mod(sender_pos.x, receiver_pos.x, width);
        if north == 0 && east == 0 {
            return 0;
        }
        let south = sub_mod(sender_pos.y, receiver_pos.y, height);
        let west = sub_mod(receiver_pos.x, sender_pos.x, width);
        let (from_north, dy) = if north <= south {
            (true, north)
        } else {
            (false, south)
        };
        let (from_east, dx) = if east <= west {
            (true, east)
        } else {
            (false, west)
        };
        let source_if_east: u8 = if dx < dy {
            if from_north {
                3
            } else {
                7
            }
        } else if dx == dy {
            if from_north && from_east {
                2
            } else if from_north {
                4
            } else if !from_east {
                6
            } else {
                8
            }
        } else {
            if from_east {
                1
            } else {
                5
            }
        };
        let dir_shift: u8 = match receiver_pos.dir {
            Direction::North => 6,
            Direction::East => 0,
            Direction::South => 2,
            Direction::West => 4,
        };
        ((source_if_east + dir_shift - 1) % 8) + 1
    }
}

/// The map after laying each drop, in order.
pub open spec fn placed(m: MapView, drops: Seq<(usize, usize, Resource)>) -> MapView
    decreases drops.len(),
{
    if drops.len() == 0 {
        m
    } else {
        let prev = placed(m, drops.drop_last());
        let (x, y, r) = drops.last();
        set_cell(prev, x as int, y as int, cell_add_resource(prev.field[y as int][x as int], r))
    }
}

/// An empty map of a size: every cell without players, resources or eggs.
pub open spec fn empty_map(m: MapView, width: usize, height: usize) -> bool {
    &&& m.width == width
    &&& m.height == height
    &&& m.field.len() == height
    &&& forall|y: int| 0 <= y < height ==> #[trigger] m.field[y].len() == width
    &&& forall|x: int, y: int| 0 <= x < width && 0 <= y < height ==> #[trigger] m.field[y][x] == (CellView {
        players: Seq::empty(),
        stones: seq![0usize, 0, 0, 0, 0, 0],
        nourriture: 0,
        eggs: Seq::empty(),
    })
}

/// Laying resources keeps the size of the map and every cell's players and eggs.
pub proof fn lemma_placed_keeps(m: MapView, drops: Seq<(usize, usize, Resource)>)
    requires
        map_wf(m),
        forall|i: int| 0 <= i < drops.len() ==> #[trigger] drops[i].0 < m.width && drops[i].1 < m.height,
    ensures
        placed(m, drops).width == m.width,
        placed(m, drops).height == m.height,
        placed(m, drops).field.len() == m.field.len(),
        forall|y: int| 0 <= y < m.height ==> #[trigger] placed(m, drops).field[y].len() == m.field[y].len(),
        forall|x: int, y: int| 0 <= x < m.width && 0 <= y < m.height ==>
            (#[trigger] placed(m, drops).field[y][x]).players == m.field[y][x].players
            && placed(m, drops).field[y][x].eggs == m.field[y][x].eggs,
    decreases drops.len(),
{
    if drops.len() > 0 {
        lemma_placed_keeps(m, drops.drop_last());
        let prev = placed(m, drops.drop_last());
        let (x, y, r) = drops.last();
        assert(drops.last() == drops[drops.len() - 1]);
        let c = prev.field[y as int][x as int];
        assert(cell_add_resource(c, r).players == c.players && cell_add_resource(c, r).eggs == c.eggs);
    }
}

/// The map after a player spawns at a position from one of its team's hatched eggs.
pub open spec fn spawn_on(m: MapView, id: u16, team: Seq<char>, p: Position) -> MapView {
    let c = m.field[p.y as int][p.x as int];
    set_cell(
        m,
        p.x as int,
        p.y as int,
        CellView { players: with_player(c.players, id), eggs: eggs_adjusted(c.eggs, team, 0, -1), ..c },
    )
}

/// A broadcast from the receiver's own cell comes from 0; from anywhere else, from 1 to 8.
pub proof fn lemma_broadcast_source_range(w: int, h: int, s: Position, r: Position)
    requires
        w >= 1,
        h >= 1,
        s.x < w,
        s.y < h,
        r.x < w,
        r.y < h,
    ensures
        spec_broadcast_source(w, h, s, r) == 0 <==> (s.x == r.x && s.y == r.y),
        spec_broadcast_source(w, h, s, r) <= 8,
{
    let north = modulo(r.y - s.y, h);
    let east = modulo(s.x - r.x, w);
    assert(north == 0 <==> r.y == s.y) by {
        if r.y >= s.y {
            assert((r.y - s.y) % h == r.y - s.y) by (nonlinear_arith)
                requires 0 <= r.y - s.y < h;
        } else {
            assert((r.y - s.y) % h == r.y - s.y + h) by (nonlinear_arith)
                requires -h < r.y - s.y < 0;
        }
    }
    assert(east == 0 <==> r.x == s.x) by {
        if s.x >= r.x {
            assert((s.x - r.x) % w == s.x - r.x) by (nonlinear_arith)
                requires 0 <= s.x - r.x < w;
        } else {
            assert((s.x - r.x) % w == s.x - r.x + w) by (nonlinear_arith)
                requires -w < s.x - r.x < 0;
        }
    }
}

/// Turning the receiver a quarter to the right moves the heard direction two steps on:
/// directions are counted from the receiver's front.
pub proof fn lemma_broadcast_source_turns_with_receiver(w: int, h: int, s: Position, r: Position)
    requires
        spec_broadcast_source(w, h, s, r) != 0,
    ensures
        spec_broadcast_source(w, h, s, Position { dir: crate::position::spec_turn(r.dir, crate::position::Side::Right), ..r })
            == ((spec_broadcast_source(w, h, s, r) - 1 + 2) % 8) + 1,
{
}

/// Shifting two numbers by the same amount modulo `m` keeps their difference modulo `m`.
proof fn lemma_mod_diff_shift(p: int, q: int, b: int, m: int)
    requires
        m > 0,
    ensures
        modulo((p + b) % m - (q + b) % m, m) == modulo(p - q, m),
{
    vstd::arithmetic::div_mod::lemma_fundamental_div_mod(p + b, m);
    vstd::arithmetic::div_mod::lemma_fundamental_div_mod(q + b, m);
    let k1 = (p + b) / m;
    let k2 = (q + b) / m;
    let u = (p + b) % m;
    let v = (q + b) % m;
    assert(u - v == m * (k2 - k1) + (p - q)) by (nonlinear_arith)
        requires
            p + b == m * k1 + u,
            q + b == m * k2 + v;
    vstd::arithmetic::div_mod::lemma_mod_multiples_vanish(k2 - k1, p - q, m);
}

/// The field is a torus: shifting the sender and the receiver by the same offset, modulo the
/// size of the map, changes nothing of where the receiver hears the broadcast from.
pub proof fn lemma_broadcast_source_shift(w: int, h: int, s: Position, r: Position, a: int, b: int)
    requires
        0 < w <= usize::MAX,
        0 < h <= usize::MAX,
    ensures
        spec_broadcast_source(
            w,
            h,
            Position { x: ((s.x + a) % w) as usize, y: ((s.y + b) % h) as usize, ..s },
            Position { x: ((r.x + a) % w) as usize, y: ((r.y + b) % h) as usize, ..r },
        ) == spec_broadcast_source(w, h, s, r),
{
    let s2 = Position { x: ((s.x + a) % w) as usize, y: ((s.y + b) % h) as usize, ..s };
    let r2 = Position { x: ((r.x + a) % w) as usize, y: ((r.y + b) % h) as usize, ..r };
    assert(s2.x == (s.x + a) % w && r2.x == (r.x + a) % w);
    assert(s2.y == (s.y + b) % h && r2.y == (r.y + b) % h);
    lemma_mod_diff_shift(r.y as int, s.y as int, b, h);
    lemma_mod_diff_shift(s.x as int, r.x as int, a, w);
    lemma_mod_diff_shift(s.y as int, r.y as int, b, h);
    lemma_mod_diff_shift(r.x as int, s.x as int, a, w);
}

} // verus!
