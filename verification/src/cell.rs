use vstd::prelude::*;

use crate::commands::owned;
use crate::resource::{
    covers, minus, reduce_current_from, spec_resource_at, spec_stone_index, Resource, StoneSet,
    STONE_KINDS,
};

verus! {

/// The eggs of one team on a cell: those still hatching and those ready to spawn a player.
#[derive(Debug, Clone, PartialEq, Eq)]
pub struct EggCount {
    pub team: String,
    pub unhatched: usize,
    pub hatched: usize,
}

pub struct EggCountView {
    pub team: Seq<char>,
    pub unhatched: usize,
    pub hatched: usize,
}

impl View for EggCount {
    type V = EggCountView;

    open spec fn view(&self) -> EggCountView {
        EggCountView { team: self.team@, unhatched: self.unhatched, hatched: self.hatched }
    }
}

/// One cell of the field.
#[derive(Debug, Clone, PartialEq, Eq)]
pub struct Cell {
    /// The players standing on the cell, by increasing id.
    pub players: Vec<u16>,
    pub stones: StoneSet,
    pub nourriture: usize,
    /// The eggs on the cell, one entry per team.
    pub eggs: Vec<EggCount>,
}

pub struct CellView {
    pub players: Seq<u16>,
    pub stones: Seq<usize>,
    pub nourriture: usize,
    pub eggs: Seq<EggCountView>,
}

pub open spec fn egg_counts_view(v: Seq<EggCount>) -> Seq<EggCountView> {
    v.map_values(|e: EggCount| e@)
}

impl View for Cell {
    type V = CellView;

    open spec fn view(&self) -> CellView {
        CellView {
            players: self.players@,
            stones: self.stones@,
            nourriture: self.nourriture,
            eggs: egg_counts_view(self.eggs@),
        }
    }
}

/// Whether ids go strictly up along a list.
pub open spec fn ids_increasing(s: Seq<u16>) -> bool {
    forall|i: int, j: int| 0 <= i < j < s.len() ==> #[trigger] s[i] < #[trigger] s[j]
}

/// A cell is well formed when its players are listed once each, by increasing id, and no
/// team has two egg entries.
pub open spec fn cell_wf(c: CellView) -> bool {
    &&& c.stones.len() == STONE_KINDS
    &&& c.players.no_duplicates()
    &&& ids_increasing(c.players)
    &&& forall|i: int, j: int|
        0 <= i < c.eggs.len() && 0 <= j < c.eggs.len() && i != j ==> #[trigger] c.eggs[i].team
            != #[trigger] c.eggs[j].team
}

/// How many of a resource lie on the cell.
pub open spec fn resource_count(c: CellView, r: Resource) -> usize {
    match r {
        Resource::Stone(s) => c.stones[spec_stone_index(s)],
        Resource::Nourriture => c.nourriture,
    }
}

/// The cell with one more of a resource.
pub open spec fn cell_add_resource(c: CellView, r: Resource) -> CellView {
    match r {
        Resource::Stone(s) => CellView {
            stones: c.stones.update(spec_stone_index(s), (c.stones[spec_stone_index(s)] + 1) as usize),
            ..c
        },
        Resource::Nourriture => CellView { nourriture: (c.nourriture + 1) as usize, ..c },
    }
}

/// The cell with one less of a resource (when it holds one).
pub open spec fn cell_remove_resource(c: CellView, r: Resource) -> CellView {
    match r {
        Resource::Stone(s) => CellView {
            stones: c.stones.update(spec_stone_index(s), (c.stones[spec_stone_index(s)] - 1) as usize),
            ..c
        },
        Resource::Nourriture => CellView { nourriture: (c.nourriture - 1) as usize, ..c },
    }
}

/// `n` copies of `r`.
pub open spec fn repeat_resource(r: Resource, n: nat) -> Seq<Resource> {
    Seq::new(n, |i: int| r)
}

/// The stones of the cell from index `i` on, each as many times as it lies there.
pub open spec fn stones_from(c: CellView, i: int) -> Seq<Resource>
    decreases STONE_KINDS - i,
{
    if i >= STONE_KINDS || i < 0 {
        Seq::empty()
    } else {
        repeat_resource(spec_resource_at(i), c.stones[i] as nat) + stones_from(c, i + 1)
    }
}

/// The cell without a player.
pub open spec fn without_player(players: Seq<u16>, id: u16) -> Seq<u16> {
    if players.contains(id) {
        players.remove(players.index_of(id))
    } else {
        players
    }
}

/// Where an id goes in a list kept by increasing id: after the smaller ids at its front.
pub open spec fn insert_pos(s: Seq<u16>, id: u16) -> int
    decreases s.len(),
{
    if s.len() == 0 {
        0
    } else if s[0] < id {
        1 + insert_pos(s.drop_first(), id)
    } else {
        0
    }
}

/// The list with one more id (kept once if already there), put in its place by id.
pub open spec fn with_player(players: Seq<u16>, id: u16) -> Seq<u16> {
    if players.contains(id) {
        players
    } else {
        players.insert(insert_pos(players, id), id)
    }
}

/// The position of a team's egg entry, if it has one.
pub open spec fn egg_entry(eggs: Seq<EggCountView>, team: Seq<char>) -> Option<int> {
    if exists|i: int| 0 <= i < eggs.len() && eggs[i].team == team {
        Some(choose|i: int| 0 <= i < eggs.len() && eggs[i].team == team)
    } else {
        None
    }
}

/// A team's hatched eggs on the cell.
pub open spec fn hatched_of(c: CellView, team: Seq<char>) -> nat {
    match egg_entry(c.eggs, team) {
        Some(i) => c.eggs[i].hatched as nat,
        None => 0,
    }
}

/// A team's hatching eggs on the cell.
pub open spec fn unhatched_of(c: CellView, team: Seq<char>) -> nat {
    match egg_entry(c.eggs, team) {
        Some(i) => c.eggs[i].unhatched as nat,
        None => 0,
    }
}

/// The cell's egg entries with a team's counts changed by `du` hatching and `dh` hatched eggs;
/// a team without an entry gets one, at the end.
pub open spec fn eggs_adjusted(eggs: Seq<EggCountView>, team: Seq<char>, du: int, dh: int) -> Seq<
    EggCountView,
> {
    match egg_entry(eggs, team) {
        Some(i) => eggs.update(
            i,
            EggCountView {
                team,
                unhatched: (eggs[i].unhatched + du) as usize,
                hatched: (eggs[i].hatched + dh) as usize,
            },
        ),
        None => eggs.push(EggCountView { team, unhatched: du as usize, hatched: dh as usize }),
    }
}

impl Cell {
    pub fn new() -> (c: Cell)
        ensures
            c@.players == Seq::<u16>::empty(),
            c@.stones == seq![0usize, 0, 0, 0, 0, 0],
            c@.nourriture == 0,
            c@.eggs == Seq::<EggCountView>::empty(),
    {
        let c = Cell { players: Vec::new(), stones: [0; 6], eggs: Vec::new(), nourriture: 0 };
        assert(c@.stones =~= seq![0usize, 0, 0, 0, 0, 0]);
        assert(c@.eggs =~= Seq::<EggCountView>::empty());
        c
    }

    /// How many of a resource lie here.
    pub fn count_of(&self, resource: Resource) -> (n: usize)
        requires
            self@.stones.len() == STONE_KINDS,
        ensures
            n == resource_count(self@, resource),
    {
        match resource {
            Resource::Stone(stone) => self.stones[stone.index()],
            Resource::Nourriture => self.nourriture,
        }
    }

    /// Lays one resource on the cell.
    pub fn add_resource(&mut self, resource: Resource)
        requires
            old(self)@.stones.len() == STONE_KINDS,
            resource_count(old(self)@, resource) < usize::MAX,
        ensures
            final(self)@ == cell_add_resource(old(self)@, resource),
    {
        match resource {
            Resource::Stone(stone) => {
                let i = stone.index();
                self.stones[i] = self.stones[i] + 1;
            },
            Resource::Nourriture => {
                self.nourriture = self.nourriture + 1;
            },
        }
    }

    /// Picks one resource up when there is one; returns whether there was.
    pub fn remove_resource(&mut self, resource: &Resource) -> (r: bool)
        requires
            old(self)@.stones.len() == STONE_KINDS,
        ensures
            r == (resource_count(old(self)@, *resource) >= 1),
            r ==> final(self)@ == cell_remove_resource(old(self)@, *resource),
            !r ==> final(self)@ == old(self)@,
    {
        match resource {
            Resource::Stone(stone) => {
                let i = stone.index();
                if self.stones[i] >= 1 {
                    self.stones[i] = self.stones[i] - 1;
                    true
                } else {
                    false
                }
            },
            Resource::Nourriture => {
                if self.nourriture >= 1 {
                    self.nourriture = self.nourriture - 1;
                    true
                } else {
                    false
                }
            },
        }
    }

    /// Takes a set of stones from the cell when it holds enough of each; returns whether it did.
    pub fn reduce_stones(&mut self, need: &StoneSet) -> (r: bool)
        ensures
            r == covers(old(self)@.stones, need@),
            r ==> final(self)@ == (CellView { stones: minus(old(self)@.stones, need@), ..old(self)@ }),
            !r ==> final(self)@ == old(self)@,
    {
        reduce_current_from(&mut self.stones, need)
    }

    /// Lists the resources of the cell: the food first, then the stones in index order.
    pub fn get_resources_copy(&self) -> (v: Vec<Resource>)
        requires
            self@.stones.len() == STONE_KINDS,
        ensures
            v@ == repeat_resource(Resource::Nourriture, self@.nourriture as nat) + stones_from(self@, 0),
    {
        let mut v: Vec<Resource> = Vec::new();
        let mut k: usize = 0;
        while k < self.nourriture
            invariant
                k <= self.nourriture,
                v@ == repeat_resource(Resource::Nourriture, k as nat),
            decreases self.nourriture - k,
        {
            v.push(Resource::Nourriture);
            k = k + 1;
            assert(v@ =~= repeat_resource(Resource::Nourriture, k as nat));
        }
        let ghost food = v@;
        let mut i: usize = 0;
        while i < STONE_KINDS
            invariant
                i <= STONE_KINDS,
                self@.stones.len() == STONE_KINDS,
                food == repeat_resource(Resource::Nourriture, self@.nourriture as nat),
                v@ + stones_from(self@, i as int) == food + stones_from(self@, 0),
            decreases STONE_KINDS - i,
        {
            let r = Resource::from_index(i);
            let count = self.stones[i];
            let ghost before = v@;
            let mut j: usize = 0;
            while j < count
                invariant
                    j <= count,
                    v@ == before + repeat_resource(r, j as nat),
                decreases count - j,
            {
                v.push(r);
                j = j + 1;
                assert(v@ =~= before + repeat_resource(r, j as nat));
            }
            proof {
                assert(stones_from(self@, i as int) == repeat_resource(r, count as nat) + stones_from(
                    self@,
                    i as int + 1,
                ));
                assert(before + repeat_resource(r, count as nat) + stones_from(self@, i as int + 1)
                    =~= before + (repeat_resource(r, count as nat) + stones_from(self@, i as int + 1)));
            }
            i = i + 1;
        }
        assert(stones_from(self@, STONE_KINDS as int) =~= Seq::<Resource>::empty());
        assert(v@ + Seq::<Resource>::empty() =~= v@);
        v
    }

    /// Whether a player stands here.
    pub fn has_player(&self, id: u16) -> (b: bool)
        ensures
            b == self@.players.contains(id),
    {
        let mut i: usize = 0;
        while i < self.players.len()
            invariant
                i <= self.players.len(),
                forall|j: int| 0 <= j < i ==> self.players@[j] != id,
            decreases self.players.len() - i,
        {
            if self.players[i] == id {
                return true;
            }
            i = i + 1;
        }
        false
    }

    /// Adds a player to the cell, once, in its place by id.
    pub fn add_player(&mut self, id: u16)
        ensures
            final(self)@ == (CellView { players: with_player(old(self)@.players, id), ..old(self)@ }),
    {
        if !self.has_player(id) {
            let ghost s = self.players@;
            let mut k: usize = 0;
            assert(s.subrange(0, s.len() as int) =~= s);
            while k < self.players.len() && self.players[k] < id
                invariant
                    k <= s.len(),
                    self.players@ == s,
                    self@ == old(self)@,
                    insert_pos(s, id) == k + insert_pos(s.subrange(k as int, s.len() as int), id),
                decreases s.len() - k,
            {
                proof {
                    let t = s.subrange(k as int, s.len() as int);
                    assert(t[0] == s[k as int]);
                    assert(t.drop_first() =~= s.subrange(k + 1, s.len() as int));
                }
                k = k + 1;
            }
            proof {
                let t = s.subrange(k as int, s.len() as int);
                if k < s.len() {
                    assert(t[0] == s[k as int]);
                } else {
                    assert(t.len() == 0);
                }
            }
            self.players.insert(k, id);
        }
    }

    /// Takes a player off the cell.
    pub fn remove_player(&mut self, id: u16)
        requires
            old(self)@.players.no_duplicates(),
        ensures
            final(self)@ == (CellView { players: without_player(old(self)@.players, id), ..old(self)@ }),
    {
        let mut i: usize = 0;
        while i < self.players.len()
            invariant
                i <= self.players.len(),
                self.players@ == old(self).players@,
                self@ == old(self)@,
                old(self)@.players.no_duplicates(),
                forall|j: int| 0 <= j < i ==> self.players@[j] != id,
            decreases self.players.len() - i,
        {
            if self.players[i] == id {
                self.players.remove(i);
                proof {
                    let s = old(self)@.players;
                    assert(s[i as int] == id);
                    assert(s.contains(id));
                    let k = s.index_of(id);
                    assert(0 <= k < s.len() && s[k] == id);
                    assert(k == i as int) by {
                        if k != i as int {
                            assert(s[k] != s[i as int]);
                        }
                    }
                    assert(self.players@ =~= s.remove(k));
                }
                return;
            }
            i = i + 1;
        }
    }

    /// The position of a team's egg entry.
    pub fn egg_index(&self, team: &str) -> (r: Option<usize>)
        ensures
            r matches Some(i) ==> i < self@.eggs.len() && self@.eggs[i as int].team == team@,
            r is None ==> egg_entry(self@.eggs, team@) is None,
    {
        let mut i: usize = 0;
        while i < self.eggs.len()
            invariant
                i <= self.eggs.len(),
                forall|j: int| 0 <= j < i ==> self@.eggs[j].team != team@,
            decreases self.eggs.len() - i,
        {
            if crate::text::same_text(self.eggs[i].team.as_str(), team) {
                return Some(i);
            }
            i = i + 1;
        }
        None
    }

    /// Changes a team's egg counts by `du` hatching and `dh` hatched eggs, making its entry if
    /// it has none.
    pub fn adjust_eggs(&mut self, team: &str, du: i8, dh: i8)
        requires
            cell_wf(old(self)@),
            -1 <= du <= 1,
            -1 <= dh <= 1,
            0 <= unhatched_of(old(self)@, team@) + du <= usize::MAX,
            0 <= hatched_of(old(self)@, team@) + dh <= usize::MAX,
            egg_entry(old(self)@.eggs, team@) is None ==> du >= 0 && dh >= 0,
        ensures
            final(self)@ == (CellView { eggs: eggs_adjusted(old(self)@.eggs, team@, du as int, dh as int), ..old(self)@ }),
            cell_wf(final(self)@),
    {
        match self.egg_index(team) {
            Some(i) => {
                proof {
                    let e = egg_entry(old(self)@.eggs, team@);
                    assert(e == Some(i as int)) by {
                        let k = e.unwrap();
                        if k != i as int {
                            assert(old(self)@.eggs[k].team != old(self)@.eggs[i as int].team);
                        }
                    }
                }
                let old_u = self.eggs[i].unhatched;
                let old_h = self.eggs[i].hatched;
                let nu: usize = if du >= 0 { old_u + (du as usize) } else { old_u - 1 };
                let nh: usize = if dh >= 0 { old_h + (dh as usize) } else { old_h - 1 };
                let entry = EggCount { team: owned(team), unhatched: nu, hatched: nh };
                self.eggs.set(i, entry);
                assert(egg_counts_view(self.eggs@) =~= eggs_adjusted(old(self)@.eggs, team@, du as int, dh as int));
            },
            None => {
                let entry = EggCount { team: owned(team), unhatched: du as usize, hatched: dh as usize };
                self.eggs.push(entry);
                assert(egg_counts_view(self.eggs@) =~= eggs_adjusted(old(self)@.eggs, team@, du as int, dh as int));
            },
        }
    }
}

} // verus!
