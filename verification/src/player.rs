use std::collections::VecDeque;
use vstd::prelude::*;

use crate::commands::{PlayerCmd, PlayerCmdView};
use crate::position::{spec_turn, Position, Side};
use crate::resource::{
    covers, minus, reduce_current_from, spec_stone_index, Resource, StoneSet, STONE_KINDS,
};
use crate::{GameError, DECREASED_HP_PER_FRAME, LIFE_TICKS, LIVES_START, MAX_COMMANDS, MAX_PLAYER_LVL};

verus! {

/// A player on the field.
#[derive(Debug, Clone, PartialEq, Eq)]
pub struct Player {
    team: String,
    id: u16,
    next_frame: u64,
    commands: VecDeque<PlayerCmd>,
    position: Position,
    inventory: StoneSet,
    level: u8,
    remaining_life: u64,
    is_performing_incantation: bool,
}

/// A player, its texts and collections taken by value.
pub struct PlayerView {
    pub team: Seq<char>,
    pub id: u16,
    pub next_frame: u64,
    pub commands: Seq<PlayerCmdView>,
    pub position: Position,
    pub inventory: Seq<usize>,
    pub level: u8,
    pub remaining_life: u64,
    pub incantating: bool,
}

/// The views of a queue of commands.
pub open spec fn commands_view(q: Seq<PlayerCmd>) -> Seq<PlayerCmdView> {
    q.map_values(|c: PlayerCmd| c@)
}

impl View for Player {
    type V = PlayerView;

    closed spec fn view(&self) -> PlayerView {
        PlayerView {
            team: self.team@,
            id: self.id,
            next_frame: self.next_frame,
            commands: commands_view(self.commands@),
            position: self.position,
            inventory: self.inventory@,
            level: self.level,
            remaining_life: self.remaining_life,
            incantating: self.is_performing_incantation,
        }
    }
}

/// The players that an incantation at a level needs on the cell, the caster included.
pub open spec fn spec_player_requirement(level: u8) -> usize {
    if level == 1 {
        1
    } else if level == 2 || level == 3 {
        2
    } else if level == 4 || level == 5 {
        4
    } else {
        6
    }
}

/// The stones that an incantation at a level consumes from the cell, in stone index order.
pub open spec fn spec_stone_requirement(level: u8) -> Seq<usize> {
    if level == 1 {
        seq![0, 1, 0, 0, 0, 0]
    } else if level == 2 {
        seq![1, 1, 0, 0, 1, 0]
    } else if level == 3 {
        seq![0, 2, 0, 2, 1, 0]
    } else if level == 4 {
        seq![1, 1, 0, 1, 2, 0]
    } else if level == 5 {
        seq![2, 1, 3, 0, 1, 0]
    } else if level == 6 {
        seq![2, 1, 0, 1, 3, 0]
    } else {
        seq![2, 2, 2, 2, 2, 1]
    }
}

/// The inventory and life after receiving a resource: a stone adds one to its count, food
/// adds `LIFE_TICKS` frames of life.
pub open spec fn spec_after_add(p: PlayerView, r: Resource) -> PlayerView {
    match r {
        Resource::Stone(s) => PlayerView {
            inventory: p.inventory.update(
                spec_stone_index(s),
                (p.inventory[spec_stone_index(s)] + 1) as usize,
            ),
            ..p
        },
        Resource::Nourriture => PlayerView {
            remaining_life: (p.remaining_life + LIFE_TICKS) as u64,
            ..p
        },
    }
}

/// Whether a player can give a resource away: a stone it holds, or food while more than
/// one unit's worth of life remains.
pub open spec fn spec_can_remove(p: PlayerView, r: Resource) -> bool {
    match r {
        Resource::Stone(s) => p.inventory[spec_stone_index(s)] >= 1,
        Resource::Nourriture => p.remaining_life > LIFE_TICKS,
    }
}

/// The player after giving a resource away (when it can).
pub open spec fn spec_after_remove(p: PlayerView, r: Resource) -> PlayerView {
    match r {
        Resource::Stone(s) => PlayerView {
            inventory: p.inventory.update(
                spec_stone_index(s),
                (p.inventory[spec_stone_index(s)] - 1) as usize,
            ),
            ..p
        },
        Resource::Nourriture => PlayerView {
            remaining_life: (p.remaining_life - LIFE_TICKS) as u64,
            ..p
        },
    }
}

/// Whether adding a resource to the player stays within the counters' range.
pub open spec fn spec_add_fits(p: PlayerView, r: Resource) -> bool {
    match r {
        Resource::Stone(s) => p.inventory[spec_stone_index(s)] < usize::MAX,
        Resource::Nourriture => p.remaining_life + LIFE_TICKS <= u64::MAX,
    }
}

/// What ending an incantation gives: the new level, or why it cannot rise.
pub open spec fn spec_stop_incantation(p: PlayerView) -> Result<u8, GameError> {
    if !p.incantating {
        Err(GameError::IncreasingLevelWithNoIncantations(p.id))
    } else if p.level >= MAX_PLAYER_LVL {
        Err(GameError::IncreasingLevelButIsAlreadyMax(p.id))
    } else {
        Ok((p.level + 1) as u8)
    }
}

impl Player {
    /// A new player of level 1 with an empty inventory, no commands and
    /// `LIFE_TICKS * LIVES_START` frames of life.
    pub fn new(id: u16, team: String, position: Position) -> (p: Player)
        ensures
            p@ == (PlayerView {
                team: team@,
                id,
                next_frame: 0,
                commands: Seq::empty(),
                position,
                inventory: seq![0usize, 0, 0, 0, 0, 0],
                level: 1,
                remaining_life: (LIFE_TICKS * LIVES_START) as u64,
                incantating: false,
            }),
    {
        let p = Player {
            team,
            id,
            next_frame: 0,
            commands: VecDeque::with_capacity(MAX_COMMANDS),
            position,
            inventory: [0; 6],
            level: 1,
            remaining_life: LIFE_TICKS * LIVES_START,
            is_performing_incantation: false,
        };
        assert(p@.commands =~= Seq::<PlayerCmdView>::empty());
        assert(p@.inventory =~= seq![0usize, 0, 0, 0, 0, 0]);
        p
    }

    pub fn team(&self) -> (t: &String)
        ensures
            t@ == self@.team,
    {
        &self.team
    }

    pub fn id(&self) -> (i: u16)
        ensures
            i == self@.id,
    {
        self.id
    }

    pub fn next_frame(&self) -> (f: u64)
        ensures
            f == self@.next_frame,
    {
        self.next_frame
    }

    pub fn commands(&self) -> (q: &VecDeque<PlayerCmd>)
        ensures
            commands_view(q@) == self@.commands,
    {
        &self.commands
    }

    /// How many commands wait in the queue.
    pub fn commands_len(&self) -> (n: usize)
        ensures
            n == self@.commands.len(),
    {
        self.commands.len()
    }

    pub fn position(&self) -> (p: Position)
        ensures
            p == self@.position,
    {
        self.position
    }

    pub fn inventory(&self) -> (inv: &StoneSet)
        ensures
            inv@ == self@.inventory,
    {
        &self.inventory
    }

    pub fn level(&self) -> (l: u8)
        ensures
            l == self@.level,
    {
        self.level
    }

    pub fn remaining_life(&self) -> (l: u64)
        ensures
            l == self@.remaining_life,
    {
        self.remaining_life
    }

    pub fn is_performing_incantation(&self) -> (b: bool)
        ensures
            b == self@.incantating,
    {
        self.is_performing_incantation
    }

    /// Turns a quarter to the given side.
    pub fn turn(&mut self, side: Side)
        ensures
            final(self)@ == (PlayerView {
                position: Position { dir: spec_turn(old(self)@.position.dir, side), ..old(self)@.position },
                ..old(self)@
            }),
    {
        self.position.dir = self.position.dir.turn(side);
    }

    pub fn set_x(&mut self, x: usize)
        ensures
            final(self)@ == (PlayerView { position: Position { x, ..old(self)@.position }, ..old(self)@ }),
    {
        self.position.x = x;
    }

    pub fn set_y(&mut self, y: usize)
        ensures
            final(self)@ == (PlayerView { position: Position { y, ..old(self)@.position }, ..old(self)@ }),
    {
        self.position.y = y;
    }

    /// Moves to a cell, keeping the direction.
    pub fn set_cell(&mut self, x: usize, y: usize)
        ensures
            final(self)@ == (PlayerView {
                position: Position { x, y, ..old(self)@.position },
                ..old(self)@
            }),
    {
        self.position.x = x;
        self.position.y = y;
    }

    /// Raises the level by spending the current level's stones from the inventory. Fails, and
    /// changes nothing, at the highest level or when the inventory lacks a stone.
    pub fn level_up(&mut self) -> (r: bool)
        requires
            1 <= old(self)@.level,
        ensures
            r == (old(self)@.level < MAX_PLAYER_LVL && covers(
                old(self)@.inventory,
                spec_stone_requirement(old(self)@.level),
            )),
            r ==> final(self)@ == (PlayerView {
                inventory: minus(old(self)@.inventory, spec_stone_requirement(old(self)@.level)),
                level: (old(self)@.level + 1) as u8,
                ..old(self)@
            }),
            !r ==> final(self)@ == old(self)@,
    {
        if self.level >= MAX_PLAYER_LVL {
            return false;
        }
        let need = Self::stone_requirement_for(self.level);
        if reduce_current_from(&mut self.inventory, &need) {
            self.level = self.level + 1;
            true
        } else {
            false
        }
    }

    /// The stones an incantation at a level consumes.
    fn stone_requirement_for(level: u8) -> (s: StoneSet)
        requires
            1 <= level < MAX_PLAYER_LVL,
        ensures
            s@ == spec_stone_requirement(level),
    {
        let s: StoneSet = if level == 1 {
            [0, 1, 0, 0, 0, 0]
        } else if level == 2 {
            [1, 1, 0, 0, 1, 0]
        } else if level == 3 {
            [0, 2, 0, 2, 1, 0]
        } else if level == 4 {
            [1, 1, 0, 1, 2, 0]
        } else if level == 5 {
            [2, 1, 3, 0, 1, 0]
        } else if level == 6 {
            [2, 1, 0, 1, 3, 0]
        } else {
            [2, 2, 2, 2, 2, 1]
        };
        assert(s@ =~= spec_stone_requirement(level));
        s
    }

    /// The stones that an incantation at the player's level consumes from the cell.
    pub fn nxt_lvl_stone_requirements(&self) -> (s: StoneSet)
        requires
            1 <= self@.level < MAX_PLAYER_LVL,
        ensures
            s@ == spec_stone_requirement(self@.level),
    {
        Self::stone_requirement_for(self.level)
    }

    /// How many players of the same level an incantation at the player's level needs.
    pub fn nxt_lvl_player_cnt_requirements(&self) -> (n: usize)
        ensures
            n == spec_player_requirement(self@.level),
    {
        if self.level == 1 {
            1
        } else if self.level == 2 || self.level == 3 {
            2
        } else if self.level == 4 || self.level == 5 {
            4
        } else {
            6
        }
    }

    pub fn start_incantation(&mut self)
        ensures
            final(self)@ == (PlayerView { incantating: true, ..old(self)@ }),
    {
        self.is_performing_incantation = true;
    }

    /// Ends an incantation and raises the level by one; refused when no incantation runs or
    /// the level is already the highest, in which case nothing changes.
    pub fn stop_incantation(&mut self) -> (r: Result<u8, GameError>)
        ensures
            r == spec_stop_incantation(old(self)@),
            r is Ok ==> final(self)@ == (PlayerView {
                level: (old(self)@.level + 1) as u8,
                incantating: false,
                ..old(self)@
            }),
            r is Err ==> final(self)@ == old(self)@,
    {
        if !self.is_performing_incantation {
            Err(GameError::IncreasingLevelWithNoIncantations(self.id))
        } else if self.level >= MAX_PLAYER_LVL {
            Err(GameError::IncreasingLevelButIsAlreadyMax(self.id))
        } else {
            self.level = self.level + 1;
            self.is_performing_incantation = false;
            Ok(self.level)
        }
    }

    /// One frame of life goes by.
    pub fn decrease_life(&mut self)
        requires
            old(self)@.remaining_life >= DECREASED_HP_PER_FRAME,
        ensures
            final(self)@ == (PlayerView {
                remaining_life: (old(self)@.remaining_life - DECREASED_HP_PER_FRAME) as u64,
                ..old(self)@
            }),
    {
        self.remaining_life = self.remaining_life - DECREASED_HP_PER_FRAME;
    }

    pub fn pop_command_from_queue(&mut self) -> (c: Option<PlayerCmd>)
        ensures
            old(self)@.commands.len() == 0 ==> c is None && final(self)@ == old(self)@,
            old(self)@.commands.len() > 0 ==> (c matches Some(cmd) && cmd@ == old(self)@.commands[0]
                && final(self)@ == (PlayerView { commands: old(self)@.commands.drop_first(), ..old(self)@ })),
    {
        let c = self.commands.pop_front();
        proof {
            if old(self)@.commands.len() > 0 {
                assert(commands_view(self.commands@) =~= old(self)@.commands.drop_first());
            }
        }
        c
    }

    pub fn push_command_to_queue(&mut self, command: PlayerCmd)
        ensures
            final(self)@ == (PlayerView { commands: old(self)@.commands.push(command@), ..old(self)@ }),
    {
        self.commands.push_back(command);
        assert(commands_view(self.commands@) =~= old(self)@.commands.push(command@));
    }

    pub fn set_next_frame(&mut self, value: u64)
        ensures
            final(self)@ == (PlayerView { next_frame: value, ..old(self)@ }),
    {
        self.next_frame = value;
    }

    /// Receives a resource: a stone goes to the inventory, food adds `LIFE_TICKS` frames of life.
    pub fn add_to_inventory(&mut self, resource: Resource)
        requires
            old(self)@.inventory.len() == STONE_KINDS,
            spec_add_fits(old(self)@, resource),
        ensures
            final(self)@ == spec_after_add(old(self)@, resource),
    {
        match resource {
            Resource::Stone(stone) => {
                let i = stone.index();
                self.inventory[i] = self.inventory[i] + 1;
            },
            Resource::Nourriture => {
                self.remaining_life = self.remaining_life + LIFE_TICKS;
            },
        }
    }

    /// Gives a resource away when it can (see `spec_can_remove`); returns whether it did.
    pub fn remove_from_inventory(&mut self, resource: Resource) -> (r: bool)
        ensures
            r == spec_can_remove(old(self)@, resource),
            r ==> final(self)@ == spec_after_remove(old(self)@, resource),
            !r ==> final(self)@ == old(self)@,
    {
        match resource {
            Resource::Stone(stone) => {
                let i = stone.index();
                if self.inventory[i] >= 1 {
                    self.inventory[i] = self.inventory[i] - 1;
                    true
                } else {
                    false
                }
            },
            Resource::Nourriture => {
                if self.remaining_life > LIFE_TICKS {
                    self.remaining_life = self.remaining_life - LIFE_TICKS;
                    true
                } else {
                    false
                }
            },
        }
    }
}

/// Giving away a resource just received restores the player (for food, one that is still alive).
pub proof fn lemma_add_then_remove(p: PlayerView, r: Resource)
    requires
        p.inventory.len() == STONE_KINDS,
        spec_add_fits(p, r),
        r == Resource::Nourriture ==> p.remaining_life > 0,
    ensures
        spec_can_remove(spec_after_add(p, r), r),
        spec_after_remove(spec_after_add(p, r), r) == p,
{
    match r {
        Resource::Stone(s) => {
            let i = spec_stone_index(s);
            assert(spec_after_remove(spec_after_add(p, r), r).inventory =~= p.inventory);
        },
        Resource::Nourriture => {},
    }
}

/// An incantation that ends normally raises the level by exactly one and never past the top.
pub proof fn lemma_stop_raises_by_one(p: PlayerView)
    requires
        p.incantating,
        1 <= p.level < MAX_PLAYER_LVL,
    ensures
        spec_stop_incantation(p) == Ok::<u8, GameError>((p.level + 1) as u8),
        p.level + 1 <= MAX_PLAYER_LVL,
{
}

} // verus!
