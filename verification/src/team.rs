use std::collections::VecDeque;
use vstd::prelude::*;

use crate::cell::without_player;
use crate::commands::owned;
use crate::position::Position;
use crate::{PlayerError, ZappyError};

verus! {

/// The members with one more (kept once if already there), added last.
pub open spec fn with_member(members: Seq<u16>, id: u16) -> Seq<u16> {
    if members.contains(id) {
        members
    } else {
        members.push(id)
    }
}

/// Adding a member (once) keeps every member, gains that one and repeats none.
pub proof fn lemma_with_member(s: Seq<u16>, id: u16)
    requires
        s.no_duplicates(),
    ensures
        with_member(s, id).no_duplicates(),
        forall|a: u16| #[trigger] with_member(s, id).contains(a) <==> (s.contains(a) || a == id),
{
    if !s.contains(id) {
        let r = s.push(id);
        assert forall|i: int, j: int| 0 <= i < r.len() && 0 <= j < r.len() && i != j implies r[i] != r[j] by {
            if i < s.len() && j < s.len() {
                assert(s[i] != s[j]);
            }
        }
        assert forall|a: u16| #[trigger] r.contains(a) <==> (s.contains(a) || a == id) by {
            if r.contains(a) {
                let m = choose|m: int| 0 <= m < r.len() && r[m] == a;
                if m < s.len() {
                    assert(s[m] == a);
                }
            }
            if s.contains(a) {
                let m = choose|m: int| 0 <= m < s.len() && s[m] == a;
                assert(r[m] == a);
            }
            if a == id {
                assert(r[s.len() as int] == a);
            }
        }
    }
}

/// A team: its members and the positions where its next members will spawn.
#[derive(Debug, Clone, PartialEq, Eq)]
pub struct Team {
    name: String,
    members: Vec<u16>,
    spawn_positions: VecDeque<Position>,
}

pub struct TeamView {
    pub name: Seq<char>,
    pub members: Seq<u16>,
    pub spawn_positions: Seq<Position>,
}

impl View for Team {
    type V = TeamView;

    closed spec fn view(&self) -> TeamView {
        TeamView { name: self.name@, members: self.members@, spawn_positions: self.spawn_positions@ }
    }
}

impl Team {
    /// A team without members that will spawn its members at the given positions, in order.
    pub fn new(name: String, spawn_positions: VecDeque<Position>) -> (t: Team)
        ensures
            t@ == (TeamView { name: name@, members: Seq::empty(), spawn_positions: spawn_positions@ }),
    {
        Team { name, members: Vec::new(), spawn_positions }
    }

    pub fn name(&self) -> (n: &String)
        ensures
            n@ == self@.name,
    {
        &self.name
    }

    /// Admits a member at the next spawn position, which it returns; when no position is left,
    /// the team is full and nothing changes.
    pub fn add_member(&mut self, member_id: u16) -> (r: Result<Position, ZappyError>)
        requires
            old(self)@.members.no_duplicates(),
        ensures
            old(self)@.spawn_positions.len() > 0 ==> (r matches Ok(p) && p == old(self)@.spawn_positions[0]
                && final(self)@ == (TeamView {
                    name: old(self)@.name,
                    members: with_member(old(self)@.members, member_id),
                    spawn_positions: old(self)@.spawn_positions.drop_first(),
                })),
            old(self)@.spawn_positions.len() == 0 ==> (r matches Err(ZappyError::Player(PlayerError::NoPlaceAvailable(i, n)))
                && i == member_id && n@ == old(self)@.name && final(self)@ == old(self)@),
            final(self)@.members.no_duplicates(),
    {
        match self.spawn_positions.pop_front() {
            Some(p) => {
                let mut k: usize = 0;
                let mut found = false;
                while k < self.members.len()
                    invariant
                        k <= self.members.len(),
                        !found ==> forall|j: int| 0 <= j < k ==> self.members@[j] != member_id,
                        found ==> self.members@.contains(member_id),
                    decreases self.members.len() - k,
                {
                    if self.members[k] == member_id {
                        found = true;
                    }
                    k = k + 1;
                }
                if !found {
                    self.members.push(member_id);
                    proof {
                        let s = old(self)@.members;
                        assert forall|i: int, j: int| 0 <= i < s.len() + 1 && 0 <= j < s.len() + 1 && i != j
                            implies s.push(member_id)[i] != s.push(member_id)[j] by {
                            if i < s.len() && j < s.len() {
                                assert(s[i] != s[j]);
                            }
                        }
                    }
                }
                Ok(p)
            },
            None => Err(ZappyError::Player(PlayerError::NoPlaceAvailable(member_id, owned(self.name.as_str())))),
        }
    }

    /// Whether a player belongs to the team.
    pub fn has_member(&self, member: u16) -> (b: bool)
        ensures
            b == self@.members.contains(member),
    {
        let mut k: usize = 0;
        while k < self.members.len()
            invariant
                k <= self.members.len(),
                forall|j: int| 0 <= j < k ==> self.members@[j] != member,
            decreases self.members.len() - k,
        {
            if self.members[k] == member {
                return true;
            }
            k = k + 1;
        }
        false
    }

    pub fn remove_member(&mut self, member: u16)
        requires
            old(self)@.members.no_duplicates(),
        ensures
            final(self)@ == (TeamView { members: without_player(old(self)@.members, member), ..old(self)@ }),
            final(self)@.members.no_duplicates(),
    {
        let mut k: usize = 0;
        while k < self.members.len()
            invariant
                k <= self.members.len(),
                self@ == old(self)@,
                old(self)@.members.no_duplicates(),
                forall|j: int| 0 <= j < k ==> self.members@[j] != member,
            decreases self.members.len() - k,
        {
            if self.members[k] == member {
                self.members.remove(k);
                proof {
                    let s = old(self)@.members;
                    assert(s[k as int] == member);
                    assert(s.contains(member));
                    let i = s.index_of(member);
                    assert(0 <= i < s.len() && s[i] == member);
                    assert(i == k as int) by {
                        if i != k as int {
                            assert(s[i] != s[k as int]);
                        }
                    }
                    assert(self.members@ =~= s.remove(i));
                    s.remove_ensures(i);
                    let r = s.remove(i);
                    assert forall|a: int, b: int| 0 <= a < r.len() && 0 <= b < r.len() && a != b
                        implies r[a] != r[b] by {
                        let a2 = if a < i { a } else { a + 1 };
                        let b2 = if b < i { b } else { b + 1 };
                        assert(s[a2] != s[b2]);
                    }
                }
                return;
            }
            k = k + 1;
        }
    }

    /// How many more members the team can admit, as a `u16` (the count is truncated to 16 bits).
    pub fn remaining_members(&self) -> (n: u16)
        ensures
            n == (self@.spawn_positions.len() as u16),
    {
        #[verifier::truncate]
        (self.spawn_positions.len() as u16)
    }

    pub fn members_count(&self) -> (n: usize)
        ensures
            n == self@.members.len(),
    {
        self.members.len()
    }

    /// How many spawn positions are left.
    pub fn spawn_count(&self) -> (n: usize)
        ensures
            n == self@.spawn_positions.len(),
    {
        self.spawn_positions.len()
    }

    /// Adds a position where a later member will spawn.
    pub fn add_next_spawn_position(&mut self, position: Position)
        ensures
            final(self)@ == (TeamView { spawn_positions: old(self)@.spawn_positions.push(position), ..old(self)@ }),
    {
        self.spawn_positions.push_back(position);
    }
}

} // verus!
