use rand::seq::SliceRandom;
use vstd::prelude::*;

use crate::color::ZappyColor;
use crate::text::{eq_ignoring_case, matches_ignoring_case};

verus! {

/// How many kinds of stones there are.
pub const STONE_KINDS: usize = 6;

/// A count for each kind of stone, indexed by `Stone::index`.
pub type StoneSet = [usize; 6];

/// The stones of the game, in the order of their index.
#[derive(Debug, Clone, Copy, PartialEq, Eq, Structural)]
pub enum Stone {
    Deraumere,
    Linemate,
    Mendiane,
    Phiras,
    Sibur,
    Thystame,
}

/// Anything that lies on a cell or in an inventory.
#[derive(Debug, Clone, Copy, PartialEq, Eq, Structural)]
pub enum Resource {
    Stone(Stone),
    Nourriture,
}

/// The color in which food is drawn.
pub open spec fn nourriture_color() -> ZappyColor {
    ZappyColor::LightMagenta
}

pub open spec fn spec_stone_index(s: Stone) -> int {
    match s {
        Stone::Deraumere => 0,
        Stone::Linemate => 1,
        Stone::Mendiane => 2,
        Stone::Phiras => 3,
        Stone::Sibur => 4,
        Stone::Thystame => 5,
    }
}

/// The stone with the given index.
pub open spec fn spec_stone_at(i: int) -> Stone {
    if i == 0 {
        Stone::Deraumere
    } else if i == 1 {
        Stone::Linemate
    } else if i == 2 {
        Stone::Mendiane
    } else if i == 3 {
        Stone::Phiras
    } else if i == 4 {
        Stone::Sibur
    } else {
        Stone::Thystame
    }
}

pub open spec fn spec_stone_name(s: Stone) -> Seq<char> {
    match s {
        Stone::Deraumere => seq!['d', 'e', 'r', 'a', 'u', 'm', 'e', 'r', 'e'],
        Stone::Linemate => seq!['l', 'i', 'n', 'e', 'm', 'a', 't', 'e'],
        Stone::Mendiane => seq!['m', 'e', 'n', 'd', 'i', 'a', 'n', 'e'],
        Stone::Phiras => seq!['p', 'h', 'i', 'r', 'a', 's'],
        Stone::Sibur => seq!['s', 'i', 'b', 'u', 'r'],
        Stone::Thystame => seq!['t', 'h', 'y', 's', 't', 'a', 'm', 'e'],
    }
}

pub open spec fn spec_nourriture_name() -> Seq<char> {
    seq!['n', 'o', 'u', 'r', 'r', 'i', 't', 'u', 'r', 'e']
}

pub open spec fn spec_resource_name(r: Resource) -> Seq<char> {
    match r {
        Resource::Stone(s) => spec_stone_name(s),
        Resource::Nourriture => spec_nourriture_name(),
    }
}

pub open spec fn spec_stone_color(s: Stone) -> ZappyColor {
    match s {
        Stone::Deraumere => ZappyColor::Red,
        Stone::Linemate => ZappyColor::Green,
        Stone::Mendiane => ZappyColor::Yellow,
        Stone::Phiras => ZappyColor::Blue,
        Stone::Sibur => ZappyColor::Magenta,
        Stone::Thystame => ZappyColor::Cyan,
    }
}

pub open spec fn spec_resource_color(r: Resource) -> ZappyColor {
    match r {
        Resource::Stone(s) => spec_stone_color(s),
        Resource::Nourriture => nourriture_color(),
    }
}

/// The one-letter alias of a resource.
pub open spec fn spec_alias(r: Resource) -> char {
    match r {
        Resource::Stone(Stone::Deraumere) => 'D',
        Resource::Stone(Stone::Linemate) => 'L',
        Resource::Stone(Stone::Mendiane) => 'M',
        Resource::Stone(Stone::Phiras) => 'P',
        Resource::Stone(Stone::Sibur) => 'S',
        Resource::Stone(Stone::Thystame) => 'T',
        Resource::Nourriture => 'N',
    }
}

/// The resource of an inventory index: the stones first, food past them.
pub open spec fn spec_resource_at(i: int) -> Resource {
    if 0 <= i < 6 {
        Resource::Stone(spec_stone_at(i))
    } else {
        Resource::Nourriture
    }
}

/// The resource that a name denotes: its full name or its initial, in any ASCII case.
pub open spec fn spec_resource_from_name(name: Seq<char>) -> Option<Resource> {
    if matches_ignoring_case(name, spec_stone_name(Stone::Deraumere)) || matches_ignoring_case(
        name,
        seq!['d'],
    ) {
        Some(Resource::Stone(Stone::Deraumere))
    } else if matches_ignoring_case(name, spec_stone_name(Stone::Linemate))
        || matches_ignoring_case(name, seq!['l']) {
        Some(Resource::Stone(Stone::Linemate))
    } else if matches_ignoring_case(name, spec_stone_name(Stone::Mendiane))
        || matches_ignoring_case(name, seq!['m']) {
        Some(Resource::Stone(Stone::Mendiane))
    } else if matches_ignoring_case(name, spec_stone_name(Stone::Phiras)) || matches_ignoring_case(
        name,
        seq!['p'],
    ) {
        Some(Resource::Stone(Stone::Phiras))
    } else if matches_ignoring_case(name, spec_stone_name(Stone::Sibur)) || matches_ignoring_case(
        name,
        seq!['s'],
    ) {
        Some(Resource::Stone(Stone::Sibur))
    } else if matches_ignoring_case(name, spec_stone_name(Stone::Thystame))
        || matches_ignoring_case(name, seq!['t']) {
        Some(Resource::Stone(Stone::Thystame))
    } else if matches_ignoring_case(name, spec_nourriture_name()) || matches_ignoring_case(
        name,
        seq!['n'],
    ) {
        Some(Resource::Nourriture)
    } else {
        None
    }
}

/// Every count of `have` is at least the matching count of `need`.
pub open spec fn covers(have: Seq<usize>, need: Seq<usize>) -> bool {
    forall|i: int| 0 <= i < STONE_KINDS ==> #[trigger] have[i] >= need[i]
}

/// The counts of `have` less those of `need`.
pub open spec fn minus(have: Seq<usize>, need: Seq<usize>) -> Seq<usize> {
    Seq::new(STONE_KINDS as nat, |i: int| (have[i] - need[i]) as usize)
}

impl Stone {
    pub const SIZE: usize = 6;

    pub fn index(self) -> (i: usize)
        ensures
            i == spec_stone_index(self),
    {
        match self {
            Stone::Deraumere => 0,
            Stone::Linemate => 1,
            Stone::Mendiane => 2,
            Stone::Phiras => 3,
            Stone::Sibur => 4,
            Stone::Thystame => 5,
        }
    }

    /// The stone with the given index; indices past the last stone give thystame.
    pub fn from_index(i: usize) -> (s: Stone)
        ensures
            s == spec_stone_at(i as int),
    {
        if i == 0 {
            Stone::Deraumere
        } else if i == 1 {
            Stone::Linemate
        } else if i == 2 {
            Stone::Mendiane
        } else if i == 3 {
            Stone::Phiras
        } else if i == 4 {
            Stone::Sibur
        } else {
            Stone::Thystame
        }
    }

    pub fn as_str(&self) -> (s: &'static str)
        ensures
            s@ == spec_stone_name(*self),
    {
        proof {
            reveal_strlit("deraumere");
            reveal_strlit("linemate");
            reveal_strlit("mendiane");
            reveal_strlit("phiras");
            reveal_strlit("sibur");
            reveal_strlit("thystame");
        }
        match self {
            Stone::Deraumere => "deraumere",
            Stone::Linemate => "linemate",
            Stone::Mendiane => "mendiane",
            Stone::Phiras => "phiras",
            Stone::Sibur => "sibur",
            Stone::Thystame => "thystame",
        }
    }

    pub fn color(&self) -> (c: ZappyColor)
        ensures
            c == spec_stone_color(*self),
    {
        match self {
            Stone::Deraumere => ZappyColor::Red,
            Stone::Linemate => ZappyColor::Green,
            Stone::Mendiane => ZappyColor::Yellow,
            Stone::Phiras => ZappyColor::Blue,
            Stone::Sibur => ZappyColor::Magenta,
            Stone::Thystame => ZappyColor::Cyan,
        }
    }
}

impl Resource {
    pub const SIZE: usize = 7;

    pub fn alias(&self) -> (c: char)
        ensures
            c == spec_alias(*self),
    {
        match self {
            Resource::Stone(Stone::Deraumere) => 'D',
            Resource::Stone(Stone::Linemate) => 'L',
            Resource::Stone(Stone::Mendiane) => 'M',
            Resource::Stone(Stone::Phiras) => 'P',
            Resource::Stone(Stone::Sibur) => 'S',
            Resource::Stone(Stone::Thystame) => 'T',
            Resource::Nourriture => 'N',
        }
    }

    pub fn as_str(&self) -> (s: &'static str)
        ensures
            s@ == spec_resource_name(*self),
    {
        proof {
            reveal_strlit("nourriture");
        }
        match self {
            Resource::Stone(stone) => stone.as_str(),
            Resource::Nourriture => "nourriture",
        }
    }

    pub fn color(&self) -> (c: ZappyColor)
        ensures
            c == spec_resource_color(*self),
    {
        match self {
            Resource::Stone(stone) => stone.color(),
            Resource::Nourriture => ZappyColor::LightMagenta,
        }
    }

    /// The resource of an inventory index: stones for `0..6`, food for anything past.
    pub fn from_index(i: usize) -> (r: Resource)
        ensures
            r == spec_resource_at(i as int),
    {
        if i < STONE_KINDS {
            Resource::Stone(Stone::from_index(i))
        } else {
            Resource::Nourriture
        }
    }

    /// Reads a resource from its full name or its initial, in any ASCII case;
    /// any other text is refused.
    pub fn try_from_name(name: &str) -> (r: Result<Resource, ()>)
        ensures
            r matches Ok(res) ==> spec_resource_from_name(name@) == Some(res),
            r is Err <==> spec_resource_from_name(name@) is None,
    {
        proof {
            reveal_strlit("deraumere");
            reveal_strlit("linemate");
            reveal_strlit("mendiane");
            reveal_strlit("phiras");
            reveal_strlit("sibur");
            reveal_strlit("thystame");
            reveal_strlit("nourriture");
            reveal_strlit("d");
            reveal_strlit("l");
            reveal_strlit("m");
            reveal_strlit("p");
            reveal_strlit("s");
            reveal_strlit("t");
            reveal_strlit("n");
        }
        if eq_ignoring_case(name, "deraumere") || eq_ignoring_case(name, "d") {
            Ok(Resource::Stone(Stone::Deraumere))
        } else if eq_ignoring_case(name, "linemate") || eq_ignoring_case(name, "l") {
            Ok(Resource::Stone(Stone::Linemate))
        } else if eq_ignoring_case(name, "mendiane") || eq_ignoring_case(name, "m") {
            Ok(Resource::Stone(Stone::Mendiane))
        } else if eq_ignoring_case(name, "phiras") || eq_ignoring_case(name, "p") {
            Ok(Resource::Stone(Stone::Phiras))
        } else if eq_ignoring_case(name, "sibur") || eq_ignoring_case(name, "s") {
            Ok(Resource::Stone(Stone::Sibur))
        } else if eq_ignoring_case(name, "thystame") || eq_ignoring_case(name, "t") {
            Ok(Resource::Stone(Stone::Thystame))
        } else if eq_ignoring_case(name, "nourriture") || eq_ignoring_case(name, "n") {
            Ok(Resource::Nourriture)
        } else {
            Err(())
        }
    }
}

/// Whether `have` holds at least `need` of every stone.
pub fn covers_set(have: &StoneSet, need: &StoneSet) -> (r: bool)
    ensures
        r == covers(have@, need@),
{
    let mut i: usize = 0;
    while i < STONE_KINDS
        invariant
            i <= STONE_KINDS,
            forall|j: int| 0 <= j < i ==> #[trigger] have@[j] >= need@[j],
        decreases STONE_KINDS - i,
    {
        if have[i] < need[i] {
            return false;
        }
        i = i + 1;
    }
    true
}

/// Takes `need` out of `have` when `have` holds enough of every stone; otherwise leaves it.
/// Returns whether it took them.
pub fn reduce_current_from(have: &mut StoneSet, need: &StoneSet) -> (r: bool)
    ensures
        r == covers(old(have)@, need@),
        r ==> final(have)@ == minus(old(have)@, need@),
        !r ==> final(have)@ == old(have)@,
{
    if !covers_set(have, need) {
        return false;
    }
    let mut i: usize = 0;
    while i < STONE_KINDS
        invariant
            i <= STONE_KINDS,
            covers(old(have)@, need@),
            have@.len() == STONE_KINDS,
            forall|j: int| 0 <= j < i ==> #[trigger] have@[j] == old(have)@[j] - need@[j],
            forall|j: int| i <= j < STONE_KINDS ==> #[trigger] have@[j] == old(have)@[j],
        decreases STONE_KINDS - i,
    {
        assert(old(have)@[i as int] >= need@[i as int]);
        have[i] = have[i] - need[i];
        i = i + 1;
    }
    assert(have@ =~= minus(old(have)@, need@));
    true
}

/// Taking a covered set out and putting it back restores the counts.
pub proof fn lemma_reduce_then_restore(have: Seq<usize>, need: Seq<usize>)
    requires
        have.len() == STONE_KINDS,
        need.len() == STONE_KINDS,
        covers(have, need),
    ensures
        forall|i: int| 0 <= i < STONE_KINDS ==> #[trigger] minus(have, need)[i] + need[i] == have[i],
{
}

/// A name and its resource go both ways: each resource is read back from its own name.
pub proof fn lemma_name_round_trip(r: Resource)
    ensures
        spec_resource_from_name(spec_resource_name(r)) == Some(r),
{
    let n = spec_resource_name(r);
    assert(matches_ignoring_case(n, n));
    assert(!matches_ignoring_case(n, seq!['d']) || n.len() == 1);
    match r {
        Resource::Stone(Stone::Deraumere) => {},
        Resource::Stone(Stone::Linemate) => {
            assert(!matches_ignoring_case(n, spec_stone_name(Stone::Deraumere)));
        },
        Resource::Stone(Stone::Mendiane) => {
            assert(!matches_ignoring_case(n, spec_stone_name(Stone::Deraumere)));
            assert(!matches_ignoring_case(n, spec_stone_name(Stone::Linemate))) by {
                assert(!char_matches(n, spec_stone_name(Stone::Linemate), 0));
            }
        },
        Resource::Stone(Stone::Phiras) => {
            assert(!matches_ignoring_case(n, spec_stone_name(Stone::Sibur)));
        },
        Resource::Stone(Stone::Sibur) => {
            assert(!matches_ignoring_case(n, spec_stone_name(Stone::Phiras)));
        },
        Resource::Stone(Stone::Thystame) => {
            assert(!matches_ignoring_case(n, spec_stone_name(Stone::Linemate))) by {
                assert(!char_matches(n, spec_stone_name(Stone::Linemate), 0));
            }
            assert(!matches_ignoring_case(n, spec_stone_name(Stone::Mendiane))) by {
                assert(!char_matches(n, spec_stone_name(Stone::Mendiane), 0));
            }
        },
        Resource::Nourriture => {},
    }
}

/// An alias and its resource go both ways: each resource is read back from its one-letter
/// alias, written in capitals or in small letters.
pub proof fn lemma_alias_round_trip(r: Resource)
    ensures
        spec_resource_from_name(seq![spec_alias(r)]) == Some(r),
        spec_resource_from_name(seq![((spec_alias(r) as u32) + 32) as char]) == Some(r),
{
    let up = seq![spec_alias(r)];
    let low = seq![((spec_alias(r) as u32) + 32) as char];
    assert(up.len() == 1 && low.len() == 1);
    assert(!matches_ignoring_case(up, spec_stone_name(Stone::Deraumere)));
    assert(!matches_ignoring_case(up, spec_stone_name(Stone::Linemate)));
    assert(!matches_ignoring_case(up, spec_stone_name(Stone::Mendiane)));
    assert(!matches_ignoring_case(up, spec_stone_name(Stone::Phiras)));
    assert(!matches_ignoring_case(up, spec_stone_name(Stone::Sibur)));
    assert(!matches_ignoring_case(up, spec_stone_name(Stone::Thystame)));
    assert(!matches_ignoring_case(up, spec_nourriture_name()));
    assert(!matches_ignoring_case(low, spec_stone_name(Stone::Deraumere)));
    assert(!matches_ignoring_case(low, spec_stone_name(Stone::Linemate)));
    assert(!matches_ignoring_case(low, spec_stone_name(Stone::Mendiane)));
    assert(!matches_ignoring_case(low, spec_stone_name(Stone::Phiras)));
    assert(!matches_ignoring_case(low, spec_stone_name(Stone::Sibur)));
    assert(!matches_ignoring_case(low, spec_stone_name(Stone::Thystame)));
    assert(!matches_ignoring_case(low, spec_nourriture_name()));
    assert(up[0] == spec_alias(r));
    assert(low[0] == ((spec_alias(r) as u32) + 32) as char);
}

spec fn char_matches(s: Seq<char>, l: Seq<char>, i: int) -> bool {
    crate::text::char_matches_lower(s[i], l[i])
}

} // verus!

verus! {

/// Draws one element of a list of resources with `rand::seq::SliceRandom::choose` on the
/// thread-local generator. The contract claims what the source shows: on a non-empty list
/// the result is one of its elements (which one rests on chance and is not stated); on an
/// empty list there is none.
#[verifier::external_body]
fn choose_resource(options: &[Resource]) -> (r: Option<Resource>)
    ensures
        r is None <==> options@.len() == 0,
        r matches Some(x) ==> options@.contains(x),
{
    options.choose(&mut rand::thread_rng()).copied()
}

/// The table a resource is drawn from: each stone once, food twice.
pub open spec fn spec_resource_weights() -> Seq<Resource> {
    seq![
        Resource::Stone(Stone::Deraumere),
        Resource::Stone(Stone::Linemate),
        Resource::Stone(Stone::Mendiane),
        Resource::Stone(Stone::Phiras),
        Resource::Stone(Stone::Sibur),
        Resource::Stone(Stone::Thystame),
        Resource::Nourriture,
        Resource::Nourriture,
    ]
}

/// The table a resource is drawn from: each stone once, food twice.
pub fn resource_weights() -> (v: [Resource; 8])
    ensures
        v@ == spec_resource_weights(),
{
    let v = [
        Resource::Stone(Stone::Deraumere),
        Resource::Stone(Stone::Linemate),
        Resource::Stone(Stone::Mendiane),
        Resource::Stone(Stone::Phiras),
        Resource::Stone(Stone::Sibur),
        Resource::Stone(Stone::Thystame),
        Resource::Nourriture,
        Resource::Nourriture,
    ];
    assert(v@ =~= spec_resource_weights());
    v
}

/// A resource drawn at random from `resource_weights`: each stone with weight one, food with
/// weight two. Which entry comes out rests on chance; the result is always one of the table.
pub fn random_resource() -> (r: Resource)
    ensures
        spec_resource_weights().contains(r),
{
    let weights = resource_weights();
    match choose_resource(&weights) {
        Some(r) => r,
        None => Resource::Nourriture,
    }
}

} // verus!
