use vstd::prelude::*;

use crate::text::{lemma_split_word, same_text, split_once_space, split_once_space_text};

verus! {

/// Commands an administrator can give.
#[derive(Debug, Clone, Copy, PartialEq, Eq, Structural)]
pub enum AdminCommand {
    ShowOff,
}

/// The commands a player can queue.
#[derive(Debug, Clone, PartialEq, Eq, Hash)]
pub enum PlayerCmd {
    Move,
    Right,
    Left,
    See,
    Inventory,
    Take(String),
    Put(String),
    Expel,
    Broadcast(String),
    Incantation,
    Fork,
    ConnectNbr,
}

/// A player command with its texts taken by value.
pub enum PlayerCmdView {
    Move,
    Right,
    Left,
    See,
    Inventory,
    Take(Seq<char>),
    Put(Seq<char>),
    Expel,
    Broadcast(Seq<char>),
    Incantation,
    Fork,
    ConnectNbr,
}

impl View for PlayerCmd {
    type V = PlayerCmdView;

    open spec fn view(&self) -> PlayerCmdView {
        match self {
            PlayerCmd::Move => PlayerCmdView::Move,
            PlayerCmd::Right => PlayerCmdView::Right,
            PlayerCmd::Left => PlayerCmdView::Left,
            PlayerCmd::See => PlayerCmdView::See,
            PlayerCmd::Inventory => PlayerCmdView::Inventory,
            PlayerCmd::Take(s) => PlayerCmdView::Take(s@),
            PlayerCmd::Put(s) => PlayerCmdView::Put(s@),
            PlayerCmd::Expel => PlayerCmdView::Expel,
            PlayerCmd::Broadcast(s) => PlayerCmdView::Broadcast(s@),
            PlayerCmd::Incantation => PlayerCmdView::Incantation,
            PlayerCmd::Fork => PlayerCmdView::Fork,
            PlayerCmd::ConnectNbr => PlayerCmdView::ConnectNbr,
        }
    }
}

/// The older command set, named after the protocol's French words.
#[derive(Debug, Clone, PartialEq, Eq)]
pub enum Command {
    Avance,
    Droite,
    Gauche,
    Voir,
    Inventaire,
    Prend(String),
    Pose(String),
    Expulse,
    Broadcast(String),
    Incantation,
    Fork,
    ConnectNbr,
}

/// An older-set command with its texts taken by value.
pub enum CommandView {
    Avance,
    Droite,
    Gauche,
    Voir,
    Inventaire,
    Prend(Seq<char>),
    Pose(Seq<char>),
    Expulse,
    Broadcast(Seq<char>),
    Incantation,
    Fork,
    ConnectNbr,
}

impl View for Command {
    type V = CommandView;

    open spec fn view(&self) -> CommandView {
        match self {
            Command::Avance => CommandView::Avance,
            Command::Droite => CommandView::Droite,
            Command::Gauche => CommandView::Gauche,
            Command::Voir => CommandView::Voir,
            Command::Inventaire => CommandView::Inventaire,
            Command::Prend(s) => CommandView::Prend(s@),
            Command::Pose(s) => CommandView::Pose(s@),
            Command::Expulse => CommandView::Expulse,
            Command::Broadcast(s) => CommandView::Broadcast(s@),
            Command::Incantation => CommandView::Incantation,
            Command::Fork => CommandView::Fork,
            Command::ConnectNbr => CommandView::ConnectNbr,
        }
    }
}

/// The number of frames a player command takes.
pub open spec fn spec_player_cmd_delay(c: PlayerCmdView) -> u64 {
    match c {
        PlayerCmdView::Move => 7,
        PlayerCmdView::Right => 7,
        PlayerCmdView::Left => 7,
        PlayerCmdView::See => 7,
        PlayerCmdView::Inventory => 1,
        PlayerCmdView::Take(_) => 7,
        PlayerCmdView::Put(_) => 7,
        PlayerCmdView::Expel => 7,
        PlayerCmdView::Broadcast(_) => 7,
        PlayerCmdView::Incantation => 0,
        PlayerCmdView::Fork => 42,
        PlayerCmdView::ConnectNbr => 0,
    }
}

/// The number of frames a command of the older set takes.
pub open spec fn spec_command_delay(c: CommandView) -> u64 {
    match c {
        CommandView::Avance => 7,
        CommandView::Droite => 7,
        CommandView::Gauche => 7,
        CommandView::Voir => 7,
        CommandView::Inventaire => 1,
        CommandView::Prend(_) => 7,
        CommandView::Pose(_) => 7,
        CommandView::Expulse => 7,
        CommandView::Broadcast(_) => 7,
        CommandView::Incantation => 300,
        CommandView::Fork => 42,
        CommandView::ConnectNbr => 0,
    }
}

/// The command a line denotes: a keyword (or its alias) alone, or followed by a space and
/// an argument for the commands that take one.
pub open spec fn spec_parse_player_cmd(s: Seq<char>) -> Option<PlayerCmdView> {
    let (head, rest) = split_once_space(s);
    match rest {
        None => if head == "avance"@ || head == "move"@ {
            Some(PlayerCmdView::Move)
        } else if head == "droite"@ || head == "right"@ {
            Some(PlayerCmdView::Right)
        } else if head == "gauche"@ || head == "left"@ {
            Some(PlayerCmdView::Left)
        } else if head == "voir"@ || head == "see"@ {
            Some(PlayerCmdView::See)
        } else if head == "inventaire"@ || head == "inv"@ || head == "inventory"@ {
            Some(PlayerCmdView::Inventory)
        } else if head == "expulse"@ || head == "expel"@ || head == "exp"@ {
            Some(PlayerCmdView::Expel)
        } else if head == "incantation"@ || head == "inc"@ {
            Some(PlayerCmdView::Incantation)
        } else if head == "fork"@ {
            Some(PlayerCmdView::Fork)
        } else if head == "connect_nbr"@ || head == "cn"@ {
            Some(PlayerCmdView::ConnectNbr)
        } else {
            None
        },
        Some(arg) => if head == "prend"@ || head == "take"@ {
            Some(PlayerCmdView::Take(arg))
        } else if head == "pose"@ || head == "put"@ {
            Some(PlayerCmdView::Put(arg))
        } else if head == "broadcast"@ || head == "bc"@ {
            Some(PlayerCmdView::Broadcast(arg))
        } else {
            None
        },
    }
}

/// The message that refuses an unknown command line.
pub open spec fn unknown_command_message(s: Seq<char>) -> Seq<char> {
    "Unknown command: \""@ + s + "\""@
}

/// What a line of the older command set denotes: the keyword decides; the commands that
/// need an argument fail without one.
pub open spec fn spec_parse_command(s: Seq<char>) -> Result<CommandView, Seq<char>> {
    let (head, rest) = split_once_space(s);
    if head == "avance"@ {
        Ok(CommandView::Avance)
    } else if head == "droite"@ {
        Ok(CommandView::Droite)
    } else if head == "gauche"@ {
        Ok(CommandView::Gauche)
    } else if head == "voir"@ {
        Ok(CommandView::Voir)
    } else if head == "inventaire"@ {
        Ok(CommandView::Inventaire)
    } else if head == "prend"@ {
        match rest {
            Some(arg) => Ok(CommandView::Prend(arg)),
            None => Err("Expected resource name for Prend"@),
        }
    } else if head == "pose"@ {
        match rest {
            Some(arg) => Ok(CommandView::Pose(arg)),
            None => Err("Expected resource name for Pose"@),
        }
    } else if head == "expulse"@ {
        Ok(CommandView::Expulse)
    } else if head == "broadcast"@ {
        match rest {
            Some(arg) => Ok(CommandView::Broadcast(arg)),
            None => Err("Expected text for Broadcast"@),
        }
    } else if head == "incantation"@ {
        Ok(CommandView::Incantation)
    } else if head == "fork"@ {
        Ok(CommandView::Fork)
    } else if head == "connect_nbr"@ {
        Ok(CommandView::ConnectNbr)
    } else {
        Err("Unknown command"@)
    }
}

/// Builds the message that refuses an unknown command line.
fn unknown_command(s: &str) -> (m: String)
    ensures
        m@ == unknown_command_message(s@),
{
    let mut m = String::from_str("Unknown command: \"");
    m.append(s);
    m.append("\"");
    m
}

/// Builds an owned copy of a text.
pub fn owned(s: &str) -> (r: String)
    ensures
        r@ == s@,
{
    String::from_str(s)
}

impl AdminCommand {
    /// The line that announces the command in the server's log.
    pub fn show_off(&self) -> (m: &'static str)
        ensures
            m@ == "Admin showing off"@,
    {
        "Admin showing off"
    }

    /// Reads an administrator command: `show_off`, alone on the line.
    pub fn try_from_text(s: &str) -> (r: Result<AdminCommand, String>)
        ensures
            r is Ok <==> split_once_space(s@).1 is None && split_once_space(s@).0 == "show_off"@,
            r matches Err(m) ==> m@ == unknown_command_message(s@),
    {
        let (head, rest) = split_once_space_text(s);
        if rest.is_none() && same_text(head, "show_off") {
            Ok(AdminCommand::ShowOff)
        } else {
            Err(unknown_command(s))
        }
    }
}

impl PlayerCmd {
    /// Frames after a hatching egg is laid until it hatches.
    pub const EGG_FETCH_TIME_DELAY: u64 = 600;

    /// Frames an incantation lasts.
    pub const INCANTATION_DURATION: u64 = 300;

    pub fn delay(&self) -> (d: u64)
        ensures
            d == spec_player_cmd_delay(self@),
    {
        match self {
            PlayerCmd::Move => 7,
            PlayerCmd::Right => 7,
            PlayerCmd::Left => 7,
            PlayerCmd::See => 7,
            PlayerCmd::Inventory => 1,
            PlayerCmd::Take(_) => 7,
            PlayerCmd::Put(_) => 7,
            PlayerCmd::Expel => 7,
            PlayerCmd::Broadcast(_) => 7,
            PlayerCmd::Incantation => 0,
            PlayerCmd::Fork => 42,
            PlayerCmd::ConnectNbr => 0,
        }
    }

    /// Reads a player command from a line (without its line break).
    pub fn try_from_text(s: &str) -> (r: Result<PlayerCmd, String>)
        ensures
            r matches Ok(c) ==> spec_parse_player_cmd(s@) == Some(c@),
            r is Err <==> spec_parse_player_cmd(s@) is None,
            r matches Err(m) ==> m@ == unknown_command_message(s@),
    {
        let (head, rest) = split_once_space_text(s);
        match rest {
            None => {
                if same_text(head, "avance") || same_text(head, "move") {
                    Ok(PlayerCmd::Move)
                } else if same_text(head, "droite") || same_text(head, "right") {
                    Ok(PlayerCmd::Right)
                } else if same_text(head, "gauche") || same_text(head, "left") {
                    Ok(PlayerCmd::Left)
                } else if same_text(head, "voir") || same_text(head, "see") {
                    Ok(PlayerCmd::See)
                } else if same_text(head, "inventaire") || same_text(head, "inv") || same_text(
                    head,
                    "inventory",
                ) {
                    Ok(PlayerCmd::Inventory)
                } else if same_text(head, "expulse") || same_text(head, "expel") || same_text(
                    head,
                    "exp",
                ) {
                    Ok(PlayerCmd::Expel)
                } else if same_text(head, "incantation") || same_text(head, "inc") {
                    Ok(PlayerCmd::Incantation)
                } else if same_text(head, "fork") {
                    Ok(PlayerCmd::Fork)
                } else if same_text(head, "connect_nbr") || same_text(head, "cn") {
                    Ok(PlayerCmd::ConnectNbr)
                } else {
                    Err(unknown_command(s))
                }
            },
            Some(arg) => {
                if same_text(head, "prend") || same_text(head, "take") {
                    Ok(PlayerCmd::Take(owned(arg)))
                } else if same_text(head, "pose") || same_text(head, "put") {
                    Ok(PlayerCmd::Put(owned(arg)))
                } else if same_text(head, "broadcast") || same_text(head, "bc") {
                    Ok(PlayerCmd::Broadcast(owned(arg)))
                } else {
                    Err(unknown_command(s))
                }
            },
        }
    }
}

impl Command {
    pub fn delay(&self) -> (d: u64)
        ensures
            d == spec_command_delay(self@),
    {
        match self {
            Command::Avance => 7,
            Command::Droite => 7,
            Command::Gauche => 7,
            Command::Voir => 7,
            Command::Inventaire => 1,
            Command::Prend(_) => 7,
            Command::Pose(_) => 7,
            Command::Expulse => 7,
            Command::Broadcast(_) => 7,
            Command::Incantation => 300,
            Command::Fork => 42,
            Command::ConnectNbr => 0,
        }
    }

    /// Reads a command of the older set from a line.
    pub fn try_from_text(s: &str) -> (r: Result<Command, String>)
        ensures
            r matches Ok(c) ==> spec_parse_command(s@) == Ok::<CommandView, Seq<char>>(c@),
            r matches Err(m) ==> spec_parse_command(s@) == Err::<CommandView, Seq<char>>(m@),
    {
        let (head, rest) = split_once_space_text(s);
        if same_text(head, "avance") {
            Ok(Command::Avance)
        } else if same_text(head, "droite") {
            Ok(Command::Droite)
        } else if same_text(head, "gauche") {
            Ok(Command::Gauche)
        } else if same_text(head, "voir") {
            Ok(Command::Voir)
        } else if same_text(head, "inventaire") {
            Ok(Command::Inventaire)
        } else if same_text(head, "prend") {
            match rest {
                Some(arg) => Ok(Command::Prend(owned(arg))),
                None => Err(owned("Expected resource name for Prend")),
            }
        } else if same_text(head, "pose") {
            match rest {
                Some(arg) => Ok(Command::Pose(owned(arg))),
                None => Err(owned("Expected resource name for Pose")),
            }
        } else if same_text(head, "expulse") {
            Ok(Command::Expulse)
        } else if same_text(head, "broadcast") {
            match rest {
                Some(arg) => Ok(Command::Broadcast(owned(arg))),
                None => Err(owned("Expected text for Broadcast")),
            }
        } else if same_text(head, "incantation") {
            Ok(Command::Incantation)
        } else if same_text(head, "fork") {
            Ok(Command::Fork)
        } else if same_text(head, "connect_nbr") {
            Ok(Command::ConnectNbr)
        } else {
            Err(owned("Unknown command"))
        }
    }
}

/// Two words differ where they have different lengths (`at` is -1) or different letters at
/// place `at`.
proof fn lemma_words_differ(a: Seq<char>, b: Seq<char>, at: int)
    requires
        (at == -1 && a.len() != b.len()) || (0 <= at < a.len() && at < b.len() && a[at] != b[at]),
    ensures
        a != b,
{
}

/// The keywords and aliases of the protocol, letter by letter.
proof fn lemma_protocol_words()
    ensures
        "avance"@ == seq!['a', 'v', 'a', 'n', 'c', 'e'],
        "move"@ == seq!['m', 'o', 'v', 'e'],
        "droite"@ == seq!['d', 'r', 'o', 'i', 't', 'e'],
        "right"@ == seq!['r', 'i', 'g', 'h', 't'],
        "gauche"@ == seq!['g', 'a', 'u', 'c', 'h', 'e'],
        "left"@ == seq!['l', 'e', 'f', 't'],
        "voir"@ == seq!['v', 'o', 'i', 'r'],
        "see"@ == seq!['s', 'e', 'e'],
        "inventaire"@ == seq!['i', 'n', 'v', 'e', 'n', 't', 'a', 'i', 'r', 'e'],
        "inv"@ == seq!['i', 'n', 'v'],
        "inventory"@ == seq!['i', 'n', 'v', 'e', 'n', 't', 'o', 'r', 'y'],
        "expulse"@ == seq!['e', 'x', 'p', 'u', 'l', 's', 'e'],
        "expel"@ == seq!['e', 'x', 'p', 'e', 'l'],
        "exp"@ == seq!['e', 'x', 'p'],
        "incantation"@ == seq!['i', 'n', 'c', 'a', 'n', 't', 'a', 't', 'i', 'o', 'n'],
        "inc"@ == seq!['i', 'n', 'c'],
        "fork"@ == seq!['f', 'o', 'r', 'k'],
        "connect_nbr"@ == seq!['c', 'o', 'n', 'n', 'e', 'c', 't', '_', 'n', 'b', 'r'],
        "cn"@ == seq!['c', 'n'],
        "prend"@ == seq!['p', 'r', 'e', 'n', 'd'],
        "take"@ == seq!['t', 'a', 'k', 'e'],
        "pose"@ == seq!['p', 'o', 's', 'e'],
        "put"@ == seq!['p', 'u', 't'],
        "broadcast"@ == seq!['b', 'r', 'o', 'a', 'd', 'c', 'a', 's', 't'],
        "bc"@ == seq!['b', 'c'],
{
    assert("avance"@ == seq!['a', 'v', 'a', 'n', 'c', 'e']) by {
        reveal_strlit("avance");
    }
    assert("move"@ == seq!['m', 'o', 'v', 'e']) by {
        reveal_strlit("move");
    }
    assert("droite"@ == seq!['d', 'r', 'o', 'i', 't', 'e']) by {
        reveal_strlit("droite");
    }
    assert("right"@ == seq!['r', 'i', 'g', 'h', 't']) by {
        reveal_strlit("right");
    }
    assert("gauche"@ == seq!['g', 'a', 'u', 'c', 'h', 'e']) by {
        reveal_strlit("gauche");
    }
    assert("left"@ == seq!['l', 'e', 'f', 't']) by {
        reveal_strlit("left");
    }
    assert("voir"@ == seq!['v', 'o', 'i', 'r']) by {
        reveal_strlit("voir");
    }
    assert("see"@ == seq!['s', 'e', 'e']) by {
        reveal_strlit("see");
    }
    assert("inventaire"@ == seq!['i', 'n', 'v', 'e', 'n', 't', 'a', 'i', 'r', 'e']) by {
        reveal_strlit("inventaire");
    }
    assert("inv"@ == seq!['i', 'n', 'v']) by {
        reveal_strlit("inv");
    }
    assert("inventory"@ == seq!['i', 'n', 'v', 'e', 'n', 't', 'o', 'r', 'y']) by {
        reveal_strlit("inventory");
    }
    assert("expulse"@ == seq!['e', 'x', 'p', 'u', 'l', 's', 'e']) by {
        reveal_strlit("expulse");
    }
    assert("expel"@ == seq!['e', 'x', 'p', 'e', 'l']) by {
        reveal_strlit("expel");
    }
    assert("exp"@ == seq!['e', 'x', 'p']) by {
        reveal_strlit("exp");
    }
    assert("incantation"@ == seq!['i', 'n', 'c', 'a', 'n', 't', 'a', 't', 'i', 'o', 'n']) by {
        reveal_strlit("incantation");
    }
    assert("inc"@ == seq!['i', 'n', 'c']) by {
        reveal_strlit("inc");
    }
    assert("fork"@ == seq!['f', 'o', 'r', 'k']) by {
        reveal_strlit("fork");
    }
    assert("connect_nbr"@ == seq!['c', 'o', 'n', 'n', 'e', 'c', 't', '_', 'n', 'b', 'r']) by {
        reveal_strlit("connect_nbr");
    }
    assert("cn"@ == seq!['c', 'n']) by {
        reveal_strlit("cn");
    }
    assert("prend"@ == seq!['p', 'r', 'e', 'n', 'd']) by {
        reveal_strlit("prend");
    }
    assert("take"@ == seq!['t', 'a', 'k', 'e']) by {
        reveal_strlit("take");
    }
    assert("pose"@ == seq!['p', 'o', 's', 'e']) by {
        reveal_strlit("pose");
    }
    assert("put"@ == seq!['p', 'u', 't']) by {
        reveal_strlit("put");
    }
    assert("broadcast"@ == seq!['b', 'r', 'o', 'a', 'd', 'c', 'a', 's', 't']) by {
        reveal_strlit("broadcast");
    }
    assert("bc"@ == seq!['b', 'c']) by {
        reveal_strlit("bc");
    }
}

/// How a keyword splits off a line: alone it has no rest, and followed by a space and an
/// argument, the argument is its rest.
proof fn lemma_keyword_split(w: Seq<char>, arg: Seq<char>)
    requires
        forall|i: int| 0 <= i < w.len() ==> w[i] != ' ',
    ensures
        split_once_space(w) == (w, Option::<Seq<char>>::None),
        split_once_space(w + " "@ + arg) == (w, Some(arg)),
{
    reveal_strlit(" ");
    assert(" "@ =~= seq![' ']);
    lemma_split_word(w, arg);
}

#[verifier::spinoff_prover]
#[verifier::rlimit(100)]
proof fn lemma_alias_move(arg: Seq<char>)
    ensures
        spec_parse_player_cmd("move"@) == spec_parse_player_cmd("avance"@),
        spec_parse_player_cmd("move"@ + " "@ + arg) == spec_parse_player_cmd("avance"@ + " "@ + arg),
{
    lemma_protocol_words();
    lemma_words_differ("move"@, "avance"@, -1);
    lemma_words_differ("move"@, "droite"@, -1);
    lemma_words_differ("move"@, "right"@, -1);
    lemma_words_differ("move"@, "gauche"@, -1);
    lemma_words_differ("move"@, "left"@, 0);
    lemma_words_differ("move"@, "voir"@, 0);
    lemma_words_differ("move"@, "see"@, -1);
    lemma_words_differ("move"@, "inventaire"@, -1);
    lemma_words_differ("move"@, "inv"@, -1);
    lemma_words_differ("move"@, "inventory"@, -1);
    lemma_words_differ("move"@, "expulse"@, -1);
    lemma_words_differ("move"@, "expel"@, -1);
    lemma_words_differ("move"@, "exp"@, -1);
    lemma_words_differ("move"@, "incantation"@, -1);
    lemma_words_differ("move"@, "inc"@, -1);
    lemma_words_differ("move"@, "fork"@, 0);
    lemma_words_differ("move"@, "connect_nbr"@, -1);
    lemma_words_differ("move"@, "cn"@, -1);
    lemma_words_differ("move"@, "prend"@, -1);
    lemma_words_differ("move"@, "take"@, 0);
    lemma_words_differ("move"@, "pose"@, 0);
    lemma_words_differ("move"@, "put"@, -1);
    lemma_words_differ("move"@, "broadcast"@, -1);
    lemma_words_differ("move"@, "bc"@, -1);
    lemma_words_differ("avance"@, "move"@, -1);
    lemma_words_differ("avance"@, "droite"@, 0);
    lemma_words_differ("avance"@, "right"@, -1);
    lemma_words_differ("avance"@, "gauche"@, 0);
    lemma_words_differ("avance"@, "left"@, -1);
    lemma_words_differ("avance"@, "voir"@, -1);
    lemma_words_differ("avance"@, "see"@, -1);
    lemma_words_differ("avance"@, "inventaire"@, -1);
    lemma_words_differ("avance"@, "inv"@, -1);
    lemma_words_differ("avance"@, "inventory"@, -1);
    lemma_words_differ("avance"@, "expulse"@, -1);
    lemma_words_differ("avance"@, "expel"@, -1);
    lemma_words_differ("avance"@, "exp"@, -1);
    lemma_words_differ("avance"@, "incantation"@, -1);
    lemma_words_differ("avance"@, "inc"@, -1);
    lemma_words_differ("avance"@, "fork"@, -1);
    lemma_words_differ("avance"@, "connect_nbr"@, -1);
    lemma_words_differ("avance"@, "cn"@, -1);
    lemma_words_differ("avance"@, "prend"@, -1);
    lemma_words_differ("avance"@, "take"@, -1);
    lemma_words_differ("avance"@, "pose"@, -1);
    lemma_words_differ("avance"@, "put"@, -1);
    lemma_words_differ("avance"@, "broadcast"@, -1);
    lemma_words_differ("avance"@, "bc"@, -1);
    lemma_keyword_split("move"@, arg);
    lemma_keyword_split("avance"@, arg);
}

#[verifier::spinoff_prover]
#[verifier::rlimit(100)]
proof fn lemma_alias_right(arg: Seq<char>)
    ensures
        spec_parse_player_cmd("right"@) == spec_parse_player_cmd("droite"@),
        spec_parse_player_cmd("right"@ + " "@ + arg) == spec_parse_player_cmd("droite"@ + " "@ + arg),
{
    lemma_protocol_words();
    lemma_words_differ("right"@, "avance"@, -1);
    lemma_words_differ("right"@, "move"@, -1);
    lemma_words_differ("right"@, "droite"@, -1);
    lemma_words_differ("right"@, "gauche"@, -1);
    lemma_words_differ("right"@, "left"@, -1);
    lemma_words_differ("right"@, "voir"@, -1);
    lemma_words_differ("right"@, "see"@, -1);
    lemma_words_differ("right"@, "inventaire"@, -1);
    lemma_words_differ("right"@, "inv"@, -1);
    lemma_words_differ("right"@, "inventory"@, -1);
    lemma_words_differ("right"@, "expulse"@, -1);
    lemma_words_differ("right"@, "expel"@, 0);
    lemma_words_differ("right"@, "exp"@, -1);
    lemma_words_differ("right"@, "incantation"@, -1);
    lemma_words_differ("right"@, "inc"@, -1);
    lemma_words_differ("right"@, "fork"@, -1);
    lemma_words_differ("right"@, "connect_nbr"@, -1);
    lemma_words_differ("right"@, "cn"@, -1);
    lemma_words_differ("right"@, "prend"@, 0);
    lemma_words_differ("right"@, "take"@, -1);
    lemma_words_differ("right"@, "pose"@, -1);
    lemma_words_differ("right"@, "put"@, -1);
    lemma_words_differ("right"@, "broadcast"@, -1);
    lemma_words_differ("right"@, "bc"@, -1);
    lemma_words_differ("droite"@, "avance"@, 0);
    lemma_words_differ("droite"@, "move"@, -1);
    lemma_words_differ("droite"@, "right"@, -1);
    lemma_words_differ("droite"@, "gauche"@, 0);
    lemma_words_differ("droite"@, "left"@, -1);
    lemma_words_differ("droite"@, "voir"@, -1);
    lemma_words_differ("droite"@, "see"@, -1);
    lemma_words_differ("droite"@, "inventaire"@, -1);
    lemma_words_differ("droite"@, "inv"@, -1);
    lemma_words_differ("droite"@, "inventory"@, -1);
    lemma_words_differ("droite"@, "expulse"@, -1);
    lemma_words_differ("droite"@, "expel"@, -1);
    lemma_words_differ("droite"@, "exp"@, -1);
    lemma_words_differ("droite"@, "incantation"@, -1);
    lemma_words_differ("droite"@, "inc"@, -1);
    lemma_words_differ("droite"@, "fork"@, -1);
    lemma_words_differ("droite"@, "connect_nbr"@, -1);
    lemma_words_differ("droite"@, "cn"@, -1);
    lemma_words_differ("droite"@, "prend"@, -1);
    lemma_words_differ("droite"@, "take"@, -1);
    lemma_words_differ("droite"@, "pose"@, -1);
    lemma_words_differ("droite"@, "put"@, -1);
    lemma_words_differ("droite"@, "broadcast"@, -1);
    lemma_words_differ("droite"@, "bc"@, -1);
    lemma_keyword_split("right"@, arg);
    lemma_keyword_split("droite"@, arg);
}

#[verifier::spinoff_prover]
#[verifier::rlimit(100)]
proof fn lemma_alias_left(arg: Seq<char>)
    ensures
        spec_parse_player_cmd("left"@) == spec_parse_player_cmd("gauche"@),
        spec_parse_player_cmd("left"@ + " "@ + arg) == spec_parse_player_cmd("gauche"@ + " "@ + arg),
{
    lemma_protocol_words();
    lemma_words_differ("left"@, "avance"@, -1);
    lemma_words_differ("left"@, "move"@, 0);
    lemma_words_differ("left"@, "droite"@, -1);
    lemma_words_differ("left"@, "right"@, -1);
    lemma_words_differ("left"@, "gauche"@, -1);
    lemma_words_differ("left"@, "voir"@, 0);
    lemma_words_differ("left"@, "see"@, -1);
    lemma_words_differ("left"@, "inventaire"@, -1);
    lemma_words_differ("left"@, "inv"@, -1);
    lemma_words_differ("left"@, "inventory"@, -1);
    lemma_words_differ("left"@, "expulse"@, -1);
    lemma_words_differ("left"@, "expel"@, -1);
    lemma_words_differ("left"@, "exp"@, -1);
    lemma_words_differ("left"@, "incantation"@, -1);
    lemma_words_differ("left"@, "inc"@, -1);
    lemma_words_differ("left"@, "fork"@, 0);
    lemma_words_differ("left"@, "connect_nbr"@, -1);
    lemma_words_differ("left"@, "cn"@, -1);
    lemma_words_differ("left"@, "prend"@, -1);
    lemma_words_differ("left"@, "take"@, 0);
    lemma_words_differ("left"@, "pose"@, 0);
    lemma_words_differ("left"@, "put"@, -1);
    lemma_words_differ("left"@, "broadcast"@, -1);
    lemma_words_differ("left"@, "bc"@, -1);
    lemma_words_differ("gauche"@, "avance"@, 0);
    lemma_words_differ("gauche"@, "move"@, -1);
    lemma_words_differ("gauche"@, "droite"@, 0);
    lemma_words_differ("gauche"@, "right"@, -1);
    lemma_words_differ("gauche"@, "left"@, -1);
    lemma_words_differ("gauche"@, "voir"@, -1);
    lemma_words_differ("gauche"@, "see"@, -1);
    lemma_words_differ("gauche"@, "inventaire"@, -1);
    lemma_words_differ("gauche"@, "inv"@, -1);
    lemma_words_differ("gauche"@, "inventory"@, -1);
    lemma_words_differ("gauche"@, "expulse"@, -1);
    lemma_words_differ("gauche"@, "expel"@, -1);
    lemma_words_differ("gauche"@, "exp"@, -1);
    lemma_words_differ("gauche"@, "incantation"@, -1);
    lemma_words_differ("gauche"@, "inc"@, -1);
    lemma_words_differ("gauche"@, "fork"@, -1);
    lemma_words_differ("gauche"@, "connect_nbr"@, -1);
    lemma_words_differ("gauche"@, "cn"@, -1);
    lemma_words_differ("gauche"@, "prend"@, -1);
    lemma_words_differ("gauche"@, "take"@, -1);
    lemma_words_differ("gauche"@, "pose"@, -1);
    lemma_words_differ("gauche"@, "put"@, -1);
    lemma_words_differ("gauche"@, "broadcast"@, -1);
    lemma_words_differ("gauche"@, "bc"@, -1);
    lemma_keyword_split("left"@, arg);
    lemma_keyword_split("gauche"@, arg);
}

#[verifier::spinoff_prover]
#[verifier::rlimit(100)]
proof fn lemma_alias_see(arg: Seq<char>)
    ensures
        spec_parse_player_cmd("see"@) == spec_parse_player_cmd("voir"@),
        spec_parse_player_cmd("see"@ + " "@ + arg) == spec_parse_player_cmd("voir"@ + " "@ + arg),
{
    lemma_protocol_words();
    lemma_words_differ("see"@, "avance"@, -1);
    lemma_words_differ("see"@, "move"@, -1);
    lemma_words_differ("see"@, "droite"@, -1);
    lemma_words_differ("see"@, "right"@, -1);
    lemma_words_differ("see"@, "gauche"@, -1);
    lemma_words_differ("see"@, "left"@, -1);
    lemma_words_differ("see"@, "voir"@, -1);
    lemma_words_differ("see"@, "inventaire"@, -1);
    lemma_words_differ("see"@, "inv"@, 0);
    lemma_words_differ("see"@, "inventory"@, -1);
    lemma_words_differ("see"@, "expulse"@, -1);
    lemma_words_differ("see"@, "expel"@, -1);
    lemma_words_differ("see"@, "exp"@, 0);
    lemma_words_differ("see"@, "incantation"@, -1);
    lemma_words_differ("see"@, "inc"@, 0);
    lemma_words_differ("see"@, "fork"@, -1);
    lemma_words_differ("see"@, "connect_nbr"@, -1);
    lemma_words_differ("see"@, "cn"@, -1);
    lemma_words_differ("see"@, "prend"@, -1);
    lemma_words_differ("see"@, "take"@, -1);
    lemma_words_differ("see"@, "pose"@, -1);
    lemma_words_differ("see"@, "put"@, 0);
    lemma_words_differ("see"@, "broadcast"@, -1);
    lemma_words_differ("see"@, "bc"@, -1);
    lemma_words_differ("voir"@, "avance"@, -1);
    lemma_words_differ("voir"@, "move"@, 0);
    lemma_words_differ("voir"@, "droite"@, -1);
    lemma_words_differ("voir"@, "right"@, -1);
    lemma_words_differ("voir"@, "gauche"@, -1);
    lemma_words_differ("voir"@, "left"@, 0);
    lemma_words_differ("voir"@, "see"@, -1);
    lemma_words_differ("voir"@, "inventaire"@, -1);
    lemma_words_differ("voir"@, "inv"@, -1);
    lemma_words_differ("voir"@, "inventory"@, -1);
    lemma_words_differ("voir"@, "expulse"@, -1);
    lemma_words_differ("voir"@, "expel"@, -1);
    lemma_words_differ("voir"@, "exp"@, -1);
    lemma_words_differ("voir"@, "incantation"@, -1);
    lemma_words_differ("voir"@, "inc"@, -1);
    lemma_words_differ("voir"@, "fork"@, 0);
    lemma_words_differ("voir"@, "connect_nbr"@, -1);
    lemma_words_differ("voir"@, "cn"@, -1);
    lemma_words_differ("voir"@, "prend"@, -1);
    lemma_words_differ("voir"@, "take"@, 0);
    lemma_words_differ("voir"@, "pose"@, 0);
    lemma_words_differ("voir"@, "put"@, -1);
    lemma_words_differ("voir"@, "broadcast"@, -1);
    lemma_words_differ("voir"@, "bc"@, -1);
    lemma_keyword_split("see"@, arg);
    lemma_keyword_split("voir"@, arg);
}

#[verifier::spinoff_prover]
#[verifier::rlimit(100)]
proof fn lemma_alias_inv(arg: Seq<char>)
    ensures
        spec_parse_player_cmd("inv"@) == spec_parse_player_cmd("inventaire"@),
        spec_parse_player_cmd("inv"@ + " "@ + arg) == spec_parse_player_cmd("inventaire"@ + " "@ + arg),
{
    lemma_protocol_words();
    lemma_words_differ("inv"@, "avance"@, -1);
    lemma_words_differ("inv"@, "move"@, -1);
    lemma_words_differ("inv"@, "droite"@, -1);
    lemma_words_differ("inv"@, "right"@, -1);
    lemma_words_differ("inv"@, "gauche"@, -1);
    lemma_words_differ("inv"@, "left"@, -1);
    lemma_words_differ("inv"@, "voir"@, -1);
    lemma_words_differ("inv"@, "see"@, 0);
    lemma_words_differ("inv"@, "inventaire"@, -1);
    lemma_words_differ("inv"@, "inventory"@, -1);
    lemma_words_differ("inv"@, "expulse"@, -1);
    lemma_words_differ("inv"@, "expel"@, -1);
    lemma_words_differ("inv"@, "exp"@, 0);
    lemma_words_differ("inv"@, "incantation"@, -1);
    lemma_words_differ("inv"@, "inc"@, 2);
    lemma_words_differ("inv"@, "fork"@, -1);
    lemma_words_differ("inv"@, "connect_nbr"@, -1);
    lemma_words_differ("inv"@, "cn"@, -1);
    lemma_words_differ("inv"@, "prend"@, -1);
    lemma_words_differ("inv"@, "take"@, -1);
    lemma_words_differ("inv"@, "pose"@, -1);
    lemma_words_differ("inv"@, "put"@, 0);
    lemma_words_differ("inv"@, "broadcast"@, -1);
    lemma_words_differ("inv"@, "bc"@, -1);
    lemma_words_differ("inventaire"@, "avance"@, -1);
    lemma_words_differ("inventaire"@, "move"@, -1);
    lemma_words_differ("inventaire"@, "droite"@, -1);
    lemma_words_differ("inventaire"@, "right"@, -1);
    lemma_words_differ("inventaire"@, "gauche"@, -1);
    lemma_words_differ("inventaire"@, "left"@, -1);
    lemma_words_differ("inventaire"@, "voir"@, -1);
    lemma_words_differ("inventaire"@, "see"@, -1);
    lemma_words_differ("inventaire"@, "inv"@, -1);
    lemma_words_differ("inventaire"@, "inventory"@, -1);
    lemma_words_differ("inventaire"@, "expulse"@, -1);
    lemma_words_differ("inventaire"@, "expel"@, -1);
    lemma_words_differ("inventaire"@, "exp"@, -1);
    lemma_words_differ("inventaire"@, "incantation"@, -1);
    lemma_words_differ("inventaire"@, "inc"@, -1);
    lemma_words_differ("inventaire"@, "fork"@, -1);
    lemma_words_differ("inventaire"@, "connect_nbr"@, -1);
    lemma_words_differ("inventaire"@, "cn"@, -1);
    lemma_words_differ("inventaire"@, "prend"@, -1);
    lemma_words_differ("inventaire"@, "take"@, -1);
    lemma_words_differ("inventaire"@, "pose"@, -1);
    lemma_words_differ("inventaire"@, "put"@, -1);
    lemma_words_differ("inventaire"@, "broadcast"@, -1);
    lemma_words_differ("inventaire"@, "bc"@, -1);
    lemma_keyword_split("inv"@, arg);
    lemma_keyword_split("inventaire"@, arg);
}

#[verifier::spinoff_prover]
#[verifier::rlimit(100)]
proof fn lemma_alias_inventory(arg: Seq<char>)
    ensures
        spec_parse_player_cmd("inventory"@) == spec_parse_player_cmd("inventaire"@),
        spec_parse_player_cmd("inventory"@ + " "@ + arg) == spec_parse_player_cmd("inventaire"@ + " "@ + arg),
{
    lemma_protocol_words();
    lemma_words_differ("inventory"@, "avance"@, -1);
    lemma_words_differ("inventory"@, "move"@, -1);
    lemma_words_differ("inventory"@, "droite"@, -1);
    lemma_words_differ("inventory"@, "right"@, -1);
    lemma_words_differ("inventory"@, "gauche"@, -1);
    lemma_words_differ("inventory"@, "left"@, -1);
    lemma_words_differ("inventory"@, "voir"@, -1);
    lemma_words_differ("inventory"@, "see"@, -1);
    lemma_words_differ("inventory"@, "inventaire"@, -1);
    lemma_words_differ("inventory"@, "inv"@, -1);
    lemma_words_differ("inventory"@, "expulse"@, -1);
    lemma_words_differ("inventory"@, "expel"@, -1);
    lemma_words_differ("inventory"@, "exp"@, -1);
    lemma_words_differ("inventory"@, "incantation"@, -1);
    lemma_words_differ("inventory"@, "inc"@, -1);
    lemma_words_differ("inventory"@, "fork"@, -1);
    lemma_words_differ("inventory"@, "connect_nbr"@, -1);
    lemma_words_differ("inventory"@, "cn"@, -1);
    lemma_words_differ("inventory"@, "prend"@, -1);
    lemma_words_differ("inventory"@, "take"@, -1);
    lemma_words_differ("inventory"@, "pose"@, -1);
    lemma_words_differ("inventory"@, "put"@, -1);
    lemma_words_differ("inventory"@, "broadcast"@, 0);
    lemma_words_differ("inventory"@, "bc"@, -1);
    lemma_words_differ("inventaire"@, "avance"@, -1);
    lemma_words_differ("inventaire"@, "move"@, -1);
    lemma_words_differ("inventaire"@, "droite"@, -1);
    lemma_words_differ("inventaire"@, "right"@, -1);
    lemma_words_differ("inventaire"@, "gauche"@, -1);
    lemma_words_differ("inventaire"@, "left"@, -1);
    lemma_words_differ("inventaire"@, "voir"@, -1);
    lemma_words_differ("inventaire"@, "see"@, -1);
    lemma_words_differ("inventaire"@, "inv"@, -1);
    lemma_words_differ("inventaire"@, "inventory"@, -1);
    lemma_words_differ("inventaire"@, "expulse"@, -1);
    lemma_words_differ("inventaire"@, "expel"@, -1);
    lemma_words_differ("inventaire"@, "exp"@, -1);
    lemma_words_differ("inventaire"@, "incantation"@, -1);
    lemma_words_differ("inventaire"@, "inc"@, -1);
    lemma_words_differ("inventaire"@, "fork"@, -1);
    lemma_words_differ("inventaire"@, "connect_nbr"@, -1);
    lemma_words_differ("inventaire"@, "cn"@, -1);
    lemma_words_differ("inventaire"@, "prend"@, -1);
    lemma_words_differ("inventaire"@, "take"@, -1);
    lemma_words_differ("inventaire"@, "pose"@, -1);
    lemma_words_differ("inventaire"@, "put"@, -1);
    lemma_words_differ("inventaire"@, "broadcast"@, -1);
    lemma_words_differ("inventaire"@, "bc"@, -1);
    lemma_keyword_split("inventory"@, arg);
    lemma_keyword_split("inventaire"@, arg);
}

#[verifier::spinoff_prover]
#[verifier::rlimit(100)]
proof fn lemma_alias_take(arg: Seq<char>)
    ensures
        spec_parse_player_cmd("take"@) == spec_parse_player_cmd("prend"@),
        spec_parse_player_cmd("take"@ + " "@ + arg) == spec_parse_player_cmd("prend"@ + " "@ + arg),
{
    lemma_protocol_words();
    lemma_words_differ("take"@, "avance"@, -1);
    lemma_words_differ("take"@, "move"@, 0);
    lemma_words_differ("take"@, "droite"@, -1);
    lemma_words_differ("take"@, "right"@, -1);
    lemma_words_differ("take"@, "gauche"@, -1);
    lemma_words_differ("take"@, "left"@, 0);
    lemma_words_differ("take"@, "voir"@, 0);
    lemma_words_differ("take"@, "see"@, -1);
    lemma_words_differ("take"@, "inventaire"@, -1);
    lemma_words_differ("take"@, "inv"@, -1);
    lemma_words_differ("take"@, "inventory"@, -1);
    lemma_words_differ("take"@, "expulse"@, -1);
    lemma_words_differ("take"@, "expel"@, -1);
    lemma_words_differ("take"@, "exp"@, -1);
    lemma_words_differ("take"@, "incantation"@, -1);
    lemma_words_differ("take"@, "inc"@, -1);
    lemma_words_differ("take"@, "fork"@, 0);
    lemma_words_differ("take"@, "connect_nbr"@, -1);
    lemma_words_differ("take"@, "cn"@, -1);
    lemma_words_differ("take"@, "prend"@, -1);
    lemma_words_differ("take"@, "pose"@, 0);
    lemma_words_differ("take"@, "put"@, -1);
    lemma_words_differ("take"@, "broadcast"@, -1);
    lemma_words_differ("take"@, "bc"@, -1);
    lemma_words_differ("prend"@, "avance"@, -1);
    lemma_words_differ("prend"@, "move"@, -1);
    lemma_words_differ("prend"@, "droite"@, -1);
    lemma_words_differ("prend"@, "right"@, 0);
    lemma_words_differ("prend"@, "gauche"@, -1);
    lemma_words_differ("prend"@, "left"@, -1);
    lemma_words_differ("prend"@, "voir"@, -1);
    lemma_words_differ("prend"@, "see"@, -1);
    lemma_words_differ("prend"@, "inventaire"@, -1);
    lemma_words_differ("prend"@, "inv"@, -1);
    lemma_words_differ("prend"@, "inventory"@, -1);
    lemma_words_differ("prend"@, "expulse"@, -1);
    lemma_words_differ("prend"@, "expel"@, 0);
    lemma_words_differ("prend"@, "exp"@, -1);
    lemma_words_differ("prend"@, "incantation"@, -1);
    lemma_words_differ("prend"@, "inc"@, -1);
    lemma_words_differ("prend"@, "fork"@, -1);
    lemma_words_differ("prend"@, "connect_nbr"@, -1);
    lemma_words_differ("prend"@, "cn"@, -1);
    lemma_words_differ("prend"@, "take"@, -1);
    lemma_words_differ("prend"@, "pose"@, -1);
    lemma_words_differ("prend"@, "put"@, -1);
    lemma_words_differ("prend"@, "broadcast"@, -1);
    lemma_words_differ("prend"@, "bc"@, -1);
    lemma_keyword_split("take"@, arg);
    lemma_keyword_split("prend"@, arg);
}

#[verifier::spinoff_prover]
#[verifier::rlimit(100)]
proof fn lemma_alias_put(arg: Seq<char>)
    ensures
        spec_parse_player_cmd("put"@) == spec_parse_player_cmd("pose"@),
        spec_parse_player_cmd("put"@ + " "@ + arg) == spec_parse_player_cmd("pose"@ + " "@ + arg),
{
    lemma_protocol_words();
    lemma_words_differ("put"@, "avance"@, -1);
    lemma_words_differ("put"@, "move"@, -1);
    lemma_words_differ("put"@, "droite"@, -1);
    lemma_words_differ("put"@, "right"@, -1);
    lemma_words_differ("put"@, "gauche"@, -1);
    lemma_words_differ("put"@, "left"@, -1);
    lemma_words_differ("put"@, "voir"@, -1);
    lemma_words_differ("put"@, "see"@, 0);
    lemma_words_differ("put"@, "inventaire"@, -1);
    lemma_words_differ("put"@, "inv"@, 0);
    lemma_words_differ("put"@, "inventory"@, -1);
    lemma_words_differ("put"@, "expulse"@, -1);
    lemma_words_differ("put"@, "expel"@, -1);
    lemma_words_differ("put"@, "exp"@, 0);
    lemma_words_differ("put"@, "incantation"@, -1);
    lemma_words_differ("put"@, "inc"@, 0);
    lemma_words_differ("put"@, "fork"@, -1);
    lemma_words_differ("put"@, "connect_nbr"@, -1);
    lemma_words_differ("put"@, "cn"@, -1);
    lemma_words_differ("put"@, "prend"@, -1);
    lemma_words_differ("put"@, "take"@, -1);
    lemma_words_differ("put"@, "pose"@, -1);
    lemma_words_differ("put"@, "broadcast"@, -1);
    lemma_words_differ("put"@, "bc"@, -1);
    lemma_words_differ("pose"@, "avance"@, -1);
    lemma_words_differ("pose"@, "move"@, 0);
    lemma_words_differ("pose"@, "droite"@, -1);
    lemma_words_differ("pose"@, "right"@, -1);
    lemma_words_differ("pose"@, "gauche"@, -1);
    lemma_words_differ("pose"@, "left"@, 0);
    lemma_words_differ("pose"@, "voir"@, 0);
    lemma_words_differ("pose"@, "see"@, -1);
    lemma_words_differ("pose"@, "inventaire"@, -1);
    lemma_words_differ("pose"@, "inv"@, -1);
    lemma_words_differ("pose"@, "inventory"@, -1);
    lemma_words_differ("pose"@, "expulse"@, -1);
    lemma_words_differ("pose"@, "expel"@, -1);
    lemma_words_differ("pose"@, "exp"@, -1);
    lemma_words_differ("pose"@, "incantation"@, -1);
    lemma_words_differ("pose"@, "inc"@, -1);
    lemma_words_differ("pose"@, "fork"@, 0);
    lemma_words_differ("pose"@, "connect_nbr"@, -1);
    lemma_words_differ("pose"@, "cn"@, -1);
    lemma_words_differ("pose"@, "prend"@, -1);
    lemma_words_differ("pose"@, "take"@, 0);
    lemma_words_differ("pose"@, "put"@, -1);
    lemma_words_differ("pose"@, "broadcast"@, -1);
    lemma_words_differ("pose"@, "bc"@, -1);
    lemma_keyword_split("put"@, arg);
    lemma_keyword_split("pose"@, arg);
}

#[verifier::spinoff_prover]
#[verifier::rlimit(100)]
proof fn lemma_alias_expel(arg: Seq<char>)
    ensures
        spec_parse_player_cmd("expel"@) == spec_parse_player_cmd("expulse"@),
        spec_parse_player_cmd("expel"@ + " "@ + arg) == spec_parse_player_cmd("expulse"@ + " "@ + arg),
{
    lemma_protocol_words();
    lemma_words_differ("expel"@, "avance"@, -1);
    lemma_words_differ("expel"@, "move"@, -1);
    lemma_words_differ("expel"@, "droite"@, -1);
    lemma_words_differ("expel"@, "right"@, 0);
    lemma_words_differ("expel"@, "gauche"@, -1);
    lemma_words_differ("expel"@, "left"@, -1);
    lemma_words_differ("expel"@, "voir"@, -1);
    lemma_words_differ("expel"@, "see"@, -1);
    lemma_words_differ("expel"@, "inventaire"@, -1);
    lemma_words_differ("expel"@, "inv"@, -1);
    lemma_words_differ("expel"@, "inventory"@, -1);
    lemma_words_differ("expel"@, "expulse"@, -1);
    lemma_words_differ("expel"@, "exp"@, -1);
    lemma_words_differ("expel"@, "incantation"@, -1);
    lemma_words_differ("expel"@, "inc"@, -1);
    lemma_words_differ("expel"@, "fork"@, -1);
    lemma_words_differ("expel"@, "connect_nbr"@, -1);
    lemma_words_differ("expel"@, "cn"@, -1);
    lemma_words_differ("expel"@, "prend"@, 0);
    lemma_words_differ("expel"@, "take"@, -1);
    lemma_words_differ("expel"@, "pose"@, -1);
    lemma_words_differ("expel"@, "put"@, -1);
    lemma_words_differ("expel"@, "broadcast"@, -1);
    lemma_words_differ("expel"@, "bc"@, -1);
    lemma_words_differ("expulse"@, "avance"@, -1);
    lemma_words_differ("expulse"@, "move"@, -1);
    lemma_words_differ("expulse"@, "droite"@, -1);
    lemma_words_differ("expulse"@, "right"@, -1);
    lemma_words_differ("expulse"@, "gauche"@, -1);
    lemma_words_differ("expulse"@, "left"@, -1);
    lemma_words_differ("expulse"@, "voir"@, -1);
    lemma_words_differ("expulse"@, "see"@, -1);
    lemma_words_differ("expulse"@, "inventaire"@, -1);
    lemma_words_differ("expulse"@, "inv"@, -1);
    lemma_words_differ("expulse"@, "inventory"@, -1);
    lemma_words_differ("expulse"@, "expel"@, -1);
    lemma_words_differ("expulse"@, "exp"@, -1);
    lemma_words_differ("expulse"@, "incantation"@, -1);
    lemma_words_differ("expulse"@, "inc"@, -1);
    lemma_words_differ("expulse"@, "fork"@, -1);
    lemma_words_differ("expulse"@, "connect_nbr"@, -1);
    lemma_words_differ("expulse"@, "cn"@, -1);
    lemma_words_differ("expulse"@, "prend"@, -1);
    lemma_words_differ("expulse"@, "take"@, -1);
    lemma_words_differ("expulse"@, "pose"@, -1);
    lemma_words_differ("expulse"@, "put"@, -1);
    lemma_words_differ("expulse"@, "broadcast"@, -1);
    lemma_words_differ("expulse"@, "bc"@, -1);
    lemma_keyword_split("expel"@, arg);
    lemma_keyword_split("expulse"@, arg);
}

#[verifier::spinoff_prover]
#[verifier::rlimit(100)]
proof fn lemma_alias_exp(arg: Seq<char>)
    ensures
        spec_parse_player_cmd("exp"@) == spec_parse_player_cmd("expulse"@),
        spec_parse_player_cmd("exp"@ + " "@ + arg) == spec_parse_player_cmd("expulse"@ + " "@ + arg),
{
    lemma_protocol_words();
    lemma_words_differ("exp"@, "avance"@, -1);
    lemma_words_differ("exp"@, "move"@, -1);
    lemma_words_differ("exp"@, "droite"@, -1);
    lemma_words_differ("exp"@, "right"@, -1);
    lemma_words_differ("exp"@, "gauche"@, -1);
    lemma_words_differ("exp"@, "left"@, -1);
    lemma_words_differ("exp"@, "voir"@, -1);
    lemma_words_differ("exp"@, "see"@, 0);
    lemma_words_differ("exp"@, "inventaire"@, -1);
    lemma_words_differ("exp"@, "inv"@, 0);
    lemma_words_differ("exp"@, "inventory"@, -1);
    lemma_words_differ("exp"@, "expulse"@, -1);
    lemma_words_differ("exp"@, "expel"@, -1);
    lemma_words_differ("exp"@, "incantation"@, -1);
    lemma_words_differ("exp"@, "inc"@, 0);
    lemma_words_differ("exp"@, "fork"@, -1);
    lemma_words_differ("exp"@, "connect_nbr"@, -1);
    lemma_words_differ("exp"@, "cn"@, -1);
    lemma_words_differ("exp"@, "prend"@, -1);
    lemma_words_differ("exp"@, "take"@, -1);
    lemma_words_differ("exp"@, "pose"@, -1);
    lemma_words_differ("exp"@, "put"@, 0);
    lemma_words_differ("exp"@, "broadcast"@, -1);
    lemma_words_differ("exp"@, "bc"@, -1);
    lemma_words_differ("expulse"@, "avance"@, -1);
    lemma_words_differ("expulse"@, "move"@, -1);
    lemma_words_differ("expulse"@, "droite"@, -1);
    lemma_words_differ("expulse"@, "right"@, -1);
    lemma_words_differ("expulse"@, "gauche"@, -1);
    lemma_words_differ("expulse"@, "left"@, -1);
    lemma_words_differ("expulse"@, "voir"@, -1);
    lemma_words_differ("expulse"@, "see"@, -1);
    lemma_words_differ("expulse"@, "inventaire"@, -1);
    lemma_words_differ("expulse"@, "inv"@, -1);
    lemma_words_differ("expulse"@, "inventory"@, -1);
    lemma_words_differ("expulse"@, "expel"@, -1);
    lemma_words_differ("expulse"@, "exp"@, -1);
    lemma_words_differ("expulse"@, "incantation"@, -1);
    lemma_words_differ("expulse"@, "inc"@, -1);
    lemma_words_differ("expulse"@, "fork"@, -1);
    lemma_words_differ("expulse"@, "connect_nbr"@, -1);
    lemma_words_differ("expulse"@, "cn"@, -1);
    lemma_words_differ("expulse"@, "prend"@, -1);
    lemma_words_differ("expulse"@, "take"@, -1);
    lemma_words_differ("expulse"@, "pose"@, -1);
    lemma_words_differ("expulse"@, "put"@, -1);
    lemma_words_differ("expulse"@, "broadcast"@, -1);
    lemma_words_differ("expulse"@, "bc"@, -1);
    lemma_keyword_split("exp"@, arg);
    lemma_keyword_split("expulse"@, arg);
}

#[verifier::spinoff_prover]
#[verifier::rlimit(100)]
proof fn lemma_alias_bc(arg: Seq<char>)
    ensures
        spec_parse_player_cmd("bc"@) == spec_parse_player_cmd("broadcast"@),
        spec_parse_player_cmd("bc"@ + " "@ + arg) == spec_parse_player_cmd("broadcast"@ + " "@ + arg),
{
    lemma_protocol_words();
    lemma_words_differ("bc"@, "avance"@, -1);
    lemma_words_differ("bc"@, "move"@, -1);
    lemma_words_differ("bc"@, "droite"@, -1);
    lemma_words_differ("bc"@, "right"@, -1);
    lemma_words_differ("bc"@, "gauche"@, -1);
    lemma_words_differ("bc"@, "left"@, -1);
    lemma_words_differ("bc"@, "voir"@, -1);
    lemma_words_differ("bc"@, "see"@, -1);
    lemma_words_differ("bc"@, "inventaire"@, -1);
    lemma_words_differ("bc"@, "inv"@, -1);
    lemma_words_differ("bc"@, "inventory"@, -1);
    lemma_words_differ("bc"@, "expulse"@, -1);
    lemma_words_differ("bc"@, "expel"@, -1);
    lemma_words_differ("bc"@, "exp"@, -1);
    lemma_words_differ("bc"@, "incantation"@, -1);
    lemma_words_differ("bc"@, "inc"@, -1);
    lemma_words_differ("bc"@, "fork"@, -1);
    lemma_words_differ("bc"@, "connect_nbr"@, -1);
    lemma_words_differ("bc"@, "cn"@, 0);
    lemma_words_differ("bc"@, "prend"@, -1);
    lemma_words_differ("bc"@, "take"@, -1);
    lemma_words_differ("bc"@, "pose"@, -1);
    lemma_words_differ("bc"@, "put"@, -1);
    lemma_words_differ("bc"@, "broadcast"@, -1);
    lemma_words_differ("broadcast"@, "avance"@, -1);
    lemma_words_differ("broadcast"@, "move"@, -1);
    lemma_words_differ("broadcast"@, "droite"@, -1);
    lemma_words_differ("broadcast"@, "right"@, -1);
    lemma_words_differ("broadcast"@, "gauche"@, -1);
    lemma_words_differ("broadcast"@, "left"@, -1);
    lemma_words_differ("broadcast"@, "voir"@, -1);
    lemma_words_differ("broadcast"@, "see"@, -1);
    lemma_words_differ("broadcast"@, "inventaire"@, -1);
    lemma_words_differ("broadcast"@, "inv"@, -1);
    lemma_words_differ("broadcast"@, "inventory"@, 0);
    lemma_words_differ("broadcast"@, "expulse"@, -1);
    lemma_words_differ("broadcast"@, "expel"@, -1);
    lemma_words_differ("broadcast"@, "exp"@, -1);
    lemma_words_differ("broadcast"@, "incantation"@, -1);
    lemma_words_differ("broadcast"@, "inc"@, -1);
    lemma_words_differ("broadcast"@, "fork"@, -1);
    lemma_words_differ("broadcast"@, "connect_nbr"@, -1);
    lemma_words_differ("broadcast"@, "cn"@, -1);
    lemma_words_differ("broadcast"@, "prend"@, -1);
    lemma_words_differ("broadcast"@, "take"@, -1);
    lemma_words_differ("broadcast"@, "pose"@, -1);
    lemma_words_differ("broadcast"@, "put"@, -1);
    lemma_words_differ("broadcast"@, "bc"@, -1);
    lemma_keyword_split("bc"@, arg);
    lemma_keyword_split("broadcast"@, arg);
}

#[verifier::spinoff_prover]
#[verifier::rlimit(100)]
proof fn lemma_alias_inc(arg: Seq<char>)
    ensures
        spec_parse_player_cmd("inc"@) == spec_parse_player_cmd("incantation"@),
        spec_parse_player_cmd("inc"@ + " "@ + arg) == spec_parse_player_cmd("incantation"@ + " "@ + arg),
{
    lemma_protocol_words();
    lemma_words_differ("inc"@, "avance"@, -1);
    lemma_words_differ("inc"@, "move"@, -1);
    lemma_words_differ("inc"@, "droite"@, -1);
    lemma_words_differ("inc"@, "right"@, -1);
    lemma_words_differ("inc"@, "gauche"@, -1);
    lemma_words_differ("inc"@, "left"@, -1);
    lemma_words_differ("inc"@, "voir"@, -1);
    lemma_words_differ("inc"@, "see"@, 0);
    lemma_words_differ("inc"@, "inventaire"@, -1);
    lemma_words_differ("inc"@, "inv"@, 2);
    lemma_words_differ("inc"@, "inventory"@, -1);
    lemma_words_differ("inc"@, "expulse"@, -1);
    lemma_words_differ("inc"@, "expel"@, -1);
    lemma_words_differ("inc"@, "exp"@, 0);
    lemma_words_differ("inc"@, "incantation"@, -1);
    lemma_words_differ("inc"@, "fork"@, -1);
    lemma_words_differ("inc"@, "connect_nbr"@, -1);
    lemma_words_differ("inc"@, "cn"@, -1);
    lemma_words_differ("inc"@, "prend"@, -1);
    lemma_words_differ("inc"@, "take"@, -1);
    lemma_words_differ("inc"@, "pose"@, -1);
    lemma_words_differ("inc"@, "put"@, 0);
    lemma_words_differ("inc"@, "broadcast"@, -1);
    lemma_words_differ("inc"@, "bc"@, -1);
    lemma_words_differ("incantation"@, "avance"@, -1);
    lemma_words_differ("incantation"@, "move"@, -1);
    lemma_words_differ("incantation"@, "droite"@, -1);
    lemma_words_differ("incantation"@, "right"@, -1);
    lemma_words_differ("incantation"@, "gauche"@, -1);
    lemma_words_differ("incantation"@, "left"@, -1);
    lemma_words_differ("incantation"@, "voir"@, -1);
    lemma_words_differ("incantation"@, "see"@, -1);
    lemma_words_differ("incantation"@, "inventaire"@, -1);
    lemma_words_differ("incantation"@, "inv"@, -1);
    lemma_words_differ("incantation"@, "inventory"@, -1);
    lemma_words_differ("incantation"@, "expulse"@, -1);
    lemma_words_differ("incantation"@, "expel"@, -1);
    lemma_words_differ("incantation"@, "exp"@, -1);
    lemma_words_differ("incantation"@, "inc"@, -1);
    lemma_words_differ("incantation"@, "fork"@, -1);
    lemma_words_differ("incantation"@, "connect_nbr"@, 0);
    lemma_words_differ("incantation"@, "cn"@, -1);
    lemma_words_differ("incantation"@, "prend"@, -1);
    lemma_words_differ("incantation"@, "take"@, -1);
    lemma_words_differ("incantation"@, "pose"@, -1);
    lemma_words_differ("incantation"@, "put"@, -1);
    lemma_words_differ("incantation"@, "broadcast"@, -1);
    lemma_words_differ("incantation"@, "bc"@, -1);
    lemma_keyword_split("inc"@, arg);
    lemma_keyword_split("incantation"@, arg);
}

#[verifier::spinoff_prover]
#[verifier::rlimit(100)]
proof fn lemma_alias_cn(arg: Seq<char>)
    ensures
        spec_parse_player_cmd("cn"@) == spec_parse_player_cmd("connect_nbr"@),
        spec_parse_player_cmd("cn"@ + " "@ + arg) == spec_parse_player_cmd("connect_nbr"@ + " "@ + arg),
{
    lemma_protocol_words();
    lemma_words_differ("cn"@, "avance"@, -1);
    lemma_words_differ("cn"@, "move"@, -1);
    lemma_words_differ("cn"@, "droite"@, -1);
    lemma_words_differ("cn"@, "right"@, -1);
    lemma_words_differ("cn"@, "gauche"@, -1);
    lemma_words_differ("cn"@, "left"@, -1);
    lemma_words_differ("cn"@, "voir"@, -1);
    lemma_words_differ("cn"@, "see"@, -1);
    lemma_words_differ("cn"@, "inventaire"@, -1);
    lemma_words_differ("cn"@, "inv"@, -1);
    lemma_words_differ("cn"@, "inventory"@, -1);
    lemma_words_differ("cn"@, "expulse"@, -1);
    lemma_words_differ("cn"@, "expel"@, -1);
    lemma_words_differ("cn"@, "exp"@, -1);
    lemma_words_differ("cn"@, "incantation"@, -1);
    lemma_words_differ("cn"@, "inc"@, -1);
    lemma_words_differ("cn"@, "fork"@, -1);
    lemma_words_differ("cn"@, "connect_nbr"@, -1);
    lemma_words_differ("cn"@, "prend"@, -1);
    lemma_words_differ("cn"@, "take"@, -1);
    lemma_words_differ("cn"@, "pose"@, -1);
    lemma_words_differ("cn"@, "put"@, -1);
    lemma_words_differ("cn"@, "broadcast"@, -1);
    lemma_words_differ("cn"@, "bc"@, 0);
    lemma_words_differ("connect_nbr"@, "avance"@, -1);
    lemma_words_differ("connect_nbr"@, "move"@, -1);
    lemma_words_differ("connect_nbr"@, "droite"@, -1);
    lemma_words_differ("connect_nbr"@, "right"@, -1);
    lemma_words_differ("connect_nbr"@, "gauche"@, -1);
    lemma_words_differ("connect_nbr"@, "left"@, -1);
    lemma_words_differ("connect_nbr"@, "voir"@, -1);
    lemma_words_differ("connect_nbr"@, "see"@, -1);
    lemma_words_differ("connect_nbr"@, "inventaire"@, -1);
    lemma_words_differ("connect_nbr"@, "inv"@, -1);
    lemma_words_differ("connect_nbr"@, "inventory"@, -1);
    lemma_words_differ("connect_nbr"@, "expulse"@, -1);
    lemma_words_differ("connect_nbr"@, "expel"@, -1);
    lemma_words_differ("connect_nbr"@, "exp"@, -1);
    lemma_words_differ("connect_nbr"@, "incantation"@, 0);
    lemma_words_differ("connect_nbr"@, "inc"@, -1);
    lemma_words_differ("connect_nbr"@, "fork"@, -1);
    lemma_words_differ("connect_nbr"@, "cn"@, -1);
    lemma_words_differ("connect_nbr"@, "prend"@, -1);
    lemma_words_differ("connect_nbr"@, "take"@, -1);
    lemma_words_differ("connect_nbr"@, "pose"@, -1);
    lemma_words_differ("connect_nbr"@, "put"@, -1);
    lemma_words_differ("connect_nbr"@, "broadcast"@, -1);
    lemma_words_differ("connect_nbr"@, "bc"@, -1);
    lemma_keyword_split("cn"@, arg);
    lemma_keyword_split("connect_nbr"@, arg);
}

/// Each alias of the protocol reads as its keyword, alone and followed by a space and an
/// argument: `move` as `avance`, `right` as `droite`, `left` as `gauche`, `see` as `voir`,
/// `inv` and `inventory` as `inventaire`, `take` as `prend`, `put` as `pose`, `expel` and
/// `exp` as `expulse`, `bc` as `broadcast`, `inc` as `incantation`, `cn` as `connect_nbr`.
pub proof fn lemma_aliases_read_as_keywords(arg: Seq<char>)
    ensures
        spec_parse_player_cmd("move"@) == spec_parse_player_cmd("avance"@),
        spec_parse_player_cmd("move"@ + " "@ + arg) == spec_parse_player_cmd("avance"@ + " "@ + arg),
        spec_parse_player_cmd("right"@) == spec_parse_player_cmd("droite"@),
        spec_parse_player_cmd("right"@ + " "@ + arg) == spec_parse_player_cmd("droite"@ + " "@ + arg),
        spec_parse_player_cmd("left"@) == spec_parse_player_cmd("gauche"@),
        spec_parse_player_cmd("left"@ + " "@ + arg) == spec_parse_player_cmd("gauche"@ + " "@ + arg),
        spec_parse_player_cmd("see"@) == spec_parse_player_cmd("voir"@),
        spec_parse_player_cmd("see"@ + " "@ + arg) == spec_parse_player_cmd("voir"@ + " "@ + arg),
        spec_parse_player_cmd("inv"@) == spec_parse_player_cmd("inventaire"@),
        spec_parse_player_cmd("inv"@ + " "@ + arg) == spec_parse_player_cmd("inventaire"@ + " "@ + arg),
        spec_parse_player_cmd("inventory"@) == spec_parse_player_cmd("inventaire"@),
        spec_parse_player_cmd("inventory"@ + " "@ + arg) == spec_parse_player_cmd("inventaire"@ + " "@ + arg),
        spec_parse_player_cmd("take"@) == spec_parse_player_cmd("prend"@),
        spec_parse_player_cmd("take"@ + " "@ + arg) == spec_parse_player_cmd("prend"@ + " "@ + arg),
        spec_parse_player_cmd("put"@) == spec_parse_player_cmd("pose"@),
        spec_parse_player_cmd("put"@ + " "@ + arg) == spec_parse_player_cmd("pose"@ + " "@ + arg),
        spec_parse_player_cmd("expel"@) == spec_parse_player_cmd("expulse"@),
        spec_parse_player_cmd("expel"@ + " "@ + arg) == spec_parse_player_cmd("expulse"@ + " "@ + arg),
        spec_parse_player_cmd("exp"@) == spec_parse_player_cmd("expulse"@),
        spec_parse_player_cmd("exp"@ + " "@ + arg) == spec_parse_player_cmd("expulse"@ + " "@ + arg),
        spec_parse_player_cmd("bc"@) == spec_parse_player_cmd("broadcast"@),
        spec_parse_player_cmd("bc"@ + " "@ + arg) == spec_parse_player_cmd("broadcast"@ + " "@ + arg),
        spec_parse_player_cmd("inc"@) == spec_parse_player_cmd("incantation"@),
        spec_parse_player_cmd("inc"@ + " "@ + arg) == spec_parse_player_cmd("incantation"@ + " "@ + arg),
        spec_parse_player_cmd("cn"@) == spec_parse_player_cmd("connect_nbr"@),
        spec_parse_player_cmd("cn"@ + " "@ + arg) == spec_parse_player_cmd("connect_nbr"@ + " "@ + arg),
{
    lemma_alias_move(arg);
    lemma_alias_right(arg);
    lemma_alias_left(arg);
    lemma_alias_see(arg);
    lemma_alias_inv(arg);
    lemma_alias_inventory(arg);
    lemma_alias_take(arg);
    lemma_alias_put(arg);
    lemma_alias_expel(arg);
    lemma_alias_exp(arg);
    lemma_alias_bc(arg);
    lemma_alias_inc(arg);
    lemma_alias_cn(arg);
}

/// The player command that a command of the older set names.
pub open spec fn older_as_player(c: CommandView) -> PlayerCmdView {
    match c {
        CommandView::Avance => PlayerCmdView::Move,
        CommandView::Droite => PlayerCmdView::Right,
        CommandView::Gauche => PlayerCmdView::Left,
        CommandView::Voir => PlayerCmdView::See,
        CommandView::Inventaire => PlayerCmdView::Inventory,
        CommandView::Prend(a) => PlayerCmdView::Take(a),
        CommandView::Pose(a) => PlayerCmdView::Put(a),
        CommandView::Expulse => PlayerCmdView::Expel,
        CommandView::Broadcast(a) => PlayerCmdView::Broadcast(a),
        CommandView::Incantation => PlayerCmdView::Incantation,
        CommandView::Fork => PlayerCmdView::Fork,
        CommandView::ConnectNbr => PlayerCmdView::ConnectNbr,
    }
}

#[verifier::spinoff_prover]
#[verifier::rlimit(100)]
proof fn lemma_keyword_avance(arg: Seq<char>)
    ensures
        spec_parse_command("avance"@) is Ok && spec_parse_player_cmd("avance"@) == Some(older_as_player(spec_parse_command("avance"@)->Ok_0)),
{
    lemma_protocol_words();
    lemma_words_differ("avance"@, "move"@, -1);
    lemma_words_differ("avance"@, "droite"@, 0);
    lemma_words_differ("avance"@, "right"@, -1);
    lemma_words_differ("avance"@, "gauche"@, 0);
    lemma_words_differ("avance"@, "left"@, -1);
    lemma_words_differ("avance"@, "voir"@, -1);
    lemma_words_differ("avance"@, "see"@, -1);
    lemma_words_differ("avance"@, "inventaire"@, -1);
    lemma_words_differ("avance"@, "inv"@, -1);
    lemma_words_differ("avance"@, "inventory"@, -1);
    lemma_words_differ("avance"@, "expulse"@, -1);
    lemma_words_differ("avance"@, "expel"@, -1);
    lemma_words_differ("avance"@, "exp"@, -1);
    lemma_words_differ("avance"@, "incantation"@, -1);
    lemma_words_differ("avance"@, "inc"@, -1);
    lemma_words_differ("avance"@, "fork"@, -1);
    lemma_words_differ("avance"@, "connect_nbr"@, -1);
    lemma_words_differ("avance"@, "cn"@, -1);
    lemma_words_differ("avance"@, "prend"@, -1);
    lemma_words_differ("avance"@, "take"@, -1);
    lemma_words_differ("avance"@, "pose"@, -1);
    lemma_words_differ("avance"@, "put"@, -1);
    lemma_words_differ("avance"@, "broadcast"@, -1);
    lemma_words_differ("avance"@, "bc"@, -1);
    lemma_keyword_split("avance"@, arg);
}

#[verifier::spinoff_prover]
#[verifier::rlimit(100)]
proof fn lemma_keyword_droite(arg: Seq<char>)
    ensures
        spec_parse_command("droite"@) is Ok && spec_parse_player_cmd("droite"@) == Some(older_as_player(spec_parse_command("droite"@)->Ok_0)),
{
    lemma_protocol_words();
    lemma_words_differ("droite"@, "avance"@, 0);
    lemma_words_differ("droite"@, "move"@, -1);
    lemma_words_differ("droite"@, "right"@, -1);
    lemma_words_differ("droite"@, "gauche"@, 0);
    lemma_words_differ("droite"@, "left"@, -1);
    lemma_words_differ("droite"@, "voir"@, -1);
    lemma_words_differ("droite"@, "see"@, -1);
    lemma_words_differ("droite"@, "inventaire"@, -1);
    lemma_words_differ("droite"@, "inv"@, -1);
    lemma_words_differ("droite"@, "inventory"@, -1);
    lemma_words_differ("droite"@, "expulse"@, -1);
    lemma_words_differ("droite"@, "expel"@, -1);
    lemma_words_differ("droite"@, "exp"@, -1);
    lemma_words_differ("droite"@, "incantation"@, -1);
    lemma_words_differ("droite"@, "inc"@, -1);
    lemma_words_differ("droite"@, "fork"@, -1);
    lemma_words_differ("droite"@, "connect_nbr"@, -1);
    lemma_words_differ("droite"@, "cn"@, -1);
    lemma_words_differ("droite"@, "prend"@, -1);
    lemma_words_differ("droite"@, "take"@, -1);
    lemma_words_differ("droite"@, "pose"@, -1);
    lemma_words_differ("droite"@, "put"@, -1);
    lemma_words_differ("droite"@, "broadcast"@, -1);
    lemma_words_differ("droite"@, "bc"@, -1);
    lemma_keyword_split("droite"@, arg);
}

#[verifier::spinoff_prover]
#[verifier::rlimit(100)]
proof fn lemma_keyword_gauche(arg: Seq<char>)
    ensures
        spec_parse_command("gauche"@) is Ok && spec_parse_player_cmd("gauche"@) == Some(older_as_player(spec_parse_command("gauche"@)->Ok_0)),
{
    lemma_protocol_words();
    lemma_words_differ("gauche"@, "avance"@, 0);
    lemma_words_differ("gauche"@, "move"@, -1);
    lemma_words_differ("gauche"@, "droite"@, 0);
    lemma_words_differ("gauche"@, "right"@, -1);
    lemma_words_differ("gauche"@, "left"@, -1);
    lemma_words_differ("gauche"@, "voir"@, -1);
    lemma_words_differ("gauche"@, "see"@, -1);
    lemma_words_differ("gauche"@, "inventaire"@, -1);
    lemma_words_differ("gauche"@, "inv"@, -1);
    lemma_words_differ("gauche"@, "inventory"@, -1);
    lemma_words_differ("gauche"@, "expulse"@, -1);
    lemma_words_differ("gauche"@, "expel"@, -1);
    lemma_words_differ("gauche"@, "exp"@, -1);
    lemma_words_differ("gauche"@, "incantation"@, -1);
    lemma_words_differ("gauche"@, "inc"@, -1);
    lemma_words_differ("gauche"@, "fork"@, -1);
    lemma_words_differ("gauche"@, "connect_nbr"@, -1);
    lemma_words_differ("gauche"@, "cn"@, -1);
    lemma_words_differ("gauche"@, "prend"@, -1);
    lemma_words_differ("gauche"@, "take"@, -1);
    lemma_words_differ("gauche"@, "pose"@, -1);
    lemma_words_differ("gauche"@, "put"@, -1);
    lemma_words_differ("gauche"@, "broadcast"@, -1);
    lemma_words_differ("gauche"@, "bc"@, -1);
    lemma_keyword_split("gauche"@, arg);
}

#[verifier::spinoff_prover]
#[verifier::rlimit(100)]
proof fn lemma_keyword_voir(arg: Seq<char>)
    ensures
        spec_parse_command("voir"@) is Ok && spec_parse_player_cmd("voir"@) == Some(older_as_player(spec_parse_command("voir"@)->Ok_0)),
{
    lemma_protocol_words();
    lemma_words_differ("voir"@, "avance"@, -1);
    lemma_words_differ("voir"@, "move"@, 0);
    lemma_words_differ("voir"@, "droite"@, -1);
    lemma_words_differ("voir"@, "right"@, -1);
    lemma_words_differ("voir"@, "gauche"@, -1);
    lemma_words_differ("voir"@, "left"@, 0);
    lemma_words_differ("voir"@, "see"@, -1);
    lemma_words_differ("voir"@, "inventaire"@, -1);
    lemma_words_differ("voir"@, "inv"@, -1);
    lemma_words_differ("voir"@, "inventory"@, -1);
    lemma_words_differ("voir"@, "expulse"@, -1);
    lemma_words_differ("voir"@, "expel"@, -1);
    lemma_words_differ("voir"@, "exp"@, -1);
    lemma_words_differ("voir"@, "incantation"@, -1);
    lemma_words_differ("voir"@, "inc"@, -1);
    lemma_words_differ("voir"@, "fork"@, 0);
    lemma_words_differ("voir"@, "connect_nbr"@, -1);
    lemma_words_differ("voir"@, "cn"@, -1);
    lemma_words_differ("voir"@, "prend"@, -1);
    lemma_words_differ("voir"@, "take"@, 0);
    lemma_words_differ("voir"@, "pose"@, 0);
    lemma_words_differ("voir"@, "put"@, -1);
    lemma_words_differ("voir"@, "broadcast"@, -1);
    lemma_words_differ("voir"@, "bc"@, -1);
    lemma_keyword_split("voir"@, arg);
}

#[verifier::spinoff_prover]
#[verifier::rlimit(100)]
proof fn lemma_keyword_inventaire(arg: Seq<char>)
    ensures
        spec_parse_command("inventaire"@) is Ok && spec_parse_player_cmd("inventaire"@) == Some(older_as_player(spec_parse_command("inventaire"@)->Ok_0)),
{
    lemma_protocol_words();
    lemma_words_differ("inventaire"@, "avance"@, -1);
    lemma_words_differ("inventaire"@, "move"@, -1);
    lemma_words_differ("inventaire"@, "droite"@, -1);
    lemma_words_differ("inventaire"@, "right"@, -1);
    lemma_words_differ("inventaire"@, "gauche"@, -1);
    lemma_words_differ("inventaire"@, "left"@, -1);
    lemma_words_differ("inventaire"@, "voir"@, -1);
    lemma_words_differ("inventaire"@, "see"@, -1);
    lemma_words_differ("inventaire"@, "inv"@, -1);
    lemma_words_differ("inventaire"@, "inventory"@, -1);
    lemma_words_differ("inventaire"@, "expulse"@, -1);
    lemma_words_differ("inventaire"@, "expel"@, -1);
    lemma_words_differ("inventaire"@, "exp"@, -1);
    lemma_words_differ("inventaire"@, "incantation"@, -1);
    lemma_words_differ("inventaire"@, "inc"@, -1);
    lemma_words_differ("inventaire"@, "fork"@, -1);
    lemma_words_differ("inventaire"@, "connect_nbr"@, -1);
    lemma_words_differ("inventaire"@, "cn"@, -1);
    lemma_words_differ("inventaire"@, "prend"@, -1);
    lemma_words_differ("inventaire"@, "take"@, -1);
    lemma_words_differ("inventaire"@, "pose"@, -1);
    lemma_words_differ("inventaire"@, "put"@, -1);
    lemma_words_differ("inventaire"@, "broadcast"@, -1);
    lemma_words_differ("inventaire"@, "bc"@, -1);
    lemma_keyword_split("inventaire"@, arg);
}

#[verifier::spinoff_prover]
#[verifier::rlimit(100)]
proof fn lemma_keyword_expulse(arg: Seq<char>)
    ensures
        spec_parse_command("expulse"@) is Ok && spec_parse_player_cmd("expulse"@) == Some(older_as_player(spec_parse_command("expulse"@)->Ok_0)),
{
    lemma_protocol_words();
    lemma_words_differ("expulse"@, "avance"@, -1);
    lemma_words_differ("expulse"@, "move"@, -1);
    lemma_words_differ("expulse"@, "droite"@, -1);
    lemma_words_differ("expulse"@, "right"@, -1);
    lemma_words_differ("expulse"@, "gauche"@, -1);
    lemma_words_differ("expulse"@, "left"@, -1);
    lemma_words_differ("expulse"@, "voir"@, -1);
    lemma_words_differ("expulse"@, "see"@, -1);
    lemma_words_differ("expulse"@, "inventaire"@, -1);
    lemma_words_differ("expulse"@, "inv"@, -1);
    lemma_words_differ("expulse"@, "inventory"@, -1);
    lemma_words_differ("expulse"@, "expel"@, -1);
    lemma_words_differ("expulse"@, "exp"@, -1);
    lemma_words_differ("expulse"@, "incantation"@, -1);
    lemma_words_differ("expulse"@, "inc"@, -1);
    lemma_words_differ("expulse"@, "fork"@, -1);
    lemma_words_differ("expulse"@, "connect_nbr"@, -1);
    lemma_words_differ("expulse"@, "cn"@, -1);
    lemma_words_differ("expulse"@, "prend"@, -1);
    lemma_words_differ("expulse"@, "take"@, -1);
    lemma_words_differ("expulse"@, "pose"@, -1);
    lemma_words_differ("expulse"@, "put"@, -1);
    lemma_words_differ("expulse"@, "broadcast"@, -1);
    lemma_words_differ("expulse"@, "bc"@, -1);
    lemma_keyword_split("expulse"@, arg);
}

#[verifier::spinoff_prover]
#[verifier::rlimit(100)]
proof fn lemma_keyword_incantation(arg: Seq<char>)
    ensures
        spec_parse_command("incantation"@) is Ok && spec_parse_player_cmd("incantation"@) == Some(older_as_player(spec_parse_command("incantation"@)->Ok_0)),
{
    lemma_protocol_words();
    lemma_words_differ("incantation"@, "avance"@, -1);
    lemma_words_differ("incantation"@, "move"@, -1);
    lemma_words_differ("incantation"@, "droite"@, -1);
    lemma_words_differ("incantation"@, "right"@, -1);
    lemma_words_differ("incantation"@, "gauche"@, -1);
    lemma_words_differ("incantation"@, "left"@, -1);
    lemma_words_differ("incantation"@, "voir"@, -1);
    lemma_words_differ("incantation"@, "see"@, -1);
    lemma_words_differ("incantation"@, "inventaire"@, -1);
    lemma_words_differ("incantation"@, "inv"@, -1);
    lemma_words_differ("incantation"@, "inventory"@, -1);
    lemma_words_differ("incantation"@, "expulse"@, -1);
    lemma_words_differ("incantation"@, "expel"@, -1);
    lemma_words_differ("incantation"@, "exp"@, -1);
    lemma_words_differ("incantation"@, "inc"@, -1);
    lemma_words_differ("incantation"@, "fork"@, -1);
    lemma_words_differ("incantation"@, "connect_nbr"@, 0);
    lemma_words_differ("incantation"@, "cn"@, -1);
    lemma_words_differ("incantation"@, "prend"@, -1);
    lemma_words_differ("incantation"@, "take"@, -1);
    lemma_words_differ("incantation"@, "pose"@, -1);
    lemma_words_differ("incantation"@, "put"@, -1);
    lemma_words_differ("incantation"@, "broadcast"@, -1);
    lemma_words_differ("incantation"@, "bc"@, -1);
    lemma_keyword_split("incantation"@, arg);
}

#[verifier::spinoff_prover]
#[verifier::rlimit(100)]
proof fn lemma_keyword_fork(arg: Seq<char>)
    ensures
        spec_parse_command("fork"@) is Ok && spec_parse_player_cmd("fork"@) == Some(older_as_player(spec_parse_command("fork"@)->Ok_0)),
{
    lemma_protocol_words();
    lemma_words_differ("fork"@, "avance"@, -1);
    lemma_words_differ("fork"@, "move"@, 0);
    lemma_words_differ("fork"@, "droite"@, -1);
    lemma_words_differ("fork"@, "right"@, -1);
    lemma_words_differ("fork"@, "gauche"@, -1);
    lemma_words_differ("fork"@, "left"@, 0);
    lemma_words_differ("fork"@, "voir"@, 0);
    lemma_words_differ("fork"@, "see"@, -1);
    lemma_words_differ("fork"@, "inventaire"@, -1);
    lemma_words_differ("fork"@, "inv"@, -1);
    lemma_words_differ("fork"@, "inventory"@, -1);
    lemma_words_differ("fork"@, "expulse"@, -1);
    lemma_words_differ("fork"@, "expel"@, -1);
    lemma_words_differ("fork"@, "exp"@, -1);
    lemma_words_differ("fork"@, "incantation"@, -1);
    lemma_words_differ("fork"@, "inc"@, -1);
    lemma_words_differ("fork"@, "connect_nbr"@, -1);
    lemma_words_differ("fork"@, "cn"@, -1);
    lemma_words_differ("fork"@, "prend"@, -1);
    lemma_words_differ("fork"@, "take"@, 0);
    lemma_words_differ("fork"@, "pose"@, 0);
    lemma_words_differ("fork"@, "put"@, -1);
    lemma_words_differ("fork"@, "broadcast"@, -1);
    lemma_words_differ("fork"@, "bc"@, -1);
    lemma_keyword_split("fork"@, arg);
}

#[verifier::spinoff_prover]
#[verifier::rlimit(100)]
proof fn lemma_keyword_connect_nbr(arg: Seq<char>)
    ensures
        spec_parse_command("connect_nbr"@) is Ok && spec_parse_player_cmd("connect_nbr"@) == Some(older_as_player(spec_parse_command("connect_nbr"@)->Ok_0)),
{
    lemma_protocol_words();
    lemma_words_differ("connect_nbr"@, "avance"@, -1);
    lemma_words_differ("connect_nbr"@, "move"@, -1);
    lemma_words_differ("connect_nbr"@, "droite"@, -1);
    lemma_words_differ("connect_nbr"@, "right"@, -1);
    lemma_words_differ("connect_nbr"@, "gauche"@, -1);
    lemma_words_differ("connect_nbr"@, "left"@, -1);
    lemma_words_differ("connect_nbr"@, "voir"@, -1);
    lemma_words_differ("connect_nbr"@, "see"@, -1);
    lemma_words_differ("connect_nbr"@, "inventaire"@, -1);
    lemma_words_differ("connect_nbr"@, "inv"@, -1);
    lemma_words_differ("connect_nbr"@, "inventory"@, -1);
    lemma_words_differ("connect_nbr"@, "expulse"@, -1);
    lemma_words_differ("connect_nbr"@, "expel"@, -1);
    lemma_words_differ("connect_nbr"@, "exp"@, -1);
    lemma_words_differ("connect_nbr"@, "incantation"@, 0);
    lemma_words_differ("connect_nbr"@, "inc"@, -1);
    lemma_words_differ("connect_nbr"@, "fork"@, -1);
    lemma_words_differ("connect_nbr"@, "cn"@, -1);
    lemma_words_differ("connect_nbr"@, "prend"@, -1);
    lemma_words_differ("connect_nbr"@, "take"@, -1);
    lemma_words_differ("connect_nbr"@, "pose"@, -1);
    lemma_words_differ("connect_nbr"@, "put"@, -1);
    lemma_words_differ("connect_nbr"@, "broadcast"@, -1);
    lemma_words_differ("connect_nbr"@, "bc"@, -1);
    lemma_keyword_split("connect_nbr"@, arg);
}

#[verifier::spinoff_prover]
#[verifier::rlimit(100)]
proof fn lemma_keyword_prend(arg: Seq<char>)
    ensures
        spec_parse_command("prend"@ + " "@ + arg) is Ok && spec_parse_player_cmd("prend"@ + " "@ + arg) == Some(older_as_player(spec_parse_command("prend"@ + " "@ + arg)->Ok_0)),
{
    lemma_protocol_words();
    lemma_words_differ("prend"@, "avance"@, -1);
    lemma_words_differ("prend"@, "move"@, -1);
    lemma_words_differ("prend"@, "droite"@, -1);
    lemma_words_differ("prend"@, "right"@, 0);
    lemma_words_differ("prend"@, "gauche"@, -1);
    lemma_words_differ("prend"@, "left"@, -1);
    lemma_words_differ("prend"@, "voir"@, -1);
    lemma_words_differ("prend"@, "see"@, -1);
    lemma_words_differ("prend"@, "inventaire"@, -1);
    lemma_words_differ("prend"@, "inv"@, -1);
    lemma_words_differ("prend"@, "inventory"@, -1);
    lemma_words_differ("prend"@, "expulse"@, -1);
    lemma_words_differ("prend"@, "expel"@, 0);
    lemma_words_differ("prend"@, "exp"@, -1);
    lemma_words_differ("prend"@, "incantation"@, -1);
    lemma_words_differ("prend"@, "inc"@, -1);
    lemma_words_differ("prend"@, "fork"@, -1);
    lemma_words_differ("prend"@, "connect_nbr"@, -1);
    lemma_words_differ("prend"@, "cn"@, -1);
    lemma_words_differ("prend"@, "take"@, -1);
    lemma_words_differ("prend"@, "pose"@, -1);
    lemma_words_differ("prend"@, "put"@, -1);
    lemma_words_differ("prend"@, "broadcast"@, -1);
    lemma_words_differ("prend"@, "bc"@, -1);
    lemma_keyword_split("prend"@, arg);
}

#[verifier::spinoff_prover]
#[verifier::rlimit(100)]
proof fn lemma_keyword_pose(arg: Seq<char>)
    ensures
        spec_parse_command("pose"@ + " "@ + arg) is Ok && spec_parse_player_cmd("pose"@ + " "@ + arg) == Some(older_as_player(spec_parse_command("pose"@ + " "@ + arg)->Ok_0)),
{
    lemma_protocol_words();
    lemma_words_differ("pose"@, "avance"@, -1);
    lemma_words_differ("pose"@, "move"@, 0);
    lemma_words_differ("pose"@, "droite"@, -1);
    lemma_words_differ("pose"@, "right"@, -1);
    lemma_words_differ("pose"@, "gauche"@, -1);
    lemma_words_differ("pose"@, "left"@, 0);
    lemma_words_differ("pose"@, "voir"@, 0);
    lemma_words_differ("pose"@, "see"@, -1);
    lemma_words_differ("pose"@, "inventaire"@, -1);
    lemma_words_differ("pose"@, "inv"@, -1);
    lemma_words_differ("pose"@, "inventory"@, -1);
    lemma_words_differ("pose"@, "expulse"@, -1);
    lemma_words_differ("pose"@, "expel"@, -1);
    lemma_words_differ("pose"@, "exp"@, -1);
    lemma_words_differ("pose"@, "incantation"@, -1);
    lemma_words_differ("pose"@, "inc"@, -1);
    lemma_words_differ("pose"@, "fork"@, 0);
    lemma_words_differ("pose"@, "connect_nbr"@, -1);
    lemma_words_differ("pose"@, "cn"@, -1);
    lemma_words_differ("pose"@, "prend"@, -1);
    lemma_words_differ("pose"@, "take"@, 0);
    lemma_words_differ("pose"@, "put"@, -1);
    lemma_words_differ("pose"@, "broadcast"@, -1);
    lemma_words_differ("pose"@, "bc"@, -1);
    lemma_keyword_split("pose"@, arg);
}

#[verifier::spinoff_prover]
#[verifier::rlimit(100)]
proof fn lemma_keyword_broadcast(arg: Seq<char>)
    ensures
        spec_parse_command("broadcast"@ + " "@ + arg) is Ok && spec_parse_player_cmd("broadcast"@ + " "@ + arg) == Some(older_as_player(spec_parse_command("broadcast"@ + " "@ + arg)->Ok_0)),
{
    lemma_protocol_words();
    lemma_words_differ("broadcast"@, "avance"@, -1);
    lemma_words_differ("broadcast"@, "move"@, -1);
    lemma_words_differ("broadcast"@, "droite"@, -1);
    lemma_words_differ("broadcast"@, "right"@, -1);
    lemma_words_differ("broadcast"@, "gauche"@, -1);
    lemma_words_differ("broadcast"@, "left"@, -1);
    lemma_words_differ("broadcast"@, "voir"@, -1);
    lemma_words_differ("broadcast"@, "see"@, -1);
    lemma_words_differ("broadcast"@, "inventaire"@, -1);
    lemma_words_differ("broadcast"@, "inv"@, -1);
    lemma_words_differ("broadcast"@, "inventory"@, 0);
    lemma_words_differ("broadcast"@, "expulse"@, -1);
    lemma_words_differ("broadcast"@, "expel"@, -1);
    lemma_words_differ("broadcast"@, "exp"@, -1);
    lemma_words_differ("broadcast"@, "incantation"@, -1);
    lemma_words_differ("broadcast"@, "inc"@, -1);
    lemma_words_differ("broadcast"@, "fork"@, -1);
    lemma_words_differ("broadcast"@, "connect_nbr"@, -1);
    lemma_words_differ("broadcast"@, "cn"@, -1);
    lemma_words_differ("broadcast"@, "prend"@, -1);
    lemma_words_differ("broadcast"@, "take"@, -1);
    lemma_words_differ("broadcast"@, "pose"@, -1);
    lemma_words_differ("broadcast"@, "put"@, -1);
    lemma_words_differ("broadcast"@, "bc"@, -1);
    lemma_keyword_split("broadcast"@, arg);
}

/// The protocol's keywords read as the commands of the older set that they name: each
/// keyword alone (or, for `prend`, `pose` and `broadcast`, followed by a space and an
/// argument) is read by both parsers, as the same action.
pub proof fn lemma_keywords_read_as_older_set(arg: Seq<char>)
    ensures
        spec_parse_command("avance"@) is Ok && spec_parse_player_cmd("avance"@) == Some(older_as_player(spec_parse_command("avance"@)->Ok_0)),
        spec_parse_command("droite"@) is Ok && spec_parse_player_cmd("droite"@) == Some(older_as_player(spec_parse_command("droite"@)->Ok_0)),
        spec_parse_command("gauche"@) is Ok && spec_parse_player_cmd("gauche"@) == Some(older_as_player(spec_parse_command("gauche"@)->Ok_0)),
        spec_parse_command("voir"@) is Ok && spec_parse_player_cmd("voir"@) == Some(older_as_player(spec_parse_command("voir"@)->Ok_0)),
        spec_parse_command("inventaire"@) is Ok && spec_parse_player_cmd("inventaire"@) == Some(older_as_player(spec_parse_command("inventaire"@)->Ok_0)),
        spec_parse_command("expulse"@) is Ok && spec_parse_player_cmd("expulse"@) == Some(older_as_player(spec_parse_command("expulse"@)->Ok_0)),
        spec_parse_command("incantation"@) is Ok && spec_parse_player_cmd("incantation"@) == Some(older_as_player(spec_parse_command("incantation"@)->Ok_0)),
        spec_parse_command("fork"@) is Ok && spec_parse_player_cmd("fork"@) == Some(older_as_player(spec_parse_command("fork"@)->Ok_0)),
        spec_parse_command("connect_nbr"@) is Ok && spec_parse_player_cmd("connect_nbr"@) == Some(older_as_player(spec_parse_command("connect_nbr"@)->Ok_0)),
        spec_parse_command("prend"@ + " "@ + arg) is Ok && spec_parse_player_cmd("prend"@ + " "@ + arg) == Some(older_as_player(spec_parse_command("prend"@ + " "@ + arg)->Ok_0)),
        spec_parse_command("pose"@ + " "@ + arg) is Ok && spec_parse_player_cmd("pose"@ + " "@ + arg) == Some(older_as_player(spec_parse_command("pose"@ + " "@ + arg)->Ok_0)),
        spec_parse_command("broadcast"@ + " "@ + arg) is Ok && spec_parse_player_cmd("broadcast"@ + " "@ + arg) == Some(older_as_player(spec_parse_command("broadcast"@ + " "@ + arg)->Ok_0)),
{
    lemma_keyword_avance(arg);
    lemma_keyword_droite(arg);
    lemma_keyword_gauche(arg);
    lemma_keyword_voir(arg);
    lemma_keyword_inventaire(arg);
    lemma_keyword_expulse(arg);
    lemma_keyword_incantation(arg);
    lemma_keyword_fork(arg);
    lemma_keyword_connect_nbr(arg);
    lemma_keyword_prend(arg);
    lemma_keyword_pose(arg);
    lemma_keyword_broadcast(arg);
}

} // verus!
