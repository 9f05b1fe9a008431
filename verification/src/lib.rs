pub mod color;
pub mod commands;
pub mod position;
pub mod resource;
pub mod rng;
pub mod text;
pub mod player;
pub mod cell;
pub mod map;
pub mod team;
pub mod model;
pub mod engine;
pub mod upkeep;
pub mod seasons;
pub mod setup;
pub mod args;
pub mod security;
pub mod answers;
pub mod connection;
pub mod laws;
pub mod console;

use vstd::prelude::*;

use crate::position::{Direction, Position};

verus! {

pub const PROJECT_NAME: &'static str = "zappy";

pub const HANDSHAKE_MSG: &'static str = "BIENVENUE\n";

pub const GFX_PORT: u16 = 4343;

pub const ADMIN_PORT: u16 = 4444;

/// How many commands a player may have waiting.
pub const MAX_COMMANDS: usize = 10;

pub const MAX_FIELD_SIZE: usize = 50;

pub const MAX_PLAYER_LVL: u8 = 8;

pub const DECREASED_HP_PER_FRAME: u64 = 1;

pub const MAX_PLAYERS_IN_TEAM: u16 = 1024;

pub const MAX_TEAMS: u16 = 14;

/// The frames of life that one unit of food is worth.
pub const LIFE_TICKS: u64 = 444 * 126;

/// The units of food a player starts with.
pub const LIVES_START: u64 = 10;

/// Errors of the server, by their origin.
#[derive(Debug, PartialEq, Eq)]
pub enum ZappyError {
    Network(NetworkError),
    Game(GameError),
    Player(PlayerError),
}

#[derive(Debug, PartialEq, Eq)]
pub enum NetworkError {
    ConnectionClosedByClient(u16),
    ConnectionCorrupted(u16, String),
    AlreadyConnected(u16),
    IsNotConnectedToServer(u16),
    FailedToWriteToSocket(u16, String),
    FailedToReadFromSocket(u16, String),
    MessageCantBeMappedToFromUtf8(u16, String),
    MessageIsTooBig(u16),
}

#[derive(Debug, Clone, Copy, PartialEq, Eq, Structural)]
pub enum GameError {
    IncreasingLevelButIsAlreadyMax(u16),
    IncreasingLevelWithNoIncantations(u16),
}

#[derive(Debug, PartialEq, Eq)]
pub enum PlayerError {
    TeamDoesntExist(String),
    NoPlaceAvailable(u16, String),
    WrongUsernameOrPassword,
}

/// What the server tells a player's connection to do.
#[derive(Debug)]
pub enum ServerCommandToClient {
    Shutdown,
    SendMessage(ServerResponse),
}

/// The answers the server sends to players.
#[derive(Debug, PartialEq, Eq, Clone)]
pub enum ServerResponse {
    Okay,
    Ko,
    Cases(Vec<String>),
    Inventory(Vec<String>),
    See(Vec<String>),
    IncantationInProgress,
    CurrentLevel(u8),
    Value(String),
    Mort,
    ActionQueueIsFull,
    Movement(Direction),
    Message(u8, String),
}

/// An answer to a player, its texts taken by value.
pub enum ResponseView {
    Okay,
    Ko,
    Cases(Seq<Seq<char>>),
    Inventory(Seq<Seq<char>>),
    See(Seq<Seq<char>>),
    IncantationInProgress,
    CurrentLevel(u8),
    Value(Seq<char>),
    Mort,
    ActionQueueIsFull,
    Movement(Direction),
    Message(u8, Seq<char>),
}

/// The views of a list of texts.
pub open spec fn texts_view(v: Seq<String>) -> Seq<Seq<char>> {
    v.map_values(|s: String| s@)
}

/// Appending a text appends its view.
pub proof fn lemma_texts_view_push(v: Seq<String>, s: String)
    ensures
        texts_view(v.push(s)) == texts_view(v).push(s@),
{
    assert(texts_view(v.push(s)) =~= texts_view(v).push(s@));
}

impl View for ServerResponse {
    type V = ResponseView;

    open spec fn view(&self) -> ResponseView {
        match self {
            ServerResponse::Okay => ResponseView::Okay,
            ServerResponse::Ko => ResponseView::Ko,
            ServerResponse::Cases(v) => ResponseView::Cases(texts_view(v@)),
            ServerResponse::Inventory(v) => ResponseView::Inventory(texts_view(v@)),
            ServerResponse::See(v) => ResponseView::See(texts_view(v@)),
            ServerResponse::IncantationInProgress => ResponseView::IncantationInProgress,
            ServerResponse::CurrentLevel(l) => ResponseView::CurrentLevel(*l),
            ServerResponse::Value(s) => ResponseView::Value(s@),
            ServerResponse::Mort => ResponseView::Mort,
            ServerResponse::ActionQueueIsFull => ResponseView::ActionQueueIsFull,
            ServerResponse::Movement(d) => ResponseView::Movement(*d),
            ServerResponse::Message(k, s) => ResponseView::Message(*k, s@),
        }
    }
}

/// An egg laid by a team at a position.
#[derive(Debug, Clone, PartialEq, Eq)]
pub struct Egg {
    pub team_name: String,
    pub position: Position,
}

/// An egg, its team name taken by value.
pub struct EggView {
    pub team_name: Seq<char>,
    pub position: Position,
}

impl View for Egg {
    type V = EggView;

    open spec fn view(&self) -> EggView {
        EggView { team_name: self.team_name@, position: self.position }
    }
}

} // verus!
