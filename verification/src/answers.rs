//! The texts the server writes: its answers to players and its errors.
use vstd::prelude::*;

use crate::position::spec_direction_name;
use crate::text::{decimal, decimal_text, join, join_texts};
use crate::{texts_view, GameError, NetworkError, PlayerError, ResponseView, ServerResponse};

verus! {

/// The line an answer is written as (an answer listing cases has none).
pub open spec fn response_text(r: ResponseView) -> Seq<char> {
    match r {
        ResponseView::Okay => "Ok"@,
        ResponseView::Ko => "Ko"@,
        ResponseView::Cases(_) => Seq::empty(),
        ResponseView::Inventory(items) => "{"@ + join(items, ", "@) + "}"@,
        ResponseView::See(items) => "{"@ + join(items, ", "@) + "}"@,
        ResponseView::IncantationInProgress => "elevation en cours"@,
        ResponseView::CurrentLevel(l) => "niveau actuel : "@ + decimal(l as nat),
        ResponseView::Value(v) => v,
        ResponseView::Mort => "Mort"@,
        ResponseView::ActionQueueIsFull => "The action queue is full, please try later."@,
        ResponseView::Movement(d) => "deplacement "@ + spec_direction_name(d),
        ResponseView::Message(k, t) => "message "@ + decimal(k as nat) + ","@ + t,
    }
}

/// A list in braces, its items separated by a comma and a space.
fn braced(items: &Vec<String>) -> (s: String)
    ensures
        s@ == "{"@ + join(texts_view(items@), ", "@) + "}"@,
{
    let mut s = String::from_str("{");
    let inner = join_texts(items, ", ");
    proof {
        assert(items@.map_values(|w: String| w@) =~= texts_view(items@));
    }
    s.append(inner.as_str());
    s.append("}");
    s
}

impl ServerResponse {
    /// The line the answer is written as.
    pub fn text(&self) -> (s: String)
        requires
            !(self is Cases),
        ensures
            s@ == response_text(self@),
    {
        match self {
            ServerResponse::Okay => String::from_str("Ok"),
            ServerResponse::Ko => String::from_str("Ko"),
            ServerResponse::Cases(_) => String::new(),
            ServerResponse::Inventory(items) => braced(items),
            ServerResponse::See(items) => braced(items),
            ServerResponse::IncantationInProgress => String::from_str("elevation en cours"),
            ServerResponse::CurrentLevel(level) => {
                let mut s = String::from_str("niveau actuel : ");
                s.append(decimal_text(*level as u64).as_str());
                s
            },
            ServerResponse::Value(value) => value.clone(),
            ServerResponse::Mort => String::from_str("Mort"),
            ServerResponse::ActionQueueIsFull => String::from_str("The action queue is full, please try later."),
            ServerResponse::Movement(from) => {
                let mut s = String::from_str("deplacement ");
                s.append(from.name());
                s
            },
            ServerResponse::Message(source, text) => {
                let mut s = String::from_str("message ");
                s.append(decimal_text(*source as u64).as_str());
                s.append(",");
                s.append(text.as_str());
                s
            },
        }
    }
}

/// The text of an error of the game.
pub open spec fn game_error_text(e: GameError) -> Seq<char> {
    match e {
        GameError::IncreasingLevelWithNoIncantations(id) => decimal(id as nat)
            + ": trying to stop incantation, but no incantation is happening"@,
        GameError::IncreasingLevelButIsAlreadyMax(id) => decimal(id as nat)
            + ": trying to stop incantation, but the max level is already reached"@,
    }
}

/// The text of a network error.
pub open spec fn network_error_text(e: NetworkError) -> Seq<char> {
    match e {
        NetworkError::ConnectionClosedByClient(id) => decimal(id as nat) + ": client disconnected"@,
        NetworkError::ConnectionCorrupted(id, m) => decimal(id as nat) + ": connection corrupted: "@ + m@,
        NetworkError::AlreadyConnected(id) => decimal(id as nat) + ": already connected"@,
        NetworkError::IsNotConnectedToServer(id) => decimal(id as nat) + ": is not connected"@,
        NetworkError::FailedToWriteToSocket(id, m) => decimal(id as nat) + ": "@ + m@,
        NetworkError::FailedToReadFromSocket(id, m) => decimal(id as nat) + ": "@ + m@,
        NetworkError::MessageCantBeMappedToFromUtf8(id, m) => decimal(id as nat) + ": "@ + m@,
        NetworkError::MessageIsTooBig(id) => decimal(id as nat) + ": message is too large"@,
    }
}

/// The text of an error of a player.
pub open spec fn player_error_text(e: PlayerError) -> Seq<char> {
    match e {
        PlayerError::TeamDoesntExist(team) => "Team does not exist: "@ + team@,
        PlayerError::NoPlaceAvailable(_, team) => "No place available on team "@ + team@,
        PlayerError::WrongUsernameOrPassword => "Wrong username or password"@,
    }
}

/// `n` in decimal, followed by a text.
fn id_then(id: u16, rest: &str) -> (s: String)
    ensures
        s@ == decimal(id as nat) + rest@,
{
    let mut s = decimal_text(id as u64);
    s.append(rest);
    s
}

impl GameError {
    /// The text of the error.
    pub fn message(&self) -> (s: String)
        ensures
            s@ == game_error_text(*self),
    {
        match self {
            GameError::IncreasingLevelWithNoIncantations(id) => id_then(
                *id,
                ": trying to stop incantation, but no incantation is happening",
            ),
            GameError::IncreasingLevelButIsAlreadyMax(id) => id_then(
                *id,
                ": trying to stop incantation, but the max level is already reached",
            ),
        }
    }
}

impl NetworkError {
    /// The text of the error.
    pub fn message(&self) -> (s: String)
        ensures
            s@ == network_error_text(*self),
    {
        match self {
            NetworkError::ConnectionClosedByClient(id) => id_then(*id, ": client disconnected"),
            NetworkError::ConnectionCorrupted(id, m) => {
                let mut s = id_then(*id, ": connection corrupted: ");
                s.append(m.as_str());
                s
            },
            NetworkError::AlreadyConnected(id) => id_then(*id, ": already connected"),
            NetworkError::IsNotConnectedToServer(id) => id_then(*id, ": is not connected"),
            NetworkError::FailedToWriteToSocket(id, m) => {
                let mut s = id_then(*id, ": ");
                s.append(m.as_str());
                s
            },
            NetworkError::FailedToReadFromSocket(id, m) => {
                let mut s = id_then(*id, ": ");
                s.append(m.as_str());
                s
            },
            NetworkError::MessageCantBeMappedToFromUtf8(id, m) => {
                let mut s = id_then(*id, ": ");
                s.append(m.as_str());
                s
            },
            NetworkError::MessageIsTooBig(id) => id_then(*id, ": message is too large"),
        }
    }
}

impl PlayerError {
    /// The text of the error.
    pub fn message(&self) -> (s: String)
        ensures
            s@ == player_error_text(*self),
    {
        match self {
            PlayerError::TeamDoesntExist(team) => {
                let mut s = String::from_str("Team does not exist: ");
                s.append(team.as_str());
                s
            },
            PlayerError::NoPlaceAvailable(_, team) => {
                let mut s = String::from_str("No place available on team ");
                s.append(team.as_str());
                s
            },
            PlayerError::WrongUsernameOrPassword => String::from_str("Wrong username or password"),
        }
    }
}

} // verus!
