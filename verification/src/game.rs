//! The two message vocabularies: what a player sends and what a player is sent.

use vstd::prelude::*;
use crate::board::{BoardState, BoardView};

verus! {

/// Player to coordinator.
#[derive(Debug, PartialEq, Eq)]
pub enum ClientToServerMessage {
    Drop { board: BoardState },
}

/// Coordinator to player.
#[derive(Debug, PartialEq, Eq)]
pub enum ServerToClientMessage {
    PlayerJoined { name: String },
    PlayerLeft { name: String },
    GameStart,
    BoardUpdate { player: String, board: BoardState },
    GameEnd,
}

/// What a message of a player says.
pub enum ClientMessageView {
    Drop { board: BoardView },
}

/// What a message for a player says.
pub enum ServerMessageView {
    PlayerJoined { name: Seq<char> },
    PlayerLeft { name: Seq<char> },
    GameStart,
    BoardUpdate { player: Seq<char>, board: BoardView },
    GameEnd,
}

impl View for ClientToServerMessage {
    type V = ClientMessageView;

    open spec fn view(&self) -> ClientMessageView {
        match self {
            ClientToServerMessage::Drop { board } => ClientMessageView::Drop { board: board@ },
        }
    }
}

impl View for ServerToClientMessage {
    type V = ServerMessageView;

    open spec fn view(&self) -> ServerMessageView {
        match self {
            ServerToClientMessage::PlayerJoined { name } => ServerMessageView::PlayerJoined {
                name: name@,
            },
            ServerToClientMessage::PlayerLeft { name } => ServerMessageView::PlayerLeft {
                name: name@,
            },
            ServerToClientMessage::GameStart => ServerMessageView::GameStart,
            ServerToClientMessage::BoardUpdate { player, board } => ServerMessageView::BoardUpdate {
                player: player@,
                board: board@,
            },
            ServerToClientMessage::GameEnd => ServerMessageView::GameEnd,
        }
    }
}

impl Clone for ServerToClientMessage {
    fn clone(&self) -> (copy: Self)
        ensures
            copy@ == self@,
    {
        match self {
            ServerToClientMessage::PlayerJoined { name } => ServerToClientMessage::PlayerJoined {
                name: name.clone(),
            },
            ServerToClientMessage::PlayerLeft { name } => ServerToClientMessage::PlayerLeft {
                name: name.clone(),
            },
            ServerToClientMessage::GameStart => ServerToClientMessage::GameStart,
            ServerToClientMessage::BoardUpdate { player, board } => {
                ServerToClientMessage::BoardUpdate { player: player.clone(), board: board.clone() }
            },
            ServerToClientMessage::GameEnd => ServerToClientMessage::GameEnd,
        }
    }
}

} // verus!
