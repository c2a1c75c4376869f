//! The relay of one connection: what it does with each thing that reaches it
//! from the connection or from the coordinator.

use vstd::prelude::*;
use crate::coordinator::{CommandView, LobbyMessageInner};
use crate::game::{ClientMessageView, ClientToServerMessage, ServerMessageView, ServerToClientMessage};
use crate::lobby::{Lobby, LobbyError};
use crate::wire::{
    decode_client_message, encode_server_message, parse_client_message, server_message_bytes,
    server_message_fits,
};

verus! {

/// What reaches a relay.
#[derive(Debug, PartialEq, Eq)]
pub enum RelayEvent {
    /// An event from the coordinator for this player.
    Outbound(ServerToClientMessage),
    /// A binary frame from the connection.
    Binary(Vec<u8>),
    /// A frame of another kind from the connection.
    Other,
    /// The connection was closed or failed.
    Closed,
    /// Bytes that the relay asked to be written could not be written.
    WriteFailed,
}

/// What a relay does next.
#[derive(Debug)]
pub enum RelayAction {
    /// Write these bytes to the connection as one binary frame.
    Write(Vec<u8>),
    /// Hand this command to the coordinator.
    Forward(LobbyMessageInner),
    /// Go on waiting.
    Ignore,
    /// Hand this command to the coordinator and stop.
    Stop(LobbyMessageInner),
}

/// What an event for a relay says.
pub enum RelayEventView {
    Outbound(ServerMessageView),
    Binary(Seq<u8>),
    Other,
    Closed,
    WriteFailed,
}

/// What an action of a relay says.
pub enum RelayActionView {
    Write(Seq<u8>),
    Forward(CommandView),
    Ignore,
    Stop(CommandView),
}

impl View for RelayEvent {
    type V = RelayEventView;

    open spec fn view(&self) -> RelayEventView {
        match self {
            RelayEvent::Outbound(message) => RelayEventView::Outbound(message@),
            RelayEvent::Binary(bytes) => RelayEventView::Binary(bytes@),
            RelayEvent::Other => RelayEventView::Other,
            RelayEvent::Closed => RelayEventView::Closed,
            RelayEvent::WriteFailed => RelayEventView::WriteFailed,
        }
    }
}

impl View for RelayAction {
    type V = RelayActionView;

    open spec fn view(&self) -> RelayActionView {
        match self {
            RelayAction::Write(bytes) => RelayActionView::Write(bytes@),
            RelayAction::Forward(command) => RelayActionView::Forward(command@),
            RelayAction::Ignore => RelayActionView::Ignore,
            RelayAction::Stop(command) => RelayActionView::Stop(command@),
        }
    }
}

/// What the relay of player `name` in session `code` does with `event`: an
/// event from the coordinator is written out in wire form, or dropped if it
/// has none; a frame that holds a message is forwarded as a board update,
/// any other frame is passed over; the end of the connection ends the relay
/// with a leave, and so does a write that failed.
pub open spec fn relay_step(
    name: Seq<char>,
    code: Seq<char>,
    event: RelayEventView,
) -> RelayActionView {
    match event {
        RelayEventView::Outbound(message) => if server_message_fits(message) {
            RelayActionView::Write(server_message_bytes(message))
        } else {
            RelayActionView::Ignore
        },
        RelayEventView::Binary(bytes) => match parse_client_message(bytes) {
            Ok(ClientMessageView::Drop { board }) => RelayActionView::Forward(
                CommandView::UpdateBoard { code, name, board },
            ),
            Err(_) => RelayActionView::Ignore,
        },
        RelayEventView::Other => RelayActionView::Ignore,
        RelayEventView::Closed => RelayActionView::Stop(CommandView::Leave { name, code }),
        RelayEventView::WriteFailed => RelayActionView::Stop(CommandView::Leave { name, code }),
    }
}

/// The relay of one player's connection.
#[derive(Debug, PartialEq, Eq)]
pub struct Relay {
    pub name: String,
    pub code: String,
}

impl Relay {
    /// The relay of player `name` in session `code`.
    pub fn new(name: String, code: String) -> (relay: Self)
        ensures
            relay.name@ == name@,
            relay.code@ == code@,
    {
        Relay { name, code }
    }

    /// The command that a relay starts with: its player joins its session
    /// and takes events on `socket`.
    pub fn opening(&self, socket: tokio::sync::mpsc::Sender<ServerToClientMessage>) -> (command:
        LobbyMessageInner)
        ensures
            command@ == (CommandView::Join { name: self.name@, code: self.code@ }),
    {
        LobbyMessageInner::Join { name: self.name.clone(), code: self.code.clone(), socket }
    }

    /// Whether the relay goes to work once its opening command was handed
    /// in: it does when the join was accepted. Where the join was refused,
    /// or no reply came, the relay ends at once and sends no leave, for its
    /// player is not in the session.
    pub fn admitted(&self, reply: &Option<Result<Lobby, LobbyError>>) -> (go: bool)
        ensures
            go == (reply matches Some(Ok(_))),
    {
        match reply {
            Some(Ok(_)) => true,
            _ => false,
        }
    }

    /// Decides what to do with `event`.
    pub fn step(&self, event: RelayEvent) -> (action: RelayAction)
        ensures
            action@ == relay_step(self.name@, self.code@, event@),
    {
        match event {
            RelayEvent::Outbound(message) => match encode_server_message(&message) {
                Some(bytes) => RelayAction::Write(bytes),
                None => RelayAction::Ignore,
            },
            RelayEvent::Binary(bytes) => match decode_client_message(bytes.as_slice()) {
                Ok(ClientToServerMessage::Drop { board }) => RelayAction::Forward(
                    LobbyMessageInner::UpdateBoard {
                        code: self.code.clone(),
                        name: self.name.clone(),
                        board,
                    },
                ),
                Err(_) => RelayAction::Ignore,
            },
            RelayEvent::Other => RelayAction::Ignore,
            RelayEvent::Closed | RelayEvent::WriteFailed => RelayAction::Stop(
                LobbyMessageInner::Leave { name: self.name.clone(), code: self.code.clone() },
            ),
        }
    }
}

} // verus!
