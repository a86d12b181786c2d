//! The messages exchanged with players: their commands, the reports on those
//! commands, and the state they are shown.

use vstd::prelude::*;

verus! {

/// A move that a player asks for, naming planets by their names.
pub struct Command {
    pub origin: String,
    pub destination: String,
    pub ship_count: u64,
}

/// Everything one player submits for one turn.
pub struct Action {
    pub commands: Vec<Command>,
}

/// Why a command was rejected.
#[derive(Clone, Copy, Debug, PartialEq, Eq, Structural)]
pub enum CommandError {
    OriginDoesNotExist,
    DestinationDoesNotExist,
    OriginNotOwned,
    NotEnoughShips,
    ZeroShipMove,
}


/// The outcome of one command.
pub struct PlayerCommand {
    pub command: Command,
    pub error: Option<CommandError>,
}

/// The report on one player's submission for a turn.
pub enum PlayerAction {
    /// Nothing arrived in time.
    Timeout,
    /// The submission could not be read; nothing of it was applied.
    ParseError(String),
    /// One report per command, in the order they were submitted.
    Commands(Vec<PlayerCommand>),
}

/// A planet as a player sees it; owners are numbered from one.
pub struct Planet {
    pub ship_count: u64,
    pub x: i32,
    pub y: i32,
    pub owner: Option<u64>,
    pub name: String,
}

/// An expedition as a player sees it; planets are named, owners numbered from one.
pub struct Expedition {
    pub id: u64,
    pub ship_count: u64,
    pub origin: String,
    pub destination: String,
    pub owner: u64,
    pub turns_remaining: u64,
}

/// The world as a player sees it.
pub struct State {
    pub planets: Vec<Planet>,
    pub expeditions: Vec<Expedition>,
}

/// What the server says to a player.
pub enum ServerMessage {
    GameState(State),
    FinalState(State),
    PlayerAction(PlayerAction),
}

/// What a game hands to its host after a start or a step.
pub enum HostMsg {
    /// A message for one player, or for everyone when no player is named.
    Data(ServerMessage, Option<u64>),
    /// The player is removed from the game.
    Kick(u64),
    /// A canonical snapshot to append to the game's replay log.
    Record(State),
}

/// The value of a `State`.
pub struct StateView {
    pub planets: Seq<Planet>,
    pub expeditions: Seq<Expedition>,
}

/// The value of a `PlayerAction`.
pub enum PlayerActionView {
    Timeout,
    ParseError(Seq<char>),
    Commands(Seq<PlayerCommand>),
}

/// The value of a `ServerMessage`.
pub enum ServerMessageView {
    GameState(StateView),
    FinalState(StateView),
    PlayerAction(PlayerActionView),
}

/// The value of a `HostMsg`.
pub enum HostMsgView {
    Data(ServerMessageView, Option<u64>),
    Kick(u64),
    Record(StateView),
}

impl View for State {
    type V = StateView;

    open spec fn view(&self) -> StateView {
        StateView { planets: self.planets@, expeditions: self.expeditions@ }
    }
}

impl View for PlayerAction {
    type V = PlayerActionView;

    open spec fn view(&self) -> PlayerActionView {
        match self {
            PlayerAction::Timeout => PlayerActionView::Timeout,
            PlayerAction::ParseError(e) => PlayerActionView::ParseError(e@),
            PlayerAction::Commands(c) => PlayerActionView::Commands(c@),
        }
    }
}

impl View for ServerMessage {
    type V = ServerMessageView;

    open spec fn view(&self) -> ServerMessageView {
        match self {
            ServerMessage::GameState(s) => ServerMessageView::GameState(s@),
            ServerMessage::FinalState(s) => ServerMessageView::FinalState(s@),
            ServerMessage::PlayerAction(a) => ServerMessageView::PlayerAction(a@),
        }
    }
}

impl View for HostMsg {
    type V = HostMsgView;

    open spec fn view(&self) -> HostMsgView {
        match self {
            HostMsg::Data(m, to) => HostMsgView::Data(m@, *to),
            HostMsg::Kick(p) => HostMsgView::Kick(*p),
            HostMsg::Record(s) => HostMsgView::Record(s@),
        }
    }
}

/// The values of a list of host messages.
pub open spec fn host_msgs_view(msgs: Seq<HostMsg>) -> Seq<HostMsgView> {
    msgs.map_values(|m: HostMsg| m@)
}

} // verus!
