//! Events: what the log says happened, as opposed to how it says it.

use vstd::prelude::*;

use crate::ids::Id;

verus! {

/// The killer id the server writes for deaths caused by the world (falls,
/// lava, ...) rather than by a player.
pub const WORLD_ID: Id = 1022;

/// An event emitted by the log parser.
///
/// One line of a log file is a message; an event is what one or more
/// messages mean. A player joining takes several messages, and a message can
/// mean different things depending on what came before it.
#[derive(Debug, Clone, PartialEq, Eq)]
pub enum Event {
    /// A player was killed by another player or by the world.
    Kill { killer: Id, victim: Id, death_cause: String },
    /// The current match is over; what follows belongs to a new match.
    ResetMatch,
    /// A player joined the current match.
    PlayerJoined { id: Id, name: String },
    /// A player left the current match.
    PlayerLeft { id: Id },
    /// A joined player changed their name.
    PlayerNameUpdate { id: Id, new_name: String },
}

/// An event with its text fields as character sequences.
pub enum EventView {
    Kill { killer: Id, victim: Id, death_cause: Seq<char> },
    ResetMatch,
    PlayerJoined { id: Id, name: Seq<char> },
    PlayerLeft { id: Id },
    PlayerNameUpdate { id: Id, new_name: Seq<char> },
}

impl View for Event {
    type V = EventView;

    open spec fn view(&self) -> EventView {
        match self {
            Event::Kill { killer, victim, death_cause } => EventView::Kill {
                killer: *killer,
                victim: *victim,
                death_cause: death_cause@,
            },
            Event::ResetMatch => EventView::ResetMatch,
            Event::PlayerJoined { id, name } => EventView::PlayerJoined { id: *id, name: name@ },
            Event::PlayerLeft { id } => EventView::PlayerLeft { id: *id },
            Event::PlayerNameUpdate { id, new_name } => EventView::PlayerNameUpdate {
                id: *id,
                new_name: new_name@,
            },
        }
    }
}

/// The view of an optional event.
pub open spec fn event_opt_view(e: Option<Event>) -> Option<EventView> {
    match e {
        None => None,
        Some(e) => Some(e@),
    }
}

} // verus!
