//! The session state machine: the client-local view of one connection's
//! lifetime.  It holds the latest world snapshot (full replace, never a
//! merge), the lobby occupancy, the final standings once a round ends, and
//! the readiness flag, and it derives the booleans that gate rendering and
//! input.  Inbound wire text is decoded and routed by `handle_incoming`;
//! user intents are turned into outbound messages, or suppressed, by the
//! intent methods.

use vstd::prelude::*;
use crate::types::{Direction, GameMessage, GameState, MessageModel, StateModel};
use crate::decode::{decode_message, spec_decode};

verus! {

/// The coarse session phase, derived from the held state.
#[derive(Clone, Copy, PartialEq, Eq, Structural, Debug)]
pub enum Phase {
    Matching,
    Playing,
    GameOver,
}

/// A typed event handed to the state machine: what one inbound wire record
/// means to the session.
#[derive(Clone, PartialEq, Debug)]
pub enum SessionEvent {
    /// A full world replace.
    Snapshot(GameState),
    /// Lobby occupancy: (current, required).
    Matching { current: usize, required: usize },
    /// Round end with the server-ordered standings.
    RoundOver { rankings: Vec<(usize, u32)> },
    /// A well-formed message that drives no subscriber (a client-originated
    /// tag echoed back); accepted and dropped.
    Ignored,
    /// Text that does not decode as any known message; accepted and dropped.
    Malformed,
}

/// Mathematical model of a `SessionEvent`.
pub enum EventModel {
    Snapshot(StateModel),
    Matching { current: int, required: int },
    RoundOver { rankings: Seq<(int, int)> },
    Ignored,
    Malformed,
}

impl View for SessionEvent {
    type V = EventModel;

    open spec fn view(&self) -> EventModel {
        match self {
            SessionEvent::Snapshot(st) => EventModel::Snapshot(st@),
            SessionEvent::Matching { current, required } => EventModel::Matching {
                current: *current as int,
                required: *required as int,
            },
            SessionEvent::RoundOver { rankings } => EventModel::RoundOver {
                rankings: rankings@.map_values(|r: (usize, u32)| (r.0 as int, r.1 as int)),
            },
            SessionEvent::Ignored => EventModel::Ignored,
            SessionEvent::Malformed => EventModel::Malformed,
        }
    }
}

/// Mathematical model of a `Session`.
pub struct SessionModel {
    pub snapshot: Option<StateModel>,
    pub current: int,
    pub required: int,
    pub rankings: Option<Seq<(int, int)>>,
    pub ready: bool,
}

/// The session state: one value owns everything the client mutates.
#[derive(Clone, PartialEq, Debug)]
pub struct Session {
    /// The latest snapshot received, if any.
    pub snapshot: Option<GameState>,
    /// Current lobby occupancy.
    pub matching_current: usize,
    /// Players required for a round to start.
    pub matching_required: usize,
    /// The standings of the finished round, until a restart clears them.
    pub rankings: Option<Vec<(usize, u32)>>,
    /// Whether this client has announced readiness for the next round.
    pub ready: bool,
}

impl View for Session {
    type V = SessionModel;

    open spec fn view(&self) -> SessionModel {
        SessionModel {
            snapshot: match self.snapshot {
                Some(st) => Some(st@),
                None => None,
            },
            current: self.matching_current as int,
            required: self.matching_required as int,
            rankings: match self.rankings {
                Some(rk) => Some(rk@.map_values(|r: (usize, u32)| (r.0 as int, r.1 as int))),
                None => None,
            },
            ready: self.ready,
        }
    }
}

/// The state a session starts in: no snapshot yet, an empty two-player
/// lobby, no standings, not ready.
pub open spec fn init_model() -> SessionModel {
    SessionModel { snapshot: None, current: 0, required: 2, rankings: None, ready: false }
}

/// The transition function of the state machine: the state after one event.
/// A snapshot fully replaces the held one; occupancy and standings are
/// stored verbatim; ignored and malformed records change nothing.
pub open spec fn spec_step(m: SessionModel, ev: EventModel) -> SessionModel {
    match ev {
        EventModel::Snapshot(st) => SessionModel { snapshot: Some(st), ..m },
        EventModel::Matching { current, required } => SessionModel { current, required, ..m },
        EventModel::RoundOver { rankings } => SessionModel { rankings: Some(rankings), ..m },
        EventModel::Ignored => m,
        EventModel::Malformed => m,
    }
}

/// `spec_step` folded over a sequence of events, first event first.
pub open spec fn spec_run(m: SessionModel, evs: Seq<EventModel>) -> SessionModel
    decreases evs.len(),
{
    if evs.len() == 0 {
        m
    } else {
        spec_run(spec_step(m, evs[0]), evs.subrange(1, evs.len() as int))
    }
}

/// The matching panel shows while no snapshot has arrived, or while the
/// latest snapshot says the game has not started.
pub open spec fn show_matching_model(m: SessionModel) -> bool {
    match m.snapshot {
        None => true,
        Some(st) => !st.game_started,
    }
}

/// Input is forwarded, and the on-screen controls show, exactly while the
/// latest snapshot says the game is running: started and not over.
pub open spec fn input_allowed_model(m: SessionModel) -> bool {
    match m.snapshot {
        None => false,
        Some(st) => st.game_started && !st.game_over,
    }
}

/// The derived phase: standings on hand mean the round is over; otherwise a
/// started snapshot means play; otherwise the client is still matching.
pub open spec fn phase_model(m: SessionModel) -> Phase {
    if m.rankings is Some {
        Phase::GameOver
    } else if snapshot_started(m) {
        Phase::Playing
    } else {
        Phase::Matching
    }
}

/// Whether the latest snapshot, if any, says the game has started.
pub open spec fn snapshot_started(m: SessionModel) -> bool {
    match m.snapshot {
        None => false,
        Some(st) => st.game_started,
    }
}

/// What one decoded inbound record means to the session: snapshots,
/// occupancy and standings drive their subscribers; any other well-formed
/// message is ignored; undecodable text is malformed.  Nothing is an error.
pub open spec fn spec_route(m: Option<MessageModel>) -> EventModel {
    match m {
        Some(MessageModel::Snapshot(st)) => EventModel::Snapshot(st),
        Some(MessageModel::Matching { current, required }) => EventModel::Matching {
            current,
            required,
        },
        Some(MessageModel::Over { rankings }) => EventModel::RoundOver { rankings },
        Some(MessageModel::PlayerInput(_)) => EventModel::Ignored,
        Some(MessageModel::Ready) => EventModel::Ignored,
        None => EventModel::Malformed,
    }
}

/// Decodes one inbound wire record and routes it.  Malformed text never
/// raises: it comes back as `SessionEvent::Malformed`, to be dropped.
pub fn handle_incoming(text: &Vec<char>) -> (ev: SessionEvent)
    ensures
        ev@ == spec_route(spec_decode(text@)),
{
    match decode_message(text) {
        Some(GameMessage::GameState(st)) => SessionEvent::Snapshot(st),
        Some(GameMessage::MatchingStatus { current, required }) => SessionEvent::Matching {
            current,
            required,
        },
        Some(GameMessage::GameOver { rankings }) => SessionEvent::RoundOver { rankings },
        Some(GameMessage::PlayerInput(_)) => SessionEvent::Ignored,
        Some(GameMessage::Ready) => SessionEvent::Ignored,
        None => SessionEvent::Malformed,
    }
}

/// Decodes and routes one inbound wire record given as a `&str`.
pub fn handle_incoming_text(text: &str) -> (ev: SessionEvent)
    ensures
        ev@ == spec_route(spec_decode(text@)),
{
    let v = crate::codec::str_to_chars(text);
    handle_incoming(&v)
}

impl Session {
    /// A fresh session, before anything has been received.
    pub fn new() -> (s: Session)
        ensures
            s@ == init_model(),
    {
        Session {
            snapshot: None,
            matching_current: 0,
            matching_required: 2,
            rankings: None,
            ready: false,
        }
    }

    /// Applies one event: the new state is exactly `spec_step` of the old.
    pub fn apply_event(&mut self, ev: SessionEvent)
        ensures
            final(self)@ == spec_step(old(self)@, ev@),
    {
        match ev {
            SessionEvent::Snapshot(st) => {
                self.snapshot = Some(st);
            },
            SessionEvent::Matching { current, required } => {
                self.matching_current = current;
                self.matching_required = required;
            },
            SessionEvent::RoundOver { rankings } => {
                self.rankings = Some(rankings);
            },
            SessionEvent::Ignored => {},
            SessionEvent::Malformed => {},
        }
    }

    /// The user pressed the ready button.  While it is armed (not yet
    /// ready), this marks the client ready and yields the `Ready` message to
    /// send; once disarmed it does nothing and yields no message.
    pub fn press_ready(&mut self) -> (msg: Option<GameMessage>)
        ensures
            old(self)@.ready ==> final(self)@ == old(self)@ && msg is None,
            !old(self)@.ready ==> {
                &&& final(self)@ == (SessionModel { ready: true, ..old(self)@ })
                &&& msg == Some(GameMessage::Ready)
            },
    {
        if self.ready {
            None
        } else {
            self.ready = true;
            Some(GameMessage::Ready)
        }
    }

    /// The user pressed the restart button on the standings panel.  With
    /// standings on hand this clears them, marks the client ready for the
    /// next round, and yields the `Ready` message to send; without
    /// standings there is no panel and nothing happens.
    pub fn press_restart(&mut self) -> (msg: Option<GameMessage>)
        ensures
            old(self)@.rankings is None ==> final(self)@ == old(self)@ && msg is None,
            old(self)@.rankings is Some ==> {
                &&& final(self)@ == (SessionModel {
                    rankings: None,
                    ready: true,
                    ..old(self)@
                })
                &&& msg == Some(GameMessage::Ready)
            },
    {
        match self.rankings {
            Some(_) => {
                self.rankings = None;
                self.ready = true;
                Some(GameMessage::Ready)
            },
            None => None,
        }
    }

    /// The input gate: a directional intent becomes an outbound
    /// `PlayerInput` exactly while input is allowed; otherwise it is dropped
    /// silently and nothing reaches the transport.
    pub fn direction_intent(&self, d: Direction) -> (msg: Option<GameMessage>)
        ensures
            input_allowed_model(self@) ==> msg == Some(GameMessage::PlayerInput(d)),
            !input_allowed_model(self@) ==> msg is None,
    {
        match &self.snapshot {
            Some(st) => {
                if st.game_started && !st.game_over {
                    Some(GameMessage::PlayerInput(d))
                } else {
                    None
                }
            },
            None => None,
        }
    }

    /// Whether the matching panel shows.
    pub fn show_matching_panel(&self) -> (b: bool)
        ensures
            b == show_matching_model(self@),
    {
        match &self.snapshot {
            Some(st) => !st.game_started,
            None => true,
        }
    }

    /// Whether the on-screen directional controls show.
    pub fn show_virtual_input(&self) -> (b: bool)
        ensures
            b == input_allowed_model(self@),
    {
        match &self.snapshot {
            Some(st) => st.game_started && !st.game_over,
            None => false,
        }
    }

    /// Whether a directional intent would be forwarded right now; the same
    /// predicate as `show_virtual_input`.
    pub fn input_allowed(&self) -> (b: bool)
        ensures
            b == input_allowed_model(self@),
    {
        self.show_virtual_input()
    }

    /// Whether the ready button is armed (pressing it would send `Ready`).
    pub fn ready_button_enabled(&self) -> (b: bool)
        ensures
            b == !self@.ready,
    {
        !self.ready
    }

    /// The derived session phase.
    pub fn phase(&self) -> (p: Phase)
        ensures
            p == phase_model(self@),
    {
        match &self.rankings {
            Some(_) => Phase::GameOver,
            None => {
                match &self.snapshot {
                    Some(st) => {
                        if st.game_started {
                            Phase::Playing
                        } else {
                            Phase::Matching
                        }
                    },
                    None => Phase::Matching,
                }
            },
        }
    }
}

/// Processing any non-empty run of snapshot events leaves the session
/// holding exactly the last one's payload: snapshots replace, they never
/// merge.
pub proof fn lemma_snapshot_full_replace(m: SessionModel, evs: Seq<EventModel>)
    requires
        evs.len() > 0,
        forall|k: int| 0 <= k < evs.len() ==> (#[trigger] evs[k]) is Snapshot,
    ensures
        spec_run(m, evs).snapshot == Some(evs.last()->Snapshot_0),
    decreases evs.len(),
{
    let rest = evs.subrange(1, evs.len() as int);
    if evs.len() == 1 {
        assert(rest.len() == 0);
    } else {
        assert(forall|k: int| 0 <= k < rest.len() ==> (#[trigger] rest[k]) == evs[k + 1]);
        lemma_snapshot_full_replace(spec_step(m, evs[0]), rest);
        assert(rest.last() == evs.last());
    }
}

/// A round-end event moves the phase to `GameOver` from any state, stores
/// the server's standings verbatim and in order, and leaves the held
/// snapshot untouched for a final frame.
pub proof fn lemma_game_over_transition(m: SessionModel, rankings: Seq<(int, int)>)
    ensures
        phase_model(spec_step(m, EventModel::RoundOver { rankings })) == Phase::GameOver,
        spec_step(m, EventModel::RoundOver { rankings }).rankings == Some(rankings),
        spec_step(m, EventModel::RoundOver { rankings }).snapshot == m.snapshot,
{
}

} // verus!
