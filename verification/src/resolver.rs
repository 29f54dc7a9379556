use vstd::prelude::*;
use crate::ancestry::ProcessTable;
use crate::direction::Direction;
use crate::error::ResolveError;
use crate::local::{is_client_title, pane_status, pane_status_says_neighbor, title_is_client};
use crate::protocol::{has_pane_reply, parse_has_pane_reply, reply_true};
use crate::registry::{get_ssht_pid_from_ppid, names_of, peer_for, peer_pids};

verus! {

/// The focused window, as the window manager reports it.
pub struct Window {
    pub title: Vec<u8>,
    pub pid: u32,
}

/// What the caller is to do next.
#[derive(Clone, Copy, Debug, PartialEq, Eq, Structural)]
pub enum Action {
    /// Ask the window manager for the focused window.
    GetActiveWindow,
    /// Ask the local multiplexer for the pane status in a direction.
    QueryLocalPane { direction: Direction },
    /// Tell the local multiplexer to select the neighbor in a direction.
    SelectLocalPane { direction: Direction },
    /// List the peer directory, then read the state of each process that
    /// [`crate::registry::next_unread`] asks for into a snapshot.
    ScanPeers,
    /// Send `has_pane` to a peer and read its reply.
    QueryPeer { peer: u32, direction: Direction },
    /// Send `move_pane` to a peer and read its acknowledgement.
    MovePeer { peer: u32, direction: Direction },
    /// Tell the window manager to move focus in a direction.
    Dispatch { direction: Direction },
    /// Nothing: focus has moved.
    Finish,
    /// Nothing: report the error and give up.
    Abort { error: ResolveError },
}

/// What came of the action that was pending.
pub enum Event {
    /// The window manager's answer: the focused window, if there is one.
    ActiveWindow(Option<Window>),
    /// The status output of the local multiplexer.
    PaneStatus(Vec<u8>),
    /// The local multiplexer selected the pane.
    PaneSelected,
    /// The names in the peer directory, and the process state snapshot.
    PeersScanned { listing: Vec<Vec<u8>>, table: ProcessTable },
    /// The peer directory could not be listed.
    ScanFailed,
    /// What the peer wrote back before it closed the connection.
    PeerReplied(Vec<u8>),
    /// The peer's socket could not be reached, written to or read.
    PeerUnreachable,
    /// The window manager moved focus.
    Dispatched,
    /// The window manager refused.
    DispatchFailed,
}

/// How far one resolution has come. Each state but the last two waits for
/// the outcome of one action.
#[derive(Clone, Copy, Debug, PartialEq, Eq, Structural)]
pub enum State {
    AwaitingWindow { direction: Direction },
    AwaitingPaneStatus { direction: Direction, window_pid: u32 },
    AwaitingPaneSelection { direction: Direction },
    AwaitingPeerScan { direction: Direction, window_pid: u32 },
    AwaitingPeerReply { direction: Direction, peer: u32 },
    AwaitingPeerMove { direction: Direction, peer: u32 },
    AwaitingDispatch { direction: Direction },
    Finished,
    Failed { error: ResolveError },
}

/// The state after the window manager's answer. Without a focused window
/// there is nothing to tell apart: dispatch. A local client's window asks
/// the local multiplexer first; any other window goes to the peers.
pub open spec fn after_window(direction: Direction, window: Option<Window>) -> State {
    match window {
        None => State::AwaitingDispatch { direction },
        Some(w) => if is_client_title(w.title@) {
            State::AwaitingPaneStatus { direction, window_pid: w.pid }
        } else {
            State::AwaitingPeerScan { direction, window_pid: w.pid }
        },
    }
}

/// The state after the local multiplexer's status output: select the
/// neighbor where there is one, else go on to the peers; fail where the
/// output is empty.
pub open spec fn after_pane_status(direction: Direction, window_pid: u32, status: Seq<u8>) -> State {
    match pane_status(status) {
        Ok(true) => State::AwaitingPaneSelection { direction },
        Ok(false) => State::AwaitingPeerScan { direction, window_pid },
        Err(error) => State::Failed { error },
    }
}

/// The state after the peer scan: ask the peer that owns the window's
/// process, dispatch where none does, fail where the search fails.
pub open spec fn after_peer_scan(
    direction: Direction,
    window_pid: u32,
    names: Seq<Seq<u8>>,
    table: Map<u32, Seq<u8>>,
) -> State {
    match peer_for(table, peer_pids(names), window_pid) {
        Ok(Some(peer)) => State::AwaitingPeerReply { direction, peer },
        Ok(None) => State::AwaitingDispatch { direction },
        Err(error) => State::Failed { error },
    }
}

/// The state after a peer's reply to `has_pane`: move in the peer on
/// `true`, dispatch on `false`, fail on anything else.
pub open spec fn after_peer_reply(direction: Direction, peer: u32, reply: Seq<u8>) -> State {
    match has_pane_reply(reply) {
        Ok(true) => State::AwaitingPeerMove { direction, peer },
        Ok(false) => State::AwaitingDispatch { direction },
        Err(error) => State::Failed { error },
    }
}

/// The state that follows `state` on `event`; `None` where the event is
/// not an outcome of the action that `state` waits for.
pub open spec fn transition(state: State, event: Event) -> Option<State> {
    match state {
        State::AwaitingWindow { direction } => match event {
            Event::ActiveWindow(window) => Some(after_window(direction, window)),
            _ => None,
        },
        State::AwaitingPaneStatus { direction, window_pid } => match event {
            Event::PaneStatus(status) => Some(after_pane_status(direction, window_pid, status@)),
            _ => None,
        },
        State::AwaitingPaneSelection { direction } => match event {
            Event::PaneSelected => Some(State::Finished),
            _ => None,
        },
        State::AwaitingPeerScan { direction, window_pid } => match event {
            Event::PeersScanned { listing, table } => Some(
                after_peer_scan(direction, window_pid, names_of(listing@), table@),
            ),
            Event::ScanFailed => Some(State::Failed { error: ResolveError::EnvironmentRead }),
            _ => None,
        },
        State::AwaitingPeerReply { direction, peer } => match event {
            Event::PeerReplied(reply) => Some(after_peer_reply(direction, peer, reply@)),
            Event::PeerUnreachable => Some(State::Failed { error: ResolveError::PeerUnreachable }),
            _ => None,
        },
        State::AwaitingPeerMove { direction, peer } => match event {
            Event::PeerReplied(_) => Some(State::Finished),
            Event::PeerUnreachable => Some(State::Failed { error: ResolveError::PeerUnreachable }),
            _ => None,
        },
        State::AwaitingDispatch { direction } => match event {
            Event::Dispatched => Some(State::Finished),
            Event::DispatchFailed => Some(State::Failed { error: ResolveError::DispatchFailed }),
            _ => None,
        },
        State::Finished => None,
        State::Failed { error } => None,
    }
}

/// Begins a resolution: the first thing to learn is the focused window.
pub fn tmux_focus(direction: Direction) -> (state: State)
    ensures
        state == (State::AwaitingWindow { direction }),
{
    State::AwaitingWindow { direction }
}

/// Decides on the window manager's answer.
pub fn window_found(direction: Direction, window: &Option<Window>) -> (next: State)
    ensures
        next == after_window(direction, *window),
{
    match window {
        None => State::AwaitingDispatch { direction },
        Some(w) => if title_is_client(w.title.as_slice()) {
            State::AwaitingPaneStatus { direction, window_pid: w.pid }
        } else {
            State::AwaitingPeerScan { direction, window_pid: w.pid }
        },
    }
}

/// Decides on the local multiplexer's status output.
pub fn tmux_move(direction: Direction, window_pid: u32, status: &[u8]) -> (next: State)
    ensures
        next == after_pane_status(direction, window_pid, status@),
{
    match pane_status_says_neighbor(status) {
        Ok(true) => State::AwaitingPaneSelection { direction },
        Ok(false) => State::AwaitingPeerScan { direction, window_pid },
        Err(error) => State::Failed { error },
    }
}

/// Decides on the peer scan: which peer, if any, is asked about a move
/// from the window of process `current_window_id`.
pub fn ssh_tmux_move(
    current_window_id: u32,
    direction: Direction,
    listing: &Vec<Vec<u8>>,
    table: &ProcessTable,
) -> (next: State)
    ensures
        next == after_peer_scan(direction, current_window_id, names_of(listing@), table@),
{
    match get_ssht_pid_from_ppid(listing, table, current_window_id) {
        Ok(Some(peer)) => State::AwaitingPeerReply { direction, peer },
        Ok(None) => State::AwaitingDispatch { direction },
        Err(error) => State::Failed { error },
    }
}

/// Decides on a peer's reply to `has_pane`.
pub fn peer_replied(direction: Direction, peer: u32, reply: &[u8]) -> (next: State)
    ensures
        next == after_peer_reply(direction, peer, reply@),
{
    match parse_has_pane_reply(reply) {
        Ok(true) => State::AwaitingPeerMove { direction, peer },
        Ok(false) => State::AwaitingDispatch { direction },
        Err(error) => State::Failed { error },
    }
}

impl State {
    /// The action whose outcome this state waits for.
    pub open spec fn action_spec(self) -> Action {
        match self {
            State::AwaitingWindow { direction } => Action::GetActiveWindow,
            State::AwaitingPaneStatus { direction, window_pid } => Action::QueryLocalPane {
                direction,
            },
            State::AwaitingPaneSelection { direction } => Action::SelectLocalPane { direction },
            State::AwaitingPeerScan { direction, window_pid } => Action::ScanPeers,
            State::AwaitingPeerReply { direction, peer } => Action::QueryPeer { peer, direction },
            State::AwaitingPeerMove { direction, peer } => Action::MovePeer { peer, direction },
            State::AwaitingDispatch { direction } => Action::Dispatch { direction },
            State::Finished => Action::Finish,
            State::Failed { error } => Action::Abort { error },
        }
    }

    /// Whether the resolution is over.
    pub open spec fn is_final(self) -> bool {
        self is Finished || self is Failed
    }

    /// Whether this state waits for focus to be moved, in any of the three
    /// grids.
    pub open spec fn moves_focus(self) -> bool {
        self is AwaitingPaneSelection || self is AwaitingPeerMove || self is AwaitingDispatch
    }

    /// The most actions that are still to come, this state's own included.
    pub open spec fn steps_left(self) -> nat {
        match self {
            State::AwaitingWindow { direction } => 6,
            State::AwaitingPaneStatus { direction, window_pid } => 5,
            State::AwaitingPeerScan { direction, window_pid } => 4,
            State::AwaitingPeerReply { direction, peer } => 3,
            State::AwaitingPaneSelection { direction } => 1,
            State::AwaitingPeerMove { direction, peer } => 1,
            State::AwaitingDispatch { direction } => 1,
            State::Finished => 0,
            State::Failed { error } => 0,
        }
    }

    /// The direction in which this resolution moves focus, while it runs.
    pub open spec fn direction_spec(self) -> Option<Direction> {
        match self {
            State::AwaitingWindow { direction } => Some(direction),
            State::AwaitingPaneStatus { direction, window_pid } => Some(direction),
            State::AwaitingPaneSelection { direction } => Some(direction),
            State::AwaitingPeerScan { direction, window_pid } => Some(direction),
            State::AwaitingPeerReply { direction, peer } => Some(direction),
            State::AwaitingPeerMove { direction, peer } => Some(direction),
            State::AwaitingDispatch { direction } => Some(direction),
            State::Finished => None,
            State::Failed { error } => None,
        }
    }

    /// The action to carry out in this state.
    pub fn action(self) -> (a: Action)
        ensures
            a == self.action_spec(),
    {
        match self {
            State::AwaitingWindow { direction } => Action::GetActiveWindow,
            State::AwaitingPaneStatus { direction, window_pid } => Action::QueryLocalPane {
                direction,
            },
            State::AwaitingPaneSelection { direction } => Action::SelectLocalPane { direction },
            State::AwaitingPeerScan { direction, window_pid } => Action::ScanPeers,
            State::AwaitingPeerReply { direction, peer } => Action::QueryPeer { peer, direction },
            State::AwaitingPeerMove { direction, peer } => Action::MovePeer { peer, direction },
            State::AwaitingDispatch { direction } => Action::Dispatch { direction },
            State::Finished => Action::Finish,
            State::Failed { error } => Action::Abort { error },
        }
    }

    /// Takes the outcome of the pending action and moves on. Returns
    /// `None`, and so leaves the resolution where it was, for an event
    /// that is no outcome of that action.
    pub fn advance(self, event: &Event) -> (next: Option<State>)
        ensures
            next == transition(self, *event),
    {
        match self {
            State::AwaitingWindow { direction } => match event {
                Event::ActiveWindow(window) => Some(window_found(direction, window)),
                _ => None,
            },
            State::AwaitingPaneStatus { direction, window_pid } => match event {
                Event::PaneStatus(status) => Some(
                    tmux_move(direction, window_pid, status.as_slice()),
                ),
                _ => None,
            },
            State::AwaitingPaneSelection { direction } => match event {
                Event::PaneSelected => Some(State::Finished),
                _ => None,
            },
            State::AwaitingPeerScan { direction, window_pid } => match event {
                Event::PeersScanned { listing, table } => Some(
                    ssh_tmux_move(window_pid, direction, listing, table),
                ),
                Event::ScanFailed => Some(State::Failed { error: ResolveError::EnvironmentRead }),
                _ => None,
            },
            State::AwaitingPeerReply { direction, peer } => match event {
                Event::PeerReplied(reply) => Some(peer_replied(direction, peer, reply.as_slice())),
                Event::PeerUnreachable => Some(
                    State::Failed { error: ResolveError::PeerUnreachable },
                ),
                _ => None,
            },
            State::AwaitingPeerMove { direction, peer } => match event {
                Event::PeerReplied(_) => Some(State::Finished),
                Event::PeerUnreachable => Some(
                    State::Failed { error: ResolveError::PeerUnreachable },
                ),
                _ => None,
            },
            State::AwaitingDispatch { direction } => match event {
                Event::Dispatched => Some(State::Finished),
                Event::DispatchFailed => Some(
                    State::Failed { error: ResolveError::DispatchFailed },
                ),
                _ => None,
            },
            State::Finished => None,
            State::Failed { error } => None,
        }
    }
}

/// Every step brings the end nearer, so a resolution takes at most six
/// actions, and the direction never changes on the way.
pub proof fn lemma_resolution_progresses(state: State, event: Event)
    requires
        transition(state, event) is Some,
    ensures
        transition(state, event).unwrap().steps_left() < state.steps_left(),
        transition(state, event).unwrap().is_final() || transition(
            state,
            event,
        ).unwrap().direction_spec() == state.direction_spec(),
{
}

/// Focus moves at most once: after a move in any grid the resolution is
/// over, whatever the outcome.
pub proof fn lemma_focus_moves_once(state: State, event: Event)
    requires
        state.moves_focus(),
        transition(state, event) is Some,
    ensures
        transition(state, event).unwrap().is_final(),
{
}

/// The window manager is the last resort: a dispatch follows only where
/// no window is focused, no peer owns the window's process, or the owning
/// peer has no pane in the direction.
pub proof fn lemma_dispatch_is_fallback(state: State, event: Event)
    requires
        transition(state, event) is Some,
        transition(state, event).unwrap() is AwaitingDispatch,
    ensures
        match state {
            State::AwaitingWindow { direction } => event == Event::ActiveWindow(None),
            State::AwaitingPeerScan { direction, window_pid } => match event {
                Event::PeersScanned { listing, table } => peer_for(
                    table@,
                    peer_pids(names_of(listing@)),
                    window_pid,
                ) == Ok::<Option<u32>, ResolveError>(None),
                _ => false,
            },
            State::AwaitingPeerReply { direction, peer } => match event {
                Event::PeerReplied(reply) => has_pane_reply(reply@) == Ok::<bool, ResolveError>(
                    false,
                ),
                _ => false,
            },
            _ => false,
        },
{
}

/// Without a focused window the first and only move is the dispatch, in
/// the direction that was asked for.
pub proof fn lemma_no_window_dispatches(direction: Direction)
    ensures
        ({
            let s0 = State::AwaitingWindow { direction };
            let s1 = transition(s0, Event::ActiveWindow(None)).unwrap();
            let s2 = transition(s1, Event::Dispatched).unwrap();
            &&& s0.action_spec() == Action::GetActiveWindow
            &&& s1.action_spec() == (Action::Dispatch { direction })
            &&& s2 == State::Finished
        }),
{
}

/// In a local client's window whose pane has a neighbor, the pane is
/// selected, and neither a peer nor the window manager is asked to move.
pub proof fn lemma_local_neighbor_is_selected(
    direction: Direction,
    window: Window,
    status: Vec<u8>,
)
    requires
        is_client_title(window.title@),
        pane_status(status@) == Ok::<bool, ResolveError>(true),
    ensures
        ({
            let s0 = State::AwaitingWindow { direction };
            let s1 = transition(s0, Event::ActiveWindow(Some(window))).unwrap();
            let s2 = transition(s1, Event::PaneStatus(status)).unwrap();
            let s3 = transition(s2, Event::PaneSelected).unwrap();
            &&& s1.action_spec() == (Action::QueryLocalPane { direction })
            &&& s2.action_spec() == (Action::SelectLocalPane { direction })
            &&& s3 == State::Finished
        }),
{
}

/// In any other window whose process a peer owns, a peer that answers
/// `true` is told to move, and the window manager is not.
pub proof fn lemma_owning_peer_moves(
    direction: Direction,
    window: Window,
    listing: Vec<Vec<u8>>,
    table: ProcessTable,
    peer: u32,
    reply: Vec<u8>,
    acknowledgement: Vec<u8>,
)
    requires
        !is_client_title(window.title@),
        peer_for(table@, peer_pids(names_of(listing@)), window.pid) == Ok::<
            Option<u32>,
            ResolveError,
        >(Some(peer)),
        reply@ == reply_true(),
    ensures
        ({
            let s0 = State::AwaitingWindow { direction };
            let s1 = transition(s0, Event::ActiveWindow(Some(window))).unwrap();
            let s2 = transition(s1, Event::PeersScanned { listing, table }).unwrap();
            let s3 = transition(s2, Event::PeerReplied(reply)).unwrap();
            let s4 = transition(s3, Event::PeerReplied(acknowledgement)).unwrap();
            &&& s1.action_spec() == Action::ScanPeers
            &&& s2.action_spec() == (Action::QueryPeer { peer, direction })
            &&& s3.action_spec() == (Action::MovePeer { peer, direction })
            &&& s4 == State::Finished
        }),
{
}

/// In any other window whose process no peer owns, the move falls
/// through to the window manager.
pub proof fn lemma_unowned_window_dispatches(
    direction: Direction,
    window: Window,
    listing: Vec<Vec<u8>>,
    table: ProcessTable,
)
    requires
        !is_client_title(window.title@),
        peer_for(table@, peer_pids(names_of(listing@)), window.pid) == Ok::<
            Option<u32>,
            ResolveError,
        >(None),
    ensures
        ({
            let s0 = State::AwaitingWindow { direction };
            let s1 = transition(s0, Event::ActiveWindow(Some(window))).unwrap();
            let s2 = transition(s1, Event::PeersScanned { listing, table }).unwrap();
            let s3 = transition(s2, Event::Dispatched).unwrap();
            &&& s1.action_spec() == Action::ScanPeers
            &&& s2.action_spec() == (Action::Dispatch { direction })
            &&& s3 == State::Finished
        }),
{
}

} // verus!
