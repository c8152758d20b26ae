//! The connection handler: what the relay does for one peer, as a state
//! machine.
//!
//! The handler decides and leaves the doing to its caller. Each event gives
//! the next state and one action: what to write, and to whom. A connection
//! goes from `Connected` to `Active`, on to `Closing` and ends as `Closed`.

use crate::chunker::{chunks_of, numbers_suffice, Chunker};
use crate::filename::{file_name, requested_name};
use crate::frame::{FileError, Frame, FrameView, ProtocolError};
use crate::packet::PacketView;
use crate::registry::PeerRegistry;
use vstd::prelude::*;

verus! {

/// Where a connection stands.
#[derive(Debug, Clone, Copy, PartialEq, Eq, Structural)]
pub enum ConnState {
    /// The peer is registered; no frame has been read yet.
    Connected,
    /// Frames are read and acted upon.
    Active,
    /// The connection is ending: the peer's departure is yet to be told and
    /// the peer yet to be removed.
    Closing,
    /// The end. Nothing is read or written any more.
    Closed,
}

/// What the caller is to do next.
#[derive(Debug, PartialEq, Eq)]
pub enum Action {
    /// Nothing.
    Idle,
    /// Send this frame to every registered peer but this one.
    Broadcast(Frame),
    /// Open the file of this name and report what came of it.
    OpenFile(String),
    /// Send this frame to this peer only.
    Reply(Frame),
    /// Send the chunks of this file to this peer only.
    Stream(Chunker),
    /// Close the connection.
    Close,
}

/// An action as plain values.
pub enum ActionView {
    Idle,
    Broadcast(FrameView),
    OpenFile(Seq<char>),
    Reply(FrameView),
    /// The chunks to send, in order.
    Stream(Seq<PacketView>),
    Close,
}

impl View for Action {
    type V = ActionView;

    open spec fn view(&self) -> ActionView {
        match self {
            Action::Idle => ActionView::Idle,
            Action::Broadcast(frame) => ActionView::Broadcast(frame@),
            Action::OpenFile(name) => ActionView::OpenFile(name@),
            Action::Reply(frame) => ActionView::Reply(frame@),
            Action::Stream(chunker) => ActionView::Stream(chunker.remaining()),
            Action::Close => ActionView::Close,
        }
    }
}

/// Whether frames are read in this state.
pub open spec fn is_open(state: ConnState) -> bool {
    state == ConnState::Connected || state == ConnState::Active
}

/// The next state and the action when peer `id` sent `received`: a frame, or
/// bytes that the codec refused.
///
/// A chat message goes to all other peers under the sender's identifier. A
/// file request asks for the file to be opened. The end of the session closes
/// the connection, and so does what is malformed or too large, and what only
/// the relay may send. Once the connection is closing, nothing is read.
pub open spec fn on_frame_spec(
    state: ConnState,
    id: u64,
    received: Result<FrameView, ProtocolError>,
) -> (ConnState, ActionView) {
    if !is_open(state) {
        (state, ActionView::Idle)
    } else {
        match received {
            Ok(FrameView::Chat(text)) => (
                ConnState::Active,
                ActionView::Broadcast(FrameView::Relay { id, text }),
            ),
            Ok(FrameView::FileRequest(name)) => (
                ConnState::Active,
                ActionView::OpenFile(requested_name(name)),
            ),
            _ => (ConnState::Closing, ActionView::Close),
        }
    }
}

/// The next state and the action when reading or writing failed or the
/// stream ended: as at the end of the session.
pub open spec fn on_read_error_spec(state: ConnState) -> (ConnState, ActionView) {
    if is_open(state) {
        (ConnState::Closing, ActionView::Close)
    } else {
        (state, ActionView::Idle)
    }
}

/// The next state and the action when the requested file was opened, or was
/// not: the file is streamed in chunks of up to `cap` bytes, or the requester
/// is told why not. Either way the connection stays as it is.
///
/// A file that would take more chunks than there are sequence numbers
/// counts as unreadable.
pub open spec fn on_file_spec(state: ConnState, opened: Result<Seq<u8>, FileError>, cap: nat) -> (
    ConnState,
    ActionView,
) {
    if state != ConnState::Active {
        (state, ActionView::Idle)
    } else {
        match opened {
            Ok(content) => if numbers_suffice(content.len(), cap, 0) {
                (state, ActionView::Stream(chunks_of(content, cap)))
            } else {
                (state, ActionView::Reply(FrameView::Failed(FileError::Unreadable)))
            },
            Err(error) => (state, ActionView::Reply(FrameView::Failed(error))),
        }
    }
}

/// The next state, the registered peers and the notice for them when the
/// connection of peer `id` is closed: a closing connection takes its peer out
/// and tells the others, once. In any other state nothing happens.
pub open spec fn on_close_spec(state: ConnState, id: u64, live: Set<u64>) -> (
    ConnState,
    Set<u64>,
    Option<FrameView>,
) {
    if state == ConnState::Closing {
        (ConnState::Closed, live.remove(id), Some(FrameView::Departure { id }))
    } else {
        (state, live, None)
    }
}

/// The handler of one peer's connection.
#[derive(Debug, PartialEq, Eq)]
pub struct ConnectionHandler {
    id: u64,
    state: ConnState,
}

impl ConnectionHandler {
    /// The identifier of the peer.
    pub closed spec fn peer(&self) -> u64 {
        self.id
    }

    /// Where the connection stands.
    pub closed spec fn status(&self) -> ConnState {
        self.state
    }

    /// The handler for the peer that was registered as `id`.
    pub fn new(id: u64) -> (handler: Self)
        ensures
            handler.peer() == id,
            handler.status() == ConnState::Connected,
    {
        ConnectionHandler { id, state: ConnState::Connected }
    }

    /// The identifier of the peer.
    pub fn id(&self) -> (id: u64)
        ensures
            id == self.peer(),
    {
        self.id
    }

    /// Where the connection stands.
    pub fn state(&self) -> (state: ConnState)
        ensures
            state == self.status(),
    {
        self.state
    }

    /// Whether the connection has ended.
    pub fn is_closed(&self) -> (closed: bool)
        ensures
            closed == (self.status() == ConnState::Closed),
    {
        match self.state {
            ConnState::Closed => true,
            _ => false,
        }
    }

    /// Begins to read frames: a connected peer becomes active.
    pub fn start(&mut self)
        ensures
            final(self).peer() == old(self).peer(),
            final(self).status() == if old(self).status() == ConnState::Connected {
                ConnState::Active
            } else {
                old(self).status()
            },
    {
        if let ConnState::Connected = self.state {
            self.state = ConnState::Active;
        }
    }

    fn reads(&self) -> (open: bool)
        ensures
            open == is_open(self.status()),
    {
        match self.state {
            ConnState::Connected => true,
            ConnState::Active => true,
            _ => false,
        }
    }

    /// Takes what the peer sent: a frame, or the error of the codec.
    pub fn on_frame(&mut self, received: Result<Frame, ProtocolError>) -> (action: Action)
        ensures
            final(self).peer() == old(self).peer(),
            (final(self).status(), action@) == on_frame_spec(
                old(self).status(),
                old(self).peer(),
                received_view(received),
            ),
    {
        if !self.reads() {
            return Action::Idle;
        }
        match received {
            Ok(Frame::Chat(text)) => {
                self.state = ConnState::Active;
                Action::Broadcast(Frame::Relay { id: self.id, text })
            },
            Ok(Frame::FileRequest(name)) => {
                self.state = ConnState::Active;
                Action::OpenFile(file_name(&name))
            },
            _ => {
                self.state = ConnState::Closing;
                Action::Close
            },
        }
    }

    /// Takes the news that reading failed or that the stream ended.
    pub fn on_read_error(&mut self) -> (action: Action)
        ensures
            final(self).peer() == old(self).peer(),
            (final(self).status(), action@) == on_read_error_spec(old(self).status()),
    {
        if self.reads() {
            self.state = ConnState::Closing;
            Action::Close
        } else {
            Action::Idle
        }
    }

    /// Takes the news that a write to this peer failed: as when reading
    /// failed, the connection is closing.
    pub fn on_write_error(&mut self) -> (action: Action)
        ensures
            final(self).peer() == old(self).peer(),
            (final(self).status(), action@) == on_read_error_spec(old(self).status()),
    {
        self.on_read_error()
    }

    /// Takes what came of opening the requested file: its content, or why
    /// there is none.
    pub fn on_file(&mut self, opened: Result<Vec<u8>, FileError>, cap: usize) -> (action: Action)
        ensures
            final(self).peer() == old(self).peer(),
            (final(self).status(), action@) == on_file_spec(
                old(self).status(),
                opened_view(opened),
                cap as nat,
            ),
            action matches Action::Stream(chunker) ==> chunker.wf() && chunker.cap() == cap,
    {
        match self.state {
            ConnState::Active => {},
            _ => {
                return Action::Idle;
            },
        }
        match Chunker::open(opened, cap) {
            Ok(chunker) => Action::Stream(chunker),
            Err(error) => Action::Reply(Frame::Failed(error)),
        }
    }

    /// Closes a closing connection: takes the peer out of the registry and
    /// gives the notice of its departure, which is for the peers that remain.
    ///
    /// A connection that is not closing, or is closed already, is left as it
    /// is, and so is the registry: the peer is removed once and its departure
    /// told once, whatever fires a second time.
    pub fn close<H>(&mut self, registry: &mut PeerRegistry<H>) -> (notice: Option<Frame>)
        requires
            old(registry).wf(),
        ensures
            final(registry).wf(),
            final(self).peer() == old(self).peer(),
            final(registry).next_id() == old(registry).next_id(),
            (final(self).status(), final(registry).live(), notice_view(notice)) == on_close_spec(
                old(self).status(),
                old(self).peer(),
                old(registry).live(),
            ),
            final(registry).peers() == if old(self).status() == ConnState::Closing && old(
                registry,
            ).has(old(self).peer()) {
                old(registry).peers().remove(old(registry).slot(old(self).peer()))
            } else {
                old(registry).peers()
            },
    {
        match self.state {
            ConnState::Closing => {},
            _ => {
                return None;
            },
        }
        let _ = registry.unregister(self.id);
        self.state = ConnState::Closed;
        Some(Frame::Departure { id: self.id })
    }
}

/// What was received, as plain values.
pub open spec fn received_view(received: Result<Frame, ProtocolError>) -> Result<
    FrameView,
    ProtocolError,
> {
    match received {
        Ok(frame) => Ok(frame@),
        Err(error) => Err(error),
    }
}

/// What came of opening a file, as plain values.
pub open spec fn opened_view(opened: Result<Vec<u8>, FileError>) -> Result<Seq<u8>, FileError> {
    match opened {
        Ok(content) => Ok(content@),
        Err(error) => Err(error),
    }
}

/// A notice, if any, as plain values.
pub open spec fn notice_view(notice: Option<Frame>) -> Option<FrameView> {
    match notice {
        Some(frame) => Some(frame@),
        None => None,
    }
}

/// A request for a file that is not there is answered with the notice that
/// it was not found, to the requester alone, and the connection stays
/// active. The registry has no part in it.
pub proof fn lemma_missing_file_leaves_connection_open(id: u64, name: Seq<char>, cap: nat)
    ensures
        on_frame_spec(ConnState::Active, id, Ok(FrameView::FileRequest(name))) == (
            ConnState::Active,
            ActionView::OpenFile(requested_name(name)),
        ),
        on_file_spec(ConnState::Active, Err(FileError::NotFound), cap) == (
            ConnState::Active,
            ActionView::Reply(FrameView::Failed(FileError::NotFound)),
        ),
{
}

/// The end of the session closes the connection for good. The frame makes
/// the connection closing. Closing it removes the peer and gives one notice
/// of departure. Whatever comes after, a read error or a second close,
/// changes neither the state nor the registry and gives no further notice,
/// and a read error before the close does not close twice either.
pub proof fn lemma_end_closes_once(state: ConnState, id: u64, live: Set<u64>)
    requires
        is_open(state),
    ensures
        on_frame_spec(state, id, Ok(FrameView::End)) == (ConnState::Closing, ActionView::Close),
        on_read_error_spec(ConnState::Closing) == (ConnState::Closing, ActionView::Idle),
        on_close_spec(ConnState::Closing, id, live) == (
            ConnState::Closed,
            live.remove(id),
            Some(FrameView::Departure { id }),
        ),
        !live.remove(id).contains(id),
        on_read_error_spec(ConnState::Closed) == (ConnState::Closed, ActionView::Idle),
        on_close_spec(ConnState::Closed, id, live.remove(id)) == (
            ConnState::Closed,
            live.remove(id),
            None::<FrameView>,
        ),
{
}

} // verus!
