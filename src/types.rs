//! The values that pass between the transports, the worker and the callers.
use vstd::prelude::*;
use crate::protocol::{CmdView, PeerCmd};

verus! {

/// What subscribers hear about the network.
#[derive(Debug, Clone)]
pub enum PupynetEvent {
    PeerConnected { addr: String },
    PeerDisconnected { addr: String },
    PeerData { addr: String, data: Vec<u8> },
}

pub enum EventView {
    PeerConnected { addr: Seq<char> },
    PeerDisconnected { addr: Seq<char> },
    PeerData { addr: Seq<char>, data: Seq<u8> },
}

impl View for PupynetEvent {
    type V = EventView;

    open spec fn view(&self) -> EventView {
        match self {
            PupynetEvent::PeerConnected { addr } => EventView::PeerConnected { addr: addr@ },
            PupynetEvent::PeerDisconnected { addr } => EventView::PeerDisconnected { addr: addr@ },
            PupynetEvent::PeerData { addr, data } => EventView::PeerData {
                addr: addr@,
                data: data@,
            },
        }
    }
}

/// What the worker asks of the connection that serves one peer.
#[derive(Debug)]
pub enum PeerConnCmd {
    Close,
    Send(Vec<u8>),
}

/// What the transports report to the worker. A connection's outbound queue
/// stays with the transport that made it, keyed by the same address.
#[derive(Debug)]
pub enum InternalEvent {
    PeerConnected { addr: String },
    PeerDisconnected { addr: String },
    PeerCmd { addr: String, cmd: PeerCmd },
}

pub enum InternalEventView {
    PeerConnected { addr: Seq<char> },
    PeerDisconnected { addr: Seq<char> },
    PeerCmd { addr: Seq<char>, cmd: CmdView },
}

impl View for InternalEvent {
    type V = InternalEventView;

    open spec fn view(&self) -> InternalEventView {
        match self {
            InternalEvent::PeerConnected { addr } => InternalEventView::PeerConnected {
                addr: addr@,
            },
            InternalEvent::PeerDisconnected { addr } => InternalEventView::PeerDisconnected {
                addr: addr@,
            },
            InternalEvent::PeerCmd { addr, cmd } => InternalEventView::PeerCmd {
                addr: addr@,
                cmd: cmd@,
            },
        }
    }
}

/// What callers ask of the worker.
#[derive(Debug)]
pub enum InternalCommand {
    Bind { addr: String },
    Connect { addr: String },
    PeerCmd { addr: String, cmd: PeerCmd },
}

pub enum InternalCommandView {
    Bind { addr: Seq<char> },
    Connect { addr: Seq<char> },
    PeerCmd { addr: Seq<char>, cmd: CmdView },
}

impl View for InternalCommand {
    type V = InternalCommandView;

    open spec fn view(&self) -> InternalCommandView {
        match self {
            InternalCommand::Bind { addr } => InternalCommandView::Bind { addr: addr@ },
            InternalCommand::Connect { addr } => InternalCommandView::Connect { addr: addr@ },
            InternalCommand::PeerCmd { addr, cmd } => InternalCommandView::PeerCmd {
                addr: addr@,
                cmd: cmd@,
            },
        }
    }
}

/// A node as this node knows it. `introduced` says whether this node has
/// sent it its own introduction.
#[derive(Debug)]
pub struct Peer {
    pub id: String,
    pub name: String,
    pub owner: Option<String>,
    pub introduced: bool,
}

pub struct PeerView {
    pub id: Seq<char>,
    pub name: Seq<char>,
    pub owner: Option<Seq<char>>,
    pub introduced: bool,
}

pub open spec fn opt_str_view(o: Option<String>) -> Option<Seq<char>> {
    match o {
        Some(s) => Some(s@),
        None => None,
    }
}

impl View for Peer {
    type V = PeerView;

    open spec fn view(&self) -> PeerView {
        PeerView {
            id: self.id@,
            name: self.name@,
            owner: opt_str_view(self.owner),
            introduced: self.introduced,
        }
    }
}

impl Peer {
    pub fn new(id: String, name: String, owner: Option<String>) -> (r: Peer)
        ensures
            r@ == (PeerView { id: id@, name: name@, owner: opt_str_view(owner), introduced: false }),
    {
        Peer { id, name, owner, introduced: false }
    }
}

/// What is shared by the tasks that serve connections.
#[derive(Clone, Debug)]
pub struct Context {}

} // verus!
