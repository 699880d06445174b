//! The peer registry and the decisions of the worker that owns it.
//!
//! The worker is the single writer of the peer map. Each inbound event and
//! each caller's command is handled to completion, and handling yields the
//! actions that the transports are to carry out, in order.
use vstd::prelude::*;
use crate::protocol::{encodable, frame_of, CmdView, EncodeError, Introduce, PeerCmd};
use crate::route::{scheme_of, split_scheme, Scheme};
use crate::types::{
    EventView, InternalCommand, InternalCommandView, InternalEvent, InternalEventView, Peer,
    PeerView, PupynetEvent,
};

verus! {

/// Why the worker could not do what it was asked.
#[derive(Clone, Copy, Debug, PartialEq, Eq, Structural)]
pub enum WorkerError {
    /// The address names no transport that can do this.
    UnsupportedScheme,
    /// The address has no live connection.
    NotConnected,
    /// The command has no wire form.
    Unencodable(EncodeError),
    /// This node does not handle the command yet.
    NotImplemented,
}

/// What the transports are to do.
#[derive(Debug)]
pub enum Action {
    /// Tell subscribers.
    Publish(PupynetEvent),
    /// Send `bytes` as one UDP datagram to `target` (`host:port`).
    SendDatagram { target: String, bytes: Vec<u8> },
    /// Queue `bytes` on the live connection of the peer at `addr`.
    SendOnLink { addr: String, bytes: Vec<u8> },
    /// Accept WebSocket connections at `target` (`host:port`).
    Listen { target: String },
    /// Open a WebSocket connection to `addr`.
    Dial { addr: String },
    /// Report a failure to the caller.
    Fail(WorkerError),
}

pub enum ActionView {
    Publish(EventView),
    SendDatagram { target: Seq<char>, bytes: Seq<u8> },
    SendOnLink { addr: Seq<char>, bytes: Seq<u8> },
    Listen { target: Seq<char> },
    Dial { addr: Seq<char> },
    Fail(WorkerError),
}

impl View for Action {
    type V = ActionView;

    open spec fn view(&self) -> ActionView {
        match self {
            Action::Publish(e) => ActionView::Publish(e@),
            Action::SendDatagram { target, bytes } => ActionView::SendDatagram {
                target: target@,
                bytes: bytes@,
            },
            Action::SendOnLink { addr, bytes } => ActionView::SendOnLink {
                addr: addr@,
                bytes: bytes@,
            },
            Action::Listen { target } => ActionView::Listen { target: target@ },
            Action::Dial { addr } => ActionView::Dial { addr: addr@ },
            Action::Fail(e) => ActionView::Fail(*e),
        }
    }
}

pub open spec fn action_views(actions: Seq<Action>) -> Seq<ActionView> {
    actions.map_values(|a: Action| a@)
}

/// The registry as a mathematical value: this node, the peers it knows by
/// id, and the addresses with a live connection.
pub struct StateView {
    pub me: PeerView,
    pub peers: Map<Seq<char>, PeerView>,
    pub links: Set<Seq<char>>,
}

// ---------------------------------------------------------------------------
// What the worker decides
/// Why a command has no wire form.
pub open spec fn encode_error_of(c: CmdView) -> EncodeError {
    if c is Hello {
        EncodeError::Unsupported
    } else {
        EncodeError::FieldTooLong
    }
}

/// Sending `cmd` to the logical address `addr`: a datagram for `udp://`,
/// the connection's queue for `ws://`, and a failure otherwise.
pub open spec fn send_action(links: Set<Seq<char>>, addr: Seq<char>, cmd: CmdView) -> ActionView {
    match scheme_of(addr) {
        None => ActionView::Fail(WorkerError::UnsupportedScheme),
        Some((scheme, rest)) => {
            if scheme == Scheme::Ws && !links.contains(addr) {
                ActionView::Fail(WorkerError::NotConnected)
            } else if !encodable(cmd) {
                ActionView::Fail(WorkerError::Unencodable(encode_error_of(cmd)))
            } else if scheme == Scheme::Udp {
                ActionView::SendDatagram { target: rest, bytes: frame_of(cmd) }
            } else {
                ActionView::SendOnLink { addr, bytes: frame_of(cmd) }
            }
        },
    }
}

/// This node's own introduction; a missing owner travels as "".
pub open spec fn my_introduce(me: PeerView) -> CmdView {
    CmdView::Introduce {
        id: me.id,
        name: me.name,
        owner: match me.owner {
            Some(o) => o,
            None => seq![],
        },
    }
}

/// The owner as an introduction carries it: "" is none.
pub open spec fn owner_from_wire(owner: Seq<char>) -> Option<Seq<char>> {
    if owner.len() == 0 {
        None
    } else {
        Some(owner)
    }
}

/// The introduction handshake. An introduction from this node itself changes
/// nothing. Any other records the peer under its id, with its name and owner;
/// the first time, this node introduces itself back to `addr` and tells its
/// subscribers.
pub open spec fn introduce_step(
    s: StateView,
    addr: Seq<char>,
    id: Seq<char>,
    name: Seq<char>,
    owner: Seq<char>,
) -> (StateView, Seq<ActionView>) {
    if id == s.me.id {
        (s, seq![])
    } else {
        let was_introduced = s.peers.contains_key(id) && s.peers[id].introduced;
        let peer = PeerView { id, name, owner: owner_from_wire(owner), introduced: true };
        let next = StateView { peers: s.peers.insert(id, peer), ..s };
        if was_introduced {
            (next, seq![])
        } else {
            (
                next,
                seq![
                    send_action(s.links, addr, my_introduce(s.me)),
                    ActionView::Publish(EventView::PeerConnected { addr }),
                ],
            )
        }
    }
}

/// How the worker handles what a transport reports.
pub open spec fn event_step(s: StateView, ev: InternalEventView) -> (StateView, Seq<ActionView>) {
    match ev {
        InternalEventView::PeerConnected { addr } => (
            StateView { links: s.links.insert(addr), ..s },
            seq![ActionView::Publish(EventView::PeerConnected { addr })],
        ),
        InternalEventView::PeerDisconnected { addr } => (
            StateView { links: s.links.remove(addr), ..s },
            seq![ActionView::Publish(EventView::PeerDisconnected { addr })],
        ),
        InternalEventView::PeerCmd { addr, cmd } => match cmd {
            CmdView::Introduce { id, name, owner } => introduce_step(s, addr, id, name, owner),
            _ => (s, seq![ActionView::Fail(WorkerError::NotImplemented)]),
        },
    }
}

/// How the worker handles a caller's command; the registry stays as it is.
pub open spec fn command_step(s: StateView, c: InternalCommandView) -> Seq<ActionView> {
    match c {
        InternalCommandView::Bind { addr } => match scheme_of(addr) {
            Some((Scheme::Ws, rest)) => seq![ActionView::Listen { target: rest }],
            _ => seq![ActionView::Fail(WorkerError::UnsupportedScheme)],
        },
        InternalCommandView::Connect { addr } => match scheme_of(addr) {
            Some((Scheme::Ws, _)) => seq![ActionView::Dial { addr }],
            _ => seq![ActionView::Fail(WorkerError::UnsupportedScheme)],
        },
        InternalCommandView::PeerCmd { addr, cmd } => seq![send_action(s.links, addr, cmd)],
    }
}

/// Introducing the same peer twice: the first introduction records the peer
/// and draws exactly one reply and one event; the second draws nothing and
/// leaves the registry as it was, with the peer listed once under its id.
pub proof fn lemma_introduce_idempotent(
    s: StateView,
    addr: Seq<char>,
    id: Seq<char>,
    name: Seq<char>,
    owner: Seq<char>,
)
    requires
        id != s.me.id,
        !(s.peers.contains_key(id) && s.peers[id].introduced),
    ensures
        ({
            let ev = InternalEventView::PeerCmd { addr, cmd: CmdView::Introduce { id, name, owner } };
            let first = event_step(s, ev);
            let second = event_step(first.0, ev);
            &&& first.1 == seq![
                send_action(s.links, addr, my_introduce(s.me)),
                ActionView::Publish(EventView::PeerConnected { addr }),
            ]
            &&& second.1 == Seq::<ActionView>::empty()
            &&& second.0 == first.0
            &&& second.0.peers.dom() == s.peers.dom().insert(id)
            &&& second.0.peers[id] == (PeerView {
                id,
                name,
                owner: owner_from_wire(owner),
                introduced: true,
            })
        }),
{
    let ev = InternalEventView::PeerCmd { addr, cmd: CmdView::Introduce { id, name, owner } };
    let first = event_step(s, ev);
    let peer = PeerView { id, name, owner: owner_from_wire(owner), introduced: true };
    assert(first.0.peers.insert(id, peer) =~= first.0.peers);
    assert(event_step(first.0, ev).0.peers =~= first.0.peers);
    assert(first.0.peers.dom() =~= s.peers.dom().insert(id));
}

/// An introduction that carries this node's own id, as a broadcast of its
/// own comes back, changes nothing and draws nothing.
pub proof fn lemma_self_introduction(
    s: StateView,
    addr: Seq<char>,
    name: Seq<char>,
    owner: Seq<char>,
)
    ensures
        event_step(
            s,
            InternalEventView::PeerCmd { addr, cmd: CmdView::Introduce { id: s.me.id, name, owner } },
        ) == (s, Seq::<ActionView>::empty()),
{
}

// ---------------------------------------------------------------------------
// The registry
pub open spec fn peer_views(ps: Seq<Peer>) -> Seq<PeerView> {
    ps.map_values(|p: Peer| p@)
}

/// The peers of a list, by id; a later entry wins.
pub open spec fn peer_map(ps: Seq<PeerView>) -> Map<Seq<char>, PeerView>
    decreases ps.len(),
{
    if ps.len() == 0 {
        Map::empty()
    } else {
        peer_map(ps.drop_last()).insert(ps.last().id, ps.last())
    }
}

pub open spec fn ids_unique(ps: Seq<PeerView>) -> bool {
    forall|i: int, j: int| 0 <= i < j < ps.len() ==> ps[i].id != ps[j].id
}

pub open spec fn link_set(ls: Seq<String>) -> Set<Seq<char>> {
    Set::new(|a: Seq<char>| exists|i: int| 0 <= i < ls.len() && ls[i]@ == a)
}

proof fn lemma_peer_map_keys(ps: Seq<PeerView>, k: Seq<char>)
    ensures
        peer_map(ps).contains_key(k) <==> exists|i: int| 0 <= i < ps.len() && ps[i].id == k,
    decreases ps.len(),
{
    if ps.len() > 0 {
        lemma_peer_map_keys(ps.drop_last(), k);
        if peer_map(ps.drop_last()).contains_key(k) {
            let i = choose|i: int| 0 <= i < ps.drop_last().len() && ps.drop_last()[i].id == k;
            assert(ps[i].id == k);
        }
        if exists|i: int| 0 <= i < ps.len() && ps[i].id == k {
            let i = choose|i: int| 0 <= i < ps.len() && ps[i].id == k;
            if i < ps.len() - 1 {
                assert(ps.drop_last()[i].id == k);
            }
        }
    }
}

proof fn lemma_peer_map_value(ps: Seq<PeerView>, i: int)
    requires
        ids_unique(ps),
        0 <= i < ps.len(),
    ensures
        peer_map(ps).contains_key(ps[i].id),
        peer_map(ps)[ps[i].id] == ps[i],
    decreases ps.len(),
{
    if i < ps.len() - 1 {
        assert(ps.drop_last()[i] == ps[i]);
        lemma_peer_map_value(ps.drop_last(), i);
    }
}

proof fn lemma_peer_map_update(ps: Seq<PeerView>, i: int, p: PeerView)
    requires
        ids_unique(ps),
        0 <= i < ps.len(),
        ps[i].id == p.id,
    ensures
        ids_unique(ps.update(i, p)),
        peer_map(ps.update(i, p)) == peer_map(ps).insert(p.id, p),
{
    let qs = ps.update(i, p);
    assert(ids_unique(qs));
    assert forall|k: Seq<char>| #[trigger] peer_map(qs).contains_key(k) <==> peer_map(ps).insert(
        p.id,
        p,
    ).contains_key(k) by {
        lemma_peer_map_keys(qs, k);
        lemma_peer_map_keys(ps, k);
        if exists|j: int| 0 <= j < ps.len() && ps[j].id == k {
            let j = choose|j: int| 0 <= j < ps.len() && ps[j].id == k;
            assert(qs[j].id == k);
        }
        if exists|j: int| 0 <= j < qs.len() && qs[j].id == k {
            let j = choose|j: int| 0 <= j < qs.len() && qs[j].id == k;
            if j != i {
                assert(ps[j].id == k);
            }
        }
    }
    assert forall|k: Seq<char>| #[trigger] peer_map(qs).contains_key(k) implies peer_map(qs)[k]
        == peer_map(ps).insert(p.id, p)[k] by {
        lemma_peer_map_keys(qs, k);
        let j = choose|j: int| 0 <= j < qs.len() && qs[j].id == k;
        lemma_peer_map_value(qs, j);
        if j != i {
            lemma_peer_map_value(ps, j);
        }
    }
    assert(peer_map(qs) =~= peer_map(ps).insert(p.id, p));
}

proof fn lemma_peer_map_push(ps: Seq<PeerView>, p: PeerView)
    requires
        ids_unique(ps),
        forall|j: int| 0 <= j < ps.len() ==> ps[j].id != p.id,
    ensures
        ids_unique(ps.push(p)),
        peer_map(ps.push(p)) == peer_map(ps).insert(p.id, p),
{
    assert(ps.push(p).drop_last() =~= ps);
}

fn find_peer(peers: &Vec<Peer>, id: &String) -> (r: Option<usize>)
    ensures
        match r {
            Some(i) => i < peers@.len() && peers@[i as int].id@ == id@,
            None => forall|j: int| 0 <= j < peers@.len() ==> peers@[j].id@ != id@,
        },
{
    let mut i: usize = 0;
    while i < peers.len()
        invariant
            i <= peers@.len(),
            forall|j: int| 0 <= j < i ==> peers@[j].id@ != id@,
        decreases peers@.len() - i,
    {
        if peers[i].id == *id {
            return Some(i);
        }
        i += 1;
    }
    None
}

fn has_link(links: &Vec<String>, addr: &String) -> (r: bool)
    ensures
        r == link_set(links@).contains(addr@),
{
    let mut i: usize = 0;
    while i < links.len()
        invariant
            i <= links@.len(),
            forall|j: int| 0 <= j < i ==> links@[j]@ != addr@,
        decreases links@.len() - i,
    {
        if links[i] == *addr {
            return true;
        }
        i += 1;
    }
    false
}

fn add_link(links: &mut Vec<String>, addr: &String)
    ensures
        link_set(final(links)@) == link_set(old(links)@).insert(addr@),
{
    if !has_link(links, addr) {
        let ghost before = links@;
        links.push(addr.clone());
        assert forall|a: Seq<char>| #[trigger] link_set(links@).contains(a) <==> link_set(
            before,
        ).insert(addr@).contains(a) by {
            if link_set(links@).contains(a) {
                let j = choose|j: int| 0 <= j < links@.len() && links@[j]@ == a;
                if j < before.len() {
                    assert(before[j]@ == a);
                }
            }
            if link_set(before).contains(a) {
                let j = choose|j: int| 0 <= j < before.len() && before[j]@ == a;
                assert(links@[j]@ == a);
            }
            if a == addr@ {
                assert(links@[before.len() as int]@ == a);
            }
        }
        assert(link_set(links@) =~= link_set(before).insert(addr@));
    } else {
        assert(link_set(links@) =~= link_set(links@).insert(addr@));
    }
}

fn remove_link(links: &mut Vec<String>, addr: &String)
    ensures
        link_set(final(links)@) == link_set(old(links)@).remove(addr@),
{
    let mut kept: Vec<String> = Vec::new();
    let mut i: usize = 0;
    while i < links.len()
        invariant
            i <= links@.len(),
            forall|j: int| 0 <= j < kept@.len() ==> #[trigger] kept@[j]@ != addr@,
            forall|j: int|
                0 <= j < kept@.len() ==> #[trigger] link_set(links@).contains(kept@[j]@),
            forall|j: int|
                0 <= j < i && links@[j]@ != addr@ ==> #[trigger] link_set(kept@).contains(
                    links@[j]@,
                ),
        decreases links@.len() - i,
    {
        if !(links[i] == *addr) {
            let ghost before = kept@;
            kept.push(links[i].clone());
            assert forall|j: int|
                0 <= j <= i && links@[j]@ != addr@ implies #[trigger] link_set(
                kept@,
            ).contains(links@[j]@) by {
                if j == i {
                    assert(kept@[before.len() as int]@ == links@[j]@);
                } else {
                    assert(link_set(before).contains(links@[j]@));
                    let k = choose|k: int|
                        0 <= k < before.len() && before[k]@ == links@[j]@;
                    assert(kept@[k] == before[k]);
                }
            }
            assert(kept@[before.len() as int]@ == links@[i as int]@);
            assert(link_set(links@).contains(links@[i as int]@));
            assert forall|j: int| 0 <= j < kept@.len() implies #[trigger] link_set(
                links@,
            ).contains(kept@[j]@) by {
                if j < before.len() {
                    assert(kept@[j] == before[j]);
                    assert(link_set(links@).contains(before[j]@));
                }
            }
        }
        i += 1;
    }
    let ghost old_links = links@;
    assert forall|a: Seq<char>| #[trigger] link_set(kept@).contains(a) <==> link_set(
        old_links,
    ).remove(addr@).contains(a) by {
        if link_set(kept@).contains(a) {
            let j = choose|j: int| 0 <= j < kept@.len() && kept@[j]@ == a;
            assert(link_set(old_links).contains(kept@[j]@));
        }
        if link_set(old_links).remove(addr@).contains(a) {
            let j = choose|j: int| 0 <= j < old_links.len() && old_links[j]@ == a;
            assert(link_set(kept@).contains(old_links[j]@));
        }
    }
    assert(link_set(kept@) =~= link_set(old_links).remove(addr@));
    *links = kept;
}

/// The registry that the worker owns: this node, the peers it has met, and
/// the addresses with a live connection.
pub struct State {
    pub me: Peer,
    peers: Vec<Peer>,
    links: Vec<String>,
}

impl View for State {
    type V = StateView;

    closed spec fn view(&self) -> StateView {
        StateView {
            me: self.me@,
            peers: peer_map(peer_views(self.peers@)),
            links: link_set(self.links@),
        }
    }
}

impl State {
    /// Each peer is listed once.
    #[verifier::type_invariant]
    closed spec fn inv(self) -> bool {
        ids_unique(peer_views(self.peers@))
    }

    pub fn new(me: Peer) -> (r: State)
        ensures
            r@ == (StateView { me: me@, peers: Map::empty(), links: Set::empty() }),
    {
        let r = State { me, peers: Vec::new(), links: Vec::new() };
        assert(peer_views(r.peers@) =~= seq![]);
        assert(link_set(r.links@) =~= Set::empty());
        r
    }

    /// The peers, each once.
    pub fn peers(&self) -> (r: &[Peer])
        ensures
            ids_unique(peer_views(r@)),
            peer_map(peer_views(r@)) == self@.peers,
    {
        proof {
            use_type_invariant(self);
        }
        self.peers.as_slice()
    }

    /// The peer known under `id`.
    pub fn peer(&self, id: &String) -> (r: Option<&Peer>)
        ensures
            match r {
                Some(p) => self@.peers.contains_key(id@) && p@ == self@.peers[id@],
                None => !self@.peers.contains_key(id@),
            },
    {
        proof {
            use_type_invariant(self);
        }
        let ghost ps = peer_views(self.peers@);
        proof {
            lemma_peer_map_keys(ps, id@);
        }
        match find_peer(&self.peers, id) {
            Some(i) => {
                proof {
                    lemma_peer_map_value(ps, i as int);
                }
                Some(&self.peers[i])
            },
            None => {
                assert(forall|j: int| 0 <= j < ps.len() ==> ps[j].id != id@);
                None
            },
        }
    }

    fn my_introduce(&self) -> (r: PeerCmd)
        ensures
            r@ == my_introduce(self.me@),
    {
        let owner = match &self.me.owner {
            Some(o) => o.clone(),
            None => String::new(),
        };
        PeerCmd::Introduce(Introduce { id: self.me.id.clone(), name: self.me.name.clone(), owner })
    }

    /// Routes `cmd` to the logical address `addr`.
    pub fn send(&self, addr: &String, cmd: &PeerCmd) -> (r: Action)
        ensures
            r@ == send_action(self@.links, addr@, cmd@),
    {
        match split_scheme(addr.as_str()) {
            None => Action::Fail(WorkerError::UnsupportedScheme),
            Some((scheme, rest)) => {
                if scheme == Scheme::Ws && !has_link(&self.links, addr) {
                    return Action::Fail(WorkerError::NotConnected);
                }
                match cmd.serialize() {
                    Err(e) => Action::Fail(WorkerError::Unencodable(e)),
                    Ok(bytes) => {
                        if scheme == Scheme::Udp {
                            Action::SendDatagram { target: rest, bytes }
                        } else {
                            Action::SendOnLink { addr: addr.clone(), bytes }
                        }
                    },
                }
            },
        }
    }

    fn handle_introduce(&mut self, addr: String, intro: Introduce) -> (actions: Vec<Action>)
        ensures
            (final(self)@, action_views(actions@)) == introduce_step(
                old(self)@,
                addr@,
                intro.id@,
                intro.name@,
                intro.owner@,
            ),
    {
        if intro.id == self.me.id {
            let actions: Vec<Action> = Vec::new();
            assert(action_views(actions@) =~= seq![]);
            return actions;
        }
        proof {
            use_type_invariant(&*self);
        }
        let ghost s0 = self@;
        let ghost ps = peer_views(self.peers@);
        let owner = if intro.owner.as_str().is_empty() {
            None
        } else {
            Some(intro.owner)
        };
        let id = intro.id;
        proof {
            lemma_peer_map_keys(ps, id@);
        }
        let mut peers: Vec<Peer> = Vec::new();
        std::mem::swap(&mut peers, &mut self.peers);
        match find_peer(&peers, &id) {
            Some(i) => {
                proof {
                    lemma_peer_map_value(ps, i as int);
                }
                let was_introduced = peers[i].introduced;
                let peer = Peer { id, name: intro.name, owner, introduced: true };
                proof {
                    lemma_peer_map_update(ps, i as int, peer@);
                }
                peers.set(i, peer);
                assert(peer_views(peers@) =~= ps.update(i as int, peer@));
                self.peers = peers;
                if was_introduced {
                    let actions: Vec<Action> = Vec::new();
                    assert(action_views(actions@) =~= seq![]);
                    return actions;
                }
            },
            None => {
                let peer = Peer { id, name: intro.name, owner, introduced: true };
                proof {
                    lemma_peer_map_push(ps, peer@);
                }
                peers.push(peer);
                assert(peer_views(peers@) =~= ps.push(peer@));
                self.peers = peers;
            },
        }
        let reply = self.send(&addr, &self.my_introduce());
        let mut actions: Vec<Action> = Vec::new();
        actions.push(reply);
        actions.push(Action::Publish(PupynetEvent::PeerConnected { addr }));
        assert(action_views(actions@) =~= introduce_step(
            s0,
            addr@,
            intro.id@,
            intro.name@,
            intro.owner@,
        ).1);
        actions
    }

    /// Handles one report of a transport.
    pub fn handle_internal_event(&mut self, event: InternalEvent) -> (actions: Vec<Action>)
        ensures
            (final(self)@, action_views(actions@)) == event_step(old(self)@, event@),
    {
        proof {
            use_type_invariant(&*self);
        }
        let mut actions: Vec<Action> = Vec::new();
        match event {
            InternalEvent::PeerConnected { addr } => {
                let mut links: Vec<String> = Vec::new();
                std::mem::swap(&mut links, &mut self.links);
                add_link(&mut links, &addr);
                self.links = links;
                actions.push(Action::Publish(PupynetEvent::PeerConnected { addr }));
            },
            InternalEvent::PeerDisconnected { addr } => {
                let mut links: Vec<String> = Vec::new();
                std::mem::swap(&mut links, &mut self.links);
                remove_link(&mut links, &addr);
                self.links = links;
                actions.push(Action::Publish(PupynetEvent::PeerDisconnected { addr }));
            },
            InternalEvent::PeerCmd { addr, cmd } => match cmd {
                PeerCmd::Introduce(intro) => {
                    return self.handle_introduce(addr, intro);
                },
                _ => {
                    actions.push(Action::Fail(WorkerError::NotImplemented));
                },
            },
        }
        assert(action_views(actions@) =~= event_step(old(self)@, event@).1);
        actions
    }

    /// Handles one command of a caller.
    pub fn handle_cmd(&self, cmd: InternalCommand) -> (actions: Vec<Action>)
        ensures
            action_views(actions@) == command_step(self@, cmd@),
    {
        let mut actions: Vec<Action> = Vec::new();
        match cmd {
            InternalCommand::Bind { addr } => match split_scheme(addr.as_str()) {
                Some((Scheme::Ws, rest)) => actions.push(Action::Listen { target: rest }),
                _ => actions.push(Action::Fail(WorkerError::UnsupportedScheme)),
            },
            InternalCommand::Connect { addr } => match split_scheme(addr.as_str()) {
                Some((Scheme::Ws, _)) => actions.push(Action::Dial { addr }),
                _ => actions.push(Action::Fail(WorkerError::UnsupportedScheme)),
            },
            InternalCommand::PeerCmd { addr, cmd } => {
                let a = self.send(&addr, &cmd);
                actions.push(a);
            },
        }
        assert(action_views(actions@) =~= command_step(self@, cmd@));
        actions
    }
}

} // verus!
