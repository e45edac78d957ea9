//! The session manager: the set of connections of one offer or one fetch,
//! and every decision of the protocol.
//!
//! The manager owns no socket, no clock and no file. Its caller runs the
//! loop: it hands in what arrived (a datagram, the outcome of a handshake,
//! bytes read from the data) together with the current moment, and carries
//! out what the manager hands back (datagrams to transmit, bytes to write,
//! a place to read from). Events for the host collect in `messages`.
use crate::connection::{fresh_connection, Connection, ConnectionView};
use crate::entropy::{random_port, random_session, random_token};
use crate::mesage::{messages_view, Message, MessageView};
use crate::packets::{
    decode_wire, wire_bytes, Auth, AuthResponse, AuthView, Headers, HeadersView, Packet,
    PacketView, Packets, PacketsView,
};
use crate::packets::round_trip::{lemma_decode_encode, plain_text};
use crate::pak_storage::Millis;
use crate::share::{parse_share, parse_share_text, share_text, share_url};
use crate::wire::{enc_string, string_to_bytes};
use vstd::prelude::*;
use vstd::string::StringExecFns;

verus! {

/// What this side does with the data.
#[derive(Debug, PartialEq, Eq, Clone, Copy)]
pub enum Should {
    /// Offers the data to whoever asks with the right path and secret.
    Send,
    /// Fetches the data.
    Recv,
    /// Both ways. Received data is taken as under [`Should::Recv`]; nothing
    /// is offered.
    Sync,
}

/// The role that the host's setting `name` stands for: `Send`, `Recv` or
/// `Sync`; anything else stands for [`Should::Send`].
pub open spec fn role_named(name: Seq<char>) -> Should {
    if name == "Recv"@ {
        Should::Recv
    } else if name == "Sync"@ {
        Should::Sync
    } else {
        Should::Send
    }
}

impl Should {
    /// The role that the host's setting `name` stands for.
    pub fn from_name(name: &str) -> (should: Should)
        ensures
            should == role_named(name@),
    {
        let given = String::from_str(name);
        if given == String::from_str("Recv") {
            Should::Recv
        } else if given == String::from_str("Sync") {
            Should::Sync
        } else {
            Should::Send
        }
    }
}

/// Why a handshake came to nothing.
#[derive(Debug, PartialEq, Eq, Clone, Copy)]
pub enum ConnectingError {
    FailOnConnect,
    InvalidAuth,
    AuthFailed,
    DomainAdressCannotBeFound,
    InvalidPacket,
    InvalidFilePath,
}

/// Why a manager could not register with the relays.
#[derive(Debug, PartialEq, Eq, Clone, Copy)]
pub enum BindError {
    /// No relay was named.
    NoRelays,
    /// None of the relays could be reached.
    NoConnections,
}

/// The name of a [`BindError`].
pub open spec fn bind_error_text(error: BindError) -> Seq<char> {
    match error {
        BindError::NoRelays => "NoRelays"@,
        BindError::NoConnections => "NoConnections"@,
    }
}

impl BindError {
    /// The name of this failure.
    pub fn message(&self) -> (text: String)
        ensures
            text@ == bind_error_text(*self),
    {
        match self {
            BindError::NoRelays => String::from_str("NoRelays"),
            BindError::NoConnections => String::from_str("NoConnections"),
        }
    }
}

/// Why a request could not be made.
#[derive(Debug, PartialEq, Eq, Clone, Copy)]
pub enum ConnectError {
    /// The share address names no offer.
    InvalidUrl,
    /// A handshake is under way; the request has to wait for it.
    Busy,
    /// The relays do not know where the peer is.
    NotFound,
    /// The peer could not be reached.
    Unreachable,
}

/// The application tag under which peers of this transport find each other.
pub open spec fn client_tag() -> Seq<char> {
    "muzzman-transport"@
}

/// The application tag under which peers of this transport find each other.
pub fn client_name() -> (tag: String)
    ensures
        tag@ == client_tag(),
{
    String::from_str("muzzman-transport")
}

/// The text that a failed handshake puts before the user.
pub open spec fn error_text(error: ConnectingError) -> Seq<char> {
    match error {
        ConnectingError::FailOnConnect => "Cannot connect!"@,
        ConnectingError::InvalidAuth => "Invalid request!"@,
        ConnectingError::AuthFailed => "Invalid secret or path!"@,
        ConnectingError::DomainAdressCannotBeFound => "Address cannot be found!"@,
        ConnectingError::InvalidPacket => "Invalid packet!"@,
        ConnectingError::InvalidFilePath => "Invalid file path!"@,
    }
}

impl ConnectingError {
    /// The text that this failure puts before the user.
    pub fn message(&self) -> (text: String)
        ensures
            text@ == error_text(*self),
    {
        match self {
            ConnectingError::FailOnConnect => String::from_str("Cannot connect!"),
            ConnectingError::InvalidAuth => String::from_str("Invalid request!"),
            ConnectingError::AuthFailed => String::from_str("Invalid secret or path!"),
            ConnectingError::DomainAdressCannotBeFound => String::from_str(
                "Address cannot be found!",
            ),
            ConnectingError::InvalidPacket => String::from_str("Invalid packet!"),
            ConnectingError::InvalidFilePath => String::from_str("Invalid file path!"),
        }
    }
}

/// The state of one offer or one fetch.
///
/// `public` is the token under which the relays know this side, and
/// `connecting` says whether a handshake is under way; while one is, no
/// other is begun.
#[derive(Debug, PartialEq, Clone)]
pub struct UdpManager {
    pub connections: Vec<Connection>,
    pub path: String,
    pub secret: String,
    pub should: Should,
    pub buffer_size: usize,
    pub messages: Vec<Message>,
    pub name: String,
    pub public: Vec<u8>,
    pub connecting: bool,
}

/// The connections of a manager through their views.
pub open spec fn connections_view(connections: Seq<Connection>) -> Seq<ConnectionView> {
    connections.map_values(|c: Connection| c@)
}

/// A [`UdpManager`] as plain mathematical data.
pub struct UdpManagerView {
    pub connections: Seq<ConnectionView>,
    pub path: Seq<char>,
    pub secret: Seq<char>,
    pub should: Should,
    pub buffer_size: usize,
    pub messages: Seq<MessageView>,
    pub name: Seq<char>,
    pub public: Seq<u8>,
    pub connecting: bool,
}

impl View for UdpManager {
    type V = UdpManagerView;

    open spec fn view(&self) -> UdpManagerView {
        UdpManagerView {
            connections: connections_view(self.connections@),
            path: self.path@,
            secret: self.secret@,
            should: self.should,
            buffer_size: self.buffer_size,
            messages: messages_view(self.messages@),
            name: self.name@,
            public: self.public@,
            connecting: self.connecting,
        }
    }
}

impl UdpManagerView {
    /// Every connection is well formed.
    pub open spec fn wf(self) -> bool {
        forall|i: int| 0 <= i < self.connections.len() ==> (#[trigger] self.connections[i]).wf()
    }
}

/// What a fresh manager tells the host: on the offering side the share
/// address, else nothing.
pub open spec fn first_messages(
    should: Should,
    public: Seq<u8>,
    secret: Seq<char>,
    path: Seq<char>,
) -> Seq<MessageView> {
    if should is Send {
        seq![MessageView::SetShare(share_text(public, secret, path))]
    } else {
        Seq::empty()
    }
}

/// The manager that [`UdpManager::with_token`] makes.
pub open spec fn fresh_manager(
    buffer_size: usize,
    path: Seq<char>,
    should: Should,
    secret: Seq<char>,
    name: Seq<char>,
    public: Seq<u8>,
) -> UdpManagerView {
    UdpManagerView {
        connections: Seq::empty(),
        path,
        secret,
        should,
        buffer_size,
        messages: first_messages(should, public, secret, path),
        name,
        public,
        connecting: false,
    }
}

/// The manager `m` after the handshake that was under way ended with
/// `outcome` at `now`.
pub open spec fn joined(
    m: UdpManagerView,
    outcome: Result<ConnectionView, ConnectingError>,
    now: Millis,
) -> UdpManagerView {
    match outcome {
        Ok(c) => UdpManagerView {
            connections: m.connections.push(ConnectionView { last_action: now, ..c }),
            messages: m.messages.push(MessageView::New(c.name, c.session, c.peer)),
            connecting: false,
            ..m
        },
        Err(e) => UdpManagerView {
            messages: m.messages.push(MessageView::Error(error_text(e))),
            connecting: false,
            ..m
        },
    }
}

/// The outcome of a handshake through the view of the connection.
pub open spec fn outcome_view(outcome: Result<Connection, ConnectingError>) -> Result<
    ConnectionView,
    ConnectingError,
> {
    match outcome {
        Ok(c) => Ok(c@),
        Err(e) => Err(e),
    }
}

/// The window of a packet sent before anything was received: 32 times `0`.
pub open spec fn empty_window() -> Seq<u16> {
    Seq::new(32, |i: int| 0u16)
}

/// The packet with which a requester asks for `path` under `secret`.
pub open spec fn auth_packet(name: Seq<char>, path: Seq<char>, secret: Seq<char>) -> PacketView {
    PacketView {
        id: 0,
        packets: empty_window(),
        packet: PacketsView::Auth(AuthView { name, path, secret }),
    }
}

/// The packet that turns down the request that came as packet `id`.
pub open spec fn refusal_packet(id: u16) -> PacketView {
    PacketView {
        id: 2,
        packets: empty_window().update(0, id),
        packet: PacketsView::AuthResponse(AuthResponse { accepted: false, session: 0 }),
    }
}

/// What a requester needs to open a transfer: the token of the peer to ask
/// the relays for, the local port to offer, and the datagram that asks.
#[derive(Debug, PartialEq, Clone)]
pub struct Request {
    pub adress: Vec<u8>,
    pub port: u16,
    pub auth: Vec<u8>,
}

/// Where the requester's handshake stands after a datagram.
#[derive(Debug, PartialEq, Clone)]
pub enum Handshake {
    /// The datagram was no answer: go on listening.
    Wait,
    /// The peer accepted: the connection is open.
    Done(Connection),
    /// The handshake failed.
    Failed(ConnectingError),
}

/// Where the offering side's handshake stands after a datagram.
#[derive(Debug, PartialEq, Clone)]
pub enum Answer {
    /// The datagram was no request: go on listening.
    Wait,
    /// The request is turned down with the given datagram.
    Reject(Vec<u8>, ConnectingError),
    /// The request is granted: the connection, and the datagrams that say
    /// so, in the order in which they go out.
    Accept(Connection, Vec<Vec<u8>>),
}

/// What the requester makes of the packet `answer`, if the datagram held
/// one (see [`UdpManager::answer_received`]).
pub enum HandshakeView {
    Wait,
    Done(ConnectionView),
    Failed(ConnectingError),
}

impl View for Handshake {
    type V = HandshakeView;

    open spec fn view(&self) -> HandshakeView {
        match *self {
            Handshake::Wait => HandshakeView::Wait,
            Handshake::Done(c) => HandshakeView::Done(c@),
            Handshake::Failed(e) => HandshakeView::Failed(e),
        }
    }
}

/// The standing of the requester's handshake after the datagram `wire`
/// from `peer` at `now`.
pub open spec fn handshake_after(wire: Seq<u8>, peer: Seq<char>, now: Millis) -> HandshakeView {
    match decode_wire(wire) {
        None => HandshakeView::Failed(ConnectingError::InvalidPacket),
        Some(p) => match p.packet {
            PacketsView::AuthResponse(r) => if r.accepted {
                HandshakeView::Done(fresh_connection("Server"@, peer, r.session, now))
            } else {
                HandshakeView::Failed(ConnectingError::AuthFailed)
            },
            _ => HandshakeView::Wait,
        },
    }
}

/// [`Answer`] as mathematical data; datagrams stand as the packets they
/// carry.
pub enum AnswerView {
    Wait,
    Reject(PacketView, ConnectingError),
    Accept(ConnectionView, Seq<PacketView>),
}

/// The connection that the offering side opens for the request `p`, which
/// carried `auth`, before anything is sent on it.
pub open spec fn opened(
    p: PacketView,
    auth: AuthView,
    peer: Seq<char>,
    session: u128,
    now: Millis,
) -> ConnectionView {
    fresh_connection(auth.name, peer, session, now).recorded(p.id).merged(p.packets)
}

/// The standing of the offering side's handshake after the datagram `wire`
/// from `peer` at `now`, where the offer is `path` under `secret`, the data
/// has `sink_len` bytes (`None`: its size cannot be found), and `session` is
/// the identifier for a transfer that is opened.
pub open spec fn answer_after(
    wire: Seq<u8>,
    path: Seq<char>,
    secret: Seq<char>,
    peer: Seq<char>,
    sink_len: Option<u128>,
    session: u128,
    now: Millis,
) -> AnswerView {
    match decode_wire(wire) {
        None => AnswerView::Wait,
        Some(p) => match p.packet {
            PacketsView::Auth(auth) => if auth.path != path || auth.secret != secret {
                AnswerView::Reject(refusal_packet(p.id), ConnectingError::InvalidAuth)
            } else {
                let c = opened(p, auth, peer, session, now);
                match sink_len {
                    None => AnswerView::Reject(
                        c.packet_for(
                            PacketsView::AuthResponse(
                                AuthResponse { accepted: false, session: 0 },
                            ),
                        ),
                        ConnectingError::InvalidFilePath,
                    ),
                    Some(len) => {
                        let c1 = ConnectionView { content_length: len, ..c };
                        let yes = PacketsView::AuthResponse(
                            AuthResponse { accepted: true, session },
                        );
                        let c2 = c1.sent(yes, now);
                        let headers = PacketsView::Headers(
                            HeadersView { session, content_length: len, others: Seq::empty() },
                        );
                        AnswerView::Accept(
                            c2.sent(headers, now),
                            seq![c1.packet_for(yes), c2.packet_for(headers)],
                        )
                    },
                }
            },
            _ => AnswerView::Wait,
        },
    }
}

/// `answer` is what `view` says, datagram for packet.
pub open spec fn answer_is(answer: Answer, view: AnswerView) -> bool {
    match view {
        AnswerView::Wait => answer is Wait,
        AnswerView::Reject(p, e) => {
            &&& answer matches Answer::Reject(wire, error)
            &&& wire@ == wire_bytes(p)
            &&& error == e
        },
        AnswerView::Accept(c, ps) => {
            &&& answer matches Answer::Accept(connection, wires)
            &&& connection@ == c
            &&& connection@.wf()
            &&& wires@.len() == ps.len()
            &&& forall|k: int| 0 <= k < ps.len() ==> (#[trigger] wires@[k])@ == wire_bytes(ps[k])
        },
    }
}

impl UdpManager {
    /// A manager for the offer or fetch of `path` under `secret`, known to
    /// the relays by the token `public`. On the offering side its queue
    /// holds the share address.
    pub fn with_token(
        buffer_size: usize,
        path: String,
        should: Should,
        secret: String,
        name: String,
        public: Vec<u8>,
    ) -> (manager: UdpManager)
        ensures
            manager@ == fresh_manager(buffer_size, path@, should, secret@, name@, public@),
            manager@.wf(),
    {
        let mut messages: Vec<Message> = Vec::new();
        match should {
            Should::Send => {
                let url = share_url(&public, secret.as_str(), path.as_str());
                messages.push(Message::SetShare(url));
            },
            _ => {},
        }
        let manager = UdpManager {
            connections: Vec::new(),
            path,
            secret,
            should,
            buffer_size,
            messages,
            name,
            public,
            connecting: false,
        };
        assert(manager@.messages =~= first_messages(should, public@, secret@, path@));
        assert(manager@.connections =~= Seq::<ConnectionView>::empty());
        manager
    }

    /// A manager for the offer or fetch of `path` under `secret`, with a
    /// fresh random token of 16 bytes. There must be a relay to register
    /// with: without one the result is [`BindError::NoRelays`].
    pub fn new(
        buffer_size: usize,
        path: String,
        should: Should,
        secret: String,
        relays: Vec<String>,
        name: String,
    ) -> (made: Result<UdpManager, BindError>)
        ensures
            match made {
                Ok(manager) => relays@.len() > 0 && manager@.public.len() == 16 && manager@
                    == fresh_manager(
                    buffer_size,
                    path@,
                    should,
                    secret@,
                    name@,
                    manager@.public,
                ) && manager@.wf(),
                Err(error) => relays@.len() == 0 && error == BindError::NoRelays,
            },
    {
        if relays.len() == 0 {
            return Err(BindError::NoRelays);
        }
        let public = random_token();
        Ok(UdpManager::with_token(buffer_size, path, should, secret, name, public))
    }

    /// What this side tells the relays about its offer: the text `File: `
    /// followed by the path, encoded as a string.
    pub fn description(&self) -> (bytes: Vec<u8>)
        ensures
            bytes@ == enc_string("File: "@ + self@.path),
    {
        let mut text = String::from_str("File: ");
        text.append(self.path.as_str());
        string_to_bytes(&text)
    }

    /// Whether a request from a peer that advertises the application tag
    /// `client` is taken up (`None`: the relays know nothing of the peer).
    pub fn accept_request(client: Option<&str>) -> (accepted: bool)
        ensures
            accepted == match client {
                Some(tag) => tag@ == client_tag(),
                None => false,
            },
    {
        match client {
            Some(tag) => {
                let own = client_name();
                let theirs = String::from_str(tag);
                own == theirs
            },
            None => false,
        }
    }

    /// Whether requests of peers are taken up now: on the offering side,
    /// and only while no handshake is under way.
    pub fn polls_requests(&self) -> (polls: bool)
        ensures
            polls == (self@.should is Send && !self@.connecting),
    {
        match self.should {
            Should::Send => !self.connecting,
            _ => false,
        }
    }

    /// A local port to offer the peer for the connection.
    pub fn ephemeral_port() -> (port: u16)
        ensures
            1025 <= port < 0xffff,
    {
        random_port()
    }

    /// Prepares a request for the offer behind the share address `url`.
    /// While a handshake is under way the request is put off
    /// ([`ConnectError::Busy`]); an address that names no offer is
    /// [`ConnectError::InvalidUrl`].
    pub fn send_request(&self, url: &str) -> (request: Result<Request, ConnectError>)
        ensures
            match request {
                Ok(r) => {
                    &&& !self.connecting
                    &&& 1025 <= r.port < 0xffff
                    &&& parse_share_text(url@) matches Some(target)
                    &&& r.adress@ == target.adress
                    &&& r.auth@ == wire_bytes(auth_packet(self@.name, target.path, target.secret))
                },
                Err(e) => if self.connecting {
                    e == ConnectError::Busy
                } else {
                    e == ConnectError::InvalidUrl && parse_share_text(url@) is None
                },
            },
    {
        if self.connecting {
            return Err(ConnectError::Busy);
        }
        let target = match parse_share(url) {
            Some(t) => t,
            None => return Err(ConnectError::InvalidUrl),
        };
        let window: Vec<u16> = vec![0u16; 32];
        assert(window@ =~= empty_window());
        let packet = Packet {
            id: 0,
            packets: window,
            packet: Packets::Auth(
                Auth { name: self.name.clone(), path: target.path, secret: target.secret },
            ),
        };
        let auth = packet.encode();
        Ok(Request { adress: target.adress, port: UdpManager::ephemeral_port(), auth })
    }

    /// Notes that a handshake is under way.
    pub fn begin_connecting(&mut self)
        ensures
            final(self)@ == (UdpManagerView { connecting: true, ..old(self)@ }),
    {
        self.connecting = true;
    }

    /// What the requester makes of a datagram that arrives from `peer`
    /// while it waits for the answer to its request: a datagram that is no
    /// packet fails the handshake, an answer opens the connection or fails
    /// it, and any other packet is passed over.
    pub fn answer_received(datagram: &[u8], peer: String, now: Millis) -> (standing: Handshake)
        ensures
            standing@ == handshake_after(datagram@, peer@, now),
            standing matches Handshake::Done(c) ==> c@.wf(),
    {
        match Packet::decode(datagram) {
            Err(_) => Handshake::Failed(ConnectingError::InvalidPacket),
            Ok(packet) => match packet.packet {
                Packets::AuthResponse(r) => {
                    if r.accepted {
                        Handshake::Done(
                            Connection::new(String::from_str("Server"), peer, r.session, now),
                        )
                    } else {
                        Handshake::Failed(ConnectingError::AuthFailed)
                    }
                },
                _ => Handshake::Wait,
            },
        }
    }

    /// What the offering side makes of a datagram that arrives from `peer`
    /// while it waits for a request, given the size of the data and the
    /// identifier for the session (see [`answer_after`]).
    pub fn request_received_with(
        &self,
        datagram: &[u8],
        peer: String,
        sink_len: Option<u128>,
        session: u128,
        now: Millis,
    ) -> (answer: Answer)
        ensures
            answer_is(
                answer,
                answer_after(
                    datagram@,
                    self@.path,
                    self@.secret,
                    peer@,
                    sink_len,
                    session,
                    now,
                ),
            ),
    {
        let packet = match Packet::decode(datagram) {
            Ok(p) => p,
            Err(_) => return Answer::Wait,
        };
        let ghost p = packet@;
        let id = packet.id;
        match packet.packet {
            Packets::Auth(auth) => {
                if auth.path != self.path || auth.secret != self.secret {
                    let mut window: Vec<u16> = vec![0u16; 32];
                    window.set(0, id);
                    assert(window@ =~= empty_window().update(0, id));
                    let refusal = Packet {
                        id: 2,
                        packets: window,
                        packet: Packets::AuthResponse(
                            AuthResponse { accepted: false, session: 0 },
                        ),
                    };
                    return Answer::Reject(refusal.encode(), ConnectingError::InvalidAuth);
                }
                let ghost a = auth@;
                let mut connection = Connection::new(auth.name, peer, session, now);
                connection.add_id(id);
                connection.add_packets(packet.packets.as_slice());
                assert(connection@ == opened(p, a, peer@, session, now));
                match sink_len {
                    None => {
                        let wire = connection.send(
                            Packets::AuthResponse(AuthResponse { accepted: false, session: 0 }),
                            now,
                        );
                        Answer::Reject(wire, ConnectingError::InvalidFilePath)
                    },
                    Some(len) => {
                        connection.content_length = len;
                        let mut wires: Vec<Vec<u8>> = Vec::new();
                        let yes = connection.send(
                            Packets::AuthResponse(AuthResponse { accepted: true, session }),
                            now,
                        );
                        wires.push(yes);
                        let others: Vec<(String, String)> = Vec::new();
                        let headers = Headers { session, content_length: len, others };
                        assert(headers@.others =~= Seq::empty());
                        let announce = connection.send(Packets::Headers(headers), now);
                        wires.push(announce);
                        Answer::Accept(connection, wires)
                    },
                }
            },
            _ => Answer::Wait,
        }
    }

    /// What the offering side makes of a datagram that arrives from `peer`
    /// while it waits for a request. A transfer that is opened gets a fresh
    /// random session identifier.
    pub fn request_received(
        &self,
        datagram: &[u8],
        peer: String,
        sink_len: Option<u128>,
        now: Millis,
    ) -> (answer: Answer)
        ensures
            exists|session: u128|
                answer_is(
                    answer,
                    #[trigger] answer_after(
                        datagram@,
                        self@.path,
                        self@.secret,
                        peer@,
                        sink_len,
                        session,
                        now,
                    ),
                ),
    {
        let session = random_session();
        self.request_received_with(datagram, peer, sink_len, session, now)
    }

    /// Takes in the outcome of the handshake that was under way. A
    /// connection counts as heard at `now`, joins the set, and is announced
    /// to the host; a failure is reported to the host in words. Either way
    /// no handshake is under way any more.
    pub fn finish_connecting(&mut self, outcome: Result<Connection, ConnectingError>, now: Millis)
        requires
            old(self)@.wf(),
            outcome matches Ok(c) ==> c@.wf(),
        ensures
            final(self)@.wf(),
            final(self)@ == joined(old(self)@, outcome_view(outcome), now),
    {
        let ghost before = *self;
        self.connecting = false;
        match outcome {
            Ok(mut connection) => {
                connection.last_action = now;
                self.messages.push(
                    Message::New(
                        connection.name.clone(),
                        connection.session,
                        connection.peer.clone(),
                    ),
                );
                self.connections.push(connection);
                assert(self@.connections =~= before@.connections.push(connection@));
                assert(self@.messages =~= before@.messages.push(
                    MessageView::New(connection@.name, connection@.session, connection@.peer),
                ));
            },
            Err(e) => {
                self.messages.push(Message::Error(e.message()));
                assert(self@.messages =~= before@.messages.push(MessageView::Error(error_text(e))));
            },
        }
    }
}

/// A request for the very path and secret that are offered is granted,
/// where the size of the data is known and the texts are plain.
pub proof fn lemma_matching_request_is_granted(
    name: Seq<char>,
    path: Seq<char>,
    secret: Seq<char>,
    peer: Seq<char>,
    len: u128,
    session: u128,
    now: Millis,
)
    requires
        plain_text(name),
        plain_text(path),
        plain_text(secret),
    ensures
        answer_after(
            wire_bytes(auth_packet(name, path, secret)),
            path,
            secret,
            peer,
            Some(len),
            session,
            now,
        ) is Accept,
{
    lemma_decode_encode(auth_packet(name, path, secret));
}

/// A request for another path or with another secret is turned down, and
/// the requester who receives the refusal sees the handshake fail with
/// [`ConnectingError::AuthFailed`]: no connection is opened on either side.
pub proof fn lemma_wrong_request_is_refused(
    name: Seq<char>,
    asked_path: Seq<char>,
    asked_secret: Seq<char>,
    path: Seq<char>,
    secret: Seq<char>,
    peer: Seq<char>,
    sink_len: Option<u128>,
    session: u128,
    now: Millis,
)
    requires
        plain_text(name),
        plain_text(asked_path),
        plain_text(asked_secret),
        asked_path != path || asked_secret != secret,
    ensures
        answer_after(
            wire_bytes(auth_packet(name, asked_path, asked_secret)),
            path,
            secret,
            peer,
            sink_len,
            session,
            now,
        ) == AnswerView::Reject(refusal_packet(0), ConnectingError::InvalidAuth),
        handshake_after(wire_bytes(refusal_packet(0)), peer, now) == HandshakeView::Failed(
            ConnectingError::AuthFailed,
        ),
{
    lemma_decode_encode(auth_packet(name, asked_path, asked_secret));
    lemma_decode_encode(refusal_packet(0));
}

/// The requester who receives the first datagram of a granted request
/// opens the connection of the session that the offering side chose.
pub proof fn lemma_granted_answer_opens(
    c: ConnectionView,
    session: u128,
    peer: Seq<char>,
    now: Millis,
)
    requires
        c.wf(),
    ensures
        handshake_after(
            wire_bytes(
                c.packet_for(
                    PacketsView::AuthResponse(AuthResponse { accepted: true, session }),
                ),
            ),
            peer,
            now,
        ) == HandshakeView::Done(fresh_connection("Server"@, peer, session, now)),
{
    lemma_decode_encode(
        c.packet_for(PacketsView::AuthResponse(AuthResponse { accepted: true, session })),
    );
}

} // verus!
