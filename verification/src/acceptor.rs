//! The accept loop of the server, as a state machine.
//!
//! The loop outside reports what happened as an [`Event`] and performs the
//! [`Action`] that comes back. With a secret, a connection is accepted only after
//! its ClientHello has been inspected and found to carry a valid token; every
//! other one is ignored, so that its peer gets no reply at all.

use crate::auth::{accepted_tokens, current_window, is_clock_window, offers_token, token};
use crate::auth::{any_token_valid_at, law_clock_skew, window_number, WINDOW_SECS};
use crate::auth::{accepted_windows, law_accepted_iff_window_token, law_token_of_reading_passes};
use crate::bytes::{slice_views, vec_views};
use crate::client_hello::{client_hello_alpn, law_encoded_is_parsed, ClientHello};
use crate::client_hello::{law_alpn_of_encoding, parse_client_hello_alpn};
use crate::clock::clock_gave;
use crate::routes::{default_target, target, Address, ServerConf};
use vstd::prelude::*;

verus! {

/// How far the server has got with the connection at hand.
#[derive(Clone, Copy, Debug, PartialEq, Eq, Structural)]
pub enum Stage {
    /// There is none.
    Idle,
    /// Its ClientHello is being read.
    Inspecting,
    /// It is being accepted.
    Accepting,
    /// The handshake is being completed.
    Handshaking,
}

/// What happened.
pub enum Event {
    /// No connection came in.
    NoConnection,
    /// A connection came in.
    Arrived,
    /// The bytes of the connection's handshake could not be read.
    HandshakeUnreadable,
    /// The bytes of the connection's handshake were read.
    HandshakeRead(Vec<u8>),
    /// The connection could not be accepted.
    AcceptFailed,
    /// The connection was accepted.
    Accepted,
    /// The handshake failed.
    HandshakeFailed,
    /// The handshake is complete. The client named the server, or did not; its
    /// address is given as text.
    Established { server_name: Option<String>, remote_ip: String },
}

/// What to do next.
#[derive(Debug)]
pub enum Action {
    /// Wait for a connection.
    AwaitConnection,
    /// Read the bytes of the connection's handshake.
    ReadHandshake,
    /// Drop the connection without a reply, then wait for another.
    Ignore,
    /// Accept the connection.
    Accept,
    /// Complete the handshake.
    AwaitHandshake,
    /// Proxy the connection, which goes by the name `sni`, then wait for another.
    Proxy { sni: String, to: Address },
}

/// The contents of an event.
pub enum EventView {
    NoConnection,
    Arrived,
    HandshakeUnreadable,
    HandshakeRead(Seq<u8>),
    AcceptFailed,
    Accepted,
    HandshakeFailed,
    Established { server_name: Option<Seq<char>>, remote_ip: Seq<char> },
}

/// The contents of an action.
pub enum ActionView {
    AwaitConnection,
    ReadHandshake,
    Ignore,
    Accept,
    AwaitHandshake,
    Proxy { sni: Seq<char>, to: Address },
}

impl View for Event {
    type V = EventView;

    open spec fn view(&self) -> EventView {
        match *self {
            Event::NoConnection => EventView::NoConnection,
            Event::Arrived => EventView::Arrived,
            Event::HandshakeUnreadable => EventView::HandshakeUnreadable,
            Event::HandshakeRead(bytes) => EventView::HandshakeRead(bytes@),
            Event::AcceptFailed => EventView::AcceptFailed,
            Event::Accepted => EventView::Accepted,
            Event::HandshakeFailed => EventView::HandshakeFailed,
            Event::Established { server_name, remote_ip } => EventView::Established {
                server_name: match server_name {
                    Some(name) => Some(name@),
                    None => None,
                },
                remote_ip: remote_ip@,
            },
        }
    }
}

impl View for Action {
    type V = ActionView;

    open spec fn view(&self) -> ActionView {
        match *self {
            Action::AwaitConnection => ActionView::AwaitConnection,
            Action::ReadHandshake => ActionView::ReadHandshake,
            Action::Ignore => ActionView::Ignore,
            Action::Accept => ActionView::Accept,
            Action::AwaitHandshake => ActionView::AwaitHandshake,
            Action::Proxy { sni, to } => ActionView::Proxy { sni: sni@, to },
        }
    }
}

/// What the server decides by.
#[verifier::ext_equal]
pub struct Policy {
    /// The shared secret; without one there is no authentication.
    pub secret: Option<Seq<u8>>,
    /// The target of each server name.
    pub proxy: Map<Seq<char>, Address>,
    /// The target of every other connection.
    pub default_proxy: Address,
}

/// Whether a handshake carries a token that is accepted in window `now`.
pub open spec fn authenticates(secret: Seq<u8>, handshake: Seq<u8>, now: u64) -> bool {
    match client_hello_alpn(handshake) {
        Some(protocols) => offers_token(accepted_tokens(secret, now), protocols),
        None => false,
    }
}

/// The name that a connection goes by: the one the client gave, else its address.
pub open spec fn sni_of(server_name: Option<Seq<char>>, remote_ip: Seq<char>) -> Seq<char> {
    match server_name {
        Some(name) => name,
        None => remote_ip,
    }
}

/// Which events can happen at a stage.
pub open spec fn can_happen(stage: Stage, event: EventView) -> bool {
    match stage {
        Stage::Idle => event is NoConnection || event is Arrived,
        Stage::Inspecting => event is HandshakeUnreadable || event is HandshakeRead,
        Stage::Accepting => event is AcceptFailed || event is Accepted,
        Stage::Handshaking => event is HandshakeFailed || event is Established,
    }
}

/// The next stage and the action after an event that happened in window `now`.
pub open spec fn next(policy: Policy, event: EventView, now: u64) -> (Stage, ActionView) {
    match event {
        EventView::NoConnection => (Stage::Idle, ActionView::AwaitConnection),
        EventView::Arrived => if policy.secret is Some {
            (Stage::Inspecting, ActionView::ReadHandshake)
        } else {
            (Stage::Accepting, ActionView::Accept)
        },
        EventView::HandshakeUnreadable => (Stage::Idle, ActionView::Ignore),
        EventView::HandshakeRead(handshake) => if policy.secret is None || authenticates(
            policy.secret.unwrap(),
            handshake,
            now,
        ) {
            (Stage::Accepting, ActionView::Accept)
        } else {
            (Stage::Idle, ActionView::Ignore)
        },
        EventView::AcceptFailed => (Stage::Idle, ActionView::AwaitConnection),
        EventView::Accepted => (Stage::Handshaking, ActionView::AwaitHandshake),
        EventView::HandshakeFailed => (Stage::Idle, ActionView::AwaitConnection),
        EventView::Established { server_name, remote_ip } => {
            let sni = sni_of(server_name, remote_ip);
            let to = target(policy.proxy, policy.default_proxy, sni);
            (Stage::Idle, ActionView::Proxy { sni, to })
        },
    }
}

/// Whether a handshake carries a token that is accepted in window `now`.
pub fn handshake_valid_at(secret: &[u8], handshake: &[u8], now: u64) -> (valid: bool)
    ensures
        valid == authenticates(secret@, handshake@, now),
{
    match parse_client_hello_alpn(handshake) {
        Some(protocols) => {
            let mut offered: Vec<&[u8]> = Vec::new();
            let mut i: usize = 0;
            while i < protocols.len()
                invariant
                    i <= protocols.len(),
                    offered.len() == i,
                    forall|k: int| 0 <= k < i ==> (#[trigger] offered[k])@ == protocols[k]@,
                decreases protocols.len() - i,
            {
                offered.push(protocols[i].as_slice());
                i += 1;
            }
            proof {
                assert(slice_views(offered@) =~= vec_views(protocols@));
            }
            any_token_valid_at(secret, offered.as_slice(), now)
        },
        None => false,
    }
}

/// The accept loop's state.
pub struct Acceptor {
    auth_secret: Option<Vec<u8>>,
    conf: ServerConf,
    default_proxy: Address,
    stage: Stage,
}

impl Acceptor {
    /// What the acceptor decides by.
    pub closed spec fn policy(&self) -> Policy {
        Policy {
            secret: match self.auth_secret {
                Some(s) => Some(s@),
                None => None,
            },
            proxy: self.conf@,
            default_proxy: self.default_proxy,
        }
    }

    /// How far it has got with the connection at hand.
    pub closed spec fn stage(&self) -> Stage {
        self.stage
    }

    /// An acceptor that waits for its first connection. `proxy_to` is the target
    /// that the options give for connections that no name routes.
    pub fn new(
        auth_secret: Option<Vec<u8>>,
        conf: ServerConf,
        proxy_to: Option<Address>,
    ) -> (acceptor: Self)
        ensures
            acceptor.stage() == Stage::Idle,
            acceptor.policy().secret == (match auth_secret {
                Some(s) => Some(s@),
                None => None,
            }),
            acceptor.policy().proxy == conf@,
            acceptor.policy().default_proxy == default_target(conf@, proxy_to),
    {
        let default_proxy = conf.default_proxy(proxy_to);
        Acceptor { auth_secret, conf, default_proxy, stage: Stage::Idle }
    }

    /// The target for connections that no name routes.
    pub fn default_proxy(&self) -> (address: Address)
        ensures
            address == self.policy().default_proxy,
    {
        self.default_proxy
    }

    /// Whether `event` can happen now.
    pub fn expects(&self, event: &Event) -> (expected: bool)
        ensures
            expected == can_happen(self.stage(), event@),
    {
        match (self.stage, event) {
            (Stage::Idle, Event::NoConnection) => true,
            (Stage::Idle, Event::Arrived) => true,
            (Stage::Inspecting, Event::HandshakeUnreadable) => true,
            (Stage::Inspecting, Event::HandshakeRead(_)) => true,
            (Stage::Accepting, Event::AcceptFailed) => true,
            (Stage::Accepting, Event::Accepted) => true,
            (Stage::Handshaking, Event::HandshakeFailed) => true,
            (Stage::Handshaking, Event::Established { .. }) => true,
            _ => false,
        }
    }

    /// Takes the step that follows from an event that happened in window `now`.
    pub fn step_at(&mut self, event: Event, now: u64) -> (action: Action)
        requires
            can_happen(old(self).stage(), event@),
        ensures
            (final(self).stage(), action@) == next(old(self).policy(), event@, now),
            final(self).policy() == old(self).policy(),
    {
        match event {
            Event::NoConnection => {
                self.stage = Stage::Idle;
                Action::AwaitConnection
            },
            Event::Arrived => if self.auth_secret.is_some() {
                self.stage = Stage::Inspecting;
                Action::ReadHandshake
            } else {
                self.stage = Stage::Accepting;
                Action::Accept
            },
            Event::HandshakeUnreadable => {
                self.stage = Stage::Idle;
                Action::Ignore
            },
            Event::HandshakeRead(handshake) => {
                let valid = match &self.auth_secret {
                    Some(secret) => handshake_valid_at(
                        secret.as_slice(),
                        handshake.as_slice(),
                        now,
                    ),
                    None => true,
                };
                if valid {
                    self.stage = Stage::Accepting;
                    Action::Accept
                } else {
                    self.stage = Stage::Idle;
                    Action::Ignore
                }
            },
            Event::AcceptFailed => {
                self.stage = Stage::Idle;
                Action::AwaitConnection
            },
            Event::Accepted => {
                self.stage = Stage::Handshaking;
                Action::AwaitHandshake
            },
            Event::HandshakeFailed => {
                self.stage = Stage::Idle;
                Action::AwaitConnection
            },
            Event::Established { server_name, remote_ip } => {
                let sni = match server_name {
                    Some(name) => name,
                    None => remote_ip,
                };
                let to = self.conf.proxy_for(sni.as_str(), self.default_proxy);
                self.stage = Stage::Idle;
                Action::Proxy { sni, to }
            },
        }
    }

    /// Takes the step that follows from an event that happened right now: in the
    /// window of the reading that the clock gives.
    pub fn step(&mut self, event: Event) -> (action: Action)
        requires
            can_happen(old(self).stage(), event@),
        ensures
            exists|now: u64|
                #![trigger next(old(self).policy(), event@, now)]
                is_clock_window(now) && (final(self).stage(), action@) == next(
                    old(self).policy(),
                    event@,
                    now,
                ),
            exists|elapsed: Option<u64>|
                #[trigger] clock_gave(elapsed) && (final(self).stage(), action@) == next(
                    old(self).policy(),
                    event@,
                    window_number(elapsed),
                ),
            final(self).policy() == old(self).policy(),
    {
        let now = current_window();
        self.step_at(event, now)
    }
}

/// The stage at which event `i` of `trace` happens, from a start without a
/// connection. Each event stands with the window in which it happened.
pub open spec fn stage_before(policy: Policy, trace: Seq<(EventView, u64)>, i: int) -> Stage {
    if i == 0 {
        Stage::Idle
    } else {
        next(policy, trace[i - 1].0, trace[i - 1].1).0
    }
}

/// Whether event `i` of `trace` can happen after the ones before it.
pub open spec fn is_step(policy: Policy, trace: Seq<(EventView, u64)>, i: int) -> bool {
    can_happen(stage_before(policy, trace, i), trace[i].0)
}

/// Whether the events of `trace` can happen one after the other.
pub open spec fn is_run(policy: Policy, trace: Seq<(EventView, u64)>) -> bool {
    forall|i: int| 0 <= i < trace.len() ==> #[trigger] is_step(policy, trace, i)
}

/// Whether an action lets the peer see that a server is there.
pub open spec fn answers(action: ActionView) -> bool {
    action is Accept || action is AwaitHandshake || action is Proxy
}

/// Whether event `k` of `trace` is a handshake with a valid token.
pub open spec fn authenticated_at(
    secret: Seq<u8>,
    trace: Seq<(EventView, u64)>,
    k: int,
) -> bool {
    trace[k].0 matches EventView::HandshakeRead(handshake) && authenticates(
        secret,
        handshake,
        trace[k].1,
    )
}

/// With a secret, the event ahead of the acceptance of a connection is a
/// handshake with a valid token.
proof fn lemma_accepting_authenticated(
    policy: Policy,
    secret: Seq<u8>,
    trace: Seq<(EventView, u64)>,
    i: int,
)
    requires
        policy.secret == Some(secret),
        0 <= i <= trace.len(),
        stage_before(policy, trace, i) == Stage::Accepting,
    ensures
        i > 0,
        authenticated_at(secret, trace, i - 1),
{
}

/// The event ahead of the completion of a handshake is an acceptance.
proof fn lemma_handshaking_accepted(policy: Policy, trace: Seq<(EventView, u64)>, i: int)
    requires
        0 <= i <= trace.len(),
        stage_before(policy, trace, i) == Stage::Handshaking,
    ensures
        i > 0,
        trace[i - 1].0 is Accepted,
{
}

/// With a secret, a peer is answered only after the server has read from that
/// very connection a handshake with a valid token: no other connection has
/// arrived since.
pub proof fn law_only_authenticated_answered(
    policy: Policy,
    secret: Seq<u8>,
    trace: Seq<(EventView, u64)>,
)
    requires
        policy.secret == Some(secret),
        is_run(policy, trace),
        trace.len() > 0,
        answers(next(policy, trace.last().0, trace.last().1).1),
    ensures
        exists|k: int|
            0 <= k < trace.len() && #[trigger] authenticated_at(secret, trace, k) && (forall|j: int|
                k < j < trace.len() ==> !((#[trigger] trace[j]).0 is Arrived)),
{
    let n = trace.len() as int;
    let last = trace[n - 1].0;
    assert(is_step(policy, trace, n - 1));
    let k = if last is HandshakeRead {
        n - 1
    } else if last is Accepted {
        lemma_accepting_authenticated(policy, secret, trace, n - 1);
        n - 2
    } else {
        lemma_handshaking_accepted(policy, trace, n - 1);
        assert(is_step(policy, trace, n - 2));
        lemma_accepting_authenticated(policy, secret, trace, n - 2);
        n - 3
    };
    assert(authenticated_at(secret, trace, k));
}

/// With a secret, a handshake that cannot be read or that carries no valid token
/// is dropped without a reply: one that is no ClientHello, has no ALPN extension,
/// or lists none of the accepted tokens.
pub proof fn law_unauthenticated_dropped(policy: Policy, secret: Seq<u8>, bytes: Seq<u8>, now: u64)
    requires
        policy.secret == Some(secret),
        client_hello_alpn(bytes) matches Some(protocols) ==> !offers_token(
            accepted_tokens(secret, now),
            protocols,
        ),
    ensures
        next(policy, EventView::HandshakeRead(bytes), now) == (Stage::Idle, ActionView::Ignore),
        next(policy, EventView::HandshakeUnreadable, now) == (Stage::Idle, ActionView::Ignore),
{
}

/// A ClientHello that lists the token of the client's window is accepted by a
/// server whose clock differs from the client's by at most `WINDOW_SECS`.
pub proof fn law_authenticated_accepted(
    policy: Policy,
    secret: Seq<u8>,
    hello: ClientHello,
    client: u64,
    server: u64,
)
    requires
        policy.secret == Some(secret),
        hello.wf(),
        hello.protocols.contains(token(secret, window_number(Some(client)))),
        client <= server + WINDOW_SECS,
        server <= client + WINDOW_SECS,
    ensures
        next(
            policy,
            EventView::HandshakeRead(hello.encode()),
            window_number(Some(server)),
        ) == (Stage::Accepting, ActionView::Accept),
{
    law_encoded_is_parsed(hello);
    law_clock_skew(secret, client, server, hello.protocols);
}

/// Without a secret, every connection that arrives is accepted, and none is ever
/// ignored.
pub proof fn law_open_without_secret(policy: Policy, trace: Seq<(EventView, u64)>)
    requires
        policy.secret is None,
        is_run(policy, trace),
        trace.len() > 0,
    ensures
        trace.last().0 is Arrived ==> next(policy, trace.last().0, trace.last().1) == (
            Stage::Accepting,
            ActionView::Accept,
        ),
        !(next(policy, trace.last().0, trace.last().1).1 is Ignore),
{
    assert(is_step(policy, trace, trace.len() - 1));
}

/// Events and actions stand for what they hold, and nothing else: the bytes of a
/// handshake, the names and addresses of a connection.
pub proof fn law_views_hold_contents(
    handshake: Vec<u8>,
    server_name: String,
    remote_ip: String,
    to: Address,
)
    ensures
        Event::NoConnection@ is NoConnection,
        Event::Arrived@ is Arrived,
        Event::HandshakeUnreadable@ is HandshakeUnreadable,
        Event::HandshakeRead(handshake)@ == EventView::HandshakeRead(handshake@),
        Event::AcceptFailed@ is AcceptFailed,
        Event::Accepted@ is Accepted,
        Event::HandshakeFailed@ is HandshakeFailed,
        (Event::Established { server_name: Some(server_name), remote_ip })@ == (
        EventView::Established { server_name: Some(server_name@), remote_ip: remote_ip@ }),
        (Event::Established { server_name: None, remote_ip })@ == (EventView::Established {
            server_name: None,
            remote_ip: remote_ip@,
        }),
        Action::AwaitConnection@ is AwaitConnection,
        Action::ReadHandshake@ is ReadHandshake,
        Action::Ignore@ is Ignore,
        Action::Accept@ is Accept,
        Action::AwaitHandshake@ is AwaitHandshake,
        (Action::Proxy { sni: server_name, to })@ == (ActionView::Proxy { sni: server_name@, to }),
{
}

/// Every event can happen at one stage only.
pub proof fn law_one_stage(stage: Stage, event: EventView)
    ensures
        can_happen(stage, event) <==> {
            ||| stage == Stage::Idle && (event is NoConnection || event is Arrived)
            ||| stage == Stage::Inspecting && (event is HandshakeUnreadable || event
                is HandshakeRead)
            ||| stage == Stage::Accepting && (event is AcceptFailed || event is Accepted)
            ||| stage == Stage::Handshaking && (event is HandshakeFailed || event is Established)
        },
{
}

/// The stage is that of the action which the acceptor has asked for: while a
/// handshake is read, a connection accepted or a handshake completed, the server
/// is at the stage of that work, and otherwise it waits for a connection.
pub proof fn law_stage_of_action(policy: Policy, event: EventView, now: u64)
    ensures
        ({
            let (stage, action) = next(policy, event, now);
            &&& stage == Stage::Inspecting <==> action is ReadHandshake
            &&& stage == Stage::Accepting <==> action is Accept
            &&& stage == Stage::Handshaking <==> action is AwaitHandshake
            &&& stage == Stage::Idle <==> (action is AwaitConnection || action is Ignore || action
                is Proxy)
        }),
{
}

/// A handshake is asked for exactly when a connection arrives and there is a
/// secret; it is completed exactly after an acceptance; and the server turns to
/// the next connection exactly when there is none or the one at hand failed.
pub proof fn law_connection_progress(policy: Policy, event: EventView, now: u64)
    ensures
        next(policy, event, now).1 is ReadHandshake <==> event is Arrived && policy.secret is Some,
        next(policy, event, now).1 is AwaitHandshake <==> event is Accepted,
        next(policy, event, now).1 is AwaitConnection <==> (event is NoConnection || event
            is AcceptFailed || event is HandshakeFailed),
        next(policy, event, now).1 is Proxy <==> event is Established,
{
}

/// A ClientHello that lists the token of an accepted window authenticates.
proof fn lemma_listed_authenticates(secret: Seq<u8>, hello: ClientHello, window: u64, now: u64)
    requires
        hello.wf(),
        accepted_windows(now).contains(window),
        hello.protocols.contains(token(secret, window)),
    ensures
        authenticates(secret, hello.encode(), now),
{
    law_encoded_is_parsed(hello);
    law_accepted_iff_window_token(secret, hello.protocols, now);
}

/// What authenticates is a ClientHello that lists the token of an accepted window.
proof fn lemma_authenticates_lists(secret: Seq<u8>, handshake: Seq<u8>, now: u64)
    requires
        authenticates(secret, handshake, now),
    ensures
        exists|hello: ClientHello, window: u64|
            hello.wf() && #[trigger] hello.encode() == handshake
                && #[trigger] accepted_windows(now).contains(window) && hello.protocols.contains(
                token(secret, window),
            ),
{
    let protocols = client_hello_alpn(handshake).unwrap();
    law_alpn_of_encoding(handshake, protocols);
    let hello = choose|hello: ClientHello|
        hello.wf() && hello.protocols == protocols && #[trigger] hello.encode() == handshake;
    law_accepted_iff_window_token(secret, protocols, now);
    let window = choose|window: u64| #[trigger]
        accepted_windows(now).contains(window) && protocols.contains(token(secret, window));
    assert(hello.encode() == handshake && accepted_windows(now).contains(window));
}

/// With a secret, a connection is accepted exactly when its handshake is a
/// ClientHello that lists the token of an accepted window. Every other one is
/// ignored.
pub proof fn law_accepted_exactly(policy: Policy, secret: Seq<u8>, handshake: Seq<u8>, now: u64)
    requires
        policy.secret == Some(secret),
    ensures
        ({
            let listed = exists|hello: ClientHello, window: u64|
                hello.wf() && #[trigger] hello.encode() == handshake
                    && #[trigger] accepted_windows(now).contains(window)
                    && hello.protocols.contains(token(secret, window));
            let decision = next(policy, EventView::HandshakeRead(handshake), now);
            &&& listed ==> decision == (Stage::Accepting, ActionView::Accept)
            &&& !listed ==> decision == (Stage::Idle, ActionView::Ignore)
        }),
{
    if authenticates(secret, handshake, now) {
        lemma_authenticates_lists(secret, handshake, now);
    } else {
        assert forall|hello: ClientHello, window: u64|
            hello.wf() && #[trigger] hello.encode() == handshake
                && #[trigger] accepted_windows(now).contains(window) implies !(
        hello.protocols.contains(token(secret, window))) by {
            if hello.protocols.contains(token(secret, window)) {
                lemma_listed_authenticates(secret, hello, window, now);
            }
        }
    }
}

/// Without a secret, time and the handshake play no part: what arrives is
/// accepted at once.
pub proof fn law_no_secret_accepts(policy: Policy, handshake: Seq<u8>, now: u64)
    requires
        policy.secret is None,
    ensures
        next(policy, EventView::Arrived, now) == (Stage::Accepting, ActionView::Accept),
        next(policy, EventView::HandshakeRead(handshake), now) == (
            Stage::Accepting,
            ActionView::Accept,
        ),
{
}

/// Time decides on handshakes only: any other event has the same outcome in every
/// window.
pub proof fn law_time_decides_on_handshakes(policy: Policy, event: EventView, a: u64, b: u64)
    requires
        !(event is HandshakeRead),
    ensures
        next(policy, event, a) == next(policy, event, b),
{
}

/// A ClientHello of any length that lists the token of the window of a reading is
/// accepted when the clock gives that reading.
pub proof fn law_token_of_reading_accepted(
    policy: Policy,
    secret: Seq<u8>,
    hello: ClientHello,
    elapsed: Option<u64>,
)
    requires
        policy.secret == Some(secret),
        hello.wf(),
        hello.protocols.contains(token(secret, window_number(elapsed))),
    ensures
        next(policy, EventView::HandshakeRead(hello.encode()), window_number(elapsed)) == (
            Stage::Accepting,
            ActionView::Accept,
        ),
{
    law_encoded_is_parsed(hello);
    law_token_of_reading_passes(secret, elapsed, hello.protocols);
}

/// An established connection goes by the name that the client gave, or else by its
/// address. It is proxied to the target of that name, or to the default target
/// where the name has none, whatever the secret and the time.
pub proof fn law_established_routed(
    policy: Policy,
    server_name: Option<Seq<char>>,
    remote_ip: Seq<char>,
    now: u64,
)
    ensures
        next(policy, EventView::Established { server_name, remote_ip }, now).0 == Stage::Idle,
        next(policy, EventView::Established { server_name, remote_ip }, now).1 matches
            ActionView::Proxy { sni, to } && {
            &&& server_name is Some ==> sni == server_name.unwrap()
            &&& server_name is None ==> sni == remote_ip
            &&& policy.proxy.contains_key(sni) ==> to == policy.proxy[sni]
            &&& !policy.proxy.contains_key(sni) ==> to == policy.default_proxy
        },
{
}

/// An acceptor that was made for a configuration without a default, and with an
/// address to proxy to, proxies to that address every connection that goes by a
/// name without a target: every connection at all, where the configuration is
/// empty.
pub proof fn law_proxied_to_option(
    acceptor: Acceptor,
    auth_secret: Option<Vec<u8>>,
    conf: ServerConf,
    address: Address,
    name: Seq<char>,
    remote_ip: Seq<char>,
    now: u64,
)
    requires
        call_ensures(Acceptor::new, (auth_secret, conf, Some(address)), acceptor),
        !conf@.contains_key("default"@),
        !conf@.contains_key(name),
    ensures
        next(
            acceptor.policy(),
            EventView::Established { server_name: Some(name), remote_ip },
            now,
        ).1 == (ActionView::Proxy { sni: name, to: address }),
        next(
            acceptor.policy(),
            EventView::Established { server_name: None, remote_ip: name },
            now,
        ).1 == (ActionView::Proxy { sni: name, to: address }),
{
}

/// An acceptor that was made for a configuration with targets proxies a connection
/// to the target of its name, and one that goes by a name without a target to the
/// target named `default`, whatever address the options give.
pub proof fn law_proxied_to_configured(
    acceptor: Acceptor,
    auth_secret: Option<Vec<u8>>,
    conf: ServerConf,
    proxy_to: Option<Address>,
    name: Seq<char>,
    remote_ip: Seq<char>,
    now: u64,
)
    requires
        call_ensures(Acceptor::new, (auth_secret, conf, proxy_to), acceptor),
        conf@.contains_key("default"@),
    ensures
        next(
            acceptor.policy(),
            EventView::Established { server_name: Some(name), remote_ip },
            now,
        ).1 == (ActionView::Proxy {
            sni: name,
            to: if conf@.contains_key(name) {
                conf@[name]
            } else {
                conf@["default"@]
            },
        }),
{
}

/// An acceptor that was just made has no connection at hand, and authenticates
/// exactly when it was given a secret: by that secret.
pub proof fn law_new_acceptor(
    acceptor: Acceptor,
    auth_secret: Option<Vec<u8>>,
    conf: ServerConf,
    proxy_to: Option<Address>,
    now: u64,
)
    requires
        call_ensures(Acceptor::new, (auth_secret, conf, proxy_to), acceptor),
    ensures
        acceptor.stage() == Stage::Idle,
        auth_secret matches Some(secret) ==> acceptor.policy().secret == Some(secret@),
        auth_secret is None ==> acceptor.policy().secret is None,
        auth_secret is Some ==> next(acceptor.policy(), EventView::Arrived, now).1 is ReadHandshake,
        auth_secret is None ==> next(acceptor.policy(), EventView::Arrived, now).1 is Accept,
{
}

/// [`handshake_valid_at`] passes exactly the handshakes that are a ClientHello with
/// the token of an accepted window in its list.
pub proof fn law_handshake_valid_at(secret: &[u8], handshake: &[u8], now: u64, valid: bool)
    requires
        call_ensures(handshake_valid_at, (secret, handshake, now), valid),
    ensures
        valid <==> exists|hello: ClientHello, window: u64|
            hello.wf() && #[trigger] hello.encode() == handshake@
                && #[trigger] accepted_windows(now).contains(window) && hello.protocols.contains(
                token(secret@, window),
            ),
{
    let policy = Policy {
        secret: Some(secret@),
        proxy: Map::empty(),
        default_proxy: Address::V4 { ip: 0, port: 0 },
    };
    law_accepted_exactly(policy, secret@, handshake@, now);
}

/// The acceptor tells what it proxies to by default: the address that it was made
/// with, where the configuration names no default.
pub proof fn law_tells_default(
    auth_secret: Option<Vec<u8>>,
    conf: ServerConf,
    address: Address,
    acceptor: &Acceptor,
    told: Address,
)
    requires
        call_ensures(Acceptor::new, (auth_secret, conf, Some(address)), *acceptor),
        call_ensures(Acceptor::default_proxy, (acceptor,), told),
        !conf@.contains_key("default"@),
    ensures
        told == address,
{
}

/// An acceptor that was just made expects a connection, or none, and nothing else.
pub proof fn law_expects_connection(
    auth_secret: Option<Vec<u8>>,
    conf: ServerConf,
    proxy_to: Option<Address>,
    acceptor: &Acceptor,
    event: &Event,
    expected: bool,
)
    requires
        call_ensures(Acceptor::new, (auth_secret, conf, proxy_to), *acceptor),
        call_ensures(Acceptor::expects, (acceptor, event), expected),
    ensures
        expected <==> (event is NoConnection || event is Arrived),
{
}

/// [`Acceptor::step`] judges a handshake by a reading that the clock gave, whatever
/// the handshake holds and however long it is: with a secret, the connection is
/// accepted exactly when its handshake is a ClientHello that lists the token of a
/// window accepted at that reading, and ignored otherwise.
pub proof fn law_step_judges_by_clock(
    acceptor: &mut Acceptor,
    secret: Seq<u8>,
    handshake: Vec<u8>,
    action: Action,
)
    requires
        old(acceptor).policy().secret == Some(secret),
        call_ensures(Acceptor::step, (acceptor, Event::HandshakeRead(handshake)), action),
    ensures
        exists|elapsed: Option<u64>| #[trigger]
            clock_gave(elapsed) && {
                let listed = exists|hello: ClientHello, window: u64|
                    hello.wf() && #[trigger] hello.encode() == handshake@
                        && #[trigger] accepted_windows(window_number(elapsed)).contains(window)
                        && hello.protocols.contains(token(secret, window));
                &&& listed ==> action is Accept && final(acceptor).stage() == Stage::Accepting
                &&& !listed ==> action is Ignore && final(acceptor).stage() == Stage::Idle
            },
{
    let policy = old(acceptor).policy();
    let event = EventView::HandshakeRead(handshake@);
    let elapsed = choose|elapsed: Option<u64>| #[trigger]
        clock_gave(elapsed) && (final(acceptor).stage(), action@) == next(
            policy,
            event,
            window_number(elapsed),
        );
    law_accepted_exactly(policy, secret, handshake@, window_number(elapsed));
    assert(clock_gave(elapsed));
}

/// [`Acceptor::step`] accepts every connection whose ClientHello, of any length, lists
/// the token of the window of whatever reading the clock gave.
pub proof fn law_step_accepts(
    acceptor: &mut Acceptor,
    secret: Seq<u8>,
    hello: ClientHello,
    handshake: Vec<u8>,
    action: Action,
)
    requires
        old(acceptor).policy().secret == Some(secret),
        call_ensures(Acceptor::step, (acceptor, Event::HandshakeRead(handshake)), action),
        hello.wf(),
        hello.encode() == handshake@,
        forall|elapsed: Option<u64>| #[trigger]
            clock_gave(elapsed) ==> hello.protocols.contains(token(secret, window_number(elapsed))),
    ensures
        action is Accept,
        final(acceptor).stage() == Stage::Accepting,
        final(acceptor).policy() == old(acceptor).policy(),
{
    let policy = old(acceptor).policy();
    let event = EventView::HandshakeRead(handshake@);
    let elapsed = choose|elapsed: Option<u64>| #[trigger]
        clock_gave(elapsed) && (final(acceptor).stage(), action@) == next(
            policy,
            event,
            window_number(elapsed),
        );
    law_token_of_reading_accepted(policy, secret, hello, elapsed);
}

/// [`Acceptor::step`] and [`Acceptor::step_at`] proxy an established connection to the
/// target of the name that the client gave, or else of its address, and to the
/// default target where that name has none; then they wait for the next one.
pub proof fn law_step_routes(
    acceptor: &mut Acceptor,
    server_name: Option<String>,
    remote_ip: String,
    now: u64,
    action: Action,
)
    requires
        ({
            let event = Event::Established { server_name, remote_ip };
            ||| call_ensures(Acceptor::step_at, (acceptor, event, now), action)
            ||| call_ensures(Acceptor::step, (acceptor, event), action)
        }),
    ensures
        ({
            let policy = old(acceptor).policy();
            let name = if server_name is Some {
                server_name.unwrap()@
            } else {
                remote_ip@
            };
            &&& action matches Action::Proxy { sni, to }
            &&& sni@ == name
            &&& policy.proxy.contains_key(name) ==> to == policy.proxy[name]
            &&& !policy.proxy.contains_key(name) ==> to == policy.default_proxy
        }),
        final(acceptor).stage() == Stage::Idle,
        final(acceptor).policy() == old(acceptor).policy(),
{
    law_established_routed(
        old(acceptor).policy(),
        match server_name {
            Some(name) => Some(name@),
            None => None,
        },
        remote_ip@,
        now,
    );
}

} // verus!
