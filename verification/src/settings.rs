//! What the QUIC and TLS layers of the server are configured with.

use crate::auth::{accepted_tokens, current_window, is_clock_window, tokens_at, window_number};
use crate::auth::{accepted_windows, token, WINDOW_SECS};
use crate::bytes::vec_views;
use crate::clock::clock_gave;
use vstd::prelude::*;

verus! {

/// How often the accepted tokens are configured anew, in seconds.
pub const REFRESH_SECS: u64 = WINDOW_SECS / 2;

/// How many unidirectional streams a peer may open.
pub const MAX_UNI_STREAMS: u8 = 0;

/// After how many milliseconds without traffic a connection is given up.
pub const MAX_IDLE_MS: u32 = 60_000;

/// How many seconds pass between keep-alive packets.
pub const KEEP_ALIVE_SECS: u64 = 1;

/// The settings of the QUIC and TLS layers.
pub struct ServerSettings {
    /// Whether a client has to offer ALPN protocols.
    pub require_alpn: bool,
    /// The ALPN protocols that the server accepts.
    pub alpn_protocols: Vec<Vec<u8>>,
    pub max_concurrent_uni_streams: u8,
    pub max_idle_timeout_ms: u32,
    pub keep_alive_interval_secs: u64,
}

impl ServerSettings {
    /// Whether these are the settings of window `now`: with a secret, ALPN is
    /// required and the accepted tokens are the protocols; without one, ALPN is
    /// left alone.
    pub open spec fn are_for(self, secret: Option<Seq<u8>>, now: u64) -> bool {
        &&& self.require_alpn == (secret is Some)
        &&& vec_views(self.alpn_protocols@) == match secret {
            Some(s) => accepted_tokens(s, now),
            None => Seq::empty(),
        }
        &&& self.max_concurrent_uni_streams == MAX_UNI_STREAMS
        &&& self.max_idle_timeout_ms == MAX_IDLE_MS
        &&& self.keep_alive_interval_secs == KEEP_ALIVE_SECS
    }
}

/// The contents of an optional secret.
pub open spec fn secret_view(secret: Option<&[u8]>) -> Option<Seq<u8>> {
    match secret {
        Some(s) => Some(s@),
        None => None,
    }
}

/// The settings of a server in window `now`.
pub fn server_settings_at(auth_secret: Option<&[u8]>, now: u64) -> (settings: ServerSettings)
    ensures
        settings.are_for(secret_view(auth_secret), now),
{
    let alpn_protocols: Vec<Vec<u8>> = match auth_secret {
        Some(secret) => tokens_at(secret, now),
        None => Vec::new(),
    };
    proof {
        if auth_secret is None {
            assert(vec_views(alpn_protocols@) =~= Seq::empty());
        }
    }
    ServerSettings {
        require_alpn: auth_secret.is_some(),
        alpn_protocols,
        max_concurrent_uni_streams: MAX_UNI_STREAMS,
        max_idle_timeout_ms: MAX_IDLE_MS,
        keep_alive_interval_secs: KEEP_ALIVE_SECS,
    }
}

/// The settings of a server right now.
pub fn server_settings(auth_secret: Option<&[u8]>) -> (settings: ServerSettings)
    ensures
        exists|now: u64|
            #[trigger] is_clock_window(now) && settings.are_for(secret_view(auth_secret), now),
        exists|elapsed: Option<u64>|
            #[trigger] clock_gave(elapsed) && settings.are_for(
                secret_view(auth_secret),
                window_number(elapsed),
            ),
{
    let now = current_window();
    server_settings_at(auth_secret, now)
}

/// What happened to the refresh of the settings.
#[derive(Clone, Copy, Debug, PartialEq, Eq)]
pub enum RefreshEvent {
    /// The server was started with its first settings.
    Started,
    /// The wait is over.
    Ticked,
    /// New settings were built.
    Built,
    /// New settings could not be built.
    BuildFailed,
    /// New settings were installed.
    Installed,
}

/// What to do next about the refresh of the settings.
#[derive(Clone, Copy, Debug, PartialEq, Eq)]
pub enum RefreshAction {
    /// Wait for the next tick; that many seconds lie between two ticks.
    Wait(u64),
    /// Build new settings.
    Rebuild,
    /// Install the new settings.
    Install,
}

/// What to do after `event`: at every tick new settings are built and installed.
/// Where they cannot be built, the old ones stay until the next tick.
pub fn refresh_step(event: RefreshEvent) -> (action: RefreshAction)
    ensures
        action == (match event {
            RefreshEvent::Ticked => RefreshAction::Rebuild,
            RefreshEvent::Built => RefreshAction::Install,
            RefreshEvent::Started | RefreshEvent::BuildFailed | RefreshEvent::Installed =>
                RefreshAction::Wait(REFRESH_SECS),
        }),
{
    match event {
        RefreshEvent::Started => RefreshAction::Wait(REFRESH_SECS),
        RefreshEvent::Ticked => RefreshAction::Rebuild,
        RefreshEvent::Built => RefreshAction::Install,
        RefreshEvent::BuildFailed => RefreshAction::Wait(REFRESH_SECS),
        RefreshEvent::Installed => RefreshAction::Wait(REFRESH_SECS),
    }
}

/// Why a certificate is withheld from a client.
#[derive(Clone, Copy, Debug, PartialEq, Eq)]
pub enum AlpnRefusal {
    /// The client sent no ALPN extension.
    Missing,
    /// The client sent an ALPN extension without protocols.
    Empty,
}

/// Decides whether a client gets the certificate. `alpn` is `None` if the client
/// sent no ALPN extension, and otherwise holds the first protocol that it offers,
/// if any. Where ALPN is not required, every client gets it.
pub fn check_alpn(require_alpn: bool, alpn: Option<Option<&[u8]>>) -> (decision: Result<
    (),
    AlpnRefusal,
>)
    ensures
        decision is Ok <==> (!require_alpn || alpn matches Some(Some(_))),
        decision == Err::<(), AlpnRefusal>(AlpnRefusal::Missing) <==> (require_alpn
            && alpn is None),
        decision == Err::<(), AlpnRefusal>(AlpnRefusal::Empty) <==> (require_alpn
            && alpn matches Some(None)),
{
    if require_alpn {
        match alpn {
            None => {
                return Err(AlpnRefusal::Missing);
            },
            Some(first) => {
                if first.is_none() {
                    return Err(AlpnRefusal::Empty);
                }
            },
        }
    }
    Ok(())
}

/// Between two refreshes the configured tokens cover the current window: settings
/// made when the clock stood at `made` accept the window of every time up to the
/// next refresh, and still do if that refresh comes as late as a second interval.
pub proof fn law_refresh_covers_window(made: u64, time: u64)
    requires
        made <= time <= made + 2 * REFRESH_SECS,
    ensures
        accepted_windows(window_number(Some(made))).contains(window_number(Some(time))),
{
    let windows = accepted_windows(window_number(Some(made)));
    let window = window_number(Some(time));
    if window == window_number(Some(made)) {
        assert(windows[1] == window);
    } else {
        assert(windows[2] == window);
    }
}

/// With a secret, clients have to offer ALPN, and the protocols are the tokens of
/// the window before, the window at hand and the window after, in this order.
pub proof fn law_settings_with_secret(settings: ServerSettings, secret: &[u8], now: u64)
    requires
        settings.are_for(secret_view(Some(secret)), now),
    ensures
        settings.require_alpn,
        settings.alpn_protocols@.len() == 3,
        settings.alpn_protocols@[0]@ == token(secret@, now.wrapping_sub(1)),
        settings.alpn_protocols@[1]@ == token(secret@, now),
        settings.alpn_protocols@[2]@ == token(secret@, now.wrapping_add(1)),
{
    let protocols = vec_views(settings.alpn_protocols@);
    assert(protocols.len() == 3);
    assert(protocols[0] == settings.alpn_protocols@[0]@);
    assert(protocols[1] == settings.alpn_protocols@[1]@);
    assert(protocols[2] == settings.alpn_protocols@[2]@);
}

/// Without a secret, ALPN is neither required nor configured, whatever the time.
pub proof fn law_settings_without_secret(settings: ServerSettings, now: u64)
    requires
        settings.are_for(secret_view(None), now),
    ensures
        !settings.require_alpn,
        settings.alpn_protocols@.len() == 0,
{
    assert(vec_views(settings.alpn_protocols@).len() == 0);
}

/// The transport settings are the same with any secret and at any time: no
/// unidirectional streams, a minute without traffic, a keep-alive every second.
pub proof fn law_transport_settings(settings: ServerSettings, secret: Option<Seq<u8>>, now: u64)
    requires
        settings.are_for(secret, now),
    ensures
        settings.max_concurrent_uni_streams == 0,
        settings.max_idle_timeout_ms == 60 * 1000,
        settings.keep_alive_interval_secs == 1,
{
}

/// New settings are built exactly at a tick and installed exactly when they were
/// built. Otherwise the next tick is awaited, which comes twice in a window.
pub proof fn law_refresh_at_ticks(event: RefreshEvent, action: RefreshAction)
    requires
        call_ensures(refresh_step, (event,), action),
    ensures
        action is Rebuild <==> event is Ticked,
        action is Install <==> event is Built,
        action matches RefreshAction::Wait(secs) ==> 2 * secs == WINDOW_SECS,
{
}

/// A certificate is withheld exactly where ALPN is required and the client offers no
/// protocol: one that sent no list is told from one that sent an empty list.
pub proof fn law_certificate_withheld(
    require_alpn: bool,
    alpn: Option<Option<&[u8]>>,
    decision: Result<(), AlpnRefusal>,
)
    requires
        call_ensures(check_alpn, (require_alpn, alpn), decision),
    ensures
        !require_alpn ==> decision is Ok,
        alpn matches Some(Some(_)) ==> decision is Ok,
        require_alpn && alpn is None ==> (decision matches Err(refusal) && refusal is Missing),
        require_alpn && alpn == Some(None::<&[u8]>) ==> (decision matches Err(refusal) && refusal
            is Empty),
{
}

/// The settings that [`server_settings`] gives are those of the window of a reading
/// that the clock gave: the protocols are the tokens of that window and its two
/// neighbours.
pub proof fn law_server_settings(secret: &[u8], settings: ServerSettings)
    requires
        call_ensures(server_settings, (Some(secret),), settings),
    ensures
        settings.require_alpn,
        settings.alpn_protocols@.len() == 3,
        exists|elapsed: Option<u64>| #[trigger]
            clock_gave(elapsed) && {
                let now = window_number(elapsed);
                &&& settings.alpn_protocols@[0]@ == token(secret@, now.wrapping_sub(1))
                &&& settings.alpn_protocols@[1]@ == token(secret@, now)
                &&& settings.alpn_protocols@[2]@ == token(secret@, now.wrapping_add(1))
            },
{
    let elapsed = choose|elapsed: Option<u64>| #[trigger]
        clock_gave(elapsed) && settings.are_for(secret_view(Some(secret)), window_number(elapsed));
    law_settings_with_secret(settings, secret, window_number(elapsed));
    assert(clock_gave(elapsed));
}

} // verus!
