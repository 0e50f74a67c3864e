//! Handshake authentication by tokens that rotate with time.
//!
//! Time is cut into windows of [`WINDOW_SECS`] seconds. The token of a window is
//! an HMAC-SHA256 tag over the window's number under the shared secret; a server
//! accepts the tokens of the current window and of its two neighbours.

use crate::bytes::{be_bytes, slice_views, vec_views};
use crate::bytes::{be_limit, be_value, law_be_bytes_of_value, law_be_value_of_bytes};
use crate::bytes::lemma_be_bytes_len;
use crate::clock::{clock_gave, unix_seconds};
use crate::crypto::{hmac_sha256, hmac_tag, same_bytes, TAG_LEN};
use vstd::prelude::*;
use vstd::utf8::encode_utf8;

pub use crate::client_hello::parse_client_hello_alpn;

verus! {

/// The environment variable that holds the shared secret.
pub const ENV_VAR: &'static str = "QUICSSH_AUTH_SECRET";

/// The length of a window in seconds.
pub const WINDOW_SECS: u64 = 30;

/// The length of a token in bytes.
pub const TOKEN_LEN: usize = TAG_LEN;

/// What every token message starts with.
pub const TOKEN_LABEL: &'static str = "quicssh-rs/v1";

/// The window of a clock that stands at `elapsed` seconds since the Unix epoch;
/// a clock that stands before the epoch is in the first window.
pub open spec fn window_number(elapsed: Option<u64>) -> u64 {
    match elapsed {
        Some(secs) => secs / WINDOW_SECS,
        None => 0,
    }
}

/// Whether `window` is the window of a reading that the system clock gave.
pub open spec fn is_clock_window(window: u64) -> bool {
    exists|elapsed: Option<u64>|
        #[trigger] clock_gave(elapsed) && window == window_number(elapsed)
}

/// The message whose tag is the token of a window: a label, then the window's
/// number in eight bytes.
pub open spec fn token_message(window: u64) -> Seq<u8> {
    encode_utf8(TOKEN_LABEL@) + be_bytes(window as nat, 8)
}

/// The token of a window.
pub open spec fn token(secret: Seq<u8>, window: u64) -> Seq<u8> {
    hmac_sha256(secret, token_message(window))
}

/// The windows whose tokens are accepted in window `now`: the one before (which
/// wraps around at the first window), `now` itself, and the one after (which
/// wraps around at the last).
pub open spec fn accepted_windows(now: u64) -> Seq<u64> {
    seq![
        if now == 0 {
            u64::MAX
        } else {
            (now - 1) as u64
        },
        now,
        if now == u64::MAX {
            0
        } else {
            (now + 1) as u64
        },
    ]
}

/// The tokens that are accepted in window `now`.
pub open spec fn accepted_tokens(secret: Seq<u8>, now: u64) -> Seq<Seq<u8>> {
    accepted_windows(now).map_values(|window: u64| token(secret, window))
}

/// Whether something that is offered is among the tokens.
pub open spec fn offers_token(tokens: Seq<Seq<u8>>, offered: Seq<Seq<u8>>) -> bool {
    exists|t: Seq<u8>| tokens.contains(t) && #[trigger] offered.contains(t)
}

/// The secret that a setting gives: the very bytes of its value, whether they are
/// text or not. One that is missing or empty gives none.
pub fn secret_from_bytes(value: Option<Vec<u8>>) -> (secret: Option<Vec<u8>>)
    ensures
        match value {
            Some(v) => if v@.len() == 0 {
                secret is None
            } else {
                secret matches Some(s) && s@ == v@
            },
            None => secret is None,
        },
{
    match value {
        Some(v) => if v.is_empty() {
            None
        } else {
            Some(v)
        },
        None => None,
    }
}

/// The secret that a setting gives whose value is text: the bytes of the text.
pub fn secret_from_value(value: Option<String>) -> (secret: Option<Vec<u8>>)
    ensures
        match value {
            Some(v) => if v@.len() == 0 {
                secret is None
            } else {
                secret matches Some(s) && s@ == encode_utf8(v@)
            },
            None => secret is None,
        },
{
    match value {
        Some(v) => {
            proof {
                reveal_with_fuel(encode_utf8, 2);
            }
            secret_from_bytes(Some(vstd::slice::slice_to_vec(v.as_str().as_bytes())))
        },
        None => None,
    }
}

/// The window of a clock that stands at `elapsed` seconds since the Unix epoch,
/// or before it.
pub fn window_at(elapsed: Option<u64>) -> (window: u64)
    ensures
        window == window_number(elapsed),
{
    match elapsed {
        Some(secs) => secs / WINDOW_SECS,
        None => 0,
    }
}

/// The current window by the system clock.
pub fn current_window() -> (window: u64)
    ensures
        is_clock_window(window),
        exists|elapsed: Option<u64>|
            #[trigger] clock_gave(elapsed) && window == window_number(elapsed),
{
    window_at(unix_seconds())
}

/// The eight bytes of `v` in big-endian order.
fn u64_be_bytes(v: u64) -> (b: [u8; 8])
    ensures
        b@ == be_bytes(v as nat, 8),
{
    let v6: u64 = v / 256;
    let v5: u64 = v6 / 256;
    let v4: u64 = v5 / 256;
    let v3: u64 = v4 / 256;
    let v2: u64 = v3 / 256;
    let v1: u64 = v2 / 256;
    let v0: u64 = v1 / 256;
    let b: [u8; 8] = [
        (v0 % 256) as u8,
        (v1 % 256) as u8,
        (v2 % 256) as u8,
        (v3 % 256) as u8,
        (v4 % 256) as u8,
        (v5 % 256) as u8,
        (v6 % 256) as u8,
        (v % 256) as u8,
    ];
    proof {
        reveal_with_fuel(be_bytes, 9);
        assert(b@ =~= be_bytes(v as nat, 8));
    }
    b
}

/// The message whose tag is the token of `window`.
pub fn message_for_window(window: u64) -> (message: Vec<u8>)
    ensures
        message@ == token_message(window),
{
    let mut message = vstd::slice::slice_to_vec(TOKEN_LABEL.as_bytes());
    let number = u64_be_bytes(window);
    message.extend_from_slice(number.as_slice());
    message
}

/// The token of `window` under `secret`.
pub fn token_for_window(secret: &[u8], window: u64) -> (t: [u8; TOKEN_LEN])
    ensures
        t@ == token(secret@, window),
{
    let message = message_for_window(window);
    hmac_tag(secret, message.as_slice())
}

/// The tokens that are accepted in window `now`.
pub fn tokens_at(secret: &[u8], now: u64) -> (tokens: Vec<Vec<u8>>)
    ensures
        vec_views(tokens@) == accepted_tokens(secret@, now),
        forall|i: int| 0 <= i < tokens.len() ==> (#[trigger] tokens[i]).len() == TOKEN_LEN,
{
    let previous = token_for_window(secret, now.wrapping_sub(1));
    let current = token_for_window(secret, now);
    let next = token_for_window(secret, now.wrapping_add(1));
    let mut tokens: Vec<Vec<u8>> = Vec::new();
    tokens.push(vstd::slice::slice_to_vec(previous.as_slice()));
    tokens.push(vstd::slice::slice_to_vec(current.as_slice()));
    tokens.push(vstd::slice::slice_to_vec(next.as_slice()));
    proof {
        assert(vec_views(tokens@) =~= accepted_tokens(secret@, now));
    }
    tokens
}

/// Tokens that should be accepted right now (current ± 1 windows) to tolerate
/// clock skew up to `WINDOW_SECS`.
pub fn valid_tokens(secret: &[u8]) -> (tokens: Vec<Vec<u8>>)
    ensures
        exists|now: u64|
            #![trigger accepted_tokens(secret@, now)]
            is_clock_window(now) && vec_views(tokens@) == accepted_tokens(secret@, now),
        exists|elapsed: Option<u64>|
            #[trigger] clock_gave(elapsed) && vec_views(tokens@) == accepted_tokens(
                secret@,
                window_number(elapsed),
            ),
        forall|i: int| 0 <= i < tokens.len() ==> (#[trigger] tokens[i]).len() == TOKEN_LEN,
{
    let now = current_window();
    tokens_at(secret, now)
}

/// Whether one of `offered` is among `valid`. Every offer is compared with every
/// valid token, also behind a match, and two byte strings of the same length are
/// compared in constant time.
pub fn any_offered(valid: &[Vec<u8>], offered: &[&[u8]]) -> (any: bool)
    ensures
        any == offers_token(vec_views(valid@), slice_views(offered@)),
{
    let ghost tokens = vec_views(valid@);
    let ghost offers = slice_views(offered@);
    let mut any = false;
    let mut i: usize = 0;
    while i < offered.len()
        invariant
            i <= offered.len(),
            tokens == vec_views(valid@),
            offers == slice_views(offered@),
            any == exists|k: int| 0 <= k < i && tokens.contains(#[trigger] offers[k]),
        decreases offered.len() - i,
    {
        let candidate: &[u8] = offered[i];
        let ghost any_before = any;
        let mut j: usize = 0;
        while j < valid.len()
            invariant
                i < offered.len(),
                j <= valid.len(),
                candidate@ == offers[i as int],
                tokens == vec_views(valid@),
                offers == slice_views(offered@),
                any == (any_before || exists|k: int|
                    0 <= k < j && #[trigger] tokens[k] == candidate@),
            decreases valid.len() - j,
        {
            let token = valid[j].as_slice();
            let same = token.len() == candidate.len() && same_bytes(token, candidate);
            any = same || any;
            proof {
                assert(tokens[j as int] == token@);
                assert(same == (tokens[j as int] == candidate@));
            }
            j += 1;
        }
        proof {
            assert((exists|k: int| 0 <= k < tokens.len() && #[trigger] tokens[k] == candidate@)
                == tokens.contains(offers[i as int]));
        }
        i += 1;
    }
    proof {
        if any {
            let k = choose|k: int| 0 <= k < offers.len() && tokens.contains(#[trigger] offers[k]);
            assert(offers.contains(offers[k]));
        }
        if offers_token(tokens, offers) {
            let t = choose|t: Seq<u8>| tokens.contains(t) && #[trigger] offers.contains(t);
            assert(tokens.contains(offers[offers.index_of(t)]));
        }
    }
    any
}

/// Whether one of `offered` is a token that is accepted in window `now`.
pub fn any_token_valid_at(secret: &[u8], offered: &[&[u8]], now: u64) -> (any: bool)
    ensures
        any == offers_token(accepted_tokens(secret@, now), slice_views(offered@)),
        any ==> exists|i: int| 0 <= i < offered.len() && (#[trigger] offered[i]).len() == TOKEN_LEN,
{
    let valid = tokens_at(secret, now);
    let any = any_offered(valid.as_slice(), offered);
    proof {
        if any {
            let tokens = vec_views(valid@);
            let offers = slice_views(offered@);
            let t = choose|t: Seq<u8>| tokens.contains(t) && #[trigger] offers.contains(t);
            let j = tokens.index_of(t);
            let i = offers.index_of(t);
            assert(valid[j]@ == t && offered[i]@ == t);
        }
    }
    any
}

/// Whether one of `offered` matches a token that is valid for the current ± 1
/// window range.
pub fn any_token_valid(secret: &[u8], offered: &[&[u8]]) -> (any: bool)
    ensures
        exists|now: u64|
            #![trigger accepted_tokens(secret@, now)]
            is_clock_window(now) && any == offers_token(
                accepted_tokens(secret@, now),
                slice_views(offered@),
            ),
        exists|elapsed: Option<u64>|
            #[trigger] clock_gave(elapsed) && any == offers_token(
                accepted_tokens(secret@, window_number(elapsed)),
                slice_views(offered@),
            ),
        any ==> exists|i: int| 0 <= i < offered.len() && (#[trigger] offered[i]).len() == TOKEN_LEN,
{
    let now = current_window();
    any_token_valid_at(secret, offered, now)
}

/// Different windows have different token messages.
pub proof fn law_messages_distinct(a: u64, b: u64)
    ensures
        token_message(a) == token_message(b) ==> a == b,
{
    if token_message(a) == token_message(b) {
        let n = encode_utf8(TOKEN_LABEL@).len() as int;
        lemma_be_bytes_len(a as nat, 8);
        lemma_be_bytes_len(b as nat, 8);
        assert(token_message(a).skip(n) =~= be_bytes(a as nat, 8));
        assert(token_message(b).skip(n) =~= be_bytes(b as nat, 8));
        reveal_with_fuel(be_limit, 9);
        law_be_value_of_bytes(a as nat, 8);
        law_be_value_of_bytes(b as nat, 8);
    }
}

/// What is offered is accepted exactly when it holds the token of the current
/// window or of one of its neighbours.
pub proof fn law_accepted_iff_window_token(secret: Seq<u8>, offered: Seq<Seq<u8>>, now: u64)
    ensures
        offers_token(accepted_tokens(secret, now), offered) <==> exists|window: u64|
            accepted_windows(now).contains(window) && offered.contains(
                #[trigger] token(secret, window),
            ),
{
    let tokens = accepted_tokens(secret, now);
    let windows = accepted_windows(now);
    if offers_token(tokens, offered) {
        let t = choose|t: Seq<u8>| tokens.contains(t) && #[trigger] offered.contains(t);
        let i = tokens.index_of(t);
        assert(windows.contains(windows[i]) && offered.contains(token(secret, windows[i])));
    }
    if exists|window: u64|
        windows.contains(window) && offered.contains(#[trigger] token(secret, window)) {
        let window = choose|window: u64|
            windows.contains(window) && offered.contains(#[trigger] token(secret, window));
        let i = windows.index_of(window);
        assert(tokens[i] == token(secret, window));
        assert(tokens.contains(token(secret, window)));
    }
}

/// Where nothing is offered, nothing is accepted.
pub proof fn law_nothing_offered(tokens: Seq<Seq<u8>>)
    ensures
        !offers_token(tokens, Seq::empty()),
{
}

/// A token made by a clock that differs from the server's by at most
/// `WINDOW_SECS` is accepted, whatever else is offered with it.
pub proof fn law_clock_skew(secret: Seq<u8>, client: u64, server: u64, offered: Seq<Seq<u8>>)
    requires
        client <= server + WINDOW_SECS,
        server <= client + WINDOW_SECS,
        offered.contains(token(secret, window_number(Some(client)))),
    ensures
        accepted_windows(window_number(Some(server))).contains(window_number(Some(client))),
        offers_token(accepted_tokens(secret, window_number(Some(server))), offered),
{
    let made = window_number(Some(client));
    let now = window_number(Some(server));
    let windows = accepted_windows(now);
    let i: int = if made < now {
        0
    } else if made == now {
        1
    } else {
        2
    };
    assert(windows[i] == made);
    law_accepted_iff_window_token(secret, offered, now);
}

/// A token made by a clock that differs from the server's by at least twice
/// `WINDOW_SECS` belongs to no accepted window. It passes only as the tag of
/// another message.
pub proof fn law_token_expires(secret: Seq<u8>, client: u64, server: u64)
    requires
        client >= server + 2 * WINDOW_SECS || server >= client + 2 * WINDOW_SECS,
    ensures
        ({
            let made = window_number(Some(client));
            let now = window_number(Some(server));
            &&& !accepted_windows(now).contains(made)
            &&& offers_token(accepted_tokens(secret, now), seq![token(secret, made)]) ==> exists|
                window: u64,
            |
                #![trigger token_message(window)]
                accepted_windows(now).contains(window) && token_message(window) != token_message(
                    made,
                ) && hmac_sha256(secret, token_message(window)) == hmac_sha256(
                    secret,
                    token_message(made),
                )
        }),
{
    let made = window_number(Some(client));
    let now = window_number(Some(server));
    let windows = accepted_windows(now);
    let offered = seq![token(secret, made)];
    assert(windows[0] != made && windows[1] != made && windows[2] != made);
    law_accepted_iff_window_token(secret, offered, now);
    if offers_token(accepted_tokens(secret, now), offered) {
        let window = choose|window: u64|
            windows.contains(window) && offered.contains(#[trigger] token(secret, window));
        law_messages_distinct(window, made);
        assert(token_message(window) != token_message(made));
    }
}

/// A time lies in its window: the windows of thirty seconds each are counted from
/// the Unix epoch on, and a time before it lies in none of them but counts as in
/// the first.
pub proof fn law_time_in_window(secs: u64)
    ensures
        window_number(Some(secs)) * 30 <= secs,
        secs < (window_number(Some(secs)) + 1) * 30,
        window_number(None) == window_number(Some(0)),
{
}

/// The window of the clock is that of a reading which the clock itself gave: the
/// reading lies in it, or lies before the epoch and the window is the first.
pub proof fn law_clock_window(window: u64)
    requires
        is_clock_window(window),
    ensures
        exists|elapsed: Option<u64>| #[trigger]
            clock_gave(elapsed) && match elapsed {
                Some(secs) => window * 30 <= secs < (window + 1) * 30,
                None => window == 0,
            },
{
    let elapsed = choose|elapsed: Option<u64>| #[trigger]
        clock_gave(elapsed) && window == window_number(elapsed);
    if let Some(secs) = elapsed {
        law_time_in_window(secs);
    }
    assert(clock_gave(elapsed));
}

/// The label takes thirteen bytes.
proof fn lemma_label_len()
    ensures
        encode_utf8("quicssh-rs/v1"@).len() == 13,
{
    reveal_strlit("quicssh-rs/v1");
    reveal_with_fuel(encode_utf8, 14);
}

/// The message of every window is as long as the label and eight bytes, starts
/// with the label, and ends with eight bytes that spell the window's number.
pub proof fn law_message_layout(window: u64)
    ensures
        ({
            let label = encode_utf8("quicssh-rs/v1"@);
            let n = label.len() as int;
            &&& token_message(window).len() == n + 8
            &&& n == 13
            &&& token_message(window).take(n) == label
            &&& be_value(token_message(window).skip(n)) == window
        }),
{
    let label = encode_utf8(TOKEN_LABEL@);
    let n = label.len() as int;
    lemma_label_len();
    lemma_be_bytes_len(window as nat, 8);
    reveal_with_fuel(be_limit, 9);
    law_be_value_of_bytes(window as nat, 8);
    assert(token_message(window).take(n) =~= label);
    assert(token_message(window).skip(n) =~= be_bytes(window as nat, 8));
}

/// The token of a window is the tag of any message that is the label and eight
/// bytes which spell the window's number; there is only one.
pub proof fn law_token_is_tag(secret: Seq<u8>, window: u64, number: Seq<u8>)
    requires
        number.len() == 8,
        be_value(number) == window,
    ensures
        token(secret, window) == hmac_sha256(secret, encode_utf8("quicssh-rs/v1"@) + number),
{
    law_be_bytes_of_value(number);
}

/// The accepted windows are the one before `now`, `now` and the one after, in this
/// order, counted around the range of window numbers; each gives one token.
pub proof fn law_accepted_in_order(secret: Seq<u8>, now: u64, i: int)
    requires
        0 <= i < 3,
    ensures
        accepted_windows(now).len() == 3,
        accepted_tokens(secret, now).len() == 3,
        (accepted_windows(now)[i] - (now + i - 1)) % (u64::MAX + 1) == 0,
        accepted_tokens(secret, now)[i] == token(secret, accepted_windows(now)[i]),
{
}

/// A window is accepted exactly when it differs from `now` by at most one, or when
/// one of the two is the first window and the other the last.
pub proof fn law_accepted_windows(now: u64, window: u64)
    ensures
        accepted_windows(now).contains(window) <==> {
            ||| -1 <= window - now <= 1
            ||| now == 0 && window == u64::MAX
            ||| now == u64::MAX && window == 0
        },
{
    let windows = accepted_windows(now);
    assert(windows[0] == window || windows[1] == window || windows[2] == window
        <==> windows.contains(window));
}

/// A token is offered exactly when some offer equals some token, wherever the two
/// stand.
pub proof fn law_offers_token(tokens: Seq<Seq<u8>>, offered: Seq<Seq<u8>>)
    ensures
        offers_token(tokens, offered) <==> exists|i: int, j: int|
            0 <= i < tokens.len() && 0 <= j < offered.len() && #[trigger] tokens[i]
                == #[trigger] offered[j],
{
    if offers_token(tokens, offered) {
        let t = choose|t: Seq<u8>| tokens.contains(t) && #[trigger] offered.contains(t);
        assert(tokens[tokens.index_of(t)] == offered[offered.index_of(t)]);
    }
    if exists|i: int, j: int|
        0 <= i < tokens.len() && 0 <= j < offered.len() && #[trigger] tokens[i]
            == #[trigger] offered[j] {
        let (i, j) = choose|i: int, j: int|
            0 <= i < tokens.len() && 0 <= j < offered.len() && #[trigger] tokens[i]
                == #[trigger] offered[j];
        assert(tokens.contains(tokens[i]) && offered.contains(tokens[i]));
    }
}

/// Where the clock stands at `elapsed`, offers of any number pass that hold the
/// token of the window of that reading.
pub proof fn law_token_of_reading_passes(
    secret: Seq<u8>,
    elapsed: Option<u64>,
    offered: Seq<Seq<u8>>,
)
    requires
        offered.contains(token(secret, window_number(elapsed))),
    ensures
        offers_token(accepted_tokens(secret, window_number(elapsed)), offered),
{
    let now = window_number(elapsed);
    assert(accepted_windows(now)[1] == now);
    law_accepted_iff_window_token(secret, offered, now);
}

/// What [`message_for_window`] gives is the label and eight bytes that spell the
/// window's number.
pub proof fn law_message_for_window(window: u64, message: Vec<u8>)
    requires
        call_ensures(message_for_window, (window,), message),
    ensures
        ({
            let label = encode_utf8("quicssh-rs/v1"@);
            let n = label.len() as int;
            &&& message@.len() == n + 8
            &&& n == 13
            &&& message@.take(n) == label
            &&& be_value(message@.skip(n)) == window
        }),
{
    law_message_layout(window);
}

/// What [`token_for_window`] gives is the tag of the label and any eight bytes that
/// spell the window's number.
pub proof fn law_token_for_window(
    secret: &[u8],
    window: u64,
    number: Seq<u8>,
    t: [u8; TOKEN_LEN],
)
    requires
        call_ensures(token_for_window, (secret, window), t),
        number.len() == 8,
        be_value(number) == window,
    ensures
        t@ == hmac_sha256(secret@, encode_utf8("quicssh-rs/v1"@) + number),
        t@.len() == 32,
{
    law_token_is_tag(secret@, window, number);
}

/// What [`window_at`] gives is the window that a time lies in.
pub proof fn law_window_at(secs: u64, window: u64)
    requires
        call_ensures(window_at, (Some(secs),), window),
    ensures
        window * 30 <= secs < (window + 1) * 30,
{
    law_time_in_window(secs);
}

/// [`any_offered`] finds a match exactly when some offer equals some token, wherever
/// the two stand.
pub proof fn law_any_offered(valid: &[Vec<u8>], offered: &[&[u8]], any: bool)
    requires
        call_ensures(any_offered, (valid, offered), any),
    ensures
        any <==> exists|i: int, j: int|
            0 <= i < valid@.len() && 0 <= j < offered@.len() && #[trigger] valid@[i]@
                == #[trigger] offered@[j]@,
{
    let tokens = vec_views(valid@);
    let offers = slice_views(offered@);
    law_offers_token(tokens, offers);
    if any {
        let (i, j) = choose|i: int, j: int|
            0 <= i < tokens.len() && 0 <= j < offers.len() && #[trigger] tokens[i]
                == #[trigger] offers[j];
        assert(valid@[i]@ == offered@[j]@);
    }
    if exists|i: int, j: int|
        0 <= i < valid@.len() && 0 <= j < offered@.len() && #[trigger] valid@[i]@
            == #[trigger] offered@[j]@ {
        let (i, j) = choose|i: int, j: int|
            0 <= i < valid@.len() && 0 <= j < offered@.len() && #[trigger] valid@[i]@
                == #[trigger] offered@[j]@;
        assert(tokens[i] == offers[j]);
    }
}

/// [`any_token_valid`] judges by a reading that the clock gave, whatever is offered:
/// the offers pass exactly when one of them is the token of the window of that
/// reading or of a window next to it.
pub proof fn law_any_token_valid(secret: &[u8], offered: &[&[u8]], any: bool)
    requires
        call_ensures(any_token_valid, (secret, offered), any),
    ensures
        exists|elapsed: Option<u64>| #[trigger]
            clock_gave(elapsed) && (any <==> exists|window: u64, j: int|
                accepted_windows(window_number(elapsed)).contains(window) && 0 <= j < offered@.len()
                    && #[trigger] token(secret@, window) == #[trigger] offered@[j]@),
{
    let offers = slice_views(offered@);
    let elapsed = choose|elapsed: Option<u64>| #[trigger]
        clock_gave(elapsed) && any == offers_token(
            accepted_tokens(secret@, window_number(elapsed)),
            offers,
        );
    let now = window_number(elapsed);
    law_accepted_iff_window_token(secret@, offers, now);
    if any {
        let window = choose|window: u64| #[trigger]
            accepted_windows(now).contains(window) && offers.contains(token(secret@, window));
        let j = offers.index_of(token(secret@, window));
        assert(token(secret@, window) == offered@[j]@);
    }
    if exists|window: u64, j: int|
        accepted_windows(now).contains(window) && 0 <= j < offered@.len() && #[trigger] token(
            secret@,
            window,
        ) == #[trigger] offered@[j]@ {
        let (window, j) = choose|window: u64, j: int|
            accepted_windows(now).contains(window) && 0 <= j < offered@.len() && #[trigger] token(
                secret@,
                window,
            ) == #[trigger] offered@[j]@;
        assert(offers[j] == token(secret@, window));
        assert(offers.contains(token(secret@, window)));
    }
    assert(clock_gave(elapsed));
}

/// [`valid_tokens`] gives the tokens around the window of a reading that the clock
/// gave: one for the window before, one for the window itself and one for the
/// window after, in this order.
pub proof fn law_valid_tokens(secret: &[u8], tokens: Vec<Vec<u8>>)
    requires
        call_ensures(valid_tokens, (secret,), tokens),
    ensures
        tokens@.len() == 3,
        exists|elapsed: Option<u64>| #[trigger]
            clock_gave(elapsed) && forall|i: int|
                0 <= i < 3 ==> (#[trigger] tokens@[i])@ == token(
                    secret@,
                    accepted_windows(window_number(elapsed))[i],
                ),
{
    let elapsed = choose|elapsed: Option<u64>| #[trigger]
        clock_gave(elapsed) && vec_views(tokens@) == accepted_tokens(
            secret@,
            window_number(elapsed),
        );
    let now = window_number(elapsed);
    assert(vec_views(tokens@).len() == accepted_tokens(secret@, now).len());
    assert forall|i: int| 0 <= i < 3 implies (#[trigger] tokens@[i])@ == token(
        secret@,
        accepted_windows(now)[i],
    ) by {
        assert(vec_views(tokens@)[i] == accepted_tokens(secret@, now)[i]);
    }
    assert(clock_gave(elapsed));
}

/// A secret is the setting's own bytes, and a setting without any gives none.
pub proof fn law_secret_from_bytes(value: Option<Vec<u8>>, secret: Option<Vec<u8>>)
    requires
        call_ensures(secret_from_bytes, (value,), secret),
    ensures
        secret matches Some(s) ==> s@.len() > 0 && value is Some && s@ == value.unwrap()@,
        secret is None <==> (value is None || value.unwrap()@.len() == 0),
{
}

/// A secret that is given as text is the encoding of that text, and an empty text
/// gives none.
pub proof fn law_secret_from_value(value: Option<String>, secret: Option<Vec<u8>>)
    requires
        call_ensures(secret_from_value, (value,), secret),
    ensures
        secret matches Some(s) ==> value is Some && s@ == encode_utf8(value.unwrap()@),
        secret is None <==> (value is None || value.unwrap()@.len() == 0),
{
}

} // verus!
