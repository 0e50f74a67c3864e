//! A proxied session, and the relay between its QUIC stream and the SSH server.

use vstd::prelude::*;

verus! {

/// What happened to a session.
#[derive(Clone, Copy, Debug, PartialEq, Eq)]
pub enum SessionEvent {
    /// The client's connection is established.
    Opened,
    /// The SSH server could not be reached.
    SshFailed,
    /// The SSH server was reached.
    SshConnected,
    /// The client's stream could not be accepted.
    StreamFailed,
    /// The client's stream was accepted.
    StreamAccepted,
    /// One of the two directions of the relay has ended.
    DirectionEnded,
}

/// What to do next with a session.
#[derive(Clone, Copy, Debug, PartialEq, Eq)]
pub enum SessionAction {
    /// Connect to the SSH server.
    ConnectSsh,
    /// Accept a stream from the client.
    AcceptStream,
    /// Relay in both directions.
    Relay,
    /// End the session.
    Close,
}

/// What to do after `event`: the SSH server is reached first, then the client's
/// stream is accepted, then both directions are relayed until one of them ends.
/// A failure ends the session.
pub fn session_step(event: SessionEvent) -> (action: SessionAction)
    ensures
        action == (match event {
            SessionEvent::Opened => SessionAction::ConnectSsh,
            SessionEvent::SshConnected => SessionAction::AcceptStream,
            SessionEvent::StreamAccepted => SessionAction::Relay,
            SessionEvent::SshFailed | SessionEvent::StreamFailed | SessionEvent::DirectionEnded =>
                SessionAction::Close,
        }),
{
    match event {
        SessionEvent::Opened => SessionAction::ConnectSsh,
        SessionEvent::SshFailed => SessionAction::Close,
        SessionEvent::SshConnected => SessionAction::AcceptStream,
        SessionEvent::StreamFailed => SessionAction::Close,
        SessionEvent::StreamAccepted => SessionAction::Relay,
        SessionEvent::DirectionEnded => SessionAction::Close,
    }
}

/// How many bytes are read at a time.
pub const RELAY_BUF_LEN: usize = 2048;

/// What happened to the last read or write.
#[derive(Clone, Copy, Debug, PartialEq, Eq)]
pub enum RelayEvent {
    /// A read ended: it gave that many bytes, or the source has no more to give.
    Read(Option<usize>),
    /// A read failed.
    ReadFailed,
    /// Everything that was read last has been written.
    Written,
    /// A write failed.
    WriteFailed,
}

/// What to do next.
#[derive(Clone, Copy, Debug, PartialEq, Eq)]
pub enum RelayAction {
    /// Read from the source.
    Read,
    /// Write that many bytes from the start of the buffer to the sink.
    Write(usize),
    /// End the relay.
    Stop,
}

/// The relay's answer to an event: bytes that were read are written, a read that
/// gave none is repeated, and a failure ends the relay.
pub open spec fn relay_answer(event: RelayEvent) -> RelayAction {
    match event {
        RelayEvent::Read(Some(n)) if n > 0 => RelayAction::Write(n),
        RelayEvent::Read(_) => RelayAction::Read,
        RelayEvent::Written => RelayAction::Read,
        RelayEvent::ReadFailed => RelayAction::Stop,
        RelayEvent::WriteFailed => RelayAction::Stop,
    }
}

/// What to do after `event`.
pub fn relay_step(event: RelayEvent) -> (action: RelayAction)
    ensures
        action == relay_answer(event),
{
    match event {
        RelayEvent::Read(None) => RelayAction::Read,
        RelayEvent::Read(Some(n)) => if n == 0 {
            RelayAction::Read
        } else {
            RelayAction::Write(n)
        },
        RelayEvent::Written => RelayAction::Read,
        RelayEvent::ReadFailed => RelayAction::Stop,
        RelayEvent::WriteFailed => RelayAction::Stop,
    }
}

/// What a read that left `chunk` at the start of the buffer makes the relay write.
pub open spec fn written_for(chunk: Seq<u8>) -> Seq<u8> {
    match relay_answer(RelayEvent::Read(Some(chunk.len() as usize))) {
        RelayAction::Write(n) => chunk.take(n as int),
        _ => Seq::empty(),
    }
}

/// What the relay has written after the reads `chunks`.
pub open spec fn written(chunks: Seq<Seq<u8>>) -> Seq<u8>
    decreases chunks.len(),
{
    if chunks.len() == 0 {
        Seq::empty()
    } else {
        written(chunks.drop_last()) + written_for(chunks.last())
    }
}

/// While no write fails, the sink gets exactly the bytes that the source gave, in
/// their order.
pub proof fn law_relay_preserves_stream(chunks: Seq<Seq<u8>>)
    requires
        forall|i: int| 0 <= i < chunks.len() ==> (#[trigger] chunks[i]).len() <= RELAY_BUF_LEN,
    ensures
        written(chunks) == chunks.flatten(),
    decreases chunks.len(),
{
    if chunks.len() == 0 {
        assert(chunks.flatten() =~= Seq::empty());
    } else {
        let init = chunks.drop_last();
        assert forall|i: int| 0 <= i < init.len() implies (#[trigger] init[i]).len()
            <= RELAY_BUF_LEN by {
            assert(init[i] == chunks[i]);
        }
        law_relay_preserves_stream(init);
        let last = chunks.last();
        assert(last == chunks[chunks.len() - 1]);
        assert(written_for(last) =~= last);
        chunks.lemma_flatten_and_flatten_alt_are_equivalent();
        init.lemma_flatten_and_flatten_alt_are_equivalent();
        assert(chunks.flatten_alt() =~= init.flatten_alt() + last);
    }
}

/// The relay writes exactly after a read that gave bytes, and as many as it gave;
/// it stops exactly after a failure, and reads on after everything else.
pub proof fn law_relay_answers(event: RelayEvent, n: usize)
    ensures
        relay_answer(event) == RelayAction::Write(n) <==> n > 0 && event == RelayEvent::Read(
            Some(n),
        ),
        relay_answer(event) == RelayAction::Stop <==> (event == RelayEvent::ReadFailed || event
            == RelayEvent::WriteFailed),
        relay_answer(event) == RelayAction::Read <==> (event == RelayEvent::Written || event
            == RelayEvent::Read(None) || event == RelayEvent::Read(Some(0))),
{
}

/// Reads one after the other write what each of them gave, one after the other.
pub proof fn law_written_grows(chunks: Seq<Seq<u8>>, chunk: Seq<u8>)
    requires
        chunk.len() <= RELAY_BUF_LEN,
    ensures
        written(Seq::empty()) == Seq::<u8>::empty(),
        written(chunks.push(chunk)) == written(chunks) + chunk,
{
    assert(chunks.push(chunk).drop_last() =~= chunks);
    assert(written_for(chunk) =~= chunk);
}

/// What [`relay_step`] asks for: a write exactly after a read that gave bytes, of as
/// many as it gave, and an end exactly after a failure.
pub proof fn law_relay_step(event: RelayEvent, action: RelayAction)
    requires
        call_ensures(relay_step, (event,), action),
    ensures
        action matches RelayAction::Write(n) ==> n > 0 && event == RelayEvent::Read(Some(n)),
        event matches RelayEvent::Read(Some(n)) ==> (n > 0 ==> action == RelayAction::Write(n)),
        action is Stop <==> (event is ReadFailed || event is WriteFailed),
{
}

/// A session takes its steps in order: the SSH server is reached before a stream is
/// accepted, and both directions are relayed only then. A failure at any step, and
/// the end of a direction, closes the session.
pub proof fn law_session_in_order(event: SessionEvent, action: SessionAction)
    requires
        call_ensures(session_step, (event,), action),
    ensures
        action is ConnectSsh <==> event is Opened,
        action is AcceptStream <==> event is SshConnected,
        action is Relay <==> event is StreamAccepted,
        action is Close <==> (event is SshFailed || event is StreamFailed || event
            is DirectionEnded),
{
}

} // verus!
