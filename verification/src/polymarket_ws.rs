//! Subscription batching and timestamp reading of the live price feed.
use vstd::prelude::*;

use crate::text::{chars_of, parse_u64, parse_u64_spec};

verus! {

/// Maximum number of assets named in one subscription message.
pub const MAX_ASSETS_PER_SUB: usize = 50;

/// `s` cut into consecutive pieces of `n` items, the last one possibly shorter.
pub open spec fn chunks_spec<A>(s: Seq<A>, n: nat) -> Seq<Seq<A>>
    recommends
        n > 0,
    decreases s.len(),
{
    if s.len() == 0 || n == 0 {
        seq![]
    } else {
        let k = if s.len() < n {
            s.len()
        } else {
            n
        };
        seq![s.take(k as int)] + chunks_spec(s.skip(k as int), n)
    }
}

pub open spec fn batches_view(v: Seq<Vec<String>>) -> Seq<Seq<String>> {
    v.map_values(|b: Vec<String>| b@)
}

/// Token ids of each subscription message, in the order they are sent: consecutive
/// batches of at most [`MAX_ASSETS_PER_SUB`] ids.
pub fn subscription_batches(token_ids: &Vec<String>) -> (batches: Vec<Vec<String>>)
    ensures
        batches_view(batches@) == chunks_spec(token_ids@, MAX_ASSETS_PER_SUB as nat),
{
    let mut batches: Vec<Vec<String>> = Vec::new();
    let n = token_ids.len();
    let mut i: usize = 0;
    assert(token_ids@.skip(0) == token_ids@);
    assert(batches_view(batches@) == Seq::<Seq<String>>::empty());
    while i < n
        invariant
            n == token_ids@.len(),
            i <= n,
            chunks_spec(token_ids@, MAX_ASSETS_PER_SUB as nat) == batches_view(batches@)
                + chunks_spec(token_ids@.skip(i as int), MAX_ASSETS_PER_SUB as nat),
        decreases n - i,
    {
        let k: usize = if n - i < MAX_ASSETS_PER_SUB {
            n - i
        } else {
            MAX_ASSETS_PER_SUB
        };
        let mut batch: Vec<String> = Vec::new();
        let mut j: usize = 0;
        while j < k
            invariant
                n == token_ids@.len(),
                i + k <= n,
                j <= k,
                batch@ == token_ids@.subrange(i as int, (i + j) as int),
            decreases k - j,
        {
            batch.push(token_ids[i + j].clone());
            j += 1;
        }
        let ghost rest = token_ids@.skip(i as int);
        assert(rest.take(k as int) == batch@);
        assert(rest.skip(k as int) == token_ids@.skip((i + k) as int));
        assert(chunks_spec(rest, MAX_ASSETS_PER_SUB as nat) == seq![batch@] + chunks_spec(
            token_ids@.skip((i + k) as int),
            MAX_ASSETS_PER_SUB as nat,
        ));
        let ghost prev = batches@;
        batches.push(batch);
        assert(batches_view(batches@) == batches_view(prev).push(batch@));
        i += k;
    }
    assert(token_ids@.skip(n as int) == Seq::<String>::empty());
    batches
}

/// Law: the subscription batches, sent in order, name every token id once and in order,
/// and each batch holds between one and [`MAX_ASSETS_PER_SUB`] ids.
pub proof fn lemma_batches_cover<A>(ids: Seq<A>, n: nat)
    requires
        n > 0,
    ensures
        chunks_spec(ids, n).flatten() == ids,
        forall|i: int|
            0 <= i < chunks_spec(ids, n).len() ==> 0 < (#[trigger] chunks_spec(ids, n)[i]).len() <= n,
        forall|i: int|
            0 <= i < chunks_spec(ids, n).len() - 1 ==> (#[trigger] chunks_spec(ids, n)[i]).len() == n,
    decreases ids.len(),
{
    if ids.len() > 0 {
        let k = if ids.len() < n {
            ids.len()
        } else {
            n
        };
        let rest = ids.skip(k as int);
        lemma_batches_cover(rest, n);
        let c = chunks_spec(ids, n);
        assert(c == seq![ids.take(k as int)] + chunks_spec(rest, n));
        assert(c.first() == ids.take(k as int));
        assert(c.drop_first() == chunks_spec(rest, n));
        assert(ids.take(k as int) + rest == ids);
        assert forall|i: int| 0 <= i < c.len() implies 0 < (#[trigger] c[i]).len() <= n by {
            if i > 0 {
                assert(c[i] == chunks_spec(rest, n)[i - 1]);
            }
        }
        assert forall|i: int| 0 <= i < c.len() - 1 implies (#[trigger] c[i]).len() == n by {
            if i > 0 {
                assert(c[i] == chunks_spec(rest, n)[i - 1]);
            } else {
                assert(rest.len() > 0);
            }
        }
    } else {
        assert(chunks_spec(ids, n) == Seq::<Seq<A>>::empty());
    }
}

/// The `timestamp` field of a trade event, as read from its JSON: a number (with its
/// `as_u64` value), a string, or anything else.
#[derive(Debug, Clone, PartialEq, Eq)]
pub enum TimestampField {
    Number(Option<u64>),
    Text(String),
    Other,
}

/// Milliseconds stated by a timestamp field: a number that is a `u64`, or a string that
/// `u64::from_str` accepts.
pub open spec fn timestamp_ms_spec(val: TimestampField) -> Option<u64> {
    match val {
        TimestampField::Number(n) => n,
        TimestampField::Text(s) => parse_u64_spec(s@),
        TimestampField::Other => None,
    }
}

/// Reads the millisecond timestamp of a trade event.
pub fn parse_timestamp_ms(val: &TimestampField) -> (r: Option<u64>)
    ensures
        r == timestamp_ms_spec(*val),
{
    match val {
        TimestampField::Number(n) => *n,
        TimestampField::Text(s) => {
            let cs = chars_of(s.as_str());
            parse_u64(cs.as_slice())
        },
        TimestampField::Other => None,
    }
}

// ── Connection life cycle ────────────────────────────────────────────────────────

/// Pause before reconnecting after a failed connection attempt, in seconds.
pub const CONNECT_RETRY_SECS: u64 = 5;

/// Pause before reconnecting after a failed send or a lost stream, in seconds.
pub const RECONNECT_SECS: u64 = 3;

/// Where the listener stands.
#[derive(Debug, Clone, Copy, PartialEq, Eq, Structural)]
pub enum WsPhase {
    /// Not connected; waiting for a non-empty list of token ids.
    AwaitTokens,
    /// Opening the connection.
    Connecting,
    /// Sending the opening handshake.
    Handshaking,
    /// Sending the subscriptions of a fresh connection.
    Subscribing,
    /// Connected and subscribed; reading messages.
    Streaming,
    /// The token channel is closed; the listener has ended.
    Stopped,
}

/// What the listener learns from the outside work it asked for.
#[derive(Debug, Clone, Copy, PartialEq, Eq, Structural)]
pub enum WsEvent {
    /// The current token list was read; whether it is empty.
    Tokens { empty: bool },
    /// The token channel was closed by its sender.
    ChannelClosed,
    Connected,
    ConnectFailed,
    /// A message was sent.
    Sent,
    SendFailed,
    /// A text message arrived.
    Text,
    /// A ping arrived.
    Ping,
    /// The server closed the connection.
    Close,
    StreamError,
    StreamEnded,
    /// The keep-alive timer fired.
    PingDue,
    /// A new token list was published.
    TokensChanged,
}

/// The outside work the listener asks for next.
#[derive(Debug, Clone, Copy, PartialEq, Eq, Structural)]
pub enum WsAction {
    /// Wait for the token list to change, then read it.
    WaitForTokens,
    Connect,
    SendHandshake,
    /// Send the current token list as subscription batches.
    Subscribe,
    /// Wait for the next message, keep-alive tick or token change.
    Listen,
    /// Forward the price updates of the text message, then listen.
    HandleText,
    /// Answer the ping, ignoring a failure, then listen.
    SendPong,
    SendPing,
    /// Drop the connection, pause, then read the token list again.
    Sleep { secs: u64 },
    /// End the listener.
    Stop,
}

/// The reconnect that follows a failure: pause `secs`, then start over from the token list.
pub open spec fn reconnect_after(secs: u64) -> (WsPhase, WsAction) {
    (WsPhase::AwaitTokens, WsAction::Sleep { secs })
}

/// Next phase and action of the listener in phase `p` on event `e`. A closed token channel
/// ends it from any phase; a failed connection attempt is retried after
/// [`CONNECT_RETRY_SECS`], a failed send or a lost stream after [`RECONNECT_SECS`]; a new
/// token list while streaming is subscribed on the open connection. An event that the
/// phase does not expect is treated as a lost stream.
pub open spec fn ws_step_spec(p: WsPhase, e: WsEvent) -> (WsPhase, WsAction) {
    if p == WsPhase::Stopped || e == WsEvent::ChannelClosed {
        (WsPhase::Stopped, WsAction::Stop)
    } else {
        match p {
            WsPhase::AwaitTokens => match e {
                WsEvent::Tokens { empty } => if empty {
                    (WsPhase::AwaitTokens, WsAction::WaitForTokens)
                } else {
                    (WsPhase::Connecting, WsAction::Connect)
                },
                _ => reconnect_after(RECONNECT_SECS),
            },
            WsPhase::Connecting => match e {
                WsEvent::Connected => (WsPhase::Handshaking, WsAction::SendHandshake),
                WsEvent::ConnectFailed => reconnect_after(CONNECT_RETRY_SECS),
                _ => reconnect_after(RECONNECT_SECS),
            },
            WsPhase::Handshaking => match e {
                WsEvent::Sent => (WsPhase::Subscribing, WsAction::Subscribe),
                _ => reconnect_after(RECONNECT_SECS),
            },
            WsPhase::Subscribing => match e {
                WsEvent::Sent => (WsPhase::Streaming, WsAction::Listen),
                _ => reconnect_after(RECONNECT_SECS),
            },
            _ => match e {
                WsEvent::Text => (WsPhase::Streaming, WsAction::HandleText),
                WsEvent::Ping => (WsPhase::Streaming, WsAction::SendPong),
                WsEvent::PingDue => (WsPhase::Streaming, WsAction::SendPing),
                WsEvent::TokensChanged => (WsPhase::Streaming, WsAction::Subscribe),
                WsEvent::Sent => (WsPhase::Streaming, WsAction::Listen),
                _ => reconnect_after(RECONNECT_SECS),
            },
        }
    }
}

/// One decision of the live-price listener: from its phase and the outcome of the last
/// piece of outside work, the next phase and the work to do.
pub fn ws_step(p: WsPhase, e: WsEvent) -> (r: (WsPhase, WsAction))
    ensures
        r == ws_step_spec(p, e),
{
    if p == WsPhase::Stopped {
        return (WsPhase::Stopped, WsAction::Stop);
    }
    if let WsEvent::ChannelClosed = e {
        return (WsPhase::Stopped, WsAction::Stop);
    }
    let lost = (WsPhase::AwaitTokens, WsAction::Sleep { secs: RECONNECT_SECS });
    match p {
        WsPhase::AwaitTokens => match e {
            WsEvent::Tokens { empty } => if empty {
                (WsPhase::AwaitTokens, WsAction::WaitForTokens)
            } else {
                (WsPhase::Connecting, WsAction::Connect)
            },
            _ => lost,
        },
        WsPhase::Connecting => match e {
            WsEvent::Connected => (WsPhase::Handshaking, WsAction::SendHandshake),
            WsEvent::ConnectFailed => (
                WsPhase::AwaitTokens,
                WsAction::Sleep { secs: CONNECT_RETRY_SECS },
            ),
            _ => lost,
        },
        WsPhase::Handshaking => match e {
            WsEvent::Sent => (WsPhase::Subscribing, WsAction::Subscribe),
            _ => lost,
        },
        WsPhase::Subscribing => match e {
            WsEvent::Sent => (WsPhase::Streaming, WsAction::Listen),
            _ => lost,
        },
        _ => match e {
            WsEvent::Text => (WsPhase::Streaming, WsAction::HandleText),
            WsEvent::Ping => (WsPhase::Streaming, WsAction::SendPong),
            WsEvent::PingDue => (WsPhase::Streaming, WsAction::SendPing),
            WsEvent::TokensChanged => (WsPhase::Streaming, WsAction::Subscribe),
            WsEvent::Sent => (WsPhase::Streaming, WsAction::Listen),
            _ => lost,
        },
    }
}

/// Law: a new token list while streaming is subscribed on the open connection, with no
/// reconnect; once that subscription is sent, streaming goes on.
pub proof fn lemma_resubscribe_in_place()
    ensures
        ws_step_spec(WsPhase::Streaming, WsEvent::TokensChanged) == (
            WsPhase::Streaming,
            WsAction::Subscribe,
        ),
        ws_step_spec(WsPhase::Streaming, WsEvent::Sent) == (WsPhase::Streaming, WsAction::Listen),
{
}

/// Law: a closed token channel stops the listener from every phase, and a stopped listener
/// stays stopped.
pub proof fn lemma_channel_closed_stops(p: WsPhase, e: WsEvent)
    ensures
        ws_step_spec(p, WsEvent::ChannelClosed) == (WsPhase::Stopped, WsAction::Stop),
        ws_step_spec(WsPhase::Stopped, e) == (WsPhase::Stopped, WsAction::Stop),
{
}

/// Law: a failed connection attempt pauses 5 s and a failed send or lost stream pauses 3 s;
/// either way the listener then starts over from the token list and, when there are
/// tokens, connects again.
pub proof fn lemma_failures_back_off(p: WsPhase, e: WsEvent)
    requires
        p != WsPhase::Stopped,
        p != WsPhase::AwaitTokens,
        e == WsEvent::SendFailed || e == WsEvent::Close || e == WsEvent::StreamError || e
            == WsEvent::StreamEnded,
    ensures
        ws_step_spec(WsPhase::Connecting, WsEvent::ConnectFailed) == (
            WsPhase::AwaitTokens,
            WsAction::Sleep { secs: 5 },
        ),
        ws_step_spec(p, e) == (WsPhase::AwaitTokens, WsAction::Sleep { secs: 3 }),
        ws_step_spec(WsPhase::AwaitTokens, WsEvent::Tokens { empty: false }) == (
            WsPhase::Connecting,
            WsAction::Connect,
        ),
{
}

/// Law: with no tokens the listener waits and never connects.
pub proof fn lemma_no_tokens_no_connection()
    ensures
        ws_step_spec(WsPhase::AwaitTokens, WsEvent::Tokens { empty: true }) == (
            WsPhase::AwaitTokens,
            WsAction::WaitForTokens,
        ),
{
}

} // verus!
