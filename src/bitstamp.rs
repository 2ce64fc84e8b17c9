use vstd::prelude::*;

use crate::exchange::Exchange;
use crate::text::same_text;

verus! {

/// The Bitstamp exchange.
pub struct Bitstamp;

impl Exchange for Bitstamp {
    open spec fn spec_name() -> Seq<char> {
        "bitstamp"@
    }

    fn get_name() -> (r: &'static str) {
        "bitstamp"
    }
}

/// Where Bitstamp serves its streams.
pub const BITSTAMP_WEB_SOCKET_URL: &'static str = "wss://ws.bitstamp.net/";

/// The channel of a subscription request.
pub struct BitstampSubscriptionData {
    pub channel: String,
}

/// A request sent to Bitstamp after connecting.
pub struct BitstampSubscription {
    pub event: String,
    pub data: BitstampSubscriptionData,
}

impl BitstampSubscription {
    pub fn new(event: &str, channel: String) -> (r: Self)
        ensures
            r.event@ == event@,
            r.data.channel == channel,
    {
        BitstampSubscription { event: String::from_str(event), data: BitstampSubscriptionData { channel } }
    }

    /// The request that subscribes to the order book of `pair`.
    pub fn order_book(pair: &str) -> (r: Self)
        ensures
            r.event@ == "bts:subscribe"@,
            r.data.channel@ == "order_book_"@ + pair@,
    {
        let mut channel = String::from_str("order_book_");
        channel.append(pair);
        BitstampSubscription::new("bts:subscribe", channel)
    }
}

/// The kinds of message Bitstamp sends on a subscribed stream.
#[derive(Clone, Copy, Debug, PartialEq, Eq, Structural)]
pub enum BitstampWebSocketEvent {
    BtsSubscriptionSucceded,
    Data,
}

impl BitstampWebSocketEvent {
    /// The kind named `name` on the wire.
    pub fn from_name(name: &str) -> (r: Option<Self>)
        ensures
            r == (if name@ == "bts:subscription_succeeded"@ {
                Some(BitstampWebSocketEvent::BtsSubscriptionSucceded)
            } else if name@ == "data"@ {
                Some(BitstampWebSocketEvent::Data)
            } else {
                None
            }),
    {
        if same_text(name, "bts:subscription_succeeded") {
            Some(BitstampWebSocketEvent::BtsSubscriptionSucceded)
        } else if same_text(name, "data") {
            Some(BitstampWebSocketEvent::Data)
        } else {
            None
        }
    }
}

/// Whether a message with event `name` carries an order book; every other
/// message is a control message and is left alone.
pub fn is_depth_event(name: &str) -> (r: bool)
    ensures
        r == (name@ == "data"@),
{
    proof {
        reveal_strlit("data");
        reveal_strlit("bts:subscription_succeeded");
        assert("bts:subscription_succeeded"@.len() != "data"@.len());
    }
    match BitstampWebSocketEvent::from_name(name) {
        Some(BitstampWebSocketEvent::Data) => true,
        _ => false,
    }
}

} // verus!
