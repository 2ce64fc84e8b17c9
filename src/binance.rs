use vstd::prelude::*;

use crate::exchange::Exchange;
use crate::text::{append_int, int_text};

verus! {

/// The Binance exchange.
pub struct Binance;

impl Exchange for Binance {
    open spec fn spec_name() -> Seq<char> {
        "binance"@
    }

    fn get_name() -> (r: &'static str) {
        "binance"
    }
}

/// Where Binance streams depth updates; a stream's name follows it.
pub const BINANCE_WEB_SOCKET_URL: &'static str = "wss://stream.binance.com:9443/ws/";

/// A Binance depth stream: the pair, how many levels a side holds, and how
/// often (in milliseconds) an update comes.
pub struct BinanceSubscription<'a> {
    pub pair: &'a String,
    pub depth: i32,
    pub update_speed: i32,
}

impl<'a> BinanceSubscription<'a> {
    pub fn new(pair: &'a String, depth: i32, update_speed: i32) -> (r: Self)
        ensures
            r.pair == pair,
            r.depth == depth,
            r.update_speed == update_speed,
    {
        BinanceSubscription { pair, depth, update_speed }
    }

    /// The stream's address under `base`:
    /// `<base><pair>@depth<depth>@<update_speed>ms`.
    pub open spec fn spec_url(&self, base: Seq<char>) -> Seq<char> {
        base + self.pair@ + "@depth"@ + int_text(self.depth as int) + "@"@ + int_text(
            self.update_speed as int,
        ) + "ms"@
    }

    /// The stream's address on Binance.
    pub fn to_url(&self) -> (r: String)
        ensures
            r@ == self.spec_url(BINANCE_WEB_SOCKET_URL@),
    {
        self.url_under(BINANCE_WEB_SOCKET_URL)
    }

    /// The stream's address under another endpoint, such as a local one.
    pub fn url_under(&self, base: &str) -> (r: String)
        ensures
            r@ == self.spec_url(base@),
    {
        let mut url = String::from_str(base);
        url.append(self.pair.as_str());
        url.append("@depth");
        append_int(&mut url, self.depth);
        url.append("@");
        append_int(&mut url, self.update_speed);
        url.append("ms");
        url
    }
}

} // verus!
