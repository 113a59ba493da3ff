//! The connection endpoint and the outbound bid command.
use vstd::prelude::*;

use crate::codec::{enc_message, encode_message, push_all};
use crate::digits::{dec_digits, u64_digits};
use crate::literals::{lit_bidder_prefix, lit_bidder_prefix_v, lit_fallback_host,
    lit_fallback_host_v, lit_place_bid, lit_place_bid_v, lit_scheme_sep, lit_scheme_sep_v, lit_ws, lit_ws_path,
    lit_ws_path_v, lit_ws_v, lit_wss, lit_wss_v};
use crate::msg::{Bid, BidModel, Message, MessageModel};

verus! {

/// The server endpoint for a page: `ws` or `wss` after the page's own
/// scheme, the page's host (or the fallback when it is unknown), and
/// the `/ws` path.
pub open spec fn spec_ws_url(secure: bool, host: Option<Seq<u8>>) -> Seq<u8> {
    (if secure {
        lit_wss()
    } else {
        lit_ws()
    }) + lit_scheme_sep() + (match host {
        Option::Some(h) => h,
        Option::None => lit_fallback_host(),
    }) + lit_ws_path()
}

/// Derives the endpoint URL that the connection is opened to.
pub fn ws_url(secure: bool, host: Option<Vec<u8>>) -> (r: Vec<u8>)
    ensures
        r@ == spec_ws_url(secure, host.deep_view()),
{
    let mut r = if secure {
        lit_wss_v()
    } else {
        lit_ws_v()
    };
    push_all(&mut r, &lit_scheme_sep_v());
    match host {
        Option::Some(h) => push_all(&mut r, &h),
        Option::None => push_all(&mut r, &lit_fallback_host_v()),
    }
    push_all(&mut r, &lit_ws_path_v());
    proof {
        assert(r@ =~= spec_ws_url(secure, host.deep_view()));
    }
    r
}

/// The clock value as the bidder number: held to 32 bits, saturating,
/// as the host's narrowing of the clock reading does.
pub open spec fn spec_bidder_num(now_ms: u64) -> u64 {
    if now_ms > 0xFFFF_FFFF {
        0xFFFF_FFFF
    } else {
        now_ms
    }
}

/// The outbound envelope that a submission at `now_ms` produces: a
/// `place_bid` carrying only the bid, whose identity and timestamp are
/// derived from the clock.
pub open spec fn spec_place_bid_message(amount: u64, now_ms: u64) -> MessageModel {
    MessageModel {
        msg_type: lit_place_bid(),
        auction: Option::None,
        bid: Option::Some(
            BidModel {
                bidder_id: lit_bidder_prefix() + dec_digits(spec_bidder_num(now_ms) as nat),
                amount,
                timestamp: dec_digits(now_ms as nat),
            },
        ),
    }
}

/// Submits a bid: builds the bid record, wraps and encodes it, and
/// hands back the frame to transmit. With no registered connection the
/// submission is a silent no-op and no frame leaves. The auction id is
/// not part of the wire command; it serves the caller's diagnostics.
pub fn place_bid(auction_id: &Vec<u8>, amount: u64, now_ms: u64, connected: bool) -> (r: Option<
    Vec<u8>,
>)
    ensures
        connected ==> (r matches Some(f) && f@ == enc_message(
            spec_place_bid_message(amount, now_ms),
            true,
        )),
        !connected ==> r is None,
{
    let _ = auction_id;
    if !connected {
        return Option::None;
    }
    let mut bidder_id = lit_bidder_prefix_v();
    let num = if now_ms > 0xFFFF_FFFF {
        0xFFFF_FFFFu64
    } else {
        now_ms
    };
    let d = u64_digits(num);
    push_all(&mut bidder_id, &d);
    let bid = Bid { bidder_id, amount, timestamp: u64_digits(now_ms) };
    let msg = Message { msg_type: lit_place_bid_v(), auction: Option::None, bid: Option::Some(bid) };
    proof {
        assert(msg@ =~= spec_place_bid_message(amount, now_ms));
    }
    let frame = encode_message(&msg);
    Option::Some(frame)
}

} // verus!
