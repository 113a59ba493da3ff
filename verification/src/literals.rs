//! The byte constants of the wire format and of the rendered labels.
use vstd::prelude::*;

verus! {

/// The bytes of `{"type":`.
pub open spec fn lit_type_key() -> Seq<u8> {
    seq![123u8, 34u8, 116u8, 121u8, 112u8, 101u8, 34u8, 58u8]
}

/// The bytes of `{"type":`.
pub fn lit_type_key_v() -> (v: Vec<u8>)
    ensures
        v@ == lit_type_key(),
{
    let v: Vec<u8> = vec![123u8, 34u8, 116u8, 121u8, 112u8, 101u8, 34u8, 58u8];
    proof {
        assert(v@ =~= lit_type_key());
    }
    v
}

/// The bytes of `,"auction":`.
pub open spec fn lit_auction_key() -> Seq<u8> {
    seq![44u8, 34u8, 97u8, 117u8, 99u8, 116u8, 105u8, 111u8, 110u8, 34u8, 58u8]
}

/// The bytes of `,"auction":`.
pub fn lit_auction_key_v() -> (v: Vec<u8>)
    ensures
        v@ == lit_auction_key(),
{
    let v: Vec<u8> = vec![44u8, 34u8, 97u8, 117u8, 99u8, 116u8, 105u8, 111u8, 110u8, 34u8, 58u8];
    proof {
        assert(v@ =~= lit_auction_key());
    }
    v
}

/// The bytes of `,"bid":`.
pub open spec fn lit_bid_key() -> Seq<u8> {
    seq![44u8, 34u8, 98u8, 105u8, 100u8, 34u8, 58u8]
}

/// The bytes of `,"bid":`.
pub fn lit_bid_key_v() -> (v: Vec<u8>)
    ensures
        v@ == lit_bid_key(),
{
    let v: Vec<u8> = vec![44u8, 34u8, 98u8, 105u8, 100u8, 34u8, 58u8];
    proof {
        assert(v@ =~= lit_bid_key());
    }
    v
}

/// The bytes of `null`.
pub open spec fn lit_null() -> Seq<u8> {
    seq![110u8, 117u8, 108u8, 108u8]
}

/// The bytes of `null`.
pub fn lit_null_v() -> (v: Vec<u8>)
    ensures
        v@ == lit_null(),
{
    let v: Vec<u8> = vec![110u8, 117u8, 108u8, 108u8];
    proof {
        assert(v@ =~= lit_null());
    }
    v
}

/// The bytes of `{"id":`.
pub open spec fn key_id() -> Seq<u8> {
    seq![123u8, 34u8, 105u8, 100u8, 34u8, 58u8]
}

/// The bytes of `{"id":`.
pub fn key_id_v() -> (v: Vec<u8>)
    ensures
        v@ == key_id(),
{
    let v: Vec<u8> = vec![123u8, 34u8, 105u8, 100u8, 34u8, 58u8];
    proof {
        assert(v@ =~= key_id());
    }
    v
}

/// The bytes of `,"title":`.
pub open spec fn key_title() -> Seq<u8> {
    seq![44u8, 34u8, 116u8, 105u8, 116u8, 108u8, 101u8, 34u8, 58u8]
}

/// The bytes of `,"title":`.
pub fn key_title_v() -> (v: Vec<u8>)
    ensures
        v@ == key_title(),
{
    let v: Vec<u8> = vec![44u8, 34u8, 116u8, 105u8, 116u8, 108u8, 101u8, 34u8, 58u8];
    proof {
        assert(v@ =~= key_title());
    }
    v
}

/// The bytes of `,"description":`.
pub open spec fn key_description() -> Seq<u8> {
    seq![44u8, 34u8, 100u8, 101u8, 115u8, 99u8, 114u8, 105u8, 112u8, 116u8, 105u8, 111u8, 110u8, 34u8, 58u8]
}

/// The bytes of `,"description":`.
pub fn key_description_v() -> (v: Vec<u8>)
    ensures
        v@ == key_description(),
{
    let v: Vec<u8> = vec![44u8, 34u8, 100u8, 101u8, 115u8, 99u8, 114u8, 105u8, 112u8, 116u8, 105u8, 111u8, 110u8, 34u8, 58u8];
    proof {
        assert(v@ =~= key_description());
    }
    v
}

/// The bytes of `,"start_price":`.
pub open spec fn key_start_price() -> Seq<u8> {
    seq![44u8, 34u8, 115u8, 116u8, 97u8, 114u8, 116u8, 95u8, 112u8, 114u8, 105u8, 99u8, 101u8, 34u8, 58u8]
}

/// The bytes of `,"start_price":`.
pub fn key_start_price_v() -> (v: Vec<u8>)
    ensures
        v@ == key_start_price(),
{
    let v: Vec<u8> = vec![44u8, 34u8, 115u8, 116u8, 97u8, 114u8, 116u8, 95u8, 112u8, 114u8, 105u8, 99u8, 101u8, 34u8, 58u8];
    proof {
        assert(v@ =~= key_start_price());
    }
    v
}

/// The bytes of `,"current_bid":`.
pub open spec fn key_current_bid() -> Seq<u8> {
    seq![44u8, 34u8, 99u8, 117u8, 114u8, 114u8, 101u8, 110u8, 116u8, 95u8, 98u8, 105u8, 100u8, 34u8, 58u8]
}

/// The bytes of `,"current_bid":`.
pub fn key_current_bid_v() -> (v: Vec<u8>)
    ensures
        v@ == key_current_bid(),
{
    let v: Vec<u8> = vec![44u8, 34u8, 99u8, 117u8, 114u8, 114u8, 101u8, 110u8, 116u8, 95u8, 98u8, 105u8, 100u8, 34u8, 58u8];
    proof {
        assert(v@ =~= key_current_bid());
    }
    v
}

/// The bytes of `,"highest_bidder":`.
pub open spec fn key_highest_bidder() -> Seq<u8> {
    seq![44u8, 34u8, 104u8, 105u8, 103u8, 104u8, 101u8, 115u8, 116u8, 95u8, 98u8, 105u8, 100u8, 100u8, 101u8, 114u8, 34u8, 58u8]
}

/// The bytes of `,"highest_bidder":`.
pub fn key_highest_bidder_v() -> (v: Vec<u8>)
    ensures
        v@ == key_highest_bidder(),
{
    let v: Vec<u8> = vec![44u8, 34u8, 104u8, 105u8, 103u8, 104u8, 101u8, 115u8, 116u8, 95u8, 98u8, 105u8, 100u8, 100u8, 101u8, 114u8, 34u8, 58u8];
    proof {
        assert(v@ =~= key_highest_bidder());
    }
    v
}

/// The bytes of `,"bid_count":`.
pub open spec fn key_bid_count() -> Seq<u8> {
    seq![44u8, 34u8, 98u8, 105u8, 100u8, 95u8, 99u8, 111u8, 117u8, 110u8, 116u8, 34u8, 58u8]
}

/// The bytes of `,"bid_count":`.
pub fn key_bid_count_v() -> (v: Vec<u8>)
    ensures
        v@ == key_bid_count(),
{
    let v: Vec<u8> = vec![44u8, 34u8, 98u8, 105u8, 100u8, 95u8, 99u8, 111u8, 117u8, 110u8, 116u8, 34u8, 58u8];
    proof {
        assert(v@ =~= key_bid_count());
    }
    v
}

/// The bytes of `,"status":`.
pub open spec fn key_status() -> Seq<u8> {
    seq![44u8, 34u8, 115u8, 116u8, 97u8, 116u8, 117u8, 115u8, 34u8, 58u8]
}

/// The bytes of `,"status":`.
pub fn key_status_v() -> (v: Vec<u8>)
    ensures
        v@ == key_status(),
{
    let v: Vec<u8> = vec![44u8, 34u8, 115u8, 116u8, 97u8, 116u8, 117u8, 115u8, 34u8, 58u8];
    proof {
        assert(v@ =~= key_status());
    }
    v
}

/// The bytes of `,"start_time":`.
pub open spec fn key_start_time() -> Seq<u8> {
    seq![44u8, 34u8, 115u8, 116u8, 97u8, 114u8, 116u8, 95u8, 116u8, 105u8, 109u8, 101u8, 34u8, 58u8]
}

/// The bytes of `,"start_time":`.
pub fn key_start_time_v() -> (v: Vec<u8>)
    ensures
        v@ == key_start_time(),
{
    let v: Vec<u8> = vec![44u8, 34u8, 115u8, 116u8, 97u8, 114u8, 116u8, 95u8, 116u8, 105u8, 109u8, 101u8, 34u8, 58u8];
    proof {
        assert(v@ =~= key_start_time());
    }
    v
}

/// The bytes of `,"end_time":`.
pub open spec fn key_end_time() -> Seq<u8> {
    seq![44u8, 34u8, 101u8, 110u8, 100u8, 95u8, 116u8, 105u8, 109u8, 101u8, 34u8, 58u8]
}

/// The bytes of `,"end_time":`.
pub fn key_end_time_v() -> (v: Vec<u8>)
    ensures
        v@ == key_end_time(),
{
    let v: Vec<u8> = vec![44u8, 34u8, 101u8, 110u8, 100u8, 95u8, 116u8, 105u8, 109u8, 101u8, 34u8, 58u8];
    proof {
        assert(v@ =~= key_end_time());
    }
    v
}

/// The bytes of `{"bidder_id":`.
pub open spec fn key_bidder_id() -> Seq<u8> {
    seq![123u8, 34u8, 98u8, 105u8, 100u8, 100u8, 101u8, 114u8, 95u8, 105u8, 100u8, 34u8, 58u8]
}

/// The bytes of `{"bidder_id":`.
pub fn key_bidder_id_v() -> (v: Vec<u8>)
    ensures
        v@ == key_bidder_id(),
{
    let v: Vec<u8> = vec![123u8, 34u8, 98u8, 105u8, 100u8, 100u8, 101u8, 114u8, 95u8, 105u8, 100u8, 34u8, 58u8];
    proof {
        assert(v@ =~= key_bidder_id());
    }
    v
}

/// The bytes of `,"amount":`.
pub open spec fn key_amount() -> Seq<u8> {
    seq![44u8, 34u8, 97u8, 109u8, 111u8, 117u8, 110u8, 116u8, 34u8, 58u8]
}

/// The bytes of `,"amount":`.
pub fn key_amount_v() -> (v: Vec<u8>)
    ensures
        v@ == key_amount(),
{
    let v: Vec<u8> = vec![44u8, 34u8, 97u8, 109u8, 111u8, 117u8, 110u8, 116u8, 34u8, 58u8];
    proof {
        assert(v@ =~= key_amount());
    }
    v
}

/// The bytes of `,"timestamp":`.
pub open spec fn key_timestamp() -> Seq<u8> {
    seq![44u8, 34u8, 116u8, 105u8, 109u8, 101u8, 115u8, 116u8, 97u8, 109u8, 112u8, 34u8, 58u8]
}

/// The bytes of `,"timestamp":`.
pub fn key_timestamp_v() -> (v: Vec<u8>)
    ensures
        v@ == key_timestamp(),
{
    let v: Vec<u8> = vec![44u8, 34u8, 116u8, 105u8, 109u8, 101u8, 115u8, 116u8, 97u8, 109u8, 112u8, 34u8, 58u8];
    proof {
        assert(v@ =~= key_timestamp());
    }
    v
}

/// The bytes of `auction_update`.
pub open spec fn lit_auction_update() -> Seq<u8> {
    seq![97u8, 117u8, 99u8, 116u8, 105u8, 111u8, 110u8, 95u8, 117u8, 112u8, 100u8, 97u8, 116u8, 101u8]
}

/// The bytes of `auction_update`.
pub fn lit_auction_update_v() -> (v: Vec<u8>)
    ensures
        v@ == lit_auction_update(),
{
    let v: Vec<u8> = vec![97u8, 117u8, 99u8, 116u8, 105u8, 111u8, 110u8, 95u8, 117u8, 112u8, 100u8, 97u8, 116u8, 101u8];
    proof {
        assert(v@ =~= lit_auction_update());
    }
    v
}

/// The bytes of `bid_accepted`.
pub open spec fn lit_bid_accepted() -> Seq<u8> {
    seq![98u8, 105u8, 100u8, 95u8, 97u8, 99u8, 99u8, 101u8, 112u8, 116u8, 101u8, 100u8]
}

/// The bytes of `bid_accepted`.
pub fn lit_bid_accepted_v() -> (v: Vec<u8>)
    ensures
        v@ == lit_bid_accepted(),
{
    let v: Vec<u8> = vec![98u8, 105u8, 100u8, 95u8, 97u8, 99u8, 99u8, 101u8, 112u8, 116u8, 101u8, 100u8];
    proof {
        assert(v@ =~= lit_bid_accepted());
    }
    v
}

/// The bytes of `auction_ended`.
pub open spec fn lit_auction_ended() -> Seq<u8> {
    seq![97u8, 117u8, 99u8, 116u8, 105u8, 111u8, 110u8, 95u8, 101u8, 110u8, 100u8, 101u8, 100u8]
}

/// The bytes of `auction_ended`.
pub fn lit_auction_ended_v() -> (v: Vec<u8>)
    ensures
        v@ == lit_auction_ended(),
{
    let v: Vec<u8> = vec![97u8, 117u8, 99u8, 116u8, 105u8, 111u8, 110u8, 95u8, 101u8, 110u8, 100u8, 101u8, 100u8];
    proof {
        assert(v@ =~= lit_auction_ended());
    }
    v
}

/// The bytes of `place_bid`.
pub open spec fn lit_place_bid() -> Seq<u8> {
    seq![112u8, 108u8, 97u8, 99u8, 101u8, 95u8, 98u8, 105u8, 100u8]
}

/// The bytes of `place_bid`.
pub fn lit_place_bid_v() -> (v: Vec<u8>)
    ensures
        v@ == lit_place_bid(),
{
    let v: Vec<u8> = vec![112u8, 108u8, 97u8, 99u8, 101u8, 95u8, 98u8, 105u8, 100u8];
    proof {
        assert(v@ =~= lit_place_bid());
    }
    v
}

/// The bytes of `active`.
pub open spec fn lit_active() -> Seq<u8> {
    seq![97u8, 99u8, 116u8, 105u8, 118u8, 101u8]
}

/// The bytes of `active`.
pub fn lit_active_v() -> (v: Vec<u8>)
    ensures
        v@ == lit_active(),
{
    let v: Vec<u8> = vec![97u8, 99u8, 116u8, 105u8, 118u8, 101u8];
    proof {
        assert(v@ =~= lit_active());
    }
    v
}

/// The bytes of `ended`.
pub open spec fn lit_ended() -> Seq<u8> {
    seq![101u8, 110u8, 100u8, 101u8, 100u8]
}

/// The bytes of `ended`.
pub fn lit_ended_v() -> (v: Vec<u8>)
    ensures
        v@ == lit_ended(),
{
    let v: Vec<u8> = vec![101u8, 110u8, 100u8, 101u8, 100u8];
    proof {
        assert(v@ =~= lit_ended());
    }
    v
}

/// The bytes of `#00d4ff`.
pub open spec fn lit_color_accent() -> Seq<u8> {
    seq![35u8, 48u8, 48u8, 100u8, 52u8, 102u8, 102u8]
}

/// The bytes of `#00d4ff`.
pub fn lit_color_accent_v() -> (v: Vec<u8>)
    ensures
        v@ == lit_color_accent(),
{
    let v: Vec<u8> = vec![35u8, 48u8, 48u8, 100u8, 52u8, 102u8, 102u8];
    proof {
        assert(v@ =~= lit_color_accent());
    }
    v
}

/// The bytes of `#ff6b6b`.
pub open spec fn lit_color_alert() -> Seq<u8> {
    seq![35u8, 102u8, 102u8, 54u8, 98u8, 54u8, 98u8]
}

/// The bytes of `#ff6b6b`.
pub fn lit_color_alert_v() -> (v: Vec<u8>)
    ensures
        v@ == lit_color_alert(),
{
    let v: Vec<u8> = vec![35u8, 102u8, 102u8, 54u8, 98u8, 54u8, 98u8];
    proof {
        assert(v@ =~= lit_color_alert());
    }
    v
}

/// The bytes of `#8b5cf6`.
pub open spec fn lit_color_violet() -> Seq<u8> {
    seq![35u8, 56u8, 98u8, 53u8, 99u8, 102u8, 54u8]
}

/// The bytes of `#8b5cf6`.
pub fn lit_color_violet_v() -> (v: Vec<u8>)
    ensures
        v@ == lit_color_violet(),
{
    let v: Vec<u8> = vec![35u8, 56u8, 98u8, 53u8, 99u8, 102u8, 54u8];
    proof {
        assert(v@ =~= lit_color_violet());
    }
    v
}

/// The bytes of `Leader: `.
pub open spec fn lit_leader_prefix() -> Seq<u8> {
    seq![76u8, 101u8, 97u8, 100u8, 101u8, 114u8, 58u8, 32u8]
}

/// The bytes of `Leader: `.
pub fn lit_leader_prefix_v() -> (v: Vec<u8>)
    ensures
        v@ == lit_leader_prefix(),
{
    let v: Vec<u8> = vec![76u8, 101u8, 97u8, 100u8, 101u8, 114u8, 58u8, 32u8];
    proof {
        assert(v@ =~= lit_leader_prefix());
    }
    v
}

/// The bytes of `Bids: `.
pub open spec fn lit_bids_prefix() -> Seq<u8> {
    seq![66u8, 105u8, 100u8, 115u8, 58u8, 32u8]
}

/// The bytes of `Bids: `.
pub fn lit_bids_prefix_v() -> (v: Vec<u8>)
    ensures
        v@ == lit_bids_prefix(),
{
    let v: Vec<u8> = vec![66u8, 105u8, 100u8, 115u8, 58u8, 32u8];
    proof {
        assert(v@ =~= lit_bids_prefix());
    }
    v
}

/// The bytes of `$`.
pub open spec fn lit_dollar() -> Seq<u8> {
    seq![36u8]
}

/// The bytes of `$`.
pub fn lit_dollar_v() -> (v: Vec<u8>)
    ensures
        v@ == lit_dollar(),
{
    let v: Vec<u8> = vec![36u8];
    proof {
        assert(v@ =~= lit_dollar());
    }
    v
}

/// The bytes of `bidder_`.
pub open spec fn lit_bidder_prefix() -> Seq<u8> {
    seq![98u8, 105u8, 100u8, 100u8, 101u8, 114u8, 95u8]
}

/// The bytes of `bidder_`.
pub fn lit_bidder_prefix_v() -> (v: Vec<u8>)
    ensures
        v@ == lit_bidder_prefix(),
{
    let v: Vec<u8> = vec![98u8, 105u8, 100u8, 100u8, 101u8, 114u8, 95u8];
    proof {
        assert(v@ =~= lit_bidder_prefix());
    }
    v
}

/// The bytes of `wss`.
pub open spec fn lit_wss() -> Seq<u8> {
    seq![119u8, 115u8, 115u8]
}

/// The bytes of `wss`.
pub fn lit_wss_v() -> (v: Vec<u8>)
    ensures
        v@ == lit_wss(),
{
    let v: Vec<u8> = vec![119u8, 115u8, 115u8];
    proof {
        assert(v@ =~= lit_wss());
    }
    v
}

/// The bytes of `ws`.
pub open spec fn lit_ws() -> Seq<u8> {
    seq![119u8, 115u8]
}

/// The bytes of `ws`.
pub fn lit_ws_v() -> (v: Vec<u8>)
    ensures
        v@ == lit_ws(),
{
    let v: Vec<u8> = vec![119u8, 115u8];
    proof {
        assert(v@ =~= lit_ws());
    }
    v
}

/// The bytes of `://`.
pub open spec fn lit_scheme_sep() -> Seq<u8> {
    seq![58u8, 47u8, 47u8]
}

/// The bytes of `://`.
pub fn lit_scheme_sep_v() -> (v: Vec<u8>)
    ensures
        v@ == lit_scheme_sep(),
{
    let v: Vec<u8> = vec![58u8, 47u8, 47u8];
    proof {
        assert(v@ =~= lit_scheme_sep());
    }
    v
}

/// The bytes of `/ws`.
pub open spec fn lit_ws_path() -> Seq<u8> {
    seq![47u8, 119u8, 115u8]
}

/// The bytes of `/ws`.
pub fn lit_ws_path_v() -> (v: Vec<u8>)
    ensures
        v@ == lit_ws_path(),
{
    let v: Vec<u8> = vec![47u8, 119u8, 115u8];
    proof {
        assert(v@ =~= lit_ws_path());
    }
    v
}

/// The bytes of `localhost:8080`.
pub open spec fn lit_fallback_host() -> Seq<u8> {
    seq![108u8, 111u8, 99u8, 97u8, 108u8, 104u8, 111u8, 115u8, 116u8, 58u8, 56u8, 48u8, 56u8, 48u8]
}

/// The bytes of `localhost:8080`.
pub fn lit_fallback_host_v() -> (v: Vec<u8>)
    ensures
        v@ == lit_fallback_host(),
{
    let v: Vec<u8> = vec![108u8, 111u8, 99u8, 97u8, 108u8, 104u8, 111u8, 115u8, 116u8, 58u8, 56u8, 48u8, 56u8, 48u8];
    proof {
        assert(v@ =~= lit_fallback_host());
    }
    v
}

} // verus!
