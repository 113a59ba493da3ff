use auctmah::codec::decode_message;
use auctmah::place_bid;
use auctmah::session::ws_url;

#[test]
fn submit_without_connection_is_a_silent_noop() {
    let r = place_bid(&b"a1".to_vec(), 25, 1700000000000, false);
    assert!(r.is_none());
}

#[test]
fn submit_with_connection_builds_a_place_bid_frame() {
    let frame = place_bid(&b"a1".to_vec(), 25, 77, true).expect("a frame leaves");
    let m = decode_message(&frame).expect("the outbound frame is canonical");
    assert_eq!(m.msg_type, b"place_bid".to_vec());
    assert!(m.auction.is_none());
    let bid = m.bid.expect("the frame carries the bid");
    assert_eq!(bid.bidder_id, b"bidder_77".to_vec());
    assert_eq!(bid.amount, 25);
    assert_eq!(bid.timestamp, b"77".to_vec());
}

#[test]
fn bidder_number_saturates_at_thirty_two_bits() {
    let frame = place_bid(&b"a1".to_vec(), 1, 5000000000, true).unwrap();
    let m = decode_message(&frame).unwrap();
    let bid = m.bid.unwrap();
    assert_eq!(bid.bidder_id, b"bidder_4294967295".to_vec());
    assert_eq!(bid.timestamp, b"5000000000".to_vec());
}

#[test]
fn endpoint_follows_the_page_scheme_and_host() {
    assert_eq!(
        ws_url(true, Some(b"example.com:8443".to_vec())),
        b"wss://example.com:8443/ws".to_vec()
    );
    assert_eq!(ws_url(false, Some(b"example.com".to_vec())), b"ws://example.com/ws".to_vec());
}

#[test]
fn endpoint_falls_back_when_the_host_is_unknown() {
    assert_eq!(ws_url(false, None), b"ws://localhost:8080/ws".to_vec());
    assert_eq!(ws_url(true, None), b"wss://localhost:8080/ws".to_vec());
}
