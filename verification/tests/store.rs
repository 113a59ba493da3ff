use auctmah::msg::{Auction, Message};
use auctmah::store::{ApplyOutcome, AuctionState};

fn update_frame(id: &str, title: &str, current_bid: u64, status: &str) -> Vec<u8> {
    format!(
        "{{\"type\":\"auction_update\",\"auction\":{{\"id\":\"{}\",\"title\":\"{}\",\"start_price\":10,\"current_bid\":{},\"highest_bidder\":\"\",\"bid_count\":0,\"status\":\"{}\",\"start_time\":\"t0\",\"end_time\":\"t1\"}},\"bid\":null}}",
        id, title, current_bid, status
    )
    .into_bytes()
}

fn typed_frame(msg_type: &str, id: &str, current_bid: u64, status: &str) -> Vec<u8> {
    format!(
        "{{\"type\":\"{}\",\"auction\":{{\"id\":\"{}\",\"title\":\"Vase\",\"start_price\":10,\"current_bid\":{},\"highest_bidder\":\"eve\",\"bid_count\":3,\"status\":\"{}\",\"start_time\":\"t0\",\"end_time\":\"t1\"}},\"bid\":null}}",
        msg_type, id, current_bid, status
    )
    .into_bytes()
}

#[test]
fn scenario_auction_update_fills_empty_store() {
    let mut store = AuctionState::new();
    let frame = "{\"type\":\"auction_update\",\"auction\":{\"id\":\"a1\",\"title\":\"Vase\",\"start_price\":10,\"current_bid\":10,\"highest_bidder\":\"\",\"bid_count\":0,\"status\":\"active\",\"start_time\":\"t0\",\"end_time\":\"t1\"},\"bid\":null}"
    .as_bytes()
    .to_vec();
    let outcome = store.handle_frame(&frame);
    assert_eq!(outcome, ApplyOutcome::Added);
    assert_eq!(store.auction_count(), 1);
    let a = store.auction_at(0);
    assert_eq!(a.id, b"a1".to_vec());
    assert_eq!(a.title, b"Vase".to_vec());
    assert_eq!(a.description, b"".to_vec());
    assert_eq!(a.start_price, 10);
    assert_eq!(a.current_bid, 10);
    assert_eq!(a.highest_bidder, b"".to_vec());
    assert_eq!(a.bid_count, 0);
    assert_eq!(a.status, b"active".to_vec());
    assert_eq!(a.start_time, b"t0".to_vec());
    assert_eq!(a.end_time, b"t1".to_vec());
}

#[test]
fn scenario_second_update_replaces_the_record() {
    let mut store = AuctionState::new();
    assert_eq!(store.handle_frame(&update_frame("a1", "Vase", 10, "active")), ApplyOutcome::Added);
    assert_eq!(
        store.handle_frame(&update_frame("a1", "Vase", 35, "active")),
        ApplyOutcome::Updated
    );
    assert_eq!(store.auction_count(), 1);
    assert_eq!(store.auction_at(0).current_bid, 35);
}

#[test]
fn dedup_keeps_length_and_position() {
    let mut store = AuctionState::new();
    store.handle_frame(&update_frame("a1", "Vase", 10, "active"));
    store.handle_frame(&update_frame("a2", "Lamp", 20, "active"));
    assert_eq!(store.auction_count(), 2);
    store.handle_frame(&update_frame("a1", "Vase again", 99, "active"));
    assert_eq!(store.auction_count(), 2);
    assert_eq!(store.auction_at(0).id, b"a1".to_vec());
    assert_eq!(store.auction_at(0).title, b"Vase again".to_vec());
    assert_eq!(store.auction_at(1).id, b"a2".to_vec());
}

#[test]
fn bid_accepted_unknown_id_never_inserts() {
    let mut store = AuctionState::new();
    let outcome = store.handle_frame(&typed_frame("bid_accepted", "ghost", 50, "active"));
    assert_eq!(outcome, ApplyOutcome::Ignored);
    assert_eq!(store.auction_count(), 0);
}

#[test]
fn auction_ended_unknown_id_never_inserts() {
    let mut store = AuctionState::new();
    let outcome = store.handle_frame(&typed_frame("auction_ended", "ghost", 50, "ended"));
    assert_eq!(outcome, ApplyOutcome::Ignored);
    assert_eq!(store.auction_count(), 0);
}

#[test]
fn bid_accepted_replaces_known_record() {
    let mut store = AuctionState::new();
    store.handle_frame(&update_frame("a1", "Vase", 10, "active"));
    let outcome = store.handle_frame(&typed_frame("bid_accepted", "a1", 55, "active"));
    assert_eq!(outcome, ApplyOutcome::BidAccepted);
    assert_eq!(store.auction_count(), 1);
    assert_eq!(store.auction_at(0).current_bid, 55);
    assert_eq!(store.auction_at(0).highest_bidder, b"eve".to_vec());
}

#[test]
fn auction_ended_carries_the_status() {
    let mut store = AuctionState::new();
    store.handle_frame(&update_frame("a1", "Vase", 10, "active"));
    let outcome = store.handle_frame(&typed_frame("auction_ended", "a1", 55, "ended"));
    assert_eq!(outcome, ApplyOutcome::Ended);
    assert_eq!(store.auction_at(0).status, b"ended".to_vec());
}

#[test]
fn unknown_discriminant_is_a_noop() {
    let mut store = AuctionState::new();
    store.handle_frame(&update_frame("a1", "Vase", 10, "active"));
    let outcome = store.handle_frame(&typed_frame("auction_opened", "a1", 99, "active"));
    assert_eq!(outcome, ApplyOutcome::Ignored);
    assert_eq!(store.auction_at(0).current_bid, 10);
}

#[test]
fn malformed_frame_is_dropped_without_state_change() {
    let mut store = AuctionState::new();
    store.handle_frame(&update_frame("a1", "Vase", 10, "active"));
    let outcome = store.handle_frame(&b"{broken".to_vec());
    assert_eq!(outcome, ApplyOutcome::Ignored);
    assert_eq!(store.auction_count(), 1);
    assert_eq!(store.auction_at(0).current_bid, 10);
}

#[test]
fn update_without_payload_is_a_noop() {
    let mut store = AuctionState::new();
    let m = Message { msg_type: b"auction_update".to_vec(), auction: None, bid: None };
    assert_eq!(store.apply_message(m), ApplyOutcome::Ignored);
    assert_eq!(store.auction_count(), 0);
}

#[test]
fn apply_message_adds_directly() {
    let mut store = AuctionState::new();
    let m = Message {
        msg_type: b"auction_update".to_vec(),
        auction: Some(Auction {
            id: b"z9".to_vec(),
            title: b"Clock".to_vec(),
            description: b"ticks".to_vec(),
            start_price: 5,
            current_bid: 5,
            highest_bidder: b"".to_vec(),
            bid_count: 0,
            status: b"active".to_vec(),
            start_time: b"t0".to_vec(),
            end_time: b"t9".to_vec(),
        }),
        bid: None,
    };
    assert_eq!(store.apply_message(m), ApplyOutcome::Added);
    assert_eq!(store.auction_count(), 1);
    assert_eq!(store.auction_at(0).title, b"Clock".to_vec());
}
