use auctmah::codec::{decode_message, encode_message};
use auctmah::msg::{Auction, Bid, Message};

fn sample_auction() -> Auction {
    Auction {
        id: b"a1".to_vec(),
        title: b"Vase".to_vec(),
        description: b"A fine vase".to_vec(),
        start_price: 10,
        current_bid: 10,
        highest_bidder: b"".to_vec(),
        bid_count: 0,
        status: b"active".to_vec(),
        start_time: b"t0".to_vec(),
        end_time: b"t1".to_vec(),
    }
}

#[test]
fn round_trip_place_bid() {
    let msg = Message {
        msg_type: b"place_bid".to_vec(),
        auction: None,
        bid: Some(Bid {
            bidder_id: b"bidder_42".to_vec(),
            amount: 25,
            timestamp: b"1700000000000".to_vec(),
        }),
    };
    let frame = encode_message(&msg);
    let back = decode_message(&frame).expect("a canonical frame decodes");
    assert_eq!(back.msg_type, b"place_bid".to_vec());
    assert!(back.auction.is_none());
    let bid = back.bid.expect("the bid survives the round trip");
    assert_eq!(bid.bidder_id, b"bidder_42".to_vec());
    assert_eq!(bid.amount, 25);
    assert_eq!(bid.timestamp, b"1700000000000".to_vec());
}

#[test]
fn round_trip_auction_update() {
    let msg = Message {
        msg_type: b"auction_update".to_vec(),
        auction: Some(sample_auction()),
        bid: None,
    };
    let frame = encode_message(&msg);
    let back = decode_message(&frame).expect("a canonical frame decodes");
    assert_eq!(back.msg_type, b"auction_update".to_vec());
    assert!(back.bid.is_none());
    let a = back.auction.expect("the auction survives the round trip");
    assert_eq!(a.id, b"a1".to_vec());
    assert_eq!(a.title, b"Vase".to_vec());
    assert_eq!(a.description, b"A fine vase".to_vec());
    assert_eq!(a.start_price, 10);
    assert_eq!(a.current_bid, 10);
    assert_eq!(a.highest_bidder, b"".to_vec());
    assert_eq!(a.bid_count, 0);
    assert_eq!(a.status, b"active".to_vec());
    assert_eq!(a.start_time, b"t0".to_vec());
    assert_eq!(a.end_time, b"t1".to_vec());
}

#[test]
fn encoding_is_the_canonical_json_text() {
    let msg = Message {
        msg_type: b"place_bid".to_vec(),
        auction: None,
        bid: Some(Bid {
            bidder_id: b"bidder_7".to_vec(),
            amount: 31,
            timestamp: b"99".to_vec(),
        }),
    };
    let frame = encode_message(&msg);
    let expected = "{\"type\":\"place_bid\",\"auction\":null,\"bid\":{\"bidder_id\":\"bidder_7\",\"amount\":31,\"timestamp\":\"99\"}}";
    assert_eq!(frame, expected.as_bytes().to_vec());
}

#[test]
fn decode_accepts_a_frame_without_description() {
    let frame = "{\"type\":\"auction_update\",\"auction\":{\"id\":\"a1\",\"title\":\"Vase\",\"start_price\":10,\"current_bid\":10,\"highest_bidder\":\"\",\"bid_count\":0,\"status\":\"active\",\"start_time\":\"t0\",\"end_time\":\"t1\"},\"bid\":null}"
    .as_bytes()
    .to_vec();
    let m = decode_message(&frame).expect("the short form decodes");
    let a = m.auction.expect("the auction payload is read");
    assert_eq!(a.id, b"a1".to_vec());
    assert_eq!(a.description, b"".to_vec());
    assert_eq!(a.bid_count, 0);
}

#[test]
fn decode_accepts_a_frame_with_description() {
    let msg = Message {
        msg_type: b"auction_update".to_vec(),
        auction: Some(sample_auction()),
        bid: None,
    };
    let frame = encode_message(&msg);
    let text = String::from_utf8(frame.clone()).unwrap();
    assert!(text.contains("\"description\":\"A fine vase\""));
    let m = decode_message(&frame).unwrap();
    assert_eq!(m.auction.unwrap().description, b"A fine vase".to_vec());
}

#[test]
fn decode_rejects_malformed_frames() {
    let cases: Vec<&str> = vec![
        "",
        "not json",
        "{\"type\":\"x\"}",
        "{\"type\":\"x\",\"auction\":null,\"bid\":null",
        "{\"type\":\"x\",\"bid\":null,\"auction\":null}",
        "{\"type\":\"x\",\"auction\":null,\"bid\":null}trailing",
        "{\"type\":3,\"auction\":null,\"bid\":null}",
        "{\"type\":\"x\",\"auction\":null,\"bid\":{\"bidder_id\":\"b\",\"amount\":007,\"timestamp\":\"t\"}}",
        "{\"type\":\"x\",\"auction\":null,\"bid\":{\"bidder_id\":\"b\",\"amount\":-1,\"timestamp\":\"t\"}}",
        "{\"type\":\"x\\n\",\"auction\":null,\"bid\":null}",
    ];
    for c in cases {
        assert!(decode_message(&c.as_bytes().to_vec()).is_none(), "accepted: {}", c);
    }
}

#[test]
fn decode_rejects_amount_beyond_u64() {
    let frame = "{\"type\":\"place_bid\",\"auction\":null,\"bid\":{\"bidder_id\":\"b\",\"amount\":18446744073709551616,\"timestamp\":\"t\"}}"
    .as_bytes()
    .to_vec();
    assert!(decode_message(&frame).is_none());
}
