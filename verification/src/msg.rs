//! Data model of the auction board: auctions, bids, and the wire envelope.
//!
//! Text is carried as UTF-8 bytes; monetary amounts are whole dollars.
use vstd::prelude::*;

verus! {

/// One auction as known to the client. `id` is the stable unique key.
pub struct Auction {
    pub id: Vec<u8>,
    pub title: Vec<u8>,
    pub description: Vec<u8>,
    pub start_price: u64,
    pub current_bid: u64,
    pub highest_bidder: Vec<u8>,
    pub bid_count: u64,
    pub status: Vec<u8>,
    pub start_time: Vec<u8>,
    pub end_time: Vec<u8>,
}

/// Mathematical model of an [`Auction`].
#[verifier::ext_equal]
pub struct AuctionModel {
    pub id: Seq<u8>,
    pub title: Seq<u8>,
    pub description: Seq<u8>,
    pub start_price: u64,
    pub current_bid: u64,
    pub highest_bidder: Seq<u8>,
    pub bid_count: u64,
    pub status: Seq<u8>,
    pub start_time: Seq<u8>,
    pub end_time: Seq<u8>,
}

impl View for Auction {
    type V = AuctionModel;

    open spec fn view(&self) -> AuctionModel {
        AuctionModel {
            id: self.id@,
            title: self.title@,
            description: self.description@,
            start_price: self.start_price,
            current_bid: self.current_bid,
            highest_bidder: self.highest_bidder@,
            bid_count: self.bid_count,
            status: self.status@,
            start_time: self.start_time@,
            end_time: self.end_time@,
        }
    }
}

/// A locally produced bid submission.
pub struct Bid {
    pub bidder_id: Vec<u8>,
    pub amount: u64,
    pub timestamp: Vec<u8>,
}

/// Mathematical model of a [`Bid`].
#[verifier::ext_equal]
pub struct BidModel {
    pub bidder_id: Seq<u8>,
    pub amount: u64,
    pub timestamp: Seq<u8>,
}

impl View for Bid {
    type V = BidModel;

    open spec fn view(&self) -> BidModel {
        BidModel { bidder_id: self.bidder_id@, amount: self.amount, timestamp: self.timestamp@ }
    }
}

/// The tagged wire envelope: a discriminant plus optional payloads.
pub struct Message {
    pub msg_type: Vec<u8>,
    pub auction: Option<Auction>,
    pub bid: Option<Bid>,
}

/// Mathematical model of a [`Message`].
#[verifier::ext_equal]
pub struct MessageModel {
    pub msg_type: Seq<u8>,
    pub auction: Option<AuctionModel>,
    pub bid: Option<BidModel>,
}

impl View for Message {
    type V = MessageModel;

    open spec fn view(&self) -> MessageModel {
        MessageModel {
            msg_type: self.msg_type@,
            auction: match self.auction {
                Option::Some(ref a) => Option::Some(a@),
                Option::None => Option::None,
            },
            bid: match self.bid {
                Option::Some(ref b) => Option::Some(b@),
                Option::None => Option::None,
            },
        }
    }
}

/// Byte-wise equality of two text values.
pub fn bytes_eq(a: &Vec<u8>, b: &Vec<u8>) -> (r: bool)
    ensures
        r <==> a@ == b@,
{
    if a.len() != b.len() {
        return false;
    }
    let mut i: usize = 0;
    while i < a.len()
        invariant
            a@.len() == b@.len(),
            i <= a@.len(),
            forall|k: int| 0 <= k < i ==> a@[k] == b@[k],
        decreases a@.len() - i,
    {
        if a[i] != b[i] {
            return false;
        }
        i += 1;
    }
    proof {
        assert(a@ =~= b@);
    }
    true
}

/// True when every byte of `t` can stand inside a JSON string verbatim:
/// no quote, no backslash, no control byte.
pub open spec fn wf_text(t: Seq<u8>) -> bool {
    forall|i: int| 0 <= i < t.len() ==> t[i] != 34u8 && t[i] != 92u8 && t[i] >= 32u8
}

/// Well-formedness of an auction record: all text fields plain.
pub open spec fn wf_auction(a: AuctionModel) -> bool {
    &&& wf_text(a.id)
    &&& wf_text(a.title)
    &&& wf_text(a.description)
    &&& wf_text(a.highest_bidder)
    &&& wf_text(a.status)
    &&& wf_text(a.start_time)
    &&& wf_text(a.end_time)
}

/// Well-formedness of a bid record: all text fields plain.
pub open spec fn wf_bid(b: BidModel) -> bool {
    &&& wf_text(b.bidder_id)
    &&& wf_text(b.timestamp)
}

/// Well-formedness of an envelope: discriminant and payloads plain.
pub open spec fn wf_message(m: MessageModel) -> bool {
    &&& wf_text(m.msg_type)
    &&& match m.auction {
        Option::Some(a) => wf_auction(a),
        Option::None => true,
    }
    &&& match m.bid {
        Option::Some(b) => wf_bid(b),
        Option::None => true,
    }
}

} // verus!
