//! The auction store and its reconciler: one record per id, replaced
//! in place, with the position of a record fixed at first arrival.
use vstd::prelude::*;

use crate::codec::{canonical_frame, decode_message};
use crate::literals::{lit_auction_ended, lit_auction_ended_v, lit_auction_update,
    lit_auction_update_v, lit_bid_accepted, lit_bid_accepted_v};
use crate::msg::{Auction, AuctionModel, Message, MessageModel, bytes_eq, wf_message};

verus! {

/// True when some record in `s` carries `id`.
pub open spec fn has_id(s: Seq<AuctionModel>, id: Seq<u8>) -> bool {
    exists|k: int| 0 <= k < s.len() && s[k].id == id
}

/// The position of the record carrying `id`, unambiguous under
/// [`unique_ids`].
pub open spec fn idx_of(s: Seq<AuctionModel>, id: Seq<u8>) -> int {
    choose|k: int| 0 <= k < s.len() && s[k].id == id
}

/// At most one record per id.
pub open spec fn unique_ids(s: Seq<AuctionModel>) -> bool {
    forall|j: int, k: int| 0 <= j < k < s.len() ==> s[j].id != s[k].id
}

/// What one inbound envelope does to the store: an `auction_update`
/// replaces the record with its id, or appends a new one; a
/// `bid_accepted` or `auction_ended` replaces only a known id; every
/// other envelope changes nothing.
pub open spec fn spec_apply(s: Seq<AuctionModel>, m: MessageModel) -> Seq<AuctionModel> {
    match m.auction {
        Option::Some(a) => {
            if m.msg_type == lit_auction_update() {
                if has_id(s, a.id) {
                    s.update(idx_of(s, a.id), a)
                } else {
                    s.push(a)
                }
            } else if m.msg_type == lit_bid_accepted() || m.msg_type == lit_auction_ended() {
                if has_id(s, a.id) {
                    s.update(idx_of(s, a.id), a)
                } else {
                    s
                }
            } else {
                s
            }
        },
        Option::None => s,
    }
}

/// How one applied envelope is reported, mirroring [`spec_apply`].
#[derive(Clone, Copy, Debug, PartialEq, Eq, Structural)]
pub enum ApplyOutcome {
    /// A new auction was appended by an `auction_update`.
    Added,
    /// A known auction was replaced by an `auction_update`.
    Updated,
    /// A known auction was replaced by a `bid_accepted`.
    BidAccepted,
    /// A known auction was replaced by an `auction_ended`.
    Ended,
    /// The envelope changed nothing.
    Ignored,
}

/// The outcome that [`spec_apply`] has on `s` and `m`.
pub open spec fn spec_outcome(s: Seq<AuctionModel>, m: MessageModel) -> ApplyOutcome {
    match m.auction {
        Option::Some(a) => {
            if m.msg_type == lit_auction_update() {
                if has_id(s, a.id) {
                    ApplyOutcome::Updated
                } else {
                    ApplyOutcome::Added
                }
            } else if m.msg_type == lit_bid_accepted() && has_id(s, a.id) {
                ApplyOutcome::BidAccepted
            } else if m.msg_type == lit_auction_ended() && has_id(s, a.id) {
                ApplyOutcome::Ended
            } else {
                ApplyOutcome::Ignored
            }
        },
        Option::None => ApplyOutcome::Ignored,
    }
}

/// The session's collection of known auctions, in arrival order, with
/// the reserved interactive-selection slot.
pub struct AuctionState {
    auctions: Vec<Auction>,
    /// Reserved for interactive selection; never set by the inbound or
    /// outbound flows.
    selected_auction: Option<usize>,
}

impl View for AuctionState {
    type V = Seq<AuctionModel>;

    closed spec fn view(&self) -> Seq<AuctionModel> {
        self.auctions@.map_values(|a: Auction| a@)
    }
}

impl AuctionState {
    /// One record per id.
    pub open spec fn wf(&self) -> bool {
        unique_ids(self@)
    }

    /// An empty store.
    pub fn new() -> (s: AuctionState)
        ensures
            s@ == Seq::<AuctionModel>::empty(),
            s.wf(),
    {
        let s = AuctionState { auctions: Vec::new(), selected_auction: Option::None };
        proof {
            assert(s@ =~= Seq::<AuctionModel>::empty());
        }
        s
    }

    /// How many auctions are known.
    pub fn auction_count(&self) -> (n: usize)
        ensures
            n == self@.len(),
    {
        self.auctions.len()
    }

    /// The auction at position `i` of the grid order.
    pub fn auction_at(&self, i: usize) -> (a: &Auction)
        requires
            i < self@.len(),
        ensures
            a@ == self@[i as int],
    {
        &self.auctions[i]
    }

    /// The position of the record carrying `id`, if it is known.
    fn find_idx(&self, id: &Vec<u8>) -> (r: Option<usize>)
        ensures
            match r {
                Option::Some(k) => k < self@.len() && self@[k as int].id == id@,
                Option::None => !has_id(self@, id@),
            },
    {
        let mut i: usize = 0;
        while i < self.auctions.len()
            invariant
                i <= self@.len(),
                forall|k: int| 0 <= k < i ==> self@[k].id != id@,
            decreases self@.len() - i,
        {
            if bytes_eq(&self.auctions[i].id, id) {
                return Option::Some(i);
            }
            i += 1;
        }
        Option::None
    }

    /// Applies one decoded envelope under the replace-in-place policy.
    pub fn apply_message(&mut self, m: Message) -> (r: ApplyOutcome)
        requires
            old(self).wf(),
        ensures
            final(self).wf(),
            final(self)@ == spec_apply(old(self)@, m@),
            r == spec_outcome(old(self)@, m@),
    {
        let ghost s0 = self@;
        match m.auction {
            Option::None => ApplyOutcome::Ignored,
            Option::Some(a) => {
                let is_update = bytes_eq(&m.msg_type, &lit_auction_update_v());
                let is_accept = bytes_eq(&m.msg_type, &lit_bid_accepted_v());
                let is_end = bytes_eq(&m.msg_type, &lit_auction_ended_v());
                if !is_update && !is_accept && !is_end {
                    return ApplyOutcome::Ignored;
                }
                match self.find_idx(&a.id) {
                    Option::Some(k) => {
                        proof {
                            let k2 = idx_of(s0, a@.id);
                            assert(has_id(s0, a@.id));
                            assert(0 <= k2 < s0.len() && s0[k2].id == a@.id);
                            if k != k2 {
                                assert(s0[k as int].id == s0[k2].id);
                                assert(false);
                            }
                        }
                        self.auctions.set(k, a);
                        proof {
                            assert(self@ =~= s0.update(k as int, self@[k as int]));
                            assert(self@ == spec_apply(s0, m@));
                            assert forall|j: int, l: int| 0 <= j < l < self@.len()
                                implies self@[j].id != self@[l].id by {
                                assert(s0[j].id != s0[l].id);
                            }
                        }
                        if is_update {
                            ApplyOutcome::Updated
                        } else if is_accept {
                            ApplyOutcome::BidAccepted
                        } else {
                            ApplyOutcome::Ended
                        }
                    },
                    Option::None => {
                        if is_update {
                            proof {
                                assert(!has_id(s0, a@.id));
                            }
                            self.auctions.push(a);
                            proof {
                                assert(self@ =~= s0.push(self@[s0.len() as int]));
                                assert(self@ == spec_apply(s0, m@));
                                assert forall|j: int, l: int| 0 <= j < l < self@.len()
                                    implies self@[j].id != self@[l].id by {
                                    if l < s0.len() {
                                        assert(s0[j].id != s0[l].id);
                                    } else {
                                        assert(!(0 <= j < s0.len() && s0[j].id == self@[l].id));
                                    }
                                }
                            }
                            ApplyOutcome::Added
                        } else {
                            ApplyOutcome::Ignored
                        }
                    },
                }
            },
        }
    }

    /// Decodes one raw inbound frame and reconciles it: a canonical
    /// envelope is applied under the replace-in-place policy, and any
    /// other frame is dropped without a state change.
    pub fn handle_frame(&mut self, frame: &Vec<u8>) -> (r: ApplyOutcome)
        requires
            old(self).wf(),
        ensures
            final(self).wf(),
            forall|mv: MessageModel| #[trigger] canonical_frame(frame@, mv) && wf_message(mv)
                ==> final(self)@ == spec_apply(old(self)@, mv) && r == spec_outcome(
                old(self)@,
                mv,
            ),
            !(exists|mv: MessageModel| #[trigger] canonical_frame(frame@, mv) && wf_message(mv))
                ==> final(self)@ == old(self)@ && r == ApplyOutcome::Ignored,
    {
        match decode_message(frame) {
            Option::Some(m) => {
                let ghost mv0 = m@;
                let r = self.apply_message(m);
                proof {
                    assert(canonical_frame(frame@, mv0) && wf_message(mv0));
                }
                r
            },
            Option::None => ApplyOutcome::Ignored,
        }
    }
}

/// Replaying an `auction_update` for an id already present replaces
/// that record without changing the store's length, and every position
/// keeps its id.
pub proof fn lemma_update_replaces_in_place(s: Seq<AuctionModel>, m: MessageModel)
    requires
        unique_ids(s),
        m.msg_type == lit_auction_update(),
        m.auction is Some,
        has_id(s, m.auction->Some_0.id),
    ensures
        spec_apply(s, m).len() == s.len(),
        forall|k: int| 0 <= k < s.len() ==> spec_apply(s, m)[k].id == s[k].id,
        spec_apply(s, m)[idx_of(s, m.auction->Some_0.id)] == m.auction->Some_0,
{
    let a = m.auction->Some_0;
    let k = idx_of(s, a.id);
    assert(0 <= k < s.len() && s[k].id == a.id);
}

/// The grid position of an auction, once assigned, never changes: no
/// envelope moves a record or changes the id at any position.
pub proof fn lemma_position_stable(s: Seq<AuctionModel>, m: MessageModel, k: int)
    requires
        unique_ids(s),
        0 <= k < s.len(),
    ensures
        spec_apply(s, m).len() >= s.len(),
        spec_apply(s, m)[k].id == s[k].id,
{
    match m.auction {
        Option::Some(a) => {
            if has_id(s, a.id) {
                let k2 = idx_of(s, a.id);
                assert(0 <= k2 < s.len() && s[k2].id == a.id);
            }
        },
        Option::None => {},
    }
}

/// A `bid_accepted` or `auction_ended` for an unknown id never inserts
/// a record; for any id, these envelopes keep the store's length.
pub proof fn lemma_unknown_id_no_insert(s: Seq<AuctionModel>, m: MessageModel)
    requires
        m.msg_type == lit_bid_accepted() || m.msg_type == lit_auction_ended(),
    ensures
        spec_apply(s, m).len() == s.len(),
        (match m.auction {
            Option::Some(a) => !has_id(s, a.id),
            Option::None => true,
        }) ==> spec_apply(s, m) == s,
{
    assert(m.msg_type != lit_auction_update());
    match m.auction {
        Option::Some(a) => {
            if has_id(s, a.id) {
                let k2 = idx_of(s, a.id);
                assert(0 <= k2 < s.len() && s[k2].id == a.id);
            }
        },
        Option::None => {},
    }
}

} // verus!
