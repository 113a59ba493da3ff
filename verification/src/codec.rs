//! The wire codec: canonical JSON frames for the auction envelope.
//!
//! A frame is a minified JSON object with the keys in declared order.
//! The one latitude the decoder allows is an absent `description` key,
//! which stands for an empty description.
//!
//! The decoder speaks exactly this canonical form, which is also what
//! the encoder emits: `enc_message` fully specifies the wire bytes of
//! every envelope, so acceptance and rejection are both exact. A frame
//! in any other JSON shape (reordered keys, whitespace, escapes,
//! fractional numbers) is treated as malformed and dropped, the
//! fail-soft path that the store records as `Ignored`.
use vstd::prelude::*;

use crate::digits::{all_digits, dec_digits, lemma_dec_digits_props, lemma_dec_of_val,
    lemma_val_nonneg, lemma_val_prefix_le, u64_digits, val_digits};
use crate::literals::{key_amount, key_amount_v, key_bid_count, key_bid_count_v, key_bidder_id,
    key_bidder_id_v, key_current_bid, key_current_bid_v, key_description, key_description_v,
    key_end_time, key_end_time_v, key_highest_bidder, key_highest_bidder_v, key_id, key_id_v,
    key_start_price, key_start_price_v, key_start_time, key_start_time_v, key_status,
    key_status_v, key_timestamp, key_timestamp_v, key_title, key_title_v, lit_auction_key,
    lit_auction_key_v, lit_bid_key, lit_bid_key_v, lit_null, lit_null_v, lit_type_key,
    lit_type_key_v};
use crate::msg::{Auction, AuctionModel, Bid, BidModel, Message, MessageModel, wf_auction,
    wf_bid, wf_message, wf_text};

verus! {

/// A JSON string: the text between two quotes, verbatim.
pub open spec fn qstr(t: Seq<u8>) -> Seq<u8> {
    seq![34u8] + t + seq![34u8]
}

/// A key literal followed by a string value.
pub open spec fn field_s(key: Seq<u8>, t: Seq<u8>) -> Seq<u8> {
    key + qstr(t)
}

/// A key literal followed by a decimal number.
pub open spec fn field_n(key: Seq<u8>, n: u64) -> Seq<u8> {
    key + dec_digits(n as nat)
}

/// The encoding of an auction record. With `full` the `description`
/// key is present; without it the description must be empty.
#[verifier::opaque]
pub open spec fn enc_auction(a: AuctionModel, full: bool) -> Seq<u8> {
    field_s(key_id(), a.id) + field_s(key_title(), a.title) + (if full {
        field_s(key_description(), a.description)
    } else {
        Seq::<u8>::empty()
    }) + field_n(key_start_price(), a.start_price) + field_n(key_current_bid(), a.current_bid)
        + field_s(key_highest_bidder(), a.highest_bidder) + field_n(key_bid_count(), a.bid_count)
        + field_s(key_status(), a.status) + field_s(key_start_time(), a.start_time) + field_s(
        key_end_time(),
        a.end_time,
    ) + seq![125u8]
}

/// The encoding of a bid record.
#[verifier::opaque]
pub open spec fn enc_bid(b: BidModel) -> Seq<u8> {
    field_s(key_bidder_id(), b.bidder_id) + field_n(key_amount(), b.amount) + field_s(
        key_timestamp(),
        b.timestamp,
    ) + seq![125u8]
}

/// The encoding of a whole envelope; absent payloads are `null`.
#[verifier::opaque]
pub open spec fn enc_message(m: MessageModel, full: bool) -> Seq<u8> {
    field_s(lit_type_key(), m.msg_type) + lit_auction_key() + (match m.auction {
        Option::Some(a) => enc_auction(a, full),
        Option::None => lit_null(),
    }) + lit_bid_key() + (match m.bid {
        Option::Some(b) => enc_bid(b),
        Option::None => lit_null(),
    }) + seq![125u8]
}

/// True when the chosen form is available to `m`: the short form
/// (no `description` key) stands only for an empty description.
pub open spec fn desc_form_ok(m: MessageModel, full: bool) -> bool {
    full || (match m.auction {
        Option::Some(a) => a.description.len() == 0,
        Option::None => true,
    })
}

/// Appends all of `p` to `out`.
pub(crate) fn push_all(out: &mut Vec<u8>, p: &Vec<u8>)
    ensures
        final(out)@ == old(out)@ + p@,
{
    proof {
        assert(out@ =~= out@ + p@.subrange(0, 0));
    }
    let mut i: usize = 0;
    while i < p.len()
        invariant
            i <= p.len(),
            out@ == old(out)@ + p@.subrange(0, i as int),
        decreases p.len() - i,
    {
        out.push(p[i]);
        i += 1;
        proof {
            assert(old(out)@ + p@.subrange(0, i - 1) + seq![p@[i - 1]] =~= old(out)@
                + p@.subrange(0, i as int));
        }
    }
    proof {
        assert(p@.subrange(0, p@.len() as int) =~= p@);
    }
}

/// Appends the quoted form of `t` to `out`.
fn push_qstr(out: &mut Vec<u8>, t: &Vec<u8>)
    ensures
        final(out)@ == old(out)@ + qstr(t@),
{
    out.push(34);
    push_all(out, t);
    out.push(34);
    proof {
        assert(out@ =~= old(out)@ + qstr(t@));
    }
}

/// Appends a key literal and a quoted string value to `out`.
fn push_field_s(out: &mut Vec<u8>, key: &Vec<u8>, t: &Vec<u8>)
    ensures
        final(out)@ == old(out)@ + field_s(key@, t@),
{
    push_all(out, key);
    push_qstr(out, t);
    proof {
        assert(out@ =~= old(out)@ + field_s(key@, t@));
    }
}

/// Appends a key literal and a decimal number to `out`.
fn push_field_n(out: &mut Vec<u8>, key: &Vec<u8>, n: u64)
    ensures
        final(out)@ == old(out)@ + field_n(key@, n),
{
    push_all(out, key);
    let d = u64_digits(n);
    push_all(out, &d);
    proof {
        assert(out@ =~= old(out)@ + field_n(key@, n));
    }
}

/// Encodes an auction record in the full form.
pub fn encode_auction(a: &Auction) -> (v: Vec<u8>)
    ensures
        v@ == enc_auction(a@, true),
{
    let mut out: Vec<u8> = Vec::new();
    push_field_s(&mut out, &key_id_v(), &a.id);
    push_field_s(&mut out, &key_title_v(), &a.title);
    push_field_s(&mut out, &key_description_v(), &a.description);
    push_field_n(&mut out, &key_start_price_v(), a.start_price);
    push_field_n(&mut out, &key_current_bid_v(), a.current_bid);
    push_field_s(&mut out, &key_highest_bidder_v(), &a.highest_bidder);
    push_field_n(&mut out, &key_bid_count_v(), a.bid_count);
    push_field_s(&mut out, &key_status_v(), &a.status);
    push_field_s(&mut out, &key_start_time_v(), &a.start_time);
    push_field_s(&mut out, &key_end_time_v(), &a.end_time);
    out.push(125);
    proof {
        reveal(enc_auction);
        assert(out@ =~= enc_auction(a@, true));
    }
    out
}

/// Encodes a bid record.
pub fn encode_bid(b: &Bid) -> (v: Vec<u8>)
    ensures
        v@ == enc_bid(b@),
{
    let mut out: Vec<u8> = Vec::new();
    push_field_s(&mut out, &key_bidder_id_v(), &b.bidder_id);
    push_field_n(&mut out, &key_amount_v(), b.amount);
    push_field_s(&mut out, &key_timestamp_v(), &b.timestamp);
    out.push(125);
    proof {
        reveal(enc_bid);
        assert(out@ =~= enc_bid(b@));
    }
    out
}

/// Encodes a whole envelope in the full form.
pub fn encode_message(m: &Message) -> (v: Vec<u8>)
    ensures
        v@ == enc_message(m@, true),
{
    let mut out: Vec<u8> = Vec::new();
    push_field_s(&mut out, &lit_type_key_v(), &m.msg_type);
    push_all(&mut out, &lit_auction_key_v());
    match m.auction {
        Option::Some(ref a) => {
            let ea = encode_auction(a);
            push_all(&mut out, &ea);
        },
        Option::None => {
            push_all(&mut out, &lit_null_v());
        },
    }
    push_all(&mut out, &lit_bid_key_v());
    match m.bid {
        Option::Some(ref b) => {
            let eb = encode_bid(b);
            push_all(&mut out, &eb);
        },
        Option::None => {
            push_all(&mut out, &lit_null_v());
        },
    }
    out.push(125);
    proof {
        reveal(enc_message);
        assert(out@ =~= enc_message(m@, true));
    }
    out
}

/// True when `p` occurs in `s` at position `i`.
#[verifier::opaque]
pub open spec fn starts_with(s: Seq<u8>, i: int, p: Seq<u8>) -> bool {
    0 <= i && i + p.len() <= s.len() && s.subrange(i, i + p.len()) == p
}

/// True when `b` is an ASCII digit.
pub open spec fn is_digit(b: u8) -> bool {
    48 <= b <= 57
}

/// True when position `e` does not continue a digit run.
pub open spec fn digit_boundary(s: Seq<u8>, e: int) -> bool {
    e == s.len() || !is_digit(s[e])
}

/// An occurrence of `p` at `i` fixes the bytes of `s` there.
proof fn lemma_starts_with_index(s: Seq<u8>, i: int, p: Seq<u8>)
    requires
        starts_with(s, i, p),
    ensures
        0 <= i && i + p.len() <= s.len(),
        forall|k: int| 0 <= k < p.len() ==> s[i + k] == #[trigger] p[k],
{
    reveal(starts_with);
    assert forall|k: int| 0 <= k < p.len() implies s[i + k] == #[trigger] p[k] by {
        assert(s.subrange(i, i + p.len())[k] == s[i + k]);
    }
}

/// An occurrence of a concatenation is an occurrence of each part.
proof fn lemma_starts_with_parts(s: Seq<u8>, i: int, p: Seq<u8>, q: Seq<u8>)
    requires
        starts_with(s, i, p + q),
    ensures
        starts_with(s, i, p),
        starts_with(s, i + p.len(), q),
{
    reveal(starts_with);
    lemma_starts_with_index(s, i, p + q);
    assert forall|k: int| 0 <= k < p.len() implies s[i + k] == #[trigger] p[k] by {
        assert(s[i + k] == (p + q)[k]);
    }
    assert forall|k: int| 0 <= k < q.len() implies s[i + p.len() + k] == #[trigger] q[k] by {
        assert(s[i + (p.len() + k)] == (p + q)[p.len() + k]);
    }
    assert(s.subrange(i, i + p.len()) =~= p);
    assert(s.subrange(i + p.len(), i + p.len() + q.len()) =~= q);
}

/// Adjacent occurrences join into an occurrence of the concatenation.
proof fn lemma_starts_with_join(s: Seq<u8>, i: int, p: Seq<u8>, q: Seq<u8>)
    requires
        starts_with(s, i, p),
        starts_with(s, i + p.len(), q),
    ensures
        starts_with(s, i, p + q),
{
    reveal(starts_with);
    lemma_starts_with_index(s, i, p);
    lemma_starts_with_index(s, i + p.len(), q);
    assert(s.subrange(i, i + (p + q).len()) =~= p + q);
}

/// A sequence occurs whole in itself.
proof fn lemma_starts_with_whole(s: Seq<u8>, p: Seq<u8>)
    requires
        s == p,
    ensures
        starts_with(s, 0, p),
{
    reveal(starts_with);
    assert(s.subrange(0, p.len() as int) =~= p);
}

/// An occurrence that spans all of `s` is all of `s`.
proof fn lemma_whole_of_occurrence(s: Seq<u8>, p: Seq<u8>)
    requires
        starts_with(s, 0, p),
        p.len() == s.len(),
    ensures
        s == p,
{
    reveal(starts_with);
    assert(s.subrange(0, p.len() as int) =~= s);
}

/// Recognizes the literal `lit` at position `i`: `Some` exactly on an
/// occurrence, stepping just past it.
fn expect_lit(s: &Vec<u8>, i: usize, lit: &Vec<u8>) -> (r: Option<usize>)
    ensures
        match r {
            Option::Some(j) => j == i + lit@.len() && starts_with(s@, i as int, lit@),
            Option::None => !starts_with(s@, i as int, lit@),
        },
{
    if i > s.len() {
        proof {
            reveal(starts_with);
        }
        return Option::None;
    }
    if s.len() - i < lit.len() {
        proof {
            reveal(starts_with);
        }
        return Option::None;
    }
    let n = s.len();
    let mut k: usize = 0;
    let mut pos: usize = i;
    while k < lit.len()
        invariant
            n == s@.len(),
            i + lit@.len() <= s@.len(),
            k <= lit@.len(),
            pos == i + k,
            forall|t: int| 0 <= t < k ==> s@[i + t] == lit@[t],
        decreases lit@.len() - k,
    {
        if s[pos] != lit[k] {
            proof {
                if starts_with(s@, i as int, lit@) {
                    lemma_starts_with_index(s@, i as int, lit@);
                    assert(s@[i + k] == lit@[k as int]);
                }
            }
            return Option::None;
        }
        k += 1;
        pos += 1;
    }
    proof {
        reveal(starts_with);
        assert(s@.subrange(i as int, i + lit@.len()) =~= lit@);
    }
    Option::Some(pos)
}

/// Reads a quoted string at position `i`. `Some` exactly on an
/// occurrence of `qstr(t)` for a plain `t`, and then it returns that
/// `t`: what was encoded is what is read back.
fn parse_string(s: &Vec<u8>, i: usize) -> (r: Option<(Vec<u8>, usize)>)
    ensures
        r matches Some(tj) ==> wf_text(tj.0@) && starts_with(s@, i as int, qstr(tj.0@)) && tj.1
            == i + tj.0@.len() + 2,
        forall|t2: Seq<u8>| wf_text(t2) && starts_with(s@, i as int, qstr(t2)) ==> match r {
            Option::Some(tj) => tj.0@ == t2 && tj.1 == i + t2.len() + 2,
            Option::None => false,
        },
{
    if i >= s.len() || s[i] != 34 {
        proof {
            assert forall|t2: Seq<u8>| wf_text(t2) && starts_with(s@, i as int, qstr(t2))
                implies false by {
                lemma_starts_with_index(s@, i as int, qstr(t2));
                assert(s@[i + 0] == qstr(t2)[0]);
                assert(qstr(t2)[0] == 34);
            }
        }
        return Option::None;
    }
    let mut t: Vec<u8> = Vec::new();
    let mut j: usize = i + 1;
    proof {
        assert(t@ =~= s@.subrange(i + 1, i + 1));
    }
    while j < s.len() && s[j] != 34
        invariant
            i < s@.len(),
            s@[i as int] == 34,
            i + 1 <= j <= s@.len(),
            t@ == s@.subrange(i + 1, j as int),
            forall|k: int| i + 1 <= k < j ==> s@[k] != 34 && s@[k] != 92 && s@[k] >= 32,
        decreases s@.len() - j,
    {
        let b = s[j];
        if b < 32 || b == 92 {
            proof {
                assert forall|t2: Seq<u8>| wf_text(t2) && starts_with(s@, i as int, qstr(t2))
                    implies false by {
                    lemma_starts_with_index(s@, i as int, qstr(t2));
                    let l = t2.len() as int;
                    assert(qstr(t2).len() == l + 2);
                    if j <= i + l {
                        assert(s@[j as int] == qstr(t2)[j - i]);
                        assert(qstr(t2)[j - i] == t2[j - i - 1]);
                    } else if j == i + l + 1 {
                        assert(s@[j as int] == qstr(t2)[l + 1]);
                        assert(qstr(t2)[l + 1] == 34);
                    } else {
                        assert(s@[i + l + 1] == qstr(t2)[l + 1]);
                        assert(qstr(t2)[l + 1] == 34);
                    }
                }
            }
            return Option::None;
        }
        t.push(b);
        j += 1;
        proof {
            assert(t@ =~= s@.subrange(i + 1, j as int));
        }
    }
    if j >= s.len() {
        proof {
            assert forall|t2: Seq<u8>| wf_text(t2) && starts_with(s@, i as int, qstr(t2))
                implies false by {
                lemma_starts_with_index(s@, i as int, qstr(t2));
                let l = t2.len() as int;
                assert(s@[i + l + 1] == qstr(t2)[l + 1]);
                assert(qstr(t2)[l + 1] == 34);
            }
        }
        return Option::None;
    }
    proof {
        reveal(starts_with);
        assert(s@[j as int] == 34);
        assert(s@.subrange(i as int, j + 1) =~= qstr(t@));
        assert(starts_with(s@, i as int, qstr(t@)));
        assert forall|k: int| 0 <= k < t@.len() implies t@[k] != 34 && t@[k] != 92 && t@[k]
            >= 32 by {
            assert(t@[k] == s@[i + 1 + k]);
        }
        assert forall|t2: Seq<u8>| wf_text(t2) && starts_with(s@, i as int, qstr(t2)) implies t@
            == t2 && j + 1 == i + t2.len() + 2 by {
            lemma_starts_with_index(s@, i as int, qstr(t2));
            let l = t2.len() as int;
            if j < i + 1 + l {
                assert(s@[j as int] == qstr(t2)[j - i]);
                assert(qstr(t2)[j - i] == t2[j - i - 1]);
                assert(false);
            }
            if j > i + 1 + l {
                assert(s@[i + l + 1] == qstr(t2)[l + 1]);
                assert(qstr(t2)[l + 1] == 34);
                assert(false);
            }
            assert(j == i + 1 + l);
            assert forall|k: int| 0 <= k < l implies t@[k] == t2[k] by {
                assert(t@[k] == s@[i + 1 + k]);
                assert(s@[i + 1 + k] == qstr(t2)[k + 1]);
                assert(qstr(t2)[k + 1] == t2[k]);
            }
            assert(t@ =~= t2);
        }
    }
    Option::Some((t, j + 1))
}

/// Reads a canonical decimal number at position `i`: digits with no
/// leading zero, taken greedily. `Some(n)` exactly on an occurrence of
/// `dec_digits(n)` that no further digit continues.
fn parse_u64(s: &Vec<u8>, i: usize) -> (r: Option<(u64, usize)>)
    ensures
        r matches Some(nj) ==> starts_with(s@, i as int, dec_digits(nj.0 as nat)) && nj.1 == i
            + dec_digits(nj.0 as nat).len(),
        forall|n2: u64| starts_with(s@, i as int, dec_digits(n2 as nat)) && digit_boundary(
            s@,
            i + dec_digits(n2 as nat).len(),
        ) ==> match r {
            Option::Some(nj) => nj.0 == n2 && nj.1 == i + dec_digits(n2 as nat).len(),
            Option::None => false,
        },
{
    let n = s.len();
    if i >= n || s[i] < 48 || s[i] > 57 {
        proof {
            assert forall|n2: u64| starts_with(s@, i as int, dec_digits(n2 as nat))
                implies false by {
                lemma_dec_digits_props(n2 as nat);
                lemma_starts_with_index(s@, i as int, dec_digits(n2 as nat));
                assert(s@[i + 0] == dec_digits(n2 as nat)[0]);
            }
        }
        return Option::None;
    }
    if s[i] == 48 {
        proof {
            reveal(starts_with);
            assert(s@.subrange(i as int, i + 1) =~= dec_digits(0nat));
            assert(starts_with(s@, i as int, dec_digits(0nat)));
            assert forall|n2: u64| starts_with(s@, i as int, dec_digits(n2 as nat)) implies n2
                == 0 by {
                lemma_dec_digits_props(n2 as nat);
                lemma_starts_with_index(s@, i as int, dec_digits(n2 as nat));
                assert(s@[i + 0] == dec_digits(n2 as nat)[0]);
            }
        }
        return Option::Some((0, i + 1));
    }
    let mut acc: u64 = (s[i] - 48) as u64;
    let mut j: usize = i + 1;
    proof {
        let d0 = s@.subrange(i as int, i + 1);
        assert(d0.len() == 1);
        assert(d0.drop_last() =~= Seq::<u8>::empty());
        assert(d0.last() == s@[i as int]);
        assert(val_digits(Seq::<u8>::empty()) == 0);
        assert(val_digits(d0) == val_digits(d0.drop_last()) * 10 + (d0.last() - 48));
        assert(acc == val_digits(d0));
    }
    while j < n && 48 <= s[j] && s[j] <= 57
        invariant
            n == s@.len(),
            i < j <= s@.len(),
            is_digit(s@[i as int]),
            s@[i as int] != 48,
            forall|k: int| i <= k < j ==> is_digit(#[trigger] s@[k]),
            acc == val_digits(s@.subrange(i as int, j as int)),
        decreases s@.len() - j,
    {
        let d = (s[j] - 48) as u64;
        let step = match acc.checked_mul(10) {
            Option::Some(m) => m.checked_add(d),
            Option::None => Option::None,
        };
        proof {
            let ds = s@.subrange(i as int, j as int);
            let dsx = s@.subrange(i as int, j + 1);
            assert(dsx.drop_last() =~= ds);
            assert(dsx.last() == s@[j as int]);
            assert(val_digits(dsx) == acc * 10 + d);
            if step is None {
                assert(acc * 10 + d > u64::MAX);
                assert forall|n2: u64| starts_with(s@, i as int, dec_digits(n2 as nat))
                    && digit_boundary(s@, i + dec_digits(n2 as nat).len()) implies false by {
                    lemma_dec_digits_props(n2 as nat);
                    lemma_starts_with_index(s@, i as int, dec_digits(n2 as nat));
                    let l = dec_digits(n2 as nat).len() as int;
                    if j + 1 - i > l {
                        if i + l < s@.len() {
                            assert(is_digit(s@[i + l]));
                        }
                        assert(false);
                    }
                    assert(dsx =~= dec_digits(n2 as nat).subrange(0, j + 1 - i));
                    lemma_val_prefix_le(dec_digits(n2 as nat), j + 1 - i);
                    assert(val_digits(dsx) <= n2);
                }
            }
        }
        match step {
            Option::Some(v) => {
                acc = v;
            },
            Option::None => {
                return Option::None;
            },
        }
        j += 1;
    }
    proof {
        let ds = s@.subrange(i as int, j as int);
        assert(ds[0] == s@[i as int]);
        assert(all_digits(ds));
        lemma_dec_of_val(ds);
        assert(dec_digits(acc as nat) =~= ds);
        assert(starts_with(s@, i as int, dec_digits(acc as nat))) by {
            reveal(starts_with);
        }
        assert forall|n2: u64| starts_with(s@, i as int, dec_digits(n2 as nat))
            && digit_boundary(s@, i + dec_digits(n2 as nat).len()) implies n2 == acc && j == i
            + dec_digits(n2 as nat).len() by {
            lemma_dec_digits_props(n2 as nat);
            lemma_starts_with_index(s@, i as int, dec_digits(n2 as nat));
            let l = dec_digits(n2 as nat).len() as int;
            if j - i > l {
                if i + l < s@.len() {
                    assert(is_digit(s@[i + l]));
                }
                assert(false);
            }
            if j - i < l {
                assert(s@[j as int] == dec_digits(n2 as nat)[j - i]);
                assert(is_digit(dec_digits(n2 as nat)[j - i]));
                assert(j < s@.len() ==> !(48 <= s@[j as int] <= 57));
                assert(false);
            }
            assert(ds =~= dec_digits(n2 as nat));
            assert(val_digits(ds) == n2);
        }
    }
    Option::Some((acc, j))
}

/// Reads a key literal followed by a quoted string.
fn parse_field_s(s: &Vec<u8>, i: usize, key: &Vec<u8>) -> (r: Option<(Vec<u8>, usize)>)
    ensures
        r matches Some(tj) ==> wf_text(tj.0@) && starts_with(s@, i as int, field_s(key@, tj.0@))
            && tj.1 == i + key@.len() + tj.0@.len() + 2,
        forall|t2: Seq<u8>| wf_text(t2) && starts_with(s@, i as int, field_s(key@, t2))
            ==> match r {
            Option::Some(tj) => tj.0@ == t2 && tj.1 == i + key@.len() + t2.len() + 2,
            Option::None => false,
        },
{
    let rk = expect_lit(s, i, key);
    match rk {
        Option::None => {
            proof {
                assert forall|t2: Seq<u8>| wf_text(t2) && starts_with(
                    s@,
                    i as int,
                    field_s(key@, t2),
                ) implies false by {
                    lemma_starts_with_parts(s@, i as int, key@, qstr(t2));
                }
            }
            Option::None
        },
        Option::Some(j1) => {
            let rs = parse_string(s, j1);
            proof {
                assert forall|t2: Seq<u8>| wf_text(t2) && starts_with(
                    s@,
                    i as int,
                    field_s(key@, t2),
                ) implies starts_with(s@, j1 as int, qstr(t2)) by {
                    lemma_starts_with_parts(s@, i as int, key@, qstr(t2));
                }
            }
            match rs {
                Option::None => Option::None,
                Option::Some(tj) => {
                    proof {
                        lemma_starts_with_join(s@, i as int, key@, qstr(tj.0@));
                    }
                    Option::Some(tj)
                },
            }
        },
    }
}

/// Reads a key literal followed by a canonical decimal number.
fn parse_field_n(s: &Vec<u8>, i: usize, key: &Vec<u8>) -> (r: Option<(u64, usize)>)
    ensures
        r matches Some(nj) ==> starts_with(s@, i as int, field_n(key@, nj.0)) && nj.1 == i
            + key@.len() + dec_digits(nj.0 as nat).len(),
        forall|n2: u64| starts_with(s@, i as int, field_n(key@, n2)) && digit_boundary(
            s@,
            i + field_n(key@, n2).len(),
        ) ==> match r {
            Option::Some(nj) => nj.0 == n2 && nj.1 == i + field_n(key@, n2).len(),
            Option::None => false,
        },
{
    let rk = expect_lit(s, i, key);
    match rk {
        Option::None => {
            proof {
                assert forall|n2: u64| starts_with(s@, i as int, field_n(key@, n2))
                    implies false by {
                    lemma_starts_with_parts(s@, i as int, key@, dec_digits(n2 as nat));
                }
            }
            Option::None
        },
        Option::Some(j1) => {
            let rn = parse_u64(s, j1);
            proof {
                assert forall|n2: u64| starts_with(s@, i as int, field_n(key@, n2))
                    implies starts_with(s@, j1 as int, dec_digits(n2 as nat)) by {
                    lemma_starts_with_parts(s@, i as int, key@, dec_digits(n2 as nat));
                }
            }
            match rn {
                Option::None => Option::None,
                Option::Some(nj) => {
                    proof {
                        lemma_starts_with_join(s@, i as int, key@, dec_digits(nj.0 as nat));
                    }
                    Option::Some(nj)
                },
            }
        },
    }
}

/// The position just past the `bidder_id` field of a bid encoded at `i`.
spec fn ob1(i: int, b: BidModel) -> int {
    i + b.bidder_id.len() + 15
}

/// The position just past the `amount` field.
spec fn ob2(i: int, b: BidModel) -> int {
    ob1(i, b) + 10 + dec_digits(b.amount as nat).len()
}

/// The position just past the `timestamp` field, at the closing brace.
spec fn ob3(i: int, b: BidModel) -> int {
    ob2(i, b) + b.timestamp.len() + 15
}

/// An occurrence of an encoded bid splits into its fields.
proof fn lemma_bid_peel(s: Seq<u8>, i: int, b: BidModel)
    requires
        starts_with(s, i, enc_bid(b)),
    ensures
        starts_with(s, i, field_s(key_bidder_id(), b.bidder_id)),
        starts_with(s, ob1(i, b), field_n(key_amount(), b.amount)),
        digit_boundary(s, ob2(i, b)),
        starts_with(s, ob2(i, b), field_s(key_timestamp(), b.timestamp)),
        ob3(i, b) < s.len() && s[ob3(i, b)] == 125,
        ob3(i, b) + 1 == i + enc_bid(b).len() <= s.len(),
{
    let p1 = field_s(key_bidder_id(), b.bidder_id);
    let p2 = field_n(key_amount(), b.amount);
    let p3 = field_s(key_timestamp(), b.timestamp);
    let pc = seq![125u8];
    reveal(enc_bid);
    assert(enc_bid(b) == p1 + p2 + p3 + pc);
    lemma_starts_with_parts(s, i, p1 + p2 + p3, pc);
    lemma_starts_with_parts(s, i, p1 + p2, p3);
    lemma_starts_with_parts(s, i, p1, p2);
    lemma_starts_with_index(s, ob2(i, b), p3);
    assert(p3[0] == key_timestamp()[0]);
    assert(s[ob2(i, b)] == 44);
    lemma_starts_with_index(s, ob3(i, b), pc);
    assert(pc[0] == 125);
    assert(s[ob3(i, b) + 0] == pc[0]);
}

/// Field occurrences in a row join into an occurrence of an encoded bid.
proof fn lemma_bid_join(s: Seq<u8>, i: int, b: BidModel)
    requires
        starts_with(s, i, field_s(key_bidder_id(), b.bidder_id)),
        starts_with(s, ob1(i, b), field_n(key_amount(), b.amount)),
        starts_with(s, ob2(i, b), field_s(key_timestamp(), b.timestamp)),
        ob3(i, b) < s.len() && s[ob3(i, b)] == 125,
    ensures
        starts_with(s, i, enc_bid(b)),
        i + enc_bid(b).len() == ob3(i, b) + 1,
{
    let p1 = field_s(key_bidder_id(), b.bidder_id);
    let p2 = field_n(key_amount(), b.amount);
    let p3 = field_s(key_timestamp(), b.timestamp);
    let pc = seq![125u8];
    lemma_starts_with_index(s, ob2(i, b), p3);
    assert(starts_with(s, ob3(i, b), pc)) by {
        reveal(starts_with);
        assert(s.subrange(ob3(i, b), ob3(i, b) + 1) =~= pc);
    }
    lemma_starts_with_join(s, i, p1, p2);
    lemma_starts_with_join(s, i, p1 + p2, p3);
    lemma_starts_with_join(s, i, p1 + p2 + p3, pc);
    reveal(enc_bid);
    assert(enc_bid(b) == p1 + p2 + p3 + pc);
}

/// Reads an encoded bid record at position `i`: `Some` exactly on an
/// occurrence of `enc_bid`, returning the bid that was encoded.
fn parse_bid(s: &Vec<u8>, i: usize) -> (r: Option<(Bid, usize)>)
    ensures
        r matches Some(bj) ==> wf_bid(bj.0@) && starts_with(s@, i as int, enc_bid(bj.0@)) && bj.1
            == i + enc_bid(bj.0@).len(),
        forall|b2: BidModel| wf_bid(b2) && starts_with(s@, i as int, enc_bid(b2)) ==> match r {
            Option::Some(bj) => bj.0@ == b2 && bj.1 == i + enc_bid(b2).len(),
            Option::None => false,
        },
{
    let r1 = parse_field_s(s, i, &key_bidder_id_v());
    let (bidder_id, j1) = match r1 {
        Option::Some(x) => x,
        Option::None => {
            proof {
                assert forall|b2: BidModel| wf_bid(b2) && starts_with(s@, i as int, enc_bid(b2))
                    implies false by {
                    lemma_bid_peel(s@, i as int, b2);
                }
            }
            return Option::None;
        },
    };
    let r2 = parse_field_n(s, j1, &key_amount_v());
    let (amount, j2) = match r2 {
        Option::Some(x) => x,
        Option::None => {
            proof {
                assert forall|b2: BidModel| wf_bid(b2) && starts_with(s@, i as int, enc_bid(b2))
                    implies false by {
                    lemma_bid_peel(s@, i as int, b2);
                }
            }
            return Option::None;
        },
    };
    let r3 = parse_field_s(s, j2, &key_timestamp_v());
    let (timestamp, j3) = match r3 {
        Option::Some(x) => x,
        Option::None => {
            proof {
                assert forall|b2: BidModel| wf_bid(b2) && starts_with(s@, i as int, enc_bid(b2))
                    implies false by {
                    lemma_bid_peel(s@, i as int, b2);
                }
            }
            return Option::None;
        },
    };
    if j3 >= s.len() || s[j3] != 125 {
        proof {
            assert forall|b2: BidModel| wf_bid(b2) && starts_with(s@, i as int, enc_bid(b2))
                implies false by {
                lemma_bid_peel(s@, i as int, b2);
            }
        }
        return Option::None;
    }
    let b = Bid { bidder_id, amount, timestamp };
    proof {
        lemma_bid_join(s@, i as int, b@);
        assert forall|b2: BidModel| wf_bid(b2) && starts_with(s@, i as int, enc_bid(b2))
            implies b@ == b2 && j3 + 1 == i + enc_bid(b2).len() by {
            lemma_bid_peel(s@, i as int, b2);
            assert(b@.bidder_id == b2.bidder_id);
            assert(b@.amount == b2.amount);
            assert(b@.timestamp == b2.timestamp);
        }
    }
    Option::Some((b, j3 + 1))
}

/// The position just past the `id` field of an auction encoded at `i`.
spec fn oa1(i: int, a: AuctionModel) -> int {
    i + a.id.len() + 8
}

/// The position just past the `title` field.
spec fn oa2(i: int, a: AuctionModel) -> int {
    oa1(i, a) + a.title.len() + 11
}

/// The position just past the `description` field, which the short
/// form omits.
spec fn oa3(i: int, a: AuctionModel, full: bool) -> int {
    oa2(i, a) + (if full {
        a.description.len() + 17
    } else {
        0
    })
}

/// The position just past the `start_price` field.
spec fn oa4(i: int, a: AuctionModel, full: bool) -> int {
    oa3(i, a, full) + 15 + dec_digits(a.start_price as nat).len()
}

/// The position just past the `current_bid` field.
spec fn oa5(i: int, a: AuctionModel, full: bool) -> int {
    oa4(i, a, full) + 15 + dec_digits(a.current_bid as nat).len()
}

/// The position just past the `highest_bidder` field.
spec fn oa6(i: int, a: AuctionModel, full: bool) -> int {
    oa5(i, a, full) + a.highest_bidder.len() + 20
}

/// The position just past the `bid_count` field.
spec fn oa7(i: int, a: AuctionModel, full: bool) -> int {
    oa6(i, a, full) + 13 + dec_digits(a.bid_count as nat).len()
}

/// The position just past the `status` field.
spec fn oa8(i: int, a: AuctionModel, full: bool) -> int {
    oa7(i, a, full) + a.status.len() + 12
}

/// The position just past the `start_time` field.
spec fn oa9(i: int, a: AuctionModel, full: bool) -> int {
    oa8(i, a, full) + a.start_time.len() + 16
}

/// The position just past the `end_time` field, at the closing brace.
spec fn oa10(i: int, a: AuctionModel, full: bool) -> int {
    oa9(i, a, full) + a.end_time.len() + 14
}

/// An occurrence of an encoded auction splits into its fields.
proof fn lemma_auction_peel(s: Seq<u8>, i: int, a: AuctionModel, full: bool)
    requires
        starts_with(s, i, enc_auction(a, full)),
    ensures
        starts_with(s, i, field_s(key_id(), a.id)),
        starts_with(s, oa1(i, a), field_s(key_title(), a.title)),
        full ==> starts_with(s, oa2(i, a), field_s(key_description(), a.description)),
        starts_with(s, oa3(i, a, full), key_start_price()),
        starts_with(s, oa3(i, a, full), field_n(key_start_price(), a.start_price)),
        digit_boundary(s, oa4(i, a, full)),
        starts_with(s, oa4(i, a, full), field_n(key_current_bid(), a.current_bid)),
        digit_boundary(s, oa5(i, a, full)),
        starts_with(s, oa5(i, a, full), field_s(key_highest_bidder(), a.highest_bidder)),
        starts_with(s, oa6(i, a, full), field_n(key_bid_count(), a.bid_count)),
        digit_boundary(s, oa7(i, a, full)),
        starts_with(s, oa7(i, a, full), field_s(key_status(), a.status)),
        starts_with(s, oa8(i, a, full), field_s(key_start_time(), a.start_time)),
        starts_with(s, oa9(i, a, full), field_s(key_end_time(), a.end_time)),
        oa10(i, a, full) < s.len() && s[oa10(i, a, full)] == 125,
        oa10(i, a, full) + 1 == i + enc_auction(a, full).len() <= s.len(),
{
    let p1 = field_s(key_id(), a.id);
    let p2 = field_s(key_title(), a.title);
    let pd = if full {
        field_s(key_description(), a.description)
    } else {
        Seq::<u8>::empty()
    };
    let p3 = field_n(key_start_price(), a.start_price);
    let p4 = field_n(key_current_bid(), a.current_bid);
    let p5 = field_s(key_highest_bidder(), a.highest_bidder);
    let p6 = field_n(key_bid_count(), a.bid_count);
    let p7 = field_s(key_status(), a.status);
    let p8 = field_s(key_start_time(), a.start_time);
    let p9 = field_s(key_end_time(), a.end_time);
    let pc = seq![125u8];
    reveal(enc_auction);
    assert(enc_auction(a, full) == p1 + p2 + pd + p3 + p4 + p5 + p6 + p7 + p8 + p9 + pc);
    lemma_starts_with_parts(s, i, p1 + p2 + pd + p3 + p4 + p5 + p6 + p7 + p8 + p9, pc);
    lemma_starts_with_parts(s, i, p1 + p2 + pd + p3 + p4 + p5 + p6 + p7 + p8, p9);
    lemma_starts_with_parts(s, i, p1 + p2 + pd + p3 + p4 + p5 + p6 + p7, p8);
    lemma_starts_with_parts(s, i, p1 + p2 + pd + p3 + p4 + p5 + p6, p7);
    lemma_starts_with_parts(s, i, p1 + p2 + pd + p3 + p4 + p5, p6);
    lemma_starts_with_parts(s, i, p1 + p2 + pd + p3 + p4, p5);
    lemma_starts_with_parts(s, i, p1 + p2 + pd + p3, p4);
    lemma_starts_with_parts(s, i, p1 + p2 + pd, p3);
    lemma_starts_with_parts(s, i, p1 + p2, pd);
    lemma_starts_with_parts(s, i, p1, p2);
    lemma_starts_with_parts(s, oa3(i, a, full), key_start_price(), dec_digits(
        a.start_price as nat,
    ));
    lemma_starts_with_index(s, oa4(i, a, full), p4);
    assert(p4[0] == key_current_bid()[0]);
    assert(s[oa4(i, a, full) + 0] == p4[0]);
    lemma_starts_with_index(s, oa5(i, a, full), p5);
    assert(p5[0] == key_highest_bidder()[0]);
    assert(s[oa5(i, a, full) + 0] == p5[0]);
    lemma_starts_with_index(s, oa7(i, a, full), p7);
    assert(p7[0] == key_status()[0]);
    assert(s[oa7(i, a, full) + 0] == p7[0]);
    lemma_starts_with_index(s, oa10(i, a, full), pc);
    assert(pc[0] == 125);
    assert(s[oa10(i, a, full) + 0] == pc[0]);
}

/// Field occurrences in a row join into an occurrence of an encoded
/// auction.
proof fn lemma_auction_join(s: Seq<u8>, i: int, a: AuctionModel, full: bool)
    requires
        starts_with(s, i, field_s(key_id(), a.id)),
        starts_with(s, oa1(i, a), field_s(key_title(), a.title)),
        full ==> starts_with(s, oa2(i, a), field_s(key_description(), a.description)),
        starts_with(s, oa3(i, a, full), field_n(key_start_price(), a.start_price)),
        starts_with(s, oa4(i, a, full), field_n(key_current_bid(), a.current_bid)),
        starts_with(s, oa5(i, a, full), field_s(key_highest_bidder(), a.highest_bidder)),
        starts_with(s, oa6(i, a, full), field_n(key_bid_count(), a.bid_count)),
        starts_with(s, oa7(i, a, full), field_s(key_status(), a.status)),
        starts_with(s, oa8(i, a, full), field_s(key_start_time(), a.start_time)),
        starts_with(s, oa9(i, a, full), field_s(key_end_time(), a.end_time)),
        oa10(i, a, full) < s.len() && s[oa10(i, a, full)] == 125,
    ensures
        starts_with(s, i, enc_auction(a, full)),
        i + enc_auction(a, full).len() == oa10(i, a, full) + 1,
{
    let p1 = field_s(key_id(), a.id);
    let p2 = field_s(key_title(), a.title);
    let pd = if full {
        field_s(key_description(), a.description)
    } else {
        Seq::<u8>::empty()
    };
    let p3 = field_n(key_start_price(), a.start_price);
    let p4 = field_n(key_current_bid(), a.current_bid);
    let p5 = field_s(key_highest_bidder(), a.highest_bidder);
    let p6 = field_n(key_bid_count(), a.bid_count);
    let p7 = field_s(key_status(), a.status);
    let p8 = field_s(key_start_time(), a.start_time);
    let p9 = field_s(key_end_time(), a.end_time);
    let pc = seq![125u8];
    reveal(enc_auction);
    assert(enc_auction(a, full) == p1 + p2 + pd + p3 + p4 + p5 + p6 + p7 + p8 + p9 + pc);
    lemma_starts_with_index(s, oa1(i, a), p2);
    if !full {
        assert(starts_with(s, oa2(i, a), pd)) by {
            reveal(starts_with);
            assert(s.subrange(oa2(i, a), oa2(i, a)) =~= pd);
        }
    }
    assert(starts_with(s, oa10(i, a, full), pc)) by {
        reveal(starts_with);
        assert(s.subrange(oa10(i, a, full), oa10(i, a, full) + 1) =~= pc);
    }
    lemma_starts_with_join(s, i, p1, p2);
    lemma_starts_with_join(s, i, p1 + p2, pd);
    lemma_starts_with_join(s, i, p1 + p2 + pd, p3);
    lemma_starts_with_join(s, i, p1 + p2 + pd + p3, p4);
    lemma_starts_with_join(s, i, p1 + p2 + pd + p3 + p4, p5);
    lemma_starts_with_join(s, i, p1 + p2 + pd + p3 + p4 + p5, p6);
    lemma_starts_with_join(s, i, p1 + p2 + pd + p3 + p4 + p5 + p6, p7);
    lemma_starts_with_join(s, i, p1 + p2 + pd + p3 + p4 + p5 + p6 + p7, p8);
    lemma_starts_with_join(s, i, p1 + p2 + pd + p3 + p4 + p5 + p6 + p7 + p8, p9);
    lemma_starts_with_join(s, i, p1 + p2 + pd + p3 + p4 + p5 + p6 + p7 + p8 + p9, pc);
}

/// There is a form in which `av` stands encoded at `i`, ending at `j`.
pub open spec fn auction_occurrence(s: Seq<u8>, i: int, av: AuctionModel, j: int) -> bool {
    exists|full: bool|
        (full || av.description.len() == 0) && #[trigger] starts_with(s, i, enc_auction(av, full))
            && j == i + enc_auction(av, full).len()
}

/// Reads an encoded auction record at position `i`: `Some` exactly on
/// an occurrence of `enc_auction` in either form, returning the record
/// that was encoded. A frame without a `description` key stands for an
/// empty description.
#[verifier::rlimit(100)]
fn parse_auction(s: &Vec<u8>, i: usize) -> (r: Option<(Auction, usize)>)
    ensures
        r matches Some(aj) ==> wf_auction(aj.0@) && auction_occurrence(
            s@,
            i as int,
            aj.0@,
            aj.1 as int,
        ),
        forall|a2: AuctionModel, full2: bool|
            wf_auction(a2) && (full2 || a2.description.len() == 0) && starts_with(
                s@,
                i as int,
                enc_auction(a2, full2),
            ) ==> match r {
            Option::Some(aj) => aj.0@ == a2 && aj.1 == i + enc_auction(a2, full2).len(),
            Option::None => false,
        },
{
    let r1 = parse_field_s(s, i, &key_id_v());
    let j1: usize = match &r1 {
        Option::Some(x) => x.1,
        Option::None => 0,
    };
    let r2 = parse_field_s(s, j1, &key_title_v());
    let j2: usize = match &r2 {
        Option::Some(x) => x.1,
        Option::None => 0,
    };
    let rd = parse_field_s(s, j2, &key_description_v());
    let j3: usize = match &rd {
        Option::Some(x) => x.1,
        Option::None => j2,
    };
    let r3 = parse_field_n(s, j3, &key_start_price_v());
    let j4: usize = match &r3 {
        Option::Some(x) => x.1,
        Option::None => 0,
    };
    let r4 = parse_field_n(s, j4, &key_current_bid_v());
    let j5: usize = match &r4 {
        Option::Some(x) => x.1,
        Option::None => 0,
    };
    let r5 = parse_field_s(s, j5, &key_highest_bidder_v());
    let j6: usize = match &r5 {
        Option::Some(x) => x.1,
        Option::None => 0,
    };
    let r6 = parse_field_n(s, j6, &key_bid_count_v());
    let j7: usize = match &r6 {
        Option::Some(x) => x.1,
        Option::None => 0,
    };
    let r7 = parse_field_s(s, j7, &key_status_v());
    let j8: usize = match &r7 {
        Option::Some(x) => x.1,
        Option::None => 0,
    };
    let r8 = parse_field_s(s, j8, &key_start_time_v());
    let j9: usize = match &r8 {
        Option::Some(x) => x.1,
        Option::None => 0,
    };
    let r9 = parse_field_s(s, j9, &key_end_time_v());
    let j10: usize = match &r9 {
        Option::Some(x) => x.1,
        Option::None => 0,
    };
    let closed = j10 < s.len() && s[j10] == 125;
    if r1.is_some() && r2.is_some() && r3.is_some() && r4.is_some() && r5.is_some()
        && r6.is_some() && r7.is_some() && r8.is_some() && r9.is_some() && closed {
        let ghost gfull: bool = rd is Some;
        let (description, _jd): (Vec<u8>, usize) = match rd {
            Option::Some(x) => x,
            Option::None => (Vec::new(), 0),
        };
        let a = Auction {
            id: r1.unwrap().0,
            title: r2.unwrap().0,
            description,
            start_price: r3.unwrap().0,
            current_bid: r4.unwrap().0,
            highest_bidder: r5.unwrap().0,
            bid_count: r6.unwrap().0,
            status: r7.unwrap().0,
            start_time: r8.unwrap().0,
            end_time: r9.unwrap().0,
        };
        proof {
            assert(wf_auction(a@));
            assert(gfull || a@.description.len() == 0);
            assert(j1 == oa1(i as int, a@));
            assert(j2 == oa2(i as int, a@));
            assert(j3 == oa3(i as int, a@, gfull));
            assert(j4 == oa4(i as int, a@, gfull));
            assert(j5 == oa5(i as int, a@, gfull));
            assert(j6 == oa6(i as int, a@, gfull));
            assert(j7 == oa7(i as int, a@, gfull));
            assert(j8 == oa8(i as int, a@, gfull));
            assert(j9 == oa9(i as int, a@, gfull));
            assert(j10 == oa10(i as int, a@, gfull));
            lemma_auction_join(s@, i as int, a@, gfull);
            assert(starts_with(s@, i as int, enc_auction(a@, gfull)));
            assert(j10 + 1 == i + enc_auction(a@, gfull).len());
            assert(auction_occurrence(s@, i as int, a@, j10 + 1));
            assert forall|a2: AuctionModel, full2: bool|
                wf_auction(a2) && (full2 || a2.description.len() == 0) && starts_with(
                    s@,
                    i as int,
                    enc_auction(a2, full2),
                ) implies a@ == a2 && j10 + 1 == i + enc_auction(a2, full2).len() by {
                lemma_auction_peel(s@, i as int, a2, full2);
                if gfull && !full2 {
                    assert(j2 == oa2(i as int, a2));
                    assert(oa3(i as int, a2, false) == oa2(i as int, a2));
                    lemma_starts_with_parts(s@, j2 as int, key_description(), qstr(a@.description));
                    lemma_starts_with_index(s@, j2 as int, key_description());
                    lemma_starts_with_index(s@, j2 as int, key_start_price());
                    assert(key_description()[2] == 100);
                    assert(key_start_price()[2] == 115);
                    assert(s@[j2 + 2] == 100);
                    assert(s@[j2 + 2] == 115);
                }
                assert(a@ =~= a2);
            }
        }
        Option::Some((a, j10 + 1))
    } else {
        proof {
            assert forall|a2: AuctionModel, full2: bool|
                wf_auction(a2) && (full2 || a2.description.len() == 0) && starts_with(
                    s@,
                    i as int,
                    enc_auction(a2, full2),
                ) implies false by {
                lemma_auction_peel(s@, i as int, a2, full2);
                if !full2 && rd is Some {
                    assert(j2 == oa2(i as int, a2));
                    assert(oa3(i as int, a2, false) == oa2(i as int, a2));
                    lemma_starts_with_parts(
                        s@,
                        j2 as int,
                        key_description(),
                        qstr(rd->Some_0.0@),
                    );
                    lemma_starts_with_index(s@, j2 as int, key_description());
                    lemma_starts_with_index(s@, j2 as int, key_start_price());
                    assert(key_description()[2] == 100);
                    assert(key_start_price()[2] == 115);
                    assert(s@[j2 + 2] == 100);
                    assert(s@[j2 + 2] == 115);
                }
            }
        }
        Option::None
    }
}

/// The position just past the `type` field of an envelope at `i`.
spec fn om1(i: int, m: MessageModel) -> int {
    i + m.msg_type.len() + 10
}

/// The position of the auction payload.
spec fn om2(i: int, m: MessageModel) -> int {
    om1(i, m) + 11
}

/// The position just past the auction payload.
spec fn om3(i: int, m: MessageModel, full: bool) -> int {
    om2(i, m) + (match m.auction {
        Option::Some(a) => enc_auction(a, full).len() as int,
        Option::None => 4,
    })
}

/// The position of the bid payload.
spec fn om4(i: int, m: MessageModel, full: bool) -> int {
    om3(i, m, full) + 7
}

/// The position just past the bid payload, at the closing brace.
spec fn om5(i: int, m: MessageModel, full: bool) -> int {
    om4(i, m, full) + (match m.bid {
        Option::Some(b) => enc_bid(b).len() as int,
        Option::None => 4,
    })
}

/// An occurrence of an encoded envelope splits into its parts.
#[verifier::rlimit(100)]
proof fn lemma_message_peel(s: Seq<u8>, i: int, m: MessageModel, full: bool)
    requires
        starts_with(s, i, enc_message(m, full)),
    ensures
        starts_with(s, i, field_s(lit_type_key(), m.msg_type)),
        starts_with(s, om1(i, m), lit_auction_key()),
        match m.auction {
            Option::Some(a) => starts_with(s, om2(i, m), enc_auction(a, full)),
            Option::None => starts_with(s, om2(i, m), lit_null()),
        },
        om2(i, m) < s.len() && (match m.auction {
            Option::Some(a) => s[om2(i, m)] == 123,
            Option::None => s[om2(i, m)] == 110,
        }),
        starts_with(s, om3(i, m, full), lit_bid_key()),
        match m.bid {
            Option::Some(b) => starts_with(s, om4(i, m, full), enc_bid(b)),
            Option::None => starts_with(s, om4(i, m, full), lit_null()),
        },
        om4(i, m, full) < s.len() && (match m.bid {
            Option::Some(b) => s[om4(i, m, full)] == 123,
            Option::None => s[om4(i, m, full)] == 110,
        }),
        om5(i, m, full) < s.len() && s[om5(i, m, full)] == 125,
        om5(i, m, full) + 1 == i + enc_message(m, full).len() <= s.len(),
{
    let p1 = field_s(lit_type_key(), m.msg_type);
    let p2 = lit_auction_key();
    let pa = match m.auction {
        Option::Some(a) => enc_auction(a, full),
        Option::None => lit_null(),
    };
    let p3 = lit_bid_key();
    let pb = match m.bid {
        Option::Some(b) => enc_bid(b),
        Option::None => lit_null(),
    };
    let pc = seq![125u8];
    reveal(enc_message);
    reveal(enc_auction);
    reveal(enc_bid);
    assert(enc_message(m, full) == p1 + p2 + pa + p3 + pb + pc);
    lemma_starts_with_parts(s, i, p1 + p2 + pa + p3 + pb, pc);
    lemma_starts_with_parts(s, i, p1 + p2 + pa + p3, pb);
    lemma_starts_with_parts(s, i, p1 + p2 + pa, p3);
    lemma_starts_with_parts(s, i, p1 + p2, pa);
    lemma_starts_with_parts(s, i, p1, p2);
    lemma_starts_with_index(s, om2(i, m), pa);
    match m.auction {
        Option::Some(a) => {
            assert(enc_auction(a, full)[0] == field_s(key_id(), a.id)[0]);
            assert(field_s(key_id(), a.id)[0] == key_id()[0]);
            assert(pa[0] == 123);
        },
        Option::None => {
            assert(pa[0] == 110);
        },
    }
    assert(s[om2(i, m) + 0] == pa[0]);
    lemma_starts_with_index(s, om4(i, m, full), pb);
    match m.bid {
        Option::Some(b) => {
            assert(enc_bid(b)[0] == field_s(key_bidder_id(), b.bidder_id)[0]);
            assert(field_s(key_bidder_id(), b.bidder_id)[0] == key_bidder_id()[0]);
            assert(pb[0] == 123);
        },
        Option::None => {
            assert(pb[0] == 110);
        },
    }
    assert(s[om4(i, m, full) + 0] == pb[0]);
    lemma_starts_with_index(s, om5(i, m, full), pc);
    assert(pc[0] == 125);
    assert(s[om5(i, m, full) + 0] == pc[0]);
}

/// Part occurrences in a row join into an occurrence of an encoded
/// envelope.
proof fn lemma_message_join(s: Seq<u8>, i: int, m: MessageModel, full: bool)
    requires
        starts_with(s, i, field_s(lit_type_key(), m.msg_type)),
        starts_with(s, om1(i, m), lit_auction_key()),
        match m.auction {
            Option::Some(a) => starts_with(s, om2(i, m), enc_auction(a, full)),
            Option::None => starts_with(s, om2(i, m), lit_null()),
        },
        starts_with(s, om3(i, m, full), lit_bid_key()),
        match m.bid {
            Option::Some(b) => starts_with(s, om4(i, m, full), enc_bid(b)),
            Option::None => starts_with(s, om4(i, m, full), lit_null()),
        },
        om5(i, m, full) < s.len() && s[om5(i, m, full)] == 125,
    ensures
        starts_with(s, i, enc_message(m, full)),
        i + enc_message(m, full).len() == om5(i, m, full) + 1,
{
    let p1 = field_s(lit_type_key(), m.msg_type);
    let p2 = lit_auction_key();
    let pa = match m.auction {
        Option::Some(a) => enc_auction(a, full),
        Option::None => lit_null(),
    };
    let p3 = lit_bid_key();
    let pb = match m.bid {
        Option::Some(b) => enc_bid(b),
        Option::None => lit_null(),
    };
    let pc = seq![125u8];
    reveal(enc_message);
    reveal(enc_auction);
    reveal(enc_bid);
    assert(enc_message(m, full) == p1 + p2 + pa + p3 + pb + pc);
    assert(starts_with(s, om5(i, m, full), pc)) by {
        reveal(starts_with);
        assert(s.subrange(om5(i, m, full), om5(i, m, full) + 1) =~= pc);
    }
    lemma_starts_with_join(s, i, p1, p2);
    lemma_starts_with_join(s, i, p1 + p2, pa);
    lemma_starts_with_join(s, i, p1 + p2 + pa, p3);
    lemma_starts_with_join(s, i, p1 + p2 + pa + p3, pb);
    lemma_starts_with_join(s, i, p1 + p2 + pa + p3 + pb, pc);
}

/// A frame is canonical for `mv` when it is an encoding of `mv` in a
/// form open to it.
pub open spec fn canonical_frame(s: Seq<u8>, mv: MessageModel) -> bool {
    exists|full: bool| desc_form_ok(mv, full) && s == #[trigger] enc_message(mv, full)
}

/// Decodes one whole frame. `Some(m)` exactly on a frame that
/// canonically encodes some envelope, and then `m` is that envelope:
/// together with [`encode_message`] this is the round trip, and an
/// encoded `place_bid` command comes back field for field.
#[verifier::rlimit(100)]
pub fn decode_message(s: &Vec<u8>) -> (r: Option<Message>)
    ensures
        r matches Some(m) ==> wf_message(m@) && canonical_frame(s@, m@),
        forall|mv: MessageModel| canonical_frame(s@, mv) && wf_message(mv) ==> match r {
            Option::Some(m) => m@ == mv,
            Option::None => false,
        },
{
    let rt = parse_field_s(s, 0, &lit_type_key_v());
    let j1: usize = match &rt {
        Option::Some(x) => x.1,
        Option::None => 0,
    };
    let ra = expect_lit(s, j1, &lit_auction_key_v());
    let j2: usize = match &ra {
        Option::Some(j) => *j,
        Option::None => 0,
    };
    let null_auction = j2 < s.len() && s[j2] == 110;
    let (auction_ok, auction, j3): (bool, Option<Auction>, usize) = if null_auction {
        match expect_lit(s, j2, &lit_null_v()) {
            Option::Some(j) => (true, Option::None, j),
            Option::None => (false, Option::None, 0),
        }
    } else {
        match parse_auction(s, j2) {
            Option::Some(x) => (true, Option::Some(x.0), x.1),
            Option::None => (false, Option::None, 0),
        }
    };
    let rb = expect_lit(s, j3, &lit_bid_key_v());
    let j4: usize = match &rb {
        Option::Some(j) => *j,
        Option::None => 0,
    };
    let null_bid = j4 < s.len() && s[j4] == 110;
    let (bid_ok, bid, j5): (bool, Option<Bid>, usize) = if null_bid {
        match expect_lit(s, j4, &lit_null_v()) {
            Option::Some(j) => (true, Option::None, j),
            Option::None => (false, Option::None, 0),
        }
    } else {
        match parse_bid(s, j4) {
            Option::Some(x) => (true, Option::Some(x.0), x.1),
            Option::None => (false, Option::None, 0),
        }
    };
    let closed = j5 < s.len() && s[j5] == 125 && j5 + 1 == s.len();
    if rt.is_some() && ra.is_some() && auction_ok && rb.is_some() && bid_ok && closed {
        let (msg_type, _jt): (Vec<u8>, usize) = match rt {
            Option::Some(x) => x,
            Option::None => (Vec::new(), 0),
        };
        let m = Message { msg_type, auction, bid };
        proof {
            let full_c: bool = match m@.auction {
                Option::Some(av) => choose|f: bool|
                    (f || av.description.len() == 0) && #[trigger] starts_with(
                        s@,
                        j2 as int,
                        enc_auction(av, f),
                    ) && j3 == j2 + enc_auction(av, f).len(),
                Option::None => true,
            };
            lemma_message_join(s@, 0, m@, full_c);
            lemma_whole_of_occurrence(s@, enc_message(m@, full_c));
            assert(desc_form_ok(m@, full_c));
            assert(canonical_frame(s@, m@));
            assert(wf_message(m@));
            assert forall|mv: MessageModel| canonical_frame(s@, mv) && wf_message(mv) implies m@
                == mv by {
                lemma_frame_unambiguous(s@, m@, mv);
            }
        }
        Option::Some(m)
    } else {
        proof {
            assert forall|mv: MessageModel| canonical_frame(s@, mv) && wf_message(mv)
                implies false by {
                let fb = choose|f: bool| desc_form_ok(mv, f) && s@ == #[trigger] enc_message(
                    mv,
                    f,
                );
                lemma_starts_with_whole(s@, enc_message(mv, fb));
                lemma_message_peel(s@, 0, mv, fb);
                assert(rt is Some && j1 == 10 + mv.msg_type.len());
                assert(ra is Some && j2 == om2(0, mv));
                match mv.auction {
                    Option::Some(a2) => {
                        assert(s@[j2 as int] == 123);
                        assert(auction_ok && j3 == om3(0, mv, fb));
                    },
                    Option::None => {
                        assert(s@[j2 as int] == 110);
                        assert(auction_ok && j3 == om3(0, mv, fb));
                    },
                }
                assert(rb is Some && j4 == om4(0, mv, fb));
                match mv.bid {
                    Option::Some(b2) => {
                        assert(s@[j4 as int] == 123);
                        assert(bid_ok && j5 == om5(0, mv, fb));
                    },
                    Option::None => {
                        assert(s@[j4 as int] == 110);
                        assert(bid_ok && j5 == om5(0, mv, fb));
                    },
                }
                assert(j5 + 1 == s@.len() && s@[j5 as int] == 125);
                assert(closed);
            }
        }
        Option::None
    }
}

/// Two quoted strings at one position are the same string.
proof fn lemma_qstr_unique(s: Seq<u8>, i: int, t1: Seq<u8>, t2: Seq<u8>)
    requires
        wf_text(t1),
        wf_text(t2),
        starts_with(s, i, qstr(t1)),
        starts_with(s, i, qstr(t2)),
    ensures
        t1 == t2,
{
    lemma_starts_with_index(s, i, qstr(t1));
    lemma_starts_with_index(s, i, qstr(t2));
    if t1.len() < t2.len() {
        let l = t1.len() as int;
        assert(s[i + (l + 1)] == qstr(t1)[l + 1]);
        assert(qstr(t1)[l + 1] == 34);
        assert(s[i + (l + 1)] == qstr(t2)[l + 1]);
        assert(qstr(t2)[l + 1] == t2[l]);
        assert(false);
    }
    if t2.len() < t1.len() {
        let l = t2.len() as int;
        assert(s[i + (l + 1)] == qstr(t2)[l + 1]);
        assert(qstr(t2)[l + 1] == 34);
        assert(s[i + (l + 1)] == qstr(t1)[l + 1]);
        assert(qstr(t1)[l + 1] == t1[l]);
        assert(false);
    }
    assert forall|k: int| 0 <= k < t1.len() implies t1[k] == t2[k] by {
        assert(s[i + (k + 1)] == qstr(t1)[k + 1]);
        assert(qstr(t1)[k + 1] == t1[k]);
        assert(s[i + (k + 1)] == qstr(t2)[k + 1]);
        assert(qstr(t2)[k + 1] == t2[k]);
    }
    assert(t1 =~= t2);
}

/// Two canonical numbers at one position, each ending the digit run,
/// are the same number.
proof fn lemma_number_unique(s: Seq<u8>, i: int, n1: u64, n2: u64)
    requires
        starts_with(s, i, dec_digits(n1 as nat)),
        starts_with(s, i, dec_digits(n2 as nat)),
        digit_boundary(s, i + dec_digits(n1 as nat).len()),
        digit_boundary(s, i + dec_digits(n2 as nat).len()),
    ensures
        n1 == n2,
{
    lemma_dec_digits_props(n1 as nat);
    lemma_dec_digits_props(n2 as nat);
    lemma_starts_with_index(s, i, dec_digits(n1 as nat));
    lemma_starts_with_index(s, i, dec_digits(n2 as nat));
    let l1 = dec_digits(n1 as nat).len() as int;
    let l2 = dec_digits(n2 as nat).len() as int;
    if l1 < l2 {
        assert(s[i + l1] == dec_digits(n2 as nat)[l1]);
        assert(48 <= dec_digits(n2 as nat)[l1] <= 57);
        assert(false);
    }
    if l2 < l1 {
        assert(s[i + l2] == dec_digits(n1 as nat)[l2]);
        assert(48 <= dec_digits(n1 as nat)[l2] <= 57);
        assert(false);
    }
    assert forall|k: int| 0 <= k < l1 implies dec_digits(n1 as nat)[k] == dec_digits(
        n2 as nat,
    )[k] by {
        assert(s[i + k] == dec_digits(n1 as nat)[k]);
        assert(s[i + k] == dec_digits(n2 as nat)[k]);
    }
    assert(dec_digits(n1 as nat) =~= dec_digits(n2 as nat));
    assert(val_digits(dec_digits(n1 as nat)) == val_digits(dec_digits(n2 as nat)));
}

/// Two encoded bids at one position are the same bid.
proof fn lemma_bid_unique(s: Seq<u8>, i: int, b1: BidModel, b2: BidModel)
    requires
        wf_bid(b1),
        wf_bid(b2),
        starts_with(s, i, enc_bid(b1)),
        starts_with(s, i, enc_bid(b2)),
    ensures
        b1 == b2,
{
    lemma_bid_peel(s, i, b1);
    lemma_bid_peel(s, i, b2);
    lemma_starts_with_parts(s, i, key_bidder_id(), qstr(b1.bidder_id));
    lemma_starts_with_parts(s, i, key_bidder_id(), qstr(b2.bidder_id));
    lemma_qstr_unique(s, i + 13, b1.bidder_id, b2.bidder_id);
    assert(ob1(i, b1) == ob1(i, b2));
    lemma_starts_with_parts(s, ob1(i, b1), key_amount(), dec_digits(b1.amount as nat));
    lemma_starts_with_parts(s, ob1(i, b2), key_amount(), dec_digits(b2.amount as nat));
    lemma_number_unique(s, ob1(i, b1) + 10, b1.amount, b2.amount);
    assert(ob2(i, b1) == ob2(i, b2));
    lemma_starts_with_parts(s, ob2(i, b1), key_timestamp(), qstr(b1.timestamp));
    lemma_starts_with_parts(s, ob2(i, b2), key_timestamp(), qstr(b2.timestamp));
    lemma_qstr_unique(s, ob2(i, b1) + 13, b1.timestamp, b2.timestamp);
    assert(b1 =~= b2);
}

/// The few facts of an encoded envelope that identify it.
proof fn lemma_message_marks(s: Seq<u8>, m: MessageModel, f: bool)
    requires
        starts_with(s, 0, enc_message(m, f)),
    ensures
        starts_with(s, 8, qstr(m.msg_type)),
        om2(0, m) < s.len(),
        (m.auction is None) == (s[om2(0, m)] == 110),
        match m.auction {
            Option::Some(a) => starts_with(s, om2(0, m), enc_auction(a, f)),
            Option::None => true,
        },
        om4(0, m, f) < s.len(),
        match m.bid {
            Option::Some(b) => starts_with(s, om4(0, m, f), enc_bid(b)) && s[om4(0, m, f)]
                == 123,
            Option::None => s[om4(0, m, f)] == 110,
        },
{
    lemma_message_peel(s, 0, m, f);
    lemma_starts_with_parts(s, 0, lit_type_key(), qstr(m.msg_type));
}

/// Two encoded auctions at one position, each in a form open to it,
/// are the same record.
#[verifier::rlimit(100)]
proof fn lemma_auction_unique(s: Seq<u8>, i: int, a1: AuctionModel, f1: bool, a2: AuctionModel, f2: bool)
    requires
        wf_auction(a1),
        wf_auction(a2),
        f1 || a1.description.len() == 0,
        f2 || a2.description.len() == 0,
        starts_with(s, i, enc_auction(a1, f1)),
        starts_with(s, i, enc_auction(a2, f2)),
    ensures
        a1 == a2,
        f1 == f2,
{
    lemma_auction_peel(s, i, a1, f1);
    lemma_auction_peel(s, i, a2, f2);
    lemma_starts_with_parts(s, i, key_id(), qstr(a1.id));
    lemma_starts_with_parts(s, i, key_id(), qstr(a2.id));
    lemma_qstr_unique(s, i + 6, a1.id, a2.id);
    assert(oa1(i, a1) == oa1(i, a2));
    lemma_starts_with_parts(s, oa1(i, a1), key_title(), qstr(a1.title));
    lemma_starts_with_parts(s, oa1(i, a2), key_title(), qstr(a2.title));
    lemma_qstr_unique(s, oa1(i, a1) + 9, a1.title, a2.title);
    assert(oa2(i, a1) == oa2(i, a2));
    let o2 = oa2(i, a1);
    if f1 && !f2 {
        lemma_starts_with_parts(s, o2, key_description(), qstr(a1.description));
        lemma_starts_with_index(s, o2, key_description());
        lemma_starts_with_index(s, o2, key_start_price());
        assert(s[o2 + 2] == key_description()[2]);
        assert(s[o2 + 2] == key_start_price()[2]);
        assert(false);
    }
    if !f1 && f2 {
        lemma_starts_with_parts(s, o2, key_description(), qstr(a2.description));
        lemma_starts_with_index(s, o2, key_description());
        lemma_starts_with_index(s, o2, key_start_price());
        assert(s[o2 + 2] == key_description()[2]);
        assert(s[o2 + 2] == key_start_price()[2]);
        assert(false);
    }
    if f1 && f2 {
        lemma_starts_with_parts(s, o2, key_description(), qstr(a1.description));
        lemma_starts_with_parts(s, o2, key_description(), qstr(a2.description));
        lemma_qstr_unique(s, o2 + 15, a1.description, a2.description);
    } else {
        assert(a1.description =~= a2.description);
    }
    assert(oa3(i, a1, f1) == oa3(i, a2, f2));
    let o3 = oa3(i, a1, f1);
    lemma_starts_with_parts(s, o3, key_start_price(), dec_digits(a1.start_price as nat));
    lemma_starts_with_parts(s, o3, key_start_price(), dec_digits(a2.start_price as nat));
    lemma_number_unique(s, o3 + 15, a1.start_price, a2.start_price);
    assert(oa4(i, a1, f1) == oa4(i, a2, f2));
    let o4 = oa4(i, a1, f1);
    lemma_starts_with_parts(s, o4, key_current_bid(), dec_digits(a1.current_bid as nat));
    lemma_starts_with_parts(s, o4, key_current_bid(), dec_digits(a2.current_bid as nat));
    lemma_number_unique(s, o4 + 15, a1.current_bid, a2.current_bid);
    assert(oa5(i, a1, f1) == oa5(i, a2, f2));
    let o5 = oa5(i, a1, f1);
    lemma_starts_with_parts(s, o5, key_highest_bidder(), qstr(a1.highest_bidder));
    lemma_starts_with_parts(s, o5, key_highest_bidder(), qstr(a2.highest_bidder));
    lemma_qstr_unique(s, o5 + 18, a1.highest_bidder, a2.highest_bidder);
    assert(oa6(i, a1, f1) == oa6(i, a2, f2));
    let o6 = oa6(i, a1, f1);
    lemma_starts_with_parts(s, o6, key_bid_count(), dec_digits(a1.bid_count as nat));
    lemma_starts_with_parts(s, o6, key_bid_count(), dec_digits(a2.bid_count as nat));
    lemma_number_unique(s, o6 + 13, a1.bid_count, a2.bid_count);
    assert(oa7(i, a1, f1) == oa7(i, a2, f2));
    let o7 = oa7(i, a1, f1);
    lemma_starts_with_parts(s, o7, key_status(), qstr(a1.status));
    lemma_starts_with_parts(s, o7, key_status(), qstr(a2.status));
    lemma_qstr_unique(s, o7 + 10, a1.status, a2.status);
    assert(oa8(i, a1, f1) == oa8(i, a2, f2));
    let o8 = oa8(i, a1, f1);
    lemma_starts_with_parts(s, o8, key_start_time(), qstr(a1.start_time));
    lemma_starts_with_parts(s, o8, key_start_time(), qstr(a2.start_time));
    lemma_qstr_unique(s, o8 + 14, a1.start_time, a2.start_time);
    assert(oa9(i, a1, f1) == oa9(i, a2, f2));
    let o9 = oa9(i, a1, f1);
    lemma_starts_with_parts(s, o9, key_end_time(), qstr(a1.end_time));
    lemma_starts_with_parts(s, o9, key_end_time(), qstr(a2.end_time));
    lemma_qstr_unique(s, o9 + 12, a1.end_time, a2.end_time);
    assert(a1 =~= a2);
}

/// A canonical frame determines its whole envelope: no two distinct
/// well-formed messages share one frame. With the contracts of
/// [`encode_message`] and [`decode_message`] this makes any decoded
/// result the one message its frame encodes; in particular an encoded
/// `place_bid` envelope that decodes comes back field for field.
#[verifier::rlimit(100)]
pub proof fn lemma_frame_unambiguous(s: Seq<u8>, m1: MessageModel, m2: MessageModel)
    requires
        wf_message(m1),
        wf_message(m2),
        canonical_frame(s, m1),
        canonical_frame(s, m2),
    ensures
        m1 == m2,
{
    let f1 = choose|f: bool| desc_form_ok(m1, f) && s == #[trigger] enc_message(m1, f);
    let f2 = choose|f: bool| desc_form_ok(m2, f) && s == #[trigger] enc_message(m2, f);
    lemma_starts_with_whole(s, enc_message(m1, f1));
    lemma_starts_with_whole(s, enc_message(m2, f2));
    lemma_message_marks(s, m1, f1);
    lemma_message_marks(s, m2, f2);
    lemma_qstr_unique(s, 8, m1.msg_type, m2.msg_type);
    assert(om2(0, m1) == om2(0, m2));
    match (m1.auction, m2.auction) {
        (Option::Some(a1), Option::Some(a2)) => {
            lemma_auction_unique(s, om2(0, m1), a1, f1, a2, f2);
            assert(m1.auction == m2.auction);
        },
        (Option::Some(a1), Option::None) => {
            assert(false);
        },
        (Option::None, Option::Some(a2)) => {
            assert(false);
        },
        (Option::None, Option::None) => {},
    }
    assert(om4(0, m1, f1) == om4(0, m2, f2));
    match (m1.bid, m2.bid) {
        (Option::Some(b1), Option::Some(b2)) => {
            lemma_bid_unique(s, om4(0, m1, f1), b1, b2);
        },
        (Option::Some(b1), Option::None) => {
            assert(false);
        },
        (Option::None, Option::Some(b2)) => {
            assert(false);
        },
        (Option::None, Option::None) => {},
    }
    assert(m1 =~= m2);
}

} // verus!
