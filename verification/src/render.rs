//! The computations behind each frame: grid geometry, card text, and
//! the looping progress animation.
use vstd::prelude::*;

use crate::digits::dec_digits;
use crate::digits::u64_digits;
use crate::literals::{lit_active, lit_active_v, lit_bids_prefix, lit_bids_prefix_v,
    lit_color_accent, lit_color_accent_v, lit_color_alert, lit_color_alert_v, lit_color_violet,
    lit_color_violet_v, lit_dollar, lit_dollar_v, lit_ended, lit_ended_v, lit_leader_prefix,
    lit_leader_prefix_v};
use crate::codec::push_all;
use crate::msg::bytes_eq;

verus! {

/// The drawing surface width, in surface units.
pub const CANVAS_WIDTH: u64 = 1400;

/// The drawing surface height, in surface units.
pub const CANVAS_HEIGHT: u64 = 800;

/// How many cards stand in one row.
pub const GRID_COLUMNS: u64 = 3;

/// The width of one card.
pub const CARD_WIDTH: u64 = 400;

/// The height of one card.
pub const CARD_HEIGHT: u64 = 280;

/// The horizontal pitch between cards.
pub const CARD_PITCH_X: u64 = 450;

/// The vertical pitch between cards.
pub const CARD_PITCH_Y: u64 = 350;

/// The offset of the grid from the surface origin.
pub const GRID_ORIGIN: u64 = 50;

/// The period of the progress animation, in milliseconds.
pub const PROGRESS_PERIOD_MS: u64 = 10000;

/// The grid cell of the card at store position `idx`: three columns,
/// rows growing downward.
pub fn card_origin(idx: usize) -> (r: (u64, u64))
    requires
        50 + (idx as int / 3) * 350 <= u64::MAX,
    ensures
        r.0 == 50 + (idx as int % 3) * 450,
        r.1 == 50 + (idx as int / 3) * 350,
{
    let col = (idx % 3) as u64;
    let row = (idx / 3) as u64;
    (50 + col * 450, 50 + row * 350)
}

/// The x of the `i`-th vertical reference-grid line.
pub fn grid_vertical_x(i: u64) -> (x: u64)
    requires
        i < 4,
    ensures
        x == 50 + i * 450,
{
    50 + i * 450
}

/// The y of the `i`-th horizontal reference-grid line.
pub fn grid_horizontal_y(i: u64) -> (y: u64)
    requires
        i < 3,
    ensures
        y == 50 + i * 350,
{
    50 + i * 350
}

/// True when `b` continues a UTF-8 character begun by an earlier byte.
pub open spec fn is_continuation(b: u8) -> bool {
    128 <= b <= 191
}

/// Where a cut aimed at `n` actually falls: backed off over
/// continuation bytes, so that no UTF-8 character is split.
pub open spec fn spec_cut(t: Seq<u8>, n: int) -> int
    decreases n,
{
    if n <= 0 {
        0
    } else if n >= t.len() {
        t.len() as int
    } else if is_continuation(t[n]) {
        spec_cut(t, n - 1)
    } else {
        n
    }
}

/// The longest prefix of `t` of at most `n` bytes that ends on a UTF-8
/// character boundary.
pub open spec fn spec_truncate(t: Seq<u8>, n: int) -> Seq<u8> {
    t.subrange(0, spec_cut(t, n))
}

/// The cut falls between zero and `n`, and inside `t`.
pub proof fn lemma_cut_bounds(t: Seq<u8>, n: int)
    requires
        n >= 0,
    ensures
        0 <= spec_cut(t, n) <= n,
        spec_cut(t, n) <= t.len(),
    decreases n,
{
    if n > 0 && n < t.len() && is_continuation(t[n]) {
        lemma_cut_bounds(t, n - 1);
    }
}

/// Truncates `t` to at most `n` bytes; what remains is a prefix that
/// ends on a UTF-8 character boundary, so at most `n` characters show
/// and no character is split.
pub fn truncate_prefix(t: &Vec<u8>, n: usize) -> (r: Vec<u8>)
    ensures
        r@ == spec_truncate(t@, n as int),
        r@.len() <= n,
        r@ == t@.subrange(0, r@.len() as int),
        r@.len() == t@.len() || r@.len() == 0 || !is_continuation(t@[r@.len() as int]),
        t@.len() <= n ==> r@ == t@,
{
    let mut end = if t.len() <= n {
        t.len()
    } else {
        n
    };
    proof {
        assert(spec_cut(t@, n as int) == spec_cut(t@, end as int));
    }
    while end > 0 && end < t.len() && 128 <= t[end] && t[end] <= 191
        invariant
            end <= t@.len(),
            end <= n,
            spec_cut(t@, n as int) == spec_cut(t@, end as int),
        decreases end,
    {
        end = end - 1;
    }
    proof {
        assert(spec_cut(t@, end as int) == end);
    }
    let mut r: Vec<u8> = Vec::new();
    let mut i: usize = 0;
    while i < end
        invariant
            end <= t@.len(),
            i <= end,
            r@ == t@.subrange(0, i as int),
        decreases end - i,
    {
        r.push(t[i]);
        i += 1;
        proof {
            assert(r@ =~= t@.subrange(0, i as int));
        }
    }
    proof {
        assert(r@ =~= t@.subrange(0, end as int));
        if t@.len() <= n {
            assert(r@ =~= t@);
        }
    }
    r
}

/// Each lower-case ASCII letter raised to upper case, every other byte
/// kept.
pub open spec fn spec_ascii_upper(t: Seq<u8>) -> Seq<u8> {
    t.map_values(
        |b: u8|
            if 97 <= b <= 122 {
                (b - 32) as u8
            } else {
                b
            },
    )
}

/// The badge text of a status: its ASCII upper-case form.
pub fn status_label(status: &Vec<u8>) -> (r: Vec<u8>)
    ensures
        r@ == spec_ascii_upper(status@),
{
    let mut r: Vec<u8> = Vec::new();
    let mut i: usize = 0;
    while i < status.len()
        invariant
            i <= status@.len(),
            r@ == spec_ascii_upper(status@).subrange(0, i as int),
        decreases status@.len() - i,
    {
        let b = status[i];
        if 97 <= b && b <= 122 {
            r.push(b - 32);
        } else {
            r.push(b);
        }
        i += 1;
        proof {
            assert(r@ =~= spec_ascii_upper(status@).subrange(0, i as int));
        }
    }
    proof {
        assert(r@ =~= spec_ascii_upper(status@));
    }
    r
}

/// The color that a status selects: accent for `active`, alert for
/// `ended`, violet otherwise.
pub open spec fn spec_status_color(status: Seq<u8>) -> Seq<u8> {
    if status == lit_active() {
        lit_color_accent()
    } else if status == lit_ended() {
        lit_color_alert()
    } else {
        lit_color_violet()
    }
}

/// The fill color of a card's border and status badge.
pub fn status_color(status: &Vec<u8>) -> (c: Vec<u8>)
    ensures
        c@ == spec_status_color(status@),
{
    if bytes_eq(status, &lit_active_v()) {
        lit_color_accent_v()
    } else if bytes_eq(status, &lit_ended_v()) {
        lit_color_alert_v()
    } else {
        lit_color_violet_v()
    }
}

/// The large whole-dollar amount line of a card.
pub fn bid_amount_label(amount: u64) -> (r: Vec<u8>)
    ensures
        r@ == lit_dollar() + dec_digits(amount as nat),
{
    let mut r = lit_dollar_v();
    let d = u64_digits(amount);
    push_all(&mut r, &d);
    r
}

/// The bid-count line of a card.
pub fn bid_count_label(n: u64) -> (r: Vec<u8>)
    ensures
        r@ == lit_bids_prefix() + dec_digits(n as nat),
{
    let mut r = lit_bids_prefix_v();
    let d = u64_digits(n);
    push_all(&mut r, &d);
    r
}

/// The leader line of a card: the bidder name is cut to at most 15
/// bytes and what is shown is a prefix of the name.
pub fn leader_label(bidder: &Vec<u8>) -> (r: Vec<u8>)
    ensures
        r@ == lit_leader_prefix() + spec_truncate(bidder@, 15),
        r@.len() <= lit_leader_prefix().len() + 15,
{
    let mut r = lit_leader_prefix_v();
    let t = truncate_prefix(bidder, 15);
    push_all(&mut r, &t);
    r
}

/// The description line of a card: at most 40 bytes, a prefix of the
/// description.
pub fn description_line(desc: &Vec<u8>) -> (r: Vec<u8>)
    ensures
        r@ == spec_truncate(desc@, 40),
        r@.len() <= 40,
        r@ == desc@.subrange(0, r@.len() as int),
{
    truncate_prefix(desc, 40)
}

/// Where the looping animation stands at `t` milliseconds: the offset
/// into its ten-second period.
pub open spec fn spec_phase(t: int) -> int {
    t % 10000
}

/// The phase of the progress animation at `now_ms`.
pub fn progress_phase(now_ms: u64) -> (p: u64)
    ensures
        p == spec_phase(now_ms as int),
        p < 10000,
{
    now_ms % 10000
}

/// How far the progress bar of width `w` is filled at `now_ms`.
pub fn progress_fill_width(w: u64, now_ms: u64) -> (f: u64)
    requires
        w <= 1000000,
    ensures
        f == w as int * spec_phase(now_ms as int) / 10000,
        f <= w,
{
    let p = now_ms % 10000;
    proof {
        assert(w as int * p as int <= 10000000000) by (nonlinear_arith)
            requires
                w <= 1000000,
                p < 10000,
        ;
    }
    let f = w * p / 10000;
    proof {
        assert(f <= w) by (nonlinear_arith)
            requires
                f == w * p / 10000,
                p < 10000,
                w >= 0,
        ;
    }
    f
}

/// The progress animation is periodic with period 10000 ms, stays in
/// `[0, 10000)`, and is continuous: it advances by one unit each
/// millisecond, with the one jump back to zero at the period boundary.
pub proof fn lemma_progress_periodic(t: int)
    requires
        t >= 0,
    ensures
        0 <= spec_phase(t) < 10000,
        spec_phase(t + 10000) == spec_phase(t),
        spec_phase(t) < 9999 ==> spec_phase(t + 1) == spec_phase(t) + 1,
        spec_phase(t) == 9999 ==> spec_phase(t + 1) == 0,
{
    vstd::arithmetic::div_mod::lemma_mod_add_multiples_vanish(t, 10000);
}

/// Within one period the animation is linear: two instants of the same
/// period stand exactly their distance apart in phase, so the bar
/// sweeps its range with no jump but the wraparound.
pub proof fn lemma_progress_linear(t1: int, t2: int)
    requires
        0 <= t1 <= t2,
        t1 / 10000 == t2 / 10000,
    ensures
        spec_phase(t2) - spec_phase(t1) == t2 - t1,
{
    vstd::arithmetic::div_mod::lemma_fundamental_div_mod(t1, 10000);
    vstd::arithmetic::div_mod::lemma_fundamental_div_mod(t2, 10000);
}

} // verus!

