//! Decimal rendering of unsigned integers, and what a digit run is worth.
use vstd::prelude::*;

verus! {

/// The decimal digit bytes of `n`, most significant first, no leading zero.
pub open spec fn dec_digits(n: nat) -> Seq<u8>
    decreases n,
{
    if n < 10 {
        seq![(48 + n) as u8]
    } else {
        dec_digits(n / 10).push((48 + n % 10) as u8)
    }
}

/// True when every byte of `ds` is an ASCII digit.
pub open spec fn all_digits(ds: Seq<u8>) -> bool {
    forall|i: int| 0 <= i < ds.len() ==> 48 <= #[trigger] ds[i] <= 57
}

/// The numeric value of a digit run, most significant first.
pub open spec fn val_digits(ds: Seq<u8>) -> int
    decreases ds.len(),
{
    if ds.len() == 0 {
        0
    } else {
        val_digits(ds.drop_last()) * 10 + (ds.last() - 48)
    }
}

/// The digit rendering of `n` is a nonempty digit run, worth `n`, and
/// starts with a zero only for `n == 0`.
pub proof fn lemma_dec_digits_props(n: nat)
    ensures
        all_digits(dec_digits(n)),
        dec_digits(n).len() >= 1,
        (dec_digits(n)[0] == 48) <==> (n == 0),
        val_digits(dec_digits(n)) == n,
    decreases n,
{
    if n < 10 {
        let ds = dec_digits(n);
        assert(ds =~= seq![(48 + n) as u8]);
        assert(ds.len() == 1 && ds[0] == (48 + n) as u8);
        assert(ds.drop_last() =~= Seq::<u8>::empty());
        assert(val_digits(Seq::<u8>::empty()) == 0);
        assert(val_digits(ds) == 0 * 10 + (ds.last() - 48));
    } else {
        lemma_dec_digits_props(n / 10);
        let pre = dec_digits(n / 10);
        let d = (48 + n % 10) as u8;
        assert(dec_digits(n) == pre.push(d));
        assert(pre.push(d).drop_last() =~= pre);
        assert(pre.push(d).last() == d);
        assert(forall|i: int| 0 <= i < pre.len() ==> pre.push(d)[i] == #[trigger] pre[i]);
        assert(val_digits(dec_digits(n)) == val_digits(pre) * 10 + n % 10);
        assert(val_digits(pre) * 10 + n % 10 == n) by (nonlinear_arith)
            requires
                val_digits(pre) == n / 10,
                n >= 10,
        ;
    }
}

/// A digit run is worth a non-negative amount.
pub proof fn lemma_val_nonneg(ds: Seq<u8>)
    requires
        all_digits(ds),
    ensures
        val_digits(ds) >= 0,
    decreases ds.len(),
{
    if ds.len() > 0 {
        assert(all_digits(ds.drop_last()));
        lemma_val_nonneg(ds.drop_last());
    }
}

/// A digit run that does not start with zero is worth at least one.
pub proof fn lemma_val_pos(ds: Seq<u8>)
    requires
        all_digits(ds),
        ds.len() >= 1,
        ds[0] != 48,
    ensures
        val_digits(ds) >= 1,
    decreases ds.len(),
{
    if ds.len() == 1 {
        assert(ds.drop_last() =~= Seq::<u8>::empty());
    } else {
        assert(all_digits(ds.drop_last()));
        assert(ds.drop_last()[0] == ds[0]);
        lemma_val_pos(ds.drop_last());
        assert(val_digits(ds) == val_digits(ds.drop_last()) * 10 + (ds.last() - 48));
        assert(val_digits(ds.drop_last()) * 10 >= 10) by (nonlinear_arith)
            requires
                val_digits(ds.drop_last()) >= 1,
        ;
        assert(ds.last() - 48 >= 0);
    }
}

/// A prefix of a digit run is worth no more than the whole run.
pub proof fn lemma_val_prefix_le(ds: Seq<u8>, k: int)
    requires
        all_digits(ds),
        0 <= k <= ds.len(),
    ensures
        val_digits(ds.subrange(0, k)) <= val_digits(ds),
    decreases ds.len() - k,
{
    if k == ds.len() {
        assert(ds.subrange(0, k) =~= ds);
    } else {
        lemma_val_prefix_le(ds, k + 1);
        let a = ds.subrange(0, k);
        let b = ds.subrange(0, k + 1);
        assert(b.drop_last() =~= a);
        assert(b.last() == ds[k]);
        assert(all_digits(a));
        lemma_val_nonneg(a);
        assert(val_digits(b) == val_digits(a) * 10 + (ds[k] - 48));
    }
}

/// Reading back the value of a canonical digit run gives the run itself.
pub proof fn lemma_dec_of_val(ds: Seq<u8>)
    requires
        all_digits(ds),
        ds.len() >= 1,
        ds[0] != 48 || ds.len() == 1,
    ensures
        val_digits(ds) >= 0,
        dec_digits(val_digits(ds) as nat) =~= ds,
    decreases ds.len(),
{
    lemma_val_nonneg(ds);
    if ds.len() == 1 {
        assert(ds.drop_last() =~= Seq::<u8>::empty());
        assert(ds.last() == ds[0]);
        assert(val_digits(Seq::<u8>::empty()) == 0);
        assert(val_digits(ds) == val_digits(ds.drop_last()) * 10 + (ds.last() - 48));
        assert(val_digits(ds) == ds[0] - 48);
        assert(val_digits(ds) < 10);
        assert(dec_digits((ds[0] - 48) as nat) =~= seq![ds[0]]);
        assert(ds =~= seq![ds[0]]);
    } else {
        let pre = ds.drop_last();
        assert(all_digits(pre));
        assert(pre[0] == ds[0]);
        lemma_val_pos(pre);
        lemma_dec_of_val(pre);
        let v = val_digits(ds);
        assert(v == val_digits(pre) * 10 + (ds.last() - 48));
        assert(v >= 10);
        assert(v / 10 == val_digits(pre) && v % 10 == ds.last() - 48) by (nonlinear_arith)
            requires
                v == val_digits(pre) * 10 + (ds.last() - 48),
                val_digits(pre) >= 1,
                0 <= ds.last() - 48 < 10,
        ;
        assert(dec_digits(v as nat) == dec_digits((v as nat) / 10).push((48 + (v as nat) % 10) as u8));
        assert((v as nat) / 10 == val_digits(pre));
        assert(dec_digits(v as nat) =~= pre.push(ds.last()));
        assert(pre.push(ds.last()) =~= ds);
    }
}

/// The decimal digit bytes of `n`, most significant first.
pub fn u64_digits(n: u64) -> (v: Vec<u8>)
    ensures
        v@ == dec_digits(n as nat),
    decreases n,
{
    if n < 10 {
        let mut v: Vec<u8> = Vec::new();
        v.push(48 + n as u8);
        proof {
            assert(v@ =~= dec_digits(n as nat));
        }
        v
    } else {
        let mut v = u64_digits(n / 10);
        v.push(48 + (n % 10) as u8);
        proof {
            assert(v@ =~= dec_digits(n as nat));
        }
        v
    }
}

} // verus!
