use vstd::prelude::*;

verus! {

/// Percentages are counted in millionths of a percent: this many make one
/// percent, and a hundred of them the whole supply.
pub const ONE_PERCENT: u32 = 1_000_000;

/// A pre-assigned allocation: `percent_of_token` (in millionths of a percent)
/// of the total supply goes to `account_id`.
#[derive(Clone, Debug)]
pub struct ShareHolder {
    pub account_id: String,
    pub percent_of_token: u32,
}

/// The sum of the percentages of a list of shareholders.
pub open spec fn percent_sum(s: Seq<ShareHolder>) -> nat
    decreases s.len(),
{
    if s.len() == 0 {
        0
    } else {
        percent_sum(s.drop_last()) + s.last().percent_of_token as nat
    }
}

/// The share of `supply` that `percent` millionths of a percent make,
/// rounded down.
pub open spec fn share_of(percent: nat, supply: nat) -> nat {
    percent * supply / 100_000_000
}

/// What the shareholder distribution pays out in all.
pub open spec fn payout_total(s: Seq<ShareHolder>, supply: nat) -> nat
    decreases s.len(),
{
    if s.len() == 0 {
        0
    } else {
        payout_total(s.drop_last(), supply) + share_of(s.last().percent_of_token as nat, supply)
    }
}

/// The share of `supply` that `percent` millionths of a percent make,
/// rounded down, computed without overflow.
pub fn share_amount(percent: u32, supply: u128) -> (r: u128)
    requires
        percent <= 100_000_000,
    ensures
        r == share_of(percent as nat, supply as nat),
{
    let q: u128 = supply / 100_000_000;
    let m: u128 = supply % 100_000_000;
    proof {
        let p = percent as int;
        let (qi, mi) = (q as int, m as int);
        assert(supply as int == 100_000_000 * qi + mi && 0 <= mi < 100_000_000);
        assert(p * qi <= supply) by (nonlinear_arith)
            requires
                p <= 100_000_000,
                supply as int == 100_000_000 * qi + mi,
                0 <= mi,
                0 <= qi,
        ;
        assert(p * mi <= 100_000_000 * 99_999_999) by (nonlinear_arith)
            requires
                0 <= p <= 100_000_000,
                0 <= mi < 100_000_000,
        ;
        let (a, b) = (p * mi / 100_000_000, p * mi % 100_000_000);
        assert(p * (supply as int) == 100_000_000 * (p * qi) + p * mi) by (nonlinear_arith)
            requires
                supply as int == 100_000_000 * qi + mi,
        ;
        assert(p * (supply as int) == (p * qi + a) * 100_000_000 + b);
        vstd::arithmetic::div_mod::lemma_fundamental_div_mod_converse(
            p * (supply as int),
            100_000_000,
            p * qi + a,
            b,
        );
        assert(p * (supply as int) / 100_000_000 <= supply) by (nonlinear_arith)
            requires
                0 <= p <= 100_000_000,
                0 <= supply,
        ;
    }
    (percent as u128) * q + (percent as u128) * m / 100_000_000
}

/// Checks that the percentages of `holders` add up to at most one hundred
/// percent.
pub fn allocation_is_valid(holders: &Vec<ShareHolder>) -> (r: bool)
    ensures
        r == (percent_sum(holders@) <= 100_000_000),
{
    let mut total: u64 = 0;
    let mut i: usize = 0;
    while i < holders.len()
        invariant
            i <= holders.len(),
            total == percent_sum(holders@.take(i as int)),
            total <= 100_000_000,
        decreases holders.len() - i,
    {
        assert(holders@.take(i + 1).drop_last() =~= holders@.take(i as int));
        total = total + holders[i].percent_of_token as u64;
        i = i + 1;
        if total > 100_000_000 {
            proof {
                lemma_percent_sum_prefix(holders@, i as int);
            }
            return false;
        }
    }
    assert(holders@.take(i as int) =~= holders@);
    true
}

/// The percentages of a prefix add up to no more than those of the whole list.
pub proof fn lemma_percent_sum_prefix(s: Seq<ShareHolder>, i: int)
    requires
        0 <= i <= s.len(),
    ensures
        percent_sum(s.take(i)) <= percent_sum(s),
    decreases s.len(),
{
    if i < s.len() {
        assert(s.drop_last().take(i) =~= s.take(i));
        lemma_percent_sum_prefix(s.drop_last(), i);
    } else {
        assert(s.take(i) =~= s);
    }
}

/// Paying every shareholder its rounded-down share never pays out more than
/// the supply, as long as the percentages add up to at most one hundred
/// percent.
pub proof fn shareholder_payouts_within_supply(holders: Seq<ShareHolder>, supply: nat)
    requires
        percent_sum(holders) <= 100_000_000,
    ensures
        payout_total(holders, supply) <= supply,
{
    lemma_payout_total_scaled(holders, supply);
    assert(percent_sum(holders) * supply <= 100_000_000 * supply) by (nonlinear_arith)
        requires
            percent_sum(holders) <= 100_000_000,
    ;
}

proof fn lemma_payout_total_scaled(holders: Seq<ShareHolder>, supply: nat)
    ensures
        100_000_000 * payout_total(holders, supply) <= percent_sum(holders) * supply,
    decreases holders.len(),
{
    if holders.len() > 0 {
        let rest = holders.drop_last();
        let p = holders.last().percent_of_token as nat;
        lemma_payout_total_scaled(rest, supply);
        assert(100_000_000 * (p * supply / 100_000_000) <= p * supply) by (nonlinear_arith);
        assert(percent_sum(holders) * supply == percent_sum(rest) * supply + p * supply)
            by (nonlinear_arith)
            requires
                percent_sum(holders) == percent_sum(rest) + p,
        ;
    }
}

/// No single percentage exceeds the sum of all of them.
pub proof fn lemma_percent_le_sum(s: Seq<ShareHolder>, i: int)
    requires
        0 <= i < s.len(),
    ensures
        s[i].percent_of_token <= percent_sum(s),
    decreases s.len(),
{
    if i < s.len() - 1 {
        assert(s.drop_last()[i] == s[i]);
        lemma_percent_le_sum(s.drop_last(), i);
    }
}

/// Whether `s` already lists a shareholder with the same account and percentage as `h`.
pub open spec fn lists(s: Seq<ShareHolder>, h: ShareHolder) -> bool {
    exists|j: int|
        0 <= j < s.len() && s[j].account_id@ == h.account_id@ && s[j].percent_of_token
            == h.percent_of_token
}

/// The registry that a list of shareholders makes: each distinct pair of
/// account and percentage once, in the order of its first appearance.
pub open spec fn distinct_holders(s: Seq<ShareHolder>) -> Seq<ShareHolder>
    decreases s.len(),
{
    if s.len() == 0 {
        Seq::empty()
    } else {
        let d = distinct_holders(s.drop_last());
        if lists(d, s.last()) {
            d
        } else {
            d.push(s.last())
        }
    }
}

/// Builds the registry of `holders`, keeping each distinct pair of account
/// and percentage once.
pub fn registry_of(holders: &Vec<ShareHolder>) -> (r: Vec<ShareHolder>)
    ensures
        r@ == distinct_holders(holders@),
{
    let mut out: Vec<ShareHolder> = Vec::new();
    let mut i: usize = 0;
    while i < holders.len()
        invariant
            i <= holders@.len(),
            out@ == distinct_holders(holders@.take(i as int)),
        decreases holders.len() - i,
    {
        let h = &holders[i];
        assert(holders@.take(i + 1).drop_last() =~= holders@.take(i as int));
        assert(holders@.take(i + 1).last() == holders@[i as int]);
        let mut found = false;
        let mut j: usize = 0;
        while j < out.len()
            invariant
                j <= out@.len(),
                found == exists|k: int|
                    0 <= k < j && out@[k].account_id@ == h.account_id@ && out@[k].percent_of_token
                        == h.percent_of_token,
            decreases out.len() - j,
        {
            if out[j].account_id == h.account_id && out[j].percent_of_token == h.percent_of_token {
                found = true;
            }
            j = j + 1;
        }
        if !found {
            out.push(ShareHolder { account_id: h.account_id.clone(), percent_of_token: h.percent_of_token });
        }
        i = i + 1;
    }
    assert(holders@.take(i as int) =~= holders@);
    out
}

/// A share of at most one hundred percent is no more than the supply.
pub proof fn lemma_share_le_supply(percent: nat, supply: nat)
    requires
        percent <= 100_000_000,
    ensures
        share_of(percent, supply) <= supply,
{
    assert(percent * supply / 100_000_000 <= supply) by (nonlinear_arith)
        requires
            percent <= 100_000_000,
    ;
}

} // verus!
