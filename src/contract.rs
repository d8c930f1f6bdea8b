use vstd::prelude::*;

use crate::pricing::{unit_price, TokenPriceType};
use crate::shares::{
    allocation_is_valid, distinct_holders, lemma_percent_le_sum, lemma_percent_sum_prefix,
    lemma_share_le_supply, payout_total, percent_sum, registry_of, share_amount, share_of,
    shareholder_payouts_within_supply, ShareHolder,
};
use crate::whitelist::{
    balance_of, balance_sum, find_entry, has_entry, keys_unique, lemma_balance_absent,
    lemma_balance_at, lemma_balance_of, lemma_balance_zero, lemma_entry_le_sum, lemma_sum_update,
    lemma_sum_zero, keys_are_unique, total_of, total_within,
};
use crate::window::{phase, phase_of, Phase};

verus! {

/// Why an operation of the sale was refused. A refused operation changes nothing.
#[derive(PartialEq, Eq, Structural, Clone, Copy, Debug)]
pub enum SaleError {
    AlreadyInitialized,
    NotOwner,
    NotSaleTime,
    NotDistributionTime,
    InvalidAllocation,
    AlreadyDistributed,
    SoldOut,
    DivisionByZero,
}

/// The state of a token sale: who owns it, how tokens are priced and
/// allocated, when the sale runs, and what each participant has bought.
///
/// Purchases are capped by the reserve: the share of the supply that the
/// shareholders leave for sale. A purchase that would take the tokens sold
/// past it is refused.
pub struct Contract {
    pub owner_id: String,
    pub price_type: TokenPriceType,
    pub tokennomic: Vec<ShareHolder>,
    pub distributed_status: bool,
    pub start_time: u64,
    pub sale_duration: u64,
    pub total_supply: u128,
    pub whitelist_map: Vec<(String, u128)>,
}

impl Contract {
    /// The state's invariant: shareholders take at most the whole supply,
    /// each participant has one whitelist entry, and the tokens sold fit in
    /// the reserve.
    pub open spec fn wf(&self) -> bool {
        &&& percent_sum(self.tokennomic@) <= 100_000_000
        &&& keys_unique(self.whitelist_map@)
        &&& balance_sum(self.whitelist_map@) <= self.reserve()
    }

    /// The tokens reserved for sale: the share of the supply that the
    /// shareholders leave, rounded down.
    pub open spec fn reserve(&self) -> nat {
        share_of((100_000_000 - percent_sum(self.tokennomic@)) as nat, self.total_supply as nat)
    }

    /// The phase of the sale at `now`.
    pub open spec fn phase_at(&self, now: u64) -> Phase {
        phase_of(self.start_time, self.sale_duration, now)
    }

    /// The tokens that one deposit of `amount` buys, rounded down.
    pub open spec fn tokens_for(&self, amount: u128) -> nat {
        amount as nat / unit_price(self.price_type)
    }

    /// Sets up a sale that opens at `now`; `state_exists` tells whether one was
    /// set up before. The shareholders are kept as a registry in which each
    /// pair of account and percentage stands once.
    pub fn new(
        state_exists: bool,
        owner_id: String,
        now: u64,
        total_supply: u128,
        sale_duration: u64,
        tokennomic: Vec<ShareHolder>,
        price_type: TokenPriceType,
    ) -> (r: Result<Contract, SaleError>)
        ensures
            state_exists ==> r == Err::<Contract, SaleError>(SaleError::AlreadyInitialized),
            !state_exists && percent_sum(distinct_holders(tokennomic@)) > 100_000_000 ==> r == Err::<Contract, SaleError>(
                SaleError::InvalidAllocation,
            ),
            !state_exists && percent_sum(distinct_holders(tokennomic@)) <= 100_000_000 ==> (r matches Ok(c)
                && c.wf() && c.owner_id == owner_id && c.price_type == price_type && c.tokennomic@
                == distinct_holders(tokennomic@) && !c.distributed_status && c.start_time == now && c.sale_duration
                == sale_duration && c.total_supply == total_supply && c.whitelist_map@.len() == 0),
    {
        if state_exists {
            return Err(SaleError::AlreadyInitialized);
        }
        let tokennomic = registry_of(&tokennomic);
        if !allocation_is_valid(&tokennomic) {
            return Err(SaleError::InvalidAllocation);
        }
        Ok(Contract {
            owner_id,
            price_type,
            tokennomic,
            distributed_status: false,
            start_time: now,
            sale_duration,
            total_supply,
            whitelist_map: Vec::new(),
        })
    }

    /// Rebuilds a sale from stored fields, checking its invariant: `None`
    /// exactly when the fields break it.
    pub fn restore(
        owner_id: String,
        price_type: TokenPriceType,
        tokennomic: Vec<ShareHolder>,
        distributed_status: bool,
        start_time: u64,
        sale_duration: u64,
        total_supply: u128,
        whitelist_map: Vec<(String, u128)>,
    ) -> (r: Option<Contract>)
        ensures
            ({
                let c = Contract {
                    owner_id,
                    price_type,
                    tokennomic,
                    distributed_status,
                    start_time,
                    sale_duration,
                    total_supply,
                    whitelist_map,
                };
                r == if c.wf() {
                    Some(c)
                } else {
                    None
                }
            }),
    {
        if !allocation_is_valid(&tokennomic) || !keys_are_unique(&whitelist_map) {
            return None;
        }
        let c = Contract {
            owner_id,
            price_type,
            tokennomic,
            distributed_status,
            start_time,
            sale_duration,
            total_supply,
            whitelist_map,
        };
        proof {
            lemma_share_le_supply((100_000_000 - percent_sum(c.tokennomic@)) as nat, c.total_supply as nat);
        }
        let reserve = share_amount(c.percent_for_sale(), c.total_supply);
        if total_within(&c.whitelist_map, reserve) {
            Some(c)
        } else {
            None
        }
    }

    /// Refuses any caller but the owner.
    pub fn assert_owner(&self, caller: &String) -> (r: Result<(), SaleError>)
        ensures
            r == if caller@ == self.owner_id@ {
                Ok::<(), SaleError>(())
            } else {
                Err(SaleError::NotOwner)
            },
    {
        if *caller == self.owner_id {
            Ok(())
        } else {
            Err(SaleError::NotOwner)
        }
    }

    /// Pays the shareholders, once: returns the transfers to make from the
    /// owner's balance, one per shareholder in registry order, each of its
    /// rounded-down share of the total supply.
    pub fn distribute_tokens(&mut self, caller: &String) -> (r: Result<Vec<(String, u128)>, SaleError>)
        requires
            old(self).wf(),
        ensures
            final(self).wf(),
            caller@ != old(self).owner_id@ ==> r == Err::<Vec<(String, u128)>, SaleError>(
                SaleError::NotOwner,
            ) && *final(self) == *old(self),
            caller@ == old(self).owner_id@ && old(self).distributed_status ==> r == Err::<
                Vec<(String, u128)>,
                SaleError,
            >(SaleError::AlreadyDistributed) && *final(self) == *old(self),
            caller@ == old(self).owner_id@ && !old(self).distributed_status ==> (r matches Ok(p)
                && p@.len() == old(self).tokennomic@.len() && (forall|i: int|
                0 <= i < p@.len() ==> p@[i].0@ == old(self).tokennomic@[i].account_id@ && p@[i].1
                == share_of(
                    old(self).tokennomic@[i].percent_of_token as nat,
                    old(self).total_supply as nat,
                )) && balance_sum(p@) == payout_total(
                old(self).tokennomic@,
                old(self).total_supply as nat,
            ) && balance_sum(p@) <= old(self).total_supply && *final(self) == (Contract {
                distributed_status: true,
                ..*old(self)
            })),
    {
        self.assert_owner(caller)?;
        if self.distributed_status {
            return Err(SaleError::AlreadyDistributed);
        }
        let mut payouts: Vec<(String, u128)> = Vec::new();
        let mut i: usize = 0;
        while i < self.tokennomic.len()
            invariant
                self.wf(),
                i <= self.tokennomic@.len(),
                payouts@.len() == i,
                forall|j: int|
                    0 <= j < i ==> payouts@[j].0@ == self.tokennomic@[j].account_id@ && payouts@[j].1
                        == share_of(
                        self.tokennomic@[j].percent_of_token as nat,
                        self.total_supply as nat,
                    ),
                balance_sum(payouts@) == payout_total(
                    self.tokennomic@.take(i as int),
                    self.total_supply as nat,
                ),
            decreases self.tokennomic.len() - i,
        {
            proof {
                lemma_percent_le_sum(self.tokennomic@, i as int);
            }
            let holder = &self.tokennomic[i];
            let amount = share_amount(holder.percent_of_token, self.total_supply);
            let ghost before = payouts@;
            payouts.push((holder.account_id.clone(), amount));
            assert(payouts@.drop_last() =~= before);
            assert(self.tokennomic@.take(i + 1).drop_last() =~= self.tokennomic@.take(i as int));
            i = i + 1;
        }
        assert(self.tokennomic@.take(i as int) =~= self.tokennomic@);
        proof {
            shareholder_payouts_within_supply(self.tokennomic@, self.total_supply as nat);
        }
        self.distributed_status = true;
        Ok(payouts)
    }

    /// Credits `buyer` with the tokens that `amount` buys at the current
    /// price, if `now` lies within the sale window, the price is not zero, and
    /// the reserve still holds those tokens.
    pub fn deposit_for_sale(&mut self, buyer: &String, amount: u128, now: u64) -> (r: Result<
        (),
        SaleError,
    >)
        requires
            old(self).wf(),
        ensures
            final(self).wf(),
            old(self).phase_at(now) != Phase::InSale ==> r == Err::<(), SaleError>(
                SaleError::NotSaleTime,
            ) && *final(self) == *old(self),
            old(self).phase_at(now) == Phase::InSale && unit_price(old(self).price_type) == 0 ==> r
                == Err::<(), SaleError>(SaleError::DivisionByZero) && *final(self) == *old(self),
            old(self).phase_at(now) == Phase::InSale && unit_price(old(self).price_type) > 0
                && balance_sum(old(self).whitelist_map@) + old(self).tokens_for(amount) > old(
                self,
            ).reserve() ==> r == Err::<(), SaleError>(SaleError::SoldOut) && *final(self) == *old(
                self,
            ),
            old(self).phase_at(now) == Phase::InSale && unit_price(old(self).price_type) > 0
                && balance_sum(old(self).whitelist_map@) + old(self).tokens_for(amount) <= old(
                self,
            ).reserve() ==> r == Ok::<(), SaleError>(())
                && (forall|id: Seq<char>|
                #![trigger balance_of(final(self).whitelist_map@, id)]
                balance_of(final(self).whitelist_map@, id) == balance_of(
                    old(self).whitelist_map@,
                    id,
                ) + if id == buyer@ {
                    old(self).tokens_for(amount)
                } else {
                    0
                }) && balance_sum(final(self).whitelist_map@) == balance_sum(
                old(self).whitelist_map@,
            ) + old(self).tokens_for(amount) && *final(self) == (Contract {
                whitelist_map: final(self).whitelist_map,
                ..*old(self)
            }),
            forall|id: Seq<char>|
                #![trigger balance_of(final(self).whitelist_map@, id)]
                balance_of(old(self).whitelist_map@, id) <= balance_of(
                    final(self).whitelist_map@,
                    id,
                ),
    {
        if phase(self.start_time, self.sale_duration, now) != Phase::InSale {
            return Err(SaleError::NotSaleTime);
        }
        let price = self.price_type.unit_price();
        if price == 0 {
            return Err(SaleError::DivisionByZero);
        }
        let tokens = amount / price;
        let reserve = self.sale_reserve();
        let sold = total_of(&self.whitelist_map);
        if tokens > reserve - sold {
            return Err(SaleError::SoldOut);
        }
        let ghost old_list = self.whitelist_map@;
        match find_entry(&self.whitelist_map, buyer) {
            Some(i) => {
                proof {
                    lemma_balance_at(old_list, i as int);
                    lemma_entry_le_sum(old_list, i as int);
                }
                let current = self.whitelist_map[i].1;
                self.whitelist_map.set(i, (buyer.clone(), current + tokens));
                proof {
                    let new_list = self.whitelist_map@;
                    lemma_sum_update(old_list, i as int, new_list[i as int]);
                    assert(keys_unique(new_list));
                    assert forall|id: Seq<char>|
                        #![trigger balance_of(new_list, id)]
                        balance_of(new_list, id) == balance_of(old_list, id) + if id == buyer@ {
                            tokens as nat
                        } else {
                            0
                        } by {
                        lemma_balance_of(old_list, id);
                        lemma_balance_of(new_list, id);
                        lemma_balance_at(new_list, i as int);
                        if id != buyer@ {
                            if has_entry(old_list, id) {
                                let j = choose|j: int|
                                    0 <= j < old_list.len() && old_list[j].0@ == id && balance_of(
                                        old_list,
                                        id,
                                    ) == old_list[j].1;
                                lemma_balance_at(new_list, j);
                            } else {
                                assert(!has_entry(new_list, id));
                            }
                        }
                    }
                }
            },
            None => {
                self.whitelist_map.push((buyer.clone(), tokens));
                proof {
                    let new_list = self.whitelist_map@;
                    assert(new_list.drop_last() =~= old_list);
                    assert(keys_unique(new_list));
                    assert forall|id: Seq<char>|
                        #![trigger balance_of(new_list, id)]
                        balance_of(new_list, id) == balance_of(old_list, id) + if id == buyer@ {
                            tokens as nat
                        } else {
                            0
                        } by {
                        if id == buyer@ {
                            lemma_balance_absent(old_list, id);
                        }
                    }
                }
            },
        }
        Ok(())
    }

    /// Pays the buyers once the sale has closed: returns the transfers to make
    /// from the owner's balance, one per whitelist entry, and sets every entry
    /// to zero so that no purchase is paid twice.
    pub fn distribute_tokens_to_buyers(&mut self, caller: &String, now: u64) -> (r: Result<
        Vec<(String, u128)>,
        SaleError,
    >)
        requires
            old(self).wf(),
        ensures
            final(self).wf(),
            caller@ != old(self).owner_id@ ==> r == Err::<Vec<(String, u128)>, SaleError>(
                SaleError::NotOwner,
            ) && *final(self) == *old(self),
            caller@ == old(self).owner_id@ && old(self).phase_at(now) != Phase::AfterSale ==> r
                == Err::<Vec<(String, u128)>, SaleError>(SaleError::NotDistributionTime)
                && *final(self) == *old(self),
            caller@ == old(self).owner_id@ && old(self).phase_at(now) == Phase::AfterSale ==> (r matches Ok(
                p,
            ) && p@ == old(self).whitelist_map@ && final(self).whitelist_map@.len()
                == old(self).whitelist_map@.len() && (forall|i: int|
                0 <= i < p@.len() ==> final(self).whitelist_map@[i].0 == p@[i].0
                    && final(self).whitelist_map@[i].1 == 0) && (forall|id: Seq<char>|
                #![trigger balance_of(final(self).whitelist_map@, id)]
                balance_of(final(self).whitelist_map@, id) == 0) && balance_sum(
                final(self).whitelist_map@,
            ) == 0 && *final(self) == (Contract {
                whitelist_map: final(self).whitelist_map,
                ..*old(self)
            })),
    {
        self.assert_owner(caller)?;
        if phase(self.start_time, self.sale_duration, now) != Phase::AfterSale {
            return Err(SaleError::NotDistributionTime);
        }
        let ghost old_list = self.whitelist_map@;
        let mut payouts: Vec<(String, u128)> = Vec::new();
        let mut i: usize = 0;
        while i < self.whitelist_map.len()
            invariant
                i <= self.whitelist_map@.len(),
                *self == (Contract { whitelist_map: self.whitelist_map, ..*old(self) }),
                old(self).wf(),
                old_list == old(self).whitelist_map@,
                self.whitelist_map@.len() == old_list.len(),
                payouts@ == old_list.take(i as int),
                forall|j: int|
                    0 <= j < self.whitelist_map@.len() ==> self.whitelist_map@[j].0
                        == old_list[j].0,
                forall|j: int| 0 <= j < i ==> self.whitelist_map@[j].1 == 0,
                forall|j: int| i <= j < old_list.len() ==> self.whitelist_map@[j] == old_list[j],
            decreases self.whitelist_map.len() - i,
        {
            let account = self.whitelist_map[i].0.clone();
            let amount = self.whitelist_map[i].1;
            payouts.push((account.clone(), amount));
            self.whitelist_map.set(i, (account, 0));
            assert(old_list.take(i + 1) =~= old_list.take(i as int).push(old_list[i as int]));
            i = i + 1;
        }
        assert(old_list.take(i as int) =~= old_list);
        proof {
            let new_list = self.whitelist_map@;
            assert(keys_unique(new_list)) by {
                assert forall|a: int, b: int| 0 <= a < b < new_list.len() implies new_list[a].0@
                    != new_list[b].0@ by {
                    assert(new_list[a].0 == old_list[a].0 && new_list[b].0 == old_list[b].0);
                }
            }
            lemma_sum_zero(new_list);
            assert forall|id: Seq<char>| #![trigger balance_of(new_list, id)] balance_of(new_list, id) == 0 by {
                lemma_balance_zero(new_list, id);
            }
        }
        Ok(payouts)
    }
    /// Whether the shareholders have been paid.
    pub fn distributed_status(&self) -> (r: bool)
        ensures
            r == self.distributed_status,
    {
        self.distributed_status
    }

    /// The percentage of the supply, in millionths of a percent, that is left
    /// for sale once the shareholders' percentages are taken.
    pub fn percent_for_sale(&self) -> (r: u32)
        requires
            percent_sum(self.tokennomic@) <= 100_000_000,
        ensures
            r == 100_000_000 - percent_sum(self.tokennomic@),
            r <= 100_000_000,
    {
        let mut total: u32 = 0;
        let mut i: usize = 0;
        while i < self.tokennomic.len()
            invariant
                percent_sum(self.tokennomic@) <= 100_000_000,
                i <= self.tokennomic@.len(),
                total == percent_sum(self.tokennomic@.take(i as int)),
            decreases self.tokennomic.len() - i,
        {
            assert(self.tokennomic@.take(i + 1).drop_last() =~= self.tokennomic@.take(i as int));
            proof {
                lemma_percent_sum_prefix(self.tokennomic@, i + 1);
            }
            total = total + self.tokennomic[i].percent_of_token;
            i = i + 1;
        }
        assert(self.tokennomic@.take(i as int) =~= self.tokennomic@);
        100_000_000 - total
    }

    /// The tokens bought so far, by all participants together.
    pub fn sold_tokens(&self) -> (r: u128)
        requires
            self.wf(),
        ensures
            r == balance_sum(self.whitelist_map@),
    {
        proof {
            lemma_share_le_supply(
                (100_000_000 - percent_sum(self.tokennomic@)) as nat,
                self.total_supply as nat,
            );
        }
        total_of(&self.whitelist_map)
    }

    /// The tokens reserved for sale, rounded down.
    pub fn sale_reserve(&self) -> (r: u128)
        requires
            self.wf(),
        ensures
            r == self.reserve(),
            r <= self.total_supply,
    {
        proof {
            lemma_share_le_supply(
                (100_000_000 - percent_sum(self.tokennomic@)) as nat,
                self.total_supply as nat,
            );
        }
        share_amount(self.percent_for_sale(), self.total_supply)
    }

    /// The tokens of the sale's reserve that are not bought yet.
    pub fn remaining_tokens(&self) -> (r: u128)
        requires
            self.wf(),
        ensures
            r == self.reserve() - balance_sum(self.whitelist_map@),
    {
        let reserve = self.sale_reserve();
        reserve - self.sold_tokens()
    }

    /// The shareholders, in registry order.
    pub fn tokennomic(&self) -> (r: Vec<ShareHolder>)
        ensures
            r@.len() == self.tokennomic@.len(),
            forall|i: int|
                0 <= i < r@.len() ==> r@[i].account_id == self.tokennomic@[i].account_id
                    && r@[i].percent_of_token == self.tokennomic@[i].percent_of_token,
    {
        let mut out: Vec<ShareHolder> = Vec::new();
        let mut i: usize = 0;
        while i < self.tokennomic.len()
            invariant
                i <= self.tokennomic@.len(),
                out@.len() == i,
                forall|j: int|
                    0 <= j < i ==> out@[j].account_id == self.tokennomic@[j].account_id
                        && out@[j].percent_of_token == self.tokennomic@[j].percent_of_token,
            decreases self.tokennomic.len() - i,
        {
            let holder = &self.tokennomic[i];
            out.push(
                ShareHolder {
                    account_id: holder.account_id.clone(),
                    percent_of_token: holder.percent_of_token,
                },
            );
            i = i + 1;
        }
        out
    }

    /// The price that the market would set. No formula is chosen yet, so it
    /// is zero.
    pub fn get_token_price(&self) -> (r: u128)
        ensures
            r == 0,
    {
        0
    }

    /// The whitelist: each participant with the tokens credited to it.
    pub fn whitelist(&self) -> (r: Vec<(String, u128)>)
        ensures
            r@ == self.whitelist_map@,
    {
        let mut out: Vec<(String, u128)> = Vec::new();
        let mut i: usize = 0;
        while i < self.whitelist_map.len()
            invariant
                i <= self.whitelist_map@.len(),
                out@ == self.whitelist_map@.take(i as int),
            decreases self.whitelist_map.len() - i,
        {
            out.push((self.whitelist_map[i].0.clone(), self.whitelist_map[i].1));
            assert(self.whitelist_map@.take(i + 1) =~= self.whitelist_map@.take(i as int).push(
                self.whitelist_map@[i as int],
            ));
            i = i + 1;
        }
        assert(self.whitelist_map@.take(i as int) =~= self.whitelist_map@);
        out
    }

    /// The price of one token, in the smallest currency units.
    pub fn price(&self) -> (r: u128)
        ensures
            r == unit_price(self.price_type),
    {
        self.price_type.unit_price()
    }

    /// The tokens credited to `account_id`, zero for an account that bought none.
    pub fn my_tokens(&self, account_id: &String) -> (r: u128)
        requires
            self.wf(),
        ensures
            r == balance_of(self.whitelist_map@, account_id@),
    {
        proof {
            lemma_balance_of(self.whitelist_map@, account_id@);
        }
        match find_entry(&self.whitelist_map, account_id) {
            Some(i) => {
                proof {
                    lemma_balance_at(self.whitelist_map@, i as int);
                }
                self.whitelist_map[i].1
            },
            None => 0,
        }
    }
}

} // verus!
