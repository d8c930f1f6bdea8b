use token_sale::contract::{Contract, SaleError};
use token_sale::pricing::{TokenPriceType, ONE_NEAR};
use token_sale::shares::{allocation_is_valid, registry_of, share_amount, ShareHolder, ONE_PERCENT};
use token_sale::window::{phase, Phase};

fn holder(id: &str, percent: u32) -> ShareHolder {
    ShareHolder { account_id: id.to_string(), percent_of_token: percent * ONE_PERCENT }
}

fn owner() -> String {
    "owner.near".to_string()
}

fn sale(holders: Vec<ShareHolder>, price: TokenPriceType) -> Contract {
    Contract::new(false, owner(), 1_000, 1_000_000, 100, holders, price).unwrap()
}

#[test]
fn example_sale_end_to_end() {
    let mut c = sale(vec![holder("a.near", 10), holder("b.near", 5)], TokenPriceType::FixedPrice { near: 1 });
    assert_eq!(c.percent_for_sale(), 85 * ONE_PERCENT);
    let paid = c.distribute_tokens(&owner()).unwrap();
    assert_eq!(paid, vec![("a.near".to_string(), 100_000), ("b.near".to_string(), 50_000)]);
    assert!(c.distributed_status());

    let buyer = "buyer.near".to_string();
    c.deposit_for_sale(&buyer, 500 * ONE_NEAR, 1_050).unwrap();
    assert_eq!(c.my_tokens(&buyer), 500);
    assert_eq!(c.sold_tokens(), 500);

    let paid = c.distribute_tokens_to_buyers(&owner(), 1_101).unwrap();
    assert_eq!(paid, vec![(buyer.clone(), 500)]);
    assert_eq!(c.my_tokens(&buyer), 0);
    assert_eq!(c.whitelist(), vec![(buyer, 0)]);
}

#[test]
fn allocation_over_one_hundred_is_refused() {
    let r = Contract::new(false, owner(), 0, 1_000, 10, vec![holder("a", 60), holder("b", 41)], TokenPriceType::FixedPrice { near: 1 });
    assert_eq!(r.err(), Some(SaleError::InvalidAllocation));
    assert!(!allocation_is_valid(&vec![holder("a", 255)]));
    assert!(allocation_is_valid(&vec![holder("a", 60), holder("b", 40)]));
    assert!(allocation_is_valid(&vec![]));
}

#[test]
fn second_initialization_is_refused() {
    let r = Contract::new(true, owner(), 0, 1_000, 10, vec![], TokenPriceType::FixedPrice { near: 1 });
    assert_eq!(r.err(), Some(SaleError::AlreadyInitialized));
}

#[test]
fn percent_for_sale_is_the_rest() {
    assert_eq!(sale(vec![], TokenPriceType::FixedPrice { near: 1 }).percent_for_sale(), 100 * ONE_PERCENT);
    assert_eq!(sale(vec![holder("a", 70), holder("b", 30)], TokenPriceType::FixedPrice { near: 1 }).percent_for_sale(), 0);
    assert_eq!(sale(vec![holder("a", 33)], TokenPriceType::FixedPrice { near: 1 }).percent_for_sale(), 67 * ONE_PERCENT);
}

#[test]
fn prices() {
    assert_eq!(sale(vec![], TokenPriceType::FixedPrice { near: 3 }).price(), 3 * ONE_NEAR);
    assert_eq!(sale(vec![], TokenPriceType::FixedPrice { near: 255 }).price(), 255 * ONE_NEAR);
    assert_eq!(sale(vec![], TokenPriceType::DynamicPrice { ratio: 2_000_000 }).price(), ONE_NEAR);
    assert_eq!(sale(vec![], TokenPriceType::FixedPrice { near: 3 }).get_token_price(), 0);
}

#[test]
fn deposit_only_within_the_window() {
    let mut c = sale(vec![], TokenPriceType::FixedPrice { near: 1 });
    let b = "b".to_string();
    assert_eq!(c.deposit_for_sale(&b, ONE_NEAR, 999), Err(SaleError::NotSaleTime));
    assert_eq!(c.deposit_for_sale(&b, ONE_NEAR, 1_101), Err(SaleError::NotSaleTime));
    assert_eq!(c.deposit_for_sale(&b, ONE_NEAR, 1_000), Ok(()));
    assert_eq!(c.deposit_for_sale(&b, ONE_NEAR, 1_100), Ok(()));
    assert_eq!(c.my_tokens(&b), 2);
}

#[test]
fn deposits_accumulate_and_round_down() {
    let mut c = sale(vec![], TokenPriceType::FixedPrice { near: 2 });
    let (a, b) = ("a".to_string(), "b".to_string());
    c.deposit_for_sale(&a, 5 * ONE_NEAR, 1_010).unwrap();
    c.deposit_for_sale(&b, ONE_NEAR, 1_010).unwrap();
    c.deposit_for_sale(&a, 3 * ONE_NEAR + 1, 1_020).unwrap();
    assert_eq!(c.my_tokens(&a), 2 + 1);
    assert_eq!(c.my_tokens(&b), 0);
    assert_eq!(c.my_tokens(&"nobody".to_string()), 0);
    assert_eq!(c.sold_tokens(), 3);
    assert_eq!(c.whitelist(), vec![(a, 3), (b, 0)]);
}

#[test]
fn largest_deposit_is_credited() {
    let mut c = Contract::new(false, owner(), 0, u128::MAX, 10, vec![], TokenPriceType::DynamicPrice { ratio: 1 }).unwrap();
    let b = "b".to_string();
    c.deposit_for_sale(&b, u128::MAX, 5).unwrap();
    c.deposit_for_sale(&b, u128::MAX, 10).unwrap();
    assert_eq!(c.my_tokens(&b), 2 * (u128::MAX / ONE_NEAR));
    assert_eq!(c.sold_tokens(), 2 * (u128::MAX / ONE_NEAR));
}

#[test]
fn only_the_owner_distributes() {
    let mut c = sale(vec![holder("a", 10)], TokenPriceType::FixedPrice { near: 1 });
    let other = "mallory".to_string();
    assert_eq!(c.assert_owner(&other), Err(SaleError::NotOwner));
    assert_eq!(c.assert_owner(&owner()), Ok(()));
    assert_eq!(c.distribute_tokens(&other), Err(SaleError::NotOwner));
    assert!(!c.distributed_status());
    assert_eq!(c.distribute_tokens_to_buyers(&other, 5_000), Err(SaleError::NotOwner));
}

#[test]
fn shareholders_are_paid_once() {
    let mut c = sale(vec![holder("a", 10), holder("b", 5)], TokenPriceType::FixedPrice { near: 1 });
    assert!(c.distribute_tokens(&owner()).is_ok());
    assert_eq!(c.distribute_tokens(&owner()), Err(SaleError::AlreadyDistributed));
}

#[test]
fn buyers_are_paid_after_the_window_only_once() {
    let mut c = sale(vec![], TokenPriceType::FixedPrice { near: 1 });
    let (a, b) = ("a".to_string(), "b".to_string());
    c.deposit_for_sale(&a, 7 * ONE_NEAR, 1_000).unwrap();
    c.deposit_for_sale(&b, 9 * ONE_NEAR, 1_000).unwrap();
    assert_eq!(c.distribute_tokens_to_buyers(&owner(), 1_100), Err(SaleError::NotDistributionTime));
    assert_eq!(c.distribute_tokens_to_buyers(&owner(), 500), Err(SaleError::NotDistributionTime));
    let first = c.distribute_tokens_to_buyers(&owner(), 1_101).unwrap();
    assert_eq!(first, vec![(a.clone(), 7), (b.clone(), 9)]);
    assert_eq!(c.sold_tokens(), 0);
    let second = c.distribute_tokens_to_buyers(&owner(), 2_000).unwrap();
    assert_eq!(second, vec![(a, 0), (b, 0)]);
}

#[test]
fn shares_round_down_and_do_not_overflow() {
    assert_eq!(share_amount(10 * ONE_PERCENT, 1_000_000), 100_000);
    assert_eq!(share_amount(33 * ONE_PERCENT, 10), 3);
    assert_eq!(share_amount(0, 12345), 0);
    assert_eq!(share_amount(100 * ONE_PERCENT, u128::MAX), u128::MAX);
    assert_eq!(share_amount(50 * ONE_PERCENT, u128::MAX), u128::MAX / 2);
    assert_eq!(share_amount(ONE_PERCENT, 99), 0);
}

#[test]
fn shareholder_payouts_fit_the_supply() {
    let mut c = Contract::new(false, owner(), 0, 999, 1, vec![holder("a", 33), holder("b", 33), holder("c", 34)], TokenPriceType::FixedPrice { near: 1 }).unwrap();
    let paid = c.distribute_tokens(&owner()).unwrap();
    let total: u128 = paid.iter().map(|p| p.1).sum();
    assert_eq!(paid[0].1, 329);
    assert_eq!(paid[2].1, 339);
    assert!(total <= 999);
}

#[test]
fn tokennomic_lists_the_registry() {
    let c = sale(vec![holder("a", 10), holder("b", 5)], TokenPriceType::FixedPrice { near: 1 });
    let list = c.tokennomic();
    assert_eq!(list.len(), 2);
    assert_eq!(list[1].account_id, "b");
    assert_eq!(list[1].percent_of_token, 5 * ONE_PERCENT);
}

#[test]
fn phases_of_the_window() {
    assert_eq!(phase(10, 5, 9), Phase::BeforeSale);
    assert_eq!(phase(10, 5, 10), Phase::InSale);
    assert_eq!(phase(10, 5, 15), Phase::InSale);
    assert_eq!(phase(10, 5, 16), Phase::AfterSale);
    assert_eq!(phase(u64::MAX - 1, u64::MAX, u64::MAX), Phase::InSale);
}

#[test]
fn repeated_shareholders_stand_once() {
    let list = vec![holder("a", 10), holder("a", 10), holder("b", 5), holder("a", 5)];
    let reg = registry_of(&list);
    assert_eq!(reg.len(), 3);
    assert_eq!((reg[2].account_id.as_str(), reg[2].percent_of_token), ("a", 5 * ONE_PERCENT));
    let mut c = sale(list, TokenPriceType::FixedPrice { near: 1 });
    assert_eq!(c.percent_for_sale(), 80 * ONE_PERCENT);
    let paid = c.distribute_tokens(&owner()).unwrap();
    assert_eq!(paid.len(), 3);
    let twice = Contract::new(false, owner(), 0, 10, 1, vec![holder("a", 60), holder("a", 60)], TokenPriceType::FixedPrice { near: 1 });
    assert!(twice.is_ok());
}

#[test]
fn zero_price_is_accepted_but_refuses_deposits() {
    let mut c = Contract::new(false, owner(), 1_000, 1_000, 10, vec![holder("a", 10)], TokenPriceType::FixedPrice { near: 0 }).unwrap();
    assert_eq!(c.price(), 0);
    assert_eq!(c.owner_id, owner());
    assert_eq!(c.total_supply, 1_000);
    let b = "b".to_string();
    assert_eq!(c.deposit_for_sale(&b, ONE_NEAR, 1_005), Err(SaleError::DivisionByZero));
    assert_eq!(c.deposit_for_sale(&b, ONE_NEAR, 2_000), Err(SaleError::NotSaleTime));
    assert_eq!(c.my_tokens(&b), 0);
    assert_eq!(c.whitelist(), vec![]);
}

#[test]
fn remaining_tokens_of_the_reserve() {
    let mut c = sale(vec![holder("a", 50)], TokenPriceType::FixedPrice { near: 1 });
    assert_eq!(c.sale_reserve(), 500_000);
    assert_eq!(c.remaining_tokens(), 500_000);
    c.deposit_for_sale(&"b".to_string(), 1_000 * ONE_NEAR, 1_001).unwrap();
    assert_eq!(c.remaining_tokens(), 499_000);
    c.deposit_for_sale(&"c".to_string(), 499_000 * ONE_NEAR, 1_001).unwrap();
    assert_eq!(c.remaining_tokens(), 0);
}

#[test]
fn purchases_past_the_reserve_are_refused() {
    let mut c = sale(vec![holder("a", 90)], TokenPriceType::FixedPrice { near: 1 });
    let b = "b".to_string();
    assert_eq!(c.deposit_for_sale(&b, 100_001 * ONE_NEAR, 1_001), Err(SaleError::SoldOut));
    assert_eq!(c.sold_tokens(), 0);
    c.deposit_for_sale(&b, 60_000 * ONE_NEAR, 1_001).unwrap();
    assert_eq!(c.deposit_for_sale(&b, 40_001 * ONE_NEAR, 1_001), Err(SaleError::SoldOut));
    assert_eq!(c.deposit_for_sale(&b, 40_000 * ONE_NEAR, 1_001), Ok(()));
    assert_eq!(c.my_tokens(&b), 100_000);
    assert_eq!(c.remaining_tokens(), 0);
}

fn restored(holders: Vec<ShareHolder>, entries: Vec<(String, u128)>) -> Option<Contract> {
    Contract::restore(owner(), TokenPriceType::FixedPrice { near: 1 }, holders, false, 0, 10, 1_000, entries)
}

#[test]
fn restore_checks_the_invariant() {
    let ok = restored(vec![holder("a", 50)], vec![("b".to_string(), 300), ("c".to_string(), 200)]).unwrap();
    assert_eq!(ok.sold_tokens(), 500);
    assert_eq!(ok.remaining_tokens(), 0);
    assert!(restored(vec![holder("a", 50)], vec![("b".to_string(), 300), ("c".to_string(), 201)]).is_none());
    assert!(restored(vec![], vec![("b".to_string(), 1), ("b".to_string(), 2)]).is_none());
    assert!(restored(vec![holder("a", 60), holder("b", 41)], vec![]).is_none());
    assert!(restored(vec![], vec![("b".to_string(), u128::MAX), ("c".to_string(), 1)]).is_none());
}

#[test]
fn fractional_percentages() {
    assert_eq!(share_amount(12 * ONE_PERCENT + ONE_PERCENT / 2, 1_000), 125);
    assert_eq!(share_amount(1, 100_000_000), 1);
    assert_eq!(share_amount(1, 99_999_999), 0);
    let odd = ShareHolder { account_id: "a".to_string(), percent_of_token: 33_333_333 };
    let mut c = sale(vec![odd], TokenPriceType::FixedPrice { near: 1 });
    assert_eq!(c.percent_for_sale(), 66_666_667);
    assert_eq!(c.sale_reserve(), 666_666);
    assert_eq!(c.distribute_tokens(&owner()).unwrap(), vec![("a".to_string(), 333_333)]);
    let over = vec![holder("a", 50), ShareHolder { account_id: "b".to_string(), percent_of_token: 50 * ONE_PERCENT + 1 }];
    assert!(!allocation_is_valid(&over));
}
