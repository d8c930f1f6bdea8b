use vstd::prelude::*;

verus! {

/// One whole token of the native currency, in its smallest units.
pub const ONE_NEAR: u128 = 1_000_000_000_000_000_000_000_000;

/// How the sale prices one token.
#[derive(PartialEq, Eq, Structural, Clone, Copy, Debug)]
pub enum TokenPriceType {
    /// A fixed price of `near` whole currency units per token.
    FixedPrice { near: u8 },
    /// A price that follows the market; `ratio` is in millionths. No formula
    /// uses it yet: the price is one whole currency unit until one is chosen.
    DynamicPrice { ratio: u64 },
}

/// The price of one token, in the smallest currency units.
pub open spec fn unit_price(p: TokenPriceType) -> nat {
    match p {
        TokenPriceType::FixedPrice { near } => near as nat * ONE_NEAR as nat,
        TokenPriceType::DynamicPrice { .. } => ONE_NEAR as nat,
    }
}

impl TokenPriceType {
    /// The price of one token, in the smallest currency units.
    pub fn unit_price(&self) -> (r: u128)
        ensures
            r == unit_price(*self),
    {
        match self {
            TokenPriceType::FixedPrice { near } => {
                assert(*near as u128 * ONE_NEAR <= 255 * ONE_NEAR) by (nonlinear_arith)
                    requires
                        *near <= 255,
                ;
                *near as u128 * ONE_NEAR
            },
            TokenPriceType::DynamicPrice { .. } => ONE_NEAR,
        }
    }
}

} // verus!
