//! Snapshots of liquidity pools and of the exchanges that created them.

use vstd::prelude::*;
use crate::primitives::Address;

verus! {

/// A constant-product pool as it stood when it was last synchronised.
#[derive(Clone, Copy, Debug, PartialEq, Eq, Structural)]
pub struct UniswapV2Pool {
    pub address: Address,
    pub token_a: Address,
    pub token_a_decimals: u8,
    pub token_b: Address,
    pub token_b_decimals: u8,
    pub reserve_0: u128,
    pub reserve_1: u128,
    pub fee: u32,
}

/// A concentrated-liquidity pool as it stood when it was last synchronised.
/// `reserve_0` and `reserve_1` are its virtual reserves: the constant-product
/// reserves that price the pool's tokens as its current price and liquidity do.
#[derive(Clone, Copy, Debug, PartialEq, Eq, Structural)]
pub struct UniswapV3Pool {
    pub address: Address,
    pub token_a: Address,
    pub token_a_decimals: u8,
    pub token_b: Address,
    pub token_b_decimals: u8,
    pub reserve_0: u128,
    pub reserve_1: u128,
    pub fee: u32,
}

/// A two-token liquidity pool of one of the supported kinds.
#[derive(Clone, Copy, Debug, PartialEq, Eq, Structural)]
pub enum Pool {
    UniswapV2(UniswapV2Pool),
    UniswapV3(UniswapV3Pool),
}

impl UniswapV2Pool {
    /// The pool's two tokens, `token_a` first.
    pub open spec fn spec_tokens(self) -> Seq<Address> {
        seq![self.token_a, self.token_b]
    }

    /// The address of the pool's own contract.
    pub fn address(&self) -> (a: Address)
        ensures
            a == self.address,
    {
        self.address
    }

    /// The pool's two tokens, `token_a` first.
    pub fn tokens(&self) -> (t: Vec<Address>)
        ensures
            t@ == self.spec_tokens(),
    {
        let mut t: Vec<Address> = Vec::new();
        t.push(self.token_a);
        t.push(self.token_b);
        assert(t@ =~= self.spec_tokens());
        t
    }
}

impl UniswapV3Pool {
    /// The pool's two tokens, `token_a` first.
    pub open spec fn spec_tokens(self) -> Seq<Address> {
        seq![self.token_a, self.token_b]
    }

    /// The address of the pool's own contract.
    pub fn address(&self) -> (a: Address)
        ensures
            a == self.address,
    {
        self.address
    }

    /// The pool's two tokens, `token_a` first.
    pub fn tokens(&self) -> (t: Vec<Address>)
        ensures
            t@ == self.spec_tokens(),
    {
        let mut t: Vec<Address> = Vec::new();
        t.push(self.token_a);
        t.push(self.token_b);
        assert(t@ =~= self.spec_tokens());
        t
    }
}

impl Pool {
    /// The address of the pool's own contract.
    pub open spec fn spec_address(self) -> Address {
        match self {
            Pool::UniswapV2(pool) => pool.address,
            Pool::UniswapV3(pool) => pool.address,
        }
    }

    /// The first of the pool's two tokens.
    pub open spec fn spec_token_a(self) -> Address {
        match self {
            Pool::UniswapV2(pool) => pool.token_a,
            Pool::UniswapV3(pool) => pool.token_a,
        }
    }

    /// The second of the pool's two tokens.
    pub open spec fn spec_token_b(self) -> Address {
        match self {
            Pool::UniswapV2(pool) => pool.token_b,
            Pool::UniswapV3(pool) => pool.token_b,
        }
    }

    /// The pool's two tokens, `token_a` first.
    pub open spec fn spec_tokens(self) -> Seq<Address> {
        seq![self.spec_token_a(), self.spec_token_b()]
    }

    /// The pool's reserves, that of `token_a` first.
    pub open spec fn spec_reserves(self) -> (u128, u128) {
        match self {
            Pool::UniswapV2(pool) => (pool.reserve_0, pool.reserve_1),
            Pool::UniswapV3(pool) => (pool.reserve_0, pool.reserve_1),
        }
    }

    /// The decimals of the pool's tokens, those of `token_a` first.
    pub open spec fn spec_decimals(self) -> (u8, u8) {
        match self {
            Pool::UniswapV2(pool) => (pool.token_a_decimals, pool.token_b_decimals),
            Pool::UniswapV3(pool) => (pool.token_a_decimals, pool.token_b_decimals),
        }
    }

    /// The address of the pool's own contract.
    pub fn address(&self) -> (a: Address)
        ensures
            a == self.spec_address(),
    {
        match self {
            Pool::UniswapV2(pool) => pool.address(),
            Pool::UniswapV3(pool) => pool.address(),
        }
    }

    /// The pool's two tokens, `token_a` first.
    pub fn tokens(&self) -> (t: Vec<Address>)
        ensures
            t@ == self.spec_tokens(),
    {
        match self {
            Pool::UniswapV2(pool) => pool.tokens(),
            Pool::UniswapV3(pool) => pool.tokens(),
        }
    }

    /// The decimals of the pool's tokens, those of `token_a` first.
    pub fn decimals(&self) -> (d: (u8, u8))
        ensures
            d == self.spec_decimals(),
    {
        match self {
            Pool::UniswapV2(pool) => (pool.token_a_decimals, pool.token_b_decimals),
            Pool::UniswapV3(pool) => (pool.token_a_decimals, pool.token_b_decimals),
        }
    }

    /// The pool's reserves, that of `token_a` first.
    pub fn reserves(&self) -> (r: (u128, u128))
        ensures
            r == self.spec_reserves(),
    {
        match self {
            Pool::UniswapV2(pool) => (pool.reserve_0, pool.reserve_1),
            Pool::UniswapV3(pool) => (pool.reserve_0, pool.reserve_1),
        }
    }
}

/// The pricing formula that an exchange's pools follow.
#[derive(Clone, Copy, Debug, PartialEq, Eq, Structural)]
pub enum DexVariant {
    UniswapV2,
    UniswapV3,
    IziSwap,
}

/// An exchange, known by the factory contract that creates its pools.
#[derive(Clone, Copy, Debug, PartialEq, Eq, Structural)]
pub struct Dex {
    pub factory_address: Address,
    pub variant: DexVariant,
}

impl Dex {
    /// Whether the exchange's pools hold concentrated liquidity: every kind
    /// but the constant-product one.
    pub open spec fn spec_is_concentrated(self) -> bool {
        self.variant != DexVariant::UniswapV2
    }

    /// The address of the factory contract.
    pub fn factory_address(&self) -> (a: Address)
        ensures
            a == self.factory_address,
    {
        self.factory_address
    }

    /// The pricing formula of the exchange's pools.
    pub fn variant(&self) -> (v: DexVariant)
        ensures
            v == self.variant,
    {
        self.variant
    }

    /// Whether the exchange's pools hold concentrated liquidity.
    pub fn is_concentrated(&self) -> (b: bool)
        ensures
            b == self.spec_is_concentrated(),
    {
        match self.variant {
            DexVariant::UniswapV2 => false,
            DexVariant::UniswapV3 => true,
            DexVariant::IziSwap => true,
        }
    }
}

} // verus!
