//! The accounts the pool reads and writes, held as plain values.
use vstd::prelude::*;

use crate::constants::MAX_FEE_BPS;

verus! {

/// The 32-byte address of an account.
#[derive(Clone, Copy, Debug)]
pub struct Pubkey {
    pub bytes: [u8; 32],
}

impl View for Pubkey {
    type V = Seq<u8>;

    open spec fn view(&self) -> Seq<u8> {
        self.bytes@
    }
}

/// `a` comes strictly before `b` in lexicographic byte order.
pub open spec fn bytes_less(a: Seq<u8>, b: Seq<u8>) -> bool {
    exists|i: int|
        #![trigger a[i], b[i]]
        0 <= i < a.len() && i < b.len() && a[i] < b[i] && (forall|j: int|
            0 <= j < i ==> #[trigger] a[j] == b[j])
}

impl Pubkey {
    /// Whether the two addresses are the same.
    pub fn equals(&self, other: &Pubkey) -> (r: bool)
        ensures
            r == (self@ == other@),
    {
        let mut i: usize = 0;
        while i < 32
            invariant
                0 <= i <= 32,
                self@.len() == 32,
                other@.len() == 32,
                forall|j: int| 0 <= j < i ==> self@[j] == other@[j],
            decreases 32 - i,
        {
            if self.bytes[i] != other.bytes[i] {
                return false;
            }
            i = i + 1;
        }
        assert(self@ =~= other@);
        true
    }

    /// Whether this address comes strictly before `other` when both are
    /// compared as byte strings.
    pub fn bytes_less_than(&self, other: &Pubkey) -> (r: bool)
        ensures
            r == bytes_less(self@, other@),
    {
        let mut i: usize = 0;
        while i < 32
            invariant
                0 <= i <= 32,
                self@.len() == 32,
                other@.len() == 32,
                forall|j: int| 0 <= j < i ==> self@[j] == other@[j],
            decreases 32 - i,
        {
            let a = self.bytes[i];
            let b = other.bytes[i];
            if a < b {
                assert(self@[i as int] < other@[i as int]);
                return true;
            }
            if a > b {
                assert forall|k: int|
                    0 <= k < self@.len() && k < other@.len() && self@[k] < other@[k] implies !(
                    forall|j: int| 0 <= j < k ==> #[trigger] self@[j] == other@[j]) by {
                    if k > i {
                        assert(self@[i as int] != other@[i as int]);
                    }
                }
                return false;
            }
            i = i + 1;
        }
        assert forall|k: int|
            0 <= k < self@.len() && k < other@.len() implies !(self@[k] < other@[k]) by {}
        false
    }
}

/// The balance and ownership of a token account, as the pool sees it.
#[derive(Clone, Copy, Debug)]
pub struct TokenAccount {
    /// The account's own address.
    pub key: Pubkey,
    /// The mint of the tokens it holds.
    pub mint: Pubkey,
    /// The authority that may move its tokens.
    pub owner: Pubkey,
    /// Its balance.
    pub amount: u64,
}

/// The state of a pool for one pair of mints.
#[derive(Clone, Copy, Debug)]
pub struct Pool {
    /// May change the fee.
    pub authority: Pubkey,
    /// Owns both treasury accounts.
    pub treasury_authority: Pubkey,
    pub mint_a: Pubkey,
    pub mint_b: Pubkey,
    pub vault_a: Pubkey,
    pub vault_b: Pubkey,
    pub treasury_a: Pubkey,
    pub treasury_b: Pubkey,
    /// The tokens of mint A that back the shares.
    pub reserve_a: u64,
    /// The tokens of mint B that back the shares.
    pub reserve_b: u64,
    /// All shares minted and not yet burned.
    pub total_shares: u64,
    /// The swap fee in basis points of the input.
    pub fee_bps: u16,
    pub bump: u8,
    pub vault_a_bump: u8,
    pub vault_b_bump: u8,
}

impl Pool {
    /// What every pool that the instructions produce satisfies: the fee is
    /// within its cap, an empty pool holds no reserves, and a pool with
    /// shares outstanding holds some of both tokens.
    pub open spec fn wf(&self) -> bool {
        &&& self.fee_bps <= MAX_FEE_BPS
        &&& self.total_shares == 0 ==> self.reserve_a == 0 && self.reserve_b == 0
        &&& self.total_shares > 0 ==> self.reserve_a > 0 && self.reserve_b > 0
    }

    /// The pool's constant-product invariant `k`.
    pub open spec fn k(&self) -> int {
        self.reserve_a * self.reserve_b
    }
}

/// One owner's stake in a pool.
#[derive(Clone, Copy, Debug)]
pub struct Position {
    pub pool: Pubkey,
    pub owner: Pubkey,
    /// The shares this owner holds.
    pub shares: u64,
    pub bump: u8,
}

} // verus!
