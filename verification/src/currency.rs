use vstd::prelude::*;

verus! {

/// Coins that a game starts with.
pub const STARTING_COINS: i32 = 10;

/// The player's coins.
#[derive(Clone, Copy, Debug, PartialEq, Eq, Structural)]
pub struct Currency {
    pub coins: i32,
}

impl Currency {
    /// The coins after `coins` more were earned; the count stops at
    /// `i32::MAX`.
    pub open spec fn earned(self, coins: int) -> Currency {
        if self.coins + coins > i32::MAX {
            Currency { coins: i32::MAX }
        } else {
            Currency { coins: (self.coins + coins) as i32 }
        }
    }

    /// The purse that a game starts with.
    pub fn new() -> (c: Currency)
        ensures
            c.coins == STARTING_COINS,
    {
        Currency { coins: STARTING_COINS }
    }

    /// Adds `coins` to the purse.
    pub fn earn(&mut self, coins: usize)
        ensures
            *final(self) == old(self).earned(coins as int),
    {
        let total: i128 = self.coins as i128 + coins as i128;
        if total > i32::MAX as i128 {
            self.coins = i32::MAX;
        } else {
            self.coins = total as i32;
        }
    }

    /// Takes `cost` coins out of the purse if it holds as many; a purse
    /// that holds fewer is left as it is.
    pub fn spend(&mut self, cost: u16) -> (paid: bool)
        ensures
            paid <==> old(self).coins >= cost,
            paid ==> final(self).coins == old(self).coins - cost,
            !paid ==> *final(self) == *old(self),
    {
        if self.coins >= cost as i32 {
            self.coins = self.coins - cost as i32;
            true
        } else {
            false
        }
    }
}

} // verus!
