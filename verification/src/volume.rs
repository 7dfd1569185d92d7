//! Cumulative swap volume of one token.

use crate::errors::PoolError;
use near_sdk::Balance;
use vstd::prelude::*;

verus! {

/// Running totals of what was paid into a pool in one token and what was
/// paid out of it in that token. Neither ever decreases.
#[derive(Clone, Copy, Debug, PartialEq, Eq, Structural)]
pub struct SwapVolume {
    pub input: Balance,
    pub output: Balance,
}

impl SwapVolume {
    /// Counters at zero.
    pub fn new() -> (res: SwapVolume)
        ensures
            res.input == 0,
            res.output == 0,
    {
        SwapVolume { input: 0, output: 0 }
    }

    /// The counters after `amount` more was paid in.
    pub fn add_input(self, amount: Balance) -> (res: Result<SwapVolume, PoolError>)
        ensures
            self.input + amount <= u128::MAX ==> res == Ok::<SwapVolume, PoolError>(
                (SwapVolume { input: (self.input + amount) as u128, output: self.output }),
            ),
            self.input + amount > u128::MAX ==> res == Err::<SwapVolume, PoolError>(
                PoolError::ArithmeticOverflow,
            ),
    {
        match self.input.checked_add(amount) {
            Some(input) => Ok(SwapVolume { input, output: self.output }),
            None => Err(PoolError::ArithmeticOverflow),
        }
    }

    /// The counters after `amount` more was paid out.
    pub fn add_output(self, amount: Balance) -> (res: Result<SwapVolume, PoolError>)
        ensures
            self.output + amount <= u128::MAX ==> res == Ok::<SwapVolume, PoolError>(
                (SwapVolume { input: self.input, output: (self.output + amount) as u128 }),
            ),
            self.output + amount > u128::MAX ==> res == Err::<SwapVolume, PoolError>(
                PoolError::ArithmeticOverflow,
            ),
    {
        match self.output.checked_add(amount) {
            Some(output) => Ok(SwapVolume { input: self.input, output }),
            None => Err(PoolError::ArithmeticOverflow),
        }
    }
}

} // verus!
