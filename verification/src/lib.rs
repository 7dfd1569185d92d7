//! Pricing and accounting core of a multi-asset automated market maker.
//!
//! A [`pool::Pool`] holds per-token reserves and a ledger of
//! liquidity-provider shares, and offers deposits, withdrawals and swaps
//! behind one call surface for four curves: the constant product, the
//! stable curve, and the stable curve with exchange rates or with risk
//! factors and a cap on the pool's value.
//!
//! Amounts are 128-bit integers. No operation panics, wraps or truncates:
//! one that cannot be carried out is refused with a [`errors::PoolError`]
//! and leaves the pool as it was, and so does one that is only simulated.
//!
//! What each operation does is stated by a function on the mathematical
//! view of a pool, [`state::PoolView`]; the executable operation is proved
//! to return and to commit exactly that. The laws that hold of those
//! functions (conservation, proportional withdrawal, the round trip of a
//! first deposit, the ledger's balances adding up, the cap) are proved
//! beside them.
//!
//! Modules, leaves first:
//! - [`math`]: exact `a * b / c` on 128-bit amounts
//! - [`errors`], [`volume`], [`fees`]: refusals, volume records, fee split
//! - [`ledger`]: the share ledger
//! - [`state`]: what every pool holds, and the commit of an operation
//! - [`simple_pool`]: the constant-product curve
//! - [`stable_math`], [`stable`]: the stable curve and its invariant
//! - [`stable_swap`], [`rated_swap`], [`degen_swap`]: the stable family
//! - [`pool`]: the pool of any kind

pub mod degen_swap;
pub mod errors;
pub mod fees;
pub mod ledger;
pub mod math;
pub mod pool;
pub mod rated_swap;
pub mod simple_pool;
pub mod stable;
pub mod stable_math;
pub mod stable_swap;
pub mod state;
pub mod volume;
