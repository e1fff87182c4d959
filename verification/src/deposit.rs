//! The deposit watcher's decision rule: the wizard blocks until the wallet's
//! balance, fetched in base units, reaches a minimum threshold. Comparison is
//! done on integers so that a balance exactly at the threshold counts.

use vstd::prelude::*;

verus! {

/// Smallest deposit, in base units, that the wizard waits for before it goes
/// on to create the token (0.002 native units at 10^9 base units each).
pub const MIN_DEPOSIT_BASE_UNITS: u64 = 2_000_000;

/// True exactly when a fetched balance, in base units, meets the threshold.
/// The comparison is inclusive: a balance equal to the threshold is funded.
pub fn deposit_met(balance: u64, threshold: u64) -> (r: bool)
    ensures
        r == (balance >= threshold),
{
    balance >= threshold
}

/// Replays the watcher's loop over a recorded sequence of balance readings:
/// returns the number of polls the watcher makes before it returns, that is
/// the position, counted from one, of the first reading that meets the
/// threshold; `None` when no reading does (the watcher would still be polling).
pub fn polls_until_funded(readings: &Vec<u64>, threshold: u64) -> (r: Option<usize>)
    ensures
        match r {
            Some(n) => {
                &&& 1 <= n <= readings@.len()
                &&& readings@[n - 1] >= threshold
                &&& forall|j: int| 0 <= j < n - 1 ==> readings@[j] < threshold
            },
            None => forall|j: int| 0 <= j < readings@.len() ==> readings@[j] < threshold,
        },
{
    let mut i: usize = 0;
    while i < readings.len()
        invariant
            0 <= i <= readings@.len(),
            forall|j: int| 0 <= j < i ==> readings@[j] < threshold,
        decreases readings@.len() - i,
    {
        if readings[i] >= threshold {
            return Some(i + 1);
        }
        i = i + 1;
    }
    None
}

} // verus!
