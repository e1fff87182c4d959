//! Derivations over what the remote ledger reports: the net amount a
//! transaction moved in its first balance slot, and the displayable history
//! row of a transaction — its block time rendered as text, its first
//! signature, and that net amount. Amounts are kept in integer base units;
//! 10^9 base units make one native unit.

use vstd::prelude::*;

use chrono::TimeZone;

verus! {

/// How many base units make one native unit of the ledger's currency.
pub const BASE_UNITS_PER_NATIVE: u64 = 1_000_000_000;

/// A transaction's details as the ledger reports them: its signatures, the
/// balances of each slot before and after it, and its block timestamp in
/// seconds — absent while the transaction is not finalized.
pub struct TxDetail {
    pub signatures: Vec<Vec<u8>>,
    pub pre_balances: Vec<u64>,
    pub post_balances: Vec<u64>,
    pub block_time: Option<i64>,
}

/// One row of a wallet's history listing: the block time as text, the
/// transaction's first signature, and the net movement of the first balance
/// slot in base units.
pub struct TransactionRecord {
    pub datetime: Vec<u8>,
    pub signature: Vec<u8>,
    pub net_base_units: i128,
}

/// The text of the moment `secs` seconds after the epoch, in universal time;
/// no text when the seconds lie outside the representable datetime range.
pub uninterp spec fn utc_datetime_text(secs: i64) -> Option<Seq<u8>>;

/// Relies on chrono's `Utc.timestamp_opt(secs, 0).single()` and the
/// datetime's display text: both depend on the seconds value alone, and
/// out-of-range seconds give no datetime.
#[verifier::external_body]
fn format_block_time(secs: i64) -> (r: Option<Vec<u8>>)
    ensures
        r.deep_view() == utc_datetime_text(secs),
{
    chrono::Utc.timestamp_opt(secs, 0).single().map(|dt| dt.to_string().into_bytes())
}

/// A copy of a byte string.
fn copy_bytes(v: &Vec<u8>) -> (r: Vec<u8>)
    ensures
        r@ == v@,
{
    let mut out: Vec<u8> = Vec::new();
    let mut i: usize = 0;
    while i < v.len()
        invariant
            0 <= i <= v@.len(),
            out@ == v@.take(i as int),
        decreases v@.len() - i,
    {
        out.push(v[i]);
        proof {
            assert(out@ =~= v@.take(i + 1));
        }
        i = i + 1;
    }
    proof {
        assert(v@.take(v@.len() as int) =~= v@);
    }
    out
}

/// The net movement of a transaction's first balance slot, in base units:
/// the balance after it minus the balance before it, negative when the slot
/// paid out more than it received.
pub fn net_first_slot(pre_balances: &Vec<u64>, post_balances: &Vec<u64>) -> (r: i128)
    requires
        pre_balances@.len() > 0,
        post_balances@.len() > 0,
    ensures
        r == post_balances@[0] - pre_balances@[0],
{
    post_balances[0] as i128 - pre_balances[0] as i128
}

/// Derives the history row of one transaction. A transaction whose block
/// time is absent, or lies outside the datetime range, yields no row: the
/// listing skips it.
pub fn derive_record(tx: &TxDetail) -> (r: Option<TransactionRecord>)
    requires
        tx.signatures@.len() > 0,
        tx.pre_balances@.len() > 0,
        tx.post_balances@.len() > 0,
    ensures
        match r {
            Option::Some(rec) => {
                &&& tx.block_time matches Some(ts) && utc_datetime_text(ts) matches Some(t)
                    && rec.datetime@ == t
                &&& rec.signature@ == tx.signatures@[0]@
                &&& rec.net_base_units == tx.post_balances@[0] - tx.pre_balances@[0]
            },
            Option::None => !(tx.block_time matches Some(ts) && utc_datetime_text(ts) is Some),
        },
{
    let ts = match tx.block_time {
        Option::Some(t) => t,
        Option::None => {
            return None;
        },
    };
    let datetime = match format_block_time(ts) {
        Option::Some(d) => d,
        Option::None => {
            return None;
        },
    };
    let signature = copy_bytes(&tx.signatures[0]);
    let net_base_units = net_first_slot(&tx.pre_balances, &tx.post_balances);
    Some(TransactionRecord { datetime, signature, net_base_units })
}

/// Splits an amount of base units into whole native units and the remaining
/// base units, for display with nine fractional digits.
pub fn split_native_units(v: u64) -> (r: (u64, u64))
    ensures
        r.0 == v / (BASE_UNITS_PER_NATIVE as u64),
        r.1 == v % (BASE_UNITS_PER_NATIVE as u64),
        r.0 * (BASE_UNITS_PER_NATIVE as u64) + r.1 == v,
{
    let whole = v / BASE_UNITS_PER_NATIVE;
    let frac = v % BASE_UNITS_PER_NATIVE;
    (whole, frac)
}

} // verus!
