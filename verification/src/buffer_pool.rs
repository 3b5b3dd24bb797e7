//! A budget for data that is fetched ahead.

use crate::settings::setting_view;
use crate::text::{parse_number, parsed_number, trim_spec, trimmed};
use vstd::prelude::*;

verus! {

/// How many bytes were fetched ahead.
#[derive(Debug)]
pub struct PrefetchAccount {
    pub bytes: u64,
}

/// The limit that a setting gives, in bytes: the setting is in mebibytes, and a
/// limit too great for 64 bits is the greatest one.
pub open spec fn limit_of(setting: Option<Seq<char>>) -> Option<u64> {
    match setting {
        Some(s) => match parsed_number(trim_spec(s)) {
            Some(mb) => if mb * 1_048_576 <= u64::MAX {
                Some((mb * 1_048_576) as u64)
            } else {
                Some(u64::MAX)
            },
            None => None,
        },
        None => None,
    }
}

/// The limit that a setting gives, in bytes.
pub fn buffer_pool_limit_bytes(setting: Option<&str>) -> (r: Option<u64>)
    ensures
        r == limit_of(setting_view(setting)),
{
    match setting {
        Some(s) => match parse_number(trimmed(s).as_str()) {
            Some(mb) => if mb <= 0xfff_ffff_ffff {
                Some(mb * 1_048_576)
            } else {
                Some(u64::MAX)
            },
            None => None,
        },
        None => None,
    }
}

/// Whether so many more bytes may be fetched ahead: always without a limit and for
/// none, else while the sum is within it.
pub open spec fn within_budget(fetched: u64, more: u64, limit: Option<u64>) -> bool {
    match limit {
        Some(l) => more == 0 || fetched + more <= l || l == u64::MAX,
        None => true,
    }
}

/// Whether so many more bytes may be fetched ahead.
pub fn prefetch_budget_available(
    account: &PrefetchAccount,
    limit: Option<u64>,
    estimated_bytes: u64,
) -> (r: bool)
    ensures
        r == within_budget(account.bytes, estimated_bytes, limit),
{
    match limit {
        None => true,
        Some(l) => {
            if estimated_bytes == 0 {
                return true;
            }
            let sum: u64 = if account.bytes <= u64::MAX - estimated_bytes {
                account.bytes + estimated_bytes
            } else {
                u64::MAX
            };
            sum <= l
        },
    }
}

/// Counts bytes that were fetched ahead; the count starts again behind the greatest
/// number of 64 bits.
pub fn record_prefetch(account: &mut PrefetchAccount, estimated_bytes: u64)
    ensures
        final(account).bytes == (old(account).bytes + estimated_bytes) % 0x1_0000_0000_0000_0000,
{
    if estimated_bytes > 0 {
        account.bytes = account.bytes.wrapping_add(estimated_bytes);
    }
}

/// Begins the count anew.
pub fn reset_prefetch_accounting(account: &mut PrefetchAccount)
    ensures
        final(account).bytes == 0,
{
    account.bytes = 0;
}

/// What was within the budget is within it together with what it was measured by;
/// and what is over it stays over it when more is fetched.
pub proof fn law_budget_is_kept(fetched: u64, more: u64, again: u64, limit: u64)
    requires
        fetched + more <= u64::MAX,
        limit < u64::MAX,
        again > 0,
    ensures
        within_budget(fetched, more, Some(limit)) && more > 0 ==> fetched + more <= limit,
        !within_budget(fetched, again, Some(limit)) ==> !within_budget(
            (fetched + more) as u64,
            again,
            Some(limit),
        ),
{
}

} // verus!
