//! The rate-monitor decision: when does the recent mistake count cross the
//! configured threshold, and what happens to the history when it does.
//!
//! The caller owns the periodic loop, the sleeping and the rendering of the
//! alert; one call of [`monitor_tick`] per iteration makes the whole
//! decision and resets the history after an alert.

use vstd::arithmetic::div_mod::{lemma_div_is_ordered, lemma_div_multiples_vanish};
use vstd::prelude::*;

use crate::digits::{dec_digits, u64_to_digits};
use crate::keyhook::{Key, KeyHistory};
use crate::setting::MisstypeConfig;

verus! {

/// Two digits, zero padded: a minute or second count under an hour.
pub open spec fn pad2(n: int) -> Seq<u8>
    recommends
        0 <= n < 100,
{
    seq![(48 + n / 10) as u8, (48 + n % 10) as u8]
}

/// A second count rendered as `h:mm:ss`, the ASCII colon between the parts.
pub open spec fn time_str(sec: int) -> Seq<u8>
    recommends
        sec >= 0,
{
    dec_digits(sec / 3600) + seq![58u8] + pad2((sec % 3600) / 60) + seq![58u8] + pad2(sec % 60)
}

/// Renders a second count as `h:mm:ss`, for the monitor's progress
/// reporting.
pub fn make_time_str(sec: u64) -> (out: Vec<u8>)
    ensures
        out@ == time_str(sec as int),
{
    let h = sec / 3600;
    let m = (sec % 3600) / 60;
    let s = sec % 60;
    let mut out = u64_to_digits(h);
    out.push(58);
    out.push(48 + (m / 10) as u8);
    out.push(48 + (m % 10) as u8);
    out.push(58);
    out.push(48 + (s / 10) as u8);
    out.push(48 + (s % 10) as u8);
    proof {
        assert(out@ =~= time_str(sec as int));
    }
    out
}

/// The number of counted mistakes above which an alert fires: the floor of
/// `threshold * count`, with the threshold given in thousandths.
pub open spec fn spec_threshold_count(threshold: nat, count: nat) -> nat {
    (threshold * count) / 1000
}

/// Computes the alert bound `floor(threshold * count / 1000)`.
pub fn threshold_count(threshold: u32, count: usize) -> (r: usize)
    requires
        threshold <= 1000,
    ensures
        r == spec_threshold_count(threshold as nat, count as nat),
        r <= count,
{
    proof {
        assert((threshold as int) * (count as int) <= 1000 * (count as int)) by (nonlinear_arith)
            requires
                threshold <= 1000,
                count >= 0,
        ;
        lemma_div_is_ordered((threshold as int) * (count as int), 1000 * (count as int), 1000);
        lemma_div_multiples_vanish(count as int, 1000);
    }
    let prod: u128 = (threshold as u128) * (count as u128);
    (prod / 1000) as usize
}

/// One iteration of the rate monitor: reads the mistake counter, compares
/// it against the configured bound, and — exactly when the counter exceeds
/// the bound — signals an alert and resets the history so that a persisting
/// condition does not alert again at once. The caller renders the alert;
/// the reset happens whether or not that rendering succeeds.
pub fn monitor_tick(history: &mut KeyHistory, config: &MisstypeConfig) -> (alert: bool)
    requires
        old(history).wf(),
        config.wf(),
    ensures
        final(history).wf(),
        final(history).capacity() == old(history).capacity(),
        alert == (old(history).count() > spec_threshold_count(
            config.threshold() as nat,
            config.count() as nat,
        )),
        alert ==> final(history).keys() == Seq::<Key>::empty() && final(history).count() == 0,
        !alert ==> final(history).keys() == old(history).keys() && final(history).count() == old(
            history,
        ).count(),
{
    let thres_cnt = threshold_count(config.get_threshold(), config.get_count());
    let mistype_cnt = history.get_recent_mistype_cnt();
    if mistype_cnt > thres_cnt {
        history.clear();
        true
    } else {
        false
    }
}

} // verus!
