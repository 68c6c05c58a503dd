use vstd::prelude::*;
use vstd::string::StringExecFns;

use crate::rules::Alert;
use crate::util::{
    decimal, digit_str, digit_text, grouped, push_decimal, push_grouped, round_div, rounded_div,
};

verus! {

/// `v` hundredths written with two decimals (`1234` reads `12.34`).
pub open spec fn fixed2(v: nat) -> Seq<char> {
    decimal(v / 100) + "."@ + digit_text((v / 10) % 10) + digit_text(v % 10)
}

/// A signed amount of hundredths written with two decimals.
pub open spec fn signed_fixed2(v: int) -> Seq<char> {
    if v < 0 {
        "-"@ + fixed2((-v) as nat)
    } else {
        fixed2(v as nat)
    }
}

/// The English ordinal suffix used for an epoch number.
pub open spec fn ordinal_suffix(n: u64) -> Seq<char> {
    if n == 1 || n == 21 || n == 31 {
        "st"@
    } else if n == 2 || n == 22 || n == 32 {
        "nd"@
    } else if n == 3 || n == 23 || n == 33 {
        "rd"@
    } else {
        "th"@
    }
}

/// An amount of satoshis in hundredths of a bitcoin, rounded to the nearest (a tie
/// to the even one).
pub open spec fn btc_hundredths(sats: u64) -> nat {
    round_div(sats as nat, 1_000_000)
}

/// The text that announces an alert.
pub open spec fn alert_text(a: Alert) -> Seq<char> {
    match a {
        Alert::HalvingReached { epoch } => "\u{26cf}\u{fe0f} The Halving is here! Welcome to the "@
            + decimal(epoch as nat) + ordinal_suffix(epoch) + " epoch! \u{26cf}\u{fe0f}"@,
        Alert::BlockReward { subsidy } => "\u{26cf}\u{fe0f} New block reward: "@ + fixed2(
            btc_hundredths(subsidy),
        ) + " BTC \u{26cf}\u{fe0f}"@,
        Alert::HalvingCountdown { missing } => "\u{1f525} "@ + grouped(missing as nat)
            + " blocks to the next Halving \u{1f525}"@,
        Alert::DifficultyAdjustment { difficulty, change } => "\u{26cf}\u{fe0f} Difficulty adj: "@
            + fixed2(round_div(difficulty as nat, 10_000_000_000)) + "T ("@ + signed_fixed2(change as int)
            + "%) \u{26cf}\u{fe0f}"@,
        Alert::SupplyMilestone { threshold } => "\u{1f38a} The supply has just reached "@ + grouped(
            (threshold / 100_000_000) as nat,
        ) + " BTC \u{1f38a}"@,
        Alert::HashrateAth { hashrate } => "\u{1f389}  New hashrate ATH: "@ + fixed2(
            round_div(hashrate as nat, 10_000_000_000_000_000),
        ) + " EH/s \u{1f389}"@,
        Alert::BlockReached { height } => "\u{26d3}\u{fe0f} Reached block "@ + grouped(
            height as nat,
        ) + " \u{26d3}\u{fe0f}"@,
    }
}

fn push_fixed2(s: &mut String, v: u128)
    ensures
        final(s)@ == old(s)@ + fixed2(v as nat),
{
    push_decimal(s, v / 100);
    s.append(".");
    s.append(digit_str((v / 10) % 10));
    s.append(digit_str(v % 10));
    assert(final(s)@ =~= old(s)@ + fixed2(v as nat));
}

fn push_signed_fixed2(s: &mut String, v: i128)
    ensures
        final(s)@ == old(s)@ + signed_fixed2(v as int),
{
    if v < 0 {
        s.append("-");
        let magnitude: u128 = (-(v + 1)) as u128 + 1;
        push_fixed2(s, magnitude);
        assert(final(s)@ =~= old(s)@ + signed_fixed2(v as int));
    } else {
        push_fixed2(s, v as u128);
    }
}

fn ordinal_suffix_str(n: u64) -> (r: &'static str)
    ensures
        r@ == ordinal_suffix(n),
{
    if n == 1 || n == 21 || n == 31 {
        "st"
    } else if n == 2 || n == 22 || n == 32 {
        "nd"
    } else if n == 3 || n == 23 || n == 33 {
        "rd"
    } else {
        "th"
    }
}

impl Alert {
    /// The text that announces this alert.
    pub fn text(&self) -> (r: String)
        ensures
            r@ == alert_text(*self),
    {
        let mut s = String::new();
        match *self {
            Alert::HalvingReached { epoch } => {
                s.append("\u{26cf}\u{fe0f} The Halving is here! Welcome to the ");
                push_decimal(&mut s, epoch as u128);
                s.append(ordinal_suffix_str(epoch));
                s.append(" epoch! \u{26cf}\u{fe0f}");
            },
            Alert::BlockReward { subsidy } => {
                s.append("\u{26cf}\u{fe0f} New block reward: ");
                push_fixed2(&mut s, rounded_div(subsidy as u128, 1_000_000));
                s.append(" BTC \u{26cf}\u{fe0f}");
            },
            Alert::HalvingCountdown { missing } => {
                s.append("\u{1f525} ");
                push_grouped(&mut s, missing as u128);
                s.append(" blocks to the next Halving \u{1f525}");
            },
            Alert::DifficultyAdjustment { difficulty, change } => {
                s.append("\u{26cf}\u{fe0f} Difficulty adj: ");
                push_fixed2(&mut s, rounded_div(difficulty as u128, 10_000_000_000));
                s.append("T (");
                push_signed_fixed2(&mut s, change);
                s.append("%) \u{26cf}\u{fe0f}");
            },
            Alert::SupplyMilestone { threshold } => {
                s.append("\u{1f38a} The supply has just reached ");
                push_grouped(&mut s, (threshold / 100_000_000) as u128);
                s.append(" BTC \u{1f38a}");
            },
            Alert::HashrateAth { hashrate } => {
                s.append("\u{1f389}  New hashrate ATH: ");
                push_fixed2(&mut s, rounded_div(hashrate, 10_000_000_000_000_000));
                s.append(" EH/s \u{1f389}");
            },
            Alert::BlockReached { height } => {
                s.append("\u{26d3}\u{fe0f} Reached block ");
                push_grouped(&mut s, height as u128);
                s.append(" \u{26d3}\u{fe0f}");
            },
        }
        assert(s@ =~= alert_text(*self));
        s
    }
}

} // verus!
