use vstd::prelude::*;

use crate::util::{round_div, rounded_div};

verus! {

/// Blocks between two halvings of the block subsidy.
pub const HALVING_INTERVAL: u64 = 210_000;

/// The last halving that is announced.
pub const MAX_HALVINGS: u64 = 32;

/// Blocks between two difficulty retargets.
pub const RETARGET_INTERVAL: u64 = 2016;

/// Blocks between two heartbeat countdown notices (about ninety days).
pub const HEARTBEAT_INTERVAL: u64 = 12_960;

/// Blocks between two authoritative refreshes of the total supply.
pub const SUPPLY_REFRESH_INTERVAL: u64 = 50_000;

/// The subsidy of the first epoch, in satoshis.
pub const INITIAL_SUBSIDY: u64 = 5_000_000_000;

/// Satoshis in one bitcoin.
pub const SATS_PER_BTC: u64 = 100_000_000;

/// A chain event worth telling subscribers about.
#[derive(Clone, Copy, Debug, PartialEq, Eq, Structural)]
pub enum Alert {
    /// A halving height was reached; `epoch` counts from one.
    HalvingReached { epoch: u64 },
    /// The subsidy of the epoch that just began, in satoshis.
    BlockReward { subsidy: u64 },
    /// `missing` blocks are left until the next halving.
    HalvingCountdown { missing: u64 },
    /// A retarget: the new difficulty and its change in hundredths of a percent.
    DifficultyAdjustment { difficulty: u64, change: i128 },
    /// The total supply reached `threshold` satoshis.
    SupplyMilestone { threshold: u64 },
    /// A new all-time high of the network hash rate, in hashes per second.
    HashrateAth { hashrate: u128 },
    /// A curated block height was reached.
    BlockReached { height: u64 },
}

/// The subsidy after `halvings` halvings, in satoshis: halved, rounding down, each time.
pub open spec fn subsidy(halvings: nat) -> u64
    decreases halvings,
{
    if halvings == 0 {
        INITIAL_SUBSIDY
    } else {
        subsidy((halvings - 1) as nat) / 2
    }
}

/// Blocks left from `height` to the next multiple of the halving interval.
pub open spec fn blocks_to_halving(height: u64) -> nat {
    (HALVING_INTERVAL - height % HALVING_INTERVAL) as nat
}

/// Whether the countdown to the next halving is announced at `height`.
pub open spec fn countdown_due(height: u64) -> bool {
    let m = blocks_to_halving(height);
    ||| m <= 1008
    ||| (m <= 4320 && m % 6 == 0)
    ||| m == 4320
    ||| (m <= 8640 && m % 144 == 0)
    ||| m == 8640
    ||| (m <= 51840 && m % 432 == 0)
    ||| m == 51840
    ||| (m <= 103680 && m % 1008 == 0)
    ||| m == 105000
    ||| (m <= 1555520 && m % 2016 == 0)
    ||| m == 1555520
    ||| height % HEARTBEAT_INTERVAL == 0
}

/// What the halving rule announces at `height`.
pub open spec fn halving_alerts(height: u64) -> Seq<Alert> {
    if height % HALVING_INTERVAL == 0 {
        let k = height / HALVING_INTERVAL;
        if k <= MAX_HALVINGS {
            seq![
                Alert::HalvingReached { epoch: (k + 1) as u64 },
                Alert::BlockReward { subsidy: subsidy(k as nat) },
            ]
        } else {
            seq![]
        }
    } else if countdown_due(height) {
        seq![Alert::HalvingCountdown { missing: blocks_to_halving(height) as u64 }]
    } else {
        seq![]
    }
}

/// The change from `prev` to `cur` in hundredths of a percent: its size rounded to
/// the nearest hundredth (a tie to the even one), with the sign of the change; zero
/// when there is no baseline to compare with.
pub open spec fn percent_change(prev: u64, cur: u64) -> int {
    if prev == 0 {
        0
    } else if cur >= prev {
        round_div(((cur - prev) * 10000) as nat, prev as nat) as int
    } else {
        -(round_div(((prev - cur) * 10000) as nat, prev as nat) as int)
    }
}

/// What the retarget rule announces at `height`, and the difficulty baseline after it.
/// The first observation is its own baseline.
pub open spec fn difficulty_rule(height: u64, difficulty: u64, last: Option<u64>) -> (
    Option<Alert>,
    Option<u64>,
) {
    if height % RETARGET_INTERVAL == 0 {
        let prev = match last {
            Some(p) => p,
            None => difficulty,
        };
        (
            Some(
                Alert::DifficultyAdjustment {
                    difficulty,
                    change: percent_change(prev, difficulty) as i128,
                },
            ),
            Some(difficulty),
        )
    } else {
        (None, last)
    }
}

/// What the hash-rate rule announces, and the all-time high after it. The first
/// observation seeds the record without an announcement.
pub open spec fn hashrate_rule(current: u128, last_ath: Option<u128>) -> (Option<Alert>, u128) {
    match last_ath {
        None => (None, current),
        Some(ath) => if current > ath {
            (Some(Alert::HashrateAth { hashrate: current }), current)
        } else {
            (None, ath)
        },
    }
}

/// One milestone for each threshold in `(prior, new]`, in the order of `thresholds`.
pub open spec fn crossed(thresholds: Seq<u64>, prior: u64, new: u64) -> Seq<Alert>
    decreases thresholds.len(),
{
    if thresholds.len() == 0 {
        seq![]
    } else {
        let rest = crossed(thresholds.drop_last(), prior, new);
        let t = thresholds.last();
        if prior < t && t <= new {
            rest.push(Alert::SupplyMilestone { threshold: t })
        } else {
            rest
        }
    }
}

/// What the block-milestone rule announces at `height`.
pub open spec fn block_alerts(height: u64, milestones: Seq<u64>, every_block: bool) -> Seq<Alert> {
    (if milestones.contains(height) {
        seq![Alert::BlockReached { height }]
    } else {
        seq![]
    }) + (if every_block {
        seq![Alert::BlockReached { height }]
    } else {
        seq![]
    })
}

proof fn lemma_subsidy_exhausted(halvings: nat)
    requires
        halvings >= 33,
    ensures
        subsidy(halvings) == 0,
    decreases halvings,
{
    if halvings == 33 {
        reveal_with_fuel(subsidy, 34);
    } else {
        lemma_subsidy_exhausted((halvings - 1) as nat);
    }
}

/// The subsidy after `halvings` halvings, in satoshis.
pub fn block_subsidy(halvings: u64) -> (r: u64)
    ensures
        r == subsidy(halvings as nat),
{
    if halvings >= 64 {
        proof {
            lemma_subsidy_exhausted(halvings as nat);
        }
        return 0;
    }
    let mut s: u64 = INITIAL_SUBSIDY;
    let mut i: u64 = 0;
    while i < halvings
        invariant
            i <= halvings,
            s == subsidy(i as nat),
        decreases halvings - i,
    {
        s = s / 2;
        i += 1;
    }
    s
}

/// Whether the countdown to the next halving is announced at `height`.
pub fn is_countdown_due(height: u64) -> (r: bool)
    ensures
        r == countdown_due(height),
{
    let m: u64 = HALVING_INTERVAL - height % HALVING_INTERVAL;
    m <= 1008 || (m <= 4320 && m % 6 == 0) || m == 4320 || (m <= 8640 && m % 144 == 0) || m
        == 8640 || (m <= 51840 && m % 432 == 0) || m == 51840 || (m <= 103680 && m % 1008 == 0)
        || m == 105000 || (m <= 1555520 && m % 2016 == 0) || m == 1555520 || height
        % HEARTBEAT_INTERVAL == 0
}

/// The halving rule: at a halving height up to the last announced one, the new
/// epoch and its block reward; elsewhere, the countdown when it is due.
pub fn halving(height: u64) -> (r: Vec<Alert>)
    ensures
        r@ == halving_alerts(height),
{
    let mut out: Vec<Alert> = Vec::new();
    if height % HALVING_INTERVAL == 0 {
        let k = height / HALVING_INTERVAL;
        if k <= MAX_HALVINGS {
            out.push(Alert::HalvingReached { epoch: k + 1 });
            out.push(Alert::BlockReward { subsidy: block_subsidy(k) });
        }
    } else if is_countdown_due(height) {
        out.push(Alert::HalvingCountdown { missing: HALVING_INTERVAL - height % HALVING_INTERVAL });
    }
    assert(out@ =~= halving_alerts(height));
    out
}

/// The change from `prev` to `cur` in hundredths of a percent, rounded toward zero.
pub fn difficulty_change(prev: u64, cur: u64) -> (r: i128)
    ensures
        r as int == percent_change(prev, cur),
{
    if prev == 0 {
        return 0;
    }
    let up = cur >= prev;
    let diff: u64 = if up {
        cur - prev
    } else {
        prev - cur
    };
    let num: u128 = (diff as u128) * 10000;
    let size = rounded_div(num, prev as u128);
    assert(size <= num) by (nonlinear_arith)
        requires
            size as int == round_div(num as nat, prev as nat),
            prev >= 1,
    {
        let q = num as int / prev as int;
        assert(q <= num as int) by (nonlinear_arith)
            requires
                q == num as int / prev as int,
                prev >= 1,
                num >= 0,
        ;
        if q == num as int {
            assert(prev == 1 || num == 0) by (nonlinear_arith)
                requires
                    q == num as int / prev as int,
                    q == num as int,
                    prev >= 1,
                    num >= 0,
            ;
        }
    }
    if up {
        size as i128
    } else {
        -(size as i128)
    }
}

/// The retarget rule: every retarget height announces the new difficulty and its
/// change from the last one seen, which it then replaces.
pub fn difficulty_adjustment(height: u64, difficulty: u64, last: Option<u64>) -> (r: (
    Option<Alert>,
    Option<u64>,
))
    ensures
        r == difficulty_rule(height, difficulty, last),
{
    if height % RETARGET_INTERVAL == 0 {
        let prev = match last {
            Some(p) => p,
            None => difficulty,
        };
        let change = difficulty_change(prev, difficulty);
        (Some(Alert::DifficultyAdjustment { difficulty, change }), Some(difficulty))
    } else {
        (None, last)
    }
}

/// The hash-rate rule: a strictly higher rate than the record is announced and
/// becomes the record.
pub fn hashrate(current: u128, last_ath: Option<u128>) -> (r: (Option<Alert>, u128))
    ensures
        r == hashrate_rule(current, last_ath),
{
    match last_ath {
        None => (None, current),
        Some(ath) => if current > ath {
            (Some(Alert::HashrateAth { hashrate: current }), current)
        } else {
            (None, ath)
        },
    }
}

/// The supply milestones passed on the way from `prior` to `new`.
pub fn supply_milestones(thresholds: &Vec<u64>, prior: u64, new: u64) -> (r: Vec<Alert>)
    ensures
        r@ == crossed(thresholds@, prior, new),
{
    let mut out: Vec<Alert> = Vec::new();
    let mut i: usize = 0;
    while i < thresholds.len()
        invariant
            i <= thresholds@.len(),
            out@ == crossed(thresholds@.subrange(0, i as int), prior, new),
        decreases thresholds.len() - i,
    {
        let t = thresholds[i];
        proof {
            assert(thresholds@.subrange(0, i + 1).drop_last() =~= thresholds@.subrange(0, i as int));
        }
        if prior < t && t <= new {
            out.push(Alert::SupplyMilestone { threshold: t });
        }
        i += 1;
    }
    assert(thresholds@.subrange(0, thresholds@.len() as int) =~= thresholds@);
    out
}

/// The block-milestone rule: a curated height is announced, and on a test network
/// every height is.
pub fn block(height: u64, milestones: &Vec<u64>, every_block: bool) -> (r: Vec<Alert>)
    ensures
        r@ == block_alerts(height, milestones@, every_block),
{
    let mut out: Vec<Alert> = Vec::new();
    let mut found = false;
    let mut i: usize = 0;
    while i < milestones.len()
        invariant
            i <= milestones@.len(),
            found == (exists|j: int| 0 <= j < i && milestones@[j] == height),
        decreases milestones.len() - i,
    {
        if milestones[i] == height {
            found = true;
        }
        i += 1;
    }
    if found {
        out.push(Alert::BlockReached { height });
    }
    if every_block {
        out.push(Alert::BlockReached { height });
    }
    proof {
        if milestones@.contains(height) {
            let j = choose|j: int| 0 <= j < milestones@.len() && milestones@[j] == height;
            assert(found);
        }
    }
    assert(out@ =~= block_alerts(height, milestones@, every_block));
    out
}

/// The total supply reported by the node at some height, in satoshis.
#[derive(Clone, Copy, Debug, PartialEq, Eq, Structural)]
pub struct SupplySnapshot {
    pub height: u64,
    pub total: u64,
}

/// `a + b`, capped at the largest `u64`.
pub open spec fn sat_add(a: u64, b: int) -> u64 {
    if a + b > u64::MAX {
        u64::MAX
    } else {
        (a + b) as u64
    }
}

/// `a - b`, floored at zero.
pub open spec fn sat_sub(a: u64, b: int) -> u64 {
    if a >= b {
        (a - b) as u64
    } else {
        0
    }
}

/// Whether the supply must be read afresh from the node at `height`.
pub open spec fn supply_refresh_due(height: u64, last_supply: Option<u64>) -> bool {
    height % SUPPLY_REFRESH_INTERVAL == 0 || last_supply is None
}

/// The supply at `height` from a snapshot taken at another height, moved by one
/// block reward per block of difference.
pub open spec fn adjusted_supply(snapshot: SupplySnapshot, height: u64) -> u64 {
    let reward = subsidy((height / HALVING_INTERVAL) as nat);
    if snapshot.height >= height {
        sat_sub(snapshot.total, (snapshot.height - height) * reward)
    } else {
        sat_add(snapshot.total, (height - snapshot.height) * reward)
    }
}

/// The supply rule at `height`: the new supply estimate and the milestones crossed
/// since the last one, or nothing when a refresh is due and no snapshot was given.
/// Without a previous estimate, the supply one reward ago is the baseline.
pub open spec fn supply_rule(
    height: u64,
    last_supply: Option<u64>,
    snapshot: Option<SupplySnapshot>,
    thresholds: Seq<u64>,
) -> Option<(Seq<Alert>, u64)> {
    let reward = subsidy((height / HALVING_INTERVAL) as nat);
    let new = if supply_refresh_due(height, last_supply) {
        match snapshot {
            Some(s) => Some(adjusted_supply(s, height)),
            None => None,
        }
    } else {
        Some(sat_add(last_supply->0, reward as int))
    };
    match new {
        None => None,
        Some(n) => {
            let prior = match last_supply {
                Some(p) => p,
                None => sat_sub(n, reward as int),
            };
            Some((crossed(thresholds, prior, n), n))
        },
    }
}

/// Whether the supply must be read afresh from the node at `height`.
pub fn needs_supply_snapshot(height: u64, last_supply: Option<u64>) -> (r: bool)
    ensures
        r == supply_refresh_due(height, last_supply),
{
    height % SUPPLY_REFRESH_INTERVAL == 0 || last_supply.is_none()
}

fn saturating_add(a: u64, b: u128) -> (r: u64)
    ensures
        r == sat_add(a, b as int),
{
    if (a as u128) >= u128::MAX - b || (a as u128) + b > u64::MAX as u128 {
        u64::MAX
    } else {
        (a as u128 + b) as u64
    }
}

fn saturating_sub(a: u64, b: u128) -> (r: u64)
    ensures
        r == sat_sub(a, b as int),
{
    if (a as u128) >= b {
        (a as u128 - b) as u64
    } else {
        0
    }
}

/// The supply at `height` estimated from a snapshot taken at another height.
pub fn supply_at(snapshot: SupplySnapshot, height: u64) -> (r: u64)
    ensures
        r == adjusted_supply(snapshot, height),
{
    let reward = block_subsidy(height / HALVING_INTERVAL);
    if snapshot.height >= height {
        let skew = (snapshot.height - height) as u128;
        assert(skew * reward <= 18446744073709551615u128 * 18446744073709551615u128)
            by (nonlinear_arith)
            requires
                skew <= 18446744073709551615u128,
                reward <= 18446744073709551615u64,
        ;
        saturating_sub(snapshot.total, skew * (reward as u128))
    } else {
        let skew = (height - snapshot.height) as u128;
        assert(skew * reward <= 18446744073709551615u128 * 18446744073709551615u128)
            by (nonlinear_arith)
            requires
                skew <= 18446744073709551615u128,
                reward <= 18446744073709551615u64,
        ;
        saturating_add(snapshot.total, skew * (reward as u128))
    }
}

/// The supply rule: refresh the estimate from `snapshot` when due, else add one
/// block reward, and announce every threshold crossed on the way.
pub fn supply(
    height: u64,
    last_supply: Option<u64>,
    snapshot: Option<SupplySnapshot>,
    thresholds: &Vec<u64>,
) -> (r: Option<(Vec<Alert>, u64)>)
    ensures
        match r {
            Some((alerts, new)) => supply_rule(height, last_supply, snapshot, thresholds@) == Some(
                (alerts@, new),
            ),
            None => supply_rule(height, last_supply, snapshot, thresholds@) is None,
        },
{
    let reward = block_subsidy(height / HALVING_INTERVAL);
    let new = if needs_supply_snapshot(height, last_supply) {
        match snapshot {
            Some(s) => supply_at(s, height),
            None => {
                return None;
            },
        }
    } else {
        match last_supply {
            Some(p) => saturating_add(p, reward as u128),
            None => {
                return None;
            },
        }
    };
    let prior = match last_supply {
        Some(p) => p,
        None => saturating_sub(new, reward as u128),
    };
    let alerts = supply_milestones(thresholds, prior, new);
    Some((alerts, new))
}

/// At each announced halving height exactly two alerts come out, the new epoch and
/// its block reward, and each epoch's reward is half the one before, rounded down
/// to the satoshi.
pub proof fn lemma_halving_announced(height: u64)
    requires
        height % HALVING_INTERVAL == 0,
        height / HALVING_INTERVAL <= MAX_HALVINGS,
    ensures
        halving_alerts(height).len() == 2,
        halving_alerts(height)[0] == (Alert::HalvingReached {
            epoch: (height / HALVING_INTERVAL + 1) as u64,
        }),
        halving_alerts(height)[1] == (Alert::BlockReward {
            subsidy: subsidy((height / HALVING_INTERVAL) as nat),
        }),
        height >= HALVING_INTERVAL ==> subsidy((height / HALVING_INTERVAL) as nat) == subsidy(
            (height / HALVING_INTERVAL - 1) as nat,
        ) / 2,
{
}

/// The notice interval of the innermost countdown tier that holds `missing` blocks.
pub open spec fn tier_interval(missing: nat) -> nat {
    if missing <= 1008 {
        1
    } else if missing <= 4320 {
        6
    } else if missing <= 8640 {
        144
    } else if missing <= 51840 {
        432
    } else if missing <= 103680 {
        1008
    } else {
        2016
    }
}

/// The countdown never thins out as the halving approaches: fewer blocks left
/// means a tier whose interval is no longer, and every block whose distance is a
/// multiple of its tier's interval is announced.
pub proof fn lemma_countdown_cadence(near: u64, far: u64)
    requires
        near % HALVING_INTERVAL != 0,
        far % HALVING_INTERVAL != 0,
    ensures
        blocks_to_halving(near) <= blocks_to_halving(far) ==> tier_interval(blocks_to_halving(near))
            <= tier_interval(blocks_to_halving(far)),
        blocks_to_halving(near) % tier_interval(blocks_to_halving(near)) == 0 ==> halving_alerts(
            near,
        ) == seq![Alert::HalvingCountdown { missing: blocks_to_halving(near) as u64 }],
{
}

/// A retarget is announced exactly at multiples of the retarget interval, and the
/// first one ever seen reports no change.
pub proof fn lemma_retarget_announced(height: u64, difficulty: u64, last: Option<u64>)
    ensures
        difficulty_rule(height, difficulty, last).0 is Some <==> height % RETARGET_INTERVAL == 0,
        height % RETARGET_INTERVAL == 0 && last is None ==> difficulty_rule(
            height,
            difficulty,
            last,
        ).0 == Some(Alert::DifficultyAdjustment { difficulty, change: 0 }),
{
}

/// The hash-rate record is announced exactly when it is beaten strictly; the first
/// observation only seeds it.
pub proof fn lemma_hashrate_record(current: u128, last_ath: Option<u128>)
    ensures
        hashrate_rule(current, None).0 is None,
        hashrate_rule(current, None).1 == current,
        last_ath is Some ==> (hashrate_rule(current, last_ath).0 is Some <==> current
            > last_ath->0),
{
}

proof fn lemma_crossed_members(thresholds: Seq<u64>, prior: u64, new: u64, i: int)
    requires
        0 <= i < crossed(thresholds, prior, new).len(),
    ensures
        exists|j: int|
            0 <= j < thresholds.len() && crossed(thresholds, prior, new)[i]
                == (Alert::SupplyMilestone { threshold: #[trigger] thresholds[j] }) && prior
                < thresholds[j] <= new,
    decreases thresholds.len(),
{
    let rest = crossed(thresholds.drop_last(), prior, new);
    if i < rest.len() {
        lemma_crossed_members(thresholds.drop_last(), prior, new, i);
        let j = choose|j: int|
            0 <= j < thresholds.drop_last().len() && rest[i] == (Alert::SupplyMilestone {
                threshold: #[trigger] thresholds.drop_last()[j],
            }) && prior < thresholds.drop_last()[j] <= new;
        assert(thresholds[j] == thresholds.drop_last()[j]);
    } else {
        let j = thresholds.len() - 1;
        assert(thresholds[j] == thresholds.last());
    }
}

/// With ascending thresholds, the milestones announced for a move of the supply
/// from `prior` to `new` are exactly the thresholds in `(prior, new]`, each once, so
/// a jump past several announces all of them in one evaluation; an unchanged supply
/// announces nothing.
pub proof fn lemma_supply_crossing(thresholds: Seq<u64>, prior: u64, new: u64)
    requires
        forall|i: int, j: int|
            0 <= i < j < thresholds.len() ==> #[trigger] thresholds[i] < #[trigger] thresholds[j],
    ensures
        forall|t: u64|
            #![trigger crossed(thresholds, prior, new).contains(Alert::SupplyMilestone { threshold: t })]
            #![trigger thresholds.contains(t)]
            crossed(thresholds, prior, new).contains(Alert::SupplyMilestone { threshold: t }) <==> (
            thresholds.contains(t) && prior < t <= new),
        crossed(thresholds, prior, new).no_duplicates(),
        crossed(thresholds, new, new).len() == 0,
    decreases thresholds.len(),
{
    if thresholds.len() > 0 {
        let init = thresholds.drop_last();
        let last = thresholds.last();
        lemma_supply_crossing(init, prior, new);
        let rest = crossed(init, prior, new);
        assert forall|t: u64|
            crossed(thresholds, prior, new).contains(Alert::SupplyMilestone { threshold: t }) <==> (
            thresholds.contains(t) && prior < t <= new) by {
            if thresholds.contains(t) && prior < t <= new {
                let j = choose|j: int| 0 <= j < thresholds.len() && thresholds[j] == t;
                if j < thresholds.len() - 1 {
                    assert(init[j] == t);
                    assert(init.contains(t));
                    let a = choose|a: int|
                        0 <= a < rest.len() && rest[a] == (Alert::SupplyMilestone { threshold: t });
                    assert(crossed(thresholds, prior, new)[a] == rest[a]);
                } else {
                    let c = crossed(thresholds, prior, new);
                    assert(c[c.len() - 1] == (Alert::SupplyMilestone { threshold: t }));
                }
            }
            if crossed(thresholds, prior, new).contains(Alert::SupplyMilestone { threshold: t }) {
                let c = crossed(thresholds, prior, new);
                let a = choose|a: int| 0 <= a < c.len() && c[a] == (Alert::SupplyMilestone { threshold: t });
                lemma_crossed_members(thresholds, prior, new, a);
            }
        }
        assert forall|a: int, b: int|
            0 <= a < b < crossed(thresholds, prior, new).len() implies crossed(
            thresholds,
            prior,
            new,
        )[a] != crossed(thresholds, prior, new)[b] by {
            let c = crossed(thresholds, prior, new);
            if b < rest.len() {
                assert(c[a] == rest[a] && c[b] == rest[b]);
            } else {
                lemma_crossed_members(init, prior, new, a);
                let j = choose|j: int|
                    0 <= j < init.len() && rest[a] == (Alert::SupplyMilestone {
                        threshold: #[trigger] init[j],
                    }) && prior < init[j] <= new;
                assert(thresholds[j] == init[j]);
                assert(thresholds[j] < thresholds[thresholds.len() - 1]);
            }
        }
    }
}

/// When each evaluation starts where the last one ended, no milestone is announced
/// twice.
pub proof fn lemma_supply_fires_once(thresholds: Seq<u64>, a: u64, b: u64, c: u64, t: u64)
    requires
        a <= b <= c,
    ensures
        !(crossed(thresholds, a, b).contains(Alert::SupplyMilestone { threshold: t })
            && crossed(thresholds, b, c).contains(Alert::SupplyMilestone { threshold: t })),
{
    if crossed(thresholds, a, b).contains(Alert::SupplyMilestone { threshold: t })
        && crossed(thresholds, b, c).contains(Alert::SupplyMilestone { threshold: t }) {
        let x = crossed(thresholds, a, b);
        let y = crossed(thresholds, b, c);
        let i = choose|i: int| 0 <= i < x.len() && x[i] == (Alert::SupplyMilestone { threshold: t });
        let k = choose|k: int| 0 <= k < y.len() && y[k] == (Alert::SupplyMilestone { threshold: t });
        lemma_crossed_members(thresholds, a, b, i);
        lemma_crossed_members(thresholds, b, c, k);
    }
}

} // verus!
