use vstd::prelude::*;

use crate::message::alert_text;
use crate::notification::{notification_id, NotificationStore, NotificationView};
use crate::primitives::Target;
use crate::rules::{
    block, block_alerts, crossed, sat_sub, subsidy, HALVING_INTERVAL, MAX_HALVINGS,
    RETARGET_INTERVAL, difficulty_adjustment, difficulty_rule, halving, halving_alerts,
    hashrate, hashrate_rule, needs_supply_snapshot, supply, supply_refresh_due, supply_rule, Alert,
    SupplySnapshot,
};

verus! {

/// Seconds to wait before asking the node again when there is nothing to do.
pub const POLL_SECONDS: u64 = 60;

/// The first retry delay after a failed block, in seconds.
pub const RETRY_FLOOR_SECONDS: u64 = 30;

/// A retry delay above this many seconds gives up.
pub const RETRY_CEILING_SECONDS: u64 = 3600;

/// What the processor announces and where.
pub struct AlertConfig {
    /// Queue notifications for the push channel.
    pub ntfy_enabled: bool,
    /// Queue notifications for the relay channel.
    pub nostr_enabled: bool,
    /// Announce every block (on a test network).
    pub every_block: bool,
    /// Block heights that are announced when reached.
    pub block_milestones: Vec<u64>,
    /// Supply amounts, in satoshis, that are announced when crossed.
    pub supply_milestones: Vec<u64>,
}

/// What a configuration holds, as mathematical values.
pub ghost struct AlertConfigView {
    pub ntfy_enabled: bool,
    pub nostr_enabled: bool,
    pub every_block: bool,
    pub block_milestones: Seq<u64>,
    pub supply_milestones: Seq<u64>,
}

impl View for AlertConfig {
    type V = AlertConfigView;

    open spec fn view(&self) -> AlertConfigView {
        AlertConfigView {
            ntfy_enabled: self.ntfy_enabled,
            nostr_enabled: self.nostr_enabled,
            every_block: self.every_block,
            block_milestones: self.block_milestones@,
            supply_milestones: self.supply_milestones@,
        }
    }
}

/// The heights announced on the main network.
pub fn default_block_milestones() -> (r: Vec<u64>)
    ensures
        r@ == seq![
            840_000u64,
            850_000,
            888_888,
            900_000,
            950_000,
            999_999,
            1_000_000,
            1_111_111,
        ],
{
    let r = vec![840_000, 850_000, 888_888, 900_000, 950_000, 999_999, 1_000_000, 1_111_111];
    assert(r@ =~= seq![840_000u64, 850_000, 888_888, 900_000, 950_000, 999_999, 1_000_000, 1_111_111]);
    r
}

/// Supply amounts from 19,200,000 to 20,000,000 bitcoin by steps of 100,000, in satoshis.
pub fn default_supply_milestones() -> (r: Vec<u64>)
    ensures
        r@.len() == 9,
        forall|i: int| 0 <= i < 9 ==> #[trigger] r@[i] == (19_200_000 + 100_000 * i) * 100_000_000,
{
    let mut r: Vec<u64> = Vec::new();
    let mut i: u64 = 0;
    while i < 9
        invariant
            i <= 9,
            r@.len() == i,
            forall|j: int| 0 <= j < i ==> #[trigger] r@[j] == (19_200_000 + 100_000 * j) * 100_000_000,
        decreases 9 - i,
    {
        r.push((19_200_000 + 100_000 * i) * 100_000_000);
        i += 1;
    }
    r
}

/// The chain statistics the rules compare against, each kept on its own.
#[derive(Clone, Copy, Debug, PartialEq, Eq, Structural)]
pub struct NetworkStats {
    /// The highest height whose events were all evaluated and queued.
    pub last_processed_block: Option<u64>,
    /// The difficulty at the last retarget.
    pub last_difficulty: Option<u64>,
    /// The last estimate of the total supply, in satoshis.
    pub last_supply: Option<u64>,
    /// The highest hash rate seen, in hashes per second.
    pub last_hashrate_ath: Option<u128>,
}

/// What the node reports about mining, in whole units.
#[derive(Clone, Copy, Debug, PartialEq, Eq, Structural)]
pub struct MiningInfo {
    pub difficulty: u64,
    pub network_hash_ps: u128,
}

/// An optional alert as a sequence of zero or one alerts.
pub open spec fn optional(a: Option<Alert>) -> Seq<Alert> {
    match a {
        Some(x) => seq![x],
        None => seq![],
    }
}

/// Every rule evaluated at `height`, in order (halving, retarget, supply, hash rate,
/// block), with the statistics that follow; nothing when the supply rule needs a
/// snapshot that was not given.
pub open spec fn evaluate_block(
    config: AlertConfigView,
    stats: NetworkStats,
    height: u64,
    mining: MiningInfo,
    snapshot: Option<SupplySnapshot>,
) -> Option<(Seq<Alert>, NetworkStats)> {
    let d = difficulty_rule(height, mining.difficulty, stats.last_difficulty);
    let h = hashrate_rule(mining.network_hash_ps, stats.last_hashrate_ath);
    match supply_rule(height, stats.last_supply, snapshot, config.supply_milestones) {
        None => None,
        Some((supply_alerts, new_supply)) => Some(
            (
                halving_alerts(height) + optional(d.0) + supply_alerts + optional(h.0)
                    + block_alerts(height, config.block_milestones, config.every_block),
                NetworkStats {
                    last_processed_block: stats.last_processed_block,
                    last_difficulty: d.1,
                    last_supply: Some(new_supply),
                    last_hashrate_ath: Some(h.1),
                },
            ),
        ),
    }
}

/// The store after queuing `text` for one channel.
pub open spec fn enqueued(
    m: Map<Seq<char>, NotificationView>,
    target: Target,
    text: Seq<char>,
) -> Map<Seq<char>, NotificationView> {
    m.insert(
        notification_id(target, text, text),
        NotificationView { target, plain_text: text, html: text },
    )
}

/// The store after queuing `text` for every enabled channel.
pub open spec fn fan_out(
    m: Map<Seq<char>, NotificationView>,
    config: AlertConfigView,
    text: Seq<char>,
) -> Map<Seq<char>, NotificationView> {
    let m1 = if config.ntfy_enabled {
        enqueued(m, Target::Ntfy, text)
    } else {
        m
    };
    if config.nostr_enabled {
        enqueued(m1, Target::Nostr, text)
    } else {
        m1
    }
}

/// The store after queuing each alert's text, in order, for every enabled channel.
pub open spec fn fan_out_all(
    m: Map<Seq<char>, NotificationView>,
    config: AlertConfigView,
    alerts: Seq<Alert>,
) -> Map<Seq<char>, NotificationView>
    decreases alerts.len(),
{
    if alerts.len() == 0 {
        m
    } else {
        fan_out(fan_out_all(m, config, alerts.drop_last()), config, alert_text(alerts.last()))
    }
}

proof fn lemma_fan_out_overlays(
    m: Map<Seq<char>, NotificationView>,
    config: AlertConfigView,
    alerts: Seq<Alert>,
)
    ensures
        fan_out_all(m, config, alerts) == m.union_prefer_right(
            fan_out_all(Map::empty(), config, alerts),
        ),
    decreases alerts.len(),
{
    if alerts.len() == 0 {
        assert(m.union_prefer_right(Map::empty()) =~= m);
    } else {
        let init = alerts.drop_last();
        let text = alert_text(alerts.last());
        lemma_fan_out_overlays(m, config, init);
        let f = fan_out_all(Map::<Seq<char>, NotificationView>::empty(), config, init);
        let a = m.union_prefer_right(f);
        let ka = notification_id(Target::Ntfy, text, text);
        let va = NotificationView { target: Target::Ntfy, plain_text: text, html: text };
        let kb = notification_id(Target::Nostr, text, text);
        let vb = NotificationView { target: Target::Nostr, plain_text: text, html: text };
        assert(a.insert(ka, va) =~= m.union_prefer_right(f.insert(ka, va)));
        assert(a.insert(kb, vb) =~= m.union_prefer_right(f.insert(kb, vb)));
        assert(a.insert(ka, va).insert(kb, vb) =~= m.union_prefer_right(
            f.insert(ka, va).insert(kb, vb),
        ));
    }
}

/// Evaluating a height again, as after a restart whose commit did not land, queues
/// nothing new: queuing the same alerts twice leaves the store as queuing them once.
pub proof fn lemma_requeue_is_harmless(
    m: Map<Seq<char>, NotificationView>,
    config: AlertConfigView,
    alerts: Seq<Alert>,
)
    ensures
        fan_out_all(fan_out_all(m, config, alerts), config, alerts) == fan_out_all(
            m,
            config,
            alerts,
        ),
{
    let f = fan_out_all(Map::<Seq<char>, NotificationView>::empty(), config, alerts);
    lemma_fan_out_overlays(m, config, alerts);
    lemma_fan_out_overlays(fan_out_all(m, config, alerts), config, alerts);
    assert(m.union_prefer_right(f).union_prefer_right(f) =~= m.union_prefer_right(f));
}

/// Evaluates every rule at `height` against `stats`.
pub fn evaluate(
    config: &AlertConfig,
    stats: &NetworkStats,
    height: u64,
    mining: &MiningInfo,
    snapshot: Option<SupplySnapshot>,
) -> (r: Option<(Vec<Alert>, NetworkStats)>)
    ensures
        match r {
            Some((alerts, next)) => evaluate_block(config@, *stats, height, *mining, snapshot)
                == Some((alerts@, next)),
            None => evaluate_block(config@, *stats, height, *mining, snapshot) is None,
        },
{
    let (supply_alerts, new_supply) = match supply(
        height,
        stats.last_supply,
        snapshot,
        &config.supply_milestones,
    ) {
        Some(x) => x,
        None => {
            return None;
        },
    };
    let (difficulty_alert, last_difficulty) = difficulty_adjustment(
        height,
        mining.difficulty,
        stats.last_difficulty,
    );
    let (hashrate_alert, ath) = hashrate(mining.network_hash_ps, stats.last_hashrate_ath);
    let mut alerts = halving(height);
    if let Some(a) = difficulty_alert {
        alerts.push(a);
    }
    let mut supply_alerts = supply_alerts;
    alerts.append(&mut supply_alerts);
    if let Some(a) = hashrate_alert {
        alerts.push(a);
    }
    let mut block_alerts_found = block(height, &config.block_milestones, config.every_block);
    alerts.append(&mut block_alerts_found);
    let next = NetworkStats {
        last_processed_block: stats.last_processed_block,
        last_difficulty,
        last_supply: Some(new_supply),
        last_hashrate_ath: Some(ath),
    };
    proof {
        let e = evaluate_block(config@, *stats, height, *mining, snapshot);
        let (expected, _) = e->0;
        assert(alerts@ =~= expected);
    }
    Some((alerts, next))
}

/// Queues `text` for every enabled channel.
pub fn queue_notification(config: &AlertConfig, store: &mut NotificationStore, text: &str)
    requires
        old(store).wf(),
    ensures
        final(store).wf(),
        final(store)@ == fan_out(old(store)@, config@, text@),
{
    if config.ntfy_enabled {
        store.create_notification(Target::Ntfy, text, text);
    }
    if config.nostr_enabled {
        store.create_notification(Target::Nostr, text, text);
    }
}

/// Queues the text of each alert, in order, for every enabled channel.
pub fn queue_alerts(config: &AlertConfig, store: &mut NotificationStore, alerts: &Vec<Alert>)
    requires
        old(store).wf(),
    ensures
        final(store).wf(),
        final(store)@ == fan_out_all(old(store)@, config@, alerts@),
{
    let ghost start = store@;
    let mut i: usize = 0;
    while i < alerts.len()
        invariant
            i <= alerts@.len(),
            store.wf(),
            store@ == fan_out_all(start, config@, alerts@.subrange(0, i as int)),
        decreases alerts.len() - i,
    {
        let text = alerts[i].text();
        queue_notification(config, store, text.as_str());
        proof {
            assert(alerts@.subrange(0, i + 1).drop_last() =~= alerts@.subrange(0, i as int));
        }
        i += 1;
    }
    assert(alerts@.subrange(0, alerts@.len() as int) =~= alerts@);
}

/// What the polling loop does next.
#[derive(Clone, Copy, Debug, PartialEq, Eq, Structural)]
pub enum Step {
    /// Nothing to do: ask again after this many seconds.
    Wait { seconds: u64 },
    /// Evaluate the rules at this height.
    Process { height: u64 },
}

/// What follows the evaluation of one block.
#[derive(Clone, Copy, Debug, PartialEq, Eq, Structural)]
pub enum Outcome {
    /// The block is done: go on at once.
    Continue,
    /// The block failed: try again after this many seconds.
    Retry { seconds: u64 },
    /// Failures went on past the retry ceiling: stop the process.
    Fatal,
}

/// Why a block could not be evaluated.
#[derive(Clone, Copy, Debug, PartialEq, Eq, Structural)]
pub enum ProcessError {
    /// No height was handed out by `next_step`.
    NoPendingBlock,
    /// The supply rule needs a fresh snapshot and none was given.
    SupplySnapshotMissing,
}

/// The block processor: it advances through the chain one height at a time and
/// backs off exponentially when a height fails.
pub struct Processor {
    config: AlertConfig,
    stats: NetworkStats,
    pending: Option<u64>,
    delay: u64,
}

/// The state of a processor, as mathematical values.
pub ghost struct ProcessorView {
    pub config: AlertConfigView,
    pub stats: NetworkStats,
    /// The height handed out for evaluation, if any.
    pub pending: Option<u64>,
    /// The current retry delay in seconds.
    pub delay: u64,
}

impl ProcessorView {
    /// A pending height is the one after the processed height, and the retry
    /// delay stays between its floor and twice its ceiling.
    pub open spec fn wf(self) -> bool {
        &&& RETRY_FLOOR_SECONDS <= self.delay <= 2 * RETRY_CEILING_SECONDS
        &&& match self.pending {
            Some(h) => self.stats.last_processed_block == Some((h - 1) as u64) && h >= 1,
            None => true,
        }
    }

    /// The same configuration with new statistics, pending height and delay.
    pub open spec fn with(self, stats: NetworkStats, pending: Option<u64>, delay: u64) -> Self {
        ProcessorView { config: self.config, stats, pending, delay }
    }
}

/// The statistics with `height` as the processed height.
pub open spec fn with_processed(stats: NetworkStats, height: u64) -> NetworkStats {
    NetworkStats { last_processed_block: Some(height), ..stats }
}

/// The next step for a chain tip (`None` when the node could not be asked), and
/// the state after it. The first tip seen becomes the processed height, so no
/// backlog is replayed.
pub open spec fn next_step_spec(v: ProcessorView, tip: Option<u64>) -> (Step, ProcessorView) {
    let wait = Step::Wait { seconds: POLL_SECONDS };
    match tip {
        None => (wait, v.with(v.stats, None, v.delay)),
        Some(t) => match v.stats.last_processed_block {
            None => (wait, v.with(with_processed(v.stats, t), None, v.delay)),
            Some(p) => if t <= p {
                (wait, v.with(v.stats, None, v.delay))
            } else {
                (Step::Process { height: (p + 1) as u64 }, v.with(v.stats, Some((p + 1) as u64), v.delay))
            },
        },
    }
}

/// What follows a block that `succeeded` or not, and the state after it. Success
/// commits the pending height and resets the delay; failure past the ceiling is
/// fatal, and otherwise waits the delay and doubles it.
pub open spec fn finish_spec(v: ProcessorView, succeeded: bool) -> (Outcome, ProcessorView) {
    if succeeded {
        let stats = match v.pending {
            Some(h) => with_processed(v.stats, h),
            None => v.stats,
        };
        (Outcome::Continue, v.with(stats, None, RETRY_FLOOR_SECONDS))
    } else if v.delay > RETRY_CEILING_SECONDS {
        (Outcome::Fatal, v.with(v.stats, None, v.delay))
    } else {
        (Outcome::Retry { seconds: v.delay }, v.with(v.stats, None, (2 * v.delay) as u64))
    }
}

impl View for Processor {
    type V = ProcessorView;

    closed spec fn view(&self) -> ProcessorView {
        ProcessorView {
            config: self.config@,
            stats: self.stats,
            pending: self.pending,
            delay: self.delay,
        }
    }
}

impl Processor {
    /// A processor that resumes from `stats`.
    pub fn new(config: AlertConfig, stats: NetworkStats) -> (r: Processor)
        ensures
            r@ == (ProcessorView { config: config@, stats, pending: None, delay: RETRY_FLOOR_SECONDS }),
            r@.wf(),
    {
        Processor { config, stats, pending: None, delay: RETRY_FLOOR_SECONDS }
    }

    /// The statistics to persist.
    pub fn stats(&self) -> (r: NetworkStats)
        ensures
            r == self@.stats,
    {
        self.stats
    }

    /// The height handed out for evaluation, if any.
    pub fn pending(&self) -> (r: Option<u64>)
        ensures
            r == self@.pending,
    {
        self.pending
    }

    /// The current retry delay in seconds.
    pub fn delay(&self) -> (r: u64)
        ensures
            r == self@.delay,
    {
        self.delay
    }

    /// Decides what to do for the chain tip the node reported, or `None` when it
    /// could not be asked.
    pub fn next_step(&mut self, tip: Option<u64>) -> (r: Step)
        requires
            old(self)@.wf(),
        ensures
            (r, final(self)@) == next_step_spec(old(self)@, tip),
            final(self)@.wf(),
    {
        match tip {
            None => {
                self.pending = None;
                Step::Wait { seconds: POLL_SECONDS }
            },
            Some(t) => match self.stats.last_processed_block {
                None => {
                    self.stats.last_processed_block = Some(t);
                    self.pending = None;
                    Step::Wait { seconds: POLL_SECONDS }
                },
                Some(p) => {
                    if t <= p {
                        self.pending = None;
                        Step::Wait { seconds: POLL_SECONDS }
                    } else {
                        self.pending = Some(p + 1);
                        Step::Process { height: p + 1 }
                    }
                },
            },
        }
    }

    /// Whether evaluating the pending height needs a fresh supply snapshot.
    pub fn needs_supply_snapshot(&self) -> (r: bool)
        ensures
            r == match self@.pending {
                Some(h) => supply_refresh_due(h, self@.stats.last_supply),
                None => false,
            },
    {
        match self.pending {
            Some(h) => needs_supply_snapshot(h, self.stats.last_supply),
            None => false,
        }
    }

    /// Evaluates the rules at the pending height and queues every resulting text for
    /// every enabled channel. The processed height does not move until `finish`.
    pub fn process_block(
        &mut self,
        mining: MiningInfo,
        snapshot: Option<SupplySnapshot>,
        store: &mut NotificationStore,
    ) -> (r: Result<(), ProcessError>)
        requires
            old(self)@.wf(),
            old(store).wf(),
        ensures
            final(self)@.wf(),
            final(store).wf(),
            match old(self)@.pending {
                None => r == Err::<(), ProcessError>(ProcessError::NoPendingBlock) && final(self)@
                    == old(self)@ && final(store)@ == old(store)@,
                Some(h) => match evaluate_block(
                    old(self)@.config,
                    old(self)@.stats,
                    h,
                    mining,
                    snapshot,
                ) {
                    None => r == Err::<(), ProcessError>(ProcessError::SupplySnapshotMissing)
                        && final(self)@ == old(self)@ && final(store)@ == old(store)@,
                    Some((alerts, stats)) => r == Ok::<(), ProcessError>(()) && final(self)@
                        == old(self)@.with(stats, old(self)@.pending, old(self)@.delay)
                        && final(store)@ == fan_out_all(old(store)@, old(self)@.config, alerts),
                },
            },
    {
        let height = match self.pending {
            Some(h) => h,
            None => {
                return Err(ProcessError::NoPendingBlock);
            },
        };
        match evaluate(&self.config, &self.stats, height, &mining, snapshot) {
            None => Err(ProcessError::SupplySnapshotMissing),
            Some((alerts, stats)) => {
                queue_alerts(&self.config, store, &alerts);
                self.stats = stats;
                Ok(())
            },
        }
    }

    /// Records whether the pending height succeeded and says what follows.
    pub fn finish(&mut self, succeeded: bool) -> (r: Outcome)
        requires
            old(self)@.wf(),
        ensures
            (r, final(self)@) == finish_spec(old(self)@, succeeded),
            final(self)@.wf(),
    {
        if succeeded {
            if let Some(h) = self.pending {
                self.stats.last_processed_block = Some(h);
            }
            self.pending = None;
            self.delay = RETRY_FLOOR_SECONDS;
            Outcome::Continue
        } else if self.delay > RETRY_CEILING_SECONDS {
            self.pending = None;
            Outcome::Fatal
        } else {
            let seconds = self.delay;
            self.pending = None;
            self.delay = 2 * self.delay;
            Outcome::Retry { seconds }
        }
    }
}

/// One polling cycle, from the tip query to the end of the block: a failed query
/// leaves the statistics as they were; the processed height never moves back,
/// moves by at most one, and never past the tip the node reported.
pub proof fn lemma_cycle_progress(v: ProcessorView, tip: Option<u64>, succeeded: bool)
    requires
        v.wf(),
    ensures
        ({
            let (step, v1) = next_step_spec(v, tip);
            let (_, v2) = finish_spec(v1, succeeded);
            let before = v.stats.last_processed_block;
            let after = v2.stats.last_processed_block;
            &&& tip is None ==> step == Step::Wait { seconds: POLL_SECONDS } && v1.stats == v.stats
            &&& tip is None && !succeeded ==> v2.stats == v.stats
            &&& before is Some ==> after is Some && before->0 <= after->0 <= before->0 + 1
            &&& after != before ==> tip is Some && after is Some && after->0 <= tip->0
            &&& step is Process ==> tip is Some && step->height == before->0 + 1 && step->height
                <= tip->0
        }),
{
}

/// Whether notifications are queued for `target` under `config`.
pub open spec fn target_enabled(config: AlertConfigView, target: Target) -> bool {
    (target == Target::Ntfy && config.ntfy_enabled) || (target == Target::Nostr
        && config.nostr_enabled)
}

/// Queuing a block's alerts adds or replaces rows of enabled channels only; every
/// other row stays as it was.
pub proof fn lemma_fan_out_enabled_only(
    m: Map<Seq<char>, NotificationView>,
    config: AlertConfigView,
    alerts: Seq<Alert>,
)
    ensures
        forall|k: Seq<char>|
            #[trigger] fan_out_all(m, config, alerts).contains_key(k) ==> (m.contains_key(k)
                && fan_out_all(m, config, alerts)[k] == m[k]) || target_enabled(
                config,
                fan_out_all(m, config, alerts)[k].target,
            ),
        forall|k: Seq<char>| #[trigger] m.contains_key(k) ==> fan_out_all(m, config, alerts).contains_key(k),
    decreases alerts.len(),
{
    if alerts.len() > 0 {
        lemma_fan_out_enabled_only(m, config, alerts.drop_last());
    }
}

/// The identity of the row that queues `alert` for `target`.
pub open spec fn row_id(target: Target, alert: Alert) -> Seq<char> {
    notification_id(target, alert_text(alert), alert_text(alert))
}

/// When the identities of a block's rows do not collide (distinct channel and text,
/// distinct identity), queuing its alerts leaves every alert's text queued for every
/// enabled channel.
pub proof fn lemma_fan_out_complete(
    m: Map<Seq<char>, NotificationView>,
    config: AlertConfigView,
    alerts: Seq<Alert>,
)
    requires
        forall|i: int, j: int, t1: Target, t2: Target|
            0 <= i < alerts.len() && 0 <= j < alerts.len() && target_enabled(config, t1)
                && target_enabled(config, t2) && #[trigger] row_id(t1, alerts[i])
                == #[trigger] row_id(t2, alerts[j]) ==> t1 == t2 && alert_text(alerts[i])
                == alert_text(alerts[j]),
    ensures
        forall|i: int, t: Target|
            0 <= i < alerts.len() && target_enabled(config, t) ==> {
                let text = alert_text(alerts[i]);
                let id = #[trigger] row_id(t, alerts[i]);
                &&& fan_out_all(m, config, alerts).contains_key(id)
                &&& fan_out_all(m, config, alerts)[id] == (NotificationView {
                    target: t,
                    plain_text: text,
                    html: text,
                })
            },
    decreases alerts.len(),
{
    if alerts.len() > 0 {
        let init = alerts.drop_last();
        assert forall|i: int, j: int, t1: Target, t2: Target|
            0 <= i < init.len() && 0 <= j < init.len() && target_enabled(config, t1)
                && target_enabled(config, t2) && #[trigger] row_id(t1, init[i])
                == #[trigger] row_id(t2, init[j]) implies t1 == t2 && alert_text(init[i])
                == alert_text(init[j]) by {
            assert(init[i] == alerts[i] && init[j] == alerts[j]);
            assert(row_id(t1, alerts[i]) == row_id(t2, alerts[j]));
        }
        lemma_fan_out_complete(m, config, init);
        let last = alerts.len() - 1;
        assert forall|i: int, t: Target|
            0 <= i < alerts.len() && target_enabled(config, t) implies {
                let text = alert_text(alerts[i]);
                let id = #[trigger] row_id(t, alerts[i]);
                &&& fan_out_all(m, config, alerts).contains_key(id)
                &&& fan_out_all(m, config, alerts)[id] == (NotificationView {
                    target: t,
                    plain_text: text,
                    html: text,
                })
            } by {
            let text = alert_text(alerts[i]);
            let lt = alert_text(alerts[last]);
            if i < last {
                assert(init[i] == alerts[i]);
                assert(row_id(t, init[i]) == row_id(t, alerts[i]));
                if config.ntfy_enabled {
                    if row_id(Target::Ntfy, alerts[last]) == row_id(t, alerts[i]) {
                        assert(alert_text(alerts[last]) == alert_text(alerts[i]));
                    }
                }
                if config.nostr_enabled {
                    if row_id(Target::Nostr, alerts[last]) == row_id(t, alerts[i]) {
                        assert(alert_text(alerts[last]) == alert_text(alerts[i]));
                    }
                }
            } else {
                if t == Target::Ntfy && config.nostr_enabled {
                    if row_id(Target::Nostr, alerts[last]) == row_id(t, alerts[i]) {
                        assert(Target::Nostr == t);
                    }
                }
            }
        }
    }
}

/// Whether no alert of `s` is a supply milestone.
pub open spec fn no_milestones(s: Seq<Alert>) -> bool {
    forall|i: int| 0 <= i < s.len() ==> !(#[trigger] s[i] is SupplyMilestone)
}

proof fn lemma_crossed_only_milestones(thresholds: Seq<u64>, prior: u64, new: u64)
    ensures
        forall|i: int|
            0 <= i < crossed(thresholds, prior, new).len() ==> #[trigger] crossed(
                thresholds,
                prior,
                new,
            )[i] is SupplyMilestone,
    decreases thresholds.len(),
{
    if thresholds.len() > 0 {
        lemma_crossed_only_milestones(thresholds.drop_last(), prior, new);
    }
}

/// The milestone properties of a block's alerts, for any sequence whose only
/// milestones are the crossed thresholds.
proof fn lemma_milestones_between(
    pre: Seq<Alert>,
    post: Seq<Alert>,
    ts: Seq<u64>,
    s0: u64,
    s1: u64,
)
    requires
        no_milestones(pre),
        no_milestones(post),
        forall|i: int, j: int| 0 <= i < j < ts.len() ==> #[trigger] ts[i] < #[trigger] ts[j],
    ensures
        ({
            let alerts = pre + crossed(ts, s0, s1) + post;
            &&& forall|t: u64|
                alerts.contains(Alert::SupplyMilestone { threshold: t }) <==> (ts.contains(t) && s0
                    < t <= s1)
            &&& forall|i: int, j: int|
                0 <= i < alerts.len() && 0 <= j < alerts.len() && i != j && alerts[i] is SupplyMilestone
                    ==> alerts[i] != alerts[j]
            &&& s1 == s0 ==> no_milestones(alerts)
        }),
{
    let c = crossed(ts, s0, s1);
    let alerts = pre + c + post;
    lemma_crossed_only_milestones(ts, s0, s1);
    crate::rules::lemma_supply_crossing(ts, s0, s1);
    let pl = pre.len() as int;
    let cl = c.len() as int;
    assert forall|i: int| 0 <= i < alerts.len() && #[trigger] alerts[i] is SupplyMilestone implies pl
        <= i < pl + cl && alerts[i] == c[i - pl] by {
        if i < pl {
            assert(alerts[i] == pre[i]);
        } else if i >= pl + cl {
            assert(alerts[i] == post[i - pl - cl]);
        }
    }
    assert forall|t: u64|
        alerts.contains(Alert::SupplyMilestone { threshold: t }) <==> (ts.contains(t) && s0 < t
            <= s1) by {
        let mt = Alert::SupplyMilestone { threshold: t };
        if alerts.contains(mt) {
            let i = choose|i: int| 0 <= i < alerts.len() && alerts[i] == mt;
            assert(alerts[i] is SupplyMilestone);
            assert(c[i - pl] == mt);
            assert(c.contains(mt));
        }
        if ts.contains(t) && s0 < t <= s1 {
            assert(c.contains(mt));
            let k = choose|k: int| 0 <= k < c.len() && c[k] == mt;
            assert(alerts[pl + k] == c[k]);
            assert(alerts.contains(mt));
        }
    }
    assert forall|i: int, j: int|
        0 <= i < alerts.len() && 0 <= j < alerts.len() && i != j
            && alerts[i] is SupplyMilestone implies alerts[i] != alerts[j] by {
        if alerts[i] == alerts[j] {
            assert(alerts[j] is SupplyMilestone);
            assert(alerts[i] == c[i - pl] && alerts[j] == c[j - pl]);
        }
    }
    if s1 == s0 {
        assert forall|i: int| 0 <= i < alerts.len() implies !(#[trigger] alerts[i] is SupplyMilestone) by {
            if alerts[i] is SupplyMilestone {
                assert(alerts[i] == c[i - pl]);
            }
        }
    }
}

/// With ascending thresholds and a previous supply estimate `s0`, the alerts of one
/// block name exactly the thresholds in `(s0, s1]`, `s1` being the new estimate,
/// each once: a jump past several names all of them in this one block, and an
/// unchanged supply names none.
pub proof fn lemma_block_supply_milestones(
    config: AlertConfigView,
    stats: NetworkStats,
    height: u64,
    mining: MiningInfo,
    snapshot: Option<SupplySnapshot>,
)
    requires
        evaluate_block(config, stats, height, mining, snapshot) is Some,
        stats.last_supply is Some,
        forall|i: int, j: int|
            0 <= i < j < config.supply_milestones.len() ==> #[trigger] config.supply_milestones[i]
                < #[trigger] config.supply_milestones[j],
    ensures
        ({
            let (alerts, next) = evaluate_block(config, stats, height, mining, snapshot)->0;
            let s0 = stats.last_supply->0;
            &&& next.last_supply is Some
            &&& forall|t: u64|
                alerts.contains(Alert::SupplyMilestone { threshold: t }) <==> (
                config.supply_milestones.contains(t) && s0 < t <= next.last_supply->0)
            &&& forall|i: int, j: int|
                0 <= i < alerts.len() && 0 <= j < alerts.len() && i != j && alerts[i] is SupplyMilestone
                    ==> alerts[i] != alerts[j]
            &&& next.last_supply == stats.last_supply ==> no_milestones(alerts)
        }),
{
    let (alerts, next) = evaluate_block(config, stats, height, mining, snapshot)->0;
    let s0 = stats.last_supply->0;
    let s1 = next.last_supply->0;
    let d = difficulty_rule(height, mining.difficulty, stats.last_difficulty);
    let h = hashrate_rule(mining.network_hash_ps, stats.last_hashrate_ath);
    let pre = halving_alerts(height) + optional(d.0);
    let post = optional(h.0) + block_alerts(height, config.block_milestones, config.every_block);
    assert(alerts =~= pre + crossed(config.supply_milestones, s0, s1) + post);
    assert(no_milestones(pre));
    assert(no_milestones(post));
    lemma_milestones_between(pre, post, config.supply_milestones, s0, s1);
}

/// At an announced halving height the alerts of the block begin with the new
/// epoch and its block reward, carry no retarget unless the height is also a
/// retarget height, and include the height itself when it is a milestone.
pub proof fn lemma_halving_block(
    config: AlertConfigView,
    stats: NetworkStats,
    height: u64,
    mining: MiningInfo,
    snapshot: Option<SupplySnapshot>,
)
    requires
        evaluate_block(config, stats, height, mining, snapshot) is Some,
        height % HALVING_INTERVAL == 0,
        height / HALVING_INTERVAL <= MAX_HALVINGS,
    ensures
        ({
            let (alerts, next) = evaluate_block(config, stats, height, mining, snapshot)->0;
            &&& alerts.len() >= 2
            &&& alerts[0] == Alert::HalvingReached { epoch: (height / HALVING_INTERVAL + 1) as u64 }
            &&& alerts[1] == Alert::BlockReward {
                subsidy: subsidy((height / HALVING_INTERVAL) as nat),
            }
            &&& height % RETARGET_INTERVAL != 0 ==> forall|i: int|
                0 <= i < alerts.len() ==> !(#[trigger] alerts[i] is DifficultyAdjustment)
            &&& config.block_milestones.contains(height) ==> alerts.contains(
                Alert::BlockReached { height },
            )
            &&& next.last_processed_block == stats.last_processed_block
        }),
{
    let (alerts, next) = evaluate_block(config, stats, height, mining, snapshot)->0;
    let d = difficulty_rule(height, mining.difficulty, stats.last_difficulty);
    let h = hashrate_rule(mining.network_hash_ps, stats.last_hashrate_ath);
    let (c, n) = supply_rule(height, stats.last_supply, snapshot, config.supply_milestones)->0;
    let b = block_alerts(height, config.block_milestones, config.every_block);
    let pre = halving_alerts(height) + optional(d.0) + c + optional(h.0);
    assert(alerts =~= pre + b);
    lemma_crossed_only_milestones(config.supply_milestones, match stats.last_supply {
        Some(p) => p,
        None => sat_sub(n, subsidy((height / HALVING_INTERVAL) as nat) as int),
    }, n);
    if height % RETARGET_INTERVAL != 0 {
        assert forall|i: int| 0 <= i < alerts.len() implies !(#[trigger] alerts[i] is DifficultyAdjustment) by {
            let hl = halving_alerts(height).len() as int;
            if i >= hl + c.len() && i < pre.len() {
                assert(alerts[i] == optional(h.0)[i - hl - c.len()]);
            } else if hl <= i < hl + c.len() {
                assert(alerts[i] == c[i - hl]);
            }
        }
    }
    if config.block_milestones.contains(height) {
        assert(alerts[pre.len() as int] == b[0]);
    }
}

} // verus!
