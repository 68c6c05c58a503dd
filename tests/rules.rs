use bitcoin_alerts::rules::{
    block, block_subsidy, difficulty_adjustment, difficulty_change, halving, hashrate,
    is_countdown_due, needs_supply_snapshot, supply, supply_at, supply_milestones, Alert,
    SupplySnapshot,
};

const BTC: u64 = 100_000_000;

#[test]
fn halving_height_gives_epoch_and_reward() {
    let alerts = halving(840_000);
    assert_eq!(
        alerts,
        vec![
            Alert::HalvingReached { epoch: 5 },
            Alert::BlockReward { subsidy: 312_500_000 }
        ]
    );
    assert_eq!(
        alerts[0].text(),
        "\u{26cf}\u{fe0f} The Halving is here! Welcome to the 5th epoch! \u{26cf}\u{fe0f}"
    );
    assert_eq!(alerts[1].text(), "\u{26cf}\u{fe0f} New block reward: 3.12 BTC \u{26cf}\u{fe0f}");
}

#[test]
fn every_announced_halving_gives_two_alerts() {
    for k in 0..=32u64 {
        let alerts = halving(k * 210_000);
        assert_eq!(alerts.len(), 2);
        assert_eq!(alerts[0], Alert::HalvingReached { epoch: k + 1 });
        assert_eq!(alerts[1], Alert::BlockReward { subsidy: block_subsidy(k) });
        if k > 0 {
            assert_eq!(block_subsidy(k), block_subsidy(k - 1) / 2);
        }
    }
    assert!(halving(33 * 210_000).is_empty());
}

#[test]
fn epoch_suffixes() {
    assert_eq!(
        Alert::HalvingReached { epoch: 1 }.text(),
        "\u{26cf}\u{fe0f} The Halving is here! Welcome to the 1st epoch! \u{26cf}\u{fe0f}"
    );
    assert!(Alert::HalvingReached { epoch: 22 }.text().contains("22nd epoch"));
    assert!(Alert::HalvingReached { epoch: 33 }.text().contains("33rd epoch"));
    assert!(Alert::HalvingReached { epoch: 11 }.text().contains("11th epoch"));
}

#[test]
fn subsidy_schedule() {
    assert_eq!(block_subsidy(0), 5_000_000_000);
    assert_eq!(block_subsidy(1), 2_500_000_000);
    assert_eq!(block_subsidy(10), 4_882_812);
    assert_eq!(block_subsidy(32), 1);
    assert_eq!(block_subsidy(33), 0);
    assert_eq!(block_subsidy(64), 0);
    assert_eq!(block_subsidy(u64::MAX), 0);
}

#[test]
fn countdown_tiers() {
    // 1,000 blocks left: inside the last week, every block.
    assert_eq!(halving(839_000), vec![Alert::HalvingCountdown { missing: 1000 }]);
    assert_eq!(
        Alert::HalvingCountdown { missing: 1000 }.text(),
        "\u{1f525} 1,000 blocks to the next Halving \u{1f525}"
    );
    // 3,996 blocks left is a multiple of 6; 4,000 is not.
    assert!(is_countdown_due(836_004));
    assert!(!is_countdown_due(836_000));
    // Exactly 105,000 blocks left.
    assert!(is_countdown_due(735_000));
    // 8,640 blocks left is announced; 4,465 left is on no tier's interval.
    assert!(is_countdown_due(831_360));
    assert!(!is_countdown_due(835_535));
    // Heartbeat every 12,960 blocks.
    assert!(is_countdown_due(12_960 * 50));
    assert!(halving(836_000).is_empty());
}

#[test]
fn countdown_gets_denser_near_the_halving() {
    let count = |from: u64, to: u64| (from..to).filter(|h| is_countdown_due(*h)).count();
    // 2,016 blocks far out versus 2,016 blocks in the last week.
    let far = count(840_000 - 200_000, 840_000 - 200_000 + 2016);
    let near = count(840_000 - 2016, 840_000);
    assert!(near >= far);
    assert_eq!(count(840_000 - 1008, 840_000), 1008);
}

#[test]
fn retarget_first_observation_reports_no_change() {
    let h = 2016 * 400;
    let (alert, last) = difficulty_adjustment(h, 80_000_000_000_000, None);
    assert_eq!(
        alert,
        Some(Alert::DifficultyAdjustment { difficulty: 80_000_000_000_000, change: 0 })
    );
    assert_eq!(last, Some(80_000_000_000_000));
    assert_eq!(
        alert.unwrap().text(),
        "\u{26cf}\u{fe0f} Difficulty adj: 80.00T (0.00%) \u{26cf}\u{fe0f}"
    );
}

#[test]
fn retarget_reports_signed_change() {
    let h = 2016 * 401;
    let (alert, last) = difficulty_adjustment(h, 103_000_000_000_000, Some(100_000_000_000_000));
    assert_eq!(last, Some(103_000_000_000_000));
    let alert = alert.unwrap();
    assert_eq!(
        alert,
        Alert::DifficultyAdjustment { difficulty: 103_000_000_000_000, change: 300 }
    );
    assert_eq!(
        alert.text(),
        "\u{26cf}\u{fe0f} Difficulty adj: 103.00T (3.00%) \u{26cf}\u{fe0f}"
    );
    let (down, _) = difficulty_adjustment(h, 95_500_000_000_000, Some(100_000_000_000_000));
    assert_eq!(
        down.unwrap().text(),
        "\u{26cf}\u{fe0f} Difficulty adj: 95.50T (-4.50%) \u{26cf}\u{fe0f}"
    );
}

#[test]
fn retarget_only_at_multiples() {
    let (alert, last) = difficulty_adjustment(2016 * 400 + 1, 5, Some(4));
    assert_eq!(alert, None);
    assert_eq!(last, Some(4));
    assert_eq!(difficulty_change(0, 10), 0);
    assert_eq!(difficulty_change(3, 2), -3333);
    // 3T to 5T is +66.666...%, shown to the nearest hundredth.
    assert_eq!(difficulty_change(3_000_000_000_000, 5_000_000_000_000), 6667);
    assert_eq!(difficulty_change(3, 1), -6667);
    // An exact tie goes to the even hundredth: 0.5 rounds to 0 and 1.5 to 2.
    assert_eq!(difficulty_change(20_000, 20_001), 0);
    assert_eq!(difficulty_change(20_000, 20_003), 2);
    assert_eq!(difficulty_change(2, 1), -5000);
    assert_eq!(difficulty_change(u64::MAX, 0), -10000);
}

#[test]
fn supply_jump_crosses_two_thresholds_once() {
    let thresholds = vec![19_200_000 * BTC, 19_300_000 * BTC];
    let alerts = supply_milestones(&thresholds, 19_150_000 * BTC, 19_350_000 * BTC);
    assert_eq!(
        alerts,
        vec![
            Alert::SupplyMilestone { threshold: 19_200_000 * BTC },
            Alert::SupplyMilestone { threshold: 19_300_000 * BTC }
        ]
    );
    assert!(supply_milestones(&thresholds, 19_350_000 * BTC, 19_350_000 * BTC).is_empty());
    assert_eq!(
        alerts[0].text(),
        "\u{1f38a} The supply has just reached 19,200,000 BTC \u{1f38a}"
    );
}

#[test]
fn supply_threshold_reached_exactly() {
    let thresholds = vec![19_200_000 * BTC];
    let reward = 312_500_000;
    let at = supply_milestones(&thresholds, 19_200_000 * BTC - reward, 19_200_000 * BTC);
    assert_eq!(at.len(), 1);
    let next = supply_milestones(&thresholds, 19_200_000 * BTC, 19_200_000 * BTC + reward);
    assert!(next.is_empty());
}

#[test]
fn supply_refresh_and_increment() {
    let thresholds = vec![19_700_000 * BTC];
    assert!(needs_supply_snapshot(850_000, Some(1)));
    assert!(needs_supply_snapshot(850_001, None));
    assert!(!needs_supply_snapshot(850_001, Some(1)));
    // A refresh is due but no snapshot was given.
    assert!(supply(850_000, Some(1), None, &thresholds).is_none());
    // The snapshot is two blocks ahead: two rewards come off.
    let snap = SupplySnapshot { height: 850_002, total: 19_700_000 * BTC + 400_000_000 };
    assert_eq!(supply_at(snap, 850_000), 19_700_000 * BTC + 400_000_000 - 2 * 312_500_000);
    let (alerts, new) = supply(850_000, Some(19_699_000 * BTC), Some(snap), &thresholds).unwrap();
    assert_eq!(new, 19_700_000 * BTC + 400_000_000 - 625_000_000);
    assert!(alerts.is_empty());
    // One reward later the threshold is crossed.
    let (alerts, newer) = supply(850_001, Some(new), None, &thresholds).unwrap();
    assert_eq!(newer, new + 312_500_000);
    assert_eq!(alerts, vec![Alert::SupplyMilestone { threshold: 19_700_000 * BTC }]);
    // A snapshot behind the height adds rewards.
    let behind = SupplySnapshot { height: 849_999, total: 1_000 };
    assert_eq!(supply_at(behind, 850_000), 1_000 + 312_500_000);
}

#[test]
fn hashrate_record() {
    assert_eq!(hashrate(100, None), (None, 100));
    assert_eq!(hashrate(100, Some(100)), (None, 100));
    assert_eq!(hashrate(99, Some(100)), (None, 100));
    let (alert, ath) = hashrate(701_230_000_000_000_000_000, Some(700_000_000_000_000_000_000));
    assert_eq!(ath, 701_230_000_000_000_000_000);
    assert_eq!(
        alert.unwrap().text(),
        "\u{1f389}  New hashrate ATH: 701.23 EH/s \u{1f389}"
    );
}

#[test]
fn block_milestones() {
    let milestones = vec![840_000, 1_000_000];
    assert_eq!(block(840_000, &milestones, false), vec![Alert::BlockReached { height: 840_000 }]);
    assert!(block(840_001, &milestones, false).is_empty());
    assert_eq!(block(5, &milestones, true), vec![Alert::BlockReached { height: 5 }]);
    assert_eq!(block(840_000, &milestones, true).len(), 2);
    assert_eq!(
        Alert::BlockReached { height: 1_000_000 }.text(),
        "\u{26d3}\u{fe0f} Reached block 1,000,000 \u{26d3}\u{fe0f}"
    );
}

#[test]
fn amounts_round_to_the_nearest_hundredth() {
    let text = |d: u64| Alert::DifficultyAdjustment { difficulty: d, change: 0 }.text();
    assert!(text(12_345_000_000_000).contains("12.34T"));
    assert!(text(12_355_000_000_000).contains("12.36T"));
    assert!(text(12_346_000_000_000).contains("12.35T"));
    assert!(text(9_999_999_999).contains(": 0.01T"));
    assert!(Alert::HashrateAth { hashrate: 700_006_000_000_000_000_000 }
        .text()
        .contains("700.01 EH/s"));
    assert!(Alert::BlockReward { subsidy: 625_000_000 }.text().contains("6.25 BTC"));
    assert!(Alert::BlockReward { subsidy: 4_882_812 }.text().contains("0.05 BTC"));
    let change = Alert::DifficultyAdjustment { difficulty: 5_000_000_000_000, change: -6667 };
    assert!(change.text().contains("(-66.67%)"));
}
