use extrema_guard::config::{ProfitLockRule, StaticRule};
use extrema_guard::executor::OrderRow;
use extrema_guard::firing::{may_fire, REFIRE_AFTER};
use extrema_guard::number::{Float64, Formula};
use extrema_guard::positions::{
    skip_reason, snapshot, snapshots, PositionRow, PositionSide, PositionSnapshot, SkipReason,
};
use extrema_guard::profit_lock::{
    armed, lock_price, moved_pct, LockAction, LockEvent, LockRound, ProfitLock, ProfitLockConfig,
};
use extrema_guard::static_protect::{
    coverage, is_covered, offset_from_pct, offset_from_risk, stop_price, target_price,
    Coverage, CoverageValues, StaticAction, StaticEvent, StaticProtect, StaticProtectConfig,
    StaticRound,
};
use extrema_guard::table::Table;

fn n(x: f64) -> Float64 {
    Float64 { bits: x.to_bits() }
}

fn eval(formula: &Formula) -> f64 {
    match formula {
        Formula::Value(x) => f64::from_bits(x.bits),
        Formula::Sum(a, b) => eval(a) + eval(b),
        Formula::Difference(a, b) => eval(a) - eval(b),
        Formula::Product(a, b) => eval(a) * eval(b),
        Formula::Quotient(a, b) => eval(a) / eval(b),
    }
}

fn is_armed(entry: f64, high_water: f64, activation_pct: f64, is_long: bool) -> bool {
    let moved = eval(&moved_pct(n(entry), n(high_water), is_long));
    armed(n(entry), n(moved), n(activation_pct))
}

fn position(exchange: &str, inst: &str, size: f64, entry: f64, mark: f64) -> PositionSnapshot {
    PositionSnapshot {
        exchange: exchange.to_string(),
        inst: inst.to_string(),
        size: n(size),
        avg_price: n(entry),
        mark_price: n(mark),
    }
}

fn rule(inst: &str, sl_pct: Option<f64>, tp_pct: Option<f64>) -> StaticRule {
    StaticRule {
        inst: inst.to_string(),
        sl_pct: sl_pct.map(n),
        sl_risk: None,
        tp_pct: tp_pct.map(n),
        tp_risk: None,
    }
}

fn protect(rules: Vec<StaticRule>) -> StaticProtect {
    StaticProtect::new(&StaticProtectConfig {
        enabled: true,
        schedule_task_id: 7,
        rules,
    })
}

fn evaluated(action: &StaticAction) -> f64 {
    match action {
        StaticAction::Evaluate { formula } => eval(formula),
        other => panic!("unexpected {:?}", other),
    }
}

fn compared(action: &StaticAction) -> StaticEvent {
    match action {
        StaticAction::Compare { coverage } => StaticEvent::Compared {
            values: values(coverage),
        },
        other => panic!("unexpected {:?}", other),
    }
}

fn values(coverage: &Coverage) -> CoverageValues {
    CoverageValues {
        price_gap: n(eval(&coverage.price_gap)),
        price_slack: n(eval(&coverage.price_slack)),
        size_gap: n(eval(&coverage.size_gap)),
        size_slack: n(eval(&coverage.size_slack)),
    }
}

fn cancelled(action: &StaticAction) -> (String, String) {
    match action {
        StaticAction::CancelOwn { exchange, inst } => (exchange.clone(), inst.clone()),
        other => panic!("unexpected {:?}", other),
    }
}

fn level(value: f64, now: u128) -> StaticEvent {
    StaticEvent::Level {
        value: n(value),
        now,
    }
}

fn resting(price: f64, size: f64, executed: f64) -> OrderRow {
    OrderRow {
        cli_order_id: Some("guard1".to_string()),
        price: n(price),
        size: n(size),
        executed_size: n(executed),
    }
}

#[test]
fn snapshot_sign_and_notional() {
    let position = PositionSnapshot {
        exchange: "hyperliquid".to_string(),
        inst: "ETH_USDC_PERP".to_string(),
        size: n(-2.0),
        avg_price: n(1_900.0),
        mark_price: n(2_000.0),
    };
    assert!(!position.is_long());
    assert_eq!(eval(&position.notional()), 4_000.0);
}

#[test]
fn arms_only_after_activation_threshold() {
    assert!(!is_armed(100.0, 104.9, 5.0, true));
    assert!(is_armed(100.0, 105.0, 5.0, true));
    assert!(is_armed(100.0, 95.0, 5.0, false));
    assert!(!is_armed(100.0, 95.1, 5.0, false));
}

#[test]
fn armed_survives_pullback_via_high_water() {
    let high_water = 106.0;
    assert!(is_armed(100.0, high_water, 5.0, true));
}

#[test]
fn lock_price_mirrors_by_side() {
    assert_eq!(eval(&lock_price(n(100.0), n(1.0), true)), 101.0);
    assert_eq!(eval(&lock_price(n(100.0), n(1.0), false)), 99.0);
}

#[test]
fn never_arms_without_an_entry() {
    assert!(!is_armed(0.0, 106.0, 5.0, true));
    assert!(!is_armed(-1.0, 106.0, 5.0, true));
}

#[test]
fn pct_offset_scales_with_entry() {
    assert_eq!(eval(&offset_from_pct(n(60_000.0), n(3.0))), 1_800.0);
}

#[test]
fn risk_offset_normalizes_by_position_size() {
    assert_eq!(
        offset_from_risk(n(10.0), n(0.5)).map(|offset| eval(&offset)),
        Some(20.0)
    );
    assert_eq!(
        offset_from_risk(n(10.0), n(0.0)).map(|offset| eval(&offset)),
        None
    );
}

#[test]
fn stop_and_target_mirror_by_side() {
    let offset = || Formula::Value(n(3.0));
    assert_eq!(eval(&stop_price(n(100.0), offset(), true)), 97.0);
    assert_eq!(eval(&stop_price(n(100.0), offset(), false)), 103.0);
    assert_eq!(eval(&target_price(n(100.0), offset(), true)), 103.0);
    assert_eq!(eval(&target_price(n(100.0), offset(), false)), 97.0);
}

#[test]
fn malformed_rows_are_no_positions() {
    let row = |side: PositionSide, size: f64, entry: f64, mark: f64| PositionRow {
        inst: "A".to_string(),
        position_side: side,
        size: n(size),
        avg_price: n(entry),
        mark_price: n(mark),
    };
    let okx = "okx".to_string();
    let size = |row: PositionRow| snapshot(&okx, &row).map(|p| f64::from_bits(p.size.bits));
    assert_eq!(size(row(PositionSide::Long, 2.0, 1.0, 1.0)), Some(2.0));
    assert_eq!(size(row(PositionSide::Long, -2.0, 1.0, 1.0)), Some(2.0));
    assert_eq!(size(row(PositionSide::Short, 2.0, 1.0, 1.0)), Some(-2.0));
    assert_eq!(size(row(PositionSide::Both, -2.0, 1.0, 1.0)), Some(-2.0));
    assert_eq!(size(row(PositionSide::Unknown, 2.0, 1.0, 1.0)), None);
    assert_eq!(size(row(PositionSide::Both, 0.0, 1.0, 1.0)), None);
    assert_eq!(size(row(PositionSide::Both, 1.0, 0.0, 1.0)), None);
    assert_eq!(size(row(PositionSide::Both, 1.0, 1.0, f64::NAN)), None);
    let reason = |row: PositionRow| skip_reason(&row);
    assert_eq!(reason(row(PositionSide::Unknown, 0.0, 1.0, 1.0)), Some(SkipReason::Flat));
    assert_eq!(reason(row(PositionSide::Unknown, 2.0, 0.0, 1.0)), Some(SkipReason::UnknownSide));
    assert_eq!(reason(row(PositionSide::Long, 2.0, 0.0, 1.0)), Some(SkipReason::InsanePrices));
    assert_eq!(reason(row(PositionSide::Long, 2.0, 1.0, 1.0)), None);
    let rows = vec![
        row(PositionSide::Long, 1.0, 1.0, 1.0),
        row(PositionSide::Unknown, 2.0, 1.0, 1.0),
        row(PositionSide::Short, 3.0, 1.0, 1.0),
    ];
    let found = snapshots(&okx, &rows);
    assert_eq!(found.len(), 2);
    assert_eq!(found[1].exchange, "okx");
    assert_eq!(f64::from_bits(found[1].size.bits), -3.0);
}

#[test]
fn closes_are_not_repeated_too_soon() {
    let mut fired: Table<u128> = Table::new();
    assert!(may_fire(&fired, "k", 0));
    fired.insert("k".to_string(), 100);
    assert!(!may_fire(&fired, "k", 50));
    assert!(!may_fire(&fired, "k", 100 + REFIRE_AFTER - 1));
    assert!(may_fire(&fired, "k", 100 + REFIRE_AFTER));
    assert!(may_fire(&fired, "other", 101));
    assert_eq!(REFIRE_AFTER, std::time::Duration::from_secs(30).as_nanos());
}

fn lock_rules() -> ProfitLockConfig {
    ProfitLockConfig {
        enabled: true,
        schedule_task_id: 7,
        rules: vec![ProfitLockRule {
            inst: "A".to_string(),
            activation_pct: n(5.0),
            lock_pct: n(1.0),
        }],
    }
}

fn lock_levels(action: &LockAction, now: u128) -> LockEvent {
    match action {
        LockAction::Evaluate { moved_pct, lock } => LockEvent::Levels {
            moved: n(eval(moved_pct)),
            lock: n(eval(lock)),
            now,
        },
        other => panic!("unexpected {:?}", other),
    }
}

fn lock_round(module: &mut ProfitLock, marks: &[(&str, f64, f64)], now: u128) -> Vec<usize> {
    let positions = marks
        .iter()
        .map(|(inst, size, mark)| position("okx", inst, *size, 100.0, *mark))
        .collect();
    let mut round = LockRound::new(positions);
    let mut closed = Vec::new();
    let mut action = module.reconcile(&mut round, LockEvent::Begin);
    loop {
        let event = match &action {
            LockAction::Evaluate { .. } => lock_levels(&action, now),
            LockAction::Close { position, pct } => {
                assert_eq!(f64::from_bits(pct.bits), 100.0);
                closed.push(*position);
                LockEvent::CloseDone { now }
            }
            LockAction::Done => return closed,
        };
        action = module.reconcile(&mut round, event);
    }
}

#[test]
fn profit_lock_closes_after_the_activated_floor_is_crossed() {
    let mut module = ProfitLock::new(&lock_rules());
    assert!(module.is_due(7));
    assert!(!module.is_due(8));
    assert_eq!(lock_round(&mut module, &[("A", 1.0, 104.0)], 0), Vec::<usize>::new());
    assert_eq!(lock_round(&mut module, &[("A", 1.0, 100.5)], 1), Vec::<usize>::new());
    assert_eq!(lock_round(&mut module, &[("A", 1.0, 106.0)], 2), Vec::<usize>::new());
    assert_eq!(lock_round(&mut module, &[("A", 1.0, 101.5)], 3), Vec::<usize>::new());
    assert_eq!(
        lock_round(&mut module, &[("B", 1.0, 50.0), ("A", 1.0, 101.0)], 4),
        vec![1]
    );
    assert_eq!(
        lock_round(&mut module, &[("A", 1.0, 101.0)], 4 + REFIRE_AFTER - 1),
        Vec::<usize>::new()
    );
    assert_eq!(lock_round(&mut module, &[("A", 1.0, 101.0)], 4 + REFIRE_AFTER), vec![0]);
    assert_eq!(lock_round(&mut module, &[], 5 + REFIRE_AFTER), Vec::<usize>::new());
    assert!(!module.water.contains("okx:A"));
    assert_eq!(
        lock_round(&mut module, &[("A", 1.0, 101.0)], 6 + REFIRE_AFTER),
        Vec::<usize>::new()
    );
}

#[test]
fn profit_lock_mirrors_for_short_positions() {
    let mut module = ProfitLock::new(&lock_rules());
    assert_eq!(lock_round(&mut module, &[("A", -1.0, 94.0)], 0), Vec::<usize>::new());
    assert_eq!(lock_round(&mut module, &[("A", -1.0, 98.5)], 1), Vec::<usize>::new());
    assert_eq!(lock_round(&mut module, &[("A", -1.0, 99.0)], 2), vec![0]);
}

#[test]
fn failed_close_is_retried() {
    let mut module = ProfitLock::new(&lock_rules());
    assert_eq!(lock_round(&mut module, &[("A", 1.0, 106.0)], 0), Vec::<usize>::new());
    let mut round = LockRound::new(vec![position("okx", "A", 1.0, 100.0, 100.0)]);
    let first = module.reconcile(&mut round, LockEvent::Begin);
    let second = module.reconcile(&mut round, lock_levels(&first, 1));
    assert!(matches!(second, LockAction::Close { position: 0, .. }));
    let third = module.reconcile(&mut round, LockEvent::CloseFailed);
    assert!(matches!(third, LockAction::Done));
    assert_eq!(lock_round(&mut module, &[("A", 1.0, 100.0)], 2), vec![0]);
}

#[test]
fn static_stop_closes_and_skips_the_target() {
    let mut module = protect(vec![rule("*", Some(3.0), Some(5.0))]);
    module.sweep_pending = false;
    let positions = || vec![position("okx", "A", 2.0, 100.0, 97.0)];
    let mut round = StaticRound::new(positions(), vec!["okx".to_string()], false);
    let action = module.reconcile(&mut round, StaticEvent::Begin);
    assert_eq!(evaluated(&action), 97.0);
    let action = module.reconcile(&mut round, level(97.0, 10));
    match action {
        StaticAction::Close { position, pct } => {
            assert_eq!(position, 0);
            assert_eq!(f64::from_bits(pct.bits), 100.0);
        }
        other => panic!("unexpected {:?}", other),
    }
    let action = module.reconcile(&mut round, StaticEvent::Completed { now: 10 });
    assert!(matches!(action, StaticAction::Done));

    let mut round = StaticRound::new(positions(), vec!["okx".to_string()], false);
    module.reconcile(&mut round, StaticEvent::Begin);
    let action = module.reconcile(&mut round, level(97.0, 11));
    assert!(matches!(action, StaticAction::Done));

    let mut round = StaticRound::new(positions(), vec!["okx".to_string()], false);
    module.reconcile(&mut round, StaticEvent::Begin);
    let action = module.reconcile(&mut round, level(97.0, 10 + REFIRE_AFTER));
    assert!(matches!(action, StaticAction::Close { position: 0, .. }));
}

#[test]
fn static_short_stop_is_above_the_entry() {
    let mut module = protect(vec![rule("*", Some(3.0), Some(5.0))]);
    let positions = vec![position("okx", "A", -2.0, 100.0, 102.0)];
    let mut round = StaticRound::new(positions, Vec::new(), false);
    let action = module.reconcile(&mut round, StaticEvent::Begin);
    assert_eq!(evaluated(&action), 103.0);
    let action = module.reconcile(&mut round, level(103.0, 0));
    assert_eq!(evaluated(&action), 95.0);
}

#[test]
fn risk_rules_use_the_size() {
    let mut risky = rule("A", None, None);
    risky.sl_risk = Some(n(10.0));
    risky.tp_risk = Some(n(20.0));
    let module = protect(vec![risky]);
    let held = position("okx", "A", -0.5, 100.0, 100.0);
    assert_eq!(module.stop(&held).map(|f| eval(&f)), Some(120.0));
    assert_eq!(module.target(&held).map(|f| eval(&f)), Some(60.0));
    assert!(module.stop(&position("okx", "B", 1.0, 100.0, 100.0)).is_none());
}

#[test]
fn take_profit_is_placed_anew_on_a_cleared_book() {
    let mut module = protect(vec![rule("A", Some(3.0), Some(5.0))]);
    module.sweep_pending = false;
    let start = |module: &mut StaticProtect| {
        let positions = vec![position("okx", "A", 2.0, 100.0, 100.0)];
        let mut round = StaticRound::new(positions, vec!["okx".to_string()], false);
        module.reconcile(&mut round, StaticEvent::Begin);
        let action = module.reconcile(&mut round, level(97.0, 0));
        assert_eq!(evaluated(&action), 105.0);
        let action = module.reconcile(&mut round, level(105.0, 0));
        assert!(matches!(action, StaticAction::FetchOwn { position: 0 }));
        round
    };
    let own = |orders: Vec<OrderRow>| StaticEvent::OwnOrders {
        orders,
        tick: n(0.1),
        lot: n(0.01),
    };

    let mut round = start(&mut module);
    let action = module.reconcile(&mut round, own(Vec::new()));
    match action {
        StaticAction::PlaceTp { position, target } => {
            assert_eq!(position, 0);
            assert_eq!(f64::from_bits(target.bits), 105.0);
        }
        other => panic!("unexpected {:?}", other),
    }
    let action = module.reconcile(&mut round, StaticEvent::Failed);
    assert!(matches!(action, StaticAction::Done));

    let mut round = start(&mut module);
    let action = module.reconcile(&mut round, own(vec![resting(105.1, 3.0, 1.0)]));
    let action = module.reconcile(&mut round, compared(&action));
    assert!(matches!(action, StaticAction::Done));

    let mut round = start(&mut module);
    let action = module.reconcile(&mut round, own(vec![resting(105.2, 2.0, 0.0)]));
    let action = module.reconcile(&mut round, compared(&action));
    assert_eq!(cancelled(&action), ("okx".to_string(), "A".to_string()));
    let action = module.reconcile(&mut round, StaticEvent::Completed { now: 0 });
    assert!(matches!(action, StaticAction::PlaceTp { position: 0, .. }));

    let mut round = start(&mut module);
    let two = vec![resting(105.0, 2.0, 0.0), resting(105.0, 2.0, 0.0)];
    let action = module.reconcile(&mut round, own(two));
    assert_eq!(cancelled(&action), ("okx".to_string(), "A".to_string()));
    let action = module.reconcile(&mut round, StaticEvent::Failed);
    assert!(matches!(action, StaticAction::Done));
}

#[test]
fn coverage_allows_one_step() {
    let covered = |order: OrderRow| {
        is_covered(&values(&coverage(&order, n(105.0), n(2.0), n(0.5), n(0.25))))
    };
    assert!(covered(resting(105.0, 2.0, 0.0)));
    assert!(covered(resting(105.5, 2.25, 0.0)));
    assert!(covered(resting(104.5, 3.75, 2.0)));
    assert!(!covered(resting(106.0, 2.0, 0.0)));
    assert!(!covered(resting(105.0, 2.5, 0.0)));
    assert!(!covered(resting(f64::NAN, 2.0, 0.0)));
}

#[test]
fn dry_run_records_a_target_once() {
    let mut module = protect(vec![rule("A", Some(3.0), Some(5.0))]);
    module.sweep_pending = false;
    let target = |module: &mut StaticProtect, size: f64| {
        let positions = vec![position("okx", "A", size, 100.0, 100.0)];
        let mut round = StaticRound::new(positions, Vec::new(), true);
        module.reconcile(&mut round, StaticEvent::Begin);
        module.reconcile(&mut round, level(97.0, 0));
        let action = module.reconcile(&mut round, level(105.0, 0));
        let placed = matches!(action, StaticAction::PlaceTp { .. });
        if placed {
            module.reconcile(&mut round, StaticEvent::Completed { now: 0 });
        }
        placed
    };
    assert!(target(&mut module, 2.0));
    assert!(!target(&mut module, 2.0));
    assert!(target(&mut module, 3.0));
    assert!(!target(&mut module, 3.0));
}

#[test]
fn gone_positions_are_cleaned_up() {
    let mut module = protect(vec![rule("*", Some(3.0), None)]);
    module.sweep_pending = false;
    let mut round = StaticRound::new(
        vec![position("okx", "A", 2.0, 100.0, 100.0)],
        Vec::new(),
        false,
    );
    module.reconcile(&mut round, StaticEvent::Begin);
    let action = module.reconcile(&mut round, level(97.0, 0));
    assert!(matches!(action, StaticAction::Done));
    assert!(module.known.contains("okx", "A"));

    let mut round = StaticRound::new(Vec::new(), Vec::new(), false);
    let action = module.reconcile(&mut round, StaticEvent::Begin);
    assert_eq!(cancelled(&action), ("okx".to_string(), "A".to_string()));
    let action = module.reconcile(&mut round, StaticEvent::Failed);
    assert!(matches!(action, StaticAction::Done));
    assert!(module.known.contains("okx", "A"));

    let mut round = StaticRound::new(Vec::new(), Vec::new(), false);
    module.reconcile(&mut round, StaticEvent::Begin);
    let action = module.reconcile(&mut round, StaticEvent::Completed { now: 5 });
    assert!(matches!(action, StaticAction::Done));
    assert!(!module.known.contains("okx", "A"));
}

#[test]
fn sweep_runs_once_and_spares_live_positions() {
    let mut module = protect(vec![
        rule("A", Some(3.0), None),
        rule("*", Some(3.0), None),
        rule("B", Some(3.0), None),
    ]);
    let exchanges = vec!["okx".to_string(), "binance_um".to_string()];
    let positions = vec![position("okx", "A", 2.0, 100.0, 100.0)];
    let mut round = StaticRound::new(positions, exchanges.clone(), false);
    module.reconcile(&mut round, StaticEvent::Begin);
    let action = module.reconcile(&mut round, level(97.0, 0));
    assert_eq!(cancelled(&action), ("okx".to_string(), "B".to_string()));
    let action = module.reconcile(&mut round, StaticEvent::Failed);
    assert_eq!(cancelled(&action), ("binance_um".to_string(), "A".to_string()));
    let action = module.reconcile(&mut round, StaticEvent::Completed { now: 0 });
    assert_eq!(cancelled(&action), ("binance_um".to_string(), "B".to_string()));
    let action = module.reconcile(&mut round, StaticEvent::Completed { now: 0 });
    assert!(matches!(action, StaticAction::Done));

    let positions = vec![position("okx", "A", 2.0, 100.0, 100.0)];
    let mut round = StaticRound::new(positions, exchanges, false);
    module.reconcile(&mut round, StaticEvent::Begin);
    let action = module.reconcile(&mut round, level(97.0, 0));
    assert!(matches!(action, StaticAction::Done));
}

#[test]
fn best_mark_is_on_record() {
    let mut module = ProfitLock::new(&lock_rules());
    let marks = [101.0, 104.0, 102.0, 103.5];
    let best = [101.0, 104.0, 104.0, 104.0];
    for (mark, expected) in marks.into_iter().zip(best) {
        lock_round(&mut module, &[("A", 1.0, mark), ("B", 1.0, 500.0)], 0);
        let water = module.water.get("okx:A").unwrap();
        assert_eq!(f64::from_bits(water.bits), expected);
    }
    assert!(!module.water.contains("okx:B"));
}

#[test]
fn better_prices_stay_armed() {
    let steps = [90.0, 95.0, 95.1, 100.0, 104.9, 105.0, 105.1, 500.0, f64::MAX];
    for activation in [-3.0, 0.0, 5.0] {
        for pair in steps.windows(2) {
            assert!(
                !is_armed(100.0, pair[0], activation, true)
                    || is_armed(100.0, pair[1], activation, true)
            );
            assert!(
                !is_armed(100.0, pair[1], activation, false)
                    || is_armed(100.0, pair[0], activation, false)
            );
        }
        assert!(!is_armed(0.0, 500.0, activation, true));
        assert!(!is_armed(-100.0, 500.0, activation, false));
    }
}

#[test]
fn best_mark_carries_from_round_to_round() {
    let mut module = ProfitLock::new(&lock_rules());
    lock_round(&mut module, &[("A", 1.0, 104.0)], 0);
    lock_round(&mut module, &[("A", 1.0, 102.0)], 1);
    let kept = module.water.get("okx:A").unwrap();
    assert_eq!(f64::from_bits(kept.bits), 104.0);
    lock_round(&mut module, &[], 2);
    lock_round(&mut module, &[("A", 1.0, 101.0)], 3);
    let anew = module.water.get("okx:A").unwrap();
    assert_eq!(f64::from_bits(anew.bits), 101.0);
}
