use extrema_guard::config::{
    GuardConfig, GuardSection, ProfitLockSection, RunMode, StaticProtectSection,
};
use extrema_guard::executor::{
    close_value, lob_client_for, tp_value, Cancellation, GuardExecutor, InstrumentInfo, OrderRow,
    OrderSide, OrderType, Placement, RoundedSize, TimeInForce, Venue,
};
use extrema_guard::number::{Float64, Formula, Quote};
use extrema_guard::ownership::{own_id_for, OrderCounter};
use extrema_guard::positions::{PositionRow, PositionSide, PositionSnapshot};

fn n(x: f64) -> Float64 {
    Float64 { bits: x.to_bits() }
}

fn q(x: f64) -> Quote {
    Quote {
        value: n(x),
        text: format!("{}", x),
    }
}

fn eval(formula: &Formula) -> f64 {
    match formula {
        Formula::Value(x) => f64::from_bits(x.bits),
        Formula::Sum(a, b) => eval(a) + eval(b),
        Formula::Difference(a, b) => eval(a) - eval(b),
        Formula::Product(a, b) => eval(a) * eval(b),
        Formula::Quotient(a, b) => eval(a) / eval(b),
    }
}

fn config(mode: RunMode, exchanges: &[&str]) -> GuardConfig {
    GuardConfig {
        guard: GuardSection {
            mode,
            i_understand_live_orders: true,
            exchanges: exchanges.iter().map(|name| name.to_string()).collect(),
            poll_seconds: 5,
            schedule_task_id: 1,
            max_order_notional: q(1_000.0),
            min_action_interval_ms: 1_500,
            action_log: "guard_actions.log".to_string(),
        },
        static_protect: StaticProtectSection::default(),
        profit_lock: ProfitLockSection::default(),
    }
}

fn info(inst: &str) -> InstrumentInfo {
    InstrumentInfo {
        inst: inst.to_string(),
        lot_size: n(0.01),
        tick_size: n(0.1),
        min_lmt_size: n(0.02),
        min_mkt_size: n(0.03),
    }
}

fn executor(mode: RunMode) -> GuardExecutor {
    let metadata = vec![vec![info("A")], Vec::new()];
    GuardExecutor::connect(&config(mode, &["okx", "gate_futures"]), &metadata).unwrap()
}

fn position(size: f64) -> PositionSnapshot {
    PositionSnapshot {
        exchange: "okx".to_string(),
        inst: "A".to_string(),
        size: n(size),
        avg_price: n(100.0),
        mark_price: n(100.0),
    }
}

fn rounded(size: &str, price: f64) -> RoundedSize {
    let number: f64 = size.parse().unwrap();
    let notional = eval(&tp_value(&q(price), n(number)));
    RoundedSize {
        size: size.to_string(),
        size_num: n(number),
        notional: Quote {
            value: n(notional),
            text: format!("{:.2}", notional),
        },
    }
}

#[test]
fn venues_by_name() {
    assert_eq!(lob_client_for("hyperliquid").unwrap(), Venue::Hyperliquid);
    assert_eq!(lob_client_for("binance_um").unwrap(), Venue::BinanceUm);
    assert_eq!(lob_client_for("okx").unwrap(), Venue::Okx);
    assert_eq!(lob_client_for("gate_futures").unwrap(), Venue::GateFutures);
    let bad = GuardExecutor::connect(
        &config(RunMode::DryRun, &["okx", "kraken"]),
        &vec![Vec::new(), Vec::new()],
    );
    assert!(bad.unwrap_err().message.contains("kraken"));
}

#[test]
fn unknown_exchanges_and_instruments_are_refused() {
    let executor = executor(RunMode::DryRun);
    assert_eq!(
        executor.instrument_steps("kraken", "A").unwrap_err().message,
        "unknown exchange: kraken"
    );
    assert_eq!(
        executor.instrument_steps("gate_futures", "A").unwrap_err().message,
        "gate_futures: unknown instrument A"
    );
    let (tick, lot) = executor.instrument_steps("okx", "A").unwrap();
    assert_eq!(f64::from_bits(tick.bits), 0.1);
    assert_eq!(f64::from_bits(lot.bits), 0.01);
    assert!(executor.is_dry_run());
    assert_eq!(executor.exchanges(), vec!["okx", "gate_futures"]);
    assert_eq!(executor.limits().min_action_interval_ms, 1_500);
}

#[test]
fn positions_are_collected_exchange_by_exchange() {
    let row = |inst: &str, side: PositionSide| PositionRow {
        inst: inst.to_string(),
        position_side: side,
        size: n(1.0),
        avg_price: n(1.0),
        mark_price: n(1.0),
    };
    let rows = vec![
        vec![row("A", PositionSide::Long), row("B", PositionSide::Unknown)],
        vec![row("C", PositionSide::Short)],
    ];
    let found = executor(RunMode::DryRun).positions(&rows);
    assert_eq!(found.len(), 2);
    assert_eq!((found[0].exchange.as_str(), found[0].inst.as_str()), ("okx", "A"));
    assert_eq!((found[1].exchange.as_str(), found[1].inst.as_str()), ("gate_futures", "C"));
    assert!(!found[1].is_long());
}

#[test]
fn take_profit_in_a_dry_run_is_only_recorded() {
    let mut counter = OrderCounter::new();
    let mut executor = executor(RunMode::DryRun);
    let placed = executor
        .place_tp_limit(&position(2.0), &q(105.0), &rounded("2", 105.0), "105.0", &mut counter, 5, 0)
        .unwrap();
    match placed {
        Placement::DryRun { entry } => {
            let id = own_id_for("okx", 5, 0);
            assert_eq!(
                entry.line,
                format!("DRY-RUN tp_limit okx A SELL 2 @ 105.0 cli_id={}\n", id)
            );
            assert_eq!(entry.path, "guard_actions.log");
        }
        other => panic!("unexpected {:?}", other),
    }
    assert_eq!(counter.next, 1);
}

#[test]
fn take_profit_is_a_reduce_only_limit() {
    let mut counter = OrderCounter::new();
    let mut executor = executor(RunMode::Live);
    let placed = executor
        .place_tp_limit(&position(-2.0), &q(95.0), &rounded("2", 95.0), "95", &mut counter, 5, 0)
        .unwrap();
    match placed {
        Placement::Send { request, action, wait } => {
            let id = own_id_for("okx", 5, 0);
            assert_eq!(wait, 0);
            assert_eq!(action, format!("tp_limit okx A BUY 2 @ 95 cli_id={}", id));
            assert_eq!(request.inst, "A");
            assert_eq!(request.side, OrderSide::BUY);
            assert_eq!(request.size, "2");
            assert_eq!(request.order_type, OrderType::Limit);
            assert_eq!(request.price.as_deref(), Some("95"));
            assert!(request.reduce_only);
            assert_eq!(request.time_in_force, Some(TimeInForce::GTC));
            assert_eq!(request.client_order_id, id);
        }
        other => panic!("unexpected {:?}", other),
    }
}

#[test]
fn take_profit_refusals() {
    let mut counter = OrderCounter::new();
    let mut executor = executor(RunMode::Live);
    let held = position(2.0);
    assert_eq!(
        executor.tp_rounding(&held, &q(-1.0)).unwrap_err().message,
        "okx A: refusing tp at insane price -1"
    );
    let rounding = executor.tp_rounding(&held, &q(105.0)).unwrap();
    assert_eq!(f64::from_bits(rounding.size.bits), 2.0);
    assert_eq!(f64::from_bits(rounding.lot_size.bits), 0.01);
    assert_eq!(f64::from_bits(rounding.tick_size.bits), 0.1);
    let refused = executor.place_tp_limit(&held, &q(105.0), &rounded("20", 105.0), "105", &mut counter, 5, 0);
    assert_eq!(
        refused.unwrap_err().message,
        "okx A: order notional 2100.00 exceeds max_order_notional 1000; raise the limit in guard.toml if intended"
    );
    let small = executor.place_tp_limit(&held, &q(105.0), &rounded("0.01", 105.0), "105", &mut counter, 5, 0);
    assert!(matches!(small.unwrap(), Placement::BelowMinimum));
    assert_eq!(counter.next, 0);
}

#[test]
fn closing_is_a_reduce_only_market_order() {
    let mut counter = OrderCounter::new();
    let mut executor = executor(RunMode::Live);
    let held = position(2.0);
    let rounding = executor.close_rounding(&held, &q(50.0)).unwrap();
    assert_eq!(eval(&rounding.size), 1.0);
    match executor.close_pct(&held, &q(50.0), &rounded("1", 100.0), &mut counter, 5, 0).unwrap() {
        Placement::Send { request, action, wait } => {
            let id = own_id_for("okx", 5, 0);
            assert_eq!(wait, 0);
            assert_eq!(action, format!("close 50% okx A SELL 1 cli_id={}", id));
            assert_eq!(request.order_type, OrderType::Market);
            assert_eq!(request.side, OrderSide::SELL);
            assert!(request.price.is_none());
            assert!(request.reduce_only);
            assert!(request.time_in_force.is_none());
        }
        other => panic!("unexpected {:?}", other),
    }
    for pct in [0.0, -0.0, -1.0, 100.5, f64::NAN] {
        let refused = executor.close_pct(&held, &q(pct), &rounded("1", 100.0), &mut counter, 5, 0);
        assert_eq!(refused.unwrap_err().message, format!("invalid close pct: {}", pct));
    }
    let small = executor.close_pct(&held, &q(1.0), &rounded("0.02", 100.0), &mut counter, 5, 0);
    assert!(matches!(small.unwrap(), Placement::BelowMinimum));
    let large = executor.close_pct(&held, &q(100.0), &rounded("10.5", 100.0), &mut counter, 5, 0);
    assert!(large.is_err());
}

#[test]
fn cancellations_name_the_order() {
    let mut live = executor(RunMode::Live);
    match live.cancel_order("okx", "A", Some("42"), Some(" "), 0).unwrap() {
        Cancellation::Send { request, action, wait } => {
            assert_eq!(wait, 0);
            assert_eq!(action, "cancel okx A order_id=42 cli_id=");
            assert_eq!(request.order_id.as_deref(), Some("42"));
            assert!(request.cli_order_id.is_none());
        }
        other => panic!("unexpected {:?}", other),
    }
    assert_eq!(
        live.cancel_order("okx", "A", Some(""), None, 0).unwrap_err().message,
        "cancel requires order_id or cli_order_id"
    );
    assert_eq!(
        live.cancel_order("kraken", "A", Some("1"), None, 0).unwrap_err().message,
        "unknown exchange: kraken"
    );
    match executor(RunMode::DryRun).cancel_order("okx", "A", None, Some("c"), 0).unwrap() {
        Cancellation::DryRun { entry } => {
            assert_eq!(entry.line, "DRY-RUN cancel okx A order_id= cli_id=c\n");
        }
        other => panic!("unexpected {:?}", other),
    }
    assert_eq!(
        live.acknowledged("cancel okx A", "42", "Canceled").line,
        "cancel okx A -> ack order_id=42 status=Canceled\n"
    );
    assert_eq!(
        GuardExecutor::failed("cancel okx A", "timeout").message,
        "cancel okx A: timeout"
    );
    assert_eq!(live.audit("remark").line, "remark\n");
}

#[test]
fn only_own_orders_are_swept() {
    let order = |id: Option<&str>| OrderRow {
        cli_order_id: id.map(|id| id.to_string()),
        price: n(1.0),
        size: n(1.0),
        executed_size: n(0.0),
    };
    let orders = vec![
        order(Some("guard1")),
        order(None),
        order(Some("manual")),
        order(Some("guard2")),
    ];
    let mut executor = executor(RunMode::Live);
    assert_eq!(executor.own_open_orders("okx", &orders).len(), 2);
    assert_eq!(executor.cancel_own_orders("okx", &orders), vec!["guard1", "guard2"]);
    assert!(executor.cancel_own_order("okx", "A", "guard1", 0).is_ok());
    assert_eq!(
        executor.cancel_own_order("okx", "A", "manual", 0).unwrap_err().message,
        "order manual is not owned by the built-in guard modules"
    );
}

fn cancel_wait(executor: &mut GuardExecutor, exchange: &str, now: u128) -> u128 {
    match executor.cancel_order(exchange, "A", Some("1"), None, now).unwrap() {
        Cancellation::Send { wait, .. } => wait,
        other => panic!("unexpected {:?}", other),
    }
}

#[test]
fn actions_keep_their_distance() {
    let mut executor = executor(RunMode::Live);
    let mut counter = OrderCounter::new();
    let interval: u128 = 1_500_000_000;
    assert_eq!(cancel_wait(&mut executor, "okx", 1_000), 0);
    assert_eq!(cancel_wait(&mut executor, "okx", 2_000), interval - 1_000);
    assert_eq!(cancel_wait(&mut executor, "gate_futures", 2_000), 0);
    let placed = executor.close_pct(
        &position(2.0),
        &q(50.0),
        &rounded("1", 100.0),
        &mut counter,
        5,
        3_000,
    );
    match placed.unwrap() {
        Placement::Send { wait, .. } => assert_eq!(wait, 2 * interval - 2_000),
        other => panic!("unexpected {:?}", other),
    }
    assert_eq!(cancel_wait(&mut executor, "okx", 1_000_000_000_000), 0);
}

#[test]
fn actions_that_are_not_sent_reserve_nothing() {
    let mut dry = executor(RunMode::DryRun);
    assert!(dry.cancel_order("okx", "A", Some("1"), None, 1_000).is_ok());
    assert!(!dry.last_action.contains("okx"));
    let mut live = executor(RunMode::Live);
    let mut counter = OrderCounter::new();
    let held = position(2.0);
    assert!(live.cancel_order("okx", "A", None, None, 1_000).is_err());
    let small = live.close_pct(&held, &q(1.0), &rounded("0.02", 100.0), &mut counter, 5, 1_000);
    assert!(matches!(small.unwrap(), Placement::BelowMinimum));
    assert!(!live.last_action.contains("okx"));
}

#[test]
fn executors_share_one_order_counter() {
    let mut counter = OrderCounter::new();
    let mut ids = Vec::new();
    for mut executor in [executor(RunMode::Live), executor(RunMode::Live)] {
        let placed =
            executor.close_pct(&position(2.0), &q(50.0), &rounded("1", 100.0), &mut counter, 5, 0);
        match placed.unwrap() {
            Placement::Send { request, .. } => ids.push(request.client_order_id),
            other => panic!("unexpected {:?}", other),
        }
    }
    assert_eq!(ids, vec![own_id_for("okx", 5, 0), own_id_for("okx", 5, 1)]);
    let mut last = OrderCounter { next: u64::MAX };
    assert_eq!(last.next_id("okx", 5), own_id_for("okx", 5, u64::MAX));
    assert_eq!(last.next, 0);
}

#[test]
fn orders_are_valued_at_their_own_price() {
    let mut held = position(2.0);
    held.mark_price = n(90.0);
    assert_eq!(eval(&tp_value(&q(105.0), n(2.0))), 210.0);
    assert_eq!(eval(&close_value(&held, n(2.0))), 180.0);
}
