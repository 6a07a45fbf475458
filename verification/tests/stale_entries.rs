use extrema_guard::config::{
    GuardConfig, GuardSection, ProfitLockSection, RunMode, StaticProtectSection,
};
use extrema_guard::eligibility::{GuardOrder, InstrumentType, OkxPositionMode};
use extrema_guard::executor::GuardExecutor;
use extrema_guard::number::{Float64, Quote};
use extrema_guard::okx_orders::{
    check_page, guard_orders, net_position, order_input, order_inputs, parse_bool, parse_millis,
    parse_non_negative, parse_positive, position_mode, RawBracket, RawFlag, RawOrder,
};
use extrema_guard::outside_range::{
    cancel_is_terminal, default_outside_seconds, default_state_path, ConfirmedOrder,
    OkxOutsideRangeCancel, OkxOutsideRangeCancelConfig, OutsideAction, OutsideEvent, OutsideRound,
};
use extrema_guard::positions::{PositionRow, PositionSide};
use extrema_guard::prices::{instruments, last_price, usable_last, Ticker};
use extrema_guard::tracker::Observation;

fn n(x: f64) -> Float64 {
    Float64 { bits: x.to_bits() }
}

fn q(x: f64) -> Quote {
    Quote {
        value: n(x),
        text: format!("{}", x),
    }
}

fn text(value: &str) -> Option<String> {
    Some(value.to_string())
}

fn raw(inst_id: &str, ord_id: &str) -> RawOrder {
    RawOrder {
        inst_type: text("SWAP"),
        inst_id: inst_id.to_string(),
        ord_id: ord_id.to_string(),
        cl_ord_id: text(""),
        side: "buy".to_string(),
        pos_side: text("net"),
        ord_type: "limit".to_string(),
        state: "live".to_string(),
        category: text("normal"),
        source: text(""),
        is_tp_limit: text("false"),
        px: Some(q(100.0)),
        acc_fill_sz: Some(q(0.0)),
        reduce_only: Some(RawFlag::Text("false".to_string())),
        c_time: text("1700000000000"),
        u_time: text("1700000000001"),
        attach_algo_ords: vec![RawBracket {
            fail_code: None,
            active_px: text(""),
            callback_ratio: None,
            callback_spread: None,
            tp_trigger_ratio: None,
            sl_trigger_ratio: None,
            tp_trigger_px: Some(q(110.0)),
            tp_ord_px: Some(q(111.0)),
            sl_trigger_px: Some(q(90.0)),
        }],
        tp_trigger_px: None,
        tp_ord_px: None,
        sl_trigger_px: None,
    }
}

fn guarded(rows: Vec<RawOrder>) -> Vec<GuardOrder> {
    let inputs = order_inputs(rows, Vec::new()).unwrap();
    guard_orders(&inputs, OkxPositionMode::Net, &Some(Vec::new()))
}

fn ticker(inst: &str, price: f64, timestamp: u64) -> Ticker {
    Ticker {
        inst: inst.to_string(),
        price: q(price),
        timestamp,
    }
}

fn executor(exchanges: &[&str]) -> GuardExecutor {
    let config = GuardConfig {
        guard: GuardSection {
            mode: RunMode::Live,
            i_understand_live_orders: true,
            exchanges: exchanges.iter().map(|name| name.to_string()).collect(),
            poll_seconds: 5,
            schedule_task_id: 1,
            max_order_notional: q(1_000.0),
            min_action_interval_ms: 1_000,
            action_log: "guard_actions.log".to_string(),
        },
        static_protect: StaticProtectSection::default(),
        profit_lock: ProfitLockSection::default(),
    };
    let metadata = exchanges.iter().map(|_| Vec::new()).collect();
    GuardExecutor::connect(&config, &metadata).unwrap()
}

fn config() -> OkxOutsideRangeCancelConfig {
    OkxOutsideRangeCancelConfig {
        enabled: true,
        schedule_duration_sec: 60,
        schedule_task_id: 3,
        outside_seconds: 100,
        state_path: "state.toml".to_string(),
    }
}

fn module() -> OkxOutsideRangeCancel {
    OkxOutsideRangeCancel::new(&config(), &executor(&["okx"]), None).unwrap()
}

const SECOND: u64 = 1_000_000;
const NOW: u64 = 1_700_000_000_000_000;

/// Runs a round up to the point where the state is stored, at one price for `A_USDT_PERP`.
fn observe(
    module: &mut OkxOutsideRangeCancel,
    rows: Vec<RawOrder>,
    price: f64,
    now_us: u64,
) -> (OutsideRound, Vec<String>) {
    let mut round = OutsideRound::new();
    let (_, action) = module.reconcile(&mut round, OutsideEvent::Begin);
    assert!(matches!(action, OutsideAction::FetchOrders));
    let orders = guarded(rows);
    let (_, action) = module.reconcile(&mut round, OutsideEvent::Orders { orders });
    assert!(matches!(action, OutsideAction::FetchPrices { .. }));
    let tickers = vec![ticker("A_USDT_PERP", price, now_us)];
    let (remarks, action) = module.reconcile(&mut round, OutsideEvent::Prices { tickers, now_us });
    assert!(matches!(action, OutsideAction::Save));
    (round, remarks)
}

/// Two observations at 115 that are 90 seconds apart, and a third that makes a candidate.
fn with_candidate(module: &mut OkxOutsideRangeCancel) -> OutsideRound {
    let rows = || vec![raw("A-USDT-SWAP", "1")];
    observe(module, rows(), 115.0, NOW);
    observe(module, rows(), 115.0, NOW + 90 * SECOND);
    let (mut round, remarks) = observe(module, rows(), 115.0, NOW + 100 * SECOND);
    assert!(remarks.is_empty());
    let (_, action) = module.reconcile(&mut round, OutsideEvent::Saved);
    assert!(matches!(action, OutsideAction::FetchOrders));
    round
}

fn recheck(
    module: &mut OkxOutsideRangeCancel,
    round: &mut OutsideRound,
    rows: Vec<RawOrder>,
    price: f64,
) -> (Vec<String>, OutsideAction) {
    let orders = guarded(rows);
    module.reconcile(round, OutsideEvent::Orders { orders });
    let now_us = NOW + 101 * SECOND;
    let tickers = vec![ticker("A_USDT_PERP", price, now_us)];
    module.reconcile(round, OutsideEvent::Prices { tickers, now_us })
}

#[test]
fn instrument_ids_become_names() {
    for (id, name) in [
        ("BTC-USDT-SWAP", "BTC_USDT_PERP"),
        ("BTC-USDT-260327", "BTC_USDT_FUT_260327"),
        ("BTC-USDT", "BTC_USDT"),
        ("BTC-USDT-26032", "BTC-USDT-26032"),
        ("BTC-USDT-260327-C", "BTC-USDT-260327-C"),
        ("BTC-USDT-26032X", "BTC-USDT-26032X"),
        ("--SWAP", "__PERP"),
        ("-", "_"),
        ("BTC", "BTC"),
        ("", ""),
    ] {
        let input = order_input(raw(id, "1"));
        assert_eq!(input.inst, name);
        assert_eq!(input.venue_inst, id);
    }
}

#[test]
fn reported_orders_are_read() {
    let input = order_input(raw("A-USDT-SWAP", "1"));
    assert_eq!(input.inst_type, InstrumentType::Perpetual);
    assert_eq!(input.order_id, "1");
    assert_eq!(input.client_order_id, None);
    assert_eq!(input.position_side.as_deref(), Some("net"));
    assert_eq!(input.is_tp_limit, Some(false));
    assert_eq!(input.reduce_only, Some(false));
    assert_eq!(input.created_time_us, Some(1_700_000_000_000_000));
    assert_eq!(input.updated_time_us, Some(1_700_000_000_001_000));
    assert_eq!(input.price.as_ref().unwrap().text, "100");
    assert_eq!(input.attached.len(), 1);
    assert!(!input.attached[0].unsupported);
    assert_eq!(input.attached[0].take_profit.as_ref().unwrap().text, "110");
    assert!(input.top_level_bracket.take_profit.is_none());

    let mut row = raw("A-USDT-260327", "1");
    row.inst_type = text("FUTURES");
    row.cl_ord_id = text("c1");
    row.reduce_only = Some(RawFlag::Truth(true));
    row.px = Some(q(f64::INFINITY));
    row.acc_fill_sz = Some(q(-1.0));
    row.attach_algo_ords[0].tp_trigger_px = Some(q(0.0));
    row.attach_algo_ords[0].sl_trigger_ratio = text("0.1");
    row.tp_ord_px = Some(q(5.0));
    let input = order_input(row);
    assert_eq!(input.inst_type, InstrumentType::Futures);
    assert_eq!(input.client_order_id.as_deref(), Some("c1"));
    assert_eq!(input.reduce_only, Some(true));
    assert!(input.price.is_none());
    assert!(input.executed_size.is_none());
    assert_eq!(input.attached[0].take_profit.as_ref().unwrap().text, "111");
    assert!(input.attached[0].unsupported);
    assert_eq!(input.top_level_bracket.take_profit.as_ref().unwrap().text, "5");

    let mut row = raw("A-USDT-SWAP", "1");
    row.inst_type = text("MARGIN");
    row.reduce_only = Some(RawFlag::Other);
    let input = order_input(row);
    assert_eq!(input.inst_type, InstrumentType::Unknown);
    assert_eq!(input.reduce_only, None);
}

#[test]
fn small_parsers() {
    assert_eq!(parse_bool("true"), Some(true));
    assert_eq!(parse_bool("1"), Some(true));
    assert_eq!(parse_bool("false"), Some(false));
    assert_eq!(parse_bool("0"), Some(false));
    assert_eq!(parse_bool("TRUE"), None);
    assert_eq!(parse_millis(&text("5")), Some(5_000));
    assert_eq!(parse_millis(&text("18446744073709552")), None);
    assert_eq!(parse_millis(&text("x")), None);
    assert_eq!(parse_millis(&None), None);
    assert!(parse_positive(Some(q(0.0))).is_none());
    assert!(parse_positive(Some(q(5e-324))).is_some());
    assert!(parse_positive(None).is_none());
    assert!(parse_non_negative(Some(q(0.0))).is_some());
    assert!(parse_non_negative(Some(q(-0.0))).is_some());
    assert!(parse_non_negative(Some(q(f64::NAN))).is_none());
}

#[test]
fn position_modes_by_word() {
    assert_eq!(position_mode("net_mode"), Some(OkxPositionMode::Net));
    assert_eq!(position_mode("long_short_mode"), Some(OkxPositionMode::LongShort));
    assert_eq!(position_mode("net"), None);
}

#[test]
fn full_pages_are_refused() {
    let rows = |count: usize| (0..count).map(|_| raw("A-USDT-SWAP", "1")).collect::<Vec<_>>();
    assert!(check_page("SWAP", 99).is_ok());
    assert_eq!(order_inputs(rows(99), rows(99)).unwrap().len(), 198);
    assert_eq!(
        order_inputs(rows(100), rows(100)).unwrap_err().message,
        "full OKX SWAP open-order page; scan would be incomplete"
    );
    assert_eq!(
        order_inputs(rows(1), rows(100)).unwrap_err().message,
        "full OKX FUTURES open-order page; scan would be incomplete"
    );
}

#[test]
fn net_positions_decide_by_instrument() {
    let row = |inst: &str, side: PositionSide, size: f64| PositionRow {
        inst: inst.to_string(),
        position_side: side,
        size: n(size),
        avg_price: n(1.0),
        mark_price: n(1.0),
    };
    let rows = Some(vec![
        row("A_USDT_PERP", PositionSide::Short, 2.0),
        row("B_USDT_PERP", PositionSide::Both, 3.0),
        row("C_USDT_PERP", PositionSide::Unknown, 3.0),
        row("A_USDT_PERP", PositionSide::Long, 9.0),
    ]);
    let net = |inst: &str| net_position(&rows, inst).map(|x| f64::from_bits(x.bits));
    assert_eq!(net("A_USDT_PERP"), Some(-2.0));
    assert_eq!(net("B_USDT_PERP"), Some(3.0));
    assert_eq!(net("C_USDT_PERP"), None);
    assert_eq!(net("D_USDT_PERP"), Some(0.0));
    assert!(net_position(&None, "A_USDT_PERP").is_none());

    let inputs = order_inputs(
        vec![
            raw("A-USDT-SWAP", "1"),
            raw("B-USDT-SWAP", "2"),
            raw("C-USDT-SWAP", "3"),
            raw("D-USDT-SWAP", "4"),
        ],
        Vec::new(),
    )
    .unwrap();
    let orders = guard_orders(&inputs, OkxPositionMode::Net, &rows);
    let ids: Vec<&str> = orders.iter().map(|order| order.order_id.as_str()).collect();
    assert_eq!(ids, vec!["2", "4"]);
    assert!(guard_orders(&inputs, OkxPositionMode::Net, &None).is_empty());
}

#[test]
fn instruments_are_sorted_and_distinct() {
    let mut orders = guarded(vec![
        raw("B-USDT-SWAP", "1"),
        raw("A-USDT-SWAP", "2"),
        raw("B-USDT-SWAP", "3"),
        raw("C-USDT-SWAP", "4"),
    ]);
    orders[3].inst_type = InstrumentType::Futures;
    assert_eq!(
        instruments(&orders, InstrumentType::Perpetual),
        vec!["A_USDT_PERP", "B_USDT_PERP"]
    );
    assert_eq!(instruments(&orders, InstrumentType::Futures), vec!["C_USDT_PERP"]);
    assert!(instruments(&orders, InstrumentType::Spot).is_empty());
}

#[test]
fn only_fresh_prices_are_usable() {
    let usable = |price: f64, timestamp: u64, now: u64| {
        usable_last(Some(&ticker("A", price, timestamp)), now).is_some()
    };
    assert!(usable(1.0, NOW, NOW));
    assert!(usable(1.0, NOW, NOW + 120 * SECOND));
    assert!(!usable(1.0, NOW, NOW + 120 * SECOND + 1));
    assert!(usable(1.0, NOW + 5 * SECOND, NOW));
    assert!(!usable(1.0, NOW + 5 * SECOND + 1, NOW));
    assert!(!usable(0.0, NOW, NOW));
    assert!(!usable(f64::INFINITY, NOW, NOW));
    assert!(usable(1.0, u64::MAX, u64::MAX));
    assert!(usable_last(None, NOW).is_none());
    let tickers = vec![ticker("A", 1.0, NOW), ticker("B", 2.0, NOW), ticker("A", 3.0, NOW)];
    assert_eq!(last_price(&tickers, "A", NOW).unwrap().text, "3");
    assert_eq!(last_price(&tickers, "B", NOW).unwrap().text, "2");
    assert!(last_price(&tickers, "C", NOW).is_none());
}

#[test]
fn configuration_is_checked() {
    assert_eq!(default_outside_seconds(), 2_220);
    assert_eq!(default_state_path(), "outside_range_state.toml");
    assert!(config().validate().is_ok());
    let message = "OKX outside-range schedule and timeout must be positive";
    let mut bad = config();
    bad.schedule_duration_sec = 0;
    assert_eq!(bad.validate().unwrap_err().message, message);
    let mut bad = config();
    bad.outside_seconds = 0;
    assert_eq!(bad.validate().unwrap_err().message, message);
    let mut bad = config();
    bad.state_path = " ".to_string();
    assert_eq!(
        bad.validate().unwrap_err().message,
        "okx_outside_range_cancel.state_path must not be empty"
    );
    let missing = OkxOutsideRangeCancel::new(&config(), &executor(&["binance_um"]), None);
    assert_eq!(
        missing.unwrap_err().message,
        "okx_outside_range_cancel requires okx in guard_executor.exchanges"
    );
    let stored = OkxOutsideRangeCancel::new(&config(), &executor(&["okx"]), Some((2, Vec::new())));
    assert_eq!(
        stored.unwrap_err().message,
        "invalid outside-range state: state.toml"
    );
    let mut off = config();
    off.enabled = false;
    let inert =
        OkxOutsideRangeCancel::new(&off, &executor(&["binance_um"]), Some((2, Vec::new())));
    assert!(!inert.unwrap().is_due(3));
}

#[test]
fn times_follow_from_the_configuration() {
    let module = module();
    assert_eq!(module.wait_us, 100 * SECOND);
    assert_eq!(module.max_gap_us, 90 * SECOND);
    assert!(module.is_due(3));
    assert!(!module.is_due(4));
    let mut long = config();
    long.outside_seconds = u64::MAX;
    long.schedule_duration_sec = u64::MAX;
    let long = OkxOutsideRangeCancel::new(&long, &executor(&["okx"]), None).unwrap();
    assert_eq!(long.wait_us, u64::MAX);
    assert_eq!(long.max_gap_us, u64::MAX);
}

#[test]
fn stored_stretches_go_on_after_a_restart() {
    let mut first = module();
    observe(&mut first, vec![raw("A-USDT-SWAP", "1")], 115.0, NOW);
    let stored: (u32, Vec<(String, Observation)>) = first.tracker.save();
    let mut second =
        OkxOutsideRangeCancel::new(&config(), &executor(&["okx"]), Some(stored)).unwrap();
    let (_, remarks) = observe(
        &mut second,
        vec![raw("A-USDT-SWAP", "1")],
        115.0,
        NOW + 50 * SECOND,
    );
    assert!(remarks.is_empty());
}

#[test]
fn watching_leaves_a_trail() {
    let mut module = module();
    let rows = || vec![raw("A-USDT-SWAP", "1")];
    let (mut round, remarks) = observe(&mut module, rows(), 115.5, NOW);
    assert_eq!(
        remarks,
        vec!["outside_range tracking_started inst=A_USDT_PERP order_id=1 side=TakeProfit last=115.5 tp=110 sl=90 reason=first_outside_observation"]
    );
    let (_, action) = module.reconcile(&mut round, OutsideEvent::Saved);
    assert!(matches!(action, OutsideAction::Done));

    let (_, remarks) = observe(&mut module, rows(), 105.0, NOW + SECOND);
    assert_eq!(
        remarks,
        vec!["outside_range tracking_reset inst=A_USDT_PERP order_id=1 reason=price_returned_inside"]
    );
    let (_, remarks) = observe(&mut module, rows(), 105.0, NOW + 2 * SECOND);
    assert!(remarks.is_empty());
    observe(&mut module, rows(), 80.0, NOW + 3 * SECOND);
    let (_, remarks) = observe(&mut module, rows(), 0.0, NOW + 4 * SECOND);
    assert_eq!(
        remarks,
        vec!["outside_range tracking_reset inst=A_USDT_PERP order_id=1 reason=last_price_unavailable"]
    );
    observe(&mut module, rows(), 80.0, NOW + 5 * SECOND);
    let (_, remarks) = observe(&mut module, Vec::new(), 80.0, NOW + 6 * SECOND);
    assert!(remarks.is_empty());
    assert!(!module.tracker.reset("1"));
}

#[test]
fn confirmed_cancellation_drops_the_record() {
    let mut module = module();
    let mut round = with_candidate(&mut module);
    let (remarks, action) =
        recheck(&mut module, &mut round, vec![raw("A-USDT-SWAP", "1")], 116.0);
    assert_eq!(
        remarks,
        vec!["outside_range cancel_candidate inst=A_USDT_PERP order_id=1 side=TakeProfit last=116 entry=100 tp=110 sl=90"]
    );
    match action {
        OutsideAction::Cancel {
            exchange,
            inst,
            order_id,
        } => {
            assert_eq!(exchange, "okx");
            assert_eq!(inst, "A_USDT_PERP");
            assert_eq!(order_id, "1");
        }
        other => panic!("unexpected {:?}", other),
    }
    let (_, action) = module.reconcile(&mut round, OutsideEvent::Cancelled { dry_run: false });
    match action {
        OutsideAction::Confirm {
            venue_inst,
            order_id,
        } => {
            assert_eq!(venue_inst, "A-USDT-SWAP");
            assert_eq!(order_id, "1");
        }
        other => panic!("unexpected {:?}", other),
    }
    let row = Some(ConfirmedOrder {
        state: "canceled".to_string(),
        filled: Some(q(0.5)),
    });
    let (remarks, action) = module.reconcile(&mut round, OutsideEvent::Confirmed { row });
    assert_eq!(
        remarks,
        vec!["outside_range cancel_confirmation inst=A_USDT_PERP order_id=1 state=canceled executed_size=0.5"]
    );
    assert!(matches!(action, OutsideAction::Save));
    let (_, action) = module.reconcile(&mut round, OutsideEvent::Saved);
    assert!(matches!(action, OutsideAction::Done));
    assert!(!module.tracker.reset("1"));
}

#[test]
fn unconfirmed_cancellation_stays_on_record() {
    let rows = || vec![raw("A-USDT-SWAP", "1")];
    for event in [
        OutsideEvent::Confirmed { row: None },
        OutsideEvent::Confirmed {
            row: Some(ConfirmedOrder {
                state: "live".to_string(),
                filled: None,
            }),
        },
        OutsideEvent::Failed,
    ] {
        let mut module = module();
        let mut round = with_candidate(&mut module);
        recheck(&mut module, &mut round, rows(), 116.0);
        module.reconcile(&mut round, OutsideEvent::Cancelled { dry_run: false });
        let (_, action) = module.reconcile(&mut round, event);
        assert!(matches!(action, OutsideAction::Done));
        assert!(module.tracker.reset("1"));
    }
    for event in [OutsideEvent::Failed, OutsideEvent::Cancelled { dry_run: true }] {
        let mut module = module();
        let mut round = with_candidate(&mut module);
        recheck(&mut module, &mut round, rows(), 116.0);
        let (_, action) = module.reconcile(&mut round, event);
        assert!(matches!(action, OutsideAction::Done));
        assert!(module.tracker.reset("1"));
    }
}

#[test]
fn preflight_stops_what_has_changed() {
    let mut gone = module();
    let mut round = with_candidate(&mut gone);
    let (remarks, action) = recheck(&mut gone, &mut round, Vec::new(), 116.0);
    assert!(remarks.is_empty());
    assert!(matches!(action, OutsideAction::Save));
    assert!(!gone.tracker.reset("1"));

    let mut unpriced = module();
    let mut round = with_candidate(&mut unpriced);
    let rows = || vec![raw("A-USDT-SWAP", "1")];
    let (remarks, action) = recheck(&mut unpriced, &mut round, rows(), -1.0);
    assert_eq!(
        remarks,
        vec!["outside_range tracking_reset inst=A_USDT_PERP order_id=1 reason=preflight_last_price_unavailable"]
    );
    assert!(matches!(action, OutsideAction::Save));

    let mut back = module();
    let mut round = with_candidate(&mut back);
    let (remarks, action) = recheck(&mut back, &mut round, rows(), 110.0);
    assert_eq!(
        remarks,
        vec!["outside_range tracking_reset inst=A_USDT_PERP order_id=1 reason=preflight_condition_changed"]
    );
    assert!(matches!(action, OutsideAction::Save));
    assert!(!back.tracker.reset("1"));

    let mut amended = module();
    let mut round = with_candidate(&mut amended);
    let mut row = raw("A-USDT-SWAP", "1");
    row.px = Some(q(101.0));
    let (_, action) = recheck(&mut amended, &mut round, vec![row], 116.0);
    assert!(matches!(action, OutsideAction::Save));
}

#[test]
fn failed_reads_end_the_round() {
    let mut module = module();
    let mut round = OutsideRound::new();
    module.reconcile(&mut round, OutsideEvent::Begin);
    let (remarks, action) = module.reconcile(&mut round, OutsideEvent::Failed);
    assert!(remarks.is_empty());
    assert!(matches!(action, OutsideAction::Done));
}

#[test]
fn final_states_are_terminal() {
    let order = guarded(vec![raw("A-USDT-SWAP", "1")]).remove(0);
    let judged = |state: &str| {
        let row = ConfirmedOrder {
            state: state.to_string(),
            filled: Some(q(-1.0)),
        };
        cancel_is_terminal(&order, Some(row))
    };
    for state in ["canceled", "mmp_canceled", "filled"] {
        assert!(judged(state).1);
    }
    for state in ["live", "partially_filled", "", "Canceled"] {
        assert!(!judged(state).1);
    }
    assert_eq!(
        judged("live").0,
        "outside_range cancel_confirmation inst=A_USDT_PERP order_id=1 state=live executed_size=0"
    );
    let (remark, terminal) = cancel_is_terminal(&order, None);
    assert_eq!(
        remark,
        "outside_range cancel_confirmation_missing inst=A_USDT_PERP order_id=1"
    );
    assert!(!terminal);
}

#[test]
fn prices_beyond_either_exit_count() {
    let mut module = module();
    let (_, remarks) = observe(&mut module, vec![raw("A-USDT-SWAP", "1")], 89.0, NOW);
    assert!(remarks[0].contains("side=StopLoss"));
    let (_, remarks) =
        observe(&mut module, vec![raw("A-USDT-SWAP", "1")], 111.0, NOW + SECOND);
    assert!(remarks[0].contains("side=TakeProfit"));
    assert!(remarks[0].contains("reason=breach_side_changed"));
}

#[test]
fn each_round_adds_one_sighting_per_order() {
    let mut module = module();
    let rows = || vec![raw("A-USDT-SWAP", "1"), raw("A-USDT-SWAP", "2")];
    observe(&mut module, rows(), 115.0, NOW);
    observe(&mut module, rows(), 116.0, NOW + 30 * SECOND);
    let (_, entries) = module.tracker.save();
    assert_eq!(entries.len(), 2);
    for (_, record) in &entries {
        assert_eq!(record.outside_since_us, NOW);
        assert_eq!(record.last_seen_us, NOW + 30 * SECOND);
    }
    observe(&mut module, vec![raw("A-USDT-SWAP", "2")], 116.0, NOW + 60 * SECOND);
    let (_, entries) = module.tracker.save();
    assert_eq!(entries.len(), 1);
    assert_eq!(entries[0].0, "2");
    assert_eq!(entries[0].1.outside_since_us, NOW);
}
