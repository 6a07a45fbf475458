use extrema_guard::eligibility::{
    breach, guard_order, BracketInput, Breach, Direction, GuardOrder, InstrumentType,
    OkxPositionMode, OrderInput,
};
use extrema_guard::number::{Float64, Quote};
use extrema_guard::tracker::{Observation, OutsideTracker};

fn n(x: f64) -> Float64 {
    Float64 { bits: x.to_bits() }
}

fn q(x: f64) -> Quote {
    Quote {
        value: n(x),
        text: format!("{}", x),
    }
}

fn input(side: &str, entry: f64, take_profit: f64, stop_loss: f64) -> OrderInput {
    OrderInput {
        inst_type: InstrumentType::Perpetual,
        venue_inst: "ETH-USDT-SWAP".to_string(),
        inst: "ETH_USDT_PERP".to_string(),
        order_id: "42".to_string(),
        client_order_id: Some("manual42".to_string()),
        side: side.to_string(),
        position_side: Some("net".to_string()),
        order_type: "limit".to_string(),
        state: "live".to_string(),
        category: Some("normal".to_string()),
        source: Some(String::new()),
        is_tp_limit: Some(false),
        price: Some(q(entry)),
        executed_size: Some(n(0.0)),
        reduce_only: Some(false),
        created_time_us: Some(1),
        updated_time_us: Some(1),
        attached: vec![BracketInput {
            fail_code: None,
            unsupported: false,
            take_profit: Some(q(take_profit)),
            stop_loss: Some(q(stop_loss)),
        }],
        top_level_bracket: BracketInput {
            fail_code: None,
            unsupported: false,
            take_profit: None,
            stop_loss: None,
        },
    }
}

fn net(raw: &OrderInput) -> Result<GuardOrder, &'static str> {
    guard_order(raw, OkxPositionMode::Net, Some(n(0.0)))
}

#[test]
fn boundaries_are_strict_for_long_and_short() {
    let long = guard_order(
        &input("buy", 100.0, 110.0, 90.0),
        OkxPositionMode::Net,
        Some(n(0.0)),
    )
    .unwrap();
    assert_eq!(breach(&long, n(110.0)), None);
    assert_eq!(breach(&long, n(110.01)), Some(Breach::TakeProfit));
    assert_eq!(breach(&long, n(89.99)), Some(Breach::StopLoss));

    let short = guard_order(
        &input("sell", 100.0, 90.0, 110.0),
        OkxPositionMode::Net,
        Some(n(0.0)),
    )
    .unwrap();
    assert_eq!(breach(&short, n(90.0)), None);
    assert_eq!(breach(&short, n(89.99)), Some(Breach::TakeProfit));
    assert_eq!(breach(&short, n(110.01)), Some(Breach::StopLoss));
}

#[test]
fn partial_fill_and_invalid_geometry_are_rejected() {
    let mut partial = input("buy", 100.0, 110.0, 90.0);
    partial.executed_size = Some(n(0.1));
    assert!(guard_order(&partial, OkxPositionMode::Net, Some(n(0.0))).is_err());
    assert!(
        guard_order(
            &input("buy", 100.0, 90.0, 110.0),
            OkxPositionMode::Net,
            Some(n(0.0)),
        )
        .is_err()
    );
}

#[test]
fn dynamic_brackets_are_rejected() {
    let mut dynamic = input("buy", 100.0, 110.0, 90.0);
    dynamic.attached[0].unsupported = true;
    assert_eq!(
        guard_order(&dynamic, OkxPositionMode::Net, Some(n(0.0))).unwrap_err(),
        "dynamic_bracket_not_supported"
    );
}

#[test]
fn net_mode_rejects_orders_that_may_reduce_or_reverse() {
    let buy = input("buy", 100.0, 110.0, 90.0);
    let sell = input("sell", 100.0, 90.0, 110.0);

    assert!(guard_order(&buy, OkxPositionMode::Net, Some(n(2.0))).is_ok());
    assert_eq!(
        guard_order(&sell, OkxPositionMode::Net, Some(n(2.0))).unwrap_err(),
        "net_order_may_reduce_or_reverse_long"
    );
    assert!(guard_order(&sell, OkxPositionMode::Net, Some(n(-2.0))).is_ok());
    assert_eq!(
        guard_order(&buy, OkxPositionMode::Net, Some(n(-2.0))).unwrap_err(),
        "net_order_may_reduce_or_reverse_short"
    );

    let mut unexpected_side = buy.clone();
    unexpected_side.position_side = Some("long".to_string());
    assert_eq!(
        guard_order(&unexpected_side, OkxPositionMode::Net, Some(n(0.0))).unwrap_err(),
        "unexpected_position_side_for_net_mode"
    );
    assert_eq!(
        guard_order(&buy, OkxPositionMode::Net, None).unwrap_err(),
        "net_position_context_missing"
    );
}

#[test]
fn hedge_mode_accepts_only_open_direction_pairs() {
    let mut long_open = input("buy", 100.0, 110.0, 90.0);
    long_open.position_side = Some("long".to_string());
    assert!(guard_order(&long_open, OkxPositionMode::LongShort, None).is_ok());

    let mut short_open = input("sell", 100.0, 90.0, 110.0);
    short_open.position_side = Some("short".to_string());
    assert!(guard_order(&short_open, OkxPositionMode::LongShort, None).is_ok());

    long_open.side = "sell".to_string();
    assert_eq!(
        guard_order(&long_open, OkxPositionMode::LongShort, None).unwrap_err(),
        "hedge_mode_close_order"
    );

    short_open.side = "buy".to_string();
    assert_eq!(
        guard_order(&short_open, OkxPositionMode::LongShort, None).unwrap_err(),
        "hedge_mode_close_order"
    );
}

#[test]
fn timer_requires_continuous_same_side_observations() {
    let order = guard_order(
        &input("buy", 100.0, 110.0, 90.0),
        OkxPositionMode::Net,
        Some(n(0.0)),
    )
    .unwrap();
    let mut tracker = OutsideTracker::default();
    let (first, _) = tracker.observe(&order, Breach::TakeProfit, 1_000_000, 90_000_000);
    let (elapsed, _) = tracker.observe(&order, Breach::TakeProfit, 2_221_000_000, 3_000_000_000);
    assert_eq!(first, 0);
    assert_eq!(elapsed, 2_220_000_000);

    let (reset, reason) = tracker.observe(&order, Breach::StopLoss, 2_222_000_000, 90_000_000);
    assert_eq!(reset, 0);
    assert_eq!(reason, Some("breach_side_changed"));
}

#[test]
fn every_rejection_has_its_reason() {
    let base = || input("buy", 100.0, 110.0, 90.0);

    let mut raw = base();
    raw.inst_type = InstrumentType::Spot;
    assert_eq!(net(&raw).unwrap_err(), "unsupported_instrument_type");

    let mut raw = base();
    raw.state = "partially_filled".to_string();
    assert_eq!(net(&raw).unwrap_err(), "not_a_live_limit_order");
    let mut raw = base();
    raw.order_type = "market".to_string();
    assert_eq!(net(&raw).unwrap_err(), "not_a_live_limit_order");

    let mut raw = base();
    raw.reduce_only = None;
    assert_eq!(net(&raw).unwrap_err(), "not_an_entry_parent");
    let mut raw = base();
    raw.is_tp_limit = Some(true);
    assert_eq!(net(&raw).unwrap_err(), "not_an_entry_parent");

    let mut raw = base();
    raw.executed_size = None;
    assert_eq!(net(&raw).unwrap_err(), "order_has_fills_or_unknown_fill_size");

    let mut raw = base();
    raw.category = Some("twap".to_string());
    assert_eq!(net(&raw).unwrap_err(), "nonstandard_order");
    let mut raw = base();
    raw.source = Some("13".to_string());
    assert_eq!(net(&raw).unwrap_err(), "nonstandard_order");

    let mut raw = base();
    raw.price = None;
    assert_eq!(net(&raw).unwrap_err(), "missing_entry_price");

    let mut raw = base();
    let second = raw.attached[0].clone();
    raw.attached.push(second);
    assert_eq!(net(&raw).unwrap_err(), "split_attached_orders_not_supported");

    let mut raw = base();
    raw.attached[0].fail_code = Some("51000".to_string());
    assert_eq!(net(&raw).unwrap_err(), "attached_order_failed");

    let mut raw = base();
    raw.attached[0].take_profit = None;
    assert_eq!(net(&raw).unwrap_err(), "missing_take_profit");
    let mut raw = base();
    raw.attached[0].stop_loss = None;
    assert_eq!(net(&raw).unwrap_err(), "missing_stop_loss");

    let mut raw = base();
    raw.side = "hold".to_string();
    assert_eq!(net(&raw).unwrap_err(), "unsupported_side");
    assert_eq!(
        guard_order(&base(), OkxPositionMode::LongShort, None).unwrap_err(),
        "ambiguous_hedge_mode_order"
    );
    assert_eq!(
        guard_order(&base(), OkxPositionMode::Net, Some(n(f64::NAN))).unwrap_err(),
        "net_position_context_missing"
    );

    assert_eq!(
        net(&input("buy", 100.0, 100.0, 90.0)).unwrap_err(),
        "invalid_bracket_geometry"
    );

    let mut raw = base();
    raw.order_id = String::new();
    assert_eq!(net(&raw).unwrap_err(), "missing_order_id");
}

#[test]
fn accepted_order_carries_its_fields() {
    let mut raw = input("sell", 100.5, 90.0, 110.25);
    raw.order_type = "post_only".to_string();
    raw.top_level_bracket = raw.attached.remove(0);
    raw.top_level_bracket.fail_code = Some("0".to_string());
    raw.updated_time_us = Some(1_700_000_000_000_000);
    let order = net(&raw).unwrap();
    assert_eq!(order.direction, Direction::Short);
    assert_eq!(order.inst_type, InstrumentType::Perpetual);
    assert_eq!(order.venue_inst, "ETH-USDT-SWAP");
    assert_eq!(order.inst, "ETH_USDT_PERP");
    assert_eq!(order.order_id, "42");
    assert_eq!(order.entry.text, "100.5");
    assert_eq!(
        order.fingerprint,
        "ETH_USDT_PERP|42|manual42|sell|100.5|90|110.25|1|1700000000000000"
    );
    raw.client_order_id = None;
    raw.created_time_us = None;
    assert_eq!(
        net(&raw).unwrap().fingerprint,
        "ETH_USDT_PERP|42||sell|100.5|90|110.25|0|1700000000000000"
    );
}

#[test]
fn every_restart_has_its_reason() {
    let order = net(&input("buy", 100.0, 110.0, 90.0)).unwrap();
    let mut tracker = OutsideTracker::default();
    let side = Breach::TakeProfit;
    assert_eq!(tracker.observe(&order, side, 100, 50), (0, Some("first_outside_observation")));
    assert_eq!(tracker.observe(&order, side, 150, 50), (50, None));
    assert_eq!(tracker.observe(&order, side, 201, 50), (0, Some("observation_gap_too_large")));
    assert_eq!(tracker.observe(&order, side, 200, 50), (0, Some("clock_moved_backwards")));
    let mut changed = order.clone();
    changed.fingerprint = "other".to_string();
    assert_eq!(tracker.observe(&changed, side, 210, 50), (0, Some("order_changed")));
    assert!(!tracker.is_ready(&order, side, 300, 1));
    assert!(tracker.is_ready(&changed, side, 300, 90));
    assert!(!tracker.is_ready(&changed, side, 300, 91));
    assert!(!tracker.is_ready(&changed, Breach::StopLoss, 300, 1));
    assert!(tracker.reset("42"));
    assert!(!tracker.reset("42"));
    assert!(!tracker.is_ready(&changed, side, 300, 0));
}

#[test]
fn state_survives_a_restart() {
    let mut order = net(&input("buy", 100.0, 110.0, 90.0)).unwrap();
    let mut tracker = OutsideTracker::default();
    tracker.observe(&order, Breach::TakeProfit, 100, 50);
    order.order_id = "43".to_string();
    tracker.observe(&order, Breach::StopLoss, 120, 50);
    let (version, entries) = tracker.save();
    assert_eq!(version, 1);
    assert_eq!(entries.len(), 2);
    let mut restored = OutsideTracker::load("state.toml", version, entries).unwrap();
    assert_eq!(restored.observe(&order, Breach::StopLoss, 150, 50), (30, None));
    restored.retain(&vec!["42".to_string()]);
    assert_eq!(
        restored.observe(&order, Breach::StopLoss, 160, 50),
        (0, Some("first_outside_observation"))
    );
}

#[test]
fn invalid_states_are_refused() {
    let entry = |since: u64, seen: u64| {
        vec![(
            "42".to_string(),
            Observation {
                fingerprint: "f".to_string(),
                breach: Breach::TakeProfit,
                outside_since_us: since,
                last_seen_us: seen,
            },
        )]
    };
    assert!(OutsideTracker::load("state.toml", 1, entry(5, 5)).is_ok());
    let error = OutsideTracker::load("state.toml", 1, entry(6, 5)).unwrap_err();
    assert_eq!(error.message, "invalid outside-range state: state.toml");
    let error = OutsideTracker::load("a/b.toml", 2, Vec::new()).unwrap_err();
    assert_eq!(error.message, "invalid outside-range state: a/b.toml");
}
