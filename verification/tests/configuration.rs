use extrema_guard::config::{
    default_action_log, default_max_order_notional, default_min_action_interval_ms, GuardConfig,
    GuardSection, ProfitLockRule, ProfitLockSection, RunMode, StaticProtectSection, StaticRule,
};
use extrema_guard::number::Float64;
use extrema_guard::report::ActionLog;
use extrema_guard::rules::match_rule;
use extrema_guard::safety::SafetyLimits;

fn n(x: f64) -> Float64 {
    Float64 { bits: x.to_bits() }
}

fn config() -> GuardConfig {
    GuardConfig {
        guard: GuardSection {
            mode: RunMode::DryRun,
            i_understand_live_orders: false,
            exchanges: vec!["okx".to_string()],
            poll_seconds: 5,
            schedule_task_id: 1,
            max_order_notional: default_max_order_notional(),
            min_action_interval_ms: default_min_action_interval_ms(),
            action_log: default_action_log(),
        },
        static_protect: StaticProtectSection::default(),
        profit_lock: ProfitLockSection::default(),
    }
}

fn rule(inst: &str) -> StaticRule {
    StaticRule {
        inst: inst.to_string(),
        sl_pct: Some(n(3.0)),
        sl_risk: None,
        tp_pct: None,
        tp_risk: None,
    }
}

fn lock(inst: &str, activation_pct: f64, lock_pct: f64) -> ProfitLockRule {
    ProfitLockRule {
        inst: inst.to_string(),
        activation_pct: n(activation_pct),
        lock_pct: n(lock_pct),
    }
}

#[test]
fn rejects_zero_and_non_finite_marks() {
    assert!(!SafetyLimits::price_is_sane(n(0.0)));
    assert!(!SafetyLimits::price_is_sane(n(-1.0)));
    assert!(!SafetyLimits::price_is_sane(n(f64::NAN)));
    assert!(!SafetyLimits::price_is_sane(n(f64::INFINITY)));
    assert!(SafetyLimits::price_is_sane(n(60_000.0)));
}

#[test]
fn defaults() {
    assert_eq!(f64::from_bits(default_max_order_notional().value.bits), 250_000.0);
    assert_eq!(default_max_order_notional().text, format!("{}", 250_000.0));
    assert_eq!(default_min_action_interval_ms(), 1_000);
    assert_eq!(default_action_log(), "guard_actions.log");
    let limits = SafetyLimits::from_config(&config());
    assert_eq!(limits.max_order_notional.text, "250000");
    assert_eq!(limits.min_action_interval_ms, 1_000);
}

#[test]
fn accepts_a_sound_configuration() {
    let mut sound = config();
    sound.static_protect.rules = vec![rule("ETH_USDT_PERP")];
    sound.profit_lock.rules = vec![lock("*", 5.0, 1.0)];
    assert!(sound.validate().is_ok());
    sound.guard.mode = RunMode::Live;
    sound.guard.i_understand_live_orders = true;
    assert!(sound.validate().is_ok());
}

#[test]
fn needs_an_exchange() {
    let mut empty = config();
    empty.guard.exchanges = Vec::new();
    assert_eq!(
        empty.validate().unwrap_err().message,
        "guard.exchanges must list at least one exchange"
    );
}

#[test]
fn live_mode_needs_the_acknowledgement() {
    let mut live = config();
    live.guard.mode = RunMode::Live;
    assert_eq!(
        live.validate().unwrap_err().message,
        "live mode requires guard.i_understand_live_orders = true"
    );
}

#[test]
fn static_rules_are_exclusive() {
    let mut both = rule("A");
    both.sl_risk = Some(n(10.0));
    assert_eq!(
        both.validate().unwrap_err().message,
        "rule A: sl_pct and sl_risk are mutually exclusive"
    );
    let mut neither = rule("A");
    neither.sl_pct = None;
    assert_eq!(
        neither.validate().unwrap_err().message,
        "rule A: one of sl_pct or sl_risk is required"
    );
    let mut targets = rule("A");
    targets.tp_pct = Some(n(1.0));
    targets.tp_risk = Some(n(1.0));
    assert_eq!(
        targets.validate().unwrap_err().message,
        "rule A: tp_pct and tp_risk are mutually exclusive"
    );
    let mut config = config();
    config.static_protect.rules = vec![rule("B"), both, neither];
    assert_eq!(
        config.validate().unwrap_err().message,
        "rule A: sl_pct and sl_risk are mutually exclusive"
    );
}

#[test]
fn locks_lie_below_their_activation() {
    assert!(lock("A", 5.0, 1.0).validate().is_ok());
    assert!(lock("A", 5.0, 5.0).validate().is_err());
    assert!(lock("A", 5.0, 6.0).validate().is_err());
    let mut config = config();
    config.profit_lock.rules = vec![lock("A", 5.0, 1.0), lock("B", 1.0, 5.0)];
    assert!(config.validate().is_err());
}

#[test]
fn named_rules_come_first() {
    let rules = vec![rule("*"), rule("A"), rule("B"), rule("A"), rule("*")];
    assert_eq!(match_rule(&rules, "A"), Some(1));
    assert_eq!(match_rule(&rules, "B"), Some(2));
    assert_eq!(match_rule(&rules, "C"), Some(0));
    assert_eq!(match_rule(&vec![rule("A")], "C"), None);
}

#[test]
fn log_lines_end_with_a_newline() {
    let entry = ActionLog::new("guard_actions.log").record("cancel okx");
    assert_eq!(entry.path, "guard_actions.log");
    assert_eq!(entry.line, "cancel okx\n");
}
