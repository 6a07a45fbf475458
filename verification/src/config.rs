//! The guard's configuration and what makes it acceptable.

use crate::error::GuardError;
use crate::number::{law_comparison_is_numeric, number, unit, Float64, Quote, EXPONENT_WEIGHT};
use crate::text::join3;
use vstd::arithmetic::power2::{lemma2_to64, lemma2_to64_rest, lemma_pow2_adds, pow2};
use vstd::prelude::*;

verus! {

#[derive(Clone, Debug)]
pub struct GuardConfig {
    pub guard: GuardSection,
    pub static_protect: StaticProtectSection,
    pub profit_lock: ProfitLockSection,
}

#[derive(Clone, Debug)]
pub struct GuardSection {
    pub mode: RunMode,
    pub i_understand_live_orders: bool,
    pub exchanges: Vec<String>,
    pub poll_seconds: u64,
    pub schedule_task_id: u64,
    pub max_order_notional: Quote,
    pub min_action_interval_ms: u64,
    pub action_log: String,
}

#[derive(Clone, Copy, Debug, PartialEq, Eq, Structural)]
pub enum RunMode {
    DryRun,
    Live,
}

#[derive(Clone, Debug)]
pub struct StaticProtectSection {
    pub rules: Vec<StaticRule>,
}

/// One protection rule per instrument, applied on every configured exchange.
/// Exactly one of `sl_pct` / `sl_risk` is required; `tp_pct` / `tp_risk` are
/// optional and also mutually exclusive. `*_risk` values are quote-currency
/// amounts for the whole position: offset = risk / |size|.
#[derive(Debug)]
pub struct StaticRule {
    pub inst: String,
    pub sl_pct: Option<Float64>,
    pub sl_risk: Option<Float64>,
    pub tp_pct: Option<Float64>,
    pub tp_risk: Option<Float64>,
}

#[derive(Clone, Debug)]
pub struct ProfitLockSection {
    pub rules: Vec<ProfitLockRule>,
}

/// Once price has moved `activation_pct` past entry in the profitable direction, keep
/// a protective exit armed at `lock_pct` past entry. The armed flag lives on an
/// in-memory high-water mark for the position lifecycle; a restart re-accumulates it
/// from the current mark.
#[derive(Debug)]
pub struct ProfitLockRule {
    pub inst: String,
    pub activation_pct: Float64,
    pub lock_pct: Float64,
}

impl Default for StaticProtectSection {
    fn default() -> (r: Self)
        ensures
            r.rules@.len() == 0,
    {
        StaticProtectSection { rules: Vec::new() }
    }
}

impl Default for ProfitLockSection {
    fn default() -> (r: Self)
        ensures
            r.rules@.len() == 0,
    {
        ProfitLockSection { rules: Vec::new() }
    }
}

impl Clone for StaticRule {
    fn clone(&self) -> (r: Self)
        ensures
            r == *self,
    {
        StaticRule {
            inst: self.inst.clone(),
            sl_pct: self.sl_pct,
            sl_risk: self.sl_risk,
            tp_pct: self.tp_pct,
            tp_risk: self.tp_risk,
        }
    }
}

impl Clone for ProfitLockRule {
    fn clone(&self) -> (r: Self)
        ensures
            r == *self,
    {
        ProfitLockRule {
            inst: self.inst.clone(),
            activation_pct: self.activation_pct,
            lock_pct: self.lock_pct,
        }
    }
}

impl StaticRule {
    /// What is wrong with a rule.
    pub open spec fn problem(self) -> Option<Seq<char>> {
        if self.sl_pct is Some && self.sl_risk is Some {
            Some("rule "@ + self.inst@ + ": sl_pct and sl_risk are mutually exclusive"@)
        } else if self.sl_pct is None && self.sl_risk is None {
            Some("rule "@ + self.inst@ + ": one of sl_pct or sl_risk is required"@)
        } else if self.tp_pct is Some && self.tp_risk is Some {
            Some("rule "@ + self.inst@ + ": tp_pct and tp_risk are mutually exclusive"@)
        } else {
            None
        }
    }

    pub fn validate(&self) -> (r: Result<(), GuardError>)
        ensures
            match r {
                Ok(()) => self.problem() is None,
                Err(e) => self.problem() == Some(e.message@),
            },
    {
        match (self.sl_pct, self.sl_risk) {
            (Some(_), Some(_)) => {
                return Err(
                    GuardError {
                        message: join3(
                            "rule ",
                            self.inst.as_str(),
                            ": sl_pct and sl_risk are mutually exclusive",
                        ),
                    },
                );
            },
            (None, None) => {
                return Err(
                    GuardError {
                        message: join3(
                            "rule ",
                            self.inst.as_str(),
                            ": one of sl_pct or sl_risk is required",
                        ),
                    },
                );
            },
            _ => {},
        }
        if self.tp_pct.is_some() && self.tp_risk.is_some() {
            return Err(
                GuardError {
                    message: join3(
                        "rule ",
                        self.inst.as_str(),
                        ": tp_pct and tp_risk are mutually exclusive",
                    ),
                },
            );
        }
        Ok(())
    }
}

impl ProfitLockRule {
    /// What is wrong with a rule: the lock must lie below the activation.
    pub open spec fn problem(self) -> Option<Seq<char>> {
        if self.activation_pct.at_most(self.lock_pct) {
            Some("rule "@ + self.inst@ + ": lock_pct must be below activation_pct"@)
        } else {
            None
        }
    }

    pub fn validate(&self) -> (r: Result<(), GuardError>)
        ensures
            match r {
                Ok(()) => self.problem() is None,
                Err(e) => self.problem() == Some(e.message@),
            },
    {
        if self.activation_pct.le(self.lock_pct) {
            return Err(
                GuardError {
                    message: join3(
                        "rule ",
                        self.inst.as_str(),
                        ": lock_pct must be below activation_pct",
                    ),
                },
            );
        }
        Ok(())
    }
}

/// The problem of the first rule that has one.
pub open spec fn static_rules_problem(rules: Seq<StaticRule>) -> Option<Seq<char>>
    decreases rules.len(),
{
    if rules.len() == 0 {
        None
    } else if static_rules_problem(rules.drop_last()) is Some {
        static_rules_problem(rules.drop_last())
    } else {
        rules.last().problem()
    }
}

/// The problem of the first rule that has one.
pub open spec fn lock_rules_problem(rules: Seq<ProfitLockRule>) -> Option<Seq<char>>
    decreases rules.len(),
{
    if rules.len() == 0 {
        None
    } else if lock_rules_problem(rules.drop_last()) is Some {
        lock_rules_problem(rules.drop_last())
    } else {
        rules.last().problem()
    }
}

proof fn lemma_static_problem_stays(rules: Seq<StaticRule>, i: int)
    requires
        0 <= i <= rules.len(),
        static_rules_problem(rules.take(i)) is Some,
    ensures
        static_rules_problem(rules) == static_rules_problem(rules.take(i)),
    decreases rules.len(),
{
    if i == rules.len() {
        assert(rules.take(i) =~= rules);
    } else {
        assert(rules.drop_last().take(i) =~= rules.take(i));
        lemma_static_problem_stays(rules.drop_last(), i);
    }
}

proof fn lemma_lock_problem_stays(rules: Seq<ProfitLockRule>, i: int)
    requires
        0 <= i <= rules.len(),
        lock_rules_problem(rules.take(i)) is Some,
    ensures
        lock_rules_problem(rules) == lock_rules_problem(rules.take(i)),
    decreases rules.len(),
{
    if i == rules.len() {
        assert(rules.take(i) =~= rules);
    } else {
        assert(rules.drop_last().take(i) =~= rules.take(i));
        lemma_lock_problem_stays(rules.drop_last(), i);
    }
}

fn validate_static_rules(rules: &Vec<StaticRule>) -> (r: Result<(), GuardError>)
    ensures
        match r {
            Ok(()) => static_rules_problem(rules@) is None,
            Err(e) => static_rules_problem(rules@) == Some(e.message@),
        },
{
    let mut i: usize = 0;
    while i < rules.len()
        invariant
            i <= rules@.len(),
            static_rules_problem(rules@.take(i as int)) is None,
        decreases rules@.len() - i,
    {
        proof {
            assert(rules@.take(i + 1).drop_last() =~= rules@.take(i as int));
        }
        match rules[i].validate() {
            Ok(()) => {},
            Err(e) => {
                proof {
                    lemma_static_problem_stays(rules@, i + 1);
                }
                return Err(e);
            },
        }
        i += 1;
    }
    assert(rules@.take(rules@.len() as int) =~= rules@);
    Ok(())
}

fn validate_lock_rules(rules: &Vec<ProfitLockRule>) -> (r: Result<(), GuardError>)
    ensures
        match r {
            Ok(()) => lock_rules_problem(rules@) is None,
            Err(e) => lock_rules_problem(rules@) == Some(e.message@),
        },
{
    let mut i: usize = 0;
    while i < rules.len()
        invariant
            i <= rules@.len(),
            lock_rules_problem(rules@.take(i as int)) is None,
        decreases rules@.len() - i,
    {
        proof {
            assert(rules@.take(i + 1).drop_last() =~= rules@.take(i as int));
        }
        match rules[i].validate() {
            Ok(()) => {},
            Err(e) => {
                proof {
                    lemma_lock_problem_stays(rules@, i + 1);
                }
                return Err(e);
            },
        }
        i += 1;
    }
    assert(rules@.take(rules@.len() as int) =~= rules@);
    Ok(())
}

impl GuardConfig {
    /// What is wrong with a configuration: the first problem found.
    pub open spec fn problem(self) -> Option<Seq<char>> {
        if self.guard.exchanges@.len() == 0 {
            Some("guard.exchanges must list at least one exchange"@)
        } else if self.guard.mode == RunMode::Live && !self.guard.i_understand_live_orders {
            Some("live mode requires guard.i_understand_live_orders = true"@)
        } else if static_rules_problem(self.static_protect.rules@) is Some {
            static_rules_problem(self.static_protect.rules@)
        } else {
            lock_rules_problem(self.profit_lock.rules@)
        }
    }

    pub fn validate(&self) -> (r: Result<(), GuardError>)
        ensures
            match r {
                Ok(()) => self.problem() is None,
                Err(e) => self.problem() == Some(e.message@),
            },
    {
        if self.guard.exchanges.is_empty() {
            return Err(GuardError::new("guard.exchanges must list at least one exchange"));
        }
        if self.guard.mode == RunMode::Live && !self.guard.i_understand_live_orders {
            return Err(GuardError::new("live mode requires guard.i_understand_live_orders = true"));
        }
        match validate_static_rules(&self.static_protect.rules) {
            Ok(()) => {},
            Err(e) => return Err(e),
        }
        validate_lock_rules(&self.profit_lock.rules)
    }
}

/// The encoding of 250000.
pub const DEFAULT_MAX_ORDER_NOTIONAL: u64 = 0x410e_8480_0000_0000;

pub fn default_max_order_notional() -> (r: Quote)
    ensures
        r.value.bits == DEFAULT_MAX_ORDER_NOTIONAL,
        r.text@ == "250000"@,
{
    Quote {
        value: Float64 { bits: DEFAULT_MAX_ORDER_NOTIONAL },
        text: "250000".to_owned(),
    }
}

pub fn default_min_action_interval_ms() -> (r: u64)
    ensures
        r == 1_000,
{
    1_000
}

pub fn default_action_log() -> (r: String)
    ensures
        r@ == "guard_actions.log"@,
{
    "guard_actions.log".to_owned()
}

/// Live orders need both switches: a configuration in live mode passes only with the
/// explicit acknowledgement.
pub proof fn law_live_mode_needs_acknowledgement(config: GuardConfig)
    requires
        config.problem() is None,
        config.guard.mode == RunMode::Live,
    ensures
        config.guard.i_understand_live_orders,
{
}

/// In an accepted configuration every static rule has exactly one stop and at most
/// one target.
pub proof fn law_static_rules_are_exclusive(config: GuardConfig, i: int)
    requires
        config.problem() is None,
        0 <= i < config.static_protect.rules@.len(),
    ensures
        config.static_protect.rules@[i].sl_pct is Some
            <==> config.static_protect.rules@[i].sl_risk is None,
        config.static_protect.rules@[i].tp_pct is None
            || config.static_protect.rules@[i].tp_risk is None,
{
    let rules = config.static_protect.rules@;
    if rules.take(i + 1).last().problem() is Some {
        assert(rules.take(i + 1).drop_last() =~= rules.take(i));
        if static_rules_problem(rules.take(i)) is Some {
            lemma_static_problem_stays(rules, i);
        }
        lemma_static_problem_stays(rules, i + 1);
    }
}

/// In an accepted configuration no profit lock lies at or above its activation.
pub proof fn law_locks_lie_below_activation(config: GuardConfig, i: int)
    requires
        config.problem() is None,
        0 <= i < config.profit_lock.rules@.len(),
    ensures
        !config.profit_lock.rules@[i].activation_pct.at_most(
            config.profit_lock.rules@[i].lock_pct,
        ),
{
    let rules = config.profit_lock.rules@;
    if rules.take(i + 1).last().problem() is Some {
        assert(rules.take(i + 1).drop_last() =~= rules.take(i));
        if lock_rules_problem(rules.take(i)) is Some {
            lemma_lock_problem_stays(rules, i);
        }
        lemma_lock_problem_stays(rules, i + 1);
    }
}

/// Which configurations are accepted, all of them and no others: at least one exchange, live mode
/// only with the acknowledgement, exactly one stop and at most one target in each static rule, and
/// every lock below its activation.
pub proof fn law_validation_is_exact(config: GuardConfig)
    ensures
        config.problem() is None <==> {
            &&& config.guard.exchanges@.len() > 0
            &&& config.guard.mode == RunMode::Live ==> config.guard.i_understand_live_orders
            &&& forall|i: int|
                0 <= i < config.static_protect.rules@.len() ==> {
                    let rule = #[trigger] config.static_protect.rules@[i];
                    &&& rule.sl_pct is Some <==> rule.sl_risk is None
                    &&& rule.tp_pct is None || rule.tp_risk is None
                }
            &&& forall|i: int|
                0 <= i < config.profit_lock.rules@.len() ==> {
                    let rule = #[trigger] config.profit_lock.rules@[i];
                    !rule.activation_pct.at_most(rule.lock_pct)
                }
        },
{
    lemma_static_rules_exact(config.static_protect.rules@);
    lemma_lock_rules_exact(config.profit_lock.rules@);
    if config.problem() is None {
        assert(static_rules_problem(config.static_protect.rules@) is None);
    }
}

proof fn lemma_static_rules_exact(rules: Seq<StaticRule>)
    ensures
        static_rules_problem(rules) is None <==> forall|i: int|
            0 <= i < rules.len() ==> {
                let rule = #[trigger] rules[i];
                &&& rule.sl_pct is Some <==> rule.sl_risk is None
                &&& rule.tp_pct is None || rule.tp_risk is None
            },
    decreases rules.len(),
{
    if rules.len() > 0 {
        let rest = rules.drop_last();
        let last = rules.len() - 1;
        lemma_static_rules_exact(rest);
        if static_rules_problem(rules) is None {
            assert forall|i: int| 0 <= i < rules.len() implies {
                let rule = #[trigger] rules[i];
                &&& rule.sl_pct is Some <==> rule.sl_risk is None
                &&& rule.tp_pct is None || rule.tp_risk is None
            } by {
                if i < last {
                    assert(rest[i] == rules[i]);
                }
            }
        }
        if forall|i: int|
            0 <= i < rules.len() ==> {
                let rule = #[trigger] rules[i];
                &&& rule.sl_pct is Some <==> rule.sl_risk is None
                &&& rule.tp_pct is None || rule.tp_risk is None
            } {
            assert forall|i: int| 0 <= i < rest.len() implies {
                let rule = #[trigger] rest[i];
                &&& rule.sl_pct is Some <==> rule.sl_risk is None
                &&& rule.tp_pct is None || rule.tp_risk is None
            } by {
                assert(rest[i] == rules[i]);
            }
            assert(rules[last] == rules.last());
        }
    }
}

proof fn lemma_lock_rules_exact(rules: Seq<ProfitLockRule>)
    ensures
        lock_rules_problem(rules) is None <==> forall|i: int|
            0 <= i < rules.len() ==> {
                let rule = #[trigger] rules[i];
                !rule.activation_pct.at_most(rule.lock_pct)
            },
    decreases rules.len(),
{
    if rules.len() > 0 {
        let rest = rules.drop_last();
        let last = rules.len() - 1;
        lemma_lock_rules_exact(rest);
        if lock_rules_problem(rules) is None {
            assert forall|i: int| 0 <= i < rules.len() implies {
                let rule = #[trigger] rules[i];
                !rule.activation_pct.at_most(rule.lock_pct)
            } by {
                if i < last {
                    assert(rest[i] == rules[i]);
                }
            }
        }
        if forall|i: int|
            0 <= i < rules.len() ==> {
                let rule = #[trigger] rules[i];
                !rule.activation_pct.at_most(rule.lock_pct)
            } {
            assert forall|i: int| 0 <= i < rest.len() implies {
                let rule = #[trigger] rest[i];
                !rule.activation_pct.at_most(rule.lock_pct)
            } by {
                assert(rest[i] == rules[i]);
            }
            assert(rules[last] == rules.last());
        }
    }
}

/// The first problem is the one reported: a missing exchange before a missing acknowledgement, both
/// before the rules, static rules before locks, and of the rules of a kind the first that has one.
pub proof fn law_first_problem_is_reported(config: GuardConfig, i: int)
    ensures
        config.guard.exchanges@.len() == 0 ==> config.problem() == Some(
            "guard.exchanges must list at least one exchange"@,
        ),
        config.guard.exchanges@.len() > 0 && config.guard.mode == RunMode::Live
            && !config.guard.i_understand_live_orders ==> config.problem() == Some(
            "live mode requires guard.i_understand_live_orders = true"@,
        ),
        ({
            let rules = config.static_protect.rules@;
            let locks = config.profit_lock.rules@;
            let sound = config.guard.exchanges@.len() > 0 && (config.guard.mode == RunMode::Live
                ==> config.guard.i_understand_live_orders);
            &&& sound && 0 <= i < rules.len() && rules[i].problem() is Some && (forall|j: int|
                0 <= j < i ==> (#[trigger] rules[j]).problem() is None) ==> config.problem()
                == rules[i].problem()
            &&& sound && (forall|j: int|
                0 <= j < rules.len() ==> (#[trigger] rules[j]).problem() is None) && 0 <= i
                < locks.len() && locks[i].problem() is Some && (forall|j: int|
                0 <= j < i ==> (#[trigger] locks[j]).problem() is None) ==> config.problem()
                == locks[i].problem()
        }),
{
    let rules = config.static_protect.rules@;
    let locks = config.profit_lock.rules@;
    lemma_sound_static(rules, rules.len() as int);
    lemma_sound_locks(locks, locks.len() as int);
    assert(rules.take(rules.len() as int) =~= rules);
    assert(locks.take(locks.len() as int) =~= locks);
    if 0 <= i < rules.len() {
        lemma_sound_static(rules, i);
        assert(rules.take(i + 1).drop_last() =~= rules.take(i));
        if static_rules_problem(rules.take(i + 1)) is Some {
            lemma_static_problem_stays(rules, i + 1);
        }
    }
    if 0 <= i < locks.len() {
        lemma_sound_locks(locks, i);
        assert(locks.take(i + 1).drop_last() =~= locks.take(i));
        if lock_rules_problem(locks.take(i + 1)) is Some {
            lemma_lock_problem_stays(locks, i + 1);
        }
    }
}

proof fn lemma_sound_static(rules: Seq<StaticRule>, n: int)
    requires
        0 <= n <= rules.len(),
    ensures
        (forall|j: int| 0 <= j < n ==> (#[trigger] rules[j]).problem() is None)
            ==> static_rules_problem(rules.take(n)) is None,
    decreases n,
{
    if n > 0 {
        lemma_sound_static(rules, n - 1);
        assert(rules.take(n).drop_last() =~= rules.take(n - 1));
        assert(rules.take(n).last() == rules[n - 1]);
    }
}

proof fn lemma_sound_locks(rules: Seq<ProfitLockRule>, n: int)
    requires
        0 <= n <= rules.len(),
    ensures
        (forall|j: int| 0 <= j < n ==> (#[trigger] rules[j]).problem() is None)
            ==> lock_rules_problem(rules.take(n)) is None,
    decreases n,
{
    if n > 0 {
        lemma_sound_locks(rules, n - 1);
        assert(rules.take(n).drop_last() =~= rules.take(n - 1));
        assert(rules.take(n).last() == rules[n - 1]);
    }
}

/// A lock that a sound rule asks for lies below its activation in value, and the default cap on an
/// order is 250000.
pub proof fn law_configured_values(rule: ProfitLockRule)
    ensures
        rule.activation_pct.finite() && rule.lock_pct.finite() ==> (rule.problem() is None
            <==> rule.lock_pct.units() < rule.activation_pct.units()),
        number(DEFAULT_MAX_ORDER_NOTIONAL).finite(),
        number(DEFAULT_MAX_ORDER_NOTIONAL).units() == 250_000 * unit(),
{
    if rule.activation_pct.finite() && rule.lock_pct.finite() {
        law_comparison_is_numeric(rule.activation_pct, rule.lock_pct);
    }
    let bits = DEFAULT_MAX_ORDER_NOTIONAL as nat;
    let w = EXPONENT_WEIGHT as nat;
    lemma2_to64();
    lemma2_to64_rest();
    lemma_pow2_adds(39, 1039);
    lemma_pow2_adds(4, 1074);
    assert(bits / w == 1040);
    assert(bits % w == 0xe_8480_0000_0000);
    assert(w + 0xe_8480_0000_0000 == 15625 * pow2(39));
    assert((15625 * pow2(39)) * pow2(1039) == 15625 * (pow2(39) * pow2(1039)))
        by (nonlinear_arith);
}

}
