//! Client order ids that mark an order as the guard's own.

use crate::text::{
    digit, digits, has_prefix, hex, join2, join3, law_renderings_are_distinct, lower, lower_char,
    padded_digits, padded_hex, same_text, starts_with, starts_with_lowered, zeros,
};
use vstd::prelude::*;

verus! {

/// "guard" in hex; Hyperliquid client order ids must be 0x-prefixed 128-bit hex.
pub open spec fn own_prefix(exchange: Seq<char>) -> Seq<char> {
    if exchange == "hyperliquid"@ {
        "0x6775617264"@
    } else if exchange == "okx"@ {
        "guard"@
    } else if exchange == "gate_futures"@ {
        "t-guard"@
    } else {
        "guard-"@
    }
}

/// A guard order id for one exchange, from a time stamp and a sequence number.
pub open spec fn own_id(exchange: Seq<char>, micros: u64, seq: u64) -> Seq<char> {
    let stamp = digits(micros as nat, 16);
    if exchange == "hyperliquid"@ {
        own_prefix(exchange) + padded_digits(micros as nat, 16) + padded_digits(
            (seq % 0x100_0000) as nat,
            6,
        )
    } else if exchange == "okx"@ {
        own_prefix(exchange) + stamp + digits(seq as nat, 16)
    } else if exchange == "gate_futures"@ {
        own_prefix(exchange) + stamp + padded_digits((seq % 0x100) as nat, 2)
    } else {
        own_prefix(exchange) + stamp + "-"@ + digits(seq as nat, 16)
    }
}

/// Whether an id carries the exchange's guard prefix; Hyperliquid ids in either case.
pub open spec fn owned(exchange: Seq<char>, cli_order_id: Seq<char>) -> bool {
    if exchange == "hyperliquid"@ {
        has_prefix(lower(cli_order_id), own_prefix(exchange))
    } else {
        has_prefix(cli_order_id, own_prefix(exchange))
    }
}

/// Venue-legal guard order ids: Hyperliquid requires 0x-prefixed 128-bit hex, OKX
/// allows alphanumerics only, Gate requires a `t-` prefix.
pub fn own_id_for(exchange: &str, micros: u64, seq: u64) -> (r: String)
    ensures
        r@ == own_id(exchange@, micros, seq),
{
    if same_text(exchange, "hyperliquid") {
        join3(
            "0x6775617264",
            padded_hex(micros, 16).as_str(),
            padded_hex(seq % 0x100_0000, 6).as_str(),
        )
    } else if same_text(exchange, "okx") {
        join3("guard", hex(micros).as_str(), hex(seq).as_str())
    } else if same_text(exchange, "gate_futures") {
        join3("t-guard", hex(micros).as_str(), padded_hex(seq % 0x100, 2).as_str())
    } else {
        join3(join2("guard-", hex(micros).as_str()).as_str(), "-", hex(seq).as_str())
    }
}

/// The number `made` steps after `first`, counting round at the end of the range.
pub open spec fn number_after(first: u64, made: nat) -> u64 {
    ((first + made) % 0x1_0000_0000_0000_0000) as u64
}

/// Numbers the guard order ids that a process makes. One counter serves all executors of a
/// process, so that no two ids carry the same number.
#[derive(Debug)]
pub struct OrderCounter {
    /// The number of the next id.
    pub next: u64,
}

impl OrderCounter {
    /// Whether the counter has gone on by one since `before` where `made`, and stands still
    /// where not.
    pub open spec fn counted(self, before: Self, made: bool) -> bool {
        self.next == if made {
            number_after(before.next, 1)
        } else {
            before.next
        }
    }

    pub fn new() -> (r: Self)
        ensures
            r.next == 0,
    {
        OrderCounter { next: 0 }
    }

    /// The next guard order id for one exchange.
    pub fn next_id(&mut self, exchange: &str, micros: u64) -> (r: String)
        ensures
            r@ == own_id(exchange@, micros, old(self).next),
            final(self).counted(*old(self), true),
    {
        let seq: u64 = self.next;
        self.next = seq.wrapping_add(1);
        own_id_for(exchange, micros, seq)
    }
}

/// The counter gives each id of a process a number of its own, as long as it does not count
/// round.
pub proof fn law_order_numbers_are_distinct(first: u64, i: nat, j: nat)
    requires
        i < j < i + 0x1_0000_0000_0000_0000,
    ensures
        number_after(first, i) != number_after(first, j),
        number_after(number_after(first, i), 1) == number_after(first, i + 1),
{
    let size = 0x1_0000_0000_0000_0000int;
    let (a, b) = (first + i, first + j);
    vstd::arithmetic::div_mod::lemma_fundamental_div_mod(a, size);
    vstd::arithmetic::div_mod::lemma_fundamental_div_mod(b, size);
    if a % size == b % size {
        assert((b / size - a / size) * size == b - a) by (nonlinear_arith)
            requires
                a == size * (a / size) + a % size,
                b == size * (b / size) + b % size,
                a % size == b % size,
        ;
        assert(false) by (nonlinear_arith)
            requires
                (b / size - a / size) * size == b - a,
                0 < b - a < size,
                size > 0,
        ;
    }
}

/// Whether an order id was made by the guard.
pub fn is_own_id(exchange: &str, cli_order_id: &str) -> (r: bool)
    ensures
        r == owned(exchange@, cli_order_id@),
{
    if same_text(exchange, "hyperliquid") {
        starts_with_lowered(cli_order_id, "0x6775617264")
    } else if same_text(exchange, "okx") {
        starts_with(cli_order_id, "guard")
    } else if same_text(exchange, "gate_futures") {
        starts_with(cli_order_id, "t-guard")
    } else {
        starts_with(cli_order_id, "guard-")
    }
}

pub open spec fn key_of(exchange: Seq<char>, inst: Seq<char>) -> Seq<char> {
    exchange + ":"@ + inst
}

/// The name under which modules keep what they know of a position.
pub fn position_key(exchange: &str, inst: &str) -> (r: String)
    ensures
        r@ == key_of(exchange@, inst@),
{
    join3(exchange, ":", inst)
}

proof fn lemma_prefix_of_sum(a: Seq<char>, b: Seq<char>)
    ensures
        has_prefix(a + b, a),
{
    assert((a + b).subrange(0, a.len() as int) =~= a);
}

/// The guard recognizes every id it makes.
pub proof fn law_own_ids_are_recognized(exchange: Seq<char>, micros: u64, seq: u64)
    ensures
        owned(exchange, own_id(exchange, micros, seq)),
{
    let prefix = own_prefix(exchange);
    let id = own_id(exchange, micros, seq);
    let rest = id.subrange(prefix.len() as int, id.len() as int);
    assert(id =~= prefix + rest);
    lemma_prefix_of_sum(prefix, rest);
    if exchange == "hyperliquid"@ {
        reveal_strlit("0x6775617264");
        assert(lower(prefix) =~= prefix);
        assert(lower(id).subrange(0, prefix.len() as int) =~= prefix);
    }
}

/// Whether a character is a lower-case hexadecimal digit.
pub open spec fn is_hex_digit(c: char) -> bool {
    ('0' <= c <= '9') || ('a' <= c <= 'f')
}

pub open spec fn all_hex(text: Seq<char>) -> bool {
    forall|i: int| 0 <= i < text.len() ==> is_hex_digit(#[trigger] text[i])
}

/// Sixteen to the power of `k`.
pub open spec fn power16(k: nat) -> nat
    decreases k,
{
    if k == 0 {
        1
    } else {
        16 * power16((k - 1) as nat)
    }
}

/// A hexadecimal rendering holds hexadecimal digits only, at least one, and at most
/// `k` where the number is below the `k`-th power of sixteen.
pub proof fn law_hex_rendering(n: nat, k: nat)
    ensures
        all_hex(digits(n, 16)),
        digits(n, 16).len() >= 1,
        n < power16(k) && k > 0 ==> digits(n, 16).len() <= k,
    decreases n,
{
    if n >= 16 {
        law_hex_rendering(n / 16, if k > 0 { (k - 1) as nat } else { 0 });
        if n < power16(k) && k > 0 {
            assert(n / 16 < power16((k - 1) as nat));
            if k == 1 {
                assert(power16(0) == 1);
            }
        }
    }
}

proof fn lemma_padded(n: nat, width: nat)
    requires
        n < power16(width),
        width > 0,
    ensures
        padded_digits(n, width).len() == width,
        all_hex(padded_digits(n, width)),
{
    law_hex_rendering(n, width);
}

proof fn lemma_power16_values()
    ensures
        power16(2) == 0x100,
        power16(6) == 0x100_0000,
        power16(16) == 0x1_0000_0000_0000_0000,
{
    reveal_with_fuel(power16, 17);
}

/// A Hyperliquid id is `0x` and 32 hexadecimal digits.
pub proof fn law_hyperliquid_ids_are_legal(micros: u64, seq: u64)
    ensures
        ({
            let id = own_id("hyperliquid"@, micros, seq);
            &&& id.len() == 34
            &&& has_prefix(id, "0x"@)
            &&& all_hex(id.subrange(2, 34))
        }),
{
    lemma_power16_values();
    lemma_padded(micros as nat, 16);
    lemma_padded((seq % 0x100_0000) as nat, 6);
    reveal_strlit("0x6775617264");
    reveal_strlit("0x");
    let id = own_id("hyperliquid"@, micros, seq);
    let (a, b) = (padded_digits(micros as nat, 16), padded_digits((seq % 0x100_0000) as nat, 6));
    assert(id.subrange(0, 2) =~= "0x"@);
    assert forall|i: int| 0 <= i < 32 implies is_hex_digit(#[trigger] id.subrange(2, 34)[i]) by {
        if i < 10 {
            assert(id[i + 2] == "0x6775617264"@[i + 2]);
        } else if i < 26 {
            assert(id[i + 2] == a[i - 10]);
        } else {
            assert(id[i + 2] == b[i - 26]);
        }
    }
}

proof fn lemma_names_differ()
    ensures
        "okx"@ != "hyperliquid"@,
        "gate_futures"@ != "hyperliquid"@,
        "gate_futures"@ != "okx"@,
        "binance_um"@ != "hyperliquid"@,
        "binance_um"@ != "okx"@,
        "binance_um"@ != "gate_futures"@,
{
    reveal_strlit("hyperliquid");
    reveal_strlit("okx");
    reveal_strlit("gate_futures");
    reveal_strlit("binance_um");
    assert("hyperliquid"@.len() == 11);
    assert("okx"@.len() == 3);
    assert("gate_futures"@.len() == 12);
    assert("binance_um"@.len() == 10);
}

/// Whether a character is an ASCII letter or digit.
pub open spec fn is_alphanumeric(c: char) -> bool {
    ('0' <= c <= '9') || ('a' <= c <= 'z') || ('A' <= c <= 'Z')
}

/// An OKX id is alphanumeric, and at most 32 characters long while the time stamp and
/// the sequence number share 27 hexadecimal digits.
pub proof fn law_okx_ids_are_legal(micros: u64, seq: u64)
    ensures
        ({
            let id = own_id("okx"@, micros, seq);
            let used = digits(micros as nat, 16).len() + digits(seq as nat, 16).len();
            &&& forall|i: int| 0 <= i < id.len() ==> is_alphanumeric(#[trigger] id[i])
            &&& used <= 27 ==> id.len() <= 32
        }),
{
    lemma_names_differ();
    law_hex_rendering(micros as nat, 16);
    law_hex_rendering(seq as nat, 16);
    reveal_strlit("guard");
    let id = own_id("okx"@, micros, seq);
    let (a, b) = (digits(micros as nat, 16), digits(seq as nat, 16));
    assert forall|i: int| 0 <= i < id.len() implies is_alphanumeric(#[trigger] id[i]) by {
        if i < 5 {
            assert(id[i] == "guard"@[i]);
        } else if i < 5 + a.len() {
            assert(id[i] == a[i - 5]);
        } else {
            assert(id[i] == b[i - 5 - a.len()]);
        }
    }
}

/// A Gate id starts with `t-` and is at most 28 characters long.
pub proof fn law_gate_ids_are_legal(micros: u64, seq: u64)
    ensures
        has_prefix(own_id("gate_futures"@, micros, seq), "t-"@),
        own_id("gate_futures"@, micros, seq).len() <= 28,
{
    lemma_names_differ();
    lemma_power16_values();
    law_hex_rendering(micros as nat, 16);
    lemma_padded((seq % 0x100) as nat, 2);
    reveal_strlit("t-guard");
    reveal_strlit("t-");
    assert(own_id("gate_futures"@, micros, seq).subrange(0, 2) =~= "t-"@);
}

/// A Binance id is at most 36 characters long while the time stamp and the sequence
/// number share 29 hexadecimal digits.
pub proof fn law_binance_ids_are_legal(micros: u64, seq: u64)
    requires
        digits(micros as nat, 16).len() + digits(seq as nat, 16).len() <= 29,
    ensures
        own_id("binance_um"@, micros, seq).len() <= 36,
{
    lemma_names_differ();
    reveal_strlit("guard-");
    reveal_strlit("-");
}

/// Positions are told apart: while exchange names hold no colon, two positions share
/// a key only where they are one and the same.
pub proof fn law_position_keys_are_distinct(
    exchange1: Seq<char>,
    inst1: Seq<char>,
    exchange2: Seq<char>,
    inst2: Seq<char>,
)
    requires
        !exchange1.contains(':'),
        !exchange2.contains(':'),
        key_of(exchange1, inst1) == key_of(exchange2, inst2),
    ensures
        exchange1 == exchange2,
        inst1 == inst2,
{
    reveal_strlit(":");
    let (a, b) = (key_of(exchange1, inst1), key_of(exchange2, inst2));
    let (m, n) = (exchange1.len() as int, exchange2.len() as int);
    assert(a[m] == ':');
    assert(b[n] == ':');
    if m < n {
        assert(b[m] == exchange2[m]);
        assert(exchange2.contains(':'));
    } else if n < m {
        assert(a[n] == exchange1[n]);
        assert(exchange1.contains(':'));
    }
    assert(a.subrange(0, m) =~= exchange1);
    assert(b.subrange(0, n) =~= exchange2);
    assert(a.subrange(m + 1, a.len() as int) =~= inst1);
    assert(b.subrange(n + 1, b.len() as int) =~= inst2);
}

/// An id is the guard's own exactly when it begins with the exchange's guard prefix: `guard` on OKX,
/// `t-guard` on Gate, `0x6775617264` in either case on Hyperliquid, and `guard-` elsewhere.
pub proof fn law_own_ids_by_prefix(exchange: Seq<char>, id: Seq<char>)
    ensures
        exchange == "okx"@ ==> (owned(exchange, id) <==> id.len() >= 5 && id.subrange(0, 5)
            == "guard"@),
        exchange == "gate_futures"@ ==> (owned(exchange, id) <==> id.len() >= 7 && id.subrange(0, 7)
            == "t-guard"@),
        exchange == "hyperliquid"@ ==> (owned(exchange, id) <==> id.len() >= 12 && id[0] == '0' && (
        id[1] == 'x' || id[1] == 'X') && id.subrange(2, 12) == "6775617264"@),
        exchange != "okx"@ && exchange != "gate_futures"@ && exchange != "hyperliquid"@ ==> (owned(
            exchange,
            id,
        ) <==> id.len() >= 6 && id.subrange(0, 6) == "guard-"@),
{
    lemma_names_differ();
    reveal_strlit("guard");
    reveal_strlit("t-guard");
    reveal_strlit("guard-");
    reveal_strlit("0x6775617264");
    reveal_strlit("6775617264");
    let prefix = own_prefix(exchange);
    if exchange == "hyperliquid"@ {
        let low = lower(id);
        assert("0x6775617264"@.len() == 12 && "6775617264"@.len() == 10);
        if id.len() >= 12 {
            assert forall|i: int| 0 <= i < id.len() implies #[trigger] low[i] == lower_char(
                id[i],
            ) by {}
            if owned(exchange, id) {
                assert forall|i: int| 0 <= i < 12 implies low[i] == #[trigger] prefix[i] by {
                    assert(low.subrange(0, 12)[i] == prefix[i]);
                }
                assert(low[0] == prefix[0]);
                assert(low[1] == prefix[1]);
                assert forall|i: int| 0 <= i < 10 implies id.subrange(2, 12)[i]
                    == "6775617264"@[i] by {
                    assert(low[i + 2] == prefix[i + 2]);
                    assert("6775617264"@[i] == prefix[i + 2]);
                }
                assert(id.subrange(2, 12) =~= "6775617264"@);
            }
            if id[0] == '0' && (id[1] == 'x' || id[1] == 'X') && id.subrange(2, 12)
                == "6775617264"@ {
                assert forall|i: int| 0 <= i < 12 implies low.subrange(0, 12)[i] == prefix[i] by {
                    if i >= 2 {
                        assert(id.subrange(2, 12)[i - 2] == id[i]);
                        assert("6775617264"@[i - 2] == prefix[i]);
                    }
                }
                assert(low.subrange(0, 12) =~= prefix);
            }
        }
    }
}

/// Ids of one exchange made at one time tell their numbers apart, and ids with one number tell their
/// times apart. Hyperliquid keeps the number modulo 2^24 and Gate modulo 256.
pub proof fn law_ids_tell_orders_apart(exchange: Seq<char>, a: u64, b: u64, c: u64)
    ensures
        own_id(exchange, c, a) == own_id(exchange, c, b) ==> {
            &&& exchange == "hyperliquid"@ ==> a % 0x100_0000 == b % 0x100_0000
            &&& exchange == "gate_futures"@ ==> a % 0x100 == b % 0x100
            &&& exchange != "hyperliquid"@ && exchange != "gate_futures"@ ==> a == b
        },
        own_id(exchange, a, c) == own_id(exchange, b, c) ==> a == b,
{
    lemma_names_differ();
    let prefix = own_prefix(exchange);
    let none = Seq::<char>::empty();
    if own_id(exchange, c, a) == own_id(exchange, c, b) {
        if exchange == "hyperliquid"@ {
            let front = prefix + padded_digits(c as nat, 16);
            let (x, y) = ((a % 0x100_0000) as nat, (b % 0x100_0000) as nat);
            lemma_same_middle(front, padded_digits(x, 6), padded_digits(y, 6), none);
            lemma_padded_distinct(x, y, 6);
        } else if exchange == "okx"@ {
            let front = prefix + digits(c as nat, 16);
            lemma_same_middle(front, digits(a as nat, 16), digits(b as nat, 16), none);
            law_renderings_are_distinct(a as nat, b as nat, 16);
        } else if exchange == "gate_futures"@ {
            let front = prefix + digits(c as nat, 16);
            let (x, y) = ((a % 0x100) as nat, (b % 0x100) as nat);
            lemma_same_middle(front, padded_digits(x, 2), padded_digits(y, 2), none);
            lemma_padded_distinct(x, y, 2);
        } else {
            let front = prefix + digits(c as nat, 16) + "-"@;
            lemma_same_middle(front, digits(a as nat, 16), digits(b as nat, 16), none);
            law_renderings_are_distinct(a as nat, b as nat, 16);
        }
    }
    if own_id(exchange, a, c) == own_id(exchange, b, c) {
        if exchange == "hyperliquid"@ {
            let back = padded_digits((c % 0x100_0000) as nat, 6);
            lemma_same_middle(
                prefix,
                padded_digits(a as nat, 16),
                padded_digits(b as nat, 16),
                back,
            );
            lemma_padded_distinct(a as nat, b as nat, 16);
        } else {
            let back = if exchange == "okx"@ {
                digits(c as nat, 16)
            } else if exchange == "gate_futures"@ {
                padded_digits((c % 0x100) as nat, 2)
            } else {
                "-"@ + digits(c as nat, 16)
            };
            assert(own_id(exchange, a, c) =~= prefix + digits(a as nat, 16) + back);
            assert(own_id(exchange, b, c) =~= prefix + digits(b as nat, 16) + back);
            lemma_same_middle(prefix, digits(a as nat, 16), digits(b as nat, 16), back);
            law_renderings_are_distinct(a as nat, b as nat, 16);
        }
    }
}

proof fn lemma_same_middle(front: Seq<char>, a: Seq<char>, b: Seq<char>, back: Seq<char>)
    ensures
        front + a + back == front + b + back ==> a == b,
        front + a == front + b ==> a == b,
{
    let n = front.len() as int;
    if front + a + back == front + b + back {
        assert((front + a + back).len() == front.len() + a.len() + back.len());
        assert((front + b + back).len() == front.len() + b.len() + back.len());
        assert(a =~= (front + a + back).subrange(n, n + a.len()));
        assert(b =~= (front + b + back).subrange(n, n + b.len()));
    }
    if front + a == front + b {
        assert((front + a).len() == front.len() + a.len());
        assert((front + b).len() == front.len() + b.len());
        assert(a =~= (front + a).subrange(n, n + a.len()));
        assert(b =~= (front + b).subrange(n, n + b.len()));
    }
}

/// Padded renderings of one width are told apart by their numbers.
proof fn lemma_padded_distinct(a: nat, b: nat, width: nat)
    requires
        padded_digits(a, width) == padded_digits(b, width),
    ensures
        a == b,
{
    lemma_hex_value_of_padded(a, width);
    lemma_hex_value_of_padded(b, width);
}

/// The number that a hexadecimal rendering denotes.
spec fn hex_value(text: Seq<char>) -> nat
    decreases text.len(),
{
    if text.len() == 0 {
        0
    } else {
        let c = text.last() as u32;
        hex_value(text.drop_last()) * 16 + (if c < 58 {
            c - 48
        } else {
            c - 87
        }) as nat
    }
}

proof fn lemma_hex_value(n: nat)
    ensures
        hex_value(digits(n, 16)) == n,
    decreases n,
{
    let text = digits(n, 16);
    if n < 16 {
        assert(text.drop_last() =~= Seq::<char>::empty());
        assert(hex_value(text.drop_last()) == 0);
    } else {
        lemma_hex_value(n / 16);
        assert(text.drop_last() =~= digits(n / 16, 16));
    }
}

proof fn lemma_zeros_add_nothing(k: nat, text: Seq<char>)
    ensures
        hex_value(zeros(k) + text) == hex_value(text),
    decreases text.len(), k,
{
    let longer = zeros(k) + text;
    if text.len() > 0 {
        lemma_zeros_add_nothing(k, text.drop_last());
        assert(longer.drop_last() =~= zeros(k) + text.drop_last());
        assert(longer.last() == text.last());
    } else if k > 0 {
        let fewer = (k - 1) as nat;
        lemma_zeros_add_nothing(fewer, text);
        assert(longer.drop_last() =~= zeros(fewer) + text);
        assert(longer.last() == '0');
    } else {
        assert(longer =~= text);
    }
}

proof fn lemma_hex_value_of_padded(n: nat, width: nat)
    ensures
        hex_value(padded_digits(n, width)) == n,
{
    lemma_hex_value(n);
    let d = digits(n, 16);
    if d.len() < width {
        lemma_zeros_add_nothing((width - d.len()) as nat, d);
    }
}

}
