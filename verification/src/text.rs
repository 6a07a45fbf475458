//! Text primitives: comparison, prefixes, blank detection, and the decimal and
//! hexadecimal renderings used in identifiers and audit lines.

use vstd::prelude::*;
use vstd::string::*;

verus! {

/// Whether two texts hold the same characters.
pub fn same_text(a: &str, b: &str) -> (r: bool)
    ensures
        r == (a@ == b@),
{
    a.to_owned() == b.to_owned()
}

/// Whether `text` begins with `prefix`.
pub open spec fn has_prefix(text: Seq<char>, prefix: Seq<char>) -> bool {
    prefix.is_prefix_of(text)
}

pub fn starts_with(text: &str, prefix: &str) -> (r: bool)
    ensures
        r == has_prefix(text@, prefix@),
{
    let n: usize = prefix.unicode_len();
    if text.unicode_len() < n {
        return false;
    }
    same_text(text.substring_char(0, n), prefix)
}

/// One character with the ASCII capitals mapped to small letters.
pub open spec fn lower_char(c: char) -> char {
    if 'A' <= c <= 'Z' {
        (c as u32 + 32) as char
    } else {
        c
    }
}

/// A text with the ASCII capitals mapped to small letters.
pub open spec fn lower(text: Seq<char>) -> Seq<char> {
    text.map_values(|c: char| lower_char(c))
}

/// Whether `text`, with its ASCII capitals mapped to small letters, begins with
/// `prefix`.
pub fn starts_with_lowered(text: &str, prefix: &str) -> (r: bool)
    ensures
        r == has_prefix(lower(text@), prefix@),
{
    let n: usize = prefix.unicode_len();
    if text.unicode_len() < n {
        return false;
    }
    let mut i: usize = 0;
    while i < n
        invariant
            n == prefix@.len(),
            i <= n <= text@.len(),
            forall|j: int| 0 <= j < i ==> lower(text@)[j] == #[trigger] prefix@[j],
        decreases n - i,
    {
        let c: char = text.get_char(i);
        let code: u32 = if 'A' <= c && c <= 'Z' {
            c as u32 + 32
        } else {
            c as u32
        };
        if code != prefix.get_char(i) as u32 {
            assert(lower(text@)[i as int] != prefix@[i as int]);
            return false;
        }
        assert(lower(text@)[i as int] == prefix@[i as int]);
        i += 1;
    }
    assert(lower(text@).subrange(0, n as int) =~= prefix@);
    true
}

/// The characters with Unicode's `White_Space` property.
pub open spec fn is_white_space(c: char) -> bool {
    let n = c as u32;
    ||| 0x9 <= n <= 0xd
    ||| n == 0x20
    ||| n == 0x85
    ||| n == 0xa0
    ||| n == 0x1680
    ||| 0x2000 <= n <= 0x200a
    ||| n == 0x2028
    ||| n == 0x2029
    ||| n == 0x202f
    ||| n == 0x205f
    ||| n == 0x3000
}

/// Whether a text holds nothing but white space.
pub open spec fn is_blank_text(text: Seq<char>) -> bool {
    forall|i: int| 0 <= i < text.len() ==> is_white_space(#[trigger] text[i])
}

/// Whether nothing is left of `text` once white space is trimmed off.
pub fn is_blank(text: &str) -> (r: bool)
    ensures
        r == is_blank_text(text@),
{
    let n: usize = text.unicode_len();
    let mut i: usize = 0;
    while i < n
        invariant
            n == text@.len(),
            i <= n,
            forall|j: int| 0 <= j < i ==> is_white_space(#[trigger] text@[j]),
        decreases n - i,
    {
        let c: u32 = text.get_char(i) as u32;
        let white: bool = (0x9 <= c && c <= 0xd) || c == 0x20 || c == 0x85 || c == 0xa0 || c
            == 0x1680 || (0x2000 <= c && c <= 0x200a) || c == 0x2028 || c == 0x2029 || c == 0x202f
            || c == 0x205f || c == 0x3000;
        if !white {
            assert(!is_white_space(text@[i as int]));
            return false;
        }
        i += 1;
    }
    true
}

/// The digit that stands for `d` in bases up to sixteen.
pub open spec fn digit(d: nat) -> char {
    if d < 10 {
        (48 + d) as char
    } else {
        (87 + d) as char
    }
}

/// `n` written out in `base`, most significant digit first.
pub open spec fn digits(n: nat, base: nat) -> Seq<char>
    decreases n,
{
    if base < 2 || n < base {
        seq![digit(n)]
    } else {
        proof {
            assert(n / base < n) by (nonlinear_arith)
                requires
                    n >= base,
                    base >= 2,
            ;
        }
        digits(n / base, base).push(digit(n % base))
    }
}

fn digit_text(d: u64) -> (r: &'static str)
    requires
        d < 16,
    ensures
        r@ == seq![digit(d as nat)],
{
    proof {
        reveal_strlit("0");
        reveal_strlit("1");
        reveal_strlit("2");
        reveal_strlit("3");
        reveal_strlit("4");
        reveal_strlit("5");
        reveal_strlit("6");
        reveal_strlit("7");
        reveal_strlit("8");
        reveal_strlit("9");
        reveal_strlit("a");
        reveal_strlit("b");
        reveal_strlit("c");
        reveal_strlit("d");
        reveal_strlit("e");
        reveal_strlit("f");
    }
    let r: &'static str = match d {
        0 => "0",
        1 => "1",
        2 => "2",
        3 => "3",
        4 => "4",
        5 => "5",
        6 => "6",
        7 => "7",
        8 => "8",
        9 => "9",
        10 => "a",
        11 => "b",
        12 => "c",
        13 => "d",
        14 => "e",
        _ => "f",
    };
    assert(r@ =~= seq![digit(d as nat)]);
    r
}

fn in_base(n: u64, base: u64) -> (r: String)
    requires
        2 <= base <= 16,
    ensures
        r@ == digits(n as nat, base as nat),
    decreases n,
{
    if n < base {
        digit_text(n).to_owned()
    } else {
        assert(n / base < n) by (nonlinear_arith)
            requires
                n >= base,
                base >= 2,
        ;
        let mut r: String = in_base(n / base, base);
        r.append(digit_text(n % base));
        r
    }
}

/// `n` in decimal.
pub fn decimal(n: u64) -> (r: String)
    ensures
        r@ == digits(n as nat, 10),
{
    in_base(n, 10)
}

/// `n` in lower-case hexadecimal.
pub fn hex(n: u64) -> (r: String)
    ensures
        r@ == digits(n as nat, 16),
{
    in_base(n, 16)
}

/// A run of `n` zeros.
pub open spec fn zeros(n: nat) -> Seq<char> {
    Seq::new(n, |i: int| '0')
}

/// `n` in lower-case hexadecimal, led by zeros up to `width` characters.
pub open spec fn padded_digits(n: nat, width: nat) -> Seq<char> {
    let d = digits(n, 16);
    if d.len() < width {
        zeros((width - d.len()) as nat) + d
    } else {
        d
    }
}

pub fn padded_hex(n: u64, width: usize) -> (r: String)
    ensures
        r@ == padded_digits(n as nat, width as nat),
{
    let d: String = hex(n);
    let len: usize = d.as_str().unicode_len();
    let mut r: String = String::new();
    proof {
        reveal_strlit("0");
    }
    if len < width {
        let missing: usize = width - len;
        let mut i: usize = 0;
        assert(r@ =~= zeros(0));
        while i < missing
            invariant
                i <= missing,
                r@ == zeros(i as nat),
            decreases missing - i,
        {
            proof {
                reveal_strlit("0");
            }
            r.append("0");
            i += 1;
            assert(r@ =~= zeros(i as nat));
        }
    }
    r.append(d.as_str());
    assert(r@ =~= padded_digits(n as nat, width as nat));
    r
}

/// Whether a character is a decimal digit.
pub open spec fn is_digit(c: char) -> bool {
    '0' <= c <= '9'
}

/// Whether a text is a non-empty run of decimal digits.
pub open spec fn is_digit_run(text: Seq<char>) -> bool {
    &&& text.len() > 0
    &&& forall|i: int| 0 <= i < text.len() ==> is_digit(#[trigger] text[i])
}

/// The number that a run of decimal digits denotes.
pub open spec fn digit_run_value(text: Seq<char>) -> nat
    decreases text.len(),
{
    if text.len() == 0 {
        0
    } else {
        digit_run_value(text.drop_last()) * 10 + (text.last() as u32 - '0' as u32) as nat
    }
}

/// The digits of an unsigned number, an optional leading `+` dropped.
pub open spec fn unsigned_digits(text: Seq<char>) -> Seq<char> {
    if text.len() > 0 && text[0] == '+' {
        text.drop_first()
    } else {
        text
    }
}

/// The 64-bit unsigned number that a text denotes: an optional `+`, then decimal
/// digits only, in range.
pub open spec fn unsigned_value(text: Seq<char>) -> Option<u64> {
    let run = unsigned_digits(text);
    if is_digit_run(run) && digit_run_value(run) <= u64::MAX {
        Some(digit_run_value(run) as u64)
    } else {
        None
    }
}

proof fn lemma_run_value_grows(text: Seq<char>, i: int)
    requires
        0 <= i <= text.len(),
    ensures
        digit_run_value(text.take(i)) <= digit_run_value(text),
    decreases text.len(),
{
    if i == text.len() {
        assert(text.take(i) =~= text);
    } else {
        lemma_run_value_grows(text.drop_last(), i);
        assert(text.drop_last().take(i) =~= text.take(i));
    }
}

/// Reads a 64-bit unsigned number.
pub fn parse_unsigned(text: &str) -> (r: Option<u64>)
    ensures
        r == unsigned_value(text@),
{
    let n: usize = text.unicode_len();
    let ghost run = unsigned_digits(text@);
    let start: usize = if n > 0 && text.get_char(0) == '+' {
        1
    } else {
        0
    };
    if start == n {
        return None;
    }
    let mut i: usize = start;
    let mut value: u64 = 0;
    while i < n
        invariant
            n == text@.len(),
            start <= i <= n,
            start <= 1,
            start < n,
            run == unsigned_digits(text@),
            start == 1 <==> text@[0] == '+',
            forall|j: int| 0 <= j < i - start ==> is_digit(#[trigger] run[j]),
            value == digit_run_value(run.take(i - start)),
        decreases n - i,
    {
        let c: u32 = text.get_char(i) as u32;
        assert(run[i - start] == text@[i as int]);
        if c < 48 || c > 57 {
            assert(!is_digit(run[i - start]));
            return None;
        }
        proof {
            assert(run.take(i - start + 1).drop_last() =~= run.take(i - start));
            lemma_run_value_grows(run, i - start + 1);
        }
        let d: u64 = (c - 48) as u64;
        if value > (u64::MAX - d) / 10 {
            return None;
        }
        value = value * 10 + d;
        i += 1;
    }
    assert(run.take(n - start) =~= run);
    Some(value)
}

/// Whether `a` comes before `b` in character order.
pub open spec fn text_before(a: Seq<char>, b: Seq<char>) -> bool {
    exists|i: int| #[trigger] splits_at(a, b, i)
}

/// The texts agree on their first `i` characters, and `a` ends there or holds the
/// smaller character.
pub open spec fn splits_at(a: Seq<char>, b: Seq<char>, i: int) -> bool {
    &&& 0 <= i <= a.len()
    &&& i < b.len()
    &&& forall|j: int| 0 <= j < i ==> a[j] == #[trigger] b[j]
    &&& i == a.len() || a[i] < b[i]
}

pub proof fn lemma_text_order_is_total(a: Seq<char>, b: Seq<char>)
    ensures
        a == b || text_before(a, b) || text_before(b, a),
        !(text_before(a, b) && text_before(b, a)),
        !text_before(a, a),
{
    if a != b {
        let m = if a.len() < b.len() {
            a.len()
        } else {
            b.len()
        };
        lemma_first_difference(a, b, m as int);
    }
    if text_before(a, b) && text_before(b, a) {
        let i = choose|i: int| splits_at(a, b, i);
        let k = choose|k: int| splits_at(b, a, k);
        if i < k {
            assert(a[i] == b[i]);
        } else if k < i {
            assert(a[k] == b[k]);
        }
        assert(false);
    }
}

proof fn lemma_first_difference(a: Seq<char>, b: Seq<char>, m: int)
    requires
        0 <= m <= a.len(),
        m <= b.len(),
        m == a.len() || m == b.len() || a[m] != b[m],
        a != b,
    ensures
        text_before(a, b) || text_before(b, a),
    decreases m,
{
    if exists|j: int| 0 <= j < m && a[j] != #[trigger] b[j] {
        let j = choose|j: int| 0 <= j < m && a[j] != #[trigger] b[j];
        lemma_first_difference(a, b, j);
    } else {
        if m == a.len() && m == b.len() {
            assert(a =~= b);
        }
        assert(splits_at(a, b, m) || splits_at(b, a, m));
    }
}

pub proof fn lemma_text_order_is_transitive(a: Seq<char>, b: Seq<char>, c: Seq<char>)
    requires
        text_before(a, b),
        text_before(b, c),
    ensures
        text_before(a, c),
{
    let i = choose|i: int| splits_at(a, b, i);
    let k = choose|k: int| splits_at(b, c, k);
    let m = if i < k {
        i
    } else {
        k
    };
    assert forall|j: int| 0 <= j < m implies a[j] == #[trigger] c[j] by {
        assert(a[j] == b[j]);
        assert(b[j] == c[j]);
    }
    if i < k {
        assert(b[i] == c[i]);
    } else if k < i {
        assert(a[k] == b[k]);
    }
    assert(splits_at(a, c, m));
}

/// Whether `a` comes before `b` in character order.
pub fn is_before(a: &str, b: &str) -> (r: bool)
    ensures
        r == text_before(a@, b@),
{
    let n: usize = a.unicode_len();
    let m: usize = b.unicode_len();
    let mut i: usize = 0;
    while i < n && i < m
        invariant
            n == a@.len(),
            m == b@.len(),
            i <= n,
            i <= m,
            forall|j: int| 0 <= j < i ==> a@[j] == #[trigger] b@[j],
        decreases n - i,
    {
        let x: char = a.get_char(i);
        let y: char = b.get_char(i);
        if x != y {
            proof {
                if x < y {
                    assert(splits_at(a@, b@, i as int));
                } else {
                    assert(splits_at(b@, a@, i as int));
                    lemma_text_order_is_total(a@, b@);
                }
            }
            return x < y;
        }
        i += 1;
    }
    proof {
        if n < m {
            assert(splits_at(a@, b@, i as int));
        } else if m < n {
            assert(splits_at(b@, a@, i as int));
            lemma_text_order_is_total(a@, b@);
        } else {
            assert(a@ =~= b@);
            lemma_text_order_is_total(a@, b@);
        }
    }
    n < m
}

/// Two texts, joined.
pub fn join2(a: &str, b: &str) -> (r: String)
    ensures
        r@ == a@ + b@,
{
    let mut r: String = a.to_owned();
    r.append(b);
    r
}

/// Three texts, joined.
pub fn join3(a: &str, b: &str, c: &str) -> (r: String)
    ensures
        r@ == a@ + b@ + c@,
{
    let mut r: String = join2(a, b);
    r.append(c);
    r
}

proof fn lemma_digit_character(d: nat)
    requires
        d < 10,
    ensures
        is_digit(digit(d)),
        digit(d) as u32 - '0' as u32 == d,
{
}

/// A decimal rendering holds digits only and reads back as the number it was made from.
pub proof fn law_decimal_reads_back(n: u64)
    ensures
        is_digit_run(digits(n as nat, 10)),
        digit_run_value(digits(n as nat, 10)) == n,
        unsigned_value(digits(n as nat, 10)) == Some(n),
{
    lemma_decimal_reads_back(n as nat);
    let text = digits(n as nat, 10);
    assert(is_digit(text[0]));
    assert(text[0] != '+');
}

proof fn lemma_decimal_reads_back(n: nat)
    ensures
        is_digit_run(digits(n, 10)),
        digit_run_value(digits(n, 10)) == n,
    decreases n,
{
    if n < 10 {
        lemma_digit_character(n);
        let text = digits(n, 10);
        assert(text.drop_last() =~= Seq::<char>::empty());
        assert(digit_run_value(text.drop_last()) == 0);
    } else {
        lemma_decimal_reads_back(n / 10);
        lemma_digit_character(n % 10);
        let text = digits(n, 10);
        assert(text.drop_last() =~= digits(n / 10, 10));
    }
}

/// A number may be led by one `+` and by zeros; a text with any other character that is no digit
/// is no number.
pub proof fn law_signs_and_zeros_of_numbers(text: Seq<char>, i: int)
    ensures
        text.len() > 0 && text[0] != '+' ==> unsigned_value(seq!['+'] + text) == unsigned_value(
            text,
        ),
        text.len() > 0 && text[0] != '+' ==> unsigned_value(seq!['0'] + text) == unsigned_value(
            text,
        ),
        unsigned_value(Seq::empty()) is None,
        unsigned_value(seq!['+']) is None,
        0 < i < text.len() && !('0' <= text[i] <= '9') ==> unsigned_value(text) is None,
        text.len() > 0 && text[0] != '+' && !('0' <= text[0] <= '9') ==> unsigned_value(text)
            is None,
{
    assert((seq!['+'] + text).drop_first() =~= text);
    assert(seq!['+'].drop_first() =~= Seq::<char>::empty());
    if text.len() > 0 && text[0] != '+' {
        let longer = seq!['0'] + text;
        assert(longer[0] == '0');
        lemma_leading_zero(text);
        if is_digit_run(text) {
            assert forall|j: int| 0 <= j < longer.len() implies is_digit(#[trigger] longer[j]) by {
                if j > 0 {
                    assert(longer[j] == text[j - 1]);
                }
            }
        }
        if is_digit_run(longer) {
            assert forall|j: int| 0 <= j < text.len() implies is_digit(#[trigger] text[j]) by {
                assert(longer[j + 1] == text[j]);
            }
        }
    }
    if 0 < i < text.len() && !is_digit(text[i]) {
        if text[0] == '+' {
            assert(text.drop_first()[i - 1] == text[i]);
        }
    }
}

proof fn lemma_leading_zero(text: Seq<char>)
    ensures
        digit_run_value(seq!['0'] + text) == digit_run_value(text),
    decreases text.len(),
{
    let longer = seq!['0'] + text;
    if text.len() == 0 {
        assert(longer.drop_last() =~= Seq::<char>::empty());
        assert(digit_run_value(longer.drop_last()) == 0);
    } else {
        lemma_leading_zero(text.drop_last());
        assert(longer.drop_last() =~= seq!['0'] + text.drop_last());
        assert(longer.last() == text.last());
    }
}

/// Numbers are told apart by their rendering in base ten and in base sixteen.
pub proof fn law_renderings_are_distinct(a: nat, b: nat, base: nat)
    requires
        base == 10 || base == 16,
        digits(a, base) == digits(b, base),
    ensures
        a == b,
    decreases a,
{
    let (x, y) = (digits(a, base), digits(b, base));
    lemma_rendering_ends(a, base);
    lemma_rendering_ends(b, base);
    assert(x.last() == y.last());
    assert(a % base == b % base);
    if a >= base && b >= base {
        law_renderings_are_distinct(a / base, b / base, base);
    }
}

proof fn lemma_rendering_ends(n: nat, base: nat)
    requires
        base == 10 || base == 16,
    ensures
        digits(n, base).len() >= 1,
        n < base <==> digits(n, base).len() == 1,
        digits(n, base).last() == digit(n % base),
        n >= base ==> digits(n, base).drop_last() == digits(n / base, base),
    decreases n,
{
    if n >= base {
        lemma_rendering_ends(n / base, base);
        assert(digits(n, base).drop_last() =~= digits(n / base, base));
    }
}

/// A text is blank exactly when each of its parts is; a text of plain letters and digits is not.
pub proof fn law_blank_texts(a: Seq<char>, b: Seq<char>, i: int)
    ensures
        is_blank_text(a + b) <==> is_blank_text(a) && is_blank_text(b),
        is_blank_text(Seq::empty()),
        0 <= i < a.len() && '!' <= a[i] <= '~' ==> !is_blank_text(a),
{
    if is_blank_text(a + b) {
        assert forall|j: int| 0 <= j < a.len() implies is_white_space(#[trigger] a[j]) by {
            assert((a + b)[j] == a[j]);
        }
        assert forall|j: int| 0 <= j < b.len() implies is_white_space(#[trigger] b[j]) by {
            assert((a + b)[j + a.len()] == b[j]);
        }
    }
}

}
