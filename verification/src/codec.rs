//! The canonical text framing of the event vocabulary, and the decimal
//! number text it is built from.
//!
//! A frame is ASCII text: a one-character tag, then `|`-separated fields in
//! struct order — strings verbatim (they must not contain the separator),
//! integers in decimal. Encoding and decoding are inverses, which is proved
//! as `lemma_codec_round_trip` below.

use vstd::prelude::*;

use crate::models::{BridgeEvent, DepthEvent, FundingEvent, MarketEvent, PriceTick, SocialMention, SolPriceEvent};

verus! {

/// Decimal digit characters.
pub open spec fn is_digit(c: char) -> bool {
    48 <= c as int <= 57
}

/// Numeric value of a digit character.
pub open spec fn digit_val(c: char) -> int {
    c as int - 48
}

/// The digit character of `d` in 0..=9.
pub open spec fn digit_char(d: int) -> char {
    if d == 0 {
        '0'
    } else if d == 1 {
        '1'
    } else if d == 2 {
        '2'
    } else if d == 3 {
        '3'
    } else if d == 4 {
        '4'
    } else if d == 5 {
        '5'
    } else if d == 6 {
        '6'
    } else if d == 7 {
        '7'
    } else if d == 8 {
        '8'
    } else {
        '9'
    }
}

/// Decimal digits of `n`, most significant first, no leading zeros.
pub open spec fn spec_digits(n: nat) -> Seq<char>
    decreases n,
{
    if n < 10 {
        seq![digit_char(n as int)]
    } else {
        spec_digits(n / 10).push(digit_char((n % 10) as int))
    }
}

/// Decimal text of a signed integer.
pub open spec fn spec_fmt_i64(x: int) -> Seq<char> {
    if x < 0 {
        seq!['-'] + spec_digits((-x) as nat)
    } else {
        spec_digits(x as nat)
    }
}

/// Powers of ten.
pub open spec fn pow10(k: nat) -> int
    decreases k,
{
    if k == 0 {
        1
    } else {
        10 * pow10((k - 1) as nat)
    }
}

/// Value of the digit region `[i, j)` of `s`, most significant first.
pub open spec fn val_of(s: Seq<char>, i: int, j: int) -> int
    decreases j - i,
{
    if j <= i {
        0
    } else {
        val_of(s, i, j - 1) * 10 + digit_val(s[j - 1])
    }
}

/// First index at or after `i` that does not hold a digit.
pub open spec fn digit_run_end(s: Seq<char>, i: int) -> int
    decreases s.len() - i,
{
    if 0 <= i < s.len() && is_digit(s[i]) {
        digit_run_end(s, i + 1)
    } else {
        i
    }
}

/// First index at or after `i` holding the field separator, or the length.
pub open spec fn scan_sep(s: Seq<char>, i: int) -> int
    decreases s.len() - i,
{
    if 0 <= i < s.len() {
        if s[i] == '|' {
            i
        } else {
            scan_sep(s, i + 1)
        }
    } else {
        s.len() as int
    }
}

/// Shape of a digit string: nonempty, all digits (so no sign and no
/// separator), leading digit nonzero unless the value is a single zero,
/// and the value below `pow10` of the length.
pub proof fn lemma_digits_shape(n: nat)
    ensures
        1 <= spec_digits(n).len(),
        forall|k: int|
            0 <= k < spec_digits(n).len() ==> is_digit(#[trigger] spec_digits(n)[k]),
        n < pow10(spec_digits(n).len() as nat),
        spec_digits(n).len() >= 2 ==> pow10((spec_digits(n).len() - 1) as nat) <= n,
    decreases n,
{
    if n < 10 {
        assert(spec_digits(n) =~= seq![digit_char(n as int)]);
        assert(is_digit(digit_char(n as int)));
        assert(pow10(1) == 10) by {
            reveal_with_fuel(pow10, 3);
        }
    } else {
        lemma_digits_shape(n / 10);
        let d = spec_digits(n / 10);
        let l = d.len();
        assert(spec_digits(n) =~= d.push(digit_char((n % 10) as int)));
        assert(forall|k: int|
            0 <= k < l + 1 ==> is_digit(#[trigger] d.push(digit_char((n % 10) as int))[k]));
        // upper bound: n <= 10 * (n / 10) + 9 < 10 * pow10(l)
        assert(n / 10 < pow10(l as nat));
        assert(n / 10 <= pow10(l as nat) - 1);
        assert(10 * (n / 10) <= 10 * (pow10(l as nat) - 1)) by (nonlinear_arith)
            requires
                n / 10 <= pow10(l as nat) - 1,
        ;
        assert(n < pow10((l + 1) as nat));
        // lower bound: pow10(l) <= n since n >= 10
        if l >= 2 {
            assert(pow10((l - 1) as nat) <= n / 10);
            assert(10 * pow10((l - 1) as nat) <= 10 * (n / 10)) by (nonlinear_arith)
                requires
                    pow10((l - 1) as nat) <= n / 10,
            ;
            assert(10 * (n / 10) <= n);
            assert(pow10(l as nat) <= n);
        } else {
            assert(l == 1);
            assert(pow10(1) == 10) by {
                reveal_with_fuel(pow10, 3);
            }
        }
    }
}

/// The value of a digit region is nonnegative and below `pow10` of its width.
pub proof fn lemma_val_bound(s: Seq<char>, i: int, j: int)
    requires
        i <= j,
        forall|k: int| i <= k < j ==> is_digit(#[trigger] s[k]),
    ensures
        0 <= val_of(s, i, j) < pow10((j - i) as nat),
    decreases j - i,
{
    if j <= i {
    } else {
        lemma_val_bound(s, i, j - 1);
        assert(0 <= digit_val(s[j - 1]) <= 9);
        let v = val_of(s, i, j - 1);
        assert(v * 10 <= (pow10((j - 1 - i) as nat) - 1) * 10) by (nonlinear_arith)
            requires
                v <= pow10((j - 1 - i) as nat) - 1,
        ;
        assert(v * 10 >= 0) by (nonlinear_arith)
            requires
                v >= 0,
        ;
    }
}

/// A region that spells `spec_digits(n)` has value `n`.
pub proof fn lemma_digits_val(s: Seq<char>, i: int, j: int, n: nat)
    requires
        0 <= i <= j <= s.len(),
        s.subrange(i, j) =~= spec_digits(n),
    ensures
        val_of(s, i, j) == n,
    decreases n,
{
    lemma_digits_shape(n);
    if n < 10 {
        assert(j - i == 1);
        assert(s[i] == spec_digits(n)[0]);
        assert(val_of(s, i, j) == val_of(s, i, i) * 10 + digit_val(s[i]));
        assert(digit_val(digit_char(n as int)) == n);
    } else {
        let d = spec_digits(n / 10);
        assert(spec_digits(n) =~= d.push(digit_char((n % 10) as int)));
        assert(j - i == d.len() + 1);
        assert(s.subrange(i, j - 1) =~= d) by {
            assert forall|k: int| 0 <= k < d.len() implies s.subrange(i, j - 1)[k] == d[k] by {
                assert(s.subrange(i, j)[k] == spec_digits(n)[k]);
            }
        }
        lemma_digits_val(s, i, j - 1, n / 10);
        assert(s[j - 1] == spec_digits(n)[j - 1 - i]);
        assert(s[j - 1] == digit_char((n % 10) as int));
        assert(digit_val(digit_char((n % 10) as int)) == n % 10);
        assert(val_of(s, i, j) == (n / 10) * 10 + n % 10);
        assert((n / 10) * 10 + n % 10 == n);
    }
}

/// Where a known digit region ends, the scan for the run end agrees.
pub proof fn lemma_run_end(s: Seq<char>, i: int, j: int)
    requires
        0 <= i <= j <= s.len(),
        forall|k: int| i <= k < j ==> is_digit(#[trigger] s[k]),
        j == s.len() || !is_digit(s[j]),
    ensures
        digit_run_end(s, i) == j,
    decreases j - i,
{
    if i < j {
        lemma_run_end(s, i + 1, j);
    }
}

/// Where a known separator-free region ends at a separator (or the end),
/// the scan agrees.
pub proof fn lemma_scan_sep(s: Seq<char>, i: int, j: int)
    requires
        0 <= i <= j <= s.len(),
        forall|k: int| i <= k < j ==> #[trigger] s[k] != '|',
        j == s.len() || s[j] == '|',
    ensures
        scan_sep(s, i) == j,
    decreases j - i,
{
    if i < j {
        lemma_scan_sep(s, i + 1, j);
    }
}

/// Reading an unsigned decimal field at `i`: `None` on an empty or
/// over-long run or a value beyond u64; otherwise the value and the index
/// past the run.
pub open spec fn spec_take_u64(s: Seq<char>, i: int) -> Option<(int, int)> {
    let e = digit_run_end(s, i);
    if e == i || e - i > 20 {
        None
    } else if val_of(s, i, e) > u64::MAX as int {
        None
    } else {
        Some((val_of(s, i, e), e))
    }
}

/// Reading a signed decimal field at `i`, an optional minus before the
/// digits, rejecting values beyond i64.
pub open spec fn spec_take_i64(s: Seq<char>, i: int) -> Option<(int, int)> {
    if 0 <= i < s.len() && s[i] == '-' {
        match spec_take_u64(s, i + 1) {
            Some((v, e)) => if v <= 0x8000_0000_0000_0000 {
                Some((-v, e))
            } else {
                None
            },
            None => None,
        }
    } else {
        match spec_take_u64(s, i) {
            Some((v, e)) => if v <= i64::MAX as int {
                Some((v, e))
            } else {
                None
            },
            None => None,
        }
    }
}

/// A region spelling `spec_digits(n)` for an in-range `n`, delimited on the
/// right by the end or a non-digit, reads back as exactly `n`.
pub proof fn lemma_take_u64_of_digits(s: Seq<char>, i: int, j: int, n: nat)
    requires
        0 <= i <= j <= s.len(),
        s.subrange(i, j) =~= spec_digits(n),
        n <= u64::MAX,
        j == s.len() || !is_digit(s[j]),
    ensures
        spec_take_u64(s, i) == Some((n as int, j)),
{
    lemma_digits_shape(n);
    assert forall|k: int| i <= k < j implies is_digit(#[trigger] s[k]) by {
        assert(s[k] == s.subrange(i, j)[k - i]);
    }
    lemma_run_end(s, i, j);
    lemma_digits_val(s, i, j, n);
    // length cap: 20 digits always suffice for a u64
    if j - i > 20 {
        assert(spec_digits(n).len() >= 21);
        lemma_pow10_mono(20, (spec_digits(n).len() - 1) as nat);
        assert(pow10(20) <= n);
        assert(pow10(20) > u64::MAX as int) by {
            reveal_with_fuel(pow10, 22);
        }
        assert(false);
    }
}

/// A region spelling `spec_fmt_i64(x)`, delimited on the right by the end
/// or a non-digit, reads back as exactly `x`.
pub proof fn lemma_take_i64_of_fmt(s: Seq<char>, i: int, j: int, x: int)
    requires
        0 <= i <= j <= s.len(),
        s.subrange(i, j) =~= spec_fmt_i64(x),
        i64::MIN as int <= x <= i64::MAX as int,
        j == s.len() || !is_digit(s[j]),
    ensures
        spec_take_i64(s, i) == Some((x, j)),
{
    if x < 0 {
        let d = spec_digits((-x) as nat);
        assert(spec_fmt_i64(x) =~= seq!['-'] + d);
        assert(s[i] == (seq!['-'] + d)[0]);
        assert(s[i] == '-');
        assert(s.subrange(i + 1, j) =~= d) by {
            assert forall|k: int| 0 <= k < d.len() implies s.subrange(i + 1, j)[k] == d[k] by {
                assert(s.subrange(i, j)[k + 1] == (seq!['-'] + d)[k + 1]);
            }
        }
        lemma_take_u64_of_digits(s, i + 1, j, (-x) as nat);
    } else {
        lemma_take_u64_of_digits(s, i, j, x as nat);
        lemma_digits_shape(x as nat);
        assert(s[i] == s.subrange(i, j)[0]);
        assert(is_digit(s[i]));
        assert(s[i] != '-');
    }
}

/// The one-character string of a decimal digit.
fn digit_str(d: u64) -> (r: &'static str)
    requires
        d < 10,
    ensures
        r@ =~= seq![digit_char(d as int)],
{
    proof {
        reveal_strlit("0");
        reveal_strlit("1");
        reveal_strlit("2");
        reveal_strlit("3");
        reveal_strlit("4");
        reveal_strlit("5");
        reveal_strlit("6");
        reveal_strlit("7");
        reveal_strlit("8");
        reveal_strlit("9");
    }
    if d == 0 {
        "0"
    } else if d == 1 {
        "1"
    } else if d == 2 {
        "2"
    } else if d == 3 {
        "3"
    } else if d == 4 {
        "4"
    } else if d == 5 {
        "5"
    } else if d == 6 {
        "6"
    } else if d == 7 {
        "7"
    } else if d == 8 {
        "8"
    } else {
        "9"
    }
}

/// Append the decimal digits of `n`.
fn push_digits(out: &mut String, n: u64)
    ensures
        final(out)@ =~= old(out)@ + spec_digits(n as nat),
    decreases n,
{
    if n < 10 {
        out.append(digit_str(n));
    } else {
        push_digits(out, n / 10);
        out.append(digit_str(n % 10));
        proof {
            assert(old(out)@ + spec_digits((n / 10) as nat) + seq![digit_char((n % 10) as int)]
                =~= old(out)@ + spec_digits(n as nat));
        }
    }
}

/// Decimal text of an unsigned integer.
pub fn fmt_u64(n: u64) -> (r: String)
    ensures
        r@ =~= spec_digits(n as nat),
{
    let mut s = String::new();
    push_digits(&mut s, n);
    s
}

/// Decimal text of a signed integer.
pub fn fmt_i64(x: i64) -> (r: String)
    ensures
        r@ =~= spec_fmt_i64(x as int),
{
    if x >= 0 {
        fmt_u64(x as u64)
    } else {
        let m: u64 = (-(x as i128)) as u64;
        let mut s = "-".to_owned();
        proof {
            reveal_strlit("-");
        }
        push_digits(&mut s, m);
        proof {
            assert("-"@ =~= seq!['-']);
            assert(seq!['-'] + spec_digits(m as nat) =~= spec_fmt_i64(x as int));
        }
        s
    }
}

/// Exec mirror of `digit_run_end`.
fn find_run_end(s: &str, i: usize, n: usize) -> (e: usize)
    requires
        n == s@.len(),
        i <= n,
    ensures
        e == digit_run_end(s@, i as int),
        i <= e <= n,
{
    let mut k = i;
    while k < n
        invariant
            i <= k <= n,
            n == s@.len(),
            digit_run_end(s@, i as int) == digit_run_end(s@, k as int),
        decreases n - k,
    {
        let c = s.get_char(k);
        if !((c as u32) >= 48 && (c as u32) <= 57) {
            return k;
        }
        k += 1;
    }
    k
}

/// Exec mirror of `scan_sep`.
fn find_sep(s: &str, i: usize, n: usize) -> (e: usize)
    requires
        n == s@.len(),
        i <= n,
    ensures
        e == scan_sep(s@, i as int),
        i <= e <= n,
{
    let mut k = i;
    while k < n
        invariant
            i <= k <= n,
            n == s@.len(),
            scan_sep(s@, i as int) == scan_sep(s@, k as int),
        decreases n - k,
    {
        let c = s.get_char(k);
        if c == '|' {
            return k;
        }
        k += 1;
    }
    k
}

/// Read an unsigned decimal field at `i`.
pub fn take_u64(s: &str, i: usize, n: usize) -> (r: Option<(u64, usize)>)
    requires
        n == s@.len(),
        i <= n,
    ensures
        match r {
            Some((v, e)) => spec_take_u64(s@, i as int) == Some((v as int, e as int)),
            None => spec_take_u64(s@, i as int) is None,
        },
{
    let e = find_run_end(s, i, n);
    if e == i || e - i > 20 {
        return None;
    }
    proof {
        lemma_run_end_le_len(s@, i as int);
        assert forall|k: int| i <= k < e implies is_digit(#[trigger] s@[k]) by {
            lemma_run_end_digits(s@, i as int, k);
        }
        lemma_val_bound(s@, i as int, e as int);
        lemma_pow10_mono(0, 20);
        assert(pow10(20) < 0x1_0000_0000_0000_0000_0000_0000) by {
            reveal_with_fuel(pow10, 22);
        }
    }
    let mut acc: u128 = 0;
    let mut k = i;
    while k < e
        invariant
            i <= k <= e,
            e <= n,
            n == s@.len(),
            e - i <= 20,
            forall|t: int| i <= t < e ==> is_digit(#[trigger] s@[t]),
            acc as int == val_of(s@, i as int, k as int),
            (acc as int) < pow10(20),
            pow10(20) < 0x1_0000_0000_0000_0000_0000_0000,
        decreases e - k,
    {
        let c = s.get_char(k);
        proof {
            lemma_val_bound(s@, i as int, k + 1 as int);
            assert(pow10((k + 1 - i) as nat) <= pow10(20)) by {
                lemma_pow10_mono((k + 1 - i) as nat, 20);
            }
        }
        acc = acc * 10 + ((c as u32) - 48) as u128;
        k += 1;
    }
    if acc > u64::MAX as u128 {
        None
    } else {
        Some((acc as u64, e))
    }
}

/// The run end never passes the end of the text.
proof fn lemma_run_end_le_len(s: Seq<char>, i: int)
    requires
        0 <= i <= s.len(),
    ensures
        i <= digit_run_end(s, i) <= s.len(),
    decreases s.len() - i,
{
    if i < s.len() && is_digit(s[i]) {
        lemma_run_end_le_len(s, i + 1);
    }
}

/// Digits at every index before the run end.
proof fn lemma_run_end_digits(s: Seq<char>, i: int, k: int)
    requires
        0 <= i <= k < digit_run_end(s, i),
    ensures
        is_digit(s[k]),
    decreases k - i,
{
    if i < k {
        lemma_run_end_digits(s, i + 1, k);
    }
}

/// `pow10` is monotone.
proof fn lemma_pow10_mono(a: nat, b: nat)
    requires
        a <= b,
    ensures
        pow10(a) <= pow10(b),
        1 <= pow10(a),
    decreases b,
{
    if a < b {
        lemma_pow10_mono(a, (b - 1) as nat);
        assert(pow10(b) == 10 * pow10((b - 1) as nat));
    } else if a == b && a > 0 {
        lemma_pow10_mono((a - 1) as nat, (b - 1) as nat);
    }
}

/// Read a signed decimal field at `i`.
pub fn take_i64(s: &str, i: usize, n: usize) -> (r: Option<(i64, usize)>)
    requires
        n == s@.len(),
        i <= n,
    ensures
        match r {
            Some((v, e)) => spec_take_i64(s@, i as int) == Some((v as int, e as int)),
            None => spec_take_i64(s@, i as int) is None,
        },
{
    if i < n && s.get_char(i) == '-' {
        match take_u64(s, i + 1, n) {
            Some((v, e)) => {
                if v <= 0x8000_0000_0000_0000 {
                    let x: i64 = (-(v as i128)) as i64;
                    Some((x, e))
                } else {
                    None
                }
            },
            None => None,
        }
    } else {
        match take_u64(s, i, n) {
            Some((v, e)) => {
                if v <= i64::MAX as u64 {
                    Some((v as i64, e))
                } else {
                    None
                }
            },
            None => None,
        }
    }
}

/// Parse a whole string as one signed decimal integer, as the strategy
/// configuration texts are written.
pub fn parse_i64_str(s: &str) -> (r: Option<i64>)
    ensures
        match r {
            Some(v) => spec_take_i64(s@, 0) == Some((v as int, s@.len() as int)),
            None => !(spec_take_i64(s@, 0) matches Some((v, e)) && e == s@.len()),
        },
{
    let n = s.unicode_len();
    match take_i64(s, 0, n) {
        Some((v, e)) => {
            if e == n {
                Some(v)
            } else {
                None
            }
        },
        None => None,
    }
}


/// The value of a market event: every field as mathematical data.
pub ghost enum EventView {
    Price { token_address: Seq<char>, price_usd: int, volume_usd_1m: int },
    Social { token_address: Seq<char>, source: Seq<char>, sentiment: int },
    Depth {
        token_address: Seq<char>,
        bid_price: int,
        ask_price: int,
        bid_size_usd: int,
        ask_size_usd: int,
    },
    Bridge {
        token_address: Seq<char>,
        source_chain: Seq<char>,
        destination_chain: Seq<char>,
        volume_usd: int,
    },
    Funding { token_address: Seq<char>, funding_rate_pct: int, next_funding_time_sec: int },
    SolPrice { price_usd: int },
}

impl View for MarketEvent {
    type V = EventView;

    open spec fn view(&self) -> EventView {
        match self {
            MarketEvent::Price(e) => EventView::Price {
                token_address: e.token_address@,
                price_usd: e.price_usd as int,
                volume_usd_1m: e.volume_usd_1m as int,
            },
            MarketEvent::Social(e) => EventView::Social {
                token_address: e.token_address@,
                source: e.source@,
                sentiment: e.sentiment as int,
            },
            MarketEvent::Depth(e) => EventView::Depth {
                token_address: e.token_address@,
                bid_price: e.bid_price as int,
                ask_price: e.ask_price as int,
                bid_size_usd: e.bid_size_usd as int,
                ask_size_usd: e.ask_size_usd as int,
            },
            MarketEvent::Bridge(e) => EventView::Bridge {
                token_address: e.token_address@,
                source_chain: e.source_chain@,
                destination_chain: e.destination_chain@,
                volume_usd: e.volume_usd as int,
            },
            MarketEvent::Funding(e) => EventView::Funding {
                token_address: e.token_address@,
                funding_rate_pct: e.funding_rate_pct as int,
                next_funding_time_sec: e.next_funding_time_sec as int,
            },
            MarketEvent::SolPrice(e) => EventView::SolPrice { price_usd: e.price_usd as int },
        }
    }
}

/// A string that can stand in a frame verbatim: free of the separator.
pub open spec fn str_ok(s: Seq<char>) -> bool {
    forall|i: int| 0 <= i < s.len() ==> (#[trigger] s[i]) != '|'
}

pub open spec fn in_i64(x: int) -> bool {
    i64::MIN as int <= x <= i64::MAX as int
}

pub open spec fn in_u64(x: int) -> bool {
    0 <= x <= u64::MAX as int
}

/// A frameable event: strings separator-free, numbers in machine range.
pub open spec fn wf_event(v: EventView) -> bool {
    match v {
        EventView::Price { token_address, price_usd, volume_usd_1m } => str_ok(token_address)
            && in_i64(price_usd) && in_i64(volume_usd_1m),
        EventView::Social { token_address, source, sentiment } => str_ok(token_address) && str_ok(
            source,
        ) && in_i64(sentiment),
        EventView::Depth { token_address, bid_price, ask_price, bid_size_usd, ask_size_usd } =>
            str_ok(token_address) && in_i64(bid_price) && in_i64(ask_price) && in_i64(bid_size_usd)
            && in_i64(ask_size_usd),
        EventView::Bridge { token_address, source_chain, destination_chain, volume_usd } => str_ok(
            token_address,
        ) && str_ok(source_chain) && str_ok(destination_chain) && in_i64(volume_usd),
        EventView::Funding { token_address, funding_rate_pct, next_funding_time_sec } => str_ok(
            token_address,
        ) && in_i64(funding_rate_pct) && in_u64(next_funding_time_sec),
        EventView::SolPrice { price_usd } => in_i64(price_usd),
    }
}

/// The canonical frame of an event: a tag character, then the fields in
/// struct order, separated by `|`; strings verbatim, numbers in decimal.
pub open spec fn spec_encode(v: EventView) -> Seq<char> {
    match v {
        EventView::Price { token_address, price_usd, volume_usd_1m } => seq!['P', '|']
            + token_address + seq!['|'] + spec_fmt_i64(price_usd) + seq!['|'] + spec_fmt_i64(
            volume_usd_1m,
        ),
        EventView::Social { token_address, source, sentiment } => seq!['S', '|'] + token_address
            + seq!['|'] + source + seq!['|'] + spec_fmt_i64(sentiment),
        EventView::Depth { token_address, bid_price, ask_price, bid_size_usd, ask_size_usd } =>
            seq!['D', '|'] + token_address + seq!['|'] + spec_fmt_i64(bid_price) + seq!['|']
            + spec_fmt_i64(ask_price) + seq!['|'] + spec_fmt_i64(bid_size_usd) + seq!['|']
            + spec_fmt_i64(ask_size_usd),
        EventView::Bridge { token_address, source_chain, destination_chain, volume_usd } => seq![
            'B',
            '|',
        ] + token_address + seq!['|'] + source_chain + seq!['|'] + destination_chain + seq!['|']
            + spec_fmt_i64(volume_usd),
        EventView::Funding { token_address, funding_rate_pct, next_funding_time_sec } => seq![
            'F',
            '|',
        ] + token_address + seq!['|'] + spec_fmt_i64(funding_rate_pct) + seq!['|'] + spec_digits(
            next_funding_time_sec as nat,
        ),
        EventView::SolPrice { price_usd } => seq!['M', '|'] + spec_fmt_i64(price_usd),
    }
}

/// Read a string field starting at `i`: the characters up to the next
/// separator, which must exist when more fields follow.
pub open spec fn spec_take_str(s: Seq<char>, i: int) -> (Seq<char>, int) {
    let e = scan_sep(s, i);
    (s.subrange(i, e), e)
}

pub open spec fn spec_decode_price(s: Seq<char>) -> Option<EventView> {
    let (tok, t) = spec_take_str(s, 2);
    if t >= s.len() {
        None
    } else {
        match spec_take_i64(s, t + 1) {
            Some((price, i2)) => if i2 < s.len() && s[i2] == '|' {
                match spec_take_i64(s, i2 + 1) {
                    Some((vol, i3)) => if i3 == s.len() {
                        Some(EventView::Price { token_address: tok, price_usd: price, volume_usd_1m: vol })
                    } else {
                        None
                    },
                    None => None,
                }
            } else {
                None
            },
            None => None,
        }
    }
}

pub open spec fn spec_decode_social(s: Seq<char>) -> Option<EventView> {
    let (tok, t) = spec_take_str(s, 2);
    if t >= s.len() {
        None
    } else {
        let (source, t2) = spec_take_str(s, t + 1);
        if t2 >= s.len() {
            None
        } else {
            match spec_take_i64(s, t2 + 1) {
                Some((sent, i2)) => if i2 == s.len() {
                    Some(EventView::Social { token_address: tok, source, sentiment: sent })
                } else {
                    None
                },
                None => None,
            }
        }
    }
}

pub open spec fn spec_decode_depth(s: Seq<char>) -> Option<EventView> {
    let (tok, t) = spec_take_str(s, 2);
    if t >= s.len() {
        None
    } else {
        match spec_take_i64(s, t + 1) {
            Some((bp, i1)) => if i1 < s.len() && s[i1] == '|' {
                match spec_take_i64(s, i1 + 1) {
                    Some((ap, i2)) => if i2 < s.len() && s[i2] == '|' {
                        match spec_take_i64(s, i2 + 1) {
                            Some((bs, i3)) => if i3 < s.len() && s[i3] == '|' {
                                match spec_take_i64(s, i3 + 1) {
                                    Some((asz, i4)) => if i4 == s.len() {
                                        Some(EventView::Depth {
                                            token_address: tok,
                                            bid_price: bp,
                                            ask_price: ap,
                                            bid_size_usd: bs,
                                            ask_size_usd: asz,
                                        })
                                    } else {
                                        None
                                    },
                                    None => None,
                                }
                            } else {
                                None
                            },
                            None => None,
                        }
                    } else {
                        None
                    },
                    None => None,
                }
            } else {
                None
            },
            None => None,
        }
    }
}

pub open spec fn spec_decode_bridge(s: Seq<char>) -> Option<EventView> {
    let (tok, t) = spec_take_str(s, 2);
    if t >= s.len() {
        None
    } else {
        let (src, t2) = spec_take_str(s, t + 1);
        if t2 >= s.len() {
            None
        } else {
            let (dst, t3) = spec_take_str(s, t2 + 1);
            if t3 >= s.len() {
                None
            } else {
                match spec_take_i64(s, t3 + 1) {
                    Some((vol, i2)) => if i2 == s.len() {
                        Some(EventView::Bridge {
                            token_address: tok,
                            source_chain: src,
                            destination_chain: dst,
                            volume_usd: vol,
                        })
                    } else {
                        None
                    },
                    None => None,
                }
            }
        }
    }
}

pub open spec fn spec_decode_funding(s: Seq<char>) -> Option<EventView> {
    let (tok, t) = spec_take_str(s, 2);
    if t >= s.len() {
        None
    } else {
        match spec_take_i64(s, t + 1) {
            Some((rate, i2)) => if i2 < s.len() && s[i2] == '|' {
                match spec_take_u64(s, i2 + 1) {
                    Some((next, i3)) => if i3 == s.len() {
                        Some(EventView::Funding {
                            token_address: tok,
                            funding_rate_pct: rate,
                            next_funding_time_sec: next,
                        })
                    } else {
                        None
                    },
                    None => None,
                }
            } else {
                None
            },
            None => None,
        }
    }
}

pub open spec fn spec_decode_sol(s: Seq<char>) -> Option<EventView> {
    match spec_take_i64(s, 2) {
        Some((price, i2)) => if i2 == s.len() {
            Some(EventView::SolPrice { price_usd: price })
        } else {
            None
        },
        None => None,
    }
}

/// Decode a frame back into an event value.
pub open spec fn spec_decode(s: Seq<char>) -> Option<EventView> {
    if s.len() < 2 || s[1] != '|' {
        None
    } else if s[0] == 'P' {
        spec_decode_price(s)
    } else if s[0] == 'S' {
        spec_decode_social(s)
    } else if s[0] == 'D' {
        spec_decode_depth(s)
    } else if s[0] == 'B' {
        spec_decode_bridge(s)
    } else if s[0] == 'F' {
        spec_decode_funding(s)
    } else if s[0] == 'M' {
        spec_decode_sol(s)
    } else {
        None
    }
}


/// Does the text hold the field separator anywhere?
fn has_sep(s: &str) -> (r: bool)
    ensures
        r == !str_ok(s@),
{
    let n = s.unicode_len();
    let mut k: usize = 0;
    while k < n
        invariant
            k <= n,
            n == s@.len(),
            forall|j: int| 0 <= j < k ==> (#[trigger] s@[j]) != '|',
        decreases n - k,
    {
        if s.get_char(k) == '|' {
            return true;
        }
        k += 1;
    }
    false
}

/// Frame an event as its canonical text; an event whose strings hold the
/// separator cannot be framed.
pub fn encode_event(e: &MarketEvent) -> (r: Option<String>)
    ensures
        r is Some <==> wf_event(e@),
        r matches Some(s) ==> s@ == spec_encode(e@),
{
    proof {
        reveal_strlit("P|");
        reveal_strlit("S|");
        reveal_strlit("D|");
        reveal_strlit("B|");
        reveal_strlit("F|");
        reveal_strlit("M|");
        reveal_strlit("|");
    }
    match e {
        MarketEvent::Price(p) => {
            if has_sep(p.token_address.as_str()) {
                return None;
            }
            let mut out = "P|".to_owned();
            out.append(p.token_address.as_str());
            out.append("|");
            let f1 = fmt_i64(p.price_usd);
            out.append(f1.as_str());
            out.append("|");
            let f2 = fmt_i64(p.volume_usd_1m);
            out.append(f2.as_str());
            proof {
                assert(out@ =~= spec_encode(e@));
            }
            Some(out)
        },
        MarketEvent::Social(p) => {
            if has_sep(p.token_address.as_str()) {
                return None;
            }
            if has_sep(p.source.as_str()) {
                return None;
            }
            let mut out = "S|".to_owned();
            out.append(p.token_address.as_str());
            out.append("|");
            out.append(p.source.as_str());
            out.append("|");
            let f1 = fmt_i64(p.sentiment);
            out.append(f1.as_str());
            proof {
                assert(out@ =~= spec_encode(e@));
            }
            Some(out)
        },
        MarketEvent::Depth(p) => {
            if has_sep(p.token_address.as_str()) {
                return None;
            }
            let mut out = "D|".to_owned();
            out.append(p.token_address.as_str());
            out.append("|");
            let f1 = fmt_i64(p.bid_price);
            out.append(f1.as_str());
            out.append("|");
            let f2 = fmt_i64(p.ask_price);
            out.append(f2.as_str());
            out.append("|");
            let f3 = fmt_i64(p.bid_size_usd);
            out.append(f3.as_str());
            out.append("|");
            let f4 = fmt_i64(p.ask_size_usd);
            out.append(f4.as_str());
            proof {
                assert(out@ =~= spec_encode(e@));
            }
            Some(out)
        },
        MarketEvent::Bridge(p) => {
            if has_sep(p.token_address.as_str()) {
                return None;
            }
            if has_sep(p.source_chain.as_str()) {
                return None;
            }
            if has_sep(p.destination_chain.as_str()) {
                return None;
            }
            let mut out = "B|".to_owned();
            out.append(p.token_address.as_str());
            out.append("|");
            out.append(p.source_chain.as_str());
            out.append("|");
            out.append(p.destination_chain.as_str());
            out.append("|");
            let f1 = fmt_i64(p.volume_usd);
            out.append(f1.as_str());
            proof {
                assert(out@ =~= spec_encode(e@));
            }
            Some(out)
        },
        MarketEvent::Funding(p) => {
            if has_sep(p.token_address.as_str()) {
                return None;
            }
            let mut out = "F|".to_owned();
            out.append(p.token_address.as_str());
            out.append("|");
            let f1 = fmt_i64(p.funding_rate_pct);
            out.append(f1.as_str());
            out.append("|");
            let f2 = fmt_u64(p.next_funding_time_sec);
            out.append(f2.as_str());
            proof {
                assert(out@ =~= spec_encode(e@));
            }
            Some(out)
        },
        MarketEvent::SolPrice(p) => {
            let mut out = "M|".to_owned();
            let f1 = fmt_i64(p.price_usd);
            out.append(f1.as_str());
            proof {
                assert(out@ =~= spec_encode(e@));
            }
            Some(out)
        },
    }
}

/// Decode a frame back into an event; `None` exactly where the frame does
/// not parse.
pub fn decode_event(s: &str) -> (r: Option<MarketEvent>)
    ensures
        r matches Some(ev) ==> spec_decode(s@) == Some(ev@),
        r is None ==> spec_decode(s@) is None,
{
    let n = s.unicode_len();
    if n < 2 {
        return None;
    }
    if s.get_char(1) != '|' {
        return None;
    }
    let tag = s.get_char(0);
    if tag == 'P' {
        let t = find_sep(s, 2, n);
        if t >= n {
            return None;
        }
        let tok = s.substring_char(2, t).to_owned();
        match take_i64(s, t + 1, n) {
            Some((price, i2)) => {
                if i2 >= n {
                    return None;
                }
                if s.get_char(i2) != '|' {
                    return None;
                }
                match take_i64(s, i2 + 1, n) {
                    Some((vol, i3)) => {
                        if i3 == n {
                            Some(
                                MarketEvent::Price(
                                    PriceTick {
                                        token_address: tok,
                                        price_usd: price,
                                        volume_usd_1m: vol,
                                    },
                                ),
                            )
                        } else {
                            None
                        }
                    },
                    None => None,
                }
            },
            None => None,
        }
    } else if tag == 'S' {
        let t = find_sep(s, 2, n);
        if t >= n {
            return None;
        }
        let tok = s.substring_char(2, t).to_owned();
        let t2 = find_sep(s, t + 1, n);
        if t2 >= n {
            return None;
        }
        let source = s.substring_char(t + 1, t2).to_owned();
        match take_i64(s, t2 + 1, n) {
            Some((sent, i2)) => {
                if i2 == n {
                    Some(
                        MarketEvent::Social(
                            SocialMention { token_address: tok, source, sentiment: sent },
                        ),
                    )
                } else {
                    None
                }
            },
            None => None,
        }
    } else if tag == 'D' {
        let t = find_sep(s, 2, n);
        if t >= n {
            return None;
        }
        let tok = s.substring_char(2, t).to_owned();
        match take_i64(s, t + 1, n) {
            Some((bp, i1)) => {
                if i1 >= n {
                    return None;
                }
                if s.get_char(i1) != '|' {
                    return None;
                }
                match take_i64(s, i1 + 1, n) {
                    Some((ap, i2)) => {
                        if i2 >= n {
                            return None;
                        }
                        if s.get_char(i2) != '|' {
                            return None;
                        }
                        match take_i64(s, i2 + 1, n) {
                            Some((bs, i3)) => {
                                if i3 >= n {
                                    return None;
                                }
                                if s.get_char(i3) != '|' {
                                    return None;
                                }
                                match take_i64(s, i3 + 1, n) {
                                    Some((asz, i4)) => {
                                        if i4 == n {
                                            Some(
                                                MarketEvent::Depth(
                                                    DepthEvent {
                                                        token_address: tok,
                                                        bid_price: bp,
                                                        ask_price: ap,
                                                        bid_size_usd: bs,
                                                        ask_size_usd: asz,
                                                    },
                                                ),
                                            )
                                        } else {
                                            None
                                        }
                                    },
                                    None => None,
                                }
                            },
                            None => None,
                        }
                    },
                    None => None,
                }
            },
            None => None,
        }
    } else if tag == 'B' {
        let t = find_sep(s, 2, n);
        if t >= n {
            return None;
        }
        let tok = s.substring_char(2, t).to_owned();
        let t2 = find_sep(s, t + 1, n);
        if t2 >= n {
            return None;
        }
        let src = s.substring_char(t + 1, t2).to_owned();
        let t3 = find_sep(s, t2 + 1, n);
        if t3 >= n {
            return None;
        }
        let dst = s.substring_char(t2 + 1, t3).to_owned();
        match take_i64(s, t3 + 1, n) {
            Some((vol, i2)) => {
                if i2 == n {
                    Some(
                        MarketEvent::Bridge(
                            BridgeEvent {
                                token_address: tok,
                                source_chain: src,
                                destination_chain: dst,
                                volume_usd: vol,
                            },
                        ),
                    )
                } else {
                    None
                }
            },
            None => None,
        }
    } else if tag == 'F' {
        let t = find_sep(s, 2, n);
        if t >= n {
            return None;
        }
        let tok = s.substring_char(2, t).to_owned();
        match take_i64(s, t + 1, n) {
            Some((rate, i2)) => {
                if i2 >= n {
                    return None;
                }
                if s.get_char(i2) != '|' {
                    return None;
                }
                match take_u64(s, i2 + 1, n) {
                    Some((next, i3)) => {
                        if i3 == n {
                            Some(
                                MarketEvent::Funding(
                                    FundingEvent {
                                        token_address: tok,
                                        funding_rate_pct: rate,
                                        next_funding_time_sec: next,
                                    },
                                ),
                            )
                        } else {
                            None
                        }
                    },
                    None => None,
                }
            },
            None => None,
        }
    } else if tag == 'M' {
        match take_i64(s, 2, n) {
            Some((price, i2)) => {
                if i2 == n {
                    Some(MarketEvent::SolPrice(SolPriceEvent { price_usd: price }))
                } else {
                    None
                }
            },
            None => None,
        }
    } else {
        None
    }
}



#[verifier::rlimit(100)]
proof fn lemma_round_trip_price(v: EventView)
    requires
        wf_event(v),
        v is Price,
    ensures
        spec_decode(spec_encode(v)) == Some(v),
{
    let s = spec_encode(v);
    assert(!is_digit('|'));
    if let EventView::Price { token_address: tok, price_usd, volume_usd_1m } = v {

            let f1 = spec_fmt_i64(price_usd);
            let f2 = spec_fmt_i64(volume_usd_1m);
            let t = 2 + tok.len() as int;
            let e1 = t + 1 + f1.len() as int;
            let e2 = e1 + 1 + f2.len() as int;
            assert(s.len() == e2);
            assert(s[0] == 'P' && s[1] == '|' && s[t] == '|' && s[e1] == '|');
            assert forall|k: int| 2 <= k < t implies #[trigger] s[k] != '|' by {
                assert(s[k] == tok[k - 2]);
            }
            lemma_scan_sep(s, 2, t);
            assert(s.subrange(2, t) =~= tok);
            assert(s.subrange(t + 1, e1) =~= f1);
            lemma_take_i64_of_fmt(s, t + 1, e1, price_usd);
            assert(s.subrange(e1 + 1, e2) =~= f2);
            lemma_take_i64_of_fmt(s, e1 + 1, e2, volume_usd_1m);
            assert(spec_decode(s) == Some(v));
        
    }
}

#[verifier::rlimit(100)]
proof fn lemma_round_trip_social(v: EventView)
    requires
        wf_event(v),
        v is Social,
    ensures
        spec_decode(spec_encode(v)) == Some(v),
{
    let s = spec_encode(v);
    assert(!is_digit('|'));
    if let EventView::Social { token_address: tok, source, sentiment } = v {

            let f1 = spec_fmt_i64(sentiment);
            let t = 2 + tok.len() as int;
            let t2 = t + 1 + source.len() as int;
            let e1 = t2 + 1 + f1.len() as int;
            assert(s.len() == e1);
            assert(s[0] == 'S' && s[1] == '|' && s[t] == '|' && s[t2] == '|');
            assert forall|k: int| 2 <= k < t implies #[trigger] s[k] != '|' by {
                assert(s[k] == tok[k - 2]);
            }
            lemma_scan_sep(s, 2, t);
            assert forall|k: int| t + 1 <= k < t2 implies #[trigger] s[k] != '|' by {
                assert(s[k] == source[k - (t + 1)]);
            }
            lemma_scan_sep(s, t + 1, t2);
            assert(s.subrange(2, t) =~= tok);
            assert(s.subrange(t + 1, t2) =~= source);
            assert(s.subrange(t2 + 1, e1) =~= f1);
            lemma_take_i64_of_fmt(s, t2 + 1, e1, sentiment);
            assert(spec_decode(s) == Some(v));
        
    }
}

#[verifier::rlimit(100)]
proof fn lemma_round_trip_depth(v: EventView)
    requires
        wf_event(v),
        v is Depth,
    ensures
        spec_decode(spec_encode(v)) == Some(v),
{
    let s = spec_encode(v);
    assert(!is_digit('|'));
    if let EventView::Depth { token_address: tok, bid_price, ask_price, bid_size_usd, ask_size_usd } = v {

            let f1 = spec_fmt_i64(bid_price);
            let f2 = spec_fmt_i64(ask_price);
            let f3 = spec_fmt_i64(bid_size_usd);
            let f4 = spec_fmt_i64(ask_size_usd);
            let t = 2 + tok.len() as int;
            let e1 = t + 1 + f1.len() as int;
            let e2 = e1 + 1 + f2.len() as int;
            let e3 = e2 + 1 + f3.len() as int;
            let e4 = e3 + 1 + f4.len() as int;
            assert(s.len() == e4);
            assert(s[0] == 'D' && s[1] == '|' && s[t] == '|' && s[e1] == '|' && s[e2] == '|' && s[e3]
                == '|');
            assert forall|k: int| 2 <= k < t implies #[trigger] s[k] != '|' by {
                assert(s[k] == tok[k - 2]);
            }
            lemma_scan_sep(s, 2, t);
            assert(s.subrange(2, t) =~= tok);
            assert(s.subrange(t + 1, e1) =~= f1);
            lemma_take_i64_of_fmt(s, t + 1, e1, bid_price);
            assert(s.subrange(e1 + 1, e2) =~= f2);
            lemma_take_i64_of_fmt(s, e1 + 1, e2, ask_price);
            assert(s.subrange(e2 + 1, e3) =~= f3);
            lemma_take_i64_of_fmt(s, e2 + 1, e3, bid_size_usd);
            assert(s.subrange(e3 + 1, e4) =~= f4);
            lemma_take_i64_of_fmt(s, e3 + 1, e4, ask_size_usd);
            assert(spec_decode(s) == Some(v));
        
    }
}

#[verifier::rlimit(100)]
proof fn lemma_round_trip_bridge(v: EventView)
    requires
        wf_event(v),
        v is Bridge,
    ensures
        spec_decode(spec_encode(v)) == Some(v),
{
    let s = spec_encode(v);
    assert(!is_digit('|'));
    if let EventView::Bridge { token_address: tok, source_chain, destination_chain, volume_usd } = v {

            let f1 = spec_fmt_i64(volume_usd);
            let t = 2 + tok.len() as int;
            let t2 = t + 1 + source_chain.len() as int;
            let t3 = t2 + 1 + destination_chain.len() as int;
            let e1 = t3 + 1 + f1.len() as int;
            assert(s.len() == e1);
            assert(s[0] == 'B' && s[1] == '|' && s[t] == '|' && s[t2] == '|' && s[t3] == '|');
            assert forall|k: int| 2 <= k < t implies #[trigger] s[k] != '|' by {
                assert(s[k] == tok[k - 2]);
            }
            lemma_scan_sep(s, 2, t);
            assert forall|k: int| t + 1 <= k < t2 implies #[trigger] s[k] != '|' by {
                assert(s[k] == source_chain[k - (t + 1)]);
            }
            lemma_scan_sep(s, t + 1, t2);
            assert forall|k: int| t2 + 1 <= k < t3 implies #[trigger] s[k] != '|' by {
                assert(s[k] == destination_chain[k - (t2 + 1)]);
            }
            lemma_scan_sep(s, t2 + 1, t3);
            assert(s.subrange(2, t) =~= tok);
            assert(s.subrange(t + 1, t2) =~= source_chain);
            assert(s.subrange(t2 + 1, t3) =~= destination_chain);
            assert(s.subrange(t3 + 1, e1) =~= f1);
            lemma_take_i64_of_fmt(s, t3 + 1, e1, volume_usd);
            assert(spec_decode(s) == Some(v));
        
    }
}

#[verifier::rlimit(100)]
proof fn lemma_round_trip_funding(v: EventView)
    requires
        wf_event(v),
        v is Funding,
    ensures
        spec_decode(spec_encode(v)) == Some(v),
{
    let s = spec_encode(v);
    assert(!is_digit('|'));
    if let EventView::Funding { token_address: tok, funding_rate_pct, next_funding_time_sec } = v {

            let f1 = spec_fmt_i64(funding_rate_pct);
            let f2 = spec_digits(next_funding_time_sec as nat);
            let t = 2 + tok.len() as int;
            let e1 = t + 1 + f1.len() as int;
            let e2 = e1 + 1 + f2.len() as int;
            assert(s.len() == e2);
            assert(s[0] == 'F' && s[1] == '|' && s[t] == '|' && s[e1] == '|');
            assert forall|k: int| 2 <= k < t implies #[trigger] s[k] != '|' by {
                assert(s[k] == tok[k - 2]);
            }
            lemma_scan_sep(s, 2, t);
            assert(s.subrange(2, t) =~= tok);
            assert(s.subrange(t + 1, e1) =~= f1);
            lemma_take_i64_of_fmt(s, t + 1, e1, funding_rate_pct);
            assert(s.subrange(e1 + 1, e2) =~= f2);
            lemma_take_u64_of_digits(s, e1 + 1, e2, next_funding_time_sec as nat);
            assert(spec_decode(s) == Some(v));
        
    }
}

#[verifier::rlimit(100)]
proof fn lemma_round_trip_sol(v: EventView)
    requires
        wf_event(v),
        v is SolPrice,
    ensures
        spec_decode(spec_encode(v)) == Some(v),
{
    let s = spec_encode(v);
    assert(!is_digit('|'));
    if let EventView::SolPrice { price_usd } = v {

            let f1 = spec_fmt_i64(price_usd);
            let e1 = 2 + f1.len() as int;
            assert(s.len() == e1);
            assert(s[0] == 'M' && s[1] == '|');
            assert(s.subrange(2, e1) =~= f1);
            lemma_take_i64_of_fmt(s, 2, e1, price_usd);
            assert(spec_decode(s) == Some(v));
        
    }
}

/// Frames decode back to the event they encode: for every frameable event
/// value, decoding its canonical frame yields exactly that value.
pub proof fn lemma_codec_round_trip(v: EventView)
    requires
        wf_event(v),
    ensures
        spec_decode(spec_encode(v)) == Some(v),
{
    match v {
        EventView::Price { .. } => lemma_round_trip_price(v),
        EventView::Social { .. } => lemma_round_trip_social(v),
        EventView::Depth { .. } => lemma_round_trip_depth(v),
        EventView::Bridge { .. } => lemma_round_trip_bridge(v),
        EventView::Funding { .. } => lemma_round_trip_funding(v),
        EventView::SolPrice { .. } => lemma_round_trip_sol(v),
    }
}
} // verus!
