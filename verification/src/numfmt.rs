//! Decimal rendering and parsing of integers: plain, zero-padded, grouped
//! by thousands, signed deltas and clock durations.
use vstd::prelude::*;
use crate::text::{chars_of, is_digit, is_digit_char, push_char, push_str, trim, trim_seq};

verus! {

/// The character of decimal digit `d` (`d < 10`).
pub open spec fn digit_char(d: nat) -> char {
    (48 + d) as char
}

/// The decimal digits of `n`, most significant first, without leading zeros.
pub open spec fn decimal(n: nat) -> Seq<char>
    decreases n,
{
    if n < 10 {
        seq![digit_char(n)]
    } else {
        decimal(n / 10).push(digit_char(n % 10))
    }
}

fn digit(d: u64) -> (c: char)
    requires
        d < 10,
    ensures
        c == digit_char(d as nat),
{
    let b = (48 + d) as u8;
    b as char
}

/// Appends the decimal digits of `n` to `s`.
pub fn push_decimal(s: &mut String, n: u64)
    ensures
        final(s)@ == old(s)@ + decimal(n as nat),
    decreases n,
{
    if n < 10 {
        push_char(s, digit(n));
        assert(final(s)@ =~= old(s)@ + decimal(n as nat));
    } else {
        push_decimal(s, n / 10);
        push_char(s, digit(n % 10));
        assert(final(s)@ =~= old(s)@ + decimal(n as nat));
    }
}

/// `n.to_string()`.
pub fn decimal_string(n: u64) -> (out: String)
    ensures
        out@ == decimal(n as nat),
{
    let mut out = String::new();
    push_decimal(&mut out, n);
    assert(out@ =~= decimal(n as nat));
    out
}

pub proof fn lemma_decimal_len(n: nat)
    ensures
        decimal(n).len() >= 1,
        n < 10 ==> decimal(n).len() == 1,
        n < 100 ==> decimal(n).len() <= 2,
        n < 1000 ==> decimal(n).len() <= 3,
    decreases n,
{
    if n >= 10 {
        lemma_decimal_len(n / 10);
    }
}

/// `c` repeated `k` times.
pub open spec fn repeat_char(c: char, k: nat) -> Seq<char> {
    Seq::new(k, |i: int| c)
}

/// `s` right-aligned in a field of `width` characters filled with `fill`.
pub open spec fn pad_left(s: Seq<char>, width: nat, fill: char) -> Seq<char> {
    if s.len() >= width {
        s
    } else {
        repeat_char(fill, (width - s.len()) as nat) + s
    }
}

/// Appends `t` right-aligned in `width` characters filled with `fill`.
pub fn push_padded(s: &mut String, t: &str, width: usize, fill: char)
    ensures
        final(s)@ == old(s)@ + pad_left(t@, width as nat, fill),
{
    let n = chars_of(t).len();
    let ghost start = s@;
    if n < width {
        let mut k: usize = 0;
        while k < width - n
            invariant
                n < width,
                k <= width - n,
                s@ == start + repeat_char(fill, k as nat),
            decreases width - n - k,
        {
            push_char(s, fill);
            k += 1;
            assert(s@ =~= start + repeat_char(fill, k as nat));
        }
    }
    push_str(s, t);
    assert(s@ =~= start + pad_left(t@, width as nat, fill));
}

/// `format!("{n:0w$}")`.
pub fn zero_padded(n: u64, width: usize) -> (out: String)
    ensures
        out@ == pad_left(decimal(n as nat), width as nat, '0'),
{
    let d = decimal_string(n);
    let mut out = String::new();
    push_padded(&mut out, d.as_str(), width, '0');
    assert(out@ =~= pad_left(decimal(n as nat), width as nat, '0'));
    out
}

/// `n` with a comma between each group of three digits, e.g. `12,451`.
pub open spec fn grouped(n: nat) -> Seq<char>
    decreases n,
{
    if n < 1000 {
        decimal(n)
    } else {
        grouped(n / 1000) + seq![','] + pad_left(decimal(n % 1000), 3, '0')
    }
}

fn push_grouped(s: &mut String, n: u64)
    ensures
        final(s)@ == old(s)@ + grouped(n as nat),
    decreases n,
{
    if n < 1000 {
        push_decimal(s, n);
    } else {
        push_grouped(s, n / 1000);
        push_char(s, ',');
        let d = decimal_string(n % 1000);
        push_padded(s, d.as_str(), 3, '0');
        assert(final(s)@ =~= old(s)@ + grouped(n as nat));
    }
}

/// Thousands-separated rendering of a count, as shown throughout the UI.
pub fn fmt_num(n: u64) -> (out: String)
    ensures
        out@ == grouped(n as nat),
{
    let mut out = String::new();
    push_grouped(&mut out, n);
    assert(out@ =~= grouped(n as nat));
    out
}

/// Elapsed time as `HH:MM:SS`, or `MM:SS` under an hour.
pub open spec fn duration_text(secs: nat) -> Seq<char> {
    let h = secs / 3600;
    let m = (secs % 3600) / 60;
    let s = secs % 60;
    if h > 0 {
        pad_left(decimal(h), 2, '0') + seq![':'] + pad_left(decimal(m), 2, '0') + seq![':']
            + pad_left(decimal(s), 2, '0')
    } else {
        pad_left(decimal(m), 2, '0') + seq![':'] + pad_left(decimal(s), 2, '0')
    }
}

pub fn format_duration(secs: u64) -> (out: String)
    ensures
        out@ == duration_text(secs as nat),
{
    let h = secs / 3600;
    let m = (secs % 3600) / 60;
    let s = secs % 60;
    let mut out = String::new();
    if h > 0 {
        let t = zero_padded(h, 2);
        push_str(&mut out, t.as_str());
        push_char(&mut out, ':');
    }
    let t = zero_padded(m, 2);
    push_str(&mut out, t.as_str());
    push_char(&mut out, ':');
    let t = zero_padded(s, 2);
    push_str(&mut out, t.as_str());
    assert(out@ =~= duration_text(secs as nat));
    out
}

/// A change in a count: `+n` for growth, `-n` for decline, `=` for none.
pub open spec fn signed_text(d: int) -> Seq<char> {
    if d > 0 {
        seq!['+'] + decimal(d as nat)
    } else if d < 0 {
        seq!['-'] + decimal((-d) as nat)
    } else {
        seq!['=']
    }
}

pub fn signed(d: i64) -> (out: String)
    ensures
        out@ == signed_text(d as int),
{
    let mut out = String::new();
    if d > 0 {
        push_char(&mut out, '+');
        push_decimal(&mut out, d as u64);
    } else if d < 0 {
        push_char(&mut out, '-');
        let mag: u64 = if d == i64::MIN {
            9223372036854775808u64
        } else {
            (-d) as u64
        };
        push_decimal(&mut out, mag);
    } else {
        push_char(&mut out, '=');
    }
    assert(out@ =~= signed_text(d as int));
    out
}

// ---------------------------------------------------------------------------
// Parsing
// ---------------------------------------------------------------------------

/// Every character of `s` is an ASCII digit.
pub open spec fn all_digits(s: Seq<char>) -> bool {
    forall|i: int| 0 <= i < s.len() ==> is_digit_char(#[trigger] s[i])
}

/// The value of a string of decimal digits.
pub open spec fn digits_value(s: Seq<char>) -> nat
    decreases s.len(),
{
    if s.len() == 0 {
        0
    } else {
        digits_value(s.drop_last()) * 10 + ((s.last() as u32) - 48) as nat
    }
}

/// What `str::parse::<u64>` accepts: an optional `+` and at least one digit,
/// with a value that fits.
pub open spec fn parse_u64_spec(s: Seq<char>) -> Option<u64> {
    let body = if s.len() > 0 && s[0] == '+' {
        s.skip(1)
    } else {
        s
    };
    if body.len() > 0 && all_digits(body) && digits_value(body) <= u64::MAX {
        Some(digits_value(body) as u64)
    } else {
        None
    }
}

/// Digits of `v[from..]` read as a number; `None` on a non-digit, an empty
/// slice or a value above `u64::MAX`.
fn parse_digits(v: &Vec<char>, from: usize) -> (r: Option<u64>)
    requires
        from <= v.len(),
    ensures
        ({
            let body = v@.skip(from as int);
            match r {
                Some(x) => body.len() > 0 && all_digits(body) && digits_value(body) == x,
                None => !(body.len() > 0 && all_digits(body) && digits_value(body) <= u64::MAX),
            }
        }),
{
    let ghost body = v@.skip(from as int);
    if from == v.len() {
        return None;
    }
    let mut acc: u64 = 0;
    let mut i = from;
    while i < v.len()
        invariant
            from <= i <= v.len(),
            body == v@.skip(from as int),
            all_digits(v@.subrange(from as int, i as int)),
            acc as nat == digits_value(v@.subrange(from as int, i as int)),
        decreases v.len() - i,
    {
        let c = v[i];
        assert(v@.subrange(from as int, i + 1).drop_last() =~= v@.subrange(from as int, i as int));
        if !is_digit(c) {
            assert(body[i - from] == c);
            return None;
        }
        let d = (c as u32 - 48) as u64;
        if acc > (u64::MAX - d) / 10 {
            proof {
                lemma_digits_value_mono(v@, from as int, i + 1);
                assert(acc * 10 + d > u64::MAX) by (nonlinear_arith)
                    requires
                        acc > (u64::MAX - d) / 10,
                        d < 10,
                ;
            }
            return None;
        }
        assert(acc * 10 + d <= u64::MAX) by (nonlinear_arith)
            requires
                acc <= (u64::MAX - d) / 10,
                d < 10,
        ;
        acc = acc * 10 + d;
        i += 1;
        assert(all_digits(v@.subrange(from as int, i as int)));
    }
    assert(v@.subrange(from as int, v@.len() as int) =~= body);
    Some(acc)
}

/// The value of digits `v[from..end]` never decreases as `end` grows.
proof fn lemma_digits_value_mono(v: Seq<char>, from: int, end: int)
    requires
        0 <= from <= end <= v.len(),
        all_digits(v.subrange(from, end)),
    ensures
        forall|e2: int|
            end <= e2 <= v.len() && all_digits(v.subrange(from, e2)) ==> digits_value(
                v.subrange(from, end),
            ) <= #[trigger] digits_value(v.subrange(from, e2)),
{
    assert forall|e2: int|
        end <= e2 <= v.len() && all_digits(v.subrange(from, e2)) implies digits_value(
        v.subrange(from, end),
    ) <= #[trigger] digits_value(v.subrange(from, e2)) by {
        lemma_digits_value_mono_step(v, from, end, e2);
    }
}

proof fn lemma_digits_value_mono_step(v: Seq<char>, from: int, end: int, e2: int)
    requires
        0 <= from <= end <= e2 <= v.len(),
        all_digits(v.subrange(from, e2)),
    ensures
        digits_value(v.subrange(from, end)) <= digits_value(v.subrange(from, e2)),
    decreases e2 - end,
{
    if e2 > end {
        let s = v.subrange(from, e2);
        assert(s.drop_last() =~= v.subrange(from, e2 - 1));
        assert(all_digits(v.subrange(from, e2 - 1))) by {
            assert forall|i: int| 0 <= i < v.subrange(from, e2 - 1).len() implies is_digit_char(
                #[trigger] v.subrange(from, e2 - 1)[i],
            ) by {
                assert(v.subrange(from, e2 - 1)[i] == s[i]);
            }
        }
        lemma_digits_value_mono_step(v, from, end, e2 - 1);
    }
}

/// `s.trim().parse::<u64>().ok()`.
pub fn parse_u64(s: &str) -> (r: Option<u64>)
    ensures
        r == parse_u64_spec(trim_seq(s@)),
{
    let t = trim(s);
    let v = chars_of(t.as_str());
    let from: usize = if v.len() > 0 && v[0] == '+' {
        1
    } else {
        0
    };
    let r = parse_digits(&v, from);
    proof {
        if from == 0 {
            assert(v@.skip(0) =~= v@);
        }
    }
    r
}

/// What `str::parse::<i64>` accepts: an optional sign and at least one
/// digit, with a value in range.
pub open spec fn parse_i64_spec(s: Seq<char>) -> Option<i64> {
    if s.len() > 0 && s[0] == '-' {
        let body = s.skip(1);
        if body.len() > 0 && all_digits(body) && digits_value(body) <= 9223372036854775808 {
            Some((-(digits_value(body) as int)) as i64)
        } else {
            None
        }
    } else {
        let body = if s.len() > 0 && s[0] == '+' {
            s.skip(1)
        } else {
            s
        };
        if body.len() > 0 && all_digits(body) && digits_value(body) <= i64::MAX {
            Some(digits_value(body) as i64)
        } else {
            None
        }
    }
}

/// `str::parse::<i64>` on the characters `v[from..to]`.
pub fn parse_i64_range(v: &Vec<char>, from: usize, to: usize) -> (r: Option<i64>)
    requires
        from <= to <= v.len(),
    ensures
        r == parse_i64_spec(v@.subrange(from as int, to as int)),
{
    let ghost s = v@.subrange(from as int, to as int);
    let mut w: Vec<char> = Vec::new();
    let mut i = from;
    while i < to
        invariant
            from <= i <= to <= v.len(),
            w@ == v@.subrange(from as int, i as int),
        decreases to - i,
    {
        w.push(v[i]);
        i += 1;
        assert(w@ =~= v@.subrange(from as int, i as int));
    }
    let negative = w.len() > 0 && w[0] == '-';
    let start: usize = if w.len() > 0 && (w[0] == '-' || w[0] == '+') {
        1
    } else {
        0
    };
    proof {
        if start == 0 {
            assert(w@.skip(0) =~= w@);
        }
    }
    match parse_digits(&w, start) {
        None => None,
        Some(x) => {
            if negative {
                if x <= 9223372036854775808u64 {
                    if x == 9223372036854775808u64 {
                        Some(i64::MIN)
                    } else {
                        Some(-(x as i64))
                    }
                } else {
                    None
                }
            } else if x <= 9223372036854775807u64 {
                Some(x as i64)
            } else {
                None
            }
        },
    }
}

/// `s.trim().parse::<i64>().ok()`.
pub fn parse_i64(s: &str) -> (r: Option<i64>)
    ensures
        r == parse_i64_spec(trim_seq(s@)),
{
    let t = trim(s);
    let v = chars_of(t.as_str());
    let r = parse_i64_range(&v, 0, v.len());
    assert(v@.subrange(0, v@.len() as int) =~= v@);
    r
}

/// `str::parse::<u32>` (no trimming).
pub open spec fn parse_u32_spec(s: Seq<char>) -> Option<u32> {
    match parse_u64_spec(s) {
        Some(x) => if x <= u32::MAX {
            Some(x as u32)
        } else {
            None
        },
        None => None,
    }
}

pub fn parse_u32(s: &str) -> (r: Option<u32>)
    ensures
        r == parse_u32_spec(s@),
{
    let v = chars_of(s);
    let from: usize = if v.len() > 0 && v[0] == '+' {
        1
    } else {
        0
    };
    proof {
        if from == 0 {
            assert(v@.skip(0) =~= v@);
        }
    }
    match parse_digits(&v, from) {
        Some(x) => if x <= 4294967295 {
            Some(x as u32)
        } else {
            None
        },
        None => None,
    }
}

/// The decimal digits of `n` read back give `n`.
pub proof fn lemma_decimal_value(n: nat)
    ensures
        all_digits(decimal(n)),
        digits_value(decimal(n)) == n,
        decimal(n).len() >= 1,
    decreases n,
{
    let k = n % 10;
    assert(((48 + k) as char) as u32 == 48 + k);
    if n >= 10 {
        lemma_decimal_value(n / 10);
        let s = decimal(n / 10).push(digit_char(n % 10));
        assert(s.drop_last() =~= decimal(n / 10));
        assert(s.last() == digit_char(k));
        assert(((s.last() as u32) - 48) as nat == k);
        assert(n == (n / 10) * 10 + k);
        assert(digits_value(s) == digits_value(decimal(n / 10)) * 10 + k);
        assert(forall|i: int| 0 <= i < s.len() - 1 ==> s[i] == decimal(n / 10)[i]);
    } else {
        let s = decimal(n);
        assert(s =~= seq![digit_char(n)]);
        assert(s.drop_last() =~= Seq::<char>::empty());
        assert(s.last() == digit_char(n));
        assert(n % 10 == n);
        assert(((s.last() as u32) - 48) as nat == n);
        assert(digits_value(s.drop_last()) == 0);
        assert(digits_value(s) == digits_value(s.drop_last()) * 10 + ((s.last() as u32) - 48) as nat);
    }
}

proof fn lemma_zeros_value(z: nat)
    ensures
        digits_value(repeat_char('0', z)) == 0,
        all_digits(repeat_char('0', z)),
    decreases z,
{
    if z > 0 {
        assert(repeat_char('0', z).drop_last() =~= repeat_char('0', (z - 1) as nat));
        lemma_zeros_value((z - 1) as nat);
    }
}

/// Leading zeros leave the value of a digit string as it is.
pub proof fn lemma_zero_pad_value(z: nat, s: Seq<char>)
    requires
        all_digits(s),
    ensures
        digits_value(repeat_char('0', z) + s) == digits_value(s),
        all_digits(repeat_char('0', z) + s),
    decreases s.len(),
{
    lemma_zeros_value(z);
    let t = repeat_char('0', z) + s;
    if s.len() == 0 {
        assert(t =~= repeat_char('0', z));
    } else {
        assert(t.drop_last() =~= repeat_char('0', z) + s.drop_last());
        assert(t.last() == s.last());
        lemma_zero_pad_value(z, s.drop_last());
    }
    assert forall|i: int| 0 <= i < t.len() implies is_digit_char(#[trigger] t[i]) by {
        if i >= z {
            assert(t[i] == s[i - z]);
        }
    }
}

/// `n` written with leading zeros to `width` places parses back as `n`.
pub proof fn lemma_padded_parses(n: nat, width: nat)
    requires
        n <= i64::MAX,
    ensures
        ({
            let p = pad_left(decimal(n), width, '0');
            &&& p.len() >= 1
            &&& all_digits(p)
            &&& parse_i64_spec(p) == Some(n as i64)
        }),
{
    lemma_decimal_value(n);
    let d = decimal(n);
    let p = pad_left(d, width, '0');
    if d.len() < width {
        lemma_zero_pad_value((width - d.len()) as nat, d);
    }
    assert(is_digit_char(p[0]));
}

} // verus!
