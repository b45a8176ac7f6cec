use vstd::prelude::*;
use vstd::string::*;

verus! {

/// Why a time text was refused.
#[derive(Clone, Copy, Debug, PartialEq, Eq, Structural)]
pub enum ParseError {
    /// The text is not of the form `[[H:]MM:]SS[.f]`.
    Malformed,
    /// The text is a well-formed time preceded by `-`.
    Negative,
    /// The time does not fit in 64 bits of milliseconds.
    OutOfRange,
}

pub open spec fn is_digit(c: char) -> bool {
    '0' <= c && c <= '9'
}

pub open spec fn digit_value(c: char) -> nat {
    (c as int - '0' as int) as nat
}

/// The character of the decimal digit `d % 10`.
pub open spec fn digit_char(d: nat) -> char {
    ((d % 10) + 48) as char
}

pub open spec fn all_digits(s: Seq<char>) -> bool {
    forall|i: int| 0 <= i < s.len() ==> is_digit(#[trigger] s[i])
}

/// The value of a string of decimal digits.
pub open spec fn number(s: Seq<char>) -> nat
    decreases s.len(),
{
    if s.len() == 0 {
        0
    } else {
        number(s.drop_last()) * 10 + digit_value(s.last())
    }
}

/// `n` in decimal, without leading zeros.
pub open spec fn decimal(n: nat) -> Seq<char>
    decreases n,
{
    if n < 10 {
        seq![digit_char(n)]
    } else {
        decimal(n / 10).push(digit_char(n % 10))
    }
}

pub open spec fn two_digits(n: nat) -> Seq<char> {
    seq![digit_char(n / 10), digit_char(n)]
}

pub open spec fn three_digits(n: nat) -> Seq<char> {
    seq![digit_char(n / 100), digit_char(n / 10), digit_char(n)]
}

pub open spec fn min_nat(a: nat, b: nat) -> nat {
    if a <= b {
        a
    } else {
        b
    }
}

/// `H:MM:SS` followed, for a precision above zero, by `.` and the first
/// `precision` (at most 3) digits of the milliseconds.
pub open spec fn duration_text(ms: nat, precision: nat) -> Seq<char> {
    let p = min_nat(precision, 3);
    decimal(ms / 3600000) + seq![':'] + two_digits(ms / 60000 % 60) + seq![':'] + two_digits(
        ms / 1000 % 60,
    ) + if p == 0 {
        Seq::<char>::empty()
    } else {
        seq!['.'] + three_digits(ms % 1000).take(p as int)
    }
}

/// The value in seconds of `[[H:]MM:]SS` with at most `fields` fields; every
/// field after the first has two digits and is below 60.
pub open spec fn clock_value(c: Seq<char>, fields: nat) -> Option<nat>
    decreases fields,
{
    let n = c.len() as int;
    if n > 0 && all_digits(c) {
        Some(number(c))
    } else if fields > 1 && n >= 4 && c[n - 3] == ':' && is_digit(c[n - 2]) && is_digit(c[n - 1])
        && number(c.subrange(n - 2, n)) < 60 {
        match clock_value(c.take(n - 3), (fields - 1) as nat) {
            Some(v) => Some(v * 60 + number(c.subrange(n - 2, n))),
            None => None,
        }
    } else {
        None
    }
}

/// The number of fraction digits after a final `.`: 1 to 3, or 0 when none.
pub open spec fn fraction_len(t: Seq<char>) -> nat {
    let n = t.len() as int;
    if n >= 2 && t[n - 2] == '.' && is_digit(t[n - 1]) {
        1
    } else if n >= 3 && t[n - 3] == '.' && all_digits(t.subrange(n - 2, n)) {
        2
    } else if n >= 4 && t[n - 4] == '.' && all_digits(t.subrange(n - 3, n)) {
        3
    } else {
        0
    }
}

/// The milliseconds of a fraction of 1 to 3 digits.
pub open spec fn fraction_ms(f: Seq<char>) -> nat {
    if f.len() == 1 {
        number(f) * 100
    } else if f.len() == 2 {
        number(f) * 10
    } else {
        number(f)
    }
}

/// The milliseconds denoted by `[[H:]MM:]SS[.f]`, or `None` when malformed.
pub open spec fn time_value(t: Seq<char>) -> Option<nat> {
    let k = fraction_len(t);
    let n = t.len() as int;
    let clock = if k == 0 {
        t
    } else {
        t.take(n - k - 1)
    };
    let frac = if k == 0 {
        0
    } else {
        fraction_ms(t.subrange(n - k, n))
    };
    match clock_value(clock, 3) {
        Some(v) => Some(v * 1000 + frac),
        None => None,
    }
}

/// What parsing `t` gives.
pub open spec fn parse_result(t: Seq<char>) -> Result<u64, ParseError> {
    if t.len() > 0 && t[0] == '-' && time_value(t.drop_first()) is Some {
        Err(ParseError::Negative)
    } else {
        match time_value(t) {
            None => Err(ParseError::Malformed),
            Some(v) => if v <= u64::MAX {
                Ok(v as u64)
            } else {
                Err(ParseError::OutOfRange)
            },
        }
    }
}

proof fn lemma_number_prefix(s: Seq<char>, j: int)
    requires
        0 <= j <= s.len(),
    ensures
        number(s.take(j)) <= number(s),
    decreases s.len(),
{
    if j == s.len() {
        assert(s.take(j) =~= s);
    } else {
        let d = s.drop_last();
        lemma_number_prefix(d, j);
        assert(d.take(j) =~= s.take(j));
    }
}

proof fn lemma_number_two(s: Seq<char>)
    requires
        s.len() == 2,
    ensures
        number(s) == digit_value(s[0]) * 10 + digit_value(s[1]),
{
    let d = s.drop_last();
    assert(d.drop_last().len() == 0);
    assert(number(d.drop_last()) == 0);
    assert(d.last() == s[0]);
    assert(number(d) == digit_value(s[0]));
}

fn digit_of(c: char) -> (r: u64)
    requires
        is_digit(c),
    ensures
        r == digit_value(c),
        r < 10,
{
    (c as u32 - '0' as u32) as u64
}

fn is_digit_char(c: char) -> (r: bool)
    ensures
        r == is_digit(c),
{
    '0' <= c && c <= '9'
}

/// Whether `t[from..to]` is all digits.
fn all_digits_in(t: &Vec<char>, from: usize, to: usize) -> (r: bool)
    requires
        from <= to <= t@.len(),
    ensures
        r == all_digits(t@.subrange(from as int, to as int)),
{
    let mut i: usize = from;
    while i < to
        invariant
            from <= i <= to <= t@.len(),
            all_digits(t@.subrange(from as int, i as int)),
        decreases to - i,
    {
        if !is_digit_char(t[i]) {
            assert(t@.subrange(from as int, to as int)[i - from] == t@[i as int]);
            return false;
        }
        assert(all_digits(t@.subrange(from as int, i + 1)));
        i = i + 1;
    }
    true
}

/// The value of the digits `t[from..to]`, or `None` when it exceeds 64 bits.
fn number_in(t: &Vec<char>, from: usize, to: usize) -> (r: Option<u64>)
    requires
        from <= to <= t@.len(),
        all_digits(t@.subrange(from as int, to as int)),
    ensures
        match r {
            Some(v) => v == number(t@.subrange(from as int, to as int)),
            None => number(t@.subrange(from as int, to as int)) > u64::MAX,
        },
{
    let ghost whole = t@.subrange(from as int, to as int);
    let mut acc: u64 = 0;
    let mut i: usize = from;
    assert(t@.subrange(from as int, from as int).len() == 0);
    while i < to
        invariant
            from <= i <= to <= t@.len(),
            whole == t@.subrange(from as int, to as int),
            all_digits(whole),
            acc == number(t@.subrange(from as int, i as int)),
        decreases to - i,
    {
        let ghost next = t@.subrange(from as int, i + 1);
        assert(next.drop_last() =~= t@.subrange(from as int, i as int));
        assert(whole[i - from] == t@[i as int]);
        let d = digit_of(t[i]);
        if acc > (u64::MAX - d) / 10 {
            proof {
                assert(acc * 10 + d > u64::MAX) by (nonlinear_arith)
                    requires
                        acc > (u64::MAX - d) / 10,
                        d < 10,
                ;
                assert(whole.take(i + 1 - from) =~= next);
                lemma_number_prefix(whole, i + 1 - from);
            }
            return None;
        }
        proof {
            assert(acc * 10 + d <= u64::MAX) by (nonlinear_arith)
                requires
                    acc <= (u64::MAX - d) / 10,
                    d < 10,
            ;
        }
        acc = acc * 10 + d;
        i = i + 1;
    }
    Some(acc)
}

/// What `clock_value` gives for `t[from..to]`, bounded to 64 bits.
fn clock_in(t: &Vec<char>, from: usize, to: usize, fields: u64) -> (r: Result<u64, ParseError>)
    requires
        from <= to <= t@.len(),
    ensures
        match clock_value(t@.subrange(from as int, to as int), fields as nat) {
            None => r == Err::<u64, ParseError>(ParseError::Malformed),
            Some(v) => if v <= u64::MAX {
                r == Ok::<u64, ParseError>(v as u64)
            } else {
                r == Err::<u64, ParseError>(ParseError::OutOfRange)
            },
        },
    decreases fields,
{
    let ghost c = t@.subrange(from as int, to as int);
    let n = to - from;
    if n > 0 && all_digits_in(t, from, to) {
        return match number_in(t, from, to) {
            Some(v) => Ok(v),
            None => Err(ParseError::OutOfRange),
        };
    }
    if fields > 1 && n >= 4 && t[to - 3] == ':' && is_digit_char(t[to - 2]) && is_digit_char(
        t[to - 1],
    ) {
        assert(c[n - 3] == t@[to - 3]);
        assert(c[n - 2] == t@[to - 2]);
        assert(c[n - 1] == t@[to - 1]);
        let ghost last = c.subrange(n - 2, n as int);
        proof {
            lemma_number_two(last);
        }
        let x = digit_of(t[to - 2]) * 10 + digit_of(t[to - 1]);
        if x >= 60 {
            return Err(ParseError::Malformed);
        }
        assert(c.take(n - 3) =~= t@.subrange(from as int, to - 3));
        let head = clock_in(t, from, to - 3, fields - 1);
        return match head {
            Ok(v) => {
                if v <= (u64::MAX - x) / 60 {
                    proof {
                        assert(v * 60 + x <= u64::MAX) by (nonlinear_arith)
                            requires
                                v <= (u64::MAX - x) / 60,
                                x < 60,
                        ;
                    }
                    Ok(v * 60 + x)
                } else {
                    proof {
                        assert(v * 60 + x > u64::MAX) by (nonlinear_arith)
                            requires
                                v > (u64::MAX - x) / 60,
                                x < 60,
                        ;
                    }
                    Err(ParseError::OutOfRange)
                }
            },
            Err(e) => {
                proof {
                    match clock_value(c.take(n - 3), (fields - 1) as nat) {
                        Some(v) => {
                            assert(v * 60 + x >= v) by (nonlinear_arith);
                        },
                        None => {},
                    }
                }
                Err(e)
            },
        };
    }
    Err(ParseError::Malformed)
}

/// The milliseconds of the fraction `t[to - k..to]`.
fn fraction_in(t: &Vec<char>, to: usize, k: usize) -> (r: u64)
    requires
        1 <= k <= 3,
        k <= to <= t@.len(),
        all_digits(t@.subrange(to - k, to as int)),
    ensures
        r == fraction_ms(t@.subrange(to - k, to as int)),
        r < 1000,
{
    proof {
        lemma_number_bound(t@.subrange(to - k, to as int));
    }
    let v = match number_in(t, to - k, to) {
        Some(v) => v,
        None => 0,
    };
    if k == 1 {
        v * 100
    } else if k == 2 {
        v * 10
    } else {
        v
    }
}

/// What `time_value` gives for `t[from..]`, bounded to 64 bits.
#[verifier::rlimit(30)]
fn value_in(t: &Vec<char>, from: usize) -> (r: Result<u64, ParseError>)
    requires
        from <= t@.len(),
    ensures
        match time_value(t@.subrange(from as int, t@.len() as int)) {
            None => r == Err::<u64, ParseError>(ParseError::Malformed),
            Some(v) => if v <= u64::MAX {
                r == Ok::<u64, ParseError>(v as u64)
            } else {
                r == Err::<u64, ParseError>(ParseError::OutOfRange)
            },
        },
{
    let to = t.len();
    let ghost s = t@.subrange(from as int, to as int);
    let n = to - from;
    let k: usize = if n >= 2 && t[to - 2] == '.' && is_digit_char(t[to - 1]) {
        1
    } else if n >= 3 && t[to - 3] == '.' && all_digits_in(t, to - 2, to) {
        2
    } else if n >= 4 && t[to - 4] == '.' && all_digits_in(t, to - 3, to) {
        3
    } else {
        0
    };
    proof {
        if n >= 2 {
            assert(s[n - 2] == t@[to - 2]);
            assert(s[n - 1] == t@[to - 1]);
        }
        if n >= 3 {
            assert(s[n - 3] == t@[to - 3]);
            assert(s.subrange(n - 2, n as int) =~= t@.subrange(to - 2, to as int));
        }
        if n >= 4 {
            assert(s[n - 4] == t@[to - 4]);
            assert(s.subrange(n - 3, n as int) =~= t@.subrange(to - 3, to as int));
        }
        assert(k == fraction_len(s));
    }
    let clock_end: usize = if k == 0 { to } else { to - k - 1 };
    let frac: u64 = if k == 0 { 0 } else {
        assert(s.subrange(n - k, n as int) =~= t@.subrange(to - k, to as int));
        if k == 1 {
            assert(all_digits(t@.subrange(to - 1, to as int)));
        }
        fraction_in(t, to, k)
    };
    if k == 0 {
        assert(s =~= t@.subrange(from as int, clock_end as int));
    } else {
        assert(s.take(n - k - 1) =~= t@.subrange(from as int, clock_end as int));
    }
    assert(frac < 1000);
    match clock_in(t, from, clock_end, 3) {
        Ok(v) => {
            if v <= (u64::MAX - frac) / 1000 {
                proof {
                    assert(v * 1000 + frac <= u64::MAX) by (nonlinear_arith)
                        requires
                            v <= (u64::MAX - frac) / 1000,
                            frac < 1000,
                    ;
                }
                Ok(v * 1000 + frac)
            } else {
                proof {
                    assert(v * 1000 + frac > u64::MAX) by (nonlinear_arith)
                        requires
                            v > (u64::MAX - frac) / 1000,
                            frac < 1000,
                    ;
                }
                Err(ParseError::OutOfRange)
            }
        },
        Err(e) => {
            proof {
                match clock_value(t@.subrange(from as int, clock_end as int), 3) {
                    Some(v) => {
                        assert(v * 1000 + frac >= v) by (nonlinear_arith);
                    },
                    None => {},
                }
            }
            Err(e)
        },
    }
}

/// A string of at most three digits is below 1000.
proof fn lemma_number_bound(s: Seq<char>)
    requires
        s.len() <= 3,
        all_digits(s),
    ensures
        s.len() == 1 ==> number(s) < 10,
        s.len() == 2 ==> number(s) < 100,
        s.len() == 3 ==> number(s) < 1000,
    decreases s.len(),
{
    if s.len() > 0 {
        let d = s.drop_last();
        assert(all_digits(d)) by {
            assert forall|i: int| 0 <= i < d.len() implies is_digit(d[i]) by {
                assert(d[i] == s[i]);
            }
        }
        assert(is_digit(s[s.len() - 1]));
        lemma_number_bound(d);
        if d.len() == 0 {
            assert(number(d) == 0);
        }
    }
}

/// The characters of `text`.
fn chars_of(text: &str) -> (r: Vec<char>)
    ensures
        r@ == text@,
{
    let n = text.unicode_len();
    let mut v: Vec<char> = Vec::new();
    for i in 0..n
        invariant
            n == text@.len(),
            v@ =~= text@.take(i as int),
    {
        v.push(text.get_char(i));
    }
    assert(text@.take(n as int) =~= text@);
    v
}

/// Parses `[[H:]MM:]SS[.f]` (fraction of 1 to 3 digits) into milliseconds.
pub fn parse(text: &str) -> (r: Result<u64, ParseError>)
    ensures
        r == parse_result(text@),
{
    let t = chars_of(text);
    if t.len() > 0 && t[0] == '-' {
        assert(t@.subrange(1, t@.len() as int) =~= t@.drop_first());
        match value_in(&t, 1) {
            Err(ParseError::Malformed) => {},
            _ => {
                return Err(ParseError::Negative);
            },
        }
    }
    assert(t@.subrange(0, t@.len() as int) =~= t@);
    value_in(&t, 0)
}

proof fn lemma_digit_char(d: nat)
    ensures
        is_digit(digit_char(d)),
        digit_value(digit_char(d)) == d % 10,
{
}

proof fn lemma_decimal(n: nat)
    ensures
        decimal(n).len() > 0,
        all_digits(decimal(n)),
        number(decimal(n)) == n,
    decreases n,
{
    lemma_digit_char(n);
    if n < 10 {
        let s = decimal(n);
        assert(s.drop_last().len() == 0);
        assert(number(s.drop_last()) == 0);
    } else {
        lemma_decimal(n / 10);
        let s = decimal(n);
        assert(s.drop_last() =~= decimal(n / 10));
        assert(all_digits(s)) by {
            assert forall|i: int| 0 <= i < s.len() implies is_digit(s[i]) by {
                if i < s.len() - 1 {
                    assert(s[i] == decimal(n / 10)[i]);
                }
            }
        }
    }
}

proof fn lemma_two_digits(x: nat)
    requires
        x < 100,
    ensures
        all_digits(two_digits(x)),
        number(two_digits(x)) == x,
{
    lemma_digit_char(x / 10);
    lemma_digit_char(x);
    lemma_number_two(two_digits(x));
}

proof fn lemma_three_digits(x: nat)
    requires
        x < 1000,
    ensures
        all_digits(three_digits(x)),
        number(three_digits(x)) == x,
{
    let s = three_digits(x);
    lemma_digit_char(x / 100);
    lemma_digit_char(x / 10);
    lemma_digit_char(x);
    lemma_number_two(s.drop_last());
    assert(s.drop_last() =~= seq![digit_char(x / 100), digit_char(x / 10)]);
    assert(number(s) == number(s.drop_last()) * 10 + digit_value(s[2]));
    assert((x / 100 % 10) * 100 + (x / 10 % 10) * 10 + x % 10 == x) by (nonlinear_arith)
        requires
            x < 1000,
    ;
}

/// One more `:SS` field: `clock_value(a + ":" + two_digits(x), f + 1)` is
/// `clock_value(a, f) * 60 + x` when `a` is a valid clock.
proof fn lemma_clock_field(a: Seq<char>, fields: nat, x: nat, v: nat)
    requires
        x < 60,
        fields >= 1,
        a.len() > 0,
        clock_value(a, fields) == Some(v),
    ensures
        clock_value(a + seq![':'] + two_digits(x), fields + 1) == Some(v * 60 + x),
{
    let c = a + seq![':'] + two_digits(x);
    let n = c.len() as int;
    lemma_two_digits(x);
    assert(c.subrange(n - 2, n) =~= two_digits(x));
    assert(c.take(n - 3) =~= a);
    assert(c[n - 3] == ':');
    assert(!all_digits(c)) by {
        assert(!is_digit(c[n - 3]));
    }
    assert(is_digit(c[n - 2])) by {
        assert(c[n - 2] == two_digits(x)[0]);
    }
    assert(is_digit(c[n - 1])) by {
        assert(c[n - 1] == two_digits(x)[1]);
    }
    assert(number(c.subrange(n - 2, n)) == x);
    assert((fields + 1 - 1) as nat == fields);
    assert(n >= 4);
    assert(fields + 1 > 1);
    reveal_with_fuel(clock_value, 2);
}

/// Formatting at millisecond precision and parsing again gives the same duration.
pub proof fn lemma_parse_format_round_trip(ms: u64)
    ensures
        parse_result(duration_text(ms as nat, 3)) == Ok::<u64, ParseError>(ms),
{
    let d = ms as nat;
    let h = d / 3600000;
    let m = d / 60000 % 60;
    let s = d / 1000 % 60;
    let f = d % 1000;
    let b = decimal(h) + seq![':'] + two_digits(m);
    let a = b + seq![':'] + two_digits(s);
    let t = duration_text(d, 3);
    assert(three_digits(f).take(3) =~= three_digits(f));
    assert(t =~= a + seq!['.'] + three_digits(f));
    lemma_decimal(h);
    lemma_three_digits(f);
    lemma_digit_char(f / 100);
    lemma_digit_char(f / 10);
    let n = t.len() as int;
    assert(t[n - 4] == '.');
    assert(t[n - 2] != '.');
    assert(t[n - 3] != '.');
    assert(t.subrange(n - 3, n) =~= three_digits(f));
    assert(fraction_len(t) == 3);
    assert(t.take(n - 4) =~= a);
    assert(clock_value(decimal(h), 1) == Some(h));
    lemma_clock_field(decimal(h), 1, m, h);
    lemma_clock_field(b, 2, s, h * 60 + m);
    assert(time_value(t) == Some(((h * 60 + m) * 60 + s) * 1000 + f));
    assert(((h * 60 + m) * 60 + s) * 1000 + f == d) by (nonlinear_arith)
        requires
            h == d / 3600000,
            m == d / 60000 % 60,
            s == d / 1000 % 60,
            f == d % 1000,
    ;
    assert(t[0] == decimal(h)[0]);
    lemma_digit_char(0);
}

/// Relies on String::push: appends one character.
#[verifier::external_body]
fn push_char(s: &mut String, c: char)
    ensures
        final(s)@ == old(s)@.push(c),
{
    s.push(c);
}

fn digit(d: u64) -> (c: char)
    ensures
        c == digit_char(d as nat),
{
    let v: u8 = (d % 10) as u8;
    (v + 48) as char
}

/// Appends `n` in decimal.
fn push_decimal(s: &mut String, n: u64)
    ensures
        final(s)@ == old(s)@ + decimal(n as nat),
    decreases n,
{
    if n < 10 {
        push_char(s, digit(n));
        assert(old(s)@.push(digit_char(n as nat)) =~= old(s)@ + decimal(n as nat));
    } else {
        push_decimal(s, n / 10);
        push_char(s, digit(n % 10));
        assert(digit_char((n % 10) as nat) == digit_char(n as nat));
        assert(old(s)@ + decimal((n / 10) as nat) + seq![digit_char(n as nat)] =~= old(s)@
            + decimal(n as nat));
    }
}

/// Formatting of durations with a fixed number of fraction digits.
#[derive(Clone, Copy, Debug, PartialEq, Eq, Structural)]
pub struct TimeFormat {
    /// Fraction digits shown; values above 3 show 3.
    pub precision: usize,
}

impl TimeFormat {
    /// A format showing `precision` fraction digits (at most 3).
    pub fn new(precision: usize) -> (r: TimeFormat)
        ensures
            r.precision == precision,
    {
        TimeFormat { precision }
    }

    /// The format with millisecond precision.
    pub fn millis() -> (r: TimeFormat)
        ensures
            r.precision == 3,
    {
        TimeFormat { precision: 3 }
    }

    /// `ms` as `H:MM:SS.fff`.
    pub fn format_duration(&self, ms: u64) -> (r: String)
        ensures
            r@ == duration_text(ms as nat, self.precision as nat),
    {
        let p: usize = if self.precision <= 3 { self.precision } else { 3 };
        let mut s = String::new();
        push_decimal(&mut s, ms / 3600000);
        push_char(&mut s, ':');
        let m = ms / 60000 % 60;
        push_char(&mut s, digit(m / 10));
        push_char(&mut s, digit(m));
        push_char(&mut s, ':');
        let sec = ms / 1000 % 60;
        push_char(&mut s, digit(sec / 10));
        push_char(&mut s, digit(sec));
        let ghost head = s@;
        let f = ms % 1000;
        if p > 0 {
            push_char(&mut s, '.');
            push_char(&mut s, digit(f / 100));
            if p > 1 {
                push_char(&mut s, digit(f / 10));
            }
            if p > 2 {
                push_char(&mut s, digit(f));
            }
        }
        assert(head =~= decimal((ms / 3600000) as nat) + seq![':'] + two_digits(
            (ms / 60000 % 60) as nat,
        ) + seq![':'] + two_digits((ms / 1000 % 60) as nat));
        assert(s@ =~= duration_text(ms as nat, self.precision as nat));
        s
    }

    /// A time that may be absent: empty when absent, else as `format_duration`.
    pub fn format_time_span(&self, t: Option<u64>) -> (r: String)
        ensures
            r@ == match t {
                Some(ms) => duration_text(ms as nat, self.precision as nat),
                None => Seq::<char>::empty(),
            },
    {
        match t {
            Some(ms) => self.format_duration(ms),
            None => String::new(),
        }
    }
}

} // verus!
