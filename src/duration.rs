//! Non-negative time spans, and how they are written as encoder arguments.

use vstd::prelude::*;
use crate::text::{decimal, decimal_string, digit_char, pow10};

verus! {

/// A non-negative span of time: whole seconds and the nanoseconds beyond.
#[derive(Debug, Clone, Copy, PartialEq, Eq)]
pub struct TimeSpan {
    pub secs: u64,
    pub nanos: u32,
}

/// The nine digits of a nanosecond count below one second, with leading zeros.
pub open spec fn nine_digits(n: nat) -> Seq<char> {
    Seq::new(9, |k: int| digit_char((n / pow10(8 - k)) % 10))
}

/// `s` without its trailing zeros.
pub open spec fn trim_zeros(s: Seq<char>) -> Seq<char>
    decreases s.len(),
{
    if s.len() > 0 && s.last() == '0' {
        trim_zeros(s.drop_last())
    } else {
        s
    }
}

/// A span written in seconds: the whole seconds, then, where the span has
/// nanoseconds, a point and the fraction without trailing zeros.
pub open spec fn seconds_text(secs: nat, nanos: nat) -> Seq<char> {
    if nanos == 0 {
        decimal(secs)
    } else {
        decimal(secs) + seq!['.'] + trim_zeros(nine_digits(nanos))
    }
}

proof fn lemma_pow10_positive(e: int)
    ensures
        pow10(e) >= 1,
        e > 0 ==> pow10(e) == 10 * pow10(e - 1),
    decreases e,
{
    if e > 0 {
        lemma_pow10_positive(e - 1);
    }
}

impl TimeSpan {
    /// The nanoseconds are below one second.
    pub open spec fn wf(&self) -> bool {
        self.nanos < 1_000_000_000
    }

    /// A span of `secs` seconds and `nanos` nanoseconds.
    pub fn new(secs: u64, nanos: u32) -> (r: Self)
        requires
            nanos < 1_000_000_000,
        ensures
            r.wf(),
            r.secs == secs,
            r.nanos == nanos,
    {
        TimeSpan { secs, nanos }
    }

    /// The span in seconds, in decimal notation: `90.5`, `2`, `0.000000001`.
    pub fn seconds_string(&self) -> (r: String)
        requires
            self.wf(),
        ensures
            r@ == seconds_text(self.secs as nat, self.nanos as nat),
    {
        let mut s = decimal_string(self.secs);
        if self.nanos == 0 {
            return s;
        }
        let n = self.nanos as u64;
        let ghost nine = nine_digits(n as nat);
        let mut digits: Vec<u64> = Vec::new();
        let mut div: u64 = 100_000_000;
        let mut k: usize = 0;
        assert(pow10(8) == 100_000_000) by {
            reveal_with_fuel(pow10, 9);
        }
        while k < 9
            invariant
                k <= 9,
                digits@.len() == k,
                k < 9 ==> div as nat == pow10(8 - k),
                forall|j: int| 0 <= j < k ==> #[trigger] digits@[j] == (n as nat / pow10(8 - j)) % 10,
            decreases 9 - k,
        {
            proof {
                lemma_pow10_positive(8 - k);
                lemma_pow10_positive(7 - k);
            }
            digits.push((n / div) % 10);
            div = div / 10;
            k = k + 1;
        }
        let mut e: usize = 9;
        assert(nine.take(9) =~= nine);
        while e > 0 && digits[e - 1] == 0
            invariant
                e <= 9,
                nine.len() == 9,
                digits@.len() == 9,
                forall|j: int| 0 <= j < 9 ==> nine[j] == digit_char(#[trigger] digits@[j] as nat),
                trim_zeros(nine) == trim_zeros(nine.take(e as int)),
            decreases e,
        {
            assert(nine.take(e as int).drop_last() =~= nine.take(e - 1));
            assert(nine.take(e as int).last() == nine[e - 1]);
            e = e - 1;
        }
        assert(trim_zeros(nine.take(e as int)) == nine.take(e as int)) by {
            if e > 0 {
                assert(nine.take(e as int).last() == nine[e - 1]);
                assert(digits@[e - 1] != 0);
                assert(digits@[e - 1] < 10);
            }
        }
        s.append(".");
        proof {
            reveal_strlit(".");
        }
        let ghost head = s@;
        let mut i: usize = 0;
        while i < e
            invariant
                i <= e <= 9,
                nine.len() == 9,
                digits@.len() == 9,
                forall|j: int| 0 <= j < 9 ==> nine[j] == digit_char(#[trigger] digits@[j] as nat),
                forall|j: int| 0 <= j < 9 ==> #[trigger] digits@[j] < 10,
                s@ == head + nine.take(i as int),
            decreases e - i,
        {
            s.append(crate::text::digit_str(digits[i]));
            assert(nine.take(i + 1) =~= nine.take(i as int).push(nine[i as int]));
            i = i + 1;
        }
        s
    }
}

/// Why a time code cannot be read.
#[derive(Debug, Clone, Copy, PartialEq, Eq, Structural)]
pub enum DurationError {
    /// More than three `:`-separated fields.
    UnknownFormat,
    /// A field is not a number of the expected form, or the span does not
    /// fit.
    InvalidNumber,
}

/// A decimal digit.
pub open spec fn is_digit(c: char) -> bool {
    '0' <= c <= '9'
}

/// Every character is a decimal digit.
pub open spec fn all_digits(s: Seq<char>) -> bool {
    forall|i: int| 0 <= i < s.len() ==> is_digit(#[trigger] s[i])
}

/// The number that decimal digits write.
pub open spec fn digits_value(s: Seq<char>) -> nat
    decreases s.len(),
{
    if s.len() == 0 {
        0
    } else {
        digits_value(s.drop_last()) * 10 + ((s.last() as u32 - '0' as u32) as nat)
    }
}

/// `s` without one leading `+`.
pub open spec fn unsigned_text(s: Seq<char>) -> Seq<char> {
    if s.len() > 0 && s[0] == '+' { s.drop_first() } else { s }
}

/// The fields of `s` between `sep` characters.
pub open spec fn split_on(s: Seq<char>, sep: char) -> Seq<Seq<char>>
    decreases s.len(),
{
    if s.len() == 0 {
        seq![Seq::empty()]
    } else {
        let parts = split_on(s.drop_last(), sep);
        if s.last() == sep {
            parts.push(Seq::empty())
        } else {
            parts.update(parts.len() - 1, parts.last().push(s.last()))
        }
    }
}

/// A whole number field: an optional `+`, then one or more digits, at most
/// `u32::MAX`.
pub open spec fn whole_value(s: Seq<char>) -> Option<nat> {
    let t = unsigned_text(s);
    if t.len() > 0 && all_digits(t) && digits_value(t) <= u32::MAX {
        Some(digits_value(t))
    } else {
        None
    }
}

/// The nanoseconds that the digits after a decimal point stand for; digits
/// beyond the ninth are dropped.
pub open spec fn fraction_nanos(frac: Seq<char>) -> nat {
    if frac.len() >= 9 {
        digits_value(frac.take(9))
    } else {
        digits_value(frac) * pow10(9 - frac.len())
    }
}

/// A seconds field: an optional `+`, digits, and optionally a point and more
/// digits, with at least one digit in all; the whole seconds must fit a
/// `u64`.
pub open spec fn seconds_value(s: Seq<char>) -> Option<(nat, nat)> {
    let t = unsigned_text(s);
    let parts = split_on(t, '.');
    if parts.len() == 1 && t.len() > 0 && all_digits(t) && digits_value(t) <= u64::MAX {
        Some((digits_value(t), 0))
    } else if parts.len() == 2 && t.len() > 1 && all_digits(parts[0]) && all_digits(parts[1])
        && digits_value(parts[0]) <= u64::MAX {
        Some((digits_value(parts[0]), fraction_nanos(parts[1])))
    } else {
        None
    }
}

/// The span that a time code `[[HH:]MM:]SS[.frac]` writes, if it is one and
/// it fits.
pub open spec fn timecode_value(s: Seq<char>) -> Option<(nat, nat)> {
    let parts = split_on(s, ':');
    let total = if parts.len() == 1 {
        seconds_value(parts[0])
    } else if parts.len() == 2 {
        match (whole_value(parts[0]), seconds_value(parts[1])) {
            (Some(m), Some(sec)) => Some((m * 60 + sec.0, sec.1)),
            _ => None,
        }
    } else if parts.len() == 3 {
        match (whole_value(parts[0]), whole_value(parts[1]), seconds_value(parts[2])) {
            (Some(h), Some(m), Some(sec)) => Some((h * 3600 + m * 60 + sec.0, sec.1)),
            _ => None,
        }
    } else {
        None
    };
    match total {
        Some(t) => if t.0 <= u64::MAX { Some(t) } else { None },
        None => None,
    }
}

/// The value of a prefix of digits is at most the value of all of them.
proof fn lemma_digits_prefix(s: Seq<char>, k: int)
    requires
        0 <= k <= s.len(),
        all_digits(s),
    ensures
        digits_value(s.take(k)) <= digits_value(s),
    decreases s.len(),
{
    if k < s.len() {
        assert(s.drop_last().take(k) =~= s.take(k));
        lemma_digits_prefix(s.drop_last(), k);
    } else {
        assert(s.take(k) =~= s);
    }
}

/// Digits write a number below ten to the power of their count.
proof fn lemma_digits_below_pow10(s: Seq<char>)
    requires
        all_digits(s),
    ensures
        digits_value(s) < pow10(s.len() as int),
    decreases s.len(),
{
    lemma_pow10_positive(s.len() as int);
    if s.len() > 0 {
        assert(is_digit(s[s.len() - 1]));
        lemma_digits_below_pow10(s.drop_last());
    }
}

/// The characters of `s`.
fn chars_of(s: &str) -> (r: Vec<char>)
    ensures
        r@ == s@,
{
    let n = s.unicode_len();
    let mut r: Vec<char> = Vec::new();
    let mut i: usize = 0;
    while i < n
        invariant
            n == s@.len(),
            i <= n,
            r@ == s@.take(i as int),
        decreases n - i,
    {
        r.push(s.get_char(i));
        assert(s@.take(i + 1) =~= s@.take(i as int).push(s@[i as int]));
        i = i + 1;
    }
    assert(s@.take(n as int) =~= s@);
    r
}

/// The views of a list of character lists.
pub open spec fn char_lists(v: Seq<Vec<char>>) -> Seq<Seq<char>> {
    v.map_values(|c: Vec<char>| c@)
}

/// The fields of `s` between `sep` characters.
fn split_fields(s: &Vec<char>, sep: char) -> (r: Vec<Vec<char>>)
    ensures
        char_lists(r@) == split_on(s@, sep),
{
    let mut done: Vec<Vec<char>> = Vec::new();
    let mut current: Vec<char> = Vec::new();
    let mut i: usize = 0;
    while i < s.len()
        invariant
            i <= s@.len(),
            char_lists(done@).push(current@) == split_on(s@.take(i as int), sep),
        decreases s@.len() - i,
    {
        let c = s[i];
        let ghost prev_done = done@;
        let ghost prev_current = current@;
        assert(s@.take(i + 1).drop_last() =~= s@.take(i as int));
        assert(s@.take(i + 1).last() == c);
        if c == sep {
            done.push(current);
            current = Vec::new();
            assert(char_lists(done@) =~= char_lists(prev_done).push(prev_current));
        } else {
            current.push(c);
            assert(char_lists(done@).push(current@) =~= char_lists(prev_done).push(prev_current).update(
                prev_done.len() as int, prev_current.push(c)));
        }
        i = i + 1;
    }
    assert(s@.take(s@.len() as int) =~= s@);
    done.push(current);
    done
}

/// `s` without one leading `+`.
fn strip_plus(s: Vec<char>) -> (r: Vec<char>)
    ensures
        r@ == unsigned_text(s@),
{
    if s.len() > 0 && s[0] == '+' {
        let ghost whole = s@;
        let mut s = s;
        let rest = s.split_off(1);
        assert(rest@ =~= whole.drop_first());
        rest
    } else {
        s
    }
}

/// The number that `s` writes, where `s` is all digits and the number is at
/// most `limit`.
fn digits_number(s: &Vec<char>, limit: u64) -> (r: Option<u64>)
    ensures
        match r {
            Some(v) => all_digits(s@) && v == digits_value(s@) && v <= limit,
            None => !(all_digits(s@) && digits_value(s@) <= limit),
        },
{
    let mut v: u64 = 0;
    let mut i: usize = 0;
    while i < s.len()
        invariant
            i <= s@.len(),
            all_digits(s@.take(i as int)),
            v == digits_value(s@.take(i as int)),
            v <= limit,
        decreases s@.len() - i,
    {
        let c = s[i];
        let ghost prefix = s@.take(i + 1);
        assert(prefix.drop_last() =~= s@.take(i as int));
        assert(prefix.last() == c);
        if !('0' <= c && c <= '9') {
            assert(!all_digits(s@)) by {
                assert(s@[i as int] == c);
            }
            return None;
        }
        let d = (c as u32 - '0' as u32) as u64;
        assert(d <= 9);
        if d > limit || v > (limit - d) / 10 {
            assert(v * 10 + d > limit) by (nonlinear_arith)
                requires d > limit || v > (limit - d) / 10, v >= 0, d <= 9, limit >= 0;
            proof {
                if all_digits(s@) {
                    lemma_digits_prefix(s@, i + 1);
                }
            }
            return None;
        }
        assert(v * 10 + d <= limit) by (nonlinear_arith)
            requires v <= (limit - d) / 10, d <= 9, d <= limit, v >= 0;
        v = v * 10 + d;
        assert(all_digits(prefix)) by {
            assert forall|j: int| 0 <= j < prefix.len() implies is_digit(#[trigger] prefix[j]) by {
                if j < i {
                    assert(prefix[j] == s@.take(i as int)[j]);
                }
            }
        }
        i = i + 1;
    }
    assert(s@.take(s@.len() as int) =~= s@);
    Some(v)
}

proof fn lemma_pow10_monotone(a: int, b: int)
    requires
        0 <= a <= b,
    ensures
        pow10(a) <= pow10(b),
    decreases b - a,
{
    if a < b {
        lemma_pow10_monotone(a, b - 1);
        lemma_pow10_positive(b);
    }
}

/// Splitting gives at least one field.
proof fn lemma_split_nonempty(s: Seq<char>, sep: char)
    ensures
        split_on(s, sep).len() >= 1,
    decreases s.len(),
{
    if s.len() > 0 {
        lemma_split_nonempty(s.drop_last(), sep);
    }
}

/// Whether every character of `s` is a digit.
fn all_digit_chars(s: &Vec<char>) -> (r: bool)
    ensures
        r == all_digits(s@),
{
    let mut i: usize = 0;
    while i < s.len()
        invariant
            i <= s@.len(),
            forall|j: int| 0 <= j < i ==> is_digit(#[trigger] s@[j]),
        decreases s@.len() - i,
    {
        if !('0' <= s[i] && s[i] <= '9') {
            return false;
        }
        i = i + 1;
    }
    true
}

/// A whole number field.
fn parse_whole(field: Vec<char>) -> (r: Option<u32>)
    ensures
        match whole_value(field@) {
            Some(v) => r == Some(v as u32),
            None => r is None,
        },
{
    let t = strip_plus(field);
    if t.len() == 0 {
        return None;
    }
    match digits_number(&t, 4294967295) {
        Some(v) => Some(v as u32),
        None => None,
    }
}

/// The nanoseconds of the digits after a decimal point.
fn nanos_of_fraction(frac: &Vec<char>) -> (r: u32)
    requires
        all_digits(frac@),
    ensures
        r == fraction_nanos(frac@),
        r < 1_000_000_000,
{
    let mut f: Vec<char> = Vec::new();
    let mut i: usize = 0;
    while i < frac.len() && i < 9
        invariant
            i <= frac@.len(),
            i <= 9,
            f@ == frac@.take(i as int),
        decreases 9 - i,
    {
        f.push(frac[i]);
        assert(frac@.take(i + 1) =~= frac@.take(i as int).push(frac@[i as int]));
        i = i + 1;
    }
    assert(all_digits(f@));
    proof {
        lemma_digits_below_pow10(f@);
        lemma_pow10_positive(f@.len() as int);
        reveal_with_fuel(pow10, 10);
        assert(pow10(9) == 1_000_000_000);
        if f@.len() < 9 {
            lemma_pow10_monotone(f@.len() as int, 9);
        }
    }
    let v = match digits_number(&f, 999_999_999) {
        Some(v) => v,
        None => {
            proof {
                assert(false);
            }
            0
        },
    };
    let ghost len = f@.len() as int;
    assert(pow10(0) == 1);
    assert(digits_value(f@) * pow10(0) == digits_value(f@));
    let mut n: u64 = v;
    let mut k: usize = f.len();
    while k < 9
        invariant
            len <= k <= 9,
            len == f@.len(),
            n == digits_value(f@) * pow10(k - len),
            n < pow10(k as int),
            pow10(9) == 1_000_000_000,
        decreases 9 - k,
    {
        proof {
            lemma_pow10_positive(k + 1 - len);
            lemma_pow10_positive(k + 1);
            assert(digits_value(f@) * pow10(k + 1 - len) == (digits_value(f@) * pow10(k - len)) * 10) by (nonlinear_arith)
                requires pow10(k + 1 - len) == 10 * pow10(k - len);
            lemma_pow10_monotone(k + 1, 9);
        }
        n = n * 10;
        k = k + 1;
    }
    proof {
        if frac@.len() >= 9 {
            assert(f@ =~= frac@.take(9));
            assert(digits_value(f@) * pow10(0) == digits_value(f@));
        } else {
            assert(f@ =~= frac@);
        }
    }
    n as u32
}

/// A seconds field: whole seconds and nanoseconds.
fn parse_seconds(field: Vec<char>) -> (r: Option<(u64, u32)>)
    ensures
        match seconds_value(field@) {
            Some(v) => r == Some((v.0 as u64, v.1 as u32)) && v.1 < 1_000_000_000,
            None => r is None,
        },
{
    let t = strip_plus(field);
    let mut parts = split_fields(&t, '.');
    proof {
        lemma_split_nonempty(t@, '.');
    }
    if parts.len() == 1 {
        proof {
            lemma_split_once(t@, '.');
        }
        if t.len() == 0 {
            return None;
        }
        match digits_number(&t, u64::MAX) {
            Some(v) => Some((v, 0)),
            None => None,
        }
    } else if parts.len() == 2 {
        if t.len() <= 1 {
            return None;
        }
        let frac = parts.pop().unwrap();
        assert(frac@ == split_on(t@, '.')[1]);
        assert(parts@[0]@ == split_on(t@, '.')[0]);
        let whole = match digits_number(&parts[0], u64::MAX) {
            Some(w) => w,
            None => {
                return None;
            },
        };
        if !all_digit_chars(&frac) {
            return None;
        }
        Some((whole, nanos_of_fraction(&frac)))
    } else {
        None
    }
}

/// A text without separators is one field: itself.
proof fn lemma_split_once(s: Seq<char>, sep: char)
    requires
        split_on(s, sep).len() == 1,
    ensures
        split_on(s, sep)[0] == s,
    decreases s.len(),
{
    if s.len() > 0 {
        let parts = split_on(s.drop_last(), sep);
        lemma_split_nonempty(s.drop_last(), sep);
        if s.last() != sep {
            lemma_split_once(s.drop_last(), sep);
            assert(s.drop_last().push(s.last()) =~= s);
        }
    }
}

/// Reads a time code `[[HH:]MM:]SS[.frac]`: seconds, optionally preceded by
/// minutes, optionally preceded by hours. Hours and minutes are whole
/// numbers; the seconds may have a fraction, of which nanoseconds are kept.
pub fn parse(arg: &str) -> (r: Result<TimeSpan, DurationError>)
    ensures
        match timecode_value(arg@) {
            Some(v) => r matches Ok(t) && t.wf() && t.secs == v.0 && t.nanos == v.1,
            None => r is Err,
        },
        r == Err::<TimeSpan, DurationError>(DurationError::UnknownFormat) <==> split_on(arg@, ':').len() > 3,
{
    let chars = chars_of(arg);
    let mut fields = split_fields(&chars, ':');
    proof {
        lemma_split_nonempty(arg@, ':');
    }
    let ghost parts = split_on(arg@, ':');
    if fields.len() > 3 {
        return Err(DurationError::UnknownFormat);
    }
    let n = fields.len();
    assert(fields@[n - 1]@ == parts[n - 1]);
    let seconds_field = fields.pop().unwrap();
    let (sec, nanos) = match parse_seconds(seconds_field) {
        Some(v) => v,
        None => {
            return Err(DurationError::InvalidNumber);
        },
    };
    let mut whole: u64 = 0;
    if n >= 2 {
        assert(fields@[n - 2]@ == parts[n - 2]);
        let minutes_field = fields.pop().unwrap();
        let minutes = match parse_whole(minutes_field) {
            Some(m) => m,
            None => {
                return Err(DurationError::InvalidNumber);
            },
        };
        whole = minutes as u64 * 60;
        if n == 3 {
            assert(fields@[0]@ == parts[0]);
            let hours_field = fields.pop().unwrap();
            let hours = match parse_whole(hours_field) {
                Some(h) => h,
                None => {
                    return Err(DurationError::InvalidNumber);
                },
            };
            whole = hours as u64 * 3600 + whole;
        }
    }
    if sec > u64::MAX - whole {
        return Err(DurationError::InvalidNumber);
    }
    Ok(TimeSpan::new(whole + sec, nanos))
}

} // verus!
