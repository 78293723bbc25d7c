//! Decimal numbers: writing them and reading them back.

use vstd::prelude::*;

use crate::text::chars_of;

verus! {

/// The digit character of `d`, for `d < 10`.
pub open spec fn digit(d: int) -> char {
    (('0' as u32) + d) as char
}

/// The decimal text of `n`, without leading zeros.
pub open spec fn decimal(n: nat) -> Seq<char>
    decreases n,
{
    if n < 10 {
        seq![digit(n as int)]
    } else {
        decimal(n / 10).push(digit((n % 10) as int))
    }
}

/// The decimal text of `n`, with a minus sign in front of a negative number.
pub open spec fn signed_decimal(n: int) -> Seq<char> {
    if n < 0 {
        seq!['-'] + decimal((-n) as nat)
    } else {
        decimal(n as nat)
    }
}

/// `n` with two digits, for `n < 100`.
pub open spec fn two_digits(n: int) -> Seq<char> {
    seq![digit(n / 10), digit(n % 10)]
}

fn digit_char(d: u64) -> (c: char)
    requires
        d < 10,
    ensures
        c == digit(d as int),
{
    (48u8 + d as u8) as char
}

/// The decimal text of `n`.
pub fn decimal_of(n: u64) -> (r: String)
    ensures
        r@ == decimal(n as nat),
    decreases n,
{
    if n < 10 {
        let mut out = String::new();
        out.push(digit_char(n));
        assert(out@ =~= decimal(n as nat));
        out
    } else {
        let mut out = decimal_of(n / 10);
        out.push(digit_char(n % 10));
        out
    }
}

/// The decimal text of `n`, with its sign.
pub fn signed_decimal_of(n: i64) -> (r: String)
    ensures
        r@ == signed_decimal(n as int),
{
    if n < 0 {
        let mut out = String::new();
        out.push('-');
        let m: u64 = (-(n as i128)) as u64;
        let rest = decimal_of(m);
        let r = vstd::string::StringExecFns::concat(out, rest.as_str());
        assert(r@ =~= signed_decimal(n as int));
        r
    } else {
        decimal_of(n as u64)
    }
}

/// `n` with two digits.
pub fn two_digits_of(n: u64) -> (r: String)
    requires
        n < 100,
    ensures
        r@ == two_digits(n as int),
{
    let mut out = String::new();
    out.push(digit_char(n / 10));
    out.push(digit_char(n % 10));
    assert(out@ =~= two_digits(n as int));
    out
}

// ---------------------------------------------------------------------------
// Reading
// ---------------------------------------------------------------------------

/// Whether `c` is one of `0` to `9`.
pub open spec fn is_digit(c: char) -> bool {
    '0' <= c <= '9'
}

/// Whether every character of `s` is a digit.
pub open spec fn all_digits(s: Seq<char>) -> bool {
    forall|i: int| 0 <= i < s.len() ==> is_digit(#[trigger] s[i])
}

/// The number that the digits of `s` stand for.
pub open spec fn digits_value(s: Seq<char>) -> nat
    decreases s.len(),
{
    if s.len() == 0 {
        0
    } else {
        (digits_value(s.drop_last()) * 10 + (s.last() as u32 - '0' as u32)) as nat
    }
}

/// The digits of a number as it is written: without the plus sign that may
/// stand in front of them.
pub open spec fn unsigned_digits(s: Seq<char>) -> Seq<char> {
    if s.len() > 1 && s[0] == '+' {
        s.skip(1)
    } else {
        s
    }
}

/// The number that `s` writes, when it is at most `max`.
pub open spec fn parsed(s: Seq<char>, max: nat) -> Option<nat> {
    let d = unsigned_digits(s);
    if d.len() > 0 && all_digits(d) && digits_value(d) <= max {
        Some(digits_value(d))
    } else {
        None
    }
}

/// Whether every character of `s` is a digit.
#[verifier::loop_isolation(false)]
pub fn is_all_digits(s: &str) -> (r: bool)
    ensures
        r == all_digits(s@),
{
    let v = chars_of(s);
    let mut i: usize = 0;
    while i < v.len()
        invariant
            i <= v@.len(),
            forall|k: int| 0 <= k < i ==> is_digit(#[trigger] v@[k]),
        decreases v@.len() - i,
    {
        if !(v[i] >= '0' && v[i] <= '9') {
            assert(!is_digit(s@[i as int]));
            return false;
        }
        i = i + 1;
    }
    true
}

proof fn lemma_digits_value_grows(s: Seq<char>, i: int)
    requires
        all_digits(s),
        0 <= i <= s.len(),
    ensures
        digits_value(s.take(i)) <= digits_value(s),
    decreases s.len() - i,
{
    if i < s.len() {
        assert(s.take(i + 1).drop_last() =~= s.take(i));
        assert(is_digit(s[i]));
        lemma_digits_value_grows(s, i + 1);
    } else {
        assert(s.take(i) =~= s);
    }
}

/// The number that `s` writes, when it is at most `max`.
#[verifier::loop_isolation(false)]
pub fn parse_at_most(s: &str, max: u64) -> (r: Option<u64>)
    ensures
        match r {
            Some(n) => parsed(s@, max as nat) == Some(n as nat),
            None => parsed(s@, max as nat) is None,
        },
{
    let v = chars_of(s);
    let from: usize = if v.len() > 1 && v[0] == '+' {
        1
    } else {
        0
    };
    let ghost d = unsigned_digits(s@);
    assert(d =~= v@.skip(from as int));
    if v.len() == 0 {
        return None;
    }
    let mut total: u64 = 0;
    let mut i: usize = from;
    assert(d.take(0) =~= Seq::<char>::empty());
    while i < v.len()
        invariant
            from <= i <= v@.len(),
            forall|k: int| 0 <= k < i - from ==> is_digit(#[trigger] d[k]),
            total == digits_value(d.take(i - from)),
            total <= max,
        decreases v@.len() - i,
    {
        let c = v[i];
        assert(d[i - from] == c);
        if !(c >= '0' && c <= '9') {
            assert(!is_digit(d[i - from]));
            return None;
        }
        let step: u128 = total as u128 * 10 + (c as u32 - '0' as u32) as u128;
        assert(d.take(i - from + 1).drop_last() =~= d.take(i - from));
        assert(step == digits_value(d.take(i - from + 1)));
        if step > max as u128 {
            proof {
                if all_digits(d) {
                    lemma_digits_value_grows(d, i - from + 1);
                }
            }
            return None;
        }
        total = step as u64;
        i = i + 1;
    }
    assert(d.take(d.len() as int) =~= d);
    Some(total)
}

/// The `u32` that `s` writes.
pub fn parse_u32(s: &str) -> (r: Option<u32>)
    ensures
        match r {
            Some(n) => parsed(s@, u32::MAX as nat) == Some(n as nat),
            None => parsed(s@, u32::MAX as nat) is None,
        },
{
    match parse_at_most(s, u32::MAX as u64) {
        Some(n) => Some(n as u32),
        None => None,
    }
}

/// The `u64` that `s` writes.
pub fn parse_u64(s: &str) -> (r: Option<u64>)
    ensures
        match r {
            Some(n) => parsed(s@, u64::MAX as nat) == Some(n as nat),
            None => parsed(s@, u64::MAX as nat) is None,
        },
{
    parse_at_most(s, u64::MAX)
}

// ---------------------------------------------------------------------------
// Laws
// ---------------------------------------------------------------------------

pub proof fn lemma_decimal_digits(n: nat)
    ensures
        decimal(n).len() > 0,
        all_digits(decimal(n)),
        digits_value(decimal(n)) == n,
    decreases n,
{
    let last = digit((n % 10) as int);
    assert(last as u32 == '0' as u32 + n % 10);
    if n < 10 {
        assert(decimal(n).drop_last() =~= Seq::<char>::empty());
        assert(decimal(n).last() == last);
        reveal_with_fuel(digits_value, 2);
    } else {
        lemma_decimal_digits(n / 10);
        assert(decimal(n).drop_last() =~= decimal(n / 10));
        assert forall|i: int| 0 <= i < decimal(n).len() implies is_digit(#[trigger] decimal(n)[i]) by {
            if i < decimal(n).len() - 1 {
                assert(decimal(n)[i] == decimal(n / 10)[i]);
            }
        }
    }
}

/// Reading what was written gives the number back, for every number up to the
/// bound that the reader accepts.
pub proof fn parse_reads_decimal(n: nat, max: nat)
    requires
        n <= max,
    ensures
        parsed(decimal(n), max) == Some(n),
{
    lemma_decimal_digits(n);
    assert(is_digit(decimal(n)[0]));
}

/// A number below a hundred is written with two digits, and these stand for it.
pub proof fn two_digits_stand_for_the_number(n: int)
    requires
        0 <= n < 100,
    ensures
        two_digits(n).len() == 2,
        all_digits(two_digits(n)),
        digits_value(two_digits(n)) == n,
{
    let s = two_digits(n);
    assert(digit(n / 10) as u32 == '0' as u32 + n / 10);
    assert(digit(n % 10) as u32 == '0' as u32 + n % 10);
    assert(s.drop_last() =~= seq![digit(n / 10)]);
    assert(s.drop_last().drop_last() =~= Seq::<char>::empty());
    reveal_with_fuel(digits_value, 3);
}

/// A negative number is written as a minus sign and the digits of its opposite,
/// and any other number as its digits alone.
pub proof fn signed_numbers_hold_their_digits(n: int)
    ensures
        n >= 0 ==> all_digits(signed_decimal(n)) && digits_value(signed_decimal(n)) == n,
        n < 0 ==> {
            let s = signed_decimal(n);
            &&& s.len() > 1
            &&& s[0] == '-'
            &&& all_digits(s.skip(1))
            &&& digits_value(s.skip(1)) == -n
        },
{
    if n >= 0 {
        lemma_decimal_digits(n as nat);
    } else {
        let d = decimal((-n) as nat);
        lemma_decimal_digits((-n) as nat);
        assert(signed_decimal(n).skip(1) =~= d);
    }
}

/// A number is written without a zero in front, so that there is one way to
/// write it.
pub proof fn numbers_start_with_no_zero(n: nat)
    requires
        n > 0,
    ensures
        decimal(n)[0] != '0',
    decreases n,
{
    if n < 10 {
        assert(digit(n as int) as u32 == '0' as u32 + n);
    } else {
        numbers_start_with_no_zero(n / 10);
        lemma_decimal_digits(n / 10);
    }
}

/// A text reads as a number if and only if it is digits, with or without a plus
/// sign in front of them, that stand for a number that is not too large; and
/// then it reads as that number.
pub proof fn only_digits_read_as_numbers(s: Seq<char>, max: nat, n: nat)
    ensures
        parsed(s, max) == Some(n) <==> n <= max && exists|d: Seq<char>|
            (s == d || s == seq!['+'] + d) && d.len() > 0 && #[trigger] all_digits(d)
                && digits_value(d) == n,
{
    if parsed(s, max) == Some(n) {
        let d = unsigned_digits(s);
        if d != s {
            assert(s =~= seq!['+'] + d);
        }
        assert(all_digits(d));
    }
    if n <= max && exists|d: Seq<char>|
        (s == d || s == seq!['+'] + d) && d.len() > 0 && #[trigger] all_digits(d) && digits_value(d)
            == n {
        let d = choose|d: Seq<char>|
            (s == d || s == seq!['+'] + d) && d.len() > 0 && #[trigger] all_digits(d)
                && digits_value(d) == n;
        if s == d {
            assert(is_digit(d[0]));
        } else {
            assert(s.skip(1) =~= d);
        }
        assert(unsigned_digits(s) == d);
    }
}

/// Numbers are written to the base ten: the digits of a number are those of its
/// tenth, where there are any, and then its last one.
pub proof fn decimal_is_to_the_base_ten(n: nat, d: nat)
    requires
        d < 10,
    ensures
        decimal(d) == seq![('0' as u32 + d) as char],
        n > 0 ==> decimal(n * 10 + d) == decimal(n).push(('0' as u32 + d) as char),
        digits_value(decimal(n).push(('0' as u32 + d) as char)) == n * 10 + d,
{
    if n > 0 {
        assert((n * 10 + d) / 10 == n);
        assert((n * 10 + d) % 10 == d);
    }
    lemma_decimal_digits(n);
    let s = decimal(n).push(('0' as u32 + d) as char);
    assert(s.drop_last() =~= decimal(n));
}

} // verus!
