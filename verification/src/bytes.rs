//! The length of texts in bytes, and the prefixes of a text that fit a number
//! of bytes.

use vstd::prelude::*;
use vstd::utf8::{encode_scalar, encode_utf8};

use crate::text::{chars_of, string_of};

verus! {

/// The number of bytes that a character takes in UTF-8.
pub open spec fn width(c: char) -> nat {
    if c as u32 <= 0x7f {
        1
    } else if c as u32 <= 0x7ff {
        2
    } else if c as u32 <= 0xffff {
        3
    } else {
        4
    }
}

/// The number of bytes that a text takes in UTF-8.
pub open spec fn byte_len(s: Seq<char>) -> nat
    decreases s.len(),
{
    if s.len() == 0 {
        0
    } else {
        width(s[0]) + byte_len(s.skip(1))
    }
}

/// How many characters of `s`, from the front, fit into `max` bytes.
pub open spec fn fit(s: Seq<char>, max: nat) -> nat
    decreases s.len(),
{
    if s.len() == 0 || width(s[0]) > max {
        0
    } else {
        1 + fit(s.skip(1), (max - width(s[0])) as nat)
    }
}

/// The longest prefix of `s` that fits into `max` bytes.
pub open spec fn fitting(s: Seq<char>, max: nat) -> Seq<char> {
    s.take(fit(s, max) as int)
}

proof fn lemma_width(c: char)
    ensures
        encode_scalar(c as u32).len() == width(c),
{
}

/// The length in bytes is that of the UTF-8 encoding.
pub proof fn byte_len_is_utf8_len(s: Seq<char>)
    ensures
        byte_len(s) == encode_utf8(s).len(),
    decreases s.len(),
{
    if s.len() > 0 {
        assert(s.drop_first() =~= s.skip(1));
        byte_len_is_utf8_len(s.skip(1));
        lemma_width(s[0]);
    }
}

/// The longest prefix that fits is a prefix, fits, and grows beyond the limit
/// with the next character.
pub proof fn fitting_is_longest_prefix(s: Seq<char>, max: nat)
    ensures
        fit(s, max) <= s.len(),
        byte_len(fitting(s, max)) <= max,
        fit(s, max) < s.len() ==> byte_len(s.take(fit(s, max) as int + 1)) > max,
        byte_len(s) <= max <==> fit(s, max) == s.len(),
        byte_len(s) <= max ==> fitting(s, max) == s,
    decreases s.len(),
{
    let n = fit(s, max) as int;
    if s.len() == 0 {
        assert(s.take(0) =~= s);
    } else if width(s[0]) > max {
        assert(s.take(1)[0] == s[0]);
        assert(s.take(1).skip(1) =~= Seq::<char>::empty());
    } else {
        let rest = s.skip(1);
        let left = (max - width(s[0])) as nat;
        fitting_is_longest_prefix(rest, left);
        assert(s.take(n)[0] == s[0]);
        assert(s.take(n).skip(1) =~= rest.take(n - 1));
        if n < s.len() {
            assert(s.take(n + 1)[0] == s[0]);
            assert(s.take(n + 1).skip(1) =~= rest.take(n));
        } else {
            assert(s.take(n) =~= s);
        }
    }
}

/// The number of bytes that a character takes.
pub fn width_of(c: char) -> (r: usize)
    ensures
        r == width(c),
{
    let code: u32 = c as u32;
    if code <= 0x7f {
        1
    } else if code <= 0x7ff {
        2
    } else if code <= 0xffff {
        3
    } else {
        4
    }
}

/// The position behind the last character that still fits into `max` bytes,
/// counted from `from`, and the number of bytes up to there.
#[verifier::loop_isolation(false)]
pub fn fit_from(v: &Vec<char>, from: usize, max: usize) -> (r: (usize, usize))
    requires
        from <= v@.len(),
    ensures
        r.0 == from + fit(v@.skip(from as int), max as nat),
        r.0 <= v@.len(),
        r.1 == byte_len(fitting(v@.skip(from as int), max as nat)),
        r.1 <= max,
{
    let mut i: usize = from;
    let mut used: usize = 0;
    let ghost s = v@.skip(from as int);
    proof {
        fitting_is_longest_prefix(s, max as nat);
        assert(s.take(0) =~= Seq::<char>::empty());
    }
    while i < v.len()
        invariant
            from <= i <= v@.len(),
            used <= max,
            fit(s, max as nat) == i - from + fit(v@.skip(i as int), (max - used) as nat),
            used == byte_len(s.take(i - from)),
        decreases v@.len() - i,
    {
        let w = width_of(v[i]);
        assert(v@.skip(i as int)[0] == v@[i as int]);
        if w > max - used {
            return (i, used);
        }
        proof {
            assert(v@.skip(i as int).skip(1) =~= v@.skip(i + 1));
            lemma_byte_len_push(s.take(i - from), v@[i as int]);
            assert(s.take(i + 1 - from) =~= s.take(i - from).push(v@[i as int]));
        }
        used = used + w;
        i = i + 1;
    }
    (i, used)
}

pub proof fn lemma_byte_len_push(s: Seq<char>, c: char)
    ensures
        byte_len(s.push(c)) == byte_len(s) + width(c),
    decreases s.len(),
{
    if s.len() == 0 {
        assert(s.push(c)[0] == c);
        assert(s.push(c).skip(1) =~= Seq::<char>::empty());
        assert(byte_len(Seq::<char>::empty()) == 0);
    } else {
        assert(s.push(c)[0] == s[0]);
        assert(s.push(c).skip(1) =~= s.skip(1).push(c));
        lemma_byte_len_push(s.skip(1), c);
    }
}

pub proof fn lemma_byte_len_concat(a: Seq<char>, b: Seq<char>)
    ensures
        byte_len(a + b) == byte_len(a) + byte_len(b),
    decreases b.len(),
{
    if b.len() == 0 {
        assert(a + b =~= a);
    } else {
        lemma_byte_len_concat(a, b.drop_last());
        lemma_byte_len_push(a + b.drop_last(), b.last());
        lemma_byte_len_push(b.drop_last(), b.last());
        assert(a + b =~= (a + b.drop_last()).push(b.last()));
        assert(b =~= b.drop_last().push(b.last()));
    }
}

/// The longest prefix of `s` that fits into `max` bytes.
pub fn prefix_fitting(s: &str, max: usize) -> (r: String)
    ensures
        r@ == fitting(s@, max as nat),
{
    let v = chars_of(s);
    assert(v@.skip(0) =~= v@);
    let (end, _used) = fit_from(&v, 0, max);
    string_of(&v, 0, end)
}

} // verus!
