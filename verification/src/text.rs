//! Text primitives over the characters of a string.

use vstd::prelude::*;
use vstd::utf8::{
    decode_utf8, encode_utf8, encode_utf8_decode_utf8, encode_utf8_valid_utf8, valid_utf8,
};

verus! {

/// `String::push` appends the given character at the end of the string.
pub assume_specification[ String::push ](s: &mut String, c: char)
    ensures
        final(s)@ == old(s)@.push(c),
;

// ---------------------------------------------------------------------------
// Conversions
// ---------------------------------------------------------------------------

/// The characters of `s`.
pub fn chars_of(s: &str) -> (r: Vec<char>)
    ensures
        r@ == s@,
{
    let mut out: Vec<char> = Vec::new();
    for c in it: s.chars()
        invariant
            out@ == it.seq().take(it.index()),
            it.seq() == s@,
    {
        proof {
            assert(it.seq().take(it.index() + 1) =~= it.seq().take(it.index()).push(c));
        }
        out.push(c);
    }
    out
}

/// The string made of the characters `from..to` of `v`.
pub fn string_of(v: &Vec<char>, from: usize, to: usize) -> (r: String)
    requires
        from <= to <= v@.len(),
    ensures
        r@ == v@.subrange(from as int, to as int),
{
    let mut out = String::new();
    let mut i: usize = from;
    while i < to
        invariant
            from <= i <= to <= v@.len(),
            out@ == v@.subrange(from as int, i as int),
        decreases to - i,
    {
        proof {
            assert(v@.subrange(from as int, i + 1) =~= v@.subrange(from as int, i as int).push(
                v@[i as int],
            ));
        }
        out.push(v[i]);
        i = i + 1;
    }
    out
}

/// Whether two strings hold the same characters.
pub fn same(a: &str, b: &str) -> (r: bool)
    ensures
        r == (a@ == b@),
{
    a.to_owned() == b.to_owned()
}

/// Whether a text holds no character below the space, and so no line break of
/// a terminal.
pub open spec fn one_line(s: Seq<char>) -> bool {
    forall|i: int| 0 <= i < s.len() ==> #[trigger] s[i] >= ' '
}

/// The views of a list of strings.
pub open spec fn views(v: Seq<String>) -> Seq<Seq<char>> {
    v.map_values(|s: String| s@)
}

/// The view of an optional string.
pub open spec fn opt_view(o: Option<String>) -> Option<Seq<char>> {
    match o {
        Some(s) => Some(s@),
        None => None,
    }
}

/// A list of owned strings with the same characters.
pub fn clone_strings(v: &Vec<String>) -> (r: Vec<String>)
    ensures
        views(r@) == views(v@),
{
    let mut out: Vec<String> = Vec::new();
    let mut i: usize = 0;
    while i < v.len()
        invariant
            i <= v@.len(),
            out@.len() == i,
            forall|k: int| 0 <= k < i ==> #[trigger] out@[k]@ == v@[k]@,
        decreases v@.len() - i,
    {
        out.push(v[i].clone());
        i = i + 1;
    }
    assert(views(out@) =~= views(v@));
    out
}

// ---------------------------------------------------------------------------
// Prefixes
// ---------------------------------------------------------------------------

/// Whether `p` is a prefix of `s`.
pub open spec fn has_prefix(s: Seq<char>, p: Seq<char>) -> bool {
    p.len() <= s.len() && s.take(p.len() as int) == p
}

/// Whether `s` starts with `p`.
#[verifier::loop_isolation(false)]
pub fn starts_with(s: &str, p: &str) -> (r: bool)
    ensures
        r == has_prefix(s@, p@),
{
    let a = chars_of(s);
    let b = chars_of(p);
    if b.len() > a.len() {
        return false;
    }
    let mut i: usize = 0;
    while i < b.len()
        invariant
            i <= b@.len() <= a@.len(),
            forall|k: int| 0 <= k < i ==> a@[k] == b@[k],
        decreases b@.len() - i,
    {
        if a[i] != b[i] {
            assert(a@.take(b@.len() as int)[i as int] != b@[i as int]);
            return false;
        }
        i = i + 1;
    }
    assert(a@.take(b@.len() as int) =~= b@);
    true
}

/// What follows the prefix `p` in `s`, if `s` has it.
pub open spec fn after_prefix(s: Seq<char>, p: Seq<char>) -> Option<Seq<char>> {
    if has_prefix(s, p) {
        Some(s.skip(p.len() as int))
    } else {
        None
    }
}

/// What follows the prefix `p` in `s`, if `s` has it.
pub fn strip_prefix(s: &str, p: &str) -> (r: Option<String>)
    ensures
        opt_view(r) == after_prefix(s@, p@),
{
    if starts_with(s, p) {
        let a = chars_of(s);
        let b = chars_of(p);
        let out = string_of(&a, b.len(), a.len());
        assert(out@ =~= s@.skip(p@.len() as int));
        Some(out)
    } else {
        None
    }
}

// ---------------------------------------------------------------------------
// Searching
// ---------------------------------------------------------------------------

/// Position of the first `c` in `s`, or `s.len()` when there is none.
pub open spec fn first_pos(s: Seq<char>, c: char) -> int
    decreases s.len(),
{
    if s.len() == 0 {
        0
    } else if s[0] == c {
        0
    } else {
        1 + first_pos(s.skip(1), c)
    }
}

/// Position of the last `c` in `s`, or `-1` when there is none.
pub open spec fn last_pos(s: Seq<char>, c: char) -> int
    decreases s.len(),
{
    if s.len() == 0 {
        -1
    } else if s.last() == c {
        s.len() - 1
    } else {
        last_pos(s.drop_last(), c)
    }
}

/// The characterisation of [`first_pos`]: it is the only position that holds
/// `c` with no `c` before it.
pub proof fn lemma_first_pos(s: Seq<char>, c: char, i: int)
    requires
        0 <= i <= s.len(),
        forall|k: int| 0 <= k < i ==> s[k] != c,
        i < s.len() ==> s[i] == c,
    ensures
        first_pos(s, c) == i,
    decreases s.len(),
{
    if s.len() > 0 && s[0] != c {
        assert(i > 0);
        lemma_first_pos(s.skip(1), c, i - 1);
    }
}

pub proof fn lemma_first_pos_bounds(s: Seq<char>, c: char)
    ensures
        0 <= first_pos(s, c) <= s.len(),
        forall|k: int| 0 <= k < first_pos(s, c) ==> s[k] != c,
        first_pos(s, c) < s.len() ==> s[first_pos(s, c)] == c,
    decreases s.len(),
{
    if s.len() > 0 && s[0] != c {
        lemma_first_pos_bounds(s.skip(1), c);
        assert forall|k: int| 0 <= k < first_pos(s, c) implies s[k] != c by {
            if k > 0 {
                assert(s.skip(1)[k - 1] == s[k]);
            }
        }
    }
}

pub proof fn lemma_last_pos(s: Seq<char>, c: char, i: int)
    requires
        -1 <= i < s.len(),
        forall|k: int| i < k < s.len() ==> s[k] != c,
        i >= 0 ==> s[i] == c,
    ensures
        last_pos(s, c) == i,
    decreases s.len(),
{
    if s.len() > 0 && s.last() != c {
        lemma_last_pos(s.drop_last(), c, i);
    }
}

pub proof fn lemma_last_pos_bounds(s: Seq<char>, c: char)
    ensures
        -1 <= last_pos(s, c) < s.len(),
        forall|k: int| last_pos(s, c) < k < s.len() ==> s[k] != c,
        last_pos(s, c) >= 0 ==> s[last_pos(s, c)] == c,
    decreases s.len(),
{
    if s.len() > 0 && s.last() != c {
        lemma_last_pos_bounds(s.drop_last(), c);
        assert forall|k: int| last_pos(s, c) < k < s.len() implies s[k] != c by {
            if k < s.len() - 1 {
                assert(s.drop_last()[k] == s[k]);
            }
        }
    }
}

/// Position of the first `c` at or after `from`, or `v.len()`.
pub fn find_from(v: &Vec<char>, c: char, from: usize) -> (r: usize)
    requires
        from <= v@.len(),
    ensures
        from <= r <= v@.len(),
        r == from + first_pos(v@.skip(from as int), c),
{
    let mut i: usize = from;
    while i < v.len() && v[i] != c
        invariant
            from <= i <= v@.len(),
            forall|k: int| from <= k < i ==> v@[k] != c,
        decreases v@.len() - i,
    {
        i = i + 1;
    }
    proof {
        let t = v@.skip(from as int);
        assert forall|k: int| 0 <= k < i - from implies t[k] != c by {
            assert(t[k] == v@[from + k]);
        }
        lemma_first_pos(t, c, i - from);
    }
    i
}

/// Whether `n` stands in `s` at position `i`.
pub open spec fn occurs_at(s: Seq<char>, n: Seq<char>, i: int) -> bool {
    0 <= i && i + n.len() <= s.len() && s.subrange(i, i + n.len()) == n
}

/// Whether `n` stands somewhere in `s`.
pub open spec fn occurs_in(s: Seq<char>, n: Seq<char>) -> bool {
    exists|i: int| occurs_at(s, n, i)
}

/// Whether `i` is the first position at which `n` stands in `s`.
pub open spec fn first_occurrence(s: Seq<char>, n: Seq<char>, i: int) -> bool {
    occurs_at(s, n, i) && forall|k: int| 0 <= k < i ==> !occurs_at(s, n, k)
}

#[verifier::loop_isolation(false)]
fn occurs_here(a: &Vec<char>, b: &Vec<char>, i: usize) -> (r: bool)
    ensures
        r == occurs_at(a@, b@, i as int),
{
    if i > a.len() || b.len() > a.len() - i {
        return false;
    }
    let mut k: usize = 0;
    while k < b.len()
        invariant
            i + b@.len() <= a@.len(),
            k <= b@.len(),
            forall|j: int| 0 <= j < k ==> a@[i + j] == b@[j],
        decreases b@.len() - k,
    {
        if a[i + k] != b[k] {
            assert(a@.subrange(i as int, i + b@.len())[k as int] != b@[k as int]);
            return false;
        }
        k = k + 1;
    }
    assert(a@.subrange(i as int, i + b@.len()) =~= b@);
    true
}

/// The first position of `n` in `s`, counted in characters.
#[verifier::loop_isolation(false)]
pub fn find_text(s: &str, n: &str) -> (r: Option<usize>)
    ensures
        match r {
            Some(i) => first_occurrence(s@, n@, i as int),
            None => !occurs_in(s@, n@),
        },
{
    let a = chars_of(s);
    let b = chars_of(n);
    let mut i: usize = 0;
    while i < a.len()
        invariant
            i <= a@.len(),
            forall|k: int| 0 <= k < i ==> !occurs_at(a@, b@, k),
        decreases a@.len() - i,
    {
        if occurs_here(&a, &b, i) {
            return Some(i);
        }
        i = i + 1;
    }
    if occurs_here(&a, &b, i) {
        return Some(i);
    }
    assert forall|k: int| !occurs_at(s@, n@, k) by {
        if k > a@.len() {
        }
    }
    None
}

/// Whether `n` stands somewhere in `s`.
pub fn contains_text(s: &str, n: &str) -> (r: bool)
    ensures
        r == occurs_in(s@, n@),
{
    match find_text(s, n) {
        Some(_) => true,
        None => false,
    }
}

/// What stands in `s` from the first `n` on.
pub open spec fn from_first(s: Seq<char>, n: Seq<char>) -> Option<Seq<char>>
    decreases s.len(),
{
    if has_prefix(s, n) {
        Some(s)
    } else if s.len() == 0 {
        None
    } else {
        from_first(s.skip(1), n)
    }
}

proof fn lemma_from_first(s: Seq<char>, n: Seq<char>, i: int)
    requires
        first_occurrence(s, n, i),
    ensures
        from_first(s, n) == Some(s.skip(i)),
    decreases s.len(),
{
    if i == 0 {
        assert(s.take(n.len() as int) =~= s.subrange(0, n.len() as int));
        assert(s.skip(0) =~= s);
    } else {
        assert(!occurs_at(s, n, 0));
        assert(s.take(n.len() as int) =~= s.subrange(0, n.len() as int));
        let t = s.skip(1);
        assert(t.subrange(i - 1, i - 1 + n.len()) =~= s.subrange(i, i + n.len()));
        assert forall|k: int| 0 <= k < i - 1 implies !occurs_at(t, n, k) by {
            assert(!occurs_at(s, n, k + 1));
            if k + n.len() <= t.len() {
                assert(t.subrange(k, k + n.len()) =~= s.subrange(k + 1, k + 1 + n.len()));
            }
        }
        lemma_from_first(t, n, i - 1);
        assert(t.skip(i - 1) =~= s.skip(i));
    }
}

pub proof fn lemma_from_first_none(s: Seq<char>, n: Seq<char>)
    requires
        !occurs_in(s, n),
    ensures
        from_first(s, n) is None,
    decreases s.len(),
{
    assert(!occurs_at(s, n, 0));
    if has_prefix(s, n) {
        assert(s.take(n.len() as int) =~= s.subrange(0, n.len() as int));
    }
    if s.len() > 0 {
        let t = s.skip(1);
        assert forall|k: int| !occurs_at(t, n, k) by {
            assert(!occurs_at(s, n, k + 1));
            if 0 <= k && k + n.len() <= t.len() {
                assert(t.subrange(k, k + n.len()) =~= s.subrange(k + 1, k + 1 + n.len()));
            }
        }
        lemma_from_first_none(t, n);
    }
}

/// What stands in `s` from the first `n` on.
pub fn suffix_from(s: &str, n: &str) -> (r: Option<String>)
    ensures
        opt_view(r) == from_first(s@, n@),
{
    match find_text(s, n) {
        Some(i) => {
            let v = chars_of(s);
            proof {
                lemma_from_first(s@, n@, i as int);
                assert(v@.subrange(i as int, v@.len() as int) =~= s@.skip(i as int));
            }
            Some(string_of(&v, i, v.len()))
        },
        None => {
            proof {
                lemma_from_first_none(s@, n@);
            }
            None
        },
    }
}

// ---------------------------------------------------------------------------
// Bytes
// ---------------------------------------------------------------------------

/// The text that bytes hold, as `String::from_utf8_lossy` reads them: what is
/// no UTF-8 is replaced.
pub uninterp spec fn utf8_lossy(bytes: Seq<u8>) -> Seq<char>;

/// Reads bytes with `std::str::from_utf8`: the text that they encode in UTF-8,
/// or nothing where they are no UTF-8.
#[verifier::external_body]
pub(crate) fn utf8_text(bytes: &[u8]) -> (r: Option<String>)
    ensures
        match r {
            Some(s) => encode_utf8(s@) == bytes@,
            None => !valid_utf8(bytes@),
        },
{
    std::str::from_utf8(bytes).ok().map(|s| s.to_owned())
}

/// Reads bytes with `String::from_utf8_lossy`. The result depends on the bytes
/// alone, and is the text that they encode where they are UTF-8.
#[verifier::external_body]
pub(crate) fn lossy_text(bytes: &[u8]) -> (r: String)
    ensures
        r@ == utf8_lossy(bytes@),
        valid_utf8(bytes@) ==> encode_utf8(r@) == bytes@,
{
    String::from_utf8_lossy(bytes).into_owned()
}

/// The text of a payload: empty where the payload is no UTF-8.
pub open spec fn payload_text(bytes: Seq<u8>) -> Seq<char> {
    if valid_utf8(bytes) {
        decode_utf8(bytes)
    } else {
        Seq::empty()
    }
}

/// The text of a payload.
pub fn text_of_payload(bytes: &[u8]) -> (r: String)
    ensures
        r@ == payload_text(bytes@),
{
    match utf8_text(bytes) {
        Some(s) => {
            proof {
                encode_utf8_valid_utf8(s@);
                encode_utf8_decode_utf8(s@);
            }
            s
        },
        None => String::new(),
    }
}

// ---------------------------------------------------------------------------
// Laws
// ---------------------------------------------------------------------------

/// What follows a prefix is the rest of the text, all of it; and a text without
/// the prefix has no such rest.
pub proof fn prefixes_and_rests_make_the_text(s: Seq<char>, p: Seq<char>, rest: Seq<char>)
    ensures
        after_prefix(p + rest, p) == Some(rest),
        after_prefix(s, p) == Some(rest) ==> s == p + rest,
        after_prefix(s, p) is None ==> s != p + rest,
        has_prefix(s, p) <==> after_prefix(s, p) is Some,
{
    let t = p + rest;
    assert(t.take(p.len() as int) =~= p);
    assert(t.skip(p.len() as int) =~= rest);
    if after_prefix(s, p) == Some(rest) {
        assert(s =~= p + rest);
    }
}

/// What stands in a text from the first occurrence on is the end of the text,
/// from there; and there is none where nothing occurs.
pub proof fn ends_start_at_the_first_occurrence(s: Seq<char>, n: Seq<char>, i: int)
    ensures
        first_occurrence(s, n, i) ==> from_first(s, n) == Some(s.skip(i)),
        !occurs_in(s, n) ==> from_first(s, n) is None,
{
    if first_occurrence(s, n, i) {
        lemma_from_first(s, n, i);
    }
    if !occurs_in(s, n) {
        lemma_from_first_none(s, n);
    }
}

/// A text occurs in another if and only if that is something, the text, and
/// something again.
pub proof fn occurrences_stand_inside(s: Seq<char>, n: Seq<char>)
    ensures
        occurs_in(s, n) <==> exists|a: Seq<char>, b: Seq<char>| s == #[trigger] (a + n + b),
{
    if occurs_in(s, n) {
        let i = choose|i: int| occurs_at(s, n, i);
        let a = s.take(i);
        let b = s.skip(i + n.len());
        assert(s =~= a + n + b);
    }
    if exists|a: Seq<char>, b: Seq<char>| s == #[trigger] (a + n + b) {
        let (a, b) = choose|a: Seq<char>, b: Seq<char>| s == #[trigger] (a + n + b);
        let i = a.len() as int;
        assert(s.subrange(i, i + n.len()) =~= n);
        assert(occurs_at(s, n, i));
    }
}

/// The text of a payload is the text that it was made of. A payload that is no
/// text reads as an empty one.
pub proof fn payloads_read_as_their_text(s: Seq<char>, bytes: Seq<u8>)
    ensures
        payload_text(encode_utf8(s)) == s,
        !valid_utf8(bytes) ==> payload_text(bytes).len() == 0,
{
    encode_utf8_valid_utf8(s);
    encode_utf8_decode_utf8(s);
}

/// A list of strings is viewed string by string, and an optional string as one.
pub proof fn views_show_every_string(v: Seq<String>, s: String)
    ensures
        views(v).len() == v.len(),
        forall|i: int| 0 <= i < v.len() ==> #[trigger] views(v)[i] == v[i]@,
        opt_view(Some(s)) == Some(s@),
        opt_view(None) is None,
{
}

/// A text is one line if and only if it holds no line break, and no other
/// control character either.
pub proof fn one_line_holds_no_line_break(s: Seq<char>)
    ensures
        one_line(s) ==> forall|i: int|
            0 <= i < s.len() ==> #[trigger] s[i] != '\n' && s[i] != '\r' && s[i] != '\t',
        one_line(s) <==> forall|i: int| 0 <= i < s.len() ==> (#[trigger] s[i]) as int >= 32,
{
}

} // verus!
