//! Cutting text into pieces and putting pieces together: splitting, lines,
//! trimming, joining and replacing.

use vstd::prelude::*;
use vstd::string::StringExecFns;

use crate::text::{chars_of, find_from, first_pos, string_of, views};

verus! {

// ---------------------------------------------------------------------------
// Splitting
// ---------------------------------------------------------------------------

/// The pieces of `s` between the occurrences of `c`. There is always at least
/// one piece.
pub open spec fn split(s: Seq<char>, c: char) -> Seq<Seq<char>>
    decreases s.len(),
{
    let p = first_pos(s, c);
    if 0 <= p < s.len() {
        seq![s.take(p)] + split(s.skip(p + 1), c)
    } else {
        seq![s]
    }
}

/// At most `n` pieces of `s`: the last one keeps what is left, separators
/// with it.
pub open spec fn split_at_most(s: Seq<char>, c: char, n: nat) -> Seq<Seq<char>>
    decreases n,
{
    let p = first_pos(s, c);
    if n == 0 {
        Seq::empty()
    } else if n > 1 && 0 <= p < s.len() {
        seq![s.take(p)] + split_at_most(s.skip(p + 1), c, (n - 1) as nat)
    } else {
        seq![s]
    }
}

/// The pieces of `s` between the occurrences of `c`.
#[verifier::loop_isolation(false)]
pub fn split_on(s: &str, c: char) -> (r: Vec<String>)
    ensures
        views(r@) == split(s@, c),
{
    let v = chars_of(s);
    let mut out: Vec<String> = Vec::new();
    let mut from: usize = 0;
    assert(v@.skip(0) =~= v@);
    loop
        invariant
            from <= v@.len(),
            v@ == s@,
            views(out@) + split(v@.skip(from as int), c) == split(s@, c),
        decreases v@.len() - from,
    {
        let p = find_from(&v, c, from);
        let ghost rest = v@.skip(from as int);
        let ghost before = out@;
        let piece = string_of(&v, from, p);
        out.push(piece);
        proof {
            assert(piece@ =~= rest.take(p - from));
            assert(views(out@) =~= views(before).push(piece@));
        }
        if p < v.len() {
            proof {
                assert(rest.skip(p - from + 1) =~= v@.skip(p + 1));
                assert(views(out@) + split(v@.skip(p + 1), c) =~= views(before) + split(rest, c));
            }
            from = p + 1;
        } else {
            proof {
                assert(rest.take(p - from) =~= rest);
                assert(views(out@) =~= views(before) + split(rest, c));
            }
            return out;
        }
    }
}

/// At most `n` pieces of `s`, the last one with what is left.
#[verifier::loop_isolation(false)]
pub fn split_on_at_most(s: &str, c: char, n: usize) -> (r: Vec<String>)
    ensures
        views(r@) == split_at_most(s@, c, n as nat),
{
    let v = chars_of(s);
    let mut out: Vec<String> = Vec::new();
    let mut from: usize = 0;
    let mut left: usize = n;
    assert(v@.skip(0) =~= v@);
    if n == 0 {
        assert(views(out@) =~= split_at_most(s@, c, 0));
        return out;
    }
    assert(views(out@) + split_at_most(v@.skip(0), c, n as nat) =~= split_at_most(s@, c, n as nat));
    loop
        invariant
            from <= v@.len(),
            0 < left <= n,
            v@ == s@,
            views(out@) + split_at_most(v@.skip(from as int), c, left as nat) == split_at_most(
                s@,
                c,
                n as nat,
            ),
        decreases left,
    {
        let p = find_from(&v, c, from);
        let ghost rest = v@.skip(from as int);
        let ghost before = out@;
        if left > 1 && p < v.len() {
            let piece = string_of(&v, from, p);
            out.push(piece);
            proof {
                assert(piece@ =~= rest.take(p - from));
                assert(views(out@) =~= views(before).push(piece@));
                assert(rest.skip(p - from + 1) =~= v@.skip(p + 1));
                assert(views(out@) + split_at_most(v@.skip(p + 1), c, (left - 1) as nat)
                    =~= views(before) + split_at_most(rest, c, left as nat));
            }
            from = p + 1;
            left = left - 1;
        } else {
            let piece = string_of(&v, from, v.len());
            out.push(piece);
            proof {
                assert(piece@ =~= rest);
                assert(views(out@) =~= views(before).push(piece@));
                assert(views(out@) =~= views(before) + split_at_most(rest, c, left as nat));
            }
            return out;
        }
    }
}

/// What follows the last `c` in `s`; all of `s` when there is no `c`.
pub open spec fn after_last(s: Seq<char>, c: char) -> Seq<char> {
    s.skip(crate::text::last_pos(s, c) + 1)
}

/// What follows the last `c` in `s`; all of `s` when there is no `c`.
#[verifier::loop_isolation(false)]
pub fn tail_after_last(s: &str, c: char) -> (r: String)
    ensures
        r@ == after_last(s@, c),
{
    let v = chars_of(s);
    let mut i: usize = v.len();
    while i > 0 && v[i - 1] != c
        invariant
            i <= v@.len(),
            forall|k: int| i <= k < v@.len() ==> v@[k] != c,
        decreases i,
    {
        i = i - 1;
    }
    proof {
        crate::text::lemma_last_pos(v@, c, i - 1);
    }
    let out = string_of(&v, i, v.len());
    assert(out@ =~= after_last(s@, c));
    out
}

// ---------------------------------------------------------------------------
// Lines
// ---------------------------------------------------------------------------

/// `s` without a carriage return at its end.
pub open spec fn strip_cr(s: Seq<char>) -> Seq<char> {
    if s.len() > 0 && s.last() == '\r' {
        s.drop_last()
    } else {
        s
    }
}

/// The lines of `s`. A line ends in `\n` or `\r\n`, which is not part of it;
/// the last line needs no ending.
pub open spec fn lines(s: Seq<char>) -> Seq<Seq<char>>
    decreases s.len(),
{
    let p = first_pos(s, '\n');
    if s.len() == 0 {
        Seq::empty()
    } else if 0 <= p < s.len() {
        seq![strip_cr(s.take(p))] + lines(s.skip(p + 1))
    } else {
        seq![s]
    }
}

/// The lines of `s`.
#[verifier::loop_isolation(false)]
pub fn lines_of(s: &str) -> (r: Vec<String>)
    ensures
        views(r@) == lines(s@),
{
    let v = chars_of(s);
    let mut out: Vec<String> = Vec::new();
    let mut from: usize = 0;
    assert(v@.skip(0) =~= v@);
    assert(views(out@) + lines(v@.skip(0)) =~= lines(s@));
    while from < v.len()
        invariant
            from <= v@.len(),
            v@ == s@,
            views(out@) + lines(v@.skip(from as int)) == lines(s@),
        decreases v@.len() - from,
    {
        let p = find_from(&v, '\n', from);
        let ghost rest = v@.skip(from as int);
        let ghost before = out@;
        if p < v.len() {
            let end: usize = if p > from && v[p - 1] == '\r' {
                p - 1
            } else {
                p
            };
            let piece = string_of(&v, from, end);
            out.push(piece);
            proof {
                assert(piece@ =~= strip_cr(rest.take(p - from)));
                assert(views(out@) =~= views(before).push(piece@));
                assert(rest.skip(p - from + 1) =~= v@.skip(p + 1));
                assert(views(out@) + lines(v@.skip(p + 1)) =~= views(before) + lines(rest));
            }
            from = p + 1;
        } else {
            let piece = string_of(&v, from, v.len());
            out.push(piece);
            proof {
                assert(piece@ =~= rest);
                assert(views(out@) =~= views(before).push(piece@));
                assert(v@.skip(v@.len() as int) =~= Seq::<char>::empty());
                assert(views(out@) + lines(v@.skip(v@.len() as int)) =~= views(before) + lines(
                    rest,
                ));
            }
            from = v.len();
        }
    }
    assert(v@.skip(from as int) =~= Seq::<char>::empty());
    assert(views(out@) =~= lines(s@));
    out
}

// ---------------------------------------------------------------------------
// Joining and replacing
// ---------------------------------------------------------------------------

/// The pieces with `sep` between them.
pub open spec fn join(parts: Seq<Seq<char>>, sep: Seq<char>) -> Seq<char>
    decreases parts.len(),
{
    if parts.len() == 0 {
        Seq::empty()
    } else if parts.len() == 1 {
        parts[0]
    } else {
        join(parts.drop_last(), sep) + sep + parts.last()
    }
}

/// The pieces `from..` of `parts` with `sep` between them.
#[verifier::loop_isolation(false)]
pub fn join_from(parts: &Vec<String>, from: usize, sep: &str) -> (r: String)
    requires
        from <= parts@.len(),
    ensures
        r@ == join(views(parts@).skip(from as int), sep@),
{
    let mut out = String::new();
    let ghost all = views(parts@).skip(from as int);
    let mut i: usize = from;
    assert(all.take(0) =~= Seq::<Seq<char>>::empty());
    while i < parts.len()
        invariant
            from <= i <= parts@.len(),
            out@ == join(all.take(i - from), sep@),
        decreases parts@.len() - i,
    {
        proof {
            let n = i - from;
            assert(all.take(n + 1).drop_last() =~= all.take(n));
            assert(all[n] == parts@[i as int]@);
        }
        if i > from {
            out.append(sep);
        }
        out.append(parts[i].as_str());
        proof {
            if i == from {
                assert(out@ =~= all[0]);
                assert(all.take(1) =~= seq![all[0]]);
            }
        }
        i = i + 1;
    }
    assert(all.take(parts@.len() - from) =~= all);
    out
}

/// The pieces with `sep` between them.
pub fn join_all(parts: &Vec<String>, sep: &str) -> (r: String)
    ensures
        r@ == join(views(parts@), sep@),
{
    assert(views(parts@).skip(0) =~= views(parts@));
    join_from(parts, 0, sep)
}

/// `s` with every `c` replaced by the text `by`.
pub open spec fn replace(s: Seq<char>, c: char, by: Seq<char>) -> Seq<char>
    decreases s.len(),
{
    if s.len() == 0 {
        Seq::empty()
    } else if s.last() == c {
        replace(s.drop_last(), c, by) + by
    } else {
        replace(s.drop_last(), c, by).push(s.last())
    }
}

/// `s` with every `c` replaced by the text `by`.
#[verifier::loop_isolation(false)]
pub fn replace_char(s: &str, c: char, by: &str) -> (r: String)
    ensures
        r@ == replace(s@, c, by@),
{
    let v = chars_of(s);
    let mut out = String::new();
    let mut i: usize = 0;
    while i < v.len()
        invariant
            i <= v@.len(),
            out@ == replace(v@.take(i as int), c, by@),
        decreases v@.len() - i,
    {
        assert(v@.take(i + 1).drop_last() =~= v@.take(i as int));
        if v[i] == c {
            out.append(by);
        } else {
            out.push(v[i]);
        }
        i = i + 1;
    }
    assert(v@.take(v@.len() as int) =~= v@);
    out
}

// ---------------------------------------------------------------------------
// Trimming
// ---------------------------------------------------------------------------

/// The characters with the Unicode property `White_Space`.
pub open spec fn white_space(c: char) -> bool {
    let n = c as u32;
    ||| 0x9 <= n <= 0xd
    ||| n == 0x20
    ||| n == 0x85
    ||| n == 0xa0
    ||| n == 0x1680
    ||| 0x2000 <= n <= 0x200a
    ||| n == 0x2028
    ||| n == 0x2029
    ||| n == 0x202f
    ||| n == 0x205f
    ||| n == 0x3000
}

/// Whether `c` has the Unicode property `White_Space`.
pub fn is_white_space(c: char) -> (r: bool)
    ensures
        r == white_space(c),
{
    let n: u32 = c as u32;
    (n >= 0x9 && n <= 0xd) || n == 0x20 || n == 0x85 || n == 0xa0 || n == 0x1680 || (n >= 0x2000
        && n <= 0x200a) || n == 0x2028 || n == 0x2029 || n == 0x202f || n == 0x205f || n == 0x3000
}

/// `s` without the white space at its start.
pub open spec fn trim_start(s: Seq<char>) -> Seq<char>
    decreases s.len(),
{
    if s.len() > 0 && white_space(s[0]) {
        trim_start(s.skip(1))
    } else {
        s
    }
}

/// `s` without the white space at its end.
pub open spec fn trim_end(s: Seq<char>) -> Seq<char>
    decreases s.len(),
{
    if s.len() > 0 && white_space(s.last()) {
        trim_end(s.drop_last())
    } else {
        s
    }
}

/// `s` without the white space at both ends.
pub open spec fn trim(s: Seq<char>) -> Seq<char> {
    trim_end(trim_start(s))
}

/// The position of the first character from `from` on that is no white space.
pub fn skip_white(v: &Vec<char>, from: usize) -> (r: usize)
    requires
        from <= v@.len(),
    ensures
        from <= r <= v@.len(),
        trim_start(v@.skip(from as int)) == v@.skip(r as int),
{
    let mut i: usize = from;
    while i < v.len() && is_white_space(v[i])
        invariant
            from <= i <= v@.len(),
            trim_start(v@.skip(from as int)) == trim_start(v@.skip(i as int)),
        decreases v@.len() - i,
    {
        assert(v@.skip(i as int).skip(1) =~= v@.skip(i + 1));
        i = i + 1;
    }
    i
}

/// `s` without the white space at both ends.
#[verifier::loop_isolation(false)]
pub fn trimmed(s: &str) -> (r: String)
    ensures
        r@ == trim(s@),
{
    let v = chars_of(s);
    assert(v@.skip(0) =~= v@);
    let from = skip_white(&v, 0);
    let mut to: usize = v.len();
    assert(v@.subrange(from as int, to as int) =~= v@.skip(from as int));
    while to > from && is_white_space(v[to - 1])
        invariant
            from <= to <= v@.len(),
            trim(s@) == trim_end(v@.subrange(from as int, to as int)),
        decreases to,
    {
        assert(v@.subrange(from as int, to as int).drop_last() =~= v@.subrange(
            from as int,
            to - 1,
        ));
        to = to - 1;
    }
    string_of(&v, from, to)
}

/// `s` without the white space at its start.
pub fn trimmed_start(s: &str) -> (r: String)
    ensures
        r@ == trim_start(s@),
{
    let v = chars_of(s);
    assert(v@.skip(0) =~= v@);
    let from = skip_white(&v, 0);
    let out = string_of(&v, from, v.len());
    assert(out@ =~= v@.skip(from as int));
    out
}

/// The pieces of `s` between commas, each trimmed.
pub open spec fn trimmed_pieces(s: Seq<char>) -> Seq<Seq<char>> {
    split(s, ',').map_values(|p: Seq<char>| trim(p))
}

/// The pieces of `s` between commas, each trimmed: the way a list of
/// capabilities is written.
#[verifier::loop_isolation(false)]
pub fn comma_list(s: &str) -> (r: Vec<String>)
    ensures
        views(r@) == trimmed_pieces(s@),
{
    let parts = split_on(s, ',');
    let mut out: Vec<String> = Vec::new();
    let mut i: usize = 0;
    while i < parts.len()
        invariant
            i <= parts@.len(),
            out@.len() == i,
            forall|k: int| 0 <= k < i ==> #[trigger] out@[k]@ == trim(parts@[k]@),
        decreases parts@.len() - i,
    {
        out.push(trimmed(parts[i].as_str()));
        i = i + 1;
    }
    proof {
        assert forall|k: int| 0 <= k < parts@.len() implies views(out@)[k] == trimmed_pieces(s@)[k] by {
            assert(split(s@, ',')[k] == views(parts@)[k]);
        }
        assert(views(parts@).len() == split(s@, ',').len());
        assert(views(out@) =~= trimmed_pieces(s@));
    }
    out
}

/// The last `n` of a list, or all of it where there are fewer.
pub open spec fn last_of<A>(s: Seq<A>, n: nat) -> Seq<A> {
    if s.len() <= n {
        s
    } else {
        s.skip(s.len() - n)
    }
}

// ---------------------------------------------------------------------------
// Laws
// ---------------------------------------------------------------------------

proof fn lemma_join_front(a: Seq<char>, rest: Seq<Seq<char>>, sep: Seq<char>)
    requires
        rest.len() > 0,
    ensures
        join(seq![a] + rest, sep) == a + sep + join(rest, sep),
    decreases rest.len(),
{
    let all = seq![a] + rest;
    if rest.len() == 1 {
        assert(all.drop_last() =~= seq![a]);
        assert(join(seq![a], sep) == a);
        assert(all.last() == rest[0]);
    } else {
        lemma_join_front(a, rest.drop_last(), sep);
        assert(all.drop_last() =~= seq![a] + rest.drop_last());
        assert(all.last() == rest.last());
        assert(a + sep + join(rest.drop_last(), sep) + sep + rest.last() =~= a + sep + (join(
            rest.drop_last(),
            sep,
        ) + sep + rest.last()));
    }
}

/// The pieces of a text hold no separator, and with separators between them
/// they are the text again.
pub proof fn pieces_make_the_text(s: Seq<char>, c: char)
    ensures
        split(s, c).len() > 0,
        join(split(s, c), seq![c]) == s,
        forall|i: int, k: int|
            0 <= i < split(s, c).len() && 0 <= k < split(s, c)[i].len() ==> #[trigger] split(
                s,
                c,
            )[i][k] != c,
    decreases s.len(),
{
    let p = first_pos(s, c);
    crate::text::lemma_first_pos_bounds(s, c);
    if p < s.len() {
        let rest = s.skip(p + 1);
        pieces_make_the_text(rest, c);
        lemma_join_front(s.take(p), split(rest, c), seq![c]);
        assert(s =~= s.take(p) + seq![c] + rest);
        assert forall|i: int, k: int|
            0 <= i < split(s, c).len() && 0 <= k < split(s, c)[i].len() implies #[trigger] split(
            s,
            c,
        )[i][k] != c by {
            if i > 0 {
                assert(split(s, c)[i] == split(rest, c)[i - 1]);
                assert(split(rest, c)[i - 1][k] != c);
            } else {
                assert(split(s, c)[0] == s.take(p));
            }
        }
    } else {
        assert(split(s, c) =~= seq![s]);
    }
}

/// A limited number of pieces are the text again with separators between them,
/// and only the last of them may hold separators itself, where there are as
/// many pieces as allowed.
pub proof fn limited_pieces_make_the_text(s: Seq<char>, c: char, n: nat)
    requires
        n > 0,
    ensures
        ({
            let parts = split_at_most(s, c, n);
            &&& 0 < parts.len() <= n
            &&& join(parts, seq![c]) == s
            &&& forall|i: int, k: int|
                0 <= i < parts.len() - 1 && 0 <= k < parts[i].len() ==> #[trigger] parts[i][k] != c
            &&& parts.len() < n ==> forall|k: int|
                0 <= k < parts.last().len() ==> #[trigger] parts.last()[k] != c
        }),
    decreases n,
{
    let p = first_pos(s, c);
    crate::text::lemma_first_pos_bounds(s, c);
    if n > 1 && p < s.len() {
        let rest = s.skip(p + 1);
        let tail = split_at_most(rest, c, (n - 1) as nat);
        limited_pieces_make_the_text(rest, c, (n - 1) as nat);
        lemma_join_front(s.take(p), tail, seq![c]);
        assert(s =~= s.take(p) + seq![c] + rest);
        let parts = split_at_most(s, c, n);
        assert(parts == seq![s.take(p)] + tail);
        assert(parts.last() == tail.last());
        assert forall|i: int, k: int|
            0 <= i < parts.len() - 1 && 0 <= k < parts[i].len() implies #[trigger] parts[i][k]
            != c by {
            if i > 0 {
                assert(parts[i] == tail[i - 1]);
                assert(tail[i - 1][k] != c);
            }
        }
    }
}

/// What follows the last separator is the end of the text, holds no separator,
/// and starts behind one or is all of the text.
pub proof fn tail_follows_the_last_separator(s: Seq<char>, c: char)
    ensures
        ({
            let tail = after_last(s, c);
            let n = s.len() - tail.len();
            &&& 0 <= n
            &&& s.skip(n) == tail
            &&& n > 0 ==> s[n - 1] == c
            &&& forall|k: int| 0 <= k < tail.len() ==> #[trigger] tail[k] != c
        }),
{
    crate::text::lemma_last_pos_bounds(s, c);
}

/// A text is read line by line: a line ends at its line break, without which and
/// without a carriage return before which it is given; the last line needs no
/// line break, and is given as it is.
pub proof fn lines_end_at_line_breaks(a: Seq<char>, rest: Seq<char>)
    requires
        forall|i: int| 0 <= i < a.len() ==> #[trigger] a[i] != '\n',
    ensures
        lines(a + seq!['\r', '\n'] + rest) == seq![a] + lines(rest),
        !(a.len() > 0 && a.last() == '\r') ==> lines(a + seq!['\n'] + rest) == seq![a] + lines(rest),
        a.len() > 0 ==> lines(a) == seq![a],
        lines(Seq::empty()).len() == 0,
{
    let s = a + seq!['\n'] + rest;
    let p = a.len() as int;
    crate::text::lemma_first_pos(s, '\n', p);
    assert(s.take(p) =~= a);
    assert(s.skip(p + 1) =~= rest);
    let t = a + seq!['\r', '\n'] + rest;
    assert forall|k: int| 0 <= k < p + 1 implies t[k] != '\n' by {
        if k < p {
            assert(t[k] == a[k]);
        }
    }
    crate::text::lemma_first_pos(t, '\n', p + 1);
    assert(t.take(p + 1) =~= a.push('\r'));
    assert(a.push('\r').drop_last() =~= a);
    assert(t.skip(p + 2) =~= rest);
    crate::text::lemma_first_pos(a, '\n', p);
}

/// Pieces are put together one after the other, with the separator between two
/// of them and nowhere else.
pub proof fn separators_stand_between_pieces(
    parts: Seq<Seq<char>>,
    last: Seq<char>,
    sep: Seq<char>,
)
    ensures
        join(Seq::empty(), sep).len() == 0,
        join(seq![last], sep) == last,
        parts.len() > 0 ==> join(parts.push(last), sep) == join(parts, sep) + sep + last,
{
    assert(parts.push(last).drop_last() =~= parts);
}

/// Replacing goes through a text character by character: a part of the text
/// without the character stays as it is, and each occurrence becomes the other
/// text.
pub proof fn replacing_touches_only_the_character(
    a: Seq<char>,
    b: Seq<char>,
    c: char,
    by: Seq<char>,
)
    ensures
        replace(a + b, c, by) == replace(a, c, by) + replace(b, c, by),
        replace(seq![c], c, by) == by,
        (forall|i: int| 0 <= i < a.len() ==> #[trigger] a[i] != c) ==> replace(a, c, by) == a,
    decreases b.len() + a.len(),
{
    let empty = Seq::<char>::empty();
    assert(replace(empty, c, by) =~= empty);
    assert(seq![c].drop_last() =~= empty);
    assert(empty + by =~= by);
    if b.len() == 0 {
        assert(a + b =~= a);
        assert(b =~= empty);
        assert(replace(a, c, by) + empty =~= replace(a, c, by));
        if a.len() > 0 {
            replacing_touches_only_the_character(a.drop_last(), empty, c, by);
            if forall|i: int| 0 <= i < a.len() ==> #[trigger] a[i] != c {
                assert(a[a.len() - 1] != c);
                assert(a.drop_last().push(a.last()) =~= a);
            }
        } else {
            assert(a =~= empty);
        }
    } else {
        replacing_touches_only_the_character(a, b.drop_last(), c, by);
        assert((a + b).drop_last() =~= a + b.drop_last());
        assert((a + b).last() == b.last());
        assert(replace(a + b, c, by) =~= replace(a, c, by) + replace(b, c, by));
    }
}

/// Where a character is replaced by one other, a text keeps its length, and
/// every other character its place.
pub proof fn replacing_one_by_one_keeps_places(s: Seq<char>, c: char, d: char)
    ensures
        replace(s, c, seq![d]).len() == s.len(),
        forall|i: int|
            0 <= i < s.len() ==> #[trigger] replace(s, c, seq![d])[i] == (if s[i] == c {
                d
            } else {
                s[i]
            }),
    decreases s.len(),
{
    if s.len() > 0 {
        replacing_one_by_one_keeps_places(s.drop_last(), c, d);
    }
}

/// A text without the white space at its ends is a part of the text with
/// nothing but white space around it, and neither starts nor ends with any.
pub proof fn trimming_takes_only_white_space(s: Seq<char>) -> (n: int)
    ensures
        0 <= n,
        n + trim(s).len() <= s.len(),
        s.subrange(n, n + trim(s).len()) == trim(s),
        forall|i: int| 0 <= i < n ==> white_space(#[trigger] s[i]),
        forall|i: int| n + trim(s).len() <= i < s.len() ==> white_space(#[trigger] s[i]),
        trim(s).len() > 0 ==> !white_space(trim(s)[0]) && !white_space(trim(s).last()),
{
    let n = trimming_the_start_takes_only_white_space(s);
    let t = trim_start(s);
    lemma_trim_end(t);
    let k = trim(s).len() as int;
    assert(s.subrange(n, n + k) =~= t.take(k));
    assert forall|i: int| n + k <= i < s.len() implies white_space(#[trigger] s[i]) by {
        assert(t[i - n] == s[i]);
    }
    if k > 0 {
        assert(trim(s)[0] == t[0]);
    }
    n
}

/// A text without the white space at its start is the end of the text, behind
/// nothing but white space, and does not start with any.
pub proof fn trimming_the_start_takes_only_white_space(s: Seq<char>) -> (n: int)
    ensures
        0 <= n <= s.len(),
        trim_start(s) == s.skip(n),
        forall|i: int| 0 <= i < n ==> white_space(#[trigger] s[i]),
        trim_start(s).len() > 0 ==> !white_space(trim_start(s)[0]),
    decreases s.len(),
{
    if s.len() > 0 && white_space(s[0]) {
        let m = trimming_the_start_takes_only_white_space(s.skip(1));
        assert(s.skip(1).skip(m) =~= s.skip(m + 1));
        assert forall|i: int| 0 <= i < m + 1 implies white_space(#[trigger] s[i]) by {
            if i > 0 {
                assert(s.skip(1)[i - 1] == s[i]);
            }
        }
        m + 1
    } else {
        assert(s.skip(0) =~= s);
        0
    }
}

proof fn lemma_trim_end(s: Seq<char>)
    ensures
        trim_end(s).len() <= s.len(),
        trim_end(s) == s.take(trim_end(s).len() as int),
        forall|i: int| trim_end(s).len() <= i < s.len() ==> white_space(#[trigger] s[i]),
        trim_end(s).len() > 0 ==> !white_space(trim_end(s).last()),
    decreases s.len(),
{
    if s.len() > 0 && white_space(s.last()) {
        let t = s.drop_last();
        lemma_trim_end(t);
        let k = trim_end(s).len() as int;
        assert(t.take(k) =~= s.take(k));
        assert forall|i: int| k <= i < s.len() implies white_space(#[trigger] s[i]) by {
            if i < t.len() {
                assert(t[i] == s[i]);
            }
        }
    } else {
        assert(s.take(s.len() as int) =~= s);
    }
}

/// The pieces of a list are those between its commas, each without the white
/// space around it, in their order.
pub proof fn list_pieces_are_trimmed(s: Seq<char>)
    ensures
        trimmed_pieces(s).len() == split(s, ',').len(),
        forall|i: int|
            0 <= i < split(s, ',').len() ==> #[trigger] trimmed_pieces(s)[i] == trim(
                split(s, ',')[i],
            ),
{
}

/// The last of a list are its end, in their order: as many as asked, and all of
/// them where there are fewer.
pub proof fn last_items_are_the_end<A>(s: Seq<A>, n: nat)
    ensures
        last_of(s, n).len() == (if s.len() < n {
            s.len()
        } else {
            n
        }),
        forall|i: int|
            0 <= i < last_of(s, n).len() ==> #[trigger] last_of(s, n)[i] == s[s.len() - last_of(
                s,
                n,
            ).len() + i],
{
}

/// White space is the space, the tab, the line breaks and what else counts as
/// such, and no letter, digit or sign of ASCII is.
pub proof fn visible_ascii_is_no_white_space(c: char)
    ensures
        '!' <= c <= '~' ==> !white_space(c),
        c == ' ' || c == '\t' || c == '\n' || c == '\r' ==> white_space(c),
{
}

} // verus!
