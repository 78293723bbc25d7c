//! JSON texts: reading one level of a value at a time, and writing objects
//! and lists from the texts of their parts.

use vstd::prelude::*;
use vstd::string::StringExecFns;

use serde_json::Value;

use crate::number::{decimal, decimal_of, lemma_decimal_digits, signed_decimal, signed_decimal_of};
use crate::pieces::join;
use crate::text::{one_line, same};

verus! {

// ---------------------------------------------------------------------------
// Model
// ---------------------------------------------------------------------------

/// A JSON value as a tree. Numbers are integers: nothing here writes others.
pub ghost enum JsonTree {
    Null,
    Bool(bool),
    Number(int),
    Text(Seq<char>),
    List(Seq<JsonTree>),
    Object(Seq<(Seq<char>, JsonTree)>),
}

/// One level of a JSON value. The parts of a list and of an object are given
/// by their own texts.
pub ghost enum LevelView {
    Null,
    Bool(bool),
    /// The number as an `i64` and as a `u64`, where it is one.
    Number(Option<int>, Option<int>),
    Text(Seq<char>),
    List(Seq<Seq<char>>),
    Object(Seq<(Seq<char>, Seq<char>)>),
}

/// A digit to the base sixteen.
pub open spec fn hex_digit(n: int) -> char {
    if n < 10 {
        ('0' as int + n) as char
    } else {
        ('a' as int + n - 10) as char
    }
}

/// How a character is written inside of a JSON string: a quote, a backslash and
/// what is below the space are escaped, and every other character stands for
/// itself.
pub open spec fn escape(c: char) -> Seq<char> {
    if c == '"' || c == '\\' {
        seq!['\\', c]
    } else if c == '\u{8}' {
        seq!['\\', 'b']
    } else if c == '\t' {
        seq!['\\', 't']
    } else if c == '\n' {
        seq!['\\', 'n']
    } else if c == '\u{c}' {
        seq!['\\', 'f']
    } else if c == '\r' {
        seq!['\\', 'r']
    } else if ' ' > c {
        seq!['\\', 'u', '0', '0', hex_digit(c as int / 16), hex_digit(c as int % 16)]
    } else {
        seq![c]
    }
}

/// How the characters of a text are written inside of a JSON string.
pub open spec fn escaped(s: Seq<char>) -> Seq<char>
    decreases s.len(),
{
    if s.len() == 0 {
        Seq::empty()
    } else {
        escaped(s.drop_last()) + escape(s.last())
    }
}

/// The JSON text of a string: quotes around it, and escapes inside.
pub open spec fn json_quote(s: Seq<char>) -> Seq<char> {
    seq!['"'] + escaped(s) + seq!['"']
}

/// The JSON text of a string is one line, whatever the string holds.
pub proof fn quoted_text_is_one_line(s: Seq<char>)
    ensures
        one_line(json_quote(s)),
{
    lemma_escaped_one_line(s);
}

proof fn lemma_escape_one_line(c: char)
    ensures
        one_line(escape(c)),
{
}

proof fn lemma_escaped_one_line(s: Seq<char>)
    ensures
        one_line(escaped(s)),
    decreases s.len(),
{
    if s.len() > 0 {
        lemma_escaped_one_line(s.drop_last());
        lemma_escape_one_line(s.last());
    }
}

/// The top level of the JSON value that `text` holds, as
/// `serde_json::from_str` reads it; `None` where `text` is no JSON.
pub uninterp spec fn json_level(text: Seq<char>) -> Option<LevelView>;

/// One member of an object: its key, a colon, and the text of its value.
pub open spec fn member_text(m: (Seq<char>, Seq<char>)) -> Seq<char> {
    json_quote(m.0) + seq![':'] + m.1
}

/// The text of an object, from the keys and texts of its members.
pub open spec fn object_text(members: Seq<(Seq<char>, Seq<char>)>) -> Seq<char> {
    seq!['{'] + join(members.map_values(|m: (Seq<char>, Seq<char>)| member_text(m)), seq![','])
        + seq!['}']
}

/// The text of a list, from the texts of its items.
pub open spec fn list_text(items: Seq<Seq<char>>) -> Seq<char> {
    seq!['['] + join(items, seq![',']) + seq![']']
}

/// The text of a truth value.
pub open spec fn bool_text(b: bool) -> Seq<char> {
    if b {
        "true"@
    } else {
        "false"@
    }
}

/// The compact JSON text of a tree.
pub open spec fn json_text(t: JsonTree) -> Seq<char>
    decreases t,
{
    match t {
        JsonTree::Null => "null"@,
        JsonTree::Bool(b) => bool_text(b),
        JsonTree::Number(n) => signed_decimal(n),
        JsonTree::Text(s) => json_quote(s),
        JsonTree::List(s) => list_text(item_texts(s)),
        JsonTree::Object(m) => object_text(member_texts(m)),
    }
}

/// The compact JSON texts of a list of trees.
pub open spec fn item_texts(s: Seq<JsonTree>) -> Seq<Seq<char>>
    decreases s,
{
    if s.len() == 0 {
        Seq::empty()
    } else {
        item_texts(s.drop_last()).push(json_text(s.last()))
    }
}

/// The keys and compact JSON texts of the members of an object.
pub open spec fn member_texts(m: Seq<(Seq<char>, JsonTree)>) -> Seq<(Seq<char>, Seq<char>)>
    decreases m,
{
    if m.len() == 0 {
        Seq::empty()
    } else {
        member_texts(m.drop_last()).push((m.last().0, json_text(m.last().1)))
    }
}

/// Whether no two members have the same key.
pub open spec fn distinct_keys<V>(m: Seq<(Seq<char>, V)>) -> bool {
    forall|i: int, j: int| 0 <= i < j < m.len() ==> #[trigger] m[i].0 != #[trigger] m[j].0
}

/// Whether a tree nests at most `depth` lists and objects, holds only numbers
/// that are an `i64` or a `u64`, and repeats no key.
pub open spec fn fits(t: JsonTree, depth: nat) -> bool
    decreases depth,
{
    match t {
        JsonTree::Null | JsonTree::Bool(_) | JsonTree::Text(_) => true,
        JsonTree::Number(n) => i64::MIN <= n <= u64::MAX,
        JsonTree::List(s) => depth > 0 && forall|i: int|
            0 <= i < s.len() ==> fits(#[trigger] s[i], (depth - 1) as nat),
        JsonTree::Object(m) => depth > 0 && distinct_keys(m) && forall|i: int|
            0 <= i < m.len() ==> fits(#[trigger] m[i].1, (depth - 1) as nat),
    }
}

pub proof fn lemma_member_texts(m: Seq<(Seq<char>, JsonTree)>)
    ensures
        member_texts(m).len() == m.len(),
        forall|i: int|
            0 <= i < m.len() ==> #[trigger] member_texts(m)[i] == (m[i].0, json_text(m[i].1)),
    decreases m.len(),
{
    if m.len() > 0 {
        lemma_member_texts(m.drop_last());
    }
}

pub proof fn lemma_fits_deeper(t: JsonTree, d: nat, e: nat)
    requires
        fits(t, d),
        d <= e,
    ensures
        fits(t, e),
    decreases d,
{
    match t {
        JsonTree::List(s) => {
            assert forall|i: int| 0 <= i < s.len() implies fits(#[trigger] s[i], (e - 1) as nat) by {
                lemma_fits_deeper(s[i], (d - 1) as nat, (e - 1) as nat);
            }
        },
        JsonTree::Object(m) => {
            assert forall|i: int| 0 <= i < m.len() implies fits(
                #[trigger] m[i].1,
                (e - 1) as nat,
            ) by {
                lemma_fits_deeper(m[i].1, (d - 1) as nat, (e - 1) as nat);
            }
        },
        _ => {},
    }
}

/// The number of nested lists and objects that a reader accepts.
pub const MAX_DEPTH: u64 = 127;

/// An integer as a `LevelView` gives it.
pub open spec fn number_level(n: int) -> LevelView {
    LevelView::Number(
        if i64::MIN <= n <= i64::MAX {
            Some(n)
        } else {
            None
        },
        if 0 <= n <= u64::MAX {
            Some(n)
        } else {
            None
        },
    )
}

/// The top level of a tree.
pub open spec fn level_of(t: JsonTree) -> LevelView {
    match t {
        JsonTree::Null => LevelView::Null,
        JsonTree::Bool(b) => LevelView::Bool(b),
        JsonTree::Number(n) => number_level(n),
        JsonTree::Text(s) => LevelView::Text(s),
        JsonTree::List(s) => LevelView::List(item_texts(s)),
        JsonTree::Object(m) => LevelView::Object(member_texts(m)),
    }
}

/// A member of an object on a line of its own.
pub open spec fn pretty_member(m: (Seq<char>, Seq<char>)) -> Seq<char> {
    "\n  "@ + json_quote(m.0) + ": "@ + json_quote(m.1)
}

/// The text of an object of strings, with each member on a line of its own.
pub open spec fn pretty_text(m: Seq<(Seq<char>, Seq<char>)>) -> Seq<char> {
    if m.len() == 0 {
        "{}"@
    } else {
        "{"@ + join(m.map_values(|p: (Seq<char>, Seq<char>)| pretty_member(p)), ","@) + "\n}"@
    }
}

/// The members of an object of strings, with the texts of their values.
pub open spec fn quoted_members(m: Seq<(Seq<char>, Seq<char>)>) -> Seq<(Seq<char>, Seq<char>)> {
    m.map_values(|p: (Seq<char>, Seq<char>)| (p.0, json_quote(p.1)))
}

/// Whether a character may follow the brace that opens an object: the quote of
/// a key, the brace that closes it, or white space.
pub open spec fn may_open(c: char) -> bool {
    c == '"' || c == '}' || c == ' ' || c == '\n' || c == '\t' || c == '\r'
}

/// Whether a text starts like an object, and goes on as none does.
pub open spec fn no_object(text: Seq<char>) -> bool {
    text.len() > 0 && text[0] == '{' && (text.len() == 1 || !may_open(text[1]))
}

// ---------------------------------------------------------------------------
// Reading
// ---------------------------------------------------------------------------

/// One level of a JSON value.
pub enum Level {
    Null,
    Bool(bool),
    Number(Option<i64>, Option<u64>),
    Text(String),
    List(Vec<String>),
    Object(Vec<(String, String)>),
}

/// The keys and texts of an object's members.
pub open spec fn members_view(m: Seq<(String, String)>) -> Seq<(Seq<char>, Seq<char>)> {
    m.map_values(|p: (String, String)| (p.0@, p.1@))
}

impl View for Level {
    type V = LevelView;

    open spec fn view(&self) -> LevelView {
        match self {
            Level::Null => LevelView::Null,
            Level::Bool(b) => LevelView::Bool(*b),
            Level::Number(i, u) => LevelView::Number(
                match i {
                    Some(n) => Some(*n as int),
                    None => None,
                },
                match u {
                    Some(n) => Some(*n as int),
                    None => None,
                },
            ),
            Level::Text(s) => LevelView::Text(s@),
            Level::List(v) => LevelView::List(crate::text::views(v@)),
            Level::Object(m) => LevelView::Object(members_view(m@)),
        }
    }
}

/// The view of an optional level.
pub open spec fn opt_level(o: Option<Level>) -> Option<LevelView> {
    match o {
        Some(l) => Some(l@),
        None => None,
    }
}

/// Reads `text` with `serde_json::from_str` and gives the top level of the
/// value; each part of a list or an object is given by the text that
/// `serde_json` writes for it. The result depends on `text` alone. Where
/// `text` is the compact text of a tree within the reader's limits, the result
/// is the top level of that tree. The compact text of an object that was cut
/// off is no JSON, nor is a brace that is followed by what cannot follow it. No
/// key of an object is given twice. An object of strings that was written on
/// several lines is read with its members.
#[verifier::external_body]
pub(crate) fn read_level(text: &str) -> (r: Option<Level>)
    ensures
        opt_level(r) == json_level(text@),
        forall|t: JsonTree|
            fits(t, MAX_DEPTH as nat) && text@ == #[trigger] json_text(t) ==> opt_level(r) == Some(
                level_of(t),
            ),
        forall|t: JsonTree, n: int|
            t is Object && fits(t, MAX_DEPTH as nat) && 0 <= n < json_text(t).len() && text@
                == #[trigger] json_text(t).take(n) ==> r is None,
        no_object(text@) ==> r is None,
        r matches Some(Level::Object(m)) ==> distinct_keys(members_view(m@)),
        forall|m: Seq<(Seq<char>, Seq<char>)>|
            distinct_keys(m) && text@ == #[trigger] pretty_text(m) ==> opt_level(r) == Some(
                LevelView::Object(quoted_members(m)),
            ),
{
    Some(match serde_json::from_str::<Value>(text).ok()? {
        Value::Null => Level::Null,
        Value::Bool(b) => Level::Bool(b),
        Value::Number(n) => Level::Number(n.as_i64(), n.as_u64()),
        Value::String(s) => Level::Text(s),
        Value::Array(a) => Level::List(a.iter().map(|v| v.to_string()).collect()),
        Value::Object(m) => Level::Object(m.iter().map(|(k, v)| (k.clone(), v.to_string())).collect()),
    })
}

/// The text of the first member with the key `key`.
pub open spec fn lookup(m: Seq<(Seq<char>, Seq<char>)>, key: Seq<char>) -> Option<Seq<char>>
    decreases m.len(),
{
    if m.len() == 0 {
        None
    } else if m[0].0 == key {
        Some(m[0].1)
    } else {
        lookup(m.skip(1), key)
    }
}

pub proof fn lemma_lookup(m: Seq<(Seq<char>, Seq<char>)>, key: Seq<char>, i: int)
    requires
        0 <= i <= m.len(),
        forall|k: int| 0 <= k < i ==> (#[trigger] m[k]).0 != key,
        i < m.len() ==> m[i].0 == key,
    ensures
        lookup(m, key) == (if i < m.len() {
            Some(m[i].1)
        } else {
            None
        }),
    decreases m.len(),
{
    if m.len() > 0 && m[0].0 != key {
        assert(i > 0);
        assert forall|k: int| 0 <= k < i - 1 implies (#[trigger] m.skip(1)[k]).0 != key by {
            assert(m.skip(1)[k] == m[k + 1]);
        }
        lemma_lookup(m.skip(1), key, i - 1);
    }
}

/// The text of the first member with the key `key`.
#[verifier::loop_isolation(false)]
pub fn find_member(m: &Vec<(String, String)>, key: &str) -> (r: Option<String>)
    ensures
        crate::text::opt_view(r) == lookup(members_view(m@), key@),
{
    let mut i: usize = 0;
    let ghost mv = members_view(m@);
    while i < m.len()
        invariant
            i <= m@.len(),
            forall|k: int| 0 <= k < i ==> (#[trigger] mv[k]).0 != key@,
        decreases m@.len() - i,
    {
        if same(m[i].0.as_str(), key) {
            proof {
                lemma_lookup(mv, key@, i as int);
            }
            return Some(m[i].1.clone());
        }
        i = i + 1;
    }
    proof {
        lemma_lookup(mv, key@, i as int);
    }
    None
}

/// The members of the object that `text` holds.
pub open spec fn object_at(text: Seq<char>) -> Option<Seq<(Seq<char>, Seq<char>)>> {
    match json_level(text) {
        Some(LevelView::Object(m)) => Some(m),
        _ => None,
    }
}

/// The string that `text` holds.
pub open spec fn string_at(text: Seq<char>) -> Option<Seq<char>> {
    match json_level(text) {
        Some(LevelView::Text(s)) => Some(s),
        _ => None,
    }
}

/// The truth value that `text` holds.
pub open spec fn bool_at(text: Seq<char>) -> Option<bool> {
    match json_level(text) {
        Some(LevelView::Bool(b)) => Some(b),
        _ => None,
    }
}

/// The `u64` that `text` holds.
pub open spec fn u64_at(text: Seq<char>) -> Option<int> {
    match json_level(text) {
        Some(LevelView::Number(_, u)) => u,
        _ => None,
    }
}

/// The `i64` that `text` holds.
pub open spec fn i64_at(text: Seq<char>) -> Option<int> {
    match json_level(text) {
        Some(LevelView::Number(i, _)) => i,
        _ => None,
    }
}

/// The texts of the items of the list that `text` holds.
pub open spec fn list_at(text: Seq<char>) -> Option<Seq<Seq<char>>> {
    match json_level(text) {
        Some(LevelView::List(v)) => Some(v),
        _ => None,
    }
}

/// The text of the member `key` of the object that `text` holds.
pub open spec fn member_at(text: Seq<char>, key: Seq<char>) -> Option<Seq<char>> {
    match object_at(text) {
        Some(m) => lookup(m, key),
        None => None,
    }
}

/// The members of the object that `text` holds. An object that was written
/// from a tree is read with the members of the tree.
pub fn read_object(text: &str) -> (r: Option<Vec<(String, String)>>)
    ensures
        match r {
            Some(m) => object_at(text@) == Some(members_view(m@)),
            None => object_at(text@) is None,
        },
        forall|m: Seq<(Seq<char>, JsonTree)>|
            text@ == object_text(#[trigger] member_texts(m)) && fits(
                JsonTree::Object(m),
                MAX_DEPTH as nat,
            ) ==> object_at(text@) == Some(member_texts(m)),
        r matches Some(m) ==> distinct_keys(members_view(m@)),
        forall|m: Seq<(Seq<char>, Seq<char>)>|
            distinct_keys(m) && text@ == #[trigger] pretty_text(m) ==> object_at(text@) == Some(
                quoted_members(m),
            ),
{
    let level = read_level(text);
    proof {
        assert forall|m: Seq<(Seq<char>, JsonTree)>|
            text@ == object_text(#[trigger] member_texts(m)) && fits(
                JsonTree::Object(m),
                MAX_DEPTH as nat,
            ) implies object_at(text@) == Some(member_texts(m)) by {
            let t = JsonTree::Object(m);
            assert(text@ == json_text(t));
        }
    }
    match level {
        Some(Level::Object(m)) => Some(m),
        _ => None,
    }
}

/// The text of the member `key` of the object that `text` holds.
pub fn read_member(text: &str, key: &str) -> (r: Option<String>)
    ensures
        crate::text::opt_view(r) == member_at(text@, key@),
{
    match read_object(text) {
        Some(m) => find_member(&m, key),
        None => None,
    }
}

/// The text of the member `inner` of the member `outer`.
pub open spec fn inner_member_at(text: Seq<char>, outer: Seq<char>, inner: Seq<char>) -> Option<
    Seq<char>,
> {
    match member_at(text, outer) {
        Some(t) => member_at(t, inner),
        None => None,
    }
}

/// The text of the member `inner` of the member `outer`.
pub fn read_inner_member(text: &str, outer: &str, inner: &str) -> (r: Option<String>)
    ensures
        crate::text::opt_view(r) == inner_member_at(text@, outer@, inner@),
{
    match read_member(text, outer) {
        Some(t) => read_member(t.as_str(), inner),
        None => None,
    }
}

/// Whether `text` is JSON at all.
pub fn is_json(text: &str) -> (r: bool)
    ensures
        r == json_level(text@) is Some,
{
    match read_level(text) {
        Some(_) => true,
        None => false,
    }
}

/// The string that `text` holds. A string that was written is read as it was.
pub fn read_string(text: &str) -> (r: Option<String>)
    ensures
        crate::text::opt_view(r) == string_at(text@),
        forall|s: Seq<char>| text@ == #[trigger] json_quote(s) ==> string_at(text@) == Some(s),
{
    let level = read_level(text);
    proof {
        assert forall|s: Seq<char>| text@ == #[trigger] json_quote(s) implies string_at(text@)
            == Some(s) by {
            let t = JsonTree::Text(s);
            assert(text@ == json_text(t));
        }
    }
    match level {
        Some(Level::Text(s)) => Some(s),
        _ => None,
    }
}

/// The truth value that `text` holds. One that was written is read as it was.
pub fn read_bool(text: &str) -> (r: Option<bool>)
    ensures
        r == bool_at(text@),
        forall|b: bool| text@ == #[trigger] bool_text(b) ==> bool_at(text@) == Some(b),
{
    let level = read_level(text);
    proof {
        assert forall|b: bool| text@ == #[trigger] bool_text(b) implies bool_at(text@) == Some(b) by {
            let t = JsonTree::Bool(b);
            assert(text@ == json_text(t));
        }
    }
    match level {
        Some(Level::Bool(b)) => Some(b),
        _ => None,
    }
}

/// The `u64` that `text` holds. One that was written is read as it was.
pub fn read_u64(text: &str) -> (r: Option<u64>)
    ensures
        match r {
            Some(n) => u64_at(text@) == Some(n as int),
            None => u64_at(text@) is None,
        },
        forall|n: nat|
            n <= u64::MAX && text@ == #[trigger] decimal(n) ==> u64_at(text@) == Some(n as int),
{
    let level = read_level(text);
    proof {
        assert forall|n: nat| n <= u64::MAX && text@ == #[trigger] decimal(n) implies u64_at(text@)
            == Some(n as int) by {
            let t = JsonTree::Number(n as int);
            assert(text@ == json_text(t));
        }
    }
    match level {
        Some(Level::Number(_, u)) => u,
        _ => None,
    }
}

/// The `i64` that `text` holds.
pub fn read_i64(text: &str) -> (r: Option<i64>)
    ensures
        match r {
            Some(n) => i64_at(text@) == Some(n as int),
            None => i64_at(text@) is None,
        },
{
    match read_level(text) {
        Some(Level::Number(i, _)) => i,
        _ => None,
    }
}

/// The texts of the items of the list that `text` holds.
pub fn read_list(text: &str) -> (r: Option<Vec<String>>)
    ensures
        match r {
            Some(v) => list_at(text@) == Some(crate::text::views(v@)),
            None => list_at(text@) is None,
        },
{
    match read_level(text) {
        Some(Level::List(v)) => Some(v),
        _ => None,
    }
}

// ---------------------------------------------------------------------------
// Writing
// ---------------------------------------------------------------------------

/// Writes `s` as a JSON string with `serde_json::to_string`: in quotes, with
/// quotes, backslashes and what is below the space escaped.
#[verifier::external_body]
pub(crate) fn quote(s: &str) -> (r: String)
    ensures
        r@ == json_quote(s@),
{
    serde_json::to_string(s).unwrap()
}

/// Writes an object of strings on several lines with
/// `serde_json::to_string_pretty`: each member on a line of its own, indented
/// by two spaces.
#[verifier::external_body]
pub(crate) fn write_pretty(members: &Vec<(String, String)>) -> (r: String)
    requires
        distinct_keys(members_view(members@)),
    ensures
        r@ == pretty_text(members_view(members@)),
{
    let object: serde_json::Map<String, Value> = members
        .iter()
        .map(|(k, v)| (k.clone(), Value::String(v.clone())))
        .collect();
    serde_json::to_string_pretty(&object).unwrap()
}

/// The text of a truth value.
pub fn bool_json(b: bool) -> (r: String)
    ensures
        r@ == bool_text(b),
{
    if b {
        "true".to_owned()
    } else {
        "false".to_owned()
    }
}

/// The text of an optional string: `null` where there is none.
pub open spec fn opt_quote(o: Option<Seq<char>>) -> Seq<char> {
    match o {
        Some(s) => json_quote(s),
        None => "null"@,
    }
}

/// The text of an optional string.
pub fn opt_json(o: &Option<String>) -> (r: String)
    ensures
        r@ == opt_quote(crate::text::opt_view(*o)),
{
    match o {
        Some(s) => quote(s.as_str()),
        None => "null".to_owned(),
    }
}

/// An object that is being written.
pub struct ObjectWriter {
    body: String,
    members: Ghost<Seq<(Seq<char>, Seq<char>)>>,
}

impl View for ObjectWriter {
    type V = Seq<(Seq<char>, Seq<char>)>;

    closed spec fn view(&self) -> Seq<(Seq<char>, Seq<char>)> {
        self.members@
    }
}

impl ObjectWriter {
    /// Whether what is written so far is the members.
    pub closed spec fn wf(&self) -> bool {
        self.body@ == join(
            self.members@.map_values(|m: (Seq<char>, Seq<char>)| member_text(m)),
            seq![','],
        )
    }

    /// Whether what is written so far holds no control character.
    pub closed spec fn one_line(&self) -> bool {
        one_line(self.body@)
    }

    /// An object without members.
    pub fn new() -> (r: ObjectWriter)
        ensures
            r.wf(),
            r.one_line(),
            r@ == Seq::<(Seq<char>, Seq<char>)>::empty(),
    {
        let r = ObjectWriter { body: String::new(), members: Ghost(Seq::empty()) };
        assert(r.members@.map_values(|m: (Seq<char>, Seq<char>)| member_text(m)) =~= Seq::<
            Seq<char>,
        >::empty());
        r
    }

    /// The object with one more member, whose value has the text `text`.
    pub fn member(self, key: &str, text: &str) -> (r: ObjectWriter)
        requires
            self.wf(),
        ensures
            r.wf(),
            r@ == self@.push((key@, text@)),
            self.one_line() && one_line(text@) ==> r.one_line(),
    {
        let ObjectWriter { body, members } = self;
        let ghost old_parts = members@.map_values(|m: (Seq<char>, Seq<char>)| member_text(m));
        let ghost new_members = members@.push((key@, text@));
        let ghost new_parts = new_members.map_values(
            |m: (Seq<char>, Seq<char>)| member_text(m),
        );
        let mut out = body;
        let first = out.as_str().is_empty();
        proof {
            quoted_text_is_one_line(key@);
            assert(new_parts.drop_last() =~= old_parts);
            assert(new_parts.last() == member_text((key@, text@)));
            if members@.len() > 0 {
                lemma_join_nonempty(old_parts, seq![',']);
            }
        }
        if !first {
            out.push(',');
        }
        out.append(quote(key).as_str());
        out.push(':');
        out.append(text);
        proof {
            if members@.len() == 0 {
                assert(out@ =~= new_parts[0]);
            } else {
                assert(out@ =~= join(new_parts.drop_last(), seq![',']) + seq![','] + new_parts.last());
            }
        }
        ObjectWriter { body: out, members: Ghost(new_members) }
    }

    /// The object with one more member that is a string.
    pub fn string(self, key: &str, value: &str) -> (r: ObjectWriter)
        requires
            self.wf(),
        ensures
            r.wf(),
            r@ == self@.push((key@, json_quote(value@))),
            self.one_line() ==> r.one_line(),
    {
        let text = quote(value);
        proof {
            quoted_text_is_one_line(value@);
        }
        self.member(key, text.as_str())
    }

    /// The object with one more member that is a number.
    pub fn number(self, key: &str, value: u64) -> (r: ObjectWriter)
        requires
            self.wf(),
        ensures
            r.wf(),
            r@ == self@.push((key@, decimal(value as nat))),
            self.one_line() ==> r.one_line(),
    {
        let text = decimal_of(value);
        proof {
            lemma_decimal_digits(value as nat);
        }
        self.member(key, text.as_str())
    }

    /// The object with one more member that is a number with a sign.
    pub fn signed(self, key: &str, value: i64) -> (r: ObjectWriter)
        requires
            self.wf(),
        ensures
            r.wf(),
            r@ == self@.push((key@, signed_decimal(value as int))),
            self.one_line() ==> r.one_line(),
    {
        let text = signed_decimal_of(value);
        proof {
            lemma_decimal_digits(value as nat);
            lemma_decimal_digits((-value) as nat);
        }
        self.member(key, text.as_str())
    }

    /// The object with one more member that is a truth value.
    pub fn boolean(self, key: &str, value: bool) -> (r: ObjectWriter)
        requires
            self.wf(),
        ensures
            r.wf(),
            r@ == self@.push((key@, bool_text(value))),
            self.one_line() ==> r.one_line(),
    {
        let text = bool_json(value);
        proof {
            reveal_strlit("true");
            reveal_strlit("false");
        }
        self.member(key, text.as_str())
    }

    /// The text of the object.
    pub fn finish(self) -> (r: String)
        requires
            self.wf(),
        ensures
            r@ == object_text(self@),
            self.one_line() ==> one_line(r@),
    {
        let mut out = String::new();
        out.push('{');
        out.append(self.body.as_str());
        out.push('}');
        assert(out@ =~= object_text(self@));
        out
    }
}

/// A member is never written as nothing, so that the text of an object with
/// members is not empty inside its braces.
proof fn lemma_join_nonempty(parts: Seq<Seq<char>>, sep: Seq<char>)
    requires
        parts.len() > 0,
        forall|i: int| 0 <= i < parts.len() ==> (#[trigger] parts[i]).len() > 0,
    ensures
        join(parts, sep).len() > 0,
{
    if parts.len() > 1 {
        assert(parts.last().len() > 0);
    }
}

/// The text of a list, from the texts of its items.
pub fn write_list(items: &Vec<String>) -> (r: String)
    ensures
        r@ == list_text(crate::text::views(items@)),
{
    let mut out = String::new();
    out.push('[');
    out.append(crate::pieces::join_all(items, ",").as_str());
    out.push(']');
    proof {
        reveal_strlit(",");
        assert(","@ =~= seq![',']);
        assert(out@ =~= list_text(crate::text::views(items@)));
    }
    out
}

/// The texts of a list of strings.
pub open spec fn quoted(items: Seq<Seq<char>>) -> Seq<Seq<char>> {
    items.map_values(|s: Seq<char>| json_quote(s))
}

/// The text of a list of strings.
#[verifier::loop_isolation(false)]
pub fn write_strings(items: &Vec<String>) -> (r: String)
    ensures
        r@ == list_text(quoted(crate::text::views(items@))),
{
    let mut texts: Vec<String> = Vec::new();
    let mut i: usize = 0;
    while i < items.len()
        invariant
            i <= items@.len(),
            texts@.len() == i,
            forall|k: int| 0 <= k < i ==> #[trigger] texts@[k]@ == json_quote(items@[k]@),
        decreases items@.len() - i,
    {
        texts.push(quote(items[i].as_str()));
        i = i + 1;
    }
    assert(crate::text::views(texts@) =~= quoted(crate::text::views(items@)));
    write_list(&texts)
}

// ---------------------------------------------------------------------------
// Laws
// ---------------------------------------------------------------------------

/// A key is looked up among all the members: the first that has it gives its
/// text, and there is none if and only if no member has it.
pub proof fn first_member_of_a_key_counts(m: Seq<(Seq<char>, Seq<char>)>, key: Seq<char>)
    ensures
        lookup(m, key) matches Some(text) ==> exists|i: int|
            0 <= i < m.len() && #[trigger] m[i] == (key, text) && forall|k: int|
                0 <= k < i ==> (#[trigger] m[k]).0 != key,
        lookup(m, key) is None ==> forall|i: int| 0 <= i < m.len() ==> (#[trigger] m[i]).0 != key,
    decreases m.len(),
{
    if m.len() > 0 {
        if m[0].0 == key {
            assert(m[0] == (key, m[0].1));
        } else {
            let rest = m.skip(1);
            first_member_of_a_key_counts(rest, key);
            if let Some(text) = lookup(m, key) {
                let i = choose|i: int|
                    0 <= i < rest.len() && #[trigger] rest[i] == (key, text) && forall|k: int|
                        0 <= k < i ==> (#[trigger] rest[k]).0 != key;
                assert(m[i + 1] == rest[i]);
                assert forall|k: int| 0 <= k < i + 1 implies (#[trigger] m[k]).0 != key by {
                    if k > 0 {
                        assert(rest[k - 1] == m[k]);
                    }
                }
            } else {
                assert forall|i: int| 0 <= i < m.len() implies (#[trigger] m[i]).0 != key by {
                    if i > 0 {
                        assert(rest[i - 1] == m[i]);
                    }
                }
            }
        }
    }
}

/// What a text holds it holds as one kind of value only: a string is no number,
/// a number no list, and so on.
pub proof fn values_are_of_one_kind(text: Seq<char>)
    ensures
        object_at(text) matches Some(m) ==> json_level(text) == Some(LevelView::Object(m)),
        string_at(text) matches Some(s) ==> json_level(text) == Some(LevelView::Text(s)),
        bool_at(text) matches Some(b) ==> json_level(text) == Some(LevelView::Bool(b)),
        list_at(text) matches Some(v) ==> json_level(text) == Some(LevelView::List(v)),
        u64_at(text) is Some || i64_at(text) is Some ==> json_level(text) == Some(
            LevelView::Number(i64_at(text), u64_at(text)),
        ),
        json_level(text) matches Some(LevelView::Object(m)) ==> object_at(text) == Some(m),
        json_level(text) matches Some(LevelView::Text(s)) ==> string_at(text) == Some(s),
        json_level(text) matches Some(LevelView::Bool(b)) ==> bool_at(text) == Some(b),
        json_level(text) matches Some(LevelView::List(v)) ==> list_at(text) == Some(v),
        json_level(text) matches Some(LevelView::Number(i, u)) ==> i64_at(text) == i && u64_at(text)
            == u,
        json_level(text) is None ==> object_at(text) is None && string_at(text) is None && bool_at(
            text,
        ) is None && list_at(text) is None && u64_at(text) is None && i64_at(text) is None,
{
}

/// A member is found in the object that a text holds, and an inner one in the
/// object that the outer one holds.
pub proof fn members_are_found_in_objects(text: Seq<char>, outer: Seq<char>, inner: Seq<char>)
    ensures
        member_at(text, outer) matches Some(t) ==> object_at(text) is Some && lookup(
            object_at(text)->0,
            outer,
        ) == Some(t),
        object_at(text) matches Some(m) ==> member_at(text, outer) == lookup(m, outer),
        inner_member_at(text, outer, inner) matches Some(t) ==> member_at(text, outer) is Some
            && member_at(member_at(text, outer)->0, inner) == Some(t),
        member_at(text, outer) matches Some(t) ==> inner_member_at(text, outer, inner) == member_at(
            t,
            inner,
        ),
{
}

/// A missing text is written as `null`, and one that is there as a string.
pub proof fn missing_texts_are_null(s: Seq<char>)
    ensures
        opt_quote(Some(s)) == json_quote(s),
        opt_quote(None) == "null"@,
        bool_text(true) == "true"@,
        bool_text(false) == "false"@,
{
}

/// Every string of a list is written, in their order.
pub proof fn every_string_is_written(items: Seq<Seq<char>>)
    ensures
        quoted(items).len() == items.len(),
        forall|i: int| 0 <= i < items.len() ==> #[trigger] quoted(items)[i] == json_quote(items[i]),
{
}

/// The members of an object are viewed one by one, each with its key and its
/// text.
pub proof fn views_show_every_member(m: Seq<(String, String)>)
    ensures
        members_view(m).len() == m.len(),
        forall|i: int| 0 <= i < m.len() ==> #[trigger] members_view(m)[i] == (m[i].0@, m[i].1@),
{
}

/// An object is written as its members between braces, each as its key, a colon
/// and its text, with commas between them; and a list as its items between
/// brackets, with commas between them.
pub proof fn objects_and_lists_hold_their_parts(
    m: Seq<(Seq<char>, Seq<char>)>,
    items: Seq<Seq<char>>,
) -> (parts: Seq<Seq<char>>)
    ensures
        parts.len() == m.len(),
        forall|i: int|
            0 <= i < m.len() ==> #[trigger] parts[i] == json_quote(m[i].0) + seq![':'] + m[i].1,
        object_text(m) == seq!['{'] + join(parts, seq![',']) + seq!['}'],
        list_text(items) == seq!['['] + join(items, seq![',']) + seq![']'],
{
    m.map_values(|p: (Seq<char>, Seq<char>)| member_text(p))
}

/// The characters of a text are written one by one, between quotes; those that
/// need no escape are written as they are.
pub proof fn texts_are_quoted_character_by_character(a: Seq<char>, b: Seq<char>, c: char)
    ensures
        json_quote(a) == seq!['"'] + escaped(a) + seq!['"'],
        escaped(a + b) == escaped(a) + escaped(b),
        c != '"' && c != '\\' && c >= ' ' ==> escaped(seq![c]) == seq![c],
        escaped(seq!['"']) == seq!['\\', '"'],
        escaped(seq!['\\']) == seq!['\\', '\\'],
        escaped(seq!['\n']) == seq!['\\', 'n'],
        escaped(seq!['\r']) == seq!['\\', 'r'],
        escaped(seq!['\t']) == seq!['\\', 't'],
        escaped(seq!['\u{8}']) == seq!['\\', 'b'],
        escaped(seq!['\u{c}']) == seq!['\\', 'f'],
        ' ' > c && c != '\n' && c != '\r' && c != '\t' && c != '\u{8}' && c != '\u{c}' ==> escaped(
            seq![c],
        ) == seq![
            '\\',
            'u',
            '0',
            '0',
            if c as int >= 16 {
                '1'
            } else {
                '0'
            },
            if c as int % 16 < 10 {
                ('0' as int + c as int % 16) as char
            } else {
                ('a' as int + c as int % 16 - 10) as char
            },
        ],
    decreases b.len(),
{
    let none = Seq::<char>::empty();
    assert(escaped(none) =~= none);
    assert forall|d: char| escaped(#[trigger] seq![d]) == escape(d) by {
        assert(seq![d].drop_last() =~= none);
        assert(none + escape(d) =~= escape(d));
    }
    if b.len() == 0 {
        assert(a + b =~= a);
        assert(escaped(a) + escaped(b) =~= escaped(a));
    } else {
        texts_are_quoted_character_by_character(a, b.drop_last(), c);
        assert((a + b).drop_last() =~= a + b.drop_last());
        assert((a + b).last() == b.last());
        assert(escaped(a + b) =~= escaped(a) + escaped(b));
    }
}

/// An object whose parts are one line each is one line.
pub proof fn objects_of_lines_are_one_line(m: Seq<(Seq<char>, Seq<char>)>)
    requires
        forall|i: int| 0 <= i < m.len() ==> one_line((#[trigger] m[i]).1),
    ensures
        one_line(object_text(m)),
{
    let parts = m.map_values(|p: (Seq<char>, Seq<char>)| member_text(p));
    assert forall|i: int| 0 <= i < parts.len() implies one_line(#[trigger] parts[i]) by {
        quoted_text_is_one_line(m[i].0);
        assert(one_line(m[i].1));
    }
    lemma_join_one_line(parts);
}

proof fn lemma_join_one_line(parts: Seq<Seq<char>>)
    requires
        forall|i: int| 0 <= i < parts.len() ==> one_line(#[trigger] parts[i]),
    ensures
        one_line(join(parts, seq![','])),
    decreases parts.len(),
{
    if parts.len() > 1 {
        let rest = parts.drop_last();
        assert forall|i: int| 0 <= i < rest.len() implies one_line(#[trigger] rest[i]) by {
            assert(rest[i] == parts[i]);
        }
        lemma_join_one_line(rest);
        assert(one_line(parts[parts.len() - 1]));
    } else if parts.len() == 1 {
        assert(one_line(parts[0]));
    }
}

/// Where no key is there twice, every member is found under its key; and no two
/// members have the same key there.
pub proof fn members_with_keys_of_their_own_are_found(
    m: Seq<(Seq<char>, Seq<char>)>,
    i: int,
    j: int,
)
    requires
        0 <= i < m.len(),
        0 <= j < m.len(),
    ensures
        distinct_keys(m) ==> lookup(m, m[i].0) == Some(m[i].1),
        distinct_keys(m) && i != j ==> m[i].0 != m[j].0,
        m.len() == 1 ==> distinct_keys(m),
{
    if distinct_keys(m) {
        assert forall|k: int| 0 <= k < i implies (#[trigger] m[k]).0 != m[i].0 by {
            assert(m[k].0 != m[i].0);
        }
        lemma_lookup(m, m[i].0, i);
        if i < j {
            assert(m[i].0 != m[j].0);
        } else if j < i {
            assert(m[j].0 != m[i].0);
        }
    }
}

} // verus!
