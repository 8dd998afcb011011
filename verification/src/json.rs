//! JSON values as the bridge's logic reads and builds them.
//!
//! Parsing and printing whole values is left to the caller; this module
//! holds the tree that the decisions look into and the messages they put
//! together, and writes the string literals of the lines the bridge formats
//! itself (log and ledger lines).

use vstd::prelude::*;
use crate::text::{chars_of, has_prefix};

verus! {

/// A JSON value. Numbers keep the three forms JSON text can parse to: a
/// non-negative integer, a negative integer, and any other number, kept as
/// the bit pattern of its IEEE-754 double.
pub enum Json {
    Null,
    Bool(bool),
    PosInt(u64),
    NegInt(i64),
    Float(u64),
    Str(String),
    Array(Vec<Json>),
    Object(Vec<(String, Json)>),
}

/// The value stored under `key` in a list of object members (the first
/// member with that key).
pub open spec fn member_spec(fields: Seq<(String, Json)>, key: Seq<char>) -> Option<Json>
    decreases fields.len(),
{
    if fields.len() == 0 {
        None
    } else if fields[0].0@ == key {
        Some(fields[0].1)
    } else {
        member_spec(fields.drop_first(), key)
    }
}

/// The keys of a list of object members, in order.
pub open spec fn keys_of(fields: Seq<(String, Json)>) -> Seq<Seq<char>> {
    fields.map_values(|f: (String, Json)| f.0@)
}

impl Json {
    /// The member of an object under `key`; `None` for a missing key or a
    /// value that is not an object.
    pub open spec fn get_spec(self, key: Seq<char>) -> Option<Json> {
        match self {
            Json::Object(fields) => member_spec(fields@, key),
            _ => None,
        }
    }

    /// The text of a string value.
    pub open spec fn str_spec(self) -> Option<Seq<char>> {
        match self {
            Json::Str(s) => Some(s@),
            _ => None,
        }
    }

    /// The value of a boolean.
    pub open spec fn bool_spec(self) -> Option<bool> {
        match self {
            Json::Bool(b) => Some(b),
            _ => None,
        }
    }

    /// The text of the string member under `key`.
    pub open spec fn str_member(self, key: Seq<char>) -> Option<Seq<char>> {
        match self.get_spec(key) {
            Some(v) => v.str_spec(),
            None => None,
        }
    }

    /// The boolean member under `key`.
    pub open spec fn bool_member(self, key: Seq<char>) -> Option<bool> {
        match self.get_spec(key) {
            Some(v) => v.bool_spec(),
            None => None,
        }
    }

    /// Looks up a member of an object.
    pub fn get(&self, key: &str) -> (r: Option<&Json>)
        ensures
            match r {
                Some(v) => self.get_spec(key@) == Some(*v),
                None => self.get_spec(key@) is None,
            },
    {
        match self {
            Json::Object(fields) => {
                let k = chars_of(key);
                let mut i: usize = 0;
                proof {
                    assert(fields@.skip(0) =~= fields@);
                }
                while i < fields.len()
                    invariant
                        i <= fields@.len(),
                        k@ == key@,
                        self.get_spec(key@) == member_spec(fields@, key@),
                        member_spec(fields@, key@) == member_spec(fields@.skip(i as int), key@),
                    decreases fields.len() - i,
                {
                    proof {
                        assert(fields@.skip(i as int).drop_first() =~= fields@.skip(i + 1));
                    }
                    let fk = chars_of(fields[i].0.as_str());
                    if fk.len() == k.len() && has_prefix(&fk, &k) {
                        proof {
                            assert(fk@ =~= k@);
                            assert(fields@.skip(i as int)[0] == fields@[i as int]);
                            assert(fields@[i as int].0@ == key@);
                            assert(member_spec(fields@.skip(i as int), key@) == Some(
                                fields@[i as int].1,
                            ));
                        }
                        return Some(&fields[i].1);
                    }
                    proof {
                        if fk@ == k@ {
                            assert(k@.is_prefix_of(fk@));
                        }
                    }
                    i = i + 1;
                }
                None
            },
            _ => None,
        }
    }

    /// The text of a string value.
    pub fn as_str(&self) -> (r: Option<&String>)
        ensures
            match r {
                Some(s) => self.str_spec() == Some(s@),
                None => self.str_spec() is None,
            },
    {
        match self {
            Json::Str(s) => Some(s),
            _ => None,
        }
    }

    /// The value of a boolean.
    pub fn as_bool(&self) -> (r: Option<bool>)
        ensures
            r == self.bool_spec(),
    {
        match self {
            Json::Bool(b) => Some(*b),
            _ => None,
        }
    }

    /// A non-negative integer value (`None` for other values, negative
    /// integers and fractional numbers).
    pub fn as_u64(&self) -> (r: Option<u64>)
        ensures
            r == (match self {
                Json::PosInt(n) => Some(*n),
                _ => None::<u64>,
            }),
    {
        match self {
            Json::PosInt(n) => Some(*n),
            _ => None,
        }
    }

    /// The text of the string member under `key`.
    pub fn str_member_exec(&self, key: &str) -> (r: Option<&String>)
        ensures
            match r {
                Some(s) => self.str_member(key@) == Some(s@),
                None => self.str_member(key@) is None,
            },
    {
        match self.get(key) {
            Some(v) => v.as_str(),
            None => None,
        }
    }

    /// The boolean member under `key`.
    pub fn bool_member_exec(&self, key: &str) -> (r: Option<bool>)
        ensures
            r == self.bool_member(key@),
    {
        match self.get(key) {
            Some(v) => v.as_bool(),
            None => None,
        }
    }

}

/// A string value holding the text of `s`.
pub fn text(s: &str) -> (j: Json)
    ensures
        j.str_spec() == Some(s@),
{
    let mut t = String::new();
    crate::text::push_str(&mut t, s);
    Json::Str(t)
}

/// Appends the member `key: value` to a list of object members.
pub fn push_member(fields: &mut Vec<(String, Json)>, key: &str, value: Json)
    ensures
        final(fields)@.len() == old(fields)@.len() + 1,
        final(fields)@.take(old(fields)@.len() as int) == old(fields)@,
        final(fields)@.last().0@ == key@,
        final(fields)@.last().1 == value,
{
    let mut k = String::new();
    crate::text::push_str(&mut k, key);
    fields.push((k, value));
    proof {
        assert(fields@.take(old(fields)@.len() as int) =~= old(fields)@);
    }
}

/// Looking up a key in members extended by one member.
pub proof fn lemma_member_push(fields: Seq<(String, Json)>, f: (String, Json), key: Seq<char>)
    ensures
        member_spec(fields.push(f), key) == (match member_spec(fields, key) {
            Some(v) => Some(v),
            None => if f.0@ == key {
                Some(f.1)
            } else {
                None
            },
        }),
    decreases fields.len(),
{
    reveal_with_fuel(member_spec, 2);
    if fields.len() == 0 {
        assert(fields.push(f).drop_first() =~= Seq::<(String, Json)>::empty());
        assert(fields.push(f)[0] == f);
    } else {
        assert(fields.push(f).drop_first() =~= fields.drop_first().push(f));
        assert(fields.push(f)[0] == fields[0]);
        lemma_member_push(fields.drop_first(), f, key);
    }
}

/// An object whose members are exactly `keys`, each holding the string in
/// `texts` at the same position.
pub open spec fn text_object_is(j: Json, keys: Seq<Seq<char>>, texts: Seq<Seq<char>>) -> bool {
    match j {
        Json::Object(f) => {
            &&& f@.len() == keys.len() == texts.len()
            &&& forall|i: int| 0 <= i < f@.len() ==> (#[trigger] f@[i]).0@ == keys[i]
                && f@[i].1.str_spec() == Some(texts[i])
        },
        _ => false,
    }
}

/// Position of the first member with `key`.
pub open spec fn member_index(fields: Seq<(String, Json)>, key: Seq<char>) -> Option<int>
    decreases fields.len(),
{
    if fields.len() == 0 {
        None
    } else if fields.last().0@ == key && member_index(fields.drop_last(), key) is None {
        Some(fields.len() - 1)
    } else {
        member_index(fields.drop_last(), key)
    }
}

/// What `member_index` finds.
pub proof fn lemma_member_index(fields: Seq<(String, Json)>, key: Seq<char>)
    ensures
        member_index(fields, key) matches Some(i) ==> 0 <= i < fields.len() && fields[i].0@ == key
            && member_spec(fields, key) == Some(fields[i].1) && forall|j: int|
            0 <= j < i ==> fields[j].0@ != key,
        member_index(fields, key) is None ==> member_spec(fields, key) is None && forall|j: int|
            0 <= j < fields.len() ==> fields[j].0@ != key,
    decreases fields.len(),
{
    if fields.len() > 0 {
        lemma_member_index(fields.drop_last(), key);
        lemma_member_push(fields.drop_last(), fields.last(), key);
        assert(fields.drop_last().push(fields.last()) =~= fields);
    }
}

/// Sets the member `key` of a list of object members to `value`: the first
/// member with that key gets the new value, or the member is appended when
/// there is none (`serde_json::Map::insert`, keys kept unique).
pub fn insert_member(fields: &mut Vec<(String, Json)>, key: &str, value: Json)
    ensures
        match member_index(old(fields)@, key@) {
            Some(i) => {
                &&& final(fields)@.len() == old(fields)@.len()
                &&& final(fields)@[i].0 == old(fields)@[i].0
                &&& final(fields)@[i].1 == value
                &&& forall|j: int|
                    0 <= j < old(fields)@.len() && j != i ==> final(fields)@[j] == old(fields)@[j]
            },
            None => {
                &&& final(fields)@.len() == old(fields)@.len() + 1
                &&& final(fields)@.take(old(fields)@.len() as int) == old(fields)@
                &&& final(fields)@.last().0@ == key@
                &&& final(fields)@.last().1 == value
            },
        },
        forall|k: Seq<char>|
            #![trigger member_spec(final(fields)@, k)]
            member_spec(final(fields)@, k) == if k == key@ {
                Some(value)
            } else {
                member_spec(old(fields)@, k)
            },
{
    let k = chars_of(key);
    let mut i: usize = 0;
    proof {
        lemma_member_index(fields@, key@);
    }
    while i < fields.len()
        invariant
            i <= fields@.len(),
            k@ == key@,
            fields@ == old(fields)@,
            forall|j: int| 0 <= j < i ==> fields@[j].0@ != key@,
        decreases fields.len() - i,
    {
        let fk = chars_of(fields[i].0.as_str());
        if fk.len() == k.len() && has_prefix(&fk, &k) {
            proof {
                assert(fk@ =~= k@);
                assert(member_index(fields@, key@) == Some(i as int)) by {
                    lemma_member_index(fields@, key@);
                    if member_index(fields@, key@) is None {
                    } else {
                        let m = member_index(fields@, key@)->0;
                        assert(m >= i);
                        assert(m <= i);
                    }
                }
            }
            let ghost before = fields@;
            let name = fields[i].0.clone();
            fields.set(i, (name, value));
            proof {
                assert forall|kk: Seq<char>| #![trigger member_spec(fields@, kk)] member_spec(fields@, kk) == if kk == key@ {
                    Some(value)
                } else {
                    member_spec(before, kk)
                } by {
                    lemma_member_same_prefix(before, fields@, i as int, kk);
                }
            }
            return;
        }
        proof {
            if fk@ == k@ {
                assert(k@.is_prefix_of(fk@));
            }
        }
        i = i + 1;
    }
    proof {
        assert(member_index(fields@, key@) is None) by {
            lemma_member_index(fields@, key@);
            if member_index(fields@, key@) is Some {
                let m = member_index(fields@, key@)->0;
                assert(fields@[m].0@ != key@);
            }
        }
    }
    let ghost before = fields@;
    push_member(fields, key, value);
    proof {
        assert(fields@ == before.push(fields@.last())) by {
            assert(fields@ =~= before.push(fields@.last()));
        }
        assert forall|kk: Seq<char>| #![trigger member_spec(fields@, kk)] member_spec(fields@, kk) == if kk == key@ {
            Some(value)
        } else {
            member_spec(before, kk)
        } by {
            lemma_member_push(before, fields@.last(), kk);
            lemma_member_index(before, kk);
        }
    }
}

/// Replacing the value of the first member with a key changes only what
/// that key looks up to.
pub proof fn lemma_member_same_prefix(
    a: Seq<(String, Json)>,
    b: Seq<(String, Json)>,
    i: int,
    k: Seq<char>,
)
    requires
        a.len() == b.len(),
        0 <= i < a.len(),
        b[i].0 == a[i].0,
        forall|j: int| 0 <= j < a.len() && j != i ==> b[j] == a[j],
        forall|j: int| 0 <= j < i ==> a[j].0@ != a[i].0@,
    ensures
        member_spec(b, k) == if k == a[i].0@ {
            Some(b[i].1)
        } else {
            member_spec(a, k)
        },
    decreases i,
{
    if i == 0 {
        assert(b.drop_first() =~= a.drop_first());
    } else {
        lemma_member_same_prefix(a.drop_first(), b.drop_first(), i - 1, k);
        assert(a.drop_first()[i - 1] == a[i]);
        assert(b.drop_first()[i - 1] == b[i]);
    }
}

/// The member at position `i` has key `key` and holds the string `val`.
pub open spec fn text_at(fields: Seq<(String, Json)>, i: int, key: Seq<char>, val: Seq<char>) -> bool {
    0 <= i < fields.len() && fields[i].0@ == key && fields[i].1.str_spec() == Some(val)
}

/// The member at position `i` has key `key` and holds `val`.
pub open spec fn value_at(fields: Seq<(String, Json)>, i: int, key: Seq<char>, val: Json) -> bool {
    0 <= i < fields.len() && fields[i].0@ == key && fields[i].1 == val
}

/// The members of an object (none for other values).
pub open spec fn members(j: Json) -> Seq<(String, Json)> {
    match j {
        Json::Object(f) => f@,
        _ => Seq::empty(),
    }
}

/// The first member with a key is the one looked up.
pub proof fn lemma_member_at(fields: Seq<(String, Json)>, i: int, key: Seq<char>)
    requires
        0 <= i < fields.len(),
        fields[i].0@ == key,
        forall|j: int| 0 <= j < i ==> fields[j].0@ != key,
    ensures
        member_spec(fields, key) == Some(fields[i].1),
    decreases i,
{
    if i > 0 {
        let rest = fields.drop_first();
        assert forall|j: int| 0 <= j < i - 1 implies rest[j].0@ != key by {
            assert(rest[j] == fields[j + 1]);
        }
        lemma_member_at(rest, i - 1, key);
    }
}

// ---------------------------------------------------------------------------
// JSON string literals
// ---------------------------------------------------------------------------

/// The lowercase hexadecimal digit of `n < 16`.
pub open spec fn hex_digit(n: int) -> char {
    if n < 10 {
        (n + 48) as char
    } else {
        (n + 87) as char
    }
}

/// How a character is written inside a JSON string: quote and backslash
/// escaped, line feed, carriage return, tab, backspace and form feed by
/// their short escapes, the other control characters below U+0020 as
/// `\u00XX`, everything else as it is.
pub open spec fn json_escape_char(c: char) -> Seq<char> {
    if c == '"' {
        seq!['\\', '"']
    } else if c == '\\' {
        seq!['\\', '\\']
    } else if c == '\n' {
        seq!['\\', 'n']
    } else if c == '\r' {
        seq!['\\', 'r']
    } else if c == '\t' {
        seq!['\\', 't']
    } else if c == '\u{8}' {
        seq!['\\', 'b']
    } else if c == '\u{c}' {
        seq!['\\', 'f']
    } else if (c as u32) < 32 {
        seq!['\\', 'u', '0', '0', hex_digit(((c as u32) / 16) as int), hex_digit(((c as u32) % 16) as int)]
    } else {
        seq![c]
    }
}

/// The escaped text: each character replaced by its escape.
pub open spec fn json_escape(s: Seq<char>) -> Seq<char>
    decreases s.len(),
{
    if s.len() == 0 {
        Seq::empty()
    } else {
        json_escape(s.drop_last()) + json_escape_char(s.last())
    }
}

/// The hexadecimal digit of `n`.
fn hex_digit_exec(n: u32) -> (c: char)
    requires
        n < 16,
    ensures
        c == hex_digit(n as int),
{
    if n < 10 {
        (48u8 + n as u8) as char
    } else {
        (87u8 + n as u8) as char
    }
}

/// Appends `s` escaped for a JSON string.
pub fn push_json_escaped(out: &mut Vec<char>, s: &str)
    ensures
        final(out)@ == old(out)@ + json_escape(s@),
{
    let v = chars_of(s);
    let ghost o0 = out@;
    let mut i: usize = 0;
    proof {
        assert(v@.take(0) =~= Seq::<char>::empty());
        assert(o0 + json_escape(Seq::<char>::empty()) =~= o0);
    }
    while i < v.len()
        invariant
            i <= v.len(),
            v@ == s@,
            out@ == o0 + json_escape(v@.take(i as int)),
        decreases v.len() - i,
    {
        let c = v[i];
        let u = c as u32;
        let ghost before = out@;
        if c == '"' {
            out.push('\\');
            out.push('"');
        } else if c == '\\' {
            out.push('\\');
            out.push('\\');
        } else if c == '\n' {
            out.push('\\');
            out.push('n');
        } else if c == '\r' {
            out.push('\\');
            out.push('r');
        } else if c == '\t' {
            out.push('\\');
            out.push('t');
        } else if c == '\u{8}' {
            out.push('\\');
            out.push('b');
        } else if c == '\u{c}' {
            out.push('\\');
            out.push('f');
        } else if u < 32 {
            out.push('\\');
            out.push('u');
            out.push('0');
            out.push('0');
            out.push(hex_digit_exec(u / 16));
            out.push(hex_digit_exec(u % 16));
        } else {
            out.push(c);
        }
        proof {
            assert(v@.take(i + 1).drop_last() =~= v@.take(i as int));
            assert(v@.take(i + 1).last() == c);
            assert(out@ =~= before + json_escape_char(c));
            assert(out@ =~= o0 + json_escape(v@.take(i + 1)));
        }
        i = i + 1;
    }
    proof {
        assert(v@.take(v.len() as int) =~= v@);
    }
}

/// An escaped character is never a raw control character, and a quote
/// in it is always preceded by a backslash.
pub proof fn lemma_escape_char_clean(c: char)
    ensures
        forall|i: int|
            0 <= i < json_escape_char(c).len() ==> (#[trigger] json_escape_char(c)[i] as u32) >= 32,
        json_escape_char(c).len() >= 1,
{
    let u = c as u32;
    if u < 32 {
        assert(hex_digit((u / 16) as int) as u32 >= 48);
        assert(hex_digit((u % 16) as int) as u32 >= 48);
    }
}

/// The escaped text holds no control character (no line break in
/// particular).
pub proof fn lemma_escape_clean(s: Seq<char>)
    ensures
        forall|i: int| 0 <= i < json_escape(s).len() ==> (#[trigger] json_escape(s)[i] as u32) >= 32,
    decreases s.len(),
{
    if s.len() > 0 {
        lemma_escape_clean(s.drop_last());
        lemma_escape_char_clean(s.last());
        let a = json_escape(s.drop_last());
        let b = json_escape_char(s.last());
        assert forall|i: int| 0 <= i < json_escape(s).len() implies (#[trigger] json_escape(s)[i] as u32)
            >= 32 by {
            if i < a.len() {
                assert(json_escape(s)[i] == a[i]);
            } else {
                assert(json_escape(s)[i] == b[i - a.len()]);
            }
        }
    }
}

/// The value of a hexadecimal digit.
pub open spec fn hex_value(c: char) -> Option<int> {
    if '0' <= c <= '9' {
        Some(c as int - 48)
    } else if 'a' <= c <= 'f' {
        Some(c as int - 87)
    } else if 'A' <= c <= 'F' {
        Some(c as int - 55)
    } else {
        None
    }
}

/// The character a two-character escape `\x` stands for.
pub open spec fn short_escape(x: char) -> Option<char> {
    if x == '"' {
        Some('"')
    } else if x == '\\' {
        Some('\\')
    } else if x == '/' {
        Some('/')
    } else if x == 'n' {
        Some('\n')
    } else if x == 'r' {
        Some('\r')
    } else if x == 't' {
        Some('\t')
    } else if x == 'b' {
        Some('\u{8}')
    } else if x == 'f' {
        Some('\u{c}')
    } else {
        None
    }
}

/// The code point of a `\uXXXX` escape whose four digits start at `e[2]`.
pub open spec fn unicode_escape(e: Seq<char>) -> Option<int> {
    match (hex_value(e[2]), hex_value(e[3]), hex_value(e[4]), hex_value(e[5])) {
        (Some(a), Some(b), Some(c), Some(d)) => Some(((a * 16 + b) * 16 + c) * 16 + d),
        _ => None,
    }
}

/// `c` preceded by the text of `rest`, when there is one.
pub open spec fn prepend(c: char, rest: Option<Seq<char>>) -> Option<Seq<char>> {
    match rest {
        Some(t) => Some(seq![c] + t),
        None => None,
    }
}

/// What a JSON reader takes from the inside of a string literal: escapes
/// replaced by what they stand for; `None` for a raw quote, a raw control
/// character or a broken escape. (A `\uXXXX` naming a surrogate, which
/// only a pair of escapes can write, is not read.)
pub open spec fn json_unescape(e: Seq<char>) -> Option<Seq<char>>
    decreases e.len(),
{
    if e.len() == 0 {
        Some(Seq::empty())
    } else if e[0] == '\\' {
        if e.len() >= 2 && short_escape(e[1]) is Some {
            prepend(short_escape(e[1])->0, json_unescape(e.skip(2)))
        } else if e.len() >= 6 && e[1] == 'u' && unicode_escape(e) is Some {
            let u = unicode_escape(e)->0;
            if u < 0xd800 || u > 0xdfff {
                prepend(u as char, json_unescape(e.skip(6)))
            } else {
                None
            }
        } else {
            None
        }
    } else if e[0] == '"' || (e[0] as u32) < 32 {
        None
    } else {
        prepend(e[0], json_unescape(e.skip(1)))
    }
}

/// Escaping distributes over concatenation.
proof fn lemma_escape_concat(a: Seq<char>, b: Seq<char>)
    ensures
        json_escape(a + b) == json_escape(a) + json_escape(b),
    decreases b.len(),
{
    if b.len() == 0 {
        assert(a + b =~= a);
        assert(json_escape(a) + json_escape(b) =~= json_escape(a));
    } else {
        lemma_escape_concat(a, b.drop_last());
        assert((a + b).drop_last() =~= a + b.drop_last());
        assert((a + b).last() == b.last());
        assert(json_escape(a + b) =~= json_escape(a) + json_escape(b));
    }
}

/// A reader takes one character back from its escape, and goes on after
/// it.
proof fn lemma_unescape_char(c: char, rest: Seq<char>)
    ensures
        json_unescape(json_escape_char(c) + rest) == prepend(c, json_unescape(rest)),
{
    let e = json_escape_char(c) + rest;
    let k = json_escape_char(c).len();
    assert(e.skip(k as int) =~= rest);
    let u = c as u32;
    if c == '"' || c == '\\' || c == '\n' || c == '\r' || c == '\t' || c == '\u{8}' || c
        == '\u{c}' {
        assert(e[0] == '\\');
        assert(e[1] == json_escape_char(c)[1]);
    } else if u < 32 {
        let hi = (u / 16) as int;
        let lo = (u % 16) as int;
        assert(e[0] == '\\' && e[1] == 'u' && e[2] == '0' && e[3] == '0');
        assert(e[4] == hex_digit(hi) && e[5] == hex_digit(lo));
        assert(hex_value(hex_digit(hi)) == Some(hi));
        assert(hex_value(hex_digit(lo)) == Some(lo));
        assert(short_escape('u') is None);
        assert(unicode_escape(e) == Some(u as int));
        vstd::utf8::char_u32_cast(c, u);
        assert((u as int) as char == c);
    } else {
        assert(e[0] == c);
    }
}

/// A reader gets the text back from its escape.
pub proof fn lemma_unescape_escape(s: Seq<char>)
    ensures
        json_unescape(json_escape(s)) == Some(s),
    decreases s.len(),
{
    if s.len() > 0 {
        let first = s[0];
        let tail = s.drop_first();
        lemma_unescape_escape(tail);
        assert(s =~= seq![first] + tail);
        lemma_escape_concat(seq![first], tail);
        assert(json_escape(seq![first]) =~= json_escape_char(first)) by {
            assert(seq![first].drop_last() =~= Seq::<char>::empty());
            assert(seq![first].last() == first);
            assert(json_escape(Seq::<char>::empty()) =~= Seq::<char>::empty());
            assert(json_escape(seq![first]) == json_escape(seq![first].drop_last())
                + json_escape_char(seq![first].last()));
        }
        lemma_unescape_char(first, json_escape(tail));
        assert(seq![first] + tail =~= s);
    }
}

} // verus!
