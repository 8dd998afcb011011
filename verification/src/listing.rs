//! Blackboard list replies: the members of a `list` object in key order, the
//! task cards a node takes from them, and the notes it accepts.

use vstd::prelude::*;
use crate::json::{keys_of, lemma_member_at, lemma_member_index, lemma_member_push, member_spec, Json};
use crate::text::{chars_of, contains, contains_spec, ends_with, same_text, starts_with};

verus! {

broadcast use vstd::string::group_string_axioms;

// ---------------------------------------------------------------------------
// Key order
// ---------------------------------------------------------------------------

/// `a` sorts before `b`: the order of `String`s, character by character
/// (UTF-8 keeps code point order), a proper prefix first.
pub open spec fn key_lt(a: Seq<char>, b: Seq<char>) -> bool
    decreases a.len(),
{
    if a.len() == 0 {
        b.len() > 0
    } else if b.len() == 0 {
        false
    } else if a[0] != b[0] {
        (a[0] as u32) < (b[0] as u32)
    } else {
        key_lt(a.drop_first(), b.drop_first())
    }
}

/// No key sorts before itself.
pub proof fn lemma_key_lt_irreflexive(a: Seq<char>)
    ensures
        !key_lt(a, a),
    decreases a.len(),
{
    if a.len() > 0 {
        lemma_key_lt_irreflexive(a.drop_first());
    }
}

/// The key order is transitive.
pub proof fn lemma_key_lt_transitive(a: Seq<char>, b: Seq<char>, c: Seq<char>)
    requires
        key_lt(a, b),
        key_lt(b, c),
    ensures
        key_lt(a, c),
    decreases a.len(),
{
    if a.len() > 0 && b.len() > 0 && c.len() > 0 && a[0] == b[0] && b[0] == c[0] {
        lemma_key_lt_transitive(a.drop_first(), b.drop_first(), c.drop_first());
    }
}

/// Of two different keys, one sorts before the other.
pub proof fn lemma_key_lt_total(a: Seq<char>, b: Seq<char>)
    requires
        a != b,
    ensures
        key_lt(a, b) || key_lt(b, a),
    decreases a.len(),
{
    if a.len() == 0 && b.len() == 0 {
        assert(a =~= b);
    } else if a.len() > 0 && b.len() > 0 && a[0] == b[0] {
        let ad = a.drop_first();
        let bd = b.drop_first();
        if ad =~= bd {
            assert(ad.len() == bd.len());
            assert forall|i: int| 0 <= i < a.len() implies a[i] == b[i] by {
                if i > 0 {
                    assert(a[i] == ad[i - 1]);
                    assert(b[i] == bd[i - 1]);
                }
            }
            assert(a =~= b);
        }
        lemma_key_lt_total(ad, bd);
    } else if a.len() > 0 && b.len() > 0 {
        vstd::utf8::char_u32_cast(a[0], a[0] as u32);
        vstd::utf8::char_u32_cast(b[0], b[0] as u32);
    }
}

/// Whether `a` sorts before `b`.
pub fn key_less(a: &Vec<char>, b: &Vec<char>) -> (r: bool)
    ensures
        r == key_lt(a@, b@),
{
    let mut i: usize = 0;
    proof {
        assert(a@.skip(0) =~= a@);
        assert(b@.skip(0) =~= b@);
    }
    loop
        invariant
            i <= a.len(),
            i <= b.len(),
            key_lt(a@, b@) == key_lt(a@.skip(i as int), b@.skip(i as int)),
        decreases a.len() - i,
    {
        if i == a.len() {
            return i < b.len();
        }
        if i == b.len() {
            return false;
        }
        if a[i] != b[i] {
            return (a[i] as u32) < (b[i] as u32);
        }
        proof {
            assert(a@.skip(i as int).drop_first() =~= a@.skip(i + 1));
            assert(b@.skip(i as int).drop_first() =~= b@.skip(i + 1));
        }
        i = i + 1;
    }
}

/// Members whose keys strictly ascend.
pub open spec fn keys_ascending(r: Seq<(String, Json)>) -> bool {
    forall|i: int, j: int| 0 <= i < j < r.len() ==> key_lt(#[trigger] r[i].0@, #[trigger] r[j].0@)
}

// ---------------------------------------------------------------------------
// Object members in key order
// ---------------------------------------------------------------------------

/// No member with `key` means nothing is looked up under it.
proof fn lemma_member_absent(fields: Seq<(String, Json)>, key: Seq<char>)
    requires
        forall|m: int| 0 <= m < fields.len() ==> fields[m].0@ != key,
    ensures
        member_spec(fields, key) is None,
{
    lemma_member_index(fields, key);
}

/// Takes the member `key` out of an object (what `get` would find).
pub fn take_member(j: Json, key: &str) -> (r: Option<Json>)
    ensures
        r == j.get_spec(key@),
{
    let ghost target = j.get_spec(key@);
    match j {
        Json::Object(mut f) => {
            let ghost f0 = f@;
            assert(target == member_spec(f0, key@));
            let mut i: usize = 0;
            while i < f.len()
                invariant
                    f@ == f0,
                    target == member_spec(f0, key@),
                    target == j.get_spec(key@),
                    i <= f.len(),
                    forall|m: int| 0 <= m < i ==> f0[m].0@ != key@,
                decreases f.len() - i,
            {
                if same_text(f[i].0.as_str(), key) {
                    proof {
                        lemma_member_at(f0, i as int, key@);
                    }
                    let e = f.remove(i);
                    proof {
                        assert(e == f0[i as int]);
                    }
                    return Some(e.1);
                }
                i = i + 1;
            }
            proof {
                lemma_member_absent(f0, key@);
            }
            None
        },
        _ => None,
    }
}

/// The members of an object as a map holds them: each key once, with the
/// value it looks up to, in ascending key order.
pub open spec fn sorted_members_of(fields: Seq<(String, Json)>, r: Seq<(String, Json)>) -> bool {
    &&& keys_ascending(r)
    &&& forall|i: int| 0 <= i < r.len() ==> member_spec(fields, (#[trigger] r[i]).0@) == Some(r[i].1)
    &&& forall|k: Seq<char>| #[trigger] member_spec(fields, k) is Some ==> keys_of(r).contains(k)
}

/// Inserting a key that sorts after everything before `p` and before
/// everything from `p` on keeps the keys ascending.
proof fn lemma_insert_ascending(out: Seq<(String, Json)>, p: int, e: (String, Json))
    requires
        0 <= p <= out.len(),
        keys_ascending(out),
        forall|i: int| 0 <= i < p ==> key_lt(#[trigger] out[i].0@, e.0@),
        forall|i: int| p <= i < out.len() ==> key_lt(e.0@, #[trigger] out[i].0@),
    ensures
        keys_ascending(out.insert(p, e)),
{
    let n = out.insert(p, e);
    out.insert_ensures(p, e);
    assert forall|i: int, j: int| 0 <= i < j < n.len() implies key_lt(
        #[trigger] n[i].0@,
        #[trigger] n[j].0@,
    ) by {
        if j < p {
            assert(n[i] == out[i] && n[j] == out[j]);
        } else if j == p {
            assert(n[i] == out[i]);
        } else if i < p {
            assert(n[i] == out[i] && n[j] == out[j - 1]);
        } else if i == p {
            assert(n[j] == out[j - 1]);
        } else {
            assert(n[i] == out[i - 1] && n[j] == out[j - 1]);
        }
    }
}

/// The members of an object, each key once (the first member with it), in
/// ascending key order.
pub fn sorted_members(fields: Vec<(String, Json)>) -> (r: Vec<(String, Json)>)
    ensures
        sorted_members_of(fields@, r@),
{
    let ghost f0 = fields@;
    let mut rest = fields;
    let mut out: Vec<(String, Json)> = Vec::new();
    let mut okeys: Vec<Vec<char>> = Vec::new();
    let mut n: usize = 0;
    proof {
        assert(f0.len() == rest.len());
    }
    while rest.len() > 0
        invariant
            n <= f0.len(),
            f0.len() <= usize::MAX,
            rest@ == f0.skip(n as int),
            okeys.len() == out.len(),
            forall|i: int| 0 <= i < out.len() ==> (#[trigger] okeys@[i])@ == out@[i].0@,
            sorted_members_of(f0.take(n as int), out@),
        decreases rest.len(),
    {
        let ghost before = out@;
        let (k, v) = rest.remove(0);
        proof {
            assert(f0.skip(n as int)[0] == f0[n as int]);
            assert(rest@ =~= f0.skip(n + 1));
            assert(f0.take(n + 1) =~= f0.take(n as int).push((k, v)));
        }
        let kc = chars_of(k.as_str());
        let mut p: usize = 0;
        while p < okeys.len()
            invariant
                p <= okeys.len(),
                okeys.len() == out.len(),
                out@ == before,
                forall|i: int| 0 <= i < out.len() ==> (#[trigger] okeys@[i])@ == out@[i].0@,
                forall|i: int| 0 <= i < p ==> key_lt(#[trigger] out@[i].0@, kc@),
            ensures
                p <= okeys.len(),
                out@ == before,
                forall|i: int| 0 <= i < p ==> key_lt(#[trigger] out@[i].0@, kc@),
                p < okeys.len() ==> !key_lt(out@[p as int].0@, kc@),
            decreases okeys.len() - p,
        {
            if !key_less(&okeys[p], &kc) {
                break;
            }
            p = p + 1;
        }
        let present = p < okeys.len() && same_text(out[p].0.as_str(), k.as_str());
        proof {
            lemma_member_push(f0.take(n as int), (k, v), k@);
            assert forall|kk: Seq<char>| #[trigger] member_spec(f0.take(n as int), kk) is Some
                implies member_spec(f0.take(n + 1), kk) == member_spec(f0.take(n as int), kk) by {
                lemma_member_push(f0.take(n as int), (k, v), kk);
            }
        }
        if present {
            proof {
                assert(member_spec(f0.take(n as int), k@) is Some);
                assert forall|kk: Seq<char>| #[trigger] member_spec(f0.take(n + 1), kk) is Some
                    implies keys_of(out@).contains(kk) by {
                    lemma_member_push(f0.take(n as int), (k, v), kk);
                }
            }
        } else {
            proof {
                let kk = k@;
                if p < out@.len() {
                    assert(out@[p as int].0@ != kk);
                    lemma_key_lt_total(out@[p as int].0@, kk);
                }
                assert forall|i: int| p <= i < out@.len() implies key_lt(
                    kk,
                    #[trigger] out@[i].0@,
                ) by {
                    if i > p {
                        assert(key_lt(out@[p as int].0@, out@[i].0@));
                        lemma_key_lt_transitive(kk, out@[p as int].0@, out@[i].0@);
                    }
                }
                assert forall|i: int| 0 <= i < out@.len() implies (#[trigger] out@[i]).0@ != kk by {
                    lemma_key_lt_irreflexive(kk);
                    if i < p {
                        assert(key_lt(out@[i].0@, kk));
                    } else {
                        assert(key_lt(kk, out@[i].0@));
                    }
                }
                if member_spec(f0.take(n as int), kk) is Some {
                    assert(keys_of(out@).contains(kk));
                    let w = choose|w: int| 0 <= w < keys_of(out@).len() && keys_of(out@)[w] == kk;
                    assert(out@[w].0@ == kk);
                }
                lemma_insert_ascending(out@, p as int, (k, v));
            }
            let kc2 = chars_of(k.as_str());
            out.insert(p, (k, v));
            okeys.insert(p, kc2);
            proof {
                before.insert_ensures(p as int, out@[p as int]);
                assert forall|i: int| 0 <= i < out@.len() implies member_spec(
                    f0.take(n + 1),
                    (#[trigger] out@[i]).0@,
                ) == Some(out@[i].1) by {
                    if i > p {
                        assert(out@[i] == before[i - 1]);
                    } else if i < p {
                        assert(out@[i] == before[i]);
                    }
                }
                assert forall|i: int| 0 <= i < out.len() implies (#[trigger] okeys@[i])@
                    == out@[i].0@ by {
                    if i > p {
                        assert(out@[i] == before[i - 1]);
                    } else if i < p {
                        assert(out@[i] == before[i]);
                    }
                }
                assert forall|kk: Seq<char>| #[trigger] member_spec(f0.take(n + 1), kk) is Some
                    implies keys_of(out@).contains(kk) by {
                    lemma_member_push(f0.take(n as int), (k, v), kk);
                    if kk == out@[p as int].0@ {
                        assert(keys_of(out@)[p as int] == kk);
                    } else {
                        assert(keys_of(before).contains(kk));
                        let w = choose|w: int| 0 <= w < keys_of(before).len() && keys_of(before)[w]
                            == kk;
                        if w < p {
                            assert(keys_of(out@)[w] == kk);
                        } else {
                            assert(keys_of(out@)[w + 1] == kk);
                        }
                    }
                }
            }
        }
        n = n + 1;
    }
    proof {
        assert(f0.take(n as int) =~= f0);
    }
    out
}

// ---------------------------------------------------------------------------
// List replies
// ---------------------------------------------------------------------------

/// The members of a reply's `list` object (none when it has none).
pub open spec fn list_members(reply: Json) -> Seq<(String, Json)> {
    match reply.get_spec("list"@) {
        Some(Json::Object(f)) => f@,
        _ => Seq::empty(),
    }
}

/// The entries of a list reply, each key once, in ascending key order.
pub fn list_entries(reply: Json) -> (r: Vec<(String, Json)>)
    ensures
        sorted_members_of(list_members(reply), r@),
{
    match take_member(reply, "list") {
        Some(Json::Object(f)) => sorted_members(f),
        _ => Vec::new(),
    }
}

// ---------------------------------------------------------------------------
// Task cards
// ---------------------------------------------------------------------------

/// A card of a node's task queue: its key lies under `/queue/`, or it is an
/// old-style `/cmd` card. Other keys (results mirrored into the listing) are
/// skipped.
pub open spec fn is_task_key(k: Seq<char>) -> bool {
    contains_spec(k, "/queue/"@) || "/cmd"@.is_suffix_of(k)
}

/// An empty object.
pub open spec fn is_empty_object(j: Json) -> bool {
    j matches Json::Object(f) && f@.len() == 0
}

/// The task a card holds: its `value`, or an empty object without one.
pub open spec fn task_is(t: Json, entry: Json) -> bool {
    match entry.get_spec("value"@) {
        Some(v) => t == v,
        None => is_empty_object(t),
    }
}

/// The tasks of a queue listing: for each card key, in ascending key order,
/// the key and the task it holds.
pub open spec fn tasks_of(reply: Json, r: Seq<(String, Json)>) -> bool {
    let fields = list_members(reply);
    &&& keys_ascending(r)
    &&& forall|i: int|
        0 <= i < r.len() ==> is_task_key((#[trigger] r[i]).0@) && (member_spec(fields, r[i].0@) matches Some(
            e,
        ) && task_is(r[i].1, e))
    &&& forall|k: Seq<char>|
        is_task_key(k) && (#[trigger] member_spec(fields, k)) is Some ==> keys_of(r).contains(k)
}

/// The task cards of a queue listing, in key order (oldest first).
pub fn select_tasks(reply: Json) -> (r: Vec<(String, Json)>)
    ensures
        tasks_of(reply, r@),
{
    let ghost fields = list_members(reply);
    let mut rest = list_entries(reply);
    let ghost s0 = rest@;
    let mut out: Vec<(String, Json)> = Vec::new();
    let mut n: usize = 0;
    proof {
        assert(s0.len() == rest.len());
        assert(s0.skip(0) =~= s0);
    }
    while rest.len() > 0
        invariant
            n <= s0.len(),
            s0.len() <= usize::MAX,
            rest@ == s0.skip(n as int),
            sorted_members_of(fields, s0),
            keys_ascending(out@),
            forall|i: int, j: int|
                0 <= i < out.len() && n <= j < s0.len() ==> key_lt(
                    #[trigger] out@[i].0@,
                    #[trigger] s0[j].0@,
                ),
            forall|i: int|
                0 <= i < out.len() ==> is_task_key((#[trigger] out@[i]).0@) && (member_spec(
                    fields,
                    out@[i].0@,
                ) matches Some(e) && task_is(out@[i].1, e)),
            forall|m: int|
                0 <= m < n && is_task_key((#[trigger] s0[m]).0@) ==> keys_of(out@).contains(
                    s0[m].0@,
                ),
        decreases rest.len(),
    {
        let (k, e) = rest.remove(0);
        proof {
            assert(s0.skip(n as int)[0] == s0[n as int]);
            assert(rest@ =~= s0.skip(n + 1));
            assert(member_spec(fields, s0[n as int].0@) == Some(s0[n as int].1));
        }
        if contains(k.as_str(), "/queue/") || ends_with(k.as_str(), "/cmd") {
            proof {
                reveal_strlit("/queue/");
                reveal_strlit("/cmd");
            }
            let t = match take_member(e, "value") {
                Some(v) => v,
                None => Json::Object(Vec::new()),
            };
            let ghost before = out@;
            out.push((k, t));
            proof {
                assert forall|i: int, j: int|
                    0 <= i < out.len() && n + 1 <= j < s0.len() implies key_lt(
                    #[trigger] out@[i].0@,
                    #[trigger] s0[j].0@,
                ) by {
                    if i < before.len() {
                        assert(out@[i] == before[i]);
                    } else {
                        assert(out@[i].0@ == s0[n as int].0@);
                    }
                }
                assert forall|i: int, j: int| 0 <= i < j < out.len() implies key_lt(
                    #[trigger] out@[i].0@,
                    #[trigger] out@[j].0@,
                ) by {
                    assert(out@[i] == before[i]);
                    if j < before.len() {
                        assert(out@[j] == before[j]);
                    } else {
                        assert(key_lt(before[i].0@, s0[n as int].0@));
                    }
                }
                assert forall|m: int|
                    0 <= m < n + 1 && is_task_key((#[trigger] s0[m]).0@) implies keys_of(
                    out@,
                ).contains(s0[m].0@) by {
                    if m < n {
                        assert(keys_of(before).contains(s0[m].0@));
                        let w = choose|w: int| 0 <= w < keys_of(before).len() && keys_of(before)[w]
                            == s0[m].0@;
                        assert(keys_of(out@)[w] == s0[m].0@);
                    } else {
                        assert(keys_of(out@)[before.len() as int] == s0[m].0@);
                    }
                }
                assert forall|i: int| 0 <= i < out.len() implies is_task_key(
                    (#[trigger] out@[i]).0@,
                ) && (member_spec(fields, out@[i].0@) matches Some(ee) && task_is(out@[i].1, ee)) by {
                    if i < before.len() {
                        assert(out@[i] == before[i]);
                    }
                }
            }
        } else {
            proof {
                reveal_strlit("/queue/");
                reveal_strlit("/cmd");
            }
        }
        n = n + 1;
    }
    proof {
        assert forall|k: Seq<char>| is_task_key(k) && (#[trigger] member_spec(fields, k)) is Some
            implies keys_of(out@).contains(k) by {
            assert(keys_of(s0).contains(k));
            let w = choose|w: int| 0 <= w < keys_of(s0).len() && keys_of(s0)[w] == k;
            assert(s0[w].0@ == k);
        }
    }
    out
}

// ---------------------------------------------------------------------------
// Notes addressed to a node
// ---------------------------------------------------------------------------

/// The member `key` of an optional value (none when it is absent or not an
/// object).
pub open spec fn member_of(j: Option<Json>, key: Seq<char>) -> Option<Json> {
    match j {
        Some(x) => x.get_spec(key),
        None => None,
    }
}

/// A target field of a note: taken from the note itself, or, when the note
/// lacks it, from the note's inner `value` object.
pub open spec fn target_field(note: Option<Json>, field: Seq<char>) -> Option<Json> {
    match member_of(note, field) {
        Some(v) => Some(v),
        None => member_of(member_of(note, "value"@), field),
    }
}

/// A string that contains the node's name.
pub open spec fn names_node(j: Option<Json>, node: Seq<char>) -> bool {
    match j {
        Some(Json::Str(t)) => contains_spec(t@, node),
        _ => false,
    }
}

/// One of the items is a string naming the node.
pub open spec fn some_item_names(items: Seq<Json>, node: Seq<char>) -> bool {
    exists|i: int| 0 <= i < items.len() && names_node(Some(#[trigger] items[i]), node)
}

/// The note's inner `value` lists a mention of the node under `mentions`.
pub open spec fn mentions_node(note: Option<Json>, node: Seq<char>) -> bool {
    match member_of(member_of(note, "value"@), "mentions"@) {
        Some(Json::Array(items)) => some_item_names(items@, node),
        _ => false,
    }
}

/// The key lies under `notes/collab/<p>` for one of the prefixes `p`.
pub open spec fn under_prefix(key: Seq<char>, ps: Seq<Seq<char>>) -> bool {
    exists|i: int| 0 <= i < ps.len() && ("notes/collab/"@ + #[trigger] ps[i]).is_prefix_of(key)
}

/// The key lies under one of the node's collab subscriptions.
pub open spec fn subscribed(key: Seq<char>, subs: Option<Seq<Seq<char>>>) -> bool {
    match subs {
        Some(ps) => under_prefix(key, ps),
        None => false,
    }
}

/// A collab note is meant for the node when its `to` or `target` field,
/// or one of its mentions, names the node, or the node subscribed to it.
pub open spec fn targets_node(
    node: Seq<char>,
    key: Seq<char>,
    note: Option<Json>,
    subs: Option<Seq<Seq<char>>>,
) -> bool {
    ||| names_node(target_field(note, "to"@), node)
    ||| names_node(target_field(note, "target"@), node)
    ||| mentions_node(note, node)
    ||| subscribed(key, subs)
}

/// The notes a node takes in: its own (`notes/<node>/...`), and collab
/// notes (`notes/collab/...`): all of them at the hub (`mac-mini`), only
/// those meant for it elsewhere.
pub open spec fn is_relevant(
    node: Seq<char>,
    key: Seq<char>,
    entry: Json,
    subs: Option<Seq<Seq<char>>>,
) -> bool {
    ||| ("notes/"@ + node + "/"@).is_prefix_of(key)
    ||| "notes/collab/"@.is_prefix_of(key) && (node == "mac-mini"@ || targets_node(
        node,
        key,
        entry.get_spec("value"@),
        subs,
    ))
}

/// A node takes in its own notes, whatever they hold.
pub proof fn lemma_own_notes_taken(
    node: Seq<char>,
    key: Seq<char>,
    entry: Json,
    subs: Option<Seq<Seq<char>>>,
)
    requires
        ("notes/"@ + node + "/"@).is_prefix_of(key),
    ensures
        is_relevant(node, key, entry, subs),
{
}

/// The hub (`mac-mini`) takes in every collab note.
pub proof fn lemma_hub_takes_collab(key: Seq<char>, entry: Json, subs: Option<Seq<Seq<char>>>)
    requires
        "notes/collab/"@.is_prefix_of(key),
    ensures
        is_relevant("mac-mini"@, key, entry, subs),
{
}

/// A collab note whose `to` or `target` field is a string naming the node
/// is taken in: the field of the note itself counts.
pub proof fn lemma_collab_addressed_on_top(
    node: Seq<char>,
    key: Seq<char>,
    entry: Json,
    subs: Option<Seq<Seq<char>>>,
    field: Seq<char>,
    note: Json,
    t: String,
)
    requires
        "notes/collab/"@.is_prefix_of(key),
        field == "to"@ || field == "target"@,
        entry.get_spec("value"@) == Some(note),
        note.get_spec(field) == Some(Json::Str(t)),
        contains_spec(t@, node),
    ensures
        is_relevant(node, key, entry, subs),
{
}

/// A collab note without a `to` (or `target`) field of its own, whose inner
/// `value` object has one that is a string naming the node, is taken in.
pub proof fn lemma_collab_addressed_inside(
    node: Seq<char>,
    key: Seq<char>,
    entry: Json,
    subs: Option<Seq<Seq<char>>>,
    field: Seq<char>,
    note: Json,
    inner: Json,
    t: String,
)
    requires
        "notes/collab/"@.is_prefix_of(key),
        field == "to"@ || field == "target"@,
        entry.get_spec("value"@) == Some(note),
        note.get_spec(field) is None,
        note.get_spec("value"@) == Some(inner),
        inner.get_spec(field) == Some(Json::Str(t)),
        contains_spec(t@, node),
    ensures
        is_relevant(node, key, entry, subs),
{
}

/// A collab note whose inner `value.mentions` list holds a string naming
/// the node is taken in.
pub proof fn lemma_collab_mentions_node(
    node: Seq<char>,
    key: Seq<char>,
    entry: Json,
    subs: Option<Seq<Seq<char>>>,
    note: Json,
    inner: Json,
    items: Vec<Json>,
    i: int,
    t: String,
)
    requires
        "notes/collab/"@.is_prefix_of(key),
        entry.get_spec("value"@) == Some(note),
        note.get_spec("value"@) == Some(inner),
        inner.get_spec("mentions"@) == Some(Json::Array(items)),
        0 <= i < items@.len(),
        items@[i] == Json::Str(t),
        contains_spec(t@, node),
    ensures
        is_relevant(node, key, entry, subs),
{
    assert(names_node(Some(items@[i]), node));
    assert(some_item_names(items@, node));
    assert(member_of(Some(note), "value"@) == Some(inner));
    assert(member_of(member_of(Some(note), "value"@), "mentions"@) == Some(Json::Array(items)));
    assert(mentions_node(Some(note), node));
    assert(targets_node(node, key, entry.get_spec("value"@), subs));
}

/// A collab note under one of the node's subscribed prefixes is taken in.
pub proof fn lemma_collab_subscribed(
    node: Seq<char>,
    key: Seq<char>,
    entry: Json,
    ps: Seq<Seq<char>>,
    i: int,
)
    requires
        0 <= i < ps.len(),
        ("notes/collab/"@ + ps[i]).is_prefix_of(key),
    ensures
        is_relevant(node, key, entry, Some(ps)),
{
    reveal_strlit("notes/collab/");
    assert("notes/collab/"@.is_prefix_of(key)) by {
        assert forall|j: int| 0 <= j < "notes/collab/"@.len() implies "notes/collab/"@[j] == key[j] by {
            assert(("notes/collab/"@ + ps[i])[j] == "notes/collab/"@[j]);
        }
    }
    assert(under_prefix(key, ps));
}

/// A collab note that names nobody is not taken in by a node other than
/// the hub that did not subscribe to it: no `to`, `target` or inner
/// `value` in the note.
pub proof fn lemma_untargeted_collab_skipped(
    node: Seq<char>,
    key: Seq<char>,
    entry: Json,
    note: Json,
)
    requires
        node != "mac-mini"@,
        !("notes/"@ + node + "/"@).is_prefix_of(key),
        entry.get_spec("value"@) == Some(note),
        note.get_spec("to"@) is None,
        note.get_spec("target"@) is None,
        note.get_spec("value"@) is None,
    ensures
        !is_relevant(node, key, entry, None),
{
}

/// A note that is neither the node's own nor under `notes/collab/` is never
/// taken in.
pub proof fn lemma_other_notes_skipped(
    node: Seq<char>,
    key: Seq<char>,
    entry: Json,
    subs: Option<Seq<Seq<char>>>,
)
    requires
        !("notes/"@ + node + "/"@).is_prefix_of(key),
        !"notes/collab/"@.is_prefix_of(key),
    ensures
        !is_relevant(node, key, entry, subs),
{
}

/// The views of a list of strings.
pub open spec fn string_views(v: Seq<String>) -> Seq<Seq<char>> {
    v.map_values(|s: String| s@)
}

/// The views of an optional list of strings.
pub open spec fn subs_view(subs: Option<Vec<String>>) -> Option<Seq<Seq<char>>> {
    match subs {
        Some(v) => Some(string_views(v@)),
        None => None,
    }
}

/// Whether an optional value is a string that contains the node's name.
fn names_node_exec(j: Option<&Json>, node: &str) -> (r: bool)
    ensures
        r == names_node(
            match j {
                Some(x) => Some(*x),
                None => None,
            },
            node@,
        ),
{
    match j {
        Some(Json::Str(t)) => contains(t.as_str(), node),
        _ => false,
    }
}

/// The member `key` of an optional value.
fn member_of_exec<'a>(j: Option<&'a Json>, key: &str) -> (r: Option<&'a Json>)
    ensures
        match r {
            Some(x) => member_of(
                match j {
                    Some(y) => Some(*y),
                    None => None,
                },
                key@,
            ) == Some(*x),
            None => member_of(
                match j {
                    Some(y) => Some(*y),
                    None => None,
                },
                key@,
            ) is None,
        },
{
    match j {
        Some(x) => x.get(key),
        None => None,
    }
}

/// The optional value behind an optional reference.
pub open spec fn deref_opt(j: Option<&Json>) -> Option<Json> {
    match j {
        Some(x) => Some(*x),
        None => None,
    }
}

/// Whether a collab note is meant for the node.
#[verifier::loop_isolation(false)]
fn targets_node_exec(node: &str, key: &str, note: Option<&Json>, subs: &Option<Vec<String>>) -> (r:
    bool)
    ensures
        r == targets_node(node@, key@, deref_opt(note), subs_view(*subs)),
{
    let inner = member_of_exec(note, "value");
    let to_top = member_of_exec(note, "to");
    let to = match to_top {
        Some(x) => Some(x),
        None => member_of_exec(inner, "to"),
    };
    if names_node_exec(to, node) {
        return true;
    }
    let target_top = member_of_exec(note, "target");
    let target = match target_top {
        Some(x) => Some(x),
        None => member_of_exec(inner, "target"),
    };
    if names_node_exec(target, node) {
        return true;
    }
    match member_of_exec(inner, "mentions") {
        Some(Json::Array(items)) => {
            let mut i: usize = 0;
            while i < items.len()
                invariant
                    i <= items.len(),
                    forall|m: int| 0 <= m < i ==> !names_node(Some(#[trigger] items@[m]), node@),
                decreases items.len() - i,
            {
                if names_node_exec(Some(&items[i]), node) {
                    return true;
                }
                i = i + 1;
            }
        },
        _ => {},
    }
    match subs {
        Some(ps) => {
            let mut i: usize = 0;
            while i < ps.len()
                invariant
                    i <= ps.len(),
                    forall|m: int|
                        0 <= m < i ==> !("notes/collab/"@ + #[trigger] string_views(ps@)[m]).is_prefix_of(
                            key@,
                        ),
                decreases ps.len() - i,
            {
                let mut pre = String::new();
                crate::text::push_str(&mut pre, "notes/collab/");
                crate::text::push_str(&mut pre, ps[i].as_str());
                if starts_with(key, pre.as_str()) {
                    proof {
                        assert(string_views(ps@).len() == ps@.len());
                        assert(string_views(ps@)[i as int] == ps@[i as int]@);
                        assert(pre@ == "notes/collab/"@ + ps@[i as int]@);
                        assert(("notes/collab/"@ + string_views(ps@)[i as int]).is_prefix_of(key@));
                        assert(subs_view(*subs) == Some(string_views(ps@)));
                        let sv = string_views(ps@);
                        assert(0 <= i < sv.len() && ("notes/collab/"@ + sv[i as int]).is_prefix_of(key@));
                        assert(under_prefix(key@, sv));
                    }
                    return true;
                }
                i = i + 1;
            }
            false
        },
        None => false,
    }
}

/// Whether a listed note is one the node takes in.
pub fn is_relevant_exec(node: &str, key: &str, entry: &Json, subs: &Option<Vec<String>>) -> (r:
    bool)
    ensures
        r == is_relevant(node@, key@, *entry, subs_view(*subs)),
{
    let mut own = String::new();
    crate::text::push_str(&mut own, "notes/");
    crate::text::push_str(&mut own, node);
    crate::text::push_str(&mut own, "/");
    if starts_with(key, own.as_str()) {
        return true;
    }
    if !starts_with(key, "notes/collab/") {
        return false;
    }
    if same_text(node, "mac-mini") {
        return true;
    }
    targets_node_exec(node, key, entry.get("value"), subs)
}

/// The notes of a listing the node takes in: for each relevant key that
/// holds a `value`, in ascending key order, the key and that value.
pub open spec fn notes_of(
    reply: Json,
    node: Seq<char>,
    subs: Option<Seq<Seq<char>>>,
    r: Seq<(String, Json)>,
) -> bool {
    let fields = list_members(reply);
    &&& keys_ascending(r)
    &&& forall|i: int|
        0 <= i < r.len() ==> (member_spec(fields, (#[trigger] r[i]).0@) matches Some(e)
            && is_relevant(node, r[i].0@, e, subs) && e.get_spec("value"@) == Some(r[i].1))
    &&& forall|k: Seq<char>|
        (#[trigger] member_spec(fields, k) matches Some(e) && is_relevant(node, k, e, subs)
            && e.get_spec("value"@) is Some) ==> keys_of(r).contains(k)
}

/// The notes of a listing that the node takes in, in key order.
pub fn select_notes(reply: Json, node: &str, subs: &Option<Vec<String>>) -> (r: Vec<(String, Json)>)
    ensures
        notes_of(reply, node@, subs_view(*subs), r@),
{
    let ghost fields = list_members(reply);
    let ghost sv = subs_view(*subs);
    let mut rest = list_entries(reply);
    let ghost s0 = rest@;
    let mut out: Vec<(String, Json)> = Vec::new();
    let mut n: usize = 0;
    proof {
        assert(s0.len() == rest.len());
        assert(s0.skip(0) =~= s0);
    }
    while rest.len() > 0
        invariant
            n <= s0.len(),
            s0.len() <= usize::MAX,
            sv == subs_view(*subs),
            rest@ == s0.skip(n as int),
            sorted_members_of(fields, s0),
            keys_ascending(out@),
            forall|i: int, j: int|
                0 <= i < out.len() && n <= j < s0.len() ==> key_lt(
                    #[trigger] out@[i].0@,
                    #[trigger] s0[j].0@,
                ),
            forall|i: int|
                0 <= i < out.len() ==> (member_spec(fields, (#[trigger] out@[i]).0@) matches Some(e)
                    && is_relevant(node@, out@[i].0@, e, sv) && e.get_spec("value"@) == Some(
                    out@[i].1,
                )),
            forall|m: int|
                0 <= m < n && is_relevant(node@, (#[trigger] s0[m]).0@, s0[m].1, sv)
                    && s0[m].1.get_spec("value"@) is Some ==> keys_of(out@).contains(s0[m].0@),
        decreases rest.len(),
    {
        let (k, e) = rest.remove(0);
        proof {
            assert(s0.skip(n as int)[0] == s0[n as int]);
            assert(rest@ =~= s0.skip(n + 1));
            assert(member_spec(fields, s0[n as int].0@) == Some(s0[n as int].1));
        }
        let relevant = is_relevant_exec(node, k.as_str(), &e, subs);
        let ghost ge = e;
        if relevant {
            match take_member(e, "value") {
                Some(v) => {
                    let ghost before = out@;
                    out.push((k, v));
                    proof {
                        assert forall|i: int, j: int|
                            0 <= i < out.len() && n + 1 <= j < s0.len() implies key_lt(
                            #[trigger] out@[i].0@,
                            #[trigger] s0[j].0@,
                        ) by {
                            if i < before.len() {
                                assert(out@[i] == before[i]);
                            } else {
                                assert(out@[i].0@ == s0[n as int].0@);
                            }
                        }
                        assert forall|i: int, j: int| 0 <= i < j < out.len() implies key_lt(
                            #[trigger] out@[i].0@,
                            #[trigger] out@[j].0@,
                        ) by {
                            assert(out@[i] == before[i]);
                            if j < before.len() {
                                assert(out@[j] == before[j]);
                            } else {
                                assert(key_lt(before[i].0@, s0[n as int].0@));
                            }
                        }
                        assert forall|m: int|
                            0 <= m < n + 1 && is_relevant(node@, (#[trigger] s0[m]).0@, s0[m].1, sv)
                                && s0[m].1.get_spec("value"@) is Some implies keys_of(
                            out@,
                        ).contains(s0[m].0@) by {
                            if m < n {
                                assert(keys_of(before).contains(s0[m].0@));
                                let w = choose|w: int|
                                    0 <= w < keys_of(before).len() && keys_of(before)[w]
                                        == s0[m].0@;
                                assert(keys_of(out@)[w] == s0[m].0@);
                            } else {
                                assert(keys_of(out@)[before.len() as int] == s0[m].0@);
                            }
                        }
                        assert forall|i: int| 0 <= i < out.len() implies (member_spec(
                            fields,
                            (#[trigger] out@[i]).0@,
                        ) matches Some(ee) && is_relevant(node@, out@[i].0@, ee, sv)
                            && ee.get_spec("value"@) == Some(out@[i].1)) by {
                            if i < before.len() {
                                assert(out@[i] == before[i]);
                            }
                        }
                    }
                },
                None => {},
            }
        }
        n = n + 1;
    }
    proof {
        assert forall|k: Seq<char>|
            (#[trigger] member_spec(fields, k) matches Some(e) && is_relevant(node@, k, e, sv)
                && e.get_spec("value"@) is Some) implies keys_of(out@).contains(k) by {
            assert(keys_of(s0).contains(k));
            let w = choose|w: int| 0 <= w < keys_of(s0).len() && keys_of(s0)[w] == k;
            assert(s0[w].0@ == k);
        }
    }
    out
}

} // verus!
